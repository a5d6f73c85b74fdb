use vstd::prelude::*;
use crate::assemble::{
    all_macros_valid, assemble, chars_of, macro_parts, prologue, slot_text, string_from_chars,
    strs, MalformedMacro, PreprocessedShaders,
};
use crate::directive::{kind_of, LineKindView};
use crate::scan::{bump, initial_acc, line_effect, line_marker, with_error, AccView, Accumulators};
use crate::types::{PipelineStages, Stage};

verus! {

/// A file being scanned: its text, the position of its next line, that
/// line's number, the file's index in the source map, and whether a line
/// marker is owed before its next text line.
pub struct Frame {
    text: Vec<char>,
    pos: usize,
    line: u64,
    index: usize,
    pending: bool,
}

pub ghost struct FrameView {
    pub text: Seq<char>,
    pub pos: nat,
    pub line: nat,
    pub index: nat,
    pub pending: bool,
}

impl View for Frame {
    type V = FrameView;

    closed spec fn view(&self) -> FrameView {
        FrameView {
            text: self.text@,
            pos: self.pos as nat,
            line: self.line as nat,
            index: self.index as nat,
            pending: self.pending,
        }
    }
}

/// Expands one combined source. Each nested-file line is handed to the
/// caller, which reads the file and passes its text back with `enter`, or
/// reports with `skip` that it could not be opened.
pub struct Preprocessor {
    acc: Accumulators,
    source_map: Vec<String>,
    frames: Vec<Frame>,
}

pub ghost struct PreView {
    pub acc: AccView,
    /// The path of each file, in the order the files were entered.
    pub map: Seq<Seq<char>>,
    /// The files being scanned, the innermost last.
    pub frames: Seq<FrameView>,
}

impl View for Preprocessor {
    type V = PreView;

    closed spec fn view(&self) -> PreView {
        PreView {
            acc: self.acc@,
            map: self.source_map@.map_values(|s: String| s@),
            frames: self.frames@.map_values(|f: Frame| f@),
        }
    }
}

/// What the caller is asked to do next.
pub enum Action {
    /// Read the file at `path`, relative to the directory of file `from`.
    Load { from: usize, path: String },
    /// Every file has been scanned.
    Done,
}

pub ghost enum ActionView {
    Load { from: nat, path: Seq<char> },
    Done,
}

impl View for Action {
    type V = ActionView;

    open spec fn view(&self) -> ActionView {
        match self {
            Action::Load { from, path } => ActionView::Load { from: *from as nat, path: path@ },
            Action::Done => ActionView::Done,
        }
    }
}

/// First position at or after `i` that holds a newline (or the end).
pub open spec fn newline_at(t: Seq<char>, i: int) -> int
    decreases t.len() - i,
{
    if i < 0 || i >= t.len() || t[i] == '\n' {
        i
    } else {
        newline_at(t, i + 1)
    }
}

/// The line that starts at `pos`, without its newline (nor a carriage
/// return before that newline).
pub open spec fn line_at(t: Seq<char>, pos: int) -> Seq<char> {
    let j = newline_at(t, pos);
    if j < t.len() && j > pos && t[j - 1] == '\r' {
        t.subrange(pos, j - 1)
    } else {
        t.subrange(pos, j)
    }
}

/// Where the line after the one at `pos` starts.
pub open spec fn next_line_at(t: Seq<char>, pos: int) -> int {
    let j = newline_at(t, pos);
    if pos <= j < t.len() {
        j + 1
    } else {
        t.len() as int
    }
}

/// The state after the innermost file's next line is taken, and the path
/// that line asks for, if any.
pub open spec fn step(v: PreView) -> (PreView, Option<Seq<char>>) {
    let top = v.frames.last();
    let e = line_effect(v.acc, line_at(top.text, top.pos as int), top.line, top.index, top.pending);
    let top2 = FrameView {
        pos: next_line_at(top.text, top.pos as int) as nat,
        line: bump(top.line as u64) as nat,
        pending: e.1,
        ..top
    };
    (PreView { acc: e.0, frames: v.frames.drop_last().push(top2), ..v }, e.2)
}

pub open spec fn top_left(v: PreView) -> int {
    if v.frames.len() > 0 {
        v.frames.last().text.len() - v.frames.last().pos
    } else {
        0
    }
}

/// Scanning until a nested file is asked for, or until every file is done.
pub open spec fn run(v: PreView) -> (PreView, ActionView)
    decreases v.frames.len(), top_left(v),
{
    if v.frames.len() == 0 {
        (v, ActionView::Done)
    } else if v.frames.last().pos >= v.frames.last().text.len() {
        run(PreView { frames: v.frames.drop_last(), ..v })
    } else {
        let (w, req) = step(v);
        match req {
            Some(p) => (w, ActionView::Load { from: v.frames.last().index, path: p }),
            None => run(w),
        }
    }
}

/// The state right after a file is entered.
pub open spec fn entered(v: PreView, path: Seq<char>, text: Seq<char>) -> PreView {
    PreView {
        map: v.map.push(path),
        frames: v.frames.push(
            FrameView { text: text, pos: 0, line: 1, index: v.map.len(), pending: false },
        ),
        ..v
    }
}

pub open spec fn start(path: Seq<char>, text: Seq<char>) -> PreView {
    entered(PreView { acc: initial_acc(), map: seq![], frames: seq![] }, path, text)
}

/// Every file being scanned has an entry in the source map.
pub open spec fn well_formed(v: PreView) -> bool {
    &&& v.map.len() >= 1
    &&& forall|i: int|
        0 <= i < v.frames.len() ==> (#[trigger] v.frames[i]).index < v.map.len()
            && v.frames[i].pos <= v.frames[i].text.len()
}

proof fn lemma_newline_at_bounds(t: Seq<char>, i: int)
    requires
        0 <= i <= t.len(),
    ensures
        i <= newline_at(t, i) <= t.len(),
        newline_at(t, i) < t.len() ==> t[newline_at(t, i)] == '\n',
    decreases t.len() - i,
{
    if i < t.len() && t[i] != '\n' {
        lemma_newline_at_bounds(t, i + 1);
    }
}

/// Taking a line keeps the state well formed.
pub proof fn lemma_step_well_formed(v: PreView)
    requires
        well_formed(v),
        v.frames.len() > 0,
        v.frames.last().pos < v.frames.last().text.len(),
    ensures
        well_formed(step(v).0),
        step(v).0.map == v.map,
        step(v).0.frames.len() == v.frames.len(),
{
    let top = v.frames.last();
    lemma_newline_at_bounds(top.text, top.pos as int);
    let w = step(v).0;
    assert forall|i: int| 0 <= i < w.frames.len() implies (#[trigger] w.frames[i]).index
        < w.map.len() && w.frames[i].pos <= w.frames[i].text.len() by {
        if i < v.frames.len() - 1 {
            assert(w.frames[i] == v.frames[i]);
        } else {
            assert(v.frames[v.frames.len() - 1] == top);
        }
    }
}

/// Scanning keeps the state well formed.
pub proof fn lemma_run_well_formed(v: PreView)
    requires
        well_formed(v),
    ensures
        well_formed(run(v).0),
        run(v).0.map == v.map,
        run(v).1 is Load ==> run(v).1->from < v.map.len() && run(v).0.frames.len() > 0,
    decreases v.frames.len(), top_left(v),
{
    if v.frames.len() == 0 {
    } else if v.frames.last().pos >= v.frames.last().text.len() {
        let w = PreView { frames: v.frames.drop_last(), ..v };
        assert forall|i: int| 0 <= i < w.frames.len() implies (#[trigger] w.frames[i]).index
            < w.map.len() && w.frames[i].pos <= w.frames[i].text.len() by {
            assert(w.frames[i] == v.frames[i]);
        }
        lemma_run_well_formed(w);
    } else {
        lemma_step_well_formed(v);
        assert(v.frames[v.frames.len() - 1] == v.frames.last());
        let (w, req) = step(v);
        lemma_newline_at_bounds(v.frames.last().text, v.frames.last().pos as int);
        assert(w.frames.last().pos > v.frames.last().pos);
        if req is None {
            lemma_run_well_formed(w);
        }
    }
}

/// Every line marker written into the body names the file whose line
/// follows it, and that file has an entry in the source map.
pub proof fn lemma_marker_names_known_file(v: PreView)
    requires
        well_formed(v),
        v.frames.len() > 0,
        v.frames.last().pos < v.frames.last().text.len(),
        v.frames.last().pending,
        kind_of(line_at(v.frames.last().text, v.frames.last().pos as int)) == LineKindView::Text,
    ensures
        v.frames.last().index < v.map.len(),
        step(v).0.acc.body == v.acc.body + line_marker(
            v.frames.last().line,
            v.frames.last().index,
        ) + line_at(v.frames.last().text, v.frames.last().pos as int) + seq!['\n'],
{
    assert(v.frames[v.frames.len() - 1] == v.frames.last());
}

/// From `pos` on, every line of `t` is plain text, ends with a newline, and
/// has no carriage return before that newline.
pub open spec fn plain_from(t: Seq<char>, pos: int) -> bool
    decreases t.len() - pos,
{
    if pos < 0 || pos >= t.len() {
        true
    } else {
        let j = newline_at(t, pos);
        &&& pos <= j < t.len()
        &&& !(j > pos && t[j - 1] == '\r')
        &&& kind_of(line_at(t, pos)) == LineKindView::Text
        &&& plain_from(t, j + 1)
    }
}

proof fn lemma_plain_run(v: PreView)
    requires
        v.frames.len() == 1,
        !v.frames[0].pending,
        v.frames[0].pos <= v.frames[0].text.len(),
        plain_from(v.frames[0].text, v.frames[0].pos as int),
    ensures
        run(v).1 == ActionView::Done,
        run(v).0.acc == (AccView {
            body: v.acc.body + v.frames[0].text.subrange(v.frames[0].pos as int, v.frames[0].text.len() as int),
            ..v.acc
        }),
    decreases top_left(v),
{
    let top = v.frames[0];
    assert(v.frames.last() == top);
    let t = top.text;
    let pos = top.pos as int;
    if pos >= t.len() {
        let w = PreView { frames: v.frames.drop_last(), ..v };
        assert(w.frames.len() == 0);
        assert(run(w) == (w, ActionView::Done));
        assert(run(v) == run(w));
        assert(t.subrange(pos, t.len() as int) =~= Seq::<char>::empty());
        assert(v.acc.body + Seq::<char>::empty() =~= v.acc.body);
    } else {
        lemma_newline_at_bounds(t, pos);
        let j = newline_at(t, pos);
        let (w, req) = step(v);
        assert(line_at(t, pos) == t.subrange(pos, j));
        assert(req is None);
        assert(run(v) == run(w));
        assert(w.acc == (AccView { body: v.acc.body + t.subrange(pos, j) + seq!['\n'], ..v.acc }));
        assert(w.frames[0].pos == j + 1);
        assert(w.frames[0].text == t);
        assert(!w.frames[0].pending);
        assert(t.subrange(pos, j) + seq!['\n'] =~= t.subrange(pos, j + 1));
        lemma_plain_run(w);
        assert(w.acc.body + t.subrange(j + 1, t.len() as int) =~= v.acc.body + t.subrange(pos, t.len() as int));
    }
}

/// A source without directives, whose lines all end with a bare newline,
/// is scanned in one go into its own text as the body, with no stage,
/// version, layout, topology, error or warning.
pub proof fn lemma_plain_source(path: Seq<char>, t: Seq<char>)
    requires
        plain_from(t, 0),
    ensures
        run(start(path, t)).1 == ActionView::Done,
        run(start(path, t)).0.acc == (AccView { body: t, ..initial_acc() }),
        run(start(path, t)).0.acc.stages == PipelineStages::none(),
        forall|s: Stage, pro: Seq<char>| #[trigger] slot_text(PipelineStages::none(), pro, s, t) is None,
{
    let v = start(path, t);
    assert(v.frames[0].text == t);
    lemma_plain_run(v);
    assert(t.subrange(0, t.len() as int) =~= t);
    assert(Seq::<char>::empty() + t =~= t);
}

impl Preprocessor {
    /// Starts on the root file at `path`, whose text is `source`.
    pub fn new(path: &str, source: &str) -> (r: Preprocessor)
        ensures
            r@ == start(path@, source@),
            well_formed(r@),
    {
        let mut map: Vec<String> = Vec::new();
        map.push(path.to_owned());
        let mut frames: Vec<Frame> = Vec::new();
        frames.push(Frame { text: chars_of(source), pos: 0, line: 1, index: 0, pending: false });
        let r = Preprocessor { acc: Accumulators::new(), source_map: map, frames: frames };
        assert(r@.map =~= seq![path@]);
        assert(r@.frames =~= seq![FrameView { text: source@, pos: 0, line: 1, index: 0, pending: false }]);
        r
    }

    /// Scans until a nested file is asked for, or until every file is done.
    pub fn advance(&mut self) -> (r: Action)
        requires
            well_formed(old(self)@),
        ensures
            (final(self)@, r@) == run(old(self)@),
            well_formed(final(self)@),
    {
        proof {
            lemma_run_well_formed(self@);
        }
        loop
            invariant
                well_formed(self@),
                run(self@) == run(old(self)@),
            decreases self@.frames.len(), top_left(self@),
        {
            let ghost v = self@;
            let f = self.frames.pop();
            let mut top = match f {
                Some(t) => t,
                None => {
                    assert(v.frames.len() == 0);
                    return Action::Done;
                },
            };
            assert(v.frames.last() == top@);
            assert(v.frames.drop_last() =~= self@.frames);
            if top.pos >= top.text.len() {
                proof {
                    let w = PreView { frames: v.frames.drop_last(), ..v };
                    assert(self@ == w);
                    assert forall|i: int| 0 <= i < w.frames.len() implies (
                    #[trigger] w.frames[i]).index < w.map.len() && w.frames[i].pos
                        <= w.frames[i].text.len() by {
                        assert(w.frames[i] == v.frames[i]);
                    }
                }
                continue;
            }
            let ghost t = top@;
            let (line, next) = take_line(&top.text, top.pos);
            let req = self.acc.apply_line(&line, top.line, top.index as u64, &mut top.pending);
            top.pos = next;
            if top.line < u64::MAX {
                top.line = top.line + 1;
            }
            let from = top.index;
            self.frames.push(top);
            proof {
                lemma_step_well_formed(v);
                lemma_newline_at_bounds(t.text, t.pos as int);
                assert(self@.frames =~= step(v).0.frames);
                assert(self@ == step(v).0);
            }
            match req {
                Some(p) => {
                    return Action::Load { from: from, path: string_from_chars(&p) };
                },
                None => {},
            }
        }
    }

    /// Scans the text `source` of the file at `path`, which the last
    /// `advance` asked for.
    pub fn enter(&mut self, path: &str, source: &str)
        requires
            well_formed(old(self)@),
        ensures
            final(self)@ == entered(old(self)@, path@, source@),
            well_formed(final(self)@),
    {
        let index = self.source_map.len();
        self.source_map.push(path.to_owned());
        self.frames.push(Frame { text: chars_of(source), pos: 0, line: 1, index: index, pending: false });
        assert(self@.map =~= old(self)@.map.push(path@));
        assert(self@.frames =~= old(self)@.frames.push(
            FrameView { text: source@, pos: 0, line: 1, index: index as nat, pending: false },
        ));
        proof {
            let w = self@;
            assert forall|i: int| 0 <= i < w.frames.len() implies (#[trigger] w.frames[i]).index
                < w.map.len() && w.frames[i].pos <= w.frames[i].text.len() by {
                if i < old(self)@.frames.len() {
                    assert(w.frames[i] == old(self)@.frames[i]);
                }
            }
        }
    }

    /// Records that the file the last `advance` asked for could not be read.
    pub fn skip(&mut self)
        requires
            well_formed(old(self)@),
        ensures
            final(self)@ == (PreView { acc: with_error(old(self)@.acc), ..old(self)@ }),
            well_formed(final(self)@),
    {
        if self.acc.errors < u64::MAX {
            self.acc.errors = self.acc.errors + 1;
        }
    }

    /// The path of file `i` of the source map.
    pub fn source_path(&self, i: usize) -> (r: &String)
        requires
            i < self@.map.len(),
        ensures
            r@ == self@.map[i as int],
    {
        &self.source_map[i]
    }

    /// How many files the source map holds.
    pub fn source_count(&self) -> (r: usize)
        ensures
            r == self@.map.len(),
    {
        self.source_map.len()
    }

    /// Errors reported so far.
    pub fn errors(&self) -> (r: u64)
        ensures
            r == self@.acc.errors,
    {
        self.acc.errors
    }

    /// Warnings reported so far.
    pub fn warnings(&self) -> (r: u64)
        ensures
            r == self@.acc.warnings,
    {
        self.acc.warnings
    }

    /// The combined body so far.
    pub fn body(&self) -> (r: String)
        ensures
            r@ == self@.acc.body,
    {
        string_from_chars(&self.acc.body)
    }

    /// The stages, and the variants of the combined body for each of them,
    /// or the first of `macros` that is malformed.
    pub fn finish(self, macros: &[&str]) -> (r: Result<
        (PipelineStages, PreprocessedShaders),
        MalformedMacro,
    >)
        ensures
            match r {
                Ok((st, p)) => {
                    &&& all_macros_valid(strs(macros@))
                    &&& st == self@.acc.stages
                    &&& forall|s: Stage| #[trigger] p.slot(s) == slot_text(
                        st,
                        prologue(self@.acc.version, strs(macros@)),
                        s,
                        self@.acc.body,
                    )
                    &&& (match p.input_layout {
                        Some(l) => self@.acc.input_layout == Some(l@),
                        None => self@.acc.input_layout is None,
                    })
                    &&& p.primitive_topology == self@.acc.topology
                },
                Err(e) => e.index < macros@.len() && macro_parts(macros@[e.index as int]@) is None
                    && forall|i: int|
                        0 <= i < e.index ==> (#[trigger] macro_parts(macros@[i]@)) is Some,
            },
    {
        let acc = self.acc;
        let st = acc.stages;
        match assemble(st, acc.version, &acc.body, macros, acc.input_layout, acc.topology) {
            Ok(p) => Ok((st, p)),
            Err(e) => Err(e),
        }
    }
}

/// The line at `pos` of `t`, and where the next one starts.
fn take_line(t: &Vec<char>, pos: usize) -> (r: (Vec<char>, usize))
    requires
        pos < t@.len(),
    ensures
        r.0@ == line_at(t@, pos as int),
        r.1 == next_line_at(t@, pos as int),
{
    let mut j: usize = pos;
    while j < t.len() && t[j] != '\n'
        invariant
            pos <= j <= t@.len(),
            newline_at(t@, pos as int) == newline_at(t@, j as int),
        decreases t@.len() - j,
    {
        j = j + 1;
    }
    let end = if j < t.len() && j > pos && t[j - 1] == '\r' {
        j - 1
    } else {
        j
    };
    let next = if j < t.len() {
        j + 1
    } else {
        t.len()
    };
    (crate::text::slice_of(t, pos, end), next)
}

} // verus!
