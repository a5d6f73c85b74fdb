use vstd::prelude::*;
use crate::directive::{classify_line, classify_pragma, kind_of, pragma_of, views, LineKind, LineKindView, Pragma, PragmaView};
use crate::pragma::{layout_of, parse_layout, stage_of_word, stage_named, topology_named, topology_of_word};
use crate::text::{append_chars, decimal, decimal_of};
use crate::types::{PipelineStages, PrimitiveTopology, VertexAttribute};

verus! {

/// Everything that scanning the files of one combined source accumulates.
pub struct Accumulators {
    /// The combined body: text lines, with line markers where lines were dropped.
    pub body: Vec<char>,
    /// The last version number seen.
    pub version: Option<u32>,
    pub stages: PipelineStages,
    pub input_layout: Option<Vec<VertexAttribute>>,
    pub topology: Option<PrimitiveTopology>,
    pub errors: u64,
    pub warnings: u64,
}

pub ghost struct AccView {
    pub body: Seq<char>,
    pub version: Option<u32>,
    pub stages: PipelineStages,
    pub input_layout: Option<Seq<VertexAttribute>>,
    pub topology: Option<PrimitiveTopology>,
    pub errors: u64,
    pub warnings: u64,
}

impl View for Accumulators {
    type V = AccView;

    open spec fn view(&self) -> AccView {
        AccView {
            body: self.body@,
            version: self.version,
            stages: self.stages,
            input_layout: match self.input_layout {
                Some(v) => Some(v@),
                None => None,
            },
            topology: self.topology,
            errors: self.errors,
            warnings: self.warnings,
        }
    }
}

/// A counter that is one higher, and stays put at its maximum.
pub open spec fn bump(n: u64) -> u64 {
    if n < u64::MAX {
        (n + 1) as u64
    } else {
        n
    }
}

/// The accumulators before any file is scanned.
pub open spec fn initial_acc() -> AccView {
    AccView {
        body: seq![],
        version: None,
        stages: PipelineStages::none(),
        input_layout: None,
        topology: None,
        errors: 0,
        warnings: 0,
    }
}

/// `#line N F` and a newline.
pub open spec fn line_marker(line: nat, file: nat) -> Seq<char> {
    seq!['#', 'l', 'i', 'n', 'e', ' '] + decimal(line) + seq![' '] + decimal(file) + seq!['\n']
}

pub open spec fn with_error(a: AccView) -> AccView {
    AccView { errors: bump(a.errors), ..a }
}

/// The effect of the words of a `stages` pragma, taken in order.
pub open spec fn stages_effect(a: AccView, words: Seq<Seq<char>>) -> AccView
    decreases words.len(),
{
    if words.len() == 0 {
        a
    } else {
        let next = match stage_named(words[0]) {
            Some(s) => AccView { stages: a.stages.with(s), ..a },
            None => with_error(a),
        };
        stages_effect(next, words.drop_first())
    }
}

/// The effect of a pragma payload.
pub open spec fn pragma_effect(a: AccView, p: PragmaView) -> AccView {
    match p {
        PragmaView::Stages(words) => stages_effect(a, words),
        PragmaView::InputLayout(words) => if a.input_layout is Some {
            with_error(a)
        } else {
            match layout_of(words) {
                Some(l) => AccView { input_layout: Some(l), ..a },
                None => with_error(a),
            }
        },
        PragmaView::Topology(w) => if a.topology is Some {
            with_error(a)
        } else {
            match topology_named(w) {
                Some(t) => AccView { topology: Some(t), ..a },
                None => with_error(a),
            }
        },
        PragmaView::Malformed => with_error(a),
    }
}

/// The effect of one source line, numbered `line` in file `file`, with
/// `pending` telling whether a line marker is owed: the new accumulators, the
/// new `pending`, and the path that a nested-file line asks for.
pub open spec fn line_effect(a: AccView, s: Seq<char>, line: nat, file: nat, pending: bool) -> (
    AccView,
    bool,
    Option<Seq<char>>,
) {
    match kind_of(s) {
        LineKindView::Nested(p) => (a, true, Some(p)),
        LineKindView::Version(None) => (with_error(a), true, None),
        LineKindView::Version(Some(v)) => (
            AccView {
                version: Some(v),
                warnings: if a.version is Some && a.version->0 != v {
                    bump(a.warnings)
                } else {
                    a.warnings
                },
                ..a
            },
            true,
            None,
        ),
        LineKindView::Pragma(p) => (pragma_effect(a, pragma_of(p)), true, None),
        LineKindView::Text => (
            AccView {
                body: if pending {
                    a.body + line_marker(line, file) + s + seq!['\n']
                } else {
                    a.body + s + seq!['\n']
                },
                ..a
            },
            false,
            None,
        ),
    }
}

impl Accumulators {
    /// Fresh accumulators.
    pub fn new() -> (r: Accumulators)
        ensures
            r@ == initial_acc(),
    {
        Accumulators {
            body: Vec::new(),
            version: None,
            stages: PipelineStages::empty(),
            input_layout: None,
            topology: None,
            errors: 0,
            warnings: 0,
        }
    }

    fn note_error(&mut self)
        ensures
            final(self)@ == with_error(old(self)@),
    {
        if self.errors < u64::MAX {
            self.errors = self.errors + 1;
        }
    }

    fn apply_stages(&mut self, words: &Vec<Vec<char>>)
        ensures
            final(self)@ == stages_effect(old(self)@, views(words@)),
    {
        let ghost all = views(words@);
        let mut k: usize = 0;
        assert(all.subrange(0, all.len() as int) =~= all);
        while k < words.len()
            invariant
                k <= words@.len(),
                all == views(words@),
                stages_effect(old(self)@, all) == stages_effect(
                    self@,
                    all.subrange(k as int, all.len() as int),
                ),
            decreases words@.len() - k,
        {
            let ghost rest = all.subrange(k as int, all.len() as int);
            assert(rest[0] == words@[k as int]@);
            assert(rest.drop_first() =~= all.subrange(k + 1, all.len() as int));
            match stage_of_word(&words[k]) {
                Some(s) => self.stages.insert(s),
                None => self.note_error(),
            }
            k = k + 1;
        }
        assert(all.subrange(k as int, all.len() as int) =~= Seq::<Seq<char>>::empty());
    }

    fn apply_pragma(&mut self, p: &Pragma)
        ensures
            final(self)@ == pragma_effect(old(self)@, p@),
    {
        match p {
            Pragma::Stages(words) => self.apply_stages(words),
            Pragma::InputLayout(words) => {
                if self.input_layout.is_some() {
                    self.note_error();
                } else {
                    match parse_layout(words) {
                        Some(l) => self.input_layout = Some(l),
                        None => self.note_error(),
                    }
                }
            },
            Pragma::Topology(w) => {
                if self.topology.is_some() {
                    self.note_error();
                } else {
                    match topology_of_word(w) {
                        Some(t) => self.topology = Some(t),
                        None => self.note_error(),
                    }
                }
            },
            Pragma::Malformed => self.note_error(),
        }
    }

    /// Takes one source line, numbered `line` in file `file`, into the
    /// accumulators; returns the path that a nested-file line asks for.
    pub fn apply_line(&mut self, s: &Vec<char>, line: u64, file: u64, pending: &mut bool) -> (r:
        Option<Vec<char>>)
        ensures
            ({
                let e = line_effect(old(self)@, s@, line as nat, file as nat, *old(pending));
                &&& final(self)@ == e.0
                &&& *final(pending) == e.1
                &&& match r {
                    Some(p) => e.2 == Some(p@),
                    None => e.2 is None,
                }
            }),
    {
        match classify_line(s) {
            LineKind::Nested(p) => {
                *pending = true;
                Some(p)
            },
            LineKind::Version(None) => {
                self.note_error();
                *pending = true;
                None
            },
            LineKind::Version(Some(v)) => {
                match self.version {
                    Some(prev) => {
                        if prev != v && self.warnings < u64::MAX {
                            self.warnings = self.warnings + 1;
                        }
                    },
                    None => {},
                }
                self.version = Some(v);
                *pending = true;
                None
            },
            LineKind::Pragma(p) => {
                let q = classify_pragma(&p);
                self.apply_pragma(&q);
                *pending = true;
                None
            },
            LineKind::Text => {
                let ghost b0 = self.body@;
                if *pending {
                    let mut m = vec!['#', 'l', 'i', 'n', 'e', ' '];
                    let n = decimal_of(line);
                    append_chars(&mut m, &n);
                    m.push(' ');
                    let f = decimal_of(file);
                    append_chars(&mut m, &f);
                    m.push('\n');
                    assert(m@ =~= line_marker(line as nat, file as nat));
                    append_chars(&mut self.body, &m);
                    *pending = false;
                }
                append_chars(&mut self.body, s);
                self.body.push('\n');
                proof {
                    if *old(pending) {
                        assert(self.body@ =~= b0 + line_marker(line as nat, file as nat) + s@
                            + seq!['\n']);
                    } else {
                        assert(self.body@ =~= b0 + s@ + seq!['\n']);
                    }
                }
                None
            },
        }
    }
}

} // verus!
