use vstd::prelude::*;
use crate::text::{
    digit_end, digits_value, holds_at, holds_lit, lemma_digit_end_bounds, lemma_trim_end_bounds,
    lemma_word_end_bounds, lemma_ws_end_bounds, parse_digits, skip_digits, trim_end_of,
    skip_space, skip_word, slice_of, trim_end, word_end, ws_end,
};

verus! {

/// The directive keyword that splices another file in.
pub open spec fn kw_nested() -> Seq<char> {
    seq!['#', 'i', 'n', 'c', 'l', 'u', 'd', 'e']
}

pub open spec fn kw_version() -> Seq<char> {
    seq!['#', 'v', 'e', 'r', 's', 'i', 'o', 'n']
}

pub open spec fn kw_pragma() -> Seq<char> {
    seq!['#', 'p', 'r', 'a', 'g', 'm', 'a']
}

pub open spec fn kw_stages() -> Seq<char> {
    seq!['s', 't', 'a', 'g', 'e', 's']
}

pub open spec fn kw_input_layout() -> Seq<char> {
    seq!['i', 'n', 'p', 'u', 't', '_', 'l', 'a', 'y', 'o', 'u', 't']
}

pub open spec fn kw_topology() -> Seq<char> {
    seq![
        'p', 'r', 'i', 'm', 'i', 't', 'i', 'v', 'e', '_', 't', 'o', 'p', 'o', 'l', 'o', 'g', 'y',
    ]
}

/// The largest version number accepted (that of a signed 32-bit integer).
pub const MAX_VERSION: u64 = 2147483647;

/// The path of a line `  #<nested> "PATH"  `, if the line has that shape.
pub open spec fn nested_path(s: Seq<char>) -> Option<Seq<char>> {
    let a = ws_end(s, 0);
    let b = a + kw_nested().len();
    let c = ws_end(s, b);
    let e = trim_end(s, s.len() as int);
    if holds_at(s, a, kw_nested()) && c > b && c < s.len() && s[c] == '"' && e - 1 > c && s[e
        - 1] == '"' {
        Some(s.subrange(c + 1, e - 1))
    } else {
        None
    }
}

/// For a line `  #version DIGITS  `: `Some(Some(v))` where the digits fit,
/// `Some(None)` where they do not; `None` for any other line.
pub open spec fn version_of(s: Seq<char>) -> Option<Option<u32>> {
    let a = ws_end(s, 0);
    let b = a + kw_version().len();
    let c = ws_end(s, b);
    let d = digit_end(s, c);
    if holds_at(s, a, kw_version()) && c > b && d > c && ws_end(s, d) == s.len() {
        let v = digits_value(s.subrange(c, d));
        if v <= MAX_VERSION {
            Some(Some(v as u32))
        } else {
            Some(None)
        }
    } else {
        None
    }
}

/// The payload of a line `  #pragma PAYLOAD`, if the line has that shape.
pub open spec fn pragma_payload(s: Seq<char>) -> Option<Seq<char>> {
    let a = ws_end(s, 0);
    let b = a + kw_pragma().len();
    let c = ws_end(s, b);
    if holds_at(s, a, kw_pragma()) && c > b {
        Some(s.subrange(c, s.len() as int))
    } else {
        None
    }
}

/// What a source line is, as the scanner sees it.
pub enum LineKind {
    Nested(Vec<char>),
    /// `None` where the number does not fit.
    Version(Option<u32>),
    Pragma(Vec<char>),
    Text,
}

pub ghost enum LineKindView {
    Nested(Seq<char>),
    Version(Option<u32>),
    Pragma(Seq<char>),
    Text,
}

impl View for LineKind {
    type V = LineKindView;

    open spec fn view(&self) -> LineKindView {
        match self {
            LineKind::Nested(p) => LineKindView::Nested(p@),
            LineKind::Version(v) => LineKindView::Version(*v),
            LineKind::Pragma(p) => LineKindView::Pragma(p@),
            LineKind::Text => LineKindView::Text,
        }
    }
}

/// The first shape that a line matches, in the order
/// nested file, version, pragma, plain text.
pub open spec fn kind_of(s: Seq<char>) -> LineKindView {
    if nested_path(s) is Some {
        LineKindView::Nested(nested_path(s)->0)
    } else if version_of(s) is Some {
        LineKindView::Version(version_of(s)->0)
    } else if pragma_payload(s) is Some {
        LineKindView::Pragma(pragma_payload(s)->0)
    } else {
        LineKindView::Text
    }
}

/// The words of an argument list that starts at `i` (just after the opening
/// parenthesis): words separated by commas, then `)` and nothing but
/// whitespace.
pub open spec fn args_from(p: Seq<char>, i: int) -> Option<Seq<Seq<char>>>
    decreases p.len() - i,
{
    let a = ws_end(p, i);
    let w = word_end(p, a);
    let j = ws_end(p, w);
    if i < 0 || i > p.len() || w <= a {
        None
    } else if j < p.len() && p[j] == ',' {
        if j + 1 > i {
            match args_from(p, j + 1) {
                Some(rest) => Some(seq![p.subrange(a, w)] + rest),
                None => None,
            }
        } else {
            None
        }
    } else if j < p.len() && p[j] == ')' && ws_end(p, j + 1) == p.len() {
        Some(seq![p.subrange(a, w)])
    } else {
        None
    }
}

/// The argument words of a payload `name ( w1 , w2 , ... )`.
pub open spec fn call_args(p: Seq<char>, name: Seq<char>) -> Option<Seq<Seq<char>>> {
    let i = ws_end(p, name.len() as int);
    if holds_at(p, 0, name) && i < p.len() && p[i] == '(' {
        args_from(p, i + 1)
    } else {
        None
    }
}

pub open spec fn views(v: Seq<Vec<char>>) -> Seq<Seq<char>> {
    v.map_values(|x: Vec<char>| x@)
}

proof fn lemma_ws_word(p: Seq<char>, i: int)
    requires
        0 <= i <= p.len(),
    ensures
        i <= ws_end(p, i) <= word_end(p, ws_end(p, i)) <= ws_end(p, word_end(p, ws_end(p, i)))
            <= p.len(),
{
    lemma_ws_end_bounds(p, i);
    lemma_word_end_bounds(p, ws_end(p, i));
    lemma_ws_end_bounds(p, word_end(p, ws_end(p, i)));
}

/// Executable `args_from`.
pub fn parse_args(p: &Vec<char>, start: usize) -> (r: Option<Vec<Vec<char>>>)
    requires
        start <= p@.len(),
    ensures
        match r {
            Some(v) => args_from(p@, start as int) == Some(views(v@)),
            None => args_from(p@, start as int) is None,
        },
{
    let mut acc: Vec<Vec<char>> = Vec::new();
    let mut i: usize = start;
    loop
        invariant
            start <= i <= p@.len(),
            args_from(p@, start as int) == (match args_from(p@, i as int) {
                Some(rest) => Some(views(acc@) + rest),
                None => None::<Seq<Seq<char>>>,
            }),
        decreases p@.len() - i,
    {
        proof {
            lemma_ws_word(p@, i as int);
        }
        let a = skip_space(p, i);
        let w = skip_word(p, a);
        let j = skip_space(p, w);
        if w <= a {
            return None;
        }
        let word = slice_of(p, a, w);
        if j < p.len() && p[j] == ',' {
            proof {
                let ghost old_acc = acc@;
                assert(views(old_acc.push(word)) =~= views(old_acc) + seq![word@]);
                match args_from(p@, j + 1) {
                    Some(rest) => {
                        assert(views(old_acc) + (seq![word@] + rest) =~= views(old_acc.push(word))
                            + rest);
                    },
                    None => {},
                }
            }
            acc.push(word);
            i = j + 1;
        } else if j < p.len() && p[j] == ')' && skip_space(p, j + 1) == p.len() {
            proof {
                assert(views(acc@.push(word)) =~= views(acc@) + seq![word@]);
            }
            acc.push(word);
            return Some(acc);
        } else {
            return None;
        }
    }
}

} // verus!

verus! {

fn lit_nested() -> (r: Vec<char>)
    ensures
        r@ == kw_nested(),
{
    let r = vec!['#', 'i', 'n', 'c', 'l', 'u', 'd', 'e'];
    assert(r@ =~= kw_nested());
    r
}

fn lit_version() -> (r: Vec<char>)
    ensures
        r@ == kw_version(),
{
    let r = vec!['#', 'v', 'e', 'r', 's', 'i', 'o', 'n'];
    assert(r@ =~= kw_version());
    r
}

fn lit_pragma() -> (r: Vec<char>)
    ensures
        r@ == kw_pragma(),
{
    let r = vec!['#', 'p', 'r', 'a', 'g', 'm', 'a'];
    assert(r@ =~= kw_pragma());
    r
}

/// Recognizes what a source line is.
pub fn classify_line(s: &Vec<char>) -> (r: LineKind)
    ensures
        r@ == kind_of(s@),
{
    proof {
        lemma_ws_end_bounds(s@, 0);
        lemma_trim_end_bounds(s@, s@.len() as int);
    }
    let a = skip_space(s, 0);
    let e = trim_end_of(s);
    let kw = lit_nested();
    if holds_lit(s, a, &kw) {
        let b = a + kw.len();
        proof {
            lemma_ws_end_bounds(s@, b as int);
        }
        let c = skip_space(s, b);
        if c > b && c < s.len() && s[c] == '"' && e >= 1 && e - 1 > c && s[e - 1] == '"' {
            return LineKind::Nested(slice_of(s, c + 1, e - 1));
        }
    }
    let kw = lit_version();
    if holds_lit(s, a, &kw) {
        let b = a + kw.len();
        proof {
            lemma_ws_end_bounds(s@, b as int);
            lemma_digit_end_bounds(s@, ws_end(s@, b as int));
        }
        let c = skip_space(s, b);
        let d = skip_digits(s, c);
        if c > b && d > c && skip_space(s, d) == s.len() {
            let digits = slice_of(s, c, d);
            let v = parse_digits(&digits, MAX_VERSION);
            return match v {
                Some(n) => LineKind::Version(Some(n as u32)),
                None => LineKind::Version(None),
            };
        }
    }
    let kw = lit_pragma();
    if holds_lit(s, a, &kw) {
        let b = a + kw.len();
        proof {
            lemma_ws_end_bounds(s@, b as int);
        }
        let c = skip_space(s, b);
        if c > b {
            return LineKind::Pragma(slice_of(s, c, s.len()));
        }
    }
    LineKind::Text
}

/// What a pragma payload asks for.
pub enum Pragma {
    Stages(Vec<Vec<char>>),
    InputLayout(Vec<Vec<char>>),
    Topology(Vec<char>),
    Malformed,
}

pub ghost enum PragmaView {
    Stages(Seq<Seq<char>>),
    InputLayout(Seq<Seq<char>>),
    Topology(Seq<char>),
    Malformed,
}

impl View for Pragma {
    type V = PragmaView;

    open spec fn view(&self) -> PragmaView {
        match self {
            Pragma::Stages(a) => PragmaView::Stages(views(a@)),
            Pragma::InputLayout(a) => PragmaView::InputLayout(views(a@)),
            Pragma::Topology(w) => PragmaView::Topology(w@),
            Pragma::Malformed => PragmaView::Malformed,
        }
    }
}

/// The first pragma shape that a payload matches: stages, input layout,
/// primitive topology (with exactly one argument).
pub open spec fn pragma_of(p: Seq<char>) -> PragmaView {
    if call_args(p, kw_stages()) is Some {
        PragmaView::Stages(call_args(p, kw_stages())->0)
    } else if call_args(p, kw_input_layout()) is Some {
        PragmaView::InputLayout(call_args(p, kw_input_layout())->0)
    } else if call_args(p, kw_topology()) is Some && call_args(p, kw_topology())->0.len() == 1 {
        PragmaView::Topology(call_args(p, kw_topology())->0[0])
    } else {
        PragmaView::Malformed
    }
}

/// Executable `call_args`.
fn parse_call(p: &Vec<char>, name: &Vec<char>) -> (r: Option<Vec<Vec<char>>>)
    ensures
        match r {
            Some(v) => call_args(p@, name@) == Some(views(v@)),
            None => call_args(p@, name@) is None,
        },
{
    if !holds_lit(p, 0, name) {
        return None;
    }
    proof {
        lemma_ws_end_bounds(p@, name@.len() as int);
    }
    let i = skip_space(p, name.len());
    if i < p.len() && p[i] == '(' {
        parse_args(p, i + 1)
    } else {
        None
    }
}

/// Recognizes a pragma payload.
pub fn classify_pragma(p: &Vec<char>) -> (r: Pragma)
    ensures
        r@ == pragma_of(p@),
{
    let kw = vec!['s', 't', 'a', 'g', 'e', 's'];
    assert(kw@ =~= kw_stages());
    if let Some(a) = parse_call(p, &kw) {
        return Pragma::Stages(a);
    }
    let kw = vec!['i', 'n', 'p', 'u', 't', '_', 'l', 'a', 'y', 'o', 'u', 't'];
    assert(kw@ =~= kw_input_layout());
    if let Some(a) = parse_call(p, &kw) {
        return Pragma::InputLayout(a);
    }
    let kw = vec![
        'p', 'r', 'i', 'm', 'i', 't', 'i', 'v', 'e', '_', 't', 'o', 'p', 'o', 'l', 'o', 'g', 'y',
    ];
    assert(kw@ =~= kw_topology());
    if let Some(a) = parse_call(p, &kw) {
        if a.len() == 1 {
            let w = a[0].clone();
            return Pragma::Topology(w);
        }
    }
    Pragma::Malformed
}

} // verus!
