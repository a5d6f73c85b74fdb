use vstd::prelude::*;
use crate::text::{
    append_chars, decimal, decimal_of, lemma_word_end_bounds, skip_word, slice_of, word_end,
};
use crate::types::{PipelineStages, PrimitiveTopology, Stage, VertexAttribute};

verus! {

/// The version assumed where a source declares none.
pub const DEFAULT_VERSION: u32 = 330;

/// Name and optional value of a macro argument `NAME` or `NAME=VALUE`
/// (both made of word characters, the value possibly empty).
pub open spec fn macro_parts(m: Seq<char>) -> Option<(Seq<char>, Option<Seq<char>>)> {
    let w = word_end(m, 0);
    if w <= 0 {
        None
    } else if w == m.len() {
        Some((m, None))
    } else if m[w] == '=' && word_end(m, w + 1) == m.len() {
        Some((m.subrange(0, w), Some(m.subrange(w + 1, m.len() as int))))
    } else {
        None
    }
}

pub open spec fn kw_define() -> Seq<char> {
    seq!['#', 'd', 'e', 'f', 'i', 'n', 'e', ' ']
}

/// The definition line of a well-formed macro argument.
pub open spec fn macro_line(parts: (Seq<char>, Option<Seq<char>>)) -> Seq<char> {
    match parts.1 {
        Some(v) => kw_define() + parts.0 + seq![' '] + v + seq!['\n'],
        None => kw_define() + parts.0 + seq!['\n'],
    }
}

/// The definition lines of the first `n` macro arguments.
pub open spec fn macro_lines(ms: Seq<Seq<char>>, n: int) -> Seq<char>
    decreases n,
{
    if n <= 0 || n > ms.len() {
        seq![]
    } else {
        macro_lines(ms, n - 1) + macro_line(macro_parts(ms[n - 1])->0)
    }
}

pub open spec fn all_macros_valid(ms: Seq<Seq<char>>) -> bool {
    forall|i: int| 0 <= i < ms.len() ==> (#[trigger] macro_parts(ms[i])) is Some
}

/// The version line and the macro definitions that every variant starts with.
pub open spec fn prologue(version: Option<u32>, ms: Seq<Seq<char>>) -> Seq<char> {
    let v = match version {
        Some(v) => v,
        None => DEFAULT_VERSION,
    };
    seq!['#', 'v', 'e', 'r', 's', 'i', 'o', 'n', ' '] + decimal(v as nat) + seq!['\n']
        + macro_lines(ms, ms.len() as int)
}

/// The token that a variant defines to select its stage.
pub open spec fn stage_token(s: Stage) -> Seq<char> {
    match s {
        Stage::Vertex => seq!['_', 'V', 'E', 'R', 'T', 'E', 'X', '_'],
        Stage::Fragment => seq!['_', 'F', 'R', 'A', 'G', 'M', 'E', 'N', 'T', '_'],
        Stage::Geometry => seq!['_', 'G', 'E', 'O', 'M', 'E', 'T', 'R', 'Y', '_'],
        Stage::TessControl => seq![
            '_', 'T', 'E', 'S', 'S', '_', 'C', 'O', 'N', 'T', 'R', 'O', 'L', '_',
        ],
        Stage::TessEval => seq!['_', 'T', 'E', 'S', 'S', '_', 'E', 'V', 'A', 'L', '_'],
        Stage::Compute => seq!['_', 'C', 'O', 'M', 'P', 'U', 'T', 'E', '_'],
    }
}

/// The text of the variant for stage `s`.
pub open spec fn variant_text(pro: Seq<char>, s: Stage, body: Seq<char>) -> Seq<char> {
    pro + kw_define() + stage_token(s) + seq!['\n'] + seq!['#', 'l', 'i', 'n', 'e', ' ', '0', ' ', '0', '\n']
        + body
}

/// The slot for stage `s`: its variant where the set holds it, else nothing.
pub open spec fn slot_text(stages: PipelineStages, pro: Seq<char>, s: Stage, body: Seq<char>) -> Option<
    Seq<char>,
> {
    if stages.has(s) {
        Some(variant_text(pro, s, body))
    } else {
        None
    }
}

/// The per-stage sources of a combined source, and its pipeline metadata.
pub struct PreprocessedShaders {
    pub vertex: Option<String>,
    pub fragment: Option<String>,
    pub geometry: Option<String>,
    pub tess_control: Option<String>,
    pub tess_eval: Option<String>,
    pub compute: Option<String>,
    pub input_layout: Option<Vec<VertexAttribute>>,
    pub primitive_topology: Option<PrimitiveTopology>,
}

pub open spec fn text_of(s: Option<String>) -> Option<Seq<char>> {
    match s {
        Some(t) => Some(t@),
        None => None,
    }
}

impl PreprocessedShaders {
    /// The slot of stage `s`.
    pub open spec fn slot(&self, s: Stage) -> Option<Seq<char>> {
        match s {
            Stage::Vertex => text_of(self.vertex),
            Stage::Fragment => text_of(self.fragment),
            Stage::Geometry => text_of(self.geometry),
            Stage::TessControl => text_of(self.tess_control),
            Stage::TessEval => text_of(self.tess_eval),
            Stage::Compute => text_of(self.compute),
        }
    }

    /// How many slots hold a variant.
    pub open spec fn filled(&self) -> nat {
        (if self.vertex is Some { 1nat } else { 0nat }) + (if self.fragment is Some { 1nat } else { 0nat }) + (
        if self.geometry is Some { 1nat } else { 0nat }) + (if self.tess_control is Some { 1nat } else { 0nat })
            + (if self.tess_eval is Some { 1nat } else { 0nat }) + (if self.compute is Some { 1nat } else { 0nat })
    }
}

/// Relies on `String`'s `FromIterator<char>`: the string holds the characters in order.
#[verifier::external_body]
pub(crate) fn string_from_chars(v: &Vec<char>) -> (r: String)
    ensures
        r@ == v@,
{
    v.iter().collect()
}

/// Relies on `str::chars`: the characters of the string in order.
#[verifier::external_body]
pub(crate) fn chars_of(s: &str) -> (r: Vec<char>)
    ensures
        r@ == s@,
{
    s.chars().collect()
}

/// The definition line of macro argument `m`, or `None` where it is malformed.
pub fn macro_definition(m: &str) -> (r: Option<Vec<char>>)
    ensures
        match r {
            Some(l) => macro_parts(m@) is Some && l@ == macro_line(macro_parts(m@)->0),
            None => macro_parts(m@) is None,
        },
{
    let c = chars_of(m);
    proof {
        lemma_word_end_bounds(c@, 0);
    }
    let w = skip_word(&c, 0);
    let mut line = vec!['#', 'd', 'e', 'f', 'i', 'n', 'e', ' '];
    assert(line@ =~= kw_define());
    if w == 0 {
        return None;
    }
    if w == c.len() {
        append_chars(&mut line, &c);
        line.push('\n');
        return Some(line);
    }
    if c[w] != '=' {
        return None;
    }
    proof {
        lemma_word_end_bounds(c@, w + 1);
    }
    if skip_word(&c, w + 1) != c.len() {
        return None;
    }
    let name = slice_of(&c, 0, w);
    let value = slice_of(&c, w + 1, c.len());
    append_chars(&mut line, &name);
    line.push(' ');
    append_chars(&mut line, &value);
    line.push('\n');
    Some(line)
}

/// A caller macro that is neither `NAME` nor `NAME=VALUE`.
#[derive(Clone, Copy, PartialEq, Eq, Debug)]
pub struct MalformedMacro {
    /// Position of the first such macro among the arguments.
    pub index: usize,
}

pub open spec fn strs(ms: Seq<&str>) -> Seq<Seq<char>> {
    ms.map_values(|m: &str| m@)
}

/// The common prologue, or the first malformed macro.
pub fn build_prologue(version: Option<u32>, macros: &[&str]) -> (r: Result<Vec<char>, MalformedMacro>)
    ensures
        match r {
            Ok(p) => all_macros_valid(strs(macros@)) && p@ == prologue(version, strs(macros@)),
            Err(e) => e.index < macros@.len() && macro_parts(macros@[e.index as int]@) is None
                && forall|i: int| 0 <= i < e.index ==> (#[trigger] macro_parts(macros@[i]@)) is Some,
        },
{
    let ghost ms = strs(macros@);
    let v = match version {
        Some(v) => v,
        None => DEFAULT_VERSION,
    };
    let mut out = vec!['#', 'v', 'e', 'r', 's', 'i', 'o', 'n', ' '];
    let d = decimal_of(v as u64);
    append_chars(&mut out, &d);
    out.push('\n');
    let ghost head = out@;
    assert(macro_lines(ms, 0) =~= Seq::<char>::empty());
    let mut i: usize = 0;
    while i < macros.len()
        invariant
            i <= macros@.len(),
            ms == strs(macros@),
            ms.len() == macros@.len(),
            out@ == head + macro_lines(ms, i as int),
            forall|k: int| 0 <= k < i ==> (#[trigger] macro_parts(macros@[k]@)) is Some,
        decreases macros@.len() - i,
    {
        assert(ms[i as int] == macros@[i as int]@);
        match macro_definition(macros[i]) {
            Some(l) => {
                append_chars(&mut out, &l);
                assert(out@ =~= head + macro_lines(ms, i + 1));
            },
            None => {
                return Err(MalformedMacro { index: i });
            },
        }
        i = i + 1;
    }
    proof {
        assert forall|k: int| 0 <= k < ms.len() implies (#[trigger] macro_parts(ms[k])) is Some by {
            assert(ms[k] == macros@[k]@);
        }
        assert(out@ =~= prologue(version, ms));
    }
    Ok(out)
}

/// Executable `stage_token`.
fn stage_token_of(s: Stage) -> (r: Vec<char>)
    ensures
        r@ == stage_token(s),
{
    let r = match s {
        Stage::Vertex => vec!['_', 'V', 'E', 'R', 'T', 'E', 'X', '_'],
        Stage::Fragment => vec!['_', 'F', 'R', 'A', 'G', 'M', 'E', 'N', 'T', '_'],
        Stage::Geometry => vec!['_', 'G', 'E', 'O', 'M', 'E', 'T', 'R', 'Y', '_'],
        Stage::TessControl => vec![
            '_', 'T', 'E', 'S', 'S', '_', 'C', 'O', 'N', 'T', 'R', 'O', 'L', '_',
        ],
        Stage::TessEval => vec!['_', 'T', 'E', 'S', 'S', '_', 'E', 'V', 'A', 'L', '_'],
        Stage::Compute => vec!['_', 'C', 'O', 'M', 'P', 'U', 'T', 'E', '_'],
    };
    assert(r@ =~= stage_token(s));
    r
}

/// The slot for stage `s`.
pub fn gen_variant(stages: &PipelineStages, pro: &Vec<char>, s: Stage, body: &Vec<char>) -> (r:
    Option<String>)
    ensures
        text_of(r) == slot_text(*stages, pro@, s, body@),
{
    if !stages.contains(s) {
        return None;
    }
    let mut out = pro.clone();
    let mut d = vec!['#', 'd', 'e', 'f', 'i', 'n', 'e', ' '];
    assert(d@ =~= kw_define());
    append_chars(&mut out, &d);
    let t = stage_token_of(s);
    append_chars(&mut out, &t);
    out.push('\n');
    let z = vec!['#', 'l', 'i', 'n', 'e', ' ', '0', ' ', '0', '\n'];
    append_chars(&mut out, &z);
    append_chars(&mut out, body);
    assert(out@ =~= variant_text(pro@, s, body@));
    Some(string_from_chars(&out))
}

/// The record of the six variants and the metadata, or the first malformed macro.
pub fn assemble(
    stages: PipelineStages,
    version: Option<u32>,
    body: &Vec<char>,
    macros: &[&str],
    input_layout: Option<Vec<VertexAttribute>>,
    topology: Option<PrimitiveTopology>,
) -> (r: Result<PreprocessedShaders, MalformedMacro>)
    ensures
        match r {
            Ok(p) => {
                &&& all_macros_valid(strs(macros@))
                &&& forall|s: Stage| #[trigger] p.slot(s) == slot_text(stages, prologue(version, strs(macros@)), s, body@)
                &&& p.input_layout == input_layout
                &&& p.primitive_topology == topology
            },
            Err(e) => e.index < macros@.len() && macro_parts(macros@[e.index as int]@) is None
                && forall|i: int| 0 <= i < e.index ==> (#[trigger] macro_parts(macros@[i]@)) is Some,
        },
{
    let pro = match build_prologue(version, macros) {
        Ok(p) => p,
        Err(e) => return Err(e),
    };
    let r = PreprocessedShaders {
        vertex: gen_variant(&stages, &pro, Stage::Vertex, body),
        fragment: gen_variant(&stages, &pro, Stage::Fragment, body),
        geometry: gen_variant(&stages, &pro, Stage::Geometry, body),
        tess_control: gen_variant(&stages, &pro, Stage::TessControl, body),
        tess_eval: gen_variant(&stages, &pro, Stage::TessEval, body),
        compute: gen_variant(&stages, &pro, Stage::Compute, body),
        input_layout: input_layout,
        primitive_topology: topology,
    };
    assert forall|s: Stage| #[trigger] r.slot(s) == slot_text(stages, pro@, s, body@) by {
        match s {
            Stage::Vertex => {},
            Stage::Fragment => {},
            Stage::Geometry => {},
            Stage::TessControl => {},
            Stage::TessEval => {},
            Stage::Compute => {},
        }
    }
    Ok(r)
}

/// Without a declared version every variant opens with `#version 330`
/// and a newline.
pub proof fn lemma_default_version_first(st: PipelineStages, ms: Seq<Seq<char>>, s: Stage, body: Seq<char>)
    requires
        st.has(s),
    ensures
        slot_text(st, prologue(None, ms), s, body) is Some,
        slot_text(st, prologue(None, ms), s, body)->0.subrange(0, 13) == seq![
            '#', 'v', 'e', 'r', 's', 'i', 'o', 'n', ' ', '3', '3', '0', '\n',
        ],
{
    assert(decimal(330) == seq!['3', '3', '0']) by {
        reveal_with_fuel(decimal, 3);
        assert(decimal(3) == seq!['3']);
        assert(decimal(33) =~= seq!['3', '3']);
        assert(decimal(330) =~= seq!['3', '3', '0']);
    }
    let t = slot_text(st, prologue(None, ms), s, body)->0;
    assert(t.subrange(0, 13) =~= seq![
        '#', 'v', 'e', 'r', 's', 'i', 'o', 'n', ' ', '3', '3', '0', '\n',
    ]);
}

/// The slots that hold a variant are exactly as many as the stages declared.
pub proof fn lemma_filled_slots(p: PreprocessedShaders, st: PipelineStages, pro: Seq<char>, body: Seq<char>)
    requires
        forall|s: Stage| #[trigger] p.slot(s) == slot_text(st, pro, s, body),
    ensures
        p.filled() == st.count(),
{
    assert(p.slot(Stage::Vertex) == slot_text(st, pro, Stage::Vertex, body));
    assert(p.slot(Stage::Fragment) == slot_text(st, pro, Stage::Fragment, body));
    assert(p.slot(Stage::Geometry) == slot_text(st, pro, Stage::Geometry, body));
    assert(p.slot(Stage::TessControl) == slot_text(st, pro, Stage::TessControl, body));
    assert(p.slot(Stage::TessEval) == slot_text(st, pro, Stage::TessEval, body));
    assert(p.slot(Stage::Compute) == slot_text(st, pro, Stage::Compute, body));
}

/// Two results assembled from the same stages, version, macros and body hold
/// the same text in every slot.
pub proof fn lemma_same_inputs_same_variants(
    p: PreprocessedShaders,
    q: PreprocessedShaders,
    st: PipelineStages,
    version: Option<u32>,
    ms: Seq<Seq<char>>,
    body: Seq<char>,
)
    requires
        forall|s: Stage| #[trigger] p.slot(s) == slot_text(st, prologue(version, ms), s, body),
        forall|s: Stage| #[trigger] q.slot(s) == slot_text(st, prologue(version, ms), s, body),
    ensures
        forall|s: Stage| #[trigger] p.slot(s) == q.slot(s),
{
    assert forall|s: Stage| #[trigger] p.slot(s) == q.slot(s) by {
        assert(p.slot(s) == slot_text(st, prologue(version, ms), s, body));
        assert(q.slot(s) == slot_text(st, prologue(version, ms), s, body));
    }
}

} // verus!
