use vstd::prelude::*;
use crate::text::{digits_value, holds_lit, is_digit, is_digit_char, parse_digits};
use crate::types::{ComponentType, PrimitiveTopology, Stage, VertexAttribute};

verus! {

/// The largest slot or offset accepted in an input layout.
pub const MAX_U32: u64 = 4294967295;

/// The stage that a word of a `stages` pragma names.
pub open spec fn stage_named(w: Seq<char>) -> Option<Stage> {
    if w == seq!['v', 'e', 'r', 't', 'e', 'x'] {
        Some(Stage::Vertex)
    } else if w == seq!['f', 'r', 'a', 'g', 'm', 'e', 'n', 't'] {
        Some(Stage::Fragment)
    } else if w == seq!['g', 'e', 'o', 'm', 'e', 't', 'r', 'y'] {
        Some(Stage::Geometry)
    } else if w == seq!['t', 'e', 's', 's', '_', 'c', 'o', 'n', 't', 'r', 'o', 'l'] {
        Some(Stage::TessControl)
    } else if w == seq!['t', 'e', 's', 's', '_', 'e', 'v', 'a', 'l'] {
        Some(Stage::TessEval)
    } else if w == seq!['c', 'o', 'm', 'p', 'u', 't', 'e'] {
        Some(Stage::Compute)
    } else {
        None
    }
}

/// The topology that the word of a `primitive_topology` pragma names.
pub open spec fn topology_named(w: Seq<char>) -> Option<PrimitiveTopology> {
    if w == seq!['t', 'r', 'i', 'a', 'n', 'g', 'l', 'e'] {
        Some(PrimitiveTopology::Triangles)
    } else if w == seq!['l', 'i', 'n', 'e'] {
        Some(PrimitiveTopology::Lines)
    } else {
        None
    }
}

/// Component type, component count and normalization of a format word.
pub open spec fn format_named(w: Seq<char>) -> Option<(ComponentType, u32, bool)> {
    if w == seq!['r', 'g', 'b', 'a', '3', '2', 'f'] {
        Some((ComponentType::Float, 4u32, false))
    } else if w == seq!['r', 'g', 'b', '3', '2', 'f'] {
        Some((ComponentType::Float, 3u32, false))
    } else if w == seq!['r', 'g', '3', '2', 'f'] {
        Some((ComponentType::Float, 2u32, false))
    } else if w == seq!['r', '3', '2', 'f'] {
        Some((ComponentType::Float, 1u32, false))
    } else if w == seq!['r', 'g', 'b', 'a', '1', '6', '_', 's', 'n', 'o', 'r', 'm'] {
        Some((ComponentType::Short, 4u32, true))
    } else if w == seq!['r', 'g', 'b', '1', '6', '_', 's', 'n', 'o', 'r', 'm'] {
        Some((ComponentType::Short, 3u32, true))
    } else if w == seq!['r', 'g', '1', '6', '_', 's', 'n', 'o', 'r', 'm'] {
        Some((ComponentType::Short, 2u32, true))
    } else if w == seq!['r', '1', '6', '_', 's', 'n', 'o', 'r', 'm'] {
        Some((ComponentType::Short, 1u32, true))
    } else if w == seq!['r', 'g', 'b', 'a', '8', '_', 'u', 'n', 'o', 'r', 'm'] {
        Some((ComponentType::UnsignedByte, 4u32, true))
    } else if w == seq!['r', 'g', 'b', 'a', '8', '_', 's', 'n', 'o', 'r', 'm'] {
        Some((ComponentType::Byte, 4u32, true))
    } else {
        None
    }
}

/// The value of a word made of decimal digits only, where it fits in 32 bits.
pub open spec fn number_named(w: Seq<char>) -> Option<u32> {
    if w.len() > 0 && (forall|k: int| 0 <= k < w.len() ==> is_digit(w[k])) && digits_value(w)
        <= MAX_U32 {
        Some(digits_value(w) as u32)
    } else {
        None
    }
}

/// The attribute described by one `format, slot, offset` triple.
pub open spec fn attribute_of(f: Seq<char>, s: Seq<char>, o: Seq<char>) -> Option<
    VertexAttribute,
> {
    match (format_named(f), number_named(s), number_named(o)) {
        (Some(t), Some(slot), Some(off)) => Some(
            VertexAttribute { ty: t.0, size: t.1, normalized: t.2, slot: slot, relative_offset: off },
        ),
        _ => None,
    }
}

/// The layout that the argument words of an `input_layout` pragma describe:
/// one attribute per triple, in order; `None` where any triple is incomplete
/// or malformed.
pub open spec fn layout_of(args: Seq<Seq<char>>) -> Option<Seq<VertexAttribute>>
    decreases args.len(),
{
    if args.len() == 0 {
        Some(seq![])
    } else if args.len() < 3 {
        None
    } else {
        match (attribute_of(args[0], args[1], args[2]), layout_of(args.subrange(3, args.len() as int))) {
            (Some(a), Some(rest)) => Some(seq![a] + rest),
            _ => None,
        }
    }
}

/// Whether `a` and `b` hold the same characters.
pub fn same_chars(a: &Vec<char>, b: &Vec<char>) -> (r: bool)
    ensures
        r == (a@ == b@),
{
    if a.len() != b.len() {
        return false;
    }
    let r = holds_lit(a, 0, b);
    assert(a@.subrange(0, b@.len() as int) =~= a@);
    r
}

/// Executable `stage_named`.
pub fn stage_of_word(w: &Vec<char>) -> (r: Option<Stage>)
    ensures
        r == stage_named(w@),
{
    let k = vec!['v', 'e', 'r', 't', 'e', 'x'];
    assert(k@ =~= seq!['v', 'e', 'r', 't', 'e', 'x']);
    if same_chars(w, &k) {
        return Some(Stage::Vertex);
    }
    let k = vec!['f', 'r', 'a', 'g', 'm', 'e', 'n', 't'];
    assert(k@ =~= seq!['f', 'r', 'a', 'g', 'm', 'e', 'n', 't']);
    if same_chars(w, &k) {
        return Some(Stage::Fragment);
    }
    let k = vec!['g', 'e', 'o', 'm', 'e', 't', 'r', 'y'];
    assert(k@ =~= seq!['g', 'e', 'o', 'm', 'e', 't', 'r', 'y']);
    if same_chars(w, &k) {
        return Some(Stage::Geometry);
    }
    let k = vec!['t', 'e', 's', 's', '_', 'c', 'o', 'n', 't', 'r', 'o', 'l'];
    assert(k@ =~= seq!['t', 'e', 's', 's', '_', 'c', 'o', 'n', 't', 'r', 'o', 'l']);
    if same_chars(w, &k) {
        return Some(Stage::TessControl);
    }
    let k = vec!['t', 'e', 's', 's', '_', 'e', 'v', 'a', 'l'];
    assert(k@ =~= seq!['t', 'e', 's', 's', '_', 'e', 'v', 'a', 'l']);
    if same_chars(w, &k) {
        return Some(Stage::TessEval);
    }
    let k = vec!['c', 'o', 'm', 'p', 'u', 't', 'e'];
    assert(k@ =~= seq!['c', 'o', 'm', 'p', 'u', 't', 'e']);
    if same_chars(w, &k) {
        return Some(Stage::Compute);
    }
    None
}

/// Executable `topology_named`.
pub fn topology_of_word(w: &Vec<char>) -> (r: Option<PrimitiveTopology>)
    ensures
        r == topology_named(w@),
{
    let k = vec!['t', 'r', 'i', 'a', 'n', 'g', 'l', 'e'];
    assert(k@ =~= seq!['t', 'r', 'i', 'a', 'n', 'g', 'l', 'e']);
    if same_chars(w, &k) {
        return Some(PrimitiveTopology::Triangles);
    }
    let k = vec!['l', 'i', 'n', 'e'];
    assert(k@ =~= seq!['l', 'i', 'n', 'e']);
    if same_chars(w, &k) {
        return Some(PrimitiveTopology::Lines);
    }
    None
}

/// Executable `format_named`.
pub fn format_of_word(w: &Vec<char>) -> (r: Option<(ComponentType, u32, bool)>)
    ensures
        r == format_named(w@),
{
    let k = vec!['r', 'g', 'b', 'a', '3', '2', 'f'];
    assert(k@ =~= seq!['r', 'g', 'b', 'a', '3', '2', 'f']);
    if same_chars(w, &k) {
        return Some((ComponentType::Float, 4, false));
    }
    let k = vec!['r', 'g', 'b', '3', '2', 'f'];
    assert(k@ =~= seq!['r', 'g', 'b', '3', '2', 'f']);
    if same_chars(w, &k) {
        return Some((ComponentType::Float, 3, false));
    }
    let k = vec!['r', 'g', '3', '2', 'f'];
    assert(k@ =~= seq!['r', 'g', '3', '2', 'f']);
    if same_chars(w, &k) {
        return Some((ComponentType::Float, 2, false));
    }
    let k = vec!['r', '3', '2', 'f'];
    assert(k@ =~= seq!['r', '3', '2', 'f']);
    if same_chars(w, &k) {
        return Some((ComponentType::Float, 1, false));
    }
    let k = vec!['r', 'g', 'b', 'a', '1', '6', '_', 's', 'n', 'o', 'r', 'm'];
    assert(k@ =~= seq!['r', 'g', 'b', 'a', '1', '6', '_', 's', 'n', 'o', 'r', 'm']);
    if same_chars(w, &k) {
        return Some((ComponentType::Short, 4, true));
    }
    let k = vec!['r', 'g', 'b', '1', '6', '_', 's', 'n', 'o', 'r', 'm'];
    assert(k@ =~= seq!['r', 'g', 'b', '1', '6', '_', 's', 'n', 'o', 'r', 'm']);
    if same_chars(w, &k) {
        return Some((ComponentType::Short, 3, true));
    }
    let k = vec!['r', 'g', '1', '6', '_', 's', 'n', 'o', 'r', 'm'];
    assert(k@ =~= seq!['r', 'g', '1', '6', '_', 's', 'n', 'o', 'r', 'm']);
    if same_chars(w, &k) {
        return Some((ComponentType::Short, 2, true));
    }
    let k = vec!['r', '1', '6', '_', 's', 'n', 'o', 'r', 'm'];
    assert(k@ =~= seq!['r', '1', '6', '_', 's', 'n', 'o', 'r', 'm']);
    if same_chars(w, &k) {
        return Some((ComponentType::Short, 1, true));
    }
    let k = vec!['r', 'g', 'b', 'a', '8', '_', 'u', 'n', 'o', 'r', 'm'];
    assert(k@ =~= seq!['r', 'g', 'b', 'a', '8', '_', 'u', 'n', 'o', 'r', 'm']);
    if same_chars(w, &k) {
        return Some((ComponentType::UnsignedByte, 4, true));
    }
    let k = vec!['r', 'g', 'b', 'a', '8', '_', 's', 'n', 'o', 'r', 'm'];
    assert(k@ =~= seq!['r', 'g', 'b', 'a', '8', '_', 's', 'n', 'o', 'r', 'm']);
    if same_chars(w, &k) {
        return Some((ComponentType::Byte, 4, true));
    }
    None
}

/// Executable `number_named`.
pub fn number_of_word(w: &Vec<char>) -> (r: Option<u32>)
    ensures
        r == number_named(w@),
{
    if w.len() == 0 {
        return None;
    }
    let mut k: usize = 0;
    while k < w.len()
        invariant
            k <= w@.len(),
            forall|m: int| 0 <= m < k ==> is_digit(w@[m]),
        decreases w@.len() - k,
    {
        if !is_digit_char(w[k]) {
            return None;
        }
        k = k + 1;
    }
    match parse_digits(w, MAX_U32) {
        Some(v) => Some(v as u32),
        None => None,
    }
}

/// Executable `layout_of`.
pub fn parse_layout(args: &Vec<Vec<char>>) -> (r: Option<Vec<VertexAttribute>>)
    ensures
        match r {
            Some(v) => layout_of(crate::directive::views(args@)) == Some(v@),
            None => layout_of(crate::directive::views(args@)) is None,
        },
{
    let ghost all = crate::directive::views(args@);
    let mut out: Vec<VertexAttribute> = Vec::new();
    let mut i: usize = 0;
    assert(all.subrange(0, all.len() as int) =~= all);
    proof {
        match layout_of(all) {
            Some(rest) => assert(out@ + rest =~= rest),
            None => {},
        }
    }
    while i < args.len()
        invariant
            i <= args@.len(),
            all == crate::directive::views(args@),
            layout_of(all) == (match layout_of(all.subrange(i as int, all.len() as int)) {
                Some(rest) => Some(out@ + rest),
                None => None::<Seq<VertexAttribute>>,
            }),
        decreases args@.len() - i,
    {
        let ghost tail = all.subrange(i as int, all.len() as int);
        if args.len() - i < 3 {
            assert(tail.len() > 0 && tail.len() < 3);
            return None;
        }
        assert(tail[0] == args@[i as int]@);
        assert(tail[1] == args@[i + 1]@);
        assert(tail[2] == args@[i + 2]@);
        assert(tail.subrange(3, tail.len() as int) =~= all.subrange(i + 3, all.len() as int));
        let f = format_of_word(&args[i]);
        let s = number_of_word(&args[i + 1]);
        let o = number_of_word(&args[i + 2]);
        match (f, s, o) {
            (Some(t), Some(slot), Some(off)) => {
                let a = VertexAttribute {
                    ty: t.0,
                    size: t.1,
                    normalized: t.2,
                    slot: slot,
                    relative_offset: off,
                };
                proof {
                    match layout_of(all.subrange(i + 3, all.len() as int)) {
                        Some(rest) => {
                            assert(out@ + (seq![a] + rest) =~= out@.push(a) + rest);
                        },
                        None => {},
                    }
                }
                out.push(a);
                i = i + 3;
            },
            _ => {
                return None;
            },
        }
    }
    assert(all.subrange(i as int, all.len() as int) =~= Seq::<Seq<char>>::empty());
    assert(out@ + Seq::<VertexAttribute>::empty() =~= out@);
    Some(out)
}

/// The attributes of an input layout come in the order of their triples.
pub proof fn lemma_layout_in_order(args: Seq<Seq<char>>)
    requires
        layout_of(args) is Some,
    ensures
        layout_of(args)->0.len() * 3 == args.len(),
        forall|i: int|
            0 <= i < layout_of(args)->0.len() ==> attribute_of(args[3 * i], args[3 * i + 1], args[3 * i + 2])
                == Some(#[trigger] layout_of(args)->0[i]),
    decreases args.len(),
{
    if args.len() > 0 {
        let rest = args.subrange(3, args.len() as int);
        lemma_layout_in_order(rest);
        let l = layout_of(args)->0;
        assert forall|i: int|
            0 <= i < l.len() implies attribute_of(args[3 * i], args[3 * i + 1], args[3 * i + 2])
                == Some(#[trigger] l[i]) by {
            if i > 0 {
                assert(l[i] == layout_of(rest)->0[i - 1]);
                assert(rest[3 * (i - 1)] == args[3 * i]);
                assert(rest[3 * (i - 1) + 1] == args[3 * i + 1]);
                assert(rest[3 * (i - 1) + 2] == args[3 * i + 2]);
            }
        }
    }
}

} // verus!
