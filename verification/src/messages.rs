//! Chat messages: the coloured `WORLDPUMPKIN ›` prefix, with its brand
//! gradient, and the body colour of information and error messages.

use vstd::prelude::*;
use crate::text::{chars_of, string_of};

verus! {

/// What a message reports.
#[derive(Clone, Copy, Debug, PartialEq, Eq, Structural)]
pub enum MessageKind {
    Info,
    Error,
}

/// A 24-bit colour.
#[derive(Clone, Copy, Debug, PartialEq, Eq, Structural)]
pub struct Rgb {
    pub r: u8,
    pub g: u8,
    pub b: u8,
}

/// A piece of text in one colour.
pub struct Segment {
    pub text: String,
    pub color: Rgb,
    pub bold: bool,
}

/// The spec form of a segment.
pub struct SegmentView {
    pub text: Seq<char>,
    pub color: Rgb,
    pub bold: bool,
}

impl View for Segment {
    type V = SegmentView;

    open spec fn view(&self) -> SegmentView {
        SegmentView { text: self.text@, color: self.color, bold: self.bold }
    }
}

pub const BRAND: &'static str = "WORLDPUMPKIN";

pub open spec fn rgb(r: u8, g: u8, b: u8) -> Rgb {
    Rgb { r, g, b }
}

pub open spec fn brand_start() -> Rgb {
    rgb(255, 104, 24)
}

pub open spec fn brand_end() -> Rgb {
    rgb(255, 190, 64)
}

/// Integer division rounding toward zero, as `/` on `i32` does.
pub open spec fn trunc_div(a: int, b: int) -> int {
    if a >= 0 {
        a / b
    } else {
        -((-a) / b)
    }
}

/// The channel value `pos / max` of the way from `start` to `end`, rounded
/// toward `start`, wrapped to a byte.
pub open spec fn spec_lerp_channel(start: u8, end: u8, pos: usize, max: usize) -> u8 {
    (start + trunc_div((end - start) * pos, max as int)) as u8
}

/// One channel of a linear blend.
pub fn lerp_channel(start: u8, end: u8, pos: usize, max: usize) -> (c: u8)
    requires
        0 < max <= i32::MAX,
        pos <= i32::MAX,
        i32::MIN <= (end - start) * pos <= i32::MAX,
    ensures
        c == spec_lerp_channel(start, end, pos, max),
{
    let s = start as i64;
    let d = end as i64 - s;
    let p = pos as i64;
    let m = max as i64;
    assert(-255 <= d <= 255);
    assert(i32::MIN <= d * p <= i32::MAX);
    let prod = d * p;
    let q: i64 = if prod >= 0 {
        assert(prod / m <= prod) by (nonlinear_arith)
            requires
                prod >= 0,
                m >= 1,
        ;
        prod / m
    } else {
        let np: i64 = -prod;
        assert(np / m <= np) by (nonlinear_arith)
            requires
                np > 0,
                m >= 1,
        ;
        -(np / m)
    };
    assert(q == trunc_div(prod as int, m as int));
    let v = s + q;
    #[verifier::truncate]
    (v as u8)
}

pub open spec fn spec_lerp(start: Rgb, end: Rgb, pos: usize, max: usize) -> Rgb {
    rgb(
        spec_lerp_channel(start.r, end.r, pos, max),
        spec_lerp_channel(start.g, end.g, pos, max),
        spec_lerp_channel(start.b, end.b, pos, max),
    )
}

/// The colour of letter `index` of the brand, whose last letter is at
/// `max_index`.
pub open spec fn spec_gradient_color(index: usize, max_index: usize) -> Rgb {
    spec_lerp(brand_start(), brand_end(), index, max_index)
}

/// The colour of brand letter `index`; the blend is computed in `i32`, whose
/// range bounds `index` times the widest channel step (86, green).
pub fn gradient_color(index: usize, max_index: usize) -> (c: Rgb)
    requires
        0 < max_index <= i32::MAX,
        86 * index <= i32::MAX,
    ensures
        c == spec_gradient_color(index, max_index),
{
    Rgb {
        r: lerp_channel(255, 255, index, max_index),
        g: lerp_channel(104, 190, index, max_index),
        b: lerp_channel(24, 64, index, max_index),
    }
}

pub open spec fn spec_body_color(kind: MessageKind) -> Rgb {
    match kind {
        MessageKind::Info => rgb(238, 238, 238),
        MessageKind::Error => rgb(255, 105, 97),
    }
}

pub fn body_color(kind: MessageKind) -> (c: Rgb)
    ensures
        c == spec_body_color(kind),
{
    match kind {
        MessageKind::Info => Rgb { r: 238, g: 238, b: 238 },
        MessageKind::Error => Rgb { r: 255, g: 105, b: 97 },
    }
}

/// The brand letters, each bold in its gradient colour: the first letter in
/// the start colour, the last in the end colour.
pub open spec fn brand_segments() -> Seq<SegmentView> {
    Seq::new(
        BRAND@.len(),
        |i: int|
            SegmentView {
                text: seq![BRAND@[i]],
                color: spec_gradient_color(i as usize, (BRAND@.len() - 1) as usize),
                bold: true,
            },
    )
}

/// A message as it is shown: the brand, a bold ` › ` and the text in the
/// colour of its kind.
pub open spec fn spec_prefixed(kind: MessageKind, message: Seq<char>) -> Seq<SegmentView> {
    brand_segments().push(SegmentView { text: " › "@, color: rgb(255, 156, 42), bold: true }).push(
        SegmentView { text: message, color: spec_body_color(kind), bold: false },
    )
}

/// The coloured pieces of a message.
pub fn prefixed_segments(kind: MessageKind, message: &str) -> (out: Vec<Segment>)
    ensures
        out@.len() == spec_prefixed(kind, message@).len(),
        forall|i: int| 0 <= i < out@.len() ==> #[trigger] out@[i]@ == spec_prefixed(kind, message@)[i],
{
    proof {
        reveal_strlit("WORLDPUMPKIN");
    }
    let letters = chars_of(BRAND);
    let n = letters.len();
    let max_index: usize = if n >= 2 {
        n - 1
    } else {
        1
    };
    let mut out: Vec<Segment> = Vec::new();
    let mut i: usize = 0;
    while i < n
        invariant
            letters@ == BRAND@,
            BRAND@.len() == 12,
            n == letters@.len(),
            n == 12,
            max_index == 11,
            i <= n,
            out@.len() == i,
            forall|k: int| 0 <= k < i ==> #[trigger] out@[k]@ == brand_segments()[k],
        decreases n - i,
    {
        let mut one: Vec<char> = Vec::new();
        one.push(letters[i]);
        let seg = Segment { text: string_of(one.as_slice()), color: gradient_color(i, max_index), bold: true };
        out.push(seg);
        proof {
            assert(one@ =~= seq![BRAND@[i as int]]);
        }
        i += 1;
    }
    out.push(Segment { text: " › ".to_owned(), color: Rgb { r: 255, g: 156, b: 42 }, bold: true });
    out.push(Segment { text: message.to_owned(), color: body_color(kind), bold: false });
    out
}


/// A blend starts at its start value and ends at its end value.
pub proof fn lemma_lerp_ends(start: u8, end: u8, max: usize)
    requires
        max > 0,
    ensures
        spec_lerp_channel(start, end, 0, max) == start,
        spec_lerp_channel(start, end, max, max) == end,
{
    let d: int = end - start;
    let m: int = max as int;
    assert(trunc_div(d * 0, m) == 0);
    if d >= 0 {
        assert((d * m) / m == d) by (nonlinear_arith)
            requires
                m > 0,
        ;
    } else {
        assert((-(d * m)) / m == -d) by (nonlinear_arith)
            requires
                m > 0,
        ;
        assert(d * m < 0) by (nonlinear_arith)
            requires
                m > 0,
                d < 0,
        ;
    }
    assert(trunc_div(d * m, m) == d);
}

/// The brand's first letter has the start colour and its last letter the
/// end colour.
pub proof fn lemma_gradient_ends()
    ensures
        spec_gradient_color(0, 11) == brand_start(),
        spec_gradient_color(11, 11) == brand_end(),
{
    lemma_lerp_ends(255, 255, 11);
    lemma_lerp_ends(104, 190, 11);
    lemma_lerp_ends(24, 64, 11);
}

} // verus!
