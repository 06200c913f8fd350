use vstd::prelude::*;

use crate::def::{Pos, Rect, TextOperation};

verus! {

/// `target` occurs in `text` as a run of consecutive characters.
pub open spec fn is_infix(text: Seq<char>, target: Seq<char>) -> bool {
    exists|i: int|
        0 <= i && i + target.len() <= text.len() && #[trigger] text.subrange(i, i + target.len())
            == target
}

/// `text` begins with `target`.
pub open spec fn is_prefix(text: Seq<char>, target: Seq<char>) -> bool {
    target.len() <= text.len() && text.subrange(0, target.len() as int) == target
}

/// `text` ends with `target`.
pub open spec fn is_suffix(text: Seq<char>, target: Seq<char>) -> bool {
    target.len() <= text.len() && text.subrange(text.len() - target.len(), text.len() as int)
        == target
}

/// Whether OCR text `text` matches the expected `target` under `op`.
pub open spec fn op_holds(op: TextOperation, text: Seq<char>, target: Seq<char>) -> bool {
    match op {
        TextOperation::Exact => text == target,
        TextOperation::Contains => is_infix(text, target),
        TextOperation::StartsWith => is_prefix(text, target),
        TextOperation::EndsWith => is_suffix(text, target),
    }
}

/// Relies on `str::contains` with a `&str` pattern: true when `target` occurs in `text`.
#[verifier::external_body]
fn str_contains(text: &str, target: &str) -> (r: bool)
    ensures
        r == is_infix(text@, target@),
{
    text.contains(target)
}

/// Relies on `str::starts_with` with a `&str` pattern: true when `text` begins with `target`.
#[verifier::external_body]
fn str_starts_with(text: &str, target: &str) -> (r: bool)
    ensures
        r == is_prefix(text@, target@),
{
    text.starts_with(target)
}

/// Relies on `str::ends_with` with a `&str` pattern: true when `text` ends with `target`.
#[verifier::external_body]
fn str_ends_with(text: &str, target: &str) -> (r: bool)
    ensures
        r == is_suffix(text@, target@),
{
    text.ends_with(target)
}

impl TextOperation {
    /// Compares OCR text with the text an identifier expects.
    pub fn run(&self, text: &str, target: &str) -> (r: bool)
        ensures
            r == op_holds(*self, text@, target@),
    {
        match self {
            TextOperation::Exact => text.to_owned() == target.to_owned(),
            TextOperation::Contains => str_contains(text, target),
            TextOperation::StartsWith => str_starts_with(text, target),
            TextOperation::EndsWith => str_ends_with(text, target),
        }
    }
}

/// `Exact` holds exactly when the two texts are equal.
pub proof fn lemma_exact_is_equality(a: Seq<char>, b: Seq<char>)
    ensures
        op_holds(TextOperation::Exact, a, b) <==> a == b,
{
}

/// Every text contains itself.
pub proof fn lemma_contains_reflexive(a: Seq<char>)
    ensures
        op_holds(TextOperation::Contains, a, a),
{
    assert(a.subrange(0int, 0int + a.len()) =~= a);
}

/// If `a` contains `b` and `b` contains `c`, then `a` contains `c`.
pub proof fn lemma_contains_transitive(a: Seq<char>, b: Seq<char>, c: Seq<char>)
    requires
        op_holds(TextOperation::Contains, a, b),
        op_holds(TextOperation::Contains, b, c),
    ensures
        op_holds(TextOperation::Contains, a, c),
{
    let i = choose|i: int|
        0 <= i && i + b.len() <= a.len() && #[trigger] a.subrange(i, i + b.len()) == b;
    let j = choose|j: int|
        0 <= j && j + c.len() <= b.len() && #[trigger] b.subrange(j, j + c.len()) == c;
    assert(a.subrange(i + j, i + j + c.len()) =~= c);
}

/// A text that both begins and ends with another of the same length is that text.
pub proof fn lemma_prefix_suffix_same_length(a: Seq<char>, b: Seq<char>)
    requires
        op_holds(TextOperation::StartsWith, a, b),
        op_holds(TextOperation::EndsWith, a, b),
        a.len() == b.len(),
    ensures
        op_holds(TextOperation::Exact, a, b),
{
    assert(a.subrange(0, a.len() as int) =~= a);
}

/// Pixels searched around the expected place of a reference, on each side.
pub const HALO: u32 = 20;

/// Moves a coordinate `HALO` pixels back, stopping at zero.
pub open spec fn halo_start(v: u32) -> u32 {
    if v >= HALO {
        (v - HALO) as u32
    } else {
        0
    }
}

/// The region of the screenshot searched for the reference crop taken at `rect`:
/// `rect` grown by `HALO` on each side, its origin stopping at zero.
pub fn ref_match_region(rect: Rect) -> (r: Rect)
    requires
        rect.2 + 2 * HALO <= u32::MAX,
        rect.3 + 2 * HALO <= u32::MAX,
    ensures
        r == (halo_start(rect.0), halo_start(rect.1), (rect.2 + 2 * HALO) as u32, (rect.3 + 2
            * HALO) as u32),
{
    (rect.0.saturating_sub(HALO), rect.1.saturating_sub(HALO), rect.2 + 2 * HALO, rect.3 + 2 * HALO)
}

/// The region of the screenshot searched for a whole reference image of `width` by
/// `height` expected at `pos`: grown by `HALO` on each side, its origin stopping at zero.
pub fn image_match_region(pos: Pos, width: u32, height: u32) -> (r: Rect)
    requires
        width + 2 * HALO <= u32::MAX,
        height + 2 * HALO <= u32::MAX,
    ensures
        r == (halo_start(pos.0), halo_start(pos.1), (width + 2 * HALO) as u32, (height + 2
            * HALO) as u32),
{
    (pos.0.saturating_sub(HALO), pos.1.saturating_sub(HALO), width + 2 * HALO, height + 2 * HALO)
}

/// A screen is confirmed when every one of its identifiers matched.
pub fn screen_confirmed(results: &Vec<bool>) -> (r: bool)
    ensures
        r == (forall|i: int| 0 <= i < results.len() ==> results@[i]),
{
    let mut i: usize = 0;
    while i < results.len()
        invariant
            i <= results.len(),
            forall|j: int| 0 <= j < i ==> results@[j],
        decreases results.len() - i,
    {
        if !results[i] {
            return false;
        }
        i += 1;
    }
    true
}

} // verus!
