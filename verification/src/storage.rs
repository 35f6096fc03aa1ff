//! The stored best score: a bare JSON number.

use vstd::prelude::*;

use crate::text;

verus! {

/// White space as JSON has it.
pub open spec fn is_json_space(ch: char) -> bool {
    ch == ' ' || ch == '\n' || ch == '\t' || ch == '\r'
}

/// Whether `raw` is a number in decimal with white space around it: all of
/// `raw[..from]` and `raw[to..]` is white space, and the number is between.
pub open spec fn spells_between(raw: Seq<char>, n: nat, from: int, to: int) -> bool {
    &&& 0 <= from <= to <= raw.len()
    &&& forall|i: int| 0 <= i < from ==> is_json_space(#[trigger] raw[i])
    &&& forall|i: int| to <= i < raw.len() ==> is_json_space(#[trigger] raw[i])
    &&& raw.subrange(from, to) == text::decimal(n)
}

/// Whether `raw` spells the number `n`.
pub open spec fn spells(raw: Seq<char>, n: nat) -> bool {
    exists|from: int, to: int| #[trigger] spells_between(raw, n, from, to)
}

/// [`serde_json::from_str`], asked for a `u32`, accepts a text exactly when it
/// is the decimal form of one, without sign, leading zeros, fraction or
/// exponent, between JSON white space; it then gives that number. What is wrong
/// with any other text is not said.
#[verifier::external_body]
fn read_number(raw: &str) -> (number: Option<u32>)
    ensures
        number matches Some(n) ==> spells(raw@, n as nat),
        number is None ==> forall|n: u32| !#[trigger] spells(raw@, n as nat),
{
    serde_json::from_str::<u32>(raw).ok()
}

/// [`serde_json::to_string`] of a `u32` never fails, and gives its decimal form.
#[verifier::external_body]
fn write_number(n: u32) -> (encoded: Option<String>)
    ensures
        encoded is Some,
        encoded->0@ == text::decimal(n as nat),
{
    serde_json::to_string(&n).ok()
}

/// What a stored text stands for: the number that it spells, or none.
pub open spec fn stored(raw: Option<Seq<char>>, best: u32) -> bool {
    ||| raw is Some && spells(raw->0, best as nat)
    ||| best == 0 && (raw is None || forall|n: u32| !#[trigger] spells(raw->0, n as nat))
}

/// The best score in a stored text; none is nothing.
pub fn load_best(raw: Option<&str>) -> (best: u32)
    ensures
        raw matches Some(text) ==> stored(Some(text@), best),
        raw is None ==> best == 0,
{
    match raw {
        None => 0,
        Some(text) => match read_number(text) {
            Some(best) => best,
            None => 0,
        },
    }
}

/// The text to store for a best score.
pub fn save_best(best: u32) -> (encoded: Option<String>)
    ensures
        encoded is Some,
        encoded->0@ == text::decimal(best as nat),
{
    write_number(best)
}

// ---- laws ----------------------------------------------------------------

/// A text spells one number at most.
pub proof fn a_text_spells_one_number(raw: Seq<char>, n: nat, m: nat)
    requires
        spells(raw, n),
        spells(raw, m),
    ensures
        n == m,
{
    let (a, b) = choose|a: int, b: int| #[trigger] spells_between(raw, n, a, b);
    let (c, d) = choose|c: int, d: int| #[trigger] spells_between(raw, m, c, d);
    number_starts_and_ends(raw, n, a, b);
    number_starts_and_ends(raw, m, c, d);
    assert(a == c);
    assert(b == d);
    text::decimals_are_unique(n, m);
}

/// A number is not empty, and neither its first nor its last character is
/// white space.
proof fn number_starts_and_ends(raw: Seq<char>, n: nat, from: int, to: int)
    requires
        spells_between(raw, n, from, to),
    ensures
        from < to,
        !is_json_space(raw[from]),
        !is_json_space(raw[to - 1]),
{
    text::decimals_are_digits(n, 0);
    text::decimals_are_digits(n, to - from - 1);
    assert(raw.subrange(from, to)[0] == raw[from]);
    assert(raw.subrange(from, to)[to - from - 1] == raw[to - 1]);
}

/// What was saved is what is loaded: the text that is stored for a best score
/// stands for that best score and for no other.
pub proof fn loading_gives_back_what_was_saved(best: u32, loaded: u32)
    ensures
        stored(Some(text::decimal(best as nat)), loaded) <==> loaded == best,
{
    let raw = text::decimal(best as nat);
    assert(raw.subrange(0, raw.len() as int) =~= raw);
    assert(spells_between(raw, best as nat, 0, raw.len() as int));
    assert(spells(raw, best as nat));
    let kept = Some(raw);
    assert(spells(kept->0, best as nat));
    if stored(kept, loaded) {
        assert(spells(raw, loaded as nat));
        a_text_spells_one_number(raw, best as nat, loaded as nat);
    }
}

/// A stored text stands for exactly one best score.
pub proof fn a_stored_text_stands_for_one_score(raw: Option<Seq<char>>, a: u32, b: u32)
    requires
        stored(raw, a),
        stored(raw, b),
    ensures
        a == b,
{
    if raw is Some && spells(raw->0, a as nat) && spells(raw->0, b as nat) {
        a_text_spells_one_number(raw->0, a as nat, b as nat);
    }
}

} // verus!
