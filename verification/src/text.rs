//! Helpers on text: strings as sequences of characters.

use vstd::prelude::*;

verus! {

/// The characters of a string.
pub fn chars_of(text: &str) -> (chars: Vec<char>)
    ensures
        chars@ == text@,
{
    let mut chars: Vec<char> = Vec::new();
    for c in it: text.chars()
        invariant
            it.seq() == text@,
            chars@ == it.seq().take(it.index() as int),
    {
        chars.push(c);
    }
    chars
}

/// Trusted: `Iterator::collect` of std into a `String`, on the characters of
/// a slice. The string holds those characters in their order.
#[verifier::external_body]
pub(crate) fn string_of(chars: &[char]) -> (text: String)
    ensures
        text@ == chars@,
{
    chars.iter().collect()
}

/// The first place from `from` on, before `to`, that holds `wanted`, or `to`
/// where none does.
pub fn find_char(text: &[char], from: usize, to: usize, wanted: char) -> (at: usize)
    requires
        from <= to <= text@.len(),
    ensures
        from <= at <= to,
        at < to ==> text@[at as int] == wanted,
        forall|i: int| from <= i < at ==> text@[i] != wanted,
{
    let mut at: usize = from;
    while at < to
        invariant
            from <= at <= to <= text@.len(),
            forall|i: int| from <= i < at ==> text@[i] != wanted,
        decreases to - at,
    {
        if text[at] == wanted {
            return at;
        }
        at = at + 1;
    }
    at
}

/// Whether `text` starts with the characters of `prefix`.
pub fn starts_with(text: &[char], prefix: &[char]) -> (yes: bool)
    ensures
        yes == (text@.len() >= prefix@.len() && text@.take(prefix@.len() as int) == prefix@),
{
    if text.len() < prefix.len() {
        return false;
    }
    let mut i: usize = 0;
    while i < prefix.len()
        invariant
            i <= prefix@.len() <= text@.len(),
            forall|j: int| 0 <= j < i ==> text@[j] == prefix@[j],
        decreases prefix@.len() - i,
    {
        if text[i] != prefix[i] {
            assert(text@.take(prefix@.len() as int)[i as int] != prefix@[i as int]);
            return false;
        }
        i = i + 1;
    }
    assert(text@.take(prefix@.len() as int) =~= prefix@);
    true
}

/// Whether two strings hold the same characters.
pub fn same_text(a: &str, b: &str) -> (same: bool)
    ensures
        same == (a@ == b@),
{
    let left = chars_of(a);
    let right = chars_of(b);
    if left.len() != right.len() {
        return false;
    }
    let same = starts_with(left.as_slice(), right.as_slice());
    assert(left@.take(right@.len() as int) =~= left@);
    same
}

} // verus!
