//! Character-level helpers shared by the other modules.

use vstd::prelude::*;

verus! {

/// `String::push` of the standard library appends the given character to the
/// end of the string and changes nothing else.
pub assume_specification[ String::push ](s: &mut String, c: char)
    ensures
        final(s)@ == old(s)@.push(c),
;

/// Whether `c` is white space: the code points that Unicode gives the
/// property `White_Space`.
pub open spec fn is_space(c: char) -> bool {
    let n = c as u32;
    ||| 0x09 <= n <= 0x0D
    ||| n == 0x20
    ||| n == 0x85
    ||| n == 0xA0
    ||| n == 0x1680
    ||| 0x2000 <= n <= 0x200A
    ||| n == 0x2028
    ||| n == 0x2029
    ||| n == 0x202F
    ||| n == 0x205F
    ||| n == 0x3000
}

/// Tests a character for white space.
pub fn is_space_char(c: char) -> (b: bool)
    ensures
        b == is_space(c),
{
    let n: u32 = c as u32;
    (0x09 <= n && n <= 0x0D) || n == 0x20 || n == 0x85 || n == 0xA0 || n == 0x1680 || (0x2000 <= n
        && n <= 0x200A) || n == 0x2028 || n == 0x2029 || n == 0x202F || n == 0x205F || n == 0x3000
}

/// Whether `c` is the letter `lower` in either case, as Unicode's simple case
/// folding has it for a lower-case ASCII letter: the letter, its capital,
/// and beside them the long s (U+017F) for `s` and the Kelvin sign (U+212A)
/// for `k`. For any other `lower`, whether the two are the same character.
pub open spec fn same_letter(c: char, lower: char) -> bool {
    ||| c == lower
    ||| ('a' as u32 <= lower as u32 <= 'z' as u32 && c as u32 + 32 == lower as u32)
    ||| (lower == 's' && c as u32 == 0x17F)
    ||| (lower == 'k' && c as u32 == 0x212A)
}

/// Compares a character with a pattern character, ignoring case.
pub fn is_same_letter(c: char, lower: char) -> (b: bool)
    ensures
        b == same_letter(c, lower),
{
    let l: u32 = lower as u32;
    let n: u32 = c as u32;
    c == lower || (0x61 <= l && l <= 0x7A && n == l - 32) || (lower == 's' && n == 0x17F) || (lower
        == 'k' && n == 0x212A)
}

/// Whether `a` and `b` are the same text when ASCII letters are compared
/// without regard to case.
pub open spec fn same_text(a: Seq<char>, b: Seq<char>) -> bool {
    &&& a.len() == b.len()
    &&& forall|k: int| 0 <= k < a.len() ==> fold(#[trigger] a[k]) == fold(b[k])
}

/// `c` with an upper-case ASCII letter turned into its lower-case form.
pub open spec fn fold(c: char) -> u32 {
    if 'A' as u32 <= c as u32 <= 'Z' as u32 {
        (c as u32 + 32) as u32
    } else {
        c as u32
    }
}

/// The number that `fold` gives for a character.
pub fn fold_char(c: char) -> (n: u32)
    ensures
        n == fold(c),
{
    let n: u32 = c as u32;
    if 0x41 <= n && n <= 0x5A {
        n + 32
    } else {
        n
    }
}

/// Compares two texts, ignoring ASCII case.
pub fn is_same_text(a: &str, b: &str) -> (r: bool)
    ensures
        r == same_text(a@, b@),
{
    let x = chars_of(a);
    let y = chars_of(b);
    if x.len() != y.len() {
        return false;
    }
    let mut i: usize = 0;
    while i < x.len()
        invariant
            i <= x.len(),
            x.len() == y.len(),
            x@ == a@,
            y@ == b@,
            forall|k: int| 0 <= k < i ==> fold(#[trigger] x@[k]) == fold(y@[k]),
        decreases x.len() - i,
    {
        if fold_char(x[i]) != fold_char(y[i]) {
            assert(fold(a@[i as int]) != fold(b@[i as int]));
            return false;
        }
        i += 1;
    }
    true
}

/// Whether two strings hold the same characters.
pub fn is_equal(a: &str, b: &str) -> (r: bool)
    ensures
        r == (a@ == b@),
{
    let x = chars_of(a);
    let y = chars_of(b);
    if x.len() != y.len() {
        return false;
    }
    let mut i: usize = 0;
    while i < x.len()
        invariant
            i <= x.len(),
            x.len() == y.len(),
            x@ == a@,
            y@ == b@,
            forall|k: int| 0 <= k < i ==> x@[k] == y@[k],
        decreases x.len() - i,
    {
        if x[i] != y[i] {
            assert(a@[i as int] != b@[i as int]);
            return false;
        }
        i += 1;
    }
    assert(x@ =~= y@);
    true
}

/// The characters of `s`, in order.
pub fn chars_of(s: &str) -> (v: Vec<char>)
    ensures
        v@ == s@,
{
    let mut v: Vec<char> = Vec::new();
    for c in it: s.chars()
        invariant
            v@ == it.seq().take(it.index()),
            it.seq() == s@,
    {
        v.push(c);
    }
    v
}

} // verus!
