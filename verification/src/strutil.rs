//! Small string helpers shared by the tokenizer, tree builder, and mapper.

use vstd::prelude::*;

verus! {

/// Whether `c` has the Unicode `Alphabetic` property, as decided by
/// `char::is_alphabetic`. Outside ASCII the property is left abstract.
pub uninterp spec fn is_alpha(c: char) -> bool;

/// Relies on `char::is_alphabetic`: the answer depends on the character
/// alone, and on ASCII characters it holds exactly of the letters.
#[verifier::external_body]
pub(crate) fn char_is_alphabetic(c: char) -> (r: bool)
    ensures
        r == is_alpha(c),
        c < 128 as char ==> r == ('a' <= c <= 'z' || 'A' <= c <= 'Z'),
{
    c.is_alphabetic()
}

/// Relies on `String::push`: appends exactly the one character to the end.
#[verifier::external_body]
pub(crate) fn push_char(s: &mut String, c: char)
    ensures
        final(s)@ == old(s)@.push(c),
{
    s.push(c)
}

/// Whether a character survives the pre-pass: tabs and newlines do not.
pub open spec fn keeps(c: char) -> bool {
    c != '\t' && c != '\n'
}

pub open spec fn strip_at(s: Seq<char>, n: int) -> Seq<char>
    decreases n,
{
    if n <= 0 {
        Seq::empty()
    } else {
        strip_at(s, n - 1) + (if keeps(s[n - 1]) {
            seq![s[n - 1]]
        } else {
            Seq::empty()
        })
    }
}

/// The input with every tab and newline removed, order kept.
pub open spec fn strip_spec(s: Seq<char>) -> Seq<char> {
    strip_at(s, s.len() as int)
}

/// Removes every tab and newline from the text, keeping everything else in
/// order: the pre-pass that runs before tokenization.
pub fn strip_control(s: &str) -> (r: String)
    ensures
        r@ == strip_spec(s@),
{
    let n = s.unicode_len();
    let mut out = String::new();
    proof {
        assert(out@ =~= strip_at(s@, 0));
    }
    let mut i: usize = 0;
    while i < n
        invariant
            n == s@.len(),
            i <= n,
            out@ == strip_at(s@, i as int),
        decreases n - i,
    {
        let c = s.get_char(i);
        if c != '\t' && c != '\n' {
            push_char(&mut out, c);
        }
        proof {
            assert(out@ =~= strip_at(s@, i + 1 as int));
        }
        i = i + 1;
    }
    out
}

/// Character-for-character equality of two string slices.
pub fn str_eq(a: &str, b: &str) -> (r: bool)
    ensures
        r == (a@ == b@),
{
    let alen = a.unicode_len();
    let blen = b.unicode_len();
    if alen != blen {
        return false;
    }
    let mut i: usize = 0;
    while i < alen
        invariant
            alen == a@.len(),
            alen == b@.len(),
            i <= alen,
            forall|j: int| 0 <= j < i ==> a@[j] == b@[j],
        decreases alen - i,
    {
        if a.get_char(i) != b.get_char(i) {
            return false;
        }
        i = i + 1;
    }
    proof {
        assert(a@ =~= b@);
    }
    true
}

} // verus!
