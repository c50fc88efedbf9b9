use vstd::prelude::*;
use vstd::std_specs::iter::IteratorSpec;

verus! {

/// `part` occurs in `text` as a contiguous run of characters.
pub open spec fn is_part_of(part: Seq<char>, text: Seq<char>) -> bool {
    exists|a: int| 0 <= a && a + part.len() <= text.len() && #[trigger] text.subrange(a, a + part.len()) == part
}

/// `text` begins with `prefix`.
pub open spec fn starts_with(text: Seq<char>, prefix: Seq<char>) -> bool {
    prefix.len() <= text.len() && text.subrange(0, prefix.len() as int) == prefix
}

/// Whether `pat` occurs in `text` starting at position `a`.
fn matches_at(text: &Vec<char>, pat: &Vec<char>, a: usize) -> (r: bool)
    requires
        a + pat@.len() <= text@.len(),
    ensures
        r == (text@.subrange(a as int, a + pat@.len()) == pat@),
{
    let n = text.len();
    let mut t: usize = 0;
    while t < pat.len()
        invariant
            n == text@.len(),
            a + pat@.len() <= text@.len(),
            t <= pat@.len(),
            forall|u: int| 0 <= u < t ==> text@[a + u] == pat@[u],
        decreases pat@.len() - t,
    {
        assert(a + t < text@.len());
        if text[a + t] != pat[t] {
            assert(text@.subrange(a as int, a + pat@.len())[t as int] != pat@[t as int]);
            return false;
        }
        t = t + 1;
    }
    assert(text@.subrange(a as int, a + pat@.len()) =~= pat@);
    true
}

/// Whether `pat` occurs anywhere in `text`.
pub fn has_part(text: &Vec<char>, pat: &Vec<char>) -> (r: bool)
    ensures
        r == is_part_of(pat@, text@),
{
    if pat.len() > text.len() {
        return false;
    }
    if pat.len() == 0 {
        assert(text@.subrange(0int, 0int + pat@.len()) =~= pat@);
        return true;
    }
    let positions = text.len() - pat.len() + 1;
    let mut a: usize = 0;
    while a < positions
        invariant
            positions == text@.len() - pat@.len() + 1,
            a <= positions,
            forall|b: int| 0 <= b < a ==> #[trigger] text@.subrange(b, b + pat@.len()) != pat@,
        decreases positions - a,
    {
        if matches_at(text, pat, a) {
            return true;
        }
        a = a + 1;
    }
    false
}

/// Whether `text` begins with `prefix`.
pub fn has_prefix(text: &Vec<char>, prefix: &Vec<char>) -> (r: bool)
    ensures
        r == starts_with(text@, prefix@),
{
    if prefix.len() > text.len() {
        return false;
    }
    matches_at(text, prefix, 0)
}

/// Character-wise equality of two strings.
pub fn str_eq(a: &str, b: &str) -> (r: bool)
    ensures
        r == (a@ == b@),
{
    let n = a.unicode_len();
    if n != b.unicode_len() {
        return false;
    }
    let mut i: usize = 0;
    while i < n
        invariant
            n == a@.len() == b@.len(),
            i <= n,
            forall|t: int| 0 <= t < i ==> a@[t] == b@[t],
        decreases n - i,
    {
        if a.get_char(i) != b.get_char(i) {
            return false;
        }
        i = i + 1;
    }
    assert(a@ =~= b@);
    true
}

/// The last character of `s` is an underscore.
pub fn ends_with_underscore(s: &str) -> (r: bool)
    ensures
        r == (s@.len() > 0 && s@.last() == '_'),
{
    let n = s.unicode_len();
    n > 0 && s.get_char(n - 1) == '_'
}

/// The characters of `s`, in order.
pub fn to_chars(s: &str) -> (r: Vec<char>)
    ensures
        r@ == s@,
{
    broadcast use vstd::string::axiom_spec_iter, vstd::string::next_postcondition;

    let mut out: Vec<char> = Vec::new();
    let mut it = s.chars();
    loop
        invariant
            out@.len() <= s@.len(),
            it.obeys_prophetic_iter_laws(),
            out@ + it.remaining() == s@,
        decreases s@.len() - out@.len(),
    {
        match it.next() {
            Some(c) => {
                out.push(c);
                assert(out@.len() <= s@.len()) by {
                    assert((out@ + it.remaining()).len() == s@.len());
                }
            },
            None => {
                assert(it.remaining().len() == 0);
                assert(out@ =~= s@);
                return out;
            },
        }
    }
}

} // verus!
