use crate::text::{has_part, has_prefix, is_part_of, starts_with, to_chars};
use vstd::prelude::*;

verus! {

/// The pieces of `s` between the occurrences of `sep`, in order.
pub uninterp spec fn split_of(s: Seq<char>, sep: Seq<char>) -> Seq<Seq<char>>;

pub open spec fn strings_of(v: Seq<String>) -> Seq<Seq<char>> {
    v.map_values(|s: String| s@)
}

/// Relies on `str::split` with a string pattern: the pieces between the
/// separators, in order; the outcome depends on the two texts alone.
#[verifier::external_body]
fn split_on(s: &str, sep: &str) -> (r: Vec<String>)
    ensures
        strings_of(r@) == split_of(s@, sep@),
{
    let mut pieces = Vec::new();
    for p in s.split(sep) {
        pieces.push(p.to_string());
    }
    pieces
}

/// A cache record that holds a wish-history request address.
pub open spec fn is_gacha_record(s: Seq<char>) -> bool {
    starts_with(s, "https://"@) && (is_part_of("getGachaLog"@, s) || is_part_of("getLdGachaLog"@, s))
}

/// Number of characters before the first NUL, or the whole length.
pub open spec fn nul_free_len(s: Seq<char>) -> nat
    decreases s.len(),
{
    if s.len() == 0 {
        0
    } else if s[0] == '\0' {
        0
    } else {
        1 + nul_free_len(s.drop_first())
    }
}

/// The address of a record: the text up to its first NUL.
pub open spec fn record_url(s: Seq<char>) -> Seq<char> {
    s.take(nul_free_len(s) as int)
}

/// Addresses of the records that hold a wish-history request, latest record first.
pub open spec fn gacha_urls(records: Seq<Seq<char>>) -> Seq<Seq<char>>
    decreases records.len(),
{
    if records.len() == 0 {
        seq![]
    } else {
        let rest = gacha_urls(records.drop_last());
        let r = records.last();
        if is_gacha_record(r) {
            seq![record_url(r)] + rest
        } else {
            rest
        }
    }
}

proof fn lemma_nul_free_len(s: Seq<char>, i: int)
    requires
        0 <= i <= s.len(),
        forall|t: int| 0 <= t < i ==> s[t] != '\0',
        i == s.len() || s[i] == '\0',
    ensures
        nul_free_len(s) == i,
    decreases s.len(),
{
    if s.len() > 0 && i > 0 {
        let d = s.drop_first();
        assert forall|t: int| 0 <= t < i - 1 implies d[t] != '\0' by {
            assert(d[t] == s[t + 1]);
        }
        if i < s.len() {
            assert(d[i - 1] == s[i]);
        }
        lemma_nul_free_len(d, i - 1);
    }
}

/// The text of `record` up to its first NUL.
fn url_of(record: &String) -> (r: String)
    ensures
        r@ == record_url(record@),
{
    let chars = to_chars(record.as_str());
    let mut i: usize = 0;
    while i < chars.len() && chars[i] != '\0'
        invariant
            chars@ == record@,
            i <= chars@.len(),
            forall|t: int| 0 <= t < i ==> chars@[t] != '\0',
        decreases chars@.len() - i,
    {
        i = i + 1;
    }
    proof {
        lemma_nul_free_len(record@, i as int);
    }
    String::from_str(record.as_str().substring_char(0, i))
}

/// The wish-history request addresses found in the browser cache `data`, whose
/// records are separated by `1/0/`: latest record first, each cut at its first NUL.
pub fn pull_url_candidates(data: &str) -> (r: Vec<String>)
    ensures
        strings_of(r@) == gacha_urls(split_of(data@, "1/0/"@)),
{
    let records = split_on(data, "1/0/");
    let scheme = to_chars("https://");
    let plain = to_chars("getGachaLog");
    let ld = to_chars("getLdGachaLog");
    let ghost all = strings_of(records@);
    let mut out: Vec<String> = Vec::new();
    let mut i: usize = records.len();
    proof {
        assert(all.take(i as int) == all);
        assert(strings_of(out@) + gacha_urls(all) =~= gacha_urls(all));
    }
    while i > 0
        invariant
            i <= records.len(),
            all == strings_of(records@),
            scheme@ == "https://"@,
            plain@ == "getGachaLog"@,
            ld@ == "getLdGachaLog"@,
            gacha_urls(all) == strings_of(out@) + gacha_urls(all.take(i as int)),
        decreases i,
    {
        i = i - 1;
        let chars = to_chars(records[i].as_str());
        proof {
            assert(all.take(i + 1).drop_last() == all.take(i as int));
            assert(all.take(i + 1).last() == records@[i as int]@);
        }
        if has_prefix(&chars, &scheme) && (has_part(&chars, &plain) || has_part(&chars, &ld)) {
            let url = url_of(&records[i]);
            let ghost prev = strings_of(out@);
            out.push(url);
            assert(strings_of(out@) =~= prev.push(url@));
            assert(prev.push(url@) + gacha_urls(all.take(i as int)) =~= prev + (seq![url@] + gacha_urls(all.take(i as int))));
        }
    }
    assert(all.take(0) =~= Seq::<Seq<char>>::empty());
    assert(strings_of(out@) + seq![] =~= strings_of(out@));
    out
}

} // verus!
