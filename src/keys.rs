use std::collections::HashMap;
use vstd::prelude::*;

verus! {

broadcast use vstd::std_specs::hash::group_hash_axioms;

/// The bytes that standard, padded base64 text decodes to, if it is valid.
pub uninterp spec fn base64_decoded(s: Seq<char>) -> Option<Seq<u8>>;

/// Relies on base64's `STANDARD` engine `decode`: the bytes of valid padded
/// base64 text, an error otherwise; the outcome depends on the text alone.
#[verifier::external_body]
fn decode_base64(s: &str) -> (r: Option<Vec<u8>>)
    ensures
        r is Some <==> base64_decoded(s@) is Some,
        r matches Some(v) ==> base64_decoded(s@) == Some(v@),
{
    base64::Engine::decode(&base64::prelude::BASE64_STANDARD, s).ok()
}

/// Why the decoder's key table could not be read.
#[derive(Clone, Copy, PartialEq, Eq, Structural, Debug)]
pub enum KeyError {
    /// A key blob is not valid base64.
    BadEncoding,
}

/// Every key blob is valid base64.
pub open spec fn keys_decode(entries: Seq<(u16, String)>) -> bool {
    forall|i: int| 0 <= i < entries.len() ==> (#[trigger] base64_decoded(entries[i].1@)) is Some
}

/// Key id to decoded blob; a later entry for the same id wins.
pub open spec fn key_table(entries: Seq<(u16, String)>) -> Map<u16, Seq<u8>>
    decreases entries.len(),
{
    if entries.len() == 0 {
        Map::empty()
    } else {
        let e = entries.last();
        key_table(entries.drop_last()).insert(e.0, base64_decoded(e.1@)->0)
    }
}

pub open spec fn bytes_view(m: Map<u16, Vec<u8>>) -> Map<u16, Seq<u8>> {
    m.map_values(|v: Vec<u8>| v@)
}

/// Decodes the key table of the packet decoder: each entry maps a key id to
/// base64 text. One invalid blob fails the whole table.
pub fn load_keys(entries: &Vec<(u16, String)>) -> (r: Result<HashMap<u16, Vec<u8>>, KeyError>)
    ensures
        r is Ok <==> keys_decode(entries@),
        r matches Ok(m) ==> bytes_view(m@) == key_table(entries@),
        r matches Err(e) ==> e == KeyError::BadEncoding,
{
    let mut keys: HashMap<u16, Vec<u8>> = HashMap::new();
    let mut i: usize = 0;
    while i < entries.len()
        invariant
            i <= entries.len(),
            keys_decode(entries@.take(i as int)),
            bytes_view(keys@) == key_table(entries@.take(i as int)),
        decreases entries.len() - i,
    {
        proof {
            assert(entries@.take(i + 1).drop_last() == entries@.take(i as int));
            assert(entries@.take(i + 1).last() == entries@[i as int]);
        }
        let e = &entries[i];
        match decode_base64(e.1.as_str()) {
            Some(bytes) => {
                let ghost prev = keys@;
                let ghost b = bytes@;
                keys.insert(e.0, bytes);
                assert(bytes_view(keys@) =~= bytes_view(prev).insert(e.0, b));
                assert(keys_decode(entries@.take(i + 1))) by {
                    assert forall|t: int| 0 <= t < i + 1 implies (#[trigger] base64_decoded(
                        entries@.take(i + 1)[t].1@,
                    )) is Some by {
                        if t < i {
                            assert(entries@.take(i + 1)[t] == entries@.take(i as int)[t]);
                        }
                    }
                }
            },
            None => {
                assert(entries@[i as int] == *e);
                return Err(KeyError::BadEncoding);
            },
        }
        i = i + 1;
    }
    assert(entries@.take(entries.len() as int) == entries@);
    Ok(keys)
}

} // verus!
