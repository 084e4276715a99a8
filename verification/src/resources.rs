//! The application's configuration text: a local configuration file, when
//! there is one, wins over the default that ships inside the program.
use vstd::prelude::*;
use vstd::utf8::{decode_utf8, decode_utf8_encode_utf8, encode_utf8, encode_utf8_decode_utf8, valid_utf8};

verus! {

/// Reads `bytes` as UTF-8 text.
///
/// Trusted: calls `std::str::from_utf8`, whose documentation says it fails
/// exactly when the bytes are not valid UTF-8 and otherwise returns the text
/// they encode; the contract states this with vstd's model of UTF-8.
#[verifier::external_body]
fn utf8_str(bytes: &[u8]) -> (r: Option<&str>)
    ensures
        r is Some <==> valid_utf8(bytes@),
        r matches Some(s) ==> s@ == decode_utf8(bytes@),
{
    std::str::from_utf8(bytes).ok()
}

/// Whether two byte strings are the same.
fn same_bytes(a: &[u8], b: &[u8]) -> (r: bool)
    ensures
        r == (a@ == b@),
{
    if a.len() != b.len() {
        return false;
    }
    let mut i: usize = 0;
    while i < a.len()
        invariant
            a@.len() == b@.len(),
            0 <= i <= a@.len(),
            forall|j: int| 0 <= j < i ==> a@[j] == b@[j],
        decreases a@.len() - i,
    {
        if a[i] != b[i] {
            return false;
        }
        i = i + 1;
    }
    assert(a@ =~= b@);
    true
}

/// The configuration text the application prints: the contents of the local
/// configuration file when it exists, else the embedded default read as
/// UTF-8; `None` when there is no local file and the default is missing or
/// not valid UTF-8.
pub fn app_config_text(local: Option<String>, embedded: Option<Vec<u8>>) -> (text: Option<String>)
    ensures
        match local {
            Some(contents) => text matches Some(t) && t@ == contents@,
            None => match embedded {
                None => text is None,
                Some(data) => {
                    &&& text is Some <==> valid_utf8(data@)
                    &&& text matches Some(t) ==> t@ == decode_utf8(data@)
                &&& text matches Some(t) ==> encode_utf8(t@) == data@
                },
            },
        },
{
    match local {
        Some(contents) => Some(contents),
        None => match embedded {
            None => None,
            Some(data) => match utf8_str(data.as_slice()) {
                Some(s) => {
                    proof {
                        decode_utf8_encode_utf8(data@);
                    }
                    // The text is kept only if it encodes back to exactly the
                    // bytes it was read from.
                    if same_bytes(s.as_bytes(), data.as_slice()) {
                        proof {
                            encode_utf8_decode_utf8(s@);
                        }
                        Some(String::from_str(s))
                    } else {
                        None
                    }
                },
                None => None,
            },
        },
    }
}

} // verus!
