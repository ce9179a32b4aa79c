//! The display name of an instance, decoded from its identifier.
//!
//! The identifier is Base64 with `_` written for `=`. An identifier that holds
//! `+`, `-` or `/` is never decoded: the bus-name alphabet cannot carry the
//! full Base64 alphabet, so such an identifier is not an encoded name.
//! Decoding can also fail, or give bytes that are not text. In each of these
//! cases the identifier itself is the name.

use vstd::prelude::*;
use vstd::utf8::{decode_utf8, encode_utf8, valid_utf8};

verus! {

/// What base64's standard decoder gives for these bytes: the decoded bytes, or
/// nothing where the input is not valid padded Base64.
pub uninterp spec fn base64_decoded(input: Seq<u8>) -> Option<Seq<u8>>;

/// Relies on `base64::decode` (standard alphabet, padding required): it
/// returns the decoded bytes or an error, and the outcome depends on the input
/// alone. It panics only where a length computation overflows: `input.len() + 3`
/// in `decode_config`, `input.len() + 7` when counting chunks.
#[verifier::external_body]
fn base64_decode(input: &[u8]) -> (r: Option<Vec<u8>>)
    requires
        input@.len() <= usize::MAX - 7,
    ensures
        r is Some <==> base64_decoded(input@) is Some,
        r matches Some(v) ==> v@ == base64_decoded(input@)->Some_0,
{
    base64::decode(input).ok()
}

/// Relies on `String::from_utf8`: it succeeds exactly on valid UTF-8, with the
/// characters that the bytes encode.
#[verifier::external_body]
pub(crate) fn utf8_text(bytes: Vec<u8>) -> (r: Option<String>)
    ensures
        r is Some <==> valid_utf8(bytes@),
        r matches Some(s) ==> s@ == decode_utf8(bytes@),
{
    String::from_utf8(bytes).ok()
}

/// The outcome of deriving a display name.
pub enum Profile {
    /// The identifier decoded to this text.
    Decoded(String),
    /// The identifier did not decode; it stands as its own name.
    Fallback(String),
}

impl Profile {
    pub open spec fn text(&self) -> Seq<char> {
        match self {
            Profile::Decoded(s) => s@,
            Profile::Fallback(s) => s@,
        }
    }

    /// The display name.
    pub fn into_text(self) -> (r: String)
        ensures
            r@ == self.text(),
    {
        match self {
            Profile::Decoded(s) => s,
            Profile::Fallback(s) => s,
        }
    }
}

/// The identifier's bytes with every `_` turned into `=`.
pub open spec fn substituted(b: Seq<u8>) -> Seq<u8> {
    b.map_values(|c: u8| if c == 95u8 { 61u8 } else { c })
}

/// The text that decoded bytes stand for, if any.
pub open spec fn decoded_text(decoded: Option<Seq<u8>>) -> Option<Seq<char>> {
    match decoded {
        Some(b) => if valid_utf8(b) {
            Some(decode_utf8(b))
        } else {
            None
        },
        None => None,
    }
}

/// What the Base64 decoder gives for identifier `id`.
pub open spec fn id_decoded(id: Seq<char>) -> Option<Seq<u8>> {
    let b = substituted(encode_utf8(id));
    if b.len() <= usize::MAX - 7 {
        base64_decoded(b)
    } else {
        None
    }
}

/// Whether `c` is one of the Base64 characters that a bus name cannot carry.
pub open spec fn is_foreign(c: char) -> bool {
    c == '+' || c == '-' || c == '/'
}

/// Whether `id` holds a character that rules out decoding.
pub open spec fn has_foreign(id: Seq<char>) -> bool {
    exists|i: int| 0 <= i < id.len() && is_foreign(#[trigger] id[i])
}

/// The display name of identifier `id`: its decoded text, else `id` itself.
pub open spec fn profile_text(id: Seq<char>) -> Seq<char> {
    if has_foreign(id) {
        id
    } else {
        match decoded_text(id_decoded(id)) {
            Some(t) => t,
            None => id,
        }
    }
}

/// Whether `id` holds `+`, `-` or `/`.
pub fn holds_foreign(id: &str) -> (r: bool)
    ensures
        r == has_foreign(id@),
{
    let n = id.unicode_len();
    let mut i: usize = 0;
    while i < n
        invariant
            n == id@.len(),
            0 <= i <= n,
            forall|j: int| 0 <= j < i ==> !is_foreign(#[trigger] id@[j]),
        decreases n - i,
    {
        let c = id.get_char(i);
        if c == '+' || c == '-' || c == '/' {
            return true;
        }
        i = i + 1;
    }
    false
}

pub open spec fn opt_bytes(v: Option<Vec<u8>>) -> Option<Seq<u8>> {
    match v {
        Some(b) => Some(b@),
        None => None,
    }
}

/// Whether `p` is the right outcome for identifier `id` given what the
/// decoder gave.
pub open spec fn profile_outcome(p: Profile, id: Seq<char>, decoded: Option<Seq<u8>>) -> bool {
    match decoded_text(decoded) {
        Some(t) => p is Decoded && p.text() == t,
        None => p is Fallback && p.text() == id,
    }
}

/// Builds the profile of `id` from what the Base64 decoder gave for it.
pub fn profile_from_decoded(id: &str, decoded: Option<Vec<u8>>) -> (r: Profile)
    ensures
        profile_outcome(r, id@, opt_bytes(decoded)),
{
    match decoded {
        Some(bytes) => match utf8_text(bytes) {
            Some(text) => Profile::Decoded(text),
            None => Profile::Fallback(id.to_string()),
        },
        None => Profile::Fallback(id.to_string()),
    }
}

/// The bytes of `b` with every `_` turned into `=`.
pub fn substitute_padding(b: &[u8]) -> (r: Vec<u8>)
    ensures
        r@ == substituted(b@),
{
    let mut out: Vec<u8> = Vec::with_capacity(b.len());
    let mut i: usize = 0;
    while i < b.len()
        invariant
            0 <= i <= b@.len(),
            out@ == substituted(b@.take(i as int)),
        decreases b@.len() - i,
    {
        let c = b[i];
        if c == 95u8 {
            out.push(61u8);
        } else {
            out.push(c);
        }
        proof {
            assert(b@.take(i + 1) == b@.take(i as int).push(c));
        }
        i = i + 1;
    }
    assert(b@.take(b@.len() as int) == b@);
    out
}

/// Derives the display name of instance identifier `id`: an identifier that
/// holds `+`, `-` or `/` falls back to itself; any other is decoded.
pub fn derive_profile(id: &str) -> (r: Profile)
    ensures
        has_foreign(id@) ==> r is Fallback && r.text() == id@,
        !has_foreign(id@) ==> profile_outcome(r, id@, id_decoded(id@)),
        r.text() == profile_text(id@),
{
    if holds_foreign(id) {
        return Profile::Fallback(id.to_string());
    }
    let input = substitute_padding(id.as_bytes());
    let decoded = if input.len() <= usize::MAX - 7 {
        base64_decode(input.as_slice())
    } else {
        None
    };
    profile_from_decoded(id, decoded)
}

} // verus!
