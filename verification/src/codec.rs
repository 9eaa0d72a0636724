//! Data-URL codec: recognizes inline-embedded image references of the form
//! `data:<media-type>[;params],<base64-payload>`, splits them into a media
//! type token and a payload, and decodes the payload.

use crate::text::{find_one_of_two, first_of_two_from, starts_with, starts_with_spec};
use crate::ExportError;
use vstd::prelude::*;

verus! {

/// The characters of the scheme prefix `data:`.
pub open spec fn scheme_prefix() -> Seq<char> {
    seq!['d', 'a', 't', 'a', ':']
}

/// The characters of the full prefix `data:image/` that an embedded image
/// reference must carry.
pub open spec fn data_image_prefix() -> Seq<char> {
    scheme_prefix() + seq!['i', 'm', 'a', 'g', 'e', '/']
}

/// `s` is an inline-embedded image reference: it starts with `data:image/`
/// and a comma separates the media-type part from the payload.
pub open spec fn is_embedded_image_ref(s: Seq<char>) -> bool {
    starts_with_spec(s, data_image_prefix()) && first_of_two_from(s, ',', ',', 11) < s.len()
}

/// The index of the comma that separates the media-type part of `s` from
/// its payload.
pub open spec fn comma_index(s: Seq<char>) -> int {
    first_of_two_from(s, ',', ',', 11)
}

/// The declared media type of an embedded image reference: the characters
/// between the scheme prefix and the first `;` or `,` that follows it.
pub open spec fn media_type_of(s: Seq<char>) -> Seq<char> {
    s.subrange(5, first_of_two_from(s, ';', ',', 11))
}

/// The base64 payload of an embedded image reference: everything after the
/// separating comma.
pub open spec fn payload_of(s: Seq<char>) -> Seq<char> {
    s.subrange(comma_index(s) + 1, s.len() as int)
}

/// What the standard, padded base64 alphabet decodes `payload` to, or
/// nothing when `payload` is not valid base64. The decoding is done by an
/// outside routine; this name stands for its result, which depends on the
/// payload characters alone.
pub uninterp spec fn base64_decoded(payload: Seq<char>) -> Option<Seq<u8>>;

/// Relies on base64's `Engine::decode` with the standard padded alphabet
/// (`BASE64_STANDARD`): it returns the decoded bytes, or a `DecodeError`
/// exactly when the input is not valid base64, and its result is a function
/// of the input characters alone.
#[verifier::external_body]
pub(crate) fn decode_base64(payload: &str) -> (r: Result<Vec<u8>, ExportError>)
    ensures
        r is Ok <==> base64_decoded(payload@) is Some,
        r matches Ok(bytes) ==> base64_decoded(payload@) == Some(bytes@),
        r matches Err(e) ==> e is Base64DecodeError,
{
    match base64::Engine::decode(&base64::prelude::BASE64_STANDARD, payload) {
        Ok(bytes) => Ok(bytes),
        Err(e) => Err(ExportError::Base64DecodeError(format!("{e}"))),
    }
}

/// A recognized embedded image reference, split into its media-type token
/// and its still-encoded base64 payload.
pub struct DataUrlParts {
    /// The declared media type, verbatim as it stands in the reference,
    /// e.g. `image/png`. The extension table reads this raw token; what is
    /// stored with an attachment is its lower-cased form.
    pub media_type: String,
    /// The base64 payload text after the separating comma.
    pub payload: String,
}

/// Splits `s` into its media-type token and base64 payload when `s` is an
/// inline-embedded image reference; returns `None` for any other string,
/// which is thereby passed through untouched.
pub fn split_data_url(s: &str) -> (r: Option<DataUrlParts>)
    ensures
        r is Some <==> is_embedded_image_ref(s@),
        r matches Some(parts) ==> parts.media_type@ == media_type_of(s@) && parts.payload@
            == payload_of(s@),
{
    let len = s.unicode_len();
    let prefix_ok = starts_with(s, "data:image/");
    proof {
        reveal_strlit("data:image/");
        assert("data:image/"@ =~= data_image_prefix());
    }
    if !prefix_ok {
        return None;
    }
    let comma = find_one_of_two(s, ',', ',', 11);
    if comma >= len {
        return None;
    }
    let media_end = find_one_of_two(s, ';', ',', 11);
    proof {
        lemma_first_of_two_bounds(s@, ';', ',', 11);
        lemma_first_of_two_bounds(s@, ',', ',', 11);
    }
    let media_type = s.substring_char(5, media_end).to_owned();
    let payload = s.substring_char(comma + 1, len).to_owned();
    Some(DataUrlParts { media_type, payload })
}

/// The index that `first_of_two_from` returns lies between `from` and the
/// length of `s`, whenever `from` is in range.
pub proof fn lemma_first_of_two_bounds(s: Seq<char>, a: char, b: char, from: int)
    requires
        0 <= from <= s.len(),
    ensures
        from <= first_of_two_from(s, a, b, from) <= s.len(),
    decreases s.len() - from,
{
    if from < s.len() && s[from] != a && s[from] != b {
        lemma_first_of_two_bounds(s, a, b, from + 1);
    }
}

/// The media type of an embedded image reference always starts with
/// `image/`.
pub proof fn lemma_media_type_is_image(s: Seq<char>)
    requires
        is_embedded_image_ref(s),
    ensures
        starts_with_spec(media_type_of(s), seq!['i', 'm', 'a', 'g', 'e', '/']),
{
    lemma_first_of_two_bounds(s, ';', ',', 11);
    assert(media_type_of(s).subrange(0, 6) =~= s.subrange(0, 11).subrange(5, 11));
    assert(s.subrange(0, 11).subrange(5, 11) =~= seq!['i', 'm', 'a', 'g', 'e', '/']);
}

} // verus!
