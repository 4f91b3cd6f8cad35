//! The calls that this library makes into other crates and into std, with the
//! contracts that the library relies on.

use vstd::prelude::*;
use vstd::utf8::decode_utf8;
use vstd::utf8::encode_utf8;
use vstd::utf8::valid_utf8;

verus! {

/// Calls `bytes::Bytes::from(String)` and then `to_vec` on the result
/// (through `Deref<Target = [u8]>`). The bytes crate builds the `Bytes` from
/// `String::into_bytes`, so the contract claims that the result is the UTF-8
/// encoding of the string.
#[verifier::external_body]
pub(crate) fn string_into_bytes(s: String) -> (v: Vec<u8>)
    ensures
        v@ == encode_utf8(s@),
{
    bytes::Bytes::from(s).to_vec()
}

/// Calls `String::from_utf8` of std. Its documentation says that it
/// succeeds exactly on valid UTF-8 and then holds the decoded characters:
/// the contract claims this, with vstd's own UTF-8 definitions.
#[verifier::external_body]
pub(crate) fn string_from_utf8(bytes: Vec<u8>) -> (res: Option<String>)
    ensures
        res is Some <==> valid_utf8(bytes@),
        res matches Some(s) ==> s@ == decode_utf8(bytes@),
{
    String::from_utf8(bytes).ok()
}

/// Calls `rand::Rng::gen_range(0..bound)` on `rand::thread_rng()`. The rand
/// source panics on an empty range and otherwise samples from it, so the
/// contract asks for a non-empty range and claims only that the result lies in
/// it; which value comes out is left open, as it rests on chance.
#[verifier::external_body]
pub(crate) fn random_below(bound: u64) -> (r: u64)
    requires
        bound > 0,
    ensures
        r < bound,
{
    rand::Rng::gen_range(&mut rand::thread_rng(), 0..bound)
}


/// `tonic::Status`, the status that a call answers with.
#[verifier::external_type_specification]
#[verifier::external_body]
pub struct ExStatus(tonic::Status);

/// `tonic::transport::Error`, a failure of the transport under a call.
#[verifier::external_type_specification]
#[verifier::external_body]
pub struct ExTransportError(tonic::transport::Error);

/// What `tonic::Status` displays for a status: a function of the status
/// alone (its code, message, details and metadata).
pub uninterp spec fn status_display(s: tonic::Status) -> Seq<char>;

/// What `tonic::transport::Error` displays for an error: a function of the
/// error alone (its kind).
pub uninterp spec fn transport_error_display(e: tonic::transport::Error) -> Seq<char>;

/// The start of every text that `tonic::Status` displays.
pub open spec fn status_text_prefix() -> Seq<char> {
    "status: "@
}

/// The texts that `tonic::transport::Error` displays, one per kind of
/// transport failure.
pub open spec fn is_transport_error_text(t: Seq<char>) -> bool {
    ||| t == "transport error"@
    ||| t == "invalid URI"@
    ||| t == "user agent is not a valid header value"@
}

/// Calls `to_string` on a `tonic::Status` (its `Display`). tonic writes
/// `"status: {:?}, message: {:?}, details: {:?}, metadata: {:?}"` of the
/// status's fields. The contract claims that the text is the status's
/// display, a function of the status alone, and that it has that fixed
/// start; the rest of the text is left unsaid, as the fields are opaque here.
#[verifier::external_body]
pub(crate) fn status_text(s: &tonic::Status) -> (t: String)
    ensures
        t@ == status_display(*s),
        status_text_prefix().is_prefix_of(t@),
{
    s.to_string()
}

/// Calls `to_string` on a `tonic::transport::Error` (its `Display`). tonic
/// writes one fixed description per kind of error; the contract claims that
/// the text is the error's display, a function of the error alone, and that
/// it is one of those descriptions. Which one depends on the error's kind,
/// which is opaque here.
#[verifier::external_body]
pub(crate) fn transport_error_text(e: &tonic::transport::Error) -> (t: String)
    ensures
        t@ == transport_error_display(*e),
        is_transport_error_text(t@),
{
    e.to_string()
}

} // verus!
