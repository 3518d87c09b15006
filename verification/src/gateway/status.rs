//! HTTP status codes (`http::StatusCode`) and byte search (`memchr`), as the
//! gateway's error responses use them.
use http::StatusCode;
use vstd::prelude::*;

verus! {

#[verifier::external_type_specification]
#[verifier::external_body]
pub struct ExStatusCode(StatusCode);

/// The status code whose number is `code`.
pub uninterp spec fn spec_status_code(code: u16) -> StatusCode;

/// The number of a status code.
pub uninterp spec fn spec_status_as_u16(s: StatusCode) -> u16;

/// The reason phrase that `http` gives for a status, if it knows one.
pub uninterp spec fn spec_canonical_reason(s: StatusCode) -> Option<Seq<char>>;

/// Calls `StatusCode::from_u16`, which accepts the numbers 100 to 999; the
/// status has number `code`.
#[verifier::external_body]
pub fn status_from_u16(code: u16) -> (s: StatusCode)
    requires
        100 <= code <= 999,
    ensures
        s == spec_status_code(code),
        spec_status_as_u16(s) == code,
{
    StatusCode::from_u16(code).unwrap()
}

/// Calls `StatusCode::as_u16`.
#[verifier::external_body]
pub fn status_as_u16(s: &StatusCode) -> (n: u16)
    ensures
        n == spec_status_as_u16(*s),
        100 <= n <= 999,
{
    s.as_u16()
}

/// Calls `StatusCode::canonical_reason`; the result is named
/// `spec_canonical_reason`.
#[verifier::external_body]
pub fn canonical_reason(s: &StatusCode) -> (r: Option<&'static str>)
    ensures
        match r {
            Some(p) => spec_canonical_reason(*s) == Some(p@),
            None => spec_canonical_reason(*s) is None,
        },
{
    s.canonical_reason()
}

/// Whether `needle` occurs in `haystack` at position `i`.
pub open spec fn occurs_at(haystack: Seq<u8>, needle: Seq<u8>, i: int) -> bool {
    0 <= i && i + needle.len() <= haystack.len() && haystack.subrange(i, i + needle.len()) == needle
}

/// Calls `memchr::memmem::find`, which returns the position of the first
/// occurrence of `needle` in `haystack`.
#[verifier::external_body]
pub fn memmem_find(haystack: &[u8], needle: &[u8]) -> (r: Option<usize>)
    ensures
        match r {
            Some(i) => occurs_at(haystack@, needle@, i as int) && forall|j: int|
                0 <= j < i ==> !occurs_at(haystack@, needle@, j),
            None => forall|j: int| !occurs_at(haystack@, needle@, j),
        },
{
    memchr::memmem::find(haystack, needle)
}

} // verus!
