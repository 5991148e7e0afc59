//! Who is calling: the identity that a request claims in a header.
use vstd::prelude::*;
use vstd::string::*;
use crate::api::error::{ErrorBody, ErrorResponse};
use crate::domain::ids::PartyId;
use crate::text;

verus! {

/// The header that carries the identity.
pub const PARTY_HEADER: &'static str = "x-party-id";

/// The identity that a caller claims. Nothing vouches for it.
#[derive(Debug, Clone, Copy, PartialEq, Eq, Structural)]
pub struct Party(pub PartyId);

/// The header as it came.
#[derive(Debug, PartialEq, Eq)]
pub enum PartyHeader {
    Absent,
    /// Not visible ASCII.
    Unreadable,
    Text(String),
}

/// What `Uuid::parse_str` makes of a text: the value of the UUID that it writes, if it writes
/// one.
pub uninterp spec fn parsed_uuid(text: Seq<char>) -> Option<u128>;

/// `Uuid::parse_str` of `uuid`: the UUID that the text writes in one of the forms that the crate
/// reads, or nothing. The hyphenated form is one of them.
#[verifier::external_body]
fn parse_uuid(text: &str) -> (id: Option<u128>)
    ensures
        id == parsed_uuid(text@),
        forall|value: u128| text@ == #[trigger] text::hyphenated(value) ==> id == Some(value),
{
    uuid::Uuid::parse_str(text).ok().map(|id| id.as_u128())
}

/// How a call without an identity is answered.
fn unauthorized(message: &str) -> (response: ErrorResponse)
    ensures
        response.status == 401,
        response.body.code@ == "missing_party"@,
        response.body.message@ == message@,
{
    ErrorResponse { status: 401, body: ErrorBody::new("missing_party", message) }
}

/// Whether a call is answered as one without an identity, with this message.
pub open spec fn refused(claim: Result<Party, ErrorResponse>, message: Seq<char>) -> bool {
    &&& claim is Err
    &&& claim->Err_0.status == 401
    &&& claim->Err_0.body.code@ == "missing_party"@
    &&& claim->Err_0.body.message@ == message
}

/// The identity, given the UUID that the header's text writes, if it writes one.
pub fn party_of(parsed: Option<u128>) -> (claim: Result<Party, ErrorResponse>)
    ensures
        match parsed {
            Some(id) => claim is Ok && claim->Ok_0 == Party(PartyId(id)),
            None => refused(claim, "x-party-id must be a UUID"@),
        },
{
    match parsed {
        Some(id) => Ok(Party(PartyId(id))),
        None => Err(unauthorized("x-party-id must be a UUID")),
    }
}

/// The identity that the header claims.
pub fn claimed_party(header: PartyHeader) -> (claim: Result<Party, ErrorResponse>)
    ensures
        match header {
            PartyHeader::Absent => refused(claim, "missing x-party-id header"@),
            PartyHeader::Unreadable => refused(claim, "x-party-id must be a UUID"@),
            PartyHeader::Text(text) => match parsed_uuid(text@) {
                Some(id) => claim is Ok && claim->Ok_0 == Party(PartyId(id)),
                None => refused(claim, "x-party-id must be a UUID"@),
            },
        },
        header matches PartyHeader::Text(text) ==> forall|value: u128|
            text@ == #[trigger] text::hyphenated(value) ==> claim is Ok && claim->Ok_0 == Party(
                PartyId(value),
            ),
{
    match header {
        PartyHeader::Absent => Err(unauthorized("missing x-party-id header")),
        PartyHeader::Unreadable => Err(unauthorized("x-party-id must be a UUID")),
        PartyHeader::Text(text) => party_of(parse_uuid(text.as_str())),
    }
}

} // verus!
