//! Identity newtypes.
use vstd::prelude::*;
use vstd::std_specs::convert::FromSpecImpl;
use vstd::string::*;
use crate::text;

verus! {

/// `Uuid::new_v4` of `uuid`: a random identifier. All that holds of every outcome is that the
/// version is 4 and the variant is that of RFC 4122.
#[verifier::external_body]
fn random_uuid() -> (id: u128)
    ensures
        (id >> 76) & 0xf == 4,
        (id >> 62) & 0x3 == 2,
{
    uuid::Uuid::new_v4().as_u128()
}

/// Whether an identifier is one that a random draw can give.
pub open spec fn is_random(id: u128) -> bool {
    (id >> 76) & 0xf == 4 && (id >> 62) & 0x3 == 2
}

/// How many identifiers there are that differ in the bits behind the variant only.
pub const NEIGHBOURS: u64 = 0x4000_0000_0000_0000;

/// The `k`-th of the identifiers that differ from this one in the bits behind the variant only.
pub open spec fn neighbour(id: u128, k: u64) -> u128 {
    (id & 0xffff_ffff_ffff_ffff_c000_0000_0000_0000) | (k as u128)
}

/// The `k`-th of the identifiers that differ from this one in the bits behind the variant only.
pub fn next_to(id: u128, k: u64) -> (other: u128)
    requires
        is_random(id),
        k < NEIGHBOURS,
    ensures
        other == neighbour(id, k),
        is_random(other),
{
    let low: u128 = k as u128;
    let other: u128 = (id & 0xffff_ffff_ffff_ffff_c000_0000_0000_0000) | low;
    assert((other >> 76) & 0xf == 4 && (other >> 62) & 0x3 == 2) by (bit_vector)
        requires
            (id >> 76) & 0xf == 4,
            (id >> 62) & 0x3 == 2,
            low < 0x4000_0000_0000_0000,
            other == (id & 0xffff_ffff_ffff_ffff_c000_0000_0000_0000) | low,
    ;
    other
}

/// A participant: requester or market maker.
#[derive(Debug, Clone, Copy, PartialEq, Eq, Structural, PartialOrd, Ord, Hash)]
pub struct PartyId(pub u128);

impl PartyId {
    /// A random identifier.
    pub fn new() -> (id: PartyId)
        ensures
            is_random(id.0),
    {
        PartyId(random_uuid())
    }

    /// The hyphenated form of the identifier.
    pub fn text(self) -> (s: String)
        ensures
            s@ == text::hyphenated(self.0),
    {
        text::uuid_text(self.0)
    }
}

impl From<u128> for PartyId {
    fn from(id: u128) -> (party: PartyId) {
        PartyId(id)
    }
}

impl FromSpecImpl<u128> for PartyId {
    open spec fn obeys_from_spec() -> bool {
        true
    }

    open spec fn from_spec(id: u128) -> PartyId {
        PartyId(id)
    }
}

#[derive(Debug, Clone, Copy, PartialEq, Eq, Structural, PartialOrd, Ord, Hash)]
pub struct RequestId(pub u128);

impl RequestId {
    /// A random identifier.
    pub fn new() -> (id: RequestId)
        ensures
            is_random(id.0),
    {
        RequestId(random_uuid())
    }

    /// The hyphenated form of the identifier.
    pub fn text(self) -> (s: String)
        ensures
            s@ == text::hyphenated(self.0),
    {
        text::uuid_text(self.0)
    }
}

impl From<u128> for RequestId {
    fn from(id: u128) -> (request: RequestId) {
        RequestId(id)
    }
}

impl FromSpecImpl<u128> for RequestId {
    open spec fn obeys_from_spec() -> bool {
        true
    }

    open spec fn from_spec(id: u128) -> RequestId {
        RequestId(id)
    }
}

#[derive(Debug, Clone, Copy, PartialEq, Eq, Structural, PartialOrd, Ord, Hash)]
pub struct LegId(pub u128);

impl LegId {
    /// A random identifier.
    pub fn new() -> (id: LegId)
        ensures
            is_random(id.0),
    {
        LegId(random_uuid())
    }

    /// The hyphenated form of the identifier.
    pub fn text(self) -> (s: String)
        ensures
            s@ == text::hyphenated(self.0),
    {
        text::uuid_text(self.0)
    }
}

impl From<u128> for LegId {
    fn from(id: u128) -> (leg: LegId) {
        LegId(id)
    }
}

impl FromSpecImpl<u128> for LegId {
    open spec fn obeys_from_spec() -> bool {
        true
    }

    open spec fn from_spec(id: u128) -> LegId {
        LegId(id)
    }
}

#[derive(Debug, Clone, Copy, PartialEq, Eq, Structural, PartialOrd, Ord, Hash)]
pub struct QuoteId(pub u128);

impl QuoteId {
    /// A random identifier.
    pub fn new() -> (id: QuoteId)
        ensures
            is_random(id.0),
    {
        QuoteId(random_uuid())
    }

    /// The hyphenated form of the identifier.
    pub fn text(self) -> (s: String)
        ensures
            s@ == text::hyphenated(self.0),
    {
        text::uuid_text(self.0)
    }
}

impl From<u128> for QuoteId {
    fn from(id: u128) -> (quote: QuoteId) {
        QuoteId(id)
    }
}

impl FromSpecImpl<u128> for QuoteId {
    open spec fn obeys_from_spec() -> bool {
        true
    }

    open spec fn from_spec(id: u128) -> QuoteId {
        QuoteId(id)
    }
}

/// Opaque identifier of a binary contract, not blank. The venue never interprets it.
#[derive(Debug, PartialEq, Eq, Hash)]
pub struct ContractId(String);

#[derive(Debug, Clone, Copy, PartialEq, Eq, Structural)]
pub struct InvalidContractId;

impl InvalidContractId {
    pub open spec fn spec_message(self) -> Seq<char> {
        "contract id must be non-empty"@
    }

    pub fn message(self) -> (s: String)
        ensures
            s@ == self.spec_message(),
    {
        "contract id must be non-empty".to_owned()
    }
}

impl View for ContractId {
    type V = Seq<char>;

    closed spec fn view(&self) -> Seq<char> {
        self.0@
    }
}

impl Clone for ContractId {
    fn clone(&self) -> (copy: ContractId)
        ensures
            copy == *self,
    {
        proof {
            use_type_invariant(self);
        }
        ContractId(self.0.clone())
    }
}

impl ContractId {
    #[verifier::type_invariant]
    pub open spec fn not_blank(self) -> bool {
        text::trimmed(self@).len() > 0
    }

    /// Takes any text that is not blank, as it stands.
    pub fn new(id: &str) -> (contract: Result<ContractId, InvalidContractId>)
        ensures
            contract is Ok <==> text::trimmed(id@).len() > 0,
            contract is Ok ==> contract->Ok_0@ == id@,
            contract is Err ==> contract->Err_0 == InvalidContractId,
    {
        if text::trim(id).unicode_len() == 0 {
            return Err(InvalidContractId);
        }
        Ok(ContractId(id.to_owned()))
    }

    pub fn as_str(&self) -> (s: &str)
        ensures
            s@ == self@,
            self.not_blank(),
    {
        proof {
            use_type_invariant(self);
        }
        self.0.as_str()
    }
}

/// What a contract resolves on, for people to read. The venue never interprets it.
#[derive(Debug, PartialEq, Eq, Hash)]
pub struct ContractDescription(String);

#[derive(Debug, Clone, Copy, PartialEq, Eq, Structural)]
pub enum InvalidContractDescription {
    Empty,
    TooLong,
}

impl InvalidContractDescription {
    pub open spec fn spec_message(self) -> Seq<char> {
        match self {
            InvalidContractDescription::Empty => "contract description must be non-empty"@,
            InvalidContractDescription::TooLong => {
                "contract description exceeds "@ + text::decimal(1_000) + " characters"@
            },
        }
    }

    pub fn message(self) -> (s: String)
        ensures
            s@ == self.spec_message(),
    {
        match self {
            InvalidContractDescription::Empty => {
                "contract description must be non-empty".to_owned()
            },
            InvalidContractDescription::TooLong => {
                let mut s = "contract description exceeds ".to_owned();
                s.append(text::decimal_text(ContractDescription::MAX_CHARS as u64).as_str());
                s.append(" characters");
                s
            },
        }
    }
}

impl View for ContractDescription {
    type V = Seq<char>;

    closed spec fn view(&self) -> Seq<char> {
        self.0@
    }
}

impl Clone for ContractDescription {
    fn clone(&self) -> (copy: ContractDescription)
        ensures
            copy == *self,
    {
        proof {
            use_type_invariant(self);
        }
        ContractDescription(self.0.clone())
    }
}

impl ContractDescription {
    /// Between one and `MAX_CHARS` characters, with no white space at either end.
    #[verifier::type_invariant]
    pub open spec fn well_kept(self) -> bool {
        0 < self@.len() <= 1_000 && text::trimmed(self@) == self@
    }

    /// The longest description, in characters.
    pub const MAX_CHARS: usize = 1_000;

    /// Takes the text without the white space at its ends, if that leaves between one and
    /// `MAX_CHARS` characters.
    pub fn new(words: &str) -> (description: Result<
        ContractDescription,
        InvalidContractDescription,
    >)
        ensures
            description is Ok <==> 0 < text::trimmed(words@).len() <= 1_000,
            description is Ok ==> description->Ok_0@ == text::trimmed(words@),
            description is Err ==> description->Err_0 == if text::trimmed(words@).len() == 0 {
                InvalidContractDescription::Empty
            } else {
                InvalidContractDescription::TooLong
            },
    {
        proof {
            text::lemma_trimmed_once(words@);
        }
        let kept = text::trim(words);
        let chars: usize = kept.unicode_len();
        if chars == 0 {
            return Err(InvalidContractDescription::Empty);
        }
        if chars > Self::MAX_CHARS {
            return Err(InvalidContractDescription::TooLong);
        }
        Ok(ContractDescription(kept.to_owned()))
    }

    pub fn as_str(&self) -> (s: &str)
        ensures
            s@ == self@,
            self.well_kept(),
    {
        proof {
            use_type_invariant(self);
        }
        self.0.as_str()
    }
}

/// The place of a quote in the order of submission. Price ties break on it, whatever the
/// timestamps say.
#[derive(Debug, Clone, Copy, PartialEq, Eq, Structural, PartialOrd, Ord, Hash)]
pub struct SeqNo(pub u64);

impl SeqNo {
    pub fn zero() -> (n: SeqNo)
        ensures
            n == SeqNo(0),
    {
        SeqNo(0)
    }

    pub fn new(value: u64) -> (n: SeqNo)
        ensures
            n == SeqNo(value),
    {
        SeqNo(value)
    }

    pub fn next(self) -> (n: SeqNo)
        requires
            self.0 < u64::MAX,
        ensures
            n.0 == self.0 + 1,
    {
        SeqNo(self.0 + 1)
    }
}

/// The identifiers next to a random one are random too, share all bits before and in the variant
/// with it, and are all different.
pub proof fn law_neighbours_are_random_and_different(id: u128, k: u64, j: u64)
    requires
        is_random(id),
        k < 0x4000_0000_0000_0000,
        j < 0x4000_0000_0000_0000,
    ensures
        is_random(neighbour(id, k)),
        neighbour(id, k) >> 62 == id >> 62,
        neighbour(id, k) & 0x3fff_ffff_ffff_ffff == k,
        neighbour(id, k) == neighbour(id, j) ==> k == j,
        NEIGHBOURS == 0x4000_0000_0000_0000,
{
    let (a, b) = (k as u128, j as u128);
    let (x, y) = (neighbour(id, k), neighbour(id, j));
    assert((x >> 76) & 0xf == 4 && (x >> 62) & 0x3 == 2 && x >> 62 == id >> 62 && x
        & 0x3fff_ffff_ffff_ffff == a) by (bit_vector)
        requires
            (id >> 76) & 0xf == 4,
            (id >> 62) & 0x3 == 2,
            a < 0x4000_0000_0000_0000,
            x == (id & 0xffff_ffff_ffff_ffff_c000_0000_0000_0000) | a,
    ;
    assert(y & 0x3fff_ffff_ffff_ffff == b) by (bit_vector)
        requires
            b < 0x4000_0000_0000_0000,
            y == (id & 0xffff_ffff_ffff_ffff_c000_0000_0000_0000) | b,
    ;
}

} // verus!
