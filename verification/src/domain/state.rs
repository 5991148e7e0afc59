//! The states of requests and quotes, and the choices that go into them.
use vstd::prelude::*;
use crate::domain::ids::LegId;
use crate::text;
use crate::time::Span;

verus! {

/// Which side of the binary contract the requester wants on a leg. Buying No at `1 - p` is
/// selling Yes at `p`, so prices and escrow are always in Yes terms.
#[derive(Debug, Clone, Copy, PartialEq, Eq, Structural, Hash)]
pub enum LegSide {
    BuyYes,
    SellYes,
    BuyNo,
    SellNo,
}

impl LegSide {
    /// Whether the requester ends up long Yes.
    pub open spec fn long_yes(self) -> bool {
        self is BuyYes || self is SellNo
    }

    /// Every side.
    pub fn all() -> (sides: [LegSide; 4])
        ensures
            sides@ == seq![LegSide::BuyYes, LegSide::SellYes, LegSide::BuyNo, LegSide::SellNo],
    {
        [LegSide::BuyYes, LegSide::SellYes, LegSide::BuyNo, LegSide::SellNo]
    }

    /// `BuyYes` and `SellNo` make the requester the Yes-buyer; `SellYes` and `BuyNo` make it the
    /// maker.
    pub fn requester_buys_yes(self) -> (b: bool)
        ensures
            b == self.long_yes(),
    {
        matches!(self, LegSide::BuyYes | LegSide::SellNo)
    }
}

#[derive(Debug, Clone, Copy, PartialEq, Eq, Structural, Hash)]
pub enum RequestState {
    /// Taking quotes.
    Open,
    /// A package is before the requester.
    Presented,
    /// Both sides of every leg are in escrow.
    Locked,
    /// The oracle has reported Yes or No, and the parties may still dispute it.
    Reported,
    /// The escrow is held until an outcome comes, or the time for one is over.
    Disputed,
    /// Every leg was paid to its winner.
    Settled,
    /// Every chunk of escrow went back to its poster.
    Unwound,
    /// Ended before anything was in escrow.
    Failed,
}

#[derive(Debug, Clone, Copy, PartialEq, Eq, Structural, Hash)]
pub enum QuoteState {
    Live,
    Selected,
    Locked,
    Released,
}

/// How long after the response deadline the contracts of a request resolve.
#[derive(Debug, Clone, Copy, PartialEq, Eq, Structural, Hash)]
pub enum Tenor {
    FiveMinutes,
    TenMinutes,
    OneHour,
    OneDay,
}

impl Tenor {
    pub open spec fn spec_duration(self) -> Span {
        match self {
            Tenor::FiveMinutes => Span::of(300, 0),
            Tenor::TenMinutes => Span::of(600, 0),
            Tenor::OneHour => Span::of(3_600, 0),
            Tenor::OneDay => Span::of(86_400, 0),
        }
    }

    pub fn duration(self) -> (span: Span)
        ensures
            span == self.spec_duration(),
            span@ == match self {
                Tenor::FiveMinutes => 300_000_000_000,
                Tenor::TenMinutes => 600_000_000_000,
                Tenor::OneHour => 3_600_000_000_000,
                Tenor::OneDay => 86_400_000_000_000int,
            },
    {
        match self {
            Tenor::FiveMinutes => Span::seconds(300),
            Tenor::TenMinutes => Span::seconds(600),
            Tenor::OneHour => Span::seconds(3_600),
            Tenor::OneDay => Span::seconds(86_400),
        }
    }
}

/// What the oracle reports. A delay is the absence of a report.
#[derive(Debug, Clone, Copy, PartialEq, Eq, Structural, Hash)]
pub enum OracleOutcome {
    Yes,
    No,
    Invalid,
    Disputed,
}

impl OracleOutcome {
    /// Whether the outcome has a winner.
    pub open spec fn decides(self) -> bool {
        self is Yes || self is No
    }
}

/// Why a request ended in `RequestState::Failed`.
#[derive(Debug, Clone, Copy, PartialEq, Eq, Structural, Hash)]
pub enum FailReason {
    /// At the response deadline this leg had no eligible quote.
    LegUnmatched(LegId),
    Rejected,
    AcceptWindowExpired,
    /// The requester's free balance could not cover its side.
    InsufficientRequesterFunds,
}

impl LegSide {
    /// The name of the side on the wire.
    pub open spec fn spec_wire_name(self) -> Seq<char> {
        match self {
            LegSide::BuyYes => "buy_yes"@,
            LegSide::SellYes => "sell_yes"@,
            LegSide::BuyNo => "buy_no"@,
            LegSide::SellNo => "sell_no"@,
        }
    }

    pub fn wire_name(self) -> (name: &'static str)
        ensures
            name@ == self.spec_wire_name(),
    {
        match self {
            LegSide::BuyYes => "buy_yes",
            LegSide::SellYes => "sell_yes",
            LegSide::BuyNo => "buy_no",
            LegSide::SellNo => "sell_no",
        }
    }

    /// The side with this name on the wire.
    pub fn from_wire(name: &str) -> (found: Option<LegSide>)
        ensures
            found matches Some(one) ==> name@ == one.spec_wire_name(),
            found is None ==> forall|other: LegSide| name@ != #[trigger] other.spec_wire_name(),
            forall|other: LegSide|
                name@ == #[trigger] other.spec_wire_name() ==> found == Some(other),
    {
        proof {
            lemma_legside_names_differ();
        }
        let found = if text::same(name, "buy_yes") {
            Some(LegSide::BuyYes)
        } else if text::same(name, "sell_yes") {
            Some(LegSide::SellYes)
        } else if text::same(name, "buy_no") {
            Some(LegSide::BuyNo)
        } else if text::same(name, "sell_no") {
            Some(LegSide::SellNo)
        } else {
            None
        };
        assert(found matches Some(one) ==> name@ == one.spec_wire_name());
        found
    }
}

/// No two sides have one name.
pub proof fn lemma_legside_names_differ()
    ensures
        forall|a: LegSide, b: LegSide|
            #![trigger a.spec_wire_name(), b.spec_wire_name()]
            a.spec_wire_name() == b.spec_wire_name() ==> a == b,
{
    reveal_strlit("buy_yes");
    reveal_strlit("sell_yes");
    reveal_strlit("buy_no");
    reveal_strlit("sell_no");
    assert forall|a: LegSide, b: LegSide|
        #![trigger a.spec_wire_name(), b.spec_wire_name()]
        a.spec_wire_name() == b.spec_wire_name() implies a == b by {
        assert(a.spec_wire_name().len() == b.spec_wire_name().len());
        assert(a.spec_wire_name()[0] == b.spec_wire_name()[0]);
    }
}

impl Tenor {
    /// The name of the tenor on the wire.
    pub open spec fn spec_wire_name(self) -> Seq<char> {
        match self {
            Tenor::FiveMinutes => "five_minutes"@,
            Tenor::TenMinutes => "ten_minutes"@,
            Tenor::OneHour => "one_hour"@,
            Tenor::OneDay => "one_day"@,
        }
    }

    pub fn wire_name(self) -> (name: &'static str)
        ensures
            name@ == self.spec_wire_name(),
    {
        match self {
            Tenor::FiveMinutes => "five_minutes",
            Tenor::TenMinutes => "ten_minutes",
            Tenor::OneHour => "one_hour",
            Tenor::OneDay => "one_day",
        }
    }

    /// The tenor with this name on the wire.
    pub fn from_wire(name: &str) -> (found: Option<Tenor>)
        ensures
            found matches Some(one) ==> name@ == one.spec_wire_name(),
            found is None ==> forall|other: Tenor| name@ != #[trigger] other.spec_wire_name(),
            forall|other: Tenor|
                name@ == #[trigger] other.spec_wire_name() ==> found == Some(other),
    {
        proof {
            lemma_tenor_names_differ();
        }
        let found = if text::same(name, "five_minutes") {
            Some(Tenor::FiveMinutes)
        } else if text::same(name, "ten_minutes") {
            Some(Tenor::TenMinutes)
        } else if text::same(name, "one_hour") {
            Some(Tenor::OneHour)
        } else if text::same(name, "one_day") {
            Some(Tenor::OneDay)
        } else {
            None
        };
        assert(found matches Some(one) ==> name@ == one.spec_wire_name());
        found
    }
}

/// No two tenors have one name.
pub proof fn lemma_tenor_names_differ()
    ensures
        forall|a: Tenor, b: Tenor|
            #![trigger a.spec_wire_name(), b.spec_wire_name()]
            a.spec_wire_name() == b.spec_wire_name() ==> a == b,
{
    reveal_strlit("five_minutes");
    reveal_strlit("ten_minutes");
    reveal_strlit("one_hour");
    reveal_strlit("one_day");
    assert forall|a: Tenor, b: Tenor|
        #![trigger a.spec_wire_name(), b.spec_wire_name()]
        a.spec_wire_name() == b.spec_wire_name() implies a == b by {
        assert(a.spec_wire_name().len() == b.spec_wire_name().len());
        assert(a.spec_wire_name()[0] == b.spec_wire_name()[0]);
    }
}

impl OracleOutcome {
    /// The name of the outcome on the wire.
    pub open spec fn spec_wire_name(self) -> Seq<char> {
        match self {
            OracleOutcome::Yes => "yes"@,
            OracleOutcome::No => "no"@,
            OracleOutcome::Invalid => "invalid"@,
            OracleOutcome::Disputed => "disputed"@,
        }
    }

    pub fn wire_name(self) -> (name: &'static str)
        ensures
            name@ == self.spec_wire_name(),
    {
        match self {
            OracleOutcome::Yes => "yes",
            OracleOutcome::No => "no",
            OracleOutcome::Invalid => "invalid",
            OracleOutcome::Disputed => "disputed",
        }
    }

    /// The outcome with this name on the wire.
    pub fn from_wire(name: &str) -> (found: Option<OracleOutcome>)
        ensures
            found matches Some(one) ==> name@ == one.spec_wire_name(),
            found is None ==> forall|other: OracleOutcome| name@ != #[trigger] other.spec_wire_name(),
            forall|other: OracleOutcome|
                name@ == #[trigger] other.spec_wire_name() ==> found == Some(other),
    {
        proof {
            lemma_oracleoutcome_names_differ();
        }
        let found = if text::same(name, "yes") {
            Some(OracleOutcome::Yes)
        } else if text::same(name, "no") {
            Some(OracleOutcome::No)
        } else if text::same(name, "invalid") {
            Some(OracleOutcome::Invalid)
        } else if text::same(name, "disputed") {
            Some(OracleOutcome::Disputed)
        } else {
            None
        };
        assert(found matches Some(one) ==> name@ == one.spec_wire_name());
        found
    }
}

/// No two outcomes have one name.
pub proof fn lemma_oracleoutcome_names_differ()
    ensures
        forall|a: OracleOutcome, b: OracleOutcome|
            #![trigger a.spec_wire_name(), b.spec_wire_name()]
            a.spec_wire_name() == b.spec_wire_name() ==> a == b,
{
    reveal_strlit("yes");
    reveal_strlit("no");
    reveal_strlit("invalid");
    reveal_strlit("disputed");
    assert forall|a: OracleOutcome, b: OracleOutcome|
        #![trigger a.spec_wire_name(), b.spec_wire_name()]
        a.spec_wire_name() == b.spec_wire_name() implies a == b by {
        assert(a.spec_wire_name().len() == b.spec_wire_name().len());
        assert(a.spec_wire_name()[0] == b.spec_wire_name()[0]);
    }
}

impl RequestState {
    /// The name of the state on the wire.
    pub open spec fn spec_wire_name(self) -> Seq<char> {
        match self {
            RequestState::Open => "open"@,
            RequestState::Presented => "presented"@,
            RequestState::Locked => "locked"@,
            RequestState::Reported => "reported"@,
            RequestState::Disputed => "disputed"@,
            RequestState::Settled => "settled"@,
            RequestState::Unwound => "unwound"@,
            RequestState::Failed => "failed"@,
        }
    }

    pub fn wire_name(self) -> (name: &'static str)
        ensures
            name@ == self.spec_wire_name(),
    {
        match self {
            RequestState::Open => "open",
            RequestState::Presented => "presented",
            RequestState::Locked => "locked",
            RequestState::Reported => "reported",
            RequestState::Disputed => "disputed",
            RequestState::Settled => "settled",
            RequestState::Unwound => "unwound",
            RequestState::Failed => "failed",
        }
    }
}

impl QuoteState {
    /// The name of the state on the wire.
    pub open spec fn spec_wire_name(self) -> Seq<char> {
        match self {
            QuoteState::Live => "live"@,
            QuoteState::Selected => "selected"@,
            QuoteState::Locked => "locked"@,
            QuoteState::Released => "released"@,
        }
    }

    pub fn wire_name(self) -> (name: &'static str)
        ensures
            name@ == self.spec_wire_name(),
    {
        match self {
            QuoteState::Live => "live",
            QuoteState::Selected => "selected",
            QuoteState::Locked => "locked",
            QuoteState::Released => "released",
        }
    }
}

impl FailReason {
    /// The name of the reason on the wire.
    pub open spec fn spec_wire_name(self) -> Seq<char> {
        match self {
            FailReason::LegUnmatched(_) => "leg_unmatched"@,
            FailReason::Rejected => "rejected"@,
            FailReason::AcceptWindowExpired => "accept_window_expired"@,
            FailReason::InsufficientRequesterFunds => "insufficient_requester_funds"@,
        }
    }

    pub fn wire_name(self) -> (name: &'static str)
        ensures
            name@ == self.spec_wire_name(),
    {
        match self {
            FailReason::LegUnmatched(_) => "leg_unmatched",
            FailReason::Rejected => "rejected",
            FailReason::AcceptWindowExpired => "accept_window_expired",
            FailReason::InsufficientRequesterFunds => "insufficient_requester_funds",
        }
    }

    /// The leg that the reason is about, if it is about one.
    pub fn leg_id(self) -> (leg: Option<LegId>)
        ensures
            leg == match self {
                FailReason::LegUnmatched(leg) => Some(leg),
                _ => None,
            },
    {
        match self {
            FailReason::LegUnmatched(leg) => Some(leg),
            _ => None,
        }
    }
}

/// Buying Yes and selling No make the requester long Yes; selling Yes and buying No do not.
pub proof fn law_who_is_long_yes()
    ensures
        LegSide::BuyYes.long_yes(),
        LegSide::SellNo.long_yes(),
        !LegSide::SellYes.long_yes(),
        !LegSide::BuyNo.long_yes(),
{
}

/// How long each tenor is.
pub proof fn law_tenors_in_seconds(tenor: Tenor)
    ensures
        tenor.spec_duration() == Span::of(
            match tenor {
                Tenor::FiveMinutes => 300int,
                Tenor::TenMinutes => 600int,
                Tenor::OneHour => 3_600int,
                Tenor::OneDay => 86_400int,
            },
            0,
        ),
{
}

/// Only Yes and No have a winner.
pub proof fn law_which_outcomes_decide(outcome: OracleOutcome)
    ensures
        outcome.decides() <==> outcome == OracleOutcome::Yes || outcome == OracleOutcome::No,
{
}

/// What the sides, tenors, outcomes, states and reasons are called on the wire.
pub proof fn law_names_on_the_wire(leg: LegId)
    ensures
        LegSide::BuyYes.spec_wire_name() == "buy_yes"@,
        LegSide::SellYes.spec_wire_name() == "sell_yes"@,
        LegSide::BuyNo.spec_wire_name() == "buy_no"@,
        LegSide::SellNo.spec_wire_name() == "sell_no"@,
        Tenor::FiveMinutes.spec_wire_name() == "five_minutes"@,
        Tenor::TenMinutes.spec_wire_name() == "ten_minutes"@,
        Tenor::OneHour.spec_wire_name() == "one_hour"@,
        Tenor::OneDay.spec_wire_name() == "one_day"@,
        OracleOutcome::Yes.spec_wire_name() == "yes"@,
        OracleOutcome::No.spec_wire_name() == "no"@,
        OracleOutcome::Invalid.spec_wire_name() == "invalid"@,
        OracleOutcome::Disputed.spec_wire_name() == "disputed"@,
        RequestState::Open.spec_wire_name() == "open"@,
        RequestState::Presented.spec_wire_name() == "presented"@,
        RequestState::Locked.spec_wire_name() == "locked"@,
        RequestState::Reported.spec_wire_name() == "reported"@,
        RequestState::Disputed.spec_wire_name() == "disputed"@,
        RequestState::Settled.spec_wire_name() == "settled"@,
        RequestState::Unwound.spec_wire_name() == "unwound"@,
        RequestState::Failed.spec_wire_name() == "failed"@,
        QuoteState::Live.spec_wire_name() == "live"@,
        QuoteState::Selected.spec_wire_name() == "selected"@,
        QuoteState::Locked.spec_wire_name() == "locked"@,
        QuoteState::Released.spec_wire_name() == "released"@,
        FailReason::LegUnmatched(leg).spec_wire_name() == "leg_unmatched"@,
        FailReason::Rejected.spec_wire_name() == "rejected"@,
        FailReason::AcceptWindowExpired.spec_wire_name() == "accept_window_expired"@,
        FailReason::InsufficientRequesterFunds.spec_wire_name() == "insufficient_requester_funds"@,
{
}

} // verus!
