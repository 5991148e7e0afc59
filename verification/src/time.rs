//! Instants and spans of UTC time, with the range, the order and the addition of `chrono`.
use vstd::prelude::*;
use chrono::{DateTime, TimeDelta};

verus! {

pub const NANOS_PER_SEC: u32 = 1_000_000_000;

/// 1 January 262144 BCE, 00:00:00, in seconds since 1970.
pub const MIN_SECS: i64 = -8_334_601_228_800;

/// 31 December 262142 CE, 23:59:59, in seconds since 1970.
pub const MAX_SECS: i64 = 8_210_266_876_799;

/// The longest span, `i64::MAX` milliseconds, in whole seconds and the nanoseconds left over.
pub const MAX_SPAN_SECS: i64 = 9_223_372_036_854_775;

pub const MAX_SPAN_NANOS: u32 = 807_000_000;

/// The shortest span, the negative of the longest.
pub const MIN_SPAN_SECS: i64 = -9_223_372_036_854_776;

pub const MIN_SPAN_NANOS: u32 = 193_000_000;

/// An instant: whole seconds since 1970 and nanoseconds within the second. During a leap second
/// the nanoseconds run on past one billion.
#[derive(Debug, Clone, Copy, PartialEq, Eq, Structural, PartialOrd, Ord, Hash)]
pub struct Timestamp {
    secs: i64,
    nanos: u32,
}

/// A signed length of time, the nanoseconds counted up from the whole seconds.
#[derive(Debug, Clone, Copy, PartialEq, Eq, Structural, Hash)]
pub struct Span {
    secs: i64,
    nanos: u32,
}

/// Whether an instant has this many seconds and nanoseconds.
pub open spec fn is_instant(secs: int, nanos: int) -> bool {
    &&& MIN_SECS <= secs <= MAX_SECS
    &&& 0 <= nanos < 2 * NANOS_PER_SEC
    &&& nanos >= NANOS_PER_SEC ==> secs % 60 == 59
}

/// Whether a span has this many seconds and nanoseconds.
pub open spec fn is_span(secs: int, nanos: int) -> bool {
    &&& MIN_SPAN_SECS <= secs <= MAX_SPAN_SECS
    &&& 0 <= nanos < NANOS_PER_SEC
    &&& secs == MAX_SPAN_SECS ==> nanos <= MAX_SPAN_NANOS
    &&& secs == MIN_SPAN_SECS ==> nanos >= MIN_SPAN_NANOS
}

/// The seconds and nanoseconds of the instant `(secs, nanos)` moved by `by` nanoseconds. A leap
/// second counts only for an instant within it: it is stayed in where the sum still falls into
/// it, and is one second of time where the sum lies beyond it.
pub open spec fn moved(secs: int, nanos: int, by: int) -> (int, int) {
    let sum = nanos + by;
    if nanos >= NANOS_PER_SEC && NANOS_PER_SEC <= sum < 2 * NANOS_PER_SEC {
        (secs, sum)
    } else {
        let past_leap = nanos >= NANOS_PER_SEC && sum >= 2 * NANOS_PER_SEC;
        let total = secs * NANOS_PER_SEC + sum - if past_leap { NANOS_PER_SEC as int } else { 0 };
        (total / (NANOS_PER_SEC as int), total % (NANOS_PER_SEC as int))
    }
}

impl View for Timestamp {
    type V = int;

    /// The place of the instant in the order of instants.
    open spec fn view(&self) -> int {
        self.spec_secs() * (2 * NANOS_PER_SEC) + self.spec_nanos()
    }
}

impl Timestamp {
    pub closed spec fn spec_secs(self) -> int {
        self.secs as int
    }

    pub closed spec fn spec_nanos(self) -> int {
        self.nanos as int
    }

    #[verifier::type_invariant]
    pub open spec fn valid(self) -> bool {
        is_instant(self.spec_secs(), self.spec_nanos())
    }

    /// The instant of so many seconds and nanoseconds.
    pub closed spec fn at(secs: int, nanos: int) -> Timestamp {
        Timestamp { secs: secs as i64, nanos: nanos as u32 }
    }

    /// This instant moved by `by`, where the calendar reaches that far.
    pub open spec fn plus(self, by: Span) -> Option<Timestamp> {
        let (secs, nanos) = moved(self.spec_secs(), self.spec_nanos(), by@);
        if MIN_SECS <= secs <= MAX_SECS {
            Some(Timestamp::at(secs, nanos))
        } else {
            None
        }
    }

    /// The earlier of two instants.
    pub open spec fn earlier(self, other: Timestamp) -> Timestamp {
        if other@ < self@ {
            other
        } else {
            self
        }
    }

    /// The instant `nanos` nanoseconds into the second `secs`, counted from 1970.
    pub fn new(secs: i64, nanos: u32) -> (t: Option<Timestamp>)
        ensures
            t is Some <==> is_instant(secs as int, nanos as int),
            t is Some ==> t->Some_0.spec_secs() == secs && t->Some_0.spec_nanos() == nanos,
    {
        if secs < MIN_SECS || secs > MAX_SECS || nanos >= 2_000_000_000 {
            return None;
        }
        // A multiple of sixty that makes the sum positive leaves the second of the minute alone.
        let in_minute: i64 = (secs + 8_334_601_228_800) % 60;
        if nanos >= NANOS_PER_SEC && in_minute != 59 {
            return None;
        }
        Some(Timestamp { secs, nanos })
    }

    pub fn secs(self) -> (secs: i64)
        ensures
            secs == self.spec_secs(),
    {
        self.secs
    }

    pub fn nanos(self) -> (nanos: u32)
        ensures
            nanos == self.spec_nanos(),
    {
        self.nanos
    }

    pub fn is_before(self, other: Timestamp) -> (b: bool)
        ensures
            b == (self@ < other@),
    {
        proof {
            use_type_invariant(&self);
            use_type_invariant(&other);
        }
        self.secs < other.secs || (self.secs == other.secs && self.nanos < other.nanos)
    }

    pub fn min(self, other: Timestamp) -> (t: Timestamp)
        ensures
            t == self.earlier(other),
    {
        if other.is_before(self) {
            other
        } else {
            self
        }
    }

    /// The instant `by` later, or `None` past either end of the calendar.
    pub fn checked_add(self, by: Span) -> (t: Option<Timestamp>)
        ensures
            t == self.plus(by),
    {
        proof {
            use_type_invariant(&self);
            use_type_invariant(&by);
        }
        match add_on_the_calendar(self, by) {
            Some((secs, nanos)) => Some(Timestamp { secs, nanos }),
            None => None,
        }
    }
}

impl View for Span {
    type V = int;

    /// The length in nanoseconds.
    open spec fn view(&self) -> int {
        self.spec_secs() * NANOS_PER_SEC + self.spec_nanos()
    }
}

impl Span {
    pub closed spec fn spec_secs(self) -> int {
        self.secs as int
    }

    pub closed spec fn spec_nanos(self) -> int {
        self.nanos as int
    }

    #[verifier::type_invariant]
    pub open spec fn valid(self) -> bool {
        is_span(self.spec_secs(), self.spec_nanos())
    }

    /// The span of so many seconds and nanoseconds.
    pub closed spec fn of(secs: int, nanos: int) -> Span {
        Span { secs: secs as i64, nanos: nanos as u32 }
    }

    pub fn new(secs: i64, nanos: u32) -> (span: Option<Span>)
        ensures
            span == if is_span(secs as int, nanos as int) {
                Some(Span::of(secs as int, nanos as int))
            } else {
                None
            },
            span is Some ==> span->Some_0.spec_secs() == secs && span->Some_0.spec_nanos() == nanos,
    {
        if secs < MIN_SPAN_SECS || secs > MAX_SPAN_SECS || nanos >= NANOS_PER_SEC {
            return None;
        }
        if secs == MAX_SPAN_SECS && nanos > MAX_SPAN_NANOS {
            return None;
        }
        if secs == MIN_SPAN_SECS && nanos < MIN_SPAN_NANOS {
            return None;
        }
        Some(Span { secs, nanos })
    }

    pub fn seconds(secs: i64) -> (span: Span)
        requires
            is_span(secs as int, 0),
        ensures
            span == Span::of(secs as int, 0),
            span@ == secs * NANOS_PER_SEC,
    {
        Span { secs, nanos: 0 }
    }

    pub fn secs(self) -> (secs: i64)
        ensures
            secs == self.spec_secs(),
    {
        self.secs
    }

    pub fn nanos(self) -> (nanos: u32)
        ensures
            nanos == self.spec_nanos(),
    {
        self.nanos
    }
}

/// A span has the seconds and nanoseconds that it is made of.
pub proof fn law_span_has_its_parts(secs: int, nanos: int)
    requires
        is_span(secs, nanos),
    ensures
        Span::of(secs, nanos).spec_secs() == secs,
        Span::of(secs, nanos).spec_nanos() == nanos,
        Span::of(secs, nanos)@ == secs * NANOS_PER_SEC + nanos,
{
}

/// An instant has the seconds and nanoseconds that it is made of.
pub proof fn law_instant_has_its_parts(secs: int, nanos: int)
    requires
        is_instant(secs, nanos),
    ensures
        Timestamp::at(secs, nanos).spec_secs() == secs,
        Timestamp::at(secs, nanos).spec_nanos() == nanos,
{
}

/// Two instants at one place in the order are one instant.
pub proof fn law_order_tells_instants_apart(a: Timestamp, b: Timestamp)
    requires
        a.valid(),
        b.valid(),
        a@ == b@,
    ensures
        a == b,
{
}

/// A sum that the calendar reaches is an instant, and its seconds and nanoseconds are those of
/// the moved instant.
pub proof fn law_plus_is_an_instant(t: Timestamp, by: Span)
    requires
        t.valid(),
        t.plus(by) is Some,
    ensures
        t.plus(by)->Some_0.valid(),
        t.plus(by)->Some_0.spec_secs() == moved(t.spec_secs(), t.spec_nanos(), by@).0,
        t.plus(by)->Some_0.spec_nanos() == moved(t.spec_secs(), t.spec_nanos(), by@).1,
{
}

/// `DateTime::checked_add_signed` of `chrono`, on the instant and the span with these seconds
/// and nanoseconds: the sum is `None` exactly where it leaves the calendar, and else is the
/// instant moved by the span, leap seconds included.
#[verifier::external_body]
fn add_on_the_calendar(t: Timestamp, by: Span) -> (sum: Option<(i64, u32)>)
    requires
        t.valid(),
        by.valid(),
    ensures
        sum is Some <==> MIN_SECS <= moved(t.spec_secs(), t.spec_nanos(), by@).0 <= MAX_SECS,
        sum is Some ==> sum->Some_0.0 == moved(t.spec_secs(), t.spec_nanos(), by@).0,
        sum is Some ==> sum->Some_0.1 == moved(t.spec_secs(), t.spec_nanos(), by@).1,
{
    let start = DateTime::from_timestamp(t.secs, t.nanos)?;
    let sum = start.checked_add_signed(TimeDelta::new(by.secs, by.nanos)?)?;
    Some((sum.timestamp(), sum.timestamp_subsec_nanos()))
}

/// An instant comes before another by its second, and within one second by its nanosecond.
pub proof fn law_instants_are_ordered_by_second_then_nanosecond(a: Timestamp, b: Timestamp)
    requires
        a.valid(),
        b.valid(),
    ensures
        a@ < b@ <==> a.spec_secs() < b.spec_secs() || (a.spec_secs() == b.spec_secs()
            && a.spec_nanos() < b.spec_nanos()),
{
}

/// The earlier of two instants is one of them, and neither comes before it.
pub proof fn law_earlier_is_the_least(a: Timestamp, b: Timestamp)
    ensures
        a.earlier(b) == a || a.earlier(b) == b,
        a.earlier(b)@ <= a@,
        a.earlier(b)@ <= b@,
{
}

/// Outside leap seconds a sum is as many nanoseconds later as the span is long, and there is one
/// exactly while it stays on the calendar.
pub proof fn law_plus_adds_the_span(t: Timestamp, by: Span)
    requires
        t.valid(),
        t.spec_nanos() < 1_000_000_000,
    ensures
        ({
            let sum = t.spec_secs() * 1_000_000_000 + t.spec_nanos() + by@;
            &&& t.plus(by) is Some <==> -8_334_601_228_800 * 1_000_000_000 <= sum
                < 8_210_266_876_800 * 1_000_000_000
            &&& t.plus(by) matches Some(u) ==> {
                &&& u.spec_secs() * 1_000_000_000 + u.spec_nanos() == sum
                &&& 0 <= u.spec_nanos() < 1_000_000_000
            }
        }),
{
    let sum = t.spec_secs() * 1_000_000_000 + t.spec_nanos() + by@;
    vstd::arithmetic::div_mod::lemma_fundamental_div_mod(sum, 1_000_000_000);
}

/// From within a leap second a sum stays in it as far as it reaches; beyond it, the leap second has
/// taken one second of the span, and before it none.
pub proof fn law_plus_within_a_leap_second(t: Timestamp, by: Span)
    requires
        t.valid(),
        t.spec_nanos() >= 1_000_000_000,
    ensures
        ({
            let nanos = t.spec_nanos() + by@;
            let sum = t.spec_secs() * 1_000_000_000 + nanos - if nanos >= 2_000_000_000 {
                1_000_000_000int
            } else {
                0
            };
            &&& 1_000_000_000 <= nanos < 2_000_000_000 ==> (t.plus(by) matches Some(u)
                && u.spec_secs() == t.spec_secs() && u.spec_nanos() == nanos)
            &&& !(1_000_000_000 <= nanos < 2_000_000_000) ==> {
                &&& t.plus(by) is Some <==> -8_334_601_228_800 * 1_000_000_000 <= sum
                    < 8_210_266_876_800 * 1_000_000_000
                &&& t.plus(by) matches Some(u) ==> {
                    &&& u.spec_secs() * 1_000_000_000 + u.spec_nanos() == sum
                    &&& 0 <= u.spec_nanos() < 1_000_000_000
                }
            }
        }),
{
    let nanos = t.spec_nanos() + by@;
    let sum = t.spec_secs() * 1_000_000_000 + nanos - if nanos >= 2_000_000_000 {
        1_000_000_000int
    } else {
        0
    };
    vstd::arithmetic::div_mod::lemma_fundamental_div_mod(sum, 1_000_000_000);
}

/// Whole seconds move an instant by so many seconds, whether or not it lies in a leap second:
/// the second moves on by just as many, and the place within the second is kept. They do as long
/// as that is on the calendar.
pub proof fn law_seconds_move_the_second(t: Timestamp, secs: int)
    requires
        t.valid(),
        1 <= secs <= 9_000_000_000_000,
    ensures
        t.plus(Span::of(secs, 0)) is Some <==> t.spec_secs() + secs <= 8_210_266_876_799,
        t.plus(Span::of(secs, 0)) matches Some(u) ==> {
            &&& u.spec_secs() == t.spec_secs() + secs
            &&& u.spec_nanos() == t.spec_nanos() % 1_000_000_000
        },
{
    law_span_has_its_parts(secs, 0);
    let (s, n) = (t.spec_secs(), t.spec_nanos());
    let by = Span::of(secs, 0)@;
    assert(by == secs * 1_000_000_000);
    let rest = n % 1_000_000_000;
    let total = (s + secs) * 1_000_000_000 + rest;
    assert(total / 1_000_000_000 == s + secs && total % 1_000_000_000 == rest);
    assert(moved(s, n, by) == (s + secs, rest));
}

/// An instant is within the calendar, with nanoseconds below one billion, or below two billion in
/// the last second of a minute. A span is within the longest one either way.
pub proof fn law_which_instants_and_spans_there_are(secs: int, nanos: int)
    ensures
        is_instant(secs, nanos) <==> {
            &&& -8_334_601_228_800 <= secs <= 8_210_266_876_799
            &&& 0 <= nanos < 1_000_000_000 || secs % 60 == 59 && 1_000_000_000 <= nanos
                < 2_000_000_000
        },
        is_span(secs, nanos) <==> {
            &&& 0 <= nanos < 1_000_000_000
            &&& -9_223_372_036_854_775_807_000_000 <= secs * 1_000_000_000 + nanos
                <= 9_223_372_036_854_775_807_000_000
        },
{
}

} // verus!
