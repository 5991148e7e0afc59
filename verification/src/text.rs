//! Text: trimming, decimal numbers, and the written form of identifiers.
use vstd::arithmetic::power::pow;
use vstd::prelude::*;
use vstd::string::*;

verus! {

/// The code points with the Unicode property `White_Space`.
pub open spec fn is_white_space(c: char) -> bool {
    let code = c as int;
    ||| 0x9 <= code <= 0xd
    ||| code == 0x20
    ||| code == 0x85
    ||| code == 0xa0
    ||| code == 0x1680
    ||| 0x2000 <= code <= 0x200a
    ||| code == 0x2028
    ||| code == 0x2029
    ||| code == 0x202f
    ||| code == 0x205f
    ||| code == 0x3000
}

/// `s` without the white space at its two ends.
pub open spec fn trimmed(s: Seq<char>) -> Seq<char>
    decreases s.len(),
{
    if s.len() > 0 && is_white_space(s.first()) {
        trimmed(s.drop_first())
    } else if s.len() > 0 && is_white_space(s.last()) {
        trimmed(s.drop_last())
    } else {
        s
    }
}

/// Trimming again changes nothing.
pub proof fn lemma_trimmed_once(s: Seq<char>)
    ensures
        trimmed(trimmed(s)) == trimmed(s),
    decreases s.len(),
{
    if s.len() > 0 && is_white_space(s.first()) {
        lemma_trimmed_once(s.drop_first());
    } else if s.len() > 0 && is_white_space(s.last()) {
        lemma_trimmed_once(s.drop_last());
    }
}

/// `str::trim` of the standard library: the text without the leading and trailing characters
/// that have the Unicode property `White_Space`.
#[verifier::external_body]
pub(crate) fn trim(s: &str) -> (t: &str)
    ensures
        t@ == trimmed(s@),
{
    s.trim()
}

/// The digits of `n` in base ten, without leading zeros.
pub open spec fn decimal(n: nat) -> Seq<char>
    decreases n,
{
    if n < 10 {
        seq![(48 + n) as char]
    } else {
        decimal(n / 10).push((48 + n % 10) as char)
    }
}

fn digit_text(d: u64) -> (s: &'static str)
    requires
        d < 10,
    ensures
        s@ == seq![(48 + d) as char],
{
    proof {
        reveal_strlit("0");
        reveal_strlit("1");
        reveal_strlit("2");
        reveal_strlit("3");
        reveal_strlit("4");
        reveal_strlit("5");
        reveal_strlit("6");
        reveal_strlit("7");
        reveal_strlit("8");
        reveal_strlit("9");
    }
    if d == 0 {
        "0"
    } else if d == 1 {
        "1"
    } else if d == 2 {
        "2"
    } else if d == 3 {
        "3"
    } else if d == 4 {
        "4"
    } else if d == 5 {
        "5"
    } else if d == 6 {
        "6"
    } else if d == 7 {
        "7"
    } else if d == 8 {
        "8"
    } else {
        "9"
    }
}

/// Writes `n` in base ten.
pub fn decimal_text(n: u64) -> (s: String)
    ensures
        s@ == decimal(n as nat),
    decreases n,
{
    if n < 10 {
        digit_text(n).to_owned()
    } else {
        let mut s = decimal_text(n / 10);
        s.append(digit_text(n % 10));
        s
    }
}

/// The hexadecimal digit for `d`, in lower case.
pub open spec fn hex_digit(d: int) -> char {
    if d < 10 {
        (48 + d) as char
    } else {
        (87 + d) as char
    }
}

/// The `k`-th of the 32 hexadecimal digits of `id`, counted from the most significant.
pub open spec fn hex_digit_of(id: u128, k: int) -> char {
    hex_digit((id as int / pow(16, (31 - k) as nat)) % 16)
}

/// The hyphenated form of a UUID: 32 lower-case hexadecimal digits in groups of 8, 4, 4, 4 and
/// 12.
pub open spec fn hyphenated(id: u128) -> Seq<char> {
    Seq::new(
        36,
        |i: int|
            if i < 8 {
                hex_digit_of(id, i)
            } else if i == 8 {
                '-'
            } else if i < 13 {
                hex_digit_of(id, i - 1)
            } else if i == 13 {
                '-'
            } else if i < 18 {
                hex_digit_of(id, i - 2)
            } else if i == 18 {
                '-'
            } else if i < 23 {
                hex_digit_of(id, i - 3)
            } else if i == 23 {
                '-'
            } else {
                hex_digit_of(id, i - 4)
            },
    )
}

/// `Uuid::to_string` of `uuid`, on the UUID of this value: its hyphenated form, in lower case.
#[verifier::external_body]
pub(crate) fn uuid_text(id: u128) -> (s: String)
    ensures
        s@ == hyphenated(id),
{
    uuid::Uuid::from_u128(id).to_string()
}

/// Whether two texts are the same, character by character.
pub fn same(a: &str, b: &str) -> (r: bool)
    ensures
        r == (a@ == b@),
{
    let n: usize = a.unicode_len();
    if n != b.unicode_len() {
        return false;
    }
    let mut i: usize = 0;
    while i < n
        invariant
            0 <= i <= n,
            n == a@.len(),
            n == b@.len(),
            forall|j: int| 0 <= j < i ==> a@[j] == b@[j],
        decreases n - i,
    {
        if a.get_char(i) != b.get_char(i) {
            return false;
        }
        i = i + 1;
    }
    assert(a@ =~= b@);
    true
}

/// Trimming takes white space off the two ends of a text and nothing else: what is left is a
/// stretch of the text, from `start` on, that neither begins nor ends with white space, and all
/// before and behind it is white space.
pub proof fn law_trimming_takes_white_space_off_the_ends(s: Seq<char>) -> (start: int)
    ensures
        ({
            let t = trimmed(s);
            let end = start + t.len();
            &&& t.len() > 0 ==> !is_white_space(t.first()) && !is_white_space(t.last())
            &&& 0 <= start <= end <= s.len()
            &&& t == s.subrange(start, end)
            &&& forall|i: int|
                0 <= i < start || end <= i < s.len() ==> is_white_space(#[trigger] s[i])
        }),
    decreases s.len(),
{
    let t = trimmed(s);
    let n = t.len() as int;
    if s.len() > 0 && is_white_space(s.first()) {
        let rest = s.drop_first();
        let a = law_trimming_takes_white_space_off_the_ends(rest);
        assert(t =~= s.subrange(a + 1, a + 1 + n));
        assert forall|i: int|
            0 <= i < a + 1 || a + 1 + n <= i < s.len() implies is_white_space(#[trigger] s[i]) by {
            if i > 0 {
                assert(s[i] == rest[i - 1]);
            }
        }
        a + 1
    } else if s.len() > 0 && is_white_space(s.last()) {
        let rest = s.drop_last();
        let a = law_trimming_takes_white_space_off_the_ends(rest);
        assert(t =~= s.subrange(a, a + n));
        assert forall|i: int| 0 <= i < a || a + n <= i < s.len() implies is_white_space(
            #[trigger] s[i],
        ) by {
            if i < s.len() - 1 {
                assert(s[i] == rest[i]);
            }
        }
        a
    } else {
        assert(t =~= s.subrange(0, n));
        0
    }
}

/// The number that digits write in base ten.
pub open spec fn written_number(digits: Seq<char>) -> int
    decreases digits.len(),
{
    if digits.len() == 0 {
        0
    } else {
        10 * written_number(digits.drop_last()) + (digits.last() as int - 48)
    }
}

/// A number is written in decimal digits, without a leading zero unless it is zero, and reading
/// them gives it back.
pub proof fn law_decimals_write_the_number(n: nat)
    ensures
        decimal(n).len() > 0,
        forall|i: int| 0 <= i < decimal(n).len() ==> '0' <= #[trigger] decimal(n)[i] <= '9',
        n > 0 ==> decimal(n)[0] != '0',
        decimal(n).last() as int == 48 + n % 10,
        n < 10 ==> decimal(n).len() == 1,
        n >= 10 ==> decimal(n).drop_last() == decimal(n / 10),
        written_number(decimal(n)) == n,
    decreases n,
{
    if n < 10 {
        let digits = decimal(n);
        assert(digits.drop_last() =~= Seq::<char>::empty());
        assert(written_number(Seq::<char>::empty()) == 0);
    } else {
        law_decimals_write_the_number(n / 10);
        let rest = decimal(n / 10);
        let digits = decimal(n);
        assert(digits.drop_last() =~= rest);
        assert forall|i: int| 0 <= i < digits.len() implies '0' <= #[trigger] digits[i] <= '9' by {
            if i < rest.len() {
                assert(digits[i] == rest[i]);
            }
        }
        assert(digits[0] == rest[0]);
    }
}

/// An identifier is written as 36 characters: lower-case hexadecimal digits in groups of 8, 4, 4, 4
/// and 12, between hyphens.
pub proof fn law_hyphenated_shape(id: u128, i: int)
    requires
        0 <= i < 36,
    ensures
        hyphenated(id).len() == 36,
        i == 8 || i == 13 || i == 18 || i == 23 ==> hyphenated(id)[i] == '-',
        !(i == 8 || i == 13 || i == 18 || i == 23) ==> '0' <= hyphenated(id)[i] <= '9' || 'a'
            <= hyphenated(id)[i] <= 'f',
{
}

/// The digits of an identifier are those of its value in base sixteen, the most significant first.
pub proof fn law_hyphenated_digits_write_the_value(id: u128, k: int)
    requires
        0 <= k < 32,
    ensures
        ({
            let i = if k < 8 {
                k
            } else if k < 12 {
                k + 1
            } else if k < 16 {
                k + 2
            } else if k < 20 {
                k + 3
            } else {
                k + 4
            };
            let digit = hyphenated(id)[i];
            let value = (id as int / pow(16, (31 - k) as nat)) % 16;
            &&& value < 10 ==> digit as int == 48 + value
            &&& value >= 10 ==> digit as int == 87 + value
        }),
{
}

/// White space is the tab and the controls after it up to the carriage return, the space, the next
/// line, and the spaces and separators beyond ASCII.
pub proof fn law_which_characters_are_white_space(c: char)
    ensures
        (c as int) < 0x80 ==> (is_white_space(c) <==> c == ' ' || 0x9 <= c as int <= 0xd),
        (c as int) >= 0x80 ==> (is_white_space(c) <==> {
            let code = c as int;
            code == 0x85 || code == 0xa0 || code == 0x1680 || 0x2000 <= code <= 0x200a || code
                == 0x2028 || code == 0x2029 || code == 0x202f || code == 0x205f || code == 0x3000
        }),
{
}

} // verus!
