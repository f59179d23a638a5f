//! Decimal port numbers, read the way `str::parse::<u16>` reads them.
use vstd::prelude::*;

verus! {

/// Largest value a port number can take.
pub const PORT_MAX: u16 = 65535;

/// Why a port number could not be read; the three kinds `u16::from_str`
/// reports for unsigned integers.
#[derive(Debug, Clone, Copy, PartialEq, Eq, Structural)]
pub enum PortError {
    /// The text is empty.
    Empty,
    /// A character that is not an ASCII decimal digit (a lone sign counts too).
    InvalidDigit,
    /// The digits stand for a number above `PORT_MAX`.
    TooLarge,
}

impl PortError {
    /// The wording `std` uses for this kind of error.
    pub fn message(&self) -> (m: &'static str)
        ensures
            m@ == self.spec_message(),
    {
        match self {
            PortError::Empty => "cannot parse integer from empty string",
            PortError::InvalidDigit => "invalid digit found in string",
            PortError::TooLarge => "number too large to fit in target type",
        }
    }

    pub open spec fn spec_message(&self) -> Seq<char> {
        match self {
            PortError::Empty => "cannot parse integer from empty string"@,
            PortError::InvalidDigit => "invalid digit found in string"@,
            PortError::TooLarge => "number too large to fit in target type"@,
        }
    }
}

pub open spec fn is_decimal_digit(c: char) -> bool {
    '0' <= c && c <= '9'
}

pub open spec fn digit_value(c: char) -> nat {
    (c as int - '0' as int) as nat
}

/// Reads `s` digit by digit from the left, starting from `acc`; stops at the
/// first character that is not a digit, or as soon as the number read so far
/// exceeds `PORT_MAX`.
pub open spec fn read_digits(s: Seq<char>, acc: nat) -> Result<nat, PortError>
    decreases s.len(),
{
    if s.len() == 0 {
        Ok(acc)
    } else if !is_decimal_digit(s[0]) {
        Err(PortError::InvalidDigit)
    } else if acc * 10 + digit_value(s[0]) > PORT_MAX {
        Err(PortError::TooLarge)
    } else {
        read_digits(s.drop_first(), acc * 10 + digit_value(s[0]))
    }
}

/// The digits of `s`: `s` without one leading `+`.
pub open spec fn unsigned_body(s: Seq<char>) -> Seq<char> {
    if s.len() > 0 && s[0] == '+' {
        s.drop_first()
    } else {
        s
    }
}

/// What `s.parse::<u16>()` gives for the text `s`.
pub open spec fn spec_parse_port(s: Seq<char>) -> Result<u16, PortError> {
    if s.len() == 0 {
        Err(PortError::Empty)
    } else if s.len() == 1 && (s[0] == '+' || s[0] == '-') {
        Err(PortError::InvalidDigit)
    } else {
        match read_digits(unsigned_body(s), 0) {
            Ok(v) => Ok(v as u16),
            Err(e) => Err(e),
        }
    }
}

/// Reads a port number: an optional `+`, then one or more ASCII digits whose
/// value is at most `PORT_MAX` (leading zeros allowed).
pub fn parse_port(s: &str) -> (r: Result<u16, PortError>)
    ensures
        r == spec_parse_port(s@),
{
    let n = s.unicode_len();
    if n == 0 {
        return Err(PortError::Empty);
    }
    let first = s.get_char(0);
    if n == 1 && (first == '+' || first == '-') {
        return Err(PortError::InvalidDigit);
    }
    let mut i: usize = if first == '+' {
        1
    } else {
        0
    };
    let ghost body = unsigned_body(s@);
    assert(body =~= s@.skip(i as int));
    let mut acc: u32 = 0;
    while i < n
        invariant
            n == s@.len(),
            i <= n,
            acc <= PORT_MAX,
            spec_parse_port(s@) == (match read_digits(s@.skip(i as int), acc as nat) {
                Ok(v) => Ok(v as u16),
                Err(e) => Err(e),
            }),
        decreases n - i,
    {
        let c = s.get_char(i);
        assert(s@.skip(i as int)[0] == c);
        assert(s@.skip(i as int).drop_first() =~= s@.skip(i + 1));
        if !('0' <= c && c <= '9') {
            return Err(PortError::InvalidDigit);
        }
        let d: u32 = (c as u32) - ('0' as u32);
        let v: u32 = acc * 10 + d;
        if v > 65535 {
            return Err(PortError::TooLarge);
        }
        acc = v;
        i = i + 1;
    }
    assert(s@.skip(i as int).len() == 0);
    Ok(acc as u16)
}

// ---------------------------------------------------------------------------
// What the reader accepts, said without the digit-by-digit walk.
/// The number written by the decimal digits `s`, however large.
pub open spec fn decimal_value(s: Seq<char>, acc: nat) -> nat
    decreases s.len(),
{
    if s.len() == 0 {
        acc
    } else {
        decimal_value(s.drop_first(), acc * 10 + digit_value(s[0]))
    }
}

pub open spec fn all_digits(s: Seq<char>) -> bool {
    forall|i: int| 0 <= i < s.len() ==> is_decimal_digit(#[trigger] s[i])
}

proof fn lemma_decimal_value_grows(s: Seq<char>, acc: nat)
    ensures
        decimal_value(s, acc) >= acc,
    decreases s.len(),
{
    if s.len() > 0 {
        lemma_decimal_value_grows(s.drop_first(), acc * 10 + digit_value(s[0]));
    }
}

proof fn lemma_read_digits_of_digits(s: Seq<char>, acc: nat)
    requires
        all_digits(s),
        acc <= PORT_MAX,
    ensures
        read_digits(s, acc) == (if decimal_value(s, acc) <= PORT_MAX {
            Ok::<nat, PortError>(decimal_value(s, acc))
        } else {
            Err(PortError::TooLarge)
        }),
    decreases s.len(),
{
    if s.len() > 0 {
        assert(is_decimal_digit(s[0]));
        let next = acc * 10 + digit_value(s[0]);
        lemma_decimal_value_grows(s.drop_first(), next);
        assert(all_digits(s.drop_first())) by {
            assert forall|i: int| 0 <= i < s.drop_first().len() implies is_decimal_digit(
                #[trigger] s.drop_first()[i],
            ) by {
                assert(s.drop_first()[i] == s[i + 1]);
            }
        }
        if next <= PORT_MAX {
            lemma_read_digits_of_digits(s.drop_first(), next);
        }
    }
}

proof fn lemma_read_digits_rejects_non_digit(s: Seq<char>, acc: nat)
    requires
        !all_digits(s),
    ensures
        read_digits(s, acc) is Err,
    decreases s.len(),
{
    if s.len() > 0 && is_decimal_digit(s[0]) {
        let next = acc * 10 + digit_value(s[0]);
        if next <= PORT_MAX {
            let k = choose|k: int| 0 <= k < s.len() && !is_decimal_digit(#[trigger] s[k]);
            assert(s.drop_first()[k - 1] == s[k]);
            lemma_read_digits_rejects_non_digit(s.drop_first(), next);
        }
    }
}

/// A text reads as a port exactly when, after at most one leading `+`, it is
/// a nonempty run of ASCII digits whose decimal value is at most `PORT_MAX`;
/// the port is then that value.
pub proof fn lemma_parse_port_accepts_exactly_decimals(s: Seq<char>)
    ensures
        spec_parse_port(s) is Ok <==> (unsigned_body(s).len() > 0 && all_digits(unsigned_body(s))
            && decimal_value(unsigned_body(s), 0) <= PORT_MAX),
        spec_parse_port(s) is Ok ==> spec_parse_port(s)->Ok_0 == decimal_value(
            unsigned_body(s),
            0,
        ),
{
    let body = unsigned_body(s);
    if s.len() == 1 && (s[0] == '+' || s[0] == '-') {
        if s[0] == '-' {
            assert(!is_decimal_digit(body[0]));
        }
    } else if s.len() > 0 {
        if all_digits(body) {
            lemma_read_digits_of_digits(body, 0);
        } else {
            lemma_read_digits_rejects_non_digit(body, 0);
        }
    }
}

} // verus!
