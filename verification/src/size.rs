//! Human-readable sizes: `<digits><suffix>` to a byte count.
//!
//! A size is a run of ASCII digits followed by an optional binary suffix
//! (`k`, `m`, `g`, `t`, each with an optional `b`), read without regard to
//! case and to surrounding whitespace.

use crate::error::{Fault, RddError, RddResult};
use vstd::prelude::*;
use vstd::std_specs::iter::IteratorSpec;

verus! {

/// Why a size string was turned down.
pub enum SizeFault {
    /// Nothing but whitespace.
    Empty,
    /// No leading digits, or more than 64 bits of them.
    InvalidNumber,
    /// Digits followed by something that is no known suffix.
    UnknownSuffix,
    /// Digits times multiplier leaves the 64-bit range.
    Overflow,
    /// The byte count does not fit the platform's address space.
    TooLarge,
}

/// Whether `c` is one of the ten ASCII digits.
pub open spec fn is_digit(c: char) -> bool {
    '0' <= c && c <= '9'
}

/// The number that the digit `c` stands for.
pub open spec fn digit_value(c: char) -> nat {
    (c as u32 - '0' as u32) as nat
}

/// The digit that stands for `d`, for `d` below ten.
pub open spec fn digit_char(d: nat) -> char {
    ('0' as u32 + d) as char
}

/// Whether `s` holds digits only.
pub open spec fn all_digits(s: Seq<char>) -> bool {
    forall|i: int| 0 <= i < s.len() ==> is_digit(#[trigger] s[i])
}

/// Length of the longest run of digits that `s` starts with.
pub open spec fn leading_digits(s: Seq<char>) -> nat
    decreases s.len(),
{
    if s.len() == 0 || !is_digit(s[0]) {
        0
    } else {
        1 + leading_digits(s.drop_first())
    }
}

/// The number written by the digits of `s`, most significant first.
pub open spec fn decimal_value(s: Seq<char>) -> nat
    decreases s.len(),
{
    if s.len() == 0 {
        0
    } else {
        decimal_value(s.drop_last()) * 10 + digit_value(s.last())
    }
}

/// The shortest decimal writing of `n`.
pub open spec fn decimal_digits(n: nat) -> Seq<char>
    decreases n,
{
    if n < 10 {
        seq![digit_char(n)]
    } else {
        decimal_digits(n / 10).push(digit_char(n % 10))
    }
}

/// The factor a lower-case suffix stands for, if it is a suffix at all.
pub open spec fn multiplier(suffix: Seq<char>) -> Option<nat> {
    if suffix =~= Seq::<char>::empty() {
        Some(1)
    } else if suffix =~= seq!['k'] || suffix =~= seq!['k', 'b'] {
        Some(0x400)
    } else if suffix =~= seq!['m'] || suffix =~= seq!['m', 'b'] {
        Some(0x10_0000)
    } else if suffix =~= seq!['g'] || suffix =~= seq!['g', 'b'] {
        Some(0x4000_0000)
    } else if suffix =~= seq!['t'] || suffix =~= seq!['t', 'b'] {
        Some(0x100_0000_0000)
    } else {
        None
    }
}

/// The digits that a lower-case size string starts with.
pub open spec fn number_part(lowered: Seq<char>) -> Seq<char> {
    lowered.take(leading_digits(lowered) as int)
}

/// What follows the digits of a lower-case size string.
pub open spec fn suffix_part(lowered: Seq<char>) -> Seq<char> {
    lowered.skip(leading_digits(lowered) as int)
}

/// The byte count that a trimmed, lower-case size string denotes, or the
/// first reason why it denotes none.
pub open spec fn size_of(lowered: Seq<char>) -> Result<nat, SizeFault> {
    let number = decimal_value(number_part(lowered));
    if leading_digits(lowered) == 0 || number > u64::MAX {
        Err(SizeFault::InvalidNumber)
    } else {
        match multiplier(suffix_part(lowered)) {
            None => Err(SizeFault::UnknownSuffix),
            Some(factor) => if number * factor > u64::MAX {
                Err(SizeFault::Overflow)
            } else if number * factor > usize::MAX {
                Err(SizeFault::TooLarge)
            } else {
                Ok(number * factor)
            },
        }
    }
}

/// Whether `lowered` is digits followed by a known suffix.
pub open spec fn well_formed(lowered: Seq<char>) -> bool {
    exists|k: int|
        0 < k <= lowered.len() && all_digits(#[trigger] lowered.take(k)) && multiplier(
            lowered.skip(k),
        ) is Some
}

/// The text that reports `fault` for the size string `shown`, whose
/// lower-case form goes on with `suffix` after its digits.
pub open spec fn fault_text(fault: SizeFault, shown: Seq<char>, suffix: Seq<char>) -> Seq<char> {
    match fault {
        SizeFault::Empty => "Size string cannot be empty."@,
        SizeFault::InvalidNumber => "Invalid numeric value in size: '"@ + shown + "'"@,
        SizeFault::UnknownSuffix => "Unknown size suffix: '"@ + suffix + "'"@,
        SizeFault::Overflow => "Size value '"@ + shown + "' is too large and would overflow."@,
        SizeFault::TooLarge => "Size value '"@ + shown
            + "' is too large for this system's architecture (max is "@ + decimal_digits(
            usize::MAX as nat,
        ) + " bytes)."@,
    }
}

/// A run of digits is worth at least as much as any run it starts with.
proof fn lemma_decimal_value_grows(s: Seq<char>, a: int, b: int)
    requires
        0 <= a <= b <= s.len(),
    ensures
        decimal_value(s.take(a)) <= decimal_value(s.take(b)),
    decreases b - a,
{
    if a < b {
        lemma_decimal_value_grows(s, a, b - 1);
        assert(s.take(b).drop_last() =~= s.take(b - 1));
    }
}

/// Digits followed by something that starts with no digit: the run of
/// leading digits is exactly the digits.
proof fn lemma_leading_digits_of_concat(digits: Seq<char>, rest: Seq<char>)
    requires
        all_digits(digits),
        rest.len() == 0 || !is_digit(rest[0]),
    ensures
        leading_digits(digits + rest) == digits.len(),
    decreases digits.len(),
{
    if digits.len() == 0 {
        assert(digits + rest =~= rest);
    } else {
        assert((digits + rest)[0] == digits[0]);
        assert((digits + rest).drop_first() =~= digits.drop_first() + rest);
        assert forall|i: int| 0 <= i < digits.drop_first().len() implies is_digit(
            #[trigger] digits.drop_first()[i],
        ) by {
            assert(digits.drop_first()[i] == digits[i + 1]);
        }
        lemma_leading_digits_of_concat(digits.drop_first(), rest);
    }
}

/// The run of leading digits holds digits only, and stops at the end of the
/// string or in front of something else.
proof fn lemma_leading_digits_run(s: Seq<char>)
    ensures
        leading_digits(s) <= s.len(),
        all_digits(s.take(leading_digits(s) as int)),
        leading_digits(s) < s.len() ==> !is_digit(s[leading_digits(s) as int]),
    decreases s.len(),
{
    if s.len() == 0 || !is_digit(s[0]) {
    } else {
        let tail = s.drop_first();
        lemma_leading_digits_run(tail);
        let run = leading_digits(s) as int;
        assert forall|i: int| 0 <= i < s.take(run).len() implies is_digit(
            #[trigger] s.take(run)[i],
        ) by {
            if i > 0 {
                assert(s.take(run)[i] == tail.take(run - 1)[i - 1]);
            }
        }
        if run < s.len() {
            assert(s[run] == tail[run - 1]);
        }
    }
}

/// The decimal writing of a number is a non-empty run of digits that is
/// worth that number.
pub proof fn lemma_decimal_digits_value(n: nat)
    ensures
        decimal_digits(n).len() > 0,
        all_digits(decimal_digits(n)),
        decimal_value(decimal_digits(n)) == n,
    decreases n,
{
    if n < 10 {
        let s = decimal_digits(n);
        assert(s.drop_last() =~= Seq::<char>::empty());
        assert(decimal_value(s.drop_last()) == 0);
    } else {
        lemma_decimal_digits_value(n / 10);
        let front = decimal_digits(n / 10);
        let s = decimal_digits(n);
        assert(s.drop_last() =~= front);
        assert(s.last() == digit_char(n % 10));
    }
}

/// Digits followed by a known suffix denote the digits' value times the
/// suffix's factor, as far as that product fits 64 bits and the platform's
/// address space; where it does not, the failure says which of the two it
/// exceeds.
pub proof fn lemma_valid_size(digits: Seq<char>, suffix: Seq<char>)
    requires
        digits.len() > 0,
        all_digits(digits),
        multiplier(suffix) is Some,
    ensures
        well_formed(digits + suffix),
        size_of(digits + suffix) == {
            let bytes = decimal_value(digits) * multiplier(suffix)->0;
            if decimal_value(digits) > u64::MAX {
                Err::<nat, SizeFault>(SizeFault::InvalidNumber)
            } else if bytes > u64::MAX {
                Err(SizeFault::Overflow)
            } else if bytes > usize::MAX {
                Err(SizeFault::TooLarge)
            } else {
                Ok(bytes)
            }
        },
{
    let lowered = digits + suffix;
    lemma_leading_digits_of_concat(digits, suffix);
    assert(lowered.take(digits.len() as int) =~= digits);
    assert(lowered.skip(digits.len() as int) =~= suffix);
}

/// Writing a number in decimal, adding a known suffix and reading the result
/// back gives the number times the suffix's factor, whenever that fits the
/// platform's address space.
pub proof fn lemma_written_size_reads_back(n: nat, suffix: Seq<char>)
    requires
        multiplier(suffix) is Some,
        n * multiplier(suffix)->0 <= usize::MAX,
    ensures
        size_of(decimal_digits(n) + suffix) == Ok::<nat, SizeFault>(n * multiplier(suffix)->0),
{
    lemma_decimal_digits_value(n);
    lemma_valid_size(decimal_digits(n), suffix);
    let factor = multiplier(suffix)->0;
    assert(n <= n * factor) by (nonlinear_arith)
        requires
            factor >= 1,
    ;
}

/// Only digits followed by a known suffix denote a size, and they denote
/// zero only where the digits themselves are worth zero.
pub proof fn lemma_malformed_size(lowered: Seq<char>)
    ensures
        !well_formed(lowered) ==> size_of(lowered) is Err,
        size_of(lowered) == Ok::<nat, SizeFault>(0) ==> decimal_value(number_part(lowered)) == 0,
{
    if size_of(lowered) is Ok {
        lemma_leading_digits_run(lowered);
        let k = leading_digits(lowered) as int;
        assert(all_digits(lowered.take(k)));
        let number = decimal_value(number_part(lowered));
        let factor = multiplier(suffix_part(lowered))->0;
        assert(number * factor == 0 ==> number == 0) by (nonlinear_arith)
            requires
                factor >= 1,
        ;
    }
}

/// One decimal digit as a string.
fn digit_text(d: u64) -> (text: &'static str)
    requires
        d < 10,
    ensures
        text@ == seq![digit_char(d as nat)],
{
    proof {
        reveal_strlit("0");
        reveal_strlit("1");
        reveal_strlit("2");
        reveal_strlit("3");
        reveal_strlit("4");
        reveal_strlit("5");
        reveal_strlit("6");
        reveal_strlit("7");
        reveal_strlit("8");
        reveal_strlit("9");
    }
    if d == 0 {
        "0"
    } else if d == 1 {
        "1"
    } else if d == 2 {
        "2"
    } else if d == 3 {
        "3"
    } else if d == 4 {
        "4"
    } else if d == 5 {
        "5"
    } else if d == 6 {
        "6"
    } else if d == 7 {
        "7"
    } else if d == 8 {
        "8"
    } else {
        "9"
    }
}

/// Writes `n` in decimal, without sign or leading zeros.
pub fn decimal_text(n: u64) -> (text: String)
    ensures
        text@ == decimal_digits(n as nat),
{
    let mut text = String::from_str(digit_text(n % 10));
    let mut rest: u64 = n / 10;
    while rest > 0
        invariant
            rest > 0 ==> decimal_digits(n as nat) == decimal_digits(rest as nat) + text@,
            rest == 0 ==> text@ == decimal_digits(n as nat),
        decreases rest,
    {
        let front = String::from_str(digit_text(rest % 10));
        text = front.concat(text.as_str());
        rest = rest / 10;
    }
    text
}

/// The error that reports `fault` for the size string `shown`.
fn report(fault: SizeFault, shown: &str, suffix: &str) -> (e: RddError)
    ensures
        e@ == Fault::Config(fault_text(fault, shown@, suffix@)),
{
    let text = match fault {
        SizeFault::Empty => String::from_str("Size string cannot be empty."),
        SizeFault::InvalidNumber => {
            let mut text = String::from_str("Invalid numeric value in size: '");
            text.append(shown);
            text.append("'");
            text
        },
        SizeFault::UnknownSuffix => {
            let mut text = String::from_str("Unknown size suffix: '");
            text.append(suffix);
            text.append("'");
            text
        },
        SizeFault::Overflow => {
            let mut text = String::from_str("Size value '");
            text.append(shown);
            text.append("' is too large and would overflow.");
            text
        },
        SizeFault::TooLarge => {
            let limit = decimal_text(usize::MAX as u64);
            let mut text = String::from_str("Size value '");
            text.append(shown);
            text.append("' is too large for this system's architecture (max is ");
            text.append(limit.as_str());
            text.append(" bytes).");
            text
        },
    };
    RddError::Config(text)
}

/// The factor that the unit letter `c` stands for.
fn unit_factor(c: char) -> (factor: Option<u64>)
    ensures
        multiplier(seq![c]) == multiplier(seq![c, 'b']),
        match factor {
            Some(f) => multiplier(seq![c]) == Some(f as nat),
            None => multiplier(seq![c]) is None,
        },
{
    let factor: Option<u64> = if c == 'k' {
        Some(0x400)
    } else if c == 'm' {
        Some(0x10_0000)
    } else if c == 'g' {
        Some(0x4000_0000)
    } else if c == 't' {
        Some(0x100_0000_0000)
    } else {
        None
    };
    proof {
        let one = seq![c];
        let two = seq![c, 'b'];
        assert(one.len() == 1 && one[0] == c);
        assert(two.len() == 2 && two[0] == c && two[1] == 'b');
    }
    factor
}

/// Reads a size string that is already trimmed (`shown`) and lower-cased
/// (`lowered`): digits, then an optional suffix. `shown` only serves to
/// report a failure in the user's own words.
pub fn parse_normalized_size(shown: &str, lowered: &str) -> (r: RddResult<usize>)
    ensures
        match size_of(lowered@) {
            Ok(n) => r == Ok::<usize, RddError>(n as usize),
            Err(fault) => r is Err && r->Err_0@ == Fault::Config(
                fault_text(fault, shown@, suffix_part(lowered@)),
            ),
        },
{
    let total = lowered.unicode_len();
    let mut it = lowered.chars();
    let mut run: usize = 0;
    let mut number: u64 = 0;
    let mut unit: Option<char> = None;
    assert(lowered@.skip(0) == lowered@);
    loop
        invariant_except_break
            it.remaining() == lowered@.skip(run as int),
            leading_digits(lowered@) == run + leading_digits(lowered@.skip(run as int)),
            unit is None,
        invariant
            total == lowered@.len(),
            run <= total,
            number == decimal_value(lowered@.take(run as int)),
        ensures
            leading_digits(lowered@) == run,
            match unit {
                Some(c) => run < total && c == lowered@[run as int] && it.remaining()
                    == lowered@.skip(run + 1),
                None => run == total,
            },
        decreases total - run,
    {
        let ghost tail = lowered@.skip(run as int);
        match it.next() {
            None => {
                break ;
            },
            Some(c) => {
                assert(c == lowered@[run as int]);
                assert(tail.drop_first() == lowered@.skip(run + 1));
                if c >= '0' && c <= '9' {
                    let d: u64 = (c as u32 - '0' as u32) as u64;
                    let grown = match number.checked_mul(10) {
                        Some(tens) => tens.checked_add(d),
                        None => None,
                    };
                    proof {
                        assert(lowered@.take(run + 1).drop_last() == lowered@.take(run as int));
                    }
                    match grown {
                        Some(v) => {
                            number = v;
                            run = run + 1;
                        },
                        None => {
                            proof {
                                lemma_leading_digits_run(lowered@);
                                lemma_decimal_value_grows(
                                    lowered@,
                                    run + 1,
                                    leading_digits(lowered@) as int,
                                );
                            }
                            return Err(report(SizeFault::InvalidNumber, shown, ""));
                        },
                    }
                } else {
                    unit = Some(c);
                    break ;
                }
            },
        }
    }
    if run == 0 {
        return Err(report(SizeFault::InvalidNumber, shown, ""));
    }
    let ghost suffix = suffix_part(lowered@);
    let factor: Option<u64> = match unit {
        None => {
            assert(suffix =~= Seq::<char>::empty());
            Some(1)
        },
        Some(c) => {
            assert(suffix.len() == total - run && suffix[0] == c);
            if total - run == 1 {
                assert(suffix =~= seq![c]);
                unit_factor(c)
            } else if total - run == 2 {
                match it.next() {
                    Some(b) => {
                        assert(b == suffix[1]);
                        if b == 'b' {
                            assert(suffix =~= seq![c, 'b']);
                            unit_factor(c)
                        } else {
                            None
                        }
                    },
                    None => None,
                }
            } else {
                None
            }
        },
    };
    match factor {
        None => {
            let suffix = lowered.substring_char(run, total);
            Err(report(SizeFault::UnknownSuffix, shown, suffix))
        },
        Some(f) => match number.checked_mul(f) {
            None => Err(report(SizeFault::Overflow, shown, "")),
            Some(bytes) => match usize::try_from(bytes) {
                Ok(size) => Ok(size),
                Err(_) => Err(report(SizeFault::TooLarge, shown, "")),
            },
        },
    }
}

/// What `str::trim` leaves of a string: the same characters without the
/// whitespace, as Unicode defines it, at either end.
pub uninterp spec fn trimmed(s: Seq<char>) -> Seq<char>;

/// What `str::to_lowercase` makes of a string: its lower-case form, as
/// Unicode defines it.
pub uninterp spec fn lowercased(s: Seq<char>) -> Seq<char>;

/// `str::trim` depends on the characters of its argument alone. Which
/// characters count as whitespace is left to the standard library.
pub assume_specification[ str::trim ](s: &str) -> (t: &str)
    ensures
        t@ == trimmed(s@),
;

/// `str::to_lowercase` depends on the characters of its argument alone. The
/// mapping itself is left to the standard library.
pub assume_specification[ str::to_lowercase ](s: &str) -> (l: String)
    ensures
        l@ == lowercased(s@),
;

/// The byte count that the size string `s` denotes, or the first reason why
/// it denotes none.
pub open spec fn size_outcome(s: Seq<char>) -> Result<nat, SizeFault> {
    if trimmed(s).len() == 0 {
        Err(SizeFault::Empty)
    } else {
        size_of(lowercased(trimmed(s)))
    }
}

/// The text of the error that a size string is turned down with.
pub open spec fn size_fault_text(fault: SizeFault, s: Seq<char>) -> Seq<char> {
    fault_text(fault, trimmed(s), suffix_part(lowercased(trimmed(s))))
}

/// Parses a size such as `512k`, `1M` or `2G` into a number of bytes.
///
/// Surrounding whitespace and the case of the suffix do not matter. Every
/// failure is a configuration error whose text names the cause.
pub fn parse_size(s: &str) -> (r: RddResult<usize>)
    ensures
        match size_outcome(s@) {
            Ok(n) => r == Ok::<usize, RddError>(n as usize),
            Err(fault) => r is Err && r->Err_0@ == Fault::Config(size_fault_text(fault, s@)),
        },
{
    let shown = s.trim();
    if shown.is_empty() {
        return Err(report(SizeFault::Empty, shown, ""));
    }
    let lowered = shown.to_lowercase();
    parse_normalized_size(shown, lowered.as_str())
}

} // verus!
