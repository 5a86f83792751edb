//! The throughput cap `Speed`: an exact byte rate or an uncapped sentinel,
//! with a parser for its human-entered textual form and a formatter back
//! into a human-readable string.
//!
//! The two directions are deliberately asymmetric: the formatter may print a
//! fractional quotient that the parser does not accept, so a formatted value
//! need not parse back.

use vstd::arithmetic::div_mod::lemma_fundamental_div_mod;
use vstd::arithmetic::div_mod::lemma_mod_multiples_basic;
use vstd::arithmetic::div_mod::lemma_mod_multiples_vanish;
use vstd::arithmetic::div_mod::lemma_mul_mod_noop_left;
use vstd::arithmetic::div_mod::lemma_small_mod;
use vstd::arithmetic::power2::lemma2_to64;
use vstd::arithmetic::power2::lemma_pow2_unfold;
use vstd::arithmetic::power2::pow2;
use vstd::prelude::*;
use vstd::string::StrSliceExecFns;
use vstd::string::StringExecFns;

use crate::text::all_digits;
use crate::text::dec_seq;
use crate::text::dec_string;
use crate::text::digit_char;
use crate::text::digit_str;
use crate::text::digit_val;
use crate::text::is_digit;
use crate::text::lemma_numeral_val_prepend;
use crate::text::numeral_val;
use crate::text::parse_usize;
use crate::text::pow10;
use crate::text::spec_numeral;
use crate::text::str_eq;

verus! {

/// A throughput cap: an exact byte rate, or no cap at all.
///
/// `Bps` never holds a value produced by wrapping arithmetic: overflow while
/// parsing is reported as an error, never as a truncated rate.
#[derive(Debug, Clone, PartialEq, Eq, Structural)]
pub enum Speed {
    /// An exact byte rate, in bytes per second.
    Bps(usize),
    /// No throughput cap.
    PassThrough,
}

/// The three characters `Bps` end `s`.
pub open spec fn has_bps_suffix(s: Seq<char>) -> bool {
    s.len() >= 3 && s[s.len() - 3] == 'B' && s[s.len() - 2] == 'p' && s[s.len() - 1] == 's'
}

/// True of the three unit letters that select a binary scale.
pub open spec fn is_scale_char(c: char) -> bool {
    c == 'K' || c == 'M' || c == 'G'
}

/// The multiplier that a unit letter selects.
pub open spec fn scale_of(c: char) -> nat {
    if c == 'K' {
        1024
    } else if c == 'M' {
        1048576
    } else if c == 'G' {
        1073741824
    } else {
        1
    }
}

/// Reads `digits` as a numeral and applies `scale`, detecting overflow.
pub open spec fn spec_parse_scaled(digits: Seq<char>, scale: nat) -> Result<Speed, Seq<char>> {
    match spec_numeral(digits) {
        Err(m) => Err(m),
        Ok(v) => if v * scale > usize::MAX {
            Err("overflow"@)
        } else {
            Ok(Speed::Bps((v * scale) as usize))
        },
    }
}

/// What `Speed::from_str` returns on the characters of its input: the parsed
/// speed, or the text of the error.
///
/// The grammar, checked in this order: the exact string `pass_through`; a
/// numeral ending in `Bps`, optionally with a `K`, `M` or `G` scale letter
/// before the suffix; a bare numeral.
pub open spec fn spec_parse(s: Seq<char>) -> Result<Speed, Seq<char>> {
    if s == "pass_through"@ {
        Ok(Speed::PassThrough)
    } else if has_bps_suffix(s) {
        let body = s.take(s.len() - 3);
        if body.len() == 0 {
            Err("Invalid speed"@)
        } else if is_scale_char(body.last()) {
            spec_parse_scaled(body.drop_last(), scale_of(body.last()))
        } else {
            spec_parse_scaled(body, 1)
        }
    } else {
        spec_parse_scaled(s, 1)
    }
}

/// The digits after the decimal point of `rem / div`, read off one at a
/// time until the remainder is exhausted, `fuel` bounding the recursion.
pub open spec fn frac_seq(rem: nat, div: nat, fuel: nat) -> Seq<char>
    decreases fuel,
{
    if rem == 0 || fuel == 0 || div == 0 {
        Seq::empty()
    } else {
        seq![digit_char(rem * 10 / div)] + frac_seq(rem * 10 % div, div, (fuel - 1) as nat)
    }
}

/// `b / div` printed exactly: the integer quotient, then the fractional
/// digits when the division does not come out even. A remainder over a
/// power-of-two divisor no larger than two to the thirtieth is exhausted
/// within thirty digits, so that fuel never truncates.
pub open spec fn scaled_seq(b: nat, div: nat) -> Seq<char> {
    if b % div == 0 {
        dec_seq(b / div)
    } else {
        dec_seq(b / div) + seq!['.'] + frac_seq(b % div, div, 30)
    }
}

/// What `Speed::format` prints: a threshold ladder on the raw byte count,
/// the quotient by the chosen scale printed exactly.
pub open spec fn spec_format(sp: Speed) -> Seq<char> {
    match sp {
        Speed::PassThrough => "PassThrough"@,
        Speed::Bps(b) => if b < 1024 {
            dec_seq(b as nat) + "Bps"@
        } else if b < 1048576 {
            scaled_seq(b as nat, 1024) + "KBps"@
        } else if b < 1073741824 {
            scaled_seq(b as nat, 1048576) + "MBps"@
        } else {
            scaled_seq(b as nat, 1073741824) + "GBps"@
        },
    }
}

/// Prints `b / div` exactly in decimal, `div` one of the three binary scales.
#[verifier::loop_isolation(false)]
fn format_scaled(b: usize, div: usize) -> (r: String)
    requires
        div == 1024 || div == 1048576 || div == 1073741824,
    ensures
        r@ == scaled_seq(b as nat, div as nat),
{
    let q = b / div;
    let rem0 = b % div;
    let mut out = dec_string(q as u64);
    if rem0 == 0 {
        return out;
    }
    out.append(".");
    proof {
        reveal_strlit(".");
        assert("."@ =~= seq!['.']);
        assert(out@ + frac_seq(rem0 as nat, div as nat, 30) =~= scaled_seq(b as nat, div as nat));
    }
    let mut rem = rem0;
    let mut fuel: usize = 30;
    while rem != 0 && fuel != 0
        invariant
            rem < div,
            out@ + frac_seq(rem as nat, div as nat, fuel as nat) == scaled_seq(
                b as nat,
                div as nat,
            ),
        decreases fuel,
    {
        let r10: u64 = (rem as u64) * 10;
        let d = (r10 / (div as u64)) as usize;
        let ghost prev: Seq<char> = out@;
        out.append(digit_str(d));
        rem = (r10 % (div as u64)) as usize;
        fuel = fuel - 1;
        proof {
            assert(out@ + frac_seq(rem as nat, div as nat, fuel as nat) =~= prev + frac_seq(
                (r10 as nat) % (div as nat),
                div as nat,
                fuel as nat,
            ).insert(0, digit_char((r10 as nat) / (div as nat))));
        }
    }
    proof {
        assert(out@ + frac_seq(rem as nat, div as nat, fuel as nat) =~= out@);
    }
    out
}

/// Within `fuel` digits the expansion of `rem / div` is exhausted when
/// `div` divides `rem` times two to the `fuel`: every printed character is
/// a digit, the last is not zero, and the digits read back as a numeral
/// stand exactly for the remainder.
proof fn lemma_frac_seq_exact_rec(rem: nat, div: nat, fuel: nat)
    requires
        0 < rem < div,
        (rem * pow2(fuel)) % div == 0,
    ensures
        1 <= frac_seq(rem, div, fuel).len() <= fuel,
        all_digits(frac_seq(rem, div, fuel)),
        frac_seq(rem, div, fuel).last() != '0',
        numeral_val(frac_seq(rem, div, fuel)) * div == rem * pow10(frac_seq(rem, div, fuel).len()),
    decreases fuel,
{
    if fuel == 0 {
        lemma2_to64();
        lemma_small_mod(rem, div);
        assert(false);
    } else {
        let d = rem * 10 / div;
        let rem2 = rem * 10 % div;
        lemma_fundamental_div_mod((rem * 10) as int, div as int);
        assert(rem * 10 == div * d + rem2);
        assert(d < 10) by (nonlinear_arith)
            requires
                0 < div,
                rem < div,
                rem * 10 == div * d + rem2,
                0 <= rem2,
                0 <= d,
        ;
        let dc = digit_char(d);
        assert(is_digit(dc) && digit_val(dc) == d);
        let frac = frac_seq(rem, div, fuel);
        if rem2 == 0 {
            assert(frac_seq(rem2, div, (fuel - 1) as nat) == Seq::<char>::empty());
            assert(frac =~= seq![dc]);
            assert(d != 0) by (nonlinear_arith)
                requires
                    rem * 10 == div * d + rem2,
                    rem2 == 0,
                    0 < rem,
                    0 <= d,
            ;
            assert(seq![dc].drop_last() =~= Seq::<char>::empty());
            assert(numeral_val(Seq::<char>::empty()) == 0);
            assert(numeral_val(frac) == d);
            assert(pow10(0) == 1);
            assert(pow10(1) == 10);
            assert(numeral_val(frac) * div == rem * pow10(frac.len()));
        } else {
            let p = pow2((fuel - 1) as nat);
            lemma_pow2_unfold(fuel);
            assert(rem * 10 * p == (rem * pow2(fuel)) * 5) by (nonlinear_arith)
                requires
                    pow2(fuel) == 2 * p,
            ;
            lemma_mul_mod_noop_left((rem * pow2(fuel)) as int, 5, div as int);
            assert((rem * 10 * p) % div == 0);
            assert(rem2 * p + div * (d * p) == rem * 10 * p) by (nonlinear_arith)
                requires
                    rem * 10 == div * d + rem2,
            ;
            lemma_mod_multiples_vanish((d * p) as int, (rem2 * p) as int, div as int);
            assert((rem2 * p) % div == 0);
            lemma_frac_seq_exact_rec(rem2, div, (fuel - 1) as nat);
            let frac2 = frac_seq(rem2, div, (fuel - 1) as nat);
            assert(frac == seq![dc] + frac2);
            assert forall|i: int| 0 <= i < frac.len() implies is_digit(#[trigger] frac[i]) by {
                if i > 0 {
                    assert(frac[i] == frac2[i - 1]);
                }
            }
            assert(frac.last() == frac2.last());
            lemma_numeral_val_prepend(dc, frac2);
            let l2 = frac2.len();
            assert(pow10(l2 + 1) == 10 * pow10(l2));
            assert(numeral_val(frac) * div == rem * pow10(frac.len())) by (nonlinear_arith)
                requires
                    numeral_val(frac) == d * pow10(l2) + numeral_val(frac2),
                    numeral_val(frac2) * div == rem2 * pow10(l2),
                    rem * 10 == div * d + rem2,
                    pow10(l2 + 1) == 10 * pow10(l2),
                    frac.len() == l2 + 1,
            ;
        }
    }
}

/// Law: the fuel in `scaled_seq` never truncates. Over each of the three
/// binary scales a positive remainder is exhausted within thirty digits,
/// every printed character is a digit, the last is not zero, and the digits
/// read back as a numeral stand exactly for the remainder over the divisor.
pub proof fn lemma_frac_digits_exact(rem: nat, div: nat)
    requires
        0 < rem < div,
        div == 1024 || div == 1048576 || div == 1073741824,
    ensures
        1 <= frac_seq(rem, div, 30).len() <= 30,
        all_digits(frac_seq(rem, div, 30)),
        frac_seq(rem, div, 30).last() != '0',
        numeral_val(frac_seq(rem, div, 30)) * div == rem * pow10(frac_seq(rem, div, 30).len()),
{
    lemma2_to64();
    if div == 1024 {
        assert(rem * pow2(30) == (rem * 1048576) * 1024) by (nonlinear_arith)
            requires
                pow2(30) == 1073741824,
        ;
        lemma_mod_multiples_basic((rem * 1048576) as int, 1024);
    } else if div == 1048576 {
        assert(rem * pow2(30) == (rem * 1024) * 1048576) by (nonlinear_arith)
            requires
                pow2(30) == 1073741824,
        ;
        lemma_mod_multiples_basic((rem * 1024) as int, 1048576);
    } else {
        lemma_mod_multiples_basic(rem as int, 1073741824);
    }
    lemma_frac_seq_exact_rec(rem, div, 30);
}

/// Scaling a numeral never yields the uncapped sentinel.
proof fn lemma_parse_scaled_not_pass_through(digits: Seq<char>, scale: nat)
    ensures
        spec_parse_scaled(digits, scale) != Ok::<Speed, Seq<char>>(Speed::PassThrough),
{
}

/// Law: only the exact string `pass_through` parses to `PassThrough`; any
/// other casing or spelling yields another variant or an error.
pub proof fn lemma_pass_through_exact(s: Seq<char>)
    ensures
        (spec_parse(s) == Ok::<Speed, Seq<char>>(Speed::PassThrough)) <==> (s == "pass_through"@),
{
    if s != "pass_through"@ {
        if has_bps_suffix(s) {
            let body = s.take(s.len() - 3);
            if body.len() == 0 {
            } else if is_scale_char(body.last()) {
                lemma_parse_scaled_not_pass_through(body.drop_last(), scale_of(body.last()));
            } else {
                lemma_parse_scaled_not_pass_through(body, 1);
            }
        } else {
            lemma_parse_scaled_not_pass_through(s, 1);
        }
    }
}

/// Law: when the numeral before a scale letter reads successfully but the
/// scaled value would exceed the largest representable byte rate, parsing
/// reports the overflow error; the value is never wrapped or truncated.
pub proof fn lemma_scale_overflow_is_error(s: Seq<char>, v: nat)
    requires
        has_bps_suffix(s),
        s.len() > 3,
        is_scale_char(s[s.len() - 4]),
        spec_numeral(s.take(s.len() - 3).drop_last()) == Ok::<nat, Seq<char>>(v),
        v * scale_of(s[s.len() - 4]) > usize::MAX,
    ensures
        spec_parse(s) == Err::<Speed, Seq<char>>("overflow"@),
{
    reveal_strlit("pass_through");
    if s == "pass_through"@ {
        assert(s[s.len() - 1] == 'h');
        assert(false);
    }
    let body = s.take(s.len() - 3);
    assert(body.last() == s[s.len() - 4]);
}

impl Speed {
    /// Parses a human-entered throughput cap: `pass_through` for no cap, or
    /// a decimal byte rate with an optional `K`, `M` or `G` binary scale
    /// letter before a `Bps` suffix. Returns exactly what `spec_parse` says
    /// of the input, the error text included.
    pub fn from_str(s: &str) -> (r: Result<Speed, String>)
        ensures
            (match spec_parse(s@) {
                Ok(v) => r matches Ok(sp) && sp == v,
                Err(m) => r matches Err(e) && e@ == m,
            }),
    {
        if str_eq(s, "pass_through") {
            return Ok(Speed::PassThrough);
        }
        let n = s.unicode_len();
        let bps_suffix = n >= 3 && s.get_char(n - 3) == 'B' && s.get_char(n - 2) == 'p'
            && s.get_char(n - 1) == 's';
        if bps_suffix {
            let body_len = n - 3;
            if body_len == 0 {
                proof {
                    assert(s@.take(s@.len() - 3).len() == 0);
                }
                return Err(String::from_str("Invalid speed"));
            }
            let last = s.get_char(body_len - 1);
            let (digits_len, scale): (usize, usize) = if last == 'K' {
                (body_len - 1, 1024)
            } else if last == 'M' {
                (body_len - 1, 1048576)
            } else if last == 'G' {
                (body_len - 1, 1073741824)
            } else {
                (body_len, 1)
            };
            proof {
                let body = s@.take(s@.len() - 3);
                assert(body.last() == s@[body_len - 1]);
                if is_scale_char(body.last()) {
                    assert(s@.subrange(0, digits_len as int) =~= body.drop_last());
                } else {
                    assert(s@.subrange(0, digits_len as int) =~= body);
                }
            }
            match parse_usize(s, 0, digits_len) {
                Err(e) => Err(e),
                Ok(v) => match v.checked_mul(scale) {
                    Some(total) => Ok(Speed::Bps(total)),
                    None => Err(String::from_str("overflow")),
                },
            }
        } else {
            proof {
                assert(s@.subrange(0, n as int) =~= s@);
            }
            match parse_usize(s, 0, n) {
                Err(e) => Err(e),
                Ok(v) => Ok(Speed::Bps(v)),
            }
        }
    }

    /// Formats the cap for people: `PassThrough`, a plain `Bps` count below
    /// one binary kilobyte, and otherwise the rate scaled to `KBps`, `MBps`
    /// or `GBps` with the quotient printed exactly. Total: every speed has
    /// a text.
    pub fn format(&self) -> (r: String)
        ensures
            r@ == spec_format(*self),
    {
        match self {
            Speed::PassThrough => String::from_str("PassThrough"),
            Speed::Bps(b) => {
                let b = *b;
                if b < 1024 {
                    dec_string(b as u64).concat("Bps")
                } else if b < 1048576 {
                    format_scaled(b, 1024).concat("KBps")
                } else if b < 1073741824 {
                    format_scaled(b, 1048576).concat("MBps")
                } else {
                    format_scaled(b, 1073741824).concat("GBps")
                }
            },
        }
    }
}

} // verus!
