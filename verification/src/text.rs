//! Decimal numerals over character sequences: what a digit string is worth,
//! how an unsigned integer is read the way `usize::from_str` reads one, and
//! how an integer is printed back in decimal.

use vstd::prelude::*;
use vstd::string::StrSliceExecFns;
use vstd::string::StringExecFns;

verus! {

/// True of the ten ASCII digit characters.
pub open spec fn is_digit(c: char) -> bool {
    48 <= c as u32 <= 57
}

/// The value of one ASCII digit character.
pub open spec fn digit_val(c: char) -> nat {
    (c as u32 - 48) as nat
}

/// The character that prints the decimal digit `d`.
pub open spec fn digit_char(d: nat) -> char {
    if d == 0 {
        '0'
    } else if d == 1 {
        '1'
    } else if d == 2 {
        '2'
    } else if d == 3 {
        '3'
    } else if d == 4 {
        '4'
    } else if d == 5 {
        '5'
    } else if d == 6 {
        '6'
    } else if d == 7 {
        '7'
    } else if d == 8 {
        '8'
    } else {
        '9'
    }
}

/// Every character of `s` is a decimal digit.
pub open spec fn all_digits(s: Seq<char>) -> bool {
    forall|i: int| 0 <= i < s.len() ==> is_digit(#[trigger] s[i])
}

/// The digits of `s` after an optional single leading `'+'` sign.
pub open spec fn digits_part(s: Seq<char>) -> Seq<char> {
    if s.len() > 0 && s[0] == '+' {
        s.drop_first()
    } else {
        s
    }
}

/// The value of a digit string read in base 10.
pub open spec fn numeral_val(s: Seq<char>) -> nat
    decreases s.len(),
{
    if s.len() == 0 {
        0
    } else {
        numeral_val(s.drop_last()) * 10 + digit_val(s.last())
    }
}

/// How `usize::from_str` reads `s`: its value when `s` is a well-formed
/// unsigned decimal numeral whose value fits, otherwise the text of the
/// error reported.
pub open spec fn spec_numeral(s: Seq<char>) -> Result<nat, Seq<char>> {
    if s.len() == 0 {
        Err("cannot parse integer from empty string"@)
    } else if digits_part(s).len() == 0 || !all_digits(digits_part(s)) {
        Err("invalid digit found in string"@)
    } else if numeral_val(digits_part(s)) > usize::MAX {
        Err("number too large to fit in target type"@)
    } else {
        Ok(numeral_val(digits_part(s)))
    }
}

/// The decimal numeral of `n`: no sign, no leading zeros, `"0"` for zero.
pub open spec fn dec_seq(n: nat) -> Seq<char>
    decreases n,
{
    if n < 10 {
        seq![digit_char(n)]
    } else {
        dec_seq(n / 10) + seq![digit_char(n % 10)]
    }
}

/// Ten to the `n`.
pub open spec fn pow10(n: nat) -> nat
    decreases n,
{
    if n == 0 {
        1
    } else {
        10 * pow10((n - 1) as nat)
    }
}

/// Prepending a digit adds its value at the highest decimal place.
pub proof fn lemma_numeral_val_prepend(c: char, t: Seq<char>)
    ensures
        numeral_val(seq![c] + t) == digit_val(c) * pow10(t.len()) + numeral_val(t),
    decreases t.len(),
{
    let s = seq![c] + t;
    assert(numeral_val(Seq::<char>::empty()) == 0);
    if t.len() == 0 {
        assert(t =~= Seq::<char>::empty());
        assert(s =~= seq![c]);
        assert(s.drop_last() =~= Seq::<char>::empty());
        assert(s.last() == c);
        assert(numeral_val(s) == digit_val(c));
        assert(pow10(t.len()) == 1);
        assert(numeral_val(s) == digit_val(c) * pow10(t.len()) + numeral_val(t));
    } else {
        assert(s.drop_last() =~= seq![c] + t.drop_last());
        assert(s.last() == t.last());
        assert(numeral_val(t) == numeral_val(t.drop_last()) * 10 + digit_val(t.last()));
        assert(numeral_val(s) == numeral_val(s.drop_last()) * 10 + digit_val(s.last()));
        lemma_numeral_val_prepend(c, t.drop_last());
        assert(numeral_val(seq![c] + t.drop_last()) == digit_val(c) * pow10(
            (t.len() - 1) as nat,
        ) + numeral_val(t.drop_last()));
        assert((digit_val(c) * pow10((t.len() - 1) as nat) + numeral_val(t.drop_last())) * 10
            == digit_val(c) * (10 * pow10((t.len() - 1) as nat)) + numeral_val(t.drop_last())
            * 10) by (nonlinear_arith);
        assert(pow10(t.len()) == 10 * pow10((t.len() - 1) as nat));
        assert(numeral_val(s) == digit_val(c) * pow10(t.len()) + numeral_val(t));
    }
}

/// Reading one more digit multiplies the value so far by ten and adds it.
pub proof fn lemma_numeral_val_take_succ(s: Seq<char>, i: int)
    requires
        0 <= i < s.len(),
    ensures
        numeral_val(s.take(i + 1)) == numeral_val(s.take(i)) * 10 + digit_val(s[i]),
{
    assert(s.take(i + 1).drop_last() =~= s.take(i));
    assert(s.take(i + 1).last() == s[i]);
}

/// The one-character string that prints the decimal digit `d`.
pub fn digit_str(d: usize) -> (r: &'static str)
    requires
        d < 10,
    ensures
        r@ == seq![digit_char(d as nat)],
{
    if d == 0 {
        proof {
            reveal_strlit("0");
            assert("0"@ =~= seq![digit_char(0)]);
        }
        "0"
    } else if d == 1 {
        proof {
            reveal_strlit("1");
            assert("1"@ =~= seq![digit_char(1)]);
        }
        "1"
    } else if d == 2 {
        proof {
            reveal_strlit("2");
            assert("2"@ =~= seq![digit_char(2)]);
        }
        "2"
    } else if d == 3 {
        proof {
            reveal_strlit("3");
            assert("3"@ =~= seq![digit_char(3)]);
        }
        "3"
    } else if d == 4 {
        proof {
            reveal_strlit("4");
            assert("4"@ =~= seq![digit_char(4)]);
        }
        "4"
    } else if d == 5 {
        proof {
            reveal_strlit("5");
            assert("5"@ =~= seq![digit_char(5)]);
        }
        "5"
    } else if d == 6 {
        proof {
            reveal_strlit("6");
            assert("6"@ =~= seq![digit_char(6)]);
        }
        "6"
    } else if d == 7 {
        proof {
            reveal_strlit("7");
            assert("7"@ =~= seq![digit_char(7)]);
        }
        "7"
    } else if d == 8 {
        proof {
            reveal_strlit("8");
            assert("8"@ =~= seq![digit_char(8)]);
        }
        "8"
    } else {
        proof {
            reveal_strlit("9");
            assert("9"@ =~= seq![digit_char(9)]);
        }
        "9"
    }
}

/// Prints `n` in decimal.
pub fn dec_string(n: u64) -> (r: String)
    ensures
        r@ == dec_seq(n as nat),
    decreases n,
{
    if n < 10 {
        String::from_str(digit_str(n as usize))
    } else {
        let prefix = dec_string(n / 10);
        prefix.concat(digit_str((n % 10) as usize))
    }
}

/// Compares two strings character by character.
pub fn str_eq(a: &str, b: &str) -> (r: bool)
    ensures
        r == (a@ == b@),
{
    let alen = a.unicode_len();
    let blen = b.unicode_len();
    if alen != blen {
        return false;
    }
    let mut i: usize = 0;
    while i < alen
        invariant
            alen == a@.len(),
            blen == b@.len(),
            alen == blen,
            i <= alen,
            forall|j: int| 0 <= j < i ==> a@[j] == b@[j],
        decreases alen - i,
    {
        if a.get_char(i) != b.get_char(i) {
            return false;
        }
        i += 1;
    }
    proof {
        assert(a@ =~= b@);
    }
    true
}

/// Reads the characters of `s` from `from` (inclusive) to `to` (exclusive)
/// as `usize::from_str` reads a numeral: an optional leading `'+'`, then
/// decimal digits whose value must fit in `usize`.
#[verifier::loop_isolation(false)]
pub fn parse_usize(s: &str, from: usize, to: usize) -> (r: Result<usize, String>)
    requires
        from <= to <= s@.len(),
    ensures
        (match spec_numeral(s@.subrange(from as int, to as int)) {
            Ok(v) => r matches Ok(u) && u as nat == v,
            Err(m) => r matches Err(e) && e@ == m,
        }),
{
    let ghost whole: Seq<char> = s@.subrange(from as int, to as int);
    if from == to {
        return Err(String::from_str("cannot parse integer from empty string"));
    }
    let first = s.get_char(from);
    let start: usize = if first == '+' {
        from + 1
    } else {
        from
    };
    let ghost digits: Seq<char> = s@.subrange(start as int, to as int);
    proof {
        assert(digits =~= digits_part(whole));
    }
    if start == to {
        return Err(String::from_str("invalid digit found in string"));
    }
    let mut i: usize = start;
    let mut acc: usize = 0;
    let mut overflowed: bool = false;
    while i < to
        invariant
            from <= start <= i <= to <= s@.len(),
            digits == s@.subrange(start as int, to as int),
            digits.len() == to - start,
            all_digits(digits.take(i - start)),
            !overflowed ==> acc as nat == numeral_val(digits.take(i - start)),
            overflowed ==> numeral_val(digits.take(i - start)) > usize::MAX,
        decreases to - i,
    {
        let c = s.get_char(i);
        let cv = c as u32;
        proof {
            assert(digits[i - start] == s@[i as int]);
        }
        if cv < 48 || cv > 57 {
            proof {
                assert(!is_digit(digits[i - start]));
                assert(!all_digits(digits));
            }
            return Err(String::from_str("invalid digit found in string"));
        }
        let d = (cv - 48) as usize;
        proof {
            lemma_numeral_val_take_succ(digits, i - start);
            assert(digits.take(i - start + 1).drop_last() =~= digits.take(i - start));
        }
        if !overflowed {
            match acc.checked_mul(10) {
                Some(m) => match m.checked_add(d) {
                    Some(v) => {
                        acc = v;
                    },
                    None => {
                        overflowed = true;
                    },
                },
                None => {
                    overflowed = true;
                },
            }
        }
        i += 1;
    }
    proof {
        assert(digits.take(to - start) =~= digits);
    }
    if overflowed {
        return Err(String::from_str("number too large to fit in target type"));
    }
    Ok(acc)
}

} // verus!
