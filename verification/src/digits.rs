//! Verified decimal rendering and parsing for the unsigned integer scalars
//! and for sequence indices.

use vstd::prelude::*;
use vstd::arithmetic::div_mod::lemma_fundamental_div_mod;

verus! {

/// The digit character for a value between 0 and 9.
pub open spec fn digit_char(d: int) -> char {
    if d == 0 {
        '0'
    } else if d == 1 {
        '1'
    } else if d == 2 {
        '2'
    } else if d == 3 {
        '3'
    } else if d == 4 {
        '4'
    } else if d == 5 {
        '5'
    } else if d == 6 {
        '6'
    } else if d == 7 {
        '7'
    } else if d == 8 {
        '8'
    } else {
        '9'
    }
}

/// Numeric value of a digit character.
pub open spec fn digit_val(c: char) -> int {
    c as int - 48
}

pub open spec fn is_digit_char(c: char) -> bool {
    48 <= c as int <= 57
}

pub open spec fn all_digits(s: Seq<char>) -> bool {
    forall|i: int| 0 <= i < s.len() ==> is_digit_char(#[trigger] s[i])
}

/// The number denoted by a digit string, most significant digit first.
pub open spec fn str_to_int(s: Seq<char>) -> int
    decreases s.len(),
{
    if s.len() == 0 {
        0
    } else {
        str_to_int(s.drop_last()) * 10 + digit_val(s.last())
    }
}

/// Decimal rendering of a nonnegative number.
pub open spec fn dec_of(n: int) -> Seq<char>
    decreases n,
{
    if n < 10 {
        seq![digit_char(n)]
    } else {
        dec_of(n / 10) + seq![digit_char(n % 10)]
    }
}

/// A decimal rendering is a nonempty digit string.
pub proof fn lemma_dec_of_shape(n: int)
    requires
        n >= 0,
    ensures
        dec_of(n).len() >= 1,
        all_digits(dec_of(n)),
    decreases n,
{
    if n < 10 {
    } else {
        lemma_dec_of_shape(n / 10);
        assert forall|i: int| 0 <= i < dec_of(n).len() implies is_digit_char(
            #[trigger] dec_of(n)[i],
        ) by {
            if i < dec_of(n / 10).len() {
                assert(dec_of(n)[i] == dec_of(n / 10)[i]);
            }
        }
    }
}

/// Parsing a decimal rendering gives the number back.
pub proof fn lemma_str_to_int_dec_of(n: int)
    requires
        n >= 0,
    ensures
        str_to_int(dec_of(n)) == n,
    decreases n,
{
    if n < 10 {
        assert(dec_of(n).drop_last() =~= Seq::<char>::empty());
        assert(dec_of(n).last() == digit_char(n));
        assert(digit_val(digit_char(n)) == n);
        assert(str_to_int(dec_of(n)) == str_to_int(dec_of(n).drop_last()) * 10 + digit_val(
            dec_of(n).last(),
        ));
        assert(str_to_int(Seq::<char>::empty()) == 0);
    } else {
        lemma_str_to_int_dec_of(n / 10);
        let s = dec_of(n);
        assert(s.drop_last() =~= dec_of(n / 10));
        assert(s.last() == digit_char(n % 10));
        lemma_fundamental_div_mod(n, 10);
    }
}

/// Distinct numbers render distinctly.
pub proof fn lemma_dec_of_injective(a: int, b: int)
    requires
        a >= 0,
        b >= 0,
        dec_of(a) == dec_of(b),
    ensures
        a == b,
{
    lemma_str_to_int_dec_of(a);
    lemma_str_to_int_dec_of(b);
}

pub proof fn lemma_str_to_int_nonneg(s: Seq<char>)
    requires
        all_digits(s),
    ensures
        str_to_int(s) >= 0,
    decreases s.len(),
{
    if s.len() > 0 {
        assert(all_digits(s.drop_last())) by {
            assert(forall|i: int|
                0 <= i < s.len() - 1 ==> s.drop_last()[i] == #[trigger] s[i]);
        }
        lemma_str_to_int_nonneg(s.drop_last());
    }
}

/// A digit string is worth at least as much as any of its prefixes.
pub proof fn lemma_str_to_int_prefix(s: Seq<char>, i: int)
    requires
        all_digits(s),
        0 <= i <= s.len(),
    ensures
        str_to_int(s.subrange(0, i)) <= str_to_int(s),
    decreases s.len() - i,
{
    if i == s.len() {
        assert(s.subrange(0, i) =~= s);
    } else {
        lemma_str_to_int_prefix(s, i + 1);
        assert(s.subrange(0, i + 1).drop_last() =~= s.subrange(0, i));
        assert(all_digits(s.subrange(0, i))) by {
            assert(forall|j: int|
                0 <= j < i ==> s.subrange(0, i)[j] == #[trigger] s[j]);
        }
        lemma_str_to_int_nonneg(s.subrange(0, i));
        assert(str_to_int(s.subrange(0, i + 1)) == str_to_int(s.subrange(0, i)) * 10
            + digit_val(s.subrange(0, i + 1).last()));
    }
}

/// Parses a string of decimal digits; `None` when the string is empty,
/// holds a non-digit, or denotes a number above `u64::MAX`.
pub fn parse_decimal(s: &str) -> (r: Option<u64>)
    ensures
        r is Some <==> (s@.len() > 0 && all_digits(s@) && str_to_int(s@) <= u64::MAX),
        r matches Some(v) ==> v as int == str_to_int(s@),
{
    let n = s.unicode_len();
    if n == 0 {
        return None;
    }
    let mut acc: u64 = 0;
    let mut i: usize = 0;
    while i < n
        invariant
            0 <= i <= n,
            n == s@.len(),
            all_digits(s@.subrange(0, i as int)),
            acc as int == str_to_int(s@.subrange(0, i as int)),
        decreases n - i,
    {
        let c = s.get_char(i);
        let v = c as u32;
        if v < 48 || v > 57 {
            proof {
                assert(!is_digit_char(s@[i as int]));
            }
            return None;
        }
        let d = (v - 48) as u64;
        if acc > (u64::MAX - d) / 10 {
            proof {
                let m = u64::MAX as int;
                let di = d as int;
                lemma_fundamental_div_mod(m - di, 10);
                assert(acc as int * 10 + di > m);
                assert(s@.subrange(0, i + 1 as int).drop_last() =~= s@.subrange(0, i as int));
                assert(s@.subrange(0, i + 1 as int).last() == s@[i as int]);
                assert(str_to_int(s@.subrange(0, i + 1 as int)) > m);
                if all_digits(s@) {
                    lemma_str_to_int_prefix(s@, i + 1 as int);
                    assert(str_to_int(s@) > m);
                }
            }
            return None;
        }
        proof {
            assert(s@.subrange(0, i + 1 as int).drop_last() =~= s@.subrange(0, i as int));
            assert(s@.subrange(0, i + 1 as int).last() == s@[i as int]);
        }
        acc = acc * 10 + d;
        i += 1;
    }
    proof {
        assert(s@.subrange(0, n as int) =~= s@);
    }
    Some(acc)
}

/// A digit is not a separator.
pub proof fn lemma_digits_not_dot(s: Seq<char>)
    requires
        all_digits(s),
    ensures
        forall|i: int| 0 <= i < s.len() ==> #[trigger] s[i] != '.',
{
}

/// Parses a sequence index from its decimal text.
pub fn parse_index(s: &str) -> (r: Option<usize>)
    ensures
        r is Some <==> (s@.len() > 0 && all_digits(s@) && str_to_int(s@) <= usize::MAX),
        r matches Some(v) ==> v as int == str_to_int(s@),
{
    match parse_decimal(s) {
        Some(v) => {
            if v <= usize::MAX as u64 {
                Some(v as usize)
            } else {
                None
            }
        },
        None => None,
    }
}

/// Renders a sequence index in decimal.
pub fn render_index(i: usize) -> (r: String)
    ensures
        r@ == dec_of(i as int),
{
    render_decimal(i as u64)
}

/// The number denoted by an optionally minus-signed digit string.
pub open spec fn signed_str_to_int(s: Seq<char>) -> int {
    if s.len() > 0 && s[0] == '-' {
        -str_to_int(s.drop_first())
    } else {
        str_to_int(s)
    }
}

/// A well-formed signed decimal: digits after an optional leading minus.
pub open spec fn signed_digits(s: Seq<char>) -> bool {
    if s.len() > 0 && s[0] == '-' {
        s.len() > 1 && all_digits(s.drop_first())
    } else {
        s.len() > 0 && all_digits(s)
    }
}

/// Decimal rendering of any integer: a minus sign before the magnitude
/// when negative.
pub open spec fn signed_dec_of(n: int) -> Seq<char> {
    if n < 0 {
        seq!['-'] + dec_of(-n)
    } else {
        dec_of(n)
    }
}

/// Parses an optionally minus-signed decimal into the signed 64-bit range.
pub fn parse_signed(s: &str) -> (r: Option<i64>)
    ensures
        r is Some <==> (signed_digits(s@) && i64::MIN <= signed_str_to_int(s@) <= i64::MAX),
        r matches Some(v) ==> v as int == signed_str_to_int(s@),
{
    let n = s.unicode_len();
    if n == 0 {
        return None;
    }
    if s.get_char(0) == '-' {
        let rest = s.substring_char(1, n);
        proof {
            assert(rest@ =~= s@.drop_first());
        }
        match parse_decimal(rest) {
            Some(v) => {
                if v < 9223372036854775808u64 {
                    Some(-(v as i64))
                } else if v == 9223372036854775808u64 {
                    Some(i64::MIN)
                } else {
                    proof {
                        assert(signed_str_to_int(s@) < i64::MIN);
                    }
                    None
                }
            },
            None => {
                proof {
                    if signed_digits(s@) {
                        lemma_str_to_int_nonneg(s@.drop_first());
                        assert(str_to_int(s@.drop_first()) > u64::MAX);
                        assert(signed_str_to_int(s@) < i64::MIN);
                    }
                }
                None
            },
        }
    } else {
        match parse_decimal(s) {
            Some(v) => {
                if v <= i64::MAX as u64 {
                    Some(v as i64)
                } else {
                    None
                }
            },
            None => {
                proof {
                    if signed_digits(s@) {
                        assert(str_to_int(s@) > u64::MAX);
                    }
                }
                None
            },
        }
    }
}

/// Renders a signed number in decimal.
pub fn render_signed(n: i64) -> (r: String)
    ensures
        r@ == signed_dec_of(n as int),
{
    if n >= 0 {
        let r = render_decimal(n as u64);
        proof {
            assert((n as u64) as int == n as int);
        }
        r
    } else {
        let mag: u64 = if n == i64::MIN {
            9223372036854775808u64
        } else {
            (-n) as u64
        };
        proof {
            assert(mag as int == -(n as int));
        }
        let mut s = String::from_str("-");
        let digits_text = render_decimal(mag);
        s.append(digits_text.as_str());
        proof {
            reveal_strlit("-");
            assert("-"@ =~= seq!['-']);
            assert(s@ =~= seq!['-'] + dec_of(-(n as int)));
        }
        s
    }
}

fn digit_str(d: u64) -> (r: &'static str)
    requires
        d < 10,
    ensures
        r@ == seq![digit_char(d as int)],
{
    match d {
        0 => {
            proof {
                reveal_strlit("0");
                assert("0"@ =~= seq![digit_char(0)]);
            }
            "0"
        },
        1 => {
            proof {
                reveal_strlit("1");
                assert("1"@ =~= seq![digit_char(1)]);
            }
            "1"
        },
        2 => {
            proof {
                reveal_strlit("2");
                assert("2"@ =~= seq![digit_char(2)]);
            }
            "2"
        },
        3 => {
            proof {
                reveal_strlit("3");
                assert("3"@ =~= seq![digit_char(3)]);
            }
            "3"
        },
        4 => {
            proof {
                reveal_strlit("4");
                assert("4"@ =~= seq![digit_char(4)]);
            }
            "4"
        },
        5 => {
            proof {
                reveal_strlit("5");
                assert("5"@ =~= seq![digit_char(5)]);
            }
            "5"
        },
        6 => {
            proof {
                reveal_strlit("6");
                assert("6"@ =~= seq![digit_char(6)]);
            }
            "6"
        },
        7 => {
            proof {
                reveal_strlit("7");
                assert("7"@ =~= seq![digit_char(7)]);
            }
            "7"
        },
        8 => {
            proof {
                reveal_strlit("8");
                assert("8"@ =~= seq![digit_char(8)]);
            }
            "8"
        },
        _ => {
            proof {
                reveal_strlit("9");
                assert("9"@ =~= seq![digit_char(9)]);
            }
            "9"
        },
    }
}

/// Renders a number in decimal.
pub fn render_decimal(n: u64) -> (r: String)
    ensures
        r@ == dec_of(n as int),
    decreases n,
{
    if n < 10 {
        String::from_str(digit_str(n))
    } else {
        let mut s = render_decimal(n / 10);
        s.append(digit_str(n % 10));
        proof {
            assert(s@ =~= dec_of((n / 10) as int) + seq![digit_char((n % 10) as int)]);
        }
        s
    }
}



} // verus!
