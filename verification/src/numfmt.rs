//! Decimal and octal renderings of machine integers, and decimal parsing.
//! Id maps, mount options and `/proc` map files are all assembled from
//! these.

use vstd::prelude::*;

verus! {

/// The character for one digit value below ten.
pub open spec fn dec_digit_char(d: nat) -> char {
    if d == 0 {
        '0'
    } else if d == 1 {
        '1'
    } else if d == 2 {
        '2'
    } else if d == 3 {
        '3'
    } else if d == 4 {
        '4'
    } else if d == 5 {
        '5'
    } else if d == 6 {
        '6'
    } else if d == 7 {
        '7'
    } else if d == 8 {
        '8'
    } else {
        '9'
    }
}

/// The decimal rendering of `n`, most significant digit first.
pub open spec fn dec_chars(n: nat) -> Seq<char>
    decreases n,
{
    if n < 10 {
        seq![dec_digit_char(n)]
    } else {
        dec_chars(n / 10).push(dec_digit_char(n % 10))
    }
}

/// The octal rendering of `n`, most significant digit first, no prefix.
pub open spec fn oct_chars(n: nat) -> Seq<char>
    decreases n,
{
    if n < 8 {
        seq![dec_digit_char(n)]
    } else {
        oct_chars(n / 8).push(dec_digit_char(n % 8))
    }
}

/// The one-character string for a digit value below ten.
pub fn dec_digit_str(d: u32) -> (r: &'static str)
    requires
        d < 10,
    ensures
        r@ == seq![dec_digit_char(d as nat)],
{
    if d == 0 {
        proof {
            reveal_strlit("0");
            assert("0"@ =~= seq!['0']);
        }
        "0"
    } else if d == 1 {
        proof {
            reveal_strlit("1");
            assert("1"@ =~= seq!['1']);
        }
        "1"
    } else if d == 2 {
        proof {
            reveal_strlit("2");
            assert("2"@ =~= seq!['2']);
        }
        "2"
    } else if d == 3 {
        proof {
            reveal_strlit("3");
            assert("3"@ =~= seq!['3']);
        }
        "3"
    } else if d == 4 {
        proof {
            reveal_strlit("4");
            assert("4"@ =~= seq!['4']);
        }
        "4"
    } else if d == 5 {
        proof {
            reveal_strlit("5");
            assert("5"@ =~= seq!['5']);
        }
        "5"
    } else if d == 6 {
        proof {
            reveal_strlit("6");
            assert("6"@ =~= seq!['6']);
        }
        "6"
    } else if d == 7 {
        proof {
            reveal_strlit("7");
            assert("7"@ =~= seq!['7']);
        }
        "7"
    } else if d == 8 {
        proof {
            reveal_strlit("8");
            assert("8"@ =~= seq!['8']);
        }
        "8"
    } else {
        proof {
            reveal_strlit("9");
            assert("9"@ =~= seq!['9']);
        }
        "9"
    }
}

/// Renders `n` in decimal.
pub fn u32_to_dec(n: u32) -> (r: String)
    ensures
        r@ == dec_chars(n as nat),
    decreases n,
{
    if n < 10 {
        dec_digit_str(n).to_owned()
    } else {
        let mut s = u32_to_dec(n / 10);
        s.append(dec_digit_str(n % 10));
        proof {
            assert(dec_chars((n / 10) as nat) + seq![dec_digit_char((n % 10) as nat)] =~= dec_chars(
                (n / 10) as nat,
            ).push(dec_digit_char((n % 10) as nat)));
        }
        s
    }
}

/// Renders `n` in octal, without a radix prefix.
pub fn u32_to_oct(n: u32) -> (r: String)
    ensures
        r@ == oct_chars(n as nat),
    decreases n,
{
    if n < 8 {
        dec_digit_str(n).to_owned()
    } else {
        let mut s = u32_to_oct(n / 8);
        s.append(dec_digit_str(n % 8));
        proof {
            assert(oct_chars((n / 8) as nat) + seq![dec_digit_char((n % 8) as nat)] =~= oct_chars(
                (n / 8) as nat,
            ).push(dec_digit_char((n % 8) as nat)));
        }
        s
    }
}

pub open spec fn is_dec_digit(c: char) -> bool {
    '0' as u32 <= c as u32 && c as u32 <= '9' as u32
}

pub open spec fn dec_digit_val(c: char) -> nat {
    (c as u32 - '0' as u32) as nat
}

/// The value of a digit string, most significant digit first.
pub open spec fn dec_value(s: Seq<char>) -> nat
    decreases s.len(),
{
    if s.len() == 0 {
        0
    } else {
        dec_value(s.drop_last()) * 10 + dec_digit_val(s.last())
    }
}

pub open spec fn all_dec_digits(s: Seq<char>) -> bool {
    forall|k: int| 0 <= k < s.len() ==> is_dec_digit(#[trigger] s[k])
}

/// The digit portion of a decimal numeral: an optional leading plus sign is
/// skipped, as the standard library's integer parsing does.
pub open spec fn numeral_digits(s: Seq<char>) -> Seq<char> {
    if s.len() > 0 && s[0] == '+' {
        s.drop_first()
    } else {
        s
    }
}

/// `s` is a numeral that a 32-bit unsigned integer can hold.
pub open spec fn is_u32_numeral(s: Seq<char>) -> bool {
    let d = numeral_digits(s);
    d.len() > 0 && all_dec_digits(d) && dec_value(d) <= u32::MAX
}

/// A decimal rendering is nonempty and made of digit characters.
pub proof fn lemma_dec_chars_digits(n: nat)
    ensures
        dec_chars(n).len() >= 1,
        forall|k: int| 0 <= k < dec_chars(n).len() ==> is_dec_digit(#[trigger] dec_chars(n)[k]),
    decreases n,
{
    if n < 10 {
        assert(dec_chars(n)[0] == dec_digit_char(n));
        assert(is_dec_digit(dec_digit_char(n)));
    } else {
        lemma_dec_chars_digits(n / 10);
        assert(is_dec_digit(dec_digit_char(n % 10)));
        assert forall|k: int| 0 <= k < dec_chars(n).len() implies is_dec_digit(
            #[trigger] dec_chars(n)[k],
        ) by {
            if k < dec_chars(n / 10).len() {
                assert(dec_chars(n)[k] == dec_chars(n / 10)[k]);
            }
        }
    }
}

/// The value of a longer digit string is at least the value of any prefix.
proof fn lemma_dec_value_prefix(s: Seq<char>, i: int)
    requires
        0 <= i <= s.len(),
    ensures
        dec_value(s.take(i)) <= dec_value(s),
    decreases s.len() - i,
{
    if i == s.len() {
        assert(s.take(i) =~= s);
    } else {
        lemma_dec_value_prefix(s.drop_last(), i);
        assert(s.drop_last().take(i) =~= s.take(i));
        assert(dec_value(s.drop_last()) * 10 >= dec_value(s.drop_last()));
    }
}

/// Parses a decimal numeral, with an optional leading plus sign.
pub fn parse_u32(s: &str) -> (r: Option<u32>)
    ensures
        r is Some <==> is_u32_numeral(s@),
        r is Some ==> r->0 as nat == dec_value(numeral_digits(s@)),
{
    let n = s.unicode_len();
    let start: usize = if n > 0 && s.get_char(0) == '+' {
        1
    } else {
        0
    };
    proof {
        if start == 1 {
            assert(numeral_digits(s@) =~= s@.skip(1));
        } else {
            assert(numeral_digits(s@) =~= s@);
        }
    }
    if start == n {
        return None;
    }
    let ghost d = numeral_digits(s@);
    let mut acc: u64 = 0;
    let mut i: usize = start;
    while i < n
        invariant
            n == s@.len(),
            start <= i <= n,
            start < n,
            start == 0 || start == 1,
            d == numeral_digits(s@),
            d =~= s@.skip(start as int),
            acc as nat == dec_value(d.take(i - start)),
            acc <= u32::MAX,
            all_dec_digits(d.take(i - start)),
        decreases n - i,
    {
        let c = s.get_char(i);
        let v = c as u32;
        if v < '0' as u32 || v > '9' as u32 {
            proof {
                assert(d[i - start] == s@[i as int]);
                assert(!is_dec_digit(d[i - start]));
            }
            return None;
        }
        let dv: u64 = (v - '0' as u32) as u64;
        let next: u64 = acc * 10 + dv;
        proof {
            assert(d.take(i + 1 - start) =~= d.take(i - start).push(d[i - start]));
            assert(d.take(i + 1 - start).drop_last() =~= d.take(i - start));
        }
        if next > u32::MAX as u64 {
            proof {
                lemma_dec_value_prefix(d, i + 1 - start);
            }
            return None;
        }
        acc = next;
        i += 1;
    }
    proof {
        assert(d.take(n - start) =~= d);
    }
    Some(acc as u32)
}

} // verus!
