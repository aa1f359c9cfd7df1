//! Verified text utilities: character-level string equality, parsing of
//! 32-bit signed integer literals, lexicographic character ordering, and
//! decimal rendering of machine integers.

use vstd::prelude::*;
use vstd::string::StrSliceExecFns;
use vstd::string::StringExecFns;

verus! {

use core::cmp::Ordering;

/// Character-by-character equality of two string slices.
pub fn str_eq(a: &str, b: &str) -> (r: bool)
    ensures
        r == (a@ == b@),
{
    let n = a.unicode_len();
    if n != b.unicode_len() {
        return false;
    }
    let mut i: usize = 0;
    while i < n
        invariant
            n == a@.len(),
            n == b@.len(),
            i <= n,
            forall|j: int| 0 <= j < i ==> a@[j] == b@[j],
        decreases n - i,
    {
        if a.get_char(i) != b.get_char(i) {
            return false;
        }
        i += 1;
    }
    proof {
        assert(a@ =~= b@);
    }
    true
}

/// `c` is one of the ten decimal digit characters.
pub open spec fn is_dec_digit(c: char) -> bool {
    48 <= c as u32 && c as u32 <= 57
}

/// Numeric value of a decimal digit character.
pub open spec fn dec_digit_val(c: char) -> int {
    c as u32 - 48
}

/// Every character of `s` is a decimal digit.
pub open spec fn all_dec_digits(s: Seq<char>) -> bool {
    forall|j: int| 0 <= j < s.len() ==> is_dec_digit(#[trigger] s[j])
}

/// The number denoted by a sequence of decimal digit characters,
/// most significant digit first.
pub open spec fn dec_value(s: Seq<char>) -> int
    decreases s.len(),
{
    if s.len() == 0 {
        0
    } else {
        dec_value(s.drop_last()) * 10 + dec_digit_val(s.last())
    }
}

proof fn lemma_dec_value_nonneg(s: Seq<char>)
    requires
        all_dec_digits(s),
    ensures
        dec_value(s) >= 0,
    decreases s.len(),
{
    if s.len() > 0 {
        assert forall|j: int| 0 <= j < s.drop_last().len() implies is_dec_digit(
            #[trigger] s.drop_last()[j],
        ) by {
            assert(s.drop_last()[j] == s[j]);
        }
        lemma_dec_value_nonneg(s.drop_last());
    }
}

proof fn lemma_dec_value_step(s: Seq<char>, i: int)
    requires
        0 <= i < s.len(),
    ensures
        dec_value(s.take(i + 1)) == dec_value(s.take(i)) * 10 + dec_digit_val(s[i]),
{
    assert(s.take(i + 1).drop_last() =~= s.take(i));
    assert(s.take(i + 1).last() == s[i]);
}

proof fn lemma_dec_value_prefix_le(s: Seq<char>, i: int)
    requires
        all_dec_digits(s),
        0 <= i <= s.len(),
    ensures
        dec_value(s.take(i)) <= dec_value(s),
    decreases s.len() - i,
{
    if i == s.len() {
        assert(s.take(i) =~= s);
    } else {
        lemma_dec_value_step(s, i);
        assert forall|j: int| 0 <= j < s.take(i).len() implies is_dec_digit(
            #[trigger] s.take(i)[j],
        ) by {
            assert(s.take(i)[j] == s[j]);
        }
        lemma_dec_value_nonneg(s.take(i));
        lemma_dec_value_prefix_le(s, i + 1);
    }
}

/// The value denoted by `s` under the standard signed decimal grammar for
/// 32-bit integers: an optional `+` or `-` sign, then one or more decimal
/// digits, the whole value within the 32-bit signed range.
pub open spec fn spec_parse_i32(s: Seq<char>) -> Option<i32> {
    let signed = s.len() > 0 && (s[0] == '-' || s[0] == '+');
    let negative = s.len() > 0 && s[0] == '-';
    let mag = if signed {
        s.skip(1)
    } else {
        s
    };
    if mag.len() == 0 || !all_dec_digits(mag) {
        None
    } else {
        let v = if negative {
            -dec_value(mag)
        } else {
            dec_value(mag)
        };
        if -2147483648 <= v && v <= 2147483647 {
            Some(v as i32)
        } else {
            None
        }
    }
}

/// Parse a 32-bit signed integer literal: optional sign, then decimal digits.
pub fn parse_i32(s: &str) -> (r: Option<i32>)
    ensures
        r == spec_parse_i32(s@),
{
    let n = s.unicode_len();
    if n == 0 {
        return None;
    }
    let c0 = s.get_char(0);
    let negative = c0 == '-';
    let signed = negative || c0 == '+';
    let start: usize = if signed {
        1
    } else {
        0
    };
    let ghost mag = if signed {
        s@.skip(1)
    } else {
        s@
    };
    proof {
        assert(mag =~= s@.subrange(start as int, n as int));
    }
    if start == n {
        // a bare sign has no digits
        return None;
    }
    let mut i: usize = start;
    let mut acc: u64 = 0;
    while i < n
        invariant
            start <= i <= n,
            start < n,
            n == s@.len(),
            start == (if signed { 1int } else { 0int }),
            signed == (s@.len() > 0 && (s@[0] == '-' || s@[0] == '+')),
            negative == (s@.len() > 0 && s@[0] == '-'),
            mag == s@.subrange(start as int, n as int),
            mag == (if signed { s@.skip(1) } else { s@ }),
            acc <= 0x8000_0000,
            all_dec_digits(s@.subrange(start as int, i as int)),
            acc as int == dec_value(s@.subrange(start as int, i as int)),
        decreases n - i,
    {
        let c = s.get_char(i);
        let cu = c as u32;
        if cu < 48 || cu > 57 {
            proof {
                assert(mag[i - start] == s@[i as int]);
            }
            return None;
        }
        let d: u64 = (cu - 48) as u64;
        proof {
            assert(s@.subrange(start as int, i as int + 1).drop_last() =~= s@.subrange(
                start as int,
                i as int,
            ));
            assert(s@.subrange(start as int, i as int + 1).last() == s@[i as int]);
        }
        let next: u64 = acc * 10 + d;
        if next > 0x8000_0000 {
            proof {
                if all_dec_digits(mag) {
                    let p = i + 1 - start;
                    assert(mag.take(p) =~= s@.subrange(start as int, i as int + 1));
                    lemma_dec_value_prefix_le(mag, p);
                }
            }
            return None;
        }
        proof {
            assert forall|j: int| 0 <= j < i + 1 - start implies is_dec_digit(
                #[trigger] s@.subrange(start as int, i as int + 1)[j],
            ) by {
                assert(s@.subrange(start as int, i as int + 1)[j] == s@[start + j]);
                if start + j < i {
                    assert(s@.subrange(start as int, i as int)[j] == s@[start + j]);
                }
            }
        }
        acc = next;
        i += 1;
    }
    proof {
        assert(s@.subrange(start as int, n as int) == mag);
    }
    if negative {
        if acc == 0x8000_0000 {
            Some(i32::MIN)
        } else {
            Some(-(acc as i32))
        }
    } else {
        if acc > 0x7FFF_FFFF {
            None
        } else {
            Some(acc as i32)
        }
    }
}

/// Lexicographic comparison of two character sequences by code point.
pub open spec fn spec_cmp_chars(a: Seq<char>, b: Seq<char>) -> Ordering
    decreases a.len(),
{
    if a.len() == 0 && b.len() == 0 {
        Ordering::Equal
    } else if a.len() == 0 {
        Ordering::Less
    } else if b.len() == 0 {
        Ordering::Greater
    } else if (a[0] as u32) < (b[0] as u32) {
        Ordering::Less
    } else if (b[0] as u32) < (a[0] as u32) {
        Ordering::Greater
    } else {
        spec_cmp_chars(a.skip(1), b.skip(1))
    }
}

/// Compare two string slices lexicographically by code point.
pub fn cmp_str(a: &str, b: &str) -> (r: Ordering)
    ensures
        r == spec_cmp_chars(a@, b@),
{
    let an = a.unicode_len();
    let bn = b.unicode_len();
    let mut i: usize = 0;
    proof {
        assert(a@.skip(0) =~= a@);
        assert(b@.skip(0) =~= b@);
    }
    while i < an && i < bn
        invariant
            i <= an,
            i <= bn,
            an == a@.len(),
            bn == b@.len(),
            spec_cmp_chars(a@, b@) == spec_cmp_chars(a@.skip(i as int), b@.skip(i as int)),
        decreases an - i,
    {
        let ca = a.get_char(i) as u32;
        let cb = b.get_char(i) as u32;
        proof {
            assert(a@.skip(i as int)[0] == a@[i as int]);
            assert(b@.skip(i as int)[0] == b@[i as int]);
        }
        if ca < cb {
            return Ordering::Less;
        }
        if cb < ca {
            return Ordering::Greater;
        }
        proof {
            assert(a@.skip(i as int).skip(1) =~= a@.skip(i as int + 1));
            assert(b@.skip(i as int).skip(1) =~= b@.skip(i as int + 1));
        }
        i += 1;
    }
    if an == bn {
        Ordering::Equal
    } else if an < bn {
        Ordering::Less
    } else {
        Ordering::Greater
    }
}

/// The digit character for a value between zero and nine.
pub open spec fn spec_digit_char(d: int) -> char {
    if d == 0 {
        '0'
    } else if d == 1 {
        '1'
    } else if d == 2 {
        '2'
    } else if d == 3 {
        '3'
    } else if d == 4 {
        '4'
    } else if d == 5 {
        '5'
    } else if d == 6 {
        '6'
    } else if d == 7 {
        '7'
    } else if d == 8 {
        '8'
    } else {
        '9'
    }
}

/// The standard decimal rendering of a natural number, no sign,
/// no leading zeros (except for zero itself).
pub open spec fn spec_decimal(n: nat) -> Seq<char>
    decreases n,
{
    if n < 10 {
        seq![spec_digit_char(n as int)]
    } else {
        spec_decimal(n / 10) + seq![spec_digit_char((n % 10) as int)]
    }
}

fn decimal_digit(d: usize) -> (r: &'static str)
    requires
        d < 10,
    ensures
        r@ == seq![spec_digit_char(d as int)],
{
    proof {
        reveal_strlit("0");
        reveal_strlit("1");
        reveal_strlit("2");
        reveal_strlit("3");
        reveal_strlit("4");
        reveal_strlit("5");
        reveal_strlit("6");
        reveal_strlit("7");
        reveal_strlit("8");
        reveal_strlit("9");
    }
    if d == 0 {
        "0"
    } else if d == 1 {
        "1"
    } else if d == 2 {
        "2"
    } else if d == 3 {
        "3"
    } else if d == 4 {
        "4"
    } else if d == 5 {
        "5"
    } else if d == 6 {
        "6"
    } else if d == 7 {
        "7"
    } else if d == 8 {
        "8"
    } else {
        "9"
    }
}

/// Render a machine integer in standard decimal form.
pub fn usize_to_decimal(n: usize) -> (r: String)
    ensures
        r@ == spec_decimal(n as nat),
{
    let mut out = String::new();
    let mut m = n;
    loop
        invariant_except_break
            out@.len() == 0 ==> m == n,
            out@.len() > 0 ==> m > 0 && spec_decimal(n as nat) == spec_decimal(m as nat) + out@,
        ensures
            out@ == spec_decimal(n as nat),
        decreases m,
    {
        let d = m % 10;
        let piece = decimal_digit(d);
        let prev = out;
        out = String::from_str(piece).concat(prev.as_str());
        let ghost m0 = m as nat;
        m = m / 10;
        if m == 0 {
            proof {
                // m0 is below ten, so its rendering is the digit just emitted
                if prev@.len() == 0 {
                    assert(out@ =~= spec_decimal(n as nat));
                } else {
                    assert(out@ =~= spec_decimal(m0) + prev@);
                }
            }
            break;
        }
        proof {
            // m0 is at least ten: peel its last digit off the rendering
            assert(spec_decimal(m0) == spec_decimal(m0 / 10) + seq![
                spec_digit_char((m0 % 10) as int),
            ]);
            if prev@.len() == 0 {
                assert(out@ =~= seq![spec_digit_char(d as int)]);
                assert(spec_decimal(n as nat) =~= spec_decimal(m as nat) + out@);
            } else {
                assert(spec_decimal(n as nat) =~= spec_decimal(m as nat) + out@) by {
                    assert((spec_decimal(m as nat) + seq![spec_digit_char(d as int)]) + prev@
                        =~= spec_decimal(m as nat) + (seq![spec_digit_char(d as int)] + prev@));
                    assert(out@ =~= seq![spec_digit_char(d as int)] + prev@);
                }
            }
        }
    }
    out
}

} // verus!
