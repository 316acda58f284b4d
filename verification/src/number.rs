//! Signed decimal integers as text: reading one and writing one.

use vstd::prelude::*;
use vstd::string::StringExecFns;

verus! {

/// Whether `c` is one of the ten decimal digits.
pub open spec fn is_digit(c: char) -> bool {
    '0' <= c && c <= '9'
}

/// The number that a decimal digit stands for.
pub open spec fn digit_value(c: char) -> int {
    c as u32 - '0' as u32
}

/// The decimal digit for a number below ten.
pub open spec fn digit_char(d: int) -> char {
    if d == 0 {
        '0'
    } else if d == 1 {
        '1'
    } else if d == 2 {
        '2'
    } else if d == 3 {
        '3'
    } else if d == 4 {
        '4'
    } else if d == 5 {
        '5'
    } else if d == 6 {
        '6'
    } else if d == 7 {
        '7'
    } else if d == 8 {
        '8'
    } else {
        '9'
    }
}

/// Whether `s` holds decimal digits only.
pub open spec fn all_digits(s: Seq<char>) -> bool {
    forall|k: int| 0 <= k < s.len() ==> is_digit(#[trigger] s[k])
}

/// The number that a sequence of decimal digits stands for; the empty one stands for 0.
pub open spec fn digits_value(s: Seq<char>) -> int
    decreases s.len(),
{
    if s.len() == 0 {
        0
    } else {
        10 * digits_value(s.drop_last()) + digit_value(s.last())
    }
}

/// The integer that `s` spells, if it spells one that fits in 64 bits: an optional sign,
/// `+` or `-`, and then one decimal digit or more, and nothing else.
pub open spec fn parse_int(s: Seq<char>) -> Option<int> {
    let signed = s.len() > 0 && (s[0] == '-' || s[0] == '+');
    let digits = if signed {
        s.subrange(1, s.len() as int)
    } else {
        s
    };
    let n = if s.len() > 0 && s[0] == '-' {
        -digits_value(digits)
    } else {
        digits_value(digits)
    };
    if digits.len() > 0 && all_digits(digits) && i64::MIN <= n <= i64::MAX {
        Some(n)
    } else {
        None
    }
}

/// The decimal digits of a natural number, without leading zeros.
pub open spec fn nat_text(n: nat) -> Seq<char>
    decreases n,
{
    if n < 10 {
        seq![digit_char(n as int)]
    } else {
        nat_text(n / 10).push(digit_char((n % 10) as int))
    }
}

/// The canonical text of an integer: its decimal digits, after a `-` if it is negative.
pub open spec fn int_text(n: int) -> Seq<char> {
    if n < 0 {
        seq!['-'] + nat_text((-n) as nat)
    } else {
        nat_text(n as nat)
    }
}

/// The view of an optional 64-bit integer.
pub open spec fn int_view(r: Option<i64>) -> Option<int> {
    match r {
        Some(n) => Some(n as int),
        None => None,
    }
}

/// A sequence of digits stands for a number that is not negative, and for no less than
/// any of its prefixes does.
pub proof fn lemma_digits_value_grows(s: Seq<char>, k: int)
    requires
        all_digits(s),
        0 <= k <= s.len(),
    ensures
        0 <= digits_value(s.take(k)) <= digits_value(s),
    decreases s.len() - k,
{
    lemma_digits_value_bounds(s.take(k));
    if k < s.len() {
        lemma_digits_value_grows(s, k + 1);
        let t = s.take(k + 1);
        assert(t.drop_last() =~= s.take(k));
    } else {
        assert(s.take(k) =~= s);
    }
}

/// A sequence of digits stands for a number that is not negative.
pub proof fn lemma_digits_value_bounds(s: Seq<char>)
    requires
        all_digits(s),
    ensures
        0 <= digits_value(s),
    decreases s.len(),
{
    if s.len() > 0 {
        lemma_digits_value_bounds(s.drop_last());
    }
}

/// Reads the integer that the characters of `v` from `from` up to `to` spell.
pub fn read_int(v: &Vec<char>, from: usize, to: usize) -> (r: Option<i64>)
    requires
        from <= to <= v.len(),
    ensures
        int_view(r) == parse_int(v@.subrange(from as int, to as int)),
{
    let ghost s = v@.subrange(from as int, to as int);
    if from == to {
        return None;
    }
    let negative = v[from] == '-';
    let first: usize = if negative || v[from] == '+' {
        from + 1
    } else {
        from
    };
    let ghost digits = v@.subrange(first as int, to as int);
    assert(digits =~= if s[0] == '-' || s[0] == '+' {
        s.subrange(1, s.len() as int)
    } else {
        s
    });
    if first == to {
        return None;
    }
    let mut magnitude: u128 = 0;
    let mut at: usize = first;
    while at < to
        invariant
            from <= first <= at <= to <= v.len(),
            from < to,
            s == v@.subrange(from as int, to as int),
            digits == v@.subrange(first as int, to as int),
            digits == if s[0] == '-' || s[0] == '+' {
                s.subrange(1, s.len() as int)
            } else {
                s
            },
            all_digits(digits.take(at - first)),
            magnitude == digits_value(digits.take(at - first)),
            magnitude <= 0x8000_0000_0000_0000,
        decreases to - at,
    {
        let c = v[at];
        let ghost next = digits.take(at - first + 1);
        proof {
            assert(next.drop_last() =~= digits.take(at - first));
            assert(next.last() == c);
        }
        if !('0' <= c && c <= '9') {
            return None;
        }
        magnitude = magnitude * 10 + (c as u32 - '0' as u32) as u128;
        if magnitude > 0x8000_0000_0000_0000 {
            proof {
                if all_digits(digits) {
                    lemma_digits_value_grows(digits, at - first + 1);
                }
            }
            return None;
        }
        at += 1;
    }
    assert(digits.take(at - first) =~= digits);
    if negative {
        Some((0 - magnitude as i128) as i64)
    } else if magnitude <= 0x7fff_ffff_ffff_ffff {
        Some(magnitude as i64)
    } else {
        None
    }
}

/// The text of one decimal digit.
fn digit_str(d: u64) -> (r: &'static str)
    requires
        d < 10,
    ensures
        r@ == seq![digit_char(d as int)],
{
    proof {
        reveal_strlit("0");
        reveal_strlit("1");
        reveal_strlit("2");
        reveal_strlit("3");
        reveal_strlit("4");
        reveal_strlit("5");
        reveal_strlit("6");
        reveal_strlit("7");
        reveal_strlit("8");
        reveal_strlit("9");
    }
    match d {
        0 => "0",
        1 => "1",
        2 => "2",
        3 => "3",
        4 => "4",
        5 => "5",
        6 => "6",
        7 => "7",
        8 => "8",
        _ => "9",
    }
}

/// Appends the decimal digits of `n` to `out`.
fn write_nat(out: &mut String, n: u64)
    ensures
        final(out)@ == old(out)@ + nat_text(n as nat),
    decreases n,
{
    if n >= 10 {
        write_nat(out, n / 10);
    }
    let ghost before = out@;
    out.append(digit_str(n % 10));
    proof {
        if n >= 10 {
            assert(before + seq![digit_char((n % 10) as int)] =~= old(out)@ + nat_text(
                (n / 10) as nat,
            ).push(digit_char((n % 10) as int)));
        }
    }
}

/// Writes an integer as its canonical text.
pub fn write_int(n: i64) -> (r: String)
    ensures
        r@ == int_text(n as int),
{
    let mut out = String::new();
    proof {
        reveal_strlit("-");
    }
    if n < 0 {
        out.append("-");
        write_nat(&mut out, (0 - n as i128) as u64);
    } else {
        write_nat(&mut out, n as u64);
    }
    out
}

/// The digits of a natural number are digits, at least one, and stand for the number.
pub proof fn lemma_nat_text(n: nat)
    ensures
        nat_text(n).len() > 0,
        all_digits(nat_text(n)),
        digits_value(nat_text(n)) == n,
    decreases n,
{
    if n < 10 {
        let s = nat_text(n);
        assert(digits_value(s.drop_last()) == 0);
    } else {
        lemma_nat_text(n / 10);
        let s = nat_text(n);
        assert(s.drop_last() =~= nat_text(n / 10));
    }
}

/// The canonical text of an integer is not empty and holds digits and `-` only.
pub proof fn lemma_int_text_chars(n: int)
    ensures
        int_text(n).len() > 0,
        forall|k: int|
            0 <= k < int_text(n).len() ==> is_digit(#[trigger] int_text(n)[k]) || int_text(n)[k]
                == '-',
{
    if n < 0 {
        lemma_nat_text((-n) as nat);
    } else {
        lemma_nat_text(n as nat);
    }
}

/// The canonical text of an integer that fits in 64 bits spells that integer.
pub proof fn law_int_text_reads_back(n: int)
    requires
        i64::MIN <= n <= i64::MAX,
    ensures
        parse_int(int_text(n)) == Some(n),
{
    let s = int_text(n);
    if n < 0 {
        lemma_nat_text((-n) as nat);
        assert(s.subrange(1, s.len() as int) =~= nat_text((-n) as nat));
    } else {
        lemma_nat_text(n as nat);
    }
}

} // verus!
