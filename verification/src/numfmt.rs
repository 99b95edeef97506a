//! Decimal text for the snapshot: non-negative integers print as plain
//! decimal, fixed-point values as a signed decimal with exactly three
//! fractional digits, and the fixed-point form parses back to the value it
//! came from.

use vstd::prelude::*;

verus! {

use crate::fixed::abs_spec;
use crate::fixed::abs_i64;

/// The decimal digit character for `d`.
pub open spec fn digit_char(d: int) -> char {
    if d == 0 {
        '0'
    } else if d == 1 {
        '1'
    } else if d == 2 {
        '2'
    } else if d == 3 {
        '3'
    } else if d == 4 {
        '4'
    } else if d == 5 {
        '5'
    } else if d == 6 {
        '6'
    } else if d == 7 {
        '7'
    } else if d == 8 {
        '8'
    } else {
        '9'
    }
}

/// The decimal representation of `n`, most significant digit first, no
/// leading zeros (a single zero for zero).
pub open spec fn dec_rep(n: nat) -> Seq<char>
    decreases n,
{
    if n < 10 {
        seq![digit_char(n as int)]
    } else {
        dec_rep(n / 10) + seq![digit_char((n % 10) as int)]
    }
}

/// The fixed-point representation: optional sign, integer part, a dot,
/// exactly three fractional digits.
pub open spec fn fixed_rep(v: int) -> Seq<char> {
    let m = abs_spec(v);
    let sign: Seq<char> = if v < 0 {
        seq!['-']
    } else {
        Seq::empty()
    };
    sign + dec_rep((m / 1000) as nat) + seq!['.'] + seq![
        digit_char(m % 1000 / 100),
        digit_char(m % 1000 / 10 % 10),
        digit_char(m % 1000 % 10),
    ]
}

/// Appends one decimal digit character.
fn push_digit(s: &mut String, d: u8)
    requires
        d < 10,
    ensures
        final(s)@ == old(s)@.push(digit_char(d as int)),
{
    let lit: &str = match d {
        0 => "0",
        1 => "1",
        2 => "2",
        3 => "3",
        4 => "4",
        5 => "5",
        6 => "6",
        7 => "7",
        8 => "8",
        _ => "9",
    };
    proof {
        reveal_strlit("0");
        reveal_strlit("1");
        reveal_strlit("2");
        reveal_strlit("3");
        reveal_strlit("4");
        reveal_strlit("5");
        reveal_strlit("6");
        reveal_strlit("7");
        reveal_strlit("8");
        reveal_strlit("9");
    }
    s.append(lit);
    proof {
        assert(s@ =~= old(s)@.push(digit_char(d as int)));
    }
}

/// Appends the decimal representation of `n`.
pub fn push_dec(s: &mut String, n: u128)
    ensures
        final(s)@ == old(s)@ + dec_rep(n as nat),
    decreases n,
{
    if n < 10 {
        push_digit(s, n as u8);
        proof {
            assert(s@ =~= old(s)@ + dec_rep(n as nat));
        }
    } else {
        push_dec(s, n / 10);
        push_digit(s, (n % 10) as u8);
        proof {
            assert(s@ =~= old(s)@ + dec_rep(n as nat));
        }
    }
}

/// Appends the fixed-point representation of `v`.
pub fn push_fixed(s: &mut String, v: i64)
    requires
        v > i64::MIN,
    ensures
        final(s)@ == old(s)@ + fixed_rep(v as int),
{
    if v < 0 {
        s.append("-");
        proof {
            reveal_strlit("-");
        }
    }
    let m = abs_i64(v);
    let ip = (m / 1000) as u128;
    let fr = m % 1000;
    push_dec(s, ip);
    s.append(".");
    proof {
        reveal_strlit(".");
    }
    push_digit(s, (fr / 100) as u8);
    push_digit(s, (fr / 10 % 10) as u8);
    push_digit(s, (fr % 10) as u8);
    proof {
        assert(s@ =~= old(s)@ + fixed_rep(v as int));
    }
}

/// A decimal digit character.
pub open spec fn is_digit(c: char) -> bool {
    48 <= c as u32 <= 57
}

/// The value of one digit character.
pub open spec fn digit_val(c: char) -> int {
    c as u32 - 48
}

/// The digit characters mean their digits.
pub proof fn lemma_digit_char_val(d: int)
    requires
        0 <= d <= 9,
    ensures
        is_digit(digit_char(d)),
        digit_val(digit_char(d)) == d,
{
}

/// Every character is a digit.
pub open spec fn all_digits(s: Seq<char>) -> bool {
    forall|i: int| 0 <= i < s.len() ==> is_digit(#[trigger] s[i])
}

/// The value of a digit string, most significant digit first.
pub open spec fn digits_val(s: Seq<char>) -> int
    decreases s.len(),
{
    if s.len() == 0 {
        0
    } else {
        digits_val(s.drop_last()) * 10 + digit_val(s.last())
    }
}

pub open spec fn pow10(k: nat) -> int
    decreases k,
{
    if k == 0 {
        1
    } else {
        10 * pow10((k - 1) as nat)
    }
}

pub proof fn lemma_pow10_pos(k: nat)
    ensures
        pow10(k) >= 1,
    decreases k,
{
    if k > 0 {
        lemma_pow10_pos((k - 1) as nat);
    }
}

pub proof fn lemma_pow10_mono(a: nat, b: nat)
    requires
        a <= b,
    ensures
        pow10(a) <= pow10(b),
    decreases b,
{
    if a < b {
        lemma_pow10_mono(a, (b - 1) as nat);
        lemma_pow10_pos((b - 1) as nat);
    }
}

pub proof fn lemma_pow10_15()
    ensures
        pow10(15) == 1_000_000_000_000_000,
{
    assert(pow10(0) == 1);
    assert(pow10(1) == 10);
    assert(pow10(2) == 100);
    assert(pow10(3) == 1000);
    assert(pow10(4) == 10_000);
    assert(pow10(5) == 100_000);
    assert(pow10(6) == 1_000_000);
    assert(pow10(7) == 10_000_000);
    assert(pow10(8) == 100_000_000);
    assert(pow10(9) == 1_000_000_000);
    assert(pow10(10) == 10_000_000_000);
    assert(pow10(11) == 100_000_000_000);
    assert(pow10(12) == 1_000_000_000_000);
    assert(pow10(13) == 10_000_000_000_000);
    assert(pow10(14) == 100_000_000_000_000);
    assert(pow10(15) == 1_000_000_000_000_000);
}

/// A digit string's value is bounded by the power of ten of its length.
pub proof fn lemma_digits_val_bound(s: Seq<char>)
    requires
        all_digits(s),
    ensures
        0 <= digits_val(s) < pow10(s.len()),
    decreases s.len(),
{
    if s.len() > 0 {
        assert(all_digits(s.drop_last())) by {
            assert(forall|i: int| 0 <= i < s.len() - 1 ==> s.drop_last()[i] == s[i]);
        }
        lemma_digits_val_bound(s.drop_last());
        assert(is_digit(s.last()));
        assert(0 <= digit_val(s.last()) <= 9);
    }
}

/// The decimal representation evaluates back to the number, consists of
/// digits only, and is never empty.
pub proof fn lemma_dec_rep_val(n: nat)
    ensures
        digits_val(dec_rep(n)) == n,
        all_digits(dec_rep(n)),
        dec_rep(n).len() >= 1,
    decreases n,
{
    if n < 10 {
        lemma_digit_char_val(n as int);
        assert(dec_rep(n) =~= seq![digit_char(n as int)]);
        assert(dec_rep(n).drop_last() =~= Seq::<char>::empty());
        assert(digits_val(Seq::<char>::empty()) == 0);
        assert(dec_rep(n).last() == digit_char(n as int));
        assert(digits_val(dec_rep(n)) == digits_val(dec_rep(n).drop_last()) * 10 + digit_val(
            dec_rep(n).last(),
        ));
    } else {
        lemma_dec_rep_val(n / 10);
        lemma_digit_char_val((n % 10) as int);
        let pre = dec_rep(n / 10);
        assert(dec_rep(n) =~= pre.push(digit_char((n % 10) as int)));
        assert(dec_rep(n).drop_last() =~= pre);
        assert(digit_val(digit_char((n % 10) as int)) == n % 10);
        assert(digits_val(dec_rep(n)) == digits_val(pre) * 10 + (n % 10));
        assert forall|i: int| 0 <= i < dec_rep(n).len() implies is_digit(
            #[trigger] dec_rep(n)[i],
        ) by {
            if i < pre.len() {
                assert(dec_rep(n)[i] == pre[i]);
            } else {
                assert(dec_rep(n)[i] == digit_char((n % 10) as int));
            }
        }
    }
}

/// The representation of `n` has at most `k` digits when `n < 10^k`.
pub proof fn lemma_dec_rep_len(n: nat, k: nat)
    requires
        k >= 1,
        n < pow10(k),
    ensures
        dec_rep(n).len() <= k,
    decreases k,
{
    if n >= 10 {
        assert(pow10(k) == 10 * pow10((k - 1) as nat));
        lemma_dec_rep_len(n / 10, (k - 1) as nat);
    }
}

/// What a fixed-point string means: optional sign, then an integer part of
/// one to fifteen digits, a dot, and exactly three fractional digits.
/// Anything else means nothing.
pub open spec fn parse_fixed_spec(s: Seq<char>) -> Option<int> {
    let neg = s.len() > 0 && s[0] == '-';
    let t = if neg {
        s.skip(1)
    } else {
        s
    };
    if 5 <= t.len() <= 19 && t[t.len() - 4] == '.' && all_digits(t.take(t.len() - 4)) && all_digits(
        t.skip(t.len() - 3),
    ) {
        let m = digits_val(t.take(t.len() - 4)) * 1000 + digits_val(t.skip(t.len() - 3));
        Some(
            if neg {
                -m
            } else {
                m
            },
        )
    } else {
        None
    }
}

/// Round trip: the fixed-point representation of any value the simulation
/// can hold parses back to exactly that value.
#[verifier::rlimit(60)]
pub proof fn lemma_fixed_round_trip(v: int)
    requires
        -1_000_000_000_000_000_000 < v < 1_000_000_000_000_000_000,
    ensures
        parse_fixed_spec(fixed_rep(v)) == Some(v),
{
    let m = abs_spec(v);
    let ip = (m / 1000) as nat;
    let fr = m % 1000;
    lemma_dec_rep_val(ip);
    lemma_pow10_15();
    lemma_dec_rep_len(ip, 15);
    let d = dec_rep(ip);
    let frac = seq![
        digit_char(fr / 100),
        digit_char(fr / 10 % 10),
        digit_char(fr % 10),
    ];
    let t = d + seq!['.'] + frac;
    assert(fixed_rep(v) =~= (if v < 0 {
        seq!['-']
    } else {
        Seq::<char>::empty()
    }) + t);
    if v < 0 {
        assert(fixed_rep(v).skip(1) =~= t);
        assert(fixed_rep(v)[0] == '-');
    } else {
        assert(fixed_rep(v) =~= t);
        assert(is_digit(t[0]));
        assert(t[0] != '-');
    }
    assert(t.len() == d.len() + 4);
    assert(t[t.len() - 4] == '.');
    assert(t.take(t.len() - 4) =~= d);
    assert(t.skip(t.len() - 3) =~= frac);
    assert(0 <= fr < 1000);
    assert(0 <= fr / 100 <= 9 && 0 <= fr / 10 % 10 <= 9 && 0 <= fr % 10 <= 9);
    lemma_digit_char_val(fr / 100);
    lemma_digit_char_val(fr / 10 % 10);
    lemma_digit_char_val(fr % 10);
    assert(all_digits(frac));
    let f2 = seq![digit_char(fr / 100), digit_char(fr / 10 % 10)];
    let f1 = seq![digit_char(fr / 100)];
    assert(frac.drop_last() =~= f2);
    assert(f2.drop_last() =~= f1);
    assert(f1.drop_last() =~= Seq::<char>::empty());
    assert(digits_val(Seq::<char>::empty()) == 0);
    assert(digits_val(f1) == digits_val(f1.drop_last()) * 10 + digit_val(f1.last()));
    assert(digits_val(f1) == fr / 100);
    assert(digits_val(f2) == digits_val(f2.drop_last()) * 10 + digit_val(f2.last()));
    assert(digits_val(f2) == fr / 100 * 10 + fr / 10 % 10);
    assert(digits_val(frac) == digits_val(frac.drop_last()) * 10 + digit_val(frac.last()));
    assert(digits_val(frac) == (fr / 100 * 10 + fr / 10 % 10) * 10 + fr % 10);
    assert((fr / 100 * 10 + fr / 10 % 10) * 10 + fr % 10 == fr) by (nonlinear_arith)
        requires
            0 <= fr < 1000,
    ;
    assert(digits_val(t.take(t.len() - 4)) * 1000 + digits_val(t.skip(t.len() - 3)) == ip * 1000
        + fr);
    assert(ip * 1000 + fr == m);
}

/// Parses a fixed-point decimal string; the meaning is exactly
/// `parse_fixed_spec` of the view.
pub fn parse_fixed(s: &str) -> (r: Option<i64>)
    ensures
        match r {
            Some(v) => parse_fixed_spec(s@) == Some(v as int),
            None => parse_fixed_spec(s@) is None,
        },
{
    let n = s.unicode_len();
    let neg = n > 0 && s.get_char(0) == '-';
    let off: usize = if neg {
        1
    } else {
        0
    };
    let ghost t = if neg {
        s@.skip(1)
    } else {
        s@
    };
    proof {
        assert(t.len() == n - off);
        assert(forall|i: int| 0 <= i < t.len() ==> t[i] == s@[i + off]);
    }
    let tn = n - off;
    if tn < 5 || tn > 19 {
        return None;
    }
    if s.get_char(off + tn - 4) != '.' {
        return None;
    }
    let ipn = tn - 4;
    let mut val: u64 = 0;
    let mut k: usize = 0;
    proof {
        assert(t.take(ipn as int).take(0int) =~= Seq::<char>::empty());
        lemma_pow10_15();
    }
    while k < ipn
        invariant
            ipn == tn - 4,
            5 <= tn <= 19,
            tn == t.len(),
            t.len() == s@.len() - off,
            off == if neg {
                1int
            } else {
                0int
            },
            neg == (s@.len() > 0 && s@[0] == '-'),
            t == if neg {
                s@.skip(1)
            } else {
                s@
            },
            0 <= k <= ipn,
            all_digits(t.take(ipn as int).take(k as int)),
            val == digits_val(t.take(ipn as int).take(k as int)),
            val < pow10(k as nat),
            pow10(15) == 1_000_000_000_000_000,
        decreases ipn - k,
    {
        let c = s.get_char(off + k);
        let cu = c as u32;
        proof {
            assert(t[k as int] == s@[k + off]);
        }
        if cu < 48 || cu > 57 {
            proof {
                assert(t.take(ipn as int)[k as int] == t[k as int]);
                assert(!is_digit(t.take(ipn as int)[k as int]));
            }
            return None;
        }
        let d = (cu - 48) as u64;
        proof {
            let pre = t.take(ipn as int).take(k as int);
            let ext = t.take(ipn as int).take(k + 1);
            assert(ext.drop_last() =~= pre);
            assert(ext.last() == t[k as int]);
            lemma_pow10_mono((k + 1) as nat, 15nat);
            assert(val * 10 + d < pow10((k + 1) as nat));
        }
        val = val * 10 + d;
        k = k + 1;
    }
    proof {
        assert(t.take(ipn as int).take(ipn as int) =~= t.take(ipn as int));
        lemma_pow10_mono(ipn as nat, 15nat);
    }
    let mut fr: u64 = 0;
    let mut j: usize = 0;
    proof {
        assert(t.skip(tn - 3).take(0int) =~= Seq::<char>::empty());
        assert(pow10(3) == 1000) by {
            assert(pow10(0) == 1);
            assert(pow10(1) == 10);
            assert(pow10(2) == 100);
        }
    }
    while j < 3
        invariant
            ipn == tn - 4,
            5 <= tn <= 19,
            tn == t.len(),
            t.len() == s@.len() - off,
            off == if neg {
                1int
            } else {
                0int
            },
            neg == (s@.len() > 0 && s@[0] == '-'),
            t == if neg {
                s@.skip(1)
            } else {
                s@
            },
            0 <= j <= 3,
            all_digits(t.skip(tn - 3).take(j as int)),
            fr == digits_val(t.skip(tn - 3).take(j as int)),
            (j == 0 && fr == 0) || (j == 1 && fr <= 9) || (j == 2 && fr <= 99) || (j == 3 && fr
                <= 999),
        decreases 3 - j,
    {
        let c = s.get_char(off + ipn + 1 + j);
        let cu = c as u32;
        proof {
            assert(t.skip(tn - 3)[j as int] == t[tn - 3 + j]);
            assert(t[tn - 3 + j] == s@[off + ipn + 1 + j]);
        }
        if cu < 48 || cu > 57 {
            proof {
                assert(!is_digit(t.skip(tn - 3)[j as int]));
            }
            return None;
        }
        let d = (cu - 48) as u64;
        proof {
            let pre = t.skip(tn - 3).take(j as int);
            let ext = t.skip(tn - 3).take(j + 1);
            assert(ext.drop_last() =~= pre);
            assert(ext.last() == t.skip(tn - 3)[j as int]);
        }
        fr = fr * 10 + d;
        j = j + 1;
    }
    proof {
        assert(t.skip(tn - 3).take(3int) =~= t.skip(tn - 3));
        assert(pow10(3) == 1000) by {
            assert(pow10(0) == 1);
            assert(pow10(1) == 10);
            assert(pow10(2) == 100);
        }
    }
    let m = (val as i64) * 1000 + (fr as i64);
    if neg {
        Some(-m)
    } else {
        Some(m)
    }
}

} // verus!
