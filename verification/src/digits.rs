//! Decimal rendering of integers.
//!
//! Cache paths and remote URLs embed the modification token of a
//! documentation set as its decimal digits; the rendering is specified
//! exactly so that path contracts can speak about the full path text.

use vstd::prelude::*;

verus! {

/// The character for one decimal digit value.
pub open spec fn digit_char(d: int) -> char {
    if d == 0 {
        '0'
    } else if d == 1 {
        '1'
    } else if d == 2 {
        '2'
    } else if d == 3 {
        '3'
    } else if d == 4 {
        '4'
    } else if d == 5 {
        '5'
    } else if d == 6 {
        '6'
    } else if d == 7 {
        '7'
    } else if d == 8 {
        '8'
    } else {
        '9'
    }
}

/// Decimal rendering of a natural number, most significant digit first,
/// without leading zeros (zero itself renders as a single digit).
pub open spec fn dec_seq(n: nat) -> Seq<char>
    decreases n,
{
    if n < 10 {
        seq![digit_char(n as int)]
    } else {
        dec_seq(n / 10) + seq![digit_char((n % 10) as int)]
    }
}

/// Decimal rendering of a signed number: a minus sign before the magnitude.
pub open spec fn dec_seq_signed(n: int) -> Seq<char> {
    if n >= 0 {
        dec_seq(n as nat)
    } else {
        seq!['-'] + dec_seq((-n) as nat)
    }
}

/// Every decimal rendering is non-empty and starts with a digit character.
pub proof fn lemma_dec_seq_shape(n: nat)
    ensures
        dec_seq(n).len() >= 1,
        '0' <= dec_seq(n)[0] <= '9',
    decreases n,
{
    if n >= 10 {
        lemma_dec_seq_shape(n / 10);
    }
}

/// Distinct numbers render as distinct digit sequences.
pub proof fn lemma_dec_seq_injective(a: nat, b: nat)
    requires
        dec_seq(a) == dec_seq(b),
    ensures
        a == b,
    decreases a + b,
{
    lemma_dec_seq_shape(a);
    lemma_dec_seq_shape(b);
    if a < 10 && b < 10 {
        assert(dec_seq(a)[0] == digit_char(a as int));
        assert(dec_seq(b)[0] == digit_char(b as int));
    } else if a < 10 {
        lemma_dec_seq_shape(b / 10);
        assert(dec_seq(b).len() >= 2);
    } else if b < 10 {
        lemma_dec_seq_shape(a / 10);
        assert(dec_seq(a).len() >= 2);
    } else {
        let la = dec_seq(a).len();
        assert(dec_seq(a).last() == digit_char((a % 10) as int));
        assert(dec_seq(b).last() == digit_char((b % 10) as int));
        assert(a % 10 == b % 10);
        assert(dec_seq(a / 10) =~= dec_seq(a).drop_last());
        assert(dec_seq(b / 10) =~= dec_seq(b).drop_last());
        lemma_dec_seq_injective(a / 10, b / 10);
        assert(a == (a / 10) * 10 + a % 10);
        assert(b == (b / 10) * 10 + b % 10);
    }
}

/// Distinct signed numbers render as distinct character sequences.
pub proof fn lemma_dec_seq_signed_injective(a: int, b: int)
    requires
        dec_seq_signed(a) == dec_seq_signed(b),
    ensures
        a == b,
{
    if a >= 0 && b >= 0 {
        lemma_dec_seq_injective(a as nat, b as nat);
    } else if a < 0 && b < 0 {
        assert(seq!['-'] + dec_seq((-a) as nat) == seq!['-'] + dec_seq((-b) as nat));
        assert(dec_seq((-a) as nat) =~= (seq!['-'] + dec_seq((-a) as nat)).drop_first());
        assert(dec_seq((-b) as nat) =~= (seq!['-'] + dec_seq((-b) as nat)).drop_first());
        lemma_dec_seq_injective((-a) as nat, (-b) as nat);
    } else if a >= 0 {
        lemma_dec_seq_shape(a as nat);
        assert(dec_seq_signed(b)[0] == '-');
        assert(false);
    } else {
        lemma_dec_seq_shape(b as nat);
        assert(dec_seq_signed(a)[0] == '-');
        assert(false);
    }
}

/// The digits of `ds`, least significant first, read back as characters in
/// display order.
spec fn rev_digit_chars(ds: Seq<u64>) -> Seq<char> {
    Seq::new(ds.len(), |i: int| digit_char(ds[ds.len() - 1 - i] as int))
}

proof fn lemma_rev_digit_chars_push(ds: Seq<u64>, d: u64)
    ensures
        rev_digit_chars(ds.push(d)) == seq![digit_char(d as int)] + rev_digit_chars(ds),
{
    assert(rev_digit_chars(ds.push(d)) =~= seq![digit_char(d as int)] + rev_digit_chars(ds));
}

fn digit_str(d: u64) -> (s: &'static str)
    requires
        d < 10,
    ensures
        s@ == seq![digit_char(d as int)],
{
    proof {
        reveal_strlit("0");
        reveal_strlit("1");
        reveal_strlit("2");
        reveal_strlit("3");
        reveal_strlit("4");
        reveal_strlit("5");
        reveal_strlit("6");
        reveal_strlit("7");
        reveal_strlit("8");
        reveal_strlit("9");
    }
    let s: &'static str = if d == 0 {
        "0"
    } else if d == 1 {
        "1"
    } else if d == 2 {
        "2"
    } else if d == 3 {
        "3"
    } else if d == 4 {
        "4"
    } else if d == 5 {
        "5"
    } else if d == 6 {
        "6"
    } else if d == 7 {
        "7"
    } else if d == 8 {
        "8"
    } else {
        "9"
    };
    proof {
        assert(s@ =~= seq![digit_char(d as int)]);
    }
    s
}

/// Renders an unsigned number as its decimal digits.
pub fn u64_to_dec(n: u64) -> (s: String)
    ensures
        s@ == dec_seq(n as nat),
{
    let mut digits: Vec<u64> = Vec::new();
    let mut m: u64 = n;
    digits.push(m % 10);
    m = m / 10;
    proof {
        if m == 0 {
            assert(dec_seq(n as nat) =~= rev_digit_chars(digits@));
        } else {
            assert(dec_seq(n as nat) =~= dec_seq(m as nat) + rev_digit_chars(digits@));
        }
    }
    while m != 0
        invariant
            forall|k: int| 0 <= k < digits@.len() ==> digits@[k] < 10,
            digits@.len() >= 1,
            dec_seq(n as nat) == (if m == 0 {
                rev_digit_chars(digits@)
            } else {
                dec_seq(m as nat) + rev_digit_chars(digits@)
            }),
        decreases m,
    {
        let ghost old_digits = digits@;
        let ghost old_m = m as nat;
        let d: u64 = m % 10;
        digits.push(d);
        m = m / 10;
        proof {
            lemma_rev_digit_chars_push(old_digits, d);
            assert(old_m / 10 == m as nat);
            assert(old_m % 10 == d as nat);
            if m == 0 {
                assert(old_m < 10);
                assert(dec_seq(old_m) == seq![digit_char(old_m as int)]);
                assert(dec_seq(n as nat) =~= rev_digit_chars(digits@));
            } else {
                assert(old_m >= 10);
                assert(dec_seq(old_m) == dec_seq(old_m / 10) + seq![
                    digit_char((old_m % 10) as int),
                ]);
                assert(dec_seq(n as nat) =~= dec_seq(m as nat) + rev_digit_chars(digits@));
            }
        }
    }
    let mut s = String::new();
    let mut i: usize = digits.len();
    while i > 0
        invariant
            i <= digits@.len(),
            forall|k: int| 0 <= k < digits@.len() ==> digits@[k] < 10,
            dec_seq(n as nat) == rev_digit_chars(digits@),
            s@ == rev_digit_chars(digits@).subrange(0, digits@.len() - i),
        decreases i,
    {
        i = i - 1;
        let ghost old_s = s@;
        s.append(digit_str(digits[i]));
        proof {
            let rev = rev_digit_chars(digits@);
            let k = digits@.len() - 1 - i;
            assert(rev[k] == digit_char(digits@[i as int] as int));
            assert(s@ =~= rev.subrange(0, k + 1));
        }
    }
    proof {
        assert(s@ =~= rev_digit_chars(digits@));
    }
    s
}

/// Renders a signed number as its decimal digits with a leading minus sign
/// when negative.
pub fn i64_to_dec(n: i64) -> (s: String)
    ensures
        s@ == dec_seq_signed(n as int),
{
    if n >= 0 {
        u64_to_dec(n as u64)
    } else {
        let mag: u64 = if n == -9223372036854775808i64 {
            9223372036854775808u64
        } else {
            (-n) as u64
        };
        proof {
            assert(mag as nat == (-(n as int)) as nat);
        }
        let mut s = String::new();
        proof {
            reveal_strlit("-");
        }
        s.append("-");
        let rest = u64_to_dec(mag);
        s.append(rest.as_str());
        proof {
            assert(seq!['-'] =~= "-"@);
            assert(s@ =~= seq!['-'] + dec_seq((-(n as int)) as nat));
        }
        s
    }
}

} // verus!
