//! Decimal numerals: rendering integers as text and reading digit runs,
//! each exactly specified and proved the inverse of the other.

use vstd::prelude::*;

use vstd::string::StringExecFns;

verus! {

/// The digit character for `d` in 0..=9; `0` elsewhere.
pub open spec fn digit_char(d: int) -> char {
    if d == 1 {
        '1'
    } else if d == 2 {
        '2'
    } else if d == 3 {
        '3'
    } else if d == 4 {
        '4'
    } else if d == 5 {
        '5'
    } else if d == 6 {
        '6'
    } else if d == 7 {
        '7'
    } else if d == 8 {
        '8'
    } else if d == 9 {
        '9'
    } else {
        '0'
    }
}

/// The value of a digit character; 10 for a character that is no digit.
pub open spec fn digit_val(c: char) -> int {
    if c == '0' {
        0
    } else if c == '1' {
        1
    } else if c == '2' {
        2
    } else if c == '3' {
        3
    } else if c == '4' {
        4
    } else if c == '5' {
        5
    } else if c == '6' {
        6
    } else if c == '7' {
        7
    } else if c == '8' {
        8
    } else if c == '9' {
        9
    } else {
        10
    }
}

/// Whether a character is a decimal digit.
pub open spec fn is_digit(c: char) -> bool {
    digit_val(c) < 10
}

/// The decimal digits of a natural number, most significant first.
pub open spec fn dec_digits(n: nat) -> Seq<char>
    decreases n,
{
    if n < 10 {
        seq![digit_char(n as int)]
    } else {
        dec_digits(n / 10).push(digit_char((n % 10) as int))
    }
}

/// The decimal rendering of an integer: a minus sign for a negative one,
/// then its digits.
pub open spec fn int_text(x: int) -> Seq<char> {
    if x < 0 {
        seq!['-'] + dec_digits((-x) as nat)
    } else {
        dec_digits(x as nat)
    }
}

/// The number a digit string denotes, read most significant first.
pub open spec fn num_val(ds: Seq<char>) -> int
    decreases ds.len(),
{
    if ds.len() == 0 {
        0
    } else {
        num_val(ds.drop_last()) * 10 + digit_val(ds.last())
    }
}

/// Every character `dec_digits` produces is a digit.
pub proof fn lemma_dec_digits_are_digits(n: nat)
    ensures
        dec_digits(n).len() > 0,
        forall|i: int| 0 <= i < dec_digits(n).len() ==> is_digit(#[trigger] dec_digits(n)[i]),
    decreases n,
{
    if n >= 10 {
        lemma_dec_digits_are_digits(n / 10);
    }
}

/// Reading back the digits of `n` yields `n`: the numeral round trip.
pub proof fn lemma_num_val_of_digits(n: nat)
    ensures
        num_val(dec_digits(n)) == n,
    decreases n,
{
    if n < 10 {
        assert(dec_digits(n) =~= seq![digit_char(n as int)]);
        assert(seq![digit_char(n as int)].drop_last() =~= Seq::<char>::empty());
        assert(num_val(Seq::<char>::empty()) == 0);
        assert(num_val(dec_digits(n)) == 0 * 10 + digit_val(digit_char(n as int)));
    } else {
        lemma_num_val_of_digits(n / 10);
        assert(dec_digits(n).drop_last() =~= dec_digits(n / 10));
    }
}

/// Renders an integer in decimal.
pub fn int_to_text(x: i64) -> (s: String)
    ensures
        s@ == int_text(x as int),
{
    let neg = x < 0;
    let mut m: u64 = if x >= 0 {
        x as u64
    } else {
        ((-(x + 1)) as u64) + 1
    };
    proof {
        if x < 0 {
            assert(m == (-(x as int)) as nat);
        }
    }
    let ghost m0 = m as nat;
    let mut digits: Vec<u64> = Vec::new();
    loop
        invariant_except_break
            digits@.len() == 0 ==> m as nat == m0,
            digits@.len() > 0 ==> m != 0,
            digits@.len() > 0 ==> dec_digits(m0) =~= dec_digits(m as nat) + rev_chars(digits@),
        invariant
            forall|i: int| 0 <= i < digits@.len() ==> #[trigger] digits@[i] < 10,
        ensures
            m == 0,
            digits@.len() > 0,
            dec_digits(m0) =~= rev_chars(digits@),
            forall|i: int| 0 <= i < digits@.len() ==> #[trigger] digits@[i] < 10,
        decreases m, (if digits@.len() == 0 { 1int } else { 0int }),
    {
        let d = m % 10;
        let next = m / 10;
        proof {
            if next == 0 {
                assert(m < 10);
                assert(dec_digits(m as nat) =~= seq![digit_char(d as int)]);
            } else {
                assert(dec_digits(m as nat) =~= dec_digits((m as nat) / 10).push(
                    digit_char(d as int),
                ));
            }
            assert(rev_chars(digits@.push(d)) =~= seq![digit_char(d as int)] + rev_chars(digits@));
            if digits@.len() == 0 {
                if next == 0 {
                    assert(d == m);
                    assert(seq![digit_char(d as int)] + rev_chars(digits@) =~= seq![
                        digit_char(d as int),
                    ]);
                    assert(rev_chars(digits@.push(d)) =~= dec_digits(m0));
                } else {
                    assert(dec_digits(next as nat) + rev_chars(digits@.push(d)) =~= dec_digits(
                        m0,
                    ));
                }
            } else {
                if next == 0 {
                    assert(rev_chars(digits@.push(d)) =~= dec_digits(m0));
                } else {
                    assert(dec_digits(next as nat) + rev_chars(digits@.push(d)) =~= dec_digits(
                        m0,
                    ));
                }
            }
        }
        digits.push(d);
        m = next;
        if m == 0 {
            break;
        }
    }
    let mut s = String::new();
    if neg {
        proof {
            reveal_strlit("-");
        }
        s.append("-");
    }
    let ghost sign: Seq<char> = if neg {
        seq!['-']
    } else {
        Seq::empty()
    };
    let mut i = digits.len();
    while i > 0
        invariant
            i <= digits@.len(),
            forall|j: int| 0 <= j < digits@.len() ==> #[trigger] digits@[j] < 10,
            s@ =~= sign + rev_chars(digits@).take(digits@.len() - i),
        decreases i,
    {
        i = i - 1;
        let d = digits[i];
        let piece: &str = match d {
            0 => "0",
            1 => "1",
            2 => "2",
            3 => "3",
            4 => "4",
            5 => "5",
            6 => "6",
            7 => "7",
            8 => "8",
            _ => "9",
        };
        proof {
            reveal_strlit("0");
            reveal_strlit("1");
            reveal_strlit("2");
            reveal_strlit("3");
            reveal_strlit("4");
            reveal_strlit("5");
            reveal_strlit("6");
            reveal_strlit("7");
            reveal_strlit("8");
            reveal_strlit("9");
            assert(piece@ =~= seq![digit_char(d as int)]);
            assert(rev_chars(digits@)[digits@.len() - 1 - i] == digit_char(d as int));
            assert(rev_chars(digits@).take(digits@.len() - i) =~= rev_chars(digits@).take(
                digits@.len() - i - 1,
            ).push(digit_char(d as int)));
        }
        s.append(piece);
    }
    proof {
        assert(rev_chars(digits@).take(digits@.len() as int) =~= rev_chars(digits@));
        assert(s@ =~= sign + dec_digits(m0));
    }
    s
}

/// The digit characters of a reversed digit-value sequence.
pub open spec fn rev_chars(ds: Seq<u64>) -> Seq<char> {
    Seq::new(ds.len(), |i: int| digit_char(ds[ds.len() - 1 - i] as int))
}

} // verus!
