//! Decimal rendering and reading of 64-bit offsets and lengths: dump lines
//! carry offsets as decimal tokens, and block-group labels embed the start
//! offset in decimal.

use vstd::prelude::*;

verus! {

/// Whether `c` is a decimal digit.
pub open spec fn is_digit(c: char) -> bool {
    '0' <= c && c <= '9'
}

/// The numeric value of a digit.
pub open spec fn digit_val(c: char) -> int {
    c as int - '0' as int
}

/// Whether the token is a plain decimal numeral: nonempty and all digits.
pub open spec fn all_digits(s: Seq<char>) -> bool {
    s.len() > 0 && forall|i: int| 0 <= i < s.len() ==> is_digit(#[trigger] s[i])
}

/// The value of a digit string read left to right into an accumulator.
pub open spec fn dec_val_acc(s: Seq<char>, acc: int) -> int
    decreases s.len(),
{
    if s.len() == 0 {
        acc
    } else {
        dec_val_acc(s.drop_first(), acc * 10 + digit_val(s[0]))
    }
}

/// The numeric value of a decimal numeral.
pub open spec fn dec_val(s: Seq<char>) -> int {
    dec_val_acc(s, 0)
}

/// Reading more digits never shrinks the accumulated value.
proof fn lemma_dec_val_acc_grows(s: Seq<char>, acc: int)
    requires
        acc >= 0,
        forall|i: int| 0 <= i < s.len() ==> is_digit(#[trigger] s[i]),
    ensures
        dec_val_acc(s, acc) >= acc,
    decreases s.len(),
{
    if s.len() > 0 {
        lemma_dec_val_acc_grows(s.drop_first(), acc * 10 + digit_val(s[0]));
    }
}

/// Read a `u64` from a decimal token: `Some` exactly on nonempty all-digit
/// tokens whose value fits in 64 bits.
pub fn parse_u64(s: &str) -> (r: Option<u64>)
    ensures
        match r {
            Some(v) => all_digits(s@) && dec_val(s@) == v,
            None => !(all_digits(s@) && dec_val(s@) <= u64::MAX),
        },
{
    let n = s.unicode_len();
    if n == 0 {
        return None;
    }
    let mut i: usize = 0;
    let mut acc: u64 = 0;
    proof {
        assert(s@.skip(0) =~= s@);
    }
    while i < n
        invariant
            n == s@.len(),
            0 <= i <= n,
            forall|j: int| 0 <= j < i ==> is_digit(#[trigger] s@[j]),
            dec_val_acc(s@, 0) == dec_val_acc(s@.skip(i as int), acc as int),
        decreases n - i,
    {
        let c = s.get_char(i);
        if c < '0' || c > '9' {
            return None;
        }
        let d: u64 = (c as u32 as u64) - ('0' as u32 as u64);
        proof {
            assert(s@.skip(i as int)[0] == s@[i as int]);
            assert(s@.skip(i as int).drop_first() =~= s@.skip(i as int + 1));
        }
        if acc > (u64::MAX - d) / 10 {
            proof {
                assert(acc as int * 10 + d as int > u64::MAX) by (nonlinear_arith)
                    requires
                        acc as int > (u64::MAX - d as int) / 10,
                        0 <= d <= 9,
                {}
                if all_digits(s@) {
                    assert forall|j: int|
                        0 <= j < s@.skip(i as int + 1).len() implies is_digit(
                        #[trigger] s@.skip(i as int + 1)[j],
                    ) by {
                        assert(s@.skip(i as int + 1)[j] == s@[i as int + 1 + j]);
                    }
                    lemma_dec_val_acc_grows(s@.skip(i as int + 1), acc as int * 10 + d as int);
                }
            }
            return None;
        }
        proof {
            assert(acc as int * 10 + d as int <= u64::MAX) by (nonlinear_arith)
                requires
                    acc as int <= (u64::MAX - d as int) / 10,
                    0 <= d <= 9,
            {}
        }
        acc = acc * 10 + d;
        i = i + 1;
    }
    proof {
        assert(s@.skip(n as int) =~= Seq::<char>::empty());
    }
    Some(acc)
}

/// The decimal numeral of a nonnegative number, most significant digit
/// first.
pub open spec fn dec_str(n: int) -> Seq<char>
    decreases n,
{
    if n < 10 {
        seq![digit_char(n)]
    } else {
        dec_str(n / 10) + seq![digit_char(n % 10)]
    }
}

/// The digit character for a value below ten.
pub open spec fn digit_char(d: int) -> char {
    if d == 0 {
        '0'
    } else if d == 1 {
        '1'
    } else if d == 2 {
        '2'
    } else if d == 3 {
        '3'
    } else if d == 4 {
        '4'
    } else if d == 5 {
        '5'
    } else if d == 6 {
        '6'
    } else if d == 7 {
        '7'
    } else if d == 8 {
        '8'
    } else {
        '9'
    }
}

/// The one-character string for a digit value.
fn digit_str(d: u64) -> (r: &'static str)
    requires
        d < 10,
    ensures
        r@ == seq![digit_char(d as int)],
{
    proof {
        reveal_strlit("0");
        reveal_strlit("1");
        reveal_strlit("2");
        reveal_strlit("3");
        reveal_strlit("4");
        reveal_strlit("5");
        reveal_strlit("6");
        reveal_strlit("7");
        reveal_strlit("8");
        reveal_strlit("9");
    }
    if d == 0 {
        "0"
    } else if d == 1 {
        "1"
    } else if d == 2 {
        "2"
    } else if d == 3 {
        "3"
    } else if d == 4 {
        "4"
    } else if d == 5 {
        "5"
    } else if d == 6 {
        "6"
    } else if d == 7 {
        "7"
    } else if d == 8 {
        "8"
    } else {
        "9"
    }
}

/// The digit characters of a digit list collected least-significant
/// first, rendered most-significant first.
pub open spec fn digits_seq(ds: Seq<u64>) -> Seq<char>
    decreases ds.len(),
{
    if ds.len() == 0 {
        Seq::empty()
    } else {
        seq![digit_char(ds.last() as int)] + digits_seq(ds.drop_last())
    }
}

/// Render a number in decimal.
pub fn u64_to_string(n: u64) -> (r: String)
    ensures
        r@ == dec_str(n as int),
{
    let mut digits: Vec<u64> = Vec::new();
    let mut rest: u64 = n;
    proof {
        assert(dec_str(n as int) =~= dec_str(rest as int) + digits_seq(digits@));
    }
    while rest >= 10
        invariant
            dec_str(n as int) == dec_str(rest as int) + digits_seq(digits@),
            forall|i: int| 0 <= i < digits@.len() ==> #[trigger] digits@[i] < 10,
        decreases rest,
    {
        let ghost old_digits = digits@;
        let ghost old_rest = rest as int;
        let d = rest % 10;
        rest = rest / 10;
        digits.push(d);
        proof {
            assert(digits@.drop_last() =~= old_digits);
            assert(digits_seq(digits@) =~= seq![digit_char(d as int)] + digits_seq(old_digits));
            assert(dec_str(old_rest) == dec_str(old_rest / 10) + seq![digit_char(old_rest % 10)]);
            assert(dec_str(n as int) =~= dec_str(rest as int) + digits_seq(digits@));
        }
    }
    let mut out = String::new();
    out.append(digit_str(rest));
    let ghost full = dec_str(n as int);
    proof {
        lemma_digits_seq_len(digits@);
        assert(full =~= seq![digit_char(rest as int)] + digits_seq(digits@));
        assert(out@ =~= full.take(full.len() - digits@.len()));
    }
    let mut k: usize = digits.len();
    while k > 0
        invariant
            k <= digits@.len(),
            full == dec_str(n as int),
            full == seq![digit_char(rest as int)] + digits_seq(digits@),
            forall|i: int| 0 <= i < digits@.len() ==> #[trigger] digits@[i] < 10,
            full.len() == 1 + digits@.len(),
            out@ == full.take(full.len() - k),
        decreases k,
    {
        k = k - 1;
        out.append(digit_str(digits[k]));
        proof {
            lemma_digits_seq_index(digits@, digits@.len() - 1 - k);
            assert(full[full.len() - 1 - k] == digit_char(digits@[k as int] as int));
            assert(out@ =~= full.take(full.len() - k));
        }
    }
    proof {
        assert(full.take(full.len() as int) =~= full);
    }
    out
}

/// `digits_seq` reverses its input: position `i` of the output holds the
/// digit at position `len - 1 - i` of the input.
proof fn lemma_digits_seq_index(ds: Seq<u64>, i: int)
    requires
        0 <= i < ds.len(),
    ensures
        digits_seq(ds).len() == ds.len(),
        digits_seq(ds)[i] == digit_char(ds[ds.len() - 1 - i] as int),
    decreases ds.len(),
{
    lemma_digits_seq_len(ds);
    if i > 0 {
        lemma_digits_seq_index(ds.drop_last(), i - 1);
    }
}

/// `digits_seq` keeps the length of its input.
proof fn lemma_digits_seq_len(ds: Seq<u64>)
    ensures
        digits_seq(ds).len() == ds.len(),
    decreases ds.len(),
{
    if ds.len() > 0 {
        lemma_digits_seq_len(ds.drop_last());
    }
}

} // verus!
