//! Canonical decimal strings for unsigned integers.
//!
//! Session tokens travel as the decimal rendering of a 128-bit value, and
//! order prices and quantities arrive as decimal strings.  `dec_seq` is the
//! canonical rendering of a number, `spec_parse_u128` the meaning of a
//! candidate string, and the lemmas tie the two together: parsing a rendered
//! number always gives the number back.

use vstd::prelude::*;
use vstd::string::StrSliceExecFns;
use vstd::string::StringExecFns;

verus! {

/// Is `c` one of the ten decimal digit characters?
pub open spec fn is_dec_digit(c: char) -> bool {
    48 <= c as int && c as int <= 57
}

/// The numeric value of a digit character.
pub open spec fn digit_val(c: char) -> int {
    c as int - 48
}

/// The digit character for a value below ten.
pub open spec fn digit_char(d: int) -> char {
    if d == 0 {
        '0'
    } else if d == 1 {
        '1'
    } else if d == 2 {
        '2'
    } else if d == 3 {
        '3'
    } else if d == 4 {
        '4'
    } else if d == 5 {
        '5'
    } else if d == 6 {
        '6'
    } else if d == 7 {
        '7'
    } else if d == 8 {
        '8'
    } else {
        '9'
    }
}

/// The canonical decimal rendering of `n`: no sign, no leading zero.
pub open spec fn dec_seq(n: nat) -> Seq<char>
    decreases n,
{
    if n < 10 {
        seq![digit_char(n as int)]
    } else {
        dec_seq(n / 10).push(digit_char((n % 10) as int))
    }
}

/// Every character of `s` is a decimal digit.
pub open spec fn all_dec_digits(s: Seq<char>) -> bool {
    forall|i: int| 0 <= i < s.len() ==> is_dec_digit(#[trigger] s[i])
}

/// The number denoted by a digit string, most significant digit first.
pub open spec fn seq_val(s: Seq<char>) -> int
    decreases s.len(),
{
    if s.len() == 0 {
        0
    } else {
        seq_val(s.drop_last()) * 10 + digit_val(s.last())
    }
}

/// What a candidate cookie value means: a nonempty all-digit string whose
/// value fits in 128 bits denotes that value; anything else is refused.
pub open spec fn spec_parse_u128(s: Seq<char>) -> Option<u128> {
    if s.len() > 0 && all_dec_digits(s) && seq_val(s) <= u128::MAX {
        Some(seq_val(s) as u128)
    } else {
        None
    }
}

/// A digit string denotes a nonnegative number.
pub proof fn lemma_seq_val_nonneg(s: Seq<char>)
    requires
        all_dec_digits(s),
    ensures
        seq_val(s) >= 0,
    decreases s.len(),
{
    if s.len() > 0 {
        assert(all_dec_digits(s.drop_last())) by {
            assert(forall|i: int|
                0 <= i < s.drop_last().len() ==> s.drop_last()[i] == #[trigger] s[i]);
        }
        lemma_seq_val_nonneg(s.drop_last());
        assert(is_dec_digit(s.last()));
    }
}

/// Extending a digit string to the right never shrinks its value.
pub proof fn lemma_seq_val_prefix_le(s: Seq<char>, i: int)
    requires
        all_dec_digits(s),
        0 <= i <= s.len(),
    ensures
        seq_val(s.subrange(0, i)) <= seq_val(s),
    decreases s.len() - i,
{
    if i < s.len() {
        lemma_seq_val_step(s, i);
        lemma_seq_val_prefix_le(s, i + 1);
        assert(all_dec_digits(s.subrange(0, i))) by {
            assert(forall|k: int|
                0 <= k < i ==> s.subrange(0, i)[k] == #[trigger] s[k]);
        }
        lemma_seq_val_nonneg(s.subrange(0, i));
        assert(is_dec_digit(s[i]));
    } else {
        assert(s.subrange(0, i) =~= s);
    }
}

/// Unfolding one digit: the value of a prefix one longer.
pub proof fn lemma_seq_val_step(s: Seq<char>, i: int)
    requires
        0 <= i < s.len(),
    ensures
        seq_val(s.subrange(0, i + 1)) == seq_val(s.subrange(0, i)) * 10 + digit_val(s[i]),
{
    let t = s.subrange(0, i + 1);
    assert(t.drop_last() =~= s.subrange(0, i));
    assert(t.last() == s[i]);
}

/// The canonical rendering is a nonempty digit string denoting `n`.
pub proof fn lemma_dec_seq_props(n: nat)
    ensures
        dec_seq(n).len() >= 1,
        all_dec_digits(dec_seq(n)),
        seq_val(dec_seq(n)) == n,
    decreases n,
{
    if n < 10 {
        let s = dec_seq(n);
        assert(s == seq![digit_char(n as int)]);
        assert(s.drop_last() =~= Seq::<char>::empty());
        assert(seq_val(Seq::<char>::empty()) == 0);
        assert(s.len() == 1);
        assert(seq_val(s) == seq_val(s.drop_last()) * 10 + digit_val(s.last()));
        assert(digit_val(digit_char(n as int)) == n);
    } else {
        lemma_dec_seq_props(n / 10);
        let s = dec_seq(n);
        assert(s.drop_last() =~= dec_seq(n / 10));
        assert(s.last() == digit_char((n % 10) as int));
        assert(digit_val(digit_char((n % 10) as int)) == n % 10);
        assert(seq_val(s) == (n / 10) * 10 + n % 10);
        assert((n / 10) * 10 + n % 10 == n) by (nonlinear_arith);
        assert(forall|i: int| 0 <= i < s.len() - 1 ==> s[i] == #[trigger] s.drop_last()[i]);
    }
}

/// Round trip: parsing the canonical rendering of a 128-bit value yields
/// that value back.
pub proof fn lemma_parse_of_dec_seq(n: u128)
    ensures
        spec_parse_u128(dec_seq(n as nat)) == Some(n),
{
    lemma_dec_seq_props(n as nat);
}

/// The digit characters below ten, as one-character string slices.
fn digit_str(d: u128) -> (r: &'static str)
    requires
        d < 10,
    ensures
        r@ == seq![digit_char(d as int)],
{
    proof {
        reveal_strlit("0");
        reveal_strlit("1");
        reveal_strlit("2");
        reveal_strlit("3");
        reveal_strlit("4");
        reveal_strlit("5");
        reveal_strlit("6");
        reveal_strlit("7");
        reveal_strlit("8");
        reveal_strlit("9");
    }
    if d == 0 {
        "0"
    } else if d == 1 {
        "1"
    } else if d == 2 {
        "2"
    } else if d == 3 {
        "3"
    } else if d == 4 {
        "4"
    } else if d == 5 {
        "5"
    } else if d == 6 {
        "6"
    } else if d == 7 {
        "7"
    } else if d == 8 {
        "8"
    } else {
        "9"
    }
}

/// Render `n` as its canonical decimal string.
pub fn format_u128(n: u128) -> (r: String)
    ensures
        r@ == dec_seq(n as nat),
    decreases n,
{
    if n < 10 {
        String::from_str(digit_str(n))
    } else {
        let mut r = format_u128(n / 10);
        r.append(digit_str(n % 10));
        proof {
            assert(r@ =~= dec_seq((n / 10) as nat).push(digit_char((n % 10) as int)));
        }
        r
    }
}

/// Parse a candidate decimal string; `None` exactly where
/// `spec_parse_u128` refuses it.
pub fn parse_u128(s: &str) -> (r: Option<u128>)
    ensures
        r == spec_parse_u128(s@),
{
    let len = s.unicode_len();
    if len == 0 {
        return None;
    }
    let mut acc: u128 = 0;
    let mut i: usize = 0;
    while i < len
        invariant
            0 < len == s@.len(),
            0 <= i <= len,
            forall|k: int| 0 <= k < i ==> is_dec_digit(#[trigger] s@[k]),
            acc == seq_val(s@.subrange(0, i as int)),
        decreases len - i,
    {
        let c = s.get_char(i);
        let v = c as u32;
        if v < 48 || v > 57 {
            assert(!is_dec_digit(s@[i as int]));
            return None;
        }
        let d: u32 = v - 48;
        assert(is_dec_digit(s@[i as int]));
        assert(digit_val(s@[i as int]) == d as int);
        proof {
            lemma_seq_val_step(s@, i as int);
        }
        if acc > (u128::MAX - d as u128) / 10 {
            // The prefix read so far already exceeds 128 bits, so the whole
            // string does too, whatever follows.
            proof {
                assert(seq_val(s@.subrange(0, i as int + 1)) > u128::MAX);
                if all_dec_digits(s@) {
                    lemma_seq_val_prefix_le(s@, i as int + 1);
                }
            }
            return None;
        }
        acc = acc * 10 + d as u128;
        i = i + 1;
    }
    proof {
        assert(s@.subrange(0, len as int) =~= s@);
        lemma_seq_val_nonneg(s@);
    }
    Some(acc)
}

} // verus!
