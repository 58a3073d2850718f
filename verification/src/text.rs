//! Verified text helpers: equality, option-prefix tests, canonical names, and
//! the readers for integer and boolean tokens, each proved against the spec
//! functions of [`crate::model`].

use vstd::prelude::*;

use crate::model::{
    all_digits, canon, digit_val, digits_val, int_magnitude, int_syntax_ok, int_value, is_digit,
    parse_bool_model, parse_int_model, starts_dash, starts_double_dash,
};

verus! {

/// Character-for-character equality of two text slices.
pub fn str_eq(a: &str, b: &str) -> (r: bool)
    ensures
        r == (a@ == b@),
{
    let alen: usize = a.unicode_len();
    let blen: usize = b.unicode_len();
    if alen != blen {
        return false;
    }
    let mut i: usize = 0;
    while i < alen
        invariant
            i <= alen,
            alen == a@.len(),
            alen == b@.len(),
            forall|j: int| 0 <= j < i ==> a@[j] == b@[j],
        decreases alen - i,
    {
        if a.get_char(i) != b.get_char(i) {
            return false;
        }
        i = i + 1;
    }
    proof {
        assert(a@ =~= b@);
    }
    true
}

/// Whether the token begins with the option prefix.
pub fn starts_with_dash(s: &str) -> (r: bool)
    ensures
        r == starts_dash(s@),
{
    if s.unicode_len() == 0 {
        false
    } else {
        s.get_char(0) == '-'
    }
}

/// Whether the name begins with the long-option prefix.
pub fn starts_with_double_dash(s: &str) -> (r: bool)
    ensures
        r == starts_double_dash(s@),
{
    if s.unicode_len() < 2 {
        false
    } else {
        s.get_char(0) == '-' && s.get_char(1) == '-'
    }
}

/// `canon` skips exactly the leading run of dashes.
proof fn lemma_canon_skip(s: Seq<char>, k: int)
    requires
        0 <= k <= s.len(),
        forall|j: int| 0 <= j < k ==> s[j] == '-',
        k == s.len() || s[k] != '-',
    ensures
        canon(s) == s.skip(k),
    decreases k,
{
    if k == 0 {
        assert(s.skip(0) =~= s);
    } else {
        assert(s[0] == '-');
        assert(forall|j: int| 0 <= j < k - 1 ==> s.skip(1)[j] == s[j + 1]);
        lemma_canon_skip(s.skip(1), k - 1);
        assert(s.skip(1).skip(k - 1) =~= s.skip(k));
    }
}

/// The canonical key of a name: the name with its leading dashes removed.
pub fn canonical_name(s: &str) -> (r: String)
    ensures
        r@ == canon(s@),
{
    let len: usize = s.unicode_len();
    let mut k: usize = 0;
    while k < len
        invariant_except_break
            k <= len,
            len == s@.len(),
            forall|j: int| 0 <= j < k ==> s@[j] == '-',
        ensures
            k <= len,
            len == s@.len(),
            forall|j: int| 0 <= j < k ==> s@[j] == '-',
            k == len || s@[k as int] != '-',
        decreases len - k,
    {
        if s.get_char(k) != '-' {
            break;
        }
        k = k + 1;
    }
    proof {
        lemma_canon_skip(s@, k as int);
    }
    let t: &str = s.substring_char(k, len);
    t.to_owned()
}

/// A digit string reads to a value at least zero.
proof fn lemma_digits_val_nonneg(s: Seq<char>)
    requires
        all_digits(s),
    ensures
        digits_val(s) >= 0,
    decreases s.len(),
{
    if s.len() > 0 {
        assert(forall|j: int| 0 <= j < s.len() - 1 ==> is_digit(s.drop_last()[j]));
        lemma_digits_val_nonneg(s.drop_last());
    }
}

/// Reading more digits never lowers the value: the whole string reads to at
/// least what any prefix of it reads to.
proof fn lemma_digits_val_prefix(s: Seq<char>, m: int)
    requires
        all_digits(s),
        0 <= m <= s.len(),
    ensures
        digits_val(s) >= digits_val(s.subrange(0, m)),
    decreases s.len() - m,
{
    if m == s.len() {
        assert(s.subrange(0, m) =~= s);
    } else {
        lemma_digits_val_prefix(s, m + 1);
        let t = s.subrange(0, m + 1);
        assert(t.drop_last() =~= s.subrange(0, m));
        assert(t.last() == s[m]);
        assert(forall|j: int| 0 <= j < m ==> is_digit(s.subrange(0, m)[j]));
        lemma_digits_val_nonneg(s.subrange(0, m));
        assert(digit_val(s[m]) >= 0);
    }
}

/// Reads a token as a signed 32-bit integer: an optional sign, then decimal
/// digits; anything else, or a value out of range, is rejected.
#[verifier::loop_isolation(false)]
pub fn parse_int(s: &str) -> (r: Option<i32>)
    ensures
        r == parse_int_model(s@),
{
    let len: usize = s.unicode_len();
    if len == 0 {
        return None;
    }
    let c0: char = s.get_char(0);
    let neg: bool = c0 == '-';
    let signed: bool = c0 == '-' || c0 == '+';
    let start: usize = if signed {
        1
    } else {
        0
    };
    if len == start {
        return None;
    }
    let mut acc: u64 = 0;
    let mut i: usize = start;
    while i < len
        invariant
            start <= i <= len,
            all_digits(s@.subrange(start as int, i as int)),
            acc == digits_val(s@.subrange(start as int, i as int)),
            acc <= 0x8000_0000u64,
        decreases len - i,
    {
        let c: char = s.get_char(i);
        let cv: u32 = c as u32;
        if !(48 <= cv && cv <= 57) {
            proof {
                assert(!is_digit(s@[i as int]));
                if signed {
                    assert(!is_digit(s@.skip(1)[i - 1]));
                    assert(!all_digits(s@.skip(1)));
                } else {
                    assert(!all_digits(s@));
                }
                assert(!int_syntax_ok(s@));
            }
            return None;
        }
        let d: u64 = (cv - 48) as u64;
        proof {
            let pre = s@.subrange(start as int, i as int);
            let ext = s@.subrange(start as int, i as int + 1);
            assert(ext.drop_last() =~= pre);
            assert(ext.last() == s@[i as int]);
        }
        acc = acc * 10 + d;
        if acc > 0x8000_0000u64 {
            proof {
                let tail = s@.skip(start as int);
                if int_syntax_ok(s@) {
                    if signed {
                        assert(all_digits(tail));
                    } else {
                        assert(tail =~= s@);
                        assert(all_digits(tail));
                    }
                    lemma_digits_val_prefix(tail, i as int + 1 - start as int);
                    assert(tail.subrange(0, i as int + 1 - start as int) =~= s@.subrange(
                        start as int,
                        i as int + 1,
                    ));
                    if signed {
                        assert(int_magnitude(s@) == digits_val(tail));
                    } else {
                        assert(int_magnitude(s@) == digits_val(tail));
                    }
                    assert(int_magnitude(s@) > 0x8000_0000);
                    assert(!(i32::MIN <= int_value(s@) <= i32::MAX));
                }
            }
            return None;
        }
        i = i + 1;
    }
    proof {
        let tail = s@.skip(start as int);
        assert(tail =~= s@.subrange(start as int, i as int));
        if signed {
            assert(all_digits(tail));
            assert(int_syntax_ok(s@));
            assert(int_magnitude(s@) == digits_val(tail));
        } else {
            assert(tail =~= s@);
            assert(all_digits(s@));
            assert(int_syntax_ok(s@));
            assert(int_magnitude(s@) == digits_val(tail));
        }
        assert(int_magnitude(s@) == acc);
    }
    if neg {
        if acc == 0x8000_0000u64 {
            Some(i32::MIN)
        } else {
            Some(-(acc as i32))
        }
    } else {
        if acc > 0x7FFF_FFFFu64 {
            proof {
                assert(int_value(s@) > i32::MAX);
            }
            return None;
        }
        Some(acc as i32)
    }
}

/// Reads a token as a boolean: only the literal words pass.
pub fn parse_bool(s: &str) -> (r: Option<bool>)
    ensures
        r == parse_bool_model(s@),
{
    if str_eq(s, "true") {
        Some(true)
    } else if str_eq(s, "false") {
        Some(false)
    } else {
        None
    }
}

} // verus!
