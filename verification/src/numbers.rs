//! Parsing of unsigned decimal attribute values.
//!
//! Numeric attributes of a sub-texture element (`x`, `y`, `width`, `height`)
//! are unsigned 32-bit pixel quantities.  [`parse_u32`] accepts exactly the
//! strings `u32::from_str` accepts: an optional leading `+` followed by one
//! or more decimal digits, denoting a value that fits in 32 bits.

use vstd::prelude::*;

verus! {

/// The character is a decimal digit (`'0'` is code point 48, `'9'` is 57).
pub open spec fn is_digit_char(c: char) -> bool {
    48 <= c as u32 <= 57
}

/// Numeric value of a digit character.
pub open spec fn digit_val(c: char) -> int {
    c as u32 - 48
}

pub open spec fn all_digits(s: Seq<char>) -> bool {
    forall|i: int| 0 <= i < s.len() ==> is_digit_char(s[i])
}

/// Value of a digit string read in base ten.
pub open spec fn dec_val(s: Seq<char>) -> int
    decreases s.len(),
{
    if s.len() == 0 {
        0
    } else {
        dec_val(s.drop_last()) * 10 + digit_val(s.last())
    }
}

/// What `u32::from_str` returns: an optional leading `+`, then one or more
/// decimal digits whose value fits in 32 bits; anything else is rejected.
pub open spec fn spec_parse_u32(s: Seq<char>) -> Option<u32> {
    let t = if s.len() > 0 && s[0] == '+' {
        s.drop_first()
    } else {
        s
    };
    if t.len() > 0 && all_digits(t) && dec_val(t) <= u32::MAX {
        Some(dec_val(t) as u32)
    } else {
        None
    }
}

pub proof fn lemma_dec_val_nonneg(s: Seq<char>)
    requires
        all_digits(s),
    ensures
        dec_val(s) >= 0,
    decreases s.len(),
{
    if s.len() > 0 {
        assert forall|i: int| 0 <= i < s.drop_last().len() implies is_digit_char(
            #[trigger] s.drop_last()[i],
        ) by {
            assert(s.drop_last()[i] == s[i]);
        }
        lemma_dec_val_nonneg(s.drop_last());
    }
}

/// Parse an unsigned 32-bit decimal number, exactly as `u32::from_str` does.
pub fn parse_u32(s: &str) -> (r: Option<u32>)
    ensures
        r == spec_parse_u32(s@),
{
    let n = s.unicode_len();
    let mut i: usize = 0;
    if n > 0 && s.get_char(0) == '+' {
        i = 1;
    }
    let ghost t: Seq<char> = if s@.len() > 0 && s@[0] == '+' {
        s@.drop_first()
    } else {
        s@
    };
    if i == n {
        // no digits at all
        assert(t.len() == 0);
        return None;
    }
    let mut acc: u64 = 0;
    let mut j: usize = i;
    while j < n
        invariant
            i <= 1,
            i <= j <= n,
            n == s@.len(),
            i == 1 ==> s@.len() > 0 && s@[0] == '+' && t == s@.drop_first(),
            i == 0 ==> !(s@.len() > 0 && s@[0] == '+') && t == s@,
            t.len() == n - i,
            forall|k: int| 0 <= k < t.len() ==> t[k] == s@[k + i],
            all_digits(t.take(j - i)),
            acc <= 0x1_0000_0000,
            acc == if dec_val(t.take(j - i)) <= u32::MAX {
                dec_val(t.take(j - i))
            } else {
                0x1_0000_0000int
            },
        decreases n - j,
    {
        let c = s.get_char(j);
        let v = c as u32;
        if v < 48 || v > 57 {
            // a non-digit character: the whole string is rejected
            assert(t[j - i] == s@[j as int]);
            assert(!is_digit_char(t[j - i]));
            assert(!all_digits(t));
            return None;
        }
        let ghost pre = t.take(j - i);
        let ghost pre2 = t.take(j + 1 - i);
        proof {
            assert(pre2.drop_last() =~= pre);
            assert(pre2.last() == t[j - i]);
            assert(t[j - i] == s@[j as int]);
            assert(dec_val(pre2) == dec_val(pre) * 10 + digit_val(t[j - i]));
            assert forall|k: int| 0 <= k < pre2.len() implies is_digit_char(#[trigger] pre2[k]) by {
                if k < pre2.len() - 1 {
                    assert(pre2[k] == pre[k]);
                    assert(is_digit_char(pre[k]));
                }
            }
            assert(all_digits(pre2));
            if dec_val(pre) > u32::MAX {
                lemma_dec_val_nonneg(pre2);
                assert(dec_val(pre2) > u32::MAX);
            }
        }
        acc = acc * 10 + ((v - 48) as u64);
        if acc > 0xFFFF_FFFF {
            acc = 0x1_0000_0000;
        }
        j = j + 1;
    }
    proof {
        assert(t.take(j - i) =~= t);
    }
    if acc <= 0xFFFF_FFFF {
        Some(acc as u32)
    } else {
        None
    }
}

} // verus!
