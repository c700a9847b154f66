//! Parsing of numbers stored as text: several source columns carry unsigned
//! numbers as free text, which validation must parse or reject.

use vstd::prelude::*;

verus! {

/// The value of a string of decimal digits, most significant first.
pub open spec fn dec_val(s: Seq<u8>) -> nat
    decreases s.len(),
{
    if s.len() == 0 {
        0
    } else {
        dec_val(s.drop_last()) * 10 + (s.last() - 0x30) as nat
    }
}

/// Whether every byte is a decimal digit.
pub open spec fn all_digits(s: Seq<u8>) -> bool {
    forall|i: int| 0 <= i < s.len() ==> 0x30 <= #[trigger] s[i] <= 0x39
}

/// The digits of a number written as text, with an optional leading plus
/// sign stripped.
pub open spec fn digits_part(s: Seq<u8>) -> Seq<u8> {
    if s.len() > 0 && s[0] == 0x2b {
        s.drop_first()
    } else {
        s
    }
}

/// Whether `s` is a well-formed 32-bit unsigned number written as text: an
/// optional plus sign, then at least one digit, with a value that fits.
pub open spec fn parse_u32_ok(s: Seq<u8>) -> bool {
    let d = digits_part(s);
    d.len() > 0 && all_digits(d) && dec_val(d) <= u32::MAX
}

/// The value of a well-formed number written as text.
pub open spec fn parse_u32_val(s: Seq<u8>) -> nat {
    dec_val(digits_part(s))
}

/// The value of a digit string never shrinks as digits are appended.
proof fn lemma_dec_val_mono(d: Seq<u8>, i: int)
    requires
        0 <= i <= d.len(),
    ensures
        dec_val(d.take(i)) <= dec_val(d),
    decreases d.len() - i,
{
    if i < d.len() {
        lemma_dec_val_mono(d, i + 1);
        assert(d.take(i + 1).drop_last() =~= d.take(i));
        assert(dec_val(d.take(i + 1)) == dec_val(d.take(i)) * 10 + (d.take(i + 1).last()
            - 0x30) as nat);
    } else {
        assert(d.take(i) =~= d);
    }
}

/// Parses a 32-bit unsigned number written as text, accepting exactly the
/// well-formed inputs.
pub fn parse_u32(s: &Vec<u8>) -> (r: Option<u32>)
    ensures
        match r {
            Option::Some(n) => parse_u32_ok(s@) && n as nat == parse_u32_val(s@),
            Option::None => !parse_u32_ok(s@),
        },
{
    let start: usize = if s.len() > 0 && s[0] == 0x2b {
        1
    } else {
        0
    };
    let ghost d = digits_part(s@);
    proof {
        assert(d =~= s@.skip(start as int));
    }
    if s.len() == start {
        return None;
    }
    let mut acc: u32 = 0;
    let mut i: usize = start;
    while i < s.len()
        invariant
            start <= i <= s@.len(),
            start <= 1,
            d == digits_part(s@),
            d == s@.skip(start as int),
            d.len() == s@.len() - start,
            forall|j: int| 0 <= j < i - start ==> 0x30 <= #[trigger] d[j] <= 0x39,
            acc as nat == dec_val(d.take(i - start)),
        decreases s@.len() - i,
    {
        let b = s[i];
        proof {
            assert(d[i - start] == s@[i as int]);
        }
        if b < 0x30 || b > 0x39 {
            proof {
                assert(!all_digits(d)) by {
                    assert(d[i - start] == b);
                }
            }
            return None;
        }
        let dig: u32 = (b - 0x30) as u32;
        if acc > (u32::MAX - dig) / 10 {
            proof {
                assert(acc * 10 + dig > u32::MAX) by (nonlinear_arith)
                    requires
                        acc > (u32::MAX - dig) / 10,
                        dig <= 9,
                ;
                assert(d.take(i - start + 1).drop_last() =~= d.take(i - start));
                assert(dec_val(d.take(i - start + 1)) == acc * 10 + dig);
                lemma_dec_val_mono(d, i - start + 1);
                assert(dec_val(d) > u32::MAX);
            }
            return None;
        }
        proof {
            assert(acc * 10 + dig <= u32::MAX) by (nonlinear_arith)
                requires
                    acc <= (u32::MAX - dig) / 10,
                    dig <= 9,
            ;
            assert(d.take(i - start + 1).drop_last() =~= d.take(i - start));
        }
        acc = acc * 10 + dig;
        i = i + 1;
    }
    proof {
        assert(d.take(d.len() as int) =~= d);
    }
    Some(acc)
}

} // verus!
