//! Canonical JSON encoding of the values a bundle holds: byte strings with
//! escaping, decimal numbers, and the array shapes the documents use.
//!
//! The encoding of every value is a function of the value alone, so two
//! documents with the same contents serialize to the same bytes.

use vstd::prelude::*;

verus! {

/// The ASCII hexadecimal digit (lower case) for a value below sixteen.
pub open spec fn hex_digit(n: u8) -> u8 {
    if n < 10 {
        (0x30 + n) as u8
    } else {
        (0x57 + n) as u8
    }
}

/// The encoding of one byte inside a JSON string: quote and backslash are
/// escaped, control bytes become short escapes or `\u00..`, and every other
/// byte stands for itself.
pub open spec fn esc_byte(b: u8) -> Seq<u8> {
    if b == 0x22 {
        seq![0x5c, 0x22]
    } else if b == 0x5c {
        seq![0x5c, 0x5c]
    } else if b == 0x08 {
        seq![0x5c, 0x62]
    } else if b == 0x09 {
        seq![0x5c, 0x74]
    } else if b == 0x0a {
        seq![0x5c, 0x6e]
    } else if b == 0x0c {
        seq![0x5c, 0x66]
    } else if b == 0x0d {
        seq![0x5c, 0x72]
    } else if b < 0x20 {
        seq![0x5c, 0x75, 0x30, 0x30, hex_digit(b / 16), hex_digit(b % 16)]
    } else {
        seq![b]
    }
}

/// The escaped contents of a JSON string.
pub open spec fn esc(s: Seq<u8>) -> Seq<u8>
    decreases s.len(),
{
    if s.len() == 0 {
        Seq::empty()
    } else {
        esc(s.drop_last()) + esc_byte(s.last())
    }
}

/// A JSON string: escaped contents between double quotes.
pub open spec fn json_str(s: Seq<u8>) -> Seq<u8> {
    seq![0x22u8] + esc(s) + seq![0x22u8]
}

/// The decimal digits of a number, most significant first.
pub open spec fn dec_nat(n: nat) -> Seq<u8>
    decreases n,
{
    if n < 10 {
        seq![(0x30 + n) as u8]
    } else {
        dec_nat(n / 10).push((0x30 + n % 10) as u8)
    }
}

/// A JSON array of numbers.
pub open spec fn u32_array(xs: Seq<u32>) -> Seq<u8> {
    seq![0x5bu8] + u32_items(xs) + seq![0x5du8]
}

/// The comma-separated items of an array of numbers.
pub open spec fn u32_items(xs: Seq<u32>) -> Seq<u8>
    decreases xs.len(),
{
    if xs.len() == 0 {
        Seq::empty()
    } else if xs.len() == 1 {
        dec_nat(xs.last() as nat)
    } else {
        u32_items(xs.drop_last()) + seq![0x2cu8] + dec_nat(xs.last() as nat)
    }
}

/// A JSON array of strings.
pub open spec fn str_array(xs: Seq<Seq<u8>>) -> Seq<u8> {
    seq![0x5bu8] + str_items(xs) + seq![0x5du8]
}

/// The comma-separated items of an array of strings.
pub open spec fn str_items(xs: Seq<Seq<u8>>) -> Seq<u8>
    decreases xs.len(),
{
    if xs.len() == 0 {
        Seq::empty()
    } else if xs.len() == 1 {
        json_str(xs.last())
    } else {
        str_items(xs.drop_last()) + seq![0x2cu8] + json_str(xs.last())
    }
}

/// A JSON array of two-element number arrays.
pub open spec fn pair_array(xs: Seq<(u32, u32)>) -> Seq<u8> {
    seq![0x5bu8] + pair_items(xs) + seq![0x5du8]
}

/// One pair of numbers as a two-element JSON array.
pub open spec fn pair_item(p: (u32, u32)) -> Seq<u8> {
    seq![0x5bu8] + dec_nat(p.0 as nat) + seq![0x2cu8] + dec_nat(p.1 as nat) + seq![0x5du8]
}

/// The comma-separated items of an array of pairs.
pub open spec fn pair_items(xs: Seq<(u32, u32)>) -> Seq<u8>
    decreases xs.len(),
{
    if xs.len() == 0 {
        Seq::empty()
    } else if xs.len() == 1 {
        pair_item(xs.last())
    } else {
        pair_items(xs.drop_last()) + seq![0x2cu8] + pair_item(xs.last())
    }
}

/// A JSON object mapping decimal-string keys to numbers.
pub open spec fn num_obj(m: Seq<(u32, u32)>) -> Seq<u8> {
    seq![0x7bu8] + num_obj_items(m) + seq![0x7du8]
}

/// One entry of an object keyed by a number rendered as a string.
pub open spec fn num_obj_item(e: (u32, u32)) -> Seq<u8> {
    seq![0x22u8] + dec_nat(e.0 as nat) + seq![0x22u8, 0x3au8] + dec_nat(e.1 as nat)
}

/// The comma-separated entries of an object keyed by numbers.
pub open spec fn num_obj_items(m: Seq<(u32, u32)>) -> Seq<u8>
    decreases m.len(),
{
    if m.len() == 0 {
        Seq::empty()
    } else if m.len() == 1 {
        num_obj_item(m.last())
    } else {
        num_obj_items(m.drop_last()) + seq![0x2cu8] + num_obj_item(m.last())
    }
}

/// Appends a byte slice.
pub fn push_bytes(out: &mut Vec<u8>, s: &[u8])
    ensures
        final(out)@ == old(out)@ + s@,
{
    let mut i: usize = 0;
    while i < s.len()
        invariant
            i <= s@.len(),
            out@ == old(out)@ + s@.take(i as int),
        decreases s@.len() - i,
    {
        out.push(s[i]);
        proof {
            assert(old(out)@ + s@.take(i + 1) =~= (old(out)@ + s@.take(i as int)).push(
                s@[i as int],
            ));
        }
        i = i + 1;
    }
    proof {
        assert(s@.take(s@.len() as int) =~= s@);
    }
}

/// Appends one byte.
pub fn push_byte(out: &mut Vec<u8>, b: u8)
    ensures
        final(out)@ == old(out)@ + seq![b],
{
    out.push(b);
    proof {
        assert(old(out)@ + seq![b] =~= old(out)@.push(b));
    }
}

/// Appends the escaped form of one byte.
fn push_esc_byte(out: &mut Vec<u8>, b: u8)
    ensures
        final(out)@ == old(out)@ + esc_byte(b),
{
    if b == 0x22 {
        push_bytes(out, &[0x5c, 0x22]);
    } else if b == 0x5c {
        push_bytes(out, &[0x5c, 0x5c]);
    } else if b == 0x08 {
        push_bytes(out, &[0x5c, 0x62]);
    } else if b == 0x09 {
        push_bytes(out, &[0x5c, 0x74]);
    } else if b == 0x0a {
        push_bytes(out, &[0x5c, 0x6e]);
    } else if b == 0x0c {
        push_bytes(out, &[0x5c, 0x66]);
    } else if b == 0x0d {
        push_bytes(out, &[0x5c, 0x72]);
    } else if b < 0x20 {
        let hi = if b / 16 < 10 {
            0x30 + b / 16
        } else {
            0x57 + b / 16
        };
        let lo = if b % 16 < 10 {
            0x30 + b % 16
        } else {
            0x57 + b % 16
        };
        push_bytes(out, &[0x5c, 0x75, 0x30, 0x30, hi, lo]);
    } else {
        push_byte(out, b);
    }
    proof {
        assert(final(out)@ == old(out)@ + esc_byte(b));
    }
}

/// Appends a JSON string: quoted, escaped contents.
pub fn push_json_str(out: &mut Vec<u8>, s: &Vec<u8>)
    ensures
        final(out)@ == old(out)@ + json_str(s@),
{
    push_byte(out, 0x22);
    let mut i: usize = 0;
    while i < s.len()
        invariant
            i <= s@.len(),
            out@ == old(out)@ + seq![0x22u8] + esc(s@.take(i as int)),
        decreases s@.len() - i,
    {
        push_esc_byte(out, s[i]);
        proof {
            assert(s@.take(i + 1).drop_last() =~= s@.take(i as int));
            assert(s@.take(i + 1).last() == s@[i as int]);
        }
        i = i + 1;
    }
    push_byte(out, 0x22);
    proof {
        assert(s@.take(s@.len() as int) =~= s@);
        assert(old(out)@ + seq![0x22u8] + esc(s@) + seq![0x22u8] =~= old(out)@ + json_str(s@));
    }
}

/// Appends the decimal digits of a number.
pub fn push_dec_u64(out: &mut Vec<u8>, n: u64)
    ensures
        final(out)@ == old(out)@ + dec_nat(n as nat),
    decreases n,
{
    if n < 10 {
        push_byte(out, 0x30 + (n as u8));
    } else {
        push_dec_u64(out, n / 10);
        push_byte(out, 0x30 + ((n % 10) as u8));
        proof {
            assert(old(out)@ + dec_nat((n / 10) as nat) + seq![(0x30 + (n % 10) as nat) as u8]
                =~= old(out)@ + dec_nat(n as nat));
        }
    }
}

/// Appends the decimal digits of a 32-bit number.
pub fn push_dec_u32(out: &mut Vec<u8>, n: u32)
    ensures
        final(out)@ == old(out)@ + dec_nat(n as nat),
{
    push_dec_u64(out, n as u64);
}

/// Appends a JSON array of numbers.
pub fn push_u32_array(out: &mut Vec<u8>, xs: &Vec<u32>)
    ensures
        final(out)@ == old(out)@ + u32_array(xs@),
{
    push_byte(out, 0x5b);
    let mut i: usize = 0;
    while i < xs.len()
        invariant
            i <= xs@.len(),
            out@ == old(out)@ + seq![0x5bu8] + u32_items(xs@.take(i as int)),
        decreases xs@.len() - i,
    {
        if i > 0 {
            push_byte(out, 0x2c);
        }
        push_dec_u32(out, xs[i]);
        proof {
            assert(xs@.take(i + 1).drop_last() =~= xs@.take(i as int));
            assert(xs@.take(i + 1).last() == xs@[i as int]);
        }
        i = i + 1;
    }
    push_byte(out, 0x5d);
    proof {
        assert(xs@.take(xs@.len() as int) =~= xs@);
        assert(old(out)@ + seq![0x5bu8] + u32_items(xs@) + seq![0x5du8] =~= old(out)@ + u32_array(
            xs@,
        ));
    }
}

/// Appends a JSON array of strings.
pub fn push_str_array(out: &mut Vec<u8>, xs: &Vec<Vec<u8>>)
    ensures
        final(out)@ == old(out)@ + str_array(xs.deep_view()),
{
    push_byte(out, 0x5b);
    let mut i: usize = 0;
    while i < xs.len()
        invariant
            i <= xs@.len(),
            xs.deep_view().len() == xs@.len(),
            out@ == old(out)@ + seq![0x5bu8] + str_items(xs.deep_view().take(i as int)),
        decreases xs@.len() - i,
    {
        if i > 0 {
            push_byte(out, 0x2c);
        }
        push_json_str(out, &xs[i]);
        proof {
            assert(xs.deep_view().take(i + 1).drop_last() =~= xs.deep_view().take(i as int));
            assert(xs.deep_view().take(i + 1).last() == xs@[i as int]@);
        }
        i = i + 1;
    }
    push_byte(out, 0x5d);
    proof {
        assert(xs.deep_view().take(xs@.len() as int) =~= xs.deep_view());
        assert(old(out)@ + seq![0x5bu8] + str_items(xs.deep_view()) + seq![0x5du8] =~= old(out)@
            + str_array(xs.deep_view()));
    }
}

/// Appends a JSON array of two-element number arrays.
pub fn push_pair_array(out: &mut Vec<u8>, xs: &Vec<(u32, u32)>)
    ensures
        final(out)@ == old(out)@ + pair_array(xs@),
{
    push_byte(out, 0x5b);
    let mut i: usize = 0;
    while i < xs.len()
        invariant
            i <= xs@.len(),
            out@ == old(out)@ + seq![0x5bu8] + pair_items(xs@.take(i as int)),
        decreases xs@.len() - i,
    {
        if i > 0 {
            push_byte(out, 0x2c);
        }
        let p = xs[i];
        push_byte(out, 0x5b);
        push_dec_u32(out, p.0);
        push_byte(out, 0x2c);
        push_dec_u32(out, p.1);
        push_byte(out, 0x5d);
        proof {
            assert(xs@.take(i + 1).drop_last() =~= xs@.take(i as int));
            assert(xs@.take(i + 1).last() == xs@[i as int]);
            assert(out@ == old(out)@ + seq![0x5bu8] + pair_items(xs@.take(i + 1)));
        }
        i = i + 1;
    }
    push_byte(out, 0x5d);
    proof {
        assert(xs@.take(xs@.len() as int) =~= xs@);
        assert(old(out)@ + seq![0x5bu8] + pair_items(xs@) + seq![0x5du8] =~= old(out)@ + pair_array(
            xs@,
        ));
    }
}

/// Appends a JSON object mapping decimal-string keys to numbers.
pub fn push_num_obj(out: &mut Vec<u8>, m: &Vec<(u32, u32)>)
    ensures
        final(out)@ == old(out)@ + num_obj(m@),
{
    push_byte(out, 0x7b);
    let mut i: usize = 0;
    while i < m.len()
        invariant
            i <= m@.len(),
            out@ == old(out)@ + seq![0x7bu8] + num_obj_items(m@.take(i as int)),
        decreases m@.len() - i,
    {
        if i > 0 {
            push_byte(out, 0x2c);
        }
        let e = m[i];
        push_byte(out, 0x22);
        push_dec_u32(out, e.0);
        push_byte(out, 0x22);
        push_byte(out, 0x3a);
        push_dec_u32(out, e.1);
        proof {
            assert(m@.take(i + 1).drop_last() =~= m@.take(i as int));
            assert(m@.take(i + 1).last() == m@[i as int]);
            assert(out@ == old(out)@ + seq![0x7bu8] + num_obj_items(m@.take(i + 1)));
        }
        i = i + 1;
    }
    push_byte(out, 0x7d);
    proof {
        assert(m@.take(m@.len() as int) =~= m@);
        assert(old(out)@ + seq![0x7bu8] + num_obj_items(m@) + seq![0x7du8] =~= old(out)@ + num_obj(
            m@,
        ));
    }
}

} // verus!
