//! The archive byte stream: entries laid out in the `ustar` tape-archive
//! format, then compressed into a gzip container.
//!
//! The tar layout and the gzip framing are written here and verified; only
//! the DEFLATE stream and the CRC-32 checksum inside the container come from
//! the compression crate, behind trusted wrappers.

use vstd::prelude::*;
use crate::json::{push_bytes, push_byte};
use std::io::Write;

verus! {

/// A sequence of `n` copies of one byte.
pub open spec fn repeated(b: u8, n: nat) -> Seq<u8> {
    Seq::new(n, |i: int| b)
}

/// Fixed-width octal digits of `n`, most significant first; digits beyond
/// the width are dropped.
pub open spec fn oct_fixed(n: nat, w: nat) -> Seq<u8>
    decreases w,
{
    if w == 0 {
        Seq::empty()
    } else {
        oct_fixed(n / 8, (w - 1) as nat).push((0x30 + n % 8) as u8)
    }
}

/// The sum of a sequence of bytes.
pub open spec fn sum_bytes(s: Seq<u8>) -> int
    decreases s.len(),
{
    if s.len() == 0 {
        0
    } else {
        sum_bytes(s.drop_last()) + s.last()
    }
}

/// The sum of a concatenation is the sum of the parts.
pub proof fn lemma_sum_bytes_add(a: Seq<u8>, b: Seq<u8>)
    ensures
        sum_bytes(a + b) == sum_bytes(a) + sum_bytes(b),
    decreases b.len(),
{
    if b.len() == 0 {
        assert(a + b =~= a);
    } else {
        lemma_sum_bytes_add(a, b.drop_last());
        assert((a + b).drop_last() =~= a + b.drop_last());
    }
}

/// The sum of `n` copies of one byte.
pub proof fn lemma_sum_repeated(b: u8, n: nat)
    ensures
        sum_bytes(repeated(b, n)) == b * n,
    decreases n,
{
    if n > 0 {
        lemma_sum_repeated(b, (n - 1) as nat);
        assert(repeated(b, n).drop_last() =~= repeated(b, (n - 1) as nat));
        assert(repeated(b, n).last() == b);
        assert(sum_bytes(repeated(b, n)) == sum_bytes(repeated(b, (n - 1) as nat)) + b);
        assert(b * n == b * (n - 1) + b) by (nonlinear_arith)
            requires
                n >= 1,
        ;
    } else {
        assert(repeated(b, 0).len() == 0);
    }
}

/// Fixed-width octal digits have exactly the asked-for width.
pub proof fn lemma_oct_len(n: nat, w: nat)
    ensures
        oct_fixed(n, w).len() == w,
    decreases w,
{
    if w > 0 {
        lemma_oct_len(n / 8, (w - 1) as nat);
    }
}

/// The first 148 bytes of a header: the entry name padded to 100 bytes,
/// zeroed mode, owner and group fields, the size in octal, and a zeroed
/// modification time.
pub open spec fn header_front(path: Seq<u8>, size: nat) -> Seq<u8> {
    path + repeated(0, if path.len() < 100 { (100 - path.len()) as nat } else { 0 }) + repeated(
        0,
        24,
    ) + oct_fixed(size, 11) + seq![0u8] + repeated(0, 12)
}

/// The bytes of a header after the checksum field: a regular-file type
/// flag, a zeroed link name, the `ustar` magic and version, and zeroed
/// owner names, device numbers and prefix.
pub open spec fn header_back() -> Seq<u8> {
    seq![0x30u8] + repeated(0, 100) + seq![0x75u8, 0x73u8, 0x74u8, 0x61u8, 0x72u8, 0x00u8, 0x30u8, 0x30u8]
        + repeated(0, 247)
}

/// The checksum of a header: the sum of its bytes with the checksum field
/// read as spaces.
pub open spec fn header_sum(path: Seq<u8>, size: nat) -> int {
    sum_bytes(header_front(path, size)) + 8 * 0x20 + sum_bytes(header_back())
}

/// A complete 512-byte header.
pub open spec fn tar_header(path: Seq<u8>, size: nat) -> Seq<u8> {
    header_front(path, size) + oct_fixed(header_sum(path, size) as nat, 6) + seq![0x00u8, 0x20u8]
        + header_back()
}

/// The padding that follows an entry's data, filling it to whole 512-byte
/// blocks.
pub open spec fn pad_len(size: nat) -> nat {
    (((512 - size % 512) as int % 512) as nat)
}

/// One archive entry: header, data, padding.
pub open spec fn tar_entry(path: Seq<u8>, data: Seq<u8>) -> Seq<u8> {
    tar_header(path, data.len()) + data + repeated(0, pad_len(data.len()))
}

/// The two zeroed blocks that end an archive.
pub open spec fn tar_end() -> Seq<u8> {
    repeated(0, 1024)
}

/// Appends `n` copies of one byte.
pub fn push_repeated(out: &mut Vec<u8>, b: u8, n: usize)
    ensures
        final(out)@ == old(out)@ + repeated(b, n as nat),
{
    let mut i: usize = 0;
    while i < n
        invariant
            i <= n,
            out@ == old(out)@ + repeated(b, i as nat),
        decreases n - i,
    {
        out.push(b);
        proof {
            assert(old(out)@ + repeated(b, (i + 1) as nat) =~= (old(out)@ + repeated(
                b,
                i as nat,
            )).push(b));
        }
        i = i + 1;
    }
}

/// Appends the fixed-width octal digits of `n`.
pub fn push_oct(out: &mut Vec<u8>, n: u128, w: usize)
    ensures
        final(out)@ == old(out)@ + oct_fixed(n as nat, w as nat),
    decreases w,
{
    if w == 0 {
        proof {
            assert(old(out)@ + oct_fixed(n as nat, 0) =~= old(out)@);
        }
    } else {
        push_oct(out, n / 8, w - 1);
        push_byte(out, 0x30 + ((n % 8) as u8));
        proof {
            assert(old(out)@ + oct_fixed(n as nat, w as nat) =~= (old(out)@ + oct_fixed(
                (n / 8) as nat,
                (w - 1) as nat,
            )).push((0x30 + (n as nat) % 8) as u8));
        }
    }
}

/// Sums the bytes of a vector.
fn sum_vec(v: &Vec<u8>) -> (s: u128)
    ensures
        s == sum_bytes(v@),
        s <= 255 * v@.len(),
{
    let mut s: u128 = 0;
    let mut i: usize = 0;
    while i < v.len()
        invariant
            i <= v@.len(),
            s == sum_bytes(v@.take(i as int)),
            s <= 255 * i,
        decreases v@.len() - i,
    {
        s = s + (v[i] as u128);
        proof {
            assert(v@.take(i + 1).drop_last() =~= v@.take(i as int));
        }
        i = i + 1;
    }
    proof {
        assert(v@.take(v@.len() as int) =~= v@);
    }
    s
}

/// The sum of the fixed tail of a header.
proof fn lemma_header_back_sum()
    ensures
        sum_bytes(header_back()) == 703,
{
    let magic = seq![0x75u8, 0x73u8, 0x74u8, 0x61u8, 0x72u8, 0x00u8, 0x30u8, 0x30u8];
    lemma_sum_repeated(0, 100);
    lemma_sum_repeated(0, 247);
    lemma_sum_bytes_add(seq![0x30u8], repeated(0, 100));
    lemma_sum_bytes_add(seq![0x30u8] + repeated(0, 100), magic);
    lemma_sum_bytes_add(seq![0x30u8] + repeated(0, 100) + magic, repeated(0, 247));
    assert(sum_bytes(seq![0x30u8]) == 0x30) by {
        assert(sum_bytes(Seq::<u8>::empty()) == 0);
        assert(seq![0x30u8].drop_last() =~= Seq::<u8>::empty());
    }
    assert(sum_bytes(magic) == 655) by {
        let m7 = seq![0x75u8, 0x73u8, 0x74u8, 0x61u8, 0x72u8, 0x00u8, 0x30u8];
        let m6 = seq![0x75u8, 0x73u8, 0x74u8, 0x61u8, 0x72u8, 0x00u8];
        let m5 = seq![0x75u8, 0x73u8, 0x74u8, 0x61u8, 0x72u8];
        let m4 = seq![0x75u8, 0x73u8, 0x74u8, 0x61u8];
        let m3 = seq![0x75u8, 0x73u8, 0x74u8];
        let m2 = seq![0x75u8, 0x73u8];
        let m1 = seq![0x75u8];
        assert(sum_bytes(Seq::<u8>::empty()) == 0);
        assert(m1.drop_last() =~= Seq::<u8>::empty());
        assert(sum_bytes(m1) == 0x75);
        assert(m2.drop_last() =~= m1);
        assert(sum_bytes(m2) == 0xe8);
        assert(m3.drop_last() =~= m2);
        assert(sum_bytes(m3) == 0x15c);
        assert(m4.drop_last() =~= m3);
        assert(sum_bytes(m4) == 0x1bd);
        assert(m5.drop_last() =~= m4);
        assert(sum_bytes(m5) == 0x22f);
        assert(m6.drop_last() =~= m5);
        assert(sum_bytes(m6) == 0x22f);
        assert(m7.drop_last() =~= m6);
        assert(sum_bytes(m7) == 0x25f);
        assert(magic.drop_last() =~= m7);
    }
    assert(header_back() =~= seq![0x30u8] + repeated(0, 100) + magic + repeated(0, 247));
}

/// Appends one archive entry: a 512-byte header with the entry's name and
/// size, the data, and zero padding to a whole block.
pub fn push_tar_entry(out: &mut Vec<u8>, path: &Vec<u8>, data: &Vec<u8>)
    requires
        data@.len() < 0x200000000,
    ensures
        final(out)@ == old(out)@ + tar_entry(path@, data@),
{
    let mut hdr: Vec<u8> = Vec::new();
    push_bytes(&mut hdr, path.as_slice());
    let fill: usize = if path.len() < 100 {
        100 - path.len()
    } else {
        0
    };
    push_repeated(&mut hdr, 0, fill);
    push_repeated(&mut hdr, 0, 24);
    push_oct(&mut hdr, data.len() as u128, 11);
    push_byte(&mut hdr, 0);
    push_repeated(&mut hdr, 0, 12);
    proof {
        assert(hdr@ =~= header_front(path@, data@.len() as nat));
    }
    let hdr_len = hdr.len();
    let front_sum = sum_vec(&hdr);
    proof {
        assert(front_sum <= 255 * (hdr_len as int));
    }
    let chk: u128 = front_sum + 8 * 0x20 + 703;
    proof {
        lemma_header_back_sum();
        assert(chk == header_sum(path@, data@.len() as nat));
    }
    push_oct(&mut hdr, chk, 6);
    push_byte(&mut hdr, 0x00);
    push_byte(&mut hdr, 0x20);
    push_byte(&mut hdr, 0x30);
    push_repeated(&mut hdr, 0, 100);
    push_bytes(&mut hdr, &[0x75, 0x73, 0x74, 0x61, 0x72, 0x00, 0x30, 0x30]);
    push_repeated(&mut hdr, 0, 247);
    proof {
        assert(hdr@ =~= tar_header(path@, data@.len() as nat)) by {
            assert(seq![0x75u8, 0x73u8, 0x74u8, 0x61u8, 0x72u8, 0x00u8, 0x30u8, 0x30u8]
                =~= [0x75u8, 0x73u8, 0x74u8, 0x61u8, 0x72u8, 0x00u8, 0x30u8, 0x30u8]@);
        }
    }
    push_bytes(out, hdr.as_slice());
    push_bytes(out, data.as_slice());
    let pad = (512 - (data.len() % 512)) % 512;
    push_repeated(out, 0, pad);
    proof {
        assert(final(out)@ =~= old(out)@ + tar_entry(path@, data@));
    }
}

/// Appends the two zeroed blocks that end an archive.
pub fn push_tar_end(out: &mut Vec<u8>)
    ensures
        final(out)@ == old(out)@ + tar_end(),
{
    push_repeated(out, 0, 1024);
}

/// The raw DEFLATE stream the compression crate produces for some bytes at
/// best compression; with the pure-Rust backend it is a function of the
/// bytes alone.
pub uninterp spec fn deflate_of(data: Seq<u8>) -> Seq<u8>;

/// The IEEE CRC-32 checksum of some bytes.
pub uninterp spec fn crc32_of(data: Seq<u8>) -> u32;

/// Relies on flate2::write::DeflateEncoder (rust backend, best compression):
/// writing all the bytes and finishing yields the raw DEFLATE stream for
/// them, a function of the bytes alone.
#[verifier::external_body]
fn deflate_best(data: &Vec<u8>) -> (r: Option<Vec<u8>>)
    ensures
        r matches Some(v) ==> v@ == deflate_of(data@),
{
    let mut enc = flate2::write::DeflateEncoder::new(Vec::new(), flate2::Compression::best());
    match enc.write_all(data.as_slice()) {
        Ok(()) => enc.finish().ok(),
        Err(_) => None,
    }
}

/// Relies on crc32fast::hash: the IEEE CRC-32 checksum of the bytes, a
/// function of the bytes alone.
#[verifier::external_body]
fn crc32(data: &Vec<u8>) -> (r: u32)
    ensures
        r == crc32_of(data@),
{
    crc32fast::hash(data.as_slice())
}

/// The little-endian encoding of a 32-bit number.
pub open spec fn le32(n: u32) -> Seq<u8> {
    seq![(n & 0xff) as u8, ((n >> 8) & 0xff) as u8, ((n >> 16) & 0xff) as u8, ((n >> 24)
        & 0xff) as u8]
}

/// A gzip container around some bytes: a fixed header (deflate method, no
/// flags, zero timestamp, best-compression marker, unknown system), the
/// DEFLATE stream, the checksum and the length of the original bytes.
pub open spec fn gzip_of(data: Seq<u8>) -> Seq<u8> {
    seq![0x1fu8, 0x8bu8, 0x08u8, 0x00u8, 0x00u8, 0x00u8, 0x00u8, 0x00u8, 0x02u8, 0xffu8]
        + deflate_of(data) + le32(crc32_of(data)) + le32((data.len() % 0x100000000) as u32)
}

/// Compresses some bytes into a gzip container. Returns nothing only when
/// the compression crate reports a failure.
pub fn gzip(data: &Vec<u8>) -> (r: Option<Vec<u8>>)
    ensures
        r matches Some(v) ==> v@ == gzip_of(data@),
{
    let compressed = match deflate_best(data) {
        Some(c) => c,
        None => {
            return None;
        },
    };
    let c = crc32(data);
    let mut out: Vec<u8> = Vec::new();
    push_bytes(&mut out, &[0x1f, 0x8b, 0x08, 0x00, 0x00, 0x00, 0x00, 0x00, 0x02, 0xff]);
    push_bytes(&mut out, compressed.as_slice());
    push_byte(&mut out, (c & 0xff) as u8);
    push_byte(&mut out, ((c >> 8) & 0xff) as u8);
    push_byte(&mut out, ((c >> 16) & 0xff) as u8);
    push_byte(&mut out, ((c >> 24) & 0xff) as u8);
    let n = ((data.len() as u64) % 0x100000000) as u32;
    push_byte(&mut out, (n & 0xff) as u8);
    push_byte(&mut out, ((n >> 8) & 0xff) as u8);
    push_byte(&mut out, ((n >> 16) & 0xff) as u8);
    push_byte(&mut out, ((n >> 24) & 0xff) as u8);
    proof {
        assert(seq![0x1fu8, 0x8bu8, 0x08u8, 0x00u8, 0x00u8, 0x00u8, 0x00u8, 0x00u8, 0x02u8, 0xffu8]
            =~= [0x1fu8, 0x8bu8, 0x08u8, 0x00u8, 0x00u8, 0x00u8, 0x00u8, 0x00u8, 0x02u8, 0xffu8]@);
        assert(out@ =~= gzip_of(data@));
    }
    Some(out)
}

} // verus!
