use vstd::prelude::*;
use byteorder::{BigEndian, ByteOrder};
use crate::defs::{
    ARRAY16, ARRAY32, BIN16, BIN32, BIN8, FALSE, FIXARRAY_MASK, FIXMAP_MASK, FIXSTR_MASK, INT16, INT32,
    INT64, INT8, MAP16, MAP32, STR16, STR32, STR8, TRUE, UINT16, UINT32, UINT64, UINT8,
};

verus! {

/// The `k` low-order bytes of `n`, most significant first.
pub open spec fn be(n: nat, k: nat) -> Seq<u8>
    decreases k,
{
    if k == 0 {
        seq![]
    } else {
        be(n / 256, (k - 1) as nat).push((n % 256) as u8)
    }
}

/// The number that a big-endian byte sequence denotes.
pub open spec fn be_value(s: Seq<u8>) -> nat
    decreases s.len(),
{
    if s.len() == 0 {
        0
    } else {
        be_value(s.drop_last()) * 256 + s.last() as nat
    }
}

pub open spec fn pow256(k: nat) -> nat
    decreases k,
{
    if k == 0 {
        1
    } else {
        256 * pow256((k - 1) as nat)
    }
}

/// The bit pattern of `v` as a two's-complement number modulo `modulus`.
pub open spec fn twos(v: int, modulus: int) -> nat {
    if v < 0 {
        (v + modulus) as nat
    } else {
        v as nat
    }
}

/// The unsigned ladder: positive fixint, then uint8/16/32/64.
pub open spec fn enc_u64(v: nat) -> Seq<u8> {
    if v <= 127 {
        seq![v as u8]
    } else if v <= 0xff {
        seq![UINT8, v as u8]
    } else if v <= 0xffff {
        seq![UINT16] + be(v, 2)
    } else if v <= 0xffff_ffff {
        seq![UINT32] + be(v, 4)
    } else {
        seq![UINT64] + be(v, 8)
    }
}

/// The signed ladder: fixint, int8, uint8, int16, uint16, int32, uint32, int64.
pub open spec fn enc_i64(v: int) -> Seq<u8> {
    if -32 <= v <= 127 {
        seq![twos(v, 256) as u8]
    } else if -128 <= v <= 127 {
        seq![INT8, twos(v, 256) as u8]
    } else if 0 <= v <= 0xff {
        seq![UINT8, v as u8]
    } else if -0x8000 <= v <= 0x7fff {
        seq![INT16] + be(twos(v, 0x1_0000), 2)
    } else if 0 <= v <= 0xffff {
        seq![UINT16] + be(v as nat, 2)
    } else if -0x8000_0000 <= v <= 0x7fff_ffff {
        seq![INT32] + be(twos(v, 0x1_0000_0000), 4)
    } else if 0 <= v <= 0xffff_ffff {
        seq![UINT32] + be(v as nat, 4)
    } else {
        seq![INT64] + be(twos(v, 0x1_0000_0000_0000_0000), 8)
    }
}

pub open spec fn enc_bool(v: bool) -> Seq<u8> {
    if v {
        seq![TRUE]
    } else {
        seq![FALSE]
    }
}

/// Header of a string of `n` bytes: fixstr, str8, str16, str32.
pub open spec fn str_header(n: nat) -> Seq<u8> {
    if n <= 31 {
        seq![(FIXSTR_MASK + n) as u8]
    } else if n <= 0xff {
        seq![STR8, n as u8]
    } else if n <= 0xffff {
        seq![STR16] + be(n, 2)
    } else {
        seq![STR32] + be(n, 4)
    }
}

/// Header of a byte string of `n` bytes: bin8, bin16, bin32.
pub open spec fn bin_header(n: nat) -> Seq<u8> {
    if n <= 0xff {
        seq![BIN8, n as u8]
    } else if n <= 0xffff {
        seq![BIN16] + be(n, 2)
    } else {
        seq![BIN32] + be(n, 4)
    }
}

/// Header of an array of `n` elements: fixarray, array16, array32.
pub open spec fn array_header(n: nat) -> Seq<u8> {
    if n <= 15 {
        seq![(FIXARRAY_MASK + n) as u8]
    } else if n <= 0xffff {
        seq![ARRAY16] + be(n, 2)
    } else {
        seq![ARRAY32] + be(n, 4)
    }
}

/// Header of a map of `n` entries: fixmap, map16, map32.
pub open spec fn map_header(n: nat) -> Seq<u8> {
    if n <= 15 {
        seq![(FIXMAP_MASK + n) as u8]
    } else if n <= 0xffff {
        seq![MAP16] + be(n, 2)
    } else {
        seq![MAP32] + be(n, 4)
    }
}

/// The UTF-8 encoding of a string, as `str::as_bytes` gives it.
pub uninterp spec fn utf8_of(s: Seq<char>) -> Seq<u8>;

/// The largest length that any size class holds.
pub open spec fn fits_class(n: nat) -> bool {
    n <= 0xffff_ffff
}

/// Relies on byteorder's `BigEndian::write_u16`: the two bytes of `n`, most significant first.
#[verifier::external_body]
pub(crate) fn write_be16(n: u16) -> (r: Vec<u8>)
    ensures
        r@ == be(n as nat, 2),
{
    let mut buf = vec![0u8; 2];
    BigEndian::write_u16(&mut buf, n);
    buf
}

/// Relies on byteorder's `BigEndian::write_u32`: the four bytes of `n`, most significant first.
#[verifier::external_body]
pub(crate) fn write_be32(n: u32) -> (r: Vec<u8>)
    ensures
        r@ == be(n as nat, 4),
{
    let mut buf = vec![0u8; 4];
    BigEndian::write_u32(&mut buf, n);
    buf
}

/// Relies on byteorder's `BigEndian::write_u64`: the eight bytes of `n`, most significant first.
#[verifier::external_body]
pub(crate) fn write_be64(n: u64) -> (r: Vec<u8>)
    ensures
        r@ == be(n as nat, 8),
{
    let mut buf = vec![0u8; 8];
    BigEndian::write_u64(&mut buf, n);
    buf
}

/// Relies on byteorder's `BigEndian::read_u16`: the number that the two bytes at `at` denote.
#[verifier::external_body]
pub(crate) fn read_be16(b: &Vec<u8>, at: usize) -> (r: u16)
    requires
        at + 2 <= b@.len(),
    ensures
        r as nat == be_value(b@.subrange(at as int, at + 2)),
{
    BigEndian::read_u16(&b[at..])
}

/// Relies on byteorder's `BigEndian::read_u32`: the number that the four bytes at `at` denote.
#[verifier::external_body]
pub(crate) fn read_be32(b: &Vec<u8>, at: usize) -> (r: u32)
    requires
        at + 4 <= b@.len(),
    ensures
        r as nat == be_value(b@.subrange(at as int, at + 4)),
{
    BigEndian::read_u32(&b[at..])
}

/// Relies on byteorder's `BigEndian::read_u64`: the number that the eight bytes at `at` denote.
#[verifier::external_body]
pub(crate) fn read_be64(b: &Vec<u8>, at: usize) -> (r: u64)
    requires
        at + 8 <= b@.len(),
    ensures
        r as nat == be_value(b@.subrange(at as int, at + 8)),
{
    BigEndian::read_u64(&b[at..])
}

/// Reading back `k` big-endian bytes gives the number they were written from.
pub proof fn lemma_be_round_trip(n: nat, k: nat)
    requires
        n < pow256(k),
    ensures
        be(n, k).len() == k,
        be_value(be(n, k)) == n,
    decreases k,
{
    if k == 0 {
        assert(n == 0);
    } else {
        let p = pow256((k - 1) as nat);
        assert(n / 256 < p) by (nonlinear_arith)
            requires
                n < 256 * p,
        ;
        lemma_be_round_trip(n / 256, (k - 1) as nat);
        let s = be(n, k);
        assert(s.drop_last() =~= be(n / 256, (k - 1) as nat));
        assert(n == (n / 256) * 256 + n % 256) by (nonlinear_arith);
    }
}

pub proof fn lemma_pow256()
    ensures
        pow256(1) == 0x100,
        pow256(2) == 0x1_0000,
        pow256(4) == 0x1_0000_0000,
        pow256(8) == 0x1_0000_0000_0000_0000,
{
    reveal_with_fuel(pow256, 9);
}


/// A number read from `k` bytes is below `256^k`.
pub proof fn lemma_be_value_bound(s: Seq<u8>)
    ensures
        be_value(s) < pow256(s.len()),
    decreases s.len(),
{
    if s.len() > 0 {
        lemma_be_value_bound(s.drop_last());
        let a = be_value(s.drop_last());
        let p = pow256((s.len() - 1) as nat);
        let b = s.last() as nat;
        assert(a * 256 + b < 256 * p) by (nonlinear_arith)
            requires
                a < p,
                b < 256,
        ;
    }
}


pub proof fn lemma_be_len(n: nat, k: nat)
    ensures
        be(n, k).len() == k,
    decreases k,
{
    if k > 0 {
        lemma_be_len(n / 256, (k - 1) as nat);
    }
}

pub proof fn lemma_be_lens(n: nat)
    ensures
        be(n, 2).len() == 2,
        be(n, 4).len() == 4,
        be(n, 8).len() == 8,
{
    lemma_be_len(n, 2);
    lemma_be_len(n, 4);
    lemma_be_len(n, 8);
}

} // verus!
