use vstd::prelude::*;
use crate::defs::{FLOAT32, FLOAT64, ARRAY16, ARRAY32, BIN16, BIN32, BIN8, MAP16, MAP32, STR16, STR32, STR8, INT16, INT32, INT64, INT8, NIL, UINT16, UINT32, UINT64, UINT8};
use crate::de::{
    dec_array_len, dec_bin, dec_bool, dec_int, dec_map_len, dec_nil, dec_str_bytes, dec_uint,
    dec_f32_bits, dec_f64_bits, field, is_unsupported_tag, kind_of, signed_field, unsigned_field,
};
use crate::error::{Error, Reason};
use crate::ser::{wrote, ByteSink, Serializer};
use crate::format::{
    array_header, be, be_value, bin_header, enc_bool, enc_i64, enc_u64, fits_class,
    lemma_be_lens, lemma_be_round_trip, lemma_be_value_bound, lemma_pow256, map_header, pow256, str_header, twos,
};

verus! {

/// The field of `k` bytes after a tag, written from `n`, reads back as `n`.
proof fn lemma_field_of(tag: u8, n: nat, k: nat, rest: Seq<u8>)
    requires
        n < pow256(k),
    ensures
        field(seq![tag] + be(n, k) + rest, k) == Ok::<(nat, nat), Reason>((n, 1 + k)),
{
    lemma_be_round_trip(n, k);
    let s = seq![tag] + be(n, k) + rest;
    assert(s.subrange(1, (1 + k) as int) =~= be(n, k));
}

/// An unsigned integer decodes to itself, whatever follows it.
pub proof fn lemma_round_trip_u64(v: u64, rest: Seq<u8>)
    ensures
        dec_uint(enc_u64(v as nat) + rest) == Ok::<(nat, nat), Reason>((v as nat, enc_u64(v as nat).len())),
{
    lemma_pow256();
    let n = v as nat;
    if n <= 127 {
        assert((enc_u64(n) + rest)[0] == n as u8);
    } else if n <= 0xff {
        assert(be(n, 1) =~= seq![n as u8]) by {
            assert(be((n / 256) as nat, 0) =~= Seq::<u8>::empty());
        }
        lemma_field_of(UINT8, n, 1, rest);
        assert(enc_u64(n) + rest =~= seq![UINT8] + be(n, 1) + rest);
    } else if n <= 0xffff {
        lemma_field_of(UINT16, n, 2, rest);
        lemma_be_round_trip(n, 2);
    } else if n <= 0xffff_ffff {
        lemma_field_of(UINT32, n, 4, rest);
        lemma_be_round_trip(n, 4);
    } else {
        lemma_field_of(UINT64, n, 8, rest);
        lemma_be_round_trip(n, 8);
    }
}


proof fn lemma_signed_field_of(tag: u8, v: int, k: nat, rest: Seq<u8>)
    requires
        -pow256(k) / 2 <= v < pow256(k) / 2,
    ensures
        signed_field(seq![tag] + be(twos(v, pow256(k) as int), k) + rest, k, pow256(k) as int)
            == Ok::<(int, nat), Reason>((v, 1 + k)),
{
    lemma_field_of(tag, twos(v, pow256(k) as int), k, rest);
}

proof fn lemma_unsigned_field_of(tag: u8, v: nat, k: nat, rest: Seq<u8>)
    requires
        v < pow256(k),
    ensures
        unsigned_field(seq![tag] + be(v, k) + rest, k) == Ok::<(int, nat), Reason>((v as int, 1 + k)),
{
    lemma_field_of(tag, v, k, rest);
}

proof fn lemma_be_one(n: nat)
    requires
        n < 256,
    ensures
        be(n, 1) == seq![n as u8],
{
    assert(be((n / 256) as nat, 0) =~= Seq::<u8>::empty());
    assert(be(n, 1) =~= seq![n as u8]);
}

/// A signed integer decodes to itself, whatever follows it.
pub proof fn lemma_round_trip_i64(v: i64, rest: Seq<u8>)
    ensures
        dec_int(enc_i64(v as int) + rest) == Ok::<(int, nat), Reason>((v as int, enc_i64(v as int).len())),
{
    lemma_pow256();
    let x = v as int;
    let s = enc_i64(x) + rest;
    if -32 <= x <= 127 {
        assert(s[0] == twos(x, 256) as u8);
    } else if -128 <= x <= 127 {
        lemma_be_one(twos(x, 256));
        assert(s =~= seq![INT8] + be(twos(x, 256), 1) + rest);
        lemma_signed_field_of(INT8, x, 1, rest);
    } else if 0 <= x <= 0xff {
        lemma_be_one(x as nat);
        assert(s =~= seq![UINT8] + be(x as nat, 1) + rest);
        lemma_unsigned_field_of(UINT8, x as nat, 1, rest);
    } else if -0x8000 <= x <= 0x7fff {
        lemma_signed_field_of(INT16, x, 2, rest);
        lemma_be_round_trip(twos(x, 0x1_0000), 2);
    } else if 0 <= x <= 0xffff {
        lemma_unsigned_field_of(UINT16, x as nat, 2, rest);
        lemma_be_round_trip(x as nat, 2);
    } else if -0x8000_0000 <= x <= 0x7fff_ffff {
        lemma_signed_field_of(INT32, x, 4, rest);
        lemma_be_round_trip(twos(x, 0x1_0000_0000), 4);
    } else if 0 <= x <= 0xffff_ffff {
        lemma_unsigned_field_of(UINT32, x as nat, 4, rest);
        lemma_be_round_trip(x as nat, 4);
    } else {
        lemma_signed_field_of(INT64, x, 8, rest);
        lemma_be_round_trip(twos(x, 0x1_0000_0000_0000_0000), 8);
    }
}

/// A boolean decodes to itself, whatever follows it.
pub proof fn lemma_round_trip_bool(v: bool, rest: Seq<u8>)
    ensures
        dec_bool(enc_bool(v) + rest) == Ok::<(bool, nat), Reason>((v, 1)),
{
    assert((enc_bool(v) + rest)[0] == enc_bool(v)[0]);
}

/// The absent value decodes, whatever follows it.
pub proof fn lemma_round_trip_nil(rest: Seq<u8>)
    ensures
        dec_nil(seq![NIL] + rest) == Ok::<nat, Reason>(1),
{
    assert((seq![NIL] + rest)[0] == NIL);
}


/// An array header decodes to the length it was written for, whatever follows it.
pub proof fn lemma_round_trip_array_len(n: nat, rest: Seq<u8>)
    requires
        fits_class(n),
    ensures
        dec_array_len(array_header(n) + rest) == Ok::<(nat, nat), Reason>((n, array_header(n).len())),
{
    lemma_pow256();
    let s = array_header(n) + rest;
    if n <= 15 {
        assert(s[0] == (0x90 + n) as u8);
    } else if n <= 0xffff {
        lemma_field_of(ARRAY16, n, 2, rest);
        lemma_be_round_trip(n, 2);
    } else {
        lemma_field_of(ARRAY32, n, 4, rest);
        lemma_be_round_trip(n, 4);
    }
}

/// A map header decodes to the number of entries it was written for, whatever follows it.
pub proof fn lemma_round_trip_map_len(n: nat, rest: Seq<u8>)
    requires
        fits_class(n),
    ensures
        dec_map_len(map_header(n) + rest) == Ok::<(nat, nat), Reason>((n, map_header(n).len())),
{
    lemma_pow256();
    let s = map_header(n) + rest;
    if n <= 15 {
        assert(s[0] == (0x80 + n) as u8);
    } else if n <= 0xffff {
        lemma_field_of(MAP16, n, 2, rest);
        lemma_be_round_trip(n, 2);
    } else {
        lemma_field_of(MAP32, n, 4, rest);
        lemma_be_round_trip(n, 4);
    }
}

/// A string, given by its UTF-8 bytes, decodes to those bytes, whatever follows it.
pub proof fn lemma_round_trip_str(b: Seq<u8>, rest: Seq<u8>)
    requires
        fits_class(b.len()),
    ensures
        dec_str_bytes(str_header(b.len()) + b + rest)
            == Ok::<(Seq<u8>, nat), Reason>((b, str_header(b.len()).len() + b.len())),
{
    lemma_pow256();
    let n = b.len();
    let h = str_header(n);
    let s = h + b + rest;
    assert(s =~= h + (b + rest));
    if n <= 31 {
        assert(s[0] == (0xa0 + n) as u8);
    } else if n <= 0xff {
        lemma_be_one(n);
        assert(h =~= seq![STR8] + be(n, 1));
        lemma_field_of(STR8, n, 1, b + rest);
    } else if n <= 0xffff {
        lemma_field_of(STR16, n, 2, b + rest);
        lemma_be_round_trip(n, 2);
    } else {
        lemma_field_of(STR32, n, 4, b + rest);
        lemma_be_round_trip(n, 4);
    }
    assert(s.subrange(h.len() as int, (h.len() + n) as int) =~= b);
}

/// A byte string decodes to itself, whatever follows it.
pub proof fn lemma_round_trip_bytes(b: Seq<u8>, rest: Seq<u8>)
    requires
        fits_class(b.len()),
    ensures
        dec_bin(bin_header(b.len()) + b + rest)
            == Ok::<(Seq<u8>, nat), Reason>((b, bin_header(b.len()).len() + b.len())),
{
    lemma_pow256();
    let n = b.len();
    let h = bin_header(n);
    let s = h + b + rest;
    assert(s =~= h + (b + rest));
    if n <= 0xff {
        lemma_be_one(n);
        assert(h =~= seq![BIN8] + be(n, 1));
        lemma_field_of(BIN8, n, 1, b + rest);
    } else if n <= 0xffff {
        lemma_field_of(BIN16, n, 2, b + rest);
        lemma_be_round_trip(n, 2);
    } else {
        lemma_field_of(BIN32, n, 4, b + rest);
        lemma_be_round_trip(n, 4);
    }
    assert(s.subrange(h.len() as int, (h.len() + n) as int) =~= b);
}


proof fn lemma_field_bound(s: Seq<u8>, k: nat)
    requires
        field(s, k) is Ok,
    ensures
        field(s, k)->Ok_0.0 < pow256(k),
        field(s, k)->Ok_0.1 == 1 + k,
{
    lemma_be_value_bound(s.subrange(1, (1 + k) as int));
}

/// No encoding of an unsigned integer is shorter than the one the encoder picks.
pub proof fn lemma_minimal_u64(s: Seq<u8>, v: nat, n: nat)
    requires
        dec_uint(s) == Ok::<(nat, nat), Reason>((v, n)),
    ensures
        enc_u64(v).len() <= n,
{
    lemma_pow256();
    lemma_be_lens(v);
    let t = s[0];
    if t == UINT8 {
        lemma_field_bound(s, 1);
    } else if t == UINT16 {
        lemma_field_bound(s, 2);
    } else if t == UINT32 {
        lemma_field_bound(s, 4);
    } else if t == UINT64 {
        lemma_field_bound(s, 8);
    }
}

/// No encoding of a signed integer is shorter than the one the encoder picks.
pub proof fn lemma_minimal_i64(s: Seq<u8>, v: int, n: nat)
    requires
        dec_int(s) == Ok::<(int, nat), Reason>((v, n)),
    ensures
        enc_i64(v).len() <= n,
{
    lemma_pow256();
    lemma_be_lens(twos(v, 0x1_0000));
    lemma_be_lens(twos(v, 0x1_0000_0000));
    lemma_be_lens(twos(v, 0x1_0000_0000_0000_0000));
    lemma_be_lens(v as nat);
    let t = s[0];
    if t == INT8 || t == UINT8 {
        lemma_field_bound(s, 1);
    } else if t == INT16 || t == UINT16 {
        lemma_field_bound(s, 2);
    } else if t == INT32 || t == UINT32 {
        lemma_field_bound(s, 4);
    } else if t == INT64 || t == UINT64 {
        lemma_field_bound(s, 8);
    }
}

/// Every decoder fails on empty input, with `EndOfStream`.
pub proof fn lemma_empty_input_fails()
    ensures
        dec_uint(Seq::empty()) == Err::<(nat, nat), Reason>(Reason::EndOfStream),
        dec_int(Seq::empty()) == Err::<(int, nat), Reason>(Reason::EndOfStream),
        dec_bool(Seq::empty()) == Err::<(bool, nat), Reason>(Reason::EndOfStream),
        dec_nil(Seq::empty()) == Err::<nat, Reason>(Reason::EndOfStream),
        dec_array_len(Seq::empty()) == Err::<(nat, nat), Reason>(Reason::EndOfStream),
        dec_map_len(Seq::empty()) == Err::<(nat, nat), Reason>(Reason::EndOfStream),
        dec_str_bytes(Seq::empty()) == Err::<(Seq<u8>, nat), Reason>(Reason::EndOfStream),
        dec_bin(Seq::empty()) == Err::<(Seq<u8>, nat), Reason>(Reason::EndOfStream),
{
}

/// Every decoder fails on a tag that no rule of the format recognizes, with `Invalid`.
pub proof fn lemma_unsupported_tag_fails(t: u8, rest: Seq<u8>)
    requires
        is_unsupported_tag(t),
    ensures
        dec_uint(seq![t] + rest) == Err::<(nat, nat), Reason>(Reason::Invalid),
        dec_int(seq![t] + rest) == Err::<(int, nat), Reason>(Reason::Invalid),
        dec_bool(seq![t] + rest) == Err::<(bool, nat), Reason>(Reason::Invalid),
        dec_nil(seq![t] + rest) == Err::<nat, Reason>(Reason::Invalid),
        dec_array_len(seq![t] + rest) == Err::<(nat, nat), Reason>(Reason::Invalid),
        dec_map_len(seq![t] + rest) == Err::<(nat, nat), Reason>(Reason::Invalid),
        dec_str_bytes(seq![t] + rest) == Err::<(Seq<u8>, nat), Reason>(Reason::Invalid),
        dec_bin(seq![t] + rest) == Err::<(Seq<u8>, nat), Reason>(Reason::Invalid),
{
    assert((seq![t] + rest)[0] == t);
}


/// Two encoders that start empty on sinks that never fail, each handed the same integer,
/// both succeed and end with the same bytes.
pub proof fn lemma_encoders_agree<S: ByteSink, T: ByteSink>(
    a0: Serializer<S>,
    a1: Serializer<S>,
    ra: Result<(), Error>,
    b0: Serializer<T>,
    b1: Serializer<T>,
    rb: Result<(), Error>,
    v: i64,
)
    requires
        a0@ == Seq::<u8>::empty(),
        b0@ == Seq::<u8>::empty(),
        a0.never_fails(),
        b0.never_fails(),
        wrote(a0, a1, ra, enc_i64(v as int)),
        wrote(b0, b1, rb, enc_i64(v as int)),
    ensures
        ra is Ok,
        rb is Ok,
        a1@ == b1@,
{
}


/// The start of a variant with a payload, `[index, ...]` with `n` elements in all, decodes
/// to the element count and then the index; what follows is left as it was.
pub proof fn lemma_round_trip_variant_head(n: nat, index: u64, rest: Seq<u8>)
    requires
        fits_class(n),
    ensures
        ({
            let s = array_header(n) + enc_u64(index as nat) + rest;
            let h = array_header(n).len();
            let k = enc_u64(index as nat).len();
            &&& dec_array_len(s) == Ok::<(nat, nat), Reason>((n, h))
            &&& dec_uint(s.subrange(h as int, s.len() as int)) == Ok::<(nat, nat), Reason>((index as nat, k))
            &&& s.subrange((h + k) as int, s.len() as int) == rest
        }),
{
    let e = enc_u64(index as nat);
    let s = array_header(n) + e + rest;
    let h = array_header(n).len();
    assert(s =~= array_header(n) + (e + rest));
    lemma_round_trip_array_len(n, e + rest);
    assert(s.subrange(h as int, s.len() as int) =~= e + rest);
    lemma_round_trip_u64(index, rest);
    assert(s.subrange((h + e.len()) as int, s.len() as int) =~= rest);
}

/// A variant with named fields, `[index, {fields}]`, decodes to two elements, the index and
/// then the number of fields; the fields follow.
pub proof fn lemma_round_trip_struct_variant_head(index: u64, len: nat, rest: Seq<u8>)
    requires
        fits_class(len),
    ensures
        ({
            let s = array_header(2) + enc_u64(index as nat) + map_header(len) + rest;
            let h = array_header(2).len();
            let k = enc_u64(index as nat).len();
            let m = map_header(len).len();
            &&& dec_array_len(s) == Ok::<(nat, nat), Reason>((2, h))
            &&& dec_uint(s.subrange(h as int, s.len() as int)) == Ok::<(nat, nat), Reason>((index as nat, k))
            &&& dec_map_len(s.subrange((h + k) as int, s.len() as int)) == Ok::<(nat, nat), Reason>((len, m))
            &&& s.subrange((h + k + m) as int, s.len() as int) == rest
        }),
{
    let e = enc_u64(index as nat);
    let mh = map_header(len);
    let s = array_header(2) + e + mh + rest;
    assert(s =~= array_header(2) + e + (mh + rest));
    lemma_round_trip_variant_head(2, index, mh + rest);
    lemma_round_trip_map_len(len, rest);
    let h = array_header(2).len();
    assert(s.subrange((h + e.len()) as int, s.len() as int) =~= mh + rest);
    assert(s.subrange((h + e.len() + mh.len()) as int, s.len() as int) =~= rest);
}


/// Every tag byte starts exactly one kind of value, except those that no rule recognizes.
pub proof fn lemma_tag_table_total(t: u8)
    ensures
        kind_of(t) is None <==> is_unsupported_tag(t),
{
}

/// A float, given by its bits, decodes to those bits, whatever follows it.
pub proof fn lemma_round_trip_floats(bits32: u32, bits64: u64, rest: Seq<u8>)
    ensures
        dec_f32_bits(seq![FLOAT32] + be(bits32 as nat, 4) + rest) == Ok::<(nat, nat), Reason>((bits32 as nat, 5)),
        dec_f64_bits(seq![FLOAT64] + be(bits64 as nat, 8) + rest) == Ok::<(nat, nat), Reason>((bits64 as nat, 9)),
{
    lemma_pow256();
    lemma_field_of(FLOAT32, bits32 as nat, 4, rest);
    lemma_field_of(FLOAT64, bits64 as nat, 8, rest);
}

} // verus!
