use vstd::prelude::*;
use crate::defs::{
    ARRAY16, ARRAY32, BIN16, BIN32, BIN8, FALSE, FLOAT32, FLOAT64, INT16, INT32, INT64, INT8, MAP16, MAP32, NIL,
    STR16, STR32, STR8, TRUE, UINT16, UINT32, UINT64, UINT8,
};
use crate::error::{Error, Reason};
use crate::format::{be_value, lemma_be_value_bound, lemma_pow256, pow256, read_be16, read_be32, read_be64};

verus! {

/// Tags that no rule of the wire format gives a meaning to here.
pub open spec fn is_unsupported_tag(t: u8) -> bool {
    t == 0xc1 || (0xc7 <= t && t <= 0xc9) || (0xd4 <= t && t <= 0xd8)
}

/// The error for a tag that is not of the kind asked for.
pub open spec fn mismatch(t: u8) -> Reason {
    if is_unsupported_tag(t) {
        Reason::Invalid
    } else {
        Reason::TypeMismatch
    }
}

/// The `k`-byte big-endian field that follows the tag, and the bytes used up in all.
pub open spec fn field(s: Seq<u8>, k: nat) -> Result<(nat, nat), Reason> {
    if s.len() < 1 + k {
        Err(Reason::EndOfStream)
    } else {
        Ok((be_value(s.subrange(1, (1 + k) as int)), (1 + k) as nat))
    }
}

/// A signed number from its `modulus`-wide two's-complement bit pattern.
pub open spec fn signed(u: nat, modulus: int) -> int {
    if u >= modulus / 2 {
        u - modulus
    } else {
        u as int
    }
}

/// Decoding an unsigned integer at the start of `s`: its value and the bytes used up.
pub open spec fn dec_uint(s: Seq<u8>) -> Result<(nat, nat), Reason> {
    if s.len() == 0 {
        Err(Reason::EndOfStream)
    } else {
        let t = s[0];
        if t <= 0x7f {
            Ok((t as nat, 1))
        } else if t == UINT8 {
            field(s, 1)
        } else if t == UINT16 {
            field(s, 2)
        } else if t == UINT32 {
            field(s, 4)
        } else if t == UINT64 {
            field(s, 8)
        } else {
            Err(mismatch(t))
        }
    }
}

pub open spec fn signed_field(s: Seq<u8>, k: nat, modulus: int) -> Result<(int, nat), Reason> {
    match field(s, k) {
        Ok((u, n)) => Ok((signed(u, modulus), n)),
        Err(e) => Err(e),
    }
}

pub open spec fn unsigned_field(s: Seq<u8>, k: nat) -> Result<(int, nat), Reason> {
    match field(s, k) {
        Ok((u, n)) => Ok((u as int, n)),
        Err(e) => Err(e),
    }
}

/// Decoding a signed integer at the start of `s`: any integer tag whose value fits 64 signed bits.
pub open spec fn dec_int(s: Seq<u8>) -> Result<(int, nat), Reason> {
    if s.len() == 0 {
        Err(Reason::EndOfStream)
    } else {
        let t = s[0];
        if t <= 0x7f {
            Ok((t as int, 1))
        } else if t >= 0xe0 {
            Ok((t - 256, 1))
        } else if t == INT8 {
            signed_field(s, 1, 0x100)
        } else if t == INT16 {
            signed_field(s, 2, 0x1_0000)
        } else if t == INT32 {
            signed_field(s, 4, 0x1_0000_0000)
        } else if t == INT64 {
            signed_field(s, 8, 0x1_0000_0000_0000_0000)
        } else if t == UINT8 {
            unsigned_field(s, 1)
        } else if t == UINT16 {
            unsigned_field(s, 2)
        } else if t == UINT32 {
            unsigned_field(s, 4)
        } else if t == UINT64 {
            match field(s, 8) {
                Ok((u, n)) => if u <= i64::MAX {
                    Ok((u as int, n))
                } else {
                    Err(Reason::TypeMismatch)
                },
                Err(e) => Err(e),
            }
        } else {
            Err(mismatch(t))
        }
    }
}

pub open spec fn dec_bool(s: Seq<u8>) -> Result<(bool, nat), Reason> {
    if s.len() == 0 {
        Err(Reason::EndOfStream)
    } else if s[0] == TRUE {
        Ok((true, 1))
    } else if s[0] == FALSE {
        Ok((false, 1))
    } else {
        Err(mismatch(s[0]))
    }
}

pub open spec fn dec_nil(s: Seq<u8>) -> Result<nat, Reason> {
    if s.len() == 0 {
        Err(Reason::EndOfStream)
    } else if s[0] == NIL {
        Ok(1)
    } else {
        Err(mismatch(s[0]))
    }
}

/// A length header of one family: the fixed-range tags from `fix_lo` with `fix_n` lengths
/// (none where `fix_n` is 0), and the tags with 1-, 2- and 4-byte length fields.
pub open spec fn dec_len(s: Seq<u8>, fix_lo: u8, fix_n: nat, t8: Option<u8>, t16: u8, t32: u8) -> Result<(nat, nat), Reason> {
    if s.len() == 0 {
        Err(Reason::EndOfStream)
    } else {
        let t = s[0];
        if fix_lo <= t && t < fix_lo + fix_n {
            Ok(((t - fix_lo) as nat, 1))
        } else if t8 == Some(t) {
            field(s, 1)
        } else if t == t16 {
            field(s, 2)
        } else if t == t32 {
            field(s, 4)
        } else {
            Err(mismatch(t))
        }
    }
}

pub open spec fn dec_array_len(s: Seq<u8>) -> Result<(nat, nat), Reason> {
    dec_len(s, 0x90, 16, None, ARRAY16, ARRAY32)
}

pub open spec fn dec_map_len(s: Seq<u8>) -> Result<(nat, nat), Reason> {
    dec_len(s, 0x80, 16, None, MAP16, MAP32)
}

pub open spec fn dec_str_len(s: Seq<u8>) -> Result<(nat, nat), Reason> {
    dec_len(s, 0xa0, 32, Some(STR8), STR16, STR32)
}

pub open spec fn dec_bin_len(s: Seq<u8>) -> Result<(nat, nat), Reason> {
    dec_len(s, 0, 0, Some(BIN8), BIN16, BIN32)
}

/// A length header followed by that many raw bytes: the bytes, and all the bytes used up.
pub open spec fn with_payload(s: Seq<u8>, h: Result<(nat, nat), Reason>) -> Result<(Seq<u8>, nat), Reason> {
    match h {
        Ok((n, k)) => if s.len() < k + n {
            Err(Reason::EndOfStream)
        } else {
            Ok((s.subrange(k as int, (k + n) as int), (k + n) as nat))
        },
        Err(e) => Err(e),
    }
}

pub open spec fn dec_str_bytes(s: Seq<u8>) -> Result<(Seq<u8>, nat), Reason> {
    with_payload(s, dec_str_len(s))
}

pub open spec fn dec_bin(s: Seq<u8>) -> Result<(Seq<u8>, nat), Reason> {
    with_payload(s, dec_bin_len(s))
}

/// What kind of value a tag starts.
#[derive(Clone, Copy, Debug, PartialEq, Eq, Structural)]
pub enum Kind {
    Nil,
    Bool,
    /// A non-negative fixint or a uint tag.
    UInt,
    /// A negative fixint or an int tag.
    Int,
    F32,
    F64,
    Str,
    Bin,
    Array,
    /// A map.
    Dict,
}

/// The format table read backwards: the kind that each tag byte starts, if any.
pub open spec fn kind_of(t: u8) -> Option<Kind> {
    if t <= 0x7f {
        Some(Kind::UInt)
    } else if t <= 0x8f {
        Some(Kind::Dict)
    } else if t <= 0x9f {
        Some(Kind::Array)
    } else if t <= 0xbf {
        Some(Kind::Str)
    } else if t >= 0xe0 {
        Some(Kind::Int)
    } else if t == NIL {
        Some(Kind::Nil)
    } else if t == FALSE || t == TRUE {
        Some(Kind::Bool)
    } else if BIN8 <= t && t <= BIN32 {
        Some(Kind::Bin)
    } else if t == FLOAT32 {
        Some(Kind::F32)
    } else if t == FLOAT64 {
        Some(Kind::F64)
    } else if UINT8 <= t && t <= UINT64 {
        Some(Kind::UInt)
    } else if INT8 <= t && t <= INT64 {
        Some(Kind::Int)
    } else if STR8 <= t && t <= STR32 {
        Some(Kind::Str)
    } else if t == ARRAY16 || t == ARRAY32 {
        Some(Kind::Array)
    } else if t == MAP16 || t == MAP32 {
        Some(Kind::Dict)
    } else {
        None
    }
}

pub open spec fn dec_f32_bits(s: Seq<u8>) -> Result<(nat, nat), Reason> {
    if s.len() == 0 {
        Err(Reason::EndOfStream)
    } else if s[0] == FLOAT32 {
        field(s, 4)
    } else {
        Err(mismatch(s[0]))
    }
}

pub open spec fn dec_f64_bits(s: Seq<u8>) -> Result<(nat, nat), Reason> {
    if s.len() == 0 {
        Err(Reason::EndOfStream)
    } else if s[0] == FLOAT64 {
        field(s, 8)
    } else {
        Err(mismatch(s[0]))
    }
}

/// The decoder: reads values one after another from a byte buffer.
pub struct Deserializer {
    input: Vec<u8>,
    pos: usize,
}

impl View for Deserializer {
    type V = Seq<u8>;

    /// What is left to read.
    closed spec fn view(&self) -> Seq<u8> {
        self.input@.subrange(self.pos as int, self.input@.len() as int)
    }
}

/// The outcome of one read against what the spec decoder gives: on success the value it gives
/// and its bytes used up, on failure its reason.
pub open spec fn stepped<T>(before: Seq<u8>, after: Seq<u8>, r: Result<T, Error>, d: Result<(T, nat), Reason>) -> bool {
    match d {
        Ok((v, k)) => r == Ok::<T, Error>(v) && after == before.subrange(k as int, before.len() as int),
        Err(e) => r == Err::<T, Error>(Error { reason: e }),
    }
}

impl Deserializer {
    pub closed spec fn wf(&self) -> bool {
        self.pos <= self.input@.len()
    }

    pub fn new(input: Vec<u8>) -> (r: Deserializer)
        ensures
            r.wf(),
            r@ == input@,
    {
        let r = Deserializer { input, pos: 0 };
        assert(r@ =~= r.input@);
        r
    }

    /// Whether everything has been read.
    pub fn is_done(&self) -> (r: bool)
        requires
            self.wf(),
        ensures
            r == (self@.len() == 0),
    {
        self.pos == self.input.len()
    }

    fn peek(&self) -> (r: Result<u8, Error>)
        requires
            self.wf(),
        ensures
            match r {
                Ok(t) => self@.len() > 0 && t == self@[0],
                Err(e) => self@.len() == 0 && e.reason == Reason::EndOfStream,
            },
    {
        if self.pos < self.input.len() {
            Ok(self.input[self.pos])
        } else {
            Err(Error::simple(Reason::EndOfStream))
        }
    }

    fn skip(&mut self, k: usize)
        requires
            old(self).wf(),
            k <= old(self)@.len(),
        ensures
            final(self).wf(),
            final(self)@ == old(self)@.subrange(k as int, old(self)@.len() as int),
    {
        let n = self.input.len();
        assert(old(self)@.len() == n - self.pos);
        self.pos = self.pos + k;
        assert(self@ =~= old(self)@.subrange(k as int, old(self)@.len() as int));
    }

    /// Reads the tag and the `k`-byte field after it.
    fn read_field(&mut self, k: usize) -> (r: Result<u64, Error>)
        requires
            old(self).wf(),
            old(self)@.len() > 0,
            k == 1 || k == 2 || k == 4 || k == 8,
        ensures
            final(self).wf(),
            match field(old(self)@, k as nat) {
                Ok((v, n)) => r is Ok && r->Ok_0 as nat == v && final(self)@ == old(self)@.subrange(n as int, old(self)@.len() as int),
                Err(e) => r == Err::<u64, Error>(Error { reason: e }),
            },
            r is Ok ==> (r->Ok_0 as nat) < pow256(k as nat),
    {
        let s = Ghost(self@);
        if self.input.len() - self.pos < 1 + k {
            return Err(Error::simple(Reason::EndOfStream));
        }
        assert(s@.len() == self.input@.len() - self.pos);
        let at = self.pos + 1;
        assert(self.input@.subrange(at as int, at + k) =~= s@.subrange(1, 1 + k));
        let v: u64 = if k == 1 {
            let b = self.input[at];
            let ghost one = s@.subrange(1, 2);
            assert(one.drop_last() =~= Seq::<u8>::empty());
            assert(one.last() == b);
            assert(be_value(one.drop_last()) == 0);
            assert(be_value(one) == b as nat);
            b as u64
        } else if k == 2 {
            read_be16(&self.input, at) as u64
        } else if k == 4 {
            read_be32(&self.input, at) as u64
        } else {
            read_be64(&self.input, at)
        };
        proof {
            lemma_be_value_bound(s@.subrange(1, 1 + k));
            lemma_pow256();
        }
        self.skip(1 + k);
        Ok(v)
    }

    fn tag_error(t: u8) -> (r: Error)
        ensures
            r.reason == mismatch(t),
    {
        if t == 0xc1 || (0xc7 <= t && t <= 0xc9) || (0xd4 <= t && t <= 0xd8) {
            Error::simple(Reason::Invalid)
        } else {
            Error::simple(Reason::TypeMismatch)
        }
    }

    /// Reads an unsigned integer: a non-negative fixint or a uint tag.
    pub fn deserialize_u64(&mut self) -> (r: Result<u64, Error>)
        requires
            old(self).wf(),
        ensures
            final(self).wf(),
            match dec_uint(old(self)@) {
                Ok((v, n)) => r is Ok && r->Ok_0 as nat == v
                    && final(self)@ == old(self)@.subrange(n as int, old(self)@.len() as int),
                Err(e) => r == Err::<u64, Error>(Error { reason: e }),
            },
    {
        let t = match self.peek() {
            Ok(t) => t,
            Err(e) => return Err(e),
        };
        if t <= 0x7f {
            self.skip(1);
            Ok(t as u64)
        } else if t == UINT8 {
            self.read_field(1)
        } else if t == UINT16 {
            self.read_field(2)
        } else if t == UINT32 {
            self.read_field(4)
        } else if t == UINT64 {
            self.read_field(8)
        } else {
            Err(Self::tag_error(t))
        }
    }

    /// Reads a signed integer: any integer tag whose value fits in an `i64`.
    pub fn deserialize_i64(&mut self) -> (r: Result<i64, Error>)
        requires
            old(self).wf(),
        ensures
            final(self).wf(),
            match dec_int(old(self)@) {
                Ok((v, n)) => r is Ok && r->Ok_0 as int == v
                    && final(self)@ == old(self)@.subrange(n as int, old(self)@.len() as int),
                Err(e) => r == Err::<i64, Error>(Error { reason: e }),
            },
    {
        proof {
            lemma_pow256();
        }
        let t = match self.peek() {
            Ok(t) => t,
            Err(e) => return Err(e),
        };
        if t <= 0x7f {
            self.skip(1);
            Ok(t as i64)
        } else if t >= 0xe0 {
            self.skip(1);
            Ok(t as i64 - 256)
        } else if t == INT8 || t == INT16 || t == INT32 || t == INT64 {
            let k: usize = if t == INT8 { 1 } else if t == INT16 { 2 } else if t == INT32 { 4 } else { 8 };
            let u = match self.read_field(k) {
                Ok(u) => u,
                Err(e) => return Err(e),
            };
            if t == INT8 {
                Ok(if u >= 0x80 { u as i64 - 0x100 } else { u as i64 })
            } else if t == INT16 {
                Ok(if u >= 0x8000 { u as i64 - 0x1_0000 } else { u as i64 })
            } else if t == INT32 {
                Ok(if u >= 0x8000_0000 { u as i64 - 0x1_0000_0000 } else { u as i64 })
            } else {
                Ok(if u >= 0x8000_0000_0000_0000 {
                    (u as i128 - 0x1_0000_0000_0000_0000i128) as i64
                } else {
                    u as i64
                })
            }
        } else if t == UINT8 || t == UINT16 || t == UINT32 || t == UINT64 {
            let k: usize = if t == UINT8 { 1 } else if t == UINT16 { 2 } else if t == UINT32 { 4 } else { 8 };
            let u = match self.read_field(k) {
                Ok(u) => u,
                Err(e) => return Err(e),
            };
            if u <= 0x7fff_ffff_ffff_ffff {
                Ok(u as i64)
            } else {
                Err(Error::simple(Reason::TypeMismatch))
            }
        } else {
            Err(Self::tag_error(t))
        }
    }

    pub fn deserialize_bool(&mut self) -> (r: Result<bool, Error>)
        requires
            old(self).wf(),
        ensures
            final(self).wf(),
            stepped(old(self)@, final(self)@, r, dec_bool(old(self)@)),
    {
        let t = match self.peek() {
            Ok(t) => t,
            Err(e) => return Err(e),
        };
        if t == TRUE {
            self.skip(1);
            Ok(true)
        } else if t == FALSE {
            self.skip(1);
            Ok(false)
        } else {
            Err(Self::tag_error(t))
        }
    }

    /// Reads the absent value or unit.
    pub fn deserialize_unit(&mut self) -> (r: Result<(), Error>)
        requires
            old(self).wf(),
        ensures
            final(self).wf(),
            match dec_nil(old(self)@) {
                Ok(n) => r is Ok && final(self)@ == old(self)@.subrange(n as int, old(self)@.len() as int),
                Err(e) => r == Err::<(), Error>(Error { reason: e }),
            },
    {
        let t = match self.peek() {
            Ok(t) => t,
            Err(e) => return Err(e),
        };
        if t == NIL {
            self.skip(1);
            Ok(())
        } else {
            Err(Self::tag_error(t))
        }
    }

    fn read_len(&mut self, fix_lo: u8, fix_n: u8, t8: Option<u8>, t16: u8, t32: u8) -> (r: Result<usize, Error>)
        requires
            old(self).wf(),
            fix_lo + fix_n <= 0x100,
        ensures
            final(self).wf(),
            match dec_len(old(self)@, fix_lo, fix_n as nat, t8, t16, t32) {
                Ok((v, n)) => r is Ok && r->Ok_0 as nat == v
                    && final(self)@ == old(self)@.subrange(n as int, old(self)@.len() as int),
                Err(e) => r == Err::<usize, Error>(Error { reason: e }),
            },
    {
        proof {
            lemma_pow256();
        }
        let t = match self.peek() {
            Ok(t) => t,
            Err(e) => return Err(e),
        };
        if fix_lo <= t && (t as u16) < fix_lo as u16 + fix_n as u16 {
            self.skip(1);
            Ok((t - fix_lo) as usize)
        } else if t8 == Some(t) {
            match self.read_field(1) {
                Ok(v) => Ok(v as usize),
                Err(e) => Err(e),
            }
        } else if t == t16 {
            match self.read_field(2) {
                Ok(v) => Ok(v as usize),
                Err(e) => Err(e),
            }
        } else if t == t32 {
            match self.read_field(4) {
                Ok(v) => Ok(v as usize),
                Err(e) => Err(e),
            }
        } else {
            Err(Self::tag_error(t))
        }
    }

    /// Reads the header of an array: its number of elements, which follow.
    pub fn deserialize_seq_len(&mut self) -> (r: Result<usize, Error>)
        requires
            old(self).wf(),
        ensures
            final(self).wf(),
            match dec_array_len(old(self)@) {
                Ok((v, n)) => r is Ok && r->Ok_0 as nat == v
                    && final(self)@ == old(self)@.subrange(n as int, old(self)@.len() as int),
                Err(e) => r == Err::<usize, Error>(Error { reason: e }),
            },
    {
        self.read_len(0x90, 16, None, ARRAY16, ARRAY32)
    }

    /// Reads the header of a map: its number of entries, whose keys and values follow in turn.
    pub fn deserialize_map_len(&mut self) -> (r: Result<usize, Error>)
        requires
            old(self).wf(),
        ensures
            final(self).wf(),
            match dec_map_len(old(self)@) {
                Ok((v, n)) => r is Ok && r->Ok_0 as nat == v
                    && final(self)@ == old(self)@.subrange(n as int, old(self)@.len() as int),
                Err(e) => r == Err::<usize, Error>(Error { reason: e }),
            },
    {
        self.read_len(0x80, 16, None, MAP16, MAP32)
    }

    fn take(&mut self, n: usize) -> (r: Result<Vec<u8>, Error>)
        requires
            old(self).wf(),
        ensures
            final(self).wf(),
            if old(self)@.len() < n {
                r == Err::<Vec<u8>, Error>(Error { reason: Reason::EndOfStream })
            } else {
                r is Ok && r->Ok_0@ == old(self)@.subrange(0, n as int)
                    && final(self)@ == old(self)@.subrange(n as int, old(self)@.len() as int)
            },
    {
        if self.input.len() - self.pos < n {
            return Err(Error::simple(Reason::EndOfStream));
        }
        let len = self.input.len();
        let mut out: Vec<u8> = Vec::new();
        let mut i: usize = 0;
        while i < n
            invariant
                self.wf(),
                len == self.input@.len(),
                self@.len() == len - self.pos,
                self@ == old(self)@,
                i <= n,
                n <= self@.len(),
                out@ == self@.subrange(0, i as int),
            decreases n - i,
        {
            out.push(self.input[self.pos + i]);
            i = i + 1;
            assert(out@ =~= self@.subrange(0, i as int));
        }
        self.skip(n);
        Ok(out)
    }

    fn read_payload(&mut self, h: Result<usize, Error>) -> (r: Result<Vec<u8>, Error>)
        requires
            old(self).wf(),
        ensures
            final(self).wf(),
            match h {
                Ok(n) => if old(self)@.len() < n {
                    r == Err::<Vec<u8>, Error>(Error { reason: Reason::EndOfStream })
                } else {
                    r is Ok && r->Ok_0@ == old(self)@.subrange(0, n as int)
                        && final(self)@ == old(self)@.subrange(n as int, old(self)@.len() as int)
                },
                Err(e) => r == Err::<Vec<u8>, Error>(e),
            },
    {
        match h {
            Ok(n) => self.take(n),
            Err(e) => Err(e),
        }
    }

    /// Reads a string and gives its raw UTF-8 bytes.
    pub fn deserialize_str_bytes(&mut self) -> (r: Result<Vec<u8>, Error>)
        requires
            old(self).wf(),
        ensures
            final(self).wf(),
            match dec_str_bytes(old(self)@) {
                Ok((v, n)) => r is Ok && r->Ok_0@ == v
                    && final(self)@ == old(self)@.subrange(n as int, old(self)@.len() as int),
                Err(e) => r == Err::<Vec<u8>, Error>(Error { reason: e }),
            },
    {
        let s = Ghost(self@);
        let h = self.read_len(0xa0, 32, Some(STR8), STR16, STR32);
        let mid = Ghost(self@);
        let r = self.read_payload(h);
        proof {
            if let Ok((n, k)) = dec_str_len(s@) {
                assert(mid@ =~= s@.subrange(k as int, s@.len() as int));
                if s@.len() >= k + n {
                    assert(r->Ok_0@ =~= s@.subrange(k as int, (k + n) as int));
                    assert(self@ =~= s@.subrange((k + n) as int, s@.len() as int));
                }
            }
        }
        r
    }

    /// Reads a byte string.
    pub fn deserialize_bytes(&mut self) -> (r: Result<Vec<u8>, Error>)
        requires
            old(self).wf(),
        ensures
            final(self).wf(),
            match dec_bin(old(self)@) {
                Ok((v, n)) => r is Ok && r->Ok_0@ == v
                    && final(self)@ == old(self)@.subrange(n as int, old(self)@.len() as int),
                Err(e) => r == Err::<Vec<u8>, Error>(Error { reason: e }),
            },
    {
        let s = Ghost(self@);
        let h = self.read_len(0, 0, Some(BIN8), BIN16, BIN32);
        let mid = Ghost(self@);
        let r = self.read_payload(h);
        proof {
            if let Ok((n, k)) = dec_bin_len(s@) {
                assert(mid@ =~= s@.subrange(k as int, s@.len() as int));
                if s@.len() >= k + n {
                    assert(r->Ok_0@ =~= s@.subrange(k as int, (k + n) as int));
                    assert(self@ =~= s@.subrange((k + n) as int, s@.len() as int));
                }
            }
        }
        r
    }

    /// The kind of the next value, without reading it.
    pub fn peek_kind(&self) -> (r: Result<Kind, Error>)
        requires
            self.wf(),
        ensures
            if self@.len() == 0 {
                r == Err::<Kind, Error>(Error { reason: Reason::EndOfStream })
            } else {
                match kind_of(self@[0]) {
                    Some(k) => r == Ok::<Kind, Error>(k),
                    None => r == Err::<Kind, Error>(Error { reason: Reason::Invalid }),
                }
            },
    {
        let t = match self.peek() {
            Ok(t) => t,
            Err(e) => return Err(e),
        };
        let k = if t <= 0x7f {
            Kind::UInt
        } else if t <= 0x8f {
            Kind::Dict
        } else if t <= 0x9f {
            Kind::Array
        } else if t <= 0xbf {
            Kind::Str
        } else if t >= 0xe0 {
            Kind::Int
        } else if t == NIL {
            Kind::Nil
        } else if t == FALSE || t == TRUE {
            Kind::Bool
        } else if BIN8 <= t && t <= BIN32 {
            Kind::Bin
        } else if t == FLOAT32 {
            Kind::F32
        } else if t == FLOAT64 {
            Kind::F64
        } else if UINT8 <= t && t <= UINT64 {
            Kind::UInt
        } else if INT8 <= t && t <= INT64 {
            Kind::Int
        } else if STR8 <= t && t <= STR32 {
            Kind::Str
        } else if t == ARRAY16 || t == ARRAY32 {
            Kind::Array
        } else if t == MAP16 || t == MAP32 {
            Kind::Dict
        } else {
            return Err(Error::simple(Reason::Invalid));
        };
        Ok(k)
    }

    /// Reads a 32-bit float and gives its IEEE-754 bits.
    pub fn deserialize_f32_bits(&mut self) -> (r: Result<u32, Error>)
        requires
            old(self).wf(),
        ensures
            final(self).wf(),
            match dec_f32_bits(old(self)@) {
                Ok((v, n)) => r is Ok && r->Ok_0 as nat == v
                    && final(self)@ == old(self)@.subrange(n as int, old(self)@.len() as int),
                Err(e) => r == Err::<u32, Error>(Error { reason: e }),
            },
    {
        proof {
            lemma_pow256();
        }
        let t = match self.peek() {
            Ok(t) => t,
            Err(e) => return Err(e),
        };
        if t == FLOAT32 {
            match self.read_field(4) {
                Ok(v) => Ok(v as u32),
                Err(e) => Err(e),
            }
        } else {
            Err(Self::tag_error(t))
        }
    }

    /// Reads a 64-bit float and gives its IEEE-754 bits.
    pub fn deserialize_f64_bits(&mut self) -> (r: Result<u64, Error>)
        requires
            old(self).wf(),
        ensures
            final(self).wf(),
            match dec_f64_bits(old(self)@) {
                Ok((v, n)) => r is Ok && r->Ok_0 as nat == v
                    && final(self)@ == old(self)@.subrange(n as int, old(self)@.len() as int),
                Err(e) => r == Err::<u64, Error>(Error { reason: e }),
            },
    {
        let t = match self.peek() {
            Ok(t) => t,
            Err(e) => return Err(e),
        };
        if t == FLOAT64 {
            self.read_field(8)
        } else {
            Err(Self::tag_error(t))
        }
    }
}

} // verus!
