use vstd::prelude::*;
use crate::defs::{
    ARRAY16, ARRAY32, BIN16, BIN32, BIN8, FALSE, FIXARRAY_MASK, FIXMAP_MASK, FIXSTR_MASK, FLOAT32,
    FLOAT64, INT16, INT32, INT64, INT8, MAP16, MAP32, NIL, STR16, STR32, STR8, TRUE, UINT16,
    UINT32, UINT64, UINT8,
};
use crate::error::{Error, Reason};
use crate::format::{
    array_header, be, bin_header, enc_bool, enc_i64, enc_u64, fits_class, map_header,
    str_header, utf8_of, write_be16, write_be32, write_be64,
};

verus! {

/// Appends `b` to `out`.
fn append(out: &mut Vec<u8>, b: &[u8])
    ensures
        final(out)@ == old(out)@ + b@,
{
    let mut i: usize = 0;
    while i < b.len()
        invariant
            i <= b@.len(),
            out@ == old(out)@ + b@.subrange(0, i as int),
        decreases b@.len() - i,
    {
        out.push(b[i]);
        i = i + 1;
        assert(b@.subrange(0, i as int) =~= b@.subrange(0, i - 1).push(b@[i - 1]));
    }
    assert(b@.subrange(0, b@.len() as int) =~= b@);
}

/// Relies on `str::as_bytes`: the UTF-8 bytes of `s`.
#[verifier::external_body]
fn str_bytes(s: &str) -> (r: &[u8])
    ensures
        r@ == utf8_of(s@),
{
    s.as_bytes()
}

/// Relies on `String::from(char)`: the one-character string.
#[verifier::external_body]
fn char_string(c: char) -> (r: String)
    ensures
        r@ == seq![c],
{
    String::from(c)
}

/// State of a container between its start and its end.
pub enum SeqState {
    /// The length was known: the header is written and elements go straight out.
    Immediate,
    /// The length was unknown: elements are counted and held until the end.
    Buffered(usize, Vec<u8>),
}

/// Where an encoder's bytes go: a sink that accepts each slice in turn, or fails.
pub trait ByteSink {
    /// Everything the sink has accepted so far.
    spec fn accepted(&self) -> Seq<u8>;

    /// Whether the sink accepts every slice.
    spec fn never_fails(&self) -> bool;

    fn write(&mut self, buf: &[u8]) -> (r: Result<(), Error>)
        ensures
            r is Ok ==> final(self).accepted() == old(self).accepted() + buf@,
            old(self).never_fails() ==> r is Ok,
            final(self).never_fails() == old(self).never_fails(),
    ;
}

/// A growable buffer accepts every slice.
impl ByteSink for Vec<u8> {
    open spec fn accepted(&self) -> Seq<u8> {
        self@
    }

    open spec fn never_fails(&self) -> bool {
        true
    }

    fn write(&mut self, buf: &[u8]) -> (r: Result<(), Error>) {
        append(self, buf);
        Ok(())
    }
}

/// The encoder. Every byte it produces goes to its sink, in order.
pub struct Serializer<S: ByteSink> {
    output: S,
}

impl<S: ByteSink> View for Serializer<S> {
    type V = Seq<u8>;

    closed spec fn view(&self) -> Seq<u8> {
        self.output.accepted()
    }
}

/// A name of a field, as a string.
pub open spec fn key_enc(key: Seq<char>) -> Seq<u8> {
    str_header(utf8_of(key).len()) + utf8_of(key)
}

/// A write of `enc`: on success the sink holds `enc` more; a sink that never fails did not fail.
pub open spec fn wrote<S: ByteSink>(before: Serializer<S>, after: Serializer<S>, r: Result<(), Error>, enc: Seq<u8>) -> bool {
    &&& r is Ok ==> after@ == before@ + enc
    &&& before.never_fails() ==> r is Ok
    &&& after.never_fails() == before.never_fails()
}

/// A write of `enc` that first needs `ok` (the length fits a size class); without it, `TooBig`
/// and nothing written.
pub open spec fn appended<S: ByteSink>(before: Serializer<S>, after: Serializer<S>, r: Result<(), Error>, enc: Seq<u8>, ok: bool) -> bool {
    if ok {
        wrote(before, after, r, enc)
    } else {
        r == Err::<(), Error>(Error { reason: Reason::TooBig }) && after@ == before@
            && after.never_fails() == before.never_fails()
    }
}

/// The start of a container whose header is `enc`, written when `ok`.
pub open spec fn opened<S: ByteSink>(before: Serializer<S>, after: Serializer<S>, r: Result<SeqState, Error>, enc: Seq<u8>, ok: bool) -> bool {
    if ok {
        &&& r is Ok ==> r == Ok::<SeqState, Error>(SeqState::Immediate) && after@ == before@ + enc
        &&& before.never_fails() ==> r is Ok
        &&& after.never_fails() == before.never_fails()
    } else {
        r == Err::<SeqState, Error>(Error { reason: Reason::TooBig }) && after@ == before@
            && after.never_fails() == before.never_fails()
    }
}

impl Serializer<Vec<u8>> {
    /// The bytes written so far.
    pub fn into_bytes(self) -> (r: Vec<u8>)
        ensures
            r@ == self@,
    {
        self.output
    }
}

impl<S: ByteSink> Serializer<S> {
    /// Create a new Serializer given an output sink.
    pub fn new(output: S) -> (r: Serializer<S>)
        ensures
            r@ == output.accepted(),
            r.never_fails() == output.never_fails(),
    {
        Serializer { output }
    }

    /// Whether the sink accepts every slice.
    pub closed spec fn never_fails(&self) -> bool {
        self.output.never_fails()
    }

    /// The sink, with everything written to it.
    pub fn into_inner(self) -> (r: S)
        ensures
            r.accepted() == self@,
    {
        self.output
    }

    fn output(&mut self, buf: &[u8]) -> (r: Result<(), Error>)
        ensures
            wrote(*old(self), *final(self), r, buf@),
    {
        self.output.write(buf)
    }

    fn output_byte(&mut self, b: u8) -> (r: Result<(), Error>)
        ensures
            wrote(*old(self), *final(self), r, seq![b]),
    {
        let mut buf: Vec<u8> = Vec::new();
        buf.push(b);
        assert(buf@ =~= seq![b]);
        self.output(buf.as_slice())
    }

    fn output_pair(&mut self, a: u8, b: u8) -> (r: Result<(), Error>)
        ensures
            wrote(*old(self), *final(self), r, seq![a, b]),
    {
        let mut buf: Vec<u8> = Vec::new();
        buf.push(a);
        buf.push(b);
        assert(buf@ =~= seq![a, b]);
        self.output(buf.as_slice())
    }

    fn output_tagged(&mut self, tag: u8, payload: Vec<u8>) -> (r: Result<(), Error>)
        ensures
            wrote(*old(self), *final(self), r, seq![tag] + payload@),
    {
        let mut buf: Vec<u8> = Vec::new();
        buf.push(tag);
        append(&mut buf, payload.as_slice());
        assert(buf@ =~= seq![tag] + payload@);
        self.output(buf.as_slice())
    }

    pub fn serialize_bool(&mut self, v: bool) -> (r: Result<(), Error>)
        ensures
            wrote(*old(self), *final(self), r, enc_bool(v)),
    {
        if v {
            self.output_byte(TRUE)?;
        } else {
            self.output_byte(FALSE)?;
        }
        Ok(())
    }

    pub fn serialize_u64(&mut self, value: u64) -> (r: Result<(), Error>)
        ensures
            wrote(*old(self), *final(self), r, enc_u64(value as nat)),
    {
        if value <= 127 {
            self.output_byte(value as u8)?;
        } else if value <= 0xff {
            self.output_pair(UINT8, value as u8)?;
        } else if value <= 0xffff {
            self.output_tagged(UINT16, write_be16(value as u16))?;
        } else if value <= 0xffff_ffff {
            self.output_tagged(UINT32, write_be32(value as u32))?;
        } else {
            self.output_tagged(UINT64, write_be64(value))?;
        }
        Ok(())
    }

    pub fn serialize_usize(&mut self, value: usize) -> (r: Result<(), Error>)
        ensures
            wrote(*old(self), *final(self), r, enc_u64(value as nat)),
    {
        self.serialize_u64(value as u64)
    }

    pub fn serialize_u8(&mut self, value: u8) -> (r: Result<(), Error>)
        ensures
            wrote(*old(self), *final(self), r, enc_u64(value as nat)),
    {
        self.serialize_u64(value as u64)
    }

    pub fn serialize_u16(&mut self, value: u16) -> (r: Result<(), Error>)
        ensures
            wrote(*old(self), *final(self), r, enc_u64(value as nat)),
    {
        self.serialize_u64(value as u64)
    }

    pub fn serialize_u32(&mut self, value: u32) -> (r: Result<(), Error>)
        ensures
            wrote(*old(self), *final(self), r, enc_u64(value as nat)),
    {
        self.serialize_u64(value as u64)
    }

    pub fn serialize_i64(&mut self, value: i64) -> (r: Result<(), Error>)
        ensures
            wrote(*old(self), *final(self), r, enc_i64(value as int)),
    {
        if -32 <= value && value <= 127 {
            let b: u8 = if value < 0 { (value + 256) as u8 } else { value as u8 };
            self.output_byte(b)?;
        } else if -128 <= value && value <= 127 {
            let b: u8 = if value < 0 { (value + 256) as u8 } else { value as u8 };
            self.output_pair(INT8, b)?;
        } else if 0 <= value && value <= 0xff {
            self.output_pair(UINT8, value as u8)?;
        } else if -0x8000 <= value && value <= 0x7fff {
            let b: u16 = if value < 0 { (value + 0x1_0000) as u16 } else { value as u16 };
            self.output_tagged(INT16, write_be16(b))?;
        } else if 0 <= value && value <= 0xffff {
            self.output_tagged(UINT16, write_be16(value as u16))?;
        } else if -0x8000_0000 <= value && value <= 0x7fff_ffff {
            let b: u32 = if value < 0 { (value + 0x1_0000_0000) as u32 } else { value as u32 };
            self.output_tagged(INT32, write_be32(b))?;
        } else if 0 <= value && value <= 0xffff_ffff {
            self.output_tagged(UINT32, write_be32(value as u32))?;
        } else {
            let b: u64 = if value < 0 {
                (value as i128 + 0x1_0000_0000_0000_0000i128) as u64
            } else {
                value as u64
            };
            self.output_tagged(INT64, write_be64(b))?;
        }
        Ok(())
    }

    pub fn serialize_isize(&mut self, value: isize) -> (r: Result<(), Error>)
        ensures
            wrote(*old(self), *final(self), r, enc_i64(value as int)),
    {
        self.serialize_i64(value as i64)
    }

    pub fn serialize_i8(&mut self, value: i8) -> (r: Result<(), Error>)
        ensures
            wrote(*old(self), *final(self), r, enc_i64(value as int)),
    {
        self.serialize_i64(value as i64)
    }

    pub fn serialize_i16(&mut self, value: i16) -> (r: Result<(), Error>)
        ensures
            wrote(*old(self), *final(self), r, enc_i64(value as int)),
    {
        self.serialize_i64(value as i64)
    }

    pub fn serialize_i32(&mut self, value: i32) -> (r: Result<(), Error>)
        ensures
            wrote(*old(self), *final(self), r, enc_i64(value as int)),
    {
        self.serialize_i64(value as i64)
    }

    /// A 32-bit float, given by its IEEE-754 bits: always the full width.
    pub fn serialize_f32(&mut self, bits: u32) -> (r: Result<(), Error>)
        ensures
            wrote(*old(self), *final(self), r, seq![FLOAT32] + be(bits as nat, 4)),
    {
        self.output_tagged(FLOAT32, write_be32(bits))?;
        Ok(())
    }

    /// A 64-bit float, given by its IEEE-754 bits: always the full width.
    pub fn serialize_f64(&mut self, bits: u64) -> (r: Result<(), Error>)
        ensures
            wrote(*old(self), *final(self), r, seq![FLOAT64] + be(bits as nat, 8)),
    {
        self.output_tagged(FLOAT64, write_be64(bits))?;
        Ok(())
    }

    pub fn serialize_unit(&mut self) -> (r: Result<(), Error>)
        ensures
            wrote(*old(self), *final(self), r, seq![NIL]),
    {
        self.output_byte(NIL)?;
        Ok(())
    }

    pub fn serialize_none(&mut self) -> (r: Result<(), Error>)
        ensures
            wrote(*old(self), *final(self), r, seq![NIL]),
    {
        self.serialize_unit()
    }

    /// A variant without payload: its index, as an unsigned integer.
    pub fn serialize_unit_variant(&mut self, index: usize) -> (r: Result<(), Error>)
        ensures
            wrote(*old(self), *final(self), r, enc_u64(index as nat)),
    {
        self.serialize_usize(index)
    }

    fn write_str_header(&mut self, n: usize) -> (r: Result<(), Error>)
        ensures
            appended(*old(self), *final(self), r, str_header(n as nat), fits_class(n as nat)),
    {
        if n <= 31 {
            let b: u8 = FIXSTR_MASK + n as u8;
            self.output_byte(b)?;
            assert(str_header(n as nat) =~= seq![b]);
            assert(self@ == old(self)@ + str_header(n as nat));
        } else if n <= 0xff {
            self.output_pair(STR8, n as u8)?;
        } else if n <= 0xffff {
            self.output_tagged(STR16, write_be16(n as u16))?;
            assert(self@ == old(self)@ + str_header(n as nat));
        } else if n as u64 <= 0xffff_ffff {
            self.output_tagged(STR32, write_be32(n as u32))?;
            assert(self@ == old(self)@ + str_header(n as nat));
        } else {
            return Err(Error::simple(Reason::TooBig));
        }
        Ok(())
    }

    fn write_bin_header(&mut self, n: usize) -> (r: Result<(), Error>)
        ensures
            appended(*old(self), *final(self), r, bin_header(n as nat), fits_class(n as nat)),
    {
        if n <= 0xff {
            self.output_pair(BIN8, n as u8)?;
        } else if n <= 0xffff {
            self.output_tagged(BIN16, write_be16(n as u16))?;
        } else if n as u64 <= 0xffff_ffff {
            self.output_tagged(BIN32, write_be32(n as u32))?;
        } else {
            return Err(Error::simple(Reason::TooBig));
        }
        Ok(())
    }

    fn write_array_header(&mut self, n: usize) -> (r: Result<(), Error>)
        ensures
            appended(*old(self), *final(self), r, array_header(n as nat), fits_class(n as nat)),
    {
        if n <= 15 {
            let b: u8 = FIXARRAY_MASK + n as u8;
            self.output_byte(b)?;
            assert(array_header(n as nat) =~= seq![b]);
            assert(self@ == old(self)@ + array_header(n as nat));
        } else if n <= 0xffff {
            self.output_tagged(ARRAY16, write_be16(n as u16))?;
            assert(self@ == old(self)@ + array_header(n as nat));
        } else if n as u64 <= 0xffff_ffff {
            self.output_tagged(ARRAY32, write_be32(n as u32))?;
            assert(self@ == old(self)@ + array_header(n as nat));
        } else {
            return Err(Error::simple(Reason::TooBig));
        }
        Ok(())
    }

    fn write_map_header(&mut self, n: usize) -> (r: Result<(), Error>)
        ensures
            appended(*old(self), *final(self), r, map_header(n as nat), fits_class(n as nat)),
    {
        if n <= 15 {
            let b: u8 = FIXMAP_MASK + n as u8;
            self.output_byte(b)?;
            assert(map_header(n as nat) =~= seq![b]);
            assert(self@ == old(self)@ + map_header(n as nat));
        } else if n <= 0xffff {
            self.output_tagged(MAP16, write_be16(n as u16))?;
            assert(self@ == old(self)@ + map_header(n as nat));
        } else if n as u64 <= 0xffff_ffff {
            self.output_tagged(MAP32, write_be32(n as u32))?;
            assert(self@ == old(self)@ + map_header(n as nat));
        } else {
            return Err(Error::simple(Reason::TooBig));
        }
        Ok(())
    }

    /// A string: its length class, then its UTF-8 bytes.
    pub fn serialize_str(&mut self, value: &str) -> (r: Result<(), Error>)
        ensures
            appended(
                *old(self),
                *final(self),
                r,
                str_header(utf8_of(value@).len()) + utf8_of(value@),
                fits_class(utf8_of(value@).len()),
            ),
    {
        let bytes = str_bytes(value);
        match self.write_str_header(bytes.len()) {
            Ok(()) => {},
            Err(e) => return Err(e),
        }
        self.output(bytes)?;
        assert(final(self)@ =~= old(self)@ + (str_header(utf8_of(value@).len()) + utf8_of(value@)));
        Ok(())
    }

    /// A byte string: its length class, then the bytes.
    pub fn serialize_bytes(&mut self, value: &[u8]) -> (r: Result<(), Error>)
        ensures
            appended(
                *old(self),
                *final(self),
                r,
                bin_header(value@.len()) + value@,
                fits_class(value@.len()),
            ),
    {
        match self.write_bin_header(value.len()) {
            Ok(()) => {},
            Err(e) => return Err(e),
        }
        self.output(value)?;
        assert(final(self)@ =~= old(self)@ + (bin_header(value@.len()) + value@));
        Ok(())
    }

    /// Starts a sequence. With a known length the header goes out at once;
    /// without one, elements are held until `serialize_seq_end`.
    pub fn serialize_seq(&mut self, len: Option<usize>) -> (r: Result<SeqState, Error>)
        ensures
            match len {
                Some(n) => opened(*old(self), *final(self), r, array_header(n as nat), fits_class(n as nat)),
                None => final(self)@ == old(self)@ && final(self).never_fails() == old(self).never_fails() && match r {
                    Ok(SeqState::Buffered(c, b)) => c == 0 && b@ == Seq::<u8>::empty(),
                    _ => false,
                },
            },
    {
        match len {
            Some(n) => match self.write_array_header(n) {
                Ok(()) => Ok(SeqState::Immediate),
                Err(e) => Err(e),
            },
            None => Ok(SeqState::Buffered(0, Vec::new())),
        }
    }

    pub fn serialize_seq_fixed_size(&mut self, size: usize) -> (r: Result<SeqState, Error>)
        ensures
            opened(*old(self), *final(self), r, array_header(size as nat), fits_class(size as nat)),
    {
        self.serialize_seq(Some(size))
    }

    /// Adds one element, given by its encoding (what a fresh `Serializer` produced for it).
    pub fn serialize_seq_elt(&mut self, state: &mut SeqState, value: &[u8]) -> (r: Result<(), Error>)
        requires
            *old(state) matches SeqState::Buffered(c, _) ==> c < usize::MAX,
        ensures
            match *old(state) {
                SeqState::Immediate => *final(state) is Immediate && wrote(*old(self), *final(self), r, value@),
                SeqState::Buffered(c, b) => r is Ok && final(self)@ == old(self)@
                    && final(self).never_fails() == old(self).never_fails() && match *final(state) {
                    SeqState::Buffered(c2, b2) => c2 == c + 1 && b2@ == b@ + value@,
                    _ => false,
                },
            },
    {
        match state {
            SeqState::Immediate => {
                self.output(value)?;
            },
            SeqState::Buffered(count, buffer) => {
                *count = *count + 1;
                append(buffer, value);
            },
        }
        Ok(())
    }

    /// Ends a sequence. Held elements go out after the header that their count selects.
    pub fn serialize_seq_end(&mut self, state: SeqState) -> (r: Result<(), Error>)
        ensures
            match state {
                SeqState::Immediate => r is Ok && final(self)@ == old(self)@
                    && final(self).never_fails() == old(self).never_fails(),
                SeqState::Buffered(c, b) => appended(
                    *old(self),
                    *final(self),
                    r,
                    array_header(c as nat) + b@,
                    fits_class(c as nat),
                ),
            },
    {
        match state {
            SeqState::Immediate => Ok(()),
            SeqState::Buffered(count, buffer) => {
                match self.write_array_header(count) {
                    Ok(()) => {},
                    Err(e) => return Err(e),
                }
                self.output(buffer.as_slice())?;
                assert(final(self)@ =~= old(self)@ + (array_header(count as nat) + buffer@));
                Ok(())
            },
        }
    }

    pub fn serialize_tuple(&mut self, len: usize) -> (r: Result<SeqState, Error>)
        ensures
            opened(*old(self), *final(self), r, array_header(len as nat), fits_class(len as nat)),
    {
        self.serialize_seq_fixed_size(len)
    }

    /// Starts a variant with `len` fields: an array of `len + 1` elements whose first is the index.
    pub fn serialize_tuple_variant(&mut self, index: usize, len: usize) -> (r: Result<SeqState, Error>)
        requires
            len < usize::MAX,
        ensures
            opened(
                *old(self),
                *final(self),
                r,
                array_header((len + 1) as nat) + enc_u64(index as nat),
                fits_class((len + 1) as nat),
            ),
    {
        let state = match self.serialize_tuple(len + 1) {
            Ok(st) => st,
            Err(e) => return Err(e),
        };
        self.serialize_usize(index)?;
        assert(final(self)@ =~= old(self)@ + (array_header((len + 1) as nat) + enc_u64(index as nat)));
        Ok(state)
    }

    /// A variant with one payload: `[index, payload]`, the payload given by its encoding.
    pub fn serialize_newtype_variant(&mut self, index: usize, value: &[u8]) -> (r: Result<(), Error>)
        ensures
            wrote(*old(self), *final(self), r, array_header(2) + enc_u64(index as nat) + value@),
    {
        self.write_array_header(2)?;
        self.serialize_usize(index)?;
        self.output(value)?;
        assert(final(self)@ =~= old(self)@ + (array_header(2) + enc_u64(index as nat) + value@));
        Ok(())
    }

    /// A one-field tuple struct: an array of one element.
    pub fn serialize_newtype_struct(&mut self, value: &[u8]) -> (r: Result<(), Error>)
        ensures
            wrote(*old(self), *final(self), r, array_header(1) + value@),
    {
        self.write_array_header(1)?;
        self.output(value)?;
        assert(final(self)@ =~= old(self)@ + (array_header(1) + value@));
        Ok(())
    }

    /// Starts a map. With a known length the header goes out at once;
    /// without one, entries are held until `serialize_map_end`.
    pub fn serialize_map(&mut self, len: Option<usize>) -> (r: Result<SeqState, Error>)
        ensures
            match len {
                Some(n) => opened(*old(self), *final(self), r, map_header(n as nat), fits_class(n as nat)),
                None => final(self)@ == old(self)@ && final(self).never_fails() == old(self).never_fails() && match r {
                    Ok(SeqState::Buffered(c, b)) => c == 0 && b@ == Seq::<u8>::empty(),
                    _ => false,
                },
            },
    {
        match len {
            Some(n) => match self.write_map_header(n) {
                Ok(()) => Ok(SeqState::Immediate),
                Err(e) => Err(e),
            },
            None => Ok(SeqState::Buffered(0, Vec::new())),
        }
    }

    /// Adds the key of an entry, given by its encoding; each key counts one entry.
    pub fn serialize_map_key(&mut self, state: &mut SeqState, key: &[u8]) -> (r: Result<(), Error>)
        requires
            *old(state) matches SeqState::Buffered(c, _) ==> c < usize::MAX,
        ensures
            match *old(state) {
                SeqState::Immediate => *final(state) is Immediate && wrote(*old(self), *final(self), r, key@),
                SeqState::Buffered(c, b) => r is Ok && final(self)@ == old(self)@
                    && final(self).never_fails() == old(self).never_fails() && match *final(state) {
                    SeqState::Buffered(c2, b2) => c2 == c + 1 && b2@ == b@ + key@,
                    _ => false,
                },
            },
    {
        self.serialize_seq_elt(state, key)
    }

    /// Adds the value of an entry, given by its encoding.
    pub fn serialize_map_value(&mut self, state: &mut SeqState, value: &[u8]) -> (r: Result<(), Error>)
        ensures
            match *old(state) {
                SeqState::Immediate => *final(state) is Immediate && wrote(*old(self), *final(self), r, value@),
                SeqState::Buffered(c, b) => r is Ok && final(self)@ == old(self)@
                    && final(self).never_fails() == old(self).never_fails() && match *final(state) {
                    SeqState::Buffered(c2, b2) => c2 == c && b2@ == b@ + value@,
                    _ => false,
                },
            },
    {
        match state {
            SeqState::Immediate => {
                self.output(value)?;
            },
            SeqState::Buffered(_, buffer) => {
                append(buffer, value);
            },
        }
        Ok(())
    }

    /// Ends a map. Held entries go out after the header that their count selects.
    pub fn serialize_map_end(&mut self, state: SeqState) -> (r: Result<(), Error>)
        ensures
            match state {
                SeqState::Immediate => r is Ok && final(self)@ == old(self)@
                    && final(self).never_fails() == old(self).never_fails(),
                SeqState::Buffered(c, b) => appended(
                    *old(self),
                    *final(self),
                    r,
                    map_header(c as nat) + b@,
                    fits_class(c as nat),
                ),
            },
    {
        match state {
            SeqState::Immediate => Ok(()),
            SeqState::Buffered(count, buffer) => {
                match self.write_map_header(count) {
                    Ok(()) => {},
                    Err(e) => return Err(e),
                }
                self.output(buffer.as_slice())?;
                assert(final(self)@ =~= old(self)@ + (map_header(count as nat) + buffer@));
                Ok(())
            },
        }
    }

    /// Starts a record of `len` named fields: a map of `len` entries.
    pub fn serialize_struct(&mut self, len: usize) -> (r: Result<SeqState, Error>)
        ensures
            opened(*old(self), *final(self), r, map_header(len as nat), fits_class(len as nat)),
    {
        self.serialize_map(Some(len))
    }

    /// Adds a named field: its name as a string key, then its value, given by its encoding.
    pub fn serialize_struct_elt(&mut self, state: &mut SeqState, key: &str, value: &[u8]) -> (r: Result<(), Error>)
        requires
            *old(state) is Immediate,
        ensures
            *final(state) is Immediate,
            appended(
                *old(self),
                *final(self),
                r,
                key_enc(key@) + value@,
                fits_class(utf8_of(key@).len()),
            ),
    {
        let mut k = Serializer::new(Vec::new());
        match k.serialize_str(key) {
            Ok(()) => {},
            Err(e) => return Err(e),
        }
        let kb = k.into_bytes();
        self.serialize_map_key(state, kb.as_slice())?;
        self.serialize_map_value(state, value)?;
        assert(final(self)@ =~= old(self)@ + (key_enc(key@) + value@));
        Ok(())
    }

    /// Starts a variant with `len` named fields: `[index, fields]`, the fields as a map.
    pub fn serialize_struct_variant(&mut self, index: usize, len: usize) -> (r: Result<SeqState, Error>)
        ensures
            r is Ok ==> r == Ok::<SeqState, Error>(SeqState::Immediate) && fits_class(len as nat)
                && final(self)@ == old(self)@ + (array_header(2) + enc_u64(index as nat) + map_header(len as nat)),
            old(self).never_fails() ==> if fits_class(len as nat) {
                r is Ok
            } else {
                r == Err::<SeqState, Error>(Error { reason: Reason::TooBig })
                    && final(self)@ == old(self)@ + (array_header(2) + enc_u64(index as nat))
            },
            final(self).never_fails() == old(self).never_fails(),
    {
        self.write_array_header(2)?;
        self.serialize_usize(index)?;
        let mid = Ghost(*self);
        let r = self.serialize_struct(len);
        assert(mid@@ =~= old(self)@ + (array_header(2) + enc_u64(index as nat)));
        proof {
            if r is Ok {
                assert(self@ =~= old(self)@ + (array_header(2) + enc_u64(index as nat) + map_header(len as nat)));
            }
        }
        r
    }

    /// A single character: the one-character string.
    pub fn serialize_char(&mut self, v: char) -> (r: Result<(), Error>)
        ensures
            appended(
                *old(self),
                *final(self),
                r,
                str_header(utf8_of(seq![v]).len()) + utf8_of(seq![v]),
                fits_class(utf8_of(seq![v]).len()),
            ),
    {
        let s = char_string(v);
        self.serialize_str(s.as_str())
    }
}

} // verus!
