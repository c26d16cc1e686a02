//! The fixed-capacity byte buffer and the binary codec.
//!
//! A [`Buffer`] is a byte region of exactly [`BUFFER_SIZE`] bytes with a
//! read/write cursor. Values are encoded little-endian: a one-byte tag
//! (0 undefined, 1 string, 2 real, 3 array), then for strings a 4-byte
//! signed length and that many raw bytes, for reals 8 raw bytes, and for
//! arrays a 4-byte signed element count followed by the encoded elements.
//!
//! The functional specification lives in [`spec_serial`] (encoding) and
//! [`spec_parse`] (decoding); [`lemma_round_trip`] proves that decoding an
//! encoded value yields the value back.

use vstd::prelude::*;
use vstd::bytes::{
    spec_u32_from_le_bytes, spec_u32_to_le_bytes, spec_u64_from_le_bytes, spec_u64_to_le_bytes,
    lemma_auto_spec_u32_to_from_le_bytes, lemma_auto_spec_u64_to_from_le_bytes, u32_from_le_bytes,
    u32_to_le_bytes, u64_from_le_bytes, u64_to_le_bytes,
};
use crate::error::Error;
use crate::value::{Val, Value, val_of, vals_of, lemma_vals_of};

verus! {

/// Number of bytes in every buffer and in every shared-memory payload region.
pub const BUFFER_SIZE: usize = 65535;

/// Smallest unsigned 32-bit value whose signed reading is negative. A length
/// field at or above this bound is rejected as malformed.
pub const LEN_SIGN_BOUND: u32 = 0x8000_0000;

/// The contents of a fresh buffer: all zeroes.
pub open spec fn spec_zeros() -> Seq<u8> {
    Seq::new(BUFFER_SIZE as nat, |i: int| 0u8)
}

/// A fixed-capacity byte region with a read/write cursor.
pub struct Buffer {
    contents: Vec<u8>,
    position: usize,
}

impl Buffer {
    /// The bytes held by the buffer, in order.
    pub closed spec fn data(&self) -> Seq<u8> {
        self.contents@
    }

    /// The cursor: the index of the next byte read or written.
    pub closed spec fn pos(&self) -> int {
        self.position as int
    }

    /// Well-formedness: full capacity is allocated and the cursor is inside it.
    pub open spec fn wf(&self) -> bool {
        self.data().len() == BUFFER_SIZE && 0 <= self.pos() <= BUFFER_SIZE
    }

    /// A fresh buffer: zero-filled, cursor at the start.
    pub fn new() -> (r: Buffer)
        ensures
            r.wf(),
            r.pos() == 0,
            r.data() == spec_zeros(),
    {
        let mut contents: Vec<u8> = Vec::with_capacity(BUFFER_SIZE);
        let mut i: usize = 0;
        while i < BUFFER_SIZE
            invariant
                i <= BUFFER_SIZE,
                contents@.len() == i,
                forall|j: int| 0 <= j < i ==> contents@[j] == 0u8,
            decreases BUFFER_SIZE - i,
        {
            contents.push(0u8);
            i = i + 1;
        }
        proof {
            assert(contents@ =~= spec_zeros());
        }
        Buffer { contents, position: 0 }
    }

    /// Move the cursor back to the start; the bytes are kept.
    pub fn rewind(&mut self)
        ensures
            final(self).data() == old(self).data(),
            final(self).pos() == 0,
            old(self).wf() ==> final(self).wf(),
    {
        self.position = 0;
    }

    /// The bytes held by the buffer, for marshaling into an external region.
    pub fn bytes(&self) -> (r: &Vec<u8>)
        ensures
            r@ == self.data(),
    {
        &self.contents
    }

    /// The current cursor.
    pub fn position(&self) -> (r: usize)
        ensures
            r as int == self.pos(),
    {
        self.position
    }

    /// A buffer holding a full capacity-sized region, rewound for reading.
    pub fn from_bytes(contents: Vec<u8>) -> (r: Buffer)
        requires
            contents@.len() == BUFFER_SIZE,
        ensures
            r.wf(),
            r.data() == contents@,
            r.pos() == 0,
    {
        Buffer { contents, position: 0 }
    }

    /// Read the byte under the cursor and advance past it.
    pub fn read_byte(&mut self) -> (r: Result<u8, Error>)
        requires
            old(self).wf(),
        ensures
            final(self).wf(),
            final(self).data() == old(self).data(),
            old(self).pos() < BUFFER_SIZE ==> r == Ok::<u8, Error>(
                old(self).data()[old(self).pos()],
            ) && final(self).pos() == old(self).pos() + 1,
            old(self).pos() == BUFFER_SIZE ==> r == Err::<u8, Error>(Error::MalformedPayload)
                && final(self).pos() == old(self).pos(),
    {
        if self.position == BUFFER_SIZE {
            return Err(Error::MalformedPayload);
        }
        let byte = self.contents[self.position];
        self.position = self.position + 1;
        Ok(byte)
    }

    /// Write one byte at the cursor and advance past it.
    pub fn write_byte(&mut self, value: &u8) -> (r: Result<(), Error>)
        requires
            old(self).wf(),
        ensures
            final(self).wf(),
            old(self).pos() < BUFFER_SIZE ==> r == Ok::<(), Error>(()) && final(self).data()
                == old(self).data().update(old(self).pos(), *value) && final(self).pos() == old(
                self,
            ).pos() + 1,
            old(self).pos() == BUFFER_SIZE ==> r == Err::<(), Error>(
                Error::BufferCapacityExceeded,
            ) && final(self).data() == old(self).data() && final(self).pos() == old(self).pos(),
    {
        if self.position == BUFFER_SIZE {
            return Err(Error::BufferCapacityExceeded);
        }
        self.contents[self.position] = *value;
        self.position = self.position + 1;
        Ok(())
    }
}

impl Buffer {
    /// Write a run of raw bytes at the cursor.
    #[verifier::loop_isolation(false)]
    fn put_bytes(&mut self, payload: &Vec<u8>) -> (r: Result<(), Error>)
        requires
            old(self).wf(),
        ensures
            final(self).wf(),
            r is Ok <==> old(self).pos() + payload@.len() <= BUFFER_SIZE,
            r is Ok ==> final(self).data() == spec_splice(
                old(self).data(),
                old(self).pos(),
                payload@,
            ) && final(self).pos() == old(self).pos() + payload@.len(),
            r is Err ==> r == Err::<(), Error>(Error::BufferCapacityExceeded),
    {
        let ghost bytes0 = self.data();
        let ghost p0 = self.pos();
        proof {
            lemma_splice_empty(bytes0, p0);
            assert(payload@.subrange(0, 0) =~= Seq::<u8>::empty());
        }
        let mut i: usize = 0;
        while i < payload.len()
            invariant
                self.wf(),
                i <= payload@.len(),
                self.pos() == p0 + i,
                self.data() == spec_splice(bytes0, p0, payload@.subrange(0, i as int)),
            decreases payload@.len() - i,
        {
            match self.write_byte(&payload[i]) {
                Ok(_) => {},
                Err(e) => {
                    return Err(e);
                },
            }
            proof {
                lemma_splice_push(bytes0, p0, payload@.subrange(0, i as int), payload@[i as int]);
                assert(payload@.subrange(0, i as int).push(payload@[i as int]) =~= payload@
                    .subrange(0, i + 1));
            }
            i = i + 1;
        }
        proof {
            assert(payload@.subrange(0, payload@.len() as int) =~= payload@);
        }
        Ok(())
    }

    /// Write a 32-bit length field, little-endian.
    pub fn write_len(&mut self, len: u32) -> (r: Result<(), Error>)
        requires
            old(self).wf(),
        ensures
            final(self).wf(),
            r is Ok <==> old(self).pos() + 4 <= BUFFER_SIZE,
            r is Ok ==> final(self).data() == spec_splice(
                old(self).data(),
                old(self).pos(),
                spec_u32_to_le_bytes(len),
            ) && final(self).pos() == old(self).pos() + 4,
            r is Err ==> r == Err::<(), Error>(Error::BufferCapacityExceeded),
    {
        proof {
            lemma_auto_spec_u32_to_from_le_bytes();
        }
        let le = u32_to_le_bytes(len);
        self.put_bytes(&le)
    }

    /// Write the encoding of `Undefined`: the tag byte alone.
    pub fn write_undefined(&mut self) -> (r: Result<(), Error>)
        requires
            old(self).wf(),
        ensures
            final(self).wf(),
            r is Ok <==> old(self).pos() + 1 <= BUFFER_SIZE,
            r is Ok ==> final(self).data() == spec_splice(
                old(self).data(),
                old(self).pos(),
                spec_serial(Val::Undefined),
            ) && final(self).pos() == old(self).pos() + 1,
            r is Err ==> r == Err::<(), Error>(Error::BufferCapacityExceeded),
    {
        let ghost bytes0 = self.data();
        let ghost p0 = self.pos();
        let r = self.write_byte(&0u8);
        proof {
            if p0 < BUFFER_SIZE {
                lemma_splice_empty(bytes0, p0);
                lemma_splice_push(bytes0, p0, Seq::empty(), 0u8);
                assert(Seq::<u8>::empty().push(0u8) =~= spec_serial(Val::Undefined));
            }
        }
        r
    }

    /// Write the encoding of a real number: tag, then its 8 bytes.
    pub fn write_real(&mut self, bits: u64) -> (r: Result<(), Error>)
        requires
            old(self).wf(),
        ensures
            final(self).wf(),
            r is Ok <==> old(self).pos() + 9 <= BUFFER_SIZE,
            r is Ok ==> final(self).data() == spec_splice(
                old(self).data(),
                old(self).pos(),
                spec_serial(Val::Real(bits)),
            ) && final(self).pos() == old(self).pos() + 9,
            r is Err ==> r == Err::<(), Error>(Error::BufferCapacityExceeded),
    {
        let ghost bytes0 = self.data();
        let ghost p0 = self.pos();
        proof {
            lemma_auto_spec_u64_to_from_le_bytes();
        }
        match self.write_byte(&2u8) {
            Ok(_) => {},
            Err(e) => {
                return Err(e);
            },
        }
        proof {
            lemma_splice_empty(bytes0, p0);
            lemma_splice_push(bytes0, p0, Seq::empty(), 2u8);
            assert(Seq::<u8>::empty().push(2u8) =~= seq![2u8]);
        }
        let le = u64_to_le_bytes(bits);
        match self.put_bytes(&le) {
            Ok(_) => {},
            Err(e) => {
                return Err(e);
            },
        }
        proof {
            lemma_splice_concat(bytes0, p0, seq![2u8], spec_u64_to_le_bytes(bits));
        }
        Ok(())
    }

    /// Write the encoding of a text payload: tag, length, raw bytes.
    pub fn write_string(&mut self, text: &Vec<u8>) -> (r: Result<(), Error>)
        requires
            old(self).wf(),
        ensures
            final(self).wf(),
            r is Ok <==> old(self).pos() + 5 + text@.len() <= BUFFER_SIZE,
            r is Ok ==> final(self).data() == spec_splice(
                old(self).data(),
                old(self).pos(),
                spec_serial(Val::String(text@)),
            ) && final(self).pos() == old(self).pos() + 5 + text@.len(),
            r is Err ==> r == Err::<(), Error>(Error::BufferCapacityExceeded),
    {
        let ghost bytes0 = self.data();
        let ghost p0 = self.pos();
        match self.write_byte(&1u8) {
            Ok(_) => {},
            Err(e) => {
                return Err(e);
            },
        }
        proof {
            lemma_splice_empty(bytes0, p0);
            lemma_splice_push(bytes0, p0, Seq::empty(), 1u8);
            assert(Seq::<u8>::empty().push(1u8) =~= seq![1u8]);
        }
        let count = #[verifier::truncate] (text.len() as u32);
        match self.write_len(count) {
            Ok(_) => {},
            Err(e) => {
                return Err(e);
            },
        }
        proof {
            lemma_auto_spec_u32_to_from_le_bytes();
            lemma_splice_concat(bytes0, p0, seq![1u8], spec_u32_to_le_bytes(count));
        }
        match self.put_bytes(text) {
            Ok(_) => {},
            Err(e) => {
                return Err(e);
            },
        }
        proof {
            lemma_splice_concat(bytes0, p0, seq![1u8] + spec_u32_to_le_bytes(count), text@);
            assert(count == text@.len() as u32);
            assert(seq![1u8] + spec_u32_to_le_bytes(count) + text@ == spec_serial(
                Val::String(text@),
            ));
        }
        Ok(())
    }

    /// Write the encoding of an array: tag, element count, then each element.
    #[verifier::loop_isolation(false)]
    pub fn write_array(&mut self, array: &Vec<Value>) -> (r: Result<(), Error>)
        requires
            old(self).wf(),
        ensures
            final(self).wf(),
            r is Ok <==> old(self).pos() + spec_serial(Val::Array(vals_of(array@))).len()
                <= BUFFER_SIZE,
            r is Ok ==> final(self).data() == spec_splice(
                old(self).data(),
                old(self).pos(),
                spec_serial(Val::Array(vals_of(array@))),
            ) && final(self).pos() == old(self).pos() + spec_serial(
                Val::Array(vals_of(array@)),
            ).len(),
            r is Err ==> r == Err::<(), Error>(Error::BufferCapacityExceeded),
        decreases array,
    {
        let ghost bytes0 = self.data();
        let ghost p0 = self.pos();
        let ghost ms = vals_of(array@);
        proof {
            lemma_vals_of(array@);
        }
        match self.write_byte(&3u8) {
            Ok(_) => {},
            Err(e) => {
                proof {
                    lemma_serial_len(Val::Array(ms));
                }
                return Err(e);
            },
        }
        proof {
            lemma_splice_empty(bytes0, p0);
            lemma_splice_push(bytes0, p0, Seq::empty(), 3u8);
            assert(Seq::<u8>::empty().push(3u8) =~= seq![3u8]);
        }
        let count = #[verifier::truncate] (array.len() as u32);
        let ghost header = seq![3u8] + spec_u32_to_le_bytes(count);
        match self.write_len(count) {
            Ok(_) => {},
            Err(e) => {
                proof {
                    lemma_auto_spec_u32_to_from_le_bytes();
                    lemma_serial_seq_len(ms);
                }
                return Err(e);
            },
        }
        proof {
            lemma_auto_spec_u32_to_from_le_bytes();
            lemma_splice_concat(bytes0, p0, seq![3u8], spec_u32_to_le_bytes(count));
            assert(ms.subrange(0, 0) =~= Seq::<Val>::empty());
        }
        let mut i: usize = 0;
        while i < array.len()
            invariant
                self.wf(),
                i <= array@.len(),
                self.pos() == p0 + 5 + spec_serial_seq(ms.subrange(0, i as int)).len(),
                self.data() == spec_splice(
                    bytes0,
                    p0,
                    header + spec_serial_seq(ms.subrange(0, i as int)),
                ),
            decreases array@.len() - i,
        {
            let ghost done = ms.subrange(0, i as int);
            proof {
                assert(decreases_to!(*array => array@));
                assert(decreases_to!(array@ => array@[i as int]));
                // the whole encoding splits around element i
                assert(ms =~= done + ms.subrange(i as int, ms.len() as int));
                lemma_serial_seq_concat(done, ms.subrange(i as int, ms.len() as int));
                assert(ms.subrange(i as int, ms.len() as int)[0] == ms[i as int]);
                assert(ms.subrange(i as int, ms.len() as int).subrange(
                    1,
                    ms.len() - i,
                ) =~= ms.subrange(i + 1, ms.len() as int));
            }
            match self.write(&array[i]) {
                Ok(_) => {},
                Err(e) => {
                    return Err(e);
                },
            }
            proof {
                lemma_splice_concat(bytes0, p0, header + spec_serial_seq(done), spec_serial(
                    ms[i as int],
                ));
                lemma_serial_seq_push(done, ms[i as int]);
                assert(done.push(ms[i as int]) =~= ms.subrange(0, i + 1));
                assert((header + spec_serial_seq(done)) + spec_serial(ms[i as int]) =~= header
                    + spec_serial_seq(ms.subrange(0, i + 1)));
            }
            i = i + 1;
        }
        proof {
            assert(ms.subrange(0, ms.len() as int) =~= ms);
            assert(header + spec_serial_seq(ms) =~= spec_serial(Val::Array(ms)));
        }
        Ok(())
    }

    /// Write the encoding of any value at the cursor. Succeeds exactly when
    /// the encoding fits in the remaining capacity; the buffer then holds it
    /// at the old cursor and the cursor has advanced past it. After a
    /// capacity failure the buffer stays well-formed but what stands past
    /// the old cursor is unspecified: the reference behaviour treats the
    /// failure as fatal, and a caller should discard the buffer.
    pub fn write(&mut self, value: &Value) -> (r: Result<(), Error>)
        requires
            old(self).wf(),
        ensures
            final(self).wf(),
            r is Ok <==> old(self).pos() + spec_serial(val_of(*value)).len() <= BUFFER_SIZE,
            r is Ok ==> final(self).data() == spec_splice(
                old(self).data(),
                old(self).pos(),
                spec_serial(val_of(*value)),
            ) && final(self).pos() == old(self).pos() + spec_serial(val_of(*value)).len(),
            r is Err ==> r == Err::<(), Error>(Error::BufferCapacityExceeded),
        decreases value,
    {
        match value {
            Value::Undefined => {
                proof {
                    assert(spec_serial(val_of(*value)) =~= seq![0u8]);
                }
                self.write_undefined()
            },
            Value::String(text) => {
                proof {
                    lemma_auto_spec_u32_to_from_le_bytes();
                    assert(val_of(*value) == Val::String(text@));
                    assert(spec_serial(Val::String(text@)).len() == 5 + text@.len());
                }
                self.write_string(text)
            },
            Value::Real(bits) => {
                proof {
                    lemma_auto_spec_u64_to_from_le_bytes();
                    assert(val_of(*value) == Val::Real(*bits));
                    assert(spec_serial(Val::Real(*bits)).len() == 9);
                }
                self.write_real(*bits)
            },
            Value::Array(items) => {
                proof {
                    assert(*value == Value::Array(*items));
                    assert(decreases_to!(Value::Array(*items) => *items));
                    assert(val_of(*value) == Val::Array(vals_of(items@)));
                }
                self.write_array(items)
            },
        }
    }
}

/// Decode one value starting at `pos`: the value and the position just past
/// it, or `None` when the bytes there do not hold a well-formed encoding.
pub open spec fn spec_parse(bytes: Seq<u8>, pos: int) -> Option<(Val, int)>
    decreases bytes.len() - pos, 0int,
{
    if pos < 0 || pos >= bytes.len() {
        None
    } else {
        let tag = bytes[pos];
        if tag == 0u8 {
            Some((Val::Undefined, pos + 1))
        } else if tag == 1u8 {
            if pos + 5 > bytes.len() {
                None
            } else {
                let n = spec_u32_from_le_bytes(bytes.subrange(pos + 1, pos + 5)) as int;
                if n >= LEN_SIGN_BOUND as int || pos + 5 + n > bytes.len() {
                    None
                } else {
                    Some((Val::String(bytes.subrange(pos + 5, pos + 5 + n)), pos + 5 + n))
                }
            }
        } else if tag == 2u8 {
            if pos + 9 > bytes.len() {
                None
            } else {
                Some((Val::Real(spec_u64_from_le_bytes(bytes.subrange(pos + 1, pos + 9))), pos + 9))
            }
        } else if tag == 3u8 {
            if pos + 5 > bytes.len() {
                None
            } else {
                let n = spec_u32_from_le_bytes(bytes.subrange(pos + 1, pos + 5)) as int;
                if n >= LEN_SIGN_BOUND as int {
                    None
                } else {
                    match spec_parse_list(bytes, pos + 5, n) {
                        Some((ms, end)) => Some((Val::Array(ms), end)),
                        None => None,
                    }
                }
            }
        } else {
            None
        }
    }
}

/// Decode `count` consecutive values starting at `pos`.
pub open spec fn spec_parse_list(bytes: Seq<u8>, pos: int, count: int) -> Option<(Seq<Val>, int)>
    decreases bytes.len() - pos, count,
{
    if count <= 0 {
        Some((Seq::empty(), pos))
    } else if pos < 0 || pos >= bytes.len() {
        None
    } else {
        match spec_parse(bytes, pos) {
            Some((m, end)) => {
                if end <= pos || end > bytes.len() {
                    // unreachable: a parsed value always advances within bounds
                    None
                } else {
                    match spec_parse_list(bytes, end, count - 1) {
                        Some((ms, end2)) => Some((seq![m] + ms, end2)),
                        None => None,
                    }
                }
            },
            None => None,
        }
    }
}

/// A parsed value sits strictly between its start and the end of the bytes.
pub proof fn lemma_parse_advances(bytes: Seq<u8>, pos: int)
    ensures
        spec_parse(bytes, pos) matches Some(pair) ==> pos < pair.1 <= bytes.len(),
    decreases bytes.len() - pos, 0int,
{
    if 0 <= pos < bytes.len() && bytes[pos] == 3u8 && pos + 5 <= bytes.len() {
        let n = spec_u32_from_le_bytes(bytes.subrange(pos + 1, pos + 5)) as int;
        if n < LEN_SIGN_BOUND as int {
            lemma_parse_list_advances(bytes, pos + 5, n);
        }
    }
}

/// A parsed run of `count` values yields exactly `count` of them and ends
/// between its start and the end of the bytes.
pub proof fn lemma_parse_list_advances(bytes: Seq<u8>, pos: int, count: int)
    requires
        0 <= pos <= bytes.len(),
        0 <= count,
    ensures
        spec_parse_list(bytes, pos, count) matches Some(pair) ==> pos <= pair.1 <= bytes.len()
            && pair.0.len() == count,
    decreases bytes.len() - pos, count,
{
    if count > 0 && 0 <= pos < bytes.len() {
        match spec_parse(bytes, pos) {
            Some((m, end)) => {
                if pos < end <= bytes.len() {
                    lemma_parse_list_advances(bytes, end, count - 1);
                }
            },
            None => {},
        }
    }
}

/// A window into a region known to hold `ser` shows the matching part of
/// `ser`.
proof fn lemma_subrange_of_eq(bytes: Seq<u8>, pos: int, ser: Seq<u8>, lo: int, hi: int)
    requires
        0 <= pos,
        pos + ser.len() <= bytes.len(),
        bytes.subrange(pos, pos + ser.len() as int) == ser,
        0 <= lo <= hi <= ser.len(),
    ensures
        bytes.subrange(pos + lo, pos + hi) == ser.subrange(lo, hi),
{
    assert forall|j: int| 0 <= j < hi - lo implies bytes.subrange(pos + lo, pos + hi)[j]
        == ser.subrange(lo, hi)[j] by {
        assert(bytes.subrange(pos, pos + ser.len() as int)[lo + j] == ser[lo + j]);
    }
    assert(bytes.subrange(pos + lo, pos + hi) =~= ser.subrange(lo, hi));
}

/// Parsing bytes that hold an encoded value yields exactly that value and
/// stops exactly past it.
pub proof fn lemma_parse_serial(bytes: Seq<u8>, pos: int, m: Val)
    requires
        0 <= pos,
        pos + spec_serial(m).len() <= bytes.len(),
        bytes.len() < LEN_SIGN_BOUND as int,
        bytes.subrange(pos, pos + spec_serial(m).len() as int) == spec_serial(m),
    ensures
        spec_parse(bytes, pos) == Some((m, pos + spec_serial(m).len() as int)),
    decreases m,
{
    let ser = spec_serial(m);
    lemma_serial_len(m);
    assert(bytes[pos] == ser[0]);
    match m {
        Val::Undefined => {
            assert(ser =~= seq![0u8]);
        },
        Val::String(s) => {
            lemma_auto_spec_u32_to_from_le_bytes();
            let n = s.len() as int;
            let le = spec_u32_to_le_bytes(s.len() as u32);
            assert(ser.len() == 5 + n);
            lemma_subrange_of_eq(bytes, pos, ser, 1, 5);
            assert(ser.subrange(1, 5) =~= le);
            assert(spec_u32_from_le_bytes(bytes.subrange(pos + 1, pos + 5)) == s.len() as u32);
            assert(s.len() as u32 == n);
            lemma_subrange_of_eq(bytes, pos, ser, 5, 5 + n);
            assert(ser.subrange(5, 5 + n) =~= s);
        },
        Val::Real(bits) => {
            lemma_auto_spec_u64_to_from_le_bytes();
            let le = spec_u64_to_le_bytes(bits);
            assert(ser.len() == 9);
            lemma_subrange_of_eq(bytes, pos, ser, 1, 9);
            assert(ser.subrange(1, 9) =~= le);
            assert(spec_u64_from_le_bytes(bytes.subrange(pos + 1, pos + 9)) == bits);
        },
        Val::Array(ms) => {
            lemma_auto_spec_u32_to_from_le_bytes();
            lemma_serial_seq_len(ms);
            let body = spec_serial_seq(ms);
            let count = ms.len() as int;
            let le = spec_u32_to_le_bytes(ms.len() as u32);
            assert(ser.len() == 5 + body.len());
            lemma_subrange_of_eq(bytes, pos, ser, 1, 5);
            assert(ser.subrange(1, 5) =~= le);
            assert(spec_u32_from_le_bytes(bytes.subrange(pos + 1, pos + 5)) == ms.len() as u32);
            assert(ms.len() as u32 == count);
            lemma_subrange_of_eq(bytes, pos, ser, 5, 5 + body.len() as int);
            assert(ser.subrange(5, 5 + body.len() as int) =~= body);
            lemma_parse_serial_list(bytes, pos + 5, ms);
        },
    }
}

/// Parsing bytes that hold the encodings of a run of values yields exactly
/// those values in order.
pub proof fn lemma_parse_serial_list(bytes: Seq<u8>, pos: int, ms: Seq<Val>)
    requires
        0 <= pos,
        pos + spec_serial_seq(ms).len() <= bytes.len(),
        bytes.len() < LEN_SIGN_BOUND as int,
        bytes.subrange(pos, pos + spec_serial_seq(ms).len() as int) == spec_serial_seq(ms),
    ensures
        spec_parse_list(bytes, pos, ms.len() as int) == Some(
            (ms, pos + spec_serial_seq(ms).len() as int),
        ),
    decreases ms,
{
    if ms.len() == 0 {
        assert(ms =~= Seq::<Val>::empty());
    } else {
        let m0 = ms[0];
        let rest = ms.subrange(1, ms.len() as int);
        let whole = spec_serial_seq(ms);
        assert(whole == spec_serial(m0) + spec_serial_seq(rest));
        lemma_serial_len(m0);
        let k = spec_serial(m0).len() as int;
        lemma_subrange_of_eq(bytes, pos, whole, 0, k);
        assert(whole.subrange(0, k) =~= spec_serial(m0));
        assert(bytes.subrange(pos, pos + k) == spec_serial(m0));
        lemma_parse_serial(bytes, pos, m0);
        let end1 = pos + k;
        lemma_subrange_of_eq(bytes, pos, whole, k, whole.len() as int);
        assert(whole.subrange(k, whole.len() as int) =~= spec_serial_seq(rest));
        lemma_parse_serial_list(bytes, end1, rest);
        assert(seq![m0] + rest =~= ms);
    }
}

/// Round-trip law: the encoding of a value, followed by any remainder, parses
/// back to exactly that value. The bound keeps every length field readable as
/// a non-negative signed 32-bit number; every buffer-sized region meets it.
pub proof fn lemma_round_trip(m: Val, tail: Seq<u8>)
    requires
        spec_serial(m).len() + tail.len() < LEN_SIGN_BOUND as int,
    ensures
        spec_parse(spec_serial(m) + tail, 0) == Some((m, spec_serial(m).len() as int)),
{
    let bytes = spec_serial(m) + tail;
    assert(bytes.subrange(0, spec_serial(m).len() as int) =~= spec_serial(m));
    lemma_parse_serial(bytes, 0, m);
}

impl Buffer {
    /// Read a 32-bit length field, little-endian.
    #[verifier::loop_isolation(false)]
    pub fn read_len(&mut self) -> (r: Result<u32, Error>)
        requires
            old(self).wf(),
        ensures
            final(self).wf(),
            final(self).data() == old(self).data(),
            old(self).pos() + 4 <= BUFFER_SIZE ==> r == Ok::<u32, Error>(
                spec_u32_from_le_bytes(
                    old(self).data().subrange(old(self).pos(), old(self).pos() + 4),
                ),
            ) && final(self).pos() == old(self).pos() + 4,
            old(self).pos() + 4 > BUFFER_SIZE ==> r == Err::<u32, Error>(Error::MalformedPayload),
    {
        let ghost bytes = self.data();
        let ghost p0 = self.pos();
        let mut le: Vec<u8> = Vec::new();
        let mut i: usize = 0;
        while i < 4
            invariant
                self.wf(),
                self.data() == bytes,
                i <= 4,
                p0 + i <= BUFFER_SIZE,
                self.pos() == p0 + i,
                le@.len() == i,
                forall|j: int| 0 <= j < i ==> le@[j] == bytes[p0 + j],
            decreases 4 - i,
        {
            let b = match self.read_byte() {
                Ok(b) => b,
                Err(e) => {
                    return Err(e);
                },
            };
            le.push(b);
            i = i + 1;
        }
        proof {
            assert(le@ =~= bytes.subrange(p0, p0 + 4));
        }
        Ok(u32_from_le_bytes(le.as_slice()))
    }

    /// Read the 8 bytes of a real number, little-endian.
    #[verifier::loop_isolation(false)]
    pub fn read_real(&mut self) -> (r: Result<u64, Error>)
        requires
            old(self).wf(),
        ensures
            final(self).wf(),
            final(self).data() == old(self).data(),
            old(self).pos() + 8 <= BUFFER_SIZE ==> r == Ok::<u64, Error>(
                spec_u64_from_le_bytes(
                    old(self).data().subrange(old(self).pos(), old(self).pos() + 8),
                ),
            ) && final(self).pos() == old(self).pos() + 8,
            old(self).pos() + 8 > BUFFER_SIZE ==> r == Err::<u64, Error>(Error::MalformedPayload),
    {
        let ghost bytes = self.data();
        let ghost p0 = self.pos();
        let mut le: Vec<u8> = Vec::new();
        let mut i: usize = 0;
        while i < 8
            invariant
                self.wf(),
                self.data() == bytes,
                i <= 8,
                p0 + i <= BUFFER_SIZE,
                self.pos() == p0 + i,
                le@.len() == i,
                forall|j: int| 0 <= j < i ==> le@[j] == bytes[p0 + j],
            decreases 8 - i,
        {
            let b = match self.read_byte() {
                Ok(b) => b,
                Err(e) => {
                    return Err(e);
                },
            };
            le.push(b);
            i = i + 1;
        }
        proof {
            assert(le@ =~= bytes.subrange(p0, p0 + 8));
        }
        Ok(u64_from_le_bytes(le.as_slice()))
    }

    /// Read a length-prefixed run of raw text bytes.
    #[verifier::loop_isolation(false)]
    pub fn read_string(&mut self) -> (r: Result<Vec<u8>, Error>)
        requires
            old(self).wf(),
        ensures
            final(self).wf(),
            final(self).data() == old(self).data(),
            ({
                let bytes = old(self).data();
                let p = old(self).pos();
                let n = spec_u32_from_le_bytes(bytes.subrange(p, p + 4)) as int;
                if p + 4 <= BUFFER_SIZE && n < LEN_SIGN_BOUND as int && p + 4 + n <= BUFFER_SIZE {
                    r matches Ok(v) && v@ == bytes.subrange(p + 4, p + 4 + n) && final(self).pos()
                        == p + 4 + n
                } else {
                    r == Err::<Vec<u8>, Error>(Error::MalformedPayload)
                }
            }),
    {
        let ghost bytes = self.data();
        let ghost p0 = self.pos();
        let len = match self.read_len() {
            Ok(l) => l,
            Err(e) => {
                return Err(e);
            },
        };
        if len >= LEN_SIGN_BOUND {
            return Err(Error::MalformedPayload);
        }
        let n = len as usize;
        if n > BUFFER_SIZE - self.position() {
            return Err(Error::MalformedPayload);
        }
        let mut text: Vec<u8> = Vec::new();
        let mut i: usize = 0;
        while i < n
            invariant
                self.wf(),
                self.data() == bytes,
                i <= n,
                self.pos() == p0 + 4 + i,
                text@.len() == i,
                forall|j: int| 0 <= j < i ==> text@[j] == bytes[p0 + 4 + j],
            decreases n - i,
        {
            let b = match self.read_byte() {
                Ok(b) => b,
                Err(e) => {
                    proof {
                        assert(false);
                    }
                    return Err(e);
                },
            };
            text.push(b);
            i = i + 1;
        }
        proof {
            assert(text@ =~= bytes.subrange(p0 + 4, p0 + 4 + n as int));
        }
        Ok(text)
    }

    /// Read a count-prefixed run of encoded values.
    #[verifier::loop_isolation(false)]
    pub fn read_array(&mut self) -> (r: Result<Vec<Value>, Error>)
        requires
            old(self).wf(),
        ensures
            final(self).wf(),
            final(self).data() == old(self).data(),
            ({
                let bytes = old(self).data();
                let p = old(self).pos();
                let n = spec_u32_from_le_bytes(bytes.subrange(p, p + 4)) as int;
                if p + 4 <= BUFFER_SIZE && n < LEN_SIGN_BOUND as int {
                    match spec_parse_list(bytes, p + 4, n) {
                        Some(pair) => r matches Ok(v) && vals_of(v@) == pair.0 && final(self).pos()
                            == pair.1,
                        None => r == Err::<Vec<Value>, Error>(Error::MalformedPayload),
                    }
                } else {
                    r == Err::<Vec<Value>, Error>(Error::MalformedPayload)
                }
            }),
        decreases BUFFER_SIZE - self.pos(), 0int,
    {
        let ghost bytes = self.data();
        let ghost p0 = self.pos();
        let len = match self.read_len() {
            Ok(l) => l,
            Err(e) => {
                return Err(e);
            },
        };
        if len >= LEN_SIGN_BOUND {
            return Err(Error::MalformedPayload);
        }
        let n = len as usize;
        let ghost start = p0 + 4;
        let ghost total = spec_parse_list(bytes, start, n as int);
        proof {
            match total {
                Some(pair) => {
                    assert(vals_of(Seq::<Value>::empty()) + pair.0 =~= pair.0);
                },
                None => {},
            }
        }
        let mut items: Vec<Value> = Vec::new();
        let mut i: usize = 0;
        while i < n
            invariant
                self.wf(),
                self.data() == bytes,
                i <= n,
                items@.len() == i,
                start <= self.pos() <= BUFFER_SIZE,
                match spec_parse_list(bytes, self.pos(), n - i) {
                    Some(pair) => total == Some::<(Seq<Val>, int)>(
                        (vals_of(items@) + pair.0, pair.1),
                    ),
                    None => total is None,
                },
            decreases n - i,
        {
            let ghost cur = self.pos();
            let ghost k = (n - i) as int;
            let v = match self.read() {
                Ok(v) => v,
                Err(e) => {
                    proof {
                        assert(spec_parse_list(bytes, cur, k) is None);
                    }
                    return Err(Error::MalformedPayload);
                },
            };
            let ghost end = self.pos();
            let ghost prev = items@;
            items.push(v);
            proof {
                lemma_parse_advances(bytes, cur);
                crate::value::lemma_vals_of_push(prev, v);
                match spec_parse_list(bytes, end, k - 1) {
                    Some(pair) => {
                        assert(spec_parse_list(bytes, cur, k) == Some::<(Seq<Val>, int)>(
                            (seq![v@] + pair.0, pair.1),
                        ));
                        assert(vals_of(prev) + (seq![v@] + pair.0) =~= vals_of(prev.push(v))
                            + pair.0);
                    },
                    None => {
                        assert(spec_parse_list(bytes, cur, k) is None);
                    },
                }
            }
            i = i + 1;
        }
        proof {
            match total {
                Some(pair) => {
                    assert(vals_of(items@) + Seq::<Val>::empty() =~= vals_of(items@));
                },
                None => {},
            }
        }
        Ok(items)
    }

    /// Read one encoded value at the cursor and advance past it. Succeeds
    /// exactly when the bytes there decode, and then yields the decoded
    /// value; the bytes themselves are kept.
    pub fn read(&mut self) -> (r: Result<Value, Error>)
        requires
            old(self).wf(),
        ensures
            final(self).wf(),
            final(self).data() == old(self).data(),
            match spec_parse(old(self).data(), old(self).pos()) {
                Some(pair) => r matches Ok(v) && v@ == pair.0 && final(self).pos() == pair.1,
                None => r == Err::<Value, Error>(Error::MalformedPayload),
            },
        decreases BUFFER_SIZE - self.pos(), 1int,
    {
        let ghost bytes = self.data();
        let ghost p0 = self.pos();
        let tag = match self.read_byte() {
            Ok(t) => t,
            Err(e) => {
                return Err(e);
            },
        };
        match tag {
            0u8 => Ok(Value::Undefined),
            1u8 => match self.read_string() {
                Ok(text) => Ok(Value::String(text)),
                Err(e) => Err(e),
            },
            2u8 => match self.read_real() {
                Ok(bits) => Ok(Value::Real(bits)),
                Err(e) => Err(e),
            },
            3u8 => match self.read_array() {
                Ok(elements) => Ok(Value::Array(elements)),
                Err(e) => Err(e),
            },
            _ => Err(Error::MalformedPayload),
        }
    }
}

/// Unambiguity law: the wire format is self-delimiting, so two values with
/// the same encoding are the same value. The bound keeps the length fields
/// readable; every value that fits a buffer meets it.
pub proof fn lemma_serial_injective(m1: Val, m2: Val)
    requires
        spec_serial(m1) == spec_serial(m2),
        spec_serial(m1).len() < LEN_SIGN_BOUND as int,
    ensures
        m1 == m2,
{
    lemma_round_trip(m1, Seq::empty());
    lemma_round_trip(m2, Seq::empty());
    assert(spec_serial(m1) + Seq::<u8>::empty() =~= spec_serial(m1));
    assert(spec_serial(m2) + Seq::<u8>::empty() =~= spec_serial(m2));
}

/// The bytes of `bytes` with `payload` written over the region that starts
/// at `pos`; everything before and after is kept.
pub open spec fn spec_splice(bytes: Seq<u8>, pos: int, payload: Seq<u8>) -> Seq<u8> {
    bytes.subrange(0, pos) + payload + bytes.subrange(pos + payload.len(), bytes.len() as int)
}

/// Splicing nothing changes nothing.
pub proof fn lemma_splice_empty(bytes: Seq<u8>, pos: int)
    requires
        0 <= pos <= bytes.len(),
    ensures
        spec_splice(bytes, pos, Seq::empty()) == bytes,
{
    assert(spec_splice(bytes, pos, Seq::empty()) =~= bytes);
}

/// Writing one more byte right after a spliced payload extends the splice.
pub proof fn lemma_splice_push(bytes: Seq<u8>, pos: int, payload: Seq<u8>, byte: u8)
    requires
        0 <= pos,
        pos + payload.len() + 1 <= bytes.len(),
    ensures
        spec_splice(bytes, pos, payload).update(pos + payload.len(), byte) == spec_splice(
            bytes,
            pos,
            payload.push(byte),
        ),
{
    assert(spec_splice(bytes, pos, payload).update(pos + payload.len(), byte) =~= spec_splice(
        bytes,
        pos,
        payload.push(byte),
    ));
}

/// The wire encoding of a value: tag byte, then the payload.
pub open spec fn spec_serial(m: Val) -> Seq<u8>
    decreases m,
{
    match m {
        Val::Undefined => seq![0u8],
        Val::String(s) => seq![1u8] + spec_u32_to_le_bytes(s.len() as u32) + s,
        Val::Real(bits) => seq![2u8] + spec_u64_to_le_bytes(bits),
        Val::Array(ms) => seq![3u8] + spec_u32_to_le_bytes(ms.len() as u32) + spec_serial_seq(ms),
    }
}

/// The wire encoding of a sequence of values, in order, with no separators.
pub open spec fn spec_serial_seq(ms: Seq<Val>) -> Seq<u8>
    decreases ms,
{
    if ms.len() == 0 {
        Seq::empty()
    } else {
        spec_serial(ms[0]) + spec_serial_seq(ms.subrange(1, ms.len() as int))
    }
}

/// Every encoding takes at least its tag byte.
pub proof fn lemma_serial_len(m: Val)
    ensures
        spec_serial(m).len() >= 1,
{
}

/// Encodings of sequences concatenate.
pub proof fn lemma_serial_seq_concat(first: Seq<Val>, second: Seq<Val>)
    ensures
        spec_serial_seq(first + second) == spec_serial_seq(first) + spec_serial_seq(second),
    decreases first.len(),
{
    if first.len() == 0 {
        assert(first + second =~= second);
        assert(spec_serial_seq(first) + spec_serial_seq(second) =~= spec_serial_seq(second));
    } else {
        let rest = first.subrange(1, first.len() as int);
        lemma_serial_seq_concat(rest, second);
        assert((first + second).subrange(1, (first + second).len() as int) =~= rest + second);
        assert((first + second)[0] == first[0]);
        assert(spec_serial_seq(first + second) == spec_serial(first[0]) + (spec_serial_seq(rest)
            + spec_serial_seq(second)));
        assert(spec_serial(first[0]) + (spec_serial_seq(rest) + spec_serial_seq(second))
            =~= (spec_serial(first[0]) + spec_serial_seq(rest)) + spec_serial_seq(second));
    }
}

/// Encoding one more element appends its encoding.
pub proof fn lemma_serial_seq_push(ms: Seq<Val>, m: Val)
    ensures
        spec_serial_seq(ms.push(m)) == spec_serial_seq(ms) + spec_serial(m),
{
    lemma_serial_seq_concat(ms, seq![m]);
    assert(ms + seq![m] =~= ms.push(m));
    assert(seq![m].subrange(1, 1) =~= Seq::<Val>::empty());
    assert(spec_serial_seq(Seq::<Val>::empty()) == Seq::<u8>::empty());
    assert(spec_serial_seq(seq![m]) == spec_serial(m) + Seq::<u8>::empty());
    assert(spec_serial(m) + Seq::<u8>::empty() =~= spec_serial(m));
}

/// A sequence encoding is at least one byte per element.
pub proof fn lemma_serial_seq_len(ms: Seq<Val>)
    ensures
        spec_serial_seq(ms).len() >= ms.len(),
    decreases ms.len(),
{
    if ms.len() > 0 {
        lemma_serial_len(ms[0]);
        lemma_serial_seq_len(ms.subrange(1, ms.len() as int));
    }
}

/// Two consecutive splices amount to one splice of the concatenation.
pub proof fn lemma_splice_concat(bytes: Seq<u8>, pos: int, first: Seq<u8>, second: Seq<u8>)
    requires
        0 <= pos,
        pos + first.len() + second.len() <= bytes.len(),
    ensures
        spec_splice(spec_splice(bytes, pos, first), pos + first.len(), second) == spec_splice(
            bytes,
            pos,
            first + second,
        ),
{
    assert(spec_splice(spec_splice(bytes, pos, first), pos + first.len(), second) =~= spec_splice(
        bytes,
        pos,
        first + second,
    ));
}

} // verus!
