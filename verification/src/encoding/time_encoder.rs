//! The delta encoders: the encoder of timestamps and the two value encoders
//! for 64-bit and 32-bit integers.
use crate::bit_packing::{bytes_for_bits, fits_width, holds_value, pack_bits, stream_bit};
use crate::encoding::ts2diff::{block_bytes_32, block_bytes_64, encode_block_32, encode_block_64};
use crate::errors::TsFileError;
use crate::utils::write_bytes;
use crate::IoTDBValue;
use vstd::prelude::*;

verus! {

/// The number of deltas that fill a block.
pub const BLOCK_SIZE: usize = 128;

/// The state of an encoder of 64-bit values.
pub struct LongDeltaState {
    /// The first value of the block being gathered, if it has one.
    pub first_value: Option<i64>,
    /// The least delta of the block so far.
    pub min_delta: i64,
    /// The value written last.
    pub previous_value: i64,
    /// The deltas of the block so far.
    pub values: Seq<i64>,
    /// The bytes of the blocks that are complete.
    pub buffer: Seq<u8>,
}

impl LongDeltaState {
    /// The state of an encoder that holds nothing.
    pub open spec fn empty() -> LongDeltaState {
        LongDeltaState {
            first_value: None,
            min_delta: i64::MAX,
            previous_value: i64::MAX,
            values: Seq::empty(),
            buffer: Seq::empty(),
        }
    }

    /// Whether the block being gathered is short of full.
    pub open spec fn wf(self) -> bool {
        self.values.len() < BLOCK_SIZE
    }

    /// The state after the block being gathered, if there is one, has been
    /// closed and its bytes appended to the buffer.
    pub open spec fn flushed(self) -> LongDeltaState {
        match self.first_value {
            None => self,
            Some(first) => LongDeltaState {
                first_value: None,
                min_delta: i64::MAX,
                previous_value: 0,
                values: Seq::empty(),
                buffer: self.buffer + block_bytes_64(first, self.min_delta, self.values),
            },
        }
    }

    /// The state after `value` has been taken into the block, before a full
    /// block is closed. The first value opens the block; each later one adds
    /// its difference from the value before it, taken in wrapping
    /// arithmetic.
    pub open spec fn taken(self, value: i64) -> LongDeltaState {
        match self.first_value {
            None => LongDeltaState { first_value: Some(value), previous_value: value, ..self },
            Some(_) => {
                let delta = value.wrapping_sub(self.previous_value);
                LongDeltaState {
                    min_delta: if delta < self.min_delta {
                        delta
                    } else {
                        self.min_delta
                    },
                    values: self.values.push(delta),
                    previous_value: value,
                    ..self
                }
            },
        }
    }

    /// The state after `value` has been written: it is taken into the block,
    /// and a block that has become full is closed.
    pub open spec fn written(self, value: i64) -> LongDeltaState {
        if self.taken(value).values.len() == BLOCK_SIZE {
            self.taken(value).flushed()
        } else {
            self.taken(value)
        }
    }

    /// What serializing gives: the bytes of the complete blocks and of the
    /// block being gathered.
    pub open spec fn serialized(self) -> Seq<u8> {
        self.flushed().buffer
    }
}

/// The state of an encoder of 32-bit values.
pub struct IntDeltaState {
    /// The first value of the block being gathered, if it has one.
    pub first_value: Option<i32>,
    /// The least delta of the block so far.
    pub min_delta: i32,
    /// The value written last.
    pub previous_value: i32,
    /// The deltas of the block so far.
    pub values: Seq<i32>,
    /// The bytes of the blocks that are complete.
    pub buffer: Seq<u8>,
}

impl IntDeltaState {
    /// The state of an encoder that holds nothing.
    pub open spec fn empty() -> IntDeltaState {
        IntDeltaState {
            first_value: None,
            min_delta: i32::MAX,
            previous_value: i32::MAX,
            values: Seq::empty(),
            buffer: Seq::empty(),
        }
    }

    /// Whether the block being gathered is short of full.
    pub open spec fn wf(self) -> bool {
        self.values.len() < BLOCK_SIZE
    }

    /// The state after the block being gathered, if there is one, has been
    /// closed and its bytes appended to the buffer.
    pub open spec fn flushed(self) -> IntDeltaState {
        match self.first_value {
            None => self,
            Some(first) => IntDeltaState {
                first_value: None,
                min_delta: i32::MAX,
                previous_value: 0,
                values: Seq::empty(),
                buffer: self.buffer + block_bytes_32(first, self.min_delta, self.values),
            },
        }
    }

    /// The state after `value` has been taken into the block, before a full
    /// block is closed.
    pub open spec fn taken(self, value: i32) -> IntDeltaState {
        match self.first_value {
            None => IntDeltaState { first_value: Some(value), previous_value: value, ..self },
            Some(_) => {
                let delta = value.wrapping_sub(self.previous_value);
                IntDeltaState {
                    min_delta: if delta < self.min_delta {
                        delta
                    } else {
                        self.min_delta
                    },
                    values: self.values.push(delta),
                    previous_value: value,
                    ..self
                }
            },
        }
    }

    /// The state after `value` has been written: it is taken into the block,
    /// and a block that has become full is closed.
    pub open spec fn written(self, value: i32) -> IntDeltaState {
        if self.taken(value).values.len() == BLOCK_SIZE {
            self.taken(value).flushed()
        } else {
            self.taken(value)
        }
    }

    /// What serializing gives: the bytes of the complete blocks and of the
    /// block being gathered.
    pub open spec fn serialized(self) -> Seq<u8> {
        self.flushed().buffer
    }
}

/// Delta encoder for 64-bit integer values.
pub struct LongTs2DiffEncoder {
    first_value: Option<i64>,
    min_delta: i64,
    previous_value: i64,
    values: Vec<i64>,
    buffer: Vec<u8>,
}

impl View for LongTs2DiffEncoder {
    type V = LongDeltaState;

    closed spec fn view(&self) -> LongDeltaState {
        LongDeltaState {
            first_value: self.first_value,
            min_delta: self.min_delta,
            previous_value: self.previous_value,
            values: self.values@,
            buffer: self.buffer@,
        }
    }
}

impl LongTs2DiffEncoder {
    /// An encoder that holds nothing.
    pub fn new() -> (encoder: LongTs2DiffEncoder)
        ensures
            encoder@ == LongDeltaState::empty(),
    {
        LongTs2DiffEncoder {
            first_value: None,
            min_delta: i64::MAX,
            previous_value: i64::MAX,
            values: Vec::new(),
            buffer: Vec::new(),
        }
    }

    /// Takes one value.
    pub fn encode(&mut self, value: i64)
        requires
            old(self)@.wf(),
        ensures
            final(self)@ == old(self)@.written(value),
            final(self)@.wf(),
    {
        match self.first_value {
            None => {
                self.first_value = Some(value);
                self.previous_value = value;
            },
            Some(_) => {
                let delta = value.wrapping_sub(self.previous_value);
                if delta < self.min_delta {
                    self.min_delta = delta;
                }
                self.values.push(delta);
                self.previous_value = value;
            },
        }
        if self.values.len() == BLOCK_SIZE {
            self.flush();
        }
    }

    /// Takes one value of a series of 64-bit integers; a value of another
    /// type is refused and changes nothing.
    pub fn write(&mut self, value: &IoTDBValue) -> (done: Result<(), TsFileError>)
        requires
            old(self)@.wf(),
        ensures
            final(self)@.wf(),
            match *value {
                IoTDBValue::LONG(v) => done is Ok && final(self)@ == old(self)@.written(v),
                _ => done == Err::<(), TsFileError>(TsFileError::WrongTypeForSeries) && final(self)@
                    == old(self)@,
            },
    {
        match value {
            IoTDBValue::LONG(v) => {
                self.encode(*v);
                Ok(())
            },
            _ => Err(TsFileError::WrongTypeForSeries),
        }
    }

    /// The number of bytes in the blocks that are complete.
    pub fn size(&self) -> (size: usize)
        ensures
            size == self@.buffer.len(),
    {
        self.buffer.len()
    }

    /// An upper bound on what the block being gathered will add: 24 bytes
    /// of header and 8 bytes for each delta.
    pub fn get_max_byte_size(&self) -> (size: usize)
        requires
            self@.wf(),
        ensures
            size == 24 + 8 * self@.values.len(),
    {
        24 + self.values.len() * 8
    }

    /// Closes the block being gathered, then appends all the encoder's
    /// bytes to `buffer`.
    pub fn serialize(&mut self, buffer: &mut Vec<u8>)
        requires
            old(self)@.wf(),
        ensures
            final(self)@ == old(self)@.flushed(),
            final(self)@.wf(),
            final(buffer)@ == old(buffer)@ + old(self)@.serialized(),
    {
        self.flush();
        write_bytes(self.buffer.as_slice(), buffer);
    }

    /// Forgets everything.
    pub fn reset(&mut self)
        ensures
            final(self)@ == LongDeltaState::empty(),
    {
        self.first_value = None;
        self.min_delta = i64::MAX;
        self.previous_value = i64::MAX;
        self.values.clear();
        self.buffer.clear();
    }

    fn flush(&mut self)
        requires
            old(self)@.values.len() <= BLOCK_SIZE,
            old(self)@.first_value is None ==> old(self)@.wf(),
        ensures
            final(self)@ == old(self)@.flushed(),
            final(self)@.wf(),
    {
        match self.first_value {
            None => {},
            Some(first) => {
                encode_block_64(first, self.min_delta, &self.values, &mut self.buffer);
                self.values.clear();
                self.first_value = None;
                self.previous_value = 0;
                self.min_delta = i64::MAX;
            },
        }
    }

    /// Writes the `width` low bits of `number` into the stream `result`
    /// from bit `pos` on, most significant bit first. What the stream held
    /// before `pos` stays; what it held from `pos` on is replaced.
    pub fn to_bytes(number: i64, result: &mut Vec<u8>, pos: usize, width: u32)
        requires
            width <= 64,
            number >= 0,
            fits_width(number as u64, width as int),
            pos / 8 <= old(result).len(),
            pos + 64 <= usize::MAX,
        ensures
            width == 0 ==> final(result)@ == old(result)@,
            width > 0 ==> final(result)@.len() == bytes_for_bits(pos + width),
            width > 0 ==> forall|j: int|
                0 <= j < pos ==> stream_bit(final(result)@, j) == stream_bit(old(result)@, j),
            width > 0 ==> holds_value(final(result)@, pos as int, width as int, number as u64),
            width > 0 ==> forall|j: int| pos + width <= j ==> !stream_bit(final(result)@, j),
    {
        pack_bits(number as u64, result, pos, width);
    }
}

/// Delta encoder for 32-bit integer values.
pub struct IntTs2DiffEncoder {
    first_value: Option<i32>,
    min_delta: i32,
    previous_value: i32,
    values: Vec<i32>,
    buffer: Vec<u8>,
}

impl View for IntTs2DiffEncoder {
    type V = IntDeltaState;

    closed spec fn view(&self) -> IntDeltaState {
        IntDeltaState {
            first_value: self.first_value,
            min_delta: self.min_delta,
            previous_value: self.previous_value,
            values: self.values@,
            buffer: self.buffer@,
        }
    }
}

impl IntTs2DiffEncoder {
    /// An encoder that holds nothing.
    pub fn new() -> (encoder: IntTs2DiffEncoder)
        ensures
            encoder@ == IntDeltaState::empty(),
    {
        IntTs2DiffEncoder {
            first_value: None,
            min_delta: i32::MAX,
            previous_value: i32::MAX,
            values: Vec::new(),
            buffer: Vec::new(),
        }
    }

    /// Takes one value.
    pub fn encode(&mut self, value: i32)
        requires
            old(self)@.wf(),
        ensures
            final(self)@ == old(self)@.written(value),
            final(self)@.wf(),
    {
        match self.first_value {
            None => {
                self.first_value = Some(value);
                self.previous_value = value;
            },
            Some(_) => {
                let delta = value.wrapping_sub(self.previous_value);
                if delta < self.min_delta {
                    self.min_delta = delta;
                }
                self.values.push(delta);
                self.previous_value = value;
            },
        }
        if self.values.len() == BLOCK_SIZE {
            self.flush();
        }
    }

    /// Takes one value of a series of 32-bit integers; a value of another
    /// type is refused and changes nothing.
    pub fn write(&mut self, value: &IoTDBValue) -> (done: Result<(), TsFileError>)
        requires
            old(self)@.wf(),
        ensures
            final(self)@.wf(),
            match *value {
                IoTDBValue::INT(v) => done is Ok && final(self)@ == old(self)@.written(v),
                _ => done == Err::<(), TsFileError>(TsFileError::WrongTypeForSeries) && final(self)@
                    == old(self)@,
            },
    {
        match value {
            IoTDBValue::INT(v) => {
                self.encode(*v);
                Ok(())
            },
            _ => Err(TsFileError::WrongTypeForSeries),
        }
    }

    /// The number of bytes in the blocks that are complete.
    pub fn size(&self) -> (size: usize)
        ensures
            size == self@.buffer.len(),
    {
        self.buffer.len()
    }

    /// An upper bound on what the block being gathered will add: 24 bytes
    /// of header and 4 bytes for each delta.
    pub fn get_max_byte_size(&self) -> (size: usize)
        requires
            self@.wf(),
        ensures
            size == 24 + 4 * self@.values.len(),
    {
        24 + self.values.len() * 4
    }

    /// Closes the block being gathered, then appends all the encoder's
    /// bytes to `buffer`.
    pub fn serialize(&mut self, buffer: &mut Vec<u8>)
        requires
            old(self)@.wf(),
        ensures
            final(self)@ == old(self)@.flushed(),
            final(self)@.wf(),
            final(buffer)@ == old(buffer)@ + old(self)@.serialized(),
    {
        self.flush();
        write_bytes(self.buffer.as_slice(), buffer);
    }

    /// Forgets everything.
    pub fn reset(&mut self)
        ensures
            final(self)@ == IntDeltaState::empty(),
    {
        self.first_value = None;
        self.min_delta = i32::MAX;
        self.previous_value = i32::MAX;
        self.values.clear();
        self.buffer.clear();
    }

    fn flush(&mut self)
        requires
            old(self)@.values.len() <= BLOCK_SIZE,
            old(self)@.first_value is None ==> old(self)@.wf(),
        ensures
            final(self)@ == old(self)@.flushed(),
            final(self)@.wf(),
    {
        match self.first_value {
            None => {},
            Some(first) => {
                encode_block_32(first, self.min_delta, &self.values, &mut self.buffer);
                self.values.clear();
                self.first_value = None;
                self.previous_value = 0;
                self.min_delta = i32::MAX;
            },
        }
    }

    /// Writes the `width` low bits of `number` into the stream `result`
    /// from bit `pos` on, most significant bit first. What the stream held
    /// before `pos` stays; what it held from `pos` on is replaced.
    pub fn to_bytes(number: i32, result: &mut Vec<u8>, pos: usize, width: u32)
        requires
            width <= 64,
            number >= 0,
            fits_width(number as u64, width as int),
            pos / 8 <= old(result).len(),
            pos + 64 <= usize::MAX,
        ensures
            width == 0 ==> final(result)@ == old(result)@,
            width > 0 ==> final(result)@.len() == bytes_for_bits(pos + width),
            width > 0 ==> forall|j: int|
                0 <= j < pos ==> stream_bit(final(result)@, j) == stream_bit(old(result)@, j),
            width > 0 ==> holds_value(final(result)@, pos as int, width as int, number as u64),
            width > 0 ==> forall|j: int| pos + width <= j ==> !stream_bit(final(result)@, j),
    {
        pack_bits(number as u64, result, pos, width);
    }
}

/// Delta encoder for the timestamps of a page.
pub struct TimeEncoder {
    inner: LongTs2DiffEncoder,
}

impl View for TimeEncoder {
    type V = LongDeltaState;

    closed spec fn view(&self) -> LongDeltaState {
        self.inner@
    }
}

impl TimeEncoder {
    /// An encoder that holds nothing.
    pub fn new() -> (encoder: TimeEncoder)
        ensures
            encoder@ == LongDeltaState::empty(),
    {
        TimeEncoder { inner: LongTs2DiffEncoder::new() }
    }

    /// Takes one timestamp.
    pub fn encode(&mut self, value: i64)
        requires
            old(self)@.wf(),
        ensures
            final(self)@ == old(self)@.written(value),
            final(self)@.wf(),
    {
        self.inner.encode(value);
    }

    /// The number of bytes in the blocks that are complete.
    pub fn size(&self) -> (size: usize)
        ensures
            size == self@.buffer.len(),
    {
        self.inner.size()
    }

    /// An upper bound on what the block being gathered will add: 24 bytes
    /// of header and 8 bytes for each delta.
    pub fn get_max_byte_size(&self) -> (size: usize)
        requires
            self@.wf(),
        ensures
            size == 24 + 8 * self@.values.len(),
    {
        self.inner.get_max_byte_size()
    }

    /// Closes the block being gathered, then appends all the encoder's
    /// bytes to `buffer`.
    pub fn serialize(&mut self, buffer: &mut Vec<u8>)
        requires
            old(self)@.wf(),
        ensures
            final(self)@ == old(self)@.flushed(),
            final(self)@.wf(),
            final(buffer)@ == old(buffer)@ + old(self)@.serialized(),
    {
        self.inner.serialize(buffer);
    }

    /// Forgets everything.
    pub fn reset(&mut self)
        ensures
            final(self)@ == LongDeltaState::empty(),
    {
        self.inner.reset();
    }

    /// Writes the `width` low bits of `number` into the stream `result`
    /// from bit `pos` on, most significant bit first. What the stream held
    /// before `pos` stays; what it held from `pos` on is replaced.
    pub fn long_to_bytes(number: i64, result: &mut Vec<u8>, pos: usize, width: u32)
        requires
            width <= 64,
            number >= 0,
            fits_width(number as u64, width as int),
            pos / 8 <= old(result).len(),
            pos + 64 <= usize::MAX,
        ensures
            width == 0 ==> final(result)@ == old(result)@,
            width > 0 ==> final(result)@.len() == bytes_for_bits(pos + width),
            width > 0 ==> forall|j: int|
                0 <= j < pos ==> stream_bit(final(result)@, j) == stream_bit(old(result)@, j),
            width > 0 ==> holds_value(final(result)@, pos as int, width as int, number as u64),
            width > 0 ==> forall|j: int| pos + width <= j ==> !stream_bit(final(result)@, j),
    {
        pack_bits(number as u64, result, pos, width);
    }
}

} // verus!
