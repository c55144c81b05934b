//! The plain encoding: each value in its binary form, one after the other.
use crate::errors::TsFileError;
use crate::utils::{
    add_sizes, be_bytes_i64, be_bytes_u32, be_bytes_u64, saturated, var_i32_bytes, write_bytes,
    write_i64_be, write_u32_be, write_u64_be, write_var_i32,
};
use crate::{IoTDBValue, TSDataType};
use vstd::prelude::*;

verus! {

/// The plain form of a value: a 32-bit integer as a zig-zag variable-length
/// integer, the other types in big-endian bytes of their full width.
pub open spec fn plain_bytes(value: IoTDBValue) -> Seq<u8> {
    match value {
        IoTDBValue::INT(v) => var_i32_bytes(v),
        IoTDBValue::LONG(v) => be_bytes_i64(v),
        IoTDBValue::FLOAT(bits) => be_bytes_u32(bits),
        IoTDBValue::DOUBLE(bits) => be_bytes_u64(bits),
    }
}

/// The state of a plain encoder: the type it takes and the bytes it holds.
pub struct PlainState {
    pub data_type: TSDataType,
    pub buffer: Seq<u8>,
}

/// Encoder that keeps each value in its plain form.
pub struct PlainEncoder {
    data_type: TSDataType,
    buffer: Vec<u8>,
}

impl View for PlainEncoder {
    type V = PlainState;

    closed spec fn view(&self) -> PlainState {
        PlainState { data_type: self.data_type, buffer: self.buffer@ }
    }
}

impl PlainEncoder {
    /// An encoder for values of `data_type` that holds nothing.
    pub fn new(data_type: TSDataType) -> (encoder: PlainEncoder)
        ensures
            encoder@ == (PlainState { data_type, buffer: Seq::empty() }),
    {
        PlainEncoder { data_type, buffer: Vec::new() }
    }

    /// Takes one value of the encoder's type; a value of another type is
    /// refused and changes nothing.
    pub fn write(&mut self, value: &IoTDBValue) -> (done: Result<(), TsFileError>)
        ensures
            final(self)@.data_type == old(self)@.data_type,
            value.spec_data_type() == old(self)@.data_type ==> done is Ok && final(self)@.buffer
                == old(self)@.buffer + plain_bytes(*value),
            value.spec_data_type() != old(self)@.data_type ==> done == Err::<(), TsFileError>(
                TsFileError::WrongTypeForSeries,
            ) && final(self)@ == old(self)@,
    {
        if value.data_type() != self.data_type {
            return Err(TsFileError::WrongTypeForSeries);
        }
        match value {
            IoTDBValue::DOUBLE(bits) => {
                write_u64_be(*bits, &mut self.buffer);
            },
            IoTDBValue::FLOAT(bits) => {
                write_u32_be(*bits, &mut self.buffer);
            },
            IoTDBValue::INT(v) => {
                write_var_i32(*v, &mut self.buffer);
            },
            IoTDBValue::LONG(v) => {
                write_i64_be(*v, &mut self.buffer);
            },
        }
        Ok(())
    }

    /// The number of bytes held.
    pub fn size(&self) -> (size: usize)
        ensures
            size == self@.buffer.len(),
    {
        self.buffer.len()
    }

    /// The estimate of further growth: for 32-bit integers 24 more than the
    /// bytes held, for the other types nothing.
    pub fn get_max_byte_size(&self) -> (size: u64)
        ensures
            size == plain_max_byte_size(self@),
    {
        match self.data_type {
            TSDataType::INT32 => add_sizes(self.buffer.len() as u64, 24),
            _ => 0,
        }
    }

    /// Appends the bytes held to `buffer`.
    pub fn serialize(&mut self, buffer: &mut Vec<u8>)
        ensures
            final(self)@ == old(self)@,
            final(buffer)@ == old(buffer)@ + old(self)@.buffer,
    {
        write_bytes(self.buffer.as_slice(), buffer);
    }

    /// Forgets the bytes held.
    pub fn reset(&mut self)
        ensures
            final(self)@ == (PlainState { data_type: old(self)@.data_type, buffer: Seq::empty() }),
    {
        self.buffer.clear();
    }
}

/// The estimate of further growth of a plain encoder.
pub open spec fn plain_max_byte_size(state: PlainState) -> u64 {
    if state.data_type == TSDataType::INT32 {
        saturated((state.buffer.len() + 24) as int)
    } else {
        0
    }
}

} // verus!
