//! The encodings of a series' values.
use crate::encoding::plain::{plain_bytes, plain_max_byte_size, PlainEncoder, PlainState};
use crate::encoding::time_encoder::{
    IntDeltaState, IntTs2DiffEncoder, LongDeltaState, LongTs2DiffEncoder,
};
use crate::errors::TsFileError;
use crate::{IoTDBValue, TSDataType};
use vstd::prelude::*;

pub mod plain;
pub mod time_encoder;
pub mod ts2diff;

verus! {

/// How the values of a series are encoded.
#[derive(Clone, Copy, Debug, PartialEq, Eq, Structural)]
pub enum TSEncoding {
    /// Values one after the other, each in its plain binary form.
    PLAIN,
    /// Differences between neighbours, bit-packed in blocks.
    TS2DIFF,
}

impl TSEncoding {
    /// The tag of the encoding.
    pub open spec fn tag(self) -> u8 {
        match self {
            TSEncoding::PLAIN => 0,
            TSEncoding::TS2DIFF => 4,
        }
    }

    /// The tag that stands for the encoding in a file.
    pub fn serialize(&self) -> (tag: u8)
        ensures
            tag == self.tag(),
    {
        match self {
            TSEncoding::PLAIN => 0,
            TSEncoding::TS2DIFF => 4,
        }
    }

    /// The encoding that a tag stands for.
    pub fn try_from(value: u8) -> (encoding: Result<TSEncoding, ()>)
        ensures
            match encoding {
                Ok(e) => e.tag() == value,
                Err(_) => value != 0 && value != 4,
            },
    {
        if value == 0 {
            Ok(TSEncoding::PLAIN)
        } else if value == 4 {
            Ok(TSEncoding::TS2DIFF)
        } else {
            Err(())
        }
    }
}

/// The state of a value encoder.
pub enum EncoderState {
    Plain(PlainState),
    Long(LongDeltaState),
    Int(IntDeltaState),
}

impl EncoderState {
    /// Whether the state is one that an encoder can be in between calls.
    pub open spec fn wf(self) -> bool {
        match self {
            EncoderState::Plain(_) => true,
            EncoderState::Long(s) => s.wf(),
            EncoderState::Int(s) => s.wf(),
        }
    }

    /// The type of the values that the encoder takes.
    pub open spec fn data_type(self) -> TSDataType {
        match self {
            EncoderState::Plain(s) => s.data_type,
            EncoderState::Long(_) => TSDataType::INT64,
            EncoderState::Int(_) => TSDataType::INT32,
        }
    }

    /// The state after a value of the encoder's type has been written.
    pub open spec fn written(self, value: IoTDBValue) -> EncoderState {
        match (self, value) {
            (EncoderState::Plain(s), _) => EncoderState::Plain(
                PlainState { data_type: s.data_type, buffer: s.buffer + plain_bytes(value) },
            ),
            (EncoderState::Long(s), IoTDBValue::LONG(v)) => EncoderState::Long(s.written(v)),
            (EncoderState::Int(s), IoTDBValue::INT(v)) => EncoderState::Int(s.written(v)),
            _ => self,
        }
    }

    /// The bytes that serializing appends.
    pub open spec fn serialized(self) -> Seq<u8> {
        match self {
            EncoderState::Plain(s) => s.buffer,
            EncoderState::Long(s) => s.serialized(),
            EncoderState::Int(s) => s.serialized(),
        }
    }

    /// The state that serializing leaves: a delta encoder has closed its
    /// block.
    pub open spec fn flushed(self) -> EncoderState {
        match self {
            EncoderState::Plain(s) => self,
            EncoderState::Long(s) => EncoderState::Long(s.flushed()),
            EncoderState::Int(s) => EncoderState::Int(s.flushed()),
        }
    }

    /// The state of the same kind of encoder holding nothing.
    pub open spec fn cleared(self) -> EncoderState {
        match self {
            EncoderState::Plain(s) => EncoderState::Plain(
                PlainState { data_type: s.data_type, buffer: Seq::empty() },
            ),
            EncoderState::Long(_) => EncoderState::Long(LongDeltaState::empty()),
            EncoderState::Int(_) => EncoderState::Int(IntDeltaState::empty()),
        }
    }

    /// The number of bytes buffered.
    pub open spec fn size(self) -> nat {
        match self {
            EncoderState::Plain(s) => s.buffer.len(),
            EncoderState::Long(s) => s.buffer.len(),
            EncoderState::Int(s) => s.buffer.len(),
        }
    }

    /// The encoder's estimate of its further growth.
    pub open spec fn max_byte_size(self) -> u64 {
        match self {
            EncoderState::Plain(s) => plain_max_byte_size(s),
            EncoderState::Long(s) => (24 + 8 * s.values.len()) as u64,
            EncoderState::Int(s) => (24 + 4 * s.values.len()) as u64,
        }
    }
}

/// The state of a fresh encoder for a series of `data_type` encoded by
/// `encoding`, where one exists: any type can be stored plainly, only the
/// two integer types as deltas.
pub open spec fn encoder_for(data_type: TSDataType, encoding: TSEncoding) -> Option<EncoderState> {
    match (data_type, encoding) {
        (_, TSEncoding::PLAIN) => Some(
            EncoderState::Plain(PlainState { data_type, buffer: Seq::empty() }),
        ),
        (TSDataType::INT64, TSEncoding::TS2DIFF) => Some(
            EncoderState::Long(LongDeltaState::empty()),
        ),
        (TSDataType::INT32, TSEncoding::TS2DIFF) => Some(EncoderState::Int(IntDeltaState::empty())),
        (_, TSEncoding::TS2DIFF) => None,
    }
}

/// A fresh encoder takes the values of the type it was made for.
pub proof fn lemma_encoder_for_type(data_type: TSDataType, encoding: TSEncoding)
    ensures
        match encoder_for(data_type, encoding) {
            Some(state) => state.data_type() == data_type && state.wf() && state.size() == 0,
            None => encoding == TSEncoding::TS2DIFF && data_type != TSDataType::INT32 && data_type
                != TSDataType::INT64,
        },
{
}

/// The encoder of a series' values.
pub enum Encoder {
    Plain(PlainEncoder),
    Long(LongTs2DiffEncoder),
    Int(IntTs2DiffEncoder),
}

impl View for Encoder {
    type V = EncoderState;

    open spec fn view(&self) -> EncoderState {
        match self {
            Encoder::Plain(e) => EncoderState::Plain(e@),
            Encoder::Long(e) => EncoderState::Long(e@),
            Encoder::Int(e) => EncoderState::Int(e@),
        }
    }
}

impl Encoder {
    /// A fresh encoder for a series of `data_type` encoded by `encoding`;
    /// fails where no encoder exists for the two.
    pub fn new(data_type: TSDataType, encoding: TSEncoding) -> (made: Result<Encoder, TsFileError>)
        ensures
            match made {
                Ok(encoder) => encoder_for(data_type, encoding) == Some(encoder@),
                Err(e) => encoder_for(data_type, encoding) is None && e == TsFileError::Encoding,
            },
    {
        match encoding {
            TSEncoding::PLAIN => Ok(Encoder::Plain(PlainEncoder::new(data_type))),
            TSEncoding::TS2DIFF => match data_type {
                TSDataType::INT64 => Ok(Encoder::Long(LongTs2DiffEncoder::new())),
                TSDataType::INT32 => Ok(Encoder::Int(IntTs2DiffEncoder::new())),
                _ => Err(TsFileError::Encoding),
            },
        }
    }

    /// Takes one value of the encoder's type; a value of another type is
    /// refused and changes nothing.
    pub fn write(&mut self, value: &IoTDBValue) -> (done: Result<(), TsFileError>)
        requires
            old(self)@.wf(),
        ensures
            final(self)@.wf(),
            value.spec_data_type() == old(self)@.data_type() ==> done is Ok && final(self)@ == old(
                self,
            )@.written(*value),
            value.spec_data_type() != old(self)@.data_type() ==> done == Err::<(), TsFileError>(
                TsFileError::WrongTypeForSeries,
            ) && final(self)@ == old(self)@,
    {
        match self {
            Encoder::Plain(e) => e.write(value),
            Encoder::Long(e) => e.write(value),
            Encoder::Int(e) => e.write(value),
        }
    }

    /// The number of bytes buffered.
    pub fn size(&self) -> (size: usize)
        ensures
            size == self@.size(),
    {
        match self {
            Encoder::Plain(e) => e.size(),
            Encoder::Long(e) => e.size(),
            Encoder::Int(e) => e.size(),
        }
    }

    /// The encoder's estimate of its further growth.
    pub fn get_max_byte_size(&self) -> (size: u64)
        requires
            self@.wf(),
        ensures
            size == self@.max_byte_size(),
    {
        match self {
            Encoder::Plain(e) => e.get_max_byte_size(),
            Encoder::Long(e) => e.get_max_byte_size() as u64,
            Encoder::Int(e) => e.get_max_byte_size() as u64,
        }
    }

    /// Appends the encoded values to `buffer`; a delta encoder closes its
    /// block first.
    pub fn serialize(&mut self, buffer: &mut Vec<u8>)
        requires
            old(self)@.wf(),
        ensures
            final(self)@ == old(self)@.flushed(),
            final(self)@.wf(),
            final(buffer)@ == old(buffer)@ + old(self)@.serialized(),
    {
        match self {
            Encoder::Plain(e) => e.serialize(buffer),
            Encoder::Long(e) => e.serialize(buffer),
            Encoder::Int(e) => e.serialize(buffer),
        }
    }

    /// Forgets everything taken so far.
    pub fn reset(&mut self)
        ensures
            final(self)@ == old(self)@.cleared(),
            final(self)@.wf(),
    {
        match self {
            Encoder::Plain(e) => e.reset(),
            Encoder::Long(e) => e.reset(),
            Encoder::Int(e) => e.reset(),
        }
    }
}

} // verus!
