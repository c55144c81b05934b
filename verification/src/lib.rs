//! Writer for time-series files in the TsFile version 3 layout.
//!
//! A [`tsfile_writer::TsFileWriter`] takes a static schema of devices and
//! measurements, accepts timestamped samples, and produces the bytes of one
//! self-describing file: chunk groups, chunks made of encoded pages with
//! statistics, a two-level metadata index, a bloom filter over the series
//! paths, and a footer. Every function is verified against a contract that
//! is stated over byte sequences and mathematical models of the writer state.
pub use crate::compression::CompressionType;
pub use crate::encoding::TSEncoding;
pub use crate::errors::TsFileError;
use crate::sorted_map::SortedMap;
use crate::ts_file_config::TsFileConfig;
use crate::tsfile_writer::{
    after_write, closed_file, lemma_simple_writer_state, simple_writer_state, TsFileWriter,
    WriterState,
};
use crate::utils::{text_bytes, write_bytes};
use vstd::prelude::*;

pub mod bit_packing;
pub mod bloom_filter;
pub mod chunk_writer;
pub mod compression;
pub mod encoding;
pub mod errors;
pub mod float_bits;
pub mod group_writer;
pub mod metadata_index;
pub mod mlog;
pub mod murmur128;
pub mod schema;
pub mod sorted_map;
pub mod statistics;
pub mod ts_file_config;
pub mod tsfile_io_writer;
pub mod tsfile_writer;
pub mod utils;

verus! {

/// The type of the values of a series.
#[derive(Clone, Copy, Debug, PartialEq, Eq, Structural)]
pub enum TSDataType {
    INT32,
    INT64,
    FLOAT,
    DOUBLE,
}

impl TSDataType {
    /// The tag of the type.
    pub open spec fn tag(self) -> u8 {
        match self {
            TSDataType::INT32 => 1,
            TSDataType::INT64 => 2,
            TSDataType::FLOAT => 3,
            TSDataType::DOUBLE => 4,
        }
    }

    /// The tag that stands for the type in a file.
    pub fn serialize(&self) -> (tag: u8)
        ensures
            tag == self.tag(),
    {
        match self {
            TSDataType::INT32 => 1,
            TSDataType::INT64 => 2,
            TSDataType::FLOAT => 3,
            TSDataType::DOUBLE => 4,
        }
    }
}

/// One value of a series. The two floating-point variants hold the IEEE 754
/// bit pattern of the number: `FLOAT` that of a single-precision number,
/// `DOUBLE` that of a double-precision one.
#[derive(Clone, Copy, Debug, PartialEq, Eq, Structural)]
pub enum IoTDBValue {
    DOUBLE(u64),
    FLOAT(u32),
    INT(i32),
    LONG(i64),
}

impl IoTDBValue {
    /// The type of series that takes this value.
    pub open spec fn spec_data_type(self) -> TSDataType {
        match self {
            IoTDBValue::DOUBLE(_) => TSDataType::DOUBLE,
            IoTDBValue::FLOAT(_) => TSDataType::FLOAT,
            IoTDBValue::INT(_) => TSDataType::INT32,
            IoTDBValue::LONG(_) => TSDataType::INT64,
        }
    }

    /// The type of series that takes this value.
    pub fn data_type(&self) -> (data_type: TSDataType)
        ensures
            data_type == self.spec_data_type(),
    {
        match self {
            IoTDBValue::DOUBLE(_) => TSDataType::DOUBLE,
            IoTDBValue::FLOAT(_) => TSDataType::FLOAT,
            IoTDBValue::INT(_) => TSDataType::INT32,
            IoTDBValue::LONG(_) => TSDataType::INT64,
        }
    }
}

/// The byte that parts the names of a series' path.
pub const PATH_SEPARATOR: u8 = 0x2E;

/// The largest number of bytes in a name: a name's length is stored in one
/// byte, raised by two.
pub const MAX_NAME_LENGTH: usize = 253;

/// Whether `name` can name a device: it is not empty and short enough to
/// be stored.
pub open spec fn valid_device_id(name: Seq<u8>) -> bool {
    1 <= name.len() <= MAX_NAME_LENGTH
}

/// Whether `name` can name a measurement: it is not empty, short enough to
/// be stored, and holds no path separator.
pub open spec fn valid_measurement_id(name: Seq<u8>) -> bool {
    &&& 1 <= name.len() <= MAX_NAME_LENGTH
    &&& forall|i: int| 0 <= i < name.len() ==> name[i] != PATH_SEPARATOR
}

/// Whether `name` can name a device.
pub fn is_valid_device_id(name: &[u8]) -> (valid: bool)
    ensures
        valid == valid_device_id(name@),
{
    1 <= name.len() && name.len() <= MAX_NAME_LENGTH
}

/// Whether `name` can name a measurement.
pub fn is_valid_measurement_id(name: &[u8]) -> (valid: bool)
    ensures
        valid == valid_measurement_id(name@),
{
    if name.len() < 1 || name.len() > MAX_NAME_LENGTH {
        return false;
    }
    let mut i: usize = 0;
    while i < name.len()
        invariant
            i <= name@.len(),
            1 <= name@.len() <= MAX_NAME_LENGTH,
            forall|k: int| 0 <= k < i ==> name@[k] != PATH_SEPARATOR,
        decreases name@.len() - i,
    {
        if name[i] == PATH_SEPARATOR {
            return false;
        }
        i = i + 1;
    }
    true
}

/// What a schema declares of one series.
#[derive(Clone, Copy, Debug, PartialEq, Eq, Structural)]
pub struct MeasurementSchema {
    pub data_type: TSDataType,
    pub encoding: TSEncoding,
    pub compression: CompressionType,
}

impl MeasurementSchema {
    /// The declaration of a series of `data_type`, encoded by `encoding` and
    /// compressed by `compression`.
    pub fn new(data_type: TSDataType, encoding: TSEncoding, compression: CompressionType) -> (schema:
        MeasurementSchema)
        ensures
            schema == (MeasurementSchema { data_type, encoding, compression }),
    {
        MeasurementSchema { data_type, encoding, compression }
    }
}

/// The measurements of one device.
#[derive(Clone, Debug)]
pub struct MeasurementGroup {
    pub measurement_schemas: SortedMap<MeasurementSchema>,
}

impl MeasurementGroup {
    /// Whether the group is one that a device can have: a map of at least
    /// one measurement, each under a name that can name one.
    pub open spec fn wf(&self) -> bool {
        &&& self.measurement_schemas.wf()
        &&& self.measurement_schemas.keys@.len() >= 1
        &&& forall|i: int|
            0 <= i < self.measurement_schemas.keys@.len() ==> valid_measurement_id(
                #[trigger] self.measurement_schemas.key_seq()[i],
            )
    }

    /// Whether the group is one that a device can have.
    pub fn is_well_formed(&self) -> (well_formed: bool)
        ensures
            well_formed == self.wf(),
    {
        if !self.measurement_schemas.is_well_formed() || self.measurement_schemas.keys.len() < 1 {
            return false;
        }
        let mut i: usize = 0;
        while i < self.measurement_schemas.keys.len()
            invariant
                self.measurement_schemas.wf(),
                i <= self.measurement_schemas.keys@.len(),
                forall|k: int|
                    0 <= k < i ==> valid_measurement_id(
                        #[trigger] self.measurement_schemas.key_seq()[k],
                    ),
            decreases self.measurement_schemas.keys@.len() - i,
        {
            proof {
                assert(self.measurement_schemas.key_seq()[i as int]
                    == self.measurement_schemas.keys@[i as int]@);
            }
            if !is_valid_measurement_id(self.measurement_schemas.keys[i].as_slice()) {
                return false;
            }
            i = i + 1;
        }
        true
    }
}

/// The devices of a file and their measurements.
#[derive(Clone, Debug)]
pub struct Schema {
    pub measurement_groups: SortedMap<MeasurementGroup>,
}

impl Schema {
    /// Whether the schema is one that a file can have: a map of devices,
    /// each under a name that can name one and with measurements of its own.
    pub open spec fn wf(&self) -> bool {
        &&& self.measurement_groups.wf()
        &&& forall|i: int|
            0 <= i < self.measurement_groups.keys@.len() ==> valid_device_id(
                #[trigger] self.measurement_groups.key_seq()[i],
            )
        &&& forall|i: int|
            0 <= i < self.measurement_groups.keys@.len() ==> (
            #[trigger] self.measurement_groups.values@[i]).wf()
    }

    /// Whether the schema is one that a file can have.
    pub fn is_well_formed(&self) -> (well_formed: bool)
        ensures
            well_formed == self.wf(),
    {
        if !self.measurement_groups.is_well_formed() {
            return false;
        }
        let mut i: usize = 0;
        while i < self.measurement_groups.keys.len()
            invariant
                self.measurement_groups.wf(),
                i <= self.measurement_groups.keys@.len(),
                forall|k: int|
                    0 <= k < i ==> valid_device_id(#[trigger] self.measurement_groups.key_seq()[k]),
                forall|k: int| 0 <= k < i ==> (#[trigger] self.measurement_groups.values@[k]).wf(),
            decreases self.measurement_groups.keys@.len() - i,
        {
            proof {
                assert(self.measurement_groups.key_seq()[i as int]
                    == self.measurement_groups.keys@[i as int]@);
            }
            if !is_valid_device_id(self.measurement_groups.keys[i].as_slice()) {
                return false;
            }
            if !self.measurement_groups.values[i].is_well_formed() {
                return false;
            }
            i = i + 1;
        }
        true
    }

    /// The schema of one device with one measurement.
    pub fn simple(
        device_id: &str,
        measurement_id: &str,
        data_type: TSDataType,
        encoding: TSEncoding,
        compression: CompressionType,
    ) -> (schema: Schema)
        requires
            valid_device_id(text_bytes(device_id@)),
            valid_measurement_id(text_bytes(measurement_id@)),
        ensures
            schema.wf(),
            schema.measurement_groups.key_seq() == seq![text_bytes(device_id@)],
            schema.measurement_groups.values@[0].measurement_schemas.key_seq() == seq![
                text_bytes(measurement_id@),
            ],
            schema.measurement_groups.values@[0].measurement_schemas.values@ == seq![
                MeasurementSchema { data_type, encoding, compression },
            ],
    {
        let mut measurement_schemas = SortedMap::new();
        measurement_schemas.insert(
            measurement_id,
            MeasurementSchema { data_type, encoding, compression },
        );
        proof {
            assert(measurement_schemas.key_seq() =~= seq![text_bytes(measurement_id@)]);
            assert(measurement_schemas.values@ =~= seq![
                MeasurementSchema { data_type, encoding, compression },
            ]);
        }
        let group = MeasurementGroup { measurement_schemas };
        let mut measurement_groups = SortedMap::new();
        measurement_groups.insert(device_id, group);
        proof {
            assert(measurement_groups.key_seq() =~= seq![text_bytes(device_id@)]);
        }
        Schema { measurement_groups }
    }
}

/// The stored form of a name: one byte that holds its length raised by
/// two, then its bytes.
pub open spec fn var_str(name: Seq<u8>) -> Seq<u8> {
    seq![(name.len() + 2) as u8] + name
}

/// Appends the stored form of `name` to `file`.
pub fn write_str(file: &mut Vec<u8>, name: &[u8])
    requires
        name@.len() <= MAX_NAME_LENGTH,
    ensures
        final(file)@ == old(file)@ + var_str(name@),
{
    let length: u8 = (name.len() + 2) as u8;
    file.push(length);
    write_bytes(name, file);
    assert(file@ =~= old(file)@ + var_str(name@));
}

/// The marker of a chunk header of a chunk with more than one page.
pub const CHUNK_HEADER: u8 = 1;

/// The marker of a chunk header of a chunk with at most one page.
pub const ONLY_ONE_PAGE_CHUNK_HEADER: u8 = 5;

/// The marker that opens a chunk group.
pub const CHUNK_GROUP_HEADER: u8 = 0;

/// The marker that parts the chunk groups from the metadata.
pub const SEPARATOR: u8 = 2;

/// The version of the file layout.
pub const VERSION_NUMBER: u8 = 3;

/// The bytes that open and close a file: the text `TsFile`.
pub open spec fn magic_string() -> Seq<u8> {
    seq![0x54u8, 0x73u8, 0x46u8, 0x69u8, 0x6Cu8, 0x65u8]
}

/// Appends the text `TsFile`.
pub fn write_magic_string(file: &mut Vec<u8>)
    ensures
        final(file)@ == old(file)@ + magic_string(),
{
    file.push(0x54);
    file.push(0x73);
    file.push(0x46);
    file.push(0x69);
    file.push(0x6C);
    file.push(0x65);
    assert(file@ =~= old(file)@ + magic_string());
}

/// Texts of letters and digits have their characters as their bytes.
proof fn lemma_short_names()
    ensures
        text_bytes("d1"@) == seq![0x64u8, 0x31u8],
        text_bytes("s1"@) == seq![0x73u8, 0x31u8],
{
    reveal_strlit("d1");
    reveal_strlit("s1");
    vstd::utf8::is_ascii_chars_encode_utf8("d1"@);
    vstd::utf8::is_ascii_chars_encode_utf8("s1"@);
    assert(text_bytes("d1"@) =~= seq![0x64u8, 0x31u8]);
    assert(text_bytes("s1"@) =~= seq![0x73u8, 0x31u8]);
}

/// The state of the writer that `write_file_3` works with after it has
/// offered its five samples.
pub open spec fn file_3_state() -> WriterState {
    let device = seq![0x64u8, 0x31u8];
    let series = seq![0x73u8, 0x31u8];
    after_write(
        after_write(
            after_write(
                after_write(
                    after_write(
                        simple_writer_state(
                            device,
                            series,
                            TSDataType::INT32,
                            TSEncoding::PLAIN,
                            CompressionType::UNCOMPRESSED,
                            TsFileConfig::standard(),
                        ),
                        device,
                        series,
                        1,
                        IoTDBValue::INT(13),
                    ),
                    device,
                    series,
                    10,
                    IoTDBValue::INT(14),
                ),
                device,
                series,
                100,
                IoTDBValue::INT(15),
            ),
            device,
            series,
            1000,
            IoTDBValue::INT(16),
        ),
        device,
        series,
        10000,
        IoTDBValue::INT(17),
    )
}

/// Offers one sample to the series `d1.s1`.
fn write_sample(writer: &mut TsFileWriter, timestamp: i64, value: i32)
    requires
        old(writer).wf(),
    ensures
        final(writer).wf(),
        final(writer)@ == after_write(
            old(writer)@,
            seq![0x64u8, 0x31u8],
            seq![0x73u8, 0x31u8],
            timestamp,
            IoTDBValue::INT(value),
        ),
{
    proof {
        lemma_short_names();
        reveal(after_write);
    }
    let _ = writer.write("d1", "s1", timestamp, IoTDBValue::INT(value));
}

/// Closes the file and returns its bytes.
fn close_file(writer: &mut TsFileWriter) -> (file: Vec<u8>)
    requires
        old(writer).wf(),
    ensures
        file@ == closed_file(old(writer)@),
{
    proof {
        reveal(closed_file);
    }
    let _ = writer.close();
    vstd::slice::slice_to_vec(writer.bytes().as_slice())
}

/// A writer for the series `d1.s1` of plainly encoded 32-bit integers.
fn simple_writer() -> (made: Option<TsFileWriter>)
    ensures
        match made {
            Some(writer) => writer.wf() && writer@ == simple_writer_state(
                seq![0x64u8, 0x31u8],
                seq![0x73u8, 0x31u8],
                TSDataType::INT32,
                TSEncoding::PLAIN,
                CompressionType::UNCOMPRESSED,
                TsFileConfig::standard(),
            ),
            None => false,
        },
{
    proof {
        lemma_short_names();
    }
    let schema = Schema::simple(
        "d1",
        "s1",
        TSDataType::INT32,
        TSEncoding::PLAIN,
        CompressionType::UNCOMPRESSED,
    );
    let config = TsFileConfig::default();
    proof {
        lemma_simple_writer_state(
            &schema,
            config,
            seq![0x64u8, 0x31u8],
            seq![0x73u8, 0x31u8],
            MeasurementSchema {
                data_type: TSDataType::INT32,
                encoding: TSEncoding::PLAIN,
                compression: CompressionType::UNCOMPRESSED,
            },
        );
    }
    match TsFileWriter::new(schema, config) {
        Ok(writer) => Some(writer),
        Err(_) => None,
    }
}

/// The bytes of the file of the one series `d1.s1` of plainly encoded
/// 32-bit integers with the samples (1, 13), (10, 14), (100, 15),
/// (1000, 16) and (10000, 17).
pub fn write_file_3() -> (file: Vec<u8>)
    ensures
        file@ == closed_file(file_3_state()),
{
    match simple_writer() {
        Some(mut writer) => {
            write_sample(&mut writer, 1, 13);
            write_sample(&mut writer, 10, 14);
            write_sample(&mut writer, 100, 15);
            write_sample(&mut writer, 1000, 16);
            write_sample(&mut writer, 10000, 17);
            close_file(&mut writer)
        },
        None => Vec::new(),
    }
}

} // verus!
