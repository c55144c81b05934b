//! The log of schema changes that goes with a file when it is handed to a
//! server: plans that set a storage group or create a series, each framed
//! by its length and a checksum.
use crate::compression::CompressionType;
use crate::encoding::TSEncoding;
use crate::errors::TsFileError;
use crate::utils::{
    be_bytes_i64, be_bytes_u32, low_u32, low_u32_of, str_bytes, text_bytes, write_bytes,
    write_i64_be, write_u32_be,
};
use crate::TSDataType;
use vstd::prelude::*;

verus! {

/// The CRC-32 checksum of `bytes`.
pub uninterp spec fn crc32_of(bytes: Seq<u8>) -> u32;

/// Calls `crc32fast::hash`, which computes the CRC-32 (IEEE) checksum of a
/// byte slice. The contract claims only that the checksum is a function of
/// the bytes.
#[verifier::external_body]
fn crc32(bytes: &[u8]) -> (checksum: u32)
    ensures
        checksum == crc32_of(bytes@),
{
    crc32fast::hash(bytes)
}

/// The plan that sets the storage group `path`: the tag 3, the length of
/// the path in four big-endian bytes, the path, and an index of zero in
/// eight bytes.
pub open spec fn set_storage_group_plan_bytes(path: Seq<u8>) -> Seq<u8> {
    seq![0x03u8] + be_bytes_u32(low_u32_of(path.len() as int)) + path + be_bytes_i64(0)
}

/// The plan that creates the series `path`: the tag 4, the length of the
/// path in four big-endian bytes, the path, the tags of the data type, the
/// encoding and the compression, a tag offset of -1 in eight bytes, four
/// zero bytes for no alias, properties, tags and attributes, and an index
/// of zero in eight bytes.
pub open spec fn create_plan_bytes(
    path: Seq<u8>,
    data_type: TSDataType,
    encoding: TSEncoding,
    compression: CompressionType,
) -> Seq<u8> {
    seq![0x04u8] + be_bytes_u32(low_u32_of(path.len() as int)) + path + seq![
        data_type.tag(),
        encoding.tag(),
        compression.tag(),
    ] + be_bytes_i64(-1i64) + seq![0u8, 0u8, 0u8, 0u8] + be_bytes_i64(0)
}

/// The frame of the plans `plans`: their length in four big-endian bytes,
/// the plans, and their checksum in eight big-endian bytes.
pub open spec fn frame_bytes(plans: Seq<u8>) -> Seq<u8> {
    be_bytes_u32(low_u32_of(plans.len() as int)) + plans + be_bytes_i64(crc32_of(plans) as i64)
}

/// A log of plans that have not been framed yet.
pub struct MLog {
    bytes: Vec<u8>,
}

impl View for MLog {
    type V = Seq<u8>;

    closed spec fn view(&self) -> Seq<u8> {
        self.bytes@
    }
}

impl MLog {
    /// A log without plans.
    pub fn new() -> (log: MLog)
        ensures
            log@ == Seq::<u8>::empty(),
    {
        MLog { bytes: Vec::new() }
    }

    /// Appends the frame of the plans gathered to `writer`, and forgets the
    /// plans.
    pub fn flush(&mut self, writer: &mut Vec<u8>) -> (done: Result<usize, TsFileError>)
        ensures
            done == Ok::<usize, TsFileError>(0),
            final(self)@ == Seq::<u8>::empty(),
            final(writer)@ == old(writer)@ + frame_bytes(old(self)@),
    {
        let checksum = Self::calculate_checksum(self.bytes.as_slice());
        let ghost start = writer@;
        write_u32_be(low_u32(self.bytes.len()), writer);
        write_bytes(self.bytes.as_slice(), writer);
        let ghost head = be_bytes_u32(low_u32_of(self.bytes@.len() as int)) + self.bytes@;
        assert(writer@ =~= start + head);
        write_i64_be(checksum, writer);
        assert(writer@ =~= start + (head + be_bytes_i64(checksum)));
        self.bytes.clear();
        Ok(0)
    }

    fn calculate_checksum(bytes: &[u8]) -> (checksum: i64)
        ensures
            checksum == crc32_of(bytes@) as i64,
    {
        crc32(bytes) as i64
    }

    /// Adds the plan that creates the series `path`.
    pub fn create_plan(
        &mut self,
        path: &str,
        data_type: TSDataType,
        encoding: TSEncoding,
        compression: CompressionType,
    ) -> (done: Result<(), TsFileError>)
        ensures
            done is Ok,
            final(self)@ == old(self)@ + create_plan_bytes(
                text_bytes(path@),
                data_type,
                encoding,
                compression,
            ),
    {
        Self::write_create_plan(&mut self.bytes, path, data_type, encoding, compression)
    }

    /// Appends the plan that creates the series `path` to `writer`.
    pub fn write_create_plan(
        writer: &mut Vec<u8>,
        path: &str,
        data_type: TSDataType,
        encoding: TSEncoding,
        compression: CompressionType,
    ) -> (done: Result<(), TsFileError>)
        ensures
            done is Ok,
            final(writer)@ == old(writer)@ + create_plan_bytes(
                text_bytes(path@),
                data_type,
                encoding,
                compression,
            ),
    {
        let ghost start = writer@;
        let ghost name = text_bytes(path@);
        write_plan_head(writer, 0x04, path);
        write_series_tags(writer, data_type, encoding, compression);
        write_i64_be(-1, writer);
        write_no_extras(writer);
        write_i64_be(0, writer);
        proof {
            lemma_join(
                start,
                seq![0x04u8] + be_bytes_u32(low_u32_of(name.len() as int)) + name,
                seq![data_type.tag(), encoding.tag(), compression.tag()],
                be_bytes_i64(-1i64),
                seq![0u8, 0u8, 0u8, 0u8],
                be_bytes_i64(0),
                writer@,
            );
        }
        Ok(())
    }

    /// Adds the plan that sets the storage group `path`.
    pub fn set_storage_group_plan(&mut self, path: &str) -> (done: Result<(), TsFileError>)
        ensures
            done is Ok,
            final(self)@ == old(self)@ + set_storage_group_plan_bytes(text_bytes(path@)),
    {
        Self::write_set_storage_group_plan(&mut self.bytes, path)
    }

    /// Appends the plan that sets the storage group `path` to `writer`.
    pub fn write_set_storage_group_plan(writer: &mut Vec<u8>, path: &str) -> (done: Result<
        (),
        TsFileError,
    >)
        ensures
            done is Ok,
            final(writer)@ == old(writer)@ + set_storage_group_plan_bytes(text_bytes(path@)),
    {
        let ghost start = writer@;
        let ghost name = text_bytes(path@);
        write_plan_head(writer, 0x03, path);
        write_i64_be(0, writer);
        proof {
            assert(writer@ =~= start + set_storage_group_plan_bytes(name));
        }
        Ok(())
    }
}

/// Appends the head of a plan: its tag, the length of the path in four
/// big-endian bytes, and the path.
fn write_plan_head(writer: &mut Vec<u8>, tag: u8, path: &str)
    ensures
        final(writer)@ == old(writer)@ + (seq![tag] + be_bytes_u32(
            low_u32_of(text_bytes(path@).len() as int),
        ) + text_bytes(path@)),
{
    let ghost start = writer@;
    writer.push(tag);
    let bytes = str_bytes(path);
    write_u32_be(low_u32(bytes.len()), writer);
    write_bytes(bytes, writer);
    assert(writer@ =~= start + (seq![tag] + be_bytes_u32(low_u32_of(bytes@.len() as int))
        + bytes@));
}

/// Appends the tags of what a series declares.
fn write_series_tags(
    writer: &mut Vec<u8>,
    data_type: TSDataType,
    encoding: TSEncoding,
    compression: CompressionType,
)
    ensures
        final(writer)@ == old(writer)@ + seq![data_type.tag(), encoding.tag(), compression.tag()],
{
    writer.push(data_type.serialize());
    writer.push(encoding.serialize());
    writer.push(compression.serialize());
    assert(writer@ =~= old(writer)@ + seq![data_type.tag(), encoding.tag(), compression.tag()]);
}

/// Appends the four bytes that say that a series has no alias, properties,
/// tags or attributes.
fn write_no_extras(writer: &mut Vec<u8>)
    ensures
        final(writer)@ == old(writer)@ + seq![0u8, 0u8, 0u8, 0u8],
{
    writer.push(0x00);
    writer.push(0x00);
    writer.push(0x00);
    writer.push(0x00);
    assert(writer@ =~= old(writer)@ + seq![0u8, 0u8, 0u8, 0u8]);
}

/// What is appended piece by piece is appended as a whole.
proof fn lemma_join(
    start: Seq<u8>,
    a: Seq<u8>,
    b: Seq<u8>,
    c: Seq<u8>,
    d: Seq<u8>,
    e: Seq<u8>,
    out: Seq<u8>,
)
    requires
        out == start + a + b + c + d + e,
    ensures
        out == start + (a + b + c + d + e),
{
    assert(out =~= start + (a + b + c + d + e));
}

/// The log of a server that has the storage group `root.sg` and in it the
/// series `root.sg.d1.s1` of plainly encoded 32-bit integers: one frame for
/// each of the two plans.
pub fn write_mlog() -> (log: Vec<u8>)
    ensures
        log@ == frame_bytes(set_storage_group_plan_bytes(text_bytes("root.sg"@))) + frame_bytes(
            create_plan_bytes(
                text_bytes("root.sg.d1.s1"@),
                TSDataType::INT32,
                TSEncoding::PLAIN,
                CompressionType::UNCOMPRESSED,
            ),
        ),
{
    let mut m_log = MLog::new();
    let mut mlog_buffer: Vec<u8> = Vec::new();
    let _ = m_log.set_storage_group_plan("root.sg");
    let _ = m_log.flush(&mut mlog_buffer);
    let _ = m_log.create_plan(
        "root.sg.d1.s1",
        TSDataType::INT32,
        TSEncoding::PLAIN,
        CompressionType::UNCOMPRESSED,
    );
    let _ = m_log.flush(&mut mlog_buffer);
    proof {
        assert(Seq::<u8>::empty() + set_storage_group_plan_bytes(text_bytes("root.sg"@))
            =~= set_storage_group_plan_bytes(text_bytes("root.sg"@)));
        assert(Seq::<u8>::empty() + create_plan_bytes(
            text_bytes("root.sg.d1.s1"@),
            TSDataType::INT32,
            TSEncoding::PLAIN,
            CompressionType::UNCOMPRESSED,
        ) =~= create_plan_bytes(
            text_bytes("root.sg.d1.s1"@),
            TSDataType::INT32,
            TSEncoding::PLAIN,
            CompressionType::UNCOMPRESSED,
        ));
        assert(Seq::<u8>::empty() + frame_bytes(
            set_storage_group_plan_bytes(text_bytes("root.sg"@)),
        ) =~= frame_bytes(set_storage_group_plan_bytes(text_bytes("root.sg"@))));
    }
    mlog_buffer
}

} // verus!
