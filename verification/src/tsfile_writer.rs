//! The writer of a file: it hands each sample to the group writer of its
//! device, looks at the memory taken from time to time and writes the chunk
//! groups out when it is too much, and ends the file when it is closed.
use crate::errors::TsFileError;
use crate::group_writer::{
    error_matches, initial_group, io_with_group, points_view, DataPoint, GroupState, GroupWriter,
    Point, Refusal,
};
use crate::sorted_map::{bytes_less, bytes_standing, lemma_bytes_less_irreflexive, Standing};
use crate::ts_file_config::TsFileConfig;
use crate::tsfile_io_writer::{file_head, IoState, TsFileIoWriter};
use crate::utils::{add_sizes, saturated, str_bytes, text_bytes};
use crate::{IoTDBValue, Schema};
use vstd::prelude::*;

verus! {

/// The estimate of memory above which the chunk groups are written out:
/// 128 MiB.
pub const CHUNK_GROUP_SIZE_THRESHOLD_BYTE: u32 = 134217728;

/// The number of records after which the memory is first looked at.
pub const RECORD_COUNT_FOR_FIRST_MEM_CHECK: u32 = 100;

/// What the writer of a file is made of: its settings; the group writers
/// as they are when they have taken nothing; the group writers, in the
/// order of the names of their devices; the number of records written since
/// the chunk groups were last written out; the number of records at which
/// the memory is looked at next; for each device the last timestamps of its
/// series when its chunk group was last written out; and the I/O writer.
pub struct WriterState {
    pub config: TsFileConfig,
    pub fresh: Seq<GroupState>,
    pub groups: Seq<GroupState>,
    pub record_count: u32,
    pub next_check: u32,
    pub flushed_times: Seq<Seq<i64>>,
    pub io: IoState,
}

/// The group writers of a schema when they have taken nothing.
pub open spec fn initial_groups(schema: &Schema) -> Seq<GroupState> {
    Seq::new(
        schema.measurement_groups.keys@.len(),
        |i: int|
            initial_group(schema.measurement_groups.key_seq()[i], &schema.measurement_groups.values@[i]),
    )
}

/// The number of records at which the memory is looked at next, when it
/// was looked at after `next` records and estimated at `mem` bytes: `next`
/// times the threshold divided by the estimate, held at the largest 32-bit
/// number, which it also is for an estimate of nothing.
pub open spec fn next_mem_check(next: u32, mem: u64) -> u32 {
    if mem == 0 {
        u32::MAX
    } else if next * CHUNK_GROUP_SIZE_THRESHOLD_BYTE / (mem as int) > u32::MAX {
        u32::MAX
    } else {
        (next * CHUNK_GROUP_SIZE_THRESHOLD_BYTE / (mem as int)) as u32
    }
}

/// The state of the I/O writer after `group` has written its chunk group,
/// and whether that went well: the group is opened, its chunks are written,
/// and it is closed if the chunks take the size that was reckoned for them;
/// else it is left open.
pub open spec fn group_flushed_io(io: IoState, group: GroupState) -> (IoState, bool) {
    let opened = io.group_started(group.path);
    let written = io_with_group(opened, group.series, group.series.len() as int);
    if written.out.len() - opened.out.len() != group.chunk_group_size(group.series.len() as int) {
        (written, false)
    } else {
        (written.group_ended(), true)
    }
}

/// The state of the I/O writer after the first `count` of `groups` have
/// written their chunk groups, and the place of the group at which the
/// writing stopped, -1 if it did not.
pub open spec fn flush_io(io: IoState, groups: Seq<GroupState>, count: int) -> (IoState, int)
    decreases count,
{
    if count <= 0 {
        (io, -1)
    } else {
        let before = flush_io(io, groups, count - 1);
        if before.1 >= 0 {
            before
        } else if group_flushed_io(before.0, groups[count - 1]).1 {
            (group_flushed_io(before.0, groups[count - 1]).0, -1)
        } else {
            (group_flushed_io(before.0, groups[count - 1]).0, count - 1)
        }
    }
}

/// The group writers after the first `count` have written their chunks.
pub open spec fn groups_flushed(groups: Seq<GroupState>, count: int) -> Seq<GroupState> {
    Seq::new(
        groups.len(),
        |i: int|
            if i < count {
                groups[i].flushed()
            } else {
                groups[i]
            },
    )
}

/// The last timestamps kept after the first `count` groups have written
/// their chunks.
pub open spec fn times_flushed(times: Seq<Seq<i64>>, groups: Seq<GroupState>, count: int) -> Seq<
    Seq<i64>,
> {
    Seq::new(
        times.len(),
        |i: int|
            if i < count {
                groups[i].last_times
            } else {
                times[i]
            },
    )
}

impl WriterState {
    /// The state of a writer for `schema` under `config` that has written
    /// the head of the file and nothing else.
    pub open spec fn initial(schema: &Schema, config: TsFileConfig) -> WriterState {
        WriterState {
            config,
            fresh: initial_groups(schema),
            groups: initial_groups(schema),
            record_count: 0,
            next_check: RECORD_COUNT_FOR_FIRST_MEM_CHECK,
            flushed_times: Seq::new(schema.measurement_groups.keys@.len(), |i: int| Seq::empty()),
            io: IoState {
                out: file_head(),
                current_device: None,
                chunk_metadata: Seq::empty(),
                current_chunk: None,
                groups: Seq::empty(),
            },
        }
    }

    /// The names of the devices, in order.
    pub open spec fn device_names(self) -> Seq<Seq<u8>> {
        Seq::new(self.groups.len(), |i: int| self.groups[i].path)
    }

    /// Whether the file has a device of the name `name`.
    pub open spec fn has_device(self, name: Seq<u8>) -> bool {
        exists|i: int| 0 <= i < self.groups.len() && #[trigger] self.device_names()[i] == name
    }

    /// The place of the device of the name `name`.
    pub open spec fn index_of(self, name: Seq<u8>) -> int {
        choose|i: int| 0 <= i < self.groups.len() && #[trigger] self.device_names()[i] == name
    }

    /// Why a sample is not taken, if it is not: its device is unknown, or
    /// the group writer of its device refuses it.
    pub open spec fn refusal(
        self,
        device: Seq<u8>,
        measurement: Seq<u8>,
        timestamp: i64,
        value: IoTDBValue,
    ) -> Option<Refusal> {
        if !self.has_device(device) {
            Some(Refusal::UnknownSeries)
        } else {
            self.groups[self.index_of(device)].refusal(measurement, timestamp, value)
        }
    }

    /// The state after a sample has been offered to its group writer: the
    /// group writer is as it is after the offer, and a sample that was taken
    /// is counted.
    pub open spec fn offered(
        self,
        device: Seq<u8>,
        measurement: Seq<u8>,
        timestamp: i64,
        value: IoTDBValue,
    ) -> WriterState {
        if !self.has_device(device) {
            self
        } else {
            WriterState {
                groups: self.groups.update(
                    self.index_of(device),
                    self.groups[self.index_of(device)].written(measurement, timestamp, value),
                ),
                record_count: if self.refusal(device, measurement, timestamp, value) is None
                    && self.record_count < u32::MAX {
                    (self.record_count + 1) as u32
                } else {
                    self.record_count
                },
                ..self
            }
        }
    }

    /// The estimate of the memory that the first `count` devices may come
    /// to take.
    pub open spec fn mem_size(self, count: int) -> u64
        decreases count,
    {
        if count <= 0 {
            0
        } else {
            saturated(
                self.mem_size(count - 1) + self.groups[count - 1].max_mem_size(
                    self.groups[count - 1].series.len() as int,
                ),
            )
        }
    }

    /// The state after the chunk groups have been written out, and whether
    /// that went well. Nothing happens while no record is counted. Else the
    /// groups write their chunk groups in order; when all have, the group
    /// writers start again as they were at first and the count of records
    /// at zero.
    pub open spec fn flushed_all(self) -> (WriterState, bool) {
        if self.record_count == 0 {
            (self, true)
        } else {
            let flushed = flush_io(self.io, self.groups, self.groups.len() as int);
            if flushed.1 >= 0 {
                (
                    WriterState {
                        io: flushed.0,
                        groups: groups_flushed(self.groups, flushed.1 + 1),
                        flushed_times: times_flushed(self.flushed_times, self.groups, flushed.1),
                        ..self
                    },
                    false,
                )
            } else {
                (
                    WriterState {
                        io: flushed.0,
                        groups: self.fresh,
                        record_count: 0,
                        flushed_times: times_flushed(
                            self.flushed_times,
                            self.groups,
                            self.groups.len() as int,
                        ),
                        ..self
                    },
                    true,
                )
            }
        }
    }

    /// The state after the memory has been looked at, if it is time to,
    /// and whether that went well: once the records counted reach the
    /// number for the next look, that number is set anew from the estimate
    /// of the memory, and the chunk groups are written out if the estimate
    /// is above the threshold.
    pub open spec fn checked(self) -> (WriterState, bool) {
        if self.record_count < self.next_check {
            (self, true)
        } else {
            let mem = self.mem_size(self.groups.len() as int);
            let next = WriterState { next_check: next_mem_check(self.next_check, mem), ..self };
            if mem > CHUNK_GROUP_SIZE_THRESHOLD_BYTE {
                next.flushed_all()
            } else {
                (next, true)
            }
        }
    }

    /// The state after a sample has been written, and whether writing
    /// chunk groups out, if it came to that, went well.
    pub open spec fn written(
        self,
        device: Seq<u8>,
        measurement: Seq<u8>,
        timestamp: i64,
        value: IoTDBValue,
    ) -> (WriterState, bool) {
        if self.refusal(device, measurement, timestamp, value) is Some {
            (self.offered(device, measurement, timestamp, value), true)
        } else {
            self.offered(device, measurement, timestamp, value).checked()
        }
    }

    /// Why the points of `points` are not all taken with one timestamp by
    /// the device `device`, if they are not.
    pub open spec fn refusal_many(self, device: Seq<u8>, timestamp: i64, points: Seq<Point>) -> Option<
        Refusal,
    > {
        if !self.has_device(device) {
            Some(Refusal::UnknownSeries)
        } else {
            self.groups[self.index_of(device)].written_many(
                timestamp,
                points,
                points.len() as int,
            ).1
        }
    }

    /// The state after the points of `points` have been offered with one
    /// timestamp to the group writer of `device`, until one was refused:
    /// the group writer is as it is after the offers, and where all were
    /// taken they are counted.
    pub open spec fn offered_many(self, device: Seq<u8>, timestamp: i64, points: Seq<Point>) -> WriterState {
        if !self.has_device(device) {
            self
        } else {
            WriterState {
                groups: self.groups.update(
                    self.index_of(device),
                    self.groups[self.index_of(device)].written_many(
                        timestamp,
                        points,
                        points.len() as int,
                    ).0,
                ),
                record_count: if self.refusal_many(device, timestamp, points) is None {
                    if self.record_count + points.len() > u32::MAX {
                        u32::MAX
                    } else {
                        (self.record_count + points.len()) as u32
                    }
                } else {
                    self.record_count
                },
                ..self
            }
        }
    }

    /// The state after the points of `points` have been written with one
    /// timestamp, and whether writing chunk groups out, if it came to that,
    /// went well. The memory is looked at only where all points were taken.
    pub open spec fn written_many(self, device: Seq<u8>, timestamp: i64, points: Seq<Point>) -> (
        WriterState,
        bool,
    ) {
        if self.refusal_many(device, timestamp, points) is Some {
            (self.offered_many(device, timestamp, points), true)
        } else {
            self.offered_many(device, timestamp, points).checked()
        }
    }

    /// The state after the file has been closed, and whether that went
    /// well: the chunk groups are written out, and if that goes well the
    /// file is ended.
    pub open spec fn closed(self) -> (WriterState, bool) {
        let flushed = self.flushed_all();
        if flushed.1 {
            (WriterState { io: flushed.0.io.file_ended(self.config), ..flushed.0 }, true)
        } else {
            flushed
        }
    }
}

/// The state of a writer for the one series `measurement` of the one
/// device `device` under `config` that has written the head of the file and
/// nothing else.
pub open spec fn simple_writer_state(
    device: Seq<u8>,
    measurement: Seq<u8>,
    data_type: crate::TSDataType,
    encoding: crate::TSEncoding,
    compression: crate::CompressionType,
    config: TsFileConfig,
) -> WriterState {
    let groups = seq![
        GroupState {
            path: device,
            series: seq![
                crate::chunk_writer::ChunkState::initial(measurement, data_type, compression, encoding),
            ],
            last_times: seq![crate::group_writer::NO_TIME],
        },
    ];
    WriterState {
        config,
        fresh: groups,
        groups,
        record_count: 0,
        next_check: RECORD_COUNT_FOR_FIRST_MEM_CHECK,
        flushed_times: seq![Seq::empty()],
        io: IoState {
            out: file_head(),
            current_device: None,
            chunk_metadata: Seq::empty(),
            current_chunk: None,
            groups: Seq::empty(),
        },
    }
}

/// A writer for a schema of one device with one series starts in the
/// state of a writer for that series.
pub proof fn lemma_simple_writer_state(
    schema: &Schema,
    config: TsFileConfig,
    device: Seq<u8>,
    measurement: Seq<u8>,
    declared: crate::MeasurementSchema,
)
    requires
        schema.wf(),
        schema.measurement_groups.key_seq() == seq![device],
        schema.measurement_groups.values@[0].measurement_schemas.key_seq() == seq![measurement],
        schema.measurement_groups.values@[0].measurement_schemas.values@ == seq![declared],
    ensures
        WriterState::initial(schema, config) == simple_writer_state(
            device,
            measurement,
            declared.data_type,
            declared.encoding,
            declared.compression,
            config,
        ),
{
    let initial = WriterState::initial(schema, config);
    let simple = simple_writer_state(
        device,
        measurement,
        declared.data_type,
        declared.encoding,
        declared.compression,
        config,
    );
    let group = &schema.measurement_groups.values@[0];
    assert(schema.measurement_groups.key_seq().len() == 1);
    assert(group.measurement_schemas.key_seq().len() == 1);
    assert(group.measurement_schemas.key_seq()[0] == measurement);
    assert(schema.measurement_groups.key_seq()[0] == device);
    assert(initial_group(device, group).series =~= simple.groups[0].series);
    assert(initial_group(device, group).last_times =~= simple.groups[0].last_times);
    assert(initial_groups(schema) =~= simple.groups);
    assert(initial.flushed_times =~= simple.flushed_times);
}

/// The state after a sample has been written.
#[verifier::opaque]
pub open spec fn after_write(
    state: WriterState,
    device: Seq<u8>,
    measurement: Seq<u8>,
    timestamp: i64,
    value: IoTDBValue,
) -> WriterState {
    state.written(device, measurement, timestamp, value).0
}

/// The bytes of the file after it has been closed.
#[verifier::opaque]
pub open spec fn closed_file(state: WriterState) -> Seq<u8> {
    state.closed().0.io.out
}

/// One call of `write`: the names of the device and of the series, the
/// timestamp and the value.
pub struct WriteCall {
    pub device: Seq<u8>,
    pub measurement: Seq<u8>,
    pub timestamp: i64,
    pub value: IoTDBValue,
}

/// The state of a writer after the calls of `calls`, one after the other.
pub open spec fn replayed(state: WriterState, calls: Seq<WriteCall>) -> WriterState
    decreases calls.len(),
{
    if calls.len() == 0 {
        state
    } else {
        replayed(state, calls.drop_last()).written(
            calls.last().device,
            calls.last().measurement,
            calls.last().timestamp,
            calls.last().value,
        ).0
    }
}

/// The bytes of a file are determined by the schema, the settings and the
/// samples written: two writers that start in the same state and get the
/// same calls in the same order end in the same state, and closing them
/// gives the same bytes.
pub proof fn lemma_layout_stable(a: WriterState, b: WriterState, calls: Seq<WriteCall>)
    requires
        a == b,
    ensures
        replayed(a, calls) == replayed(b, calls),
        replayed(a, calls).closed().0.io.out == replayed(b, calls).closed().0.io.out,
{
}

/// Whether `after` begins with `before`.
pub open spec fn begins_with(after: Seq<u8>, before: Seq<u8>) -> bool {
    before.len() <= after.len() && after.subrange(0, before.len() as int) == before
}

proof fn lemma_begins_with_appended(before: Seq<u8>, more: Seq<u8>)
    ensures
        begins_with(before + more, before),
{
    assert((before + more).subrange(0, before.len() as int) =~= before);
}

proof fn lemma_begins_with_chain(a: Seq<u8>, b: Seq<u8>, c: Seq<u8>)
    requires
        begins_with(b, a),
        begins_with(c, b),
    ensures
        begins_with(c, a),
{
    assert(c.subrange(0, a.len() as int) =~= c.subrange(0, b.len() as int).subrange(
        0,
        a.len() as int,
    ));
}

proof fn lemma_begins_with_itself(a: Seq<u8>)
    ensures
        begins_with(a, a),
{
    assert(a.subrange(0, a.len() as int) =~= a);
}

proof fn lemma_group_io_appends(io: IoState, series: Seq<crate::chunk_writer::ChunkState>, count: int)
    ensures
        begins_with(io_with_group(io, series, count).out, io.out),
    decreases count,
{
    if count > 0 {
        let before = io_with_group(io, series, count - 1);
        let chunk = series[count - 1].sealed();
        let after = io_with_group(io, series, count);
        lemma_group_io_appends(io, series, count - 1);
        assert(after == crate::chunk_writer::io_with_chunk(before, chunk));
        if chunk.has_data() {
            assert(after.out == before.out + chunk.chunk_bytes());
            lemma_begins_with_appended(before.out, chunk.chunk_bytes());
        } else {
            assert(after == before);
            lemma_begins_with_itself(before.out);
        }
        lemma_begins_with_chain(io.out, before.out, after.out);
    } else {
        lemma_begins_with_itself(io.out);
    }
}

proof fn lemma_group_flushed_io_appends(io: IoState, group: GroupState)
    ensures
        begins_with(group_flushed_io(io, group).0.out, io.out),
{
    let opened = io.group_started(group.path);
    let written = io_with_group(opened, group.series, group.series.len() as int);
    lemma_begins_with_appended(io.out, crate::tsfile_io_writer::chunk_group_header_bytes(group.path));
    lemma_group_io_appends(opened, group.series, group.series.len() as int);
    lemma_begins_with_chain(io.out, opened.out, written.out);
    assert(written.group_ended().out == written.out);
}

proof fn lemma_flush_io_appends(io: IoState, groups: Seq<GroupState>, count: int)
    ensures
        begins_with(flush_io(io, groups, count).0.out, io.out),
    decreases count,
{
    if count > 0 {
        let before = flush_io(io, groups, count - 1);
        lemma_flush_io_appends(io, groups, count - 1);
        if before.1 < 0 {
            lemma_group_flushed_io_appends(before.0, groups[count - 1]);
            lemma_begins_with_chain(
                io.out,
                before.0.out,
                group_flushed_io(before.0, groups[count - 1]).0.out,
            );
        }
    } else {
        lemma_begins_with_itself(io.out);
    }
}

/// Writing the chunk groups out changes nothing that has been written to
/// the file.
pub proof fn lemma_flush_only_appends(state: WriterState)
    ensures
        begins_with(state.flushed_all().0.io.out, state.io.out),
{
    lemma_begins_with_itself(state.io.out);
    lemma_flush_io_appends(state.io, state.groups, state.groups.len() as int);
}

/// Writing a sample changes nothing that has been written to the file.
pub proof fn lemma_write_only_appends(
    state: WriterState,
    device: Seq<u8>,
    measurement: Seq<u8>,
    timestamp: i64,
    value: IoTDBValue,
)
    ensures
        begins_with(state.written(device, measurement, timestamp, value).0.io.out, state.io.out),
{
    let offered = state.offered(device, measurement, timestamp, value);
    assert(offered.io == state.io);
    lemma_begins_with_itself(state.io.out);
    if state.refusal(device, measurement, timestamp, value) is None {
        if offered.record_count >= offered.next_check {
            let mem = offered.mem_size(offered.groups.len() as int);
            let next = WriterState { next_check: next_mem_check(offered.next_check, mem), ..offered };
            lemma_flush_only_appends(next);
        }
    }
}

/// Closing the file changes nothing that has been written to it.
pub proof fn lemma_close_only_appends(state: WriterState)
    ensures
        begins_with(state.closed().0.io.out, state.io.out),
{
    lemma_flush_only_appends(state);
    let flushed = state.flushed_all();
    if flushed.1 {
        lemma_begins_with_appended(
            flushed.0.io.out,
            crate::tsfile_io_writer::file_tail(
                flushed.0.io.groups,
                state.config,
                flushed.0.io.out.len() as int,
            ),
        );
        lemma_begins_with_chain(state.io.out, flushed.0.io.out, state.closed().0.io.out);
    }
}

/// The sum of the sizes reckoned for the chunks of the first `count` of
/// `series`, their open pages sealed.
pub open spec fn group_bytes(series: Seq<crate::chunk_writer::ChunkState>, count: int) -> int
    decreases count,
{
    if count <= 0 {
        0
    } else {
        group_bytes(series, count - 1) + series[count - 1].sealed().serialized_size()
    }
}

/// Whether the size reckoned for the chunk group of a device is the size
/// that it takes in a file: that of each of its chunks is, and their sum is
/// no more than a 64-bit number counts.
pub open spec fn group_reckoned_right(group: GroupState) -> bool {
    &&& forall|k: int|
        0 <= k < group.series.len() ==> (#[trigger] group.series[k]).sealed().reckoned_right()
    &&& group_bytes(group.series, group.series.len() as int) <= u64::MAX
}

proof fn lemma_group_bytes_grow(series: Seq<crate::chunk_writer::ChunkState>, few: int, many: int)
    requires
        few <= many,
    ensures
        0 <= group_bytes(series, few) <= group_bytes(series, many),
    decreases many - few,
{
    if few < many {
        lemma_group_bytes_grow(series, few, many - 1);
    } else {
        lemma_group_bytes_nonnegative(series, few);
    }
}

proof fn lemma_group_bytes_nonnegative(series: Seq<crate::chunk_writer::ChunkState>, count: int)
    ensures
        0 <= group_bytes(series, count),
    decreases count,
{
    if count > 0 {
        lemma_group_bytes_nonnegative(series, count - 1);
    }
}

proof fn lemma_group_reckoned(io: IoState, group: GroupState, count: int)
    requires
        0 <= count <= group.series.len(),
        group_reckoned_right(group),
    ensures
        io_with_group(io, group.series, count).out.len() == io.out.len() + group_bytes(
            group.series,
            count,
        ),
        group.chunk_group_size(count) == group_bytes(group.series, count),
    decreases count,
{
    if count > 0 {
        lemma_group_reckoned(io, group, count - 1);
        lemma_group_bytes_grow(group.series, count, group.series.len() as int);
        lemma_group_bytes_grow(group.series, count - 1, count);
        crate::chunk_writer::lemma_chunk_reckoned(
            io_with_group(io, group.series, count - 1),
            group.series[count - 1].sealed(),
        );
    }
}

proof fn lemma_flush_io_goes_well(io: IoState, groups: Seq<GroupState>, count: int)
    requires
        0 <= count <= groups.len(),
        forall|i: int| 0 <= i < groups.len() ==> group_reckoned_right(#[trigger] groups[i]),
    ensures
        flush_io(io, groups, count).1 < 0,
    decreases count,
{
    if count > 0 {
        lemma_flush_io_goes_well(io, groups, count - 1);
        let before = flush_io(io, groups, count - 1).0;
        let group = groups[count - 1];
        lemma_group_reckoned(
            before.group_started(group.path),
            group,
            group.series.len() as int,
        );
    }
}

/// Writing the chunk groups out, and with it writing a sample and closing
/// the file, goes well where the size of every chunk group is reckoned
/// right: where the names of the series are shorter than 64 bytes, each
/// chunk counts a value exactly if it has a page, and the bytes of a chunk
/// group are no more than a 64-bit number counts.
pub proof fn lemma_flush_goes_well(state: WriterState)
    requires
        forall|i: int| 0 <= i < state.groups.len() ==> group_reckoned_right(#[trigger] state.groups[i]),
    ensures
        state.flushed_all().1,
        state.checked().1,
        state.closed().1,
{
    lemma_flush_io_goes_well(state.io, state.groups, state.groups.len() as int);
}

/// A sample that a writer takes has a value of the type that its series
/// declares, and a timestamp after the last one of its series.
pub proof fn lemma_taken_sample(
    state: WriterState,
    device: Seq<u8>,
    measurement: Seq<u8>,
    timestamp: i64,
    value: IoTDBValue,
)
    requires
        state.refusal(device, measurement, timestamp, value) is None,
        state.has_device(device) ==> state.groups[state.index_of(device)].consistent(),
    ensures
        state.has_device(device),
        state.groups[state.index_of(device)].has_series(measurement),
        ({
            let group = state.groups[state.index_of(device)];
            &&& value.spec_data_type() == group.series[group.index_of(measurement)].data_type
            &&& timestamp > group.last_times[group.index_of(measurement)]
            &&& group.written(measurement, timestamp, value).last_times[group.index_of(measurement)]
                == timestamp
        }),
{
    let group = state.groups[state.index_of(device)];
    let i = group.index_of(measurement);
    assert(group.names()[i] == measurement);
}

/// The group writers of `schema`, none of which has taken anything.
fn build_group_writers(schema: &Schema) -> (writers: Vec<GroupWriter>)
    requires
        schema.wf(),
    ensures
        writers@.len() == schema.measurement_groups.keys@.len(),
        forall|i: int| 0 <= i < writers@.len() ==> (#[trigger] writers@[i]).wf(),
        forall|i: int|
            0 <= i < writers@.len() ==> (#[trigger] writers@[i])@ == initial_groups(schema)[i],
{
    let mut writers: Vec<GroupWriter> = Vec::new();
    let map = &schema.measurement_groups;
    let mut i: usize = 0;
    while i < map.keys.len()
        invariant
            schema.wf(),
            map == &schema.measurement_groups,
            i <= map.keys@.len(),
            writers@.len() == i,
            forall|k: int| 0 <= k < i ==> (#[trigger] writers@[k]).wf(),
            forall|k: int| 0 <= k < i ==> (#[trigger] writers@[k])@ == initial_groups(schema)[k],
        decreases map.keys@.len() - i,
    {
        proof {
            assert(crate::valid_device_id(map.key_seq()[i as int]));
            assert(map.key_seq()[i as int] == map.keys@[i as int]@);
            assert(map.values@[i as int].wf());
        }
        writers.push(GroupWriter::new(map.keys[i].as_slice(), &map.values[i]));
        i = i + 1;
    }
    writers
}

/// Writes the chunk group of one device: opens the group, writes its
/// chunks, and closes it. Returns the last timestamps that the group writer
/// had. Fails, with the group left open, where the chunks do not take the
/// size that was reckoned for them.
fn flush_group(group: &mut GroupWriter, io: &mut TsFileIoWriter) -> (done: Result<
    Vec<i64>,
    TsFileError,
>)
    requires
        old(group).wf(),
        old(io).wf(),
    ensures
        final(group).wf(),
        final(io).wf(),
        final(io).config == old(io).config,
        final(group)@ == old(group)@.flushed(),
        final(io)@ == group_flushed_io(old(io)@, old(group)@).0,
        match done {
            Ok(times) => group_flushed_io(old(io)@, old(group)@).1 && times@
                == old(group)@.last_times,
            Err(e) => !group_flushed_io(old(io)@, old(group)@).1 && e is IllegalState,
        },
{
    proof {
        group.lemma_wf();
    }
    io.start_chunk_group(group.path());
    let pos = io.get_position();
    let ghost opened = io@;
    let kept = group.get_last_time_map();
    let data_size = group.flush_to_filewriter(io);
    proof {
        lemma_group_written_grows(
            opened,
            old(group)@.series,
            old(group)@.series.len() as int,
        );
    }
    if io.get_position() - pos != data_size {
        return Err(
            TsFileError::IllegalState {
                source: Some("Bytes written are not as expected!".to_owned()),
            },
        );
    }
    io.end_chunk_group();
    Ok(kept)
}

/// The writer of a file.
pub struct TsFileWriter {
    file_io_writer: TsFileIoWriter,
    group_writers: Vec<GroupWriter>,
    record_count: u32,
    record_count_for_next_mem_check: u32,
    non_aligned_timeseries_last_time_map: Vec<Vec<i64>>,
    schema: Schema,
    config: TsFileConfig,
}

impl View for TsFileWriter {
    type V = WriterState;

    closed spec fn view(&self) -> WriterState {
        WriterState {
            config: self.config,
            fresh: initial_groups(&self.schema),
            groups: Seq::new(self.group_writers@.len(), |i: int| self.group_writers@[i]@),
            record_count: self.record_count,
            next_check: self.record_count_for_next_mem_check,
            flushed_times: Seq::new(
                self.non_aligned_timeseries_last_time_map@.len(),
                |i: int| self.non_aligned_timeseries_last_time_map@[i]@,
            ),
            io: self.file_io_writer@,
        }
    }
}

impl TsFileWriter {
    /// Whether the writer is one: its schema and settings are ones to work
    /// with, and it has for each device of the schema, in order, a group
    /// writer that is as it is between calls.
    pub closed spec fn wf(&self) -> bool {
        &&& self.config.wf()
        &&& self.schema.wf()
        &&& self.file_io_writer.wf()
        &&& self.file_io_writer.config == self.config
        &&& self.group_writers@.len() == self.schema.measurement_groups.keys@.len()
        &&& self.non_aligned_timeseries_last_time_map@.len() == self.group_writers@.len()
        &&& forall|i: int| 0 <= i < self.group_writers@.len() ==> (#[trigger] self.group_writers@[i]).wf()
        &&& forall|i: int|
            0 <= i < self.group_writers@.len() ==> (#[trigger] self.group_writers@[i])@.path
                == self.schema.measurement_groups.key_seq()[i]
    }

    /// A writer for `schema` under `config` that has written the head of
    /// the file; fails where the schema is none that a file can have or a
    /// writer cannot work with the settings.
    pub fn new(schema: Schema, config: TsFileConfig) -> (made: Result<TsFileWriter, TsFileError>)
        ensures
            match made {
                Ok(writer) => schema.wf() && config.wf() && writer.wf() && writer@
                    == WriterState::initial(&schema, config),
                Err(e) => !(schema.wf() && config.wf()) && e is Error,
            },
    {
        if !schema.is_well_formed() {
            return Err(TsFileError::Error { source: Some("Invalid schema".to_owned()) });
        }
        if !config.is_valid() {
            return Err(TsFileError::Error { source: Some("Invalid configuration".to_owned()) });
        }
        let group_writers = build_group_writers(&schema);
        let mut times: Vec<Vec<i64>> = Vec::new();
        let mut i: usize = 0;
        while i < group_writers.len()
            invariant
                i <= group_writers@.len(),
                times@.len() == i,
                forall|k: int| 0 <= k < i ==> (#[trigger] times@[k])@ == Seq::<i64>::empty(),
            decreases group_writers@.len() - i,
        {
            times.push(Vec::new());
            i = i + 1;
        }
        let io_writer = TsFileIoWriter::new(config);
        let writer = TsFileWriter {
            schema,
            group_writers,
            record_count: 0,
            record_count_for_next_mem_check: RECORD_COUNT_FOR_FIRST_MEM_CHECK,
            non_aligned_timeseries_last_time_map: times,
            config,
            file_io_writer: io_writer,
        };
        proof {
            assert(writer@.groups =~= initial_groups(&schema));
            assert(writer@.flushed_times =~= WriterState::initial(&schema, config).flushed_times);
        }
        Ok(writer)
    }

    /// The bytes of the file as far as it is written.
    pub fn bytes(&self) -> (bytes: &Vec<u8>)
        ensures
            bytes@ == self@.io.out,
    {
        &self.file_io_writer.out
    }

    /// The place of the device of the name `name`, if the file has one.
    fn find(&self, name: &[u8]) -> (place: Option<usize>)
        requires
            self.wf(),
        ensures
            match place {
                Some(i) => i < self@.groups.len() && self@.has_device(name@) && self@.index_of(name@)
                    == i,
                None => !self@.has_device(name@),
            },
    {
        let mut i: usize = 0;
        while i < self.group_writers.len()
            invariant
                self.wf(),
                i <= self.group_writers@.len(),
                forall|k: int| 0 <= k < i ==> #[trigger] self@.device_names()[k] != name@,
            decreases self.group_writers@.len() - i,
        {
            match bytes_standing(self.group_writers[i].path(), name) {
                Standing::Same => {
                    proof {
                        assert(self@.device_names()[i as int] == name@);
                        let chosen = self@.index_of(name@);
                        let keys = self.schema.measurement_groups.key_seq();
                        lemma_bytes_less_irreflexive(name@);
                        assert(self@.device_names()[chosen] == keys[chosen]);
                        assert(self@.device_names()[i as int] == keys[i as int]);
                        assert(chosen == i) by {
                            if chosen < i {
                                assert(bytes_less(keys[chosen], keys[i as int]));
                            } else if chosen > i {
                                assert(bytes_less(keys[i as int], keys[chosen]));
                            }
                        }
                    }
                    return Some(i);
                },
                _ => {},
            }
            i = i + 1;
        }
        None
    }

    /// The estimate of the memory that the devices may come to take.
    fn calculate_mem_size_for_all_groups(&self) -> (size: u64)
        requires
            self.wf(),
        ensures
            size == self@.mem_size(self@.groups.len() as int),
    {
        let mut mem_total_size: u64 = 0;
        let mut i: usize = 0;
        while i < self.group_writers.len()
            invariant
                self.wf(),
                i <= self.group_writers@.len(),
                mem_total_size == self@.mem_size(i as int),
            decreases self.group_writers@.len() - i,
        {
            mem_total_size = add_sizes(
                mem_total_size,
                self.group_writers[i].update_max_group_mem_size(),
            );
            i = i + 1;
        }
        mem_total_size
    }

    /// Starts the group writers again as they were at first, and the count
    /// of records at zero.
    fn reset(&mut self)
        requires
            old(self).config.wf(),
            old(self).schema.wf(),
            old(self).file_io_writer.wf(),
            old(self).file_io_writer.config == old(self).config,
            old(self).non_aligned_timeseries_last_time_map@.len()
                == old(self).schema.measurement_groups.keys@.len(),
        ensures
            final(self).wf(),
            final(self)@ == (WriterState {
                groups: old(self)@.fresh,
                record_count: 0,
                ..old(self)@
            }),
    {
        self.record_count = 0;
        self.group_writers = build_group_writers(&self.schema);
        proof {
            assert(self@.groups =~= old(self)@.fresh);
        }
    }

    /// Writes the chunk groups out, if a record is counted: each group
    /// writer in order opens its chunk group, writes its chunks and closes
    /// the group, and its last timestamps are kept; then the group writers
    /// start again. Fails, with the group left open, where the chunks of a
    /// group do not take the size that was reckoned for them.
    #[verifier::rlimit(40)]
    pub fn flush_all_chunk_groups(&mut self) -> (done: Result<bool, TsFileError>)
        requires
            old(self).wf(),
        ensures
            final(self).wf(),
            final(self)@ == old(self)@.flushed_all().0,
            match done {
                Ok(flushed) => flushed && old(self)@.flushed_all().1,
                Err(e) => !old(self)@.flushed_all().1 && e is IllegalState,
            },
    {
        if self.record_count > 0 {
            let ghost start = self@;
            let mut i: usize = 0;
            proof {
                assert(self@.groups =~= groups_flushed(start.groups, 0));
                assert(self@.flushed_times =~= times_flushed(start.flushed_times, start.groups, 0));
            }
            while i < self.group_writers.len()
                invariant
                    self.wf(),
                    start == old(self)@,
                    start.record_count > 0,
                    i <= self.group_writers@.len(),
                    self@.groups.len() == start.groups.len(),
                    self@.flushed_times.len() == start.flushed_times.len(),
                    self@.config == start.config,
                    self@.fresh == start.fresh,
                    self@.record_count == start.record_count,
                    self@.next_check == start.next_check,
                    self@.groups == groups_flushed(start.groups, i as int),
                    self@.flushed_times == times_flushed(
                        start.flushed_times,
                        start.groups,
                        i as int,
                    ),
                    flush_io(start.io, start.groups, i as int) == (self.file_io_writer@, -1int),
                decreases self.group_writers@.len() - i,
            {
                let ghost before = self@;
                let ghost writers = self.group_writers@;
                let ghost times = self.non_aligned_timeseries_last_time_map@;
                proof {
                    assert(before.groups[i as int] == start.groups[i as int]);
                    assert(writers[i as int]@ == start.groups[i as int]);
                }
                let flushed = flush_group(&mut self.group_writers[i], &mut self.file_io_writer);
                proof {
                    assert forall|k: int| 0 <= k < self.group_writers@.len() && k != i implies
                        self.group_writers@[k] == writers[k] by {}
                    assert(self@.groups =~= groups_flushed(start.groups, i + 1)) by {
                        assert forall|k: int| 0 <= k < start.groups.len() implies self@.groups[k]
                            == groups_flushed(start.groups, i + 1)[k] by {
                            if k != i {
                                assert(self.group_writers@[k] == writers[k]);
                                assert(before.groups[k] == writers[k]@);
                            }
                        }
                    }
                }
                match flushed {
                    Ok(kept) => {
                        self.non_aligned_timeseries_last_time_map[i] = kept;
                    },
                    Err(e) => {
                        proof {
                            lemma_flush_io_stops(
                                start.io,
                                start.groups,
                                i as int + 1,
                                start.groups.len() as int,
                            );
                        }
                        return Err(e);
                    },
                }
                proof {
                    assert(self@.flushed_times =~= times_flushed(
                        start.flushed_times,
                        start.groups,
                        i + 1,
                    )) by {
                        assert forall|k: int| 0 <= k < start.flushed_times.len() implies
                            self@.flushed_times[k] == times_flushed(
                            start.flushed_times,
                            start.groups,
                            i + 1,
                        )[k] by {
                            if k != i {
                                assert(self.non_aligned_timeseries_last_time_map@[k] == times[k]);
                                assert(before.flushed_times[k] == times[k]@);
                            }
                        }
                    }
                }
                i = i + 1;
            }
            self.reset();
        }
        Ok(true)
    }

    /// Looks at the memory taken, if it is time to, and writes the chunk
    /// groups out if it is too much. Returns whether it wrote them out.
    fn check_memory_size_and_may_flush_chunks(&mut self) -> (done: Result<bool, TsFileError>)
        requires
            old(self).wf(),
        ensures
            final(self).wf(),
            final(self)@ == old(self)@.checked().0,
            match done {
                Ok(_) => old(self)@.checked().1,
                Err(e) => !old(self)@.checked().1 && e is IllegalState,
            },
    {
        if self.record_count >= self.record_count_for_next_mem_check {
            let mem_size = self.calculate_mem_size_for_all_groups();
            self.record_count_for_next_mem_check = if mem_size == 0 {
                u32::MAX
            } else {
                let scaled: u64 = (self.record_count_for_next_mem_check as u64)
                    * (CHUNK_GROUP_SIZE_THRESHOLD_BYTE as u64) / mem_size;
                if scaled > u32::MAX as u64 {
                    u32::MAX
                } else {
                    scaled as u32
                }
            };
            if mem_size > CHUNK_GROUP_SIZE_THRESHOLD_BYTE as u64 {
                return self.flush_all_chunk_groups();
            }
        }
        Ok(false)
    }

    /// Offers one sample to the group writer of its device, and counts it
    /// if it is taken.
    fn offer(&mut self, device: &str, measurement_id: &str, timestamp: i64, value: IoTDBValue) -> (done:
        Result<u32, TsFileError>)
        requires
            old(self).wf(),
        ensures
            final(self).wf(),
            final(self)@ == old(self)@.offered(
                text_bytes(device@),
                text_bytes(measurement_id@),
                timestamp,
                value,
            ),
            match done {
                Ok(_) => old(self)@.refusal(
                    text_bytes(device@),
                    text_bytes(measurement_id@),
                    timestamp,
                    value,
                ) is None,
                Err(e) => match old(self)@.refusal(
                    text_bytes(device@),
                    text_bytes(measurement_id@),
                    timestamp,
                    value,
                ) {
                    Some(refusal) => error_matches(e, refusal),
                    None => false,
                },
            },
    {
        let ghost start = self@;
        let at = match self.find(str_bytes(device)) {
            Some(at) => at,
            None => {
                return Err(
                    TsFileError::IllegalState { source: Some("No Group Writer found".to_owned()) },
                );
            },
        };
        let ghost writers = self.group_writers@;
        proof {
            crate::group_writer::lemma_written_keeps(
                start.groups[at as int],
                text_bytes(measurement_id@),
                timestamp,
                value,
            );
            assert(start.groups[at as int] == writers[at as int]@);
        }
        let written = self.group_writers[at].write(measurement_id, timestamp, value);
        proof {
            assert forall|k: int| 0 <= k < self.group_writers@.len() && k != at implies
                self.group_writers@[k] == writers[k] by {}
            assert(self@.groups =~= start.groups.update(
                at as int,
                start.groups[at as int].written(text_bytes(measurement_id@), timestamp, value),
            ));
        }
        match written {
            Ok(records_written) => {
                self.record_count = self.record_count.saturating_add(records_written);
                Ok(records_written)
            },
            Err(e) => Err(e),
        }
    }

    /// Writes one sample. A sample for an unknown device or series, one
    /// whose timestamp is not after the last of its series, one for a
    /// series without an encoder and one whose value is not of the type of
    /// its series are refused. A sample that is taken is counted, and the
    /// memory is looked at if it is time to.
    pub fn write(&mut self, device: &str, measurement_id: &str, timestamp: i64, value: IoTDBValue) -> (done:
        Result<(), TsFileError>)
        requires
            old(self).wf(),
        ensures
            final(self).wf(),
            final(self)@ == old(self)@.written(
                text_bytes(device@),
                text_bytes(measurement_id@),
                timestamp,
                value,
            ).0,
            match done {
                Ok(_) => old(self)@.refusal(
                    text_bytes(device@),
                    text_bytes(measurement_id@),
                    timestamp,
                    value,
                ) is None && old(self)@.written(
                    text_bytes(device@),
                    text_bytes(measurement_id@),
                    timestamp,
                    value,
                ).1,
                Err(e) => match old(self)@.refusal(
                    text_bytes(device@),
                    text_bytes(measurement_id@),
                    timestamp,
                    value,
                ) {
                    Some(refusal) => error_matches(e, refusal),
                    None => !old(self)@.written(
                        text_bytes(device@),
                        text_bytes(measurement_id@),
                        timestamp,
                        value,
                    ).1 && e is IllegalState,
                },
            },
    {
        match self.offer(device, measurement_id, timestamp, value) {
            Ok(_) => {},
            Err(e) => {
                return Err(e);
            },
        }
        match self.check_memory_size_and_may_flush_chunks() {
            Ok(_) => Ok(()),
            Err(e) => Err(e),
        }
    }

    /// Offers points with one timestamp to the group writer of their
    /// device, and counts them if all are taken.
    fn offer_many(&mut self, device: &str, timestamp: i64, values: Vec<DataPoint>) -> (done: Result<
        u32,
        TsFileError,
    >)
        requires
            old(self).wf(),
        ensures
            final(self).wf(),
            final(self)@ == old(self)@.offered_many(
                text_bytes(device@),
                timestamp,
                points_view(values@),
            ),
            match done {
                Ok(_) => old(self)@.refusal_many(
                    text_bytes(device@),
                    timestamp,
                    points_view(values@),
                ) is None,
                Err(e) => match old(self)@.refusal_many(
                    text_bytes(device@),
                    timestamp,
                    points_view(values@),
                ) {
                    Some(refusal) => error_matches(e, refusal),
                    None => false,
                },
            },
    {
        let ghost start = self@;
        let ghost points = points_view(values@);
        let at = match self.find(str_bytes(device)) {
            Some(at) => at,
            None => {
                return Err(TsFileError::IllegalState { source: None });
            },
        };
        let ghost writers = self.group_writers@;
        proof {
            crate::group_writer::lemma_written_many_keeps(
                start.groups[at as int],
                timestamp,
                points,
                points.len() as int,
            );
            assert(start.groups[at as int] == writers[at as int]@);
        }
        let written = self.group_writers[at].write_many(timestamp, values);
        proof {
            assert forall|k: int| 0 <= k < self.group_writers@.len() && k != at implies
                self.group_writers@[k] == writers[k] by {}
            assert(self@.groups =~= start.groups.update(
                at as int,
                start.groups[at as int].written_many(timestamp, points, points.len() as int).0,
            ));
        }
        match written {
            Ok(records_written) => {
                self.record_count = self.record_count.saturating_add(records_written);
                Ok(records_written)
            },
            Err(e) => Err(e),
        }
    }

    /// Writes the points of `values` with one timestamp to the series of
    /// `device`, one after the other until one is refused. Where all are
    /// taken they are counted, and the memory is looked at if it is time
    /// to.
    pub fn write_many(&mut self, device: &str, timestamp: i64, values: Vec<DataPoint>) -> (done: Result<
        (),
        TsFileError,
    >)
        requires
            old(self).wf(),
        ensures
            final(self).wf(),
            final(self)@ == old(self)@.written_many(
                text_bytes(device@),
                timestamp,
                points_view(values@),
            ).0,
            match done {
                Ok(_) => old(self)@.refusal_many(
                    text_bytes(device@),
                    timestamp,
                    points_view(values@),
                ) is None && old(self)@.written_many(
                    text_bytes(device@),
                    timestamp,
                    points_view(values@),
                ).1,
                Err(e) => match old(self)@.refusal_many(
                    text_bytes(device@),
                    timestamp,
                    points_view(values@),
                ) {
                    Some(refusal) => error_matches(e, refusal),
                    None => !old(self)@.written_many(
                        text_bytes(device@),
                        timestamp,
                        points_view(values@),
                    ).1 && e is IllegalState,
                },
            },
    {
        match self.offer_many(device, timestamp, values) {
            Ok(_) => {},
            Err(e) => {
                return Err(e);
            },
        }
        match self.check_memory_size_and_may_flush_chunks() {
            Ok(_) => Ok(()),
            Err(e) => Err(e),
        }
    }

    /// Writes the chunk groups out and ends the file.
    pub fn close(&mut self) -> (done: Result<(), TsFileError>)
        requires
            old(self).wf(),
        ensures
            final(self).wf(),
            final(self)@ == old(self)@.closed().0,
            match done {
                Ok(_) => old(self)@.closed().1,
                Err(e) => !old(self)@.closed().1 && e is IllegalState,
            },
    {
        match self.flush_all_chunk_groups() {
            Ok(_) => {},
            Err(e) => {
                return Err(e);
            },
        }
        self.file_io_writer.end_file();
        Ok(())
    }

} // impl TsFileWriter

/// Writing the chunks of a group takes nothing back from the file.
pub proof fn lemma_group_written_grows(io: IoState, series: Seq<crate::chunk_writer::ChunkState>, count: int)
    ensures
        io_with_group(io, series, count).out.len() >= io.out.len(),
    decreases count,
{
    if count > 0 {
        lemma_group_written_grows(io, series, count - 1);
    }
}

/// Once a group has failed to write its chunk group, no group after it is
/// asked to.
proof fn lemma_flush_io_stops(io: IoState, groups: Seq<GroupState>, stopped: int, count: int)
    requires
        0 <= stopped <= count,
        flush_io(io, groups, stopped).1 >= 0,
    ensures
        flush_io(io, groups, count) == flush_io(io, groups, stopped),
    decreases count - stopped,
{
    if count > stopped {
        lemma_flush_io_stops(io, groups, stopped, count - 1);
    }
}

} // verus!
