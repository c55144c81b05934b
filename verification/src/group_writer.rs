//! The writer of the chunk group of one device: a chunk writer for each of
//! its series, in the order of their names, and the last timestamp of each.
use crate::chunk_writer::{io_with_chunk, ChunkState, ChunkWriter};
use crate::errors::TsFileError;
use crate::sorted_map::{
    bytes_standing, lemma_bytes_less_irreflexive, strictly_sorted, Standing,
};
use crate::tsfile_io_writer::{IoState, TsFileIoWriter};
use crate::utils::{add_sizes, saturated, str_bytes, text_bytes};
use crate::{valid_device_id, IoTDBValue, MeasurementGroup, MAX_NAME_LENGTH};
use vstd::prelude::*;
use vstd::slice::slice_to_vec;

verus! {

/// The timestamp that stands for no timestamp yet.
pub const NO_TIME: i64 = -1;

/// Why a group writer does not take a sample.
pub enum Refusal {
    /// The device has no series of that name.
    UnknownSeries,
    /// The timestamp is not after the last one of the series.
    OutOfOrder,
    /// No encoder exists for the series.
    NoEncoder,
    /// The value is not of the type of the series.
    WrongType,
}

/// Whether `error` is the error that reports the refusal.
pub open spec fn error_matches(error: TsFileError, refusal: Refusal) -> bool {
    match refusal {
        Refusal::UnknownSeries => error is IllegalState,
        Refusal::OutOfOrder => error == TsFileError::OutOfOrderData,
        Refusal::NoEncoder => error == TsFileError::Encoding,
        Refusal::WrongType => error == TsFileError::WrongTypeForSeries,
    }
}

/// What a group writer is made of: the name of its device, the chunk
/// writers of its series in the order of their names, and for each series
/// the timestamp written last, -1 before any.
pub struct GroupState {
    pub path: Seq<u8>,
    pub series: Seq<ChunkState>,
    pub last_times: Seq<i64>,
}

/// One sample for a series of a device: the name of the series and the
/// value.
pub type Point = (Seq<u8>, IoTDBValue);

impl GroupState {
    /// Whether each series has its last timestamp.
    pub open spec fn consistent(self) -> bool {
        self.last_times.len() == self.series.len()
    }

    /// The names of the series, in order.
    pub open spec fn names(self) -> Seq<Seq<u8>> {
        Seq::new(self.series.len(), |i: int| self.series[i].measurement_id)
    }

    /// Whether the device has a series of the name `name`.
    pub open spec fn has_series(self, name: Seq<u8>) -> bool {
        exists|i: int| 0 <= i < self.series.len() && #[trigger] self.names()[i] == name
    }

    /// The place of the series of the name `name`.
    pub open spec fn index_of(self, name: Seq<u8>) -> int {
        choose|i: int| 0 <= i < self.series.len() && #[trigger] self.names()[i] == name
    }

    /// Why a sample is not taken, if it is not: the first that holds of an
    /// unknown series, a timestamp not after the last one of the series, a
    /// series without an encoder, a value of another type.
    pub open spec fn refusal(self, name: Seq<u8>, timestamp: i64, value: IoTDBValue) -> Option<Refusal> {
        if !self.has_series(name) {
            Some(Refusal::UnknownSeries)
        } else if timestamp <= self.last_times[self.index_of(name)] {
            Some(Refusal::OutOfOrder)
        } else if !self.series[self.index_of(name)].supported() {
            Some(Refusal::NoEncoder)
        } else if value.spec_data_type() != self.series[self.index_of(name)].data_type {
            Some(Refusal::WrongType)
        } else {
            None
        }
    }

    /// The state after a sample has been offered. An unknown series or a
    /// timestamp out of order changes nothing. Else the timestamp becomes
    /// the last one of the series, and the sample is written unless the
    /// chunk writer refuses it.
    pub open spec fn written(self, name: Seq<u8>, timestamp: i64, value: IoTDBValue) -> GroupState {
        match self.refusal(name, timestamp, value) {
            Some(Refusal::UnknownSeries) => self,
            Some(Refusal::OutOfOrder) => self,
            Some(_) => GroupState {
                last_times: self.last_times.update(self.index_of(name), timestamp),
                ..self
            },
            None => GroupState {
                last_times: self.last_times.update(self.index_of(name), timestamp),
                series: self.series.update(
                    self.index_of(name),
                    self.series[self.index_of(name)].written(timestamp, value),
                ),
                ..self
            },
        }
    }

    /// The state after the first `count` of `points` have been offered with
    /// one timestamp, and the refusal at which the offering stopped, if it
    /// did.
    pub open spec fn written_many(self, timestamp: i64, points: Seq<Point>, count: int) -> (
        GroupState,
        Option<Refusal>,
    )
        decreases count,
    {
        if count <= 0 {
            (self, None)
        } else {
            let before = self.written_many(timestamp, points, count - 1);
            if before.1 is Some {
                before
            } else {
                (
                    before.0.written(points[count - 1].0, timestamp, points[count - 1].1),
                    before.0.refusal(points[count - 1].0, timestamp, points[count - 1].1),
                )
            }
        }
    }

    /// The estimate of the memory that the first `count` series may come
    /// to take.
    pub open spec fn max_mem_size(self, count: int) -> u64
        decreases count,
    {
        if count <= 0 {
            0
        } else {
            saturated(self.max_mem_size(count - 1) + self.series[count - 1].max_series_mem_size())
        }
    }

    /// The size that the chunks of the first `count` series are reckoned
    /// to take in a file, their open pages sealed.
    pub open spec fn chunk_group_size(self, count: int) -> u64
        decreases count,
    {
        if count <= 0 {
            0
        } else {
            saturated(
                self.chunk_group_size(count - 1) + self.series[count - 1].sealed().serialized_size(),
            )
        }
    }

    /// The state after the chunks have been written to a file: every chunk
    /// writer starts again without pages.
    pub open spec fn flushed(self) -> GroupState {
        GroupState {
            series: Seq::new(self.series.len(), |i: int| self.series[i].flushed()),
            ..self
        }
    }
}

/// The state of an I/O writer after the first `count` series of a group
/// have written their chunks.
pub open spec fn io_with_group(io: IoState, series: Seq<ChunkState>, count: int) -> IoState
    decreases count,
{
    if count <= 0 {
        io
    } else {
        io_with_chunk(io_with_group(io, series, count - 1), series[count - 1].sealed())
    }
}

/// Offering a sample changes neither the name of the device nor the
/// number of its series.
pub proof fn lemma_written_keeps(state: GroupState, name: Seq<u8>, timestamp: i64, value: IoTDBValue)
    ensures
        state.written(name, timestamp, value).path == state.path,
        state.written(name, timestamp, value).series.len() == state.series.len(),
{
}

/// Offering points changes neither the name of the device nor the number
/// of its series.
pub proof fn lemma_written_many_keeps(
    state: GroupState,
    timestamp: i64,
    points: Seq<Point>,
    count: int,
)
    ensures
        state.written_many(timestamp, points, count).0.path == state.path,
        state.written_many(timestamp, points, count).0.series.len() == state.series.len(),
    decreases count,
{
    if count > 0 {
        lemma_written_many_keeps(state, timestamp, points, count - 1);
        let before = state.written_many(timestamp, points, count - 1).0;
        lemma_written_keeps(before, points[count - 1].0, timestamp, points[count - 1].1);
    }
}

/// Sealing twice is sealing once, and neither sealing nor writing out
/// changes the name of a series.
pub proof fn lemma_sealed_twice(state: ChunkState)
    ensures
        state.sealed().sealed() == state.sealed(),
        state.sealed().flushed() == state.flushed(),
        state.sealed().measurement_id == state.measurement_id,
        state.flushed().measurement_id == state.measurement_id,
{
}

/// One sample for a series of a device.
pub struct DataPoint<'a> {
    pub measurement_id: &'a str,
    pub value: IoTDBValue,
}

impl<'a> DataPoint<'a> {
    /// The sample `value` for the series `measurement_id`.
    pub fn new(measurement_id: &'a str, value: IoTDBValue) -> (point: DataPoint<'a>)
        ensures
            point.measurement_id@ == measurement_id@,
            point.value == value,
    {
        DataPoint { measurement_id, value }
    }
}

/// The points that a vector of data points stands for.
pub open spec fn points_view(points: Seq<DataPoint>) -> Seq<Point> {
    Seq::new(points.len(), |i: int| (text_bytes(points[i].measurement_id@), points[i].value))
}

/// The writer of the chunk group of one device.
pub struct GroupWriter {
    path: Vec<u8>,
    chunk_writers: Vec<ChunkWriter>,
    last_times: Vec<i64>,
}

impl View for GroupWriter {
    type V = GroupState;

    closed spec fn view(&self) -> GroupState {
        GroupState {
            path: self.path@,
            series: Seq::new(self.chunk_writers@.len(), |i: int| self.chunk_writers@[i]@),
            last_times: self.last_times@,
        }
    }
}

/// The state of the group writer of the device `path` with the series of
/// `names` and `schemas` that has taken nothing.
pub open spec fn initial_group(path: Seq<u8>, group: &MeasurementGroup) -> GroupState {
    GroupState {
        path,
        series: Seq::new(
            group.measurement_schemas.keys@.len(),
            |i: int|
                ChunkState::initial(
                    group.measurement_schemas.key_seq()[i],
                    group.measurement_schemas.values@[i].data_type,
                    group.measurement_schemas.values@[i].compression,
                    group.measurement_schemas.values@[i].encoding,
                ),
        ),
        last_times: Seq::new(group.measurement_schemas.keys@.len(), |i: int| NO_TIME),
    }
}

impl GroupWriter {
    /// Whether the writer is one: the name of its device can be stored,
    /// its chunk writers are as they are between calls and stand in the
    /// order of their names, and each has its last timestamp.
    pub closed spec fn wf(&self) -> bool {
        &&& self.path@.len() <= MAX_NAME_LENGTH
        &&& self.last_times@.len() == self.chunk_writers@.len()
        &&& forall|i: int| 0 <= i < self.chunk_writers@.len() ==> (#[trigger] self.chunk_writers@[i]).wf()
        &&& strictly_sorted(self@.names())
    }

    /// What being well-formed says of the state.
    pub proof fn lemma_wf(&self)
        requires
            self.wf(),
        ensures
            self@.path.len() <= MAX_NAME_LENGTH,
            self@.consistent(),
            strictly_sorted(self@.names()),
    {
    }

    /// A writer for the device `path` with the series of `group` that has
    /// taken nothing.
    pub fn new(path: &[u8], group: &MeasurementGroup) -> (writer: GroupWriter)
        requires
            valid_device_id(path@),
            group.wf(),
        ensures
            writer.wf(),
            writer@ == initial_group(path@, group),
    {
        let mut chunk_writers: Vec<ChunkWriter> = Vec::new();
        let mut last_times: Vec<i64> = Vec::new();
        let map = &group.measurement_schemas;
        let mut i: usize = 0;
        while i < map.keys.len()
            invariant
                group.wf(),
                map == &group.measurement_schemas,
                i <= map.keys@.len(),
                chunk_writers@.len() == i,
                last_times@.len() == i,
                forall|k: int| 0 <= k < i ==> (#[trigger] chunk_writers@[k]).wf(),
                forall|k: int|
                    0 <= k < i ==> (#[trigger] chunk_writers@[k])@ == ChunkState::initial(
                        map.key_seq()[k],
                        map.values@[k].data_type,
                        map.values@[k].compression,
                        map.values@[k].encoding,
                    ),
                forall|k: int| 0 <= k < i ==> #[trigger] last_times@[k] == NO_TIME,
            decreases map.keys@.len() - i,
        {
            proof {
                assert(crate::valid_measurement_id(map.key_seq()[i as int]));
                assert(map.key_seq()[i as int] == map.keys@[i as int]@);
            }
            let schema = &map.values[i];
            chunk_writers.push(
                ChunkWriter::new_from_bytes(
                    map.keys[i].as_slice(),
                    schema.data_type,
                    schema.compression,
                    schema.encoding,
                ),
            );
            last_times.push(NO_TIME);
            i = i + 1;
        }
        let writer = GroupWriter { path: slice_to_vec(path), chunk_writers, last_times };
        proof {
            assert(writer@.series =~= initial_group(path@, group).series);
            assert(writer@.last_times =~= initial_group(path@, group).last_times);
            assert(writer@.names() =~= map.key_seq());
        }
        writer
    }

    /// The bytes of the name of the device.
    pub fn path(&self) -> (path: &[u8])
        ensures
            path@ == self@.path,
    {
        self.path.as_slice()
    }

    /// The place of the series of the name `name`, if the device has one.
    fn find(&self, name: &[u8]) -> (place: Option<usize>)
        requires
            self.wf(),
        ensures
            match place {
                Some(i) => i < self@.series.len() && self@.has_series(name@) && self@.index_of(name@)
                    == i,
                None => !self@.has_series(name@),
            },
    {
        let mut i: usize = 0;
        while i < self.chunk_writers.len()
            invariant
                self.wf(),
                i <= self.chunk_writers@.len(),
                forall|k: int| 0 <= k < i ==> #[trigger] self@.names()[k] != name@,
            decreases self.chunk_writers@.len() - i,
        {
            match bytes_standing(self.chunk_writers[i].measurement_id(), name) {
                Standing::Same => {
                    proof {
                        assert(self@.names()[i as int] == name@);
                        let chosen = self@.index_of(name@);
                        lemma_bytes_less_irreflexive(name@);
                        assert(chosen == i) by {
                            if chosen < i {
                                assert(crate::sorted_map::bytes_less(
                                    self@.names()[chosen],
                                    self@.names()[i as int],
                                ));
                            } else if chosen > i {
                                assert(crate::sorted_map::bytes_less(
                                    self@.names()[i as int],
                                    self@.names()[chosen],
                                ));
                            }
                        }
                    }
                    return Some(i);
                },
                _ => {},
            }
            i = i + 1;
        }
        None
    }

    /// Offers one sample to the series `measurement_id`. An unknown series
    /// and a timestamp that is not after the last one of the series are
    /// refused and change nothing. Else the timestamp becomes the last one
    /// of the series, and the chunk writer takes the sample or refuses it.
    pub fn write(&mut self, measurement_id: &str, timestamp: i64, value: IoTDBValue) -> (done:
        Result<u32, TsFileError>)
        requires
            old(self).wf(),
        ensures
            final(self).wf(),
            final(self)@ == old(self)@.written(text_bytes(measurement_id@), timestamp, value),
            match done {
                Ok(records) => records == 1 && old(self)@.refusal(
                    text_bytes(measurement_id@),
                    timestamp,
                    value,
                ) is None,
                Err(e) => match old(self)@.refusal(text_bytes(measurement_id@), timestamp, value) {
                    Some(refusal) => error_matches(e, refusal),
                    None => false,
                },
            },
    {
        let name = str_bytes(measurement_id);
        let ghost state = self@;
        let at = match self.find(name) {
            Some(at) => at,
            None => {
                return Err(
                    TsFileError::IllegalState { source: Some("Unknown measurement id".to_owned()) },
                );
            },
        };
        if timestamp <= self.last_times[at] {
            return Err(TsFileError::OutOfOrderData);
        }
        self.last_times[at] = timestamp;
        proof {
            self.chunk_writers@[at as int].lemma_wf();
        }
        let ghost writers = self.chunk_writers@;
        let written = self.chunk_writers[at].write(timestamp, value);
        proof {
            assert(self@.names() =~= state.names()) by {
                assert forall|k: int| 0 <= k < state.series.len() implies self@.names()[k]
                    == state.names()[k] by {
                    if k != at {
                        assert(self.chunk_writers@[k] == writers[k]);
                    }
                }
            }
            assert forall|k: int| 0 <= k < self.chunk_writers@.len() implies (
            #[trigger] self.chunk_writers@[k]).wf() by {
                if k != at {
                    assert(self.chunk_writers@[k] == writers[k]);
                }
            }
            assert(self@.series =~= state.written(name@, timestamp, value).series);
        }
        written
    }

    /// Offers the points of `values` one after the other with one
    /// timestamp, until one is refused. Returns the number of samples
    /// written, held at the largest 32-bit number.
    pub fn write_many(&mut self, timestamp: i64, values: Vec<DataPoint>) -> (done: Result<
        u32,
        TsFileError,
    >)
        requires
            old(self).wf(),
        ensures
            final(self).wf(),
            final(self)@ == old(self)@.written_many(
                timestamp,
                points_view(values@),
                values@.len() as int,
            ).0,
            match done {
                Ok(records) => old(self)@.written_many(
                    timestamp,
                    points_view(values@),
                    values@.len() as int,
                ).1 is None && records == if values@.len() > u32::MAX {
                    u32::MAX as int
                } else {
                    values@.len() as int
                },
                Err(e) => match old(self)@.written_many(
                    timestamp,
                    points_view(values@),
                    values@.len() as int,
                ).1 {
                    Some(refusal) => error_matches(e, refusal),
                    None => false,
                },
            },
    {
        let mut records: u32 = 0;
        let ghost points = points_view(values@);
        let ghost start = self@;
        let mut i: usize = 0;
        while i < values.len()
            invariant
                self.wf(),
                i <= values@.len(),
                points == points_view(values@),
                start == old(self)@,
                start.written_many(timestamp, points, i as int) == (self@, None::<Refusal>),
                records == if i > u32::MAX {
                    u32::MAX as int
                } else {
                    i as int
                },
            decreases values@.len() - i,
        {
            proof {
                let point = values@[i as int];
                assert(points[i as int] == (text_bytes(point.measurement_id@), point.value));
            }
            match self.write(values[i].measurement_id, timestamp, values[i].value) {
                Ok(written) => {
                    records = records.saturating_add(written);
                },
                Err(e) => {
                    proof {
                        lemma_written_many_stops(
                            start,
                            timestamp,
                            points,
                            i as int + 1,
                            values@.len() as int,
                        );
                    }
                    return Err(e);
                },
            }
            i = i + 1;
        }
        Ok(records)
    }

    /// The timestamp written last to each series, in the order of the
    /// names of the series; -1 for a series without one.
    pub fn get_last_time_map(&self) -> (times: Vec<i64>)
        ensures
            times@ == self@.last_times,
    {
        slice_to_vec(self.last_times.as_slice())
    }

    /// The estimate of the memory that the series of the device may come
    /// to take.
    pub fn update_max_group_mem_size(&self) -> (size: u64)
        requires
            self.wf(),
        ensures
            size == self@.max_mem_size(self@.series.len() as int),
    {
        let mut buffer_size: u64 = 0;
        let mut i: usize = 0;
        while i < self.chunk_writers.len()
            invariant
                self.wf(),
                i <= self.chunk_writers@.len(),
                buffer_size == self@.max_mem_size(i as int),
            decreases self.chunk_writers@.len() - i,
        {
            let chunk_writer_size = self.chunk_writers[i].estimate_max_series_mem_size();
            buffer_size = add_sizes(buffer_size, chunk_writer_size);
            i = i + 1;
        }
        buffer_size
    }

    /// Seals the open page of every series.
    fn seal_all_chunks(&mut self)
        requires
            old(self).wf(),
        ensures
            final(self).wf(),
            final(self)@ == (GroupState {
                series: Seq::new(old(self)@.series.len(), |i: int| old(self)@.series[i].sealed()),
                ..old(self)@
            }),
    {
        let ghost start = self@;
        let mut i: usize = 0;
        while i < self.chunk_writers.len()
            invariant
                i <= self.chunk_writers@.len(),
                self.chunk_writers@.len() == start.series.len(),
                self.path == old(self).path,
                self.last_times == old(self).last_times,
                start == old(self)@,
                old(self).wf(),
                forall|k: int| 0 <= k < self.chunk_writers@.len() ==> (#[trigger] self.chunk_writers@[k]).wf(),
                forall|k: int| 0 <= k < i ==> (#[trigger] self.chunk_writers@[k])@ == start.series[k].sealed(),
                forall|k: int|
                    i <= k < self.chunk_writers@.len() ==> (#[trigger] self.chunk_writers@[k])@
                        == start.series[k],
            decreases self.chunk_writers@.len() - i,
        {
            let ghost writers = self.chunk_writers@;
            self.chunk_writers[i].seal_current_page();
            proof {
                assert forall|k: int| 0 <= k < self.chunk_writers@.len() && k != i implies
                    self.chunk_writers@[k] == writers[k] by {}
            }
            i = i + 1;
        }
        proof {
            assert forall|k: int| 0 <= k < start.series.len() implies self@.series[k]
                == start.series[k].sealed() && self@.names()[k] == start.names()[k] by {
                assert(self.chunk_writers@[k]@ == start.series[k].sealed());
                lemma_sealed_twice(start.series[k]);
            }
            assert(self@.series =~= Seq::new(start.series.len(), |i: int| start.series[i].sealed()));
            assert(self@.names() =~= start.names());
        }
    }

    /// The size that the chunks of the device are reckoned to take in a
    /// file.
    fn get_current_chunk_group_size(&self) -> (size: u64)
        requires
            self.wf(),
        ensures
            size == chunk_sizes(self@.series, self@.series.len() as int),
    {
        let mut size: u64 = 0;
        let mut i: usize = 0;
        while i < self.chunk_writers.len()
            invariant
                self.wf(),
                i <= self.chunk_writers@.len(),
                size == chunk_sizes(self@.series, i as int),
            decreases self.chunk_writers@.len() - i,
        {
            size = add_sizes(size, self.chunk_writers[i].get_serialized_chunk_size());
            i = i + 1;
        }
        size
    }

    /// Writes the chunk of every series to a file.
    #[verifier::rlimit(30)]
    fn write_chunks(&mut self, file_writer: &mut TsFileIoWriter)
        requires
            old(self).wf(),
            old(file_writer).wf(),
        ensures
            final(self).wf(),
            final(file_writer).wf(),
            final(file_writer).config == old(file_writer).config,
            final(self)@ == old(self)@.flushed(),
            final(file_writer)@ == io_with_group(
                old(file_writer)@,
                old(self)@.series,
                old(self)@.series.len() as int,
            ),
    {
        let ghost start = old(self)@;
        let ghost io_start = old(file_writer)@;
        let mut i: usize = 0;
        while i < self.chunk_writers.len()
            invariant
                i <= self.chunk_writers@.len(),
                self.chunk_writers@.len() == start.series.len(),
                self.path == old(self).path,
                self.last_times == old(self).last_times,
                old(self).wf(),
                start == old(self)@,
                io_start == old(file_writer)@,
                file_writer.wf(),
                file_writer.config == old(file_writer).config,
                forall|k: int| 0 <= k < self.chunk_writers@.len() ==> (#[trigger] self.chunk_writers@[k]).wf(),
                forall|k: int| 0 <= k < i ==> (#[trigger] self.chunk_writers@[k])@ == start.series[k].flushed(),
                forall|k: int|
                    i <= k < self.chunk_writers@.len() ==> (#[trigger] self.chunk_writers@[k])@
                        == start.series[k],
                file_writer@ == io_with_group(io_start, start.series, i as int),
            decreases self.chunk_writers@.len() - i,
        {
            let ghost writers = self.chunk_writers@;
            self.chunk_writers[i].write_to_file_writer(file_writer);
            proof {
                assert forall|k: int| 0 <= k < self.chunk_writers@.len() && k != i implies
                    self.chunk_writers@[k] == writers[k] by {}
            }
            i = i + 1;
        }
        proof {
            assert forall|k: int| 0 <= k < start.series.len() implies self@.series[k]
                == start.flushed().series[k] && self@.names()[k] == start.names()[k] by {
                assert(self.chunk_writers@[k]@ == start.series[k].flushed());
                lemma_sealed_twice(start.series[k]);
            }
            assert(self@.series =~= start.flushed().series);
            assert(self@.names() =~= start.names());
        }
    }

    /// Writes the chunks of the device to a file, in the order of the names
    /// of the series, and returns the size that they were reckoned to take.
    /// Every chunk writer starts again without pages.
    pub fn flush_to_filewriter(&mut self, file_writer: &mut TsFileIoWriter) -> (size: u64)
        requires
            old(self).wf(),
            old(file_writer).wf(),
        ensures
            final(self).wf(),
            final(file_writer).wf(),
            final(file_writer).config == old(file_writer).config,
            final(self)@ == old(self)@.flushed(),
            final(file_writer)@ == io_with_group(
                old(file_writer)@,
                old(self)@.series,
                old(self)@.series.len() as int,
            ),
            size == old(self)@.chunk_group_size(old(self)@.series.len() as int),
    {
        self.seal_all_chunks();
        let current_chunk_group_size = self.get_current_chunk_group_size();
        proof {
            lemma_chunk_sizes(old(self)@, self@.series, old(self)@.series.len() as int);
            lemma_sealed_group(old(self)@, self@, old(file_writer)@, self@.series.len() as int);
        }
        self.write_chunks(file_writer);
        current_chunk_group_size
    }

} // impl GroupWriter

/// The size that the chunks of the first `count` of `series` are reckoned
/// to take in a file as they are.
pub open spec fn chunk_sizes(series: Seq<ChunkState>, count: int) -> u64
    decreases count,
{
    if count <= 0 {
        0
    } else {
        saturated(chunk_sizes(series, count - 1) + series[count - 1].serialized_size())
    }
}

/// The sizes of sealed chunks are the sizes reckoned for the group.
proof fn lemma_chunk_sizes(start: GroupState, sealed: Seq<ChunkState>, count: int)
    requires
        0 <= count <= start.series.len(),
        sealed.len() == start.series.len(),
        forall|k: int| 0 <= k < start.series.len() ==> #[trigger] sealed[k] == start.series[k].sealed(),
    ensures
        chunk_sizes(sealed, count) == start.chunk_group_size(count),
    decreases count,
{
    if count > 0 {
        lemma_chunk_sizes(start, sealed, count - 1);
        assert(sealed[count - 1] == start.series[count - 1].sealed());
    }
}

/// Writing the chunks of a group whose pages are sealed is writing the
/// chunks of the group.
proof fn lemma_sealed_group(start: GroupState, sealed: GroupState, io: IoState, count: int)
    requires
        0 <= count <= start.series.len(),
        sealed.path == start.path,
        sealed.last_times == start.last_times,
        sealed.series.len() == start.series.len(),
        forall|k: int| 0 <= k < start.series.len() ==> #[trigger] sealed.series[k] == start.series[k].sealed(),
    ensures
        sealed.flushed() == start.flushed(),
        io_with_group(io, sealed.series, count) == io_with_group(io, start.series, count),
    decreases count,
{
    assert(sealed.flushed().series =~= start.flushed().series) by {
        assert forall|k: int| 0 <= k < start.series.len() implies sealed.series[k].flushed()
            == start.series[k].flushed() by {
            lemma_sealed_twice(start.series[k]);
        }
    }
    if count > 0 {
        lemma_sealed_group(start, sealed, io, count - 1);
        lemma_sealed_twice(start.series[count - 1]);
        assert(sealed.series[count - 1] == start.series[count - 1].sealed());
    }
}

/// Once a point has been refused, nothing more is offered.
proof fn lemma_written_many_stops(
    state: GroupState,
    timestamp: i64,
    points: Seq<Point>,
    stopped: int,
    count: int,
)
    requires
        0 <= stopped <= count,
        state.written_many(timestamp, points, stopped).1 is Some,
    ensures
        state.written_many(timestamp, points, count) == state.written_many(
            timestamp,
            points,
            stopped,
        ),
    decreases count - stopped,
{
    if count > stopped {
        lemma_written_many_stops(state, timestamp, points, stopped, count - 1);
    }
}

} // verus!
