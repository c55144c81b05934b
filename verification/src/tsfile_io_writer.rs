//! The writer of the bytes of a file: the head, the chunk groups with
//! their chunks, and at the end the metadata, the index over it, the bloom
//! filter and the foot.
use crate::bloom_filter::{built_filter_state, filter_bytes, BloomFilter};
use crate::chunk_writer::{
    chunk_header_bytes, chunk_meta_bytes, ChunkHeader, ChunkMeta, ChunkMetadata,
};
use crate::compression::CompressionType;
use crate::encoding::TSEncoding;
use crate::metadata_index::{
    constructed, copy_name, devices_storable, devices_view, node_bytes, series_view, Devices,
    MetadataIndexNode, SeriesMetadata, TimeSeriesMetadata,
};
use crate::sorted_map::{bytes_standing, rank_in, SortedMap, Standing};
use crate::statistics::Statistics;
use crate::ts_file_config::TsFileConfig;
use crate::utils::{
    be_bytes_u32, be_bytes_u64, low_u32, low_u32_of, write_bytes, write_u32_be, write_u64_be,
};
use crate::{
    magic_string, var_str, write_magic_string, write_str, TSDataType, CHUNK_GROUP_HEADER,
    MAX_NAME_LENGTH, PATH_SEPARATOR, SEPARATOR, VERSION_NUMBER,
};
use vstd::prelude::*;

verus! {

/// What is kept of a chunk group that has been written: the name of its
/// device and the metadata of its chunks.
pub struct GroupMeta {
    pub device_id: Seq<u8>,
    pub chunks: Seq<ChunkMeta>,
}

/// The metadata of a chunk group that has been written.
pub struct ChunkGroupMetadata {
    pub device_id: Vec<u8>,
    pub chunk_metadata: Vec<ChunkMetadata>,
}

/// The chunk metadata that a vector of chunk metadata stands for.
pub open spec fn chunks_view(chunks: Seq<ChunkMetadata>) -> Seq<ChunkMeta> {
    Seq::new(chunks.len(), |i: int| chunks[i]@)
}

impl View for ChunkGroupMetadata {
    type V = GroupMeta;

    open spec fn view(&self) -> GroupMeta {
        GroupMeta { device_id: self.device_id@, chunks: chunks_view(self.chunk_metadata@) }
    }
}

impl ChunkGroupMetadata {
    /// The metadata of the chunk group of `device_id` with the chunks of
    /// `chunk_metadata`.
    pub fn new(device_id: Vec<u8>, chunk_metadata: Vec<ChunkMetadata>) -> (metadata:
        ChunkGroupMetadata)
        ensures
            metadata.device_id == device_id,
            metadata.chunk_metadata == chunk_metadata,
    {
        ChunkGroupMetadata { device_id, chunk_metadata }
    }
}

/// The groups that a vector of group metadata stands for.
pub open spec fn groups_view(groups: Seq<ChunkGroupMetadata>) -> Seq<GroupMeta> {
    Seq::new(groups.len(), |i: int| groups[i]@)
}

/// The bytes that open a chunk group: the marker and the stored name of
/// the device.
pub open spec fn chunk_group_header_bytes(device_id: Seq<u8>) -> Seq<u8> {
    seq![CHUNK_GROUP_HEADER] + var_str(device_id)
}

/// The header of a chunk group.
pub struct ChunkGroupHeader {
    pub device_id: Vec<u8>,
}

impl ChunkGroupHeader {
    /// The header of the chunk group of `device_id`.
    pub fn new(device_id: &[u8]) -> (header: ChunkGroupHeader)
        ensures
            header.device_id@ == device_id@,
    {
        ChunkGroupHeader { device_id: vstd::slice::slice_to_vec(device_id) }
    }

    /// Appends the bytes of the header to `file`.
    pub fn serialize(&self, file: &mut Vec<u8>)
        requires
            self.device_id@.len() <= MAX_NAME_LENGTH,
        ensures
            final(file)@ == old(file)@ + chunk_group_header_bytes(self.device_id@),
    {
        file.push(CHUNK_GROUP_HEADER);
        write_str(file, self.device_id.as_slice());
        assert(file@ =~= old(file)@ + chunk_group_header_bytes(self.device_id@));
    }
}

/// The path of a series: the name of its device, the separator, the name
/// of its measurement.
pub open spec fn path_bytes(device: Seq<u8>, measurement: Seq<u8>) -> Seq<u8> {
    device + seq![PATH_SEPARATOR] + measurement
}

/// The chunks of one series of a file, in the order in which they were
/// written.
pub struct PathChunks {
    pub path: Seq<u8>,
    pub device: Seq<u8>,
    pub chunks: Seq<ChunkMeta>,
}

/// The place of the first of `paths` with the path `path`, or -1.
pub open spec fn find_path(paths: Seq<PathChunks>, path: Seq<u8>) -> int
    decreases paths.len(),
{
    if paths.len() == 0 {
        -1
    } else {
        let before = find_path(paths.drop_last(), path);
        if before >= 0 {
            before
        } else if paths.last().path == path {
            paths.len() - 1
        } else {
            -1
        }
    }
}

/// The series after one more chunk of `device`: it joins the chunks of
/// its series, or opens a new series behind the others.
pub open spec fn with_chunk(paths: Seq<PathChunks>, device: Seq<u8>, chunk: ChunkMeta) -> Seq<
    PathChunks,
> {
    let path = path_bytes(device, chunk.measurement_id);
    let at = find_path(paths, path);
    if at >= 0 {
        paths.update(at, PathChunks { chunks: paths[at].chunks.push(chunk), ..paths[at] })
    } else {
        paths.push(PathChunks { path, device, chunks: seq![chunk] })
    }
}

/// The series after the first `count` chunks of a chunk group.
pub open spec fn with_group(paths: Seq<PathChunks>, group: GroupMeta, count: int) -> Seq<PathChunks>
    decreases count,
{
    if count <= 0 {
        paths
    } else {
        with_chunk(with_group(paths, group, count - 1), group.device_id, group.chunks[count - 1])
    }
}

/// The series of a file with their chunks, in the order in which the
/// series first occur in the chunk groups.
pub open spec fn paths_of(groups: Seq<GroupMeta>) -> Seq<PathChunks>
    decreases groups.len(),
{
    if groups.len() == 0 {
        Seq::empty()
    } else {
        with_group(paths_of(groups.drop_last()), groups.last(), groups.last().chunks.len() as int)
    }
}

/// The list of the metadata of the first `count` of a series' chunks in
/// bytes; a chunk of another type than `data_type` is left out.
pub open spec fn chunk_list_bytes(
    chunks: Seq<ChunkMeta>,
    data_type: TSDataType,
    multiple: bool,
    count: int,
) -> Seq<u8>
    decreases count,
{
    if count <= 0 {
        Seq::empty()
    } else {
        chunk_list_bytes(chunks, data_type, multiple, count - 1) + if chunks[count - 1].data_type
            == data_type {
            chunk_meta_bytes(chunks[count - 1], multiple)
        } else {
            Seq::empty()
        }
    }
}

/// The statistics of the first `count` of a series' chunks merged in
/// order; a chunk of another type than `data_type` is left out.
pub open spec fn chunk_list_statistics(chunks: Seq<ChunkMeta>, data_type: TSDataType, count: int) -> Statistics
    decreases count,
{
    if count <= 0 {
        Statistics::initial(data_type)
    } else {
        let before = chunk_list_statistics(chunks, data_type, count - 1);
        if chunks[count - 1].data_type == data_type && chunks[count - 1].statistics.data_type()
            == data_type {
            before.merged(chunks[count - 1].statistics)
        } else {
            before
        }
    }
}

/// The metadata of a series with the chunks `chunks`: its type is that of
/// the first chunk; the type byte says whether there are more chunks than
/// one, and carries the mask of the first.
pub open spec fn series_of(chunks: Seq<ChunkMeta>) -> SeriesMetadata {
    let first = chunks[0];
    let multiple = chunks.len() > 1;
    let buffer = chunk_list_bytes(chunks, first.data_type, multiple, chunks.len() as int);
    SeriesMetadata {
        metadata_type: (if multiple {
            1u8
        } else {
            0u8
        }) | first.mask,
        list_size: low_u32_of(buffer.len() as int),
        measurement_id: first.measurement_id,
        data_type: first.data_type,
        statistics: chunk_list_statistics(chunks, first.data_type, chunks.len() as int),
        buffer,
    }
}

/// The names of devices.
pub open spec fn device_names(devices: Devices) -> Seq<Seq<u8>> {
    Seq::new(devices.len(), |i: int| devices[i].0)
}

/// The devices after one more series of `device`: it joins the series of
/// its device, or its device takes its place in the order of the names.
pub open spec fn with_series(devices: Devices, device: Seq<u8>, series: SeriesMetadata) -> Devices {
    let names = device_names(devices);
    if exists|i: int| 0 <= i < names.len() && #[trigger] names[i] == device {
        let at = choose|i: int| 0 <= i < names.len() && #[trigger] names[i] == device;
        devices.update(at, (device, devices[at].1.push(series)))
    } else {
        devices.insert(rank_in(names, device), (device, seq![series]))
    }
}

/// The devices of the first `count` of `paths`, in the order of their
/// names, each with the metadata of its series in the order of `paths`.
pub open spec fn devices_of(paths: Seq<PathChunks>, count: int) -> Devices
    decreases count,
{
    if count <= 0 {
        Seq::empty()
    } else {
        with_series(
            devices_of(paths, count - 1),
            paths[count - 1].device,
            series_of(paths[count - 1].chunks),
        )
    }
}

/// The paths of series.
pub open spec fn path_names(paths: Seq<PathChunks>) -> Seq<Seq<u8>> {
    Seq::new(paths.len(), |i: int| paths[i].path)
}

/// The bytes that follow the index of a file: the root of the index, the
/// place of the separator, and the bloom filter over the paths.
pub open spec fn footer_bytes(
    root: crate::metadata_index::IndexNode,
    meta_offset: u64,
    config: TsFileConfig,
    paths: Seq<Seq<u8>>,
) -> Seq<u8> {
    file_metadata_bytes(Some(root), meta_offset) + filter_bytes(built_filter_state(config, paths))
}

/// The bytes that end a file whose chunk groups are `groups` and end at
/// `position`: the separator; the metadata of the series with the index
/// over it; the root of the index and the place of the separator; the
/// bloom filter over the paths; the size of what follows the index, in
/// four big-endian bytes; the text `TsFile`.
pub open spec fn file_tail(groups: Seq<GroupMeta>, config: TsFileConfig, position: int) -> Seq<u8> {
    let index = index_of_groups(groups, config, position + 1);
    tail_bytes(
        index.1,
        footer_bytes(index.0, position as u64, config, path_names(paths_of(groups))),
    )
}

/// The bytes that begin a file: the text `TsFile` and the version.
pub open spec fn file_head() -> Seq<u8> {
    magic_string() + seq![VERSION_NUMBER]
}

/// Whether the names of a chunk's series is short enough to be stored.
pub open spec fn chunks_storable(chunks: Seq<ChunkMeta>) -> bool {
    forall|i: int| 0 <= i < chunks.len() ==> (#[trigger] chunks[i]).measurement_id.len() <= MAX_NAME_LENGTH
}

/// Whether a chunk group has a chunk, and names short enough to be stored.
pub open spec fn group_storable(group: GroupMeta) -> bool {
    &&& group.device_id.len() <= MAX_NAME_LENGTH
    &&& group.chunks.len() >= 1
    &&& chunks_storable(group.chunks)
}

/// Whether a series has a chunk, and names short enough to be stored.
pub open spec fn path_storable(entry: PathChunks) -> bool {
    &&& entry.device.len() <= MAX_NAME_LENGTH
    &&& entry.path.len() <= 2 * MAX_NAME_LENGTH + 1
    &&& entry.chunks.len() >= 1
    &&& chunks_storable(entry.chunks)
}

/// The chunks of one series of a file.
pub struct PathEntry {
    pub path: Vec<u8>,
    pub device: Vec<u8>,
    pub chunks: Vec<ChunkMetadata>,
}

impl View for PathEntry {
    type V = PathChunks;

    open spec fn view(&self) -> PathChunks {
        PathChunks { path: self.path@, device: self.device@, chunks: chunks_view(self.chunks@) }
    }
}

/// The series that a vector of series stands for.
pub open spec fn paths_view(paths: Seq<PathEntry>) -> Seq<PathChunks> {
    Seq::new(paths.len(), |i: int| paths[i]@)
}

/// Once a path is found among the first of `paths`, it is found at the
/// same place among more of them.
proof fn lemma_find_path_stable(paths: Seq<PathChunks>, path: Seq<u8>, i: int, j: int)
    requires
        0 <= i < j <= paths.len(),
        find_path(paths.take(i + 1), path) == i,
    ensures
        find_path(paths.take(j), path) == i,
    decreases j - i,
{
    if j > i + 1 {
        lemma_find_path_stable(paths, path, i, j - 1);
        assert(paths.take(j).drop_last() =~= paths.take(j - 1));
    }
}

/// The place of the first of `paths` with the path `path`.
fn find_path_index(paths: &Vec<PathEntry>, path: &[u8]) -> (place: Option<usize>)
    ensures
        match place {
            Some(i) => i < paths@.len() && find_path(paths_view(paths@), path@) == i,
            None => find_path(paths_view(paths@), path@) == -1,
        },
{
    let ghost all = paths_view(paths@);
    let mut i: usize = 0;
    proof {
        assert(all.take(0) =~= Seq::<PathChunks>::empty());
    }
    while i < paths.len()
        invariant
            i <= paths@.len(),
            all == paths_view(paths@),
            find_path(all.take(i as int), path@) == -1,
        decreases paths@.len() - i,
    {
        proof {
            assert(all.take(i + 1).drop_last() =~= all.take(i as int));
            assert(all.take(i + 1).last() == paths@[i as int]@);
        }
        match bytes_standing(paths[i].path.as_slice(), path) {
            Standing::Same => {
                proof {
                    lemma_find_path_stable(all, path@, i as int, all.len() as int);
                    assert(all.take(all.len() as int) =~= all);
                }
                return Some(i);
            },
            _ => {},
        }
        i = i + 1;
    }
    proof {
        assert(all.take(i as int) =~= all);
    }
    None
}

/// The path of the series `measurement` of `device`.
pub fn make_path(device: &[u8], measurement: &[u8]) -> (path: Vec<u8>)
    ensures
        path@ == path_bytes(device@, measurement@),
{
    let mut path: Vec<u8> = Vec::new();
    write_bytes(device, &mut path);
    path.push(PATH_SEPARATOR);
    write_bytes(measurement, &mut path);
    assert(path@ =~= path_bytes(device@, measurement@));
    path
}

impl ChunkMetadata {
    /// A copy of the metadata.
    pub fn copy(&self) -> (copy: ChunkMetadata)
        ensures
            copy@ == self@,
    {
        ChunkMetadata::new(
            self.measurement_id.as_slice(),
            self.data_type,
            self.offset_of_chunk_header,
            self.statistics,
            self.mask,
        )
    }
}

/// Adds one chunk of `device` to the series.
fn add_chunk(paths: &mut Vec<PathEntry>, device: &[u8], chunk: &ChunkMetadata)
    requires
        device@.len() <= MAX_NAME_LENGTH,
        chunk@.measurement_id.len() <= MAX_NAME_LENGTH,
        forall|i: int| 0 <= i < old(paths)@.len() ==> path_storable((#[trigger] old(paths)@[i])@),
    ensures
        paths_view(final(paths)@) == with_chunk(paths_view(old(paths)@), device@, chunk@),
        forall|i: int| 0 <= i < final(paths)@.len() ==> path_storable((#[trigger] final(paths)@[i])@),
{
    let path = make_path(device, chunk.measurement_id.as_slice());
    let ghost before = paths_view(paths@);
    let ghost before_entries = paths@;
    match find_path_index(paths, path.as_slice()) {
        Some(at) => {
            let ghost held = chunks_view(paths@[at as int].chunks@);
            paths[at].chunks.push(chunk.copy());
            proof {
                assert(chunks_view(paths@[at as int].chunks@) =~= held.push(chunk@));
                assert(paths_view(paths@) =~= with_chunk(before, device@, chunk@));
                assert forall|i: int| 0 <= i < paths@.len() implies path_storable(
                    (#[trigger] paths@[i])@,
                ) by {
                    if i == at {
                        assert(path_storable(before_entries[i]@));
                        let chunks = paths@[i]@.chunks;
                        assert forall|k: int| 0 <= k < chunks.len() implies (
                        #[trigger] chunks[k]).measurement_id.len() <= MAX_NAME_LENGTH by {
                            if k < held.len() {
                                assert(chunks[k] == held[k]);
                            }
                        }
                    } else {
                        assert(paths@[i] == before_entries[i]);
                    }
                }
            }
        },
        None => {
            let mut chunks: Vec<ChunkMetadata> = Vec::new();
            chunks.push(chunk.copy());
            let entry = PathEntry { path, device: vstd::slice::slice_to_vec(device), chunks };
            proof {
                assert(chunks_view(entry.chunks@) =~= seq![chunk@]);
            }
            paths.push(entry);
            proof {
                assert(paths_view(paths@) =~= with_chunk(before, device@, chunk@));
                assert forall|i: int| 0 <= i < paths@.len() implies path_storable(
                    (#[trigger] paths@[i])@,
                ) by {
                    if i < before_entries.len() {
                        assert(paths@[i] == before_entries[i]);
                    }
                }
            }
        },
    }
}

/// The series of a file with their chunks, in the order in which the
/// series first occur in the chunk groups.
fn collect_paths(groups: &Vec<ChunkGroupMetadata>) -> (paths: Vec<PathEntry>)
    requires
        forall|i: int| 0 <= i < groups@.len() ==> group_storable((#[trigger] groups@[i])@),
    ensures
        paths_view(paths@) == paths_of(groups_view(groups@)),
        forall|i: int| 0 <= i < paths@.len() ==> path_storable((#[trigger] paths@[i])@),
{
    let mut paths: Vec<PathEntry> = Vec::new();
    let ghost all = groups_view(groups@);
    let mut g: usize = 0;
    proof {
        assert(all.take(0) =~= Seq::<GroupMeta>::empty());
        assert(paths_view(paths@) =~= paths_of(all.take(0)));
    }
    while g < groups.len()
        invariant
            g <= groups@.len(),
            all == groups_view(groups@),
            forall|i: int| 0 <= i < groups@.len() ==> group_storable((#[trigger] groups@[i])@),
            paths_view(paths@) == paths_of(all.take(g as int)),
            forall|i: int| 0 <= i < paths@.len() ==> path_storable((#[trigger] paths@[i])@),
        decreases groups@.len() - g,
    {
        let group = &groups[g];
        let ghost start = paths_view(paths@);
        let mut c: usize = 0;
        proof {
            assert(all.take(g + 1).drop_last() =~= all.take(g as int));
            assert(all.take(g + 1).last() == group@);
            assert(group_storable(groups@[g as int]@));
        }
        while c < group.chunk_metadata.len()
            invariant
                c <= group.chunk_metadata@.len(),
                group_storable(group@),
                paths_view(paths@) == with_group(start, group@, c as int),
                forall|i: int| 0 <= i < paths@.len() ==> path_storable((#[trigger] paths@[i])@),
            decreases group.chunk_metadata@.len() - c,
        {
            proof {
                assert(group@.chunks[c as int] == group.chunk_metadata@[c as int]@);
            }
            add_chunk(&mut paths, group.device_id.as_slice(), &group.chunk_metadata[c]);
            c = c + 1;
        }
        g = g + 1;
    }
    proof {
        assert(all.take(g as int) =~= all);
    }
    paths
}

/// The metadata of the series with the chunks `chunks`.
fn build_series(chunks: &Vec<ChunkMetadata>) -> (series: TimeSeriesMetadata)
    requires
        chunks@.len() >= 1,
    ensures
        series@ == series_of(chunks_view(chunks@)),
{
    let ghost all = chunks_view(chunks@);
    let data_type = chunks[0].data_type;
    let serialize_statistic = chunks.len() > 1;
    let mut statistics = Statistics::new(data_type);
    let mut buffer: Vec<u8> = Vec::new();
    let mut i: usize = 0;
    proof {
        assert(all[0] == chunks@[0]@);
    }
    while i < chunks.len()
        invariant
            i <= chunks@.len(),
            all == chunks_view(chunks@),
            statistics.data_type() == data_type,
            buffer@ == chunk_list_bytes(all, data_type, serialize_statistic, i as int),
            statistics == chunk_list_statistics(all, data_type, i as int),
        decreases chunks@.len() - i,
    {
        let m = &chunks[i];
        proof {
            assert(all[i as int] == m@);
        }
        if m.data_type == data_type {
            m.serialize(&mut buffer, serialize_statistic);
            if same_type(&m.statistics, data_type) {
                statistics.merge(&m.statistics);
            }
        }
        proof {
            assert(buffer@ =~= chunk_list_bytes(all, data_type, serialize_statistic, i + 1));
        }
        i = i + 1;
    }
    let first_bit: u8 = if serialize_statistic {
        1
    } else {
        0
    };
    TimeSeriesMetadata {
        time_series_metadata_type: first_bit | chunks[0].mask,
        chunk_meta_data_list_data_size: low_u32(buffer.len()),
        measurement_id: copy_name(&chunks[0].measurement_id),
        data_type,
        statistics,
        buffer,
    }
}

/// Whether `statistics` are those of a series of `data_type`.
fn same_type(statistics: &Statistics, data_type: TSDataType) -> (same: bool)
    ensures
        same == (statistics.data_type() == data_type),
{
    match statistics {
        Statistics::INT32(_) => data_type == TSDataType::INT32,
        Statistics::INT64(_) => data_type == TSDataType::INT64,
        Statistics::FLOAT(_) => data_type == TSDataType::FLOAT,
        Statistics::DOUBLE(_) => data_type == TSDataType::DOUBLE,
    }
}

/// Whether a map from devices to the metadata of their series is one, with
/// names short enough to be stored.
pub open spec fn series_map_ready(map: &SortedMap<Vec<TimeSeriesMetadata>>) -> bool {
    &&& map.wf()
    &&& forall|i: int| 0 <= i < map.keys@.len() ==> (#[trigger] map.keys@[i])@.len() <= MAX_NAME_LENGTH
    &&& forall|i: int, j: int|
        0 <= i < map.values@.len() && 0 <= j < map.values@[i]@.len() ==> (
        #[trigger] map.values@[i]@[j])@.measurement_id.len() <= MAX_NAME_LENGTH
}

/// A map that is ready stands for devices that can be stored.
proof fn lemma_series_map_ready(map: &SortedMap<Vec<TimeSeriesMetadata>>)
    requires
        series_map_ready(map),
    ensures
        devices_storable(devices_view(map)),
        device_names(devices_view(map)) == map.key_seq(),
{
    let devices = devices_view(map);
    assert(device_names(devices) =~= map.key_seq());
    assert forall|i: int| 0 <= i < devices.len() implies (#[trigger] devices[i]).0.len()
        <= MAX_NAME_LENGTH && forall|j: int|
        0 <= j < devices[i].1.len() ==> (#[trigger] devices[i].1[j]).measurement_id.len()
            <= MAX_NAME_LENGTH by {
        assert(devices[i].0 == map.keys@[i]@);
        assert forall|j: int| 0 <= j < devices[i].1.len() implies (
        #[trigger] devices[i].1[j]).measurement_id.len() <= MAX_NAME_LENGTH by {
            assert(devices[i].1[j] == map.values@[i]@[j]@);
        }
    }
}

/// Adds the metadata of one series of `device` to the map.
fn add_series(
    map: &mut SortedMap<Vec<TimeSeriesMetadata>>,
    device: &[u8],
    series: TimeSeriesMetadata,
)
    requires
        series_map_ready(old(map)),
        device@.len() <= MAX_NAME_LENGTH,
        series@.measurement_id.len() <= MAX_NAME_LENGTH,
    ensures
        series_map_ready(final(map)),
        devices_view(final(map)) == with_series(devices_view(old(map)), device@, series@),
{
    let ghost before = devices_view(map);
    let ghost names = device_names(before);
    let ghost old_map = *map;
    proof {
        lemma_series_map_ready(map);
    }
    match map.position(device) {
        Some(at) => {
            proof {
                assert(names[at as int] == device@);
                let chosen = choose|i: int| 0 <= i < names.len() && #[trigger] names[i] == device@;
                map.lemma_unique(at as int, chosen);
            }
            let ghost held = series_view(map.values@[at as int]@);
            map.values[at].push(series);
            proof {
                assert(map.key_seq() =~= old_map.key_seq());
                assert(series_view(map.values@[at as int]@) =~= held.push(series@));
                assert(devices_view(map) =~= before.update(
                    at as int,
                    (device@, before[at as int].1.push(series@)),
                ));
                assert forall|i: int, j: int|
                    0 <= i < map.values@.len() && 0 <= j < map.values@[i]@.len() implies (
                #[trigger] map.values@[i]@[j])@.measurement_id.len() <= MAX_NAME_LENGTH by {
                    if i == at {
                        if j < old_map.values@[i]@.len() {
                            assert(map.values@[i]@[j] == old_map.values@[i]@[j]);
                        }
                    } else {
                        assert(map.values@[i] == old_map.values@[i]);
                    }
                }
            }
        },
        None => {
            proof {
                assert(!exists|i: int| 0 <= i < names.len() && #[trigger] names[i] == device@) by {
                    if exists|i: int| 0 <= i < names.len() && #[trigger] names[i] == device@ {
                        let i = choose|i: int| 0 <= i < names.len() && #[trigger] names[i] == device@;
                        assert(old_map.key_seq()[i] == device@);
                    }
                }
            }
            let mut list: Vec<TimeSeriesMetadata> = Vec::new();
            list.push(series);
            map.insert_bytes(device, list);
            proof {
                let place = old_map.rank(device@);
                assert(series_view(list@) =~= seq![series@]);
                assert(devices_view(map) =~= before.insert(place, (device@, seq![series@]))) by {
                    assert forall|i: int| 0 <= i < map.keys@.len() implies devices_view(map)[i]
                        == before.insert(place, (device@, seq![series@]))[i] by {
                        if i < place {
                            assert(map.key_seq()[i] == old_map.key_seq()[i]);
                            assert(map.values@[i] == old_map.values@[i]);
                        } else if i > place {
                            assert(map.key_seq()[i] == old_map.key_seq()[i - 1]);
                            assert(map.values@[i] == old_map.values@[i - 1]);
                        } else {
                            assert(map.key_seq()[i] == device@);
                        }
                    }
                }
                assert forall|i: int| 0 <= i < map.keys@.len() implies (
                #[trigger] map.keys@[i])@.len() <= MAX_NAME_LENGTH by {
                    if i < place {
                        assert(map.key_seq()[i] == old_map.key_seq()[i]);
                        assert(old_map.key_seq()[i] == old_map.keys@[i]@);
                    } else if i > place {
                        assert(map.key_seq()[i] == old_map.key_seq()[i - 1]);
                        assert(old_map.key_seq()[i - 1] == old_map.keys@[i - 1]@);
                    } else {
                        assert(map.key_seq()[i] == device@);
                    }
                    assert(map.key_seq()[i] == map.keys@[i]@);
                }
                assert forall|i: int, j: int|
                    0 <= i < map.values@.len() && 0 <= j < map.values@[i]@.len() implies (
                #[trigger] map.values@[i]@[j])@.measurement_id.len() <= MAX_NAME_LENGTH by {
                    if i < place {
                        assert(map.values@[i] == old_map.values@[i]);
                    } else if i > place {
                        assert(map.values@[i] == old_map.values@[i - 1]);
                    }
                }
            }
        },
    }
}

/// The devices of `paths`, in the order of their names, each with the
/// metadata of its series.
fn build_series_map(paths: &Vec<PathEntry>) -> (map: SortedMap<Vec<TimeSeriesMetadata>>)
    requires
        forall|i: int| 0 <= i < paths@.len() ==> path_storable((#[trigger] paths@[i])@),
    ensures
        series_map_ready(&map),
        devices_view(&map) == devices_of(paths_view(paths@), paths@.len() as int),
{
    let mut map: SortedMap<Vec<TimeSeriesMetadata>> = SortedMap::new();
    let ghost all = paths_view(paths@);
    let mut i: usize = 0;
    proof {
        assert(devices_view(&map) =~= devices_of(all, 0));
    }
    while i < paths.len()
        invariant
            i <= paths@.len(),
            all == paths_view(paths@),
            forall|k: int| 0 <= k < paths@.len() ==> path_storable((#[trigger] paths@[k])@),
            series_map_ready(&map),
            devices_view(&map) == devices_of(all, i as int),
        decreases paths@.len() - i,
    {
        proof {
            assert(all[i as int] == paths@[i as int]@);
            assert(path_storable(paths@[i as int]@));
            assert(chunks_view(paths@[i as int].chunks@)[0] == paths@[i as int].chunks@[0]@);
        }
        let series = build_series(&paths[i].chunks);
        add_series(&mut map, paths[i].device.as_slice(), series);
        i = i + 1;
    }
    map
}

/// What an I/O writer is made of: the bytes written, the device of the
/// open chunk group, the metadata of the chunks of the open group, the
/// metadata of the open chunk, and the metadata of the groups that are
/// closed.
pub struct IoState {
    pub out: Seq<u8>,
    pub current_device: Option<Seq<u8>>,
    pub chunk_metadata: Seq<ChunkMeta>,
    pub current_chunk: Option<ChunkMeta>,
    pub groups: Seq<GroupMeta>,
}

impl IoState {
    /// The state after a chunk group of `device_id` has been opened: its
    /// header is written, and the chunk metadata of the group before are
    /// forgotten.
    pub open spec fn group_started(self, device_id: Seq<u8>) -> IoState {
        IoState {
            out: self.out + chunk_group_header_bytes(device_id),
            current_device: Some(device_id),
            chunk_metadata: Seq::empty(),
            ..self
        }
    }

    /// The state after the open chunk group has been closed: where there is
    /// one and it has a chunk, its metadata join those of the groups that
    /// are closed; else nothing changes.
    pub open spec fn group_ended(self) -> IoState {
        if self.current_device is None || self.chunk_metadata.len() == 0 {
            self
        } else {
            IoState {
                current_device: None,
                chunk_metadata: Seq::empty(),
                groups: self.groups.push(
                    GroupMeta { device_id: self.current_device.unwrap(), chunks: self.chunk_metadata },
                ),
                ..self
            }
        }
    }

    /// The state after the file has been ended under the settings
    /// `config`.
    pub open spec fn file_ended(self, config: TsFileConfig) -> IoState {
        IoState { out: self.out + file_tail(self.groups, config, self.out.len() as int), ..self }
    }
}

/// The writer of the bytes of a file.
pub struct TsFileIoWriter {
    pub config: TsFileConfig,
    pub out: Vec<u8>,
    pub current_chunk_group_device_id: Option<Vec<u8>>,
    pub chunk_metadata_list: Vec<ChunkMetadata>,
    pub current_chunk_metadata: Option<ChunkMetadata>,
    pub chunk_group_metadata_list: Vec<ChunkGroupMetadata>,
}

impl View for TsFileIoWriter {
    type V = IoState;

    open spec fn view(&self) -> IoState {
        IoState {
            out: self.out@,
            current_device: match self.current_chunk_group_device_id {
                Some(device) => Some(device@),
                None => None,
            },
            chunk_metadata: chunks_view(self.chunk_metadata_list@),
            current_chunk: match self.current_chunk_metadata {
                Some(chunk) => Some(chunk@),
                None => None,
            },
            groups: groups_view(self.chunk_group_metadata_list@),
        }
    }
}

impl TsFileIoWriter {
    /// Whether the writer can go on: its settings are ones to work with,
    /// and every name that it keeps is short enough to be stored.
    pub open spec fn wf(&self) -> bool {
        &&& self.config.wf()
        &&& chunks_storable(self@.chunk_metadata)
        &&& match self@.current_chunk {
            Some(chunk) => chunk.measurement_id.len() <= MAX_NAME_LENGTH,
            None => true,
        }
        &&& match self@.current_device {
            Some(device) => device.len() <= MAX_NAME_LENGTH,
            None => true,
        }
        &&& forall|i: int| 0 <= i < self@.groups.len() ==> group_storable(#[trigger] self@.groups[i])
    }

    /// A writer that has written the head of a file.
    pub fn new(config: TsFileConfig) -> (writer: TsFileIoWriter)
        requires
            config.wf(),
        ensures
            writer.wf(),
            writer.config == config,
            writer@ == (IoState {
                out: file_head(),
                current_device: None,
                chunk_metadata: Seq::empty(),
                current_chunk: None,
                groups: Seq::empty(),
            }),
    {
        let mut io_writer = TsFileIoWriter {
            config,
            out: Vec::new(),
            current_chunk_group_device_id: None,
            chunk_metadata_list: Vec::new(),
            current_chunk_metadata: None,
            chunk_group_metadata_list: Vec::new(),
        };
        io_writer.start_file();
        proof {
            assert(io_writer@.chunk_metadata =~= Seq::empty());
            assert(io_writer@.groups =~= Seq::empty());
            assert(io_writer@.out =~= file_head());
        }
        io_writer
    }

    fn start_file(&mut self)
        ensures
            final(self).out@ == old(self).out@ + file_head(),
            final(self).config == old(self).config,
            final(self).current_chunk_group_device_id == old(self).current_chunk_group_device_id,
            final(self).chunk_metadata_list == old(self).chunk_metadata_list,
            final(self).current_chunk_metadata == old(self).current_chunk_metadata,
            final(self).chunk_group_metadata_list == old(self).chunk_group_metadata_list,
    {
        write_magic_string(&mut self.out);
        self.out.push(VERSION_NUMBER);
        assert(self.out@ =~= old(self).out@ + file_head());
    }

    /// The place in the file where the next byte goes.
    pub fn get_position(&self) -> (position: u64)
        ensures
            position == self@.out.len(),
    {
        self.out.len() as u64
    }

    /// Opens a chunk group of `device_id`: writes its header and forgets
    /// the chunk metadata of the group before.
    pub fn start_chunk_group(&mut self, device_id: &[u8])
        requires
            old(self).wf(),
            device_id@.len() <= MAX_NAME_LENGTH,
        ensures
            final(self).wf(),
            final(self).config == old(self).config,
            final(self)@ == old(self)@.group_started(device_id@),
    {
        let chunk_group_header = ChunkGroupHeader::new(device_id);
        chunk_group_header.serialize(&mut self.out);
        self.current_chunk_group_device_id = Some(chunk_group_header.device_id);
        self.chunk_metadata_list.clear();
        proof {
            assert(self@.chunk_metadata =~= Seq::empty());
        }
    }

    /// Opens a chunk: notes its metadata with the place of its header, and
    /// writes the header.
    pub fn start_flush_chunk(
        &mut self,
        measurement_id: &[u8],
        compression: CompressionType,
        data_type: TSDataType,
        encoding: TSEncoding,
        statistics: Statistics,
        data_size: u32,
        num_pages: u32,
        mask: u8,
    )
        requires
            old(self).wf(),
            measurement_id@.len() <= MAX_NAME_LENGTH,
        ensures
            final(self).wf(),
            final(self).config == old(self).config,
            final(self)@ == (IoState {
                out: old(self)@.out + chunk_header_bytes(
                    measurement_id@,
                    data_size,
                    data_type,
                    compression,
                    encoding,
                    num_pages,
                    mask,
                ),
                current_chunk: Some(
                    ChunkMeta {
                        measurement_id: measurement_id@,
                        data_type,
                        mask,
                        offset_of_chunk_header: old(self)@.out.len() as u64,
                        statistics,
                    },
                ),
                ..old(self)@
            }),
    {
        self.current_chunk_metadata = Some(
            ChunkMetadata::new(measurement_id, data_type, self.out.len() as u64, statistics, mask),
        );
        let header = ChunkHeader::new(
            measurement_id,
            data_size,
            data_type,
            compression,
            encoding,
            num_pages,
            mask,
        );
        header.serialize(&mut self.out);
    }

    /// Writes bytes of the open chunk.
    pub fn write_chunk_data(&mut self, data: &[u8])
        requires
            old(self).wf(),
        ensures
            final(self).wf(),
            final(self).config == old(self).config,
            final(self)@ == (IoState { out: old(self)@.out + data@, ..old(self)@ }),
    {
        write_bytes(data, &mut self.out);
    }

    /// Closes the open chunk: its metadata joins those of the open group.
    pub fn end_current_chunk(&mut self)
        requires
            old(self).wf(),
            old(self)@.current_chunk is Some,
        ensures
            final(self).wf(),
            final(self).config == old(self).config,
            final(self)@ == (IoState {
                chunk_metadata: old(self)@.chunk_metadata.push(old(self)@.current_chunk.unwrap()),
                current_chunk: None,
                ..old(self)@
            }),
    {
        let ghost held = self@.chunk_metadata;
        let metadata = self.current_chunk_metadata.take().unwrap();
        self.chunk_metadata_list.push(metadata);
        proof {
            assert(self@.chunk_metadata =~= held.push(metadata@));
            assert forall|i: int| 0 <= i < self@.chunk_metadata.len() implies (
            #[trigger] self@.chunk_metadata[i]).measurement_id.len() <= MAX_NAME_LENGTH by {
                if i < held.len() {
                    assert(self@.chunk_metadata[i] == held[i]);
                }
            }
        }
    }

    /// Closes the open chunk group, if there is one and it has a chunk: its
    /// metadata joins those of the groups that are closed.
    pub fn end_chunk_group(&mut self)
        requires
            old(self).wf(),
        ensures
            final(self).wf(),
            final(self).config == old(self).config,
            final(self)@ == old(self)@.group_ended(),
    {
        if self.current_chunk_group_device_id.is_none() || self.chunk_metadata_list.len() == 0 {
            return ;
        }
        let ghost held = self@.groups;
        let device_id = self.current_chunk_group_device_id.take().unwrap();
        let mut chunks: Vec<ChunkMetadata> = Vec::new();
        std::mem::swap(&mut chunks, &mut self.chunk_metadata_list);
        let group = ChunkGroupMetadata::new(device_id, chunks);
        self.chunk_group_metadata_list.push(group);
        proof {
            assert(self@.chunk_metadata =~= Seq::empty());
            assert(self@.groups =~= held.push(group@));
            assert forall|i: int| 0 <= i < self@.groups.len() implies group_storable(
                #[trigger] self@.groups[i],
            ) by {
                if i < held.len() {
                    assert(self@.groups[i] == held[i]);
                }
            }
        }
    }

    /// Ends the file: writes the separator, the metadata of the series
    /// with the index over it, the root of the index with the place of the
    /// separator, the bloom filter over the paths, the size of what follows
    /// the index, and the closing text.
    pub fn end_file(&mut self)
        requires
            old(self).wf(),
        ensures
            final(self).wf(),
            final(self).config == old(self).config,
            final(self)@ == old(self)@.file_ended(old(self).config),
    {
        proof {
            assert forall|i: int| 0 <= i < self.chunk_group_metadata_list@.len() implies group_storable(
                (#[trigger] self.chunk_group_metadata_list@[i])@,
            ) by {
                assert(self@.groups[i] == self.chunk_group_metadata_list@[i]@);
            }
        }
        write_file_tail(&mut self.out, &self.chunk_group_metadata_list, &self.config);
    }
}

/// The bytes of the metadata of a file: the root of the index, or four
/// zero bytes where there is none, and the place of the separator in eight
/// big-endian bytes.
pub open spec fn file_metadata_bytes(root: Option<crate::metadata_index::IndexNode>, meta_offset: u64) -> Seq<
    u8,
> {
    (match root {
        Some(node) => node_bytes(node),
        None => be_bytes_u32(0),
    }) + be_bytes_u64(meta_offset)
}

/// The metadata of a file.
pub struct TsFileMetadata {
    pub metadata_index: Option<MetadataIndexNode>,
    pub meta_offset: u64,
}

impl TsFileMetadata {
    /// The metadata of a file whose index has the root `metadata_index` and
    /// whose separator stands at `meta_offset`.
    pub fn new(metadata_index: Option<MetadataIndexNode>, meta_offset: u64) -> (metadata:
        TsFileMetadata)
        ensures
            metadata.metadata_index == metadata_index,
            metadata.meta_offset == meta_offset,
    {
        TsFileMetadata { metadata_index, meta_offset }
    }

    /// The root of the index, if there is one.
    pub open spec fn root(&self) -> Option<crate::metadata_index::IndexNode> {
        match self.metadata_index {
            Some(node) => Some(node@),
            None => None,
        }
    }

    /// Appends the bytes of the metadata to `file`.
    pub fn serialize(&self, file: &mut Vec<u8>)
        requires
            match self.metadata_index {
                Some(node) => crate::metadata_index::node_storable(node@),
                None => true,
            },
        ensures
            final(file)@ == old(file)@ + file_metadata_bytes(self.root(), self.meta_offset),
    {
        let ghost start = file@;
        match &self.metadata_index {
            Some(index) => {
                index.serialize(file);
            },
            None => {
                write_u32_be(0, file);
            },
        }
        write_u64_be(self.meta_offset, file);
        assert(file@ =~= start + file_metadata_bytes(self.root(), self.meta_offset));
    }
}

fn build_footer(
    metadata: &TsFileMetadata,
    config: &TsFileConfig,
    paths: &Vec<PathEntry>,
) -> (footer: Vec<u8>)
    requires
        config.wf(),
        metadata.metadata_index is Some,
        crate::metadata_index::node_storable(metadata.metadata_index.unwrap()@),
        forall|k: int| 0 <= k < paths@.len() ==> path_storable((#[trigger] paths@[k])@),
    ensures
        footer@ == footer_bytes(
            metadata.metadata_index.unwrap()@,
            metadata.meta_offset,
            *config,
            path_names(paths_view(paths@)),
        ),
{
    let mut footer: Vec<u8> = Vec::new();
    metadata.serialize(&mut footer);
    assert(footer@ =~= file_metadata_bytes(metadata.root(), metadata.meta_offset));
    let mut names: Vec<Vec<u8>> = Vec::new();
    let mut i: usize = 0;
    while i < paths.len()
        invariant
            i <= paths@.len(),
            names@.len() == i,
            forall|k: int| 0 <= k < paths@.len() ==> path_storable((#[trigger] paths@[k])@),
            forall|k: int| 0 <= k < i ==> (#[trigger] names@[k])@ == paths@[k]@.path,
        decreases paths@.len() - i,
    {
        names.push(copy_name(&paths[i].path));
        i = i + 1;
    }
    proof {
        assert forall|k: int| 0 <= k < names@.len() implies (#[trigger] names@[k])@.len()
            <= i32::MAX by {
            assert(path_storable(paths@[k]@));
        }
        assert(Seq::new(names@.len(), |k: int| names@[k]@) =~= path_names(paths_view(paths@)));
    }
    let bloom_filter = BloomFilter::build(&names, config);
    bloom_filter.serialize(&mut footer);
    proof {
        assert(footer@ =~= footer_bytes(
            metadata.metadata_index.unwrap()@,
            metadata.meta_offset,
            *config,
            path_names(paths_view(paths@)),
        ));
    }
    footer
}

/// The root of the index of a file whose chunk groups are `groups`, and
/// the bytes written to get there, from the place `start` of the file.
pub open spec fn index_of_groups(groups: Seq<GroupMeta>, config: TsFileConfig, start: int) -> (
    crate::metadata_index::IndexNode,
    Seq<u8>,
) {
    constructed(
        devices_of(paths_of(groups), paths_of(groups).len() as int),
        start,
        config.max_degree_of_index_node as int,
    )
}

/// Writes the metadata of the series of a file with the index over it,
/// and returns the root of the index and the series.
fn write_index(out: &mut Vec<u8>, groups: &Vec<ChunkGroupMetadata>, config: &TsFileConfig) -> (made: (
    MetadataIndexNode,
    Vec<PathEntry>,
))
    requires
        config.wf(),
        forall|i: int| 0 <= i < groups@.len() ==> group_storable((#[trigger] groups@[i])@),
    ensures
        made.0@ == index_of_groups(groups_view(groups@), *config, old(out)@.len() as int).0,
        final(out)@ == old(out)@ + index_of_groups(
            groups_view(groups@),
            *config,
            old(out)@.len() as int,
        ).1,
        crate::metadata_index::node_storable(made.0@),
        paths_view(made.1@) == paths_of(groups_view(groups@)),
        forall|i: int| 0 <= i < made.1@.len() ==> path_storable((#[trigger] made.1@[i])@),
{
    let paths = collect_paths(groups);
    let map = build_series_map(&paths);
    proof {
        lemma_series_map_ready(&map);
        assert(paths_view(paths@).len() == paths@.len());
    }
    let root = MetadataIndexNode::construct_metadata_index(
        &map,
        out,
        config.max_degree_of_index_node,
    );
    (root, paths)
}

/// Writes the end of a file behind its chunk groups.
fn write_file_tail(out: &mut Vec<u8>, groups: &Vec<ChunkGroupMetadata>, config: &TsFileConfig)
    requires
        config.wf(),
        forall|i: int| 0 <= i < groups@.len() ==> group_storable((#[trigger] groups@[i])@),
    ensures
        final(out)@ == old(out)@ + file_tail(groups_view(groups@), *config, old(out)@.len() as int),
{
    let ghost start = out@;
    let meta_offset = out.len() as u64;
    out.push(SEPARATOR);
    let ghost before_index = out@;
    let made = write_index(out, groups, config);
    let ghost index = index_of_groups(groups_view(groups@), *config, before_index.len() as int);
    let ts_file_metadata = TsFileMetadata::new(Some(made.0), meta_offset);
    let footer = build_footer(&ts_file_metadata, config, &made.1);
    let size_of_footer = low_u32(footer.len());
    write_bytes(footer.as_slice(), out);
    write_u32_be(size_of_footer, out);
    write_magic_string(out);
    proof {
        lemma_file_tail(start, index.1, footer@, out@);
    }
}

/// The end of a file is what is written piece by piece.
proof fn lemma_file_tail(start: Seq<u8>, index: Seq<u8>, footer: Seq<u8>, out: Seq<u8>)
    requires
        out == start.push(SEPARATOR) + index + footer + be_bytes_u32(
            low_u32_of(footer.len() as int),
        ) + magic_string(),
    ensures
        out == start + tail_bytes(index, footer),
{
    assert(out =~= start + tail_bytes(index, footer));
}

/// The end of a file from the bytes of its index and of what follows the
/// index.
pub open spec fn tail_bytes(index: Seq<u8>, footer: Seq<u8>) -> Seq<u8> {
    seq![SEPARATOR] + index + footer + be_bytes_u32(low_u32_of(footer.len() as int)) + magic_string()
}

} // verus!
