use tsfile_writer::metadata_index::{
    chunk_entries, MetadataIndexEntry, MetadataIndexNode, MetadataIndexNodeType,
    TimeSeriesMetadata,
};
use tsfile_writer::schema::{DeviceBuilder, TsFileSchemaBuilder};
use tsfile_writer::sorted_map::SortedMap;
use tsfile_writer::statistics::Statistics;
use tsfile_writer::ts_file_config::TsFileConfig;
use tsfile_writer::tsfile_io_writer::{ChunkGroupHeader, TsFileIoWriter, TsFileMetadata};
use tsfile_writer::tsfile_writer::TsFileWriter;
use tsfile_writer::utils::read_var_u32;
use tsfile_writer::{
    write_str, CompressionType, IoTDBValue, Schema, TSDataType, TSEncoding, TsFileError,
};

fn read_var(bytes: &[u8], at: &mut usize) -> u32 {
    let decoded = read_var_u32(&bytes[*at..]).unwrap();
    *at += decoded.1;
    decoded.0
}

fn read_i64(bytes: &[u8], at: &mut usize) -> i64 {
    let value = i64::from_be_bytes(bytes[*at..*at + 8].try_into().unwrap());
    *at += 8;
    value
}

fn read_name(bytes: &[u8], at: &mut usize) -> String {
    let length = bytes[*at] as usize - 2;
    *at += 1;
    let name = String::from_utf8(bytes[*at..*at + length].to_vec()).unwrap();
    *at += length;
    name
}

struct Node {
    children: Vec<(String, i64)>,
    end_offset: i64,
    kind: u8,
}

fn read_node(bytes: &[u8], at: &mut usize) -> Node {
    let count = read_var(bytes, at);
    let mut children = vec![];
    for _ in 0..count {
        let name = read_name(bytes, at);
        let offset = read_i64(bytes, at);
        children.push((name, offset));
    }
    let end_offset = read_i64(bytes, at);
    let kind = bytes[*at];
    *at += 1;
    Node {
        children,
        end_offset,
        kind,
    }
}

struct Series {
    kind: u8,
    name: String,
    data_type: u8,
    count: u32,
    sum: i64,
    offsets: Vec<i64>,
    chunk_counts: Vec<u32>,
}

fn read_int_statistics(bytes: &[u8], at: &mut usize, value_size: usize) -> (u32, i64) {
    let count = read_var(bytes, at);
    *at += 16 + 4 * value_size;
    let sum = read_i64(bytes, at);
    (count, sum)
}

fn read_series(bytes: &[u8], at: &mut usize) -> Series {
    let kind = bytes[*at];
    *at += 1;
    let name = read_name(bytes, at);
    let data_type = bytes[*at];
    *at += 1;
    let list_size = read_var(bytes, at) as usize;
    let value_size = if data_type == 1 { 4 } else { 8 };
    let (count, sum) = read_int_statistics(bytes, at, value_size);
    let end = *at + list_size;
    let mut offsets = vec![];
    let mut chunk_counts = vec![];
    while *at < end {
        offsets.push(read_i64(bytes, at));
        if kind & 1 == 1 {
            chunk_counts.push(read_int_statistics(bytes, at, value_size).0);
        }
    }
    assert_eq!(*at, end);
    Series {
        kind,
        name,
        data_type,
        count,
        sum,
        offsets,
        chunk_counts,
    }
}

fn footer_start(file: &[u8]) -> usize {
    assert_eq!(&file[file.len() - 6..], b"TsFile");
    let size = u32::from_be_bytes(file[file.len() - 10..file.len() - 6].try_into().unwrap());
    file.len() - 10 - size as usize
}

fn leaves_of(file: &[u8], node: &Node) -> Vec<(String, i64)> {
    if node.kind == 3 {
        return node.children.clone();
    }
    let mut found = vec![];
    for (i, (name, offset)) in node.children.iter().enumerate() {
        let mut at = *offset as usize;
        let child = read_node(file, &mut at);
        assert_eq!(&child.children[0].0, name);
        assert!(child.kind == 2 || child.kind == 3);
        let next = if i + 1 < node.children.len() {
            node.children[i + 1].1
        } else {
            node.end_offset
        };
        assert_eq!(at as i64, next);
        found.extend(leaves_of(file, &child));
    }
    found
}

#[test]
fn names_are_stored_behind_their_length_raised_by_two() {
    let mut bytes: Vec<u8> = vec![];
    write_str(&mut bytes, b"d1");
    write_str(&mut bytes, b"");
    write_str(&mut bytes, &[b'x'; 253]);
    assert_eq!(&bytes[..5], [4, b'd', b'1', 2, 255]);
    assert_eq!(bytes.len(), 3 + 1 + 254);
    let mut bytes: Vec<u8> = vec![];
    ChunkGroupHeader::new(b"root.d1").serialize(&mut bytes);
    assert_eq!(bytes, [0, 9, b'r', b'o', b'o', b't', b'.', b'd', b'1']);
}

#[test]
fn node_bytes_are_count_entries_end_and_kind() {
    let mut node = MetadataIndexNode::new(MetadataIndexNodeType::InternalMeasurement);
    assert!(!node.is_full(2));
    node.children.push(MetadataIndexEntry {
        name: b"s1".to_vec(),
        offset: 52,
    });
    node.children.push(MetadataIndexEntry {
        name: b"s9".to_vec(),
        offset: 0x0102_0304,
    });
    node.end_offset = 107;
    assert!(node.is_full(2));
    let mut bytes: Vec<u8> = vec![];
    node.serialize(&mut bytes);
    assert_eq!(
        bytes,
        [
            2, 4, b's', b'1', 0, 0, 0, 0, 0, 0, 0, 52, 4, b's', b'9', 0, 0, 0, 0, 1, 2, 3, 4, 0,
            0, 0, 0, 0, 0, 0, 107, 2
        ]
    );
    let mut bytes: Vec<u8> = vec![];
    for kind in [
        MetadataIndexNodeType::InternalDevice,
        MetadataIndexNodeType::LeafDevice,
        MetadataIndexNodeType::InternalMeasurement,
        MetadataIndexNodeType::LeafMeasurement,
    ] {
        kind.serialize(&mut bytes);
    }
    assert_eq!(bytes, [0, 1, 2, 3]);
}

#[test]
fn file_metadata_without_root_is_four_zero_bytes() {
    let mut bytes: Vec<u8> = vec![];
    TsFileMetadata::new(None, 51).serialize(&mut bytes);
    assert_eq!(bytes, [0, 0, 0, 0, 0, 0, 0, 0, 0, 0, 0, 51]);
    let mut bytes: Vec<u8> = vec![];
    let root = MetadataIndexNode::new(MetadataIndexNodeType::LeafDevice);
    TsFileMetadata::new(Some(root), 7).serialize(&mut bytes);
    assert_eq!(bytes, [0, 0, 0, 0, 0, 0, 0, 0, 0, 1, 0, 0, 0, 0, 0, 0, 0, 7]);
}

#[test]
fn entries_are_chunked_into_nodes_of_the_degree() {
    let entries: Vec<MetadataIndexEntry> = (0..7u64)
        .map(|i| MetadataIndexEntry {
            name: vec![b'a' + i as u8],
            offset: 100 + 10 * i,
        })
        .collect();
    let nodes = chunk_entries(&entries, 999, MetadataIndexNodeType::LeafMeasurement, 3);
    assert_eq!(nodes.len(), 3);
    let sizes: Vec<usize> = nodes.iter().map(|n| n.children.len()).collect();
    assert_eq!(sizes, [3, 3, 1]);
    let ends: Vec<u64> = nodes.iter().map(|n| n.end_offset).collect();
    assert_eq!(ends, [130, 160, 999]);
    assert_eq!(nodes[1].children[0].name, b"d");
    assert_eq!(nodes[2].children[0].offset, 160);
    let nodes = chunk_entries(&entries[..3].to_vec_entries(), 5, MetadataIndexNodeType::LeafDevice, 3);
    assert_eq!(nodes.len(), 1);
    assert_eq!(nodes[0].end_offset, 5);
    let nodes = chunk_entries(&vec![], 5, MetadataIndexNodeType::LeafDevice, 3);
    assert_eq!(nodes.len(), 1);
    assert!(nodes[0].children.is_empty());
}

trait ToEntries {
    fn to_vec_entries(&self) -> Vec<MetadataIndexEntry>;
}

impl ToEntries for [MetadataIndexEntry] {
    fn to_vec_entries(&self) -> Vec<MetadataIndexEntry> {
        self.iter()
            .map(|e| MetadataIndexEntry {
                name: e.name.clone(),
                offset: e.offset,
            })
            .collect()
    }
}

fn series(name: &str) -> TimeSeriesMetadata {
    TimeSeriesMetadata {
        time_series_metadata_type: 0,
        chunk_meta_data_list_data_size: 8,
        measurement_id: name.as_bytes().to_vec(),
        data_type: TSDataType::INT32,
        statistics: Statistics::new(TSDataType::INT32),
        buffer: vec![0, 0, 0, 0, 0, 0, 0, 11],
    }
}

#[test]
fn series_metadata_bytes() {
    let mut bytes: Vec<u8> = vec![];
    series("s1").serialize(&mut bytes);
    assert_eq!(&bytes[..6], [0, 4, b's', b'1', 1, 8]);
    assert_eq!(bytes.len(), 6 + 41 + 8);
    assert_eq!(series("s1").get_measurement_id(), b"s1");
}

#[test]
fn index_tree_points_at_what_was_written() {
    let mut map: SortedMap<Vec<TimeSeriesMetadata>> = SortedMap::new();
    map.insert("d2", (0..5).map(|i| series(&format!("s{}", i))).collect());
    map.insert("d1", vec![series("a"), series("b")]);
    map.insert("d0", vec![]);
    map.insert("d3", (0..9).map(|i| series(&format!("t{}", i))).collect());
    let mut file: Vec<u8> = vec![0xEE; 13];
    let root = MetadataIndexNode::construct_metadata_index(&map, &mut file, 2);
    assert!(matches!(root.node_type, MetadataIndexNodeType::InternalDevice));
    assert_eq!(root.end_offset, file.len() as u64);
    assert_eq!(root.children.len(), 2);
    assert_eq!(root.children[0].name, b"d1");
    assert_eq!(root.children[1].name, b"d3");
    let mut devices = vec![];
    for entry in &root.children {
        let mut at = entry.offset as usize;
        let leaf = read_node(&file, &mut at);
        assert_eq!(leaf.kind, 1);
        assert_eq!(leaf.children[0].0.as_bytes(), entry.name);
        devices.extend(leaf.children);
    }
    let names: Vec<&str> = devices.iter().map(|d| d.0.as_str()).collect();
    assert_eq!(names, ["d1", "d2", "d3"]);
    let mut expected_next = 13;
    for (device, offset) in &devices {
        let mut at = *offset as usize;
        let device_root = read_node(&file, &mut at);
        let leaves = leaves_of(&file, &device_root);
        let expected: Vec<String> = match device.as_str() {
            "d1" => vec!["a".into(), "b".into()],
            "d2" => (0..5).map(|i| format!("s{}", i)).collect(),
            _ => (0..9).map(|i| format!("t{}", i)).collect(),
        };
        let found: Vec<String> = leaves.iter().map(|l| l.0.clone()).collect();
        assert_eq!(found, expected);
        assert_eq!(leaves[0].1, expected_next);
        for (name, place) in &leaves {
            let mut at = *place as usize;
            let read = read_series(&file, &mut at);
            assert_eq!(&read.name, name);
            expected_next = at as i64;
        }
        expected_next = match device.as_str() {
            "d1" => {
                assert_eq!(device_root.kind, 3);
                expected_next
            }
            _ => device_root.end_offset,
        };
    }
}

#[test]
fn single_leaf_is_the_root_of_its_device() {
    let mut map: SortedMap<Vec<TimeSeriesMetadata>> = SortedMap::new();
    map.insert("d1", vec![series("s1")]);
    let mut file: Vec<u8> = vec![];
    let root = MetadataIndexNode::construct_metadata_index(&map, &mut file, 256);
    assert!(matches!(root.node_type, MetadataIndexNodeType::LeafDevice));
    assert_eq!(root.children.len(), 1);
    assert_eq!(root.children[0].offset, 55);
    assert_eq!(root.end_offset, file.len() as u64);
    let mut at = 55;
    let leaf = read_node(&file, &mut at);
    assert_eq!(leaf.kind, 3);
    assert_eq!(leaf.children, [("s1".to_string(), 0)]);
    assert_eq!(leaf.end_offset, 55);
    assert_eq!(at, file.len());
    let empty: SortedMap<Vec<TimeSeriesMetadata>> = SortedMap::new();
    let mut file: Vec<u8> = vec![1, 2, 3];
    let root = MetadataIndexNode::construct_metadata_index(&empty, &mut file, 256);
    assert!(root.children.is_empty());
    assert_eq!(root.end_offset, 3);
    assert_eq!(file, [1, 2, 3]);
}

#[test]
fn closing_a_fresh_writer_gives_an_empty_index() {
    let schema = Schema::simple(
        "d1",
        "s1",
        TSDataType::INT32,
        TSEncoding::PLAIN,
        CompressionType::UNCOMPRESSED,
    );
    let mut writer = TsFileWriter::new(schema, TsFileConfig::default()).unwrap();
    assert_eq!(writer.bytes().as_slice(), b"TsFile\x03");
    assert_eq!(writer.flush_all_chunk_groups(), Ok(true));
    assert_eq!(writer.bytes().as_slice(), b"TsFile\x03");
    writer.close().unwrap();
    let file = writer.bytes().clone();
    assert_eq!(file[7], 0x02);
    let start = footer_start(&file);
    assert_eq!(start, 8);
    let mut at = start;
    let root = read_node(&file, &mut at);
    assert_eq!(root.kind, 1);
    assert!(root.children.is_empty());
    assert_eq!(root.end_offset, 8);
    assert_eq!(read_i64(&file, &mut at), 7);
    assert_eq!(read_var(&file, &mut at), 32);
    assert_eq!(&file[at..at + 32], [0u8; 32]);
}

#[test]
fn two_devices_two_measurements_bulk() {
    let device = || {
        DeviceBuilder::new()
            .add(
                "s1",
                TSDataType::INT64,
                TSEncoding::TS2DIFF,
                CompressionType::UNCOMPRESSED,
            )
            .add(
                "s2",
                TSDataType::FLOAT,
                TSEncoding::PLAIN,
                CompressionType::UNCOMPRESSED,
            )
            .build()
    };
    let schema = TsFileSchemaBuilder::new()
        .add("d1", device())
        .add("d2", device())
        .build();
    let mut writer = TsFileWriter::new(schema, TsFileConfig::default()).unwrap();
    for i in 0..100000i64 {
        writer.write("d1", "s1", i, IoTDBValue::LONG(i)).unwrap();
        writer
            .write("d1", "s2", i, IoTDBValue::FLOAT((i as f32).to_bits()))
            .unwrap();
        writer.write("d2", "s1", i, IoTDBValue::LONG(i)).unwrap();
        writer
            .write("d2", "s2", i, IoTDBValue::FLOAT((i as f32).to_bits()))
            .unwrap();
    }
    writer.close().unwrap();
    let file = writer.bytes().clone();
    let mut at = footer_start(&file);
    let root = read_node(&file, &mut at);
    assert_eq!(root.kind, 1);
    let names: Vec<&str> = root.children.iter().map(|c| c.0.as_str()).collect();
    assert_eq!(names, ["d1", "d2"]);
    assert_eq!(root.end_offset as usize, footer_start(&file));
    for (_, offset) in &root.children {
        let mut at = *offset as usize;
        let device_root = read_node(&file, &mut at);
        let leaves = leaves_of(&file, &device_root);
        let found: Vec<&str> = leaves.iter().map(|l| l.0.as_str()).collect();
        assert_eq!(found, ["s1", "s2"]);
        let mut at = leaves[0].1 as usize;
        let series = read_series(&file, &mut at);
        assert_eq!(series.name, "s1");
        assert_eq!(series.data_type, 2);
        assert_eq!(series.kind, 0);
        assert_eq!(series.count, 100000);
        assert_eq!(series.sum, 99999 * 100000 / 2);
        assert_eq!(series.offsets.len(), 1);
        assert_eq!(file[series.offsets[0] as usize], 0x05);
        assert_eq!(at as i64, leaves[1].1);
    }
}

#[test]
fn series_flushed_twice_has_two_chunks_and_merged_statistics() {
    let schema = Schema::simple(
        "d1",
        "s1",
        TSDataType::INT64,
        TSEncoding::PLAIN,
        CompressionType::UNCOMPRESSED,
    );
    let mut writer = TsFileWriter::new(schema, TsFileConfig::default()).unwrap();
    for i in 0..10i64 {
        writer.write("d1", "s1", i, IoTDBValue::LONG(i)).unwrap();
    }
    assert_eq!(writer.flush_all_chunk_groups(), Ok(true));
    let first_length = writer.bytes().len();
    assert_eq!(writer.write("d1", "s1", 3, IoTDBValue::LONG(100)), Ok(()));
    for i in 11..15i64 {
        writer.write("d1", "s1", i, IoTDBValue::LONG(i)).unwrap();
    }
    writer.close().unwrap();
    let file = writer.bytes().clone();
    let mut at = footer_start(&file);
    let root = read_node(&file, &mut at);
    assert_eq!(root.children.len(), 1);
    let mut at = root.children[0].1 as usize;
    let leaf = read_node(&file, &mut at);
    assert_eq!(leaf.kind, 3);
    let mut at = leaf.children[0].1 as usize;
    let series = read_series(&file, &mut at);
    assert_eq!(series.kind, 1);
    assert_eq!(series.offsets, [11, first_length as i64 + 4]);
    assert_eq!(series.chunk_counts, [10, 5]);
    assert_eq!(series.count, 15);
    assert_eq!(series.sum, 45 + 100 + 11 + 12 + 13 + 14);
    assert_eq!(file[11], 0x05);
    assert_eq!(file[first_length], 0x00);
    assert_eq!(file[first_length + 4], 0x05);
}

#[test]
fn long_name_makes_the_reckoned_size_differ() {
    let name = "m".repeat(64);
    let schema = Schema::simple(
        "d1",
        &name,
        TSDataType::INT32,
        TSEncoding::PLAIN,
        CompressionType::UNCOMPRESSED,
    );
    let mut writer = TsFileWriter::new(schema, TsFileConfig::default()).unwrap();
    writer.write("d1", &name, 1, IoTDBValue::INT(1)).unwrap();
    assert!(matches!(
        writer.close(),
        Err(TsFileError::IllegalState { .. })
    ));
}

#[test]
fn io_writer_keeps_groups_that_have_chunks() {
    let mut io = TsFileIoWriter::new(TsFileConfig::default());
    assert_eq!(io.get_position(), 7);
    io.end_chunk_group();
    io.start_chunk_group(b"d1");
    assert_eq!(&io.out[7..], [0, 4, b'd', b'1']);
    io.end_chunk_group();
    assert!(io.chunk_group_metadata_list.is_empty());
    assert_eq!(io.current_chunk_group_device_id, Some(b"d1".to_vec()));
    io.start_flush_chunk(
        b"s1",
        CompressionType::UNCOMPRESSED,
        TSDataType::INT32,
        TSEncoding::PLAIN,
        Statistics::new(TSDataType::INT32),
        2,
        1,
        0,
    );
    io.write_chunk_data(&[0xAA, 0xBB]);
    io.end_current_chunk();
    assert!(io.current_chunk_metadata.is_none());
    assert_eq!(io.chunk_metadata_list.len(), 1);
    io.end_chunk_group();
    assert_eq!(io.chunk_group_metadata_list.len(), 1);
    assert!(io.chunk_metadata_list.is_empty());
    assert_eq!(io.current_chunk_group_device_id, None);
    assert_eq!(
        &io.out[11..],
        [0x05, 4, b's', b'1', 2, 1, 0, 0, 0xAA, 0xBB]
    );
    let before = io.out.len();
    io.end_file();
    assert_eq!(io.out[before], 0x02);
    assert_eq!(&io.out[io.out.len() - 6..], b"TsFile");
}

#[test]
fn memory_over_the_threshold_writes_the_chunk_groups_out() {
    let schema = Schema::simple(
        "d1",
        "s",
        TSDataType::INT64,
        TSEncoding::PLAIN,
        CompressionType::UNCOMPRESSED,
    );
    let mut writer = TsFileWriter::new(schema, TsFileConfig::default()).unwrap();
    let mut flushed_after: i64 = 0;
    let mut i: i64 = 0;
    while flushed_after == 0 && i < 30_000_000 {
        writer.write("d1", "s", i, IoTDBValue::LONG(i)).unwrap();
        i += 1;
        if writer.bytes().len() > 7 {
            flushed_after = i;
        }
    }
    assert_eq!(flushed_after, 16378918);
    let first_length = writer.bytes().len();
    assert_eq!(first_length, 134217417);
    for k in i..i + 1000 {
        writer.write("d1", "s", k, IoTDBValue::LONG(k)).unwrap();
    }
    let total = i + 1000;
    writer.close().unwrap();
    let file = writer.bytes();
    let mut at = footer_start(file);
    let root = read_node(file, &mut at);
    assert_eq!(root.children.len(), 1);
    let mut at = root.children[0].1 as usize;
    let leaf = read_node(file, &mut at);
    assert_eq!(leaf.children.len(), 1);
    let mut at = leaf.children[0].1 as usize;
    let series = read_series(file, &mut at);
    assert_eq!(series.kind, 1);
    assert_eq!(series.offsets, [11, 134217421]);
    assert_eq!(series.chunk_counts, [flushed_after as u32, 1000]);
    assert_eq!(series.count as i64, total);
    assert_eq!(series.sum, (total - 1) * total / 2);
    assert_eq!(file[11], 0x01);
    assert_eq!(file[first_length], 0x00);
    assert_eq!(file[first_length + 4], 0x05);
}
