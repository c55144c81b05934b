use tsfile_writer::chunk_writer::{ChunkHeader, ChunkMetadata, ChunkWriter, PageWriter};
use tsfile_writer::encoding::plain::PlainEncoder;
use tsfile_writer::encoding::time_encoder::{IntTs2DiffEncoder, LongTs2DiffEncoder, TimeEncoder};
use tsfile_writer::encoding::Encoder;
use tsfile_writer::group_writer::{DataPoint, GroupWriter};
use tsfile_writer::schema::DeviceBuilder;
use tsfile_writer::statistics::Statistics;
use tsfile_writer::ts_file_config::TsFileConfig;
use tsfile_writer::tsfile_io_writer::TsFileIoWriter;
use tsfile_writer::utils::{read_var_u32, size_var_u32};
use tsfile_writer::{CompressionType, IoTDBValue, TSDataType, TSEncoding, TsFileError};

fn read_var(bytes: &[u8], at: &mut usize) -> u32 {
    let decoded = read_var_u32(&bytes[*at..]).unwrap();
    *at += decoded.1;
    decoded.0
}

fn pages_length(chunk_size: u64) -> u64 {
    if chunk_size == 0 {
        return 0;
    }
    for size_bytes in 1..=5u64 {
        let pages = chunk_size - 6 - size_bytes;
        if size_var_u32(pages as u32) as u64 == size_bytes {
            return pages;
        }
    }
    panic!("no length fits");
}

fn read_u32(bytes: &[u8], at: &mut usize) -> u32 {
    let value = u32::from_be_bytes(bytes[*at..*at + 4].try_into().unwrap());
    *at += 4;
    value
}

fn read_i64(bytes: &[u8], at: &mut usize) -> i64 {
    let value = i64::from_be_bytes(bytes[*at..*at + 8].try_into().unwrap());
    *at += 8;
    value
}

fn unpack(bytes: &[u8], pos: usize, width: usize) -> u64 {
    let mut value: u64 = 0;
    for k in 0..width {
        let j = pos + k;
        let bit = (bytes[j / 8] >> (7 - j % 8)) & 1;
        value = (value << 1) | bit as u64;
    }
    value
}

fn decode_long_blocks(bytes: &[u8]) -> Vec<(u32, Vec<i64>)> {
    let mut at = 0;
    let mut blocks = vec![];
    while at < bytes.len() {
        let count = read_u32(bytes, &mut at);
        let width = read_u32(bytes, &mut at) as usize;
        let min_delta = read_i64(bytes, &mut at);
        let first = read_i64(bytes, &mut at);
        let packed = &bytes[at..at + (count as usize * width + 7) / 8];
        let mut values = vec![first];
        for i in 0..count as usize {
            let delta = (unpack(packed, i * width, width) as i64).wrapping_add(min_delta);
            values.push(values[i].wrapping_add(delta));
        }
        at += packed.len();
        blocks.push((count, values));
    }
    blocks
}

#[test]
fn a_block_closes_after_128_deltas() {
    let timestamps: Vec<i64> = (1..=129).map(|i| i * 1000).collect();
    let mut encoder = TimeEncoder::new();
    for t in &timestamps {
        encoder.encode(*t);
    }
    assert_eq!(encoder.size(), 24);
    assert_eq!(encoder.get_max_byte_size(), 24);
    let mut bytes: Vec<u8> = vec![];
    encoder.serialize(&mut bytes);
    assert_eq!(bytes.len(), 24);
    let blocks = decode_long_blocks(&bytes);
    assert_eq!(blocks.len(), 1);
    assert_eq!(blocks[0].0, 128);
    assert_eq!(blocks[0].1, timestamps);
    assert_eq!(&bytes[4..8], [0, 0, 0, 0]);
    assert_eq!(&bytes[8..16], 1000i64.to_be_bytes());
    assert_eq!(&bytes[16..24], 1000i64.to_be_bytes());
}

#[test]
fn a_value_after_a_full_block_opens_a_block_of_its_own() {
    let timestamps: Vec<i64> = (1..=130).map(|i| i * 1000).collect();
    let mut encoder = LongTs2DiffEncoder::new();
    for t in &timestamps {
        encoder.write(&IoTDBValue::LONG(*t)).unwrap();
    }
    assert_eq!(encoder.size(), 24);
    let mut bytes: Vec<u8> = vec![];
    encoder.serialize(&mut bytes);
    let blocks = decode_long_blocks(&bytes);
    assert_eq!(blocks.len(), 2);
    assert_eq!(blocks[0].0, 128);
    assert_eq!(blocks[0].1, &timestamps[..129]);
    assert_eq!(blocks[1].0, 0);
    assert_eq!(blocks[1].1, [130000]);
    assert_eq!(&bytes[24..32], [0, 0, 0, 0, 0, 0, 0, 0]);
    assert_eq!(&bytes[32..40], i64::MAX.to_be_bytes());
    assert_eq!(&bytes[40..48], 130000i64.to_be_bytes());
    assert_eq!(encoder.size(), 48);
}

#[test]
fn uneven_deltas_round_trip() {
    let values: Vec<i64> = (0..1000i64)
        .map(|i| (i * i * 7919) % 100_003 - 50_000 + i * 1_000_000_007)
        .collect();
    let mut encoder = LongTs2DiffEncoder::new();
    for v in &values {
        encoder.encode(*v);
    }
    let mut bytes: Vec<u8> = vec![];
    encoder.serialize(&mut bytes);
    let decoded: Vec<i64> = decode_long_blocks(&bytes)
        .into_iter()
        .flat_map(|block| block.1)
        .collect();
    assert_eq!(decoded, values);
    encoder.reset();
    assert_eq!(encoder.size(), 0);
    let mut bytes: Vec<u8> = vec![];
    encoder.serialize(&mut bytes);
    assert!(bytes.is_empty());
}

#[test]
fn int_encoder_packs_32_bit_deltas() {
    let mut encoder = IntTs2DiffEncoder::new();
    for v in [10, 12, 11, 20] {
        encoder.write(&IoTDBValue::INT(v)).unwrap();
    }
    assert_eq!(encoder.get_max_byte_size(), 24 + 3 * 4);
    assert_eq!(
        encoder.write(&IoTDBValue::LONG(1)),
        Err(TsFileError::WrongTypeForSeries)
    );
    let mut bytes: Vec<u8> = vec![];
    encoder.serialize(&mut bytes);
    assert_eq!(
        bytes,
        [0, 0, 0, 3, 0, 0, 0, 4, 0xFF, 0xFF, 0xFF, 0xFF, 0, 0, 0, 10, 0b0011_0000, 0b1010_0000]
    );
}

#[test]
fn plain_encoder_writes_each_type_plainly() {
    let mut ints = PlainEncoder::new(TSDataType::INT32);
    ints.write(&IoTDBValue::INT(13)).unwrap();
    ints.write(&IoTDBValue::INT(-1)).unwrap();
    assert_eq!(ints.size(), 2);
    assert_eq!(ints.get_max_byte_size(), 26);
    assert_eq!(
        ints.write(&IoTDBValue::LONG(13)),
        Err(TsFileError::WrongTypeForSeries)
    );
    let mut bytes: Vec<u8> = vec![];
    ints.serialize(&mut bytes);
    assert_eq!(bytes, [0x1A, 0x01]);

    let mut longs = PlainEncoder::new(TSDataType::INT64);
    longs.write(&IoTDBValue::LONG(-2)).unwrap();
    assert_eq!(longs.get_max_byte_size(), 0);
    let mut bytes: Vec<u8> = vec![];
    longs.serialize(&mut bytes);
    assert_eq!(bytes, (-2i64).to_be_bytes());

    let mut floats = PlainEncoder::new(TSDataType::FLOAT);
    floats.write(&IoTDBValue::FLOAT(3.141f32.to_bits())).unwrap();
    let mut bytes: Vec<u8> = vec![];
    floats.serialize(&mut bytes);
    assert_eq!(bytes, 3.141f32.to_be_bytes());

    let mut doubles = PlainEncoder::new(TSDataType::DOUBLE);
    doubles.write(&IoTDBValue::DOUBLE(2.5f64.to_bits())).unwrap();
    let mut bytes: Vec<u8> = vec![];
    doubles.serialize(&mut bytes);
    assert_eq!(bytes, 2.5f64.to_be_bytes());
    doubles.reset();
    assert_eq!(doubles.size(), 0);
}

#[test]
fn encoders_exist_for_plain_and_for_integer_deltas() {
    for data_type in [
        TSDataType::INT32,
        TSDataType::INT64,
        TSDataType::FLOAT,
        TSDataType::DOUBLE,
    ] {
        assert!(Encoder::new(data_type, TSEncoding::PLAIN).is_ok());
    }
    assert!(Encoder::new(TSDataType::INT32, TSEncoding::TS2DIFF).is_ok());
    assert!(Encoder::new(TSDataType::INT64, TSEncoding::TS2DIFF).is_ok());
    assert!(matches!(
        Encoder::new(TSDataType::FLOAT, TSEncoding::TS2DIFF),
        Err(TsFileError::Encoding)
    ));
    assert!(matches!(
        Encoder::new(TSDataType::DOUBLE, TSEncoding::TS2DIFF),
        Err(TsFileError::Encoding)
    ));
    assert!(matches!(
        PageWriter::new(TSDataType::DOUBLE, TSEncoding::TS2DIFF),
        Err(TsFileError::Encoding)
    ));
}

#[test]
fn tags_round_trip() {
    assert_eq!(TSDataType::INT32.serialize(), 1);
    assert_eq!(TSDataType::INT64.serialize(), 2);
    assert_eq!(TSDataType::FLOAT.serialize(), 3);
    assert_eq!(TSDataType::DOUBLE.serialize(), 4);
    assert_eq!(TSEncoding::PLAIN.serialize(), 0);
    assert_eq!(TSEncoding::TS2DIFF.serialize(), 4);
    assert_eq!(TSEncoding::try_from(4), Ok(TSEncoding::TS2DIFF));
    assert_eq!(TSEncoding::try_from(0), Ok(TSEncoding::PLAIN));
    assert_eq!(TSEncoding::try_from(1), Err(()));
    assert_eq!(CompressionType::UNCOMPRESSED.serialize(), 0);
    assert_eq!(CompressionType::SNAPPY.serialize(), 1);
    assert_eq!(CompressionType::try_from(1), Ok(CompressionType::SNAPPY));
    assert_eq!(CompressionType::try_from(2), Err(()));
    assert_eq!(IoTDBValue::FLOAT(0).data_type(), TSDataType::FLOAT);
    assert_eq!(IoTDBValue::DOUBLE(0).data_type(), TSDataType::DOUBLE);
}

#[test]
fn page_payload_is_times_then_values() {
    let mut page = PageWriter::new(TSDataType::INT32, TSEncoding::PLAIN).unwrap();
    assert_eq!(page.write(1, &IoTDBValue::INT(13)), Ok(1));
    assert_eq!(page.write(10, &IoTDBValue::INT(14)), Ok(1));
    assert_eq!(page.write(100, &IoTDBValue::INT(15)), Ok(1));
    assert_eq!(
        page.write(101, &IoTDBValue::LONG(15)),
        Err(TsFileError::WrongTypeForSeries)
    );
    assert_eq!(page.estimate_max_mem_size(), 0 + 3 + (24 + 2 * 8) + (24 + 3));
    page.prepare_buffer();
    page.reset();
    assert_eq!(page.estimate_max_mem_size(), 24 + 24);
}

#[test]
fn single_page_chunk_has_no_page_statistics() {
    let mut chunk = ChunkWriter::new(
        "s1",
        TSDataType::INT32,
        CompressionType::UNCOMPRESSED,
        TSEncoding::PLAIN,
    );
    assert_eq!(chunk.estimate_max_series_mem_size(), 0);
    assert_eq!(chunk.write(1, IoTDBValue::INT(13)), Ok(1));
    assert_eq!(chunk.write(10, IoTDBValue::INT(14)), Ok(1));
    assert_eq!(chunk.write(100, IoTDBValue::INT(15)), Ok(1));
    assert_eq!(
        chunk.write(101, IoTDBValue::FLOAT(0)),
        Err(TsFileError::WrongTypeForSeries)
    );
    assert_eq!(chunk.get_serialized_chunk_size(), 0);
    assert_eq!(
        chunk.estimate_max_series_mem_size(),
        0 + (3 + 40 + 27) + 10 + 41
    );
    chunk.seal_current_page();
    assert_eq!(chunk.statistics().count(), 3);
    assert_eq!(chunk.get_serialized_chunk_size(), 1 + 1 + 2 + 1 + 3 + 32);
    let mut io = TsFileIoWriter::new(TsFileConfig::default());
    io.start_chunk_group(b"d1");
    chunk.write_to_file_writer(&mut io);
    io.end_chunk_group();
    assert_eq!(
        &io.out[7..],
        [
            0x00, 0x04, 0x64, 0x31, 0x05, 0x04, 0x73, 0x31, 0x20, 0x01, 0x00, 0x00, 0x1E, 0x1E,
            0x1A, 0x00, 0x00, 0x00, 0x02, 0x00, 0x00, 0x00, 0x07, 0x00, 0x00, 0x00, 0x00, 0x00,
            0x00, 0x00, 0x09, 0x00, 0x00, 0x00, 0x00, 0x00, 0x00, 0x00, 0x01, 0x01, 0x44, 0x1A,
            0x1C, 0x1E
        ]
    );
    assert_eq!(io.chunk_group_metadata_list.len(), 1);
    assert_eq!(io.chunk_group_metadata_list[0].device_id, b"d1");
    let kept = &io.chunk_group_metadata_list[0].chunk_metadata[0];
    assert_eq!(kept.measurement_id, b"s1");
    assert_eq!(kept.offset_of_chunk_header, 11);
    assert_eq!(kept.statistics.count(), 3);
    assert_eq!(chunk.statistics().count(), 0);
    assert_eq!(chunk.get_serialized_chunk_size(), 0);
}

#[test]
fn second_page_puts_statistics_into_the_first() {
    let mut chunk = ChunkWriter::new(
        "s",
        TSDataType::INT64,
        CompressionType::UNCOMPRESSED,
        TSEncoding::PLAIN,
    );
    let mut sealed_at = 0;
    for i in 0..10000i64 {
        assert_eq!(chunk.write(i, IoTDBValue::LONG(i)), Ok(1));
        if sealed_at == 0 && chunk.statistics().count() != 0 {
            sealed_at = i + 1;
        }
    }
    assert_eq!(sealed_at, 7989);
    assert_eq!(chunk.statistics().count(), 7989);
    let mut single = TsFileIoWriter::new(TsFileConfig::default());
    let mut first_page_only = ChunkWriter::new(
        "s",
        TSDataType::INT64,
        CompressionType::UNCOMPRESSED,
        TSEncoding::PLAIN,
    );
    for i in 0..7988i64 {
        first_page_only.write(i, IoTDBValue::LONG(i)).unwrap();
    }
    first_page_only.write_to_file_writer(&mut single);
    let single_bytes = &single.out[7..];
    assert_eq!(single_bytes[0], 0x05);

    let mut io = TsFileIoWriter::new(TsFileConfig::default());
    chunk.write_to_file_writer(&mut io);
    let bytes = &io.out[7..];
    assert_eq!(bytes[0], 0x01);
    assert_eq!(&bytes[1..3], [3, b's']);
    let mut at = 3;
    let data_size = read_var(bytes, &mut at) as usize;
    assert_eq!(&bytes[at..at + 3], [2, 0, 0]);
    at += 3;
    assert_eq!(bytes.len(), at + data_size);
    let mut counts = vec![];
    let mut firsts = vec![];
    while at < bytes.len() {
        let uncompressed = read_var(bytes, &mut at) as usize;
        let compressed = read_var(bytes, &mut at) as usize;
        assert_eq!(uncompressed, compressed);
        let count = read_var(bytes, &mut at);
        let ts_first = read_i64(bytes, &mut at);
        let ts_last = read_i64(bytes, &mut at);
        let min = read_i64(bytes, &mut at);
        let max = read_i64(bytes, &mut at);
        let first = read_i64(bytes, &mut at);
        let last = read_i64(bytes, &mut at);
        let sum = read_i64(bytes, &mut at);
        assert_eq!((ts_first, ts_last), (min, max));
        assert_eq!((first, last), (min, max));
        assert_eq!(max - min + 1, count as i64);
        assert_eq!(sum, (min + max) * count as i64 / 2);
        let payload = &bytes[at..at + uncompressed];
        let mut inside = 0;
        let time_length = read_var(payload, &mut inside) as usize;
        let times: Vec<i64> = decode_long_blocks(&payload[inside..inside + time_length])
            .into_iter()
            .flat_map(|block| block.1)
            .collect();
        assert_eq!(times, (min..=max).collect::<Vec<i64>>());
        assert_eq!(payload.len(), inside + time_length + 8 * count as usize);
        at += uncompressed;
        counts.push(count);
        firsts.push(min);
    }
    assert_eq!(counts, [7989, 2011]);
    assert_eq!(firsts, [0, 7989]);
    let kept = &io.chunk_metadata_list[0];
    match kept.statistics {
        Statistics::INT64(s) => {
            assert_eq!(s.count, 10000);
            assert_eq!(s.sum_value, 9999 * 10000 / 2);
            assert_eq!((s.ts_first, s.ts_last), (0, 9999));
            assert_eq!((s.min_value, s.max_value), (0, 9999));
        }
        _ => panic!("wrong kind of statistics"),
    }
}

#[test]
fn next_look_at_the_page_is_reckoned_in_single_precision() {
    let mut chunk = ChunkWriter::new(
        "s",
        TSDataType::INT32,
        CompressionType::UNCOMPRESSED,
        TSEncoding::PLAIN,
    );
    let mut next_check: u32 = 7989;
    let mut points: u32 = 0;
    let mut sealed: Vec<u32> = vec![];
    let mut looks = 0;
    for i in 0..200_000i64 {
        chunk.write(i * 3, IoTDBValue::INT((i % 50) as i32)).unwrap();
        points += 1;
        let expected_count: u32 = sealed.iter().sum();
        if points >= next_check {
            looks += 1;
            if chunk.statistics().count() != expected_count {
                assert_eq!(chunk.statistics().count(), expected_count + points);
                sealed.push(points);
                points = 0;
                next_check = 1500;
            } else {
                let size = chunk.estimate_max_series_mem_size()
                    - 10
                    - (size_var_u32(points) as u64 + 16 + 24)
                    - pages_length(chunk.get_serialized_chunk_size());
                assert!(size <= 65536);
                next_check = ((65536 as f32) / (size as f32) * (points as f32)) as u32;
            }
        } else {
            assert_eq!(chunk.statistics().count(), expected_count);
        }
    }
    assert!(looks > 10);
    assert!(sealed.len() >= 3);
}

#[test]
fn chunk_header_and_metadata_bytes() {
    let header = ChunkHeader::new(
        b"s1",
        300,
        TSDataType::DOUBLE,
        CompressionType::SNAPPY,
        TSEncoding::PLAIN,
        2,
        0x40,
    );
    let mut bytes: Vec<u8> = vec![];
    header.serialize(&mut bytes);
    assert_eq!(bytes, [0x41, 4, b's', b'1', 0xAC, 0x02, 4, 1, 0]);
    let header = ChunkHeader::new(
        b"temp",
        0,
        TSDataType::INT32,
        CompressionType::UNCOMPRESSED,
        TSEncoding::TS2DIFF,
        0,
        0,
    );
    let mut bytes: Vec<u8> = vec![];
    header.serialize(&mut bytes);
    assert_eq!(bytes, [0x05, 6, b't', b'e', b'm', b'p', 0, 1, 0, 4]);

    let mut statistics = Statistics::new(TSDataType::INT32);
    statistics.update(4, &IoTDBValue::INT(9));
    let metadata = ChunkMetadata::new(b"s1", TSDataType::INT32, 0x0102, statistics, 0);
    let mut bytes: Vec<u8> = vec![];
    metadata.serialize(&mut bytes, false);
    assert_eq!(bytes, [0, 0, 0, 0, 0, 0, 1, 2]);
    metadata.serialize(&mut bytes, true);
    assert_eq!(bytes.len(), 8 + 8 + 41);
    assert_eq!(bytes[16], 1);
}

#[test]
fn group_writer_checks_series_and_time() {
    let group = DeviceBuilder::new()
        .add(
            "s2",
            TSDataType::FLOAT,
            TSEncoding::PLAIN,
            CompressionType::UNCOMPRESSED,
        )
        .add(
            "s1",
            TSDataType::INT64,
            TSEncoding::TS2DIFF,
            CompressionType::UNCOMPRESSED,
        )
        .build();
    let mut writer = GroupWriter::new(b"d1", &group);
    assert_eq!(writer.get_last_time_map(), [-1, -1]);
    assert_eq!(writer.update_max_group_mem_size(), 0);
    assert!(matches!(
        writer.write("s3", 0, IoTDBValue::LONG(0)),
        Err(TsFileError::IllegalState { .. })
    ));
    assert_eq!(
        writer.write("s1", -1, IoTDBValue::LONG(0)),
        Err(TsFileError::OutOfOrderData)
    );
    assert_eq!(writer.write("s1", 0, IoTDBValue::LONG(7)), Ok(1));
    assert_eq!(
        writer.write("s1", 0, IoTDBValue::LONG(8)),
        Err(TsFileError::OutOfOrderData)
    );
    assert_eq!(writer.write("s2", 0, IoTDBValue::FLOAT(1.0f32.to_bits())), Ok(1));
    assert_eq!(
        writer.write("s2", 5, IoTDBValue::LONG(1)),
        Err(TsFileError::WrongTypeForSeries)
    );
    assert_eq!(writer.get_last_time_map(), [0, 5]);
    assert_eq!(
        writer.write("s2", 5, IoTDBValue::FLOAT(1.0f32.to_bits())),
        Err(TsFileError::OutOfOrderData)
    );
    assert_eq!(
        writer.write_many(
            9,
            vec![
                DataPoint::new("s2", IoTDBValue::FLOAT(2.0f32.to_bits())),
                DataPoint::new("s1", IoTDBValue::LONG(9)),
            ]
        ),
        Ok(2)
    );
    assert_eq!(writer.get_last_time_map(), [9, 9]);
    assert_eq!(
        writer.update_max_group_mem_size(),
        (0 + (24 + 8) + (24 + 8) + 10 + 57) + (0 + 8 + (24 + 8) + 0 + 10 + 57)
    );
    let mut io = TsFileIoWriter::new(TsFileConfig::default());
    io.start_chunk_group(writer.path());
    let before = io.get_position();
    let size = writer.flush_to_filewriter(&mut io);
    assert_eq!(io.get_position() - before, size);
    io.end_chunk_group();
    let chunks = &io.chunk_group_metadata_list[0].chunk_metadata;
    assert_eq!(chunks.len(), 2);
    assert_eq!(chunks[0].measurement_id, b"s1");
    assert_eq!(chunks[1].measurement_id, b"s2");
    assert_eq!(chunks[0].offset_of_chunk_header, before);
    assert_eq!(writer.get_last_time_map(), [9, 9]);
}
