use tsfile_writer::group_writer::DataPoint;
use tsfile_writer::schema::{DeviceBuilder, TsFileSchemaBuilder};
use tsfile_writer::sorted_map::SortedMap;
use tsfile_writer::ts_file_config::TsFileConfig;
use tsfile_writer::tsfile_writer::TsFileWriter;
use tsfile_writer::{
    write_file_3, CompressionType, IoTDBValue, MeasurementGroup, MeasurementSchema, Schema, TSDataType,
    TSEncoding, TsFileError,
};

#[test]
fn it_works() {
    let result = 2 + 2;
    assert_eq!(result, 4);
}

#[test]
fn write_file_test_4() {
    let expectation = [
        0x54, 0x73, 0x46, 0x69, 0x6C, 0x65, 0x03, 0x00, 0x04, 0x64, 0x31, 0x05, 0x04, 0x73, 0x31,
        0x20, 0x01, 0x00, 0x00, 0x1E, 0x1E, 0x1A, 0x00, 0x00, 0x00, 0x02, 0x00, 0x00, 0x00, 0x07,
        0x00, 0x00, 0x00, 0x00, 0x00, 0x00, 0x00, 0x09, 0x00, 0x00, 0x00, 0x00, 0x00, 0x00, 0x00,
        0x01, 0x01, 0x44, 0x1A, 0x1C, 0x1E, 2, 0, 4, 115, 49, 1, 8, 3, 0, 0, 0, 0, 0, 0, 0, 1, 0,
        0, 0, 0, 0, 0, 0, 100, 0, 0, 0, 13, 0, 0, 0, 15, 0, 0, 0, 13, 0, 0, 0, 15, 0, 0, 0, 0, 0,
        0, 0, 42, 0, 0, 0, 0, 0, 0, 0, 11, 1, 4, 115, 49, 0, 0, 0, 0, 0, 0, 0, 52, 0, 0, 0, 0, 0,
        0, 0, 107, 3, 1, 4, 100, 49, 0, 0, 0, 0, 0, 0, 0, 107, 0, 0, 0, 0, 0, 0, 0, 128, 1, 0, 0,
        0, 0, 0, 0, 0, 51, 32, 4, 0, 0, 0, 0, 0, 0, 0, 0, 0, 0, 0, 0, 0, 1, 0, 1, 0, 0, 8, 0, 0,
        0, 0, 0, 0, 0, 0, 0, 0, 2, 0, 128, 2, 5, 0, 0, 0, 65, 84, 115, 70, 105, 108, 101,
    ];

    let measurement_schema = MeasurementSchema::new(
        TSDataType::INT32,
        TSEncoding::PLAIN,
        CompressionType::UNCOMPRESSED,
    );

    let mut measurement_schema_map = SortedMap::new();
    measurement_schema_map.insert("s1", measurement_schema);
    let measurement_group = MeasurementGroup {
        measurement_schemas: measurement_schema_map,
    };
    let mut measurement_groups_map = SortedMap::new();
    measurement_groups_map.insert("d1", measurement_group);
    let schema = Schema {
        measurement_groups: measurement_groups_map,
    };
    let mut writer = TsFileWriter::new(schema, TsFileConfig::default()).unwrap();

    writer.write("d1", "s1", 1, IoTDBValue::INT(13)).unwrap();
    writer.write("d1", "s1", 10, IoTDBValue::INT(14)).unwrap();
    writer.write("d1", "s1", 100, IoTDBValue::INT(15)).unwrap();

    writer.close().unwrap();

    assert_eq!(writer.bytes().as_slice(), expectation);
    assert_eq!(writer.bytes().len(), 203);
}

#[test]
fn write_file_5() {
    let schema = TsFileSchemaBuilder::new()
        .add(
            "d1",
            DeviceBuilder::new()
                .add(
                    "s1",
                    TSDataType::INT32,
                    TSEncoding::PLAIN,
                    CompressionType::UNCOMPRESSED,
                )
                .add(
                    "s2",
                    TSDataType::INT32,
                    TSEncoding::PLAIN,
                    CompressionType::UNCOMPRESSED,
                )
                .build(),
        )
        .build();

    let mut writer = TsFileWriter::new(schema, TsFileConfig::default()).unwrap();

    for i in 0..100 {
        writer.write("d1", "s1", i, IoTDBValue::INT(i as i32)).unwrap();
        writer.write("d1", "s2", i, IoTDBValue::INT(i as i32)).unwrap();
    }

    writer.close().unwrap();
    let bytes = writer.bytes();
    assert_eq!(&bytes[0..7], b"TsFile\x03");
    assert_eq!(&bytes[bytes.len() - 6..], b"TsFile");
}

#[test]
fn write_i64() {
    let schema = TsFileSchemaBuilder::new()
        .add(
            "d1",
            DeviceBuilder::new()
                .add(
                    "s1",
                    TSDataType::INT64,
                    TSEncoding::PLAIN,
                    CompressionType::UNCOMPRESSED,
                )
                .build(),
        )
        .build();

    let mut writer = TsFileWriter::new(schema, TsFileConfig::default()).unwrap();

    let result = writer.write("d1", "s1", 0, IoTDBValue::LONG(0));

    match result {
        Ok(_) => {}
        Err(_) => {
            assert!(false);
        }
    }

    writer.close().unwrap();
}

#[test]
fn write_float() {
    let schema = TsFileSchemaBuilder::new()
        .add(
            "d1",
            DeviceBuilder::new()
                .add(
                    "s1",
                    TSDataType::FLOAT,
                    TSEncoding::PLAIN,
                    CompressionType::UNCOMPRESSED,
                )
                .build(),
        )
        .build();

    let mut writer = TsFileWriter::new(schema, TsFileConfig::default()).unwrap();

    let result = writer.write("d1", "s1", 0, IoTDBValue::FLOAT(3.141f32.to_bits()));

    match result {
        Ok(_) => {}
        Err(_) => {
            assert!(false);
        }
    }

    writer.close().unwrap();
}

#[test]
fn out_of_order_data_is_rejected() {
    let schema = Schema::simple(
        "d1",
        "s1",
        TSDataType::INT64,
        TSEncoding::PLAIN,
        CompressionType::UNCOMPRESSED,
    );
    let mut writer = TsFileWriter::new(schema, TsFileConfig::default()).unwrap();
    assert_eq!(writer.write("d1", "s1", 10, IoTDBValue::LONG(1)), Ok(()));
    assert_eq!(
        writer.write("d1", "s1", 10, IoTDBValue::LONG(2)),
        Err(TsFileError::OutOfOrderData)
    );
    assert_eq!(
        writer.write("d1", "s1", 5, IoTDBValue::LONG(0)),
        Err(TsFileError::OutOfOrderData)
    );
    assert_eq!(writer.write("d1", "s1", 11, IoTDBValue::LONG(3)), Ok(()));
}

#[test]
fn wrong_type_is_rejected() {
    let schema = Schema::simple(
        "d1",
        "s1_int32",
        TSDataType::INT32,
        TSEncoding::PLAIN,
        CompressionType::UNCOMPRESSED,
    );
    let mut writer = TsFileWriter::new(schema, TsFileConfig::default()).unwrap();
    assert_eq!(
        writer.write("d1", "s1_int32", 0, IoTDBValue::FLOAT(0.0f32.to_bits())),
        Err(TsFileError::WrongTypeForSeries)
    );
}

#[test]
fn unknown_series_is_rejected() {
    let schema = Schema::simple(
        "d1",
        "s1",
        TSDataType::INT32,
        TSEncoding::PLAIN,
        CompressionType::UNCOMPRESSED,
    );
    let mut writer = TsFileWriter::new(schema, TsFileConfig::default()).unwrap();
    assert!(matches!(
        writer.write("d2", "s1", 0, IoTDBValue::INT(0)),
        Err(TsFileError::IllegalState { .. })
    ));
    assert!(matches!(
        writer.write("d1", "s2", 0, IoTDBValue::INT(0)),
        Err(TsFileError::IllegalState { .. })
    ));
}

#[test]
fn unsupported_encoding_is_rejected() {
    let schema = Schema::simple(
        "d1",
        "s1",
        TSDataType::FLOAT,
        TSEncoding::TS2DIFF,
        CompressionType::UNCOMPRESSED,
    );
    let mut writer = TsFileWriter::new(schema, TsFileConfig::default()).unwrap();
    assert_eq!(
        writer.write("d1", "s1", 0, IoTDBValue::FLOAT(1.0f32.to_bits())),
        Err(TsFileError::Encoding)
    );
}

#[test]
fn invalid_configuration_is_rejected() {
    let schema = Schema::simple(
        "d1",
        "s1",
        TSDataType::INT32,
        TSEncoding::PLAIN,
        CompressionType::UNCOMPRESSED,
    );
    let mut config = TsFileConfig::default();
    config.max_degree_of_index_node = 1;
    assert!(matches!(
        TsFileWriter::new(schema, config),
        Err(TsFileError::Error { .. })
    ));
}

#[test]
fn write_many_stops_at_the_first_refusal() {
    let schema = TsFileSchemaBuilder::new()
        .add(
            "d1",
            DeviceBuilder::new()
                .add(
                    "s1",
                    TSDataType::INT64,
                    TSEncoding::PLAIN,
                    CompressionType::UNCOMPRESSED,
                )
                .add(
                    "s2",
                    TSDataType::FLOAT,
                    TSEncoding::PLAIN,
                    CompressionType::UNCOMPRESSED,
                )
                .build(),
        )
        .build();
    let mut writer = TsFileWriter::new(schema, TsFileConfig::default()).unwrap();
    assert_eq!(
        writer.write_many(
            "d1",
            1,
            vec![
                DataPoint::new("s1", IoTDBValue::LONG(13)),
                DataPoint::new("s2", IoTDBValue::FLOAT(13.0f32.to_bits())),
            ],
        ),
        Ok(())
    );
    assert_eq!(
        writer.write_many(
            "d1",
            2,
            vec![
                DataPoint::new("s1", IoTDBValue::LONG(14)),
                DataPoint::new("s2", IoTDBValue::LONG(14)),
            ],
        ),
        Err(TsFileError::WrongTypeForSeries)
    );
    assert_eq!(
        writer.write("d1", "s1", 2, IoTDBValue::LONG(15)),
        Err(TsFileError::OutOfOrderData)
    );
}

#[test]
fn same_input_gives_the_same_bytes() {
    let run = || {
        let schema = TsFileSchemaBuilder::new()
            .add(
                "d2",
                DeviceBuilder::new()
                    .add(
                        "s2",
                        TSDataType::DOUBLE,
                        TSEncoding::PLAIN,
                        CompressionType::UNCOMPRESSED,
                    )
                    .add(
                        "s1",
                        TSDataType::INT64,
                        TSEncoding::TS2DIFF,
                        CompressionType::SNAPPY,
                    )
                    .build(),
            )
            .add(
                "d1",
                DeviceBuilder::new()
                    .add(
                        "s1",
                        TSDataType::INT32,
                        TSEncoding::TS2DIFF,
                        CompressionType::UNCOMPRESSED,
                    )
                    .build(),
            )
            .build();
        let mut writer = TsFileWriter::new(schema, TsFileConfig::default()).unwrap();
        for i in 0..300i64 {
            writer.write("d2", "s1", i, IoTDBValue::LONG(i * i)).unwrap();
            writer
                .write("d2", "s2", i, IoTDBValue::DOUBLE((i as f64 * 0.5).to_bits()))
                .unwrap();
            writer.write("d1", "s1", i, IoTDBValue::INT(7 - i as i32)).unwrap();
        }
        writer.close().unwrap();
        writer.bytes().clone()
    };
    let first = run();
    let second = run();
    assert_eq!(first, second);
    let d1 = first.windows(4).position(|w| w == [0x00, 0x04, b'd', b'1']).unwrap();
    let d2 = first.windows(4).position(|w| w == [0x00, 0x04, b'd', b'2']).unwrap();
    assert!(d1 < d2);
}

#[test]
fn write_file_test_3() {
    let file = write_file_3();
    assert_eq!(&file[0..7], b"TsFile\x03");
    assert_eq!(&file[file.len() - 6..], b"TsFile");
    assert_eq!(
        &file[7..21],
        [0x00, 0x04, b'd', b'1', 0x05, 0x04, b's', b'1', 39, 0x01, 0x00, 0x00, 37, 37]
    );
    assert_eq!(
        &file[21..53],
        [
            31, 0, 0, 0, 4, 0, 0, 0, 14, 0, 0, 0, 0, 0, 0, 0, 9, 0, 0, 0, 0, 0, 0, 0, 1, 0x00,
            0x00, 0x05, 0x10, 0xDE, 0xE3, 0x1F
        ]
    );
    assert_eq!(&file[53..58], [0x1A, 0x1C, 0x1E, 0x20, 0x22]);
    assert_eq!(file[58], 0x02);
}

#[test]
fn schema_that_no_file_can_have_is_rejected() {
    let no_series = Schema {
        measurement_groups: {
            let mut groups = SortedMap::new();
            groups.insert(
                "d1",
                MeasurementGroup {
                    measurement_schemas: SortedMap::new(),
                },
            );
            groups
        },
    };
    assert!(!no_series.is_well_formed());
    assert!(matches!(
        TsFileWriter::new(no_series, TsFileConfig::default()),
        Err(TsFileError::Error { .. })
    ));
    let mut unsorted = Schema::simple(
        "d1",
        "s1",
        TSDataType::INT32,
        TSEncoding::PLAIN,
        CompressionType::UNCOMPRESSED,
    );
    assert!(unsorted.is_well_formed());
    let group = unsorted.measurement_groups.values[0].clone();
    unsorted.measurement_groups.keys.push(b"d0".to_vec());
    unsorted.measurement_groups.values.push(group);
    assert!(!unsorted.is_well_formed());
    assert!(matches!(
        TsFileWriter::new(unsorted, TsFileConfig::default()),
        Err(TsFileError::Error { .. })
    ));
    let dotted = Schema {
        measurement_groups: {
            let mut series = SortedMap::new();
            series.insert(
                "s.1",
                MeasurementSchema::new(
                    TSDataType::INT32,
                    TSEncoding::PLAIN,
                    CompressionType::UNCOMPRESSED,
                ),
            );
            let mut groups = SortedMap::new();
            groups.insert(
                "d1",
                MeasurementGroup {
                    measurement_schemas: series,
                },
            );
            groups
        },
    };
    assert!(!dotted.is_well_formed());
    assert!(tsfile_writer::is_valid_device_id(b"root.sg.d1"));
    assert!(!tsfile_writer::is_valid_device_id(b""));
    assert!(!tsfile_writer::is_valid_device_id(&[b'a'; 254]));
    assert!(tsfile_writer::is_valid_measurement_id(&[b'a'; 253]));
    assert!(!tsfile_writer::is_valid_measurement_id(b"a.b"));
}

#[test]
fn errors_are_equal_when_kind_and_text_are() {
    assert_eq!(TsFileError::WriteError, TsFileError::WriteError);
    assert_eq!(TsFileError::Compression, TsFileError::Compression);
    assert_ne!(TsFileError::Compression, TsFileError::Encoding);
    assert_eq!(
        TsFileError::Error {
            source: Some("a".to_string())
        },
        TsFileError::Error {
            source: Some("a".to_string())
        }
    );
    assert_ne!(
        TsFileError::Error {
            source: Some("a".to_string())
        },
        TsFileError::Error { source: None }
    );
    assert_ne!(
        TsFileError::Error { source: None },
        TsFileError::IllegalState { source: None }
    );
    assert_eq!(
        TsFileError::IllegalState { source: None },
        TsFileError::IllegalState { source: None }
    );
}
