use tsfile_writer::schema::{DeviceBuilder, TsFileSchemaBuilder};
use tsfile_writer::sorted_map::{bytes_standing, SortedMap, Standing};
use tsfile_writer::{CompressionType, MeasurementSchema, Schema, TSDataType, TSEncoding};

#[test]
fn schema_use_fluent_builder() {
    let schema = TsFileSchemaBuilder::new()
        .add(
            "d1",
            DeviceBuilder::new()
                .add(
                    "s1",
                    TSDataType::INT32,
                    TSEncoding::PLAIN,
                    CompressionType::UNCOMPRESSED,
                )
                .add(
                    "s2",
                    TSDataType::INT32,
                    TSEncoding::PLAIN,
                    CompressionType::UNCOMPRESSED,
                )
                .build(),
        )
        .build();

    assert_eq!(schema.measurement_groups.len(), 1);
    assert_eq!(
        schema
            .measurement_groups
            .get("d1")
            .unwrap()
            .measurement_schemas
            .len(),
        2
    );
}

#[test]
fn builder_keeps_names_in_order_and_the_last_declaration() {
    let schema = TsFileSchemaBuilder::new()
        .add(
            "root.sg.d2",
            DeviceBuilder::new()
                .add(
                    "s2",
                    TSDataType::INT32,
                    TSEncoding::PLAIN,
                    CompressionType::UNCOMPRESSED,
                )
                .add(
                    "s10",
                    TSDataType::INT64,
                    TSEncoding::TS2DIFF,
                    CompressionType::UNCOMPRESSED,
                )
                .add(
                    "s2",
                    TSDataType::DOUBLE,
                    TSEncoding::PLAIN,
                    CompressionType::SNAPPY,
                )
                .build(),
        )
        .add(
            "root.sg.d1",
            DeviceBuilder::new()
                .add(
                    "s1",
                    TSDataType::FLOAT,
                    TSEncoding::PLAIN,
                    CompressionType::UNCOMPRESSED,
                )
                .build(),
        )
        .build();
    assert_eq!(
        schema.measurement_groups.keys,
        vec![b"root.sg.d1".to_vec(), b"root.sg.d2".to_vec()]
    );
    let second = schema.measurement_groups.get("root.sg.d2").unwrap();
    assert_eq!(
        second.measurement_schemas.keys,
        vec![b"s10".to_vec(), b"s2".to_vec()]
    );
    assert_eq!(
        second.measurement_schemas.get("s2"),
        Some(&MeasurementSchema::new(
            TSDataType::DOUBLE,
            TSEncoding::PLAIN,
            CompressionType::SNAPPY
        ))
    );
    assert!(schema.measurement_groups.get("root.sg.d3").is_none());
}

#[test]
fn simple_schema_has_one_series() {
    let schema = Schema::simple(
        "d1",
        "s",
        TSDataType::INT64,
        TSEncoding::PLAIN,
        CompressionType::UNCOMPRESSED,
    );
    assert_eq!(schema.measurement_groups.len(), 1);
    let group = schema.measurement_groups.get("d1").unwrap();
    assert_eq!(group.measurement_schemas.len(), 1);
    assert_eq!(
        group.measurement_schemas.get("s").unwrap().data_type,
        TSDataType::INT64
    );
}

#[test]
fn byte_strings_are_ordered_like_words() {
    assert!(matches!(bytes_standing(b"", b""), Standing::Same));
    assert!(matches!(bytes_standing(b"", b"a"), Standing::Before));
    assert!(matches!(bytes_standing(b"a", b""), Standing::After));
    assert!(matches!(bytes_standing(b"ab", b"abc"), Standing::Before));
    assert!(matches!(bytes_standing(b"abd", b"abc"), Standing::After));
    assert!(matches!(bytes_standing(b"s10", b"s2"), Standing::Before));
    assert!(matches!(bytes_standing(b"s2", b"s2"), Standing::Same));
}

#[test]
fn sorted_map_inserts_and_replaces() {
    let mut map: SortedMap<u32> = SortedMap::new();
    assert!(map.is_empty());
    map.insert("b", 2);
    map.insert("a", 1);
    map.insert("c", 3);
    map.insert("b", 20);
    assert_eq!(map.len(), 3);
    assert_eq!(map.keys, vec![b"a".to_vec(), b"b".to_vec(), b"c".to_vec()]);
    assert_eq!(map.values, vec![1, 20, 3]);
    assert_eq!(map.position(b"c"), Some(2));
    assert_eq!(map.position(b"d"), None);
    assert_eq!(map.get("b"), Some(&20));
}
