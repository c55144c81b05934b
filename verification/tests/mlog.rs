use std::ops::Deref;
use tsfile_writer::mlog::{write_mlog, MLog};
use tsfile_writer::{CompressionType, TSDataType, TSEncoding};

#[test]
fn test_write_mlog_set_sg() {
    let expected = [
        0x00, 0x00, 0x00, 0x14, 0x03, 0x00, 0x00, 0x00, 0x07, 0x72, 0x6F, 0x6F, 0x74, 0x2E, 0x73,
        0x67, 0x00, 0x00, 0x00, 0x00, 0x00, 0x00, 0x00, 0x00, 0x00, 0x00, 0x00, 0x00, 0xD6, 0x4F,
        0xBD, 0x17,
    ];

    let mut m_log = MLog::new();
    m_log.set_storage_group_plan("root.sg").unwrap();

    let mut mlog_buffer: Vec<u8> = vec![];

    m_log.flush(&mut mlog_buffer).unwrap();

    assert_eq!(expected, mlog_buffer.deref());
}

#[test]
fn test_write_mlog_create_ts() {
    let expected = [
        00, 0x00, 0x00, 0x29, 0x04, 0x00, 0x00, 0x00, 0x0D, 0x72, 0x6F, 0x6F, 0x74, 0x2E, 0x73,
        0x67, 0x2E, 0x64, 0x31, 0x2E, 0x73, 0x31, 0x01, 0x00, 0x00, 0xFF, 0xFF, 0xFF, 0xFF, 0xFF,
        0xFF, 0xFF, 0xFF, 0x00, 0x00, 0x00, 0x00, 0x00, 0x00, 0x00, 0x00, 0x00, 0x00, 0x00, 0x00,
        0x00, 0x00, 0x00, 0x00, 0x4E, 0xF4, 0xB9, 0x3D,
    ];

    let mut m_log = MLog::new();
    m_log
        .create_plan(
            "root.sg.d1.s1",
            TSDataType::INT32,
            TSEncoding::PLAIN,
            CompressionType::UNCOMPRESSED,
        )
        .unwrap();

    let mut mlog_buffer: Vec<u8> = vec![];

    m_log.flush(&mut mlog_buffer).unwrap();

    assert_eq!(expected, mlog_buffer.deref());
}

#[test]
fn test_write_mlog() {
    let expected = [
        00, 0x00, 0x00, 0x14, 0x03, 0x00, 0x00, 0x00, 0x07, 0x72, 0x6F, 0x6F, 0x74, 0x2E, 0x73,
        0x67, 0x00, 0x00, 0x00, 0x00, 0x00, 0x00, 0x00, 0x00, 0x00, 0x00, 0x00, 0x00, 0xD6, 0x4F,
        0xBD, 0x17, 0x00, 0x00, 0x00, 0x29, 0x04, 0x00, 0x00, 0x00, 0x0D, 0x72, 0x6F, 0x6F, 0x74,
        0x2E, 0x73, 0x67, 0x2E, 0x64, 0x31, 0x2E, 0x73, 0x31, 0x01, 0x00, 0x00, 0xFF, 0xFF, 0xFF,
        0xFF, 0xFF, 0xFF, 0xFF, 0xFF, 0x00, 0x00, 0x00, 0x00, 0x00, 0x00, 0x00, 0x00, 0x00, 0x00,
        0x00, 0x00, 0x00, 0x00, 0x00, 0x00, 0x4E, 0xF4, 0xB9, 0x3D,
    ];

    let mut m_log = MLog::new();
    let mut mlog_buffer: Vec<u8> = vec![];

    m_log.set_storage_group_plan("root.sg").unwrap();
    m_log.flush(&mut mlog_buffer).unwrap();

    m_log
        .create_plan(
            "root.sg.d1.s1",
            TSDataType::INT32,
            TSEncoding::PLAIN,
            CompressionType::UNCOMPRESSED,
        )
        .unwrap();
    m_log.flush(&mut mlog_buffer).unwrap();

    assert_eq!(expected, mlog_buffer.deref());
    assert_eq!(write_mlog(), expected);
}

#[test]
fn flushing_an_empty_log_frames_nothing() {
    let mut m_log = MLog::new();
    let mut mlog_buffer: Vec<u8> = vec![0xAA];
    assert_eq!(m_log.flush(&mut mlog_buffer), Ok(0));
    assert_eq!(mlog_buffer, [0xAA, 0, 0, 0, 0, 0, 0, 0, 0, 0, 0, 0, 0]);
}
