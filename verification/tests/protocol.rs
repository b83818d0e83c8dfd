use rs_melsec::db::{DataType, DeviceConstants};
use rs_melsec::err::{MCError, MelsecError};
use rs_melsec::frame::FrameVariant;
use rs_melsec::session::{Endianness, PlcSeries, Session, WireEncoding};
use rs_melsec::tag::{QueryTag, Tag};

fn session(series: &str, use_e4: bool) -> Session {
    Session::new(series, use_e4).expect("valid series")
}

#[test]
fn test_client_new() {
    let s = session("Q", true);
    assert_eq!(s.plc_type, PlcSeries::Q);
    assert_eq!(s.plc_type.as_str(), "Q");
    assert!(matches!(s.frame, FrameVariant::FourE { .. }));
    assert_eq!(s.comm_type, WireEncoding::Binary);
    assert_eq!(s.endian, Endianness::Little);
    assert_eq!(s.network, 0);
    assert_eq!(s.pc, 0xFF);
    assert_eq!(s.dest_moduleio, 0x3FF);
    assert_eq!(s.dest_modulesta, 0);
    assert_eq!(s.timer, 4);
}

#[test]
fn test_set_subheader_serial() {
    let mut s = session("Q", true);
    let result = s.set_subheader_serial(1234);
    assert!(result.is_ok());
    assert_eq!(s.frame.subheader_serial(), 1234);
}

#[test]
fn test_check_plc_type() {
    assert!(Session::new("Q", true).is_ok());
    assert!(matches!(
        Session::new("InvalidType", true),
        Err(MelsecError::UnsupportedSeries)
    ));
}

#[test]
fn test_set_comm_type() {
    let mut s = session("Q", true);
    s.set_comm_type("binary").unwrap();
    assert_eq!(s.comm_type, WireEncoding::Binary);
    assert_eq!(s.word_size(), 2);

    s.set_comm_type("ascii").unwrap();
    assert_eq!(s.comm_type, WireEncoding::Ascii);
    assert_eq!(s.word_size(), 4);

    assert!(s.set_comm_type("morse").is_err());
}

#[test]
fn test_build_send_data_binary() {
    let s = session("Q", true);
    let request_data = b"test";
    let expected_length = 14;
    let result = s.build_send_data(request_data).unwrap();
    assert_eq!(result.len(), expected_length);
}

#[test]
fn test_encode_value_little_endian() {
    let s = session("Q", true);
    let value = 1234;
    let encoded = s.encode_value(value as i64, DataType::SWORD, false).unwrap();
    let expected = vec![value as u8];
    assert_eq!(encoded, expected);
}

#[test]
fn test_encode_value_big_endian() {
    let s = session("Q", true);
    let value = 1234;
    let encoded = s.encode_value(value as i64, DataType::SWORD, false).unwrap();
    let expected = vec![value as u8];
    assert_eq!(encoded, expected);
}

#[test]
fn test_parse_device_tokens() {
    let (class, index) = rs_melsec::session::parse_device("D100").unwrap();
    assert_eq!(class, "D");
    assert_eq!(index, 100);

    let (class, index) = rs_melsec::session::parse_device("M8304").unwrap();
    assert_eq!(class, "M");
    assert_eq!(index, 8304);

    assert!(matches!(
        rs_melsec::session::parse_device("bad"),
        Err(MelsecError::InvalidDeviceToken)
    ));
    assert!(matches!(
        rs_melsec::session::parse_device("12"),
        Err(MelsecError::InvalidDeviceToken)
    ));
    assert!(rs_melsec::session::parse_device("X1A").is_err());
    assert!(rs_melsec::session::parse_device("D99999999999").is_err());

    assert_eq!(rs_melsec::session::get_device_type("D100").unwrap(), "D");
    assert_eq!(rs_melsec::session::get_device_index("M8304").unwrap(), 8304);
}

#[test]
fn test_resolve_bases() {
    let (code, base) = DeviceConstants::get_binary_device_code("Q", "X").unwrap();
    assert_eq!(code, 0x9C);
    assert_eq!(base, 16);

    let (code, base) = DeviceConstants::get_binary_device_code("Q", "D").unwrap();
    assert_eq!(code, 0xA8);
    assert_eq!(base, 10);

    // iQ-R-only classes resolve only for the iQ-R series.
    assert!(DeviceConstants::get_binary_device_code("iQ-R", "LZ").is_ok());
    assert!(matches!(
        DeviceConstants::get_binary_device_code("Q", "LZ"),
        Err(MelsecError::UnknownDeviceClass)
    ));
    assert!(matches!(
        DeviceConstants::get_binary_device_code("Q", "J"),
        Err(MelsecError::UnknownDeviceClass)
    ));
}

#[test]
fn test_ascii_device_codes() {
    let (code, base) = DeviceConstants::get_ascii_device_code("Q", "STS").unwrap();
    assert_eq!(code, "SS");
    assert_eq!(base, 10);

    let (code, base) = DeviceConstants::get_ascii_device_code("iQ-R", "STS").unwrap();
    assert_eq!(code, "STS*");
    assert_eq!(base, 10);

    let (code, base) = DeviceConstants::get_ascii_device_code("Q", "D").unwrap();
    assert_eq!(code, "D*");
    assert_eq!(base, 16);

    assert!(DeviceConstants::get_ascii_device_code("Q", "LZ").is_err());
    assert_eq!(
        DeviceConstants::get_device_type("Q", "D").unwrap(),
        DeviceConstants::WORD_DEVICE
    );
    assert!(matches!(
        DeviceConstants::get_device_type("Q", "RD"),
        Err(MelsecError::UnsupportedSeries)
    ));
}

#[test]
fn test_device_data_layouts() {
    // Non-iQ-R binary: three little-endian bytes of the number, then the code.
    let s = session("Q", false);
    let d = s.build_device_data("D100").unwrap();
    assert_eq!(d, vec![100, 0, 0, 0xA8]);

    // Hexadecimal addressing: the decimal digits reread in base 16.
    let x = s.build_device_data("X100").unwrap();
    assert_eq!(x, vec![0x00, 0x01, 0, 0x9C]);

    // iQ-R binary: four bytes of the number, then two zero bytes.
    let r = session("iQ-R", false);
    let d = r.build_device_data("D100").unwrap();
    assert_eq!(d, vec![100, 0, 0, 0, 0, 0]);

    // ASCII: the padded class, then six lower-case hex digits.
    let mut a = session("Q", false);
    a.set_comm_type("ascii").unwrap();
    let d = a.build_device_data("D100").unwrap();
    assert_eq!(d, b"D*000100".to_vec());
}

#[test]
fn test_bit_decode_even_odd() {
    // 3E binary: data begins at offset 11.  A response byte 0x10 holds the
    // even element in bit 4 (set) and the odd element in bit 0 (clear).
    let s = session("Q", false);
    let mut recv = vec![0u8; 11];
    recv.push(0x10);
    let tags = s.batch_read_decode(&recv, "M0", 2, &DataType::BIT, true).unwrap();
    assert_eq!(tags.len(), 2);
    assert_eq!(tags[0].device, "M0");
    assert_eq!(tags[0].value.as_deref(), Some("1"));
    assert_eq!(tags[1].device, "M1");
    assert_eq!(tags[1].value.as_deref(), Some("0"));
    assert!(tags[0].is_success());
}

#[test]
fn test_frame_length_field() {
    // 3E binary: subheader (2 bytes), four routing bytes, then the length
    // field, the timer, and the payload.
    let s = session("Q", false);
    for n in 0..32usize {
        let payload = vec![0xABu8; n];
        let frame = s.build_send_data(&payload).unwrap();
        assert_eq!(frame.len(), 2 + 6 + n);
        assert_eq!(frame[2 + 4] as usize, (2 + n) % 256);
    }
}

#[test]
fn test_random_read_expansion() {
    // One width-8 element expands into four consecutive device entries.
    let s = session("Q", false);
    let devices = vec![QueryTag { device: "D0".to_string(), data_type: DataType::DOUBLE }];
    let frame = s.random_read_request(&devices).unwrap().unwrap();
    // head (2) + routing (6) + command (2) + count (1) + zero (1) + 4 entries of 4 bytes
    assert_eq!(frame.len(), 2 + 6 + 2 + 1 + 1 + 16);
    let entries = &frame[12..28];
    assert_eq!(
        entries,
        &[
            0, 0, 0, 0xA8, // D0
            1, 0, 0, 0xA8, // D1
            2, 0, 0, 0xA8, // D2
            3, 0, 0, 0xA8, // D3
        ]
    );
    // The word count covers all four words.
    assert_eq!(frame[10], 4);

    // An empty query list owes no exchange.
    assert!(s.random_read_request(&Vec::new()).unwrap().is_none());
}

#[test]
fn test_status_codes() {
    assert!(MCError::from_status(0x0000).is_ok());

    let err = MCError::from_status(0xC059).unwrap_err();
    assert!(err
        .description()
        .contains("The command and/or subcommand are specified incorrectly"));

    let err = MCError::from_status(0x1234).unwrap_err();
    assert_eq!(err.description(), "0x1234: Unknown error code.");
}

#[test]
fn test_check_command_response() {
    let s = session("Q", false);
    // 3E binary: status at offset 9, two bytes.
    let mut recv = vec![0u8; 11];
    assert!(s.check_command_response(&recv).is_ok());
    recv[9] = 0x59;
    match s.check_command_response(&recv) {
        Err(MelsecError::Protocol(e)) => {
            assert_eq!(e.description(), "0x0059: Unknown error code.");
        },
        other => panic!("expected a protocol error, got {:?}", other),
    }
    // A short buffer is a decode error.
    assert!(matches!(
        s.check_command_response(&[0u8; 5]),
        Err(MelsecError::DecodeError)
    ));
}

#[test]
fn test_end_to_end_batch_read() {
    // An iQ-R session over a 4E frame, binary encoding: build the request,
    // hand back a crafted response, and decode four SWORD tags.
    let s = session("iQ-R", true);
    let request = s.batch_read_request("D100", 4, &DataType::SWORD).unwrap();
    // 4E binary head is 4 bytes; routing 6; command payload 2+6+1.
    assert_eq!(request.len(), 4 + 6 + 2 + 6 + 1);
    // Subcommand for word access on iQ-R is 2.
    assert_eq!(&request[10..12], &[0x01, 0x02]);

    // Response: status (two bytes at offset 13) is zero, data at offset 15.
    let mut recv = vec![0u8; 15];
    for v in [10u8, 20, 30, 40] {
        recv.push(v);
        recv.push(0);
    }
    s.check_command_response(&recv).unwrap();
    let tags = s.batch_read_decode(&recv, "D100", 4, &DataType::SWORD, true).unwrap();
    assert_eq!(tags.len(), 4);
    let expect = [("D100", "10"), ("D101", "20"), ("D102", "30"), ("D103", "40")];
    for (tag, (device, value)) in tags.iter().zip(expect.iter()) {
        assert_eq!(tag.device, *device);
        assert_eq!(tag.value.as_deref(), Some(*value));
        assert_eq!(tag.data_type.as_deref(), Some("h"));
        assert!(tag.is_success());
    }
}

#[test]
fn test_ascii_hex_decode() {
    let mut s = session("Q", false);
    s.set_comm_type("ascii").unwrap();
    // "00ff" denotes the bytes [0x00, 0xff]; read as a little-endian 16-bit
    // value that is 0xff00.
    let v = s.decode_value(b"00ff", &DataType::SDWORD, false).unwrap();
    assert_eq!(v, 0xff00);
    // Malformed hexadecimal text is a decode error.
    assert!(matches!(
        s.decode_value(b"zz", &DataType::SWORD, false),
        Err(MelsecError::DecodeError)
    ));
    // Odd length too.
    assert!(matches!(
        s.decode_value(b"0ff", &DataType::SWORD, false),
        Err(MelsecError::DecodeError)
    ));
}

#[test]
fn test_decode_value_binary() {
    let s = session("Q", false);
    assert_eq!(s.decode_value(&[0x34, 0x12], &DataType::SDWORD, false).unwrap(), 0x1234);
    assert_eq!(s.decode_value(&[0xff, 0xff], &DataType::SDWORD, true).unwrap(), -1);
    assert_eq!(s.decode_value(&[0xab], &DataType::SWORD, false).unwrap(), 0xab);
    // A truncated buffer is a decode error.
    assert!(matches!(
        s.decode_value(&[], &DataType::SWORD, false),
        Err(MelsecError::DecodeError)
    ));
    assert!(matches!(
        s.decode_value(&[1], &DataType::SDWORD, false),
        Err(MelsecError::DecodeError)
    ));
}

#[test]
fn test_codec_round_trip() {
    let s = session("Q", false);
    // Width 4, little endian: the value comes back whole.
    let bytes = s.encode_value(0x1234, DataType::SDWORD, false).unwrap();
    assert_eq!(bytes, vec![0x34, 0x12]);
    assert_eq!(s.decode_value(&bytes, &DataType::SDWORD, false).unwrap(), 0x1234);
    // Width 2: truncation to the low byte.
    let bytes = s.encode_value(0x1234, DataType::SWORD, false).unwrap();
    assert_eq!(s.decode_value(&bytes, &DataType::SWORD, false).unwrap(), 0x34);
    // Width 8 encodes 32 bits but decoding reads 16: 70000 comes back as
    // 70000 mod 65536.
    let bytes = s.encode_value(70000, DataType::DOUBLE, false).unwrap();
    assert_eq!(bytes.len(), 4);
    assert_eq!(s.decode_value(&bytes, &DataType::DOUBLE, false).unwrap(), 70000 % 65536);
    // Big endian at width 4 is not a round trip: decoding reads the two most
    // significant bytes.
    let mut b = session("Q", false);
    b.endian = Endianness::Big;
    let bytes = b.encode_value(1, DataType::SDWORD, false).unwrap();
    assert_eq!(bytes, vec![0, 0, 0, 1]);
    assert_eq!(b.decode_value(&bytes, &DataType::SDWORD, false).unwrap(), 0);
}

#[test]
fn test_native_encode() {
    let mut s = session("Q", false);
    s.endian = Endianness::Native;
    let v: i64 = 0x0102030405060708;
    let bytes = s.encode_value(v, DataType::SDWORD, false).unwrap();
    let le: Vec<u8> = vec![8, 7, 6, 5, 4, 3, 2, 1];
    let be: Vec<u8> = vec![1, 2, 3, 4, 5, 6, 7, 8];
    assert!(bytes == le || bytes == be);
}

#[test]
fn test_batch_read_text_mode() {
    // decode=false returns the literal text found in the buffer.
    let s = session("Q", false);
    let mut recv = vec![0u8; 11];
    recv.extend_from_slice(b"AB");
    let tags = s.batch_read_decode(&recv, "D0", 1, &DataType::SWORD, false).unwrap();
    assert_eq!(tags[0].value.as_deref(), Some("AB"));

    // Bytes that are not UTF-8 are a decode error.
    let mut recv = vec![0u8; 11];
    recv.extend_from_slice(&[0xff, 0xfe]);
    assert!(matches!(
        s.batch_read_decode(&recv, "D0", 1, &DataType::SWORD, false),
        Err(MelsecError::DecodeError)
    ));

    // A short buffer is a decode error; a bad token is a token error.
    assert!(matches!(
        s.batch_read_decode(&[0u8; 4], "D0", 1, &DataType::SWORD, true),
        Err(MelsecError::DecodeError)
    ));
    assert!(matches!(
        s.batch_read_decode(&[0u8; 32], "bad", 1, &DataType::SWORD, true),
        Err(MelsecError::InvalidDeviceToken)
    ));
}

#[test]
fn test_bit_pack_write() {
    // Two boolean values per byte: even at bit 4, odd at bit 0.
    let s = session("Q", false);
    let frame = s
        .batch_write_request("M0", &vec![1, 0, 1, 1], &DataType::BIT)
        .unwrap();
    // head (2) + routing (6) + command (2) + device (4) + count (1) + 2 bytes
    assert_eq!(frame.len(), 2 + 6 + 2 + 4 + 1 + 2);
    assert_eq!(&frame[frame.len() - 2..], &[0x10, 0x11]);
    // The word count field: 4 elements of width 2, halved.
    assert_eq!(frame[14], 4);
}

#[test]
fn test_batch_write_words() {
    let s = session("Q", false);
    let frame = s
        .batch_write_request("D10", &vec![0x0102, 0x0304], &DataType::SWORD)
        .unwrap();
    // Two one-byte values at the end: the low bytes.
    assert_eq!(&frame[frame.len() - 2..], &[0x02, 0x04]);
}

#[test]
fn test_random_write_frames() {
    let s = session("Q", false);
    // One word element: a single frame, the main random-write frame.
    let tags = vec![Tag::new(
        "D5".to_string(),
        Some("300".to_string()),
        Some("h".to_string()),
        None,
    )];
    let frames = s.random_write_requests(tags).unwrap();
    assert_eq!(frames.len(), 1);
    // head (2) + routing (6) + command (2) + count (1) + zero (1)
    //   + device (4) + value (1)
    assert_eq!(frames[0].len(), 2 + 6 + 2 + 1 + 1 + 4 + 1);
    assert_eq!(*frames[0].last().unwrap(), (300 % 256) as u8);

    // A boolean element delegates to a batch write and still counts one word.
    let tags = vec![
        Tag::new(
            "M0".to_string(),
            Some("1 0 1".to_string()),
            Some("b".to_string()),
            None,
        ),
        Tag::new(
            "D5".to_string(),
            Some("7".to_string()),
            Some("h".to_string()),
            None,
        ),
    ];
    let frames = s.random_write_requests(tags).unwrap();
    assert_eq!(frames.len(), 2);
    // The main frame's word count covers both elements.
    assert_eq!(frames[1][10], 2);
}

#[test]
fn test_random_read_decode_values() {
    let s = session("Q", false);
    let devices = vec![
        QueryTag { device: "D0".to_string(), data_type: DataType::SWORD },
        QueryTag { device: "D1".to_string(), data_type: DataType::SDWORD },
    ];
    // 3E binary data offset 11: first element 2 bytes, second 4 bytes.
    let mut recv = vec![0u8; 11];
    recv.extend_from_slice(&[5, 0, 9, 0, 0, 0]);
    let tags = s.random_read_decode(&recv, devices).unwrap();
    assert_eq!(tags.len(), 2);
    assert_eq!(tags[0].device, "D0");
    assert_eq!(tags[0].value.as_deref(), Some("5"));
    assert_eq!(tags[1].device, "D1");
    assert_eq!(tags[1].value.as_deref(), Some("9"));

    // A short buffer is a decode error.
    let devices = vec![QueryTag { device: "D0".to_string(), data_type: DataType::SWORD }];
    assert!(matches!(
        s.random_read_decode(&[0u8; 11], devices),
        Err(MelsecError::DecodeError)
    ));
}

#[test]
fn test_data_type_width() {
    let widths = [
        (DataType::BIT, 2),
        (DataType::SWORD, 2),
        (DataType::UWORD, 2),
        (DataType::SDWORD, 4),
        (DataType::UDWORD, 4),
        (DataType::FLOAT, 4),
        (DataType::DOUBLE, 8),
        (DataType::SLWORD, 8),
        (DataType::ULWORD, 8),
    ];
    for (t, w) in widths {
        assert_eq!(t.size(), w);
        assert!(t.size() == 2 || t.size() == 4 || t.size() == 8);
        // Stable across calls, and in step with the format codes.
        assert_eq!(t.size(), t.size());
        assert_eq!(DataType::from_str(t.to_struct_type()), Some(t));
    }
    assert_eq!(DataType::from_str("x"), None);
}

#[test]
fn test_tag_success() {
    let tag = Tag::new("D0".to_string(), Some("1".to_string()), Some("h".to_string()), None);
    assert!(tag.is_success());
    let tag = Tag::new("D0".to_string(), None, Some("h".to_string()), None);
    assert!(!tag.is_success());
    let tag = Tag::new(
        "D0".to_string(),
        Some("1".to_string()),
        Some("h".to_string()),
        Some("fault".to_string()),
    );
    assert!(!tag.is_success());
}

#[test]
fn test_text_helpers() {
    assert_eq!(rs_melsec::text::dec_str_u64(0), "0");
    assert_eq!(rs_melsec::text::dec_str_u64(8304), "8304");
    assert_eq!(rs_melsec::text::dec_str_i64(-45), "-45");
    assert_eq!(rs_melsec::text::parse_i64("300"), Some(300));
    assert_eq!(rs_melsec::text::parse_i64("-7"), Some(-7));
    assert_eq!(rs_melsec::text::parse_i64(""), None);
    assert_eq!(rs_melsec::text::parse_i64("3a"), None);
    assert_eq!(rs_melsec::text::parse_i64("9223372036854775807"), Some(i64::MAX));
    assert_eq!(rs_melsec::text::parse_i64("-9223372036854775808"), Some(i64::MIN));
    assert_eq!(rs_melsec::text::parse_i64("9223372036854775808"), None);
    let bits = rs_melsec::text::parse_bit_list("1 0  7 x -2");
    assert_eq!(bits, vec![1, 0, 7, -2]);
    assert_eq!(rs_melsec::text::hex_pad_string(0x5000, 4, true), "5000");
    assert_eq!(rs_melsec::text::hex_pad_string(0xC059, 4, false), "c059");
    assert_eq!(rs_melsec::text::hex_pad_bytes(0x64, 6, false), b"000064".to_vec());
    assert_eq!(rs_melsec::text::pad_star("SS", 4), "SS**");
}

#[test]
fn test_bit_read_ascii_mode() {
    // In ASCII mode each boolean element takes one response byte, reported as
    // its number whether or not decoding was asked.
    let mut s = session("Q", false);
    s.set_comm_type("ascii").unwrap();
    let mut recv = vec![0u8; 22];
    recv.push(49); // '1'
    let decoded = s.batch_read_decode(&recv, "M0", 1, &DataType::BIT, true).unwrap();
    let raw = s.batch_read_decode(&recv, "M0", 1, &DataType::BIT, false).unwrap();
    assert_eq!(decoded[0].value.as_deref(), Some("49"));
    assert_eq!(raw[0].value.as_deref(), Some("49"));
}

#[test]
fn test_ascii_frame_subheader() {
    // ASCII mode renders the subheader as four upper-case hex characters; the
    // other fields keep their binary encoding.
    let mut s = session("Q", false);
    s.set_comm_type("ascii").unwrap();
    let frame = s.build_send_data(&[0xAB]).unwrap();
    assert_eq!(&frame[0..4], b"5000");
    assert_eq!(frame.len(), 4 + 6 + 1);
    // Body length counts in wire words: word size four plus one payload byte.
    assert_eq!(frame[4 + 4], 5);
}
