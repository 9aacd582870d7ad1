use packet_gateway::endian::{put_u16_be, put_u32_le};
use packet_gateway::income_packet::{
    read_bytes, read_field, read_u16_be, read_utf8_string, Auth, ByteCursor, DecodeError,
    FramingError, Header, Opcode, Packet, Test,
};
use packet_gateway::outcome_packet::{self, pack, EncodeError};

fn sample_auth_payload() -> Vec<u8> {
    let mut p: Vec<u8> = Vec::new();
    p.extend_from_slice(&[0x00, 0x03, 0xDE, 0xAD, 0xBF]);
    p.extend_from_slice(&[0x00, 0x05]);
    p.extend_from_slice(b"alice");
    p.extend_from_slice(&[0x00, 0x02, 0x10, 0x20]);
    p.extend_from_slice(&[0x00, 0x11]);
    p.extend_from_slice(b"AA-BB-CC-DD-EE-FF");
    p.extend_from_slice(&[0x00, 0x01, 0x01, 0x36]);
    p
}

#[test]
fn put_u16_is_big_endian() {
    let mut out: Vec<u8> = vec![9];
    put_u16_be(&mut out, 0x01AF);
    assert_eq!(out, vec![9, 0x01, 0xAF]);
}

#[test]
fn put_u32_is_little_endian() {
    let mut out: Vec<u8> = Vec::new();
    put_u32_le(&mut out, 0x1234_5678);
    assert_eq!(out, vec![0x78, 0x56, 0x34, 0x12]);
    put_u32_le(&mut out, 128);
    assert_eq!(&out[4..], &[128, 0, 0, 0]);
}

#[test]
fn header_of_auth_frame() {
    let bytes: [u8; 8] = [0x00, 0x10, 0x00, 0x00, 0x00, 0x00, 0x01, 0xAF];
    let header = Header::unpack(&bytes).unwrap();
    assert_eq!(header, Header { length: 16, id: 0, opcode: 431 });
    let packet = header.handle(&sample_auth_payload()).unwrap();
    match packet {
        Packet::Auth(auth) => {
            assert_eq!(auth.key, vec![0xDE, 0xAD, 0xBF]);
            assert_eq!(auth.login, "alice");
            assert_eq!(auth.password, vec![0x10, 0x20]);
            assert_eq!(auth.mac, "AA-BB-CC-DD-EE-FF");
            assert_eq!(auth.is_cheat, 1);
            assert_eq!(auth.client_version, 0x0136);
        }
        Packet::Exit => panic!("an Auth frame decoded as Exit"),
    }
}

#[test]
fn header_fields_keep_their_byte_order() {
    let bytes: [u8; 10] = [0x12, 0x34, 0x78, 0x56, 0x34, 0x12, 0x01, 0xB0, 0xFF, 0xFF];
    let header = Header::unpack(&bytes).unwrap();
    assert_eq!(header.length, 0x1234);
    assert_eq!(header.id, 0x1234_5678);
    assert_eq!(header.opcode, 432);
}

#[test]
fn header_length_is_not_checked_against_the_buffer() {
    let bytes: [u8; 8] = [0xFF, 0xFF, 1, 0, 0, 0, 0x01, 0xAF];
    let header = Header::unpack(&bytes).unwrap();
    assert_eq!(header, Header { length: 0xFFFF, id: 1, opcode: 431 });
}

#[test]
fn short_frames_have_no_header() {
    let bytes: [u8; 8] = [0x00, 0x10, 0x00, 0x00, 0x00, 0x00, 0x01, 0xAF];
    for n in 0..8usize {
        assert_eq!(Header::unpack(&bytes[..n]), Err(FramingError { available: n }));
    }
    assert!(Header::unpack(&bytes[..8]).is_ok());
}

#[test]
fn exit_ignores_its_payload() {
    let header = Header { length: 8, id: 7, opcode: 432 };
    assert!(matches!(header.handle(&[]), Ok(Packet::Exit)));
    assert!(matches!(header.handle(&[0xFF, 0xFF, 0x01]), Ok(Packet::Exit)));
}

#[test]
fn declared_opcodes_without_handler_are_unsupported() {
    let table = [
        (346u16, Opcode::CreatePincode),
        (347, Opcode::UpdatePincode),
        (435, Opcode::CreateCharacter),
        (436, Opcode::RemoveCharacter),
    ];
    for (code, op) in table {
        let header = Header { length: 8, id: 0, opcode: code };
        let r = header.handle(&sample_auth_payload());
        assert_eq!(r.err(), Some(DecodeError::UnsupportedOpcode(op)));
    }
}

#[test]
fn numbers_outside_the_table_are_unknown() {
    for code in [0u16, 1, 430, 433, 434, 437, 940, 931, 0xFFFF] {
        let header = Header { length: 8, id: 0, opcode: code };
        assert_eq!(header.handle(&[]).err(), Some(DecodeError::UnknownOpcode(code)));
    }
}

#[test]
fn opcode_table() {
    let table = [
        (431u16, Opcode::Auth),
        (432, Opcode::Exit),
        (346, Opcode::CreatePincode),
        (435, Opcode::CreateCharacter),
        (436, Opcode::RemoveCharacter),
        (347, Opcode::UpdatePincode),
    ];
    for (code, op) in table {
        assert_eq!(op.code(), code);
        assert_eq!(Opcode::from_code(code), Some(op));
    }
    assert_eq!(Opcode::from_code(433), None);
    assert_eq!(outcome_packet::Opcode::FirstDate.code(), 940);
    assert_eq!(outcome_packet::Opcode::ResponseCharacters.code(), 931);
}

#[test]
fn overlong_prefix_is_truncated() {
    let good = sample_auth_payload();
    // the key states five bytes and two follow
    assert_eq!(Auth::unpack(&[0x00, 0x05, 1, 2]).err(), Some(DecodeError::Truncated));
    // the login states more than the rest of the payload
    let mut p = good.clone();
    p[6] = 0xFF;
    assert_eq!(Auth::unpack(&p).err(), Some(DecodeError::Truncated));
    // every proper prefix of a good payload is truncated
    for n in 0..good.len() {
        assert_eq!(Auth::unpack(&good[..n]).err(), Some(DecodeError::Truncated));
    }
    assert!(Auth::unpack(&good).is_ok());
}

#[test]
fn trailing_bytes_are_ignored() {
    let mut p = sample_auth_payload();
    p.extend_from_slice(&[1, 2, 3]);
    let auth = Auth::unpack(&p).unwrap();
    assert_eq!(auth.client_version, 0x0136);
}

#[test]
fn text_fields_must_be_utf8() {
    let mut p = sample_auth_payload();
    p[7] = 0xFF;
    assert_eq!(Auth::unpack(&p).err(), Some(DecodeError::InvalidUtf8));
    let mut q = sample_auth_payload();
    let mac_at = q.len() - 4 - 17;
    q[mac_at] = 0xC0;
    assert_eq!(Auth::unpack(&q).err(), Some(DecodeError::InvalidUtf8));
}

#[test]
fn truncation_is_found_before_bad_text() {
    let mut p = sample_auth_payload();
    p[7] = 0xFF;
    p.truncate(p.len() - 1);
    assert_eq!(Auth::unpack(&p).err(), Some(DecodeError::Truncated));
}

#[test]
fn auth_round_trip() {
    let auth = Auth {
        key: vec![1, 2, 3, 4],
        login: String::from("zoë"),
        password: vec![],
        mac: String::from("00:11:22:33:44:55"),
        is_cheat: 0,
        client_version: 310,
    };
    let first = auth.pack().unwrap();
    let mut expected: Vec<u8> = vec![0, 4, 1, 2, 3, 4, 0, 4];
    expected.extend_from_slice("zoë".as_bytes());
    expected.extend_from_slice(&[0, 0, 0, 17]);
    expected.extend_from_slice(b"00:11:22:33:44:55");
    expected.extend_from_slice(&[0, 0, 0x01, 0x36]);
    assert_eq!(first, expected);
    let back = Auth::unpack(&first).unwrap();
    assert_eq!(back.key, auth.key);
    assert_eq!(back.login, auth.login);
    assert_eq!(back.password, auth.password);
    assert_eq!(back.mac, auth.mac);
    assert_eq!(back.is_cheat, auth.is_cheat);
    assert_eq!(back.client_version, auth.client_version);
    assert_eq!(back.pack().unwrap(), first);
}

#[test]
fn decoded_sample_encodes_to_itself() {
    let p = sample_auth_payload();
    assert_eq!(Auth::unpack(&p).unwrap().pack().unwrap(), p);
}

#[test]
fn auth_field_too_long_for_its_prefix() {
    let mut auth = Auth {
        key: vec![0; 0xFFFF],
        login: String::new(),
        password: vec![],
        mac: String::new(),
        is_cheat: 0,
        client_version: 0,
    };
    let bytes = auth.pack().unwrap();
    assert_eq!(bytes.len(), 2 + 0xFFFF + 2 + 2 + 2 + 4);
    assert_eq!(&bytes[..2], &[0xFF, 0xFF]);
    auth.key.push(0);
    assert_eq!(auth.pack(), Err(EncodeError::PayloadTooLarge));
    auth.key.clear();
    auth.mac = "m".repeat(0x10000);
    assert_eq!(auth.pack(), Err(EncodeError::PayloadTooLarge));
}

#[test]
fn first_date_frame() {
    let payload = "[01-01 00:00:00:000]".as_bytes();
    let frame = pack(outcome_packet::Opcode::FirstDate, payload).unwrap();
    let total = (8 + payload.len()) as u16;
    assert_eq!(&frame[0..2], &total.to_be_bytes());
    assert_eq!(&frame[2..6], &128u32.to_le_bytes());
    assert_eq!(&frame[2..6], &[0x80, 0x00, 0x00, 0x00]);
    assert_eq!(&frame[6..8], &[0x03, 0xAC]);
    assert_eq!(&frame[8..], payload);
    assert_eq!(frame.len(), 8 + payload.len());
}

#[test]
fn empty_payload_frame() {
    let frame = pack(outcome_packet::Opcode::ResponseCharacters, &[]).unwrap();
    assert_eq!(frame, vec![0x00, 0x08, 0x80, 0x00, 0x00, 0x00, 0x03, 0xA3]);
}

#[test]
fn frame_length_must_fit_sixteen_bits() {
    let largest = vec![7u8; 0xFFFF - 8];
    let frame = pack(outcome_packet::Opcode::FirstDate, &largest).unwrap();
    assert_eq!(frame.len(), 0xFFFF);
    assert_eq!(&frame[0..2], &[0xFF, 0xFF]);
    let too_large = vec![7u8; 0xFFFF - 7];
    assert_eq!(
        pack(outcome_packet::Opcode::FirstDate, &too_large),
        Err(EncodeError::PayloadTooLarge)
    );
}

#[test]
fn packed_frame_has_a_true_header() {
    let frame = pack(outcome_packet::Opcode::ResponseCharacters, &[1, 2, 3]).unwrap();
    let header = Header::unpack(&frame).unwrap();
    assert_eq!(header, Header { length: 11, id: 128, opcode: 931 });
}

#[test]
fn cursor_reads_in_order() {
    let data: [u8; 7] = [0x01, 0x02, 0xAA, 0xBB, 0xCC, 0x00, 0x03];
    let mut cursor = ByteCursor::new(&data);
    assert_eq!(cursor.remaining_len(), 7);
    assert_eq!(read_u16_be(&mut cursor), Ok(0x0102));
    assert_eq!(read_bytes(&mut cursor, 3), Ok(vec![0xAA, 0xBB, 0xCC]));
    assert_eq!(cursor.remaining_len(), 2);
    assert_eq!(read_bytes(&mut cursor, 3), Err(DecodeError::Truncated));
    assert_eq!(cursor.remaining_len(), 2);
    assert_eq!(read_u16_be(&mut cursor), Ok(3));
    assert_eq!(read_u16_be(&mut cursor), Err(DecodeError::Truncated));
    assert_eq!(read_bytes(&mut cursor, 0), Ok(vec![]));
}

#[test]
fn cursor_reads_a_field() {
    let data: [u8; 6] = [0x00, 0x02, 0x68, 0x69, 0x00, 0x09];
    let mut cursor = ByteCursor::new(&data);
    assert_eq!(read_field(&mut cursor), Ok(vec![0x68, 0x69]));
    assert_eq!(read_field(&mut cursor), Err(DecodeError::Truncated));
}

#[test]
fn utf8_strings() {
    assert_eq!(read_utf8_string(vec![0x68, 0x69]), Ok(String::from("hi")));
    assert_eq!(read_utf8_string(vec![0xC3, 0xAB]), Ok(String::from("ë")));
    assert_eq!(read_utf8_string(vec![]), Ok(String::new()));
    assert_eq!(read_utf8_string(vec![0xC3]), Err(DecodeError::InvalidUtf8));
    assert_eq!(read_utf8_string(vec![0xFF, 0x41]), Err(DecodeError::InvalidUtf8));
}

#[test]
fn sample_payload() {
    let data: [u8; 11] = [0x00, 0x02, 0x6F, 0x6B, 0x00, 0x03, 9, 8, 7, 0x01, 0x00];
    let t = Test::unpack(&data).unwrap();
    assert_eq!(t.test, "ok");
    assert_eq!(t.test2, vec![9, 8, 7]);
    assert_eq!(t.test3, 256);
}

#[test]
fn sample_payload_of_zeros_is_truncated() {
    // two empty fields and a number need six bytes; eight zeros hold them
    let t = Test::unpack(&[0, 0, 0, 0, 0, 0, 0, 0]).unwrap();
    assert_eq!(t.test, "");
    assert_eq!(t.test2, Vec::<u8>::new());
    assert_eq!(t.test3, 0);
    assert_eq!(Test::unpack(&[0, 0, 0, 0, 0]).err(), Some(DecodeError::Truncated));
}

#[test]
fn sample_payload_checks_text_before_reading_on() {
    // the text is not UTF-8 and the byte field is cut short: the text is seen first
    let data: [u8; 5] = [0x00, 0x01, 0xFF, 0x00, 0x09];
    assert_eq!(Test::unpack(&data).err(), Some(DecodeError::InvalidUtf8));
}
