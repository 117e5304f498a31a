use libwing::meter::Meter;
use libwing::node::Float32;
use libwing::{Error, MeterSubscriptions, WingConsole, WingResponse};

fn read_after(bytes: &[u8]) -> (WingConsole, Result<Option<WingResponse>, Error>) {
    let mut console = WingConsole::new();
    console.receive(bytes);
    let r = console.read();
    (console, r)
}

fn node_int(r: &Result<Option<WingResponse>, Error>) -> (i32, i32) {
    match r {
        Ok(Some(WingResponse::NodeData(id, data))) => {
            assert!(data.has_int() && !data.has_string() && !data.has_float());
            (*id, data.get_int())
        }
        other => panic!("expected an integer value, got {:?}", other),
    }
}

fn node_text(r: &Result<Option<WingResponse>, Error>) -> (i32, String) {
    match r {
        Ok(Some(WingResponse::NodeData(id, data))) => {
            assert!(data.has_string());
            (*id, data.get_string(""))
        }
        other => panic!("expected a string value, got {:?}", other),
    }
}

#[test]
fn inline_integer_after_node_selection() {
    let (_, r) = read_after(&[0xd7, 0, 0, 0, 5, 0x07]);
    assert_eq!(node_int(&r), (5, 7));
}

#[test]
fn node_index_commands_are_skipped() {
    let (_, r) = read_after(&[0x40, 0x7f, 0xd2, 0x00, 0x10, 0x3f]);
    assert_eq!(node_int(&r), (0, 63));
}

#[test]
fn short_medium_and_empty_strings() {
    let (_, r) = read_after(&[0xd7, 0, 0, 0, 1, 0x82, b'a', b'b', b'c']);
    assert_eq!(node_text(&r), (1, "abc".to_string()));
    let (_, r) = read_after(&[0xc1, b'h', b'i']);
    assert_eq!(node_text(&r), (0, "hi".to_string()));
    let (_, r) = read_after(&[0xd0]);
    assert_eq!(node_text(&r), (0, String::new()));
}

#[test]
fn long_string_carries_its_length_less_one() {
    let mut bytes = vec![0xd1, 64];
    bytes.extend(std::iter::repeat(b'x').take(65));
    let (_, r) = read_after(&bytes);
    assert_eq!(node_text(&r), (0, "x".repeat(65)));
    let mut bytes = vec![0xd1, 255];
    bytes.extend(std::iter::repeat(b'y').take(256));
    let (_, r) = read_after(&bytes);
    assert_eq!(node_text(&r), (0, "y".repeat(256)));
}

#[test]
fn sixteen_and_thirty_two_bit_integers() {
    let (_, r) = read_after(&[0xd3, 0xff, 0xfe]);
    assert_eq!(node_int(&r), (0, -2));
    let (_, r) = read_after(&[0xd4, 0x00, 0x01, 0x00, 0x00]);
    assert_eq!(node_int(&r), (0, 65536));
    let (_, r) = read_after(&[0xd4, 0x80, 0x00, 0x00, 0x00]);
    assert_eq!(node_int(&r), (0, i32::MIN));
}

#[test]
fn float_values_keep_their_bits() {
    let bits = (-20.0f32).to_bits();
    let b = bits.to_be_bytes();
    for cmd in [0xd5u8, 0xd6u8] {
        let (_, r) = read_after(&[0xd7, 0, 0, 0, 9, cmd, b[0], b[1], b[2], b[3]]);
        match r {
            Ok(Some(WingResponse::NodeData(9, data))) => {
                assert!(data.has_float());
                assert_eq!(data.get_float(), Float32 { bits });
                assert_eq!(f32::from_bits(data.get_float().bits), -20.0);
                assert_eq!(data.get_int(), 0);
            }
            other => panic!("unexpected {:?}", other),
        }
    }
}

#[test]
fn request_end() {
    let (_, r) = read_after(&[0xd8, 0xd9, 0x01, 0xda, 0xdb, 0xdc, 0xdd, 0xde]);
    assert!(matches!(r, Ok(Some(WingResponse::RequestEnd))));
}

#[test]
fn escaped_escape_byte_in_an_id() {
    let (c, r) = read_after(&[0xd7, 0, 0, 0, 0xdf, 0xde, 0x01]);
    assert_eq!(node_int(&r), (0xdf, 1));
    let mut c = c;
    assert!(matches!(c.read(), Ok(None)));
}

#[test]
fn channel_selection_is_not_delivered() {
    let (_, r) = read_after(&[0xdf, 0xd3, 0x07]);
    assert_eq!(node_int(&r), (0, 7));
}

#[test]
fn partial_messages_wait_for_more_bytes() {
    let mut c = WingConsole::new();
    c.receive(&[0xd7, 0, 0]);
    assert!(matches!(c.read(), Ok(None)));
    c.receive(&[0, 9]);
    assert!(matches!(c.read(), Ok(None)));
    c.receive(&[3, 0xde]);
    assert_eq!(node_int(&c.read()), (9, 3));
    assert!(matches!(c.read(), Ok(Some(WingResponse::RequestEnd))));
    assert!(matches!(c.read(), Ok(None)));
}

#[test]
fn a_message_split_anywhere_reads_the_same() {
    let msg = WingConsole::set_string(0x0102_03df, "Lead Vocal");
    for cut in 0..=msg.len() {
        let mut c = WingConsole::new();
        c.receive(&msg[..cut]);
        let first = c.read();
        if cut < msg.len() {
            assert!(matches!(first, Ok(None)), "cut at {}", cut);
            c.receive(&msg[cut..]);
            assert_eq!(node_text(&c.read()), (0x0102_03df, "Lead Vocal".to_string()));
        } else {
            assert_eq!(node_text(&first), (0x0102_03df, "Lead Vocal".to_string()));
        }
    }
}

#[test]
fn invalid_utf8_is_reported_and_consumed() {
    let mut c = WingConsole::new();
    c.receive(&[0x80, 0xff, 0xde]);
    assert!(matches!(c.read(), Err(Error::InvalidData)));
    assert!(matches!(c.read(), Ok(Some(WingResponse::RequestEnd))));
}

fn integer_def_raw() -> Vec<u8> {
    let mut raw = vec![0, 0, 0, 1, 0, 0, 0, 2, 0, 3];
    raw.push(4);
    raw.extend_from_slice(b"gain");
    raw.push(4);
    raw.extend_from_slice(b"Gain");
    let flags: u16 = (4 << 4) | 1 | (1 << 9);
    raw.extend_from_slice(&flags.to_be_bytes());
    raw.extend_from_slice(&(-10i32).to_be_bytes());
    raw.extend_from_slice(&10i32.to_be_bytes());
    raw
}

#[test]
fn node_definition_message() {
    let raw = integer_def_raw();
    let mut msg = vec![0xdf, 0xde];
    msg.extend_from_slice(&(raw.len() as u16).to_be_bytes());
    msg.extend_from_slice(&raw);
    let (_, r) = read_after(&msg);
    match r {
        Ok(Some(WingResponse::NodeDef(d))) => {
            assert_eq!((d.parent_id, d.id, d.index), (1, 2, 3));
            assert_eq!(d.name, "gain");
            assert_eq!(d.long_name, "Gain");
            assert_eq!(d.min_int, Some(-10));
            assert_eq!(d.max_int, Some(10));
            assert!(d.is_read_only());
            assert_eq!(d.raw, raw);
        }
        other => panic!("unexpected {:?}", other),
    }
}

#[test]
fn empty_or_malformed_node_definitions_are_invalid() {
    let (mut c, r) = read_after(&[0xdf, 0xde, 0, 0, 1, 2, 3, 4, 0xde]);
    assert!(matches!(r, Err(Error::InvalidData)));
    assert!(matches!(c.read(), Ok(Some(WingResponse::RequestEnd))));
    let (_, r) = read_after(&[0xdf, 0xde, 0, 3, 1, 2, 3]);
    assert!(matches!(r, Err(Error::InvalidData)));
}

#[test]
fn node_requests() {
    assert_eq!(WingConsole::request_node_data(0), vec![0xda, 0xdc]);
    assert_eq!(WingConsole::request_node_definition(0), vec![0xda, 0xdd]);
    assert_eq!(WingConsole::request_node_data(0x0102_0304), vec![0xd7, 1, 2, 3, 4, 0xdc]);
    assert_eq!(WingConsole::request_node_definition(-1), vec![0xd7, 0xff, 0xff, 0xff, 0xff, 0xdd]);
    assert_eq!(WingConsole::request_node_data(0x00df_0000), vec![0xd7, 0, 0xdf, 0xde, 0, 0, 0xdc]);
}

#[test]
fn integer_messages() {
    assert_eq!(WingConsole::set_int(1, 5), vec![0xd7, 0, 0, 0, 1, 5]);
    assert_eq!(WingConsole::set_int(1, -1), vec![0xd7, 0, 0, 0, 1, 0xd3, 0xff, 0xff]);
    assert_eq!(WingConsole::set_int(1, 100), vec![0xd7, 0, 0, 0, 1, 0xd3, 0, 100]);
    assert_eq!(WingConsole::set_int(1, 63), vec![0xd7, 0, 0, 0, 1, 0x3f]);
    assert_eq!(WingConsole::set_int(1, 64), vec![0xd7, 0, 0, 0, 1, 0xd3, 0x00, 0x40]);
    assert_eq!(WingConsole::set_int(1, 70000), vec![0xd7, 0, 0, 0, 1, 0xd4, 0, 1, 0x11, 0x70]);
}

#[test]
fn float_and_string_messages() {
    let one = Float32 { bits: 1.0f32.to_bits() };
    assert_eq!(WingConsole::set_float(1, one), vec![0xd7, 0, 0, 0, 1, 0xd5, 0x3f, 0x80, 0, 0]);
    assert_eq!(WingConsole::set_string(1, ""), vec![0xd7, 0, 0, 0, 1, 0xd0]);
    assert_eq!(WingConsole::set_string(1, "hi"), vec![0xd7, 0, 0, 0, 1, 0x81, b'h', b'i']);
    let long = "z".repeat(100);
    let m = WingConsole::set_string(1, &long);
    assert_eq!(&m[..7], &[0xd7, 0, 0, 0, 1, 0xd1, 99]);
    assert_eq!(m.len(), 107);
    let too_long = "z".repeat(300);
    let m = WingConsole::set_string(1, &too_long);
    assert_eq!(&m[..5], &[0xd7, 0, 0, 0, 1]);
    assert_eq!(m.len(), 305);
}

#[test]
fn set_messages_read_back() {
    let (_, r) = read_after(&WingConsole::set_int(42, 17));
    assert_eq!(node_int(&r), (42, 17));
    let (_, r) = read_after(&WingConsole::set_int(42, -1));
    assert_eq!(node_int(&r), (42, -1));
    let (_, r) = read_after(&WingConsole::set_int(42, -5_000_000));
    assert_eq!(node_int(&r), (42, -5_000_000));
    let (_, r) = read_after(&WingConsole::set_string(0x00df_0001, "Drums"));
    assert_eq!(node_text(&r), (0x00df_0001, "Drums".to_string()));
    let bits = (-3.5f32).to_bits();
    let (_, r) = read_after(&WingConsole::set_float(7, Float32 { bits }));
    match r {
        Ok(Some(WingResponse::NodeData(7, d))) => assert_eq!(d.get_float().bits, bits),
        other => panic!("unexpected {:?}", other),
    }
}

#[test]
fn sixteen_bit_integers_read_back() {
    for v in [64, 100, 1000, 32767, -2, -300, -32768] {
        let (_, r) = read_after(&WingConsole::set_int(7, v));
        assert_eq!(node_int(&r), (7, v));
    }
}

#[test]
fn bytes_above_223_are_invalid_data() {
    let mut console = WingConsole::new();
    console.receive(&[0xff, 0xfe, 0xfd, 0xfc]);
    for _ in 0..4 {
        assert!(matches!(console.read(), Err(Error::InvalidData)));
    }
    assert!(matches!(console.read(), Ok(None)));
    console.receive(&[0xe0, 0x05]);
    assert!(matches!(console.read(), Err(Error::InvalidData)));
    assert_eq!(node_int(&console.read()), (0, 5));
}

#[test]
fn meter_request_and_keep_alive() {
    let mut c = MeterSubscriptions::new();
    let (id, m) = c.request_meter(&[Meter::Channel(1), Meter::Monitor], 0x1234);
    assert_eq!(id, 1);
    assert_eq!(
        m,
        vec![0xdf, 0xd3, 0xd3, 0x12, 0x34, 0xd4, 0x00, 0x01, 0x12, 0x34, 0xdc, 0xa0, 0x01, 0xa9, 0xde, 0xdf, 0xd1]
    );
    let (id2, m2) = c.request_meter(&[Meter::Matrix2(3), Meter::Rta, Meter::Bus(255)], 0x1234);
    assert_eq!(id2, 2);
    assert_eq!(&m2[11..], &[0xaf, 3, 0xaa, 0xa2, 255, 0xde, 0xdf, 0xd1]);
    assert_eq!(
        c.keep_alive_meters(0x1234),
        vec![
            0xdf, 0xd3, 0xd4, 0, 2, 0x12, 0x34, 0xdf, 0xd1, 0xdf, 0xd3, 0xd4, 0, 1, 0x12, 0x34, 0xdf, 0xd1
        ]
    );
    assert!(MeterSubscriptions::new().keep_alive_meters(5).is_empty());
}

#[test]
fn meter_datagrams() {
    let (id, levels) = WingConsole::read_meters(&[0, 7, 9, 9, 0xff, 0xfe, 0x00, 0x10, 0x05]);
    assert_eq!(id, 7);
    assert_eq!(levels, vec![-2, 16]);
    let (id, levels) = WingConsole::read_meters(&[1, 2, 0, 0]);
    assert_eq!(id, 0x0102);
    assert!(levels.is_empty());
}
