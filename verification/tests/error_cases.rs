use libwing::meter::Meter;
use libwing::node::Float32;
use libwing::{MeterSubscriptions, WingConsole, WingResponse};

fn float_read_back(id: i32, value: f32) -> Option<(i32, u32)> {
    let mut console = WingConsole::new();
    console.receive(&WingConsole::set_float(id, Float32 { bits: value.to_bits() }));
    match console.read() {
        Ok(Some(WingResponse::NodeData(got, data))) if data.has_float() => {
            Some((got, data.get_float().bits))
        }
        _ => None,
    }
}

#[test]
fn test_invalid_property_ids() {
    let invalid_ids = [0, -1, i32::MAX, i32::MIN];
    for &invalid_id in &invalid_ids {
        let m = WingConsole::set_float(invalid_id, Float32 { bits: 0.0f32.to_bits() });
        // an id is sent as a command byte and four bytes, each escape byte doubled,
        // then the float marker and the four bytes of the float
        let escapes = invalid_id.to_be_bytes().iter().filter(|b| **b == 0xdf).count();
        assert_eq!(m.len(), 10 + escapes);
        assert_eq!(m[0], 0xd7);
        assert_eq!(&m[m.len() - 5..], &[0xd5, 0, 0, 0, 0]);
    }
    assert_eq!(float_read_back(i32::MAX, 0.0), Some((i32::MAX, 0)));
    assert_eq!(float_read_back(i32::MIN, 0.0), Some((i32::MIN, 0)));
}

#[test]
fn test_extreme_property_values() {
    let test_values = [f32::MIN, f32::MAX, f32::INFINITY, f32::NEG_INFINITY, f32::NAN, 0.0, -0.0];
    for &test_value in &test_values {
        let m = WingConsole::set_float(950957506, Float32 { bits: test_value.to_bits() });
        let b = test_value.to_bits().to_be_bytes();
        assert_eq!(&m[m.len() - 4..], &b);
        if !b.contains(&0xdf) {
            assert_eq!(float_read_back(950957506, test_value), Some((950957506, test_value.to_bits())));
        }
    }
}

#[test]
fn test_invalid_meter_types() {
    let meter_configs = vec![
        vec![],
        vec![Meter::Channel(255)],
        vec![Meter::Bus(255)],
        (0..100).map(|i| Meter::Channel(i as u8)).collect::<Vec<_>>(),
    ];
    let mut subs = MeterSubscriptions::new();
    for (k, meters) in meter_configs.iter().enumerate() {
        let (id, request) = subs.request_meter(meters, 5000);
        assert_eq!(id as usize, k + 1);
        assert_eq!(request.len(), 11 + 2 * meters.len() + 3);
        assert_eq!(&request[request.len() - 3..], &[0xde, 0xdf, 0xd1]);
    }
    assert_eq!(subs.count(), 4);
}

#[test]
fn test_error_recovery() {
    let property_id = 950957506;
    assert_eq!(float_read_back(property_id, -20.0), Some((property_id, (-20.0f32).to_bits())));
    let _ = WingConsole::set_float(property_id, Float32 { bits: f32::MAX.to_bits() });
    assert_eq!(float_read_back(property_id, -15.0), Some((property_id, (-15.0f32).to_bits())));
    for i in 0..10 {
        let v = -20.0 + i as f32;
        assert_eq!(float_read_back(property_id, v), Some((property_id, v.to_bits())));
    }
    assert_eq!(float_read_back(property_id, -10.0), Some((property_id, (-10.0f32).to_bits())));
}
