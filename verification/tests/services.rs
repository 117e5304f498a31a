use libwing::catalog::NodeCatalog;
use libwing::discovery::{parse_discovery_answer, Scan};
use libwing::meter::Meter;
use libwing::node::{WingNodeData, WingNodeDef};
use libwing::shared::{plan_connection, ConnectPlan};
use libwing::simple::{meter_for, simplify_response, MeterKind, WingResponseSimple};
use libwing::subscriptions::PropertySubscribers;
use libwing::{WingConsole, WingResponse};

fn def_with_id(id: i32, name: &str) -> WingNodeDef {
    let mut raw = vec![0, 0, 0, 0];
    raw.extend_from_slice(&id.to_be_bytes());
    raw.extend_from_slice(&[0, 0]);
    raw.push(name.len() as u8);
    raw.extend_from_slice(name.as_bytes());
    raw.extend_from_slice(&[0, 0, 0]);
    WingNodeDef::from_bytes(&raw)
}

fn catalog() -> NodeCatalog {
    let mut c = NodeCatalog::new();
    c.insert("/ch/1/fdr".to_string(), def_with_id(100, "fdr"));
    c.insert("/ch/1/mute".to_string(), def_with_id(101, "mute"));
    c.insert("/alias/fdr".to_string(), def_with_id(100, "fdr"));
    c
}

#[test]
fn test_name_to_id_errors() {
    let catalog = NodeCatalog::new();
    let invalid_names = vec![
        "",
        "invalid_property_name",
        "!@#$%^&*()",
        "very_long_property_name_that_should_not_exist_in_any_reasonable_system",
        "\0null_byte",
        "unicode_测试_名称",
    ];
    for invalid_name in invalid_names {
        let result = WingConsole::name_to_id(&catalog, invalid_name);
        assert_eq!(result, Some(-1), "Expected -1 for invalid name: {}", invalid_name);
    }
}

#[test]
fn names_and_numbers() {
    let c = catalog();
    assert_eq!(c.len(), 3);
    assert_eq!(WingConsole::name_to_id(&c, "42"), Some(42));
    assert_eq!(WingConsole::name_to_id(&c, "-7"), Some(-7));
    assert_eq!(WingConsole::name_to_id(&c, "+3"), Some(3));
    assert_eq!(WingConsole::name_to_id(&c, "-2147483648"), Some(i32::MIN));
    assert_eq!(WingConsole::name_to_id(&c, "2147483648"), Some(-1));
    assert_eq!(WingConsole::name_to_id(&c, "-"), Some(-1));
    assert_eq!(WingConsole::name_to_id(&c, "/ch/1/fdr"), Some(100));
    assert_eq!(WingConsole::name_to_id(&c, "/ch/1/mute"), Some(101));
    assert_eq!(WingConsole::name_to_id(&c, "/ch/2/fdr"), Some(-1));
    assert_eq!(WingConsole::name_to_def(&c, "/ch/1/mute").unwrap().name, "mute");
    assert!(WingConsole::name_to_def(&c, "/nope").is_none());
}

#[test]
fn ids_to_paths() {
    let c = catalog();
    let defs = WingConsole::id_to_defs(&c, 100).unwrap();
    let names: Vec<&str> = defs.iter().map(|(n, _)| n.as_str()).collect();
    assert_eq!(names, vec!["/ch/1/fdr", "/alias/fdr"]);
    assert!(defs.iter().all(|(_, d)| d.id == 100));
    assert!(WingConsole::id_to_defs(&c, 5).is_none());
}

#[test]
fn filing_a_name_again_replaces_it() {
    let mut c = catalog();
    c.insert("/ch/1/fdr".to_string(), def_with_id(200, "fdr2"));
    assert_eq!(c.len(), 3);
    assert_eq!(WingConsole::name_to_id(&c, "/ch/1/fdr"), Some(200));
    assert_eq!(WingConsole::id_to_defs(&c, 100).unwrap().len(), 1);
}

#[test]
fn discovery_answers() {
    let info = parse_discovery_answer(b"WING,192.168.1.10,Stage,wing-rack,S123,3.0.5").unwrap();
    assert_eq!(info.ip, "192.168.1.10");
    assert_eq!(info.name, "Stage");
    assert_eq!(info.model, "wing-rack");
    assert_eq!(info.serial, "S123");
    assert_eq!(info.firmware, "3.0.5");
    let more = parse_discovery_answer(b"WING,10.0.0.2,A,B,C,D,extra").unwrap();
    assert_eq!(more.firmware, "D");
    assert!(parse_discovery_answer(b"WING-MOCK,127.0.0.1,MockWing,MOCK123,1.0.0").is_none());
    assert!(parse_discovery_answer(b"WING,a,b,c,d").is_none());
    assert!(parse_discovery_answer(b"wing,a,b,c,d,e").is_none());
    assert!(parse_discovery_answer(&[b'W', b'I', b'N', b'G', b',', 0xff, b',', b',', b',', b',']).is_none());
    let empty = parse_discovery_answer(b"WING,,,,,").unwrap();
    assert_eq!(empty.ip, "");
}

#[test]
fn scans_end_after_ten_silent_waits_or_the_first_console() {
    assert_eq!(Scan::request(), b"WING?".to_vec());
    let mut s = Scan::new(true);
    s.on_answer(b"hello");
    assert!(!s.finished());
    s.on_answer(b"WING,1.2.3.4,n,m,s,f");
    assert!(s.finished());
    assert_eq!(s.into_found().len(), 1);

    let mut s = Scan::new(false);
    s.on_answer(b"WING,1.2.3.4,n,m,s,f");
    for _ in 0..9 {
        s.on_timeout();
        assert!(!s.finished());
    }
    s.on_timeout();
    assert!(s.finished());
    assert_eq!(s.into_found()[0].ip, "1.2.3.4");
}

#[test]
fn subscribers_get_their_node_and_all_other_messages() {
    let mut subs = PropertySubscribers::new();
    subs.subscribe(5, 1);
    subs.subscribe(5, 2);
    subs.subscribe(6, 3);
    let data = WingResponse::NodeData(5, WingNodeData::with_i32(1));
    assert_eq!(subs.route(&data), vec![1, 2]);
    assert_eq!(subs.route(&WingResponse::NodeData(7, WingNodeData::new())), Vec::<u64>::new());
    assert_eq!(subs.route(&WingResponse::RequestEnd), vec![1, 2, 3]);
    subs.unsubscribe(5);
    assert!(subs.route(&data).is_empty());
    assert_eq!(subs.route(&WingResponse::NodeData(6, WingNodeData::new())), vec![3]);
    assert_eq!(subs.route(&WingResponse::RequestEnd), vec![3]);
}

#[test]
fn shared_connection_plans() {
    assert!(matches!(plan_connection(Some("10.0.0.1"), None), ConnectPlan::Reuse));
    assert!(matches!(plan_connection(Some("10.0.0.1"), Some("10.0.0.1")), ConnectPlan::Reuse));
    match plan_connection(Some("10.0.0.1"), Some("10.0.0.2")) {
        ConnectPlan::Connect { host, label } => {
            assert_eq!(host.as_deref(), Some("10.0.0.2"));
            assert_eq!(label, "10.0.0.2");
        }
        other => panic!("unexpected {:?}", other),
    }
    match plan_connection(None, None) {
        ConnectPlan::Connect { host, label } => {
            assert!(host.is_none());
            assert_eq!(label, "auto");
        }
        other => panic!("unexpected {:?}", other),
    }
    match plan_connection(None, Some("auto")) {
        ConnectPlan::Connect { host, label } => {
            assert!(host.is_none());
            assert_eq!(label, "auto");
        }
        other => panic!("unexpected {:?}", other),
    }
    match plan_connection(None, Some("wing.local")) {
        ConnectPlan::Connect { host, label } => {
            assert_eq!(host.as_deref(), Some("wing.local"));
            assert_eq!(label, "wing.local");
        }
        other => panic!("unexpected {:?}", other),
    }
}

#[test]
fn simple_reader_names_values_by_their_path() {
    let c = catalog();
    let r = simplify_response(WingResponse::NodeData(101, WingNodeData::with_i32(1)), &c);
    match r {
        Some(WingResponseSimple::NodeDataSimple(name, data)) => {
            assert_eq!(name, "/ch/1/mute");
            assert_eq!(data.get_int(), 1);
        }
        other => panic!("unexpected {:?}", other),
    }
    assert!(simplify_response(WingResponse::NodeData(100, WingNodeData::new()), &c).is_none());
    assert!(simplify_response(WingResponse::NodeData(55, WingNodeData::new()), &c).is_none());
    assert!(simplify_response(WingResponse::RequestEnd, &c).is_none());
}

#[test]
fn meter_kinds() {
    assert_eq!(meter_for(MeterKind::Channel, 4), Meter::Channel(4));
    assert_eq!(meter_for(MeterKind::Mix, 4), Meter::Bus(4));
    assert_eq!(meter_for(MeterKind::Aux, 4), Meter::Bus(4));
    assert_eq!(meter_for(MeterKind::Main, 2), Meter::Main(2));
    assert_eq!(meter_for(MeterKind::Matrix, 8), Meter::Matrix(8));
    assert_eq!(meter_for(MeterKind::Other, 8), Meter::Channel(1));
}
