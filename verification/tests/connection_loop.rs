use libwing::catalog::NodeCatalog;
use libwing::console::{keep_alive_due, DATA_KEEP_ALIVE_MS, METERS_KEEP_ALIVE_MS};
use libwing::discovery::{connect_host, console_address};
use libwing::dispatch::{ConnectionLoop, LoopAction, LoopCommand};
use libwing::meter::Meter;
use libwing::node::{Float32, WingNodeData, WingNodeDef};
use libwing::simple::property_update;
use libwing::{DiscoveryInfo, Error, WingConsole, WingResponse};

fn sent(a: LoopAction) -> Vec<u8> {
    match a {
        LoopAction::Send(m) => m,
        other => panic!("expected bytes to send, got {:?}", other),
    }
}

#[test]
fn commands_give_the_bytes_to_send() {
    let mut l = ConnectionLoop::new();
    assert_eq!(sent(l.on_command(LoopCommand::RequestNodeData(5))), WingConsole::request_node_data(5));
    assert_eq!(
        sent(l.on_command(LoopCommand::RequestNodeDefinition(5))),
        WingConsole::request_node_definition(5)
    );
    assert_eq!(sent(l.on_command(LoopCommand::SetInt(1, 64))), vec![0xd7, 0, 0, 0, 1, 0xd3, 0x00, 0x40]);
    assert_eq!(
        sent(l.on_command(LoopCommand::SetFloat(1, Float32 { bits: 1.0f32.to_bits() }))),
        vec![0xd7, 0, 0, 0, 1, 0xd5, 0x3f, 0x80, 0, 0]
    );
    assert_eq!(
        sent(l.on_command(LoopCommand::SetString(1, "ab".to_string()))),
        vec![0xd7, 0, 0, 0, 1, 0x81, b'a', b'b']
    );
    match l.on_command(LoopCommand::RequestMeter(vec![Meter::Channel(2)])) {
        LoopAction::RequestMeter(m) => assert_eq!(m, vec![Meter::Channel(2)]),
        other => panic!("unexpected {:?}", other),
    }
    assert!(l.running());
}

#[test]
fn subscriptions_route_and_release() {
    let mut l = ConnectionLoop::new();
    assert_eq!(sent(l.on_command(LoopCommand::SubscribeProperty(5, 1))), WingConsole::request_node_data(5));
    let _ = l.on_command(LoopCommand::SubscribeProperty(5, 2));
    let _ = l.on_command(LoopCommand::SubscribeProperty(6, 3));
    assert!(matches!(l.on_command(LoopCommand::SubscribeMeter(10)), LoopAction::Nothing));
    assert!(matches!(l.on_command(LoopCommand::SubscribeMeter(11)), LoopAction::Nothing));

    let data = WingResponse::NodeData(5, WingNodeData::with_i32(1));
    assert_eq!(l.route(&data), vec![1, 2]);
    assert_eq!(l.route(&WingResponse::RequestEnd), vec![1, 2, 3]);
    assert_eq!(l.meter_recipients(), vec![10, 11]);

    match l.on_command(LoopCommand::UnsubscribeProperty(5)) {
        LoopAction::Release(h) => assert_eq!(h, vec![1, 2]),
        other => panic!("unexpected {:?}", other),
    }
    assert!(l.route(&data).is_empty());
    assert_eq!(l.route(&WingResponse::RequestEnd), vec![3]);

    match l.on_command(LoopCommand::UnsubscribeMeter) {
        LoopAction::Release(h) => assert_eq!(h, vec![10, 11]),
        other => panic!("unexpected {:?}", other),
    }
    assert!(l.meter_recipients().is_empty());

    assert!(matches!(l.on_command(LoopCommand::Disconnect), LoopAction::Stop));
    assert!(!l.running());
}

fn info(ip: &str) -> DiscoveryInfo {
    DiscoveryInfo {
        ip: ip.to_string(),
        name: "Wing".to_string(),
        model: "ngc-full".to_string(),
        serial: "S1".to_string(),
        firmware: "3.0".to_string(),
    }
}

#[test]
fn connect_host_choice() {
    assert_eq!(connect_host(Some("10.0.0.9"), &[info("1.2.3.4")]).unwrap(), "10.0.0.9");
    assert_eq!(connect_host(None, &[info("1.2.3.4"), info("5.6.7.8")]).unwrap(), "1.2.3.4");
    assert!(matches!(connect_host(None, &[]), Err(Error::DiscoveryError)));
    assert_eq!(console_address("1.2.3.4"), "1.2.3.4:2222");
    assert_eq!(console_address("127.0.0.1:5000"), "127.0.0.1:5000");
    assert_eq!(console_address("localhost:abc"), "localhost:abc:2222");
    assert_eq!(console_address("host:"), "host::2222");
    assert_eq!(console_address("127.0.0.1:99999"), "127.0.0.1:99999");
}

#[test]
fn keep_alive_timing() {
    assert_eq!(DATA_KEEP_ALIVE_MS, 7000);
    assert_eq!(METERS_KEEP_ALIVE_MS, 3000);
    assert_eq!(keep_alive_due(7000, 6999, DATA_KEEP_ALIVE_MS), None);
    assert_eq!(keep_alive_due(7000, 7000, DATA_KEEP_ALIVE_MS), Some(14000));
    assert_eq!(keep_alive_due(3000, 3500, METERS_KEEP_ALIVE_MS), Some(6500));
    assert_eq!(keep_alive_due(0, u64::MAX - 1, 10), Some(u64::MAX));
}

#[test]
fn paths_of_one_id_are_each_listed_once() {
    let mut raw = vec![0, 0, 0, 0];
    raw.extend_from_slice(&100i32.to_be_bytes());
    raw.extend_from_slice(&[0, 0, 3]);
    raw.extend_from_slice(b"fdr");
    raw.extend_from_slice(&[0, 0, 0]);
    let d = WingNodeDef::from_bytes(&raw);
    let mut c = NodeCatalog::new();
    c.insert("/a".to_string(), d.clone());
    c.insert("/b".to_string(), d.clone());
    c.insert("/a".to_string(), d.clone());
    let names: Vec<String> = WingConsole::id_to_defs(&c, 100).unwrap().into_iter().map(|(n, _)| n).collect();
    assert_eq!(names, vec!["/a".to_string(), "/b".to_string()]);
}

#[test]
fn property_updates_are_values_of_that_property() {
    let d = property_update(WingResponse::NodeData(5, WingNodeData::with_i32(9)), 5).unwrap();
    assert!(d.has_int() && d.get_int() == 9);
    assert!(property_update(WingResponse::NodeData(6, WingNodeData::with_i32(9)), 5).is_none());
    assert!(property_update(WingResponse::RequestEnd, 5).is_none());
}
