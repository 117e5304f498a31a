use libwing::json::JsonField;
use libwing::node::{Float32, NodeType, NodeUnit, WingNodeData, WingNodeDef};
use libwing::text::FloatTexts;

fn header(parent: i32, id: i32, index: u16, name: &str, long: &str, flags: u16) -> Vec<u8> {
    let mut raw = Vec::new();
    raw.extend_from_slice(&parent.to_be_bytes());
    raw.extend_from_slice(&id.to_be_bytes());
    raw.extend_from_slice(&index.to_be_bytes());
    raw.push(name.len() as u8);
    raw.extend_from_slice(name.as_bytes());
    raw.push(long.len() as u8);
    raw.extend_from_slice(long.as_bytes());
    raw.extend_from_slice(&flags.to_be_bytes());
    raw
}

fn integer_def() -> WingNodeDef {
    let mut raw = header(1, 2, 3, "gain", "Gain", (4 << 4) | 1 | (1 << 9));
    raw.extend_from_slice(&(-10i32).to_be_bytes());
    raw.extend_from_slice(&10i32.to_be_bytes());
    WingNodeDef::from_bytes(&raw)
}

fn no_floats() -> FloatTexts {
    FloatTexts { min: String::new(), max: String::new(), items: Vec::new() }
}

#[test]
fn integer_definition() {
    let d = integer_def();
    assert_eq!(d.get_type(), NodeType::Integer);
    assert_eq!(d.get_unit(), NodeUnit::Db);
    assert!(d.is_read_only());
    assert_eq!((d.min_int, d.max_int), (Some(-10), Some(10)));
    assert_eq!(d.min_float, None);
    assert!(d.string_enum.is_none() && d.float_enum.is_none());
}

#[test]
fn float_and_string_definitions() {
    let mut raw = header(-1, 7, 0, "fdr", "Fader", (1 << 4) | 1);
    raw.extend_from_slice(&(-144.0f32).to_be_bytes());
    raw.extend_from_slice(&10.0f32.to_be_bytes());
    raw.extend_from_slice(&(-1i32).to_be_bytes());
    let d = WingNodeDef::try_from_bytes(&raw).unwrap();
    assert_eq!(d.get_type(), NodeType::LinearFloat);
    assert_eq!(d.min_float, Some(Float32 { bits: (-144.0f32).to_bits() }));
    assert_eq!(d.max_float, Some(Float32 { bits: 10.0f32.to_bits() }));
    assert_eq!(d.steps, Some(-1));
    assert_eq!(d.parent_id, -1);
    assert!(!d.is_read_only());

    let mut raw = header(0, 8, 0, "name", "", 7 << 4);
    raw.extend_from_slice(&16u16.to_be_bytes());
    let d = WingNodeDef::try_from_bytes(&raw).unwrap();
    assert_eq!(d.get_type(), NodeType::String);
    assert_eq!(d.get_unit(), NodeUnit::Unitless);
    assert_eq!(d.max_string_len, Some(16));
}

#[test]
fn enum_definitions() {
    let mut raw = header(0, 9, 0, "mode", "", 5 << 4);
    raw.extend_from_slice(&2u16.to_be_bytes());
    for (a, b) in [("a", "Alpha"), ("b", "")] {
        raw.push(a.len() as u8);
        raw.extend_from_slice(a.as_bytes());
        raw.push(b.len() as u8);
        raw.extend_from_slice(b.as_bytes());
    }
    let d = WingNodeDef::try_from_bytes(&raw).unwrap();
    let items = d.string_enum.as_ref().unwrap();
    assert_eq!(items.len(), 2);
    assert_eq!((items[0].item.as_str(), items[0].long_item.as_str()), ("a", "Alpha"));
    assert_eq!((items[1].item.as_str(), items[1].long_item.as_str()), ("b", ""));

    let mut raw = header(0, 10, 0, "freq", "", 6 << 4);
    raw.extend_from_slice(&1u16.to_be_bytes());
    raw.extend_from_slice(&48000.0f32.to_be_bytes());
    raw.push(4);
    raw.extend_from_slice(b"48 k");
    let d = WingNodeDef::try_from_bytes(&raw).unwrap();
    let items = d.float_enum.as_ref().unwrap();
    assert_eq!(items[0].item.bits, 48000.0f32.to_bits());
    assert_eq!(items[0].long_item, "48 k");

    let mut raw = header(0, 11, 0, "none", "", 5 << 4);
    raw.extend_from_slice(&0u16.to_be_bytes());
    let d = WingNodeDef::try_from_bytes(&raw).unwrap();
    assert!(d.string_enum.is_none());
}

#[test]
fn unknown_codes_fall_back() {
    let raw = header(0, 12, 0, "x", "", (9 << 4) | 12);
    let d = WingNodeDef::try_from_bytes(&raw).unwrap();
    assert_eq!(d.get_type(), NodeType::Node);
    assert_eq!(d.get_unit(), NodeUnit::Unitless);
}

#[test]
fn malformed_definitions_are_refused() {
    assert!(WingNodeDef::try_from_bytes(&[0; 10]).is_none());
    let mut raw = header(0, 1, 0, "ab", "", 4 << 4);
    raw.extend_from_slice(&[0, 0, 0, 1, 0, 0, 0]);
    assert!(WingNodeDef::try_from_bytes(&raw).is_none());
    let mut raw = vec![0, 0, 0, 0, 0, 0, 0, 1, 0, 0, 2, 0xc3, 0x28, 0];
    raw.extend_from_slice(&0u16.to_be_bytes());
    assert!(WingNodeDef::try_from_bytes(&raw).is_none());
    let mut raw = vec![0, 0, 0, 0, 0, 0, 0, 1, 0, 0, 2, 0xc3, 0xa9, 0];
    raw.extend_from_slice(&0u16.to_be_bytes());
    assert_eq!(WingNodeDef::try_from_bytes(&raw).unwrap().name, "é");
}

#[test]
fn clone_copies_everything() {
    let d = integer_def();
    let c = d.clone();
    assert_eq!(c.raw, d.raw);
    assert_eq!(c.name, d.name);
    assert_eq!((c.id, c.min_int, c.max_int), (d.id, d.min_int, d.max_int));
}

#[test]
fn integer_description() {
    let d = integer_def();
    assert_eq!(
        d.to_description(&no_floats()),
        "Id:        2\nRead-only: yes\nIndex:     3\nName:      gain\nLong Name: Gain\nType:      integer\nUnit:      dB\nMinimum:   -10\nMaximum:   10"
    );
}

#[test]
fn enum_and_float_descriptions() {
    let mut raw = header(0, 9, 0, "mode", "", 5 << 4);
    raw.extend_from_slice(&2u16.to_be_bytes());
    for (a, b) in [("a", "Alpha"), ("b", "")] {
        raw.push(a.len() as u8);
        raw.extend_from_slice(a.as_bytes());
        raw.push(b.len() as u8);
        raw.extend_from_slice(b.as_bytes());
    }
    let d = WingNodeDef::from_bytes(&raw);
    assert_eq!(
        d.to_description(&no_floats()),
        "Id:        9\nRead-only: no\nName:      mode\nType:      string enum\nItems:     a (Alpha)\n           b\n"
    );

    let mut raw = header(0, 7, 0, "", "", (3 << 4) | 2);
    let d = WingNodeDef::from_bytes(&raw);
    assert_eq!(d.to_description(&no_floats()), "Id:        7\nRead-only: no\nType:      fader level (float)\nUnit:      %");

    raw = header(0, 7, 0, "", "", (2 << 4) | 4);
    raw.extend_from_slice(&20.0f32.to_be_bytes());
    raw.extend_from_slice(&20000.0f32.to_be_bytes());
    raw.extend_from_slice(&100i32.to_be_bytes());
    let d = WingNodeDef::from_bytes(&raw);
    let texts = FloatTexts { min: "20".to_string(), max: "20000".to_string(), items: Vec::new() };
    assert_eq!(
        d.to_description(&texts),
        "Id:        7\nRead-only: no\nType:      log float\nUnit:      Hz\nMinimum:   20\nMaximum:   20000\nSteps:     100"
    );
}

#[test]
fn json_fields_of_an_integer_node() {
    let d = integer_def();
    let fields = d.to_json_fields();
    let expected: Vec<(&str, JsonField)> = vec![
        ("id", JsonField::Int(2)),
        ("index", JsonField::Int(3)),
        ("name", JsonField::Text("gain".to_string())),
        ("longname", JsonField::Text("Gain".to_string())),
        ("type", JsonField::Text("integer".to_string())),
        ("unit", JsonField::Text("dB".to_string())),
        ("read_only", JsonField::Flag(true)),
        ("minint", JsonField::Int(-10)),
        ("maxint", JsonField::Int(10)),
    ];
    assert_eq!(fields, expected);
}

#[test]
fn json_fields_of_an_enum_node() {
    let mut raw = header(0, 9, 0, "", "", 5 << 4);
    raw.extend_from_slice(&1u16.to_be_bytes());
    raw.extend_from_slice(&[1, b'a', 5]);
    raw.extend_from_slice(b"Alpha");
    let d = WingNodeDef::from_bytes(&raw);
    assert_eq!(
        d.to_json_fields(),
        vec![
            ("id", JsonField::Int(9)),
            ("type", JsonField::Text("string enum".to_string())),
            ("items", JsonField::StringItems(vec![("a".to_string(), Some("Alpha".to_string()))])),
        ]
    );
    let raw = header(0, 5, 0, "", "", 3 << 4);
    let d = WingNodeDef::from_bytes(&raw);
    assert_eq!(d.to_json_fields()[1], ("type", JsonField::Text("fader level".to_string())));
}

#[test]
fn node_values() {
    let v = WingNodeData::new();
    assert!(!v.has_string() && !v.has_float() && !v.has_int());
    assert_eq!(v.get_string("1.5"), "");
    assert_eq!(v.get_int(), 0);
    assert_eq!(v.get_float().bits, 0);
    assert_eq!(WingNodeData::with_i32(-42).get_string(""), "-42");
    assert_eq!(WingNodeData::with_i16(-7).get_int(), -7);
    assert_eq!(WingNodeData::with_i8(-128).get_int(), -128);
    assert_eq!(WingNodeData::with_string("Kick".to_string()).get_string("0"), "Kick");
    let f = WingNodeData::with_float(Float32 { bits: 1.5f32.to_bits() });
    assert_eq!(f.get_string(&format!("{}", 1.5f32)), "1.5");
    assert_eq!(f.get_int(), 0);
}
