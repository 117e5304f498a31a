use vstd::prelude::*;

use crate::bytes::be16;
use crate::console::{DATA_KEEP_ALIVE_MS, METERS_KEEP_ALIVE_MS};
use crate::discovery::SCAN_ATTEMPTS;
use crate::shared::auto_label;
use vstd::utf8::decode_utf8;
use crate::console::{int_payload, node_request, set_float_message, set_int_message, set_string_message};
use crate::encode::{be_bytes32, escaped, id_message, unsigned32};
use crate::laws::bytes_number;
use crate::json::json_type_text;
use crate::meter::{meter_bytes, meter_keep_alive, meter_levels, meter_list_bytes, meter_request, meters_keep_alive, Meter};
use crate::simple::{meter_of_kind, MeterKind};
use crate::node::{float_items, node_type_of_code, node_unit_of_code, parse_node_def, string_items, text_at, NodeType, NodeUnit};
use crate::text::{type_text, unit_text};

verus! {

/// The protocol's unit codes, the low nibble of a definition's flags: 0 no unit, 1 dB,
/// 2 %, 3 ms, 4 Hz, 5 meters, 6 seconds, 7 octaves; other codes mean no unit.
pub proof fn law_unit_codes(code: int)
    ensures
        code == 1 ==> node_unit_of_code(code) == NodeUnit::Db,
        code == 2 ==> node_unit_of_code(code) == NodeUnit::Percent,
        code == 3 ==> node_unit_of_code(code) == NodeUnit::Milliseconds,
        code == 4 ==> node_unit_of_code(code) == NodeUnit::Hertz,
        code == 5 ==> node_unit_of_code(code) == NodeUnit::Meters,
        code == 6 ==> node_unit_of_code(code) == NodeUnit::Seconds,
        code == 7 ==> node_unit_of_code(code) == NodeUnit::Octaves,
        !(1 <= code <= 7) ==> node_unit_of_code(code) == NodeUnit::Unitless,
{
}

/// The protocol's type codes, the second nibble of a definition's flags: 0 a plain node,
/// 1 linear float, 2 logarithmic float, 3 fader level, 4 integer, 5 string enum, 6 float
/// enum, 7 string; other codes mean a plain node.
pub proof fn law_type_codes(code: int)
    ensures
        code == 1 ==> node_type_of_code(code) == NodeType::LinearFloat,
        code == 2 ==> node_type_of_code(code) == NodeType::LogarithmicFloat,
        code == 3 ==> node_type_of_code(code) == NodeType::FaderLevel,
        code == 4 ==> node_type_of_code(code) == NodeType::Integer,
        code == 5 ==> node_type_of_code(code) == NodeType::StringEnum,
        code == 6 ==> node_type_of_code(code) == NodeType::FloatEnum,
        code == 7 ==> node_type_of_code(code) == NodeType::String,
        !(1 <= code <= 7) ==> node_type_of_code(code) == NodeType::Node,
{
}

/// The offset of the flags in a definition record: after the parent id, id and index
/// (ten bytes) and the two length-prefixed names.
pub open spec fn flags_offset(raw: Seq<u8>) -> int {
    12 + raw[10] + raw[11 + raw[10]]
}

/// What a definition record says of its node, read off the record's bytes: the id and
/// parent id (big-endian, two's complement), the index, and from the two flag bytes at
/// `flags_offset` the unit (low nibble of the second), the type (its high nibble) and
/// read-only (bit 1 of the first), by the protocol's tables.
#[verifier::rlimit(40)]
pub proof fn law_definition_fields(raw: Seq<u8>)
    ensures
        parse_node_def(raw) matches Some(d) ==> {
            let j = flags_offset(raw);
            let u = raw[j + 1] % 16;
            let t = raw[j + 1] / 16;
            let id = ((raw[4] * 256 + raw[5]) * 256 + raw[6]) * 256 + raw[7];
            let parent = ((raw[0] * 256 + raw[1]) * 256 + raw[2]) * 256 + raw[3];
            &&& d.id == (if id < 0x8000_0000 { id } else { id - 0x1_0000_0000 })
            &&& d.parent_id == (if parent < 0x8000_0000 { parent } else { parent - 0x1_0000_0000 })
            &&& d.index == raw[8] * 256 + raw[9]
            &&& d.read_only == ((raw[j] / 2) % 2 == 1)
            &&& (u == 0 ==> d.unit == NodeUnit::Unitless)
            &&& (u == 1 ==> d.unit == NodeUnit::Db)
            &&& (u == 2 ==> d.unit == NodeUnit::Percent)
            &&& (u == 3 ==> d.unit == NodeUnit::Milliseconds)
            &&& (u == 4 ==> d.unit == NodeUnit::Hertz)
            &&& (u == 5 ==> d.unit == NodeUnit::Meters)
            &&& (u == 6 ==> d.unit == NodeUnit::Seconds)
            &&& (u == 7 ==> d.unit == NodeUnit::Octaves)
            &&& (u >= 8 ==> d.unit == NodeUnit::Unitless)
            &&& (t == 0 ==> d.node_type == NodeType::Node)
            &&& (t == 1 ==> d.node_type == NodeType::LinearFloat)
            &&& (t == 2 ==> d.node_type == NodeType::LogarithmicFloat)
            &&& (t == 3 ==> d.node_type == NodeType::FaderLevel)
            &&& (t == 4 ==> d.node_type == NodeType::Integer)
            &&& (t == 5 ==> d.node_type == NodeType::StringEnum)
            &&& (t == 6 ==> d.node_type == NodeType::FloatEnum)
            &&& (t == 7 ==> d.node_type == NodeType::String)
            &&& (t >= 8 ==> d.node_type == NodeType::Node)
        },
{
    if let Some(d) = parse_node_def(raw) {
        let j = flags_offset(raw);
        let hi = raw[j];
        let lo = raw[j + 1];
        lemma_flag_bits(hi, lo);
        lemma_four_bytes(raw[4], raw[5], raw[6], raw[7]);
        lemma_four_bytes(raw[0], raw[1], raw[2], raw[3]);
        assert(be16(raw, j) == hi * 256 + lo);
        law_unit_codes((hi * 256 + lo) % 16);
        law_type_codes(((hi * 256 + lo) / 16) % 16);
    }
}

proof fn lemma_flag_bits(hi: u8, lo: u8)
    ensures
        (hi * 256 + lo) % 16 == lo % 16,
        ((hi * 256 + lo) / 16) % 16 == lo / 16,
        ((hi * 256 + lo) / 512) % 2 == (hi / 2) % 2,
{
    assert((hi as u16 * 256 + lo as u16) % 16 == (lo as u16) % 16) by (bit_vector);
    assert(((hi as u16 * 256 + lo as u16) / 16) % 16 == (lo as u16) / 16) by (bit_vector);
    assert(((hi as u16 * 256 + lo as u16) / 512) % 2 == ((hi as u16) / 2) % 2) by (bit_vector);
}

proof fn lemma_four_bytes(b0: u8, b1: u8, b2: u8, b3: u8)
    ensures
        (b0 * 256 + b1) * 65536 + (b2 * 256 + b3) == ((b0 * 256 + b1) * 256 + b2) * 256 + b3,
{
    assert((b0 * 256 + b1) * 65536 + (b2 * 256 + b3) == ((b0 * 256 + b1) * 256 + b2) * 256 + b3) by (nonlinear_arith);
}

/// The words that a description gives each node type; no two types share one.
pub proof fn law_type_texts(a: NodeType, b: NodeType)
    ensures
        type_text(NodeType::Node) == "node"@,
        type_text(NodeType::LinearFloat) == "linear float"@,
        type_text(NodeType::LogarithmicFloat) == "log float"@,
        type_text(NodeType::Integer) == "integer"@,
        type_text(NodeType::String) == "string"@,
        type_text(NodeType::FaderLevel) == "fader level (float)"@,
        type_text(NodeType::StringEnum) == "string enum"@,
        type_text(NodeType::FloatEnum) == "float enum"@,
        type_text(a) == type_text(b) ==> a == b,
{
    reveal_strlit("node");
    reveal_strlit("linear float");
    reveal_strlit("log float");
    reveal_strlit("integer");
    reveal_strlit("string");
    reveal_strlit("fader level (float)");
    reveal_strlit("string enum");
    reveal_strlit("float enum");
    assert("node"@.len() != "linear float"@.len());
    assert("node"@.len() != "log float"@.len());
    assert("node"@.len() != "integer"@.len());
    assert("node"@.len() != "string"@.len());
    assert("node"@.len() != "fader level (float)"@.len());
    assert("node"@.len() != "string enum"@.len());
    assert("node"@.len() != "float enum"@.len());
    assert("linear float"@.len() != "log float"@.len());
    assert("linear float"@.len() != "integer"@.len());
    assert("linear float"@.len() != "string"@.len());
    assert("linear float"@.len() != "fader level (float)"@.len());
    assert("linear float"@.len() != "string enum"@.len());
    assert("linear float"@.len() != "float enum"@.len());
    assert("log float"@.len() != "integer"@.len());
    assert("log float"@.len() != "string"@.len());
    assert("log float"@.len() != "fader level (float)"@.len());
    assert("log float"@.len() != "string enum"@.len());
    assert("log float"@.len() != "float enum"@.len());
    assert("integer"@.len() != "string"@.len());
    assert("integer"@.len() != "fader level (float)"@.len());
    assert("integer"@.len() != "string enum"@.len());
    assert("integer"@.len() != "float enum"@.len());
    assert("string"@.len() != "fader level (float)"@.len());
    assert("string"@.len() != "string enum"@.len());
    assert("string"@.len() != "float enum"@.len());
    assert("fader level (float)"@.len() != "string enum"@.len());
    assert("fader level (float)"@.len() != "float enum"@.len());
    assert("string enum"@.len() != "float enum"@.len());
}

/// The words that the JSON form gives each node type; no two types share one.
pub proof fn law_json_type_texts(a: NodeType, b: NodeType)
    ensures
        json_type_text(NodeType::Node) == "node"@,
        json_type_text(NodeType::LinearFloat) == "linear float"@,
        json_type_text(NodeType::LogarithmicFloat) == "log float"@,
        json_type_text(NodeType::Integer) == "integer"@,
        json_type_text(NodeType::String) == "string"@,
        json_type_text(NodeType::FaderLevel) == "fader level"@,
        json_type_text(NodeType::StringEnum) == "string enum"@,
        json_type_text(NodeType::FloatEnum) == "float enum"@,
        json_type_text(a) == json_type_text(b) ==> a == b,
{
    reveal_strlit("node");
    reveal_strlit("linear float");
    reveal_strlit("log float");
    reveal_strlit("integer");
    reveal_strlit("string");
    reveal_strlit("fader level");
    reveal_strlit("string enum");
    reveal_strlit("float enum");
    assert("node"@.len() != "linear float"@.len());
    assert("node"@.len() != "log float"@.len());
    assert("node"@.len() != "integer"@.len());
    assert("node"@.len() != "string"@.len());
    assert("node"@.len() != "fader level"@.len());
    assert("node"@.len() != "string enum"@.len());
    assert("node"@.len() != "float enum"@.len());
    assert("linear float"@.len() != "log float"@.len());
    assert("linear float"@.len() != "integer"@.len());
    assert("linear float"@.len() != "string"@.len());
    assert("linear float"@.len() != "fader level"@.len());
    assert("linear float"@.len() != "string enum"@.len());
    assert("linear float"@.len() != "float enum"@.len());
    assert("log float"@.len() != "integer"@.len());
    assert("log float"@.len() != "string"@.len());
    assert("log float"@.len() != "fader level"@.len());
    assert("log float"@.len() != "string enum"@.len());
    assert("log float"@.len() != "float enum"@.len());
    assert("integer"@.len() != "string"@.len());
    assert("integer"@.len() != "fader level"@.len());
    assert("integer"@.len() != "string enum"@.len());
    assert("integer"@.len() != "float enum"@.len());
    assert("string"@.len() != "fader level"@.len());
    assert("string"@.len() != "string enum"@.len());
    assert("string"@.len() != "float enum"@.len());
    assert("fader level"@[0] != "string enum"@[0]);
    assert("fader level"@.len() != "float enum"@.len());
    assert("string enum"@.len() != "float enum"@.len());
}

/// The words that descriptions and the JSON form give each unit; no two units share one.
pub proof fn law_unit_texts(a: NodeUnit, b: NodeUnit)
    ensures
        unit_text(NodeUnit::Unitless) == "UNKNOWN"@,
        unit_text(NodeUnit::Db) == "dB"@,
        unit_text(NodeUnit::Percent) == "%"@,
        unit_text(NodeUnit::Milliseconds) == "ms"@,
        unit_text(NodeUnit::Hertz) == "Hz"@,
        unit_text(NodeUnit::Meters) == "meters"@,
        unit_text(NodeUnit::Seconds) == "seconds"@,
        unit_text(NodeUnit::Octaves) == "octaves"@,
        unit_text(a) == unit_text(b) ==> a == b,
{
    reveal_strlit("UNKNOWN");
    reveal_strlit("dB");
    reveal_strlit("%");
    reveal_strlit("ms");
    reveal_strlit("Hz");
    reveal_strlit("meters");
    reveal_strlit("seconds");
    reveal_strlit("octaves");
    assert("UNKNOWN"@.len() != "dB"@.len());
    assert("UNKNOWN"@.len() != "%"@.len());
    assert("UNKNOWN"@.len() != "ms"@.len());
    assert("UNKNOWN"@.len() != "Hz"@.len());
    assert("UNKNOWN"@.len() != "meters"@.len());
    assert("UNKNOWN"@[0] != "seconds"@[0]);
    assert("UNKNOWN"@[0] != "octaves"@[0]);
    assert("dB"@.len() != "%"@.len());
    assert("dB"@[0] != "ms"@[0]);
    assert("dB"@[0] != "Hz"@[0]);
    assert("dB"@.len() != "meters"@.len());
    assert("dB"@.len() != "seconds"@.len());
    assert("dB"@.len() != "octaves"@.len());
    assert("%"@.len() != "ms"@.len());
    assert("%"@.len() != "Hz"@.len());
    assert("%"@.len() != "meters"@.len());
    assert("%"@.len() != "seconds"@.len());
    assert("%"@.len() != "octaves"@.len());
    assert("ms"@[0] != "Hz"@[0]);
    assert("ms"@.len() != "meters"@.len());
    assert("ms"@.len() != "seconds"@.len());
    assert("ms"@.len() != "octaves"@.len());
    assert("Hz"@.len() != "meters"@.len());
    assert("Hz"@.len() != "seconds"@.len());
    assert("Hz"@.len() != "octaves"@.len());
    assert("meters"@.len() != "seconds"@.len());
    assert("meters"@.len() != "octaves"@.len());
    assert("seconds"@[0] != "octaves"@[0]);
}

/// How a meter request names each meter: a code byte for its kind, 0xa0 channel, 0xa1 aux,
/// 0xa2 bus, 0xa3 main, 0xa4 matrix, 0xa5 DCA, 0xa6 effect, 0xa7 source, 0xa8 output,
/// 0xa9 monitor, 0xaa RTA, 0xab to 0xaf the second channel, aux, bus, main and matrix
/// meters, followed by the meter's index except for the monitor and the RTA; no two meters
/// are named alike.
pub proof fn law_meter_codes(n: u8, a: Meter, b: Meter)
    ensures
        meter_bytes(Meter::Channel(n)) == seq![0xa0u8, n],
        meter_bytes(Meter::Aux(n)) == seq![0xa1u8, n],
        meter_bytes(Meter::Bus(n)) == seq![0xa2u8, n],
        meter_bytes(Meter::Main(n)) == seq![0xa3u8, n],
        meter_bytes(Meter::Matrix(n)) == seq![0xa4u8, n],
        meter_bytes(Meter::Dca(n)) == seq![0xa5u8, n],
        meter_bytes(Meter::Fx(n)) == seq![0xa6u8, n],
        meter_bytes(Meter::Source(n)) == seq![0xa7u8, n],
        meter_bytes(Meter::Output(n)) == seq![0xa8u8, n],
        meter_bytes(Meter::Channel2(n)) == seq![0xabu8, n],
        meter_bytes(Meter::Aux2(n)) == seq![0xacu8, n],
        meter_bytes(Meter::Bus2(n)) == seq![0xadu8, n],
        meter_bytes(Meter::Main2(n)) == seq![0xaeu8, n],
        meter_bytes(Meter::Matrix2(n)) == seq![0xafu8, n],
        meter_bytes(Meter::Monitor) == seq![0xa9u8],
        meter_bytes(Meter::Rta) == seq![0xaau8],
        meter_bytes(a) == meter_bytes(b) ==> a == b,
{
    if meter_bytes(a) == meter_bytes(b) {
        assert(meter_bytes(a)[0] == meter_bytes(b)[0]);
        assert(meter_bytes(a).len() == meter_bytes(b).len());
        if meter_bytes(a).len() == 2 {
            assert(meter_bytes(a)[1] == meter_bytes(b)[1]);
        }
    }
}


proof fn lemma_number_bytes(c0: u8, c1: u8, c2: u8, c3: u8)
    ensures
        0 <= bytes_number(c0, c1, c2, c3) < 0x1_0000_0000,
        (bytes_number(c0, c1, c2, c3) / 0x100_0000) % 256 == c0,
        (bytes_number(c0, c1, c2, c3) / 0x1_0000) % 256 == c1,
        (bytes_number(c0, c1, c2, c3) / 0x100) % 256 == c2,
        bytes_number(c0, c1, c2, c3) % 256 == c3,
{
    assert(0 <= bytes_number(c0, c1, c2, c3) < 0x1_0000_0000) by (nonlinear_arith);
    let u: u32 = bytes_number(c0, c1, c2, c3) as u32;
    assert((u / 0x100_0000) % 256 == c0 as u32 && (u / 0x1_0000) % 256 == c1 as u32 && (u / 0x100) % 256
        == c2 as u32 && u % 256 == c3 as u32) by (bit_vector)
        requires
            u == (((c0 as u32) * 256 + c1 as u32) * 256 + c2 as u32) * 256 + c3 as u32,
    ;
}

/// A 32-bit pattern is sent as its four bytes, most significant first.
pub proof fn law_pattern_bytes(c0: u8, c1: u8, c2: u8, c3: u8)
    ensures
        be_bytes32(bytes_number(c0, c1, c2, c3)) == seq![c0, c1, c2, c3],
{
    lemma_number_bytes(c0, c1, c2, c3);
    assert(be_bytes32(bytes_number(c0, c1, c2, c3)) =~= seq![c0, c1, c2, c3]);
}

/// The 32-bit pattern of a signed number is its two's complement.
pub proof fn law_signed_pattern(v: i32)
    ensures
        unsigned32(v) == (if v < 0 {
            v + 0x1_0000_0000
        } else {
            v as int
        }),
        0 <= unsigned32(v) < 0x1_0000_0000,
{
}

/// How the messages to the console address node `id`, whose 32-bit pattern has the bytes
/// `c0` to `c3` (most significant first, none the escape byte): the select-node command
/// 0xd7 and those bytes, then the command's own bytes. A request for the root node (id 0)
/// is the go-to-root command 0xda instead. A value is set by 0xd5 and the float's four
/// bytes, by the integer's payload, or by the string's length prefix (0xd0 empty,
/// 0x80 + n - 1 for 1 to 64 bytes, 0xd1 and n - 1 for up to 256 bytes, none beyond) and
/// its bytes.
pub proof fn law_node_messages(id: i32, c0: u8, c1: u8, c2: u8, c3: u8, cmd: u8, bits: u32, v: i32, text: Seq<u8>)
    requires
        (if id < 0 {
            id + 0x1_0000_0000
        } else {
            id as int
        }) == bytes_number(c0, c1, c2, c3),
        c0 != 0xdf && c1 != 0xdf && c2 != 0xdf && c3 != 0xdf,
    ensures
        node_request(id, cmd) == if id == 0 {
            seq![0xdau8, cmd]
        } else {
            seq![0xd7u8, c0, c1, c2, c3, cmd]
        },
        set_float_message(id, bits) == seq![0xd7u8, c0, c1, c2, c3, 0xd5u8] + be_bytes32(bits as int),
        set_int_message(id, v) == seq![0xd7u8, c0, c1, c2, c3] + int_payload(v),
        set_string_message(id, text) == seq![0xd7u8, c0, c1, c2, c3] + (if text.len() == 0 {
            seq![0xd0u8]
        } else if text.len() <= 64 {
            seq![(0x80 + text.len() - 1) as u8]
        } else if text.len() <= 256 {
            seq![0xd1u8, (text.len() - 1) as u8]
        } else {
            seq![]
        }) + text,
{
    law_signed_pattern(id);
    law_pattern_bytes(c0, c1, c2, c3);
    let b = be_bytes32(unsigned32(id));
    assert(b == seq![c0, c1, c2, c3]);
    assert(id_message(id, 0xd7, Some(cmd)) =~= seq![0xd7u8, c0, c1, c2, c3, cmd]);
    assert(id_message(id, 0xd7, Some(0xd5)) =~= seq![0xd7u8, c0, c1, c2, c3, 0xd5u8]);
    assert(id_message(id, 0xd7, None) =~= seq![0xd7u8, c0, c1, c2, c3]);
}

/// How an integer is sent, where its 32-bit pattern has the bytes `e0` to `e3`: 0 to 63 as
/// one byte, the rest of the 16-bit range as 0xd3 and the two low bytes, anything else as
/// 0xd4 and all four bytes.
pub proof fn law_int_payload(v: i32, e0: u8, e1: u8, e2: u8, e3: u8)
    requires
        (if v < 0 {
            v + 0x1_0000_0000
        } else {
            v as int
        }) == bytes_number(e0, e1, e2, e3),
    ensures
        int_payload(v) == if 0 <= v <= 63 {
            seq![v as u8]
        } else if -32768 <= v <= 32767 {
            seq![0xd3u8, e2, e3]
        } else {
            seq![0xd4u8, e0, e1, e2, e3]
        },
{
    law_signed_pattern(v);
    law_pattern_bytes(e0, e1, e2, e3);
    if !(0 <= v <= 63) && !(-32768 <= v <= 32767) {
        assert(int_payload(v) =~= seq![0xd4u8, e0, e1, e2, e3]);
    }
}

/// The escape byte is sent inside an id as itself and 0xde; any other byte as itself.
pub proof fn law_escape(b: u8)
    ensures
        escaped(b) == if b == 0xdf {
            seq![0xdfu8, 0xdeu8]
        } else {
            seq![b]
        },
{
}


/// Two's-complement reading of a 32-bit number.
pub open spec fn signed_of(u: int) -> int {
    if u < 0x8000_0000 {
        u
    } else {
        u - 0x1_0000_0000
    }
}

/// The number of four bytes of `raw` from offset `k`, most significant first.
pub open spec fn number_at(raw: Seq<u8>, k: int) -> int {
    bytes_number(raw[k], raw[k + 1], raw[k + 2], raw[k + 3])
}

/// What a definition record says of its names and of the fields of its type, read off the
/// record's bytes: the name is the UTF-8 text after the length byte at offset 10, the long
/// name the one after it; after the two flag bytes, a linear or logarithmic float node has
/// its minimum, maximum (float bit patterns) and steps (signed), an integer node its signed
/// minimum and maximum, a string node its 16-bit maximum length, each four (or two) bytes
/// most significant first; a node has no field that its type does not call for.
#[verifier::rlimit(40)]
pub proof fn law_definition_details(raw: Seq<u8>)
    ensures
        parse_node_def(raw) matches Some(d) ==> {
            let j = flags_offset(raw);
            let t = raw[j + 1] / 16;
            let x = d.details;
            &&& d.name == decode_utf8(raw.subrange(11, 11 + raw[10]))
            &&& d.long_name == decode_utf8(raw.subrange(12 + raw[10], j))
            &&& (t == 1 || t == 2) ==> x.min_float == Some(number_at(raw, j + 2) as u32)
                && x.max_float == Some(number_at(raw, j + 6) as u32)
                && x.steps == Some(signed_of(number_at(raw, j + 10)) as i32)
            &&& !(t == 1 || t == 2) ==> x.min_float is None && x.max_float is None && x.steps is None
            &&& t == 4 ==> x.min_int == Some(signed_of(number_at(raw, j + 2)) as i32)
                && x.max_int == Some(signed_of(number_at(raw, j + 6)) as i32)
            &&& t != 4 ==> x.min_int is None && x.max_int is None
            &&& t == 7 ==> x.max_string_len == Some((raw[j + 2] * 256 + raw[j + 3]) as u16)
            &&& t != 7 ==> x.max_string_len is None
            &&& t != 5 ==> x.string_enum is None
            &&& t != 6 ==> x.float_enum is None
        },
{
    if let Some(d) = parse_node_def(raw) {
        let j = flags_offset(raw);
        let hi = raw[j];
        let lo = raw[j + 1];
        lemma_flag_bits(hi, lo);
        assert(be16(raw, j) == hi * 256 + lo);
        law_type_codes(((hi * 256 + lo) / 16) % 16);
        let t = raw[j + 1] / 16;
        if t == 1 || t == 2 {
            lemma_four_bytes(raw[j + 2], raw[j + 3], raw[j + 4], raw[j + 5]);
            lemma_four_bytes(raw[j + 6], raw[j + 7], raw[j + 8], raw[j + 9]);
            lemma_four_bytes(raw[j + 10], raw[j + 11], raw[j + 12], raw[j + 13]);
        }
        if t == 4 {
            lemma_four_bytes(raw[j + 2], raw[j + 3], raw[j + 4], raw[j + 5]);
            lemma_four_bytes(raw[j + 6], raw[j + 7], raw[j + 8], raw[j + 9]);
        }
    }
}


/// The messages of meter subscriptions: a request names the UDP port (high byte first),
/// the subscription id and the port again, then the meters between 0xdc and 0xde; a
/// keep-alive names the id and the port; keeping `n` subscriptions alive sends the
/// keep-alive of each, from `n` down to 1.
pub proof fn law_meter_messages(port: u16, id: u16, ms: Seq<Meter>, n: u16)
    ensures
        meter_request(port, id, ms) == seq![
            0xdfu8,
            0xd3u8,
            0xd3u8,
            (port / 256) as u8,
            (port % 256) as u8,
            0xd4u8,
            (id / 256) as u8,
            (id % 256) as u8,
            (port / 256) as u8,
            (port % 256) as u8,
            0xdcu8,
        ] + meter_list_bytes(ms) + seq![0xdeu8, 0xdfu8, 0xd1u8],
        meter_keep_alive(port, id) == seq![
            0xdfu8,
            0xd3u8,
            0xd4u8,
            (id / 256) as u8,
            (id % 256) as u8,
            (port / 256) as u8,
            (port % 256) as u8,
            0xdfu8,
            0xd1u8,
        ],
        n == 0 ==> meters_keep_alive(port, n) == Seq::<u8>::empty(),
        n > 0 ==> meters_keep_alive(port, n) == meter_keep_alive(port, n) + meters_keep_alive(port, (n - 1) as u16),
        meter_list_bytes(Seq::<Meter>::empty()) == Seq::<u8>::empty(),
        ms.len() > 0 ==> meter_list_bytes(ms) == meter_list_bytes(ms.drop_last()) + meter_bytes(ms.last()),
{
}

/// The levels of a meter datagram: after four bytes, each pair of bytes is a 16-bit
/// two's-complement level, most significant first; an odd last byte is left out.
pub proof fn law_meter_levels(d: Seq<u8>, k: int)
    requires
        d.len() >= 4,
    ensures
        meter_levels(d).len() == (d.len() - 4) / 2,
        0 <= k < (d.len() - 4) / 2 ==> meter_levels(d)[k] == (if d[4 + 2 * k] * 256 + d[5 + 2 * k] < 0x8000 {
            d[4 + 2 * k] * 256 + d[5 + 2 * k]
        } else {
            d[4 + 2 * k] * 256 + d[5 + 2 * k] - 0x1_0000
        }) as i16,
{
}


/// The meters that the simple interface names by kind: channels, mains and matrices by
/// their own kind, mixes and auxes as buses, and an unknown kind as channel 1.
pub proof fn law_meter_kinds(idx: u8)
    ensures
        meter_of_kind(MeterKind::Channel, idx) == Meter::Channel(idx),
        meter_of_kind(MeterKind::Mix, idx) == Meter::Bus(idx),
        meter_of_kind(MeterKind::Aux, idx) == Meter::Bus(idx),
        meter_of_kind(MeterKind::Main, idx) == Meter::Main(idx),
        meter_of_kind(MeterKind::Matrix, idx) == Meter::Matrix(idx),
        meter_of_kind(MeterKind::Other, idx) == Meter::Channel(1),
{
}


/// The protocol's timing and naming constants: a scan ends after ten silent waits, the
/// control connection is kept alive every seven seconds and the meters every three, and a
/// connection made by discovery is remembered as `auto`.
pub proof fn law_constants()
    ensures
        SCAN_ATTEMPTS == 10,
        DATA_KEEP_ALIVE_MS == 7000,
        METERS_KEEP_ALIVE_MS == 3000,
        auto_label() == seq!['a', 'u', 't', 'o'],
{
    reveal_strlit("auto");
}


proof fn lemma_string_items_len(raw: Seq<u8>, i: int, n: nat)
    ensures
        string_items(raw, i, n) matches Some((items, _)) ==> items.len() == n && (n > 0 ==> (text_at(raw, i)
            matches Some((a, k)) && items[0].0 == a)),
    decreases n,
{
    if n > 0 {
        lemma_string_items_len(raw, i, (n - 1) as nat);
        if n == 1 {
            assert(string_items(raw, i, 0) == Some((Seq::<(Seq<char>, Seq<char>)>::empty(), i)));
        }
    }
}

proof fn lemma_float_items_len(raw: Seq<u8>, i: int, n: nat)
    ensures
        float_items(raw, i, n) matches Some((items, _)) ==> items.len() == n && (n > 0 ==> 0 <= i && i + 4
            <= raw.len() && items[0].0 == number_at(raw, i) as u32),
    decreases n,
{
    if n > 0 {
        lemma_float_items_len(raw, i, (n - 1) as nat);
        if n == 1 {
            assert(float_items(raw, i, 0) == Some((Seq::<(u32, Seq<char>)>::empty(), i)));
            if float_items(raw, i, n) is Some {
                lemma_four_bytes(raw[i], raw[i + 1], raw[i + 2], raw[i + 3]);
            }
        }
    }
}

/// The items of an enum node's definition: after the flags, a 16-bit count (most
/// significant first), then that many items; a string item is its text and its long label,
/// a float item the four bytes of its value and its long label; with a count of zero the
/// node has no item list.
pub proof fn law_definition_items(raw: Seq<u8>)
    ensures
        parse_node_def(raw) matches Some(d) ==> {
            let j = flags_offset(raw);
            let t = raw[j + 1] / 16;
            let count = raw[j + 2] * 256 + raw[j + 3];
            &&& t == 5 ==> (d.details.string_enum is None <==> count == 0)
            &&& t == 5 && count > 0 ==> d.details.string_enum.unwrap().len() == count
                && (text_at(raw, j + 4) matches Some((a, _)) && d.details.string_enum.unwrap()[0].0 == a)
            &&& t == 6 ==> (d.details.float_enum is None <==> count == 0)
            &&& t == 6 && count > 0 ==> d.details.float_enum.unwrap().len() == count
                && d.details.float_enum.unwrap()[0].0 == number_at(raw, j + 4) as u32
        },
{
    if let Some(d) = parse_node_def(raw) {
        let j = flags_offset(raw);
        let hi = raw[j];
        let lo = raw[j + 1];
        lemma_flag_bits(hi, lo);
        assert(be16(raw, j) == hi * 256 + lo);
        law_type_codes(((hi * 256 + lo) / 16) % 16);
        let t = raw[j + 1] / 16;
        if t == 5 {
            lemma_string_items_len(raw, j + 4, be16(raw, j + 2) as nat);
        }
        if t == 6 {
            lemma_float_items_len(raw, j + 4, be16(raw, j + 2) as nat);
        }
    }
}

} // verus!
