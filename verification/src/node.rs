use vstd::prelude::*;
use vstd::utf8::{decode_utf8, valid_utf8};

use crate::bytes::{be16, be32, read_be16, read_be32, signed32, string_from_utf8, to_signed32};

verus! {

/// The kind of value a node of the console's parameter tree holds.
#[derive(Copy, Clone, PartialEq, Eq, Debug, Structural)]
pub enum NodeType {
    Node,
    LinearFloat,
    LogarithmicFloat,
    FaderLevel,
    Integer,
    StringEnum,
    FloatEnum,
    String,
}

/// The unit in which a node's value is expressed.
#[derive(Copy, Clone, PartialEq, Eq, Debug, Structural)]
pub enum NodeUnit {
    Unitless,
    Db,
    Percent,
    Milliseconds,
    Hertz,
    Meters,
    Seconds,
    Octaves,
}

/// An IEEE-754 single-precision number, carried by its bit pattern.
#[derive(Copy, Clone, PartialEq, Eq, Debug, Structural)]
pub struct Float32 {
    pub bits: u32,
}

/// Decodes the type nibble of a node definition's flags; unknown codes are plain nodes.
pub open spec fn node_type_of_code(code: int) -> NodeType {
    if code == 1 {
        NodeType::LinearFloat
    } else if code == 2 {
        NodeType::LogarithmicFloat
    } else if code == 3 {
        NodeType::FaderLevel
    } else if code == 4 {
        NodeType::Integer
    } else if code == 5 {
        NodeType::StringEnum
    } else if code == 6 {
        NodeType::FloatEnum
    } else if code == 7 {
        NodeType::String
    } else {
        NodeType::Node
    }
}

/// Decodes the unit nibble of a node definition's flags; unknown codes mean no unit.
pub open spec fn node_unit_of_code(code: int) -> NodeUnit {
    if code == 1 {
        NodeUnit::Db
    } else if code == 2 {
        NodeUnit::Percent
    } else if code == 3 {
        NodeUnit::Milliseconds
    } else if code == 4 {
        NodeUnit::Hertz
    } else if code == 5 {
        NodeUnit::Meters
    } else if code == 6 {
        NodeUnit::Seconds
    } else if code == 7 {
        NodeUnit::Octaves
    } else {
        NodeUnit::Unitless
    }
}

pub fn node_type_from_code(code: u16) -> (t: NodeType)
    ensures
        t == node_type_of_code(code as int),
{
    match code {
        1 => NodeType::LinearFloat,
        2 => NodeType::LogarithmicFloat,
        3 => NodeType::FaderLevel,
        4 => NodeType::Integer,
        5 => NodeType::StringEnum,
        6 => NodeType::FloatEnum,
        7 => NodeType::String,
        _ => NodeType::Node,
    }
}

pub fn node_unit_from_code(code: u16) -> (u: NodeUnit)
    ensures
        u == node_unit_of_code(code as int),
{
    match code {
        1 => NodeUnit::Db,
        2 => NodeUnit::Percent,
        3 => NodeUnit::Milliseconds,
        4 => NodeUnit::Hertz,
        5 => NodeUnit::Meters,
        6 => NodeUnit::Seconds,
        7 => NodeUnit::Octaves,
        _ => NodeUnit::Unitless,
    }
}

/// One choice of a string-enumerated node: its short and its long label.
#[derive(Clone, Debug)]
pub struct StringEnumItem {
    pub item: String,
    pub long_item: String,
}

impl View for StringEnumItem {
    type V = (Seq<char>, Seq<char>);

    open spec fn view(&self) -> (Seq<char>, Seq<char>) {
        (self.item@, self.long_item@)
    }
}

/// One choice of a float-enumerated node: its value and its long label.
#[derive(Clone, Debug)]
pub struct FloatEnumItem {
    pub item: Float32,
    pub long_item: String,
}

impl View for FloatEnumItem {
    type V = (u32, Seq<char>);

    open spec fn view(&self) -> (u32, Seq<char>) {
        (self.item.bits, self.long_item@)
    }
}

/// The type-dependent part of a node definition.
pub struct NodeDetails {
    pub min_float: Option<u32>,
    pub max_float: Option<u32>,
    pub steps: Option<i32>,
    pub min_int: Option<i32>,
    pub max_int: Option<i32>,
    pub max_string_len: Option<u16>,
    pub string_enum: Option<Seq<(Seq<char>, Seq<char>)>>,
    pub float_enum: Option<Seq<(u32, Seq<char>)>>,
}

/// The mathematical model of a node definition: strings as characters, floats as bits.
pub struct NodeDefView {
    pub id: i32,
    pub parent_id: i32,
    pub index: u16,
    pub name: Seq<char>,
    pub long_name: Seq<char>,
    pub node_type: NodeType,
    pub unit: NodeUnit,
    pub read_only: bool,
    pub details: NodeDetails,
    pub raw: Seq<u8>,
}

pub open spec fn no_details() -> NodeDetails {
    NodeDetails {
        min_float: None,
        max_float: None,
        steps: None,
        min_int: None,
        max_int: None,
        max_string_len: None,
        string_enum: None,
        float_enum: None,
    }
}

/// A length-prefixed UTF-8 text at offset `i`: its characters and the offset after it.
pub open spec fn text_at(raw: Seq<u8>, i: int) -> Option<(Seq<char>, int)> {
    if 0 <= i < raw.len() && i + 1 + raw[i] <= raw.len() && valid_utf8(
        raw.subrange(i + 1, i + 1 + raw[i]),
    ) {
        Some((decode_utf8(raw.subrange(i + 1, i + 1 + raw[i])), i + 1 + raw[i]))
    } else {
        None
    }
}

/// The first `n` string-enum items that start at offset `i`, and the offset after them.
pub open spec fn string_items(raw: Seq<u8>, i: int, n: nat) -> Option<
    (Seq<(Seq<char>, Seq<char>)>, int),
>
    decreases n,
{
    if n == 0 {
        Some((seq![], i))
    } else {
        match string_items(raw, i, (n - 1) as nat) {
            Some((items, j)) => match text_at(raw, j) {
                Some((a, k)) => match text_at(raw, k) {
                    Some((b, l)) => Some((items.push((a, b)), l)),
                    None => None,
                },
                None => None,
            },
            None => None,
        }
    }
}

/// The first `n` float-enum items that start at offset `i`, and the offset after them.
pub open spec fn float_items(raw: Seq<u8>, i: int, n: nat) -> Option<(Seq<(u32, Seq<char>)>, int)>
    decreases n,
{
    if n == 0 {
        Some((seq![], i))
    } else {
        match float_items(raw, i, (n - 1) as nat) {
            Some((items, j)) => if 0 <= j && j + 4 <= raw.len() {
                match text_at(raw, j + 4) {
                    Some((b, l)) => Some((items.push((be32(raw, j) as u32, b)), l)),
                    None => None,
                }
            } else {
                None
            },
            None => None,
        }
    }
}

/// The type-dependent fields of a definition, read from offset `i`.
pub open spec fn details_at(raw: Seq<u8>, i: int, t: NodeType) -> Option<NodeDetails> {
    match t {
        NodeType::Node | NodeType::FaderLevel => Some(no_details()),
        NodeType::String => if i + 2 <= raw.len() {
            Some(NodeDetails { max_string_len: Some(be16(raw, i) as u16), ..no_details() })
        } else {
            None
        },
        NodeType::LinearFloat | NodeType::LogarithmicFloat => if i + 12 <= raw.len() {
            Some(
                NodeDetails {
                    min_float: Some(be32(raw, i) as u32),
                    max_float: Some(be32(raw, i + 4) as u32),
                    steps: Some(signed32(be32(raw, i + 8))),
                    ..no_details()
                },
            )
        } else {
            None
        },
        NodeType::Integer => if i + 8 <= raw.len() {
            Some(
                NodeDetails {
                    min_int: Some(signed32(be32(raw, i))),
                    max_int: Some(signed32(be32(raw, i + 4))),
                    ..no_details()
                },
            )
        } else {
            None
        },
        NodeType::StringEnum => if i + 2 <= raw.len() {
            match string_items(raw, i + 2, be16(raw, i) as nat) {
                Some((items, _)) => Some(
                    NodeDetails {
                        string_enum: if be16(raw, i) == 0 {
                            None
                        } else {
                            Some(items)
                        },
                        ..no_details()
                    },
                ),
                None => None,
            }
        } else {
            None
        },
        NodeType::FloatEnum => if i + 2 <= raw.len() {
            match float_items(raw, i + 2, be16(raw, i) as nat) {
                Some((items, _)) => Some(
                    NodeDetails {
                        float_enum: if be16(raw, i) == 0 {
                            None
                        } else {
                            Some(items)
                        },
                        ..no_details()
                    },
                ),
                None => None,
            }
        } else {
            None
        },
    }
}

/// The definition that a node-definition record encodes, or `None` where the record is cut
/// short or a text in it is not UTF-8.
///
/// Layout (big-endian): parent id (4), id (4), index (2), name, long name (each one length
/// byte and that many UTF-8 bytes), flags (2), then the fields that the type nibble
/// `(flags >> 4) & 15` calls for. The unit is `flags & 15`, read-only is bit 9.
pub open spec fn parse_node_def(raw: Seq<u8>) -> Option<NodeDefView> {
    if raw.len() < 11 {
        None
    } else {
        match text_at(raw, 10) {
            Some((name, i)) => match text_at(raw, i) {
                Some((long_name, j)) => if j + 2 <= raw.len() {
                    let flags = be16(raw, j);
                    let t = node_type_of_code((flags / 16) % 16);
                    match details_at(raw, j + 2, t) {
                        Some(d) => Some(
                            NodeDefView {
                                id: signed32(be32(raw, 4)),
                                parent_id: signed32(be32(raw, 0)),
                                index: be16(raw, 8) as u16,
                                name,
                                long_name,
                                node_type: t,
                                unit: node_unit_of_code(flags % 16),
                                read_only: (flags / 512) % 2 == 1,
                                details: d,
                                raw,
                            },
                        ),
                        None => None,
                    }
                } else {
                    None
                },
                None => None,
            },
            None => None,
        }
    }
}

/// The definition of one node of the console's parameter tree.
#[derive(Debug)]
pub struct WingNodeDef {
    pub id: i32,
    pub parent_id: i32,
    pub index: u16,
    pub name: String,
    pub long_name: String,
    pub node_type: NodeType,
    pub unit: NodeUnit,
    pub read_only: bool,
    pub min_float: Option<Float32>,
    pub max_float: Option<Float32>,
    pub steps: Option<i32>,
    pub min_int: Option<i32>,
    pub max_int: Option<i32>,
    pub max_string_len: Option<u16>,
    pub string_enum: Option<Vec<StringEnumItem>>,
    pub float_enum: Option<Vec<FloatEnumItem>>,
    pub raw: Vec<u8>,
}

pub open spec fn float_bits(f: Option<Float32>) -> Option<u32> {
    match f {
        Some(x) => Some(x.bits),
        None => None,
    }
}

pub open spec fn string_items_view(v: Option<Vec<StringEnumItem>>) -> Option<
    Seq<(Seq<char>, Seq<char>)>,
> {
    match v {
        Some(items) => Some(items@.map_values(|it: StringEnumItem| it@)),
        None => None,
    }
}

pub open spec fn float_items_view(v: Option<Vec<FloatEnumItem>>) -> Option<Seq<(u32, Seq<char>)>> {
    match v {
        Some(items) => Some(items@.map_values(|it: FloatEnumItem| it@)),
        None => None,
    }
}

impl View for WingNodeDef {
    type V = NodeDefView;

    open spec fn view(&self) -> NodeDefView {
        NodeDefView {
            id: self.id,
            parent_id: self.parent_id,
            index: self.index,
            name: self.name@,
            long_name: self.long_name@,
            node_type: self.node_type,
            unit: self.unit,
            read_only: self.read_only,
            details: NodeDetails {
                min_float: float_bits(self.min_float),
                max_float: float_bits(self.max_float),
                steps: self.steps,
                min_int: self.min_int,
                max_int: self.max_int,
                max_string_len: self.max_string_len,
                string_enum: string_items_view(self.string_enum),
                float_enum: float_items_view(self.float_enum),
            },
            raw: self.raw@,
        }
    }
}

fn copy_string_items(v: &Vec<StringEnumItem>) -> (r: Vec<StringEnumItem>)
    ensures
        r@.map_values(|it: StringEnumItem| it@) == v@.map_values(|it: StringEnumItem| it@),
{
    let mut r: Vec<StringEnumItem> = Vec::new();
    let mut k: usize = 0;
    while k < v.len()
        invariant
            k <= v@.len(),
            r@.map_values(|it: StringEnumItem| it@) == v@.subrange(0, k as int).map_values(
                |it: StringEnumItem| it@,
            ),
        decreases v@.len() - k,
    {
        let item = StringEnumItem { item: v[k].item.clone(), long_item: v[k].long_item.clone() };
        assert(item@ == v@[k as int]@);
        let ghost prev = r@;
        r.push(item);
        assert(v@.subrange(0, k + 1) =~= v@.subrange(0, k as int).push(v@[k as int]));
        k += 1;
        assert(r@.map_values(|it: StringEnumItem| it@) =~= prev.map_values(|it: StringEnumItem| it@).push(
            r@[k - 1]@,
        ));
        assert(r@.map_values(|it: StringEnumItem| it@) =~= v@.subrange(0, k as int).map_values(
            |it: StringEnumItem| it@,
        ));
    }
    assert(v@.subrange(0, v@.len() as int) =~= v@);
    r
}

fn copy_float_items(v: &Vec<FloatEnumItem>) -> (r: Vec<FloatEnumItem>)
    ensures
        r@.map_values(|it: FloatEnumItem| it@) == v@.map_values(|it: FloatEnumItem| it@),
{
    let mut r: Vec<FloatEnumItem> = Vec::new();
    let mut k: usize = 0;
    while k < v.len()
        invariant
            k <= v@.len(),
            r@.map_values(|it: FloatEnumItem| it@) == v@.subrange(0, k as int).map_values(
                |it: FloatEnumItem| it@,
            ),
        decreases v@.len() - k,
    {
        let item = FloatEnumItem { item: v[k].item, long_item: v[k].long_item.clone() };
        assert(item@ == v@[k as int]@);
        let ghost prev = r@;
        r.push(item);
        assert(v@.subrange(0, k + 1) =~= v@.subrange(0, k as int).push(v@[k as int]));
        k += 1;
        assert(r@.map_values(|it: FloatEnumItem| it@) =~= prev.map_values(|it: FloatEnumItem| it@).push(
            r@[k - 1]@,
        ));
        assert(r@.map_values(|it: FloatEnumItem| it@) =~= v@.subrange(0, k as int).map_values(
            |it: FloatEnumItem| it@,
        ));
    }
    assert(v@.subrange(0, v@.len() as int) =~= v@);
    r
}

fn copy_bytes(v: &Vec<u8>) -> (r: Vec<u8>)
    ensures
        r@ == v@,
{
    let mut r: Vec<u8> = Vec::new();
    let mut k: usize = 0;
    while k < v.len()
        invariant
            k <= v@.len(),
            r@ == v@.subrange(0, k as int),
        decreases v@.len() - k,
    {
        r.push(v[k]);
        k += 1;
        assert(r@ =~= v@.subrange(0, k as int));
    }
    assert(v@.subrange(0, v@.len() as int) =~= v@);
    r
}

impl Clone for WingNodeDef {
    /// A copy of the definition, down to its items and its record.
    fn clone(&self) -> (d: Self)
        ensures
            d@ == self@,
    {
        let string_enum = match &self.string_enum {
            Some(v) => Some(copy_string_items(v)),
            None => None,
        };
        let float_enum = match &self.float_enum {
            Some(v) => Some(copy_float_items(v)),
            None => None,
        };
        WingNodeDef {
            id: self.id,
            parent_id: self.parent_id,
            index: self.index,
            name: self.name.clone(),
            long_name: self.long_name.clone(),
            node_type: self.node_type,
            unit: self.unit,
            read_only: self.read_only,
            min_float: self.min_float,
            max_float: self.max_float,
            steps: self.steps,
            min_int: self.min_int,
            max_int: self.max_int,
            max_string_len: self.max_string_len,
            string_enum,
            float_enum,
            raw: copy_bytes(&self.raw),
        }
    }
}

/// Reads the length-prefixed UTF-8 text at offset `i`.
fn read_text(raw: &[u8], i: usize) -> (r: Option<(String, usize)>)
    ensures
        match r {
            Some((s, j)) => text_at(raw@, i as int) == Some((s@, j as int)),
            None => text_at(raw@, i as int) is None,
        },
{
    if i >= raw.len() {
        return None;
    }
    let n = raw[i] as usize;
    if n >= raw.len() - i {
        return None;
    }
    let end = i + 1 + n;
    let mut bytes: Vec<u8> = Vec::new();
    let mut k = i + 1;
    while k < end
        invariant
            i + 1 <= k <= end <= raw@.len(),
            bytes@ == raw@.subrange(i + 1, k as int),
        decreases end - k,
    {
        bytes.push(raw[k]);
        k += 1;
        assert(bytes@ =~= raw@.subrange(i + 1, k as int));
    }
    match string_from_utf8(bytes) {
        Some(s) => Some((s, end)),
        None => None,
    }
}

proof fn lemma_string_items_fail(raw: Seq<u8>, i: int, k: nat, n: nat)
    requires
        k <= n,
        string_items(raw, i, k) is None,
    ensures
        string_items(raw, i, n) is None,
    decreases n,
{
    if k < n {
        lemma_string_items_fail(raw, i, k, (n - 1) as nat);
    }
}

proof fn lemma_float_items_fail(raw: Seq<u8>, i: int, k: nat, n: nat)
    requires
        k <= n,
        float_items(raw, i, k) is None,
    ensures
        float_items(raw, i, n) is None,
    decreases n,
{
    if k < n {
        lemma_float_items_fail(raw, i, k, (n - 1) as nat);
    }
}

fn read_string_items(raw: &[u8], i: usize, n: u16) -> (r: Option<Vec<StringEnumItem>>)
    ensures
        match r {
            Some(v) => string_items(raw@, i as int, n as nat) is Some && string_items(
                raw@,
                i as int,
                n as nat,
            ).unwrap().0 == v@.map_values(|it: StringEnumItem| it@),
            None => string_items(raw@, i as int, n as nat) is None,
        },
{
    let mut items: Vec<StringEnumItem> = Vec::new();
    let mut pos = i;
    let mut k: u16 = 0;
    while k < n
        invariant
            k <= n,
            string_items(raw@, i as int, k as nat) == Some(
                (items@.map_values(|it: StringEnumItem| it@), pos as int),
            ),
        decreases n - k,
    {
        let ghost prev = items@.map_values(|it: StringEnumItem| it@);
        let first = read_text(raw, pos);
        match first {
            Some((item, p1)) => {
                let second = read_text(raw, p1);
                match second {
                    Some((long_item, p2)) => {
                        items.push(StringEnumItem { item, long_item });
                        pos = p2;
                        k = k + 1;
                        assert(items@.map_values(|it: StringEnumItem| it@) =~= prev.push(
                            (items@[items@.len() - 1]@),
                        ));
                    },
                    None => {
                        proof {
                            lemma_string_items_fail(raw@, i as int, (k + 1) as nat, n as nat);
                        }
                        return None;
                    },
                }
            },
            None => {
                proof {
                    lemma_string_items_fail(raw@, i as int, (k + 1) as nat, n as nat);
                }
                return None;
            },
        }
    }
    Some(items)
}

fn read_float_items(raw: &[u8], i: usize, n: u16) -> (r: Option<Vec<FloatEnumItem>>)
    ensures
        match r {
            Some(v) => float_items(raw@, i as int, n as nat) is Some && float_items(
                raw@,
                i as int,
                n as nat,
            ).unwrap().0 == v@.map_values(|it: FloatEnumItem| it@),
            None => float_items(raw@, i as int, n as nat) is None,
        },
{
    let mut items: Vec<FloatEnumItem> = Vec::new();
    let mut pos = i;
    let mut k: u16 = 0;
    while k < n
        invariant
            k <= n,
            float_items(raw@, i as int, k as nat) == Some(
                (items@.map_values(|it: FloatEnumItem| it@), pos as int),
            ),
        decreases n - k,
    {
        let ghost prev = items@.map_values(|it: FloatEnumItem| it@);
        if pos > raw.len() || raw.len() - pos < 4 {
            proof {
                lemma_float_items_fail(raw@, i as int, (k + 1) as nat, n as nat);
            }
            return None;
        }
        let bits = read_be32(raw, pos);
        match read_text(raw, pos + 4) {
            Some((long_item, p2)) => {
                items.push(FloatEnumItem { item: Float32 { bits }, long_item });
                pos = p2;
                k = k + 1;
                assert(items@.map_values(|it: FloatEnumItem| it@) =~= prev.push(
                    (items@[items@.len() - 1]@),
                ));
            },
            None => {
                proof {
                    lemma_float_items_fail(raw@, i as int, (k + 1) as nat, n as nat);
                }
                return None;
            },
        }
    }
    Some(items)
}

impl WingNodeDef {
    /// Parses a node-definition record, or gives `None` where the record is cut short or a
    /// text in it is not UTF-8.
    pub fn try_from_bytes(raw: &[u8]) -> (r: Option<WingNodeDef>)
        ensures
            match r {
                Some(d) => parse_node_def(raw@) == Some(d@),
                None => parse_node_def(raw@) is None,
            },
    {
        if raw.len() < 11 {
            return None;
        }
        let parent_id = to_signed32(read_be32(raw, 0));
        let id = to_signed32(read_be32(raw, 4));
        let index = read_be16(raw, 8);
        let (name, i) = match read_text(raw, 10) {
            Some(x) => x,
            None => return None,
        };
        let (long_name, j) = match read_text(raw, i) {
            Some(x) => x,
            None => return None,
        };
        if j > raw.len() || raw.len() - j < 2 {
            return None;
        }
        let flags = read_be16(raw, j);
        let node_type = node_type_from_code((flags / 16) % 16);
        let unit = node_unit_from_code(flags % 16);
        let read_only = (flags / 512) % 2 == 1;
        let p = j + 2;
        let ghost t = node_type;
        let mut min_float: Option<Float32> = None;
        let mut max_float: Option<Float32> = None;
        let mut steps: Option<i32> = None;
        let mut min_int: Option<i32> = None;
        let mut max_int: Option<i32> = None;
        let mut max_string_len: Option<u16> = None;
        let mut string_enum: Option<Vec<StringEnumItem>> = None;
        let mut float_enum: Option<Vec<FloatEnumItem>> = None;
        match node_type {
            NodeType::Node | NodeType::FaderLevel => {},
            NodeType::String => {
                if raw.len() - p < 2 {
                    return None;
                }
                max_string_len = Some(read_be16(raw, p));
            },
            NodeType::LinearFloat | NodeType::LogarithmicFloat => {
                if raw.len() - p < 12 {
                    return None;
                }
                min_float = Some(Float32 { bits: read_be32(raw, p) });
                max_float = Some(Float32 { bits: read_be32(raw, p + 4) });
                steps = Some(to_signed32(read_be32(raw, p + 8)));
            },
            NodeType::Integer => {
                if raw.len() - p < 8 {
                    return None;
                }
                min_int = Some(to_signed32(read_be32(raw, p)));
                max_int = Some(to_signed32(read_be32(raw, p + 4)));
            },
            NodeType::StringEnum => {
                if raw.len() - p < 2 {
                    return None;
                }
                let num = read_be16(raw, p);
                match read_string_items(raw, p + 2, num) {
                    Some(items) => {
                        if num != 0 {
                            string_enum = Some(items);
                        }
                    },
                    None => return None,
                }
            },
            NodeType::FloatEnum => {
                if raw.len() - p < 2 {
                    return None;
                }
                let num = read_be16(raw, p);
                match read_float_items(raw, p + 2, num) {
                    Some(items) => {
                        if num != 0 {
                            float_enum = Some(items);
                        }
                    },
                    None => return None,
                }
            },
        }
        let mut copy: Vec<u8> = Vec::new();
        let mut k: usize = 0;
        while k < raw.len()
            invariant
                k <= raw@.len(),
                copy@ == raw@.subrange(0, k as int),
            decreases raw@.len() - k,
        {
            copy.push(raw[k]);
            k += 1;
            assert(copy@ =~= raw@.subrange(0, k as int));
        }
        assert(copy@ =~= raw@);
        let def = WingNodeDef {
            id,
            parent_id,
            index,
            name,
            long_name,
            node_type,
            unit,
            read_only,
            min_float,
            max_float,
            steps,
            min_int,
            max_int,
            max_string_len,
            string_enum,
            float_enum,
            raw: copy,
        };
        assert(def@.details == details_at(raw@, p as int, t).unwrap());
        Some(def)
    }

    /// Parses a node-definition record that is known to be well formed.
    pub fn from_bytes(raw: &[u8]) -> (r: WingNodeDef)
        requires
            parse_node_def(raw@) is Some,
        ensures
            parse_node_def(raw@) == Some(r@),
    {
        match Self::try_from_bytes(raw) {
            Some(d) => d,
            None => vstd::pervasive::unreached(),
        }
    }

    pub fn get_type(&self) -> (t: NodeType)
        ensures
            t == self.node_type,
    {
        self.node_type
    }

    pub fn get_unit(&self) -> (u: NodeUnit)
        ensures
            u == self.unit,
    {
        self.unit
    }

    pub fn is_read_only(&self) -> (b: bool)
        ensures
            b == self.read_only,
    {
        self.read_only
    }
}

/// The mathematical model of a node value.
pub struct NodeDataView {
    pub string_value: Option<Seq<char>>,
    pub float_value: Option<u32>,
    pub int_value: Option<i32>,
}

/// A value of a node, as the console reports it.
#[derive(Clone, Debug)]
pub struct WingNodeData {
    string_value: Option<String>,
    float_value: Option<Float32>,
    int_value: Option<i32>,
}

impl View for WingNodeData {
    type V = NodeDataView;

    closed spec fn view(&self) -> NodeDataView {
        NodeDataView {
            string_value: match self.string_value {
                Some(s) => Some(s@),
                None => None,
            },
            float_value: float_bits(self.float_value),
            int_value: self.int_value,
        }
    }
}

impl Default for WingNodeData {
    /// No value.
    fn default() -> (d: Self)
        ensures
            d@ == (NodeDataView { string_value: None, float_value: None, int_value: None }),
    {
        WingNodeData::new()
    }
}

impl WingNodeData {
    pub fn new() -> (d: Self)
        ensures
            d@ == (NodeDataView { string_value: None, float_value: None, int_value: None }),
    {
        WingNodeData { string_value: None, float_value: None, int_value: None }
    }

    pub fn with_string(s: String) -> (d: Self)
        ensures
            d@ == (NodeDataView { string_value: Some(s@), float_value: None, int_value: None }),
    {
        WingNodeData { string_value: Some(s), float_value: None, int_value: None }
    }

    pub fn with_float(f: Float32) -> (d: Self)
        ensures
            d@ == (NodeDataView { string_value: None, float_value: Some(f.bits), int_value: None }),
    {
        WingNodeData { string_value: None, float_value: Some(f), int_value: None }
    }

    pub fn with_i32(i: i32) -> (d: Self)
        ensures
            d@ == (NodeDataView { string_value: None, float_value: None, int_value: Some(i) }),
    {
        WingNodeData { string_value: None, float_value: None, int_value: Some(i) }
    }

    pub fn with_i16(i: i16) -> (d: Self)
        ensures
            d@ == (NodeDataView {
                string_value: None,
                float_value: None,
                int_value: Some(i as i32),
            }),
    {
        WingNodeData { string_value: None, float_value: None, int_value: Some(i as i32) }
    }

    pub fn with_i8(i: i8) -> (d: Self)
        ensures
            d@ == (NodeDataView {
                string_value: None,
                float_value: None,
                int_value: Some(i as i32),
            }),
    {
        WingNodeData { string_value: None, float_value: None, int_value: Some(i as i32) }
    }

    /// The float value, or positive zero where the value is not a float.
    pub fn get_float(&self) -> (f: Float32)
        ensures
            f.bits == match self@.float_value {
                Some(b) => b,
                None => 0,
            },
    {
        match self.float_value {
            Some(f) => f,
            None => Float32 { bits: 0 },
        }
    }

    /// The integer value, or zero where the value is not an integer.
    pub fn get_int(&self) -> (i: i32)
        ensures
            i == match self@.int_value {
                Some(v) => v,
                None => 0,
            },
    {
        match self.int_value {
            Some(v) => v,
            None => 0,
        }
    }

    pub(crate) fn string_text(&self) -> (s: Option<&String>)
        ensures
            match s {
                Some(t) => self@.string_value == Some(t@),
                None => self@.string_value is None,
            },
    {
        match &self.string_value {
            Some(t) => Some(t),
            None => None,
        }
    }

    pub fn has_string(&self) -> (b: bool)
        ensures
            b == self@.string_value is Some,
    {
        self.string_value.is_some()
    }

    pub fn has_float(&self) -> (b: bool)
        ensures
            b == self@.float_value is Some,
    {
        self.float_value.is_some()
    }

    pub fn has_int(&self) -> (b: bool)
        ensures
            b == self@.int_value is Some,
    {
        self.int_value.is_some()
    }
}

} // verus!
