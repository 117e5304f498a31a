use vstd::prelude::*;

use crate::node::{FloatEnumItem, NodeDataView, NodeDefView, NodeType, NodeUnit, StringEnumItem, WingNodeData, WingNodeDef};

verus! {

/// `String::push_str`: appends `t` to `s`.
#[verifier::external_body]
pub fn push_str(s: &mut String, t: &str)
    ensures
        final(s)@ == old(s)@ + t@,
{
    s.push_str(t)
}

/// `String::push`: appends `c` to `s`.
#[verifier::external_body]
pub fn push_char(s: &mut String, c: char)
    ensures
        final(s)@ == old(s)@.push(c),
{
    s.push(c)
}

pub open spec fn digit_char(d: int) -> char {
    (d + 48) as char
}

/// The decimal digits of `n`.
pub open spec fn nat_text(n: nat) -> Seq<char>
    decreases n,
{
    if n < 10 {
        seq![digit_char(n as int)]
    } else {
        nat_text(n / 10) + seq![digit_char((n % 10) as int)]
    }
}

/// The decimal text of `v`, with a minus sign where it is negative.
pub open spec fn int_text(v: int) -> Seq<char> {
    if v < 0 {
        seq!['-'] + nat_text((-v) as nat)
    } else {
        nat_text(v as nat)
    }
}

fn digit(d: u64) -> (c: char)
    requires
        d < 10,
    ensures
        c == digit_char(d as int),
{
    match d {
        0 => '0',
        1 => '1',
        2 => '2',
        3 => '3',
        4 => '4',
        5 => '5',
        6 => '6',
        7 => '7',
        8 => '8',
        _ => '9',
    }
}

/// Appends the decimal digits of `n`.
pub fn push_nat(s: &mut String, n: u64)
    ensures
        final(s)@ == old(s)@ + nat_text(n as nat),
    decreases n,
{
    if n >= 10 {
        push_nat(s, n / 10);
    }
    push_char(s, digit(n % 10));
    assert(final(s)@ =~= old(s)@ + nat_text(n as nat));
}

/// Appends the decimal text of `v`.
pub fn push_int(s: &mut String, v: i64)
    requires
        v > i64::MIN,
    ensures
        final(s)@ == old(s)@ + int_text(v as int),
{
    if v < 0 {
        push_char(s, '-');
        push_nat(s, (-v) as u64);
    } else {
        push_nat(s, v as u64);
    }
    assert(final(s)@ =~= old(s)@ + int_text(v as int));
}

/// The texts of a definition's floats, which the caller renders: its minimum, its maximum
/// and the values of its float-enum items, in order.
pub struct FloatTexts {
    pub min: String,
    pub max: String,
    pub items: Vec<String>,
}

pub open spec fn type_text(t: NodeType) -> Seq<char> {
    match t {
        NodeType::Node => "node"@,
        NodeType::LinearFloat => "linear float"@,
        NodeType::LogarithmicFloat => "log float"@,
        NodeType::Integer => "integer"@,
        NodeType::String => "string"@,
        NodeType::FaderLevel => "fader level (float)"@,
        NodeType::StringEnum => "string enum"@,
        NodeType::FloatEnum => "float enum"@,
    }
}

pub open spec fn unit_text(u: NodeUnit) -> Seq<char> {
    match u {
        NodeUnit::Db => "dB"@,
        NodeUnit::Percent => "%"@,
        NodeUnit::Milliseconds => "ms"@,
        NodeUnit::Hertz => "Hz"@,
        NodeUnit::Meters => "meters"@,
        NodeUnit::Seconds => "seconds"@,
        NodeUnit::Octaves => "octaves"@,
        NodeUnit::Unitless => "UNKNOWN"@,
    }
}

/// One line of an item list: the first is indented less, a long label follows in brackets.
pub open spec fn item_line(first: bool, item: Seq<char>, long: Seq<char>) -> Seq<char> {
    (if first {
        "     "@
    } else {
        "           "@
    }) + item + (if long.len() > 0 {
        " ("@ + long + ")"@
    } else {
        seq![]
    }) + seq!['\n']
}

/// The lines of an item list, each item given as its text and its long label.
pub open spec fn item_lines(items: Seq<(Seq<char>, Seq<char>)>) -> Seq<char>
    decreases items.len(),
{
    if items.len() == 0 {
        seq![]
    } else {
        item_lines(items.drop_last()) + item_line(items.len() == 1, items.last().0, items.last().1)
    }
}

pub open spec fn opt_line(label: Seq<char>, present: bool, value: Seq<char>) -> Seq<char> {
    if present {
        label + value
    } else {
        seq![]
    }
}

/// The type-dependent lines of a description.
pub open spec fn detail_text(
    d: NodeDefView,
    min: Seq<char>,
    max: Seq<char>,
    float_items: Seq<Seq<char>>,
) -> Seq<char> {
    let x = d.details;
    match d.node_type {
        NodeType::LinearFloat | NodeType::LogarithmicFloat | NodeType::FaderLevel => opt_line(
            "\nMinimum:   "@,
            x.min_float is Some,
            min,
        ) + opt_line("\nMaximum:   "@, x.max_float is Some, max) + opt_line(
            "\nSteps:     "@,
            x.steps is Some,
            int_text(x.steps.unwrap() as int),
        ),
        NodeType::Integer => opt_line(
            "\nMinimum:   "@,
            x.min_int is Some,
            int_text(x.min_int.unwrap() as int),
        ) + opt_line("\nMaximum:   "@, x.max_int is Some, int_text(x.max_int.unwrap() as int)),
        NodeType::String => opt_line(
            "\nMaxLength: "@,
            x.max_string_len is Some,
            int_text(x.max_string_len.unwrap() as int),
        ),
        NodeType::StringEnum => match x.string_enum {
            Some(items) => "\nItems:"@ + item_lines(items),
            None => seq![],
        },
        NodeType::FloatEnum => match x.float_enum {
            Some(items) => "\nItems:"@ + item_lines(
                Seq::new(items.len(), |k: int| (float_items[k], items[k].1)),
            ),
            None => seq![],
        },
        NodeType::Node => seq![],
    }
}

/// The first lines of a description: the id and whether the node is read-only.
pub open spec fn id_text(d: NodeDefView) -> Seq<char> {
    "Id:        "@ + int_text(d.id as int) + "\nRead-only: "@ + (if d.read_only {
        "yes"@
    } else {
        "no"@
    })
}

/// The lines of a description that name the node: its index and names, where present.
pub open spec fn naming_text(d: NodeDefView) -> Seq<char> {
    opt_line("\nIndex:     "@, d.index != 0, int_text(d.index as int)) + opt_line(
        "\nName:      "@,
        d.name.len() > 0,
        d.name,
    ) + opt_line("\nLong Name: "@, d.long_name.len() > 0, d.long_name)
}

/// The lines of a description that give the node's type and unit.
pub open spec fn kind_text(d: NodeDefView) -> Seq<char> {
    "\nType:      "@ + type_text(d.node_type) + opt_line(
        "\nUnit:      "@,
        d.unit != NodeUnit::Unitless,
        unit_text(d.unit),
    )
}

/// The lines of a description that every definition has.
pub open spec fn header_text(d: NodeDefView) -> Seq<char> {
    id_text(d) + naming_text(d) + kind_text(d)
}

/// The description of a definition, one field per line, `min`, `max` and `float_items`
/// being the texts of its floats.
pub open spec fn description(
    d: NodeDefView,
    min: Seq<char>,
    max: Seq<char>,
    float_items: Seq<Seq<char>>,
) -> Seq<char> {
    header_text(d) + detail_text(d, min, max, float_items)
}

fn push_type(s: &mut String, t: NodeType)
    ensures
        final(s)@ == old(s)@ + type_text(t),
{
    match t {
        NodeType::Node => push_str(s, "node"),
        NodeType::LinearFloat => push_str(s, "linear float"),
        NodeType::LogarithmicFloat => push_str(s, "log float"),
        NodeType::Integer => push_str(s, "integer"),
        NodeType::String => push_str(s, "string"),
        NodeType::FaderLevel => push_str(s, "fader level (float)"),
        NodeType::StringEnum => push_str(s, "string enum"),
        NodeType::FloatEnum => push_str(s, "float enum"),
    }
}

fn push_unit(s: &mut String, u: NodeUnit)
    ensures
        final(s)@ == old(s)@ + unit_text(u),
{
    match u {
        NodeUnit::Db => push_str(s, "dB"),
        NodeUnit::Percent => push_str(s, "%"),
        NodeUnit::Milliseconds => push_str(s, "ms"),
        NodeUnit::Hertz => push_str(s, "Hz"),
        NodeUnit::Meters => push_str(s, "meters"),
        NodeUnit::Seconds => push_str(s, "seconds"),
        NodeUnit::Octaves => push_str(s, "octaves"),
        NodeUnit::Unitless => push_str(s, "UNKNOWN"),
    }
}

fn push_item_line(s: &mut String, first: bool, item: &String, long: &String)
    ensures
        final(s)@ == old(s)@ + item_line(first, item@, long@),
{
    if first {
        push_str(s, "     ");
    } else {
        push_str(s, "           ");
    }
    push_str(s, item.as_str());
    if !long.as_str().is_empty() {
        push_str(s, " (");
        push_str(s, long.as_str());
        push_str(s, ")");
    }
    push_char(s, '\n');
    assert(final(s)@ =~= old(s)@ + item_line(first, item@, long@));
}

fn push_string_items(s: &mut String, items: &Vec<StringEnumItem>)
    ensures
        final(s)@ == old(s)@ + item_lines(items@.map_values(|it: StringEnumItem| it@)),
{
    let ghost start = s@;
    let mut k: usize = 0;
    while k < items.len()
        invariant
            k <= items@.len(),
            s@ == start + item_lines(
                items@.subrange(0, k as int).map_values(|it: StringEnumItem| it@),
            ),
        decreases items@.len() - k,
    {
        let ghost prev = s@;
        push_item_line(s, k == 0, &items[k].item, &items[k].long_item);
        let ghost sub = items@.subrange(0, k + 1).map_values(|it: StringEnumItem| it@);
        assert(sub.drop_last() =~= items@.subrange(0, k as int).map_values(|it: StringEnumItem| it@));
        assert(sub.last() == items@[k as int]@);
        k += 1;
        assert(s@ =~= start + item_lines(sub));
    }
    assert(items@.subrange(0, items@.len() as int) =~= items@);
}

fn push_float_items(s: &mut String, items: &Vec<FloatEnumItem>, texts: &Vec<String>)
    requires
        texts@.len() == items@.len(),
    ensures
        final(s)@ == old(s)@ + item_lines(
            Seq::new(items@.len(), |k: int| (texts@[k]@, items@[k]@.1)),
        ),
{
    let ghost start = s@;
    let ghost all = Seq::new(items@.len(), |k: int| (texts@[k]@, items@[k]@.1));
    let mut k: usize = 0;
    while k < items.len()
        invariant
            k <= items@.len(),
            texts@.len() == items@.len(),
            all == Seq::new(items@.len(), |k: int| (texts@[k]@, items@[k]@.1)),
            s@ == start + item_lines(all.subrange(0, k as int)),
        decreases items@.len() - k,
    {
        push_item_line(s, k == 0, &texts[k], &items[k].long_item);
        assert(all.subrange(0, k + 1).drop_last() =~= all.subrange(0, k as int));
        k += 1;
        assert(s@ =~= start + item_lines(all.subrange(0, k as int)));
    }
    assert(all.subrange(0, items@.len() as int) =~= all);
}

impl WingNodeDef {
    fn push_id_text(&self, r: &mut String)
        ensures
            final(r)@ == old(r)@ + id_text(self@),
    {
        let ghost h0 = r@;
        push_str(r, "Id:        ");
        push_int(r, self.id as i64);
        push_str(r, "\nRead-only: ");
        if self.read_only {
            push_str(r, "yes");
        } else {
            push_str(r, "no");
        }
        assert(r@ =~= h0 + id_text(self@));
    }

    fn push_naming_text(&self, r: &mut String)
        ensures
            final(r)@ == old(r)@ + naming_text(self@),
    {
        let ghost h0 = r@;
        if self.index != 0 {
            push_str(r, "\nIndex:     ");
            push_int(r, self.index as i64);
        }
        let ghost h1 = r@;
        assert(h1 =~= h0 + opt_line("\nIndex:     "@, self.index != 0, int_text(self.index as int)));
        if !self.name.as_str().is_empty() {
            push_str(r, "\nName:      ");
            push_str(r, self.name.as_str());
        }
        let ghost h2 = r@;
        assert(h2 =~= h1 + opt_line("\nName:      "@, self.name@.len() > 0, self.name@));
        if !self.long_name.as_str().is_empty() {
            push_str(r, "\nLong Name: ");
            push_str(r, self.long_name.as_str());
        }
        assert(r@ =~= h2 + opt_line("\nLong Name: "@, self.long_name@.len() > 0, self.long_name@));
        assert(r@ =~= h0 + naming_text(self@));
    }

    fn push_kind_text(&self, r: &mut String)
        ensures
            final(r)@ == old(r)@ + kind_text(self@),
    {
        let ghost h0 = r@;
        push_str(r, "\nType:      ");
        push_type(r, self.node_type);
        let ghost h4 = r@;
        if self.unit != NodeUnit::Unitless {
            push_str(r, "\nUnit:      ");
            push_unit(r, self.unit);
        }
        assert(r@ =~= h4 + opt_line("\nUnit:      "@, self.unit != NodeUnit::Unitless, unit_text(self.unit)));
        assert(r@ =~= h0 + kind_text(self@));
    }

    fn push_header(&self, r: &mut String)
        ensures
            final(r)@ == old(r)@ + header_text(self@),
    {
        let ghost h0 = r@;
        self.push_id_text(r);
        self.push_naming_text(r);
        self.push_kind_text(r);
        assert(r@ =~= h0 + header_text(self@));
    }

    fn push_details(&self, r: &mut String, floats: &FloatTexts)
        requires
            self.float_enum matches Some(v) ==> floats.items@.len() == v@.len(),
        ensures
            final(r)@ == old(r)@ + detail_text(
                self@,
                floats.min@,
                floats.max@,
                floats.items@.map_values(|t: String| t@),
            ),
    {
        let ghost h5 = r@;
        let ghost fi = floats.items@.map_values(|t: String| t@);
        match self.node_type {
            NodeType::LinearFloat | NodeType::LogarithmicFloat | NodeType::FaderLevel => {
                if self.min_float.is_some() {
                    push_str(r, "\nMinimum:   ");
                    push_str(r, floats.min.as_str());
                }
                if self.max_float.is_some() {
                    push_str(r, "\nMaximum:   ");
                    push_str(r, floats.max.as_str());
                }
                if let Some(steps) = self.steps {
                    push_str(r, "\nSteps:     ");
                    push_int(r, steps as i64);
                }
                assert(r@ =~= h5 + detail_text(self@, floats.min@, floats.max@, fi));
            },
            NodeType::Integer => {
                if let Some(v) = self.min_int {
                    push_str(r, "\nMinimum:   ");
                    push_int(r, v as i64);
                }
                if let Some(v) = self.max_int {
                    push_str(r, "\nMaximum:   ");
                    push_int(r, v as i64);
                }
                assert(r@ =~= h5 + detail_text(self@, floats.min@, floats.max@, fi));
            },
            NodeType::String => {
                if let Some(v) = self.max_string_len {
                    push_str(r, "\nMaxLength: ");
                    push_int(r, v as i64);
                }
                assert(r@ =~= h5 + detail_text(self@, floats.min@, floats.max@, fi));
            },
            NodeType::StringEnum => {
                if let Some(items) = &self.string_enum {
                    push_str(r, "\nItems:");
                    push_string_items(r, items);
                }
                assert(r@ =~= h5 + detail_text(self@, floats.min@, floats.max@, fi));
            },
            NodeType::FloatEnum => {
                if let Some(items) = &self.float_enum {
                    push_str(r, "\nItems:");
                    push_float_items(r, items, &floats.items);
                    assert(Seq::new(items@.len(), |k: int| (floats.items@[k]@, items@[k]@.1))
                        =~= Seq::new(
                        items@.map_values(|it: FloatEnumItem| it@).len(),
                        |k: int| (fi[k], items@.map_values(|it: FloatEnumItem| it@)[k].1),
                    ));
                }
                assert(r@ =~= h5 + detail_text(self@, floats.min@, floats.max@, fi));
            },
            NodeType::Node => {
                assert(r@ =~= h5 + detail_text(self@, floats.min@, floats.max@, fi));
            },
        }
    }

    /// A description of the definition, one field per line; the texts of its floats are
    /// given in `floats`.
    pub fn to_description(&self, floats: &FloatTexts) -> (r: String)
        requires
            self.float_enum matches Some(v) ==> floats.items@.len() == v@.len(),
        ensures
            r@ == description(
                self@,
                floats.min@,
                floats.max@,
                floats.items@.map_values(|t: String| t@),
            ),
    {
        let mut r = String::new();
        self.push_header(&mut r);
        self.push_details(&mut r, floats);
        assert(r@ =~= description(
            self@,
            floats.min@,
            floats.max@,
            floats.items@.map_values(|t: String| t@),
        ));
        r
    }
}

/// The text of a value: a string as it is, a float as `float_text` renders it, an integer
/// in decimal, and the empty text where there is no value.
pub open spec fn value_text(v: NodeDataView, float_text: Seq<char>) -> Seq<char> {
    match v.string_value {
        Some(s) => s,
        None => match v.float_value {
            Some(_) => float_text,
            None => match v.int_value {
                Some(i) => int_text(i as int),
                None => seq![],
            },
        },
    }
}

impl WingNodeData {
    /// The value as text (see [`value_text`]); the text of a float value is given in
    /// `float_text`.
    pub fn get_string(&self, float_text: &str) -> (s: String)
        ensures
            s@ == value_text(self@, float_text@),
    {
        let mut s = String::new();
        if let Some(t) = self.string_text() {
            push_str(&mut s, t.as_str());
        } else if self.has_float() {
            push_str(&mut s, float_text);
        } else if self.has_int() {
            push_int(&mut s, self.get_int() as i64);
        }
        assert(s@ =~= value_text(self@, float_text@));
        s
    }
}

/// A description opens with the node's id and whether it is read-only, and gives its
/// index, names, type and unit before the lines of its type.
pub proof fn law_description_opens_with_id(
    d: NodeDefView,
    min: Seq<char>,
    max: Seq<char>,
    float_items: Seq<Seq<char>>,
)
    ensures
        description(d, min, max, float_items).subrange(0, id_text(d).len() as int) == id_text(d),
        description(d, min, max, float_items) == id_text(d) + naming_text(d) + kind_text(d)
            + detail_text(d, min, max, float_items),
{
    let t = description(d, min, max, float_items);
    assert(t.subrange(0, id_text(d).len() as int) =~= id_text(d));
}


/// Decimal text: a number below ten is its digit ('0' to '9'), a larger one the text of its
/// tens followed by the digit of its ones, and a negative number a minus sign and the text
/// of its magnitude.
pub proof fn law_decimal_text(v: int)
    ensures
        0 <= v < 10 ==> int_text(v) == seq![(v + 48) as char],
        v >= 10 ==> int_text(v) == int_text(v / 10) + seq![((v % 10) + 48) as char],
        v < 0 ==> int_text(v) == seq!['-'] + int_text(-v),
        forall|k: int| 0 <= k < int_text(v).len() ==> ('0' <= #[trigger] int_text(v)[k] <= '9' || (k == 0 && v < 0
            && int_text(v)[k] == '-')),
{
    lemma_digits(if v < 0 { -v } else { v });
    if v >= 10 {
        assert(int_text(v / 10) == nat_text((v / 10) as nat));
    }
}

proof fn lemma_digits(n: int)
    requires
        n >= 0,
    ensures
        forall|k: int| 0 <= k < nat_text(n as nat).len() ==> '0' <= #[trigger] nat_text(n as nat)[k] <= '9',
    decreases n,
{
    if n >= 10 {
        lemma_digits(n / 10);
        let t = nat_text(n as nat);
        assert forall|k: int| 0 <= k < t.len() implies '0' <= #[trigger] t[k] <= '9' by {
            if k < nat_text((n / 10) as nat).len() {
                assert(t[k] == nat_text((n / 10) as nat)[k]);
            }
        }
    }
}

/// The text of a description, line by line: the id, whether the node is read-only, then
/// where present its index, name and long name, always its type, where it has one its
/// unit, then the lines of its type; each line starts with its label, padded to eleven
/// characters, and carries the definition's own value.
pub proof fn law_description_text(d: NodeDefView, min: Seq<char>, max: Seq<char>, float_items: Seq<Seq<char>>)
    ensures
        description(d, min, max, float_items) == "Id:        "@ + int_text(d.id as int) + "\nRead-only: "@
            + (if d.read_only { "yes"@ } else { "no"@ }) + (if d.index != 0 {
            "\nIndex:     "@ + int_text(d.index as int)
        } else {
            seq![]
        }) + (if d.name.len() > 0 {
            "\nName:      "@ + d.name
        } else {
            seq![]
        }) + (if d.long_name.len() > 0 {
            "\nLong Name: "@ + d.long_name
        } else {
            seq![]
        }) + "\nType:      "@ + type_text(d.node_type) + (if d.unit != NodeUnit::Unitless {
            "\nUnit:      "@ + unit_text(d.unit)
        } else {
            seq![]
        }) + detail_text(d, min, max, float_items),
        d.node_type == NodeType::Integer ==> detail_text(d, min, max, float_items) == (if d.details.min_int is Some {
            "\nMinimum:   "@ + int_text(d.details.min_int.unwrap() as int)
        } else {
            seq![]
        }) + (if d.details.max_int is Some {
            "\nMaximum:   "@ + int_text(d.details.max_int.unwrap() as int)
        } else {
            seq![]
        }),
        (d.node_type == NodeType::LinearFloat || d.node_type == NodeType::LogarithmicFloat
            || d.node_type == NodeType::FaderLevel) ==> detail_text(d, min, max, float_items) == (if d.details.min_float is Some {
            "\nMinimum:   "@ + min
        } else {
            seq![]
        }) + (if d.details.max_float is Some {
            "\nMaximum:   "@ + max
        } else {
            seq![]
        }) + (if d.details.steps is Some {
            "\nSteps:     "@ + int_text(d.details.steps.unwrap() as int)
        } else {
            seq![]
        }),
        d.node_type == NodeType::String ==> detail_text(d, min, max, float_items) == (if d.details.max_string_len is Some {
            "\nMaxLength: "@ + int_text(d.details.max_string_len.unwrap() as int)
        } else {
            seq![]
        }),
        d.node_type == NodeType::Node ==> detail_text(d, min, max, float_items) == Seq::<char>::empty(),
{
    let yn = if d.read_only { "yes"@ } else { "no"@ };
    lemma_regroup(
        "Id:        "@,
        int_text(d.id as int),
        "\nRead-only: "@,
        yn,
        opt_line("\nIndex:     "@, d.index != 0, int_text(d.index as int)),
        opt_line("\nName:      "@, d.name.len() > 0, d.name),
        opt_line("\nLong Name: "@, d.long_name.len() > 0, d.long_name),
        "\nType:      "@,
        type_text(d.node_type),
        opt_line("\nUnit:      "@, d.unit != NodeUnit::Unitless, unit_text(d.unit)),
        detail_text(d, min, max, float_items),
    );
}

proof fn lemma_regroup(
    a: Seq<char>,
    b: Seq<char>,
    c: Seq<char>,
    d: Seq<char>,
    e: Seq<char>,
    f: Seq<char>,
    g: Seq<char>,
    h: Seq<char>,
    i: Seq<char>,
    j: Seq<char>,
    k: Seq<char>,
)
    ensures
        ((((a + b) + c) + d) + ((e + f) + g)) + ((h + i) + j) + k == a + b + c + d + e + f + g + h + i + j + k,
{
    assert(((((a + b) + c) + d) + ((e + f) + g)) + ((h + i) + j) + k =~= a + b + c + d + e + f + g + h + i + j + k);
}

/// One line of an item list: five blanks before the first item and eleven before the
/// others, the item, its long label in brackets after a blank where it has one, and a line
/// break.
pub proof fn law_item_line(first: bool, item: Seq<char>, long: Seq<char>)
    ensures
        item_line(first, item, long) == (if first { "     "@ } else { "           "@ }) + item + (if long.len() > 0 {
            " ("@ + long + ")"@
        } else {
            seq![]
        }) + seq!['\n'],
{
}

} // verus!
