use vstd::prelude::*;

use crate::node::{Float32, FloatEnumItem, NodeDefView, NodeType, NodeUnit, StringEnumItem, WingNodeDef};
use crate::text::unit_text;

verus! {

/// A value of a definition's JSON form.
#[derive(Clone, Debug, PartialEq)]
pub enum JsonField {
    Int(i64),
    Text(String),
    Flag(bool),
    Float(Float32),
    /// Enum items: the text of each and its long label, where it has one.
    StringItems(Vec<(String, Option<String>)>),
    /// Enum items: the value of each and its long label, where it has one.
    FloatItems(Vec<(Float32, Option<String>)>),
}

pub enum JsonFieldView {
    Int(int),
    Text(Seq<char>),
    Flag(bool),
    Float(u32),
    StringItems(Seq<(Seq<char>, Option<Seq<char>>)>),
    FloatItems(Seq<(u32, Option<Seq<char>>)>),
}

pub open spec fn opt_text(s: Option<String>) -> Option<Seq<char>> {
    match s {
        Some(t) => Some(t@),
        None => None,
    }
}

impl View for JsonField {
    type V = JsonFieldView;

    open spec fn view(&self) -> JsonFieldView {
        match self {
            JsonField::Int(i) => JsonFieldView::Int(*i as int),
            JsonField::Text(s) => JsonFieldView::Text(s@),
            JsonField::Flag(b) => JsonFieldView::Flag(*b),
            JsonField::Float(f) => JsonFieldView::Float(f.bits),
            JsonField::StringItems(v) => JsonFieldView::StringItems(
                v@.map_values(|e: (String, Option<String>)| (e.0@, opt_text(e.1))),
            ),
            JsonField::FloatItems(v) => JsonFieldView::FloatItems(
                v@.map_values(|e: (Float32, Option<String>)| (e.0.bits, opt_text(e.1))),
            ),
        }
    }
}

/// A long label as JSON carries it: only where it is not empty.
pub open spec fn long_label(long: Seq<char>) -> Option<Seq<char>> {
    if long.len() > 0 {
        Some(long)
    } else {
        None
    }
}

pub open spec fn json_type_text(t: NodeType) -> Seq<char> {
    match t {
        NodeType::Node => "node"@,
        NodeType::LinearFloat => "linear float"@,
        NodeType::LogarithmicFloat => "log float"@,
        NodeType::Integer => "integer"@,
        NodeType::String => "string"@,
        NodeType::FaderLevel => "fader level"@,
        NodeType::StringEnum => "string enum"@,
        NodeType::FloatEnum => "float enum"@,
    }
}

pub open spec fn opt_field(key: Seq<char>, present: bool, v: JsonFieldView) -> Seq<
    (Seq<char>, JsonFieldView),
> {
    if present {
        seq![(key, v)]
    } else {
        seq![]
    }
}

/// The fields of the JSON form of a definition that every definition has, where present.
pub open spec fn json_common_fields(d: NodeDefView) -> Seq<(Seq<char>, JsonFieldView)> {
    seq![("id"@, JsonFieldView::Int(d.id as int))] + opt_field(
        "index"@,
        d.index != 0,
        JsonFieldView::Int(d.index as int),
    ) + opt_field("name"@, d.name.len() > 0, JsonFieldView::Text(d.name)) + opt_field(
        "longname"@,
        d.long_name.len() > 0,
        JsonFieldView::Text(d.long_name),
    ) + seq![("type"@, JsonFieldView::Text(json_type_text(d.node_type)))] + opt_field(
        "unit"@,
        d.unit != NodeUnit::Unitless,
        JsonFieldView::Text(unit_text(d.unit)),
    ) + opt_field("read_only"@, d.read_only, JsonFieldView::Flag(true))
}

/// The type-dependent fields of the JSON form of a definition.
pub open spec fn json_detail_fields(d: NodeDefView) -> Seq<(Seq<char>, JsonFieldView)> {
    let x = d.details;
    match d.node_type {
        NodeType::LinearFloat | NodeType::LogarithmicFloat | NodeType::FaderLevel => opt_field(
            "minfloat"@,
            x.min_float is Some,
            JsonFieldView::Float(x.min_float.unwrap()),
        ) + opt_field("maxfloat"@, x.max_float is Some, JsonFieldView::Float(x.max_float.unwrap()))
            + opt_field("steps"@, x.steps is Some, JsonFieldView::Int(x.steps.unwrap() as int)),
        NodeType::Integer => opt_field(
            "minint"@,
            x.min_int is Some,
            JsonFieldView::Int(x.min_int.unwrap() as int),
        ) + opt_field("maxint"@, x.max_int is Some, JsonFieldView::Int(x.max_int.unwrap() as int)),
        NodeType::String => opt_field(
            "maxstringlen"@,
            x.max_string_len is Some,
            JsonFieldView::Int(x.max_string_len.unwrap() as int),
        ),
        NodeType::StringEnum => match x.string_enum {
            Some(items) => seq![
                ("items"@, JsonFieldView::StringItems(
                    items.map_values(|it: (Seq<char>, Seq<char>)| (it.0, long_label(it.1))),
                )),
            ],
            None => seq![],
        },
        NodeType::FloatEnum => match x.float_enum {
            Some(items) => seq![
                ("items"@, JsonFieldView::FloatItems(
                    items.map_values(|it: (u32, Seq<char>)| (it.0, long_label(it.1))),
                )),
            ],
            None => seq![],
        },
        NodeType::Node => seq![],
    }
}

/// The fields of the JSON form of a definition, in order, each as its key and its value.
pub open spec fn json_fields(d: NodeDefView) -> Seq<(Seq<char>, JsonFieldView)> {
    json_common_fields(d) + json_detail_fields(d)
}

pub open spec fn fields_view(v: Seq<(&'static str, JsonField)>) -> Seq<(Seq<char>, JsonFieldView)> {
    v.map_values(|e: (&'static str, JsonField)| (e.0@, e.1@))
}

fn push_field(out: &mut Vec<(&'static str, JsonField)>, key: &'static str, v: JsonField)
    ensures
        fields_view(final(out)@) == fields_view(old(out)@) + seq![(key@, v@)],
{
    out.push((key, v));
    assert(fields_view(final(out)@) =~= fields_view(old(out)@) + seq![(key@, v@)]);
}

fn copy_string(s: &String) -> (r: String)
    ensures
        r@ == s@,
{
    s.clone()
}

fn label_of(long: &String) -> (r: Option<String>)
    ensures
        opt_text(r) == long_label(long@),
{
    if long.as_str().is_empty() {
        None
    } else {
        Some(copy_string(long))
    }
}

fn string_items_json(items: &Vec<StringEnumItem>) -> (r: Vec<(String, Option<String>)>)
    ensures
        r@.map_values(|e: (String, Option<String>)| (e.0@, opt_text(e.1))) == items@.map_values(
            |it: StringEnumItem| it@,
        ).map_values(|it: (Seq<char>, Seq<char>)| (it.0, long_label(it.1))),
{
    let mut r: Vec<(String, Option<String>)> = Vec::new();
    let mut k: usize = 0;
    while k < items.len()
        invariant
            k <= items@.len(),
            r@.len() == k,
            forall|i: int|
                0 <= i < k ==> #[trigger] r@[i].0@ == items@[i].item@ && opt_text(r@[i].1)
                    == long_label(items@[i].long_item@),
        decreases items@.len() - k,
    {
        let e = (copy_string(&items[k].item), label_of(&items[k].long_item));
        r.push(e);
        k += 1;
    }
    assert(r@.map_values(|e: (String, Option<String>)| (e.0@, opt_text(e.1))) =~= items@.map_values(
        |it: StringEnumItem| it@,
    ).map_values(|it: (Seq<char>, Seq<char>)| (it.0, long_label(it.1))));
    r
}

fn float_items_json(items: &Vec<FloatEnumItem>) -> (r: Vec<(Float32, Option<String>)>)
    ensures
        r@.map_values(|e: (Float32, Option<String>)| (e.0.bits, opt_text(e.1))) == items@.map_values(
            |it: FloatEnumItem| it@,
        ).map_values(|it: (u32, Seq<char>)| (it.0, long_label(it.1))),
{
    let mut r: Vec<(Float32, Option<String>)> = Vec::new();
    let mut k: usize = 0;
    while k < items.len()
        invariant
            k <= items@.len(),
            r@.len() == k,
            forall|i: int|
                0 <= i < k ==> #[trigger] r@[i].0.bits == items@[i].item.bits && opt_text(r@[i].1)
                    == long_label(items@[i].long_item@),
        decreases items@.len() - k,
    {
        let e = (items[k].item, label_of(&items[k].long_item));
        r.push(e);
        k += 1;
    }
    assert(r@.map_values(|e: (Float32, Option<String>)| (e.0.bits, opt_text(e.1))) =~= items@.map_values(
        |it: FloatEnumItem| it@,
    ).map_values(|it: (u32, Seq<char>)| (it.0, long_label(it.1))));
    r
}

fn type_json(t: NodeType) -> (s: &'static str)
    ensures
        s@ == json_type_text(t),
{
    match t {
        NodeType::Node => "node",
        NodeType::LinearFloat => "linear float",
        NodeType::LogarithmicFloat => "log float",
        NodeType::Integer => "integer",
        NodeType::String => "string",
        NodeType::FaderLevel => "fader level",
        NodeType::StringEnum => "string enum",
        NodeType::FloatEnum => "float enum",
    }
}

fn unit_json(u: NodeUnit) -> (s: &'static str)
    ensures
        s@ == unit_text(u),
{
    match u {
        NodeUnit::Db => "dB",
        NodeUnit::Percent => "%",
        NodeUnit::Milliseconds => "ms",
        NodeUnit::Hertz => "Hz",
        NodeUnit::Meters => "meters",
        NodeUnit::Seconds => "seconds",
        NodeUnit::Octaves => "octaves",
        NodeUnit::Unitless => "UNKNOWN",
    }
}

fn text_field(s: &'static str) -> (f: JsonField)
    ensures
        f@ == JsonFieldView::Text(s@),
{
    let mut t = String::new();
    crate::text::push_str(&mut t, s);
    assert(t@ =~= s@);
    JsonField::Text(t)
}

impl WingNodeDef {
    #[verifier::rlimit(40)]
    fn json_common(&self, out: &mut Vec<(&'static str, JsonField)>)
        ensures
            fields_view(final(out)@) == fields_view(old(out)@) + json_common_fields(self@),
    {
        let ghost h0 = fields_view(out@);
        push_field(out, "id", JsonField::Int(self.id as i64));
        let ghost h1 = fields_view(out@);
        if self.index != 0 {
            push_field(out, "index", JsonField::Int(self.index as i64));
        }
        let ghost h2 = fields_view(out@);
        assert(h2 =~= h1 + opt_field("index"@, self.index != 0, JsonFieldView::Int(self.index as int)));
        if !self.name.as_str().is_empty() {
            push_field(out, "name", JsonField::Text(copy_string(&self.name)));
        }
        let ghost h3 = fields_view(out@);
        assert(h3 =~= h2 + opt_field("name"@, self.name@.len() > 0, JsonFieldView::Text(self.name@)));
        if !self.long_name.as_str().is_empty() {
            push_field(out, "longname", JsonField::Text(copy_string(&self.long_name)));
        }
        let ghost h4 = fields_view(out@);
        assert(h4 =~= h3 + opt_field(
            "longname"@,
            self.long_name@.len() > 0,
            JsonFieldView::Text(self.long_name@),
        ));
        push_field(out, "type", text_field(type_json(self.node_type)));
        let ghost h5 = fields_view(out@);
        if self.unit != NodeUnit::Unitless {
            push_field(out, "unit", text_field(unit_json(self.unit)));
        }
        let ghost h6 = fields_view(out@);
        assert(h6 =~= h5 + opt_field(
            "unit"@,
            self.unit != NodeUnit::Unitless,
            JsonFieldView::Text(unit_text(self.unit)),
        ));
        if self.read_only {
            push_field(out, "read_only", JsonField::Flag(true));
        }
        let ghost h7 = fields_view(out@);
        assert(h7 =~= h6 + opt_field("read_only"@, self.read_only, JsonFieldView::Flag(true)));
        assert(h7 =~= h0 + json_common_fields(self@));
    }

    fn json_details(&self, out: &mut Vec<(&'static str, JsonField)>)
        ensures
            fields_view(final(out)@) == fields_view(old(out)@) + json_detail_fields(self@),
    {
        let ghost h = fields_view(out@);
        match self.node_type {
            NodeType::LinearFloat | NodeType::LogarithmicFloat | NodeType::FaderLevel => {
                if let Some(f) = self.min_float {
                    push_field(out, "minfloat", JsonField::Float(f));
                }
                if let Some(f) = self.max_float {
                    push_field(out, "maxfloat", JsonField::Float(f));
                }
                if let Some(s) = self.steps {
                    push_field(out, "steps", JsonField::Int(s as i64));
                }
            },
            NodeType::Integer => {
                if let Some(v) = self.min_int {
                    push_field(out, "minint", JsonField::Int(v as i64));
                }
                if let Some(v) = self.max_int {
                    push_field(out, "maxint", JsonField::Int(v as i64));
                }
            },
            NodeType::String => {
                if let Some(v) = self.max_string_len {
                    push_field(out, "maxstringlen", JsonField::Int(v as i64));
                }
            },
            NodeType::StringEnum => {
                if let Some(items) = &self.string_enum {
                    push_field(out, "items", JsonField::StringItems(string_items_json(items)));
                }
            },
            NodeType::FloatEnum => {
                if let Some(items) = &self.float_enum {
                    push_field(out, "items", JsonField::FloatItems(float_items_json(items)));
                }
            },
            NodeType::Node => {},
        }
        assert(fields_view(out@) =~= h + json_detail_fields(self@));
    }

    /// The fields of the definition's JSON form, in order: `id`, then `index`, `name` and
    /// `longname` where not zero or empty, `type`, `unit` where there is one, `read_only`
    /// where it is, then the fields of the node's type (see [`json_fields`]).
    pub fn to_json_fields(&self) -> (r: Vec<(&'static str, JsonField)>)
        ensures
            fields_view(r@) == json_fields(self@),
    {
        let mut out: Vec<(&'static str, JsonField)> = Vec::new();
        assert(fields_view(out@) =~= seq![]);
        self.json_common(&mut out);
        self.json_details(&mut out);
        assert(fields_view(out@) =~= json_fields(self@));
        out
    }
}

/// Whether `fields` has a field with the key `k`.
pub open spec fn has_key(fields: Seq<(Seq<char>, JsonFieldView)>, k: Seq<char>) -> bool {
    exists|i: int| 0 <= i < fields.len() && #[trigger] fields[i].0 == k
}

proof fn lemma_has_key_concat(a: Seq<(Seq<char>, JsonFieldView)>, b: Seq<(Seq<char>, JsonFieldView)>, k: Seq<char>)
    ensures
        has_key(a + b, k) <==> has_key(a, k) || has_key(b, k),
{
    if has_key(a + b, k) {
        let i = choose|i: int| 0 <= i < (a + b).len() && #[trigger] (a + b)[i].0 == k;
        if i < a.len() {
            assert(a[i].0 == k);
        } else {
            assert(b[i - a.len()].0 == k);
        }
    }
    if has_key(a, k) {
        let i = choose|i: int| 0 <= i < a.len() && #[trigger] a[i].0 == k;
        assert((a + b)[i].0 == k);
    }
    if has_key(b, k) {
        let i = choose|i: int| 0 <= i < b.len() && #[trigger] b[i].0 == k;
        assert((a + b)[a.len() + i].0 == k);
    }
}

proof fn lemma_has_key_one(k2: Seq<char>, present: bool, v: JsonFieldView, k: Seq<char>)
    ensures
        has_key(opt_field(k2, present, v), k) <==> present && k2 == k,
        has_key(seq![(k2, v)], k) <==> k2 == k,
{
    if present && k2 == k {
        assert(opt_field(k2, present, v)[0].0 == k);
    }
    assert(seq![(k2, v)][0].0 == k2);
}

/// The keys that the type-dependent fields can have.
pub open spec fn detail_key(k: Seq<char>) -> bool {
    k == "minfloat"@ || k == "maxfloat"@ || k == "steps"@ || k == "minint"@ || k == "maxint"@
        || k == "maxstringlen"@ || k == "items"@
}

proof fn lemma_detail_keys(d: NodeDefView, k: Seq<char>)
    requires
        !detail_key(k),
    ensures
        !has_key(json_detail_fields(d), k),
{
    let x = d.details;
    match d.node_type {
        NodeType::LinearFloat | NodeType::LogarithmicFloat | NodeType::FaderLevel => {
            let a = opt_field("minfloat"@, x.min_float is Some, JsonFieldView::Float(x.min_float.unwrap()));
            let b = opt_field("maxfloat"@, x.max_float is Some, JsonFieldView::Float(x.max_float.unwrap()));
            let c = opt_field("steps"@, x.steps is Some, JsonFieldView::Int(x.steps.unwrap() as int));
            lemma_has_key_concat(a + b, c, k);
            lemma_has_key_concat(a, b, k);
            lemma_has_key_one("minfloat"@, x.min_float is Some, JsonFieldView::Float(x.min_float.unwrap()), k);
            lemma_has_key_one("maxfloat"@, x.max_float is Some, JsonFieldView::Float(x.max_float.unwrap()), k);
            lemma_has_key_one("steps"@, x.steps is Some, JsonFieldView::Int(x.steps.unwrap() as int), k);
        },
        NodeType::Integer => {
            let a = opt_field("minint"@, x.min_int is Some, JsonFieldView::Int(x.min_int.unwrap() as int));
            let b = opt_field("maxint"@, x.max_int is Some, JsonFieldView::Int(x.max_int.unwrap() as int));
            lemma_has_key_concat(a, b, k);
            lemma_has_key_one("minint"@, x.min_int is Some, JsonFieldView::Int(x.min_int.unwrap() as int), k);
            lemma_has_key_one("maxint"@, x.max_int is Some, JsonFieldView::Int(x.max_int.unwrap() as int), k);
        },
        NodeType::String => {
            lemma_has_key_one(
                "maxstringlen"@,
                x.max_string_len is Some,
                JsonFieldView::Int(x.max_string_len.unwrap() as int),
                k,
            );
        },
        NodeType::StringEnum => {
            if let Some(items) = x.string_enum {
                lemma_has_key_one(
                    "items"@,
                    true,
                    JsonFieldView::StringItems(
                        items.map_values(|it: (Seq<char>, Seq<char>)| (it.0, long_label(it.1))),
                    ),
                    k,
                );
            }
        },
        NodeType::FloatEnum => {
            if let Some(items) = x.float_enum {
                lemma_has_key_one(
                    "items"@,
                    true,
                    JsonFieldView::FloatItems(items.map_values(|it: (u32, Seq<char>)| (it.0, long_label(it.1)))),
                    k,
                );
            }
        },
        NodeType::Node => {},
    }
}

proof fn lemma_key_strings()
    ensures
        !detail_key("id"@),
        !detail_key("type"@),
        !detail_key("index"@),
        !detail_key("name"@),
        !detail_key("longname"@),
        !detail_key("unit"@),
        !detail_key("read_only"@),
        "id"@ != "type"@,
        "id"@ != "index"@,
        "id"@ != "name"@,
        "id"@ != "longname"@,
        "id"@ != "unit"@,
        "id"@ != "read_only"@,
        "type"@ != "index"@,
        "type"@ != "name"@,
        "type"@ != "longname"@,
        "type"@ != "unit"@,
        "type"@ != "read_only"@,
        "index"@ != "name"@,
        "index"@ != "longname"@,
        "index"@ != "unit"@,
        "index"@ != "read_only"@,
        "name"@ != "longname"@,
        "name"@ != "unit"@,
        "name"@ != "read_only"@,
        "longname"@ != "unit"@,
        "longname"@ != "read_only"@,
        "unit"@ != "read_only"@,
{
    reveal_strlit("id");
    reveal_strlit("type");
    reveal_strlit("index");
    reveal_strlit("name");
    reveal_strlit("longname");
    reveal_strlit("unit");
    reveal_strlit("read_only");
    reveal_strlit("minfloat");
    reveal_strlit("maxfloat");
    reveal_strlit("steps");
    reveal_strlit("minint");
    reveal_strlit("maxint");
    reveal_strlit("maxstringlen");
    reveal_strlit("items");
    assert("id"@.len() != "minfloat"@.len());
    assert("id"@.len() != "maxfloat"@.len());
    assert("id"@.len() != "steps"@.len());
    assert("id"@.len() != "minint"@.len());
    assert("id"@.len() != "maxint"@.len());
    assert("id"@.len() != "maxstringlen"@.len());
    assert("id"@.len() != "items"@.len());
    assert("type"@.len() != "minfloat"@.len());
    assert("type"@.len() != "maxfloat"@.len());
    assert("type"@.len() != "steps"@.len());
    assert("type"@.len() != "minint"@.len());
    assert("type"@.len() != "maxint"@.len());
    assert("type"@.len() != "maxstringlen"@.len());
    assert("type"@.len() != "items"@.len());
    assert("index"@.len() != "minfloat"@.len());
    assert("index"@.len() != "maxfloat"@.len());
    assert("index"@[0] != "steps"@[0]);
    assert("index"@.len() != "minint"@.len());
    assert("index"@.len() != "maxint"@.len());
    assert("index"@.len() != "maxstringlen"@.len());
    assert("index"@[1] != "items"@[1]);
    assert("name"@.len() != "minfloat"@.len());
    assert("name"@.len() != "maxfloat"@.len());
    assert("name"@.len() != "steps"@.len());
    assert("name"@.len() != "minint"@.len());
    assert("name"@.len() != "maxint"@.len());
    assert("name"@.len() != "maxstringlen"@.len());
    assert("name"@.len() != "items"@.len());
    assert("longname"@[0] != "minfloat"@[0]);
    assert("longname"@[0] != "maxfloat"@[0]);
    assert("longname"@.len() != "steps"@.len());
    assert("longname"@.len() != "minint"@.len());
    assert("longname"@.len() != "maxint"@.len());
    assert("longname"@.len() != "maxstringlen"@.len());
    assert("longname"@.len() != "items"@.len());
    assert("unit"@.len() != "minfloat"@.len());
    assert("unit"@.len() != "maxfloat"@.len());
    assert("unit"@.len() != "steps"@.len());
    assert("unit"@.len() != "minint"@.len());
    assert("unit"@.len() != "maxint"@.len());
    assert("unit"@.len() != "maxstringlen"@.len());
    assert("unit"@.len() != "items"@.len());
    assert("read_only"@.len() != "minfloat"@.len());
    assert("read_only"@.len() != "maxfloat"@.len());
    assert("read_only"@.len() != "steps"@.len());
    assert("read_only"@.len() != "minint"@.len());
    assert("read_only"@.len() != "maxint"@.len());
    assert("read_only"@.len() != "maxstringlen"@.len());
    assert("read_only"@.len() != "items"@.len());
    assert("id"@.len() != "type"@.len());
    assert("id"@.len() != "index"@.len());
    assert("id"@.len() != "name"@.len());
    assert("id"@.len() != "longname"@.len());
    assert("id"@.len() != "unit"@.len());
    assert("id"@.len() != "read_only"@.len());
    assert("type"@.len() != "index"@.len());
    assert("type"@[0] != "name"@[0]);
    assert("type"@.len() != "longname"@.len());
    assert("type"@[0] != "unit"@[0]);
    assert("type"@.len() != "read_only"@.len());
    assert("index"@.len() != "name"@.len());
    assert("index"@.len() != "longname"@.len());
    assert("index"@.len() != "unit"@.len());
    assert("index"@.len() != "read_only"@.len());
    assert("name"@.len() != "longname"@.len());
    assert("name"@[0] != "unit"@[0]);
    assert("name"@.len() != "read_only"@.len());
    assert("longname"@.len() != "unit"@.len());
    assert("longname"@.len() != "read_only"@.len());
    assert("unit"@.len() != "read_only"@.len());
}

/// Whether the JSON form of `d` has the key `k`, for a key that every form may have.
proof fn lemma_common_key(d: NodeDefView, k: Seq<char>)
    requires
        !detail_key(k),
    ensures
        has_key(json_fields(d), k) <==> (k == "id"@ || (k == "index"@ && d.index != 0) || (k
            == "name"@ && d.name.len() > 0) || (k == "longname"@ && d.long_name.len() > 0) || k
            == "type"@ || (k == "unit"@ && d.unit != NodeUnit::Unitless) || (k == "read_only"@
            && d.read_only)),
{
    let f1 = seq![("id"@, JsonFieldView::Int(d.id as int))];
    let f2 = opt_field("index"@, d.index != 0, JsonFieldView::Int(d.index as int));
    let f3 = opt_field("name"@, d.name.len() > 0, JsonFieldView::Text(d.name));
    let f4 = opt_field("longname"@, d.long_name.len() > 0, JsonFieldView::Text(d.long_name));
    let f5 = seq![("type"@, JsonFieldView::Text(json_type_text(d.node_type)))];
    let f6 = opt_field("unit"@, d.unit != NodeUnit::Unitless, JsonFieldView::Text(unit_text(d.unit)));
    let f7 = opt_field("read_only"@, d.read_only, JsonFieldView::Flag(true));
    let det = json_detail_fields(d);
    assert(json_fields(d) == f1 + f2 + f3 + f4 + f5 + f6 + f7 + det);
    lemma_has_key_concat(f1 + f2 + f3 + f4 + f5 + f6 + f7, det, k);
    lemma_has_key_concat(f1 + f2 + f3 + f4 + f5 + f6, f7, k);
    lemma_has_key_concat(f1 + f2 + f3 + f4 + f5, f6, k);
    lemma_has_key_concat(f1 + f2 + f3 + f4, f5, k);
    lemma_has_key_concat(f1 + f2 + f3, f4, k);
    lemma_has_key_concat(f1 + f2, f3, k);
    lemma_has_key_concat(f1, f2, k);
    lemma_detail_keys(d, k);
    lemma_has_key_one("id"@, true, JsonFieldView::Int(d.id as int), k);
    lemma_has_key_one("index"@, d.index != 0, JsonFieldView::Int(d.index as int), k);
    lemma_has_key_one("name"@, d.name.len() > 0, JsonFieldView::Text(d.name), k);
    lemma_has_key_one("longname"@, d.long_name.len() > 0, JsonFieldView::Text(d.long_name), k);
    lemma_has_key_one("type"@, true, JsonFieldView::Text(json_type_text(d.node_type)), k);
    lemma_has_key_one("unit"@, d.unit != NodeUnit::Unitless, JsonFieldView::Text(unit_text(d.unit)), k);
    lemma_has_key_one("read_only"@, d.read_only, JsonFieldView::Flag(true), k);
}

/// Which keys the JSON form of a definition has: always `id` and `type`; `index` exactly
/// where the index is not zero, `name` and `longname` exactly where they are not empty,
/// `unit` exactly where the node has a unit, and `read_only` exactly where it is read-only.
pub proof fn law_json_keys(d: NodeDefView)
    ensures
        has_key(json_fields(d), "id"@),
        has_key(json_fields(d), "type"@),
        has_key(json_fields(d), "index"@) <==> d.index != 0,
        has_key(json_fields(d), "name"@) <==> d.name.len() > 0,
        has_key(json_fields(d), "longname"@) <==> d.long_name.len() > 0,
        has_key(json_fields(d), "unit"@) <==> d.unit != NodeUnit::Unitless,
        has_key(json_fields(d), "read_only"@) <==> d.read_only,
{
    lemma_key_strings();
    lemma_common_key(d, "id"@);
    lemma_common_key(d, "type"@);
    lemma_common_key(d, "index"@);
    lemma_common_key(d, "name"@);
    lemma_common_key(d, "longname"@);
    lemma_common_key(d, "unit"@);
    lemma_common_key(d, "read_only"@);
}


proof fn lemma_detail_key_strings()
    ensures
        "minfloat"@ != "maxfloat"@,
        "minfloat"@ != "steps"@,
        "minfloat"@ != "minint"@,
        "minfloat"@ != "maxint"@,
        "minfloat"@ != "maxstringlen"@,
        "minfloat"@ != "items"@,
        "maxfloat"@ != "steps"@,
        "maxfloat"@ != "minint"@,
        "maxfloat"@ != "maxint"@,
        "maxfloat"@ != "maxstringlen"@,
        "maxfloat"@ != "items"@,
        "steps"@ != "minint"@,
        "steps"@ != "maxint"@,
        "steps"@ != "maxstringlen"@,
        "steps"@ != "items"@,
        "minint"@ != "maxint"@,
        "minint"@ != "maxstringlen"@,
        "minint"@ != "items"@,
        "maxint"@ != "maxstringlen"@,
        "maxint"@ != "items"@,
        "maxstringlen"@ != "items"@,
{
    reveal_strlit("minfloat");
    reveal_strlit("maxfloat");
    reveal_strlit("steps");
    reveal_strlit("minint");
    reveal_strlit("maxint");
    reveal_strlit("maxstringlen");
    reveal_strlit("items");
    assert("minfloat"@[1] != "maxfloat"@[1]);
    assert("minfloat"@.len() != "steps"@.len());
    assert("minfloat"@.len() != "minint"@.len());
    assert("minfloat"@.len() != "maxint"@.len());
    assert("minfloat"@.len() != "maxstringlen"@.len());
    assert("minfloat"@.len() != "items"@.len());
    assert("maxfloat"@.len() != "steps"@.len());
    assert("maxfloat"@.len() != "minint"@.len());
    assert("maxfloat"@.len() != "maxint"@.len());
    assert("maxfloat"@.len() != "maxstringlen"@.len());
    assert("maxfloat"@.len() != "items"@.len());
    assert("steps"@.len() != "minint"@.len());
    assert("steps"@.len() != "maxint"@.len());
    assert("steps"@.len() != "maxstringlen"@.len());
    assert("steps"@[0] != "items"@[0]);
    assert("minint"@[1] != "maxint"@[1]);
    assert("minint"@.len() != "maxstringlen"@.len());
    assert("minint"@.len() != "items"@.len());
    assert("maxint"@.len() != "maxstringlen"@.len());
    assert("maxint"@.len() != "items"@.len());
    assert("maxstringlen"@.len() != "items"@.len());
}

/// Whether `fields` has the field `k` with the value `v`.
pub open spec fn has_field(fields: Seq<(Seq<char>, JsonFieldView)>, k: Seq<char>, v: JsonFieldView) -> bool {
    exists|i: int| 0 <= i < fields.len() && #[trigger] fields[i] == (k, v)
}

/// Whether a node is of a float type.
pub open spec fn float_typed(t: NodeType) -> bool {
    t == NodeType::LinearFloat || t == NodeType::LogarithmicFloat || t == NodeType::FaderLevel
}

/// The common fields hold no key of the type-dependent ones.
proof fn lemma_common_no_detail(d: NodeDefView, k: Seq<char>)
    requires
        detail_key(k),
    ensures
        !has_key(json_common_fields(d), k),
{
    lemma_key_strings();
    let f1 = seq![("id"@, JsonFieldView::Int(d.id as int))];
    let f2 = opt_field("index"@, d.index != 0, JsonFieldView::Int(d.index as int));
    let f3 = opt_field("name"@, d.name.len() > 0, JsonFieldView::Text(d.name));
    let f4 = opt_field("longname"@, d.long_name.len() > 0, JsonFieldView::Text(d.long_name));
    let f5 = seq![("type"@, JsonFieldView::Text(json_type_text(d.node_type)))];
    let f6 = opt_field("unit"@, d.unit != NodeUnit::Unitless, JsonFieldView::Text(unit_text(d.unit)));
    let f7 = opt_field("read_only"@, d.read_only, JsonFieldView::Flag(true));
    assert(json_common_fields(d) == f1 + f2 + f3 + f4 + f5 + f6 + f7);
    lemma_has_key_concat(f1 + f2 + f3 + f4 + f5 + f6, f7, k);
    lemma_has_key_concat(f1 + f2 + f3 + f4 + f5, f6, k);
    lemma_has_key_concat(f1 + f2 + f3 + f4, f5, k);
    lemma_has_key_concat(f1 + f2 + f3, f4, k);
    lemma_has_key_concat(f1 + f2, f3, k);
    lemma_has_key_concat(f1, f2, k);
    lemma_has_key_one("id"@, true, JsonFieldView::Int(d.id as int), k);
    lemma_has_key_one("index"@, d.index != 0, JsonFieldView::Int(d.index as int), k);
    lemma_has_key_one("name"@, d.name.len() > 0, JsonFieldView::Text(d.name), k);
    lemma_has_key_one("longname"@, d.long_name.len() > 0, JsonFieldView::Text(d.long_name), k);
    lemma_has_key_one("type"@, true, JsonFieldView::Text(json_type_text(d.node_type)), k);
    lemma_has_key_one("unit"@, d.unit != NodeUnit::Unitless, JsonFieldView::Text(unit_text(d.unit)), k);
    lemma_has_key_one("read_only"@, d.read_only, JsonFieldView::Flag(true), k);
}

/// A key of the type-dependent fields is in the whole form exactly where it is in them,
/// and a field of them is a field of the whole form.
proof fn lemma_detail_in_form(d: NodeDefView, k: Seq<char>)
    requires
        detail_key(k),
    ensures
        has_key(json_fields(d), k) <==> has_key(json_detail_fields(d), k),
        forall|v: JsonFieldView| has_field(json_detail_fields(d), k, v) ==> has_field(json_fields(d), k, v),
{
    lemma_common_no_detail(d, k);
    lemma_has_key_concat(json_common_fields(d), json_detail_fields(d), k);
    let c = json_common_fields(d);
    let det = json_detail_fields(d);
    assert forall|v: JsonFieldView| has_field(det, k, v) implies has_field(json_fields(d), k, v) by {
        let i = choose|i: int| 0 <= i < det.len() && #[trigger] det[i] == (k, v);
        assert(json_fields(d)[c.len() + i] == det[i]);
    }
}


/// The type-dependent fields, key by key.
proof fn lemma_detail_fields_table(d: NodeDefView)
    ensures
        ({
            let det = json_detail_fields(d);
            let x = d.details;
            &&& has_key(det, "minfloat"@) <==> float_typed(d.node_type) && x.min_float is Some
            &&& has_key(det, "maxfloat"@) <==> float_typed(d.node_type) && x.max_float is Some
            &&& has_key(det, "steps"@) <==> float_typed(d.node_type) && x.steps is Some
            &&& has_key(det, "minint"@) <==> d.node_type == NodeType::Integer && x.min_int is Some
            &&& has_key(det, "maxint"@) <==> d.node_type == NodeType::Integer && x.max_int is Some
            &&& has_key(det, "maxstringlen"@) <==> d.node_type == NodeType::String && x.max_string_len is Some
            &&& has_key(det, "items"@) <==> (d.node_type == NodeType::StringEnum && x.string_enum is Some)
                || (d.node_type == NodeType::FloatEnum && x.float_enum is Some)
            &&& float_typed(d.node_type) && x.min_float is Some ==> has_field(det, "minfloat"@, JsonFieldView::Float(x.min_float.unwrap()))
            &&& float_typed(d.node_type) && x.max_float is Some ==> has_field(det, "maxfloat"@, JsonFieldView::Float(x.max_float.unwrap()))
            &&& float_typed(d.node_type) && x.steps is Some ==> has_field(det, "steps"@, JsonFieldView::Int(x.steps.unwrap() as int))
            &&& d.node_type == NodeType::Integer && x.min_int is Some ==> has_field(det, "minint"@, JsonFieldView::Int(x.min_int.unwrap() as int))
            &&& d.node_type == NodeType::Integer && x.max_int is Some ==> has_field(det, "maxint"@, JsonFieldView::Int(x.max_int.unwrap() as int))
            &&& d.node_type == NodeType::String && x.max_string_len is Some ==> has_field(det, "maxstringlen"@, JsonFieldView::Int(x.max_string_len.unwrap() as int))
        }),
{
    lemma_detail_key_strings();
    let x = d.details;
    let det = json_detail_fields(d);
    let keys = seq!["minfloat"@, "maxfloat"@, "steps"@, "minint"@, "maxint"@, "maxstringlen"@, "items"@];
    match d.node_type {
        NodeType::LinearFloat | NodeType::LogarithmicFloat | NodeType::FaderLevel => {
            let a = opt_field("minfloat"@, x.min_float is Some, JsonFieldView::Float(x.min_float.unwrap()));
            let b = opt_field("maxfloat"@, x.max_float is Some, JsonFieldView::Float(x.max_float.unwrap()));
            let c = opt_field("steps"@, x.steps is Some, JsonFieldView::Int(x.steps.unwrap() as int));
            assert(det == a + b + c);
            assert forall|j: int| 0 <= j < 7 implies {
                let k = #[trigger] keys[j];
                has_key(det, k) <==> ((x.min_float is Some && k == "minfloat"@) || (x.max_float is Some
                    && k == "maxfloat"@) || (x.steps is Some && k == "steps"@))
            } by {
                let k = keys[j];
                lemma_has_key_concat(a + b, c, k);
                lemma_has_key_concat(a, b, k);
                lemma_has_key_one("minfloat"@, x.min_float is Some, JsonFieldView::Float(x.min_float.unwrap()), k);
                lemma_has_key_one("maxfloat"@, x.max_float is Some, JsonFieldView::Float(x.max_float.unwrap()), k);
                lemma_has_key_one("steps"@, x.steps is Some, JsonFieldView::Int(x.steps.unwrap() as int), k);
            }
            assert(keys[0] == "minfloat"@ && keys[1] == "maxfloat"@ && keys[2] == "steps"@ && keys[3] == "minint"@);
            assert(keys[4] == "maxint"@ && keys[5] == "maxstringlen"@ && keys[6] == "items"@);
            if x.min_float is Some {
                assert(det[0] == ("minfloat"@, JsonFieldView::Float(x.min_float.unwrap())));
            }
            if x.max_float is Some {
                assert(det[a.len() as int] == ("maxfloat"@, JsonFieldView::Float(x.max_float.unwrap())));
            }
            if x.steps is Some {
                assert(det[(a.len() + b.len()) as int] == ("steps"@, JsonFieldView::Int(x.steps.unwrap() as int)));
            }
        },
        NodeType::Integer => {
            let a = opt_field("minint"@, x.min_int is Some, JsonFieldView::Int(x.min_int.unwrap() as int));
            let b = opt_field("maxint"@, x.max_int is Some, JsonFieldView::Int(x.max_int.unwrap() as int));
            assert(det == a + b);
            assert forall|j: int| 0 <= j < 7 implies {
                let k = #[trigger] keys[j];
                has_key(det, k) <==> ((x.min_int is Some && k == "minint"@) || (x.max_int is Some
                    && k == "maxint"@))
            } by {
                let k = keys[j];
                lemma_has_key_concat(a, b, k);
                lemma_has_key_one("minint"@, x.min_int is Some, JsonFieldView::Int(x.min_int.unwrap() as int), k);
                lemma_has_key_one("maxint"@, x.max_int is Some, JsonFieldView::Int(x.max_int.unwrap() as int), k);
            }
            assert(keys[0] == "minfloat"@ && keys[1] == "maxfloat"@ && keys[2] == "steps"@ && keys[3] == "minint"@);
            assert(keys[4] == "maxint"@ && keys[5] == "maxstringlen"@ && keys[6] == "items"@);
            if x.min_int is Some {
                assert(det[0] == ("minint"@, JsonFieldView::Int(x.min_int.unwrap() as int)));
            }
            if x.max_int is Some {
                assert(det[a.len() as int] == ("maxint"@, JsonFieldView::Int(x.max_int.unwrap() as int)));
            }
        },
        NodeType::String => {
            let a = opt_field("maxstringlen"@, x.max_string_len is Some, JsonFieldView::Int(x.max_string_len.unwrap() as int));
            assert(det == a);
            assert forall|j: int| 0 <= j < 7 implies {
                let k = #[trigger] keys[j];
                has_key(det, k) <==> (x.max_string_len is Some && k == "maxstringlen"@)
            } by {
                let k = keys[j];
                lemma_has_key_one("maxstringlen"@, x.max_string_len is Some, JsonFieldView::Int(x.max_string_len.unwrap() as int), k);
            }
            assert(keys[0] == "minfloat"@ && keys[1] == "maxfloat"@ && keys[2] == "steps"@ && keys[3] == "minint"@);
            assert(keys[4] == "maxint"@ && keys[5] == "maxstringlen"@ && keys[6] == "items"@);
            if x.max_string_len is Some {
                assert(det[0] == ("maxstringlen"@, JsonFieldView::Int(x.max_string_len.unwrap() as int)));
            }
        },
        NodeType::StringEnum => {
            assert forall|j: int| 0 <= j < 7 implies {
                let k = #[trigger] keys[j];
                has_key(det, k) <==> (x.string_enum is Some && k == "items"@)
            } by {
                let k = keys[j];
                if let Some(items) = x.string_enum {
                    lemma_has_key_one("items"@, true, JsonFieldView::StringItems(
                        items.map_values(|it: (Seq<char>, Seq<char>)| (it.0, long_label(it.1))),
                    ), k);
                }
            }
            assert(keys[0] == "minfloat"@ && keys[1] == "maxfloat"@ && keys[2] == "steps"@ && keys[3] == "minint"@);
            assert(keys[4] == "maxint"@ && keys[5] == "maxstringlen"@ && keys[6] == "items"@);
        },
        NodeType::FloatEnum => {
            assert forall|j: int| 0 <= j < 7 implies {
                let k = #[trigger] keys[j];
                has_key(det, k) <==> (x.float_enum is Some && k == "items"@)
            } by {
                let k = keys[j];
                if let Some(items) = x.float_enum {
                    lemma_has_key_one("items"@, true, JsonFieldView::FloatItems(
                        items.map_values(|it: (u32, Seq<char>)| (it.0, long_label(it.1))),
                    ), k);
                }
            }
            assert(keys[0] == "minfloat"@ && keys[1] == "maxfloat"@ && keys[2] == "steps"@ && keys[3] == "minint"@);
            assert(keys[4] == "maxint"@ && keys[5] == "maxstringlen"@ && keys[6] == "items"@);
        },
        NodeType::Node => {
            assert(det.len() == 0);
        },
    }
}


/// The values of the JSON form of a definition: `id`, `type`, and where present `index`,
/// `name`, `longname`, `unit` and `read_only` carry the definition's own values; for float
/// nodes `minfloat`, `maxfloat` and `steps` are there exactly where the definition has that
/// bound and carry it; for integer nodes `minint` and `maxint`, for strings
/// `maxstringlen`, likewise; enum nodes have `items` exactly where they have items.
pub proof fn law_json_values(d: NodeDefView)
    ensures
        has_field(json_fields(d), "id"@, JsonFieldView::Int(d.id as int)),
        has_field(json_fields(d), "type"@, JsonFieldView::Text(json_type_text(d.node_type))),
        d.index != 0 ==> has_field(json_fields(d), "index"@, JsonFieldView::Int(d.index as int)),
        d.name.len() > 0 ==> has_field(json_fields(d), "name"@, JsonFieldView::Text(d.name)),
        d.long_name.len() > 0 ==> has_field(json_fields(d), "longname"@, JsonFieldView::Text(d.long_name)),
        d.unit != NodeUnit::Unitless ==> has_field(json_fields(d), "unit"@, JsonFieldView::Text(unit_text(d.unit))),
        d.read_only ==> has_field(json_fields(d), "read_only"@, JsonFieldView::Flag(true)),
        has_key(json_fields(d), "minfloat"@) <==> float_typed(d.node_type) && d.details.min_float is Some,
        has_key(json_fields(d), "maxfloat"@) <==> float_typed(d.node_type) && d.details.max_float is Some,
        has_key(json_fields(d), "steps"@) <==> float_typed(d.node_type) && d.details.steps is Some,
        has_key(json_fields(d), "minint"@) <==> d.node_type == NodeType::Integer && d.details.min_int is Some,
        has_key(json_fields(d), "maxint"@) <==> d.node_type == NodeType::Integer && d.details.max_int is Some,
        has_key(json_fields(d), "maxstringlen"@) <==> d.node_type == NodeType::String
            && d.details.max_string_len is Some,
        has_key(json_fields(d), "items"@) <==> (d.node_type == NodeType::StringEnum
            && d.details.string_enum is Some) || (d.node_type == NodeType::FloatEnum
            && d.details.float_enum is Some),
        float_typed(d.node_type) && d.details.min_float is Some ==> has_field(
            json_fields(d),
            "minfloat"@,
            JsonFieldView::Float(d.details.min_float.unwrap()),
        ),
        float_typed(d.node_type) && d.details.max_float is Some ==> has_field(
            json_fields(d),
            "maxfloat"@,
            JsonFieldView::Float(d.details.max_float.unwrap()),
        ),
        float_typed(d.node_type) && d.details.steps is Some ==> has_field(
            json_fields(d),
            "steps"@,
            JsonFieldView::Int(d.details.steps.unwrap() as int),
        ),
        d.node_type == NodeType::Integer && d.details.min_int is Some ==> has_field(
            json_fields(d),
            "minint"@,
            JsonFieldView::Int(d.details.min_int.unwrap() as int),
        ),
        d.node_type == NodeType::Integer && d.details.max_int is Some ==> has_field(
            json_fields(d),
            "maxint"@,
            JsonFieldView::Int(d.details.max_int.unwrap() as int),
        ),
        d.node_type == NodeType::String && d.details.max_string_len is Some ==> has_field(
            json_fields(d),
            "maxstringlen"@,
            JsonFieldView::Int(d.details.max_string_len.unwrap() as int),
        ),
{
    let f = json_fields(d);
    let a1: int = if d.index != 0 { 1 } else { 0 };
    let a2: int = if d.name.len() > 0 { 1 } else { 0 };
    let a3: int = if d.long_name.len() > 0 { 1 } else { 0 };
    let a4: int = if d.unit != NodeUnit::Unitless { 1 } else { 0 };
    assert(f[0] == ("id"@, JsonFieldView::Int(d.id as int)));
    assert(f[1 + a1 + a2 + a3] == ("type"@, JsonFieldView::Text(json_type_text(d.node_type))));
    if d.index != 0 {
        assert(f[1] == ("index"@, JsonFieldView::Int(d.index as int)));
    }
    if d.name.len() > 0 {
        assert(f[1 + a1] == ("name"@, JsonFieldView::Text(d.name)));
    }
    if d.long_name.len() > 0 {
        assert(f[1 + a1 + a2] == ("longname"@, JsonFieldView::Text(d.long_name)));
    }
    if d.unit != NodeUnit::Unitless {
        assert(f[2 + a1 + a2 + a3] == ("unit"@, JsonFieldView::Text(unit_text(d.unit))));
    }
    if d.read_only {
        assert(f[2 + a1 + a2 + a3 + a4] == ("read_only"@, JsonFieldView::Flag(true)));
    }
    lemma_detail_fields_table(d);
    lemma_detail_in_form(d, "minfloat"@);
    lemma_detail_in_form(d, "maxfloat"@);
    lemma_detail_in_form(d, "steps"@);
    lemma_detail_in_form(d, "minint"@);
    lemma_detail_in_form(d, "maxint"@);
    lemma_detail_in_form(d, "maxstringlen"@);
    lemma_detail_in_form(d, "items"@);
}


/// The items of an enum node's JSON form: each item in the definition's order, with its
/// long label where that is not empty.
pub proof fn law_json_items(d: NodeDefView)
    ensures
        d.node_type == NodeType::StringEnum && d.details.string_enum is Some ==> has_field(
            json_fields(d),
            "items"@,
            JsonFieldView::StringItems(Seq::new(
                d.details.string_enum.unwrap().len(),
                |k: int| (d.details.string_enum.unwrap()[k].0, if d.details.string_enum.unwrap()[k].1.len() > 0 {
                    Some(d.details.string_enum.unwrap()[k].1)
                } else {
                    None
                }),
            )),
        ),
        d.node_type == NodeType::FloatEnum && d.details.float_enum is Some ==> has_field(
            json_fields(d),
            "items"@,
            JsonFieldView::FloatItems(Seq::new(
                d.details.float_enum.unwrap().len(),
                |k: int| (d.details.float_enum.unwrap()[k].0, if d.details.float_enum.unwrap()[k].1.len() > 0 {
                    Some(d.details.float_enum.unwrap()[k].1)
                } else {
                    None
                }),
            )),
        ),
{
    lemma_key_strings();
    reveal_strlit("items");
    assert(detail_key("items"@));
    lemma_detail_in_form(d, "items"@);
    let det = json_detail_fields(d);
    if d.node_type == NodeType::StringEnum && d.details.string_enum is Some {
        let items = d.details.string_enum.unwrap();
        let v = JsonFieldView::StringItems(Seq::new(items.len(), |k: int| (items[k].0, if items[k].1.len() > 0 {
            Some(items[k].1)
        } else {
            None
        })));
        assert(items.map_values(|it: (Seq<char>, Seq<char>)| (it.0, long_label(it.1))) =~= Seq::new(
            items.len(),
            |k: int| (items[k].0, if items[k].1.len() > 0 { Some(items[k].1) } else { None }),
        ));
        assert(det[0] == ("items"@, v));
    }
    if d.node_type == NodeType::FloatEnum && d.details.float_enum is Some {
        let items = d.details.float_enum.unwrap();
        let v = JsonFieldView::FloatItems(Seq::new(items.len(), |k: int| (items[k].0, if items[k].1.len() > 0 {
            Some(items[k].1)
        } else {
            None
        })));
        assert(items.map_values(|it: (u32, Seq<char>)| (it.0, long_label(it.1))) =~= Seq::new(
            items.len(),
            |k: int| (items[k].0, if items[k].1.len() > 0 { Some(items[k].1) } else { None }),
        ));
        assert(det[0] == ("items"@, v));
    }
}

} // verus!
