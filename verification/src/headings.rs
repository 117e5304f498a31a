use vstd::prelude::*;

use crate::node::{NodeDefView, NodeType, NodeUnit};
use crate::text::{
    description, detail_text, digit_char, id_text, int_text, item_line, item_lines, kind_text,
    naming_text, nat_text, opt_line, type_text, unit_text,
};

verus! {

/// Whether `p` occurs in `s`.
pub open spec fn contains_text(s: Seq<char>, p: Seq<char>) -> bool {
    exists|i: int| 0 <= i <= s.len() - p.len() && #[trigger] s.subrange(i, i + p.len()) == p
}

/// Whether `s` has no line break.
pub open spec fn one_line(s: Seq<char>) -> bool {
    forall|k: int| 0 <= k < s.len() ==> #[trigger] s[k] != '\n'
}

/// A heading to look for: a line break, then a text of one line that does not start
/// with a blank.
pub open spec fn heading(p: Seq<char>) -> bool {
    &&& p.len() >= 2
    &&& p[0] == '\n'
    &&& p[1] != ' '
    &&& forall|k: int| 1 <= k < p.len() ==> #[trigger] p[k] != '\n'
}

/// Whether no occurrence of `p` in `a + b` starts in `a` and ends in `b`.
spec fn no_straddle(a: Seq<char>, b: Seq<char>, p: Seq<char>) -> bool {
    forall|i: int|
        0 <= i < a.len() < i + p.len() <= a.len() + b.len() ==> #[trigger] (a + b).subrange(
            i,
            i + p.len(),
        ) != p
}

proof fn lemma_concat(a: Seq<char>, b: Seq<char>, p: Seq<char>)
    requires
        no_straddle(a, b, p),
        p.len() > 0,
    ensures
        contains_text(a + b, p) <==> contains_text(a, p) || contains_text(b, p),
{
    let s = a + b;
    if contains_text(s, p) {
        let i = choose|i: int| 0 <= i <= s.len() - p.len() && #[trigger] s.subrange(i, i + p.len()) == p;
        if i + p.len() <= a.len() {
            assert(a.subrange(i, i + p.len()) =~= s.subrange(i, i + p.len()));
        } else if i >= a.len() {
            assert(b.subrange(i - a.len(), i - a.len() + p.len()) =~= s.subrange(i, i + p.len()));
        }
    }
    if contains_text(a, p) {
        let i = choose|i: int| 0 <= i <= a.len() - p.len() && #[trigger] a.subrange(i, i + p.len()) == p;
        assert(s.subrange(i, i + p.len()) =~= a.subrange(i, i + p.len()));
    }
    if contains_text(b, p) {
        let i = choose|i: int| 0 <= i <= b.len() - p.len() && #[trigger] b.subrange(i, i + p.len()) == p;
        assert(s.subrange(a.len() + i, a.len() + i + p.len()) =~= b.subrange(i, i + p.len()));
    }
}

/// Nothing straddles into a text that starts a new line.
proof fn lemma_straddle_newline(a: Seq<char>, b: Seq<char>, p: Seq<char>)
    requires
        heading(p),
        b.len() == 0 || b[0] == '\n',
    ensures
        no_straddle(a, b, p),
{
    assert forall|i: int| 0 <= i < a.len() < i + p.len() <= a.len() + b.len() implies #[trigger] (a
        + b).subrange(i, i + p.len()) != p by {
        let w = (a + b).subrange(i, i + p.len());
        assert(w[a.len() - i] == b[0]);
    }
}

/// Nothing straddles from a text that ends a line into one that starts with a blank.
proof fn lemma_straddle_line_end(a: Seq<char>, b: Seq<char>, p: Seq<char>)
    requires
        heading(p),
        a.len() > 0,
        a.last() == '\n',
        b.len() == 0 || b[0] == ' ',
    ensures
        no_straddle(a, b, p),
{
    assert forall|i: int| 0 <= i < a.len() < i + p.len() <= a.len() + b.len() implies #[trigger] (a
        + b).subrange(i, i + p.len()) != p by {
        let w = (a + b).subrange(i, i + p.len());
        assert(w[a.len() - 1 - i] == '\n');
        if a.len() - 1 - i > 0 {
        } else {
            assert(w[1] == b[0]);
        }
    }
}

/// Nothing straddles from a single line that opens with a line break and is not the start
/// of `p`.
proof fn lemma_straddle_lead(a: Seq<char>, b: Seq<char>, p: Seq<char>)
    requires
        heading(p),
        forall|k: int| 1 <= k < a.len() ==> #[trigger] a[k] != '\n',
        a.len() < p.len() ==> a != p.subrange(0, a.len() as int),
    ensures
        no_straddle(a, b, p),
{
    assert forall|i: int| 0 <= i < a.len() < i + p.len() <= a.len() + b.len() implies #[trigger] (a
        + b).subrange(i, i + p.len()) != p by {
        let w = (a + b).subrange(i, i + p.len());
        if w == p {
            assert(a[i] == w[0]);
            assert(i == 0);
            assert(a =~= p.subrange(0, a.len() as int));
        }
    }
}

/// A single line holds no heading.
proof fn lemma_one_line(s: Seq<char>, p: Seq<char>)
    requires
        heading(p),
        one_line(s),
    ensures
        !contains_text(s, p),
{
    if contains_text(s, p) {
        let i = choose|i: int| 0 <= i <= s.len() - p.len() && #[trigger] s.subrange(i, i + p.len()) == p;
        assert(s[i] == s.subrange(i, i + p.len())[0]);
    }
}

/// A line that opens with a line break holds a heading only at its start.
proof fn lemma_lead_line(s: Seq<char>, p: Seq<char>)
    requires
        heading(p),
        s.len() > 0,
        s[0] == '\n',
        forall|k: int| 1 <= k < s.len() ==> #[trigger] s[k] != '\n',
    ensures
        contains_text(s, p) <==> (p.len() <= s.len() && s.subrange(0, p.len() as int) == p),
{
    if contains_text(s, p) {
        let i = choose|i: int| 0 <= i <= s.len() - p.len() && #[trigger] s.subrange(i, i + p.len()) == p;
        assert(s[i] == s.subrange(i, i + p.len())[0]);
    }
    if p.len() <= s.len() && s.subrange(0, p.len() as int) == p {
        assert(s.subrange(0int, 0int + p.len()) == p);
    }
}

/// A line that ends with its only line break holds no heading.
proof fn lemma_tail_line(s: Seq<char>, p: Seq<char>)
    requires
        heading(p),
        forall|k: int| 0 <= k < s.len() - 1 ==> #[trigger] s[k] != '\n',
    ensures
        !contains_text(s, p),
{
    if contains_text(s, p) {
        let i = choose|i: int| 0 <= i <= s.len() - p.len() && #[trigger] s.subrange(i, i + p.len()) == p;
        assert(s[i] == s.subrange(i, i + p.len())[0]);
    }
}

/// Whether `s` is empty or starts a new line.
pub open spec fn starts_line(s: Seq<char>) -> bool {
    s.len() == 0 || s[0] == '\n'
}

/// Whether `label` (a line break and a single line) starts with `p`.
pub open spec fn opens_with(label: Seq<char>, p: Seq<char>) -> bool {
    p.len() <= label.len() && label.subrange(0, p.len() as int) == p
}

proof fn lemma_nat_text_one_line(n: nat)
    ensures
        one_line(nat_text(n)),
    decreases n,
{
    if n >= 10 {
        lemma_nat_text_one_line(n / 10);
        let t = nat_text(n / 10) + seq![digit_char((n % 10) as int)];
        assert forall|k: int| 0 <= k < t.len() implies #[trigger] t[k] != '\n' by {
            if k < nat_text(n / 10).len() {
                assert(t[k] == nat_text(n / 10)[k]);
            }
        }
    }
}

proof fn lemma_int_text_one_line(v: int)
    ensures
        one_line(int_text(v)),
{
    if v < 0 {
        lemma_nat_text_one_line((-v) as nat);
        let t = seq!['-'] + nat_text((-v) as nat);
        assert forall|k: int| 0 <= k < t.len() implies #[trigger] t[k] != '\n' by {
            if k > 0 {
                assert(t[k] == nat_text((-v) as nat)[k - 1]);
            }
        }
    } else {
        lemma_nat_text_one_line(v as nat);
    }
}

proof fn lemma_concat_one_line(a: Seq<char>, b: Seq<char>)
    requires
        one_line(a),
        one_line(b),
    ensures
        one_line(a + b),
{
    assert forall|k: int| 0 <= k < (a + b).len() implies #[trigger] (a + b)[k] != '\n' by {
        if k < a.len() {
            assert((a + b)[k] == a[k]);
        } else {
            assert((a + b)[k] == b[k - a.len()]);
        }
    }
}

proof fn lemma_starts_line_concat(a: Seq<char>, b: Seq<char>)
    requires
        starts_line(a),
        starts_line(b),
    ensures
        starts_line(a + b),
{
    if a.len() == 0 {
        assert(a + b =~= b);
    }
}

/// A line made of a label (a line break and a single line) and a one-line value, where
/// present: it starts a line, and holds `p` exactly where the label opens with `p`.
proof fn lemma_label_line(label: Seq<char>, present: bool, value: Seq<char>, p: Seq<char>)
    requires
        heading(p),
        p.len() <= label.len(),
        label.len() > 0,
        label[0] == '\n',
        one_line(label.drop_first()),
        one_line(value),
    ensures
        starts_line(opt_line(label, present, value)),
        contains_text(opt_line(label, present, value), p) <==> present && opens_with(label, p),
{
    if present {
        let s = label + value;
        assert forall|k: int| 1 <= k < s.len() implies #[trigger] s[k] != '\n' by {
            if k < label.len() {
                assert(s[k] == label.drop_first()[k - 1]);
            } else {
                assert(s[k] == value[k - label.len()]);
            }
        }
        lemma_lead_line(s, p);
        assert(s.subrange(0, p.len() as int) =~= label.subrange(0, p.len() as int));
    } else {
        lemma_one_line(seq![], p);
    }
}

proof fn lemma_item_line(first: bool, item: Seq<char>, long: Seq<char>, p: Seq<char>)
    requires
        heading(p),
        one_line(item),
        one_line(long),
    ensures
        item_line(first, item, long).len() > 0,
        item_line(first, item, long)[0] == ' ',
        item_line(first, item, long).last() == '\n',
        !contains_text(item_line(first, item, long), p),
{
    reveal_strlit("     ");
    reveal_strlit("           ");
    reveal_strlit(" (");
    reveal_strlit(")");
    let ind = if first {
        "     "@
    } else {
        "           "@
    };
    let tail = if long.len() > 0 {
        " ("@ + long + ")"@
    } else {
        seq![]
    };
    assert(one_line(ind));
    assert(one_line(" ("@));
    assert(one_line(")"@));
    if long.len() > 0 {
        lemma_concat_one_line(" ("@, long);
        lemma_concat_one_line(" ("@ + long, ")"@);
    }
    assert(one_line(tail));
    lemma_concat_one_line(ind, item);
    lemma_concat_one_line(ind + item, tail);
    let body = ind + item + tail;
    let s = item_line(first, item, long);
    assert(s == body + seq!['\n']);
    assert forall|k: int| 0 <= k < s.len() - 1 implies #[trigger] s[k] != '\n' by {
        assert(s[k] == body[k]);
    }
    assert(s[0] == ind[0]);
    lemma_tail_line(s, p);
}

/// An item list holds no heading; it starts with a blank and ends with a line break.
proof fn lemma_item_lines(items: Seq<(Seq<char>, Seq<char>)>, p: Seq<char>)
    requires
        heading(p),
        forall|j: int| 0 <= j < items.len() ==> one_line(#[trigger] items[j].0) && one_line(items[j].1),
    ensures
        !contains_text(item_lines(items), p),
        items.len() > 0 ==> item_lines(items).len() > 0 && item_lines(items)[0] == ' '
            && item_lines(items).last() == '\n',
        items.len() == 0 ==> item_lines(items).len() == 0,
    decreases items.len(),
{
    if items.len() > 0 {
        let dl = items.drop_last();
        assert forall|j: int| 0 <= j < dl.len() implies one_line(#[trigger] dl[j].0) && one_line(dl[j].1) by {
            assert(dl[j] == items[j]);
        }
        lemma_item_lines(dl, p);
        let a = item_lines(dl);
        let last = items.last();
        assert(one_line(items[items.len() - 1].0));
        lemma_item_line(items.len() == 1, last.0, last.1, p);
        let b = item_line(items.len() == 1, last.0, last.1);
        if a.len() > 0 {
            lemma_straddle_line_end(a, b, p);
            assert((a + b)[0] == a[0]);
        } else {
            assert(a + b =~= b);
        }
        assert(no_straddle(a, b, p));
        lemma_concat(a, b, p);
        assert((a + b).last() == b.last());
    }
}

proof fn lemma_literals(t: NodeType, u: NodeUnit)
    ensures
        one_line("\nRead-only: "@.drop_first()), "\nRead-only: "@.len() == 12, "\nRead-only: "@[0] == '\n',
        one_line("\nIndex:     "@.drop_first()), "\nIndex:     "@.len() == 12, "\nIndex:     "@[0] == '\n',
        one_line("\nName:      "@.drop_first()), "\nName:      "@.len() == 12, "\nName:      "@[0] == '\n',
        one_line("\nLong Name: "@.drop_first()), "\nLong Name: "@.len() == 12, "\nLong Name: "@[0] == '\n',
        one_line("\nType:      "@.drop_first()), "\nType:      "@.len() == 12, "\nType:      "@[0] == '\n',
        one_line("\nUnit:      "@.drop_first()), "\nUnit:      "@.len() == 12, "\nUnit:      "@[0] == '\n',
        one_line("\nMinimum:   "@.drop_first()), "\nMinimum:   "@.len() == 12, "\nMinimum:   "@[0] == '\n',
        one_line("\nMaximum:   "@.drop_first()), "\nMaximum:   "@.len() == 12, "\nMaximum:   "@[0] == '\n',
        one_line("\nSteps:     "@.drop_first()), "\nSteps:     "@.len() == 12, "\nSteps:     "@[0] == '\n',
        one_line("\nMaxLength: "@.drop_first()), "\nMaxLength: "@.len() == 12, "\nMaxLength: "@[0] == '\n',
        one_line(type_text(t)),
        one_line(unit_text(u)),
        one_line("yes"@),
        one_line("no"@),
        one_line("Id:        "@),
        "\nItems:"@.len() == 7,
        "\nItems:"@[0] == '\n',
        one_line("\nItems:"@.drop_first()),
{
    reveal_strlit("\nRead-only: ");
    reveal_strlit("\nIndex:     ");
    reveal_strlit("\nName:      ");
    reveal_strlit("\nLong Name: ");
    reveal_strlit("\nType:      ");
    reveal_strlit("\nUnit:      ");
    reveal_strlit("\nMinimum:   ");
    reveal_strlit("\nMaximum:   ");
    reveal_strlit("\nSteps:     ");
    reveal_strlit("\nMaxLength: ");
    reveal_strlit("node");
    reveal_strlit("linear float");
    reveal_strlit("log float");
    reveal_strlit("integer");
    reveal_strlit("string");
    reveal_strlit("fader level (float)");
    reveal_strlit("string enum");
    reveal_strlit("float enum");
    reveal_strlit("dB");
    reveal_strlit("%");
    reveal_strlit("ms");
    reveal_strlit("Hz");
    reveal_strlit("meters");
    reveal_strlit("seconds");
    reveal_strlit("octaves");
    reveal_strlit("UNKNOWN");
    reveal_strlit("yes");
    reveal_strlit("no");
    reveal_strlit("Id:        ");
    reveal_strlit("\nItems:");
}

/// The type-dependent lines of a description hold no heading that none of their labels
/// opens with.
proof fn lemma_detail_lines(d: NodeDefView, min: Seq<char>, max: Seq<char>, float_items: Seq<Seq<char>>, p: Seq<char>)
    requires
        heading(p),
        p.len() <= 12,
        one_line(min),
        one_line(max),
        d.details.string_enum matches Some(items) ==> forall|j: int|
            0 <= j < items.len() ==> one_line(#[trigger] items[j].0) && one_line(items[j].1),
        d.details.float_enum matches Some(items) ==> forall|j: int|
            0 <= j < items.len() ==> one_line(#[trigger] items[j].1) && one_line(float_items[j]),
        !opens_with("\nMinimum:   "@, p),
        !opens_with("\nMaximum:   "@, p),
        !opens_with("\nSteps:     "@, p),
        !opens_with("\nMaxLength: "@, p),
        !opens_with("\nItems:"@, p),
        p.len() > 7 ==> p.subrange(0, 7) != "\nItems:"@,
    ensures
        starts_line(detail_text(d, min, max, float_items)),
        !contains_text(detail_text(d, min, max, float_items), p),
{
    lemma_literals(d.node_type, d.unit);
    let x = d.details;
    match d.node_type {
        NodeType::LinearFloat | NodeType::LogarithmicFloat | NodeType::FaderLevel => {
            lemma_int_text_one_line(x.steps.unwrap() as int);
            let a = opt_line("\nMinimum:   "@, x.min_float is Some, min);
            let b = opt_line("\nMaximum:   "@, x.max_float is Some, max);
            let c = opt_line("\nSteps:     "@, x.steps is Some, int_text(x.steps.unwrap() as int));
            lemma_label_line("\nMinimum:   "@, x.min_float is Some, min, p);
            lemma_label_line("\nMaximum:   "@, x.max_float is Some, max, p);
            lemma_label_line("\nSteps:     "@, x.steps is Some, int_text(x.steps.unwrap() as int), p);
            lemma_straddle_newline(b, c, p);
            lemma_concat(b, c, p);
            lemma_starts_line_concat(b, c);
            lemma_straddle_newline(a, b + c, p);
            lemma_concat(a, b + c, p);
            lemma_starts_line_concat(a, b + c);
            assert(detail_text(d, min, max, float_items) =~= a + (b + c));
        },
        NodeType::Integer => {
            lemma_int_text_one_line(x.min_int.unwrap() as int);
            lemma_int_text_one_line(x.max_int.unwrap() as int);
            let a = opt_line("\nMinimum:   "@, x.min_int is Some, int_text(x.min_int.unwrap() as int));
            let b = opt_line("\nMaximum:   "@, x.max_int is Some, int_text(x.max_int.unwrap() as int));
            lemma_label_line("\nMinimum:   "@, x.min_int is Some, int_text(x.min_int.unwrap() as int), p);
            lemma_label_line("\nMaximum:   "@, x.max_int is Some, int_text(x.max_int.unwrap() as int), p);
            lemma_straddle_newline(a, b, p);
            lemma_concat(a, b, p);
            lemma_starts_line_concat(a, b);
        },
        NodeType::String => {
            lemma_int_text_one_line(x.max_string_len.unwrap() as int);
            lemma_label_line(
                "\nMaxLength: "@,
                x.max_string_len is Some,
                int_text(x.max_string_len.unwrap() as int),
                p,
            );
        },
        NodeType::StringEnum => {
            match x.string_enum {
                Some(items) => {
                    lemma_item_lines(items, p);
                    lemma_items_block(item_lines(items), p);
                },
                None => {
                    lemma_one_line(seq![], p);
                },
            }
        },
        NodeType::FloatEnum => {
            match x.float_enum {
                Some(items) => {
                    let its = Seq::new(items.len(), |k: int| (float_items[k], items[k].1));
                    assert forall|j: int| 0 <= j < its.len() implies one_line(#[trigger] its[j].0) && one_line(its[j].1) by {
                        assert(one_line(items[j].1));
                    }
                    lemma_item_lines(its, p);
                    lemma_items_block(item_lines(its), p);
                },
                None => {
                    lemma_one_line(seq![], p);
                },
            }
        },
        NodeType::Node => {
            lemma_one_line(seq![], p);
        },
    }
}

/// The `Items:` line followed by item lines that hold no heading: it holds none that
/// the line does not open with.
proof fn lemma_items_block(lines: Seq<char>, p: Seq<char>)
    requires
        heading(p),
        !contains_text(lines, p),
        !opens_with("\nItems:"@, p),
        p.len() > 7 ==> p.subrange(0, 7) != "\nItems:"@,
    ensures
        starts_line("\nItems:"@ + lines),
        !contains_text("\nItems:"@ + lines, p),
{
    let a = "\nItems:"@;
    lemma_literals(NodeType::Node, NodeUnit::Unitless);
    assert forall|k: int| 1 <= k < a.len() implies #[trigger] a[k] != '\n' by {
        assert(a[k] == a.drop_first()[k - 1]);
    }
    lemma_straddle_lead(a, lines, p);
    lemma_concat(a, lines, p);
    if contains_text(a, p) {
        lemma_lead_line(a, p);
    }
    assert((a + lines)[0] == a[0]);
}

proof fn lemma_heading_literals()
    ensures
        "\nIndex:"@.len() == 7,
        "\nName:"@.len() == 6,
        "\nLong Name:"@.len() == 11,
        "\nUnit:"@.len() == 6,
        "\nType:"@.len() == 6,
        heading("\nIndex:"@),
        !opens_with("\nRead-only: "@, "\nIndex:"@),
        opens_with("\nIndex:     "@, "\nIndex:"@),
        !opens_with("\nName:      "@, "\nIndex:"@),
        !opens_with("\nLong Name: "@, "\nIndex:"@),
        !opens_with("\nType:      "@, "\nIndex:"@),
        !opens_with("\nUnit:      "@, "\nIndex:"@),
        !opens_with("\nMinimum:   "@, "\nIndex:"@),
        !opens_with("\nMaximum:   "@, "\nIndex:"@),
        !opens_with("\nSteps:     "@, "\nIndex:"@),
        !opens_with("\nMaxLength: "@, "\nIndex:"@),
        !opens_with("\nItems:"@, "\nIndex:"@),
        heading("\nName:"@),
        !opens_with("\nRead-only: "@, "\nName:"@),
        !opens_with("\nIndex:     "@, "\nName:"@),
        opens_with("\nName:      "@, "\nName:"@),
        !opens_with("\nLong Name: "@, "\nName:"@),
        !opens_with("\nType:      "@, "\nName:"@),
        !opens_with("\nUnit:      "@, "\nName:"@),
        !opens_with("\nMinimum:   "@, "\nName:"@),
        !opens_with("\nMaximum:   "@, "\nName:"@),
        !opens_with("\nSteps:     "@, "\nName:"@),
        !opens_with("\nMaxLength: "@, "\nName:"@),
        !opens_with("\nItems:"@, "\nName:"@),
        heading("\nLong Name:"@),
        "\nLong Name:"@.subrange(0, 7) != "\nItems:"@,
        !opens_with("\nRead-only: "@, "\nLong Name:"@),
        !opens_with("\nIndex:     "@, "\nLong Name:"@),
        !opens_with("\nName:      "@, "\nLong Name:"@),
        opens_with("\nLong Name: "@, "\nLong Name:"@),
        !opens_with("\nType:      "@, "\nLong Name:"@),
        !opens_with("\nUnit:      "@, "\nLong Name:"@),
        !opens_with("\nMinimum:   "@, "\nLong Name:"@),
        !opens_with("\nMaximum:   "@, "\nLong Name:"@),
        !opens_with("\nSteps:     "@, "\nLong Name:"@),
        !opens_with("\nMaxLength: "@, "\nLong Name:"@),
        !opens_with("\nItems:"@, "\nLong Name:"@),
        heading("\nUnit:"@),
        !opens_with("\nRead-only: "@, "\nUnit:"@),
        !opens_with("\nIndex:     "@, "\nUnit:"@),
        !opens_with("\nName:      "@, "\nUnit:"@),
        !opens_with("\nLong Name: "@, "\nUnit:"@),
        !opens_with("\nType:      "@, "\nUnit:"@),
        opens_with("\nUnit:      "@, "\nUnit:"@),
        !opens_with("\nMinimum:   "@, "\nUnit:"@),
        !opens_with("\nMaximum:   "@, "\nUnit:"@),
        !opens_with("\nSteps:     "@, "\nUnit:"@),
        !opens_with("\nMaxLength: "@, "\nUnit:"@),
        !opens_with("\nItems:"@, "\nUnit:"@),
        heading("\nType:"@),
        !opens_with("\nRead-only: "@, "\nType:"@),
        !opens_with("\nIndex:     "@, "\nType:"@),
        !opens_with("\nName:      "@, "\nType:"@),
        !opens_with("\nLong Name: "@, "\nType:"@),
        opens_with("\nType:      "@, "\nType:"@),
        !opens_with("\nUnit:      "@, "\nType:"@),
        !opens_with("\nMinimum:   "@, "\nType:"@),
        !opens_with("\nMaximum:   "@, "\nType:"@),
        !opens_with("\nSteps:     "@, "\nType:"@),
        !opens_with("\nMaxLength: "@, "\nType:"@),
        !opens_with("\nItems:"@, "\nType:"@),
{
    reveal_strlit("\nRead-only: ");
    reveal_strlit("\nIndex:     ");
    reveal_strlit("\nName:      ");
    reveal_strlit("\nLong Name: ");
    reveal_strlit("\nType:      ");
    reveal_strlit("\nUnit:      ");
    reveal_strlit("\nMinimum:   ");
    reveal_strlit("\nMaximum:   ");
    reveal_strlit("\nSteps:     ");
    reveal_strlit("\nMaxLength: ");
    reveal_strlit("\nItems:");
    reveal_strlit("\nIndex:");
    reveal_strlit("\nName:");
    reveal_strlit("\nLong Name:");
    reveal_strlit("\nUnit:");
    reveal_strlit("\nType:");
    assert("\nRead-only: "@.subrange(0, 7)[1] != "\nIndex:"@[1]);
    assert("\nIndex:     "@.subrange(0, 7) =~= "\nIndex:"@);
    assert("\nName:      "@.subrange(0, 7)[1] != "\nIndex:"@[1]);
    assert("\nLong Name: "@.subrange(0, 7)[1] != "\nIndex:"@[1]);
    assert("\nType:      "@.subrange(0, 7)[1] != "\nIndex:"@[1]);
    assert("\nUnit:      "@.subrange(0, 7)[1] != "\nIndex:"@[1]);
    assert("\nMinimum:   "@.subrange(0, 7)[1] != "\nIndex:"@[1]);
    assert("\nMaximum:   "@.subrange(0, 7)[1] != "\nIndex:"@[1]);
    assert("\nSteps:     "@.subrange(0, 7)[1] != "\nIndex:"@[1]);
    assert("\nMaxLength: "@.subrange(0, 7)[1] != "\nIndex:"@[1]);
    assert("\nItems:"@.subrange(0, 7)[2] != "\nIndex:"@[2]);
    assert("\nRead-only: "@.subrange(0, 6)[1] != "\nName:"@[1]);
    assert("\nIndex:     "@.subrange(0, 6)[1] != "\nName:"@[1]);
    assert("\nName:      "@.subrange(0, 6) =~= "\nName:"@);
    assert("\nLong Name: "@.subrange(0, 6)[1] != "\nName:"@[1]);
    assert("\nType:      "@.subrange(0, 6)[1] != "\nName:"@[1]);
    assert("\nUnit:      "@.subrange(0, 6)[1] != "\nName:"@[1]);
    assert("\nMinimum:   "@.subrange(0, 6)[1] != "\nName:"@[1]);
    assert("\nMaximum:   "@.subrange(0, 6)[1] != "\nName:"@[1]);
    assert("\nSteps:     "@.subrange(0, 6)[1] != "\nName:"@[1]);
    assert("\nMaxLength: "@.subrange(0, 6)[1] != "\nName:"@[1]);
    assert("\nItems:"@.subrange(0, 6)[1] != "\nName:"@[1]);
    assert("\nLong Name:"@.subrange(0, 7)[1] != "\nItems:"@[1]);
    assert("\nRead-only: "@.subrange(0, 11)[1] != "\nLong Name:"@[1]);
    assert("\nIndex:     "@.subrange(0, 11)[1] != "\nLong Name:"@[1]);
    assert("\nName:      "@.subrange(0, 11)[1] != "\nLong Name:"@[1]);
    assert("\nLong Name: "@.subrange(0, 11) =~= "\nLong Name:"@);
    assert("\nType:      "@.subrange(0, 11)[1] != "\nLong Name:"@[1]);
    assert("\nUnit:      "@.subrange(0, 11)[1] != "\nLong Name:"@[1]);
    assert("\nMinimum:   "@.subrange(0, 11)[1] != "\nLong Name:"@[1]);
    assert("\nMaximum:   "@.subrange(0, 11)[1] != "\nLong Name:"@[1]);
    assert("\nSteps:     "@.subrange(0, 11)[1] != "\nLong Name:"@[1]);
    assert("\nMaxLength: "@.subrange(0, 11)[1] != "\nLong Name:"@[1]);
    assert("\nRead-only: "@.subrange(0, 6)[1] != "\nUnit:"@[1]);
    assert("\nIndex:     "@.subrange(0, 6)[1] != "\nUnit:"@[1]);
    assert("\nName:      "@.subrange(0, 6)[1] != "\nUnit:"@[1]);
    assert("\nLong Name: "@.subrange(0, 6)[1] != "\nUnit:"@[1]);
    assert("\nType:      "@.subrange(0, 6)[1] != "\nUnit:"@[1]);
    assert("\nUnit:      "@.subrange(0, 6) =~= "\nUnit:"@);
    assert("\nMinimum:   "@.subrange(0, 6)[1] != "\nUnit:"@[1]);
    assert("\nMaximum:   "@.subrange(0, 6)[1] != "\nUnit:"@[1]);
    assert("\nSteps:     "@.subrange(0, 6)[1] != "\nUnit:"@[1]);
    assert("\nMaxLength: "@.subrange(0, 6)[1] != "\nUnit:"@[1]);
    assert("\nItems:"@.subrange(0, 6)[1] != "\nUnit:"@[1]);
    assert("\nRead-only: "@.subrange(0, 6)[1] != "\nType:"@[1]);
    assert("\nIndex:     "@.subrange(0, 6)[1] != "\nType:"@[1]);
    assert("\nName:      "@.subrange(0, 6)[1] != "\nType:"@[1]);
    assert("\nLong Name: "@.subrange(0, 6)[1] != "\nType:"@[1]);
    assert("\nType:      "@.subrange(0, 6) =~= "\nType:"@);
    assert("\nUnit:      "@.subrange(0, 6)[1] != "\nType:"@[1]);
    assert("\nMinimum:   "@.subrange(0, 6)[1] != "\nType:"@[1]);
    assert("\nMaximum:   "@.subrange(0, 6)[1] != "\nType:"@[1]);
    assert("\nSteps:     "@.subrange(0, 6)[1] != "\nType:"@[1]);
    assert("\nMaxLength: "@.subrange(0, 6)[1] != "\nType:"@[1]);
    assert("\nItems:"@.subrange(0, 6)[1] != "\nType:"@[1]);
}

/// Whether the texts of a description are single lines: the node's names, the float
/// texts, and the texts and long labels of its items.
pub open spec fn single_line_texts(d: NodeDefView, min: Seq<char>, max: Seq<char>, float_items: Seq<Seq<char>>) -> bool {
    &&& one_line(d.name)
    &&& one_line(d.long_name)
    &&& one_line(min)
    &&& one_line(max)
    &&& d.details.string_enum matches Some(items) ==> forall|j: int|
        0 <= j < items.len() ==> one_line(#[trigger] items[j].0) && one_line(items[j].1)
    &&& d.details.float_enum matches Some(items) ==> forall|j: int|
        0 <= j < items.len() ==> one_line(#[trigger] items[j].1) && one_line(float_items[j])
}

/// Joining a text to one that starts a new line: a heading occurs in the whole exactly
/// where it occurs in either part.
proof fn lemma_join(a: Seq<char>, rest: Seq<char>, p: Seq<char>)
    requires
        heading(p),
        starts_line(rest),
    ensures
        contains_text(a + rest, p) <==> contains_text(a, p) || contains_text(rest, p),
        starts_line(a) ==> starts_line(a + rest),
{
    lemma_straddle_newline(a, rest, p);
    lemma_concat(a, rest, p);
    if starts_line(a) {
        lemma_starts_line_concat(a, rest);
    }
}

/// Where a heading occurs in the type and unit lines of a description and what follows.
proof fn lemma_kind_lines(d: NodeDefView, dt: Seq<char>, p: Seq<char>)
    requires
        heading(p),
        p.len() <= 12,
        starts_line(dt),
    ensures
        starts_line(kind_text(d) + dt),
        contains_text(kind_text(d) + dt, p) <==> (opens_with("\nType:      "@, p) || (d.unit
            != NodeUnit::Unitless && opens_with("\nUnit:      "@, p)) || contains_text(dt, p)),
{
    lemma_literals(d.node_type, d.unit);
    let s5 = opt_line("\nType:      "@, true, type_text(d.node_type));
    let s6 = opt_line("\nUnit:      "@, d.unit != NodeUnit::Unitless, unit_text(d.unit));
    lemma_label_line("\nType:      "@, true, type_text(d.node_type), p);
    lemma_label_line("\nUnit:      "@, d.unit != NodeUnit::Unitless, unit_text(d.unit), p);
    lemma_join(s6, dt, p);
    lemma_join(s5, s6 + dt, p);
    assert(kind_text(d) + dt =~= s5 + (s6 + dt));
}

/// Where a heading occurs in the index and name lines of a description and what follows.
proof fn lemma_naming_lines(d: NodeDefView, rest: Seq<char>, p: Seq<char>)
    requires
        heading(p),
        p.len() <= 12,
        one_line(d.name),
        one_line(d.long_name),
        starts_line(rest),
    ensures
        starts_line(naming_text(d) + rest),
        contains_text(naming_text(d) + rest, p) <==> ((d.index != 0 && opens_with(
            "\nIndex:     "@,
            p,
        )) || (d.name.len() > 0 && opens_with("\nName:      "@, p)) || (d.long_name.len() > 0
            && opens_with("\nLong Name: "@, p)) || contains_text(rest, p)),
{
    lemma_literals(d.node_type, d.unit);
    lemma_int_text_one_line(d.index as int);
    let s2 = opt_line("\nIndex:     "@, d.index != 0, int_text(d.index as int));
    let s3 = opt_line("\nName:      "@, d.name.len() > 0, d.name);
    let s4 = opt_line("\nLong Name: "@, d.long_name.len() > 0, d.long_name);
    lemma_label_line("\nIndex:     "@, d.index != 0, int_text(d.index as int), p);
    lemma_label_line("\nName:      "@, d.name.len() > 0, d.name, p);
    lemma_label_line("\nLong Name: "@, d.long_name.len() > 0, d.long_name, p);
    lemma_join(s4, rest, p);
    lemma_join(s3, s4 + rest, p);
    lemma_join(s2, s3 + (s4 + rest), p);
    assert(naming_text(d) + rest =~= s2 + (s3 + (s4 + rest)));
}

/// Where a heading occurs in the header lines of a description, after its first line.
proof fn lemma_header_lines(d: NodeDefView, dt: Seq<char>, p: Seq<char>)
    requires
        heading(p),
        p.len() <= 12,
        one_line(d.name),
        one_line(d.long_name),
        starts_line(dt),
        !contains_text(dt, p),
    ensures
        ({
            let yn = if d.read_only {
                "yes"@
            } else {
                "no"@
            };
            let rest = "\nRead-only: "@ + yn + naming_text(d) + kind_text(d) + dt;
            &&& starts_line(rest)
            &&& contains_text(rest, p) <==> (opens_with("\nRead-only: "@, p) || (d.index != 0
                && opens_with("\nIndex:     "@, p)) || (d.name.len() > 0 && opens_with(
                "\nName:      "@,
                p,
            )) || (d.long_name.len() > 0 && opens_with("\nLong Name: "@, p)) || opens_with(
                "\nType:      "@,
                p,
            ) || (d.unit != NodeUnit::Unitless && opens_with("\nUnit:      "@, p)))
        }),
{
    lemma_literals(d.node_type, d.unit);
    let yn = if d.read_only {
        "yes"@
    } else {
        "no"@
    };
    let k = kind_text(d) + dt;
    lemma_kind_lines(d, dt, p);
    lemma_naming_lines(d, k, p);
    let s1 = opt_line("\nRead-only: "@, true, yn);
    lemma_label_line("\nRead-only: "@, true, yn, p);
    lemma_join(s1, naming_text(d) + k, p);
    assert("\nRead-only: "@ + yn + naming_text(d) + kind_text(d) + dt =~= s1 + (naming_text(d) + k));
}

/// Where a heading that no type-dependent label opens with occurs in a description: in
/// the lines of the header that are present and open with it.
proof fn lemma_description(d: NodeDefView, min: Seq<char>, max: Seq<char>, float_items: Seq<Seq<char>>, p: Seq<char>)
    requires
        heading(p),
        p.len() <= 12,
        single_line_texts(d, min, max, float_items),
        !opens_with("\nMinimum:   "@, p),
        !opens_with("\nMaximum:   "@, p),
        !opens_with("\nSteps:     "@, p),
        !opens_with("\nMaxLength: "@, p),
        !opens_with("\nItems:"@, p),
        p.len() > 7 ==> p.subrange(0, 7) != "\nItems:"@,
    ensures
        contains_text(description(d, min, max, float_items), p) <==> (opens_with(
            "\nRead-only: "@,
            p,
        ) || (d.index != 0 && opens_with("\nIndex:     "@, p)) || (d.name.len() > 0 && opens_with(
            "\nName:      "@,
            p,
        )) || (d.long_name.len() > 0 && opens_with("\nLong Name: "@, p)) || opens_with(
            "\nType:      "@,
            p,
        ) || (d.unit != NodeUnit::Unitless && opens_with("\nUnit:      "@, p))),
{
    let dt = detail_text(d, min, max, float_items);
    lemma_detail_lines(d, min, max, float_items, p);
    lemma_header_lines(d, dt, p);
    let yn = if d.read_only {
        "yes"@
    } else {
        "no"@
    };
    let rest = "\nRead-only: "@ + yn + naming_text(d) + kind_text(d) + dt;
    let s0 = "Id:        "@ + int_text(d.id as int);
    lemma_literals(d.node_type, d.unit);
    lemma_int_text_one_line(d.id as int);
    lemma_concat_one_line("Id:        "@, int_text(d.id as int));
    lemma_one_line(s0, p);
    lemma_join(s0, rest, p);
    assert(description(d, min, max, float_items) =~= s0 + rest);
}

/// Which lines a description has, where its texts are single lines: an `Index:` line
/// exactly where the index is not zero, `Name:` and `Long Name:` lines exactly where those
/// names are not empty, a `Unit:` line exactly where the node has a unit, and always a
/// `Type:` line.
pub proof fn law_description_lines(d: NodeDefView, min: Seq<char>, max: Seq<char>, float_items: Seq<Seq<char>>)
    requires
        single_line_texts(d, min, max, float_items),
    ensures
        contains_text(description(d, min, max, float_items), "\nIndex:"@) <==> d.index != 0,
        contains_text(description(d, min, max, float_items), "\nName:"@) <==> d.name.len() > 0,
        contains_text(description(d, min, max, float_items), "\nLong Name:"@) <==> d.long_name.len() > 0,
        contains_text(description(d, min, max, float_items), "\nUnit:"@) <==> d.unit != NodeUnit::Unitless,
        contains_text(description(d, min, max, float_items), "\nType:"@),
{
    lemma_heading_literals();
    lemma_description(d, min, max, float_items, "\nIndex:"@);
    lemma_description(d, min, max, float_items, "\nName:"@);
    lemma_description(d, min, max, float_items, "\nLong Name:"@);
    lemma_description(d, min, max, float_items, "\nUnit:"@);
    lemma_description(d, min, max, float_items, "\nType:"@);
}

} // verus!
