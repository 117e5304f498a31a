use vstd::prelude::*;
use vstd::utf8::{encode_utf8, encode_utf8_decode_utf8};

use crate::node::{NodeDefView, WingNodeDef};

verus! {

/// The digits of `ds` read as a decimal number.
pub open spec fn decimal_value(ds: Seq<u8>) -> int
    decreases ds.len(),
{
    if ds.len() == 0 {
        0
    } else {
        decimal_value(ds.drop_last()) * 10 + (ds.last() - 0x30)
    }
}

pub open spec fn all_digits(ds: Seq<u8>) -> bool {
    forall|k: int| 0 <= k < ds.len() ==> 0x30 <= #[trigger] ds[k] <= 0x39
}

/// The number that `s` writes in decimal, as Rust's `i32` parsing reads it: an optional
/// `+` or `-`, then one or more ASCII digits, the value within the range of `i32`.
pub open spec fn parse_i32(s: Seq<u8>) -> Option<i32> {
    let neg = s.len() > 0 && s[0] == 0x2d;
    let signed = s.len() > 0 && (s[0] == 0x2d || s[0] == 0x2b);
    let ds = if signed {
        s.drop_first()
    } else {
        s
    };
    let v = if neg {
        -decimal_value(ds)
    } else {
        decimal_value(ds)
    };
    if ds.len() > 0 && all_digits(ds) && i32::MIN <= v <= i32::MAX {
        Some(v as i32)
    } else {
        None
    }
}

proof fn lemma_decimal_grows(ds: Seq<u8>, k: int)
    requires
        all_digits(ds),
        0 <= k <= ds.len(),
    ensures
        decimal_value(ds.subrange(0, k)) <= decimal_value(ds),
        0 <= decimal_value(ds.subrange(0, k)),
    decreases ds.len(),
{
    if k < ds.len() {
        assert(all_digits(ds.drop_last()));
        assert(ds.drop_last().subrange(0, k) =~= ds.subrange(0, k));
        lemma_decimal_grows(ds.drop_last(), k);
        lemma_decimal_nonneg(ds.drop_last());
    } else {
        assert(ds.subrange(0, k) =~= ds);
        lemma_decimal_nonneg(ds);
    }
}

proof fn lemma_decimal_nonneg(ds: Seq<u8>)
    requires
        all_digits(ds),
    ensures
        0 <= decimal_value(ds),
    decreases ds.len(),
{
    if ds.len() > 0 {
        assert(all_digits(ds.drop_last()));
        lemma_decimal_nonneg(ds.drop_last());
    }
}

/// Reads a decimal `i32` (see [`parse_i32`]).
pub fn parse_i32_bytes(s: &[u8]) -> (r: Option<i32>)
    ensures
        r == parse_i32(s@),
{
    let n = s.len();
    let mut start: usize = 0;
    let mut neg = false;
    if n > 0 && (s[0] == 0x2d || s[0] == 0x2b) {
        start = 1;
        neg = s[0] == 0x2d;
    }
    let ghost ds = if start == 1 {
        s@.drop_first()
    } else {
        s@
    };
    assert(ds =~= s@.subrange(start as int, n as int));
    if start >= n {
        return None;
    }
    let mut acc: i64 = 0;
    let mut k = start;
    while k < n
        invariant
            start <= k <= n,
            n == s@.len(),
            start == (if s@.len() > 0 && (s@[0] == 0x2d || s@[0] == 0x2b) {
                1int
            } else {
                0int
            }),
            neg == (s@.len() > 0 && s@[0] == 0x2d),
            ds == s@.subrange(start as int, n as int),
            ds == (if start == 1 {
                s@.drop_first()
            } else {
                s@
            }),
            all_digits(s@.subrange(start as int, k as int)),
            acc == decimal_value(s@.subrange(start as int, k as int)),
            0 <= acc <= 0x8000_0000,
        decreases n - k,
    {
        let b = s[k];
        if b < 0x30 || b > 0x39 {
            assert(!all_digits(ds)) by {
                assert(ds[k - start] == b);
            }
            return None;
        }
        let ghost pre = s@.subrange(start as int, k as int);
        let ghost cur = s@.subrange(start as int, k + 1);
        assert(cur.drop_last() =~= pre);
        assert(cur.last() == b);
        assert(decimal_value(cur) == decimal_value(pre) * 10 + (b - 0x30));
        acc = acc * 10 + (b - 0x30) as i64;
        k += 1;
        assert(acc == decimal_value(cur));
        assert(all_digits(cur)) by {
            assert forall|i: int| 0 <= i < cur.len() implies 0x30 <= #[trigger] cur[i] <= 0x39 by {
                if i < pre.len() {
                    assert(cur[i] == pre[i]);
                }
            }
        }
        if acc > 0x8000_0000 {
            proof {
                if all_digits(ds) {
                    lemma_decimal_grows(ds, k - start);
                    assert(ds.subrange(0, k - start) =~= s@.subrange(start as int, k as int));
                }
            }
            return None;
        }
    }
    assert(s@.subrange(start as int, n as int) =~= ds);
    if neg {
        Some((-acc) as i32)
    } else if acc <= 0x7fff_ffff {
        Some(acc as i32)
    } else {
        None
    }
}

/// Whether two texts are the same.
pub fn same_text(a: &str, b: &str) -> (r: bool)
    ensures
        r == (a@ == b@),
{
    let x = a.as_bytes();
    let y = b.as_bytes();
    proof {
        encode_utf8_decode_utf8(a@);
        encode_utf8_decode_utf8(b@);
    }
    if x.len() != y.len() {
        return false;
    }
    let mut k: usize = 0;
    while k < x.len()
        invariant
            k <= x@.len(),
            x@.len() == y@.len(),
            x@ == encode_utf8(a@),
            y@ == encode_utf8(b@),
            forall|i: int| 0 <= i < k ==> x@[i] == y@[i],
        decreases x@.len() - k,
    {
        if x[k] != y[k] {
            return false;
        }
        k += 1;
    }
    assert(x@ =~= y@);
    true
}

/// The definition filed under `name` (the last one, though names are kept distinct).
pub open spec fn lookup(entries: Seq<(Seq<char>, NodeDefView)>, name: Seq<char>) -> Option<NodeDefView>
    decreases entries.len(),
{
    if entries.len() == 0 {
        None
    } else if entries.last().0 == name {
        Some(entries.last().1)
    } else {
        lookup(entries.drop_last(), name)
    }
}

/// The entries whose definition has the id `id`, in order.
pub open spec fn with_id(entries: Seq<(Seq<char>, NodeDefView)>, id: i32) -> Seq<(Seq<char>, NodeDefView)>
    decreases entries.len(),
{
    if entries.len() == 0 {
        seq![]
    } else if entries.last().1.id == id {
        with_id(entries.drop_last(), id).push(entries.last())
    } else {
        with_id(entries.drop_last(), id)
    }
}

/// The id that a name stands for: a name that reads as a decimal number is that number,
/// any other name the id of the node filed under it, and -1 where there is none.
pub open spec fn id_of_name(entries: Seq<(Seq<char>, NodeDefView)>, name: Seq<char>) -> i32 {
    match parse_i32(encode_utf8(name)) {
        Some(n) => n,
        None => match lookup(entries, name) {
            Some(d) => d.id,
            None => -1i32,
        },
    }
}

/// The console's parameter tree, by full path name: each name is filed once.
pub struct NodeCatalog {
    entries: Vec<(String, WingNodeDef)>,
}

pub open spec fn names_distinct(entries: Seq<(Seq<char>, NodeDefView)>) -> bool {
    forall|i: int, j: int|
        0 <= i < j < entries.len() ==> #[trigger] entries[i].0 != #[trigger] entries[j].0
}

impl View for NodeCatalog {
    type V = Seq<(Seq<char>, NodeDefView)>;

    closed spec fn view(&self) -> Seq<(Seq<char>, NodeDefView)> {
        self.entries@.map_values(|e: (String, WingNodeDef)| (e.0@, e.1@))
    }
}

proof fn lemma_lookup_absent(entries: Seq<(Seq<char>, NodeDefView)>, name: Seq<char>)
    requires
        forall|i: int| 0 <= i < entries.len() ==> #[trigger] entries[i].0 != name,
    ensures
        lookup(entries, name) is None,
    decreases entries.len(),
{
    if entries.len() > 0 {
        lemma_lookup_absent(entries.drop_last(), name);
    }
}

proof fn lemma_lookup_at(entries: Seq<(Seq<char>, NodeDefView)>, name: Seq<char>, i: int)
    requires
        0 <= i < entries.len(),
        entries[i].0 == name,
        forall|j: int| i < j < entries.len() ==> #[trigger] entries[j].0 != name,
    ensures
        lookup(entries, name) == Some(entries[i].1),
    decreases entries.len(),
{
    if i < entries.len() - 1 {
        lemma_lookup_at(entries.drop_last(), name, i);
    }
}

proof fn lemma_lookup_update(
    entries: Seq<(Seq<char>, NodeDefView)>,
    i: int,
    e: (Seq<char>, NodeDefView),
    name: Seq<char>,
)
    requires
        0 <= i < entries.len(),
        entries[i].0 != name,
        e.0 != name,
    ensures
        lookup(entries.update(i, e), name) == lookup(entries, name),
    decreases entries.len(),
{
    let u = entries.update(i, e);
    if i < entries.len() - 1 {
        lemma_lookup_update(entries.drop_last(), i, e, name);
        assert(u.drop_last() =~= entries.drop_last().update(i, e));
    } else {
        assert(u.drop_last() =~= entries.drop_last());
    }
}

/// The entries with one id are entries of the catalog.
proof fn lemma_with_id_members(entries: Seq<(Seq<char>, NodeDefView)>, id: i32)
    ensures
        forall|k: int| 0 <= k < with_id(entries, id).len() ==> entries.contains(
            #[trigger] with_id(entries, id)[k],
        ),
    decreases entries.len(),
{
    if entries.len() > 0 {
        let d = entries.drop_last();
        lemma_with_id_members(d, id);
        assert forall|k: int| 0 <= k < with_id(entries, id).len() implies entries.contains(
            #[trigger] with_id(entries, id)[k],
        ) by {
            if k < with_id(d, id).len() {
                let x = with_id(d, id)[k];
                assert(with_id(entries, id)[k] == x);
                let j = choose|j: int| 0 <= j < d.len() && d[j] == x;
                assert(entries[j] == x);
            } else {
                assert(entries[entries.len() - 1] == with_id(entries, id)[k]);
            }
        }
    }
}

/// Names filed once stay so among the entries of one id.
pub proof fn lemma_with_id_distinct(entries: Seq<(Seq<char>, NodeDefView)>, id: i32)
    requires
        names_distinct(entries),
    ensures
        names_distinct(with_id(entries, id)),
    decreases entries.len(),
{
    if entries.len() > 0 {
        let d = entries.drop_last();
        assert(names_distinct(d));
        lemma_with_id_distinct(d, id);
        if entries.last().1.id == id {
            lemma_with_id_members(d, id);
            let w = with_id(d, id);
            let w2 = with_id(entries, id);
            assert forall|i: int, j: int| 0 <= i < j < w2.len() implies #[trigger] w2[i].0
                != #[trigger] w2[j].0 by {
                if j == w2.len() - 1 {
                    assert(d.contains(w[i]));
                    let m = choose|m: int| 0 <= m < d.len() && d[m] == w[i];
                    assert(entries[m] == w[i]);
                    assert(entries[entries.len() - 1] == w2[j]);
                } else {
                    assert(w2[i] == w[i] && w2[j] == w[j]);
                }
            }
        }
    }
}

impl NodeCatalog {
    #[verifier::type_invariant]
    closed spec fn names_are_distinct(self) -> bool {
        names_distinct(self@)
    }

    /// An empty catalog.
    pub fn new() -> (c: Self)
        ensures
            c@ == Seq::<(Seq<char>, NodeDefView)>::empty(),
            names_distinct(c@),
    {
        let c = NodeCatalog { entries: Vec::new() };
        assert(c@ =~= Seq::<(Seq<char>, NodeDefView)>::empty());
        c
    }

    /// The number of names filed.
    pub fn len(&self) -> (n: usize)
        ensures
            n == self@.len(),
            names_distinct(self@),
    {
        proof {
            use_type_invariant(self);
        }
        self.entries.len()
    }

    fn position(&self, name: &str) -> (r: Option<usize>)
        ensures
            match r {
                Some(i) => i < self@.len() && self@[i as int].0 == name@,
                None => forall|i: int| 0 <= i < self@.len() ==> #[trigger] self@[i].0 != name@,
            },
    {
        let mut k: usize = 0;
        while k < self.entries.len()
            invariant
                k <= self.entries@.len(),
                self@.len() == self.entries@.len(),
                forall|i: int| 0 <= i < k ==> #[trigger] self@[i].0 != name@,
            decreases self.entries@.len() - k,
        {
            if same_text(self.entries[k].0.as_str(), name) {
                return Some(k);
            }
            k += 1;
        }
        None
    }

    /// The definition filed under `name`.
    pub(crate) fn name_to_def(&self, name: &str) -> (r: Option<&WingNodeDef>)
        ensures
            match r {
                Some(d) => lookup(self@, name@) == Some(d@),
                None => lookup(self@, name@) is None,
            },
    {
        proof {
            use_type_invariant(self);
        }
        match self.position(name) {
            Some(i) => {
                proof {
                    lemma_lookup_at(self@, name@, i as int);
                }
                Some(&self.entries[i].1)
            },
            None => {
                proof {
                    lemma_lookup_absent(self@, name@);
                }
                None
            },
        }
    }

    /// The id that `name` stands for (see [`id_of_name`]).
    pub(crate) fn name_to_id(&self, name: &str) -> (r: Option<i32>)
        ensures
            r == Some(id_of_name(self@, name@)),
    {
        match parse_i32_bytes(name.as_bytes()) {
            Some(n) => Some(n),
            None => match self.name_to_def(name) {
                Some(d) => Some(d.id),
                None => Some(-1),
            },
        }
    }

    /// Every name filed with a definition of id `id`, with the definition, in the order in
    /// which they were filed; `None` where there is none.
    pub(crate) fn id_to_defs(&self, id: i32) -> (r: Option<Vec<(String, WingNodeDef)>>)
        ensures
            match r {
                Some(v) => with_id(self@, id).len() > 0 && v@.map_values(
                    |e: (String, WingNodeDef)| (e.0@, e.1@),
                ) == with_id(self@, id),
                None => with_id(self@, id).len() == 0,
            },
            names_distinct(self@),
            names_distinct(with_id(self@, id)),
    {
        proof {
            use_type_invariant(self);
            lemma_with_id_distinct(self@, id);
        }
        let mut out: Vec<(String, WingNodeDef)> = Vec::new();
        let mut k: usize = 0;
        while k < self.entries.len()
            invariant
                k <= self.entries@.len(),
                self@.len() == self.entries@.len(),
                out@.map_values(|e: (String, WingNodeDef)| (e.0@, e.1@)) == with_id(
                    self@.subrange(0, k as int),
                    id,
                ),
            decreases self.entries@.len() - k,
        {
            let ghost prev = out@;
            assert(self@.subrange(0, k + 1).drop_last() =~= self@.subrange(0, k as int));
            assert(self@.subrange(0, k + 1).last() == self@[k as int]);
            if self.entries[k].1.id == id {
                let entry = (self.entries[k].0.clone(), self.entries[k].1.clone());
                out.push(entry);
                assert(out@.map_values(|e: (String, WingNodeDef)| (e.0@, e.1@)) =~= prev.map_values(
                    |e: (String, WingNodeDef)| (e.0@, e.1@),
                ).push(self@[k as int]));
            }
            k += 1;
        }
        assert(self@.subrange(0, self@.len() as int) =~= self@);
        if out.len() == 0 {
            None
        } else {
            Some(out)
        }
    }

    /// Files `def` under `name`, in place of what was filed under it.
    pub fn insert(&mut self, name: String, def: WingNodeDef)
        ensures
            match lookup(old(self)@, name@) {
                Some(_) => exists|i: int|
                    0 <= i < old(self)@.len() && old(self)@[i].0 == name@ && final(self)@
                        == old(self)@.update(i, (name@, def@)),
                None => final(self)@ == old(self)@.push((name@, def@)),
            },
            lookup(final(self)@, name@) == Some(def@),
            names_distinct(final(self)@),
            forall|n: Seq<char>| n != name@ ==> #[trigger] lookup(final(self)@, n) == lookup(
                old(self)@,
                n,
            ),
    {
        proof {
            use_type_invariant(&*self);
        }
        let ghost before = self@;
        match self.position(name.as_str()) {
            Some(i) => {
                proof {
                    lemma_lookup_at(before, name@, i as int);
                }
                let mut entries = Vec::new();
                std::mem::swap(&mut entries, &mut self.entries);
                let ghost v = entries@;
                entries.set(i, (name, def));
                assert(entries@.map_values(|e: (String, WingNodeDef)| (e.0@, e.1@)) =~= before.update(
                    i as int,
                    (entries@[i as int].0@, entries@[i as int].1@),
                ));
                self.entries = entries;
                proof {
                    use_type_invariant(&*self);
                    let after = self@;
                    assert(after[i as int].0 == name@);
                    lemma_lookup_at(after, name@, i as int);
                    assert forall|n: Seq<char>| n != name@ implies #[trigger] lookup(after, n)
                        == lookup(before, n) by {
                        lemma_lookup_update(before, i as int, (name@, def@), n);
                    }
                }
            },
            None => {
                proof {
                    lemma_lookup_absent(before, name@);
                }
                let mut entries = Vec::new();
                std::mem::swap(&mut entries, &mut self.entries);
                entries.push((name, def));
                assert(entries@.map_values(|e: (String, WingNodeDef)| (e.0@, e.1@)) =~= before.push(
                    (entries@[entries@.len() - 1].0@, entries@[entries@.len() - 1].1@),
                ));
                self.entries = entries;
                proof {
                    let after = self@;
                    assert(after.drop_last() =~= before);
                }
            },
        }
    }
}


/// Reading a decimal number: its digits (bytes '0' to '9') have the value of base ten,
/// most significant first; an optional '+' or '-' goes before them; the text is a number
/// where it has at least one digit, nothing else, and a value within the range of `i32`.
pub proof fn law_parse_decimal(ds: Seq<u8>, k: int)
    requires
        ds.len() > 0,
        forall|i: int| 0 <= i < ds.len() ==> 0x30 <= #[trigger] ds[i] <= 0x39,
    ensures
        ds.len() == 1 ==> decimal_value(ds) == ds[0] - 0x30,
        ds.len() > 1 ==> decimal_value(ds) == decimal_value(ds.drop_last()) * 10 + (ds.last() - 0x30),
        decimal_value(ds) <= 0x7fff_ffff ==> parse_i32(ds) == Some(decimal_value(ds) as i32)
            && parse_i32(seq![0x2bu8] + ds) == Some(decimal_value(ds) as i32),
        decimal_value(ds) <= 0x8000_0000 ==> parse_i32(seq![0x2du8] + ds) == Some((-decimal_value(ds)) as i32),
        decimal_value(ds) > 0x8000_0000 ==> parse_i32(seq![0x2du8] + ds) is None,
        decimal_value(ds) > 0x7fff_ffff ==> parse_i32(ds) is None,
        parse_i32(Seq::<u8>::empty()) is None,
        parse_i32(seq![0x2du8]) is None,
        parse_i32(seq![0x2bu8]) is None,
        0 <= k < ds.len() ==> parse_i32(ds.update(k, 0x20u8)) is None,
{
    lemma_decimal_nonneg(ds);
    assert(ds.drop_last().push(ds.last()) =~= ds);
    if ds.len() == 1 {
        assert(ds.drop_last() =~= Seq::<u8>::empty());
        assert(decimal_value(ds.drop_last()) == 0);
        assert(ds.last() == ds[0]);
    }
    let p = seq![0x2bu8] + ds;
    let m = seq![0x2du8] + ds;
    assert(p.drop_first() =~= ds);
    assert(m.drop_first() =~= ds);
    assert(p[0] == 0x2b && m[0] == 0x2d);
    assert(seq![0x2du8].drop_first() =~= Seq::<u8>::empty());
    assert(seq![0x2bu8].drop_first() =~= Seq::<u8>::empty());
    if 0 <= k < ds.len() {
        let u = ds.update(k, 0x20u8);
        assert(u[k] == 0x20);
        if u[0] == 0x2d || u[0] == 0x2b {
        } else {
            assert(!all_digits(u));
        }
    }
}

} // verus!
