use vstd::prelude::*;
use vstd::seq_lib::{group_to_multiset_ensures, lemma_multiset_commutative};

use crate::WingResponse;

verus! {

/// The subscribers of one property, by the handles that their owner gave them.
pub open spec fn subscribers_of(table: Seq<(i32, Seq<u64>)>, id: i32) -> Seq<u64>
    decreases table.len(),
{
    if table.len() == 0 {
        seq![]
    } else if table.last().0 == id {
        table.last().1
    } else {
        subscribers_of(table.drop_last(), id)
    }
}

/// The subscribers of every property, property by property; a handle subscribed to two
/// properties is there twice.
pub open spec fn all_subscribers(table: Seq<(i32, Seq<u64>)>) -> Seq<u64>
    decreases table.len(),
{
    if table.len() == 0 {
        seq![]
    } else {
        all_subscribers(table.drop_last()) + table.last().1
    }
}

pub open spec fn ids_distinct(table: Seq<(i32, Seq<u64>)>) -> bool {
    forall|i: int, j: int| 0 <= i < j < table.len() ==> #[trigger] table[i].0 != #[trigger] table[j].0
}

/// The subscribers that a message from the console goes to: a node value goes to the
/// subscribers of its node, any other message to every subscriber.
pub open spec fn recipients(table: Seq<(i32, Seq<u64>)>, resp: WingResponse) -> Seq<u64> {
    match resp {
        WingResponse::NodeData(id, _) => subscribers_of(table, id),
        _ => all_subscribers(table),
    }
}

/// Who is subscribed to which property's messages, each property filed once.
pub struct PropertySubscribers {
    table: Vec<(i32, Vec<u64>)>,
}

impl View for PropertySubscribers {
    type V = Seq<(i32, Seq<u64>)>;

    closed spec fn view(&self) -> Seq<(i32, Seq<u64>)> {
        self.table@.map_values(|e: (i32, Vec<u64>)| (e.0, e.1@))
    }
}

proof fn lemma_subscribers_absent(table: Seq<(i32, Seq<u64>)>, id: i32)
    requires
        forall|i: int| 0 <= i < table.len() ==> #[trigger] table[i].0 != id,
    ensures
        subscribers_of(table, id) == Seq::<u64>::empty(),
    decreases table.len(),
{
    if table.len() > 0 {
        lemma_subscribers_absent(table.drop_last(), id);
    }
}

proof fn lemma_subscribers_at(table: Seq<(i32, Seq<u64>)>, id: i32, i: int)
    requires
        0 <= i < table.len(),
        table[i].0 == id,
        forall|j: int| i < j < table.len() ==> #[trigger] table[j].0 != id,
    ensures
        subscribers_of(table, id) == table[i].1,
    decreases table.len(),
{
    if i < table.len() - 1 {
        lemma_subscribers_at(table.drop_last(), id, i);
    }
}

proof fn lemma_subscribers_update(table: Seq<(i32, Seq<u64>)>, i: int, v: Seq<u64>, q: i32)
    requires
        0 <= i < table.len(),
        table[i].0 != q,
    ensures
        subscribers_of(table.update(i, (table[i].0, v)), q) == subscribers_of(table, q),
    decreases table.len(),
{
    let t2 = table.update(i, (table[i].0, v));
    if i < table.len() - 1 {
        assert(t2.drop_last() =~= table.drop_last().update(i, (table[i].0, v)));
        lemma_subscribers_update(table.drop_last(), i, v, q);
    } else {
        assert(t2.drop_last() =~= table.drop_last());
    }
}

proof fn lemma_subscribers_remove(table: Seq<(i32, Seq<u64>)>, i: int, q: i32)
    requires
        0 <= i < table.len(),
        table[i].0 != q,
    ensures
        subscribers_of(table.remove(i), q) == subscribers_of(table, q),
    decreases table.len(),
{
    if i < table.len() - 1 {
        assert(table.remove(i).drop_last() =~= table.drop_last().remove(i));
        assert(table.remove(i).last() == table.last());
        lemma_subscribers_remove(table.drop_last(), i, q);
    } else {
        assert(table.remove(i) =~= table.drop_last());
    }
}

proof fn lemma_all_update_bag(table: Seq<(i32, Seq<u64>)>, i: int, v: Seq<u64>)
    requires
        0 <= i < table.len(),
    ensures
        all_subscribers(table.update(i, (table[i].0, v))).to_multiset().add(table[i].1.to_multiset())
            =~= all_subscribers(table).to_multiset().add(v.to_multiset()),
    decreases table.len(),
{
    broadcast use vstd::multiset::group_multiset_axioms;

    let t2 = table.update(i, (table[i].0, v));
    let last = table.last().1;
    assert(all_subscribers(t2) == all_subscribers(t2.drop_last()) + t2.last().1);
    if i < table.len() - 1 {
        let d = table.drop_last();
        assert(d[i] == table[i]);
        assert(t2.drop_last() =~= d.update(i, (d[i].0, v)));
        assert(t2.last() == table.last());
        lemma_all_update_bag(d, i, v);
        lemma_multiset_commutative(all_subscribers(t2.drop_last()), last);
        lemma_multiset_commutative(all_subscribers(d), last);
        let a = all_subscribers(t2.drop_last()).to_multiset();
        let b = all_subscribers(d).to_multiset();
        let o = table[i].1.to_multiset();
        let w = v.to_multiset();
        let l = last.to_multiset();
        assert(a.add(o) =~= b.add(w));
        assert(all_subscribers(t2).to_multiset() =~= a.add(l));
        assert(all_subscribers(table).to_multiset() =~= b.add(l));
        assert forall|x: u64| #[trigger] a.add(l).add(o).count(x) == b.add(l).add(w).count(x) by {
            assert(a.add(o).count(x) == b.add(w).count(x));
        }
        assert(a.add(l).add(o) =~= b.add(l).add(w));
    } else {
        assert(t2.drop_last() =~= table.drop_last());
        assert(t2.last().1 == v);
        lemma_multiset_commutative(all_subscribers(table.drop_last()), v);
        lemma_multiset_commutative(all_subscribers(table.drop_last()), last);
        let b = all_subscribers(table.drop_last()).to_multiset();
        assert(all_subscribers(t2).to_multiset() =~= b.add(v.to_multiset()));
        assert(all_subscribers(table).to_multiset() =~= b.add(last.to_multiset()));
    }
}

proof fn lemma_all_remove_bag(table: Seq<(i32, Seq<u64>)>, i: int)
    requires
        0 <= i < table.len(),
    ensures
        all_subscribers(table.remove(i)).to_multiset().add(table[i].1.to_multiset())
            =~= all_subscribers(table).to_multiset(),
    decreases table.len(),
{
    broadcast use vstd::multiset::group_multiset_axioms;

    let t2 = table.remove(i);
    let last = table.last().1;
    if i < table.len() - 1 {
        let d = table.drop_last();
        assert(t2.drop_last() =~= d.remove(i));
        assert(t2.last() == table.last());
        lemma_all_remove_bag(d, i);
        lemma_multiset_commutative(all_subscribers(t2.drop_last()), last);
        lemma_multiset_commutative(all_subscribers(d), last);
    } else {
        assert(t2 =~= table.drop_last());
        lemma_multiset_commutative(all_subscribers(table.drop_last()), last);
    }
}

impl PropertySubscribers {
    #[verifier::type_invariant]
    closed spec fn each_property_once(self) -> bool {
        ids_distinct(self@)
    }

    pub fn new() -> (s: Self)
        ensures
            s@ == Seq::<(i32, Seq<u64>)>::empty(),
            ids_distinct(s@),
    {
        let s = PropertySubscribers { table: Vec::new() };
        assert(s@ =~= Seq::<(i32, Seq<u64>)>::empty());
        s
    }

    fn position(&self, id: i32) -> (r: Option<usize>)
        ensures
            match r {
                Some(i) => i < self@.len() && self@[i as int].0 == id,
                None => forall|i: int| 0 <= i < self@.len() ==> #[trigger] self@[i].0 != id,
            },
    {
        let mut k: usize = 0;
        while k < self.table.len()
            invariant
                k <= self.table@.len(),
                self@.len() == self.table@.len(),
                forall|i: int| 0 <= i < k ==> #[trigger] self@[i].0 != id,
            decreases self.table@.len() - k,
        {
            if self.table[k].0 == id {
                return Some(k);
            }
            k += 1;
        }
        None
    }

    /// Adds `sub` to the subscribers of property `id`, after those it has; the
    /// subscribers of other properties are unchanged.
    pub fn subscribe(&mut self, id: i32, sub: u64)
        ensures
            subscribers_of(final(self)@, id) == subscribers_of(old(self)@, id).push(sub),
            forall|q: i32| q != id ==> subscribers_of(final(self)@, q) == subscribers_of(old(self)@, q),
            all_subscribers(final(self)@).to_multiset() == all_subscribers(old(self)@).to_multiset().insert(sub),
            ids_distinct(final(self)@),
    {
        proof {
            use_type_invariant(&*self);
        }
        let ghost before = self@;
        match self.position(id) {
            Some(i) => {
                proof {
                    lemma_subscribers_at(before, id, i as int);
                }
                let mut table = Vec::new();
                std::mem::swap(&mut table, &mut self.table);
                let mut subs = Vec::new();
                std::mem::swap(&mut subs, &mut table[i].1);
                let ghost old_subs = subs@;
                subs.push(sub);
                let ghost new_subs = subs@;
                table.set(i, (id, subs));
                let ghost after = table@.map_values(|e: (i32, Vec<u64>)| (e.0, e.1@));
                assert(after =~= before.update(i as int, (id, new_subs)));
                proof {
                    assert(old_subs == before[i as int].1);
                    lemma_subscribers_at(after, id, i as int);
                    assert forall|q: i32| q != id implies subscribers_of(after, q) == subscribers_of(before, q) by {
                        lemma_subscribers_update(before, i as int, new_subs, q);
                    }
                    broadcast use group_to_multiset_ensures, vstd::multiset::group_multiset_axioms;
                    lemma_all_update_bag(before, i as int, new_subs);
                    let fa = all_subscribers(after).to_multiset();
                    let fb = all_subscribers(before).to_multiset();
                    let fo = old_subs.to_multiset();
                    assert(new_subs == old_subs.push(sub));
                    assert(new_subs.to_multiset() =~= fo.insert(sub));
                    assert(after == before.update(i as int, (before[i as int].0, new_subs)));
                    assert(fa.add(fo) =~= fb.add(fo.insert(sub)));
                    assert forall|x: u64| #[trigger] fa.count(x) == fb.insert(sub).count(x) by {
                        assert(fa.add(fo).count(x) == fb.add(fo.insert(sub)).count(x));
                    }
                    assert(fa =~= fb.insert(sub));
                }
                self.table = table;
            },
            None => {
                proof {
                    lemma_subscribers_absent(before, id);
                }
                let mut subs: Vec<u64> = Vec::new();
                subs.push(sub);
                let mut table = Vec::new();
                std::mem::swap(&mut table, &mut self.table);
                table.push((id, subs));
                let ghost after = table@.map_values(|e: (i32, Vec<u64>)| (e.0, e.1@));
                assert(after =~= before.push((id, seq![sub])));
                proof {
                    assert(after.drop_last() =~= before);
                    assert(seq![sub] =~= Seq::<u64>::empty().push(sub));
                    assert(all_subscribers(before) + seq![sub] =~= all_subscribers(before).push(sub));
                    broadcast use group_to_multiset_ensures, vstd::multiset::group_multiset_axioms;
                }
                self.table = table;
            },
        }
    }

    /// Removes every subscriber of property `id`; the subscribers of other properties are
    /// unchanged.
    pub fn unsubscribe(&mut self, id: i32)
        ensures
            subscribers_of(final(self)@, id) == Seq::<u64>::empty(),
            forall|q: i32| q != id ==> subscribers_of(final(self)@, q) == subscribers_of(old(self)@, q),
            all_subscribers(final(self)@).to_multiset() == all_subscribers(old(self)@).to_multiset().sub(
                subscribers_of(old(self)@, id).to_multiset(),
            ),
            ids_distinct(final(self)@),
    {
        proof {
            use_type_invariant(&*self);
        }
        let ghost before = self@;
        match self.position(id) {
            Some(i) => {
                let mut table = Vec::new();
                std::mem::swap(&mut table, &mut self.table);
                let _removed = table.remove(i);
                let ghost after = table@.map_values(|e: (i32, Vec<u64>)| (e.0, e.1@));
                assert(after =~= before.remove(i as int));
                proof {
                    assert forall|j: int| 0 <= j < after.len() implies #[trigger] after[j].0 != id by {
                        if j < i {
                            assert(after[j] == before[j]);
                        } else {
                            assert(after[j] == before[j + 1]);
                        }
                    }
                    lemma_subscribers_absent(after, id);
                    assert forall|q: i32| q != id implies subscribers_of(after, q) == subscribers_of(before, q) by {
                        lemma_subscribers_remove(before, i as int, q);
                    }
                    lemma_subscribers_at(before, id, i as int);
                    broadcast use vstd::multiset::group_multiset_axioms;
                    lemma_all_remove_bag(before, i as int);
                    assert(all_subscribers(after).to_multiset() =~= all_subscribers(before).to_multiset().sub(
                        subscribers_of(before, id).to_multiset(),
                    ));
                }
                self.table = table;
            },
            None => {
                proof {
                    lemma_subscribers_absent(before, id);
                    broadcast use group_to_multiset_ensures, vstd::multiset::group_multiset_axioms;
                    assert(all_subscribers(before).to_multiset() =~= all_subscribers(before).to_multiset().sub(
                        Seq::<u64>::empty().to_multiset(),
                    ));
                }
            },
        }
    }

    /// The subscribers of property `id`, in the order in which they subscribed.
    pub fn subscribers(&self, id: i32) -> (r: Vec<u64>)
        ensures
            r@ == subscribers_of(self@, id),
    {
        proof {
            use_type_invariant(self);
        }
        match self.position(id) {
            Some(i) => {
                proof {
                    lemma_subscribers_at(self@, id, i as int);
                }
                copy_handles(&self.table[i].1)
            },
            None => {
                proof {
                    lemma_subscribers_absent(self@, id);
                }
                Vec::new()
            },
        }
    }

    /// The subscribers that `resp` goes to (see [`recipients`]).
    pub fn route(&self, resp: &WingResponse) -> (r: Vec<u64>)
        ensures
            r@ == recipients(self@, *resp),
    {
        proof {
            use_type_invariant(self);
        }
        match resp {
            WingResponse::NodeData(id, _) => {
                match self.position(*id) {
                    Some(i) => {
                        proof {
                            lemma_subscribers_at(self@, *id, i as int);
                        }
                        copy_handles(&self.table[i].1)
                    },
                    None => {
                        proof {
                            lemma_subscribers_absent(self@, *id);
                        }
                        Vec::new()
                    },
                }
            },
            _ => {
                let mut out: Vec<u64> = Vec::new();
                let mut k: usize = 0;
                while k < self.table.len()
                    invariant
                        k <= self.table@.len(),
                        self@.len() == self.table@.len(),
                        out@ == all_subscribers(self@.subrange(0, k as int)),
                    decreases self.table@.len() - k,
                {
                    let ghost prev = out@;
                    append_handles(&mut out, &self.table[k].1);
                    assert(self@.subrange(0, k + 1).drop_last() =~= self@.subrange(0, k as int));
                    k += 1;
                }
                assert(self@.subrange(0, self@.len() as int) =~= self@);
                out
            },
        }
    }
}

fn copy_handles(v: &Vec<u64>) -> (r: Vec<u64>)
    ensures
        r@ == v@,
{
    let mut r: Vec<u64> = Vec::new();
    append_handles(&mut r, v);
    assert(r@ =~= v@);
    r
}

fn append_handles(out: &mut Vec<u64>, v: &Vec<u64>)
    ensures
        final(out)@ == old(out)@ + v@,
{
    let ghost start = out@;
    let mut k: usize = 0;
    while k < v.len()
        invariant
            k <= v@.len(),
            out@ == start + v@.subrange(0, k as int),
        decreases v@.len() - k,
    {
        out.push(v[k]);
        k += 1;
        assert(out@ =~= start + v@.subrange(0, k as int));
    }
    assert(v@.subrange(0, v@.len() as int) =~= v@);
}

} // verus!
