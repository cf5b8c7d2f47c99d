//! Sets of numbers and the one order in which their members are listed.
//!
//! Whatever a simulation decides by walking over a set has to come out the same
//! in every run, so members are always listed in ascending order.

use std::collections::BTreeMap;
use vstd::prelude::*;
use vstd::std_specs::cmp::OrdSpec;
use vstd::std_specs::iter::IteratorSpec;

verus! {

broadcast use vstd::laws_cmp::group_laws_cmp;

/// Whether each number is above the ones before it.
pub open spec fn is_ascending(q: Seq<u64>) -> bool {
    forall|i: int, j: int| 0 <= i < j < q.len() ==> q[i] < q[j]
}

/// Whether a sequence lists the members of a set in ascending order.
pub open spec fn lists(q: Seq<u64>, s: Set<u64>) -> bool {
    &&& is_ascending(q)
    &&& forall|x: u64| #![trigger q.contains(x)] #![trigger s.contains(x)] q.contains(x) <==> s.contains(x)
}

/// The members of a finite set in ascending order.
pub open spec fn ascending(s: Set<u64>) -> Seq<u64> {
    choose|q: Seq<u64>| lists(q, s)
}

/// Two ascending listings of one set are the same.
pub proof fn lemma_listing_is_unique(p: Seq<u64>, q: Seq<u64>, s: Set<u64>)
    requires
        lists(p, s),
        lists(q, s),
    ensures
        p == q,
    decreases p.len(),
{
    if p.len() == 0 {
        if q.len() > 0 {
            assert(q.contains(q[0]));
            assert(p.contains(q[0]));
        }
        assert(p =~= q);
    } else {
        assert(p.contains(p.last()));
        assert(q.contains(p.last()));
        let at = choose|i: int| 0 <= i < q.len() && q[i] == p.last();
        assert(q.contains(q.last()));
        assert(p.contains(q.last()));
        let back = choose|i: int| 0 <= i < p.len() && p[i] == q.last();
        assert(p.last() == q.last());
        let rest = s.remove(p.last());
        lemma_drop_last_lists(p, s);
        lemma_drop_last_lists(q, s);
        lemma_listing_is_unique(p.drop_last(), q.drop_last(), rest);
        assert(p =~= p.drop_last().push(p.last()));
        assert(q =~= q.drop_last().push(q.last()));
    }
}

/// Without its last number a listing lists the set without that number.
proof fn lemma_drop_last_lists(q: Seq<u64>, s: Set<u64>)
    requires
        q.len() > 0,
        lists(q, s),
    ensures
        lists(q.drop_last(), s.remove(q.last())),
{
    let r = q.drop_last();
    assert forall|x: u64| r.contains(x) <==> s.remove(q.last()).contains(x) by {
        if r.contains(x) {
            let i = choose|i: int| 0 <= i < r.len() && r[i] == x;
            assert(q[i] == x);
            assert(q.contains(x));
        }
        if s.remove(q.last()).contains(x) {
            assert(q.contains(x));
            let i = choose|i: int| 0 <= i < q.len() && q[i] == x;
            assert(r[i] == x);
        }
    }
}

/// Where a number belongs in an ascending sequence that does not hold it.
proof fn lemma_insertion_point(q: Seq<u64>, x: u64) -> (at: int)
    requires
        is_ascending(q),
        !q.contains(x),
    ensures
        0 <= at <= q.len(),
        forall|i: int| 0 <= i < at ==> q[i] < x,
        forall|i: int| at <= i < q.len() ==> x < q[i],
    decreases q.len(),
{
    if q.len() == 0 {
        0
    } else if q.last() < x {
        q.len() as int
    } else {
        assert(q.last() != x) by {
            assert(q.contains(q.last()));
        }
        let r = q.drop_last();
        assert(!r.contains(x)) by {
            if r.contains(x) {
                let i = choose|i: int| 0 <= i < r.len() && r[i] == x;
                assert(q[i] == x);
            }
        }
        let at = lemma_insertion_point(r, x);
        assert forall|i: int| 0 <= i < at implies q[i] < x by {
            assert(r[i] == q[i]);
        }
        assert forall|i: int| at <= i < q.len() implies x < q[i] by {
            if i < r.len() {
                assert(r[i] == q[i]);
            }
        }
        at
    }
}

/// A number put where it belongs: the listing of the set with the number.
proof fn lemma_insert_lists(q: Seq<u64>, s: Set<u64>, at: int, x: u64)
    requires
        lists(q, s),
        0 <= at <= q.len(),
        forall|i: int| 0 <= i < at ==> q[i] < x,
        forall|i: int| at <= i < q.len() ==> x < q[i],
    ensures
        lists(q.insert(at, x), s.insert(x)),
{
    let r = q.insert(at, x);
    assert forall|y: u64| r.contains(y) <==> s.insert(x).contains(y) by {
        if r.contains(y) {
            let i = choose|i: int| 0 <= i < r.len() && r[i] == y;
            if i < at {
                assert(q[i] == y);
                assert(q.contains(y));
            } else if i > at {
                assert(q[i - 1] == y);
                assert(q.contains(y));
            }
        }
        if s.insert(x).contains(y) {
            if y == x {
                assert(r[at] == x);
            } else {
                assert(q.contains(y));
                let i = choose|i: int| 0 <= i < q.len() && q[i] == y;
                if i < at {
                    assert(r[i] == y);
                } else {
                    assert(r[i + 1] == y);
                }
            }
        }
    }
}

/// A listing without the number at a place lists the set without that number.
proof fn lemma_remove_lists(q: Seq<u64>, s: Set<u64>, at: int)
    requires
        lists(q, s),
        0 <= at < q.len(),
    ensures
        lists(q.remove(at), s.remove(q[at])),
{
    let r = q.remove(at);
    assert forall|y: u64| r.contains(y) <==> s.remove(q[at]).contains(y) by {
        if r.contains(y) {
            let i = choose|i: int| 0 <= i < r.len() && r[i] == y;
            if i < at {
                assert(q[i] == y);
            } else {
                assert(q[i + 1] == y);
            }
            assert(q.contains(y));
        }
        if s.remove(q[at]).contains(y) {
            assert(q.contains(y));
            let i = choose|i: int| 0 <= i < q.len() && q[i] == y;
            if i < at {
                assert(r[i] == y);
            } else {
                assert(r[i - 1] == y);
            }
        }
    }
}

/// A finite set has an ascending listing, as long as the set is large.
pub proof fn lemma_ascending(s: Set<u64>)
    requires
        s.finite(),
    ensures
        lists(ascending(s), s),
        ascending(s).len() == s.len(),
    decreases s.len(),
{
    if s.len() == 0 {
        assert(s =~= Set::<u64>::empty());
        let q = Seq::<u64>::empty();
        assert(lists(q, s));
        lemma_listing_is_unique(q, ascending(s), s);
    } else {
        let x = s.choose();
        let t = s.remove(x);
        lemma_ascending(t);
        let q = ascending(t);
        assert(!q.contains(x));
        let at = lemma_insertion_point(q, x);
        lemma_insert_lists(q, t, at, x);
        assert(t.insert(x) =~= s);
        lemma_listing_is_unique(q.insert(at, x), ascending(s), s);
    }
}

/// A listing is the ascending listing, and its length the size of the set.
pub proof fn lemma_lists_is_ascending(q: Seq<u64>, s: Set<u64>)
    requires
        lists(q, s),
    ensures
        s.finite(),
        q == ascending(s),
        q.len() == s.len(),
{
    assert(s =~= q.to_set());
    vstd::seq_lib::seq_to_set_is_finite(q);
    lemma_ascending(s);
    lemma_listing_is_unique(q, ascending(s), s);
}

/// The keys of a map, in ascending order.
pub fn ascending_keys<V>(map: &BTreeMap<u64, V>) -> (keys: Vec<u64>)
    ensures
        keys@ == ascending(map@.dom()),
        lists(keys@, map@.dom()),
        keys@.len() == map@.dom().len(),
{
    let mut keys: Vec<u64> = Vec::new();
    let ghost entries = map.iter().remaining();
    let ghost all = entries.map_values(|kv: (&u64, &V)| *kv.0);
    for entry in it: map.iter()
        invariant
            it.seq() == entries,
            all == entries.map_values(|kv: (&u64, &V)| *kv.0),
            keys@ =~= all.take(it.index()),
    {
        keys.push(*entry.0);
    }
    proof {
        assert(keys@ =~= all);
        assert(vstd::std_specs::btree::increasing_seq(all));
        assert forall|i: int, j: int| 0 <= i < j < all.len() implies all[i] < all[j] by {
            assert(all[i].cmp_spec(&all[j]) is Less);
        }
        assert forall|x: u64| all.contains(x) <==> map@.dom().contains(x) by {
            if all.contains(x) {
                let i = choose|i: int| 0 <= i < all.len() && all[i] == x;
                assert(map@.contains_key(*entries[i].0));
            }
            if map@.dom().contains(x) {
                assert(map@.contains_key(x));
                assert(entries.contains((&x, &map@[x])));
                let i = choose|i: int| 0 <= i < entries.len() && entries[i] == (&x, &map@[x]);
                assert(all[i] == x);
            }
        }
        assert(lists(all, map@.dom()));
        lemma_lists_is_ascending(all, map@.dom());
    }
    keys
}

/// A set of numbers that keeps its members in ascending order.
#[derive(Debug)]
pub struct IdSet {
    ids: Vec<u64>,
}

impl View for IdSet {
    type V = Set<u64>;

    closed spec fn view(&self) -> Set<u64> {
        self.ids@.to_set()
    }
}

impl IdSet {
    #[verifier::type_invariant]
    spec fn ordered(self) -> bool {
        is_ascending(self.ids@)
    }

    /// What the order of the members says of the set.
    proof fn lemma_ids(self)
        requires
            self.ordered(),
        ensures
            lists(self.ids@, self@),
            self.ids@ == ascending(self@),
            self.ids@.len() == self@.len(),
            self@.finite(),
    {
        assert(lists(self.ids@, self@));
        lemma_lists_is_ascending(self.ids@, self@);
    }

    /// The empty set.
    pub fn new() -> (set: Self)
        ensures
            set@ == Set::<u64>::empty(),
    {
        let set = IdSet { ids: Vec::new() };
        assert(set@ =~= Set::<u64>::empty());
        set
    }

    /// How many members the set has.
    pub fn len(&self) -> (len: usize)
        ensures
            len == self@.len(),
            self@.finite(),
    {
        proof {
            use_type_invariant(self);
            self.lemma_ids();
        }
        self.ids.len()
    }

    /// The members in ascending order.
    pub fn to_vec(&self) -> (ids: Vec<u64>)
        ensures
            ids@ == ascending(self@),
            lists(ids@, self@),
            ids@.len() == self@.len(),
            self@.finite(),
    {
        proof {
            use_type_invariant(self);
            self.lemma_ids();
        }
        self.ids.clone()
    }

    /// Where the members from `id` on begin.
    fn position(&self, id: u64) -> (at: usize)
        ensures
            at <= self.ids@.len(),
            forall|i: int| 0 <= i < at ==> self.ids@[i] < id,
            forall|i: int| at <= i < self.ids@.len() ==> id <= self.ids@[i],
    {
        proof {
            use_type_invariant(self);
        }
        let mut at: usize = 0;
        while at < self.ids.len() && self.ids[at] < id
            invariant
                at <= self.ids@.len(),
                is_ascending(self.ids@),
                forall|i: int| 0 <= i < at ==> self.ids@[i] < id,
            decreases self.ids.len() - at,
        {
            at = at + 1;
        }
        at
    }

    /// Whether `id` is a member.
    pub fn contains(&self, id: u64) -> (found: bool)
        ensures
            found == self@.contains(id),
    {
        let at: usize = self.position(id);
        let found = at < self.ids.len() && self.ids[at] == id;
        proof {
            if self.ids@.contains(id) {
                let i = choose|i: int| 0 <= i < self.ids@.len() && self.ids@[i] == id;
                assert(i >= at);
                use_type_invariant(self);
            }
        }
        found
    }

    /// Makes `id` a member.
    pub fn insert(&mut self, id: u64)
        ensures
            final(self)@ == old(self)@.insert(id),
    {
        proof {
            use_type_invariant(&*self);
            self.lemma_ids();
        }
        let ghost before = self.ids@;
        let ghost members = self@;
        let at: usize = self.position(id);
        if at < self.ids.len() && self.ids[at] == id {
            assert(before.contains(id));
            assert(members.insert(id) =~= members);
            return;
        }
        let mut ids: Vec<u64> = Vec::new();
        std::mem::swap(&mut ids, &mut self.ids);
        ids.insert(at, id);
        proof {
            assert forall|i: int| at <= i < before.len() implies id < before[i] by {
                if i > at {
                    assert(before[at as int] < before[i]);
                }
            }
            lemma_insert_lists(before, members, at as int, id);
            assert(ids@.to_set() =~= members.insert(id));
        }
        self.ids = ids;
    }

    /// Takes `id` out of the set.
    pub fn remove(&mut self, id: u64)
        ensures
            final(self)@ == old(self)@.remove(id),
    {
        proof {
            use_type_invariant(&*self);
            self.lemma_ids();
        }
        let ghost before = self.ids@;
        let ghost members = self@;
        let at: usize = self.position(id);
        if at < self.ids.len() && self.ids[at] == id {
            let mut ids: Vec<u64> = Vec::new();
            std::mem::swap(&mut ids, &mut self.ids);
            ids.remove(at);
            proof {
                lemma_remove_lists(before, members, at as int);
                assert(ids@.to_set() =~= members.remove(id));
            }
            self.ids = ids;
        } else {
            proof {
                if before.contains(id) {
                    let i = choose|i: int| 0 <= i < before.len() && before[i] == id;
                    assert(i >= at);
                }
                assert(members.remove(id) =~= members);
            }
        }
    }
}

impl Clone for IdSet {
    fn clone(&self) -> (copy: Self)
        ensures
            copy@ == self@,
    {
        proof {
            use_type_invariant(self);
        }
        IdSet { ids: self.ids.clone() }
    }
}

} // verus!
