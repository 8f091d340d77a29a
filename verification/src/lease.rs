//! The in-process post lease: the compare-and-set that makes approve → post
//! idempotent on `review_id`. Exactly one `acquire` of an id wins; the rest see
//! `Held` (a post in flight) or `AlreadyPosted` (terminal), and never post.
//!
//! Posted (terminal) leases are retained for dedup up to a cap, oldest evicted
//! first; held (in-flight) leases are never counted and never evicted.
use vstd::prelude::*;

verus! {

/// Cap on the number of terminal (posted) leases retained for dedup.
pub const MAX_POSTED_LEASES: usize = 100_000;

/// The answer to an `acquire`.
#[derive(Debug, Clone, Copy, PartialEq, Eq, Structural)]
pub enum PostLease {
    /// This caller won the lease and may post.
    Acquired,
    /// Another caller holds the lease (a post is in flight): stand down.
    Held,
    /// The review was already posted: never post again.
    AlreadyPosted,
}

/// The lease table: `review_id → posted?` (present-and-`false` is held,
/// present-and-`true` is posted, absent is none), plus the insertion order of
/// the posted ids for bounded FIFO eviction.
pub struct MemoryPostLease {
    states: Vec<(String, bool)>,
    posted_order: Vec<String>,
    cap: usize,
}

/// The abstract lease table.
pub struct LeaseView {
    /// `review_id → posted?` for every held or posted id.
    pub states: Map<Seq<char>, bool>,
    /// The posted ids, oldest first.
    pub posted_order: Seq<Seq<char>>,
    /// How many posted leases are retained.
    pub cap: nat,
}

pub open spec fn entries_map(es: Seq<(String, bool)>) -> Map<Seq<char>, bool>
    decreases es.len(),
{
    if es.len() == 0 {
        Map::empty()
    } else {
        entries_map(es.drop_last()).insert(es.last().0@, es.last().1)
    }
}

pub open spec fn keys_distinct(es: Seq<(String, bool)>) -> bool {
    forall|i: int, j: int| 0 <= i < es.len() && 0 <= j < es.len() && i != j ==> es[i].0@ != es[j].0@
}

pub open spec fn ids_distinct(s: Seq<Seq<char>>) -> bool {
    forall|i: int, j: int| 0 <= i < s.len() && 0 <= j < s.len() && i != j ==> s[i] != s[j]
}

impl View for MemoryPostLease {
    type V = LeaseView;

    closed spec fn view(&self) -> LeaseView {
        LeaseView {
            states: entries_map(self.states@),
            posted_order: self.posted_order@.map_values(|s: String| s@),
            cap: self.cap as nat,
        }
    }
}

impl LeaseView {
    /// Well-formed: the order lists exactly the posted ids, once each, and holds
    /// no more than the cap.
    pub open spec fn wf(self) -> bool {
        &&& self.cap >= 1
        &&& ids_distinct(self.posted_order)
        &&& self.posted_order.len() <= self.cap
        &&& forall|k: Seq<char>| #[trigger] self.posted_order.contains(k) <==> (
            self.states.contains_key(k) && self.states[k])
    }

    /// The lease status of `id`: `None` (none), `Some(false)` (held), `Some(true)` (posted).
    pub open spec fn status(self, id: Seq<char>) -> Option<bool> {
        if self.states.contains_key(id) {
            Some(self.states[id])
        } else {
            None
        }
    }
}

proof fn lemma_entries_map_key(es: Seq<(String, bool)>, i: int)
    requires
        keys_distinct(es),
        0 <= i < es.len(),
    ensures
        entries_map(es).contains_key(es[i].0@),
        entries_map(es)[es[i].0@] == es[i].1,
    decreases es.len(),
{
    if i < es.len() - 1 {
        let t = es.drop_last();
        assert(keys_distinct(t));
        assert(t[i] == es[i]);
        lemma_entries_map_key(t, i);
    }
}

proof fn lemma_entries_map_absent(es: Seq<(String, bool)>, k: Seq<char>)
    requires
        forall|i: int| 0 <= i < es.len() ==> (#[trigger] es[i]).0@ != k,
    ensures
        !entries_map(es).contains_key(k),
    decreases es.len(),
{
    if es.len() > 0 {
        let t = es.drop_last();
        assert forall|i: int| 0 <= i < t.len() implies (#[trigger] t[i]).0@ != k by {
            assert(t[i] == es[i]);
        }
        lemma_entries_map_absent(t, k);
    }
}

proof fn lemma_entries_map_domain(es: Seq<(String, bool)>, k: Seq<char>)
    requires
        entries_map(es).contains_key(k),
    ensures
        exists|i: int| 0 <= i < es.len() && (#[trigger] es[i]).0@ == k,
    decreases es.len(),
{
    if es.len() > 0 {
        let t = es.drop_last();
        if es.last().0@ != k {
            lemma_entries_map_domain(t, k);
            let i = choose|i: int| 0 <= i < t.len() && (#[trigger] t[i]).0@ == k;
            assert(es[i] == t[i]);
        } else {
            assert(es[es.len() - 1].0@ == k);
        }
    }
}

/// The map of a distinct-key table after replacing entry `i`'s flag.
proof fn lemma_entries_map_update(es: Seq<(String, bool)>, i: int, b: bool)
    requires
        keys_distinct(es),
        0 <= i < es.len(),
    ensures
        keys_distinct(es.update(i, (es[i].0, b))),
        entries_map(es.update(i, (es[i].0, b))) =~= entries_map(es).insert(es[i].0@, b),
{
    let es2 = es.update(i, (es[i].0, b));
    assert(keys_distinct(es2)) by {
        assert forall|x: int, y: int| 0 <= x < es2.len() && 0 <= y < es2.len() && x != y implies es2[x].0@ != es2[y].0@ by {
            assert(es2[x].0@ == es[x].0@);
            assert(es2[y].0@ == es[y].0@);
        }
    }
    assert forall|k: Seq<char>| #[trigger] entries_map(es2).contains_key(k) <==> entries_map(es).insert(es[i].0@, b).contains_key(k) by {
        if entries_map(es2).contains_key(k) {
            lemma_entries_map_domain(es2, k);
            let j = choose|j: int| 0 <= j < es2.len() && (#[trigger] es2[j]).0@ == k;
            lemma_entries_map_key(es, j);
        }
        if entries_map(es).insert(es[i].0@, b).contains_key(k) {
            if k != es[i].0@ {
                lemma_entries_map_domain(es, k);
                let j = choose|j: int| 0 <= j < es.len() && (#[trigger] es[j]).0@ == k;
                lemma_entries_map_key(es2, j);
            } else {
                lemma_entries_map_key(es2, i);
            }
        }
    }
    assert forall|k: Seq<char>| #[trigger] entries_map(es2).contains_key(k) implies entries_map(es2)[k] == entries_map(es).insert(es[i].0@, b)[k] by {
        lemma_entries_map_domain(es2, k);
        let j = choose|j: int| 0 <= j < es2.len() && (#[trigger] es2[j]).0@ == k;
        lemma_entries_map_key(es2, j);
        if j != i {
            lemma_entries_map_key(es, j);
        }
    }
}

/// The map of a distinct-key table after appending a fresh key.
proof fn lemma_entries_map_push(es: Seq<(String, bool)>, e: (String, bool))
    requires
        keys_distinct(es),
        !entries_map(es).contains_key(e.0@),
    ensures
        keys_distinct(es.push(e)),
        entries_map(es.push(e)) == entries_map(es).insert(e.0@, e.1),
{
    let es2 = es.push(e);
    assert(es2.drop_last() =~= es);
    assert forall|x: int, y: int| 0 <= x < es2.len() && 0 <= y < es2.len() && x != y implies es2[x].0@ != es2[y].0@ by {
        if x < es.len() && y < es.len() {
            assert(es2[x] == es[x] && es2[y] == es[y]);
        } else if x < es.len() {
            lemma_entries_map_key(es, x);
            assert(es2[x] == es[x]);
        } else {
            lemma_entries_map_key(es, y);
            assert(es2[y] == es[y]);
        }
    }
}

/// The map of a distinct-key table after removing entry `i`.
proof fn lemma_entries_map_remove(es: Seq<(String, bool)>, i: int)
    requires
        keys_distinct(es),
        0 <= i < es.len(),
    ensures
        keys_distinct(es.remove(i)),
        entries_map(es.remove(i)) =~= entries_map(es).remove(es[i].0@),
{
    let es2 = es.remove(i);
    assert forall|x: int, y: int| 0 <= x < es2.len() && 0 <= y < es2.len() && x != y implies es2[x].0@ != es2[y].0@ by {
        let xo = if x < i { x } else { x + 1 };
        let yo = if y < i { y } else { y + 1 };
        assert(es2[x] == es[xo] && es2[y] == es[yo]);
    }
    assert forall|k: Seq<char>| #[trigger] entries_map(es2).contains_key(k) <==> entries_map(es).remove(es[i].0@).contains_key(k) by {
        if entries_map(es2).contains_key(k) {
            lemma_entries_map_domain(es2, k);
            let j = choose|j: int| 0 <= j < es2.len() && (#[trigger] es2[j]).0@ == k;
            let jo = if j < i { j } else { j + 1 };
            assert(es2[j] == es[jo]);
            lemma_entries_map_key(es, jo);
        }
        if entries_map(es).remove(es[i].0@).contains_key(k) {
            lemma_entries_map_domain(es, k);
            let j = choose|j: int| 0 <= j < es.len() && (#[trigger] es[j]).0@ == k;
            assert(j != i);
            let j2 = if j < i { j } else { j - 1 };
            assert(es2[j2] == es[j]);
            lemma_entries_map_key(es2, j2);
        }
    }
    assert forall|k: Seq<char>| #[trigger] entries_map(es2).contains_key(k) implies entries_map(es2)[k] == entries_map(es)[k] by {
        lemma_entries_map_domain(es2, k);
        let j = choose|j: int| 0 <= j < es2.len() && (#[trigger] es2[j]).0@ == k;
        let jo = if j < i { j } else { j + 1 };
        assert(es2[j] == es[jo]);
        lemma_entries_map_key(es2, j);
        lemma_entries_map_key(es, jo);
    }
}

impl MemoryPostLease {
    pub closed spec fn wf(&self) -> bool {
        &&& keys_distinct(self.states@)
        &&& self@.wf()
    }

    /// An empty table with the default posted-lease cap.
    pub fn new() -> (l: Self)
        ensures
            l.wf(),
            l@.states == Map::<Seq<char>, bool>::empty(),
            l@.posted_order.len() == 0,
            l@.cap == MAX_POSTED_LEASES,
    {
        let l = MemoryPostLease { states: Vec::new(), posted_order: Vec::new(), cap: MAX_POSTED_LEASES };
        assert(l@.states =~= Map::<Seq<char>, bool>::empty());
        l
    }

    /// An empty table with an explicit posted-lease cap (0 means the default).
    pub fn with_cap(cap: usize) -> (l: Self)
        ensures
            l.wf(),
            l@.states == Map::<Seq<char>, bool>::empty(),
            l@.posted_order.len() == 0,
            l@.cap == (if cap == 0 { MAX_POSTED_LEASES } else { cap }),
    {
        let c = if cap == 0 { MAX_POSTED_LEASES } else { cap };
        let l = MemoryPostLease { states: Vec::new(), posted_order: Vec::new(), cap: c };
        assert(l@.states =~= Map::<Seq<char>, bool>::empty());
        l
    }

    /// The index of `id` in the table, if present.
    fn find(&self, id: &String) -> (r: Option<usize>)
        requires
            keys_distinct(self.states@),
        ensures
            match r {
                Some(i) => i < self.states@.len() && self.states@[i as int].0@ == id@,
                None => !self@.states.contains_key(id@),
            },
    {
        let mut i: usize = 0;
        while i < self.states.len()
            invariant
                i <= self.states@.len(),
                forall|j: int| 0 <= j < i ==> (#[trigger] self.states@[j]).0@ != id@,
            decreases self.states.len() - i,
        {
            if self.states[i].0 == *id {
                return Some(i);
            }
            i += 1;
        }
        proof {
            lemma_entries_map_absent(self.states@, id@);
        }
        None
    }

    /// The lease status of `review_id`.
    pub fn status(&self, review_id: &str) -> (r: Option<bool>)
        requires
            self.wf(),
        ensures
            r == self@.status(review_id@),
    {
        let id = review_id.to_owned();
        match self.find(&id) {
            Some(i) => {
                proof { lemma_entries_map_key(self.states@, i as int); }
                Some(self.states[i].1)
            },
            None => None,
        }
    }

    /// Claim the lease on `review_id`: the first claim wins (`Acquired`, and the
    /// lease is now held); a held lease answers `Held`, a posted one `AlreadyPosted`.
    pub fn acquire(&mut self, review_id: &str) -> (r: PostLease)
        requires
            old(self).wf(),
        ensures
            final(self).wf(),
            final(self)@.posted_order == old(self)@.posted_order,
            final(self)@.cap == old(self)@.cap,
            match old(self)@.status(review_id@) {
                None => r == PostLease::Acquired && final(self)@.states == old(self)@.states.insert(
                    review_id@,
                    false,
                ),
                Some(false) => r == PostLease::Held && final(self)@.states == old(self)@.states,
                Some(true) => r == PostLease::AlreadyPosted && final(self)@.states == old(
                    self,
                )@.states,
            },
    {
        let id = review_id.to_owned();
        match self.find(&id) {
            Some(i) => {
                proof { lemma_entries_map_key(self.states@, i as int); }
                if self.states[i].1 {
                    PostLease::AlreadyPosted
                } else {
                    PostLease::Held
                }
            },
            None => {
                proof {
                    lemma_entries_map_push(self.states@, (id, false));
                }
                self.states.push((id, false));
                PostLease::Acquired
            },
        }
    }

    /// Mark `review_id` posted (terminal). A first commit records it as the newest
    /// posted lease and, past the cap, evicts the oldest posted one; a repeat
    /// commit changes nothing.
    pub fn commit(&mut self, review_id: &str)
        requires
            old(self).wf(),
        ensures
            final(self).wf(),
            final(self)@.cap == old(self)@.cap,
            old(self)@.status(review_id@) == Some(true) ==> final(self)@ == old(self)@,
            old(self)@.status(review_id@) != Some(true) ==> {
                let states1 = old(self)@.states.insert(review_id@, true);
                let order1 = old(self)@.posted_order.push(review_id@);
                if order1.len() > old(self)@.cap {
                    &&& final(self)@.states == states1.remove(order1[0])
                    &&& final(self)@.posted_order == order1.drop_first()
                } else {
                    &&& final(self)@.states == states1
                    &&& final(self)@.posted_order == order1
                }
            },
    {
        let id = review_id.to_owned();
        let ghost old_view = self@;
        match self.find(&id) {
            Some(i) => {
                proof { lemma_entries_map_key(self.states@, i as int); }
                if self.states[i].1 {
                    return;
                }
                proof { lemma_entries_map_update(self.states@, i as int, true); }
                let k = self.states[i].0.clone();
                self.states.set(i, (k, true));
            },
            None => {
                let id2 = id.clone();
                proof { lemma_entries_map_push(self.states@, (id2, true)); }
                self.states.push((id2, true));
            },
        }
        let ghost states1 = self@.states;
        assert(states1 == old_view.states.insert(id@, true));
        let ghost order0 = self@.posted_order;
        assert(!order0.contains(id@));
        self.posted_order.push(id);
        let ghost order1 = self@.posted_order;
        assert(order1 =~= order0.push(review_id@));
        assert(ids_distinct(order1)) by {
            assert forall|x: int, y: int| 0 <= x < order1.len() && 0 <= y < order1.len() && x != y implies order1[x] != order1[y] by {
                if x == order1.len() - 1 {
                    assert(order0.contains(order1[y]) ==> order1[y] != review_id@);
                    assert(order1[y] == order0[y]);
                } else if y == order1.len() - 1 {
                    assert(order1[x] == order0[x]);
                }
            }
        }
        if self.posted_order.len() > self.cap {
            let oldest = self.posted_order.remove(0);
            let ghost order2 = self@.posted_order;
            assert(order2 =~= order1.drop_first());
            assert(order1[0] == oldest@);
            assert(oldest@ != review_id@) by {
                assert(order1[order1.len() - 1] == review_id@);
            }
            assert(order0 == old_view.posted_order);
            assert(order0.len() >= 1);
            assert(order0[0] == oldest@);
            assert(order0.contains(order0[0]));
            assert(old_view.states.contains_key(oldest@) && old_view.states[oldest@]);
            assert(states1.contains_key(oldest@) && states1[oldest@]);
            match self.find(&oldest) {
                Some(j) => {
                    proof { lemma_entries_map_remove(self.states@, j as int); }
                    self.states.remove(j);
                },
                None => {},
            }
            assert(self@.states =~= states1.remove(order1[0]));
            assert(self@.posted_order == order2);
            assert forall|k: Seq<char>| #[trigger] self@.posted_order.contains(k) <==> (
                self@.states.contains_key(k) && self@.states[k]) by {
                if k == review_id@ {
                    assert(order2[order2.len() - 1] == k);
                    assert(order2.contains(k));
                    assert(self@.states.contains_key(k) && self@.states[k]);
                } else if k == oldest@ {
                    if order2.contains(k) {
                        let x = choose|x: int| 0 <= x < order2.len() && order2[x] == k;
                        assert(order1[x + 1] == k);
                        assert(order1[0] == k);
                    }
                    assert(!self@.states.contains_key(k));
                } else {
                    if order2.contains(k) {
                        let x = choose|x: int| 0 <= x < order2.len() && order2[x] == k;
                        assert(order1[x + 1] == k);
                        assert(order0[x + 1] == k);
                        assert(order0.contains(k));
                    }
                    if order0.contains(k) {
                        let x = choose|x: int| 0 <= x < order0.len() && order0[x] == k;
                        assert(x != 0);
                        assert(order2[x - 1] == k);
                        assert(order2.contains(k));
                    }
                    assert(order0.contains(k) <==> (old_view.states.contains_key(k)
                        && old_view.states[k]));
                }
            }
        } else {
            assert(self@.states == states1);
            assert(self@.posted_order == order1);
            assert forall|k: Seq<char>| #[trigger] self@.posted_order.contains(k) <==> (
                self@.states.contains_key(k) && self@.states[k]) by {
                if k == review_id@ {
                    assert(order1[order1.len() - 1] == k);
                    assert(order1.contains(k));
                } else {
                    if order1.contains(k) {
                        let x = choose|x: int| 0 <= x < order1.len() && order1[x] == k;
                        assert(order0[x] == k);
                        assert(order0.contains(k));
                    }
                    if order0.contains(k) {
                        let x = choose|x: int| 0 <= x < order0.len() && order0[x] == k;
                        assert(order1[x] == k);
                        assert(order1.contains(k));
                    }
                    assert(order0.contains(k) <==> (old_view.states.contains_key(k)
                        && old_view.states[k]));
                }
            }
        }
    }

    /// Release a *held* lease so a failed post can be retried; a posted lease is
    /// never undone and an absent one is left absent.
    pub fn release(&mut self, review_id: &str)
        requires
            old(self).wf(),
        ensures
            final(self).wf(),
            final(self)@.cap == old(self)@.cap,
            final(self)@.posted_order == old(self)@.posted_order,
            old(self)@.status(review_id@) == Some(false) ==> final(self)@.states == old(
                self,
            )@.states.remove(review_id@),
            old(self)@.status(review_id@) != Some(false) ==> final(self)@.states == old(
                self,
            )@.states,
    {
        let id = review_id.to_owned();
        match self.find(&id) {
            Some(i) => {
                proof { lemma_entries_map_key(self.states@, i as int); }
                if !self.states[i].1 {
                    proof { lemma_entries_map_remove(self.states@, i as int); }
                    self.states.remove(i);
                }
            },
            None => {},
        }
    }
}

/// The first claim of an id wins and every later claim before a commit or
/// release is told the lease is held.
pub proof fn law_first_acquire_wins(v: LeaseView, id: Seq<char>)
    requires
        v.status(id) is None,
    ensures
        ({
            let after = LeaseView { states: v.states.insert(id, false), ..v };
            after.status(id) == Some(false)
        }),
{
}

/// Commit is terminal: right after a commit the id reads posted (even at the
/// cap, the evicted lease is an older one), and a release cannot reopen it.
pub proof fn law_commit_is_terminal(v: LeaseView, id: Seq<char>)
    requires
        v.wf(),
        v.status(id) != Some(true),
    ensures
        ({
            let states1 = v.states.insert(id, true);
            let order1 = v.posted_order.push(id);
            let states2 = if order1.len() > v.cap { states1.remove(order1[0]) } else { states1 };
            let after = LeaseView { states: states2, posted_order: order1, cap: v.cap };
            &&& after.status(id) == Some(true)
            &&& after.status(id) != Some(false)
        }),
{
    let order1 = v.posted_order.push(id);
    if order1.len() > v.cap {
        assert(order1.len() >= 2);
        assert(!v.posted_order.contains(id));
        assert(order1[0] == v.posted_order[0]);
        assert(v.posted_order.contains(v.posted_order[0]));
    }
}

/// A commit never evicts a held lease: every other id's status is unchanged,
/// except the oldest posted one, which is dropped only when over the cap.
pub proof fn law_commit_keeps_held(v: LeaseView, id: Seq<char>, other: Seq<char>)
    requires
        v.wf(),
        v.status(id) != Some(true),
        other != id,
        v.status(other) == Some(false),
    ensures
        ({
            let states1 = v.states.insert(id, true);
            let order1 = v.posted_order.push(id);
            let states2 = if order1.len() > v.cap { states1.remove(order1[0]) } else { states1 };
            LeaseView { states: states2, posted_order: order1, cap: v.cap }.status(other) == Some(false)
        }),
{
    let order1 = v.posted_order.push(id);
    if order1.len() > v.cap {
        assert(order1[0] == v.posted_order[0]);
        assert(v.posted_order.contains(v.posted_order[0]));
    }
}

} // verus!
