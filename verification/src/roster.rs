//! The CRUD core shared by the id-keyed stores (the model router's upstream
//! registry and the review fleet's roster): one list of cards, each with an id
//! and an enabled flag, mutated only through these operations so validation
//! and caps cannot drift between backends.
//!
//! Ids are untrusted (they may become a storage path segment): every
//! operation rejects an id that is not a safe segment before comparing it.
//! The card body is opaque here; clamping and validating it is the caller's.
use vstd::prelude::*;
use crate::paths::{eq_str, safe_segment, safe_segment_spec};
use crate::text::chars_of;

verus! {

/// A stored card: its id, whether it is enabled, and its body.
pub struct Card<T> {
    pub id: String,
    pub enabled: bool,
    pub body: T,
}

/// Why an operation was refused.
#[derive(Debug, Clone, Copy, PartialEq, Eq, Structural)]
pub enum RosterError {
    /// The id is not a safe path segment.
    InvalidId,
    /// No card has the id.
    NotFound,
    /// A new card would exceed the capacity.
    Full,
    /// The id is reserved.
    Reserved,
}

pub open spec fn card_view<T>(c: Card<T>) -> (Seq<char>, bool, T) {
    (c.id@, c.enabled, c.body)
}

pub open spec fn cards_view<T>(cs: Seq<Card<T>>) -> Seq<(Seq<char>, bool, T)> {
    cs.map_values(|c: Card<T>| card_view(c))
}

/// No two cards share an id.
pub open spec fn ids_distinct<T>(s: Seq<(Seq<char>, bool, T)>) -> bool {
    forall|i: int, j: int| 0 <= i < j < s.len() ==> #[trigger] s[i].0 != #[trigger] s[j].0
}

/// The position of the card with `id`.
pub open spec fn position<T>(s: Seq<(Seq<char>, bool, T)>, id: Seq<char>) -> Option<int> {
    if exists|i: int| 0 <= i < s.len() && #[trigger] s[i].0 == id {
        Some(choose|i: int| 0 <= i < s.len() && #[trigger] s[i].0 == id)
    } else {
        None
    }
}

/// The card with `id`, if any.
pub open spec fn lookup<T>(s: Seq<(Seq<char>, bool, T)>, id: Seq<char>) -> Option<(Seq<char>, bool, T)> {
    match position(s, id) {
        Some(i) => Some(s[i]),
        None => None,
    }
}

/// The cards after a put of `c` (capacity `cap`): a card with its id is
/// replaced in place, else `c` is appended when there is room.
pub open spec fn put_spec<T>(s: Seq<(Seq<char>, bool, T)>, cap: nat, c: (Seq<char>, bool, T)) -> Result<
    Seq<(Seq<char>, bool, T)>,
    RosterError,
> {
    if !safe_segment_spec(c.0) {
        Err(RosterError::InvalidId)
    } else {
        match position(s, c.0) {
            Some(i) => Ok(s.update(i, c)),
            None => if s.len() >= cap {
                Err(RosterError::Full)
            } else {
                Ok(s.push(c))
            },
        }
    }
}

/// The cards after deleting `id`, and whether one was there.
pub open spec fn delete_spec<T>(s: Seq<(Seq<char>, bool, T)>, id: Seq<char>) -> Result<
    (Seq<(Seq<char>, bool, T)>, bool),
    RosterError,
> {
    if !safe_segment_spec(id) {
        Err(RosterError::InvalidId)
    } else {
        match position(s, id) {
            Some(i) => Ok((s.remove(i), true)),
            None => Ok((s, false)),
        }
    }
}

/// The cards after setting the enabled flag of `id`.
pub open spec fn enable_spec<T>(s: Seq<(Seq<char>, bool, T)>, id: Seq<char>, enabled: bool) -> Result<
    Seq<(Seq<char>, bool, T)>,
    RosterError,
> {
    if !safe_segment_spec(id) {
        Err(RosterError::InvalidId)
    } else {
        match position(s, id) {
            Some(i) => Ok(s.update(i, (s[i].0, enabled, s[i].2))),
            None => Err(RosterError::NotFound),
        }
    }
}

/// An id-keyed list of cards with a capacity.
pub struct Roster<T> {
    rows: Vec<Card<T>>,
    cap: usize,
}

impl<T> View for Roster<T> {
    type V = Seq<(Seq<char>, bool, T)>;

    closed spec fn view(&self) -> Seq<(Seq<char>, bool, T)> {
        cards_view(self.rows@)
    }
}

proof fn lemma_position<T>(s: Seq<(Seq<char>, bool, T)>, id: Seq<char>, k: int)
    requires
        ids_distinct(s),
        0 <= k < s.len(),
        s[k].0 == id,
    ensures
        position(s, id) == Some(k),
{
    let i = choose|i: int| 0 <= i < s.len() && #[trigger] s[i].0 == id;
    if i != k {
        if i < k {
            assert(s[i].0 != s[k].0);
        } else {
            assert(s[k].0 != s[i].0);
        }
    }
}

impl<T> Roster<T> {
    #[verifier::type_invariant]
    spec fn inv(&self) -> bool {
        &&& ids_distinct(cards_view(self.rows@))
        &&& self.rows@.len() <= self.cap
    }

    /// How many cards the roster holds at most.
    pub closed spec fn capacity(&self) -> nat {
        self.cap as nat
    }

    /// An empty roster holding at most `cap` cards.
    pub fn new(cap: usize) -> (r: Self)
        ensures
            r@ == Seq::<(Seq<char>, bool, T)>::empty(),
            r.capacity() == cap,
    {
        let r = Roster { rows: Vec::new(), cap };
        assert(cards_view(r.rows@) =~= Seq::empty());
        r
    }

    /// The cards, in insertion order.
    pub fn list(&self) -> (r: &Vec<Card<T>>)
        ensures
            cards_view(r@) == self@,
            ids_distinct(self@),
            self@.len() <= self.capacity(),
    {
        proof {
            use_type_invariant(self);
        }
        &self.rows
    }

    /// The position of the card with `id` (a safe id), if any.
    fn find(&self, id: &[char]) -> (r: Option<usize>)
        ensures
            match r {
                Some(i) => position(self@, id@) == Some(i as int) && i < self@.len(),
                None => position(self@, id@) is None,
            },
    {
        proof {
            use_type_invariant(self);
        }
        let ghost s = self@;
        let mut i: usize = 0;
        while i < self.rows.len()
            invariant
                i <= self.rows@.len(),
                s == cards_view(self.rows@),
                ids_distinct(s),
                forall|k: int| 0 <= k < i ==> #[trigger] s[k].0 != id@,
            decreases self.rows.len() - i,
        {
            assert(s[i as int] == card_view(self.rows@[i as int]));
            if eq_str(id, self.rows[i].id.as_str()) {
                proof {
                    lemma_position(s, id@, i as int);
                }
                return Some(i);
            }
            i += 1;
        }
        None
    }

    /// The card with `id`.
    pub fn get(&self, id: &str) -> (r: Result<&Card<T>, RosterError>)
        ensures
            !safe_segment_spec(id@) ==> r == Err::<&Card<T>, RosterError>(RosterError::InvalidId),
            safe_segment_spec(id@) ==> match lookup(self@, id@) {
                Some(c) => r matches Ok(x) && card_view(*x) == c,
                None => r == Err::<&Card<T>, RosterError>(RosterError::NotFound),
            },
    {
        if !safe_segment(id) {
            return Err(RosterError::InvalidId);
        }
        let idc = chars_of(id);
        match self.find(&idc) {
            Some(i) => Ok(&self.rows[i]),
            None => Err(RosterError::NotFound),
        }
    }

    /// Insert `card`, or replace the card with its id in place.
    pub fn put(&mut self, card: Card<T>) -> (r: Result<(), RosterError>)
        ensures
            match put_spec(old(self)@, old(self).capacity(), card_view(card)) {
                Ok(s) => r is Ok && final(self)@ == s,
                Err(e) => r == Err::<(), RosterError>(e) && final(self)@ == old(self)@,
            },
            final(self).capacity() == old(self).capacity(),
    {
        proof {
            use_type_invariant(&*self);
        }
        if !safe_segment(card.id.as_str()) {
            return Err(RosterError::InvalidId);
        }
        let ghost s0 = self@;
        let idc = chars_of(card.id.as_str());
        match self.find(&idc) {
            Some(i) => {
                let ghost cv = card_view(card);
                let mut rows: Vec<Card<T>> = Vec::new();
                std::mem::swap(&mut rows, &mut self.rows);
                rows.set(i, card);
                assert(cards_view(rows@) =~= s0.update(i as int, cv));
                assert(ids_distinct(cards_view(rows@))) by {
                    let t = cards_view(rows@);
                    assert forall|a: int, b: int| 0 <= a < b < t.len() implies #[trigger] t[a].0 != #[trigger] t[b].0 by {
                        if a != i && b != i {
                            assert(t[a] == s0[a] && t[b] == s0[b]);
                        } else if a == i {
                            assert(s0[a].0 == cv.0);
                            assert(t[b] == s0[b]);
                        } else {
                            assert(s0[b].0 == cv.0);
                            assert(t[a] == s0[a]);
                        }
                    }
                }
                self.rows = rows;
                Ok(())
            },
            None => {
                if self.rows.len() >= self.cap {
                    return Err(RosterError::Full);
                }
                let ghost cv = card_view(card);
                let mut rows: Vec<Card<T>> = Vec::new();
                std::mem::swap(&mut rows, &mut self.rows);
                rows.push(card);
                assert(cards_view(rows@) =~= s0.push(cv));
                assert(ids_distinct(cards_view(rows@))) by {
                    let t = cards_view(rows@);
                    assert forall|a: int, b: int| 0 <= a < b < t.len() implies #[trigger] t[a].0 != #[trigger] t[b].0 by {
                        if b == s0.len() {
                            assert(t[a] == s0[a]);
                            if s0[a].0 == cv.0 {
                                assert(exists|i: int| 0 <= i < s0.len() && #[trigger] s0[i].0 == cv.0);
                            }
                        } else {
                            assert(t[a] == s0[a] && t[b] == s0[b]);
                        }
                    }
                }
                self.rows = rows;
                Ok(())
            },
        }
    }

    /// Remove the card with `id`; `Ok(true)` when there was one.
    pub fn delete(&mut self, id: &str) -> (r: Result<bool, RosterError>)
        ensures
            match delete_spec(old(self)@, id@) {
                Ok((s, had)) => r == Ok::<bool, RosterError>(had) && final(self)@ == s,
                Err(e) => r == Err::<bool, RosterError>(e) && final(self)@ == old(self)@,
            },
            final(self).capacity() == old(self).capacity(),
    {
        proof {
            use_type_invariant(&*self);
        }
        if !safe_segment(id) {
            return Err(RosterError::InvalidId);
        }
        let ghost s0 = self@;
        let idc = chars_of(id);
        match self.find(&idc) {
            Some(i) => {
                let mut rows: Vec<Card<T>> = Vec::new();
                std::mem::swap(&mut rows, &mut self.rows);
                rows.remove(i);
                assert(cards_view(rows@) =~= s0.remove(i as int));
                assert(ids_distinct(cards_view(rows@))) by {
                    let t = cards_view(rows@);
                    assert forall|a: int, b: int| 0 <= a < b < t.len() implies #[trigger] t[a].0 != #[trigger] t[b].0 by {
                        if b < i {
                            assert(t[a] == s0[a] && t[b] == s0[b]);
                        } else if a < i {
                            assert(t[a] == s0[a] && t[b] == s0[b + 1]);
                        } else {
                            assert(t[a] == s0[a + 1] && t[b] == s0[b + 1]);
                        }
                    }
                }
                self.rows = rows;
                Ok(true)
            },
            None => Ok(false),
        }
    }

    /// Set the enabled flag of the card with `id`, keeping its body.
    pub fn set_enabled(&mut self, id: &str, enabled: bool) -> (r: Result<(), RosterError>)
        ensures
            match enable_spec(old(self)@, id@, enabled) {
                Ok(s) => r is Ok && final(self)@ == s,
                Err(e) => r == Err::<(), RosterError>(e) && final(self)@ == old(self)@,
            },
            final(self).capacity() == old(self).capacity(),
    {
        proof {
            use_type_invariant(&*self);
        }
        if !safe_segment(id) {
            return Err(RosterError::InvalidId);
        }
        let ghost s0 = self@;
        let idc = chars_of(id);
        match self.find(&idc) {
            Some(i) => {
                let mut rows: Vec<Card<T>> = Vec::new();
                std::mem::swap(&mut rows, &mut self.rows);
                let mut c = rows.remove(i);
                c.enabled = enabled;
                rows.insert(i, c);
                assert(cards_view(rows@) =~= s0.update(i as int, (s0[i as int].0, enabled, s0[i as int].2)));
                assert(ids_distinct(cards_view(rows@))) by {
                    let t = cards_view(rows@);
                    assert forall|a: int, b: int| 0 <= a < b < t.len() implies #[trigger] t[a].0 != #[trigger] t[b].0 by {
                        assert(t[a].0 == s0[a].0 && t[b].0 == s0[b].0);
                    }
                }
                self.rows = rows;
                Ok(())
            },
            None => Err(RosterError::NotFound),
        }
    }
}

/// The model router's own name, which no upstream may take.
pub open spec fn reserved_upstream_id() -> Seq<char> {
    "task-router"@
}

/// Put an upstream card into the model router's registry: like
/// [`Roster::put`], except that the router's own name is refused.
pub fn put_upstream<T>(reg: &mut Roster<T>, card: Card<T>) -> (r: Result<(), RosterError>)
    ensures
        card.id@ == reserved_upstream_id() ==> r == Err::<(), RosterError>(RosterError::Reserved) && final(reg)@
            == old(reg)@,
        card.id@ != reserved_upstream_id() ==> match put_spec(old(reg)@, old(reg).capacity(), card_view(card)) {
            Ok(s) => r is Ok && final(reg)@ == s,
            Err(e) => r == Err::<(), RosterError>(e) && final(reg)@ == old(reg)@,
        },
        final(reg).capacity() == old(reg).capacity(),
{
    let idc = chars_of(card.id.as_str());
    if eq_str(&idc, "task-router") {
        return Err(RosterError::Reserved);
    }
    reg.put(card)
}

/// Why a checked put was refused: the caller's validation of the card, or
/// the store.
#[derive(Debug, Clone)]
pub enum PutRefusal {
    /// The card failed validation, for this reason.
    Invalid(String),
    /// The store refused it.
    Store(RosterError),
}

impl<T> Roster<T> {
    /// Put a card that the caller has sanitized and validated, `verdict` being
    /// the validation's outcome: a card that failed validation is refused
    /// with that reason and the roster is unchanged; a valid one is put as by
    /// [`Roster::put`].
    pub fn put_checked(&mut self, card: Card<T>, verdict: Result<(), String>) -> (r: Result<(), PutRefusal>)
        ensures
            verdict matches Err(e) ==> r matches Err(PutRefusal::Invalid(m)) && m@ == e@ && final(self)@ == old(
                self,
            )@,
            verdict is Ok ==> match put_spec(old(self)@, old(self).capacity(), card_view(card)) {
                Ok(s) => r is Ok && final(self)@ == s,
                Err(e) => r matches Err(PutRefusal::Store(x)) && x == e && final(self)@ == old(self)@,
            },
            final(self).capacity() == old(self).capacity(),
    {
        match verdict {
            Err(e) => Err(PutRefusal::Invalid(e)),
            Ok(()) => match self.put(card) {
                Ok(()) => Ok(()),
                Err(e) => Err(PutRefusal::Store(e)),
            },
        }
    }
}

/// What a read gives back of a write: after a successful put, the card's id
/// reads back as exactly that card, and every other id reads as before.
pub proof fn law_read_after_put<T>(s: Seq<(Seq<char>, bool, T)>, cap: nat, c: (Seq<char>, bool, T), other: Seq<char>)
    requires
        ids_distinct(s),
        put_spec(s, cap, c) is Ok,
    ensures
        ({
            let t = put_spec(s, cap, c)->Ok_0;
            &&& lookup(t, c.0) == Some(c)
            &&& other != c.0 ==> lookup(t, other) == lookup(s, other)
            &&& ids_distinct(t)
        }),
{
    let t = put_spec(s, cap, c)->Ok_0;
    match position(s, c.0) {
        Some(i) => {
            assert(ids_distinct(t)) by {
                assert forall|a: int, b: int| 0 <= a < b < t.len() implies #[trigger] t[a].0 != #[trigger] t[b].0 by {
                    if a != i && b != i {
                        assert(t[a] == s[a] && t[b] == s[b]);
                    } else if a == i {
                        assert(t[b] == s[b]);
                        assert(s[b].0 != s[a].0);
                    } else {
                        assert(t[a] == s[a]);
                    }
                }
            }
            lemma_position(t, c.0, i);
            if other != c.0 {
                match position(s, other) {
                    Some(k) => {
                        assert(t[k] == s[k]);
                        lemma_position(t, other, k);
                    },
                    None => {
                        if exists|k: int| 0 <= k < t.len() && #[trigger] t[k].0 == other {
                            let k = choose|k: int| 0 <= k < t.len() && #[trigger] t[k].0 == other;
                            assert(t[k] == s[k]);
                        }
                    },
                }
            }
        },
        None => {
            assert(ids_distinct(t)) by {
                assert forall|a: int, b: int| 0 <= a < b < t.len() implies #[trigger] t[a].0 != #[trigger] t[b].0 by {
                    if b == s.len() {
                        assert(t[a] == s[a]);
                    } else {
                        assert(t[a] == s[a] && t[b] == s[b]);
                    }
                }
            }
            lemma_position(t, c.0, s.len() as int);
            if other != c.0 {
                match position(s, other) {
                    Some(k) => {
                        assert(t[k] == s[k]);
                        lemma_position(t, other, k);
                    },
                    None => {
                        if exists|k: int| 0 <= k < t.len() && #[trigger] t[k].0 == other {
                            let k = choose|k: int| 0 <= k < t.len() && #[trigger] t[k].0 == other;
                            assert(t[k] == s[k]);
                        }
                    },
                }
            }
        },
    }
}

/// A deleted id reads as absent, and a second delete finds nothing.
pub proof fn law_delete_then_absent<T>(s: Seq<(Seq<char>, bool, T)>, id: Seq<char>)
    requires
        ids_distinct(s),
        safe_segment_spec(id),
    ensures
        ({
            let t = delete_spec(s, id)->Ok_0.0;
            &&& lookup(t, id) is None
            &&& delete_spec(t, id) == Ok::<(Seq<(Seq<char>, bool, T)>, bool), RosterError>((t, false))
        }),
{
    let t = delete_spec(s, id)->Ok_0.0;
    match position(s, id) {
        Some(i) => {
            if exists|k: int| 0 <= k < t.len() && #[trigger] t[k].0 == id {
                let k = choose|k: int| 0 <= k < t.len() && #[trigger] t[k].0 == id;
                if k < i {
                    assert(t[k] == s[k]);
                    assert(s[k].0 != s[i].0);
                } else {
                    assert(t[k] == s[k + 1]);
                    assert(s[i].0 != s[k + 1].0);
                }
            }
        },
        None => {},
    }
}

/// Enabling or disabling changes only the flag: the card's body is kept and
/// the id reads back with the new flag.
pub proof fn law_enable_keeps_body<T>(s: Seq<(Seq<char>, bool, T)>, id: Seq<char>, enabled: bool)
    requires
        ids_distinct(s),
        enable_spec(s, id, enabled) is Ok,
    ensures
        ({
            let t = enable_spec(s, id, enabled)->Ok_0;
            &&& lookup(t, id) matches Some(c) && c.1 == enabled && c.2 == lookup(s, id)->Some_0.2
            &&& t.len() == s.len()
        }),
{
    let i = position(s, id)->Some_0;
    let t = enable_spec(s, id, enabled)->Ok_0;
    assert(ids_distinct(t)) by {
        assert forall|a: int, b: int| 0 <= a < b < t.len() implies #[trigger] t[a].0 != #[trigger] t[b].0 by {
            assert(t[a].0 == s[a].0 && t[b].0 == s[b].0);
        }
    }
    lemma_position(t, id, i);
}

} // verus!
