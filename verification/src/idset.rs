//! Ordered sets of unit identities.
//!
//! A set keeps its members in the order in which they were added, so that
//! whatever walks it does so in an order that its history alone decides.

use vstd::prelude::*;

use crate::unit::UnitId;

verus! {

/// The condition of being another name than `x`.
pub open spec fn other_than(x: Seq<char>) -> spec_fn(Seq<char>) -> bool {
    |y: Seq<char>| y != x
}

/// `s` with every occurrence of `x` taken out.
pub open spec fn without(s: Seq<Seq<char>>, x: Seq<char>) -> Seq<Seq<char>> {
    s.filter(other_than(x))
}

/// `s` with `x` added at the end, unless it is there already.
pub open spec fn with(s: Seq<Seq<char>>, x: Seq<char>) -> Seq<Seq<char>> {
    if s.contains(x) {
        s
    } else {
        s.push(x)
    }
}

/// What `with` holds and in which shape: the members and `x`, each once if
/// each stood once.
pub proof fn lemma_with(s: Seq<Seq<char>>, x: Seq<char>)
    ensures
        forall|y: Seq<char>| #[trigger] with(s, x).contains(y) <==> s.contains(y) || y == x,
        with(s, x).len() > 0,
        s.no_duplicates() ==> with(s, x).no_duplicates(),
{
    let w = with(s, x);
    if s.contains(x) {
        let i = choose|i: int| 0 <= i < s.len() && s[i] == x;
    } else {
        assert(w[s.len() as int] == x);
        assert forall|y: Seq<char>| #[trigger] w.contains(y) <==> s.contains(y) || y == x by {
            if w.contains(y) {
                let j = choose|j: int| 0 <= j < w.len() && w[j] == y;
                if j < s.len() {
                    assert(s[j] == y);
                }
            }
            if s.contains(y) {
                let j = choose|j: int| 0 <= j < s.len() && s[j] == y;
                assert(w[j] == y);
            }
        }
    }
}

/// Taking out what does not occur changes nothing.
pub proof fn lemma_without_absent(s: Seq<Seq<char>>, x: Seq<char>)
    requires
        !s.contains(x),
    ensures
        without(s, x) == s,
    decreases s.len(),
{
    reveal(Seq::filter);
    if s.len() > 0 {
        let t = s.drop_last();
        assert forall|y: Seq<char>| t.contains(y) implies s.contains(y) by {
            let i = choose|i: int| 0 <= i < t.len() && t[i] == y;
            assert(s[i] == y);
        }
        lemma_without_absent(t, x);
        assert(s.last() != x) by {
            assert(s[s.len() - 1] == s.last());
        }
        assert(t.push(s.last()) =~= s);
    }
}

/// In a sequence without repetition, taking out a member removes the one
/// place where it stands.
pub proof fn lemma_without_at(s: Seq<Seq<char>>, i: int)
    requires
        s.no_duplicates(),
        0 <= i < s.len(),
    ensures
        without(s, s[i]) == s.remove(i),
    decreases s.len(),
{
    reveal(Seq::filter);
    let x = s[i];
    let t = s.drop_last();
    if i == s.len() - 1 {
        assert(!t.contains(x)) by {
            if t.contains(x) {
                let j = choose|j: int| 0 <= j < t.len() && t[j] == x;
                assert(s[j] == s[i]);
            }
        }
        lemma_without_absent(t, x);
        assert(s.remove(i) =~= t);
    } else {
        assert(t.no_duplicates());
        assert(t[i] == x);
        lemma_without_at(t, i);
        assert(s.last() != x) by {
            assert(s[s.len() - 1] == s.last());
        }
        assert(t.remove(i).push(s.last()) =~= s.remove(i));
    }
}

/// What a filter keeps and in which shape: the members that meet `pred`,
/// each once if each stood once.
pub proof fn lemma_filter(s: Seq<Seq<char>>, pred: spec_fn(Seq<char>) -> bool)
    ensures
        forall|y: Seq<char>| #[trigger] s.filter(pred).contains(y) <==> s.contains(y) && pred(y),
        s.filter(pred).len() <= s.len(),
        s.no_duplicates() ==> s.filter(pred).no_duplicates(),
    decreases s.len(),
{
    reveal(Seq::filter);
    if s.len() > 0 {
        let t = s.drop_last();
        lemma_filter(t, pred);
        let w = t.filter(pred);
        let f = s.filter(pred);
        assert(s =~= t.push(s.last()));
        assert forall|y: Seq<char>| #[trigger] f.contains(y) <==> s.contains(y) && pred(y) by {
            if f.contains(y) {
                let j = choose|j: int| 0 <= j < f.len() && f[j] == y;
                if j < w.len() {
                    assert(w[j] == y);
                    assert(w.contains(y));
                    let k = choose|k: int| 0 <= k < t.len() && t[k] == y;
                    assert(s[k] == y);
                } else {
                    assert(s[s.len() - 1] == y);
                }
            }
            if s.contains(y) && pred(y) {
                let k = choose|k: int| 0 <= k < s.len() && s[k] == y;
                if k < t.len() {
                    assert(t[k] == y);
                    assert(w.contains(y));
                    let j = choose|j: int| 0 <= j < w.len() && w[j] == y;
                    assert(f[j] == y);
                } else {
                    assert(f[w.len() as int] == y);
                }
            }
        }
        if s.no_duplicates() {
            assert(t.no_duplicates());
            if pred(s.last()) {
                assert(!w.contains(s.last())) by {
                    if t.contains(s.last()) {
                        let k = choose|k: int| 0 <= k < t.len() && t[k] == s.last();
                        assert(s[k] == s[s.len() - 1]);
                    }
                }
            }
        }
    }
}

/// What `without` keeps and in which shape: the other members, each once if
/// each stood once.
pub proof fn lemma_without(s: Seq<Seq<char>>, x: Seq<char>)
    ensures
        forall|y: Seq<char>| #[trigger] without(s, x).contains(y) <==> s.contains(y) && y != x,
        without(s, x).len() <= s.len(),
        s.no_duplicates() ==> without(s, x).no_duplicates(),
{
    lemma_filter(s, other_than(x));
}

/// An ordered set of unit identities: no unit occurs twice, and the members
/// stand in the order in which they were added.
#[derive(Debug)]
pub struct UnitSet {
    items: Vec<UnitId>,
}

impl View for UnitSet {
    type V = Seq<Seq<char>>;

    closed spec fn view(&self) -> Seq<Seq<char>> {
        self.items.deep_view()
    }
}

impl UnitSet {
    /// No unit occurs twice.
    #[verifier::type_invariant]
    pub open spec fn distinct(&self) -> bool {
        self@.no_duplicates()
    }

    /// The empty set.
    pub fn new() -> (set: UnitSet)
        ensures
            set@ == Seq::<Seq<char>>::empty(),
    {
        let set = UnitSet { items: Vec::new() };
        assert(set@ =~= Seq::<Seq<char>>::empty());
        set
    }

    /// The number of members.
    pub fn len(&self) -> (n: usize)
        ensures
            n == self@.len(),
    {
        self.items.len()
    }

    /// Whether the set has no member.
    pub fn is_empty(&self) -> (r: bool)
        ensures
            r == (self@.len() == 0),
    {
        self.items.len() == 0
    }

    /// The member at place `i`.
    pub fn get(&self, i: usize) -> (id: &UnitId)
        requires
            i < self@.len(),
        ensures
            id@ == self@[i as int],
    {
        &self.items[i]
    }

    fn position(&self, id: &UnitId) -> (at: Option<usize>)
        ensures
            match at {
                Some(i) => i < self@.len() && self@[i as int] == id@,
                None => !self@.contains(id@),
            },
    {
        let mut i: usize = 0;
        while i < self.items.len()
            invariant
                i <= self.items.len(),
                forall|j: int| 0 <= j < i ==> self@[j] != id@,
            decreases self.items.len() - i,
        {
            if self.items[i].same(id) {
                return Some(i);
            }
            i += 1;
        }
        None
    }

    /// Whether `id` is a member.
    pub fn contains(&self, id: &UnitId) -> (r: bool)
        ensures
            r == self@.contains(id@),
    {
        self.position(id).is_some()
    }

    /// Adds `id` at the end unless it is a member already; says whether it
    /// was added.
    pub fn insert(&mut self, id: UnitId) -> (added: bool)
        ensures
            final(self)@ == with(old(self)@, id@),
            added == !old(self)@.contains(id@),
    {
        proof {
            use_type_invariant(&*self);
        }
        if self.position(&id).is_some() {
            false
        } else {
            let ghost before = self@;
            let mut items: Vec<UnitId> = Vec::new();
            std::mem::swap(&mut items, &mut self.items);
            items.push(id);
            assert(items.deep_view() =~= before.push(id@));
            self.items = items;
            true
        }
    }

    /// Takes `id` out; says whether it was a member.
    pub fn remove(&mut self, id: &UnitId) -> (removed: bool)
        ensures
            final(self)@ == without(old(self)@, id@),
            removed == old(self)@.contains(id@),
    {
        proof {
            use_type_invariant(&*self);
            lemma_without(self@, id@);
        }
        match self.position(id) {
            Some(i) => {
                let ghost before = self@;
                proof {
                    lemma_without_at(before, i as int);
                }
                let mut items: Vec<UnitId> = Vec::new();
                std::mem::swap(&mut items, &mut self.items);
                items.remove(i);
                assert(items.deep_view() =~= before.remove(i as int));
                self.items = items;
                true
            },
            None => {
                proof {
                    lemma_without_absent(self@, id@);
                }
                false
            },
        }
    }

    /// The members, in their order.
    pub fn to_vec(&self) -> (ids: Vec<UnitId>)
        ensures
            ids.deep_view() == self@,
    {
        crate::unit::dup_ids(&self.items)
    }

    /// A copy of the set.
    pub fn dup(&self) -> (set: UnitSet)
        ensures
            set@ == self@,
    {
        proof {
            use_type_invariant(self);
        }
        let mut items: Vec<UnitId> = Vec::new();
        let mut i: usize = 0;
        while i < self.items.len()
            invariant
                i <= self.items.len(),
                items.deep_view() =~= self@.take(i as int),
            decreases self.items.len() - i,
        {
            let ghost before = items.deep_view();
            let id = self.items[i].clone();
            items.push(id);
            assert(items.deep_view() =~= before.push(self@[i as int]));
            i += 1;
        }
        assert(self@.take(self@.len() as int) =~= self@);
        UnitSet { items }
    }
}

} // verus!
