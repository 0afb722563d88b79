use vstd::prelude::*;

verus! {

broadcast use vstd::seq_lib::group_seq_properties;

/// A finite set of identifiers: the lines that meet at an intersection, or
/// the points already visited.
#[derive(Debug)]
pub struct IdSet {
    ids: Vec<u32>,
}

impl View for IdSet {
    type V = Set<u32>;

    closed spec fn view(&self) -> Set<u32> {
        self.ids@.to_set()
    }
}

impl IdSet {
    /// Each identifier is stored once.
    #[verifier::type_invariant]
    closed spec fn no_repeats(self) -> bool {
        self.ids@.no_duplicates()
    }

    /// The set of identifiers is finite.
    pub proof fn lemma_finite(self)
        ensures
            self@.finite(),
    {
        vstd::seq_lib::seq_to_set_is_finite(self.ids@);
    }

    /// The empty set.
    pub fn new() -> (s: IdSet)
        ensures
            s@ == Set::<u32>::empty(),
    {
        let s = IdSet { ids: Vec::new() };
        assert(s@ =~= Set::<u32>::empty());
        s
    }

    /// The set that holds `id` alone.
    pub fn singleton(id: u32) -> (s: IdSet)
        ensures
            s@ == set![id],
    {
        let mut ids: Vec<u32> = Vec::new();
        ids.push(id);
        let s = IdSet { ids };
        assert(s@ =~= set![id]);
        s
    }

    /// Whether `id` is a member.
    pub fn contains(&self, id: u32) -> (r: bool)
        ensures
            r == self@.contains(id),
    {
        let mut i: usize = 0;
        while i < self.ids.len()
            invariant
                0 <= i <= self.ids@.len(),
                forall|j: int| 0 <= j < i ==> self.ids@[j] != id,
            decreases self.ids@.len() - i,
        {
            if self.ids[i] == id {
                assert(self.ids@.contains(id));
                return true;
            }
            i = i + 1;
        }
        false
    }

    /// The number of members.
    pub fn len(&self) -> (n: usize)
        ensures
            n == self@.len(),
    {
        proof {
            use_type_invariant(self);
            self.ids@.unique_seq_to_set();
        }
        self.ids.len()
    }

    /// Adds `id`; tells whether it was new, as `HashSet::insert` does.
    pub fn insert(&mut self, id: u32) -> (added: bool)
        ensures
            final(self)@ == old(self)@.insert(id),
            added == !old(self)@.contains(id),
    {
        proof {
            use_type_invariant(&*self);
        }
        if self.contains(id) {
            assert(self@.insert(id) =~= self@);
            false
        } else {
            let mut ids = Vec::new();
            std::mem::swap(&mut ids, &mut self.ids);
            let ghost before = ids@;
            ids.push(id);
            assert(ids@.no_duplicates()) by {
                assert(ids@ == before.push(id));
                assert(!before.contains(id));
            }
            proof {
                before.lemma_push_to_set_commute(id);
            }
            *self = IdSet { ids };
            true
        }
    }

    /// Adds every member of `other`.
    pub fn extend(&mut self, other: &IdSet)
        ensures
            final(self)@ == old(self)@.union(other@),
    {
        let n = other.ids.len();
        let mut i: usize = 0;
        while i < n
            invariant
                n == other.ids@.len(),
                0 <= i <= n,
                self@ == old(self)@.union(other.ids@.take(i as int).to_set()),
            decreases n - i,
        {
            let ghost taken = other.ids@.take(i as int);
            self.insert(other.ids[i]);
            proof {
                assert(other.ids@.take(i + 1) == taken.push(other.ids@[i as int]));
                taken.lemma_push_to_set_commute(other.ids@[i as int]);
            }
            i = i + 1;
        }
        assert(other.ids@.take(n as int) == other.ids@);
        assert(self@ =~= old(self)@.union(other@));
    }

    /// Whether every member of `self` is a member of `other`.
    pub fn is_subset_of(&self, other: &IdSet) -> (r: bool)
        ensures
            r == self@.subset_of(other@),
    {
        let n = self.ids.len();
        let mut i: usize = 0;
        while i < n
            invariant
                n == self.ids@.len(),
                0 <= i <= n,
                forall|j: int| 0 <= j < i ==> other@.contains(#[trigger] self.ids@[j]),
            decreases n - i,
        {
            if !other.contains(self.ids[i]) {
                assert(self@.contains(self.ids@[i as int]));
                return false;
            }
            i = i + 1;
        }
        assert forall|id: u32| self@.contains(id) implies other@.contains(id) by {
            let j = choose|j: int| 0 <= j < n && self.ids@[j] == id;
        }
        true
    }

    /// Whether some identifier belongs to both sets.
    pub fn intersects(&self, other: &IdSet) -> (r: bool)
        ensures
            r == exists|id: u32| self@.contains(id) && other@.contains(id),
    {
        let n = self.ids.len();
        let mut i: usize = 0;
        while i < n
            invariant
                n == self.ids@.len(),
                0 <= i <= n,
                forall|j: int| 0 <= j < i ==> !other@.contains(#[trigger] self.ids@[j]),
            decreases n - i,
        {
            if other.contains(self.ids[i]) {
                assert(self@.contains(self.ids@[i as int]));
                return true;
            }
            i = i + 1;
        }
        assert forall|id: u32| self@.contains(id) implies !other@.contains(id) by {
            let j = choose|j: int| 0 <= j < n && self.ids@[j] == id;
        }
        false
    }
}

impl Clone for IdSet {
    fn clone(&self) -> (s: IdSet)
        ensures
            s@ == self@,
    {
        proof {
            use_type_invariant(self);
        }
        let n = self.ids.len();
        let mut ids: Vec<u32> = Vec::new();
        let mut i: usize = 0;
        while i < n
            invariant
                n == self.ids@.len(),
                0 <= i <= n,
                ids@ == self.ids@.take(i as int),
            decreases n - i,
        {
            ids.push(self.ids[i]);
            assert(ids@ =~= self.ids@.take(i + 1));
            i = i + 1;
        }
        assert(ids@ =~= self.ids@);
        IdSet { ids }
    }
}

impl PartialEq for IdSet {
    fn eq(&self, other: &IdSet) -> (r: bool) {
        proof {
            self.lemma_finite();
            other.lemma_finite();
        }
        if self.len() != other.len() {
            return false;
        }
        let r = self.is_subset_of(other);
        proof {
            if r {
                vstd::set_lib::lemma_subset_equality(self@, other@);
            }
        }
        r
    }
}

impl vstd::std_specs::cmp::PartialEqSpecImpl for IdSet {
    open spec fn obeys_eq_spec() -> bool {
        true
    }

    open spec fn eq_spec(&self, other: &IdSet) -> bool {
        self@ == other@
    }
}

} // verus!
