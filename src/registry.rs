use vstd::prelude::*;

verus! {

/// Fixed mapping from account id to credit limit, built once at startup.
#[derive(Debug)]
pub struct AccountRegistry {
    accounts: Vec<(i32, i64)>,
}

/// Whether no id occurs twice in the list.
pub open spec fn ids_unique(v: Seq<(i32, i64)>) -> bool {
    forall|i: int, j: int| 0 <= i < j < v.len() ==> (#[trigger] v[i]).0 != (#[trigger] v[j]).0
}

/// The map from id to limit that a list of entries describes.
pub open spec fn entries_map(v: Seq<(i32, i64)>) -> Map<int, int>
    decreases v.len(),
{
    if v.len() == 0 {
        Map::empty()
    } else {
        let last = v[v.len() - 1];
        entries_map(v.drop_last()).insert(last.0 as int, last.1 as int)
    }
}

/// A list's map has exactly its ids as keys, each mapped to its entry's limit.
pub proof fn lemma_entries_map(v: Seq<(i32, i64)>)
    requires
        ids_unique(v),
    ensures
        forall|k: int| #[trigger]
            entries_map(v).contains_key(k) <==> exists|i: int| 0 <= i < v.len() && v[i].0 == k,
        forall|i: int| 0 <= i < v.len() ==> entries_map(v)[(#[trigger] v[i]).0 as int] == v[i].1,
    decreases v.len(),
{
    if v.len() > 0 {
        let w = v.drop_last();
        assert(ids_unique(w)) by {
            assert forall|i: int, j: int| 0 <= i < j < w.len() implies (#[trigger] w[i]).0 != (
            #[trigger] w[j]).0 by {
                assert(w[i] == v[i] && w[j] == v[j]);
            }
        }
        lemma_entries_map(w);
        assert forall|k: int| #[trigger]
            entries_map(v).contains_key(k) implies exists|i: int| 0 <= i < v.len() && v[i].0 == k by {
            assert(entries_map(v) == entries_map(w).insert(v[v.len() - 1].0 as int, v[v.len() - 1].1 as int));
            if k != v[v.len() - 1].0 {
                assert(entries_map(w).contains_key(k));
                let i = choose|i: int| 0 <= i < w.len() && w[i].0 == k;
                assert(v[i] == w[i]);
            } else {
                assert(v[v.len() - 1].0 == k);
            }
        }
        assert forall|k: int| (exists|i: int| 0 <= i < v.len() && v[i].0 == k) implies #[trigger]
            entries_map(v).contains_key(k) by {
            let i = choose|i: int| 0 <= i < v.len() && v[i].0 == k;
            if i < v.len() - 1 {
                assert(v[i] == w[i]);
            }
        }
        assert forall|i: int| 0 <= i < v.len() implies entries_map(v)[(#[trigger] v[i]).0 as int]
            == v[i].1 by {
            if i < v.len() - 1 {
                assert(v[i] == w[i]);
                assert(v[i].0 != v[v.len() - 1].0);
            }
        }
    }
}

impl View for AccountRegistry {
    type V = Map<int, int>;

    open spec fn view(&self) -> Map<int, int> {
        entries_map(self.entries_seq())
    }
}

impl AccountRegistry {
    /// The configured (id, limit) pairs, in the order they were added.
    pub closed spec fn entries_seq(&self) -> Seq<(i32, i64)> {
        self.accounts@
    }

    /// Well-formed: ids are unique and every limit is non-negative.
    pub open spec fn wf(&self) -> bool {
        &&& ids_unique(self.entries_seq())
        &&& forall|i: int|
            0 <= i < self.entries_seq().len() ==> (#[trigger] self.entries_seq()[i]).1 >= 0
    }

    /// A copy of the configured (id, limit) pairs.
    pub fn entries(&self) -> (r: Vec<(i32, i64)>)
        ensures
            r@ == self.entries_seq(),
    {
        let mut out: Vec<(i32, i64)> = Vec::new();
        let mut i: usize = 0;
        while i < self.accounts.len()
            invariant
                i <= self.accounts@.len(),
                out@ =~= self.accounts@.subrange(0, i as int),
            decreases self.accounts@.len() - i,
        {
            out.push(self.accounts[i]);
            i = i + 1;
        }
        out
    }

    /// A registry with no accounts.
    pub fn new() -> (r: AccountRegistry)
        ensures
            r.wf(),
            r@ == Map::<int, int>::empty(),
    {
        AccountRegistry { accounts: Vec::new() }
    }

    /// Adds an account; refused (returning false, with nothing changed) when
    /// the id is already present or the limit is negative.
    pub fn add(&mut self, id: i32, limit: i64) -> (added: bool)
        requires
            old(self).wf(),
        ensures
            final(self).wf(),
            added == (!old(self)@.contains_key(id as int) && limit >= 0),
            added ==> final(self)@ == old(self)@.insert(id as int, limit as int),
            !added ==> final(self)@ == old(self)@,
    {
        proof {
            lemma_entries_map(self.accounts@);
        }
        if limit < 0 {
            return false;
        }
        let mut i: usize = 0;
        while i < self.accounts.len()
            invariant
                self.accounts@ == old(self).accounts@,
                self.wf(),
                i <= self.accounts@.len(),
                forall|j: int| 0 <= j < i ==> (#[trigger] self.accounts@[j]).0 != id,
            decreases self.accounts@.len() - i,
        {
            if self.accounts[i].0 == id {
                proof {
                    lemma_entries_map(self.accounts@);
                    assert(self.accounts@[i as int].0 == id);
                }
                return false;
            }
            i = i + 1;
        }
        let ghost before = self.accounts@;
        self.accounts.push((id, limit));
        proof {
            assert(self.accounts@.drop_last() =~= before);
            assert(self.accounts@[before.len() as int] == (id, limit));
            assert forall|k: int| #[trigger] entries_map(before).contains_key(k) implies k != id by {
                let j = choose|j: int| 0 <= j < before.len() && before[j].0 == k;
                assert(before[j] == self.accounts@[j]);
            }
        }
        true
    }

    /// The credit limit of account `id`, or `None` when it is not configured.
    pub fn limit_for(&self, id: i32) -> (r: Option<i64>)
        requires
            self.wf(),
        ensures
            r matches Some(l) ==> self@.contains_key(id as int) && self@[id as int] == l as int,
            r is None ==> !self@.contains_key(id as int),
    {
        proof {
            lemma_entries_map(self.accounts@);
        }
        let mut i: usize = 0;
        while i < self.accounts.len()
            invariant
                self.wf(),
                i <= self.accounts@.len(),
                forall|j: int| 0 <= j < i ==> (#[trigger] self.accounts@[j]).0 != id,
            decreases self.accounts@.len() - i,
        {
            if self.accounts[i].0 == id {
                proof {
                    lemma_entries_map(self.accounts@);
                    assert(self.accounts@[i as int].0 == id);
                }
                return Some(self.accounts[i].1);
            }
            i = i + 1;
        }
        proof {
            lemma_entries_map(self.accounts@);
            assert forall|j: int| 0 <= j < self.accounts@.len() implies (#[trigger] self.accounts@[j]).0 != id by {}
        }
        None
    }
}

} // verus!
