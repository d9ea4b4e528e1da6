use vstd::prelude::*;
use std::collections::HashSet;

verus! {

broadcast use vstd::std_specs::hash::group_hash_axioms;

/// The identifiers of the issues already alerted on, for one repository.
pub struct AlertLedger {
    ids: HashSet<u64>,
}

impl View for AlertLedger {
    type V = Set<u64>;

    closed spec fn view(&self) -> Set<u64> {
        self.ids@
    }
}

impl AlertLedger {
    /// A ledger with no identifiers.
    pub fn new() -> (r: AlertLedger)
        ensures
            r@ == Set::<u64>::empty(),
    {
        AlertLedger { ids: HashSet::new() }
    }

    /// The ledger holding the identifiers of a stored record.
    pub fn from_ids(ids: &Vec<u64>) -> (r: AlertLedger)
        ensures
            r@ == ids@.to_set(),
    {
        let mut set: HashSet<u64> = HashSet::new();
        let mut i: usize = 0;
        while i < ids.len()
            invariant
                i <= ids.len(),
                set@ == ids@.take(i as int).to_set(),
            decreases ids.len() - i,
        {
            set.insert(ids[i]);
            proof {
                assert(ids@.take(i + 1) =~= ids@.take(i as int).push(ids@[i as int]));
                ids@.take(i as int).lemma_push_to_set_commute(ids@[i as int]);
            }
            i = i + 1;
        }
        assert(ids@.take(ids.len() as int) =~= ids@);
        AlertLedger { ids: set }
    }

    /// The ledger as loaded from storage: the stored identifiers, or none when
    /// the record is absent or could not be read.
    pub fn load(stored: Option<Vec<u64>>) -> (r: AlertLedger)
        ensures
            r@ == match stored {
                Some(v) => v@.to_set(),
                None => Set::<u64>::empty(),
            },
    {
        match stored {
            Some(v) => AlertLedger::from_ids(&v),
            None => AlertLedger::new(),
        }
    }

    /// Whether an alert was already sent for `id`.
    pub fn contains(&self, id: u64) -> (r: bool)
        ensures
            r == self@.contains(id),
    {
        self.ids.contains(&id)
    }

    /// Adds `id`; the caller persists the whole ledger afterwards.
    pub fn record(&mut self, id: u64)
        ensures
            final(self)@ == old(self)@.insert(id),
    {
        self.ids.insert(id);
    }

    /// The identifiers, for persisting.
    pub fn ids(&self) -> (r: &HashSet<u64>)
        ensures
            r@ == self@,
    {
        &self.ids
    }
}

} // verus!
