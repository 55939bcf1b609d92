use crate::utils::same_text;
use vstd::prelude::*;

verus! {

/// One balance entry.
#[derive(Debug)]
struct Account {
    holder: String,
    balance: u64,
}

/// Balances by address. Each address has at most one entry.
#[derive(Debug)]
pub struct Accounts {
    entries: Vec<Account>,
}

impl Accounts {
    /// No address is entered twice.
    #[verifier::type_invariant]
    spec fn holders_are_distinct(self) -> bool {
        forall|i: int, j: int|
            0 <= i < j < self.entries@.len() ==> (#[trigger] self.entries@[i]).holder@
                != (#[trigger] self.entries@[j]).holder@
    }

    /// Whether entry `i` belongs to `holder`.
    spec fn entry_of(self, holder: Seq<char>, i: int) -> bool {
        0 <= i < self.entries@.len() && self.entries@[i].holder@ == holder
    }

    /// An empty book.
    pub fn new() -> (accounts: Accounts)
        ensures
            accounts@ == Map::<Seq<char>, u64>::empty(),
    {
        let accounts = Accounts { entries: Vec::new() };
        assert(accounts@ =~= Map::<Seq<char>, u64>::empty());
        accounts
    }

    /// The position of `holder`'s entry.
    fn position(&self, holder: &str) -> (found: Option<usize>)
        ensures
            match found {
                Some(i) => self.entry_of(holder@, i as int),
                None => forall|i: int| !self.entry_of(holder@, i),
            },
    {
        let mut i: usize = 0;
        while i < self.entries.len()
            invariant
                i <= self.entries@.len(),
                forall|k: int| 0 <= k < i ==> !self.entry_of(holder@, k),
            decreases self.entries@.len() - i,
        {
            if same_text(self.entries[i].holder.as_str(), holder) {
                return Some(i);
            }
            i = i + 1;
        }
        None
    }

    /// An entry's address is in the book with the entry's balance.
    proof fn lemma_entry_is_mapped(self, i: int)
        requires
            self.holders_are_distinct(),
            0 <= i < self.entries@.len(),
        ensures
            self@.contains_key(self.entries@[i].holder@),
            self@[self.entries@[i].holder@] == self.entries@[i].balance,
    {
        let holder = self.entries@[i].holder@;
        assert(self.entry_of(holder, i));
        let chosen = choose|k: int| self.entry_of(holder, k);
        assert(self.entry_of(holder, chosen));
        if chosen < i {
            assert(self.entries@[chosen].holder@ != self.entries@[i].holder@);
        } else if chosen > i {
            assert(self.entries@[i].holder@ != self.entries@[chosen].holder@);
        }
    }

    /// Whether `holder` has an entry.
    pub fn contains_key(&self, holder: &str) -> (present: bool)
        ensures
            present == self@.contains_key(holder@),
    {
        self.position(holder).is_some()
    }

    /// The balance of `holder`, where there is an entry.
    pub fn get(&self, holder: &str) -> (balance: Option<u64>)
        ensures
            match balance {
                Some(amount) => self@.contains_key(holder@) && self@[holder@] == amount,
                None => !self@.contains_key(holder@),
            },
    {
        proof {
            use_type_invariant(self);
        }
        match self.position(holder) {
            Some(i) => {
                proof {
                    self.lemma_entry_is_mapped(i as int);
                }
                Some(self.entries[i].balance)
            },
            None => None,
        }
    }

    /// Sets the balance of `holder`, entering the address if it is new. Returns
    /// the balance that was there before.
    pub fn insert(&mut self, holder: String, balance: u64) -> (previous: Option<u64>)
        ensures
            final(self)@ == old(self)@.insert(holder@, balance),
            match previous {
                Some(amount) => old(self)@.contains_key(holder@) && old(self)@[holder@] == amount,
                None => !old(self)@.contains_key(holder@),
            },
    {
        proof {
            use_type_invariant(&*self);
        }
        match self.position(holder.as_str()) {
            Some(i) => {
                let previous = self.entries[i].balance;
                proof {
                    old(self).lemma_entry_is_mapped(i as int);
                }
                let mut entries: Vec<Account> = Vec::new();
                std::mem::swap(&mut self.entries, &mut entries);
                entries.set(i, Account { holder, balance });
                std::mem::swap(&mut self.entries, &mut entries);
                proof {
                    assert(self.holders_are_distinct());
                    assert forall|key: Seq<char>| #[trigger]
                        self@.contains_key(key) == old(self)@.insert(holder@, balance).contains_key(
                            key,
                        ) by {
                        if self@.contains_key(key) {
                            let k = choose|k: int| self.entry_of(key, k);
                            assert(old(self).entry_of(key, k));
                        }
                        if old(self)@.contains_key(key) {
                            let k = choose|k: int| old(self).entry_of(key, k);
                            assert(self.entry_of(key, k));
                        }
                        if key == holder@ {
                            assert(self.entry_of(key, i as int));
                        }
                    }
                    assert forall|key: Seq<char>| #[trigger] self@.contains_key(key) implies self@[key]
                        == old(self)@.insert(holder@, balance)[key] by {
                        let k = choose|k: int| self.entry_of(key, k);
                        self.lemma_entry_is_mapped(k);
                        if k != i {
                            old(self).lemma_entry_is_mapped(k);
                        }
                    }
                    assert(self@ =~= old(self)@.insert(holder@, balance));
                }
                Some(previous)
            },
            None => {
                let mut entries: Vec<Account> = Vec::new();
                std::mem::swap(&mut self.entries, &mut entries);
                proof {
                    assert forall|i: int, j: int| 0 <= i < j < entries@.len() + 1 implies (
                    #[trigger] entries@.push(Account { holder, balance })[i]).holder@ != (
                    #[trigger] entries@.push(Account { holder, balance })[j]).holder@ by {
                        if j == entries@.len() {
                            assert(!old(self).entry_of(holder@, i));
                        }
                    }
                }
                entries.push(Account { holder, balance });
                std::mem::swap(&mut self.entries, &mut entries);
                proof {
                    let last = self.entries@.len() - 1;
                    assert forall|i: int, j: int| 0 <= i < j < self.entries@.len() implies (
                    #[trigger] self.entries@[i]).holder@ != (#[trigger] self.entries@[j]).holder@ by {
                        if j == last {
                            assert(!old(self).entry_of(holder@, i));
                        }
                    }
                    assert forall|key: Seq<char>| #[trigger]
                        self@.contains_key(key) == old(self)@.insert(holder@, balance).contains_key(
                            key,
                        ) by {
                        if self@.contains_key(key) {
                            let k = choose|k: int| self.entry_of(key, k);
                            if k != last {
                                assert(old(self).entry_of(key, k));
                            }
                        }
                        if old(self)@.contains_key(key) {
                            let k = choose|k: int| old(self).entry_of(key, k);
                            assert(self.entry_of(key, k));
                        }
                        if key == holder@ {
                            assert(self.entry_of(key, last));
                        }
                    }
                    assert forall|key: Seq<char>| #[trigger] self@.contains_key(key) implies self@[key]
                        == old(self)@.insert(holder@, balance)[key] by {
                        let k = choose|k: int| self.entry_of(key, k);
                        self.lemma_entry_is_mapped(k);
                        if k != last {
                            old(self).lemma_entry_is_mapped(k);
                        }
                    }
                    assert(self@ =~= old(self)@.insert(holder@, balance));
                }
                None
            },
        }
    }
}

impl View for Accounts {
    type V = Map<Seq<char>, u64>;

    closed spec fn view(&self) -> Map<Seq<char>, u64> {
        Map::new(
            |holder: Seq<char>| exists|i: int| self.entry_of(holder, i),
            |holder: Seq<char>| self.entries@[choose|i: int| self.entry_of(holder, i)].balance,
        )
    }
}

impl Clone for Accounts {
    fn clone(&self) -> (copy: Accounts)
        ensures
            copy@ == self@,
    {
        proof {
            use_type_invariant(self);
        }
        let mut entries: Vec<Account> = Vec::new();
        let mut i: usize = 0;
        while i < self.entries.len()
            invariant
                i <= self.entries@.len(),
                entries@.len() == i,
                forall|k: int|
                    0 <= k < i ==> (#[trigger] entries@[k]).holder@ == self.entries@[k].holder@
                        && entries@[k].balance == self.entries@[k].balance,
            decreases self.entries@.len() - i,
        {
            entries.push(
                Account { holder: self.entries[i].holder.clone(), balance: self.entries[i].balance },
            );
            i = i + 1;
        }
        let copy = Accounts { entries };
        proof {
            assert forall|key: Seq<char>, k: int| copy.entry_of(key, k) == self.entry_of(key, k) by {}
            assert forall|key: Seq<char>| #[trigger] copy@.contains_key(key) == self@.contains_key(key) by {
                if copy@.contains_key(key) {
                    let k = choose|k: int| copy.entry_of(key, k);
                    assert(self.entry_of(key, k));
                }
                if self@.contains_key(key) {
                    let k = choose|k: int| self.entry_of(key, k);
                    assert(copy.entry_of(key, k));
                }
            }
            assert forall|key: Seq<char>| #[trigger] copy@.contains_key(key) implies copy@[key] == self@[key] by {
                let k = choose|k: int| copy.entry_of(key, k);
                copy.lemma_entry_is_mapped(k);
                self.lemma_entry_is_mapped(k);
            }
            assert(copy@ =~= self@);
        }
        copy
    }
}

/// The content hashes already admitted. A hash is kept once.
#[derive(Debug)]
pub struct TransactionHistory {
    seen: Vec<String>,
}

impl View for TransactionHistory {
    type V = Set<Seq<char>>;

    closed spec fn view(&self) -> Set<Seq<char>> {
        Set::new(|hash: Seq<char>| exists|i: int| 0 <= i < self.seen@.len() && self.seen@[i]@ == hash)
    }
}

impl TransactionHistory {
    /// An empty history.
    pub fn new() -> (history: TransactionHistory)
        ensures
            history@ == Set::<Seq<char>>::empty(),
    {
        let history = TransactionHistory { seen: Vec::new() };
        assert(history@ =~= Set::<Seq<char>>::empty());
        history
    }

    /// Whether `hash` was admitted.
    pub fn contains(&self, hash: &str) -> (present: bool)
        ensures
            present == self@.contains(hash@),
    {
        let mut i: usize = 0;
        while i < self.seen.len()
            invariant
                i <= self.seen@.len(),
                forall|k: int| 0 <= k < i ==> self.seen@[k]@ != hash@,
            decreases self.seen@.len() - i,
        {
            if same_text(self.seen[i].as_str(), hash) {
                return true;
            }
            i = i + 1;
        }
        false
    }

    /// Admits `hash`. Returns whether it was new.
    pub fn insert(&mut self, hash: String) -> (fresh: bool)
        ensures
            final(self)@ == old(self)@.insert(hash@),
            fresh == !old(self)@.contains(hash@),
    {
        if self.contains(hash.as_str()) {
            assert(self@ =~= old(self)@.insert(hash@));
            false
        } else {
            self.seen.push(hash);
            proof {
                let last = self.seen@.len() - 1;
                assert forall|key: Seq<char>| #[trigger]
                    self@.contains(key) == old(self)@.insert(hash@).contains(key) by {
                    if self@.contains(key) {
                        let k = choose|k: int| 0 <= k < self.seen@.len() && self.seen@[k]@ == key;
                        if k != last {
                            assert(old(self).seen@[k]@ == key);
                        }
                    }
                    if old(self)@.contains(key) {
                        let k = choose|k: int|
                            0 <= k < old(self).seen@.len() && old(self).seen@[k]@ == key;
                        assert(self.seen@[k]@ == key);
                    }
                    if key == hash@ {
                        assert(self.seen@[last]@ == key);
                    }
                }
                assert(self@ =~= old(self)@.insert(hash@));
            }
            true
        }
    }
}

} // verus!
