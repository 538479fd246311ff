//! Account balances: a map from account id to balance, stored as a list
//! of entries with pairwise-distinct ids.

use crate::strutil::str_eq;
use vstd::prelude::*;
use vstd::pervasive::VecAdditionalExecFns;
use vstd::string::StringExecFns;

verus! {

/// One account: its id and its balance.
pub struct AccountEntry {
    pub id: String,
    pub balance: u64,
}

/// The balance store. Its view is the map from account id to balance.
pub struct Accounts {
    entries: Vec<AccountEntry>,
}

/// The map an entry list denotes: later entries would win, though a
/// well-formed list never repeats an id.
spec fn entries_map(s: Seq<AccountEntry>) -> Map<Seq<char>, u64>
    decreases s.len(),
{
    if s.len() == 0 {
        Map::empty()
    } else {
        entries_map(s.drop_last()).insert(s.last().id@, s.last().balance)
    }
}

/// No id occurs twice.
spec fn unique_ids(s: Seq<AccountEntry>) -> bool {
    forall|i: int, j: int| 0 <= i < j < s.len() ==> (#[trigger] s[i].id)@ != (#[trigger] s[j].id)@
}

/// Every entry is in the map.
proof fn lemma_map_has_entry(s: Seq<AccountEntry>, i: int)
    requires
        0 <= i < s.len(),
    ensures
        entries_map(s).contains_key(s[i].id@),
    decreases s.len(),
{
    if i < s.len() - 1 {
        lemma_map_has_entry(s.drop_last(), i);
    }
}

/// An id matching no entry is not in the map.
proof fn lemma_map_no_entry(s: Seq<AccountEntry>, k: Seq<char>)
    requires
        forall|i: int| 0 <= i < s.len() ==> (#[trigger] s[i].id)@ != k,
    ensures
        !entries_map(s).contains_key(k),
    decreases s.len(),
{
    if s.len() > 0 {
        lemma_map_no_entry(s.drop_last(), k);
    }
}

/// In a well-formed list the map agrees with each entry.
proof fn lemma_map_at(s: Seq<AccountEntry>, i: int)
    requires
        unique_ids(s),
        0 <= i < s.len(),
    ensures
        entries_map(s).contains_key(s[i].id@),
        entries_map(s)[s[i].id@] == s[i].balance,
    decreases s.len(),
{
    if i < s.len() - 1 {
        assert(s[i].id@ != s[s.len() - 1].id@);
        lemma_map_at(s.drop_last(), i);
    }
}

/// Replacing an entry's balance updates the map at its id.
proof fn lemma_map_update(s: Seq<AccountEntry>, i: int, e: AccountEntry)
    requires
        unique_ids(s),
        0 <= i < s.len(),
        e.id@ == s[i].id@,
    ensures
        entries_map(s.update(i, e)) == entries_map(s).insert(e.id@, e.balance),
    decreases s.len(),
{
    let s2 = s.update(i, e);
    if i == s.len() - 1 {
        assert(s2.drop_last() =~= s.drop_last());
        assert(s2.last() == e);
        assert(entries_map(s2) =~= entries_map(s).insert(e.id@, e.balance));
    } else {
        assert(s2.drop_last() =~= s.drop_last().update(i, e));
        assert(s2.last() == s.last());
        assert(s.drop_last()[i] == s[i]);
        lemma_map_update(s.drop_last(), i, e);
        assert(s[i].id@ != s.last().id@);
        assert(entries_map(s2) =~= entries_map(s).insert(e.id@, e.balance));
    }
}

impl View for Accounts {
    type V = Map<Seq<char>, u64>;

    closed spec fn view(&self) -> Map<Seq<char>, u64> {
        entries_map(self.entries@)
    }
}

impl Accounts {
    /// The entry list never repeats an id.
    pub closed spec fn wf(&self) -> bool {
        unique_ids(self.entries@)
    }

    /// An empty balance store.
    pub fn new() -> (r: Accounts)
        ensures
            r.wf(),
            r@ == Map::<Seq<char>, u64>::empty(),
    {
        let r = Accounts { entries: Vec::new() };
        proof {
            assert(r@ =~= Map::<Seq<char>, u64>::empty());
        }
        r
    }

    /// The balance stored under an id, if the account exists.
    pub fn get(&self, id: &str) -> (r: Option<u64>)
        requires
            self.wf(),
        ensures
            r == if self@.contains_key(id@) {
                Some(self@[id@])
            } else {
                None::<u64>
            },
    {
        let mut i: usize = 0;
        while i < self.entries.len()
            invariant
                self.wf(),
                i <= self.entries@.len(),
                forall|j: int| 0 <= j < i ==> (#[trigger] self.entries@[j].id)@ != id@,
            decreases self.entries@.len() - i,
        {
            if str_eq(self.entries[i].id.as_str(), id) {
                proof {
                    lemma_map_at(self.entries@, i as int);
                }
                return Some(self.entries[i].balance);
            }
            i += 1;
        }
        proof {
            lemma_map_no_entry(self.entries@, id@);
        }
        None
    }

    /// Stores a balance under an id, creating the account if absent.
    pub fn set(&mut self, id: &str, balance: u64)
        requires
            old(self).wf(),
        ensures
            final(self).wf(),
            final(self)@ == old(self)@.insert(id@, balance),
    {
        let mut i: usize = 0;
        while i < self.entries.len()
            invariant
                self.wf(),
                self.entries@ == old(self).entries@,
                i <= self.entries@.len(),
                forall|j: int| 0 <= j < i ==> (#[trigger] self.entries@[j].id)@ != id@,
            decreases self.entries@.len() - i,
        {
            if str_eq(self.entries[i].id.as_str(), id) {
                let e = AccountEntry { id: self.entries[i].id.clone(), balance };
                proof {
                    lemma_map_update(self.entries@, i as int, e);
                }
                self.entries.set(i, e);
                proof {
                    assert forall|p: int, q: int|
                        0 <= p < q < self.entries@.len() implies (#[trigger] self.entries@[p].id)@
                        != (#[trigger] self.entries@[q].id)@ by {
                        assert(old(self).entries@[p].id@ != old(self).entries@[q].id@);
                    }
                }
                return ;
            }
            i += 1;
        }
        let e = AccountEntry { id: id.to_owned(), balance };
        self.entries.push(e);
        proof {
            assert(self.entries@.drop_last() =~= old(self).entries@);
            assert(self.entries@.last() == e);
            assert(self@ =~= old(self)@.insert(id@, balance));
            assert forall|p: int, q: int|
                0 <= p < q < self.entries@.len() implies (#[trigger] self.entries@[p].id)@
                != (#[trigger] self.entries@[q].id)@ by {
                if q < self.entries@.len() - 1 {
                    assert(old(self).entries@[p].id@ != old(self).entries@[q].id@);
                } else {
                    assert(old(self).entries@[p].id@ != id@);
                }
            }
        }
    }
}

/// The effect of one transfer on the balance map: the sender must exist
/// and cover the amount; the receiver is created at zero if absent; the
/// credited balance must fit the balance type.
pub open spec fn transfer(m: Map<Seq<char>, u64>, from: Seq<char>, to: Seq<char>, amount: u64) -> Option<
    Map<Seq<char>, u64>,
> {
    if m.contains_key(from) && m[from] >= amount {
        let debited = m.insert(from, (m[from] - amount) as u64);
        let base: int = if debited.contains_key(to) {
            debited[to] as int
        } else {
            0
        };
        if base + amount <= u64::MAX {
            Some(debited.insert(to, (base + amount) as u64))
        } else {
            None
        }
    } else {
        None
    }
}

} // verus!
