//! Account-keyed stores.
//!
//! Every persisted collection that the contract keys by an account — the
//! balance ledger and the two secondary indices — is modelled as an
//! association list with unique keys, viewed as a finite map from the
//! account's bytes to the stored value's view.

use vstd::prelude::*;

use crate::account::AccountId;

verus! {

use vstd::pervasive::VecAdditionalExecFns;

/// A copy of a byte string, element for element.
pub fn clone_bytes(v: &Vec<u8>) -> (r: Vec<u8>)
    ensures
        r@ == v@,
{
    let mut r: Vec<u8> = Vec::new();
    for i in 0..v.len()
        invariant
            r@ =~= v@.subrange(0, i as int),
    {
        r.push(v[i]);
    }
    proof {
        assert(r@ =~= v@);
    }
    r
}

/// A copy of a list of ids, element for element.
pub fn copy_ids(v: &Vec<u128>) -> (r: Vec<u128>)
    ensures
        r@ == v@,
{
    let mut r: Vec<u128> = Vec::new();
    for i in 0..v.len()
        invariant
            r@ =~= v@.subrange(0, i as int),
    {
        r.push(v[i]);
    }
    proof {
        assert(r@ =~= v@);
    }
    r
}

/// The map denoted by an association list: later entries win, though the
/// stores below keep their keys unique so the question never arises.
pub open spec fn map_of<V: View>(s: Seq<(AccountId, V)>) -> Map<Seq<u8>, V::V>
    decreases s.len(),
{
    if s.len() == 0 {
        Map::empty()
    } else {
        map_of(s.drop_last()).insert(s.last().0@, s.last().1@)
    }
}

/// An account-keyed store with unique keys.
pub struct AccountMap<V: View> {
    pub entries: Vec<(AccountId, V)>,
}

impl<V: View> View for AccountMap<V> {
    type V = Map<Seq<u8>, V::V>;

    open spec fn view(&self) -> Map<Seq<u8>, V::V> {
        map_of(self.entries@)
    }
}

pub proof fn lemma_map_of_contains_key<V: View>(s: Seq<(AccountId, V)>, k: Seq<u8>)
    ensures
        map_of(s).contains_key(k) <==> exists|i: int| 0 <= i < s.len() && s[i].0@ == k,
    decreases s.len(),
{
    if s.len() > 0 {
        lemma_map_of_contains_key(s.drop_last(), k);
        if s.last().0@ == k {
            assert(s[s.len() - 1].0@ == k);
        } else if map_of(s).contains_key(k) {
            let i = choose|i: int| 0 <= i < s.drop_last().len() && s.drop_last()[i].0@ == k;
            assert(s[i].0@ == k);
        } else {
            assert forall|i: int| 0 <= i < s.len() implies s[i].0@ != k by {
                if i < s.len() - 1 {
                    assert(s.drop_last()[i].0@ == s[i].0@);
                }
            }
        }
    }
}

pub proof fn lemma_map_of_entry<V: View>(s: Seq<(AccountId, V)>, i: int)
    requires
        0 <= i < s.len(),
        forall|j: int| i < j < s.len() ==> s[j].0@ != s[i].0@,
    ensures
        map_of(s).contains_key(s[i].0@),
        map_of(s)[s[i].0@] == s[i].1@,
    decreases s.len(),
{
    lemma_map_of_contains_key(s, s[i].0@);
    if i < s.len() - 1 {
        assert forall|j: int| i < j < s.drop_last().len() implies s.drop_last()[j].0@
            != s.drop_last()[i].0@ by {
            assert(s.drop_last()[j].0@ == s[j].0@);
        }
        lemma_map_of_entry(s.drop_last(), i);
        assert(s.drop_last()[i].0@ == s[i].0@);
        assert(s.last().0@ != s[i].0@);
    }
}

pub proof fn lemma_map_of_update<V: View>(s: Seq<(AccountId, V)>, i: int, e: (AccountId, V))
    requires
        0 <= i < s.len(),
        e.0@ == s[i].0@,
        forall|j: int| i < j < s.len() ==> s[j].0@ != s[i].0@,
    ensures
        map_of(s.update(i, e)) == map_of(s).insert(e.0@, e.1@),
    decreases s.len(),
{
    let t = s.update(i, e);
    if i == s.len() - 1 {
        assert(t.drop_last() =~= s.drop_last());
        assert(map_of(t) =~= map_of(s).insert(e.0@, e.1@));
    } else {
        assert(t.drop_last() =~= s.drop_last().update(i, e));
        assert forall|j: int| i < j < s.drop_last().len() implies s.drop_last()[j].0@
            != s.drop_last()[i].0@ by {
            assert(s.drop_last()[j].0@ == s[j].0@);
        }
        lemma_map_of_update(s.drop_last(), i, e);
        assert(t.last() == s.last());
        assert(map_of(t) =~= map_of(s).insert(e.0@, e.1@));
    }
}

impl<V: View> AccountMap<V> {
    /// No two entries share a key.
    pub open spec fn keys_unique(&self) -> bool {
        forall|i: int, j: int|
            0 <= i < j < self.entries@.len() ==> self.entries@[i].0@ != self.entries@[j].0@
    }

    pub fn new() -> (r: AccountMap<V>)
        ensures
            r.keys_unique(),
            r@ == Map::<Seq<u8>, V::V>::empty(),
    {
        AccountMap { entries: Vec::new() }
    }

    /// Look the key up; `None` means the key was never stored.
    pub fn get<'a>(&'a self, key: &AccountId) -> (r: Option<&'a V>)
        requires
            self.keys_unique(),
        ensures
            match r {
                Some(v) => self@.contains_key(key@) && v@ == self@[key@],
                None => !self@.contains_key(key@),
            },
    {
        let n = self.entries.len();
        for i in 0..n
            invariant
                n == self.entries@.len(),
                self.keys_unique(),
                forall|j: int| 0 <= j < i ==> self.entries@[j].0@ != key@,
        {
            if self.entries[i].0.same_as(key) {
                proof {
                    lemma_map_of_entry(self.entries@, i as int);
                }
                return Some(&self.entries[i].1);
            }
        }
        proof {
            lemma_map_of_contains_key(self.entries@, key@);
        }
        None
    }

    /// Store the value under the key, replacing any previous value.
    pub fn set(&mut self, key: &AccountId, value: V)
        requires
            old(self).keys_unique(),
        ensures
            final(self).keys_unique(),
            final(self)@ == old(self)@.insert(key@, value@),
    {
        let n = self.entries.len();
        for i in 0..n
            invariant
                n == self.entries@.len(),
                self.entries@ == old(self).entries@,
                self.keys_unique(),
                forall|j: int| 0 <= j < i ==> self.entries@[j].0@ != key@,
        {
            if self.entries[i].0.same_as(key) {
                let entry = (key.clone(), value);
                proof {
                    lemma_map_of_update(self.entries@, i as int, entry);
                }
                self.entries.set(i, entry);
                return;
            }
        }
        let entry = (key.clone(), value);
        proof {
            assert(self.entries@.push(entry).drop_last() =~= self.entries@);
        }
        self.entries.push(entry);
        proof {
            lemma_map_of_contains_key(old(self).entries@, key@);
        }
    }
}

} // verus!
