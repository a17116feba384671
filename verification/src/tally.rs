//! A count per string key, kept in ascending key order: what the summary of
//! a plan reports for priorities, owners and tags.

use vstd::prelude::*;
use crate::text::{compare_text, lemma_lex_asymmetric, lemma_lex_transitive, lex_lt, Cmp};

verus! {

/// The counts after one more occurrence of `k`.
pub open spec fn bump(m: Map<Seq<char>, nat>, k: Seq<char>) -> Map<Seq<char>, nat> {
    m.insert(k, if m.contains_key(k) { m[k] + 1 } else { 1 })
}

/// How often each key occurs in `keys`.
pub open spec fn tally_of(keys: Seq<Seq<char>>) -> Map<Seq<char>, nat>
    decreases keys.len(),
{
    if keys.len() == 0 {
        Map::empty()
    } else {
        bump(tally_of(keys.drop_last()), keys.last())
    }
}

/// A key is counted exactly when it occurs, and its count is the number of
/// its occurrences.
pub proof fn lemma_tally_counts(keys: Seq<Seq<char>>, k: Seq<char>)
    ensures
        tally_of(keys).contains_key(k) <==> keys.contains(k),
        tally_of(keys).contains_key(k) ==> tally_of(keys)[k] == keys.filter(
            |x: Seq<char>| x == k,
        ).len(),
    decreases keys.len(),
{
    reveal_with_fuel(Seq::<_>::filter, 1);
    if keys.len() > 0 {
        lemma_tally_counts(keys.drop_last(), k);
        if keys.drop_last().contains(k) {
            let i = choose|i: int| 0 <= i < keys.drop_last().len() && keys.drop_last()[i] == k;
            assert(keys[i] == k);
        }
        if keys.contains(k) && keys.last() != k {
            let i = choose|i: int| 0 <= i < keys.len() && keys[i] == k;
            assert(keys.drop_last()[i] == k);
        }
        if !tally_of(keys.drop_last()).contains_key(k) {
            assert(keys.drop_last().filter(|x: Seq<char>| x == k).len() == 0) by {
                if keys.drop_last().filter(|x: Seq<char>| x == k).len() > 0 {
                    let f = keys.drop_last().filter(|x: Seq<char>| x == k);
                    keys.drop_last().lemma_filter_contains_rev(|x: Seq<char>| x == k, f[0]);
                }
            }
        }
    } else {
        assert(!keys.contains(k));
    }
}

/// No key is counted more often than there are keys.
pub proof fn lemma_tally_bounded(keys: Seq<Seq<char>>, k: Seq<char>)
    ensures
        tally_of(keys).contains_key(k) ==> tally_of(keys)[k] <= keys.len(),
    decreases keys.len(),
{
    if keys.len() > 0 {
        lemma_tally_bounded(keys.drop_last(), k);
    }
}

/// The sum of the counts of a list of keys and counts.
pub open spec fn counts_sum(s: Seq<(String, usize)>) -> nat
    decreases s.len(),
{
    if s.len() == 0 {
        0
    } else {
        counts_sum(s.drop_last()) + s.last().1 as nat
    }
}

proof fn lemma_counts_sum_insert(s: Seq<(String, usize)>, i: int, x: (String, usize))
    requires
        0 <= i <= s.len(),
    ensures
        counts_sum(s.insert(i, x)) == counts_sum(s) + x.1 as nat,
    decreases s.len(),
{
    if i == s.len() {
        assert(s.insert(i, x).drop_last() =~= s);
    } else {
        assert(s.insert(i, x).drop_last() =~= s.drop_last().insert(i, x));
        lemma_counts_sum_insert(s.drop_last(), i, x);
    }
}

proof fn lemma_counts_sum_update(s: Seq<(String, usize)>, i: int, x: (String, usize))
    requires
        0 <= i < s.len(),
    ensures
        counts_sum(s.update(i, x)) + s[i].1 as nat == counts_sum(s) + x.1 as nat,
    decreases s.len(),
{
    if i == s.len() - 1 {
        assert(s.update(i, x).drop_last() =~= s.drop_last());
    } else {
        assert(s.update(i, x).drop_last() =~= s.drop_last().update(i, x));
        lemma_counts_sum_update(s.drop_last(), i, x);
    }
}

/// Counts of string keys, ordered by key as a `BTreeMap<String, usize>` is.
/// vstd specifies `BTreeMap` only for keys whose `Ord` obeys its model,
/// which it establishes for integers and tuples of them but not for
/// `String`; hence this ordered list with its invariant.
#[derive(Debug)]
pub struct Tally {
    entries: Vec<(String, usize)>,
}

impl Tally {
    /// The keys are strictly ascending, so none occurs twice.
    #[verifier::type_invariant]
    closed spec fn keys_ascending(self) -> bool {
        forall|i: int, j: int|
            0 <= i < j < self.entries@.len() ==> lex_lt(
                #[trigger] self.entries@[i].0@,
                #[trigger] self.entries@[j].0@,
            )
    }

    /// The sum of all counts: how many keys were counted.
    pub closed spec fn total(self) -> nat {
        counts_sum(self.entries@)
    }

    closed spec fn has_key(self, k: Seq<char>) -> bool {
        exists|i: int| 0 <= i < self.entries@.len() && #[trigger] self.entries@[i].0@ == k
    }

    closed spec fn index_of(self, k: Seq<char>) -> int {
        choose|i: int| 0 <= i < self.entries@.len() && #[trigger] self.entries@[i].0@ == k
    }

    proof fn lemma_index_of(self, i: int)
        requires
            self.keys_ascending(),
            0 <= i < self.entries@.len(),
        ensures
            self.has_key(self.entries@[i].0@),
            self.index_of(self.entries@[i].0@) == i,
    {
        let k = self.entries@[i].0@;
        assert(self.has_key(k));
        let j = self.index_of(k);
        lemma_lex_asymmetric(k, k);
        if j < i {
            assert(lex_lt(self.entries@[j].0@, self.entries@[i].0@));
        } else if i < j {
            assert(lex_lt(self.entries@[i].0@, self.entries@[j].0@));
        }
    }

    /// An empty tally.
    pub fn new() -> (t: Tally)
        ensures
            t@ == Map::<Seq<char>, nat>::empty(),
            t.total() == 0,
    {
        let t = Tally { entries: Vec::new() };
        assert(t@ =~= Map::<Seq<char>, nat>::empty());
        t
    }

    /// Counts one more occurrence of `key`.
    pub fn increment(&mut self, key: String)
        requires
            old(self)@.contains_key(key@) ==> old(self)@[key@] < usize::MAX,
        ensures
            final(self)@ == bump(old(self)@, key@),
            final(self).total() == old(self).total() + 1,
            final(self)@.contains_key(key@),
            final(self)@[key@] == if old(self)@.contains_key(key@) {
                old(self)@[key@] + 1
            } else {
                1
            },
            forall|k: Seq<char>|
                k != key@ ==> (#[trigger] final(self)@.contains_key(k) == old(self)@.contains_key(k)
                    && (old(self)@.contains_key(k) ==> final(self)@[k] == old(self)@[k])),
    {
        proof {
            use_type_invariant(&*self);
        }
        let ghost before = *self;
        let mut entries: Vec<(String, usize)> = Vec::new();
        std::mem::swap(&mut entries, &mut self.entries);
        assert(entries@ == before.entries@);
        let n = entries.len();
        let mut i: usize = 0;
        let mut found = false;
        while i < n
            invariant_except_break
                !found,
                forall|j: int| 0 <= j < i ==> lex_lt(#[trigger] entries@[j].0@, key@),
            invariant
                n == entries@.len(),
                entries@ == before.entries@,
                before.keys_ascending(),
                i <= n,
            ensures
                found ==> i < n && entries@[i as int].0@ == key@,
                !found ==> forall|j: int| 0 <= j < i ==> lex_lt(#[trigger] entries@[j].0@, key@),
                !found ==> (i == n || lex_lt(key@, entries@[i as int].0@)),
            decreases n - i,
        {
            match compare_text(entries[i].0.as_str(), key.as_str()) {
                Cmp::Less => {
                    i = i + 1;
                },
                Cmp::Equal => {
                    found = true;
                    break ;
                },
                Cmp::Greater => {
                    break ;
                },
            }
        }
        if found {
            proof {
                before.lemma_index_of(i as int);
            }
            let count = entries[i].1;
            proof {
                lemma_counts_sum_update(entries@, i as int, (key, (count + 1) as usize));
            }
            entries.set(i, (key, count + 1));
            let ghost after = Tally { entries: entries };
            proof {
                assert forall|j: int| 0 <= j < n implies before.index_of(
                    #[trigger] before.entries@[j].0@,
                ) == j by {
                    before.lemma_index_of(j);
                }
                assert(after.keys_ascending()) by {
                    assert forall|a: int, b: int| 0 <= a < b < n implies lex_lt(
                        #[trigger] after.entries@[a].0@,
                        #[trigger] after.entries@[b].0@,
                    ) by {
                        assert(lex_lt(before.entries@[a].0@, before.entries@[b].0@));
                    }
                }
                assert forall|j: int| 0 <= j < n implies after.index_of(
                    #[trigger] after.entries@[j].0@,
                ) == j by {
                    after.lemma_index_of(j);
                }
                assert forall|k: Seq<char>| #[trigger] after.has_key(k) == before.has_key(k) by {
                    if after.has_key(k) {
                        let j = choose|j: int| 0 <= j < n && #[trigger] after.entries@[j].0@ == k;
                        assert(before.entries@[j].0@ == k);
                    }
                    if before.has_key(k) {
                        let j = choose|j: int| 0 <= j < n && #[trigger] before.entries@[j].0@ == k;
                        assert(after.entries@[j].0@ == k);
                    }
                }
                assert(after@ =~= bump(before@, key@)) by {
                    assert forall|k: Seq<char>| #[trigger] after.has_key(k) && k != key@ implies
                        after.entries@[after.index_of(k)].1 == before.entries@[before.index_of(k)].1 by {
                        let j = choose|j: int| 0 <= j < n && #[trigger] after.entries@[j].0@ == k;
                        assert(before.entries@[j].0@ == k);
                    }
                }
            }
            self.entries = entries;
        } else {
            // `key` is new: it goes at position `i`, before every larger key.
            proof {
                assert forall|j: int| i <= j < n implies lex_lt(key@, #[trigger] entries@[j].0@) by {
                    if j > i {
                        assert(lex_lt(entries@[i as int].0@, entries@[j].0@));
                        lemma_lex_transitive(key@, entries@[i as int].0@, entries@[j].0@);
                    }
                }
                assert(!before.has_key(key@)) by {
                    if before.has_key(key@) {
                        let j = choose|j: int| 0 <= j < n && #[trigger] before.entries@[j].0@ == key@;
                        lemma_lex_asymmetric(key@, key@);
                        if j < i {
                            assert(lex_lt(entries@[j].0@, key@));
                        } else {
                            assert(lex_lt(key@, entries@[j].0@));
                        }
                    }
                }
            }
            let ghost k = key@;
            proof {
                lemma_counts_sum_insert(entries@, i as int, (key, 1usize));
            }
            entries.insert(i, (key, 1));
            let ghost after = Tally { entries: entries };
            proof {
                assert(after.keys_ascending()) by {
                    assert forall|a: int, b: int| 0 <= a < b < n + 1 implies lex_lt(
                        #[trigger] after.entries@[a].0@,
                        #[trigger] after.entries@[b].0@,
                    ) by {
                        if b < i {
                            assert(lex_lt(before.entries@[a].0@, before.entries@[b].0@));
                        } else if b == i {
                        } else if a < i {
                            assert(lex_lt(before.entries@[a].0@, k));
                            assert(lex_lt(k, before.entries@[b - 1].0@));
                            lemma_lex_transitive(before.entries@[a].0@, k, before.entries@[b - 1].0@);
                        } else if a == i {
                        } else {
                            assert(lex_lt(before.entries@[a - 1].0@, before.entries@[b - 1].0@));
                        }
                    }
                }
                assert forall|j: int| 0 <= j < n + 1 implies after.index_of(
                    #[trigger] after.entries@[j].0@,
                ) == j by {
                    after.lemma_index_of(j);
                }
                assert forall|j: int| 0 <= j < n implies before.index_of(
                    #[trigger] before.entries@[j].0@,
                ) == j by {
                    before.lemma_index_of(j);
                }
                assert forall|q: Seq<char>| #[trigger]
                    after.has_key(q) == (before.has_key(q) || q == k) by {
                    if after.has_key(q) {
                        let j = choose|j: int| 0 <= j < n + 1 && #[trigger] after.entries@[j].0@ == q;
                        if j < i {
                            assert(before.entries@[j].0@ == q);
                        } else if j > i {
                            assert(before.entries@[j - 1].0@ == q);
                        }
                    }
                    if before.has_key(q) {
                        let j = choose|j: int| 0 <= j < n && #[trigger] before.entries@[j].0@ == q;
                        if j < i {
                            assert(after.entries@[j].0@ == q);
                        } else {
                            assert(after.entries@[j + 1].0@ == q);
                        }
                    }
                    if q == k {
                        assert(after.entries@[i as int].0@ == q);
                    }
                }
                assert(after@ =~= bump(before@, k)) by {
                    assert forall|q: Seq<char>| #[trigger] after.has_key(q) && q != k implies
                        after.entries@[after.index_of(q)].1 == before.entries@[before.index_of(q)].1 by {
                        let j = choose|j: int| 0 <= j < n && #[trigger] before.entries@[j].0@ == q;
                        if j < i {
                            assert(after.entries@[j].0@ == q);
                        } else {
                            assert(after.entries@[j + 1].0@ == q);
                        }
                    }
                    assert(after.entries@[i as int].0@ == k);
                    assert(after.index_of(after.entries@[i as int].0@) == i);
                    assert(after.index_of(k) == i);
                }
            }
            self.entries = entries;
        }
    }

    /// The count of `key`, if it occurred.
    pub fn get(&self, key: &str) -> (r: Option<&usize>)
        ensures
            match r {
                Some(c) => self@.contains_key(key@) && *c as nat == self@[key@],
                None => !self@.contains_key(key@),
            },
    {
        proof {
            use_type_invariant(self);
        }
        let n = self.entries.len();
        let mut i: usize = 0;
        while i < n
            invariant
                n == self.entries@.len(),
                self.keys_ascending(),
                forall|j: int| 0 <= j < i ==> #[trigger] self.entries@[j].0@ != key@,
            decreases n - i,
        {
            if compare_text(self.entries[i].0.as_str(), key) == Cmp::Equal {
                proof {
                    self.lemma_index_of(i as int);
                }
                return Some(&self.entries[i].1);
            }
            i = i + 1;
        }
        None
    }

    /// The keys and their counts, in ascending key order.
    pub fn entries(&self) -> (r: &Vec<(String, usize)>)
        ensures
            forall|i: int, j: int| 0 <= i < j < r@.len() ==> lex_lt(#[trigger] r@[i].0@, #[trigger] r@[j].0@),
            forall|i: int|
                0 <= i < r@.len() ==> self@.contains_key(#[trigger] r@[i].0@) && self@[r@[i].0@]
                    == r@[i].1 as nat,
            forall|k: Seq<char>| #[trigger]
                self@.contains_key(k) ==> exists|i: int| 0 <= i < r@.len() && #[trigger] r@[i].0@ == k,
            counts_sum(r@) == self.total(),
    {
        proof {
            use_type_invariant(self);
            assert forall|i: int| 0 <= i < self.entries@.len() implies self.index_of(
                #[trigger] self.entries@[i].0@,
            ) == i by {
                self.lemma_index_of(i);
            }
        }
        &self.entries
    }
}

impl View for Tally {
    type V = Map<Seq<char>, nat>;

    closed spec fn view(&self) -> Map<Seq<char>, nat> {
        Map::new(|k: Seq<char>| self.has_key(k), |k: Seq<char>| self.entries@[self.index_of(k)].1 as nat)
    }
}

} // verus!
