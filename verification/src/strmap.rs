//! An ordered mapping from string keys to values: keys are unique and kept
//! in ascending lexicographic order, and a later write for a key replaces
//! the earlier one.

use vstd::prelude::*;
use crate::text::lemma_str_lt_connected;
use crate::text::lemma_str_lt_trans;
use crate::text::spec_str_lt;
use crate::text::str_eq;
use crate::text::str_lt;

verus! {

/// Whether the keys of an entry sequence are strictly ascending.
pub open spec fn spec_entries_sorted<V>(s: Seq<(String, V)>) -> bool {
    forall|i: int| 0 <= i < s.len() - 1 ==> spec_str_lt(#[trigger] s[i].0@, s[i + 1].0@)
}

/// The mapping an entry sequence denotes; a later entry for a key wins.
pub open spec fn spec_map_of<V>(s: Seq<(String, V)>) -> Map<Seq<char>, V>
    decreases s.len(),
{
    if s.len() == 0 {
        Map::empty()
    } else {
        spec_map_of(s.drop_last()).insert(s.last().0@, s.last().1)
    }
}

/// Where an entry sequence keeps its keys sorted, a new entry goes before
/// every strictly larger key, replacing an entry whose key it equals.
pub open spec fn spec_sorted_insert<V>(s: Seq<(String, V)>, key: String, value: V) -> Seq<
    (String, V),
>
    decreases s.len(),
{
    if s.len() == 0 {
        seq![(key, value)]
    } else if spec_str_lt(s.last().0@, key@) {
        s.push((key, value))
    } else if s.last().0@ == key@ {
        s.drop_last().push((key, value))
    } else {
        spec_sorted_insert(s.drop_last(), key, value).push(s.last())
    }
}

/// No character sequence lexicographically precedes itself.
pub proof fn lemma_str_lt_irrefl(a: Seq<char>)
    ensures
        !spec_str_lt(a, a),
    decreases a.len(),
{
    if a.len() > 0 {
        lemma_str_lt_irrefl(a.drop_first());
    }
}

/// In a sorted entry sequence any earlier key strictly precedes any later
/// one.
pub proof fn lemma_sorted_keys_increase<V>(s: Seq<(String, V)>, i: int, j: int)
    requires
        spec_entries_sorted(s),
        0 <= i < j < s.len(),
    ensures
        spec_str_lt(s[i].0@, s[j].0@),
    decreases j - i,
{
    if i + 1 < j {
        lemma_sorted_keys_increase(s, i, j - 1);
        lemma_str_lt_trans(s[i].0@, s[j - 1].0@, s[j].0@);
    }
}

/// The sorted insertion yields exactly the map insertion, keeps the keys
/// sorted, and ends in either the new entry or the old last one.
pub proof fn lemma_sorted_insert_props<V>(s: Seq<(String, V)>, key: String, value: V)
    requires
        spec_entries_sorted(s),
    ensures
        spec_map_of(spec_sorted_insert(s, key, value)) == spec_map_of(s).insert(key@, value),
        spec_entries_sorted(spec_sorted_insert(s, key, value)),
        spec_sorted_insert(s, key, value).len() >= 1,
        spec_sorted_insert(s, key, value).last() == (key, value) || (s.len() >= 1
            && spec_sorted_insert(s, key, value).last() == s.last()),
    decreases s.len(),
{
    let r = spec_sorted_insert(s, key, value);
    if s.len() == 0 {
        assert(r.len() == 1);
        assert(r.drop_last() =~= Seq::<(String, V)>::empty());
        assert(r.last() == (key, value));
        assert(spec_map_of(r) == spec_map_of(r.drop_last()).insert(r.last().0@, r.last().1));
        assert(spec_map_of(r) =~= spec_map_of(s).insert(key@, value));
    } else if spec_str_lt(s.last().0@, key@) {
        assert(r.drop_last() =~= s);
        assert(spec_map_of(r) =~= spec_map_of(s).insert(key@, value));
        assert forall|i: int| 0 <= i < r.len() - 1 implies spec_str_lt(
            #[trigger] r[i].0@,
            r[i + 1].0@,
        ) by {
            if i < s.len() - 1 {
                assert(r[i] == s[i]);
                assert(r[i + 1] == s[i + 1]);
            } else {
                assert(r[i] == s.last());
                assert(r[i + 1] == (key, value));
            }
        }
    } else if s.last().0@ == key@ {
        assert(r.drop_last() =~= s.drop_last());
        assert(spec_map_of(r) =~= spec_map_of(s).insert(key@, value));
        assert forall|i: int| 0 <= i < r.len() - 1 implies spec_str_lt(
            #[trigger] r[i].0@,
            r[i + 1].0@,
        ) by {
            if i < s.len() - 2 {
                assert(r[i] == s[i]);
                assert(r[i + 1] == s[i + 1]);
            } else {
                assert(r[i] == s[i]);
                assert(r[i + 1] == (key, value));
                assert(spec_str_lt(s[i].0@, s[i + 1].0@));
            }
        }
    } else {
        assert(spec_entries_sorted(s.drop_last())) by {
            assert forall|i: int| 0 <= i < s.drop_last().len() - 1 implies spec_str_lt(
                #[trigger] s.drop_last()[i].0@,
                s.drop_last()[i + 1].0@,
            ) by {
                assert(s.drop_last()[i] == s[i]);
                assert(s.drop_last()[i + 1] == s[i + 1]);
            }
        }
        lemma_sorted_insert_props(s.drop_last(), key, value);
        let rec = spec_sorted_insert(s.drop_last(), key, value);
        assert(r == rec.push(s.last()));
        if !spec_str_lt(key@, s.last().0@) {
            lemma_str_lt_connected(s.last().0@, key@);
        }
        assert(spec_str_lt(key@, s.last().0@));
        // the two final inserts commute: the keys differ
        assert(r.drop_last() =~= rec);
        assert(r.last() == s.last());
        assert(spec_map_of(r) == spec_map_of(rec).insert(s.last().0@, s.last().1));
        assert(spec_map_of(rec) == spec_map_of(s.drop_last()).insert(key@, value));
        assert(spec_map_of(s) == spec_map_of(s.drop_last()).insert(s.last().0@, s.last().1));
        assert(key@ != s.last().0@);
        assert(spec_map_of(r) =~= spec_map_of(s).insert(key@, value));
        // sortedness: rec stays sorted and its last key precedes the old last
        assert(rec.last() == (key, value) || (s.drop_last().len() >= 1 && rec.last()
            == s.drop_last().last()));
        if s.drop_last().len() >= 1 && rec.last() == s.drop_last().last() {
            assert(s.drop_last().last() == s[s.len() - 2]);
            assert(spec_str_lt(s[s.len() - 2].0@, s[s.len() - 1].0@));
        }
        assert(spec_str_lt(rec.last().0@, s.last().0@));
        assert forall|i: int| 0 <= i < r.len() - 1 implies spec_str_lt(
            #[trigger] r[i].0@,
            r[i + 1].0@,
        ) by {
            if i < rec.len() - 1 {
                assert(r[i] == rec[i]);
                assert(r[i + 1] == rec[i + 1]);
            } else {
                assert(r[i] == rec.last());
                assert(r[i + 1] == s.last());
            }
        }
    }
}

/// In a sorted entry sequence the denoted map holds exactly the entries'
/// keys, each bound to its entry's value.
pub proof fn lemma_map_of_entries<V>(s: Seq<(String, V)>)
    requires
        spec_entries_sorted(s),
    ensures
        forall|k: Seq<char>|
            spec_map_of(s).dom().contains(k) <==> exists|i: int|
                0 <= i < s.len() && #[trigger] s[i].0@ == k,
        forall|i: int|
            0 <= i < s.len() ==> spec_map_of(s).dom().contains(#[trigger] s[i].0@) && spec_map_of(
                s,
            )[s[i].0@] == s[i].1,
    decreases s.len(),
{
    if s.len() > 0 {
        assert(spec_entries_sorted(s.drop_last())) by {
            assert forall|i: int| 0 <= i < s.drop_last().len() - 1 implies spec_str_lt(
                #[trigger] s.drop_last()[i].0@,
                s.drop_last()[i + 1].0@,
            ) by {
                assert(s.drop_last()[i] == s[i]);
                assert(s.drop_last()[i + 1] == s[i + 1]);
            }
        }
        lemma_map_of_entries(s.drop_last());
        assert forall|i: int| 0 <= i < s.len() implies spec_map_of(s).dom().contains(
            #[trigger] s[i].0@,
        ) && spec_map_of(s)[s[i].0@] == s[i].1 by {
            if i < s.len() - 1 {
                assert(s.drop_last()[i] == s[i]);
                lemma_sorted_keys_increase(s, i, s.len() - 1);
                lemma_str_lt_irrefl(s[i].0@);
                assert(s[i].0@ != s.last().0@);
                assert(spec_map_of(s.drop_last()).dom().contains(s.drop_last()[i].0@)
                    && spec_map_of(s.drop_last())[s.drop_last()[i].0@] == s.drop_last()[i].1);
            }
        }
        assert forall|k: Seq<char>| spec_map_of(s).dom().contains(k) implies exists|i: int|
            0 <= i < s.len() && #[trigger] s[i].0@ == k by {
            if k != s.last().0@ {
                assert(spec_map_of(s.drop_last()).dom().contains(k));
                let j = choose|j: int|
                    0 <= j < s.drop_last().len() && #[trigger] s.drop_last()[j].0@ == k;
                assert(s.drop_last()[j] == s[j]);
                assert(s[j].0@ == k);
            } else {
                assert(s[s.len() - 1].0@ == k);
            }
        }
    }
}

/// An ordered mapping from string keys to values, the keys unique and kept
/// in ascending lexicographic order.
pub struct StrMap<V> {
    entries: Vec<(String, V)>,
}

impl<V> View for StrMap<V> {
    type V = Map<Seq<char>, V>;

    open spec fn view(&self) -> Map<Seq<char>, V> {
        spec_map_of(self.spec_entries())
    }
}

impl<V> StrMap<V> {
    /// The entries in ascending key order.
    pub closed spec fn spec_entries(&self) -> Seq<(String, V)> {
        self.entries@
    }

    /// The keys are strictly ascending, hence unique.
    pub open spec fn spec_wf(&self) -> bool {
        spec_entries_sorted(self.spec_entries())
    }

    /// An empty mapping.
    pub fn new() -> (r: StrMap<V>)
        ensures
            r.spec_entries() == Seq::<(String, V)>::empty(),
            r@ == Map::<Seq<char>, V>::empty(),
            r.spec_wf(),
    {
        StrMap { entries: Vec::new() }
    }

    /// The number of entries.
    pub fn len(&self) -> (n: usize)
        ensures
            n == self.spec_entries().len(),
    {
        self.entries.len()
    }

    /// The entries in ascending key order, consuming the mapping.
    pub fn into_entries(self) -> (r: Vec<(String, V)>)
        ensures
            r@ == self.spec_entries(),
    {
        self.entries
    }

    /// The entries in ascending key order, for iteration.
    pub fn entries(&self) -> (r: &Vec<(String, V)>)
        ensures
            r@ == self.spec_entries(),
    {
        &self.entries
    }

    /// Binds a key to a value, replacing any earlier binding of that key.
    pub fn insert(&mut self, key: String, value: V)
        requires
            old(self).spec_wf(),
        ensures
            final(self).spec_wf(),
            final(self).spec_entries() == spec_sorted_insert(old(self).spec_entries(), key, value),
            final(self)@ == old(self)@.insert(key@, value),
    {
        proof {
            lemma_sorted_insert_props(self.spec_entries(), key, value);
        }
        sorted_insert_rec(&mut self.entries, key, value);
    }

    /// Looks a key up.
    pub fn get(&self, key: &str) -> (r: Option<&V>)
        requires
            self.spec_wf(),
        ensures
            match r {
                Some(v) => self@.dom().contains(key@) && *v == self@[key@],
                None => !self@.dom().contains(key@),
            },
    {
        proof {
            lemma_map_of_entries(self.spec_entries());
        }
        let n = self.entries.len();
        let mut i: usize = 0;
        while i < n
            invariant
                i <= n,
                n == self.spec_entries().len(),
                self.spec_wf(),
                forall|k: int| 0 <= k < i ==> #[trigger] self.spec_entries()[k].0@ != key@,
            decreases n - i,
        {
            if str_eq(self.entries[i].0.as_str(), key) {
                proof {
                    lemma_map_of_entries(self.spec_entries());
                }
                return Some(&self.entries[i].1);
            }
            i = i + 1;
        }
        proof {
            lemma_map_of_entries(self.spec_entries());
        }
        None
    }
}

impl StrMap<String> {
    /// An equal mapping; entries carry heap-allocated strings, so fresh
    /// copies are made.
    pub fn duplicate(&self) -> (r: StrMap<String>)
        ensures
            r.spec_entries() == self.spec_entries(),
            r@ == self@,
            r.spec_wf() == self.spec_wf(),
    {
        let n = self.entries.len();
        let mut entries: Vec<(String, String)> = Vec::new();
        let mut i: usize = 0;
        while i < n
            invariant
                i <= n,
                n == self.entries@.len(),
                entries@ == self.entries@.take(i as int),
            decreases n - i,
        {
            entries.push((self.entries[i].0.clone(), self.entries[i].1.clone()));
            proof {
                assert(entries@ =~= self.entries@.take(i + 1));
            }
            i = i + 1;
        }
        proof {
            assert(self.entries@.take(n as int) =~= self.entries@);
        }
        StrMap { entries }
    }
}

/// Inserts into a sorted entry vector, walking back from the end exactly as
/// the specification does.
fn sorted_insert_rec<V>(entries: &mut Vec<(String, V)>, key: String, value: V)
    ensures
        final(entries)@ == spec_sorted_insert(old(entries)@, key, value),
    decreases old(entries)@.len(),
{
    let n = entries.len();
    if n == 0 {
        entries.push((key, value));
        proof {
            assert(entries@ =~= spec_sorted_insert(old(entries)@, key, value));
        }
    } else if str_lt(entries[n - 1].0.as_str(), key.as_str()) {
        entries.push((key, value));
    } else if str_eq(entries[n - 1].0.as_str(), key.as_str()) {
        let _ = entries.pop();
        entries.push((key, value));
    } else {
        match entries.pop() {
            Some(last) => {
                sorted_insert_rec(entries, key, value);
                entries.push(last);
            },
            None => {
                // not reached: the vector holds at least one entry
                entries.push((key, value));
            },
        }
    }
}

} // verus!
