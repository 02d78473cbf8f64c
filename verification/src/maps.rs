//! The engine's axis maps and element index, as verified association
//! vectors.
//!
//! `StrMap` carries the floor set and the slot-to-floor axis; `ElemMap`
//! carries the element index keyed by region identity, tag component and
//! byte range. Both keep each key at most once and are specified by the
//! finite `Map` they denote.

use vstd::prelude::*;
use crate::text::str_to_chars;
use crate::text::chars_eq;

verus! {

/// The map denoted by a sequence of string pairs, later pairs overriding
/// earlier ones.
pub open spec fn str_assoc(s: Seq<(String, String)>) -> Map<Seq<char>, Seq<char>>
    decreases s.len(),
{
    if s.len() == 0 {
        Map::empty()
    } else {
        str_assoc(s.drop_last()).insert(s.last().0@, s.last().1@)
    }
}

/// Each key occurs at most once.
pub open spec fn str_keys_unique(s: Seq<(String, String)>) -> bool {
    forall|i: int, j: int| 0 <= i < j < s.len() ==> (#[trigger] s[i]).0@ != (#[trigger] s[j]).0@
}

/// Every entry is present in the denoted map with its own value.
pub proof fn lemma_str_assoc_index(s: Seq<(String, String)>, i: int)
    requires
        str_keys_unique(s),
        0 <= i < s.len(),
    ensures
        str_assoc(s).contains_key(s[i].0@),
        str_assoc(s)[s[i].0@] == s[i].1@,
    decreases s.len(),
{
    if i < s.len() - 1 {
        let pre = s.drop_last();
        assert(str_keys_unique(pre)) by {
            assert(forall|a: int, b: int|
                0 <= a < b < pre.len() ==> pre[a] == s[a] && pre[b] == s[b]);
        }
        assert(pre[i] == s[i]);
        lemma_str_assoc_index(pre, i);
        assert(s.last() == s[s.len() - 1]);
        assert(s[s.len() - 1].0@ != s[i].0@);
    }
}

/// A key under none of the entries is not in the denoted map.
pub proof fn lemma_str_assoc_no_key(s: Seq<(String, String)>, k: Seq<char>)
    requires
        forall|i: int| 0 <= i < s.len() ==> (#[trigger] s[i]).0@ != k,
    ensures
        !str_assoc(s).contains_key(k),
    decreases s.len(),
{
    if s.len() > 0 {
        let pre = s.drop_last();
        assert(forall|i: int| 0 <= i < pre.len() ==> (#[trigger] pre[i]).0@ != k) by {
            assert(forall|i: int| 0 <= i < pre.len() ==> pre[i] == s[i]);
        }
        lemma_str_assoc_no_key(pre, k);
        assert(s.last() == s[s.len() - 1]);
    }
}


/// A key in the denoted map is the key of some entry.
pub proof fn lemma_str_assoc_contains(s: Seq<(String, String)>, k: Seq<char>)
    requires
        str_assoc(s).contains_key(k),
    ensures
        exists|i: int| 0 <= i < s.len() && (#[trigger] s[i]).0@ == k,
    decreases s.len(),
{
    if s.len() > 0 {
        if s.last().0@ == k {
            assert(s[s.len() - 1].0@ == k);
        } else {
            lemma_str_assoc_contains(s.drop_last(), k);
            let i = choose|i: int|
                0 <= i < s.drop_last().len() && (#[trigger] s.drop_last()[i]).0@ == k;
            assert(s[i].0@ == k);
        }
    }
}

/// With unique keys, the denoted map is finite and has one key per entry.
pub proof fn lemma_str_assoc_dom(s: Seq<(String, String)>)
    requires
        str_keys_unique(s),
    ensures
        str_assoc(s).dom().finite(),
        str_assoc(s).dom().len() == s.len(),
    decreases s.len(),
{
    if s.len() > 0 {
        let pre = s.drop_last();
        assert(str_keys_unique(pre)) by {
            assert(forall|a: int, b: int|
                0 <= a < b < pre.len() ==> pre[a] == s[a] && pre[b] == s[b]);
        }
        lemma_str_assoc_dom(pre);
        assert(forall|i: int| 0 <= i < pre.len() ==> (#[trigger] pre[i]).0@ != s.last().0@) by {
            assert(forall|i: int| 0 <= i < pre.len() ==> pre[i] == s[i]);
            assert(s.last() == s[s.len() - 1]);
        }
        lemma_str_assoc_no_key(pre, s.last().0@);
        assert(str_assoc(s).dom() =~= str_assoc(pre).dom().insert(s.last().0@));
    }
}

/// Overwriting one entry's value, key unchanged, denotes an insert.
pub proof fn lemma_str_assoc_update(s: Seq<(String, String)>, j: int, p: (String, String))
    requires
        str_keys_unique(s),
        0 <= j < s.len(),
        p.0@ == s[j].0@,
    ensures
        str_assoc(s.update(j, p)) == str_assoc(s).insert(p.0@, p.1@),
        str_keys_unique(s.update(j, p)),
    decreases s.len(),
{
    let t = s.update(j, p);
    assert(str_keys_unique(t)) by {
        assert(forall|a: int|
            0 <= a < t.len() ==> (#[trigger] t[a]).0@ == s[a].0@);
    }
    if j == s.len() - 1 {
        assert(t.drop_last() =~= s.drop_last());
        assert(t.last() == p);
        assert(str_assoc(s).insert(p.0@, p.1@) =~= str_assoc(s.drop_last()).insert(p.0@, p.1@))
            by {
            assert(str_assoc(s) == str_assoc(s.drop_last()).insert(s.last().0@, s.last().1@));
        }
    } else {
        let pre = s.drop_last();
        assert(str_keys_unique(pre)) by {
            assert(forall|a: int, b: int|
                0 <= a < b < pre.len() ==> pre[a] == s[a] && pre[b] == s[b]);
        }
        assert(pre[j] == s[j]);
        lemma_str_assoc_update(pre, j, p);
        assert(t.drop_last() =~= pre.update(j, p));
        assert(t.last() == s.last());
        assert(s.last().0@ != p.0@) by {
            assert(s[s.len() - 1].0@ != s[j].0@);
        }
        assert(str_assoc(t) == str_assoc(pre).insert(p.0@, p.1@).insert(
            s.last().0@,
            s.last().1@,
        ));
        assert(str_assoc(pre).insert(p.0@, p.1@).insert(s.last().0@, s.last().1@)
            =~= str_assoc(pre).insert(s.last().0@, s.last().1@).insert(p.0@, p.1@));
    }
}

/// A string-keyed, string-valued axis map with stable lookups.
#[derive(Debug, PartialEq, Eq)]
pub struct StrMap {
    entries: Vec<(String, String)>,
}

impl View for StrMap {
    type V = Map<Seq<char>, Seq<char>>;

    closed spec fn view(&self) -> Map<Seq<char>, Seq<char>> {
        str_assoc(self.entries@)
    }
}

impl StrMap {
    #[verifier::type_invariant]
    spec fn wf(self) -> bool {
        str_keys_unique(self.entries@)
    }

    /// The empty map.
    pub fn new() -> (r: StrMap)
        ensures
            r@ == Map::<Seq<char>, Seq<char>>::empty(),
    {
        StrMap { entries: Vec::new() }
    }

    /// The map extended (or overwritten) at `k`; later writes win.
    pub fn insert(self, k: String, v: String) -> (r: StrMap)
        ensures
            r@ == self@.insert(k@, v@),
    {
        proof {
            use_type_invariant(&self);
        }
        let mut entries = self.entries;
        let n = entries.len();
        let mut j: usize = 0;
        while j < n
            invariant
                n == entries.len(),
                entries@ == self.entries@,
                str_keys_unique(entries@),
                forall|m: int| 0 <= m < j ==> (#[trigger] entries@[m]).0@ != k@,
            decreases n - j,
        {
            let hit = {
                let pair = &entries[j];
                let kc = str_to_chars(k.as_str());
                let pc = str_to_chars(pair.0.as_str());
                chars_eq(&pc, &kc)
            };
            if hit {
                let ghost old_entries = entries@;
                entries.set(j, (k, v));
                proof {
                    lemma_str_assoc_update(old_entries, j as int, entries@[j as int]);
                }
                return StrMap { entries };
            }
            j = j + 1;
        }
        let ghost old_entries = entries@;
        entries.push((k, v));
        proof {
            assert(entries@.drop_last() =~= old_entries);
            assert(str_keys_unique(entries@)) by {
                assert(forall|a: int|
                    0 <= a < old_entries.len() ==> (#[trigger] entries@[a]) == old_entries[a]);
            }
        }
        StrMap { entries }
    }

    /// Looks a key up.
    pub fn get(&self, k: &str) -> (r: Option<String>)
        ensures
            match r {
                Some(v) => self@.contains_key(k@) && v@ == self@[k@],
                None => !self@.contains_key(k@),
            },
    {
        proof {
            use_type_invariant(self);
        }
        let kc = str_to_chars(k);
        let n = self.entries.len();
        let mut j: usize = 0;
        while j < n
            invariant
                n == self.entries.len(),
                kc@ == k@,
                forall|m: int| 0 <= m < j ==> (#[trigger] self.entries@[m]).0@ != k@,
                str_keys_unique(self.entries@),
            decreases n - j,
        {
            let pair = &self.entries[j];
            let pc = str_to_chars(pair.0.as_str());
            if chars_eq(&pc, &kc) {
                proof {
                    lemma_str_assoc_index(self.entries@, j as int);
                }
                return Some(pair.1.clone());
            }
            j = j + 1;
        }
        proof {
            lemma_str_assoc_no_key(self.entries@, k@);
        }
        None
    }

    /// Whether a key is present.
    pub fn contains_key(&self, k: &str) -> (r: bool)
        ensures
            r == self@.contains_key(k@),
    {
        match self.get(k) {
            Some(_) => true,
            None => false,
        }
    }

    /// How many keys the map holds.
    pub fn len(&self) -> (r: usize)
        ensures
            self@.dom().finite(),
            r == self@.dom().len(),
    {
        proof {
            use_type_invariant(self);
            lemma_str_assoc_dom(self.entries@);
        }
        self.entries.len()
    }

    /// A verified copy.
    pub fn duplicate(&self) -> (r: StrMap)
        ensures
            r@ == self@,
    {
        proof {
            use_type_invariant(self);
        }
        let mut entries: Vec<(String, String)> = Vec::new();
        let n = self.entries.len();
        let mut j: usize = 0;
        while j < n
            invariant
                n == self.entries.len(),
                j <= n,
                j == entries.len(),
                forall|m: int| 0 <= m < j ==> (#[trigger] entries@[m]) == self.entries@[m],
            decreases n - j,
        {
            let pair = &self.entries[j];
            entries.push((pair.0.clone(), pair.1.clone()));
            j = j + 1;
        }
        proof {
            assert(entries@ =~= self.entries@);
            assert(str_keys_unique(entries@));
        }
        StrMap { entries }
    }

    /// The map's keys in entry order: one position per key, no repeats,
    /// and together exactly the map's domain.
    pub closed spec fn key_seq(&self) -> Seq<Seq<char>> {
        self.entries@.map_values(|p: (String, String)| p.0@)
    }

    /// The key at one position of the enumeration. The remaining ensures
    /// make the enumeration complete: positions `0..len` yield each key
    /// of the domain exactly once.
    pub fn key_at(&self, j: usize) -> (r: String)
        ensures
            self@.dom().finite(),
            self.key_seq().len() == self@.dom().len(),
            self.key_seq().no_duplicates(),
            forall|k: Seq<char>| #[trigger] self.key_seq().contains(k) <==> self@.contains_key(k),
            j < self.key_seq().len() ==> r@ == self.key_seq()[j as int],
    {
        proof {
            use_type_invariant(self);
            lemma_str_assoc_dom(self.entries@);
            let ks = self.key_seq();
            assert(ks.no_duplicates()) by {
                assert(forall|a: int, b: int|
                    0 <= a < b < ks.len() ==> ks[a] == (#[trigger] self.entries@[a]).0@ && ks[b]
                        == (#[trigger] self.entries@[b]).0@);
            }
            assert forall|k: Seq<char>| #[trigger] ks.contains(k) implies self@.contains_key(
                k,
            ) by {
                let a = choose|a: int| 0 <= a < ks.len() && ks[a] == k;
                assert(self.entries@[a].0@ == k);
                lemma_str_assoc_index(self.entries@, a);
            }
            assert forall|k: Seq<char>| self@.contains_key(k) implies ks.contains(k) by {
                lemma_str_assoc_contains(self.entries@, k);
                let a = choose|a: int|
                    0 <= a < self.entries@.len() && (#[trigger] self.entries@[a]).0@ == k;
                assert(ks[a] == k);
            }
        }
        if j < self.entries.len() {
            self.entries[j].0.clone()
        } else {
            String::new()
        }
    }
}

/// One element-index entry: region identity, tag component, and the
/// `(start, end)` range of the defining attribute match.
pub type ElemEntry = (String, String, usize, usize);

/// The mathematical key of an element-index entry.
pub open spec fn elem_key(e: ElemEntry) -> (Seq<char>, Seq<char>, int, int) {
    (e.0@, e.1@, e.2 as int, e.3 as int)
}

/// The map denoted by a sequence of element-index entries; every entry is
/// recorded as observed.
pub open spec fn elem_assoc(s: Seq<ElemEntry>) -> Map<(Seq<char>, Seq<char>, int, int), bool>
    decreases s.len(),
{
    if s.len() == 0 {
        Map::empty()
    } else {
        elem_assoc(s.drop_last()).insert(elem_key(s.last()), true)
    }
}

/// Each key occurs at most once.
pub open spec fn elem_keys_unique(s: Seq<ElemEntry>) -> bool {
    forall|i: int, j: int|
        0 <= i < j < s.len() ==> elem_key(#[trigger] s[i]) != elem_key(#[trigger] s[j])
}

/// Every entry is present in the denoted map, marked observed.
pub proof fn lemma_elem_assoc_index(s: Seq<ElemEntry>, i: int)
    requires
        0 <= i < s.len(),
    ensures
        elem_assoc(s).contains_key(elem_key(s[i])),
        elem_assoc(s)[elem_key(s[i])] == true,
    decreases s.len(),
{
    if i < s.len() - 1 {
        let pre = s.drop_last();
        assert(pre[i] == s[i]);
        lemma_elem_assoc_index(pre, i);
        if elem_key(s.last()) != elem_key(s[i]) {
        }
    }
}

/// A key under none of the entries is not in the denoted map.
pub proof fn lemma_elem_assoc_no_key(s: Seq<ElemEntry>, k: (Seq<char>, Seq<char>, int, int))
    requires
        forall|i: int| 0 <= i < s.len() ==> elem_key(#[trigger] s[i]) != k,
    ensures
        !elem_assoc(s).contains_key(k),
    decreases s.len(),
{
    if s.len() > 0 {
        let pre = s.drop_last();
        assert(forall|i: int| 0 <= i < pre.len() ==> elem_key(#[trigger] pre[i]) != k) by {
            assert(forall|i: int| 0 <= i < pre.len() ==> pre[i] == s[i]);
        }
        lemma_elem_assoc_no_key(pre, k);
        assert(s.last() == s[s.len() - 1]);
    }
}

/// With unique keys, the denoted map is finite and has one key per entry.
pub proof fn lemma_elem_assoc_dom(s: Seq<ElemEntry>)
    requires
        elem_keys_unique(s),
    ensures
        elem_assoc(s).dom().finite(),
        elem_assoc(s).dom().len() == s.len(),
    decreases s.len(),
{
    if s.len() > 0 {
        let pre = s.drop_last();
        assert(elem_keys_unique(pre)) by {
            assert(forall|a: int, b: int|
                0 <= a < b < pre.len() ==> pre[a] == s[a] && pre[b] == s[b]);
        }
        lemma_elem_assoc_dom(pre);
        assert(forall|i: int|
            0 <= i < pre.len() ==> elem_key(#[trigger] pre[i]) != elem_key(s.last())) by {
            assert(forall|i: int| 0 <= i < pre.len() ==> pre[i] == s[i]);
            assert(s.last() == s[s.len() - 1]);
        }
        lemma_elem_assoc_no_key(pre, elem_key(s.last()));
        assert(elem_assoc(s).dom() =~= elem_assoc(pre).dom().insert(elem_key(s.last())));
    }
}

/// The element index: which (region identity, component, range)
/// associations have been observed. It accumulates across derivations.
#[derive(Debug, PartialEq, Eq)]
pub struct ElemMap {
    entries: Vec<ElemEntry>,
}

impl View for ElemMap {
    type V = Map<(Seq<char>, Seq<char>, int, int), bool>;

    closed spec fn view(&self) -> Map<(Seq<char>, Seq<char>, int, int), bool> {
        elem_assoc(self.entries@)
    }
}

impl ElemMap {
    #[verifier::type_invariant]
    spec fn wf(self) -> bool {
        elem_keys_unique(self.entries@)
    }

    /// The empty index.
    pub fn new() -> (r: ElemMap)
        ensures
            r@ == Map::<(Seq<char>, Seq<char>, int, int), bool>::empty(),
    {
        ElemMap { entries: Vec::new() }
    }

    /// The index with one association recorded.
    pub fn insert(self, region_id: String, comp: String, start: usize, end: usize) -> (r: ElemMap)
        ensures
            r@ == self@.insert((region_id@, comp@, start as int, end as int), true),
    {
        proof {
            use_type_invariant(&self);
        }
        let ghost key = (region_id@, comp@, start as int, end as int);
        let mut entries = self.entries;
        let n = entries.len();
        let mut j: usize = 0;
        while j < n
            invariant
                n == entries.len(),
                entries@ == self.entries@,
                elem_keys_unique(entries@),
                forall|m: int| 0 <= m < j ==> elem_key(#[trigger] entries@[m]) != key,
                key == (region_id@, comp@, start as int, end as int),
            decreases n - j,
        {
            let hit = {
                let e = &entries[j];
                if e.2 == start && e.3 == end {
                    let rc = str_to_chars(region_id.as_str());
                    let ec = str_to_chars(e.0.as_str());
                    if chars_eq(&ec, &rc) {
                        let cc = str_to_chars(comp.as_str());
                        let oc = str_to_chars(e.1.as_str());
                        chars_eq(&oc, &cc)
                    } else {
                        false
                    }
                } else {
                    false
                }
            };
            if hit {
                proof {
                    lemma_elem_assoc_index(entries@, j as int);
                    assert(elem_key(entries@[j as int]) == key);
                    assert(elem_assoc(entries@).insert(key, true) =~= elem_assoc(entries@));
                }
                return ElemMap { entries };
            }
            j = j + 1;
        }
        let ghost old_entries = entries@;
        entries.push((region_id, comp, start, end));
        proof {
            assert(entries@.drop_last() =~= old_entries);
            assert(elem_key(entries@.last()) == key);
            assert(elem_keys_unique(entries@)) by {
                assert(forall|a: int|
                    0 <= a < old_entries.len() ==> (#[trigger] entries@[a]) == old_entries[a]);
            }
        }
        ElemMap { entries }
    }

    /// Whether one association has been observed.
    pub fn contains(&self, region_id: &str, comp: &str, start: usize, end: usize) -> (r: bool)
        ensures
            r == self@.contains_key((region_id@, comp@, start as int, end as int)),
    {
        proof {
            use_type_invariant(self);
        }
        let ghost key = (region_id@, comp@, start as int, end as int);
        let rc = str_to_chars(region_id);
        let cc = str_to_chars(comp);
        let n = self.entries.len();
        let mut j: usize = 0;
        while j < n
            invariant
                n == self.entries.len(),
                rc@ == region_id@,
                cc@ == comp@,
                key == (region_id@, comp@, start as int, end as int),
                forall|m: int| 0 <= m < j ==> elem_key(#[trigger] self.entries@[m]) != key,
            decreases n - j,
        {
            let hit = {
                let e = &self.entries[j];
                if e.2 == start && e.3 == end {
                    let ec = str_to_chars(e.0.as_str());
                    if chars_eq(&ec, &rc) {
                        let oc = str_to_chars(e.1.as_str());
                        chars_eq(&oc, &cc)
                    } else {
                        false
                    }
                } else {
                    false
                }
            };
            if hit {
                proof {
                    lemma_elem_assoc_index(self.entries@, j as int);
                }
                return true;
            }
            j = j + 1;
        }
        proof {
            lemma_elem_assoc_no_key(self.entries@, key);
        }
        false
    }

    /// How many associations the index holds.
    pub fn len(&self) -> (r: usize)
        ensures
            self@.dom().finite(),
            r == self@.dom().len(),
    {
        proof {
            use_type_invariant(self);
            lemma_elem_assoc_dom(self.entries@);
        }
        self.entries.len()
    }

    /// A verified copy.
    pub fn duplicate(&self) -> (r: ElemMap)
        ensures
            r@ == self@,
    {
        proof {
            use_type_invariant(self);
        }
        let mut entries: Vec<ElemEntry> = Vec::new();
        let n = self.entries.len();
        let mut j: usize = 0;
        while j < n
            invariant
                n == self.entries.len(),
                j <= n,
                j == entries.len(),
                forall|m: int| 0 <= m < j ==> (#[trigger] entries@[m]) == self.entries@[m],
            decreases n - j,
        {
            let e = &self.entries[j];
            entries.push((e.0.clone(), e.1.clone(), e.2, e.3));
            j = j + 1;
        }
        proof {
            assert(entries@ =~= self.entries@);
            assert(elem_keys_unique(entries@));
        }
        ElemMap { entries }
    }
}

} // verus!
