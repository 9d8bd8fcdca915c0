//! Small collections keyed by strings: a map and a set whose keys never repeat.
use vstd::prelude::*;

verus! {

/// The views of a sequence of strings.
pub open spec fn string_views(s: Seq<String>) -> Seq<Seq<char>> {
    s.map_values(|x: String| x@)
}

/// In a sequence without repeats, an element's index is the one `index_of` picks.
pub proof fn lemma_unique_index(s: Seq<Seq<char>>, j: int)
    requires
        s.no_duplicates(),
        0 <= j < s.len(),
    ensures
        s.contains(s[j]),
        s.index_of(s[j]) == j,
{
    assert(s.contains(s[j]));
}

/// A map from strings to values; each key occurs once.
#[derive(Debug)]
pub struct StrMap<V> {
    keys: Vec<String>,
    vals: Vec<V>,
}

impl<V> View for StrMap<V> {
    type V = Map<Seq<char>, V>;

    closed spec fn view(&self) -> Map<Seq<char>, V> {
        Map::new(
            |k: Seq<char>| string_views(self.keys@).contains(k),
            |k: Seq<char>| self.vals@[string_views(self.keys@).index_of(k)],
        )
    }
}

impl<V> StrMap<V> {
    #[verifier::type_invariant]
    closed spec fn keys_unique(self) -> bool {
        &&& self.keys@.len() == self.vals@.len()
        &&& string_views(self.keys@).no_duplicates()
    }

    /// The empty map.
    pub fn new() -> (m: Self)
        ensures
            m@ == Map::<Seq<char>, V>::empty(),
    {
        let m = StrMap { keys: Vec::new(), vals: Vec::new() };
        assert(m@ =~= Map::<Seq<char>, V>::empty());
        m
    }

    /// The position of `key`, if present.
    fn find(&self, key: &str) -> (r: Option<usize>)
        ensures
            match r {
                Some(i) => {
                    &&& i < self.keys@.len()
                    &&& self.keys@[i as int]@ == key@
                    &&& self@.contains_key(key@)
                    &&& self@[key@] == self.vals@[i as int]
                },
                None => !self@.contains_key(key@),
            },
    {
        proof {
            use_type_invariant(self);
        }
        let k = key.to_owned();
        let mut i: usize = 0;
        while i < self.keys.len()
            invariant
                i <= self.keys@.len(),
                k@ == key@,
                self.keys@.len() == self.vals@.len(),
                string_views(self.keys@).no_duplicates(),
                forall|j: int| 0 <= j < i ==> self.keys@[j]@ != key@,
            decreases self.keys@.len() - i,
        {
            if self.keys[i] == k {
                let ghost ks = string_views(self.keys@);
                assert(ks[i as int] == key@);
                assert(ks.contains(key@));
                assert(ks.index_of(key@) == i as int);
                return Some(i);
            }
            i += 1;
        }
        assert(!string_views(self.keys@).contains(key@));
        None
    }

    /// The value stored under `key`.
    pub fn get(&self, key: &str) -> (r: Option<&V>)
        ensures
            match r {
                Some(v) => self@.contains_key(key@) && *v == self@[key@],
                None => !self@.contains_key(key@),
            },
    {
        proof {
            use_type_invariant(self);
        }
        match self.find(key) {
            Some(i) => Some(&self.vals[i]),
            None => None,
        }
    }

    /// Whether `key` is present.
    pub fn contains_key(&self, key: &str) -> (r: bool)
        ensures
            r == self@.contains_key(key@),
    {
        self.find(key).is_some()
    }

    /// Stores `value` under `key`, giving back the value it replaces.
    pub fn insert(&mut self, key: String, value: V) -> (r: Option<V>)
        ensures
            final(self)@ == old(self)@.insert(key@, value),
            match r {
                Some(v) => old(self)@.contains_key(key@) && v == old(self)@[key@],
                None => !old(self)@.contains_key(key@),
            },
    {
        proof {
            use_type_invariant(&*self);
        }
        let ghost old_ks = string_views(self.keys@);
        let ghost old_vals = self.vals@;
        let ghost old_map = self@;
        let found = self.find(key.as_str());
        let mut whole = StrMap::new();
        std::mem::swap(&mut whole, self);
        let StrMap { mut keys, mut vals } = whole;
        match found {
            Some(i) => {
                let old_v = vals.remove(i);
                vals.insert(i, value);
                proof {
                    assert(vals@ =~= old_vals.update(i as int, value));
                    assert(string_views(keys@) == old_ks);
                    lemma_unique_index(old_ks, i as int);
                    assert forall|k: Seq<char>| #[trigger] old_ks.contains(k) && k != key@ implies
                        old_ks.index_of(k) != i as int by {}
                }
                *self = StrMap { keys, vals };
                assert(self@ =~= old_map.insert(key@, value));
                Some(old_v)
            },
            None => {
                keys.push(key);
                vals.push(value);
                let ghost ks = string_views(keys@);
                proof {
                    assert(ks =~= old_ks.push(key@));
                    assert(!old_ks.contains(key@));
                    assert forall|a: int, b: int|
                        0 <= a < ks.len() && 0 <= b < ks.len() && a != b implies ks[a] != ks[b] by {
                        if a == ks.len() - 1 {
                            assert(old_ks[b] == ks[b]);
                        } else if b == ks.len() - 1 {
                            assert(old_ks[a] == ks[a]);
                        }
                    }
                    lemma_unique_index(ks, ks.len() - 1);
                    assert forall|k: Seq<char>| #[trigger] old_ks.contains(k) implies
                        ks.contains(k) && ks.index_of(k) == old_ks.index_of(k) by {
                        let j = old_ks.index_of(k);
                        lemma_unique_index(old_ks, j);
                        assert(ks[j] == k);
                        lemma_unique_index(ks, j);
                    }
                    assert forall|k: Seq<char>| #[trigger] ks.contains(k) implies
                        old_ks.contains(k) || k == key@ by {
                        let j = choose|j: int| 0 <= j < ks.len() && ks[j] == k;
                        if j < old_ks.len() {
                            assert(old_ks[j] == k);
                        }
                    }
                }
                *self = StrMap { keys, vals };
                assert(self@ =~= old_map.insert(key@, value));
                None
            },
        }
    }

    /// Removes `key`, giving back the value it held.
    pub fn remove(&mut self, key: &str) -> (r: Option<V>)
        ensures
            final(self)@ == old(self)@.remove(key@),
            match r {
                Some(v) => old(self)@.contains_key(key@) && v == old(self)@[key@],
                None => !old(self)@.contains_key(key@),
            },
    {
        proof {
            use_type_invariant(&*self);
        }
        let ghost old_map = self@;
        let ghost old_ks = string_views(self.keys@);
        let ghost old_vals = self.vals@;
        match self.find(key) {
            Some(i) => {
                let mut whole = StrMap::new();
                std::mem::swap(&mut whole, self);
                let StrMap { mut keys, mut vals } = whole;
                let _ = keys.remove(i);
                let v = vals.remove(i);
                let ghost ks = string_views(keys@);
                proof {
                    assert(ks =~= old_ks.remove(i as int));
                    assert(ks.no_duplicates()) by {
                        assert forall|a: int, b: int| 0 <= a < ks.len() && 0 <= b < ks.len() && a != b implies ks[a] != ks[b] by {
                            let oa = if a < i { a } else { a + 1 };
                            let ob = if b < i { b } else { b + 1 };
                            assert(ks[a] == old_ks[oa] && ks[b] == old_ks[ob]);
                        }
                    }
                    assert forall|k: Seq<char>| #[trigger] ks.contains(k) implies
                        old_ks.contains(k) && k != key@ && vals@[ks.index_of(k)] == old_vals[old_ks.index_of(k)] by {
                        let j = ks.index_of(k);
                        lemma_unique_index(ks, j);
                        let oj = if j < i { j } else { j + 1 };
                        assert(old_ks[oj] == k);
                        lemma_unique_index(old_ks, oj);
                        lemma_unique_index(old_ks, i as int);
                    }
                    assert forall|k: Seq<char>| #[trigger] old_ks.contains(k) && k != key@ implies
                        ks.contains(k) by {
                        let j = old_ks.index_of(k);
                        lemma_unique_index(old_ks, j);
                        lemma_unique_index(old_ks, i as int);
                        if j < i {
                            assert(ks[j] == k);
                        } else {
                            assert(ks[j - 1] == k);
                        }
                    }
                }
                *self = StrMap { keys, vals };
                assert(self@ =~= old_map.remove(key@));
                Some(v)
            },
            None => {
                assert(self@ =~= old_map.remove(key@));
                None
            },
        }
    }

    /// The keys, each once.
    pub fn keys(&self) -> (r: Vec<String>)
        ensures
            string_views(r@).to_set() == self@.dom(),
            string_views(r@).no_duplicates(),
    {
        proof {
            use_type_invariant(self);
        }
        let mut r: Vec<String> = Vec::new();
        let mut i: usize = 0;
        while i < self.keys.len()
            invariant
                i <= self.keys@.len(),
                string_views(r@) == string_views(self.keys@).take(i as int),
                self.keys@.len() == self.vals@.len(),
                string_views(self.keys@).no_duplicates(),
            decreases self.keys@.len() - i,
        {
            let k = self.keys[i].clone();
            let ghost old_r = r@;
            r.push(k);
            assert(r@ == old_r.push(self.keys@[i as int]));
            assert(string_views(r@) =~= string_views(old_r).push(self.keys@[i as int]@));
            assert(string_views(self.keys@).take(i + 1) =~= string_views(self.keys@).take(i as int).push(self.keys@[i as int]@));
            i += 1;
        }
        assert(string_views(self.keys@).take(i as int) =~= string_views(self.keys@));
        assert(string_views(r@).to_set() =~= self@.dom());
        r
    }
}

impl<V> Default for StrMap<V> {
    fn default() -> (m: Self)
        ensures
            m@ == Map::<Seq<char>, V>::empty(),
    {
        StrMap::new()
    }
}

/// A set of strings; each occurs once.
#[derive(Debug)]
pub struct StrSet {
    items: Vec<String>,
}

impl View for StrSet {
    type V = Set<Seq<char>>;

    closed spec fn view(&self) -> Set<Seq<char>> {
        string_views(self.items@).to_set()
    }
}

impl StrSet {
    #[verifier::type_invariant]
    closed spec fn items_unique(self) -> bool {
        string_views(self.items@).no_duplicates()
    }

    /// The empty set.
    pub fn new() -> (s: Self)
        ensures
            s@ == Set::<Seq<char>>::empty(),
    {
        let s = StrSet { items: Vec::new() };
        assert(s@ =~= Set::<Seq<char>>::empty());
        s
    }

    fn find(&self, item: &str) -> (r: Option<usize>)
        ensures
            match r {
                Some(i) => i < self.items@.len() && self.items@[i as int]@ == item@ && self@.contains(item@),
                None => !self@.contains(item@),
            },
    {
        let k = item.to_owned();
        let mut i: usize = 0;
        while i < self.items.len()
            invariant
                i <= self.items@.len(),
                k@ == item@,
                forall|j: int| 0 <= j < i ==> self.items@[j]@ != item@,
            decreases self.items@.len() - i,
        {
            if self.items[i] == k {
                assert(string_views(self.items@)[i as int] == item@);
                return Some(i);
            }
            i += 1;
        }
        None
    }

    /// Whether `item` is a member.
    pub fn contains(&self, item: &str) -> (r: bool)
        ensures
            r == self@.contains(item@),
    {
        self.find(item).is_some()
    }

    /// Adds `item`; true when it was not yet a member.
    pub fn insert(&mut self, item: String) -> (r: bool)
        ensures
            final(self)@ == old(self)@.insert(item@),
            r == !old(self)@.contains(item@),
    {
        proof {
            use_type_invariant(&*self);
        }
        let ghost old_ks = string_views(self.items@);
        match self.find(item.as_str()) {
            Some(_) => {
                assert(self@ =~= self@.insert(item@));
                false
            },
            None => {
                let mut whole = StrSet::new();
                std::mem::swap(&mut whole, self);
                let StrSet { mut items } = whole;
                items.push(item);
                proof {
                    let ks = string_views(items@);
                    assert(ks =~= old_ks.push(item@));
                    assert forall|a: int, b: int|
                        0 <= a < ks.len() && 0 <= b < ks.len() && a != b implies ks[a] != ks[b] by {
                        if a == ks.len() - 1 {
                            assert(old_ks[b] == ks[b]);
                        } else if b == ks.len() - 1 {
                            assert(old_ks[a] == ks[a]);
                        }
                    }
                    assert(ks.to_set() =~= old_ks.to_set().insert(item@)) by {
                        assert(ks[ks.len() - 1] == item@);
                        assert forall|k: Seq<char>| old_ks.to_set().contains(k) implies ks.to_set().contains(k) by {
                            let j = choose|j: int| 0 <= j < old_ks.len() && old_ks[j] == k;
                            assert(ks[j] == k);
                        }
                    }
                }
                *self = StrSet { items };
                true
            },
        }
    }

    /// Removes `item`; true when it was a member.
    pub fn remove(&mut self, item: &str) -> (r: bool)
        ensures
            final(self)@ == old(self)@.remove(item@),
            r == old(self)@.contains(item@),
    {
        proof {
            use_type_invariant(&*self);
        }
        let ghost old_ks = string_views(self.items@);
        match self.find(item) {
            Some(i) => {
                let mut whole = StrSet::new();
                std::mem::swap(&mut whole, self);
                let StrSet { mut items } = whole;
                let _ = items.remove(i);
                proof {
                    let ks = string_views(items@);
                    assert(ks =~= old_ks.remove(i as int));
                    lemma_unique_index(old_ks, i as int);
                    assert forall|k: Seq<char>| #[trigger] ks.contains(k) implies old_ks.contains(k) && k != item@ by {
                        let j = choose|j: int| 0 <= j < ks.len() && ks[j] == k;
                        let oj = if j < i { j } else { j + 1 };
                        assert(old_ks[oj] == k);
                    }
                    assert forall|k: Seq<char>| #[trigger] old_ks.contains(k) && k != item@ implies ks.contains(k) by {
                        let j = choose|j: int| 0 <= j < old_ks.len() && old_ks[j] == k;
                        if j < i { assert(ks[j] == k); } else { assert(ks[j - 1] == k); }
                    }
                    assert(ks.to_set() =~= old_ks.to_set().remove(item@));
                    assert(ks.no_duplicates()) by {
                        assert forall|a: int, b: int| 0 <= a < ks.len() && 0 <= b < ks.len() && a != b implies ks[a] != ks[b] by {
                            let oa = if a < i { a } else { a + 1 };
                            let ob = if b < i { b } else { b + 1 };
                            assert(ks[a] == old_ks[oa] && ks[b] == old_ks[ob]);
                        }
                    }
                }
                *self = StrSet { items };
                true
            },
            None => {
                assert(self@ =~= old_ks.to_set().remove(item@));
                false
            },
        }
    }

    /// The members, each once.
    pub fn to_vec(&self) -> (r: Vec<String>)
        ensures
            string_views(r@).to_set() == self@,
            string_views(r@).no_duplicates(),
    {
        proof {
            use_type_invariant(self);
        }
        let mut r: Vec<String> = Vec::new();
        let mut i: usize = 0;
        while i < self.items.len()
            invariant
                i <= self.items@.len(),
                string_views(r@) == string_views(self.items@).take(i as int),
                string_views(self.items@).no_duplicates(),
            decreases self.items@.len() - i,
        {
            let k = self.items[i].clone();
            let ghost old_r = r@;
            r.push(k);
            assert(r@ == old_r.push(self.items@[i as int]));
            assert(string_views(r@) =~= string_views(old_r).push(self.items@[i as int]@));
            assert(string_views(self.items@).take(i + 1) =~= string_views(self.items@).take(i as int).push(self.items@[i as int]@));
            i += 1;
        }
        assert(string_views(self.items@).take(i as int) =~= string_views(self.items@));
        r
    }
}

impl Default for StrSet {
    fn default() -> (s: Self)
        ensures
            s@ == Set::<Seq<char>>::empty(),
    {
        StrSet::new()
    }
}

} // verus!
