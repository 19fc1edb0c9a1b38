//! Small keyed collections over 32-byte keys: a set of keys, and a table
//! from keys to values.

use vstd::prelude::*;
use crate::bytes::{bytes_eq, h256_eq, h256_lt, lex_lt, lemma_lex_irreflexive, lemma_lex_total, lemma_lex_transitive, H256};
use crate::peer_manager::vec_views;
use crate::peer_stats::key_views;

verus! {

/// The position of `key` in `keys`, if it is there.
pub fn find_key(keys: &Vec<H256>, key: &H256) -> (r: Option<usize>)
    ensures
        r is None ==> !key_views(keys@).contains(key@),
        r matches Some(i) ==> i < keys@.len() && keys@[i as int]@ == key@,
{
    let mut i: usize = 0;
    while i < keys.len()
        invariant
            i <= keys@.len(),
            forall|j: int| 0 <= j < i ==> keys@[j]@ != key@,
        decreases keys@.len() - i,
    {
        if h256_eq(&keys[i], key) {
            return Some(i);
        }
        i = i + 1;
    }
    proof {
        let kv = key_views(keys@);
        if kv.contains(key@) {
            let j = choose|j: int| 0 <= j < kv.len() && kv[j] == key@;
            assert(keys@[j]@ == key@);
        }
    }
    None
}

proof fn lemma_key_views_remove(keys: Seq<H256>, i: int)
    requires
        key_views(keys).no_duplicates(),
        0 <= i < keys.len(),
    ensures
        key_views(keys.remove(i)).no_duplicates(),
        key_views(keys.remove(i)).to_set() == key_views(keys).to_set().remove(keys[i]@),
{
    let kv = key_views(keys);
    let nk = key_views(keys.remove(i));
    assert(nk =~= kv.remove(i));
    assert forall|a: int, b: int| 0 <= a < b < nk.len() implies nk[a] != nk[b] by {
        let oa = if a < i { a } else { a + 1 };
        let ob = if b < i { b } else { b + 1 };
        assert(nk[a] == kv[oa] && nk[b] == kv[ob]);
    }
    assert forall|k: Seq<u8>| nk.to_set().contains(k) <==> kv.to_set().remove(keys[i]@).contains(k) by {
        if nk.contains(k) {
            let w = choose|w: int| 0 <= w < nk.len() && nk[w] == k;
            let ow = if w < i { w } else { w + 1 };
            assert(kv[ow] == k);
            assert(kv[i] == keys[i]@);
        }
        if kv.contains(k) && k != keys[i]@ {
            let ow = choose|ow: int| 0 <= ow < kv.len() && kv[ow] == k;
            assert(ow != i);
            let w = if ow < i { ow } else { ow - 1 };
            assert(nk[w] == k);
        }
    }
    assert(nk.to_set() =~= kv.to_set().remove(keys[i]@));
}

proof fn lemma_key_views_push(keys: Seq<H256>, key: H256)
    requires
        key_views(keys).no_duplicates(),
        !key_views(keys).contains(key@),
    ensures
        key_views(keys.push(key)).no_duplicates(),
        key_views(keys.push(key)).to_set() == key_views(keys).to_set().insert(key@),
{
    let kv = key_views(keys);
    let nk = key_views(keys.push(key));
    assert(nk =~= kv.push(key@));
    assert forall|a: int, b: int| 0 <= a < b < nk.len() implies nk[a] != nk[b] by {
        if b == kv.len() { assert(kv.contains(kv[a])); }
    }
    kv.lemma_push_to_set_commute(key@);
}

/// A set of keys.
pub struct KeySet {
    keys: Vec<H256>,
}

impl KeySet {
    /// The keys in the set.
    pub closed spec fn view(&self) -> Set<Seq<u8>> {
        key_views(self.keys@).to_set()
    }

    /// No key is held twice.
    pub closed spec fn wf(&self) -> bool {
        key_views(self.keys@).no_duplicates()
    }

    /// An empty set.
    pub fn new() -> (r: KeySet)
        ensures
            r.wf(),
            r.view() == Set::<Seq<u8>>::empty(),
    {
        let r = KeySet { keys: Vec::new() };
        assert(r.view() =~= Set::<Seq<u8>>::empty());
        r
    }

    /// Whether `key` is in the set.
    pub fn contains(&self, key: &H256) -> (r: bool)
        ensures
            r == self.view().contains(key@),
    {
        match find_key(&self.keys, key) {
            None => false,
            Some(i) => {
                assert(key_views(self.keys@)[i as int] == key@);
                true
            },
        }
    }

    /// Adds `key`; returns whether it was absent.
    pub fn insert(&mut self, key: H256) -> (r: bool)
        requires
            old(self).wf(),
        ensures
            final(self).wf(),
            r == !old(self).view().contains(key@),
            final(self).view() == old(self).view().insert(key@),
    {
        match find_key(&self.keys, &key) {
            Some(i) => {
                proof {
                    assert(key_views(self.keys@)[i as int] == key@);
                    assert(self.view().insert(key@) =~= self.view());
                }
                false
            },
            None => {
                proof { lemma_key_views_push(self.keys@, key); }
                self.keys.push(key);
                true
            },
        }
    }

    /// Removes `key`; returns whether it was present.
    pub fn remove(&mut self, key: &H256) -> (r: bool)
        requires
            old(self).wf(),
        ensures
            final(self).wf(),
            r == old(self).view().contains(key@),
            final(self).view() == old(self).view().remove(key@),
    {
        match find_key(&self.keys, key) {
            Some(i) => {
                proof {
                    assert(key_views(self.keys@)[i as int] == key@);
                    lemma_key_views_remove(self.keys@, i as int);
                }
                self.keys.remove(i);
                true
            },
            None => {
                proof { assert(self.view().remove(key@) =~= self.view()); }
                false
            },
        }
    }

    /// The keys of the set, each once.
    pub fn elements(&self) -> (r: Vec<H256>)
        requires
            self.wf(),
        ensures
            key_views(r@).no_duplicates(),
            key_views(r@).to_set() == self.view(),
    {
        let mut r: Vec<H256> = Vec::new();
        let mut k: usize = 0;
        while k < self.keys.len()
            invariant
                k <= self.keys@.len(),
                r@ == self.keys@.take(k as int),
            decreases self.keys@.len() - k,
        {
            r.push(self.keys[k]);
            proof { assert(self.keys@.take(k + 1) =~= self.keys@.take(k as int).push(self.keys@[k as int])); }
            k = k + 1;
        }
        assert(self.keys@.take(k as int) =~= self.keys@);
        r
    }
}

/// A table from keys to values.
pub struct KeyTable<V> {
    keys: Vec<H256>,
    vals: Vec<V>,
}

impl<V> KeyTable<V> {
    /// Each key with its value.
    pub closed spec fn view(&self) -> Map<Seq<u8>, V> {
        Map::new(
            |k: Seq<u8>| key_views(self.keys@).contains(k),
            |k: Seq<u8>| self.vals@[key_views(self.keys@).index_of(k)],
        )
    }

    /// Keys are unique and each has a value.
    pub closed spec fn wf(&self) -> bool {
        &&& self.keys@.len() == self.vals@.len()
        &&& key_views(self.keys@).no_duplicates()
    }

    proof fn lemma_index_of(&self, i: int)
        requires
            self.wf(),
            0 <= i < self.keys@.len(),
        ensures
            self.view().contains_key(self.keys@[i]@),
            self.view()[self.keys@[i]@] == self.vals@[i],
    {
        let kv = key_views(self.keys@);
        assert(kv[i] == self.keys@[i]@);
        assert(kv.contains(self.keys@[i]@));
        let j = kv.index_of(self.keys@[i]@);
        assert(0 <= j < kv.len() && kv[j] == kv[i]);
    }

    /// An empty table.
    pub fn new() -> (r: KeyTable<V>)
        ensures
            r.wf(),
            r.view().dom() == Set::<Seq<u8>>::empty(),
    {
        let r = KeyTable { keys: Vec::new(), vals: Vec::new() };
        assert(r.view().dom() =~= Set::<Seq<u8>>::empty());
        r
    }

    /// The value of `key`, if it has one.
    pub fn get(&self, key: &H256) -> (r: Option<&V>)
        requires
            self.wf(),
        ensures
            r is None <==> !self.view().contains_key(key@),
            r matches Some(v) ==> *v == self.view()[key@],
    {
        match find_key(&self.keys, key) {
            None => None,
            Some(i) => {
                proof { self.lemma_index_of(i as int); }
                Some(&self.vals[i])
            },
        }
    }

    /// Sets the value of `key`.
    pub fn insert(&mut self, key: H256, value: V)
        requires
            old(self).wf(),
        ensures
            final(self).wf(),
            final(self).view() == old(self).view().insert(key@, value),
    {
        match find_key(&self.keys, &key) {
            Some(i) => {
                proof { old(self).lemma_index_of(i as int); }
                self.vals.set(i, value);
                proof {
                    let kv = key_views(self.keys@);
                    assert forall|k: Seq<u8>| self.view().contains_key(k) implies #[trigger] self.view()[k] == old(self).view().insert(key@, value)[k] by {
                        let j = kv.index_of(k);
                        assert(kv.contains(k));
                        assert(0 <= j < kv.len() && kv[j] == k);
                        self.lemma_index_of(j);
                        old(self).lemma_index_of(j);
                        if j != i {
                            assert(kv[j] != kv[i as int]);
                        }
                    }
                    assert(self.view() =~= old(self).view().insert(key@, value));
                }
            },
            None => {
                proof { lemma_key_views_push(self.keys@, key); }
                self.keys.push(key);
                self.vals.push(value);
                proof {
                    let kv = key_views(self.keys@);
                    let n = old(self).keys@.len() as int;
                    assert forall|k: Seq<u8>| #[trigger] self.view().contains_key(k) <==> old(self).view().insert(key@, value).contains_key(k) by {
                        assert(kv.to_set().contains(k) <==> kv.contains(k));
                        assert(key_views(old(self).keys@).to_set().contains(k) <==> key_views(old(self).keys@).contains(k));
                    }
                    assert forall|k: Seq<u8>| self.view().contains_key(k) implies #[trigger] self.view()[k] == old(self).view().insert(key@, value)[k] by {
                        let j = kv.index_of(k);
                        assert(kv.contains(k));
                        assert(0 <= j < kv.len() && kv[j] == k);
                        self.lemma_index_of(j);
                        if j < n {
                            old(self).lemma_index_of(j);
                            assert(self.keys@[j] == old(self).keys@[j]);
                        }
                    }
                    assert(self.view() =~= old(self).view().insert(key@, value));
                }
            },
        }
    }

    /// Removes `key` and its value; returns the value when there was one.
    pub fn remove(&mut self, key: &H256) -> (r: Option<V>)
        requires
            old(self).wf(),
        ensures
            final(self).wf(),
            final(self).view() == old(self).view().remove(key@),
            r is None <==> !old(self).view().contains_key(key@),
            r matches Some(v) ==> v == old(self).view()[key@],
    {
        match find_key(&self.keys, key) {
            Some(i) => {
                proof {
                    old(self).lemma_index_of(i as int);
                    lemma_key_views_remove(self.keys@, i as int);
                }
                self.keys.remove(i);
                let v = self.vals.remove(i);
                proof {
                    let kv = key_views(self.keys@);
                    let okv = key_views(old(self).keys@);
                    assert(kv =~= okv.remove(i as int));
                    assert forall|k: Seq<u8>| #[trigger] self.view().contains_key(k) <==> old(self).view().remove(key@).contains_key(k) by {
                        assert(kv.to_set().contains(k) <==> kv.contains(k));
                        assert(okv.to_set().contains(k) <==> okv.contains(k));
                    }
                    assert forall|k: Seq<u8>| self.view().contains_key(k) implies #[trigger] self.view()[k] == old(self).view().remove(key@)[k] by {
                        let j = kv.index_of(k);
                        assert(kv.contains(k));
                        assert(0 <= j < kv.len() && kv[j] == k);
                        self.lemma_index_of(j);
                        let oj = if j < i { j } else { j + 1 };
                        assert(okv[oj] == k);
                        old(self).lemma_index_of(oj);
                    }
                    assert(self.view() =~= old(self).view().remove(key@));
                }
                Some(v)
            },
            None => {
                proof { assert(self.view().remove(key@) =~= self.view()); }
                None
            },
        }
    }
}

/// A set of byte strings.
pub struct BytesSet {
    items: Vec<Vec<u8>>,
}

impl BytesSet {
    /// The byte strings in the set.
    pub closed spec fn view(&self) -> Set<Seq<u8>> {
        vec_views(self.items@).to_set()
    }

    /// No byte string is held twice.
    pub closed spec fn wf(&self) -> bool {
        vec_views(self.items@).no_duplicates()
    }

    /// An empty set.
    pub fn new() -> (r: BytesSet)
        ensures
            r.wf(),
            r.view() == Set::<Seq<u8>>::empty(),
    {
        let r = BytesSet { items: Vec::new() };
        assert(r.view() =~= Set::<Seq<u8>>::empty());
        r
    }

    fn find(&self, item: &[u8]) -> (r: Option<usize>)
        ensures
            r is None ==> !self.view().contains(item@),
            r matches Some(i) ==> i < self.items@.len() && self.items@[i as int]@ == item@,
    {
        let mut i: usize = 0;
        while i < self.items.len()
            invariant
                i <= self.items@.len(),
                forall|j: int| 0 <= j < i ==> self.items@[j]@ != item@,
            decreases self.items@.len() - i,
        {
            if bytes_eq(self.items[i].as_slice(), item) {
                return Some(i);
            }
            i = i + 1;
        }
        proof {
            let v = vec_views(self.items@);
            if v.contains(item@) {
                let j = choose|j: int| 0 <= j < v.len() && v[j] == item@;
                assert(self.items@[j]@ == item@);
            }
        }
        None
    }

    /// Whether `item` is in the set.
    pub fn contains(&self, item: &[u8]) -> (r: bool)
        ensures
            r == self.view().contains(item@),
    {
        match self.find(item) {
            None => false,
            Some(i) => {
                assert(vec_views(self.items@)[i as int] == item@);
                true
            },
        }
    }

    /// Adds `item`; returns whether it was absent.
    pub fn insert(&mut self, item: Vec<u8>) -> (r: bool)
        requires
            old(self).wf(),
        ensures
            final(self).wf(),
            r == !old(self).view().contains(item@),
            final(self).view() == old(self).view().insert(item@),
    {
        match self.find(item.as_slice()) {
            Some(i) => {
                proof {
                    assert(vec_views(self.items@)[i as int] == item@);
                    assert(self.view().insert(item@) =~= self.view());
                }
                false
            },
            None => {
                let ghost iv = item@;
                let ghost ov = vec_views(self.items@);
                self.items.push(item);
                proof {
                    let nv = vec_views(self.items@);
                    assert(nv =~= ov.push(iv));
                    assert forall|a: int, b: int| 0 <= a < b < nv.len() implies nv[a] != nv[b] by {
                        if b == ov.len() { assert(ov.contains(ov[a])); }
                    }
                    ov.lemma_push_to_set_commute(iv);
                }
                true
            },
        }
    }

    /// Removes `item`; returns whether it was present.
    pub fn remove(&mut self, item: &[u8]) -> (r: bool)
        requires
            old(self).wf(),
        ensures
            final(self).wf(),
            r == old(self).view().contains(item@),
            final(self).view() == old(self).view().remove(item@),
    {
        match self.find(item) {
            Some(i) => {
                let ghost ov = vec_views(self.items@);
                self.items.remove(i);
                proof {
                    let nv = vec_views(self.items@);
                    assert(nv =~= ov.remove(i as int));
                    assert(ov[i as int] == item@);
                    assert forall|a: int, b: int| 0 <= a < b < nv.len() implies nv[a] != nv[b] by {
                        let oa = if a < i { a } else { a + 1 };
                        let ob = if b < i { b } else { b + 1 };
                        assert(nv[a] == ov[oa] && nv[b] == ov[ob]);
                    }
                    assert forall|k: Seq<u8>| nv.to_set().contains(k) <==> ov.to_set().remove(item@).contains(k) by {
                        if nv.contains(k) {
                            let w = choose|w: int| 0 <= w < nv.len() && nv[w] == k;
                            let ow = if w < i { w } else { w + 1 };
                            assert(ov[ow] == k);
                        }
                        if ov.contains(k) && k != item@ {
                            let ow = choose|ow: int| 0 <= ow < ov.len() && ov[ow] == k;
                            let w = if ow < i { ow } else { ow - 1 };
                            assert(nv[w] == k);
                        }
                    }
                    assert(nv.to_set() =~= ov.to_set().remove(item@));
                }
                true
            },
            None => {
                proof { assert(self.view().remove(item@) =~= self.view()); }
                false
            },
        }
    }
}

/// The keys are in strictly ascending byte order.
pub open spec fn keys_ascending(ks: Seq<H256>) -> bool {
    forall|i: int, j: int| 0 <= i < j < ks.len() ==> lex_lt(#[trigger] ks[i]@, #[trigger] ks[j]@)
}

/// Distinct keys sorted in ascending byte order: the order in which a
/// key-value store keyed by them walks them.
pub fn sort_keys(keys: &Vec<H256>) -> (r: Vec<H256>)
    requires
        key_views(keys@).no_duplicates(),
    ensures
        keys_ascending(r@),
        key_views(r@).no_duplicates(),
        key_views(r@).to_set() == key_views(keys@).to_set(),
{
    let mut out: Vec<H256> = Vec::new();
    let mut i: usize = 0;
    while i < keys.len()
        invariant
            0 <= i <= keys@.len(),
            key_views(keys@).no_duplicates(),
            keys_ascending(out@),
            key_views(out@).to_set() == key_views(keys@.take(i as int)).to_set(),
        decreases keys.len() - i,
    {
        let k = keys[i];
        proof {
            assert(key_views(keys@)[i as int] == k@);
            assert(!key_views(keys@.take(i as int)).contains(k@)) by {
                if key_views(keys@.take(i as int)).contains(k@) {
                    let j = choose|j: int| 0 <= j < key_views(keys@.take(i as int)).len() && key_views(keys@.take(i as int))[j] == k@;
                    assert(key_views(keys@)[j] == k@);
                }
            }
        }
        let mut pos: usize = 0;
        while pos < out.len()
            invariant_except_break
                forall|q: int| 0 <= q < pos ==> !lex_lt(k@, #[trigger] out@[q]@),
            invariant
                0 <= pos <= out@.len(),
            ensures
                0 <= pos <= out@.len(),
                forall|q: int| 0 <= q < pos ==> !lex_lt(k@, #[trigger] out@[q]@),
                pos < out@.len() ==> lex_lt(k@, out@[pos as int]@),
            decreases out.len() - pos,
        {
            if h256_lt(&k, &out[pos]) {
                break;
            }
            pos = pos + 1;
        }
        let ghost old_out = out@;
        out.insert(pos, k);
        proof {
            assert(out@ == old_out.insert(pos as int, k));
            assert forall|a: int, b: int| 0 <= a < b < out@.len() implies lex_lt(#[trigger] out@[a]@, #[trigger] out@[b]@) by {
                if a < pos as int && b < pos as int {
                    assert(out@[a] == old_out[a] && out@[b] == old_out[b]);
                } else if a < pos as int && b == pos as int {
                    assert(out@[a] == old_out[a]);
                    assert(key_views(old_out).to_set().contains(old_out[a]@)) by {
                        assert(key_views(old_out)[a] == old_out[a]@);
                    }
                    lemma_lex_total(old_out[a]@, k@);
                } else if a < pos as int {
                    assert(out@[a] == old_out[a] && out@[b] == old_out[b - 1]);
                } else if a == pos as int {
                    assert(out@[b] == old_out[b - 1]);
                    if b - 1 > pos as int {
                        lemma_lex_transitive(k@, old_out[pos as int]@, old_out[b - 1]@);
                    }
                } else {
                    assert(out@[a] == old_out[a - 1] && out@[b] == old_out[b - 1]);
                }
            }
            assert(key_views(out@).to_set() =~= key_views(old_out).to_set().insert(k@)) by {
                assert forall|x: Seq<u8>| key_views(out@).contains(x) implies key_views(old_out).to_set().insert(k@).contains(x) by {
                    let j = choose|j: int| 0 <= j < key_views(out@).len() && key_views(out@)[j] == x;
                    if j < pos as int {
                        assert(key_views(old_out)[j] == x);
                    } else if j > pos as int {
                        assert(key_views(old_out)[j - 1] == x);
                    }
                }
                assert forall|x: Seq<u8>| key_views(old_out).to_set().insert(k@).contains(x) implies key_views(out@).contains(x) by {
                    if x == k@ {
                        assert(key_views(out@)[pos as int] == x);
                    } else {
                        let j = choose|j: int| 0 <= j < key_views(old_out).len() && key_views(old_out)[j] == x;
                        if j < pos as int {
                            assert(key_views(out@)[j] == x);
                        } else {
                            assert(key_views(out@)[j + 1] == x);
                        }
                    }
                }
            }
            assert(key_views(keys@.take(i as int + 1)) =~= key_views(keys@.take(i as int)).push(k@));
            key_views(keys@.take(i as int)).lemma_push_to_set_commute(k@);
        }
        i = i + 1;
    }
    proof {
        assert(keys@.take(keys@.len() as int) =~= keys@);
        assert forall|a: int, b: int| 0 <= a < b < key_views(out@).len() implies key_views(out@)[a] != key_views(out@)[b] by {
            assert(lex_lt(out@[a]@, out@[b]@));
            lemma_lex_irreflexive(out@[a]@);
        }
    }
    out
}

} // verus!
