use vstd::prelude::*;
use vstd::string::StrSliceExecFns;

use crate::record::GetIndexResponse;
use crate::record::GetIndexResponseV;

verus! {

/// Relies on str's equality: two string slices are equal exactly when their
/// character sequences are.
#[verifier::external_body]
pub(crate) fn str_eq(a: &str, b: &str) -> (r: bool)
    ensures
        r == (a@ == b@),
{
    a == b
}

/// Whether one string starts with another.
pub fn str_starts_with(s: &str, prefix: &str) -> (r: bool)
    ensures
        r == prefix@.is_prefix_of(s@),
{
    let plen = prefix.unicode_len();
    if plen > s.unicode_len() {
        proof {
            assert(!prefix@.is_prefix_of(s@));
        }
        return false;
    }
    let head = s.substring_char(0, plen);
    let r = str_eq(head, prefix);
    proof {
        if head@ == prefix@ {
            assert(prefix@ =~= s@.subrange(0, prefix@.len() as int));
        }
    }
    r
}

/// Copies a byte vector.
pub(crate) fn clone_bytes(v: &Vec<u8>) -> (r: Vec<u8>)
    ensures
        r@ == v@,
{
    let mut r: Vec<u8> = Vec::new();
    let mut i: usize = 0;
    while i < v.len()
        invariant
            i <= v@.len(),
            r@ == v@.subrange(0, i as int),
        decreases v@.len() - i,
    {
        r.push(v[i]);
        proof {
            assert(r@ =~= v@.subrange(0, i + 1));
        }
        i += 1;
    }
    proof {
        assert(v@.subrange(0, v@.len() as int) == v@);
    }
    r
}

/// One stored object: an index record, a raw archive blob, or an empty
/// owner marker whose existence alone is the fact.
pub enum StoredValue {
    Record(GetIndexResponse),
    Archive(Vec<u8>),
    Marker,
}

/// The abstract value of one stored object.
pub enum StoredV {
    Record(GetIndexResponseV),
    Archive(Seq<u8>),
    Marker,
}

impl View for StoredValue {
    type V = StoredV;

    open spec fn view(&self) -> StoredV {
        match self {
            StoredValue::Record(r) => StoredV::Record(r@),
            StoredValue::Archive(b) => StoredV::Archive(b@),
            StoredValue::Marker => StoredV::Marker,
        }
    }
}

impl Clone for StoredValue {
    /// Cloning keeps the abstract value.
    fn clone(&self) -> (r: Self)
        ensures
            r@ == self@,
    {
        match self {
            StoredValue::Record(rec) => StoredValue::Record(rec.clone()),
            StoredValue::Archive(b) => StoredValue::Archive(clone_bytes(b)),
            StoredValue::Marker => StoredValue::Marker,
        }
    }
}

/// The object store the registry is built on: a key/value blob store with
/// exact lookup, prefix listing and a health probe. Listing hands back every
/// key under the prefix; a paginated provider must keep following its
/// continuation tokens until none remain before returning.
pub trait ObjectStore: Sized {
    /// The abstract contents: a map from key to stored object.
    spec fn model(&self) -> Map<Seq<char>, StoredV>;

    /// The implementation's internal invariant.
    spec fn inv(&self) -> bool;

    /// Whether a key currently holds an object.
    fn head(&self, key: &str) -> (r: bool)
        requires
            self.inv(),
        ensures
            r == self.model().contains_key(key@),
    ;

    /// Fetches the object at a key; absent keys yield nothing.
    fn get(&self, key: &str) -> (r: Option<StoredValue>)
        requires
            self.inv(),
        ensures
            match r {
                Some(v) => self.model().contains_key(key@) && v@ == self.model()[key@],
                None => !self.model().contains_key(key@),
            },
    ;

    /// Writes an object at a key, replacing whatever was there.
    fn put(&mut self, key: &str, value: StoredValue)
        requires
            old(self).inv(),
        ensures
            final(self).inv(),
            final(self).model() == old(self).model().insert(key@, value@),
    ;

    /// Removes the object at a key, if any.
    fn delete(&mut self, key: &str)
        requires
            old(self).inv(),
        ensures
            final(self).inv(),
            final(self).model() == old(self).model().remove(key@),
    ;

    /// Lists every key under a prefix, each exactly once, in no guaranteed
    /// order.
    fn list(&self, prefix: &str) -> (r: Vec<String>)
        requires
            self.inv(),
        ensures
            forall|i: int|
                0 <= i < r@.len() ==> self.model().contains_key(#[trigger] r@[i]@)
                    && prefix@.is_prefix_of(r@[i]@),
            forall|k: Seq<char>|
                #[trigger] self.model().contains_key(k) && prefix@.is_prefix_of(k) ==> exists|
                    i: int,
                |
                    0 <= i < r@.len() && r@[i]@ == k,
            forall|i: int, j: int| 0 <= i < j < r@.len() ==> r@[i]@ != r@[j]@,
    ;

    /// Probes the store once; false means the store is unusable.
    fn health_check(&self) -> bool
        requires
            self.inv(),
    ;
}

/// The contents an association list of entries stands for: later entries win.
pub open spec fn alist_model(s: Seq<(String, StoredValue)>) -> Map<Seq<char>, StoredV>
    decreases s.len(),
{
    if s.len() == 0 {
        Map::empty()
    } else {
        alist_model(s.drop_last()).insert(s.last().0@, s.last().1@)
    }
}

/// Whether the entries of an association list carry pairwise distinct keys.
pub open spec fn alist_distinct(s: Seq<(String, StoredValue)>) -> bool {
    forall|i: int, j: int| 0 <= i < j < s.len() ==> (#[trigger] s[i]).0@ != (#[trigger] s[j]).0@
}

/// A key is in the contents exactly when some entry carries it.
proof fn lemma_alist_contains(s: Seq<(String, StoredValue)>, k: Seq<char>)
    ensures
        alist_model(s).contains_key(k) <==> exists|i: int|
            0 <= i < s.len() && (#[trigger] s[i]).0@ == k,
    decreases s.len(),
{
    if s.len() > 0 {
        lemma_alist_contains(s.drop_last(), k);
        if alist_model(s).contains_key(k) {
            if k == s.last().0@ {
                assert((s[s.len() - 1]).0@ == k);
            } else {
                let i = choose|i: int|
                    0 <= i < s.drop_last().len() && (#[trigger] s.drop_last()[i]).0@ == k;
                assert((s[i]).0@ == k);
            }
        }
        if exists|i: int| 0 <= i < s.len() && (#[trigger] s[i]).0@ == k {
            let i = choose|i: int| 0 <= i < s.len() && (#[trigger] s[i]).0@ == k;
            if i < s.len() - 1 {
                assert((s.drop_last()[i]).0@ == k);
            }
        }
    }
}

/// Dropping the last entry keeps keys pairwise distinct.
proof fn lemma_alist_distinct_drop_last(s: Seq<(String, StoredValue)>)
    requires
        alist_distinct(s),
        s.len() > 0,
    ensures
        alist_distinct(s.drop_last()),
{
    assert forall|a: int, b: int| 0 <= a < b < s.drop_last().len() implies (
    #[trigger] s.drop_last()[a]).0@ != (#[trigger] s.drop_last()[b]).0@ by {
        assert((s[a]).0@ != (s[b]).0@);
    }
}

/// With distinct keys, the entry carrying a key gives its value.
proof fn lemma_alist_value(s: Seq<(String, StoredValue)>, i: int)
    requires
        alist_distinct(s),
        0 <= i < s.len(),
    ensures
        alist_model(s).contains_key((s[i]).0@),
        alist_model(s)[(s[i]).0@] == (s[i]).1@,
    decreases s.len(),
{
    if i == s.len() - 1 {
    } else {
        lemma_alist_distinct_drop_last(s);
        assert((s.drop_last()[i]).0@ == (s[i]).0@);
        lemma_alist_value(s.drop_last(), i);
        assert((s[i]).0@ != s.last().0@);
    }
}

/// Removing the entry that carries a key removes exactly that key from the
/// contents.
proof fn lemma_alist_remove(s: Seq<(String, StoredValue)>, i: int)
    requires
        alist_distinct(s),
        0 <= i < s.len(),
    ensures
        alist_model(s.remove(i)) == alist_model(s).remove((s[i]).0@),
    decreases s.len(),
{
    let k = (s[i]).0@;
    if i == s.len() - 1 {
        assert(s.remove(i) =~= s.drop_last());
        lemma_alist_contains(s.drop_last(), k);
        assert(forall|j: int|
            0 <= j < s.drop_last().len() ==> (#[trigger] s.drop_last()[j]).0@ != k);
        assert(!alist_model(s.drop_last()).contains_key(k));
        assert(alist_model(s.drop_last()) =~= alist_model(s).remove(k));
    } else {
        lemma_alist_distinct_drop_last(s);
        lemma_alist_remove(s.drop_last(), i);
        assert(s.remove(i).drop_last() =~= s.drop_last().remove(i));
        assert(s.remove(i).last() == s.last());
        assert(alist_model(s.remove(i)) == alist_model(s.drop_last().remove(i)).insert(
            s.last().0@,
            s.last().1@,
        ));
        assert(k != s.last().0@);
        assert(alist_model(s.drop_last()).remove(k).insert(s.last().0@, s.last().1@)
            =~= alist_model(s.drop_last()).insert(s.last().0@, s.last().1@).remove(k));
    }
}

/// Appending an entry adds exactly its key to the contents.
proof fn lemma_alist_push(s: Seq<(String, StoredValue)>, e: (String, StoredValue))
    ensures
        alist_model(s.push(e)) == alist_model(s).insert(e.0@, e.1@),
{
    assert(s.push(e).drop_last() =~= s);
    assert(s.push(e).last() == e);
}

/// An in-memory object store: the reference implementation the registry's
/// contracts are exercised against.
pub struct MemStore {
    entries: Vec<(String, StoredValue)>,
}

impl MemStore {
    /// An empty store.
    pub fn new() -> (r: MemStore)
        ensures
            r.model() == Map::<Seq<char>, StoredV>::empty(),
            r.inv(),
    {
        MemStore { entries: Vec::new() }
    }

    /// The position of the entry carrying a key, if any.
    fn find(&self, key: &str) -> (r: Option<usize>)
        ensures
            match r {
                Some(i) => i < self.entries@.len() && (self.entries@[i as int]).0@ == key@,
                None => forall|i: int|
                    0 <= i < self.entries@.len() ==> (#[trigger] self.entries@[i]).0@ != key@,
            },
    {
        let mut i: usize = 0;
        while i < self.entries.len()
            invariant
                i <= self.entries@.len(),
                forall|j: int| 0 <= j < i ==> (#[trigger] self.entries@[j]).0@ != key@,
            decreases self.entries@.len() - i,
        {
            if str_eq(self.entries[i].0.as_str(), key) {
                return Some(i);
            }
            i += 1;
        }
        None
    }
}

impl ObjectStore for MemStore {
    closed spec fn model(&self) -> Map<Seq<char>, StoredV> {
        alist_model(self.entries@)
    }

    closed spec fn inv(&self) -> bool {
        alist_distinct(self.entries@)
    }

    fn head(&self, key: &str) -> (r: bool) {
        let r = self.find(key);
        proof {
            lemma_alist_contains(self.entries@, key@);
        }
        r.is_some()
    }

    fn get(&self, key: &str) -> (r: Option<StoredValue>) {
        proof {
            lemma_alist_contains(self.entries@, key@);
        }
        match self.find(key) {
            Some(i) => {
                proof {
                    lemma_alist_value(self.entries@, i as int);
                }
                Some(self.entries[i].1.clone())
            },
            None => None,
        }
    }

    fn put(&mut self, key: &str, value: StoredValue) {
        let ghost m0 = alist_model(self.entries@);
        match self.find(key) {
            Some(i) => {
                proof {
                    lemma_alist_remove(self.entries@, i as int);
                }
                let ghost before = self.entries@;
                self.entries.remove(i);
                proof {
                    assert(self.entries@ == before.remove(i as int));
                    assert forall|a: int, b: int|
                        0 <= a < b < self.entries@.len() implies (#[trigger] self.entries@[a]).0@
                        != (#[trigger] self.entries@[b]).0@ by {
                        if b < i {
                        } else if a < i {
                            assert(self.entries@[b] == before[b + 1]);
                        } else {
                            assert(self.entries@[a] == before[a + 1]);
                            assert(self.entries@[b] == before[b + 1]);
                        }
                    }
                    assert forall|j: int| 0 <= j < self.entries@.len() implies (
                    #[trigger] self.entries@[j]).0@ != key@ by {
                        if j < i {
                            assert(self.entries@[j] == before[j]);
                        } else {
                            assert(self.entries@[j] == before[j + 1]);
                        }
                    }
                }
            },
            None => {},
        }
        let ghost mid = self.entries@;
        self.entries.push((key.to_owned(), value));
        proof {
            lemma_alist_push(mid, (self.entries@.last().0, self.entries@.last().1));
            assert(self.entries@ =~= mid.push(self.entries@.last()));
            assert(alist_model(self.entries@) =~= m0.insert(key@, value@));
            assert forall|a: int, b: int|
                0 <= a < b < self.entries@.len() implies (#[trigger] self.entries@[a]).0@ != (
            #[trigger] self.entries@[b]).0@ by {
                if b == self.entries@.len() - 1 {
                    assert((mid[a]).0@ != key@);
                }
            }
        }
    }

    fn delete(&mut self, key: &str) {
        proof {
            lemma_alist_contains(self.entries@, key@);
        }
        match self.find(key) {
            Some(i) => {
                proof {
                    lemma_alist_remove(self.entries@, i as int);
                }
                let ghost before = self.entries@;
                self.entries.remove(i);
                proof {
                    assert forall|a: int, b: int|
                        0 <= a < b < self.entries@.len() implies (#[trigger] self.entries@[a]).0@
                        != (#[trigger] self.entries@[b]).0@ by {
                        if b < i {
                        } else if a < i {
                            assert(self.entries@[b] == before[b + 1]);
                        } else {
                            assert(self.entries@[a] == before[a + 1]);
                            assert(self.entries@[b] == before[b + 1]);
                        }
                    }
                }
            },
            None => {
                proof {
                    assert(!alist_model(self.entries@).contains_key(key@));
                    assert(alist_model(self.entries@) =~= alist_model(self.entries@).remove(
                        key@,
                    ));
                }
            },
        }
    }

    fn list(&self, prefix: &str) -> (r: Vec<String>) {
        let mut r: Vec<String> = Vec::new();
        let mut i: usize = 0;
        while i < self.entries.len()
            invariant
                self.inv(),
                i <= self.entries@.len(),
                forall|a: int|
                    0 <= a < r@.len() ==> exists|j: int|
                        0 <= j < i && (#[trigger] r@[a])@ == (self.entries@[j]).0@,
                forall|a: int| 0 <= a < r@.len() ==> prefix@.is_prefix_of(#[trigger] r@[a]@),
                forall|j: int|
                    0 <= j < i && prefix@.is_prefix_of((#[trigger] self.entries@[j]).0@)
                        ==> exists|a: int| 0 <= a < r@.len() && r@[a]@ == (self.entries@[j]).0@,
                forall|a: int, b: int| 0 <= a < b < r@.len() ==> r@[a]@ != r@[b]@,
            decreases self.entries@.len() - i,
        {
            let ghost rold = r@;
            let matched = str_starts_with(self.entries[i].0.as_str(), prefix);
            if matched {
                r.push(self.entries[i].0.clone());
                proof {
                    assert(r@.last()@ == (self.entries@[i as int]).0@);
                    assert forall|a: int, b: int| 0 <= a < b < r@.len() implies r@[a]@
                        != r@[b]@ by {
                        if b == r@.len() - 1 {
                            let j = choose|j: int|
                                0 <= j < i && (#[trigger] rold[a])@ == (self.entries@[j]).0@;
                            assert((self.entries@[j]).0@ != (self.entries@[i as int]).0@);
                        }
                    }
                }
            }
            proof {
                assert forall|j: int|
                    0 <= j < i + 1 && prefix@.is_prefix_of(
                        (#[trigger] self.entries@[j]).0@,
                    ) implies exists|a: int|
                    0 <= a < r@.len() && r@[a]@ == (self.entries@[j]).0@ by {
                    if j == i {
                        assert(matched);
                        assert(r@[r@.len() - 1]@ == (self.entries@[j]).0@);
                    } else {
                        let a = choose|a: int|
                            0 <= a < rold.len() && (#[trigger] rold[a])@ == (self.entries@[j]).0@;
                        assert(r@[a]@ == (self.entries@[j]).0@);
                    }
                }
            }
            i += 1;
        }
        proof {
            lemma_alist_contains(self.entries@, Seq::<char>::empty());
            assert forall|a: int| 0 <= a < r@.len() implies self.model().contains_key(
                #[trigger] r@[a]@,
            ) by {
                let j = choose|j: int|
                    0 <= j < self.entries@.len() && (#[trigger] r@[a])@ == (self.entries@[j]).0@;
                lemma_alist_value(self.entries@, j);
            }
            assert forall|k: Seq<char>|
                #[trigger] self.model().contains_key(k) && prefix@.is_prefix_of(k) implies exists|
                a: int,
            | 0 <= a < r@.len() && r@[a]@ == k by {
                lemma_alist_contains(self.entries@, k);
                let j = choose|j: int|
                    0 <= j < self.entries@.len() && (#[trigger] self.entries@[j]).0@ == k;
            }
        }
        r
    }

    fn health_check(&self) -> (r: bool) {
        true
    }
}

} // verus!
