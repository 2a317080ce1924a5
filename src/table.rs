use vstd::prelude::*;

verus! {

/// Whether two byte runs hold the same bytes.
pub fn bytes_eq(a: &[u8], b: &[u8]) -> (r: bool)
    ensures
        r == (a@ == b@),
{
    if a.len() != b.len() {
        return false;
    }
    let mut i: usize = 0;
    while i < a.len()
        invariant
            a@.len() == b@.len(),
            i <= a@.len(),
            forall|j: int| 0 <= j < i ==> a@[j] == b@[j],
        decreases a@.len() - i,
    {
        if a[i] != b[i] {
            return false;
        }
        i = i + 1;
    }
    assert(a@ =~= b@);
    true
}

/// A map from byte-run keys to values, each key held once.
pub struct Table<V> {
    keys: Vec<Vec<u8>>,
    vals: Vec<V>,
    model: Ghost<Map<Seq<u8>, V>>,
}

impl<V> View for Table<V> {
    type V = Map<Seq<u8>, V>;

    closed spec fn view(&self) -> Map<Seq<u8>, V> {
        self.model@
    }
}

impl<V> Table<V> {
    pub closed spec fn wf(&self) -> bool {
        &&& self.keys@.len() == self.vals@.len()
        &&& forall|i: int, j: int|
            0 <= i < self.keys@.len() && 0 <= j < self.keys@.len() && i != j
                ==> #[trigger] self.keys@[i]@ != #[trigger] self.keys@[j]@
        &&& forall|i: int|
            0 <= i < self.keys@.len() ==> #[trigger] self.model@.contains_key(self.keys@[i]@)
                && self.model@[self.keys@[i]@] == self.vals@[i]
        &&& forall|k: Seq<u8>|
            #[trigger] self.model@.contains_key(k) ==> exists|i: int|
                0 <= i < self.keys@.len() && self.keys@[i]@ == k
    }

    pub fn new() -> (r: Table<V>)
        ensures
            r.wf(),
            r@ == Map::<Seq<u8>, V>::empty(),
    {
        Table { keys: Vec::new(), vals: Vec::new(), model: Ghost(Map::empty()) }
    }

    fn find(&self, key: &[u8]) -> (r: Option<usize>)
        requires
            self.wf(),
        ensures
            r matches Some(i) ==> i < self.keys@.len() && self.keys@[i as int]@ == key@,
            r is None ==> !self@.contains_key(key@),
    {
        let mut i: usize = 0;
        while i < self.keys.len()
            invariant
                self.wf(),
                i <= self.keys@.len(),
                forall|j: int| 0 <= j < i ==> self.keys@[j]@ != key@,
            decreases self.keys@.len() - i,
        {
            if bytes_eq(self.keys[i].as_slice(), key) {
                return Some(i);
            }
            i = i + 1;
        }
        None
    }

    pub fn contains_key(&self, key: &[u8]) -> (r: bool)
        requires
            self.wf(),
        ensures
            r == self@.contains_key(key@),
    {
        self.find(key).is_some()
    }

    pub fn get(&self, key: &[u8]) -> (r: Option<&V>)
        requires
            self.wf(),
        ensures
            r is Some <==> self@.contains_key(key@),
            r matches Some(v) ==> *v == self@[key@],
    {
        match self.find(key) {
            Some(i) => {
                assert(self.model@.contains_key(self.keys@[i as int]@));
                Some(&self.vals[i])
            },
            None => None,
        }
    }

    pub fn insert(&mut self, key: Vec<u8>, value: V)
        requires
            old(self).wf(),
        ensures
            final(self).wf(),
            final(self)@ == old(self)@.insert(key@, value),
    {
        let ghost k = key@;
        let ghost v = value;
        match self.find(key.as_slice()) {
            Some(i) => {
                self.vals.set(i, value);
                self.model = Ghost(self.model@.insert(k, v));
                assert forall|k2: Seq<u8>| #[trigger] self.model@.contains_key(k2) implies exists|j: int|
                    0 <= j < self.keys@.len() && self.keys@[j]@ == k2 by {
                    if k2 == k {
                        assert(self.keys@[i as int]@ == k2);
                    } else {
                        assert(old(self).model@.contains_key(k2));
                        let j = choose|j: int| 0 <= j < old(self).keys@.len() && old(self).keys@[j]@ == k2;
                        assert(self.keys@[j]@ == k2);
                    }
                }
            },
            None => {
                self.keys.push(key);
                self.vals.push(value);
                self.model = Ghost(self.model@.insert(k, v));
                let ghost n = self.keys@.len() - 1;
                assert(self.keys@[n]@ == k);
                assert forall|k2: Seq<u8>| #[trigger] self.model@.contains_key(k2) implies exists|j: int|
                    0 <= j < self.keys@.len() && self.keys@[j]@ == k2 by {
                    if k2 == k {
                        assert(self.keys@[n]@ == k2);
                    } else {
                        assert(old(self).model@.contains_key(k2));
                        let j = choose|j: int| 0 <= j < old(self).keys@.len() && old(self).keys@[j]@ == k2;
                        assert(self.keys@[j]@ == k2);
                    }
                }
            },
        }
    }

    pub fn remove(&mut self, key: &[u8]) -> (r: bool)
        requires
            old(self).wf(),
        ensures
            final(self).wf(),
            r == old(self)@.contains_key(key@),
            final(self)@ == old(self)@.remove(key@),
    {
        match self.find(key) {
            Some(i) => {
                let ghost k = key@;
                self.keys.remove(i);
                self.vals.remove(i);
                self.model = Ghost(self.model@.remove(k));
                assert forall|i2: int| 0 <= i2 < self.keys@.len() implies #[trigger] self.model@.contains_key(self.keys@[i2]@)
                    && self.model@[self.keys@[i2]@] == self.vals@[i2] by {
                    let j = if i2 < i { i2 } else { i2 + 1 };
                    assert(old(self).keys@[j]@ == self.keys@[i2]@);
                    assert(self.vals@[i2] == old(self).vals@[j]);
                    assert(old(self).keys@[i as int]@ == k);
                    assert(old(self).keys@[j]@ != old(self).keys@[i as int]@);
                    assert(old(self).model@.contains_key(old(self).keys@[j]@));
                }
                assert forall|k2: Seq<u8>| #[trigger] self.model@.contains_key(k2) implies exists|j: int|
                    0 <= j < self.keys@.len() && self.keys@[j]@ == k2 by {
                    assert(old(self).model@.contains_key(k2));
                    let j = choose|j: int| 0 <= j < old(self).keys@.len() && old(self).keys@[j]@ == k2;
                    assert(j != i);
                    if j < i {
                        assert(self.keys@[j]@ == k2);
                    } else {
                        assert(self.keys@[j - 1]@ == k2);
                    }
                }
                true
            },
            None => {
                assert(self.model@.remove(key@) =~= self.model@);
                false
            },
        }
    }
}

} // verus!
