//! Occurrence counts keyed by string.
use vstd::prelude::*;
use vstd::string::StringExecFns;

verus! {

/// `m` with the count of `k` raised by one (a new key starts at one).
pub open spec fn bump(m: Map<Seq<char>, nat>, k: Seq<char>) -> Map<Seq<char>, nat> {
    m.insert(
        k,
        if m.contains_key(k) {
            m[k] + 1
        } else {
            1
        },
    )
}

/// Counts keyed by string, each key held once, in order of first arrival.
pub struct Tally {
    keys: Vec<String>,
    counts: Vec<usize>,
    model: Ghost<Map<Seq<char>, nat>>,
}

impl View for Tally {
    type V = Map<Seq<char>, nat>;

    closed spec fn view(&self) -> Map<Seq<char>, nat> {
        self.model@
    }
}

/// Whether two strings hold the same characters.
fn same(a: &String, b: &String) -> (r: bool)
    ensures
        r == (a@ == b@),
{
    a.eq(b)
}

impl Tally {
    /// Keys are distinct, each slot agrees with the model, and the model
    /// holds no other key.
    pub closed spec fn wf(&self) -> bool {
        &&& self.keys.len() == self.counts.len()
        &&& forall|i: int, j: int|
            0 <= i < j < self.keys.len() ==> self.keys@[i]@ != self.keys@[j]@
        &&& forall|i: int|
            0 <= i < self.keys.len() ==> self.model@.contains_key(#[trigger] self.keys@[i]@)
                && self.model@[self.keys@[i]@] == self.counts@[i] as nat
        &&& forall|k: Seq<char>|
            #[trigger] self.model@.contains_key(k) ==> exists|i: int|
                0 <= i < self.keys.len() && self.keys@[i]@ == k
        &&& self.model@.dom().finite()
        &&& self.model@.dom().len() == self.keys.len()
    }

    /// An empty tally.
    pub fn new() -> (r: Tally)
        ensures
            r.wf(),
            r@ == Map::<Seq<char>, nat>::empty(),
    {
        Tally { keys: Vec::new(), counts: Vec::new(), model: Ghost(Map::empty()) }
    }

    /// Count one more occurrence of `key`.
    pub fn increment(&mut self, key: String)
        requires
            old(self).wf(),
            old(self)@.contains_key(key@) ==> old(self)@[key@] < usize::MAX,
        ensures
            final(self).wf(),
            final(self)@ == bump(old(self)@, key@),
    {
        let mut i: usize = 0;
        while i < self.keys.len()
            invariant
                self.wf(),
                self == old(self),
                old(self)@.contains_key(key@) ==> old(self)@[key@] < usize::MAX,
                i <= self.keys.len(),
                forall|m: int| 0 <= m < i ==> self.keys@[m]@ != key@,
            decreases self.keys.len() - i,
        {
            if same(&self.keys[i], &key) {
                assert(self.model@[self.keys@[i as int]@] == self.counts@[i as int] as nat);
                assert(self.keys@[i as int]@ == key@);
                assert(old(self)@.contains_key(key@));
                let c = self.counts[i];
                assert(c as nat == old(self)@[key@]);
                self.counts.set(i, c + 1);
                self.model = Ghost(bump(self.model@, key@));
                assert(self.model@.dom() =~= old(self)@.dom());
                return;
            }
            i = i + 1;
        }
        assert(!self.model@.contains_key(key@));
        proof {
            vstd::set::axiom_set_insert_len(self.model@.dom(), key@);
        }
        self.keys.push(key);
        self.counts.push(1);
        self.model = Ghost(bump(self.model@, key@));
        assert forall|k: Seq<char>| #[trigger] self.model@.contains_key(k) implies exists|i: int|
            0 <= i < self.keys.len() && self.keys@[i]@ == k by {
            if k != key@ {
                let i = choose|i: int| 0 <= i < old(self).keys.len() && old(self).keys@[i]@ == k;
                assert(self.keys@[i]@ == k);
            } else {
                assert(self.keys@[self.keys.len() - 1]@ == k);
            }
        }
        assert(self.model@.dom() =~= old(self)@.dom().insert(key@));
    }

    /// The count of `key`; zero when it was never counted.
    pub fn get(&self, key: &str) -> (r: usize)
        requires
            self.wf(),
        ensures
            self@.contains_key(key@) ==> r as nat == self@[key@],
            !self@.contains_key(key@) ==> r == 0,
    {
        let wanted = String::from_str(key);
        let mut i: usize = 0;
        while i < self.keys.len()
            invariant
                self.wf(),
                wanted@ == key@,
                i <= self.keys.len(),
                forall|m: int| 0 <= m < i ==> self.keys@[m]@ != key@,
            decreases self.keys.len() - i,
        {
            if same(&self.keys[i], &wanted) {
                assert(self.model@[self.keys@[i as int]@] == self.counts@[i as int] as nat);
                return self.counts[i];
            }
            i = i + 1;
        }
        assert(!self@.contains_key(key@));
        0
    }

    /// Number of distinct keys.
    pub fn len(&self) -> (r: usize)
        requires
            self.wf(),
        ensures
            r as nat == self@.dom().len(),
    {
        self.keys.len()
    }

    /// Every key with its count, in order of first arrival.
    pub fn entries(&self) -> (r: Vec<(String, usize)>)
        requires
            self.wf(),
        ensures
            r@.len() == self@.dom().len(),
            forall|i: int|
                0 <= i < r@.len() ==> self@.contains_key(#[trigger] r@[i].0@) && self@[r@[i].0@]
                    == r@[i].1 as nat,
            forall|i: int, j: int| 0 <= i < j < r@.len() ==> r@[i].0@ != r@[j].0@,
    {
        let mut r: Vec<(String, usize)> = Vec::new();
        let mut i: usize = 0;
        while i < self.keys.len()
            invariant
                self.wf(),
                i <= self.keys.len(),
                r@.len() == i,
                forall|m: int| 0 <= m < i ==> r@[m].0@ == self.keys@[m]@ && r@[m].1 == self.counts@[m],
            decreases self.keys.len() - i,
        {
            let k = self.keys[i].clone();
            r.push((k, self.counts[i]));
            assert(r@[i as int].0@ == self.keys@[i as int]@);
            i = i + 1;
        }
        assert forall|i: int| 0 <= i < r@.len() implies self@.contains_key(#[trigger] r@[i].0@)
            && self@[r@[i].0@] == r@[i].1 as nat by {
            assert(r@[i].0@ == self.keys@[i]@);
        }
        assert forall|i: int, j: int| 0 <= i < j < r@.len() implies r@[i].0@ != r@[j].0@ by {
            assert(r@[i].0@ == self.keys@[i]@);
            assert(r@[j].0@ == self.keys@[j]@);
        }
        assert(self.model@.dom().len() == self.keys.len());
        r
    }
}

} // verus!
