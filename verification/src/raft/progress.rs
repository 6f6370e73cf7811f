use vstd::prelude::*;

verus! {

/// Replication progress of one follower, as seen by the leader.
#[derive(Debug, Clone, Copy, PartialEq, Eq)]
pub struct Progress {
    /// Highest index known to be replicated on the follower.
    pub match_index: u64,
    /// Next index to send to the follower.
    pub next_index: u64,
}

impl Progress {
    pub fn new(next_index: u64) -> (r: Self)
        ensures
            r.match_index == 0,
            r.next_index == next_index,
    {
        Progress { match_index: 0, next_index }
    }

    /// Records that the follower holds everything up to `match_index`.
    pub fn update_match(&mut self, match_index: u64)
        requires
            match_index < u64::MAX,
        ensures
            final(self).match_index == match_index,
            final(self).next_index == match_index + 1,
    {
        self.match_index = match_index;
        self.next_index = match_index + 1;
    }

    /// `decrease_next(rejected_index)` neither overflows nor underflows.
    pub open spec fn can_decrease_next(self, rejected_index: u64) -> bool {
        &&& self.next_index > 1 ==> rejected_index < u64::MAX
        &&& !(self.next_index > 1 && self.next_index > rejected_index + 1) ==> self.next_index >= 1
    }

    /// The progress after `decrease_next(rejected_index)`.
    pub open spec fn decreased(self, rejected_index: u64) -> Progress {
        Progress {
            next_index: if self.next_index > 1 && self.next_index > rejected_index + 1 {
                (rejected_index + 1) as u64
            } else {
                (self.next_index - 1) as u64
            },
            ..self
        }
    }

    /// Steps `next_index` back after the follower rejected an append at
    /// `rejected_index`.
    pub fn decrease_next(&mut self, rejected_index: u64)
        requires
            old(self).can_decrease_next(rejected_index),
        ensures
            *final(self) == old(self).decreased(rejected_index),
    {
        if self.next_index > 1 && self.next_index > rejected_index + 1 {
            self.next_index = rejected_index + 1;
        } else {
            self.next_index -= 1;
        }
    }
}

} // verus!

verus! {

/// Whether some pair of `s` has key `k`.
pub open spec fn has_key<V>(s: Seq<(u64, V)>, k: u64) -> bool {
    exists|i: int| 0 <= i < s.len() && s[i].0 == k
}

/// No key occurs twice in `s`.
pub open spec fn distinct_keys<V>(s: Seq<(u64, V)>) -> bool {
    forall|i: int, j: int| 0 <= i < s.len() && 0 <= j < s.len() && i != j ==> s[i].0 != s[j].0
}

/// The position of key `k` in `s` (meaningful when `has_key(s, k)`).
pub open spec fn key_pos<V>(s: Seq<(u64, V)>, k: u64) -> int {
    choose|i: int| 0 <= i < s.len() && s[i].0 == k
}

/// The value stored under `k` in `s`.
pub open spec fn value_of<V>(s: Seq<(u64, V)>, k: u64) -> Option<V> {
    if has_key(s, k) {
        Some(s[key_pos(s, k)].1)
    } else {
        None
    }
}

/// The keys of `s`, in order.
pub open spec fn keys_of<V>(s: Seq<(u64, V)>) -> Seq<u64> {
    s.map_values(|p: (u64, V)| p.0)
}

/// The sequence `s` after `insert(k, v)`: the value is replaced in place, or
/// the pair is added at the end.
pub open spec fn inserted<V>(s: Seq<(u64, V)>, k: u64, v: V) -> Seq<(u64, V)> {
    if has_key(s, k) {
        s.update(key_pos(s, k), (k, v))
    } else {
        s.push((k, v))
    }
}

/// The sequence `s` after `remove(k)`.
pub open spec fn removed<V>(s: Seq<(u64, V)>, k: u64) -> Seq<(u64, V)> {
    if has_key(s, k) {
        s.remove(key_pos(s, k))
    } else {
        s
    }
}

pub proof fn lemma_key_pos<V>(s: Seq<(u64, V)>, i: int)
    requires
        distinct_keys(s),
        0 <= i < s.len(),
    ensures
        has_key(s, s[i].0),
        key_pos(s, s[i].0) == i,
{
}

/// Reading a key gives back what was last inserted under it, removing a key
/// makes it absent, and other keys are untouched.
pub proof fn lemma_value_of_after_write<V>(s: Seq<(u64, V)>, k: u64, v: V, other: u64)
    requires
        distinct_keys(s),
        other != k,
    ensures
        value_of(inserted(s, k, v), k) == Some(v),
        value_of(inserted(s, k, v), other) == value_of(s, other),
        value_of(removed(s, k), k) is None,
        value_of(removed(s, k), other) == value_of(s, other),
{
    let t = inserted(s, k, v);
    if has_key(s, k) {
        let p = key_pos(s, k);
        assert(t[p].0 == k);
        assert(distinct_keys(t));
        lemma_key_pos(t, p);
    } else {
        assert(t[s.len() as int].0 == k);
        assert(distinct_keys(t)) by {
            assert forall|i: int, j: int| 0 <= i < t.len() && 0 <= j < t.len() && i != j implies t[i].0
                != t[j].0 by {
                if i < s.len() && j < s.len() {
                    assert(t[i] == s[i] && t[j] == s[j]);
                } else if i < s.len() {
                    assert(t[i] == s[i]);
                } else {
                    assert(t[j] == s[j]);
                }
            }
        }
        lemma_key_pos(t, s.len() as int);
    }
    if has_key(s, other) {
        let q = key_pos(s, other);
        assert(t[q] == s[q]);
        lemma_key_pos(t, q);
    } else {
        assert(!has_key(t, other)) by {
            if has_key(t, other) {
                let j = choose|j: int| 0 <= j < t.len() && t[j].0 == other;
                if j < s.len() {
                    assert(t[j].0 == s[j].0);
                }
            }
        }
    }
    let r = removed(s, k);
    if has_key(s, k) {
        let p = key_pos(s, k);
        assert(!has_key(r, k)) by {
            if has_key(r, k) {
                let j = choose|j: int| 0 <= j < r.len() && r[j].0 == k;
                if j < p {
                    assert(r[j] == s[j]);
                } else {
                    assert(r[j] == s[j + 1]);
                }
            }
        }
        if has_key(s, other) {
            let q = key_pos(s, other);
            let q2 = if q < p { q } else { q - 1 };
            assert(r[q2] == s[q]);
            assert(distinct_keys(r)) by {
                assert forall|i: int, j: int| 0 <= i < r.len() && 0 <= j < r.len() && i != j implies r[i].0
                    != r[j].0 by {
                    let a = if i < p { i } else { i + 1 };
                    let b = if j < p { j } else { j + 1 };
                    assert(r[i] == s[a] && r[j] == s[b]);
                }
            }
            lemma_key_pos(r, q2);
        } else {
            assert(!has_key(r, other)) by {
                if has_key(r, other) {
                    let j = choose|j: int| 0 <= j < r.len() && r[j].0 == other;
                    if j < p {
                        assert(r[j] == s[j]);
                    } else {
                        assert(r[j] == s[j + 1]);
                    }
                }
            }
        }
    }
}

/// A map from node ids to values that keeps its keys in insertion order.
pub struct IdMap<V> {
    pairs: Vec<(u64, V)>,
}

impl<V> View for IdMap<V> {
    type V = Seq<(u64, V)>;

    closed spec fn view(&self) -> Seq<(u64, V)> {
        self.pairs@
    }
}

impl<V: Copy> IdMap<V> {
    pub fn new() -> (r: Self)
        ensures
            r@ == Seq::<(u64, V)>::empty(),
    {
        IdMap { pairs: Vec::new() }
    }

    pub fn len(&self) -> (r: usize)
        ensures
            r == self@.len(),
    {
        self.pairs.len()
    }

    pub fn is_empty(&self) -> (r: bool)
        ensures
            r == (self@.len() == 0),
    {
        self.pairs.len() == 0
    }

    fn find(&self, k: u64) -> (r: Option<usize>)
        requires
            distinct_keys(self@),
        ensures
            match r {
                Some(i) => has_key(self@, k) && i == key_pos(self@, k),
                None => !has_key(self@, k),
            },
    {
        let mut i: usize = 0;
        while i < self.pairs.len()
            invariant
                0 <= i <= self.pairs@.len(),
                distinct_keys(self@),
                forall|j: int| 0 <= j < i ==> self.pairs@[j].0 != k,
            decreases self.pairs@.len() - i,
        {
            if self.pairs[i].0 == k {
                proof {
                    lemma_key_pos(self@, i as int);
                }
                return Some(i);
            }
            i += 1;
        }
        None
    }

    pub fn contains_key(&self, k: u64) -> (r: bool)
        requires
            distinct_keys(self@),
        ensures
            r == has_key(self@, k),
    {
        self.find(k).is_some()
    }

    pub fn get(&self, k: u64) -> (r: Option<V>)
        requires
            distinct_keys(self@),
        ensures
            r == value_of(self@, k),
    {
        match self.find(k) {
            Some(i) => Some(self.pairs[i].1),
            None => None,
        }
    }

    /// The pair at position `i`.
    pub fn get_at(&self, i: usize) -> (r: (u64, V))
        requires
            i < self@.len(),
        ensures
            r == self@[i as int],
    {
        self.pairs[i]
    }

    /// Replaces the value at position `i`.
    pub fn set_at(&mut self, i: usize, v: V)
        requires
            i < old(self)@.len(),
        ensures
            final(self)@ == old(self)@.update(i as int, (old(self)@[i as int].0, v)),
    {
        let k = self.pairs[i].0;
        self.pairs.set(i, (k, v));
    }

    pub fn insert(&mut self, k: u64, v: V)
        requires
            distinct_keys(old(self)@),
        ensures
            final(self)@ == inserted(old(self)@, k, v),
            distinct_keys(final(self)@),
    {
        match self.find(k) {
            Some(i) => {
                self.pairs.set(i, (k, v));
            },
            None => {
                self.pairs.push((k, v));
            },
        }
    }

    pub fn remove(&mut self, k: u64)
        requires
            distinct_keys(old(self)@),
        ensures
            final(self)@ == removed(old(self)@, k),
            distinct_keys(final(self)@),
    {
        match self.find(k) {
            Some(i) => {
                let _ = self.pairs.remove(i);
            },
            None => {},
        }
    }

    pub fn clear(&mut self)
        ensures
            final(self)@ == Seq::<(u64, V)>::empty(),
    {
        self.pairs.clear();
    }

    /// The keys, in order.
    pub fn keys(&self) -> (r: Vec<u64>)
        ensures
            r@ == keys_of(self@),
    {
        let mut r: Vec<u64> = Vec::new();
        let mut i: usize = 0;
        while i < self.pairs.len()
            invariant
                0 <= i <= self.pairs@.len(),
                r@ =~= keys_of(self@.subrange(0, i as int)),
            decreases self.pairs@.len() - i,
        {
            r.push(self.pairs[i].0);
            proof {
                assert(self@.subrange(0, i + 1) =~= self@.subrange(0, i as int).push(self@[i as int]));
            }
            i += 1;
        }
        proof {
            assert(self@.subrange(0, i as int) =~= self@);
        }
        r
    }

    pub fn copy(&self) -> (r: Self)
        ensures
            r@ == self@,
    {
        let mut pairs: Vec<(u64, V)> = Vec::new();
        let mut i: usize = 0;
        while i < self.pairs.len()
            invariant
                0 <= i <= self.pairs@.len(),
                pairs@ =~= self@.subrange(0, i as int),
            decreases self.pairs@.len() - i,
        {
            pairs.push(self.pairs[i]);
            i += 1;
        }
        IdMap { pairs }
    }
}

} // verus!
