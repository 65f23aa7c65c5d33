//! The done and cleared marks: sets of item keys, one per line of an append-only file.
//!
//! Done marks keep a command visible (struck through); cleared marks remove an item from
//! the panel entirely. Both are one-way: nothing here ever removes a key.
use vstd::prelude::*;

verus! {

/// A set of item keys, held as a `Vec` of distinct keys: vstd specifies `HashSet` only for
/// keys whose hashing it models, which `String` is not, so a hash set of keys would leave
/// every lookup unproved. Lookups here are linear, which suits marks files of a few
/// hundred lines.
pub struct MarkSet {
    keys: Vec<String>,
}

impl View for MarkSet {
    type V = Set<Seq<char>>;

    closed spec fn view(&self) -> Set<Seq<char>> {
        self.keys@.map_values(|k: String| k@).to_set()
    }
}

impl MarkSet {
    /// The keys in storage order.
    closed spec fn key_seq(&self) -> Seq<Seq<char>> {
        self.keys@.map_values(|k: String| k@)
    }

    /// The empty set.
    pub fn new() -> (r: MarkSet)
        ensures
            r@ == Set::<Seq<char>>::empty(),
    {
        let r = MarkSet { keys: Vec::new() };
        assert(r@ =~= Set::<Seq<char>>::empty());
        r
    }

    /// The set of the given lines (what collecting a marks file's lines yields).
    pub fn from_lines(lines: Vec<String>) -> (r: MarkSet)
        ensures
            r@ == lines@.map_values(|k: String| k@).to_set(),
    {
        MarkSet { keys: lines }
    }

    /// Whether `key` is in the set.
    pub fn contains(&self, key: &String) -> (r: bool)
        ensures
            r == self@.contains(key@),
    {
        let mut i: usize = 0;
        while i < self.keys.len()
            invariant
                i <= self.keys@.len(),
                forall|j: int| 0 <= j < i ==> self.keys@[j]@ != key@,
            decreases self.keys@.len() - i,
        {
            if self.keys[i] == *key {
                proof {
                    assert(self.key_seq()[i as int] == key@);
                }
                return true;
            }
            i += 1;
        }
        proof {
            if self@.contains(key@) {
                let j = choose|j: int|
                    0 <= j < self.keys@.len() && #[trigger] self.key_seq()[j]
                        == key@;
                assert(self.keys@[j]@ == key@);
            }
        }
        false
    }

    /// Adds `key`; true when it was not there before (as `HashSet::insert` reports).
    pub fn insert(&mut self, key: String) -> (r: bool)
        ensures
            r == !old(self)@.contains(key@),
            final(self)@ == old(self)@.insert(key@),
    {
        if self.contains(&key) {
            proof {
                assert(self@.insert(key@) =~= self@);
            }
            false
        } else {
            let ghost before = self.keys@;
            self.keys.push(key);
            proof {
                assert(self.key_seq() =~= before.map_values(
                    |k: String| k@,
                ).push(key@));
                before.map_values(|k: String| k@).lemma_push_to_set_commute(key@);
            }
            true
        }
    }

    /// Whether both sets hold the same keys.
    pub fn same_keys(&self, other: &MarkSet) -> (r: bool)
        ensures
            r == (self@ == other@),
    {
        let mut i: usize = 0;
        while i < self.keys.len()
            invariant
                i <= self.keys@.len(),
                forall|j: int| 0 <= j < i ==> other@.contains(#[trigger] self.keys@[j]@),
            decreases self.keys@.len() - i,
        {
            if !other.contains(&self.keys[i]) {
                proof {
                    assert(self.key_seq()[i as int] == self.keys@[i as int]@);
                    assert(self@.contains(self.keys@[i as int]@));
                }
                return false;
            }
            i += 1;
        }
        let mut j: usize = 0;
        while j < other.keys.len()
            invariant
                j <= other.keys@.len(),
                forall|k: int| 0 <= k < j ==> self@.contains(#[trigger] other.keys@[k]@),
            decreases other.keys@.len() - j,
        {
            if !self.contains(&other.keys[j]) {
                proof {
                    assert(other.key_seq()[j as int] == other.keys@[j as int]@);
                    assert(other@.contains(other.keys@[j as int]@));
                }
                return false;
            }
            j += 1;
        }
        proof {
            assert forall|x: Seq<char>| self@.contains(x) <==> other@.contains(x) by {
                if self@.contains(x) {
                    let a = choose|a: int|
                        0 <= a < self.keys@.len() && #[trigger] self.key_seq()[a]
                            == x;
                    assert(self.keys@[a]@ == x);
                }
                if other@.contains(x) {
                    let b = choose|b: int|
                        0 <= b < other.keys@.len() && #[trigger] other.key_seq()[b]
                            == x;
                    assert(other.keys@[b]@ == x);
                }
            }
            assert(self@ =~= other@);
        }
        true
    }
}

} // verus!
