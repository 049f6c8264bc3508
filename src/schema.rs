use vstd::prelude::*;

use crate::keys::{compare_keys, key_less, lemma_key_less_irreflexive, lemma_key_less_transitive, Digest, PublicKey};

verus! {

/// One recorded timestamp: who submitted, the digest submitted, and when it
/// was recorded (seconds).
#[derive(Clone, Copy, Debug, PartialEq, Eq)]
pub struct Timestamp {
    pub pub_key: PublicKey,
    pub content: Digest,
    pub time: u64,
}

/// Contents of a store: each recorded key mapped to its entry.
pub type Contents = Map<Seq<u8>, Timestamp>;

/// Entries in strictly increasing order of their keys.
pub open spec fn sorted_by_key(s: Seq<Timestamp>) -> bool {
    forall|i: int, j: int|
        0 <= i < j < s.len() ==> key_less(#[trigger] s[i].pub_key@, #[trigger] s[j].pub_key@)
}

/// `s` lists the entries of `m`, each once, in increasing order of key.
pub open spec fn lists_contents(s: Seq<Timestamp>, m: Contents) -> bool {
    &&& sorted_by_key(s)
    &&& forall|i: int|
        0 <= i < s.len() ==> m.contains_key(#[trigger] s[i].pub_key@) && m[s[i].pub_key@] == s[i]
    &&& forall|k: Seq<u8>|
        #[trigger] m.contains_key(k) ==> exists|i: int| 0 <= i < s.len() && s[i].pub_key@ == k
}

/// The store of timestamps: at most one entry per key, kept in key order.
pub struct TimestampSchema {
    entries: Vec<Timestamp>,
    contents: Ghost<Contents>,
}

impl View for TimestampSchema {
    type V = Contents;

    closed spec fn view(&self) -> Contents {
        self.contents@
    }
}

impl TimestampSchema {
    /// The entries in the order in which the store enumerates them.
    pub closed spec fn listing(&self) -> Seq<Timestamp> {
        self.entries@
    }

    pub open spec fn wf(&self) -> bool {
        lists_contents(self.listing(), self@)
    }

    /// An empty store.
    pub fn new() -> (r: TimestampSchema)
        ensures
            r.wf(),
            r@ == Map::<Seq<u8>, Timestamp>::empty(),
            r.listing() == Seq::<Timestamp>::empty(),
    {
        TimestampSchema { entries: Vec::new(), contents: Ghost(Map::empty()) }
    }

    /// Position of `key` among the entries: the number of entries whose key
    /// comes before it, and whether the entry there holds `key` itself.
    fn locate(&self, key: &PublicKey) -> (r: (usize, bool))
        requires
            self.wf(),
        ensures
            r.0 <= self.listing().len(),
            forall|i: int| 0 <= i < r.0 ==> key_less(#[trigger] self.listing()[i].pub_key@, key@),
            forall|i: int|
                r.0 <= i < self.listing().len() ==> key_less(
                    key@,
                    #[trigger] self.listing()[i].pub_key@,
                ) || (i == r.0 && r.1),
            r.1 ==> r.0 < self.listing().len() && self.listing()[r.0 as int].pub_key@ == key@,
            r.1 <==> self@.contains_key(key@),
    {
        let s = Ghost(self.entries@);
        let mut lo: usize = 0;
        let mut hi: usize = self.entries.len();
        while lo < hi
            invariant
                s@ == self.entries@,
                self.wf(),
                0 <= lo <= hi <= s@.len(),
                forall|i: int| 0 <= i < lo ==> key_less(#[trigger] s@[i].pub_key@, key@),
                forall|i: int|
                    hi <= i < s@.len() ==> key_less(key@, #[trigger] s@[i].pub_key@)
                        || s@[i].pub_key@ == key@,
            decreases hi - lo,
        {
            let mid = lo + (hi - lo) / 2;
            let c = compare_keys(&self.entries[mid].pub_key, key);
            if c < 0 {
                assert forall|i: int| 0 <= i < mid + 1 implies key_less(
                    #[trigger] s@[i].pub_key@,
                    key@,
                ) by {
                    if i < mid {
                        lemma_key_less_transitive(s@[i].pub_key@, s@[mid as int].pub_key@, key@);
                    }
                }
                lo = mid + 1;
            } else {
                assert forall|i: int| mid <= i < s@.len() implies key_less(
                    key@,
                    #[trigger] s@[i].pub_key@,
                ) || s@[i].pub_key@ == key@ by {
                    if i > mid {
                        if c == 0 {
                            assert(key_less(s@[mid as int].pub_key@, s@[i].pub_key@));
                        } else {
                            lemma_key_less_transitive(key@, s@[mid as int].pub_key@, s@[i].pub_key@);
                        }
                    }
                }
                hi = mid;
            }
        }
        let found = lo < self.entries.len() && compare_keys(&self.entries[lo].pub_key, key) == 0;
        proof {
            lemma_key_less_irreflexive(key@);
            if lo < s@.len() && !found {
                assert forall|i: int| lo < i < s@.len() implies key_less(
                    key@,
                    #[trigger] s@[i].pub_key@,
                ) by {
                    lemma_key_less_transitive(key@, s@[lo as int].pub_key@, s@[i].pub_key@);
                }
            }
            if !found && self@.contains_key(key@) {
                let i = choose|i: int| 0 <= i < s@.len() && s@[i].pub_key@ == key@;
                assert(key_less(key@, s@[i].pub_key@) || key_less(s@[i].pub_key@, key@));
            }
        }
        (lo, found)
    }

    /// The entry recorded for `pub_key`, if any.
    pub fn timestamp(&self, pub_key: &PublicKey) -> (r: Option<Timestamp>)
        requires
            self.wf(),
        ensures
            r == (if self@.contains_key(pub_key@) {
                Some(self@[pub_key@])
            } else {
                None::<Timestamp>
            }),
    {
        let (pos, found) = self.locate(pub_key);
        if found {
            Some(self.entries[pos])
        } else {
            None
        }
    }

    /// Whether an entry is recorded for `pub_key`.
    pub fn contains(&self, pub_key: &PublicKey) -> (r: bool)
        requires
            self.wf(),
        ensures
            r == self@.contains_key(pub_key@),
    {
        self.locate(pub_key).1
    }

    /// All entries, in increasing order of key.
    pub fn timestamps(&self) -> (r: Vec<Timestamp>)
        requires
            self.wf(),
        ensures
            r@ == self.listing(),
            lists_contents(r@, self@),
    {
        self.entries.clone()
    }

    /// Number of recorded entries.
    pub fn len(&self) -> (r: usize)
        requires
            self.wf(),
        ensures
            r == self.listing().len(),
    {
        self.entries.len()
    }

    /// Records `entry` under its key. The key must not be recorded yet:
    /// entries are never replaced.
    pub fn put(&mut self, entry: Timestamp)
        requires
            old(self).wf(),
            !old(self)@.contains_key(entry.pub_key@),
        ensures
            final(self).wf(),
            final(self)@ == old(self)@.insert(entry.pub_key@, entry),
    {
        let (pos, found) = self.locate(&entry.pub_key);
        let ghost s = self.entries@;
        let ghost m = self.contents@;
        self.entries.insert(pos, entry);
        self.contents = Ghost(m.insert(entry.pub_key@, entry));
        proof {
            let t = self.entries@;
            assert(t == s.insert(pos as int, entry));
            assert forall|i: int, j: int| 0 <= i < j < t.len() implies key_less(
                #[trigger] t[i].pub_key@,
                #[trigger] t[j].pub_key@,
            ) by {
                if j < pos {
                } else if j == pos {
                } else if i < pos {
                    lemma_key_less_transitive(t[i].pub_key@, entry.pub_key@, t[j].pub_key@);
                } else if i == pos {
                } else {
                    assert(t[i] == s[i - 1] && t[j] == s[j - 1]);
                }
            }
            assert forall|i: int| 0 <= i < t.len() implies self@.contains_key(
                #[trigger] t[i].pub_key@,
            ) && self@[t[i].pub_key@] == t[i] by {
                if i < pos {
                    assert(t[i] == s[i]);
                    assert(key_less(s[i].pub_key@, entry.pub_key@));
                    lemma_key_less_irreflexive(entry.pub_key@);
                } else if i > pos {
                    assert(t[i] == s[i - 1]);
                    assert(key_less(entry.pub_key@, s[i - 1].pub_key@));
                    lemma_key_less_irreflexive(entry.pub_key@);
                }
            }
            assert forall|k: Seq<u8>| #[trigger] self@.contains_key(k) implies exists|i: int|
                0 <= i < t.len() && t[i].pub_key@ == k by {
                if k == entry.pub_key@ {
                    assert(t[pos as int].pub_key@ == k);
                } else {
                    let i = choose|i: int| 0 <= i < s.len() && s[i].pub_key@ == k;
                    if i < pos {
                        assert(t[i] == s[i]);
                    } else {
                        assert(t[i + 1] == s[i]);
                    }
                }
            }
        }
    }
}

} // verus!
