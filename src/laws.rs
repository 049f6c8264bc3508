use vstd::prelude::*;

use crate::keys::{key_less, lemma_key_less_asymmetric, lemma_key_less_irreflexive};
use crate::schema::{lists_contents, sorted_by_key, Contents, Timestamp, TimestampSchema};
use crate::transaction::{applied, applied_all, entry_of, TxTimestamp};

verus! {

/// No two transactions of `s` are for the same key.
pub open spec fn distinct_owners(s: Seq<(TxTimestamp, u64)>) -> bool {
    forall|i: int, j: int|
        0 <= i < j < s.len() ==> (#[trigger] s[i]).0.from@ != (#[trigger] s[j]).0.from@
}

/// Some transaction of `s` is for the key `k`.
pub open spec fn has_owner(s: Seq<(TxTimestamp, u64)>, k: Seq<u8>) -> bool {
    exists|i: int| 0 <= i < s.len() && (#[trigger] s[i]).0.from@ == k
}

/// The entries that the transactions of `s` record, in the order of `s`.
pub open spec fn entries_of(s: Seq<(TxTimestamp, u64)>) -> Seq<Timestamp> {
    s.map_values(|p: (TxTimestamp, u64)| entry_of(p.0, p.1))
}

proof fn lemma_applied_all_distinct(m: Contents, s: Seq<(TxTimestamp, u64)>)
    requires
        distinct_owners(s),
    ensures
        forall|k: Seq<u8>|
            #[trigger] applied_all(m, s).contains_key(k) <==> (m.contains_key(k) || has_owner(
                s,
                k,
            )),
        forall|k: Seq<u8>| #[trigger] m.contains_key(k) ==> applied_all(m, s)[k] == m[k],
        forall|i: int|
            0 <= i < s.len() && !m.contains_key((#[trigger] s[i]).0.from@) ==> applied_all(
                m,
                s,
            )[s[i].0.from@] == entry_of(s[i].0, s[i].1),
    decreases s.len(),
{
    if s.len() > 0 {
        let t = s.drop_last();
        let l = s.last();
        assert forall|i: int, j: int| 0 <= i < j < t.len() implies (#[trigger] t[i]).0.from@
            != (#[trigger] t[j]).0.from@ by {
            assert(t[i] == s[i] && t[j] == s[j]);
        }
        lemma_applied_all_distinct(m, t);
        let a = applied_all(m, t);
        assert(!has_owner(t, l.0.from@)) by {
            if has_owner(t, l.0.from@) {
                let i = choose|i: int| 0 <= i < t.len() && (#[trigger] t[i]).0.from@ == l.0.from@;
                assert(s[i] == t[i]);
                assert(s[s.len() - 1] == l);
            }
        }
        assert forall|k: Seq<u8>| has_owner(s, k) <==> (has_owner(t, k) || k == l.0.from@) by {
            if has_owner(s, k) {
                let i = choose|i: int| 0 <= i < s.len() && (#[trigger] s[i]).0.from@ == k;
                if i < t.len() {
                    assert(t[i] == s[i]);
                }
            }
            if has_owner(t, k) {
                let i = choose|i: int| 0 <= i < t.len() && (#[trigger] t[i]).0.from@ == k;
                assert(t[i] == s[i]);
            }
            if k == l.0.from@ {
                assert(s[s.len() - 1] == l);
            }
        }
        assert forall|i: int|
            0 <= i < s.len() && !m.contains_key((#[trigger] s[i]).0.from@) implies applied_all(
            m,
            s,
        )[s[i].0.from@] == entry_of(s[i].0, s[i].1) by {
            if i < t.len() {
                assert(t[i] == s[i]);
                assert(has_owner(t, s[i].0.from@));
            } else {
                assert(s[i] == l);
            }
        }
    }
}

/// Applying a set of transactions for distinct keys gives the same contents
/// whatever the order in which they are applied.
pub proof fn lemma_order_independent(
    m: Contents,
    s1: Seq<(TxTimestamp, u64)>,
    s2: Seq<(TxTimestamp, u64)>,
)
    requires
        distinct_owners(s1),
        distinct_owners(s2),
        forall|x: (TxTimestamp, u64)| s1.contains(x) <==> s2.contains(x),
    ensures
        applied_all(m, s1) == applied_all(m, s2),
{
    lemma_applied_all_distinct(m, s1);
    lemma_applied_all_distinct(m, s2);
    let a1 = applied_all(m, s1);
    let a2 = applied_all(m, s2);
    assert forall|k: Seq<u8>| has_owner(s1, k) <==> has_owner(s2, k) by {
        if has_owner(s1, k) {
            let i = choose|i: int| 0 <= i < s1.len() && (#[trigger] s1[i]).0.from@ == k;
            assert(s1.contains(s1[i]));
            let j = choose|j: int| 0 <= j < s2.len() && s2[j] == s1[i];
            assert(s2[j].0.from@ == k);
        }
        if has_owner(s2, k) {
            let i = choose|i: int| 0 <= i < s2.len() && (#[trigger] s2[i]).0.from@ == k;
            assert(s2.contains(s2[i]));
            let j = choose|j: int| 0 <= j < s1.len() && s1[j] == s2[i];
            assert(s1[j].0.from@ == k);
        }
    }
    assert forall|k: Seq<u8>| #[trigger] a1.contains_key(k) implies a1[k] == a2[k] by {
        if !m.contains_key(k) {
            let i = choose|i: int| 0 <= i < s1.len() && (#[trigger] s1[i]).0.from@ == k;
            assert(s1.contains(s1[i]));
            let j = choose|j: int| 0 <= j < s2.len() && s2[j] == s1[i];
        }
    }
    assert(a1 =~= a2);
}

/// Once a key is recorded, a later transaction for the same key, whatever
/// its digest, leaves the contents unchanged: the first entry stays.
pub proof fn lemma_first_writer_wins(
    m: Contents,
    first: TxTimestamp,
    t1: u64,
    second: TxTimestamp,
    t2: u64,
)
    requires
        !m.contains_key(first.from@),
        second.from@ == first.from@,
    ensures
        applied(applied(m, first, t1), second, t2) == applied(m, first, t1),
        applied(applied(m, first, t1), second, t2)[first.from@] == entry_of(first, t1),
{
}

/// Submitting the same key and digest twice keeps the time of the first.
pub proof fn lemma_resubmission_keeps_time(m: Contents, tx: TxTimestamp, t1: u64, t2: u64)
    requires
        !m.contains_key(tx.from@),
    ensures
        applied(applied(m, tx, t1), tx, t2)[tx.from@].time == t1,
{
    lemma_first_writer_wins(m, tx, t1, tx, t2);
}

/// A key is absent until a transaction for it is applied, and present right
/// after.
pub proof fn lemma_absent_until_applied(s: Seq<(TxTimestamp, u64)>, tx: TxTimestamp, now: u64)
    requires
        forall|i: int| 0 <= i < s.len() ==> (#[trigger] s[i]).0.from@ != tx.from@,
    ensures
        !applied_all(Map::empty(), s).contains_key(tx.from@),
        applied(applied_all(Map::empty(), s), tx, now).contains_key(tx.from@),
        applied(applied_all(Map::empty(), s), tx, now)[tx.from@] == entry_of(tx, now),
    decreases s.len(),
{
    if s.len() > 0 {
        let t = s.drop_last();
        assert forall|i: int| 0 <= i < t.len() implies (#[trigger] t[i]).0.from@ != tx.from@ by {
            assert(t[i] == s[i]);
        }
        lemma_absent_until_applied(t, tx, now);
        assert(s[s.len() - 1] == s.last());
    }
}

/// After transactions for distinct keys are applied to an empty store, the
/// store lists exactly the entries they recorded, each once.
pub proof fn lemma_listing_complete(store: TimestampSchema, s: Seq<(TxTimestamp, u64)>)
    requires
        store.wf(),
        store@ == applied_all(Map::empty(), s),
        distinct_owners(s),
    ensures
        store.listing().no_duplicates(),
        store.listing().to_set() == entries_of(s).to_set(),
        store.listing().len() == s.len(),
{
    let m = Map::<Seq<u8>, Timestamp>::empty();
    lemma_applied_all_distinct(m, s);
    let l = store.listing();
    let e = entries_of(s);
    assert(lists_contents(l, store@));
    assert forall|i: int, j: int| 0 <= i < l.len() && 0 <= j < l.len() && i != j implies l[i]
        != l[j] by {
        lemma_key_less_irreflexive(l[i].pub_key@);
        if i < j {
            assert(key_less(l[i].pub_key@, l[j].pub_key@));
        } else {
            assert(key_less(l[j].pub_key@, l[i].pub_key@));
        }
    }
    assert forall|i: int, j: int| 0 <= i < e.len() && 0 <= j < e.len() && i != j implies e[i]
        != e[j] by {
        if i < j {
            assert(s[i].0.from@ != s[j].0.from@);
        } else {
            assert(s[j].0.from@ != s[i].0.from@);
        }
    }
    assert forall|x: Timestamp| l.to_set().contains(x) <==> e.to_set().contains(x) by {
        if l.contains(x) {
            let i = choose|i: int| 0 <= i < l.len() && l[i] == x;
            let k = l[i].pub_key@;
            assert(store@.contains_key(k));
            let j = choose|j: int| 0 <= j < s.len() && (#[trigger] s[j]).0.from@ == k;
            assert(e[j] == x);
            assert(e.contains(x));
        }
        if e.contains(x) {
            let j = choose|j: int| 0 <= j < e.len() && e[j] == x;
            let k = s[j].0.from@;
            assert(has_owner(s, k));
            assert(store@.contains_key(k));
            assert(store@[k] == e[j]);
            let i = choose|i: int| 0 <= i < l.len() && l[i].pub_key@ == k;
            assert(l[i] == x);
            assert(l.contains(x));
        }
    }
    assert(l.to_set() =~= e.to_set());
    l.unique_seq_to_set();
    e.unique_seq_to_set();
}

proof fn lemma_sorted_equal(a: Seq<Timestamp>, b: Seq<Timestamp>)
    requires
        sorted_by_key(a),
        sorted_by_key(b),
        forall|x: Timestamp| a.contains(x) <==> b.contains(x),
    ensures
        a == b,
    decreases a.len(),
{
    if a.len() == 0 {
        if b.len() > 0 {
            assert(b.contains(b[0]));
        }
        assert(a =~= b);
    } else {
        assert(a.contains(a[0]));
        let j = choose|j: int| 0 <= j < b.len() && b[j] == a[0];
        assert(b.contains(b[0]));
        let i = choose|i: int| 0 <= i < a.len() && a[i] == b[0];
        if j > 0 {
            assert(key_less(b[0].pub_key@, b[j].pub_key@));
            if i > 0 {
                assert(key_less(a[0].pub_key@, a[i].pub_key@));
                lemma_key_less_asymmetric(a[0].pub_key@, b[0].pub_key@);
            } else {
                lemma_key_less_irreflexive(a[0].pub_key@);
            }
        }
        assert(b[0] == a[0]);
        let ra = a.drop_first();
        let rb = b.drop_first();
        assert forall|x: Timestamp| ra.contains(x) <==> rb.contains(x) by {
            lemma_key_less_irreflexive(a[0].pub_key@);
            if ra.contains(x) {
                let k = choose|k: int| 0 <= k < ra.len() && ra[k] == x;
                assert(a[k + 1] == x);
                assert(key_less(a[0].pub_key@, x.pub_key@));
                assert(a.contains(x));
                assert(b.contains(x));
                let m = choose|m: int| 0 <= m < b.len() && b[m] == x;
                assert(m != 0);
                assert(rb[m - 1] == x);
            }
            if rb.contains(x) {
                let k = choose|k: int| 0 <= k < rb.len() && rb[k] == x;
                assert(b[k + 1] == x);
                assert(key_less(b[0].pub_key@, x.pub_key@));
                assert(b.contains(x));
                assert(a.contains(x));
                let m = choose|m: int| 0 <= m < a.len() && a[m] == x;
                assert(m != 0);
                assert(ra[m - 1] == x);
            }
        }
        lemma_sorted_equal(ra, rb);
        assert forall|k: int| 0 <= k < a.len() implies a[k] == b[k] by {
            if k > 0 {
                assert(a[k] == ra[k - 1] && b[k] == rb[k - 1]);
            }
        }
        assert(a =~= b);
    }
}

/// Two stores with the same contents list the same entries in the same
/// order, however each was built: the listing, and anything computed from
/// it, depends on the contents alone.
pub proof fn lemma_listing_determined_by_contents(a: TimestampSchema, b: TimestampSchema)
    requires
        a.wf(),
        b.wf(),
        a@ == b@,
    ensures
        a.listing() == b.listing(),
{
    let la = a.listing();
    let lb = b.listing();
    assert forall|x: Timestamp| la.contains(x) <==> lb.contains(x) by {
        if la.contains(x) {
            let i = choose|i: int| 0 <= i < la.len() && la[i] == x;
            assert(b@.contains_key(x.pub_key@));
            let j = choose|j: int| 0 <= j < lb.len() && lb[j].pub_key@ == x.pub_key@;
            assert(lb[j] == x);
        }
        if lb.contains(x) {
            let i = choose|i: int| 0 <= i < lb.len() && lb[i] == x;
            assert(a@.contains_key(x.pub_key@));
            let j = choose|j: int| 0 <= j < la.len() && la[j].pub_key@ == x.pub_key@;
            assert(la[j] == x);
        }
    }
    lemma_sorted_equal(la, lb);
}

/// Two stores built from the same contents by applying a set of transactions
/// for distinct keys in two different orders list the same entries in the
/// same order.
pub proof fn lemma_order_independent_listing(
    a: TimestampSchema,
    b: TimestampSchema,
    m: Contents,
    s1: Seq<(TxTimestamp, u64)>,
    s2: Seq<(TxTimestamp, u64)>,
)
    requires
        a.wf(),
        b.wf(),
        a@ == applied_all(m, s1),
        b@ == applied_all(m, s2),
        distinct_owners(s1),
        distinct_owners(s2),
        forall|x: (TxTimestamp, u64)| s1.contains(x) <==> s2.contains(x),
    ensures
        a.listing() == b.listing(),
{
    lemma_order_independent(m, s1, s2);
    lemma_listing_determined_by_contents(a, b);
}

} // verus!
