use vstd::prelude::*;

use crate::clock::now_seconds;
use crate::keys::{Digest, PublicKey};
use crate::schema::{Contents, Timestamp, TimestampSchema};

verus! {

/// A request to record `content` for the key `from`.
#[derive(Clone, Copy, Debug, PartialEq, Eq)]
pub struct TxTimestamp {
    pub from: PublicKey,
    pub content: Digest,
}

/// The entry that `tx` records when applied at time `now`.
pub open spec fn entry_of(tx: TxTimestamp, now: u64) -> Timestamp {
    Timestamp { pub_key: tx.from, content: tx.content, time: now }
}

/// The contents after applying `tx` at time `now`: the first entry for a key
/// is kept, and a later transaction for the same key changes nothing.
pub open spec fn applied(m: Contents, tx: TxTimestamp, now: u64) -> Contents {
    if m.contains_key(tx.from@) {
        m
    } else {
        m.insert(tx.from@, entry_of(tx, now))
    }
}

/// The contents after applying each transaction in turn, each at its own time.
pub open spec fn applied_all(m: Contents, s: Seq<(TxTimestamp, u64)>) -> Contents
    decreases s.len(),
{
    if s.len() == 0 {
        m
    } else {
        applied(applied_all(m, s.drop_last()), s.last().0, s.last().1)
    }
}

impl TxTimestamp {
    /// A transaction recording `content` for `from`.
    pub fn new(from: &PublicKey, content: &Digest) -> (r: TxTimestamp)
        ensures
            r.from == *from,
            r.content == *content,
    {
        TxTimestamp { from: *from, content: *content }
    }

    /// Applies the transaction at time `now`: records an entry for `from`
    /// unless one is recorded already.
    pub fn execute_at(&self, schema: &mut TimestampSchema, now: u64)
        requires
            old(schema).wf(),
        ensures
            final(schema).wf(),
            final(schema)@ == applied(old(schema)@, *self, now),
    {
        if !schema.contains(&self.from) {
            let entry = Timestamp { pub_key: self.from, content: self.content, time: now };
            schema.put(entry);
        }
    }

    /// Applies the transaction at the current time, read from the clock.
    pub fn execute(&self, schema: &mut TimestampSchema)
        requires
            old(schema).wf(),
        ensures
            final(schema).wf(),
            final(schema)@.contains_key(self.from@),
            final(schema)@ == applied(old(schema)@, *self, final(schema)@[self.from@].time),
    {
        let now = now_seconds();
        self.execute_at(schema, now);
    }
}

/// Applies the transactions of a block in their order, each at its own time.
pub fn execute_block(schema: &mut TimestampSchema, block: &Vec<(TxTimestamp, u64)>)
    requires
        old(schema).wf(),
    ensures
        final(schema).wf(),
        final(schema)@ == applied_all(old(schema)@, block@),
{
    let ghost start = schema@;
    let mut i: usize = 0;
    while i < block.len()
        invariant
            0 <= i <= block@.len(),
            schema.wf(),
            schema@ == applied_all(start, block@.subrange(0, i as int)),
        decreases block@.len() - i,
    {
        let (tx, now) = block[i];
        tx.execute_at(schema, now);
        assert(block@.subrange(0, i + 1).drop_last() == block@.subrange(0, i as int));
        i = i + 1;
    }
    assert(block@.subrange(0, block@.len() as int) == block@);
}

} // verus!
