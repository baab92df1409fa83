//! Reply correlation: which outstanding request a reply frame answers.
//!
//! Each request waits under the `SEQ` it was sent with. A reply is delivered only when both its
//! frame kind and its first byte match what the waiter expects, so a stale `RESP` reusing a `SEQ`
//! that a `TRANSFER` now waits on is never taken as that transfer's answer. A waiter that timed out
//! is withdrawn by its generation, so a newer request that reused its `SEQ` stays.
//!
//! The table holds what the decisions read; the reply channels are the caller's, kept by `SEQ`.

use crate::keyed::KeyedRows;
use vstd::prelude::*;

verus! {

/// The kind of frame that answers a request.
#[derive(Debug, Clone, Copy, PartialEq, Eq, Structural)]
pub enum ReplyKind {
    /// `RESP`, the answer to a `QUERY`.
    Resp,
    /// `TRANSFER_RESP`, the answer to a `TRANSFER`.
    TransferResp,
}

/// One outstanding request.
#[derive(Debug, Clone, Copy, PartialEq, Eq, Structural)]
pub struct Waiter {
    /// The request's generation, unique among requests.
    pub gen_id: u64,
    /// The frame kind that answers it.
    pub kind: ReplyKind,
    /// The first byte its answer leads with (a query selector, or a transfer's endpoint).
    pub what: u8,
}

/// The `SEQ` `k` steps after `c`, wrapping.
pub open spec fn seq_after(c: u8, k: int) -> u64 {
    ((c + k) % 256) as u64
}

/// The first offset `k`, from `from` on and below 256, whose `SEQ` after `c` is free in `m`.
pub open spec fn first_free(m: Map<u64, Waiter>, c: u8, from: int) -> Option<int>
    decreases 256 - from,
{
    if from >= 256 || from < 0 {
        None
    } else if !m.dom().contains(seq_after(c, from)) {
        Some(from)
    } else {
        first_free(m, c, from + 1)
    }
}

/// The `SEQ` a request registered with the counter at `c` takes: the first free one from `c` on;
/// when all 256 are taken, the counter's value after going round once.
pub open spec fn chosen_seq(m: Map<u64, Waiter>, c: u8) -> u64 {
    match first_free(m, c, 0) {
        Some(k) => seq_after(c, k),
        None => c as u64,
    }
}

/// The `SEQ` counter after registering with it at `c`.
pub open spec fn counter_after(m: Map<u64, Waiter>, c: u8) -> u8 {
    match first_free(m, c, 0) {
        Some(k) => seq_after(c, k + 1) as u8,
        None => seq_after(c, 1) as u8,
    }
}

/// Whether a reply of `kind` with `payload` under a waiter `w` answers it.
pub open spec fn answers(w: Waiter, kind: ReplyKind, payload: Seq<u8>) -> bool {
    w.kind == kind && payload.len() > 0 && payload[0] == w.what
}

/// The outstanding requests, by `SEQ`.
pub struct PendingTable {
    rows: KeyedRows<Waiter>,
}

impl PendingTable {
    /// The outstanding requests, by `SEQ`.
    pub closed spec fn view(&self) -> Map<u64, Waiter> {
        self.rows.map()
    }

    /// The table's invariant.
    pub closed spec fn wf(&self) -> bool {
        &&& self.rows.wf()
        &&& forall|k: u64| #[trigger] self.rows.map().dom().contains(k) ==> k < 256
    }

    /// No request outstanding.
    pub fn new() -> (t: PendingTable)
        ensures
            t.wf(),
            t@ == Map::<u64, Waiter>::empty(),
    {
        PendingTable { rows: KeyedRows::new() }
    }

    /// How many requests are outstanding.
    pub fn len(&self) -> (n: usize)
        requires
            self.wf(),
        ensures
            self@.dom().finite(),
            n == self@.dom().len(),
    {
        proof {
            crate::keyed::lemma_rows_len(self.rows.rows());
        }
        self.rows.len()
    }

    /// Whether a request waits under `seq`.
    pub fn contains(&self, seq: u8) -> (b: bool)
        requires
            self.wf(),
        ensures
            b == self@.dom().contains(seq as u64),
    {
        self.rows.contains(seq as u64)
    }

    /// Register a request that `kind` frames leading with `what` answer, under a `SEQ` taken from
    /// the shared counter: the first free one from the counter on, so a live request is never
    /// displaced while any `SEQ` is free. Returns the `SEQ`.
    pub fn register(&mut self, counter: &mut u8, gen_id: u64, kind: ReplyKind, what: u8) -> (seq: u8)
        requires
            old(self).wf(),
        ensures
            final(self).wf(),
            seq as u64 == chosen_seq(old(self)@, *old(counter)),
            *final(counter) == counter_after(old(self)@, *old(counter)),
            final(self)@ == old(self)@.insert(seq as u64, Waiter { gen_id, kind, what }),
    {
        let ghost c = *counter;
        let ghost m = self@;
        let mut seq: u8 = *counter;
        *counter = counter.wrapping_add(1);
        let mut i: usize = 0;
        while i < 256 && self.rows.contains(seq as u64)
            invariant
                self.wf(),
                self@ == m,
                i <= 256,
                seq as int == (c + i) % 256,
                *counter as int == (c + i + 1) % 256,
                first_free(m, c, 0) == first_free(m, c, i as int),
            decreases 256 - i,
        {
            seq = *counter;
            *counter = counter.wrapping_add(1);
            i = i + 1;
        }
        proof {
            if i == 256 {
                assert(first_free(m, c, 256) is None);
                assert(seq as int == c as int) by (nonlinear_arith)
                    requires
                        seq as int == (c + 256) % 256,
                        0 <= c < 256,
                ;
                assert((c + 257) % 256 == (c + 1) % 256) by (nonlinear_arith)
                    requires
                        0 <= c < 256,
                ;
            } else {
                assert(first_free(m, c, i as int) == Some(i as int));
            }
        }
        self.rows.insert(seq as u64, Waiter { gen_id, kind, what });
        seq
    }

    /// A reply of `kind` under `seq` arrived: it is delivered (and its waiter withdrawn) only when a
    /// request waits under `seq` for that kind of frame and the payload leads with the byte it
    /// expects; otherwise it is dropped and the table is unchanged. Returns whether it was
    /// delivered.
    pub fn deliver(&mut self, kind: ReplyKind, seq: u8, payload: &[u8]) -> (d: bool)
        requires
            old(self).wf(),
        ensures
            final(self).wf(),
            d == (old(self)@.dom().contains(seq as u64) && answers(
                old(self)@[seq as u64],
                kind,
                payload@,
            )),
            d ==> final(self)@ == old(self)@.remove(seq as u64),
            !d ==> final(self)@ == old(self)@,
    {
        match self.rows.get(seq as u64) {
            Some(w) => {
                if w.kind == kind && payload.len() > 0 && payload[0] == w.what {
                    self.rows.remove(seq as u64);
                    true
                } else {
                    false
                }
            },
            None => false,
        }
    }

    /// Withdraw the request of generation `gen_id` under `seq` (it timed out, or its send failed);
    /// a newer request that reused `seq` stays.
    pub fn cancel(&mut self, seq: u8, gen_id: u64)
        requires
            old(self).wf(),
        ensures
            final(self).wf(),
            (old(self)@.dom().contains(seq as u64) && old(self)@[seq as u64].gen_id == gen_id)
                ==> final(self)@ == old(self)@.remove(seq as u64),
            !(old(self)@.dom().contains(seq as u64) && old(self)@[seq as u64].gen_id == gen_id)
                ==> final(self)@ == old(self)@,
    {
        match self.rows.get(seq as u64) {
            Some(w) => {
                if w.gen_id == gen_id {
                    self.rows.remove(seq as u64);
                }
            },
            None => {},
        }
    }
}

/// Correlation law: a request registered while some `SEQ` is free never displaces one still
/// waiting, and a reply under its `SEQ` of the kind and first byte it expects is delivered to it.
pub proof fn lemma_register_then_deliver(m: Map<u64, Waiter>, c: u8, w: Waiter, payload: Seq<u8>)
    requires
        first_free(m, c, 0) is Some,
        answers(w, w.kind, payload),
    ensures
        !m.dom().contains(chosen_seq(m, c)),
        m.insert(chosen_seq(m, c), w).dom().contains(chosen_seq(m, c)),
        answers(m.insert(chosen_seq(m, c), w)[chosen_seq(m, c)], w.kind, payload),
{
    lemma_first_free_is_free(m, c, 0);
}

/// The offset [`first_free`] finds is free.
pub proof fn lemma_first_free_is_free(m: Map<u64, Waiter>, c: u8, from: int)
    requires
        first_free(m, c, from) is Some,
    ensures
        !m.dom().contains(seq_after(c, first_free(m, c, from)->Some_0)),
        from <= first_free(m, c, from)->Some_0 < 256,
    decreases 256 - from,
{
    if from >= 256 || from < 0 {
    } else if !m.dom().contains(seq_after(c, from)) {
    } else {
        lemma_first_free_is_free(m, c, from + 1);
    }
}

/// Correlation law: a reply of the other frame kind never reaches a waiter, whatever its `SEQ`
/// and bytes, so a stale `RESP` cannot answer a `TRANSFER`.
pub proof fn lemma_kind_mismatch_never_delivers(w: Waiter, kind: ReplyKind, payload: Seq<u8>)
    requires
        w.kind != kind,
    ensures
        !answers(w, kind, payload),
{
}

} // verus!
