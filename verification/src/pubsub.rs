//! The notification hub: subscriber registries for new heads, filtered
//! logs, and completed confidential transactions, and the fan-out
//! computations run on every committed block range.
//!
//! The hub never touches the write path: registration hands out fresh
//! identifiers, unique across all three event classes, and the notify
//! functions read committed state and compute what each subscriber is owed;
//! performing the deliveries is the transport's business.
use vstd::prelude::*;

use crate::blockchain::Blockchain;
use crate::blockchain::Filter;
use crate::blockchain::LocalizedLogEntry;
use crate::blockchain::LogEntry;
use crate::blockchain::RichHeader;
use crate::blockchain::spec_log_matches;
use crate::blockchain::spec_topic_matches;
use crate::blockchain::spec_topics_match;
use crate::blockchain::spec_address_matches;
use crate::bytes::bytes_eq;
use crate::bytes::copy_whole;

verus! {

/// The event classes a caller can subscribe to.
pub enum SubscriptionKind {
    NewHeads,
    NewPendingTransactions,
    Logs,
    CompletedTransaction,
}

/// A transaction-matching predicate for completed-transaction events: each
/// present constraint must hold of the committed transaction's entry.
pub struct TxFilter {
    pub sender: Option<Vec<u8>>,
    pub recipient: Option<Vec<u8>>,
}

/// What a committed confidential transaction exposes to matching.
pub struct TxEntry {
    pub transaction_hash: Vec<u8>,
    pub sender: Vec<u8>,
    pub recipient: Option<Vec<u8>>,
}

/// What a completed-transaction subscriber is sent.
pub struct TransactionOutcome {
    pub hash: Vec<u8>,
    pub output: Vec<u8>,
}

/// Class-specific parameters a subscription carries.
pub enum SubscriptionParams {
    Logs(Filter),
    Transaction(TxFilter),
}

/// Why a subscription was rejected.
#[derive(Debug)]
pub enum SubscriptionError {
    /// The parameters do not match the expected shape for the kind.
    InvalidParams,
    /// The kind names events the chain does not track.
    Unimplemented,
}

pub open spec fn spec_tx_matches(f: TxFilter, e: TxEntry) -> bool {
    &&& (f.sender matches Some(s) ==> e.sender@ == s@)
    &&& (f.recipient matches Some(r) ==> (e.recipient matches Some(t) && t@ == r@))
}

/// Decides whether a committed transaction's entry satisfies a filter.
pub fn tx_filter_matches(f: &TxFilter, e: &TxEntry) -> (r: bool)
    ensures
        r == spec_tx_matches(*f, *e),
{
    match &f.sender {
        Some(s) => {
            if !bytes_eq(s, &e.sender) {
                return false;
            }
        },
        None => {},
    }
    match &f.recipient {
        Some(want) => match &e.recipient {
            Some(got) => {
                if !bytes_eq(want, got) {
                    return false;
                }
            },
            None => {
                return false;
            },
        },
        None => {},
    }
    true
}

pub open spec fn has_head(s: Seq<u64>, id: u64) -> bool {
    exists|k: int| 0 <= k < s.len() && s[k] == id
}

pub open spec fn has_log(s: Seq<(u64, Filter)>, id: u64) -> bool {
    exists|k: int| 0 <= k < s.len() && (#[trigger] s[k]).0 == id
}

pub open spec fn has_tx(s: Seq<(u64, TxFilter)>, id: u64) -> bool {
    exists|k: int| 0 <= k < s.len() && (#[trigger] s[k]).0 == id
}

/// PubSub notification handler: the three registries and the fan-out
/// computations.
pub struct ChainNotificationHandler {
    next_id: u64,
    heads_subscribers: Vec<u64>,
    logs_subscribers: Vec<(u64, Filter)>,
    tx_subscribers: Vec<(u64, TxFilter)>,
}

impl ChainNotificationHandler {
    pub closed spec fn next_id_spec(&self) -> u64 {
        self.next_id
    }

    pub closed spec fn heads(&self) -> Seq<u64> {
        self.heads_subscribers@
    }

    pub closed spec fn logs(&self) -> Seq<(u64, Filter)> {
        self.logs_subscribers@
    }

    pub closed spec fn txs(&self) -> Seq<(u64, TxFilter)> {
        self.tx_subscribers@
    }

    /// Whether some registry (at most one) holds the identifier.
    pub open spec fn contains_id(&self, id: u64) -> bool {
        has_head(self.heads(), id) || has_log(self.logs(), id) || has_tx(self.txs(), id)
    }

    /// The registry invariant: every registered identifier was handed out
    /// (below the counter), and no identifier is registered twice, in one
    /// registry or across two.
    pub open spec fn wf(&self) -> bool {
        &&& forall|k: int| 0 <= k < self.heads().len() ==> #[trigger] self.heads()[k]
            < self.next_id_spec()
        &&& forall|k: int| 0 <= k < self.logs().len() ==> (#[trigger] self.logs()[k]).0
            < self.next_id_spec()
        &&& forall|k: int| 0 <= k < self.txs().len() ==> (#[trigger] self.txs()[k]).0
            < self.next_id_spec()
        &&& forall|k1: int, k2: int|
            0 <= k1 < k2 < self.heads().len() ==> #[trigger] self.heads()[k1]
                != #[trigger] self.heads()[k2]
        &&& forall|k1: int, k2: int|
            0 <= k1 < k2 < self.logs().len() ==> (#[trigger] self.logs()[k1]).0 != (
            #[trigger] self.logs()[k2]).0
        &&& forall|k1: int, k2: int|
            0 <= k1 < k2 < self.txs().len() ==> (#[trigger] self.txs()[k1]).0 != (
            #[trigger] self.txs()[k2]).0
        &&& forall|k1: int, k2: int|
            0 <= k1 < self.heads().len() && 0 <= k2 < self.logs().len()
                ==> #[trigger] self.heads()[k1] != (#[trigger] self.logs()[k2]).0
        &&& forall|k1: int, k2: int|
            0 <= k1 < self.heads().len() && 0 <= k2 < self.txs().len()
                ==> #[trigger] self.heads()[k1] != (#[trigger] self.txs()[k2]).0
        &&& forall|k1: int, k2: int|
            0 <= k1 < self.logs().len() && 0 <= k2 < self.txs().len() ==> (
            #[trigger] self.logs()[k1]).0 != (#[trigger] self.txs()[k2]).0
    }

    /// Creates a hub with no subscribers.
    pub fn new() -> (r: Self)
        ensures
            r.wf(),
            r.next_id_spec() == 0,
            r.heads().len() == 0,
            r.logs().len() == 0,
            r.txs().len() == 0,
    {
        ChainNotificationHandler {
            next_id: 0,
            heads_subscribers: Vec::new(),
            logs_subscribers: Vec::new(),
            tx_subscribers: Vec::new(),
        }
    }

    /// Registers a subscriber: validates that the parameters match the
    /// expected shape for the kind, and on a match hands out a fresh
    /// identifier; on a mismatch rejects and registers nothing. Kinds the
    /// chain does not track are rejected as unimplemented.
    pub fn subscribe(&mut self, kind: SubscriptionKind, params: Option<SubscriptionParams>) -> (r:
        Result<u64, SubscriptionError>)
        requires
            old(self).wf(),
            old(self).next_id_spec() < u64::MAX,
        ensures
            final(self).wf(),
            match r {
                Ok(id) => {
                    &&& id == old(self).next_id_spec()
                    &&& !old(self).contains_id(id)
                    &&& final(self).contains_id(id)
                    &&& final(self).next_id_spec() == id + 1
                    &&& forall|id2: u64|
                        id2 != id ==> (final(self).contains_id(id2) <==> old(self).contains_id(
                            id2,
                        ))
                    &&& (kind is NewHeads ==> params is None && final(self).heads() == old(self).heads().push(id) && final(self).logs() == old(self).logs() && final(self).txs() == old(self).txs())
                    &&& (kind is Logs ==> (params matches Some(SubscriptionParams::Logs(f))
                        && final(self).logs() == old(self).logs().push((id, f)) && final(self).heads() == old(self).heads() && final(self).txs() == old(self).txs()))
                    &&& (kind is CompletedTransaction ==> (params matches Some(
                        SubscriptionParams::Transaction(f),
                    ) && final(self).txs() == old(self).txs().push((id, f)) && final(self).heads() == old(self).heads() && final(self).logs() == old(self).logs()))
                    &&& !(kind is NewPendingTransactions)
                },
                Err(e) => {
                    &&& *final(self) == *old(self)
                    &&& match kind {
                        SubscriptionKind::NewHeads => params is Some && e is InvalidParams,
                        SubscriptionKind::Logs => !(params matches Some(
                            SubscriptionParams::Logs(_),
                        )) && e is InvalidParams,
                        SubscriptionKind::CompletedTransaction => !(params matches Some(
                            SubscriptionParams::Transaction(_),
                        )) && e is InvalidParams,
                        SubscriptionKind::NewPendingTransactions => e is Unimplemented,
                    }
                },
            },
    {
        match kind {
            SubscriptionKind::NewHeads => match params {
                None => {
                    let id = self.next_id;
                    self.heads_subscribers.push(id);
                    self.next_id = self.next_id + 1;
                    proof {
                        assert(self.heads().drop_last() =~= old(self).heads());
                        assert(self.heads()[self.heads().len() - 1] == id);
                        lemma_fresh_id(*old(self), id);
                    }
                    Ok(id)
                },
                Some(_) => Err(SubscriptionError::InvalidParams),
            },
            SubscriptionKind::Logs => match params {
                Some(SubscriptionParams::Logs(f)) => {
                    let id = self.next_id;
                    self.logs_subscribers.push((id, f));
                    self.next_id = self.next_id + 1;
                    proof {
                        assert(self.logs().drop_last() =~= old(self).logs());
                        assert(self.logs()[self.logs().len() - 1].0 == id);
                        lemma_fresh_id(*old(self), id);
                    }
                    Ok(id)
                },
                _ => Err(SubscriptionError::InvalidParams),
            },
            SubscriptionKind::CompletedTransaction => match params {
                Some(SubscriptionParams::Transaction(f)) => {
                    let id = self.next_id;
                    self.tx_subscribers.push((id, f));
                    self.next_id = self.next_id + 1;
                    proof {
                        assert(self.txs().drop_last() =~= old(self).txs());
                        assert(self.txs()[self.txs().len() - 1].0 == id);
                        lemma_fresh_id(*old(self), id);
                    }
                    Ok(id)
                },
                _ => Err(SubscriptionError::InvalidParams),
            },
            SubscriptionKind::NewPendingTransactions => Err(SubscriptionError::Unimplemented),
        }
    }

    /// Removes the identifier from whichever registry holds it: answers
    /// whether anything was removed, so a second call with the same
    /// identifier answers false. Registries not holding the identifier are
    /// untouched; the one holding it loses exactly that entry.
    pub fn unsubscribe(&mut self, id: u64) -> (r: bool)
        requires
            old(self).wf(),
        ensures
            final(self).wf(),
            r == old(self).contains_id(id),
            !final(self).contains_id(id),
            forall|id2: u64|
                id2 != id ==> (final(self).contains_id(id2) <==> old(self).contains_id(id2)),
            final(self).next_id_spec() == old(self).next_id_spec(),
            !has_head(old(self).heads(), id) ==> final(self).heads() == old(self).heads(),
            !has_log(old(self).logs(), id) ==> final(self).logs() == old(self).logs(),
            !has_tx(old(self).txs(), id) ==> final(self).txs() == old(self).txs(),
            has_head(old(self).heads(), id) ==> exists|i: int|
                0 <= i < old(self).heads().len() && old(self).heads()[i] == id && final(self).heads() == #[trigger] old(self).heads().remove(i),
            has_log(old(self).logs(), id) ==> exists|i: int|
                0 <= i < old(self).logs().len() && old(self).logs()[i].0 == id && final(self).logs() == #[trigger] old(self).logs().remove(i),
            has_tx(old(self).txs(), id) ==> exists|i: int|
                0 <= i < old(self).txs().len() && old(self).txs()[i].0 == id && final(self).txs()
                    == #[trigger] old(self).txs().remove(i),
    {
        let nh = self.heads_subscribers.len();
        let mut i: usize = 0;
        while i < nh
            invariant
                i <= nh,
                nh == self.heads().len(),
                *self == *old(self),
                old(self).wf(),
                forall|k: int| 0 <= k < i ==> #[trigger] self.heads()[k] != id,
            decreases nh - i,
        {
            if self.heads_subscribers[i] == id {
                proof {
                    lemma_remove_head(self.heads(), i as int, id);
                    assert forall|k2: int| 0 <= k2 < self.logs().len() implies (
                    #[trigger] self.logs()[k2]).0 != id by {
                        assert(self.heads()[i as int] == id);
                    }
                    lemma_no_log(self.logs(), id);
                    assert forall|k2: int| 0 <= k2 < self.txs().len() implies (
                    #[trigger] self.txs()[k2]).0 != id by {
                        assert(self.heads()[i as int] == id);
                    }
                    lemma_no_tx(self.txs(), id);
                    assert(self.heads()[i as int] == id);
                }
                self.heads_subscribers.remove(i);
                proof {
                    assert(self.heads() == old(self).heads().remove(i as int));
                }
                return true;
            }
            i += 1;
        }
        let nl = self.logs_subscribers.len();
        let mut j: usize = 0;
        while j < nl
            invariant
                j <= nl,
                nl == self.logs().len(),
                *self == *old(self),
                old(self).wf(),
                forall|k: int| 0 <= k < j ==> (#[trigger] self.logs()[k]).0 != id,
            decreases nl - j,
        {
            if self.logs_subscribers[j].0 == id {
                proof {
                    lemma_remove_log(self.logs(), j as int, id);
                    assert forall|k2: int| 0 <= k2 < self.heads().len() implies #[trigger] self
                        .heads()[k2] != id by {
                        assert(self.logs()[j as int].0 == id);
                    }
                    lemma_no_head(self.heads(), id);
                    assert forall|k2: int| 0 <= k2 < self.txs().len() implies (
                    #[trigger] self.txs()[k2]).0 != id by {
                        assert(self.logs()[j as int].0 == id);
                    }
                    lemma_no_tx(self.txs(), id);
                    assert(self.logs()[j as int].0 == id);
                }
                self.logs_subscribers.remove(j);
                proof {
                    assert(self.logs() == old(self).logs().remove(j as int));
                }
                return true;
            }
            j += 1;
        }
        let nt = self.tx_subscribers.len();
        let mut m: usize = 0;
        while m < nt
            invariant
                m <= nt,
                nt == self.txs().len(),
                *self == *old(self),
                old(self).wf(),
                forall|k: int| 0 <= k < m ==> (#[trigger] self.txs()[k]).0 != id,
            decreases nt - m,
        {
            if self.tx_subscribers[m].0 == id {
                proof {
                    lemma_remove_tx(self.txs(), m as int, id);
                    assert forall|k2: int| 0 <= k2 < self.heads().len() implies #[trigger] self
                        .heads()[k2] != id by {
                        assert(self.txs()[m as int].0 == id);
                    }
                    lemma_no_head(self.heads(), id);
                    assert forall|k2: int| 0 <= k2 < self.logs().len() implies (
                    #[trigger] self.logs()[k2]).0 != id by {
                        assert(self.txs()[m as int].0 == id);
                    }
                    lemma_no_log(self.logs(), id);
                    assert(self.txs()[m as int].0 == id);
                }
                self.tx_subscribers.remove(m);
                proof {
                    assert(self.txs() == old(self).txs().remove(m as int));
                }
                return true;
            }
            m += 1;
        }
        false
    }
}

proof fn lemma_no_head(s: Seq<u64>, id: u64)
    requires
        forall|k: int| 0 <= k < s.len() ==> #[trigger] s[k] != id,
    ensures
        !has_head(s, id),
{
    if has_head(s, id) {
        let k = choose|k: int| 0 <= k < s.len() && s[k] == id;
    }
}

proof fn lemma_no_log(s: Seq<(u64, Filter)>, id: u64)
    requires
        forall|k: int| 0 <= k < s.len() ==> (#[trigger] s[k]).0 != id,
    ensures
        !has_log(s, id),
{
    if has_log(s, id) {
        let k = choose|k: int| 0 <= k < s.len() && (#[trigger] s[k]).0 == id;
    }
}

proof fn lemma_no_tx(s: Seq<(u64, TxFilter)>, id: u64)
    requires
        forall|k: int| 0 <= k < s.len() ==> (#[trigger] s[k]).0 != id,
    ensures
        !has_tx(s, id),
{
    if has_tx(s, id) {
        let k = choose|k: int| 0 <= k < s.len() && (#[trigger] s[k]).0 == id;
    }
}

/// A never-issued identifier sits in no registry.
proof fn lemma_fresh_id(h: ChainNotificationHandler, id: u64)
    requires
        h.wf(),
        id >= h.next_id_spec(),
    ensures
        !h.contains_id(id),
{
}

/// Removing the one occurrence of an identifier clears it and keeps every
/// other identifier's membership.
proof fn lemma_remove_head(s: Seq<u64>, i: int, id: u64)
    requires
        0 <= i < s.len(),
        s[i] == id,
        forall|k1: int, k2: int| 0 <= k1 < k2 < s.len() ==> #[trigger] s[k1] != #[trigger] s[k2],
    ensures
        !has_head(s.remove(i), id),
        forall|id2: u64| id2 != id ==> (has_head(s.remove(i), id2) <==> has_head(s, id2)),
{
    let t = s.remove(i);
    assert forall|k: int| 0 <= k < t.len() implies t[k] != id by {
        if k < i {
            assert(t[k] == s[k]);
        } else {
            assert(t[k] == s[k + 1]);
        }
    }
    assert forall|id2: u64| id2 != id implies (has_head(t, id2) <==> has_head(s, id2)) by {
        if has_head(t, id2) {
            let k = choose|k: int| 0 <= k < t.len() && t[k] == id2;
            if k < i {
                assert(s[k] == id2);
            } else {
                assert(s[k + 1] == id2);
            }
        }
        if has_head(s, id2) {
            let k = choose|k: int| 0 <= k < s.len() && s[k] == id2;
            if k < i {
                assert(t[k] == id2);
            } else {
                assert(t[k - 1] == id2);
            }
        }
    }
}

proof fn lemma_remove_log(s: Seq<(u64, Filter)>, i: int, id: u64)
    requires
        0 <= i < s.len(),
        s[i].0 == id,
        forall|k1: int, k2: int|
            0 <= k1 < k2 < s.len() ==> (#[trigger] s[k1]).0 != (#[trigger] s[k2]).0,
    ensures
        !has_log(s.remove(i), id),
        forall|id2: u64| id2 != id ==> (has_log(s.remove(i), id2) <==> has_log(s, id2)),
{
    let t = s.remove(i);
    assert forall|k: int| 0 <= k < t.len() implies (#[trigger] t[k]).0 != id by {
        if k < i {
            assert(t[k] == s[k]);
        } else {
            assert(t[k] == s[k + 1]);
        }
    }
    assert forall|id2: u64| id2 != id implies (has_log(t, id2) <==> has_log(s, id2)) by {
        if has_log(t, id2) {
            let k = choose|k: int| 0 <= k < t.len() && (#[trigger] t[k]).0 == id2;
            if k < i {
                assert(s[k] == t[k]);
            } else {
                assert(s[k + 1] == t[k]);
            }
        }
        if has_log(s, id2) {
            let k = choose|k: int| 0 <= k < s.len() && (#[trigger] s[k]).0 == id2;
            if k < i {
                assert(t[k] == s[k]);
            } else {
                assert(t[k - 1] == s[k]);
            }
        }
    }
}

proof fn lemma_remove_tx(s: Seq<(u64, TxFilter)>, i: int, id: u64)
    requires
        0 <= i < s.len(),
        s[i].0 == id,
        forall|k1: int, k2: int|
            0 <= k1 < k2 < s.len() ==> (#[trigger] s[k1]).0 != (#[trigger] s[k2]).0,
    ensures
        !has_tx(s.remove(i), id),
        forall|id2: u64| id2 != id ==> (has_tx(s.remove(i), id2) <==> has_tx(s, id2)),
{
    let t = s.remove(i);
    assert forall|k: int| 0 <= k < t.len() implies (#[trigger] t[k]).0 != id by {
        if k < i {
            assert(t[k] == s[k]);
        } else {
            assert(t[k] == s[k + 1]);
        }
    }
    assert forall|id2: u64| id2 != id implies (has_tx(t, id2) <==> has_tx(s, id2)) by {
        if has_tx(t, id2) {
            let k = choose|k: int| 0 <= k < t.len() && (#[trigger] t[k]).0 == id2;
            if k < i {
                assert(s[k] == t[k]);
            } else {
                assert(s[k + 1] == t[k]);
            }
        }
        if has_tx(s, id2) {
            let k = choose|k: int| 0 <= k < s.len() && (#[trigger] s[k]).0 == id2;
            if k < i {
                assert(t[k] == s[k]);
            } else {
                assert(t[k - 1] == s[k]);
            }
        }
    }
}

/// Cancelling a subscription succeeds exactly once: where a registered
/// identifier is unsubscribed and then unsubscribed again, the first call
/// answers true and the second false. The two steps are constrained exactly
/// as `unsubscribe` leaves them.
pub proof fn lemma_unsubscribe_once(
    h0: ChainNotificationHandler,
    h1: ChainNotificationHandler,
    r1: bool,
    r2: bool,
    id: u64,
)
    requires
        h0.contains_id(id),
        r1 == h0.contains_id(id),
        !h1.contains_id(id),
        r2 == h1.contains_id(id),
    ensures
        r1,
        !r2,
{
}

/// The element views of an alternative list.
pub open spec fn alts_view(alts: Seq<Vec<u8>>) -> Seq<Seq<u8>> {
    Seq::new(alts.len(), |i: int| alts[i]@)
}

/// Filters carrying the same address and topic contents match the same
/// log entries.
pub proof fn lemma_filter_congruent(f1: Filter, f2: Filter)
    requires
        alts_view(f1.addresses@) == alts_view(f2.addresses@),
        f1.topics@.len() == f2.topics@.len(),
        forall|p: int|
            0 <= p < f1.topics@.len() ==> alts_view((#[trigger] f1.topics@[p])@) == alts_view(
                f2.topics@[p]@,
            ),
    ensures
        forall|e: LogEntry| spec_log_matches(f1, e) <==> #[trigger] spec_log_matches(f2, e),
{
    assert(alts_view(f1.addresses@).len() == alts_view(f2.addresses@).len());
    assert forall|e: LogEntry| spec_log_matches(f1, e) <==> #[trigger] spec_log_matches(f2, e) by {
        if spec_log_matches(f1, e) {
            lemma_filter_one_way(f1, f2, e);
        }
        if spec_log_matches(f2, e) {
            assert forall|p: int|
                0 <= p < f2.topics@.len() implies alts_view((#[trigger] f2.topics@[p])@)
                == alts_view(f1.topics@[p]@) by {
                assert(alts_view(f1.topics@[p]@) == alts_view(f2.topics@[p]@));
            }
            lemma_filter_one_way(f2, f1, e);
        }
    }
}

proof fn lemma_filter_one_way(f1: Filter, f2: Filter, e: LogEntry)
    requires
        alts_view(f1.addresses@) == alts_view(f2.addresses@),
        f1.topics@.len() == f2.topics@.len(),
        forall|p: int|
            0 <= p < f1.topics@.len() ==> alts_view((#[trigger] f1.topics@[p])@) == alts_view(
                f2.topics@[p]@,
            ),
        spec_log_matches(f1, e),
    ensures
        spec_log_matches(f2, e),
{
    assert(alts_view(f1.addresses@).len() == alts_view(f2.addresses@).len());
    assert(alts_view(f1.addresses@).len() == f1.addresses@.len());
    assert(alts_view(f2.addresses@).len() == f2.addresses@.len());
    assert(f1.addresses@.len() == f2.addresses@.len());
    if f2.addresses@.len() > 0 {
        let k = choose|k: int|
            0 <= k < f1.addresses@.len() && (#[trigger] f1.addresses@[k])@ == e.address@;
        assert(alts_view(f1.addresses@)[k] == f1.addresses@[k]@);
        assert(alts_view(f2.addresses@)[k] == f2.addresses@[k]@);
        assert(f2.addresses@[k]@ == e.address@);
    }
    assert(spec_address_matches(f2.addresses@, e.address@));
    assert(spec_topics_match(f2.topics@, e.topics@)) by {
        assert(f2.topics@.len() <= e.topics@.len());
        assert forall|p: int| 0 <= p < f2.topics@.len() implies spec_topic_matches(
            (#[trigger] f2.topics@[p])@,
            e.topics@[p]@,
        ) by {
            assert(spec_topic_matches(f1.topics@[p]@, e.topics@[p]@));
            assert(alts_view(f1.topics@[p]@) == alts_view(f2.topics@[p]@));
            assert(alts_view(f1.topics@[p]@).len() == f1.topics@[p]@.len());
            assert(alts_view(f2.topics@[p]@).len() == f2.topics@[p]@.len());
            assert(f1.topics@[p]@.len() == f2.topics@[p]@.len());
            reveal(spec_topic_matches);
            if f2.topics@[p]@.len() > 0 {
                let k2 = choose|k2: int|
                    0 <= k2 < f1.topics@[p]@.len() && (#[trigger] f1.topics@[p]@[k2])@
                        == e.topics@[p]@;
                assert(alts_view(f1.topics@[p]@)[k2] == f1.topics@[p]@[k2]@);
                assert(alts_view(f2.topics@[p]@)[k2] == f2.topics@[p]@[k2]@);
                assert(f2.topics@[p]@[k2]@ == e.topics@[p]@);
            }
        }
    }
}

/// Copies an alternative list.
fn dup_alts(v: &Vec<Vec<u8>>) -> (r: Vec<Vec<u8>>)
    ensures
        r@.len() == v@.len(),
        forall|k: int| 0 <= k < v@.len() ==> (#[trigger] r@[k])@ == v@[k]@,
        alts_view(r@) == alts_view(v@),
{
    let n = v.len();
    let mut out: Vec<Vec<u8>> = Vec::new();
    let mut i: usize = 0;
    while i < n
        invariant
            i <= n,
            n == v@.len(),
            out@.len() == i,
            forall|k: int| 0 <= k < i ==> (#[trigger] out@[k])@ == v@[k]@,
        decreases n - i,
    {
        out.push(copy_whole(&v[i]));
        i += 1;
    }
    assert(alts_view(out@) =~= alts_view(v@));
    out
}

impl Filter {
    /// A copy of the filter with its block range intersected with
    /// `[from, to]`; it matches exactly the entries the original matches.
    pub fn clipped(&self, from: u64, to: u64) -> (r: Filter)
        ensures
            r.from_block == if self.from_block >= from {
                self.from_block
            } else {
                from
            },
            r.to_block == if self.to_block <= to {
                self.to_block
            } else {
                to
            },
            forall|e: LogEntry| spec_log_matches(r, e) <==> #[trigger] spec_log_matches(*self, e),
    {
        let from_block = if self.from_block >= from {
            self.from_block
        } else {
            from
        };
        let to_block = if self.to_block <= to {
            self.to_block
        } else {
            to
        };
        let addresses = dup_alts(&self.addresses);
        let n = self.topics.len();
        let mut topics: Vec<Vec<Vec<u8>>> = Vec::new();
        let mut i: usize = 0;
        while i < n
            invariant
                i <= n,
                n == self.topics@.len(),
                topics@.len() == i,
                forall|p: int|
                    0 <= p < i ==> alts_view((#[trigger] topics@[p])@) == alts_view(
                        self.topics@[p]@,
                    ),
            decreases n - i,
        {
            topics.push(dup_alts(&self.topics[i]));
            i += 1;
        }
        let r = Filter { from_block, to_block, addresses, topics };
        proof {
            lemma_filter_congruent(r, *self);
        }
        r
    }
}

/// Whether a delivery list already serves the completed transaction to an
/// identifier.
pub open spec fn tx_delivered(out: Seq<(u64, TransactionOutcome)>, id: u64) -> bool {
    exists|k: int| 0 <= k < out.len() && (#[trigger] out[k]).0 == id
}

proof fn lemma_tx_delivered_push(out: Seq<(u64, TransactionOutcome)>, x: (u64, TransactionOutcome))
    ensures
        forall|id: u64| #[trigger] tx_delivered(out, id) ==> tx_delivered(out.push(x), id),
        forall|id: u64| tx_delivered(out, id) ==> #[trigger] tx_delivered(out.push(x), id),
{
    assert forall|id: u64| #[trigger] tx_delivered(out, id) implies tx_delivered(
        out.push(x),
        id,
    ) by {
        let k = choose|k: int| 0 <= k < out.len() && (#[trigger] out[k]).0 == id;
        assert(out.push(x)[k] == out[k]);
    }
}

/// Whether a delivery list already serves an identifier the log at index
/// `li` of the block numbered `bn`.
pub open spec fn log_delivered(
    out: Seq<(u64, LocalizedLogEntry)>,
    id: u64,
    bn: int,
    li: int,
) -> bool {
    exists|k: int|
        0 <= k < out.len() && (#[trigger] out[k]).0 == id && out[k].1.block_number == bn
            && out[k].1.log_index == li
}

proof fn lemma_log_delivered_push(
    out: Seq<(u64, LocalizedLogEntry)>,
    x: (u64, LocalizedLogEntry),
)
    ensures
        forall|id: u64, bn: int, li: int|
            #[trigger] log_delivered(out, id, bn, li) ==> log_delivered(out.push(x), id, bn, li),
        forall|id: u64, bn: int, li: int|
            log_delivered(out, id, bn, li) ==> #[trigger] log_delivered(out.push(x), id, bn, li),
{
    assert forall|id: u64, bn: int, li: int| #[trigger] log_delivered(
        out,
        id,
        bn,
        li,
    ) implies log_delivered(out.push(x), id, bn, li) by {
        let k = choose|k: int|
            0 <= k < out.len() && (#[trigger] out[k]).0 == id && out[k].1.block_number == bn
                && out[k].1.log_index == li;
        assert(out.push(x)[k] == out[k]);
    }
}

/// Whether a delivery list already serves block `n` to an identifier.
pub open spec fn head_delivered(out: Seq<(u64, RichHeader)>, id: u64, n: u64) -> bool {
    exists|k: int| 0 <= k < out.len() && (#[trigger] out[k]).0 == id && out[k].1.number == n
}

proof fn lemma_head_delivered_push(out: Seq<(u64, RichHeader)>, x: (u64, RichHeader))
    ensures
        forall|id: u64, n: u64|
            #[trigger] head_delivered(out, id, n) ==> head_delivered(out.push(x), id, n),
        forall|id: u64, n: u64|
            head_delivered(out, id, n) ==> #[trigger] head_delivered(out.push(x), id, n),
{
    assert forall|id: u64, n: u64| #[trigger] head_delivered(out, id, n) implies head_delivered(
        out.push(x),
        id,
        n,
    ) by {
        let k = choose|k: int|
            0 <= k < out.len() && (#[trigger] out[k]).0 == id && out[k].1.number == n;
        assert(out.push(x)[k] == out[k]);
    }
}

/// A head delivery owed: to a head subscriber, a header of the committed
/// range, faithful to the block it presents.
pub open spec fn noted_head(
    d: (u64, RichHeader),
    hub: ChainNotificationHandler,
    bc: Blockchain,
    from: u64,
    to: u64,
) -> bool {
    &&& has_head(hub.heads(), d.0)
    &&& from <= d.1.number <= to
    &&& d.1.number < bc.chain_state.blocks@.len()
    &&& d.1.hash@ == bc.chain_state.blocks@[d.1.number as int].hash@
    &&& d.1.timestamp == bc.chain_state.blocks@[d.1.number as int].timestamp
    &&& d.1.gas_used == bc.chain_state.blocks@[d.1.number as int].gas_used
    &&& d.1.gas_limit == bc.chain_state.blocks@[d.1.number as int].gas_limit
    &&& d.1.logs_bloom@ == bc.chain_state.blocks@[d.1.number as int].log_bloom@
}

/// A log delivery owed: to a log subscriber, an entry from the committed
/// range that the subscriber's own filter matches, range included.
pub open spec fn noted_log(
    d: (u64, LocalizedLogEntry),
    hub: ChainNotificationHandler,
    bc: Blockchain,
    from: u64,
    to: u64,
) -> bool {
    &&& from <= d.1.block_number <= to
    &&& d.1.block_number < bc.chain_state.blocks@.len()
    &&& exists|j: int|
        0 <= j < hub.logs().len() && (#[trigger] hub.logs()[j]).0 == d.0 && spec_log_matches(
            hub.logs()[j].1,
            d.1.entry,
        ) && hub.logs()[j].1.from_block <= d.1.block_number <= hub.logs()[j].1.to_block
}

/// A completed-transaction delivery owed: to a subscriber whose predicate
/// matches, the transaction's hash and output.
pub open spec fn noted_tx(
    d: (u64, TransactionOutcome),
    hub: ChainNotificationHandler,
    entry: TxEntry,
    output: Seq<u8>,
) -> bool {
    &&& d.1.hash@ == entry.transaction_hash@
    &&& d.1.output@ == output
    &&& exists|j: int|
        0 <= j < hub.txs().len() && (#[trigger] hub.txs()[j]).0 == d.0 && spec_tx_matches(
            hub.txs()[j].1,
            entry,
        )
}

impl ChainNotificationHandler {
    /// What the head subscribers are owed for the committed range
    /// `[from_block, to_block]`: one header per subscriber per block of the
    /// range. A range reaching past the chain (or an empty one) delivers
    /// nothing, as a failed header fetch drops the whole batch.
    pub fn notify_heads(&self, blockchain: &Blockchain, from_block: u64, to_block: u64) -> (r: Vec<
        (u64, RichHeader),
    >)
        requires
            blockchain.wf(),
        ensures
            forall|k: int|
                0 <= k < r@.len() ==> noted_head(
                    #[trigger] r@[k],
                    *self,
                    *blockchain,
                    from_block,
                    to_block,
                ),
            (from_block <= to_block && to_block < blockchain.chain_state.blocks@.len()) ==> {
                &&& r@.len() == (to_block - from_block + 1) * self.heads().len()
                &&& forall|j: int, n: u64|
                    0 <= j < self.heads().len() && from_block <= n <= to_block
                        ==> #[trigger] head_delivered(r@, self.heads()[j], n)
            },
            !(from_block <= to_block && to_block < blockchain.chain_state.blocks@.len())
                ==> r@.len() == 0,
    {
        let mut out: Vec<(u64, RichHeader)> = Vec::new();
        let nb = blockchain.chain_state.blocks.len();
        if !(from_block <= to_block && to_block < nb as u64) {
            return out;
        }
        let ns = self.heads_subscribers.len();
        let mut n: u64 = from_block;
        while n <= to_block
            invariant
                blockchain.wf(),
                from_block <= n <= to_block + 1,
                to_block < nb as u64,
                nb == blockchain.chain_state.blocks@.len(),
                ns == self.heads().len(),
                out@.len() == (n - from_block) * ns,
                forall|k: int|
                    0 <= k < out@.len() ==> noted_head(
                        #[trigger] out@[k],
                        *self,
                        *blockchain,
                        from_block,
                        to_block,
                    ),
                forall|j: int, n2: u64|
                    0 <= j < ns && from_block <= n2 < n ==> #[trigger] head_delivered(
                        out@,
                        self.heads()[j],
                        n2,
                    ),
            decreases to_block + 1 - n,
        {
            let block = match blockchain.get_block_by_number(n) {
                Some(b) => b,
                None => {
                    proof {
                        assert(false);
                    }
                    return out;
                },
            };
            let ghost len_before = out@.len() as int;
            let mut j: usize = 0;
            while j < ns
                invariant
                    blockchain.wf(),
                    j <= ns,
                    ns == self.heads().len(),
                    from_block <= n <= to_block,
                    to_block < nb as u64,
                    nb == blockchain.chain_state.blocks@.len(),
                    *block == blockchain.chain_state.blocks@[n as int],
                    block.number == n,
                    out@.len() == len_before + j,
                    len_before == (n - from_block) * ns,
                    forall|k: int|
                        0 <= k < out@.len() ==> noted_head(
                            #[trigger] out@[k],
                            *self,
                            *blockchain,
                            from_block,
                            to_block,
                        ),
                    forall|j2: int, n2: u64|
                        0 <= j2 < ns && from_block <= n2 < n ==> #[trigger] head_delivered(
                            out@,
                            self.heads()[j2],
                            n2,
                        ),
                    forall|j2: int|
                        0 <= j2 < j ==> #[trigger] head_delivered(out@, self.heads()[j2], n),
                decreases ns - j,
            {
                let id = self.heads_subscribers[j];
                let header = block.rich_header();
                proof {
                    lemma_head_delivered_push(out@, (id, header));
                }
                out.push((id, header));
                proof {
                    assert(out@[out@.len() - 1] == (id, header));
                    assert(has_head(self.heads(), id)) by {
                        assert(self.heads()[j as int] == id);
                    }
                    assert(noted_head(
                        (id, header),
                        *self,
                        *blockchain,
                        from_block,
                        to_block,
                    ));
                    assert(head_delivered(out@, id, n));
                }
                j += 1;
            }
            proof {
                assert((n - from_block) * ns + ns == (n + 1 - from_block) * ns)
                    by (nonlinear_arith);
            }
            n = n + 1;
        }
        out
    }

    /// What the log subscribers are owed for the committed range: for each
    /// subscriber, the coordinator's log query under that subscriber's
    /// filter intersected with `[from_block, to_block]`. A subscriber only
    /// ever receives entries its own filter matches, and only from blocks of
    /// the committed range — nothing retroactive; and every committed log a
    /// subscriber's filter matches within that intersection is delivered to
    /// that subscriber.
    pub fn notify_logs(&self, blockchain: &Blockchain, from_block: u64, to_block: u64) -> (r: Vec<
        (u64, LocalizedLogEntry),
    >)
        requires
            blockchain.wf(),
        ensures
            forall|k: int|
                0 <= k < r@.len() ==> noted_log(
                    #[trigger] r@[k],
                    *self,
                    *blockchain,
                    from_block,
                    to_block,
                ),
            forall|j: int, jr: int, l: int|
                #![trigger self.logs()[j], blockchain.chain_state.receipts@[jr].1.logs@[l]]
                0 <= j < self.logs().len() && 0 <= jr < blockchain.chain_state.receipts@.len()
                    && 0 <= l < blockchain.chain_state.receipts@[jr].1.logs@.len() && from_block
                    <= jr + 1 <= to_block && self.logs()[j].1.from_block <= jr + 1
                    <= self.logs()[j].1.to_block && spec_log_matches(
                    self.logs()[j].1,
                    blockchain.chain_state.receipts@[jr].1.logs@[l].entry,
                ) ==> log_delivered(r@, self.logs()[j].0, jr + 1, l),
    {
        let mut out: Vec<(u64, LocalizedLogEntry)> = Vec::new();
        let ns = self.logs_subscribers.len();
        let mut j: usize = 0;
        while j < ns
            invariant
                blockchain.wf(),
                j <= ns,
                ns == self.logs().len(),
                forall|k: int|
                    0 <= k < out@.len() ==> noted_log(
                        #[trigger] out@[k],
                        *self,
                        *blockchain,
                        from_block,
                        to_block,
                    ),
                forall|j2: int, jr: int, l2: int|
                    #![trigger self.logs()[j2], blockchain.chain_state.receipts@[jr].1.logs@[l2]]
                    0 <= j2 < j && 0 <= jr < blockchain.chain_state.receipts@.len() && 0 <= l2
                        < blockchain.chain_state.receipts@[jr].1.logs@.len() && from_block <= jr
                        + 1 <= to_block && self.logs()[j2].1.from_block <= jr + 1
                        <= self.logs()[j2].1.to_block && spec_log_matches(
                        self.logs()[j2].1,
                        blockchain.chain_state.receipts@[jr].1.logs@[l2].entry,
                    ) ==> log_delivered(out@, self.logs()[j2].0, jr + 1, l2),
            decreases ns - j,
        {
            let id = self.logs_subscribers[j].0;
            let clipped = self.logs_subscribers[j].1.clipped(from_block, to_block);
            let found = blockchain.logs(&clipped);
            let nl = found.len();
            let mut l: usize = 0;
            while l < nl
                invariant
                    blockchain.wf(),
                    j < ns,
                    ns == self.logs().len(),
                    l <= nl,
                    nl == found@.len(),
                    id == self.logs()[j as int].0,
                    forall|e: LogEntry|
                        spec_log_matches(clipped, e) <==> #[trigger] spec_log_matches(
                            self.logs()[j as int].1,
                            e,
                        ),
                    clipped.from_block == if self.logs()[j as int].1.from_block >= from_block {
                        self.logs()[j as int].1.from_block
                    } else {
                        from_block
                    },
                    clipped.to_block == if self.logs()[j as int].1.to_block <= to_block {
                        self.logs()[j as int].1.to_block
                    } else {
                        to_block
                    },
                    forall|k: int|
                        0 <= k < found@.len() ==> {
                            let lg = #[trigger] found@[k];
                            &&& clipped.from_block <= lg.block_number <= clipped.to_block
                            &&& lg.block_number < blockchain.chain_state.blocks@.len()
                            &&& spec_log_matches(clipped, lg.entry)
                        },
                    forall|k: int|
                        0 <= k < out@.len() ==> noted_log(
                            #[trigger] out@[k],
                            *self,
                            *blockchain,
                            from_block,
                            to_block,
                        ),
                    forall|j2: int, jr: int, l2: int|
                        #![trigger self.logs()[j2], blockchain.chain_state.receipts@[jr].1.logs@[l2]]
                        0 <= j2 < j && 0 <= jr < blockchain.chain_state.receipts@.len() && 0 <= l2
                            < blockchain.chain_state.receipts@[jr].1.logs@.len() && from_block
                            <= jr + 1 <= to_block && self.logs()[j2].1.from_block <= jr + 1
                            <= self.logs()[j2].1.to_block && spec_log_matches(
                            self.logs()[j2].1,
                            blockchain.chain_state.receipts@[jr].1.logs@[l2].entry,
                        ) ==> log_delivered(out@, self.logs()[j2].0, jr + 1, l2),
                    forall|k2: int|
                        0 <= k2 < l ==> log_delivered(
                            out@,
                            id,
                            (#[trigger] found@[k2]).block_number as int,
                            found@[k2].log_index as int,
                        ),
                decreases nl - l,
            {
                let entry = found[l].duplicate();
                proof {
                    assert(spec_log_matches(clipped, found@[l as int].entry));
                    assert(spec_log_matches(self.logs()[j as int].1, found@[l as int].entry));
                    assert(spec_log_matches(self.logs()[j as int].1, entry.entry));
                    lemma_log_delivered_push(out@, (id, entry));
                }
                out.push((id, entry));
                proof {
                    assert forall|k: int| 0 <= k < out@.len() implies noted_log(
                        #[trigger] out@[k],
                        *self,
                        *blockchain,
                        from_block,
                        to_block,
                    ) by {
                        if k == out@.len() - 1 {
                            assert(self.logs()[j as int].0 == id);
                        }
                    }
                    assert(out@[out@.len() - 1] == (id, entry));
                    assert(log_delivered(
                        out@,
                        id,
                        found@[l as int].block_number as int,
                        found@[l as int].log_index as int,
                    ));
                }
                l += 1;
            }
            proof {
                // Subscriber `j` now has every matching committed log of the
                // intersected range: the coordinator's query returned each,
                // and the loop delivered each returned entry.
                assert forall|jr: int, l2: int|
                    0 <= jr < blockchain.chain_state.receipts@.len() && 0 <= l2
                        < blockchain.chain_state.receipts@[jr].1.logs@.len() && from_block <= jr
                        + 1 <= to_block && self.logs()[j as int].1.from_block <= jr + 1
                        <= self.logs()[j as int].1.to_block && spec_log_matches(
                        self.logs()[j as int].1,
                        (#[trigger] blockchain.chain_state.receipts@[jr].1.logs@[l2]).entry,
                    ) implies log_delivered(out@, id, jr + 1, l2) by {
                    assert(spec_log_matches(
                        clipped,
                        blockchain.chain_state.receipts@[jr].1.logs@[l2].entry,
                    ));
                    assert(clipped.from_block <= jr + 1 <= clipped.to_block);
                    assert(crate::blockchain::delivered_log(found@, jr + 1, l2));
                    let k = choose|k: int|
                        0 <= k < found@.len() && (#[trigger] found@[k]).block_number == jr + 1
                            && found@[k].log_index == l2;
                    assert(log_delivered(
                        out@,
                        id,
                        found@[k].block_number as int,
                        found@[k].log_index as int,
                    ));
                }
            }
            j += 1;
        }
        out
    }

    /// Everything subscribers are owed for a committed block range: the
    /// head notifications and the log notifications, each sound and each
    /// complete as its own computation promises.
    pub fn notify_blocks(&self, blockchain: &Blockchain, from_block: u64, to_block: u64) -> (r: (
        Vec<(u64, RichHeader)>,
        Vec<(u64, LocalizedLogEntry)>,
    ))
        requires
            blockchain.wf(),
        ensures
            forall|k: int|
                0 <= k < r.0@.len() ==> noted_head(
                    #[trigger] r.0@[k],
                    *self,
                    *blockchain,
                    from_block,
                    to_block,
                ),
            (from_block <= to_block && to_block < blockchain.chain_state.blocks@.len()) ==> {
                &&& r.0@.len() == (to_block - from_block + 1) * self.heads().len()
                &&& forall|j: int, n: u64|
                    0 <= j < self.heads().len() && from_block <= n <= to_block
                        ==> #[trigger] head_delivered(r.0@, self.heads()[j], n)
            },
            !(from_block <= to_block && to_block < blockchain.chain_state.blocks@.len())
                ==> r.0@.len() == 0,
            forall|k: int|
                0 <= k < r.1@.len() ==> noted_log(
                    #[trigger] r.1@[k],
                    *self,
                    *blockchain,
                    from_block,
                    to_block,
                ),
            forall|j: int, jr: int, l: int|
                #![trigger self.logs()[j], blockchain.chain_state.receipts@[jr].1.logs@[l]]
                0 <= j < self.logs().len() && 0 <= jr < blockchain.chain_state.receipts@.len()
                    && 0 <= l < blockchain.chain_state.receipts@[jr].1.logs@.len() && from_block
                    <= jr + 1 <= to_block && self.logs()[j].1.from_block <= jr + 1
                    <= self.logs()[j].1.to_block && spec_log_matches(
                    self.logs()[j].1,
                    blockchain.chain_state.receipts@[jr].1.logs@[l].entry,
                ) ==> log_delivered(r.1@, self.logs()[j].0, jr + 1, l),
    {
        let heads = self.notify_heads(blockchain, from_block, to_block);
        let logs = self.notify_logs(blockchain, from_block, to_block);
        (heads, logs)
    }

    /// What the completed-transaction subscribers are owed, synchronously
    /// from the commit path: each subscriber whose predicate matches the
    /// just-committed transaction's entry is told the transaction hash and
    /// output, and every matching subscriber is.
    pub fn notify_completed_transaction(&self, entry: &TxEntry, output: &Vec<u8>) -> (r: Vec<
        (u64, TransactionOutcome),
    >)
        ensures
            forall|k: int|
                0 <= k < r@.len() ==> noted_tx(#[trigger] r@[k], *self, *entry, output@),
            forall|j: int|
                0 <= j < self.txs().len() && spec_tx_matches((#[trigger] self.txs()[j]).1, *entry)
                    ==> tx_delivered(r@, self.txs()[j].0),
    {
        let mut out: Vec<(u64, TransactionOutcome)> = Vec::new();
        let ns = self.tx_subscribers.len();
        let mut j: usize = 0;
        while j < ns
            invariant
                j <= ns,
                ns == self.txs().len(),
                forall|k: int|
                    0 <= k < out@.len() ==> noted_tx(#[trigger] out@[k], *self, *entry, output@),
                forall|j2: int|
                    0 <= j2 < j && spec_tx_matches((#[trigger] self.txs()[j2]).1, *entry)
                        ==> tx_delivered(out@, self.txs()[j2].0),
            decreases ns - j,
        {
            if tx_filter_matches(&self.tx_subscribers[j].1, entry) {
                let id = self.tx_subscribers[j].0;
                let outcome = TransactionOutcome {
                    hash: copy_whole(&entry.transaction_hash),
                    output: copy_whole(output),
                };
                proof {
                    lemma_tx_delivered_push(out@, (id, outcome));
                }
                out.push((id, outcome));
                proof {
                    assert(out@[out@.len() - 1] == (id, outcome));
                    assert(noted_tx((id, outcome), *self, *entry, output@)) by {
                        assert(self.txs()[j as int].0 == id && spec_tx_matches(
                            self.txs()[j as int].1,
                            *entry,
                        ));
                    }
                    assert(tx_delivered(out@, id));
                }
            }
            j += 1;
        }
        out
    }
}

/// The pub/sub RPC surface: owns the notification handler. Built first, in
/// two-phase wiring: the commit path is then handed the handler's notify
/// capabilities, never shared ownership of the hub.
pub struct EthPubSubClient {
    handler: ChainNotificationHandler,
}

impl EthPubSubClient {
    /// The handler's registries, as the client sees them.
    pub closed spec fn hub(&self) -> ChainNotificationHandler {
        self.handler
    }

    /// Creates a new client with an empty hub.
    pub fn new() -> (r: Self)
        ensures
            r.hub().wf(),
            r.hub().next_id_spec() == 0,
            r.hub().heads().len() == 0,
            r.hub().logs().len() == 0,
            r.hub().txs().len() == 0,
    {
        EthPubSubClient { handler: ChainNotificationHandler::new() }
    }

    /// The chain notification handler.
    pub fn handler(&self) -> (r: &ChainNotificationHandler)
        ensures
            *r == self.hub(),
    {
        &self.handler
    }

    /// Registers a subscriber. See `ChainNotificationHandler::subscribe`.
    pub fn subscribe(&mut self, kind: SubscriptionKind, params: Option<SubscriptionParams>) -> (r:
        Result<u64, SubscriptionError>)
        requires
            old(self).hub().wf(),
            old(self).hub().next_id_spec() < u64::MAX,
        ensures
            final(self).hub().wf(),
            match r {
                Ok(id) => {
                    &&& id == old(self).hub().next_id_spec()
                    &&& !old(self).hub().contains_id(id)
                    &&& final(self).hub().contains_id(id)
                    &&& final(self).hub().next_id_spec() == id + 1
                    &&& forall|id2: u64|
                        id2 != id ==> (final(self).hub().contains_id(id2) <==> old(self).hub().contains_id(id2))
                    &&& (kind is NewHeads ==> params is None && final(self).hub().heads() == old(self).hub().heads().push(id) && final(self).hub().logs() == old(self).hub().logs() && final(self).hub().txs() == old(self).hub().txs())
                    &&& (kind is Logs ==> (params matches Some(SubscriptionParams::Logs(f))
                        && final(self).hub().logs() == old(self).hub().logs().push((id, f))
                        && final(self).hub().heads() == old(self).hub().heads() && final(self).hub().txs() == old(self).hub().txs()))
                    &&& (kind is CompletedTransaction ==> (params matches Some(
                        SubscriptionParams::Transaction(f),
                    ) && final(self).hub().txs() == old(self).hub().txs().push((id, f)) && final(self).hub().heads() == old(self).hub().heads() && final(self).hub().logs() == old(self).hub().logs()))
                    &&& !(kind is NewPendingTransactions)
                },
                Err(e) => {
                    &&& *final(self) == *old(self)
                    &&& match kind {
                        SubscriptionKind::NewHeads => params is Some && e is InvalidParams,
                        SubscriptionKind::Logs => !(params matches Some(
                            SubscriptionParams::Logs(_),
                        )) && e is InvalidParams,
                        SubscriptionKind::CompletedTransaction => !(params matches Some(
                            SubscriptionParams::Transaction(_),
                        )) && e is InvalidParams,
                        SubscriptionKind::NewPendingTransactions => e is Unimplemented,
                    }
                },
            },
    {
        self.handler.subscribe(kind, params)
    }

    /// Cancels a subscription. See `ChainNotificationHandler::unsubscribe`.
    pub fn unsubscribe(&mut self, id: u64) -> (r: bool)
        requires
            old(self).hub().wf(),
        ensures
            final(self).hub().wf(),
            r == old(self).hub().contains_id(id),
            !final(self).hub().contains_id(id),
            forall|id2: u64|
                id2 != id ==> (final(self).hub().contains_id(id2) <==> old(self).hub().contains_id(id2)),
            final(self).hub().next_id_spec() == old(self).hub().next_id_spec(),
            !has_head(old(self).hub().heads(), id) ==> final(self).hub().heads() == old(self).hub().heads(),
            !has_log(old(self).hub().logs(), id) ==> final(self).hub().logs() == old(self).hub().logs(),
            !has_tx(old(self).hub().txs(), id) ==> final(self).hub().txs() == old(self).hub().txs(),
            has_head(old(self).hub().heads(), id) ==> exists|i: int|
                0 <= i < old(self).hub().heads().len() && old(self).hub().heads()[i] == id
                    && final(self).hub().heads() == #[trigger] old(self).hub().heads().remove(i),
            has_log(old(self).hub().logs(), id) ==> exists|i: int|
                0 <= i < old(self).hub().logs().len() && old(self).hub().logs()[i].0 == id
                    && final(self).hub().logs() == #[trigger] old(self).hub().logs().remove(i),
            has_tx(old(self).hub().txs(), id) ==> exists|i: int|
                0 <= i < old(self).hub().txs().len() && old(self).hub().txs()[i].0 == id && final(self).hub().txs() == #[trigger] old(self).hub().txs().remove(i),
    {
        self.handler.unsubscribe(id)
    }
}

} // verus!
