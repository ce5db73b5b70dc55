//! The pending-operation queue: an ordered list of operations awaiting
//! delivery to the remote side, a connectivity flag, and a retry-aware flush
//! routine.
//!
//! Each operation moves through the state machine
//! `pending -> in-flight -> { delivered (removed) | pending (retry) | failed }`.
//! Delivery itself happens outside this module; the flush routine is driven
//! by the sequence of delivery outcomes, one per attempt, so that every
//! decision the queue makes is verified for every possible outcome.

use vstd::prelude::*;

verus! {

/// Status of one queued operation.
#[derive(Clone, Copy, Debug, PartialEq, Eq, Structural)]
pub enum OpStatus {
    Pending,
    InFlight,
    Delivered,
    Failed,
}

/// One operation awaiting delivery.
pub struct SyncOperation {
    pub id: u64,
    pub operation_type: String,
    pub payload: String,
    pub timestamp: String,
    pub status: OpStatus,
    pub retries: u32,
}

/// Mathematical model of one queued operation.
pub struct OpModel {
    pub id: u64,
    pub kind: Seq<char>,
    pub payload: Seq<char>,
    pub timestamp: Seq<char>,
    pub status: OpStatus,
    pub retries: int,
}

impl View for SyncOperation {
    type V = OpModel;

    open spec fn view(&self) -> OpModel {
        OpModel {
            id: self.id,
            kind: self.operation_type@,
            payload: self.payload@,
            timestamp: self.timestamp@,
            status: self.status,
            retries: self.retries as int,
        }
    }
}

impl Clone for SyncOperation {
    fn clone(&self) -> (r: Self)
        ensures
            r == *self,
    {
        SyncOperation {
            id: self.id,
            operation_type: self.operation_type.clone(),
            payload: self.payload.clone(),
            timestamp: self.timestamp.clone(),
            status: self.status,
            retries: self.retries,
        }
    }
}

/// Whether an operation counts as still awaiting delivery.
pub open spec fn op_active(op: OpModel) -> bool {
    op.status == OpStatus::Pending || op.status == OpStatus::InFlight
}

/// Number of operations in `pending` or `in-flight` state among `ops`.
pub open spec fn active_count(ops: Seq<OpModel>) -> int
    decreases ops.len(),
{
    if ops.len() == 0 {
        0
    } else {
        active_count(ops.drop_last()) + if op_active(ops.last()) {
            1int
        } else {
            0int
        }
    }
}

/// The operations still awaiting delivery, in queue order.
pub open spec fn active_ops(ops: Seq<OpModel>) -> Seq<OpModel>
    decreases ops.len(),
{
    if ops.len() == 0 {
        Seq::empty()
    } else if op_active(ops.last()) {
        active_ops(ops.drop_last()).push(ops.last())
    } else {
        active_ops(ops.drop_last())
    }
}

/// Mathematical model of the whole queue.
pub struct QueueState {
    pub ops: Seq<OpModel>,
    pub connected: bool,
    pub next_id: u64,
    pub max_depth: int,
    pub max_retries: int,
}

impl QueueState {
    /// Well-formedness: depth within bounds, identifiers fresh and distinct,
    /// no operation stored in the transient `Delivered` state, and retry
    /// counters within the configured threshold.
    pub open spec fn wf(self) -> bool {
        &&& self.ops.len() <= self.max_depth
        &&& 0 <= self.max_retries < u32::MAX
        &&& forall|i: int|
            0 <= i < self.ops.len() ==> (#[trigger] self.ops[i]).id < self.next_id
        &&& forall|i: int, j: int|
            0 <= i < j < self.ops.len() ==> self.ops[i].id != self.ops[j].id
        &&& forall|i: int|
            0 <= i < self.ops.len() ==> (#[trigger] self.ops[i]).status != OpStatus::Delivered
        &&& forall|i: int|
            0 <= i < self.ops.len() ==> 0 <= (#[trigger] self.ops[i]).retries <= self.max_retries
                + 1
        &&& forall|i: int|
            0 <= i < self.ops.len() && op_active(#[trigger] self.ops[i]) ==> self.ops[i].retries
                <= self.max_retries
    }

    /// No delivery attempt is in progress.
    pub open spec fn quiescent(self) -> bool {
        forall|i: int|
            0 <= i < self.ops.len() ==> (#[trigger] self.ops[i]).status != OpStatus::InFlight
    }

    /// What `pending_count` reports.
    pub open spec fn pending_total(self) -> int {
        active_count(self.ops)
    }
}

/// Why an operation could not be accepted.
#[derive(Clone, Copy, Debug, PartialEq, Eq, Structural)]
pub enum SyncError {
    QueueFull,
}

/// Whether the queue can accept one more operation.
pub open spec fn can_accept(s: QueueState) -> bool {
    s.ops.len() < s.max_depth && s.next_id < u64::MAX
}

/// The model of a single `enqueue` step.
pub open spec fn spec_enqueue(s: QueueState, kind: Seq<char>, payload: Seq<char>, ts: Seq<char>) -> QueueState {
    if can_accept(s) {
        QueueState {
            ops: s.ops.push(
                OpModel {
                    id: s.next_id,
                    kind,
                    payload,
                    timestamp: ts,
                    status: OpStatus::Pending,
                    retries: 0,
                },
            ),
            next_id: (s.next_id + 1) as u64,
            ..s
        }
    } else {
        s
    }
}

pub proof fn lemma_active_count_push(s: Seq<OpModel>, op: OpModel)
    ensures
        active_count(s.push(op)) == active_count(s) + if op_active(op) {
            1int
        } else {
            0int
        },
{
    assert(s.push(op).drop_last() =~= s);
    assert(s.push(op).last() == op);
}

/// What the remote collaborator answered to one delivery attempt.
#[derive(Clone, Copy, Debug, PartialEq, Eq, Structural)]
pub enum DeliveryOutcome {
    /// The remote side acknowledged the operation.
    Delivered,
    /// Transient failure: the operation stays queued and is retried later.
    NetworkError,
    /// The server rejected the operation: terminal, never retried.
    ServerRejected,
}

/// Result of one flush cycle. A flush never raises: a half-delivered batch
/// is an expected outcome, described by this report.
#[derive(Clone, Copy, Debug, PartialEq, Eq, Structural)]
pub struct FlushReport {
    pub attempted: usize,
    pub delivered: usize,
    pub failed: usize,
}

/// How one attempted operation is resolved: removed on success (`None`),
/// requeued with one more retry on a transient failure while under the
/// threshold, and otherwise moved to terminal `failed`.
pub open spec fn resolve_op(op: OpModel, outcome: DeliveryOutcome, max_retries: int) -> Option<
    OpModel,
> {
    match outcome {
        DeliveryOutcome::Delivered => None,
        DeliveryOutcome::NetworkError => if op.retries + 1 > max_retries {
            Some(OpModel { status: OpStatus::Failed, retries: op.retries + 1, ..op })
        } else {
            Some(OpModel { status: OpStatus::Pending, retries: op.retries + 1, ..op })
        },
        DeliveryOutcome::ServerRejected => Some(OpModel { status: OpStatus::Failed, ..op }),
    }
}

/// The queue contents after one flush cycle: pending operations are attempted
/// in queue order, one outcome per attempt, until the outcomes run out (the
/// moment connectivity is lost); everything else is kept unchanged.
pub open spec fn flush_ops(
    ops: Seq<OpModel>,
    outcomes: Seq<DeliveryOutcome>,
    max_retries: int,
) -> Seq<OpModel>
    decreases ops.len(),
{
    if ops.len() == 0 {
        Seq::empty()
    } else if ops.first().status == OpStatus::Pending && outcomes.len() > 0 {
        match resolve_op(ops.first(), outcomes.first(), max_retries) {
            None => flush_ops(ops.drop_first(), outcomes.drop_first(), max_retries),
            Some(op2) => seq![op2] + flush_ops(
                ops.drop_first(),
                outcomes.drop_first(),
                max_retries,
            ),
        }
    } else {
        seq![ops.first()] + flush_ops(ops.drop_first(), outcomes, max_retries)
    }
}

/// How many delivery attempts a flush cycle makes.
pub open spec fn flush_attempted(ops: Seq<OpModel>, outcomes: Seq<DeliveryOutcome>) -> int
    decreases ops.len(),
{
    if ops.len() == 0 {
        0
    } else if ops.first().status == OpStatus::Pending && outcomes.len() > 0 {
        1 + flush_attempted(ops.drop_first(), outcomes.drop_first())
    } else {
        flush_attempted(ops.drop_first(), outcomes)
    }
}

/// How many attempted operations a flush cycle delivers and removes.
pub open spec fn flush_delivered(ops: Seq<OpModel>, outcomes: Seq<DeliveryOutcome>) -> int
    decreases ops.len(),
{
    if ops.len() == 0 {
        0
    } else if ops.first().status == OpStatus::Pending && outcomes.len() > 0 {
        (if outcomes.first() == DeliveryOutcome::Delivered {
            1int
        } else {
            0int
        }) + flush_delivered(ops.drop_first(), outcomes.drop_first())
    } else {
        flush_delivered(ops.drop_first(), outcomes)
    }
}

/// How many operations a flush cycle moves to terminal `failed`. Only
/// transitions made by this cycle are counted, so a failure is reported by
/// exactly one flush.
pub open spec fn flush_failed_new(
    ops: Seq<OpModel>,
    outcomes: Seq<DeliveryOutcome>,
    max_retries: int,
) -> int
    decreases ops.len(),
{
    if ops.len() == 0 {
        0
    } else if ops.first().status == OpStatus::Pending && outcomes.len() > 0 {
        (if resolve_op(ops.first(), outcomes.first(), max_retries) matches Some(op2) && op2.status
            == OpStatus::Failed {
            1int
        } else {
            0int
        }) + flush_failed_new(ops.drop_first(), outcomes.drop_first(), max_retries)
    } else {
        flush_failed_new(ops.drop_first(), outcomes, max_retries)
    }
}

/// A flush keeps every queue invariant: identifiers stay fresh, distinct and
/// drawn from the operations that entered the flush, statuses stay storable,
/// and retry counters stay within the threshold.
pub proof fn lemma_flush_ops_wf(
    ops: Seq<OpModel>,
    outcomes: Seq<DeliveryOutcome>,
    max_retries: int,
    bound: u64,
)
    requires
        0 <= max_retries,
        forall|i: int| 0 <= i < ops.len() ==> (#[trigger] ops[i]).id < bound,
        forall|i: int, j: int| 0 <= i < j < ops.len() ==> ops[i].id != ops[j].id,
        forall|i: int| 0 <= i < ops.len() ==> (#[trigger] ops[i]).status != OpStatus::Delivered,
        forall|i: int| 0 <= i < ops.len() ==> (#[trigger] ops[i]).status != OpStatus::InFlight,
        forall|i: int| 0 <= i < ops.len() ==> 0 <= (#[trigger] ops[i]).retries <= max_retries + 1,
        forall|i: int|
            0 <= i < ops.len() && op_active(#[trigger] ops[i]) ==> ops[i].retries <= max_retries,
    ensures
        flush_ops(ops, outcomes, max_retries).len() <= ops.len(),
        forall|j: int|
            0 <= j < flush_ops(ops, outcomes, max_retries).len() ==> (#[trigger] flush_ops(
                ops,
                outcomes,
                max_retries,
            )[j]).id < bound,
        forall|j1: int, j2: int|
            0 <= j1 < j2 < flush_ops(ops, outcomes, max_retries).len() ==> flush_ops(
                ops,
                outcomes,
                max_retries,
            )[j1].id != flush_ops(ops, outcomes, max_retries)[j2].id,
        forall|j: int|
            0 <= j < flush_ops(ops, outcomes, max_retries).len() ==> (#[trigger] flush_ops(
                ops,
                outcomes,
                max_retries,
            )[j]).status != OpStatus::Delivered,
        forall|j: int|
            0 <= j < flush_ops(ops, outcomes, max_retries).len() ==> (#[trigger] flush_ops(
                ops,
                outcomes,
                max_retries,
            )[j]).status != OpStatus::InFlight,
        forall|j: int|
            0 <= j < flush_ops(ops, outcomes, max_retries).len() ==> 0 <= (#[trigger] flush_ops(
                ops,
                outcomes,
                max_retries,
            )[j]).retries <= max_retries + 1,
        forall|j: int|
            0 <= j < flush_ops(ops, outcomes, max_retries).len() && op_active(
                #[trigger] flush_ops(ops, outcomes, max_retries)[j],
            ) ==> flush_ops(ops, outcomes, max_retries)[j].retries <= max_retries,
        forall|j: int|
            0 <= j < flush_ops(ops, outcomes, max_retries).len() ==> exists|i: int|
                0 <= i < ops.len() && (#[trigger] flush_ops(ops, outcomes, max_retries)[j]).id
                    == ops[i].id,
    decreases ops.len(),
{
    if ops.len() == 0 {
    } else {
        let rest = ops.drop_first();
        assert(forall|i: int| 0 <= i < rest.len() ==> rest[i] == ops[i + 1]);
        let result = flush_ops(ops, outcomes, max_retries);
        if ops.first().status == OpStatus::Pending && outcomes.len() > 0 {
            lemma_flush_ops_wf(rest, outcomes.drop_first(), max_retries, bound);
            let sub = flush_ops(rest, outcomes.drop_first(), max_retries);
            match resolve_op(ops.first(), outcomes.first(), max_retries) {
                None => {
                    assert(forall|j: int|
                        0 <= j < sub.len() ==> exists|i: int|
                            0 <= i < ops.len() && (#[trigger] sub[j]).id == ops[i].id) by {
                        assert forall|j: int| 0 <= j < sub.len() implies exists|i: int|
                            0 <= i < ops.len() && (#[trigger] sub[j]).id == ops[i].id by {
                            let i0 = choose|i0: int|
                                0 <= i0 < rest.len() && sub[j].id == rest[i0].id;
                            assert(sub[j].id == ops[i0 + 1].id);
                        }
                    }
                },
                Some(op2) => {
                    assert(result[0] == op2);
                    assert(forall|j: int| 0 <= j < sub.len() ==> result[j + 1] == sub[j]);
                    assert forall|j: int| 0 <= j < result.len() implies exists|i: int|
                        0 <= i < ops.len() && (#[trigger] result[j]).id == ops[i].id by {
                        if j == 0 {
                            assert(result[0].id == ops[0].id);
                        } else {
                            let i0 = choose|i0: int|
                                0 <= i0 < rest.len() && sub[j - 1].id == rest[i0].id;
                            assert(result[j].id == ops[i0 + 1].id);
                        }
                    }
                    assert forall|j1: int, j2: int|
                        0 <= j1 < j2 < result.len() implies result[j1].id != result[j2].id by {
                        if j1 == 0 {
                            let i0 = choose|i0: int|
                                0 <= i0 < rest.len() && sub[j2 - 1].id == rest[i0].id;
                            assert(result[j2].id == ops[i0 + 1].id);
                            assert(ops[0].id != ops[i0 + 1].id);
                        }
                    }
                },
            }
        } else {
            lemma_flush_ops_wf(rest, outcomes, max_retries, bound);
            let sub = flush_ops(rest, outcomes, max_retries);
            assert(result[0] == ops.first());
            assert(forall|j: int| 0 <= j < sub.len() ==> result[j + 1] == sub[j]);
            assert forall|j: int| 0 <= j < result.len() implies exists|i: int|
                0 <= i < ops.len() && (#[trigger] result[j]).id == ops[i].id by {
                if j == 0 {
                    assert(result[0].id == ops[0].id);
                } else {
                    let i0 = choose|i0: int| 0 <= i0 < rest.len() && sub[j - 1].id == rest[i0].id;
                    assert(result[j].id == ops[i0 + 1].id);
                }
            }
            assert forall|j1: int, j2: int|
                0 <= j1 < j2 < result.len() implies result[j1].id != result[j2].id by {
                if j1 == 0 {
                    let i0 = choose|i0: int| 0 <= i0 < rest.len() && sub[j2 - 1].id == rest[i0].id;
                    assert(result[j2].id == ops[i0 + 1].id);
                    assert(ops[0].id != ops[i0 + 1].id);
                }
            }
        }
    }
}

/// Status report surfaced to the command layer.
pub struct SyncStatus {
    pub is_online: bool,
    pub last_sync: Option<String>,
    pub pending_operations: i32,
    pub websocket_connected: bool,
    pub sync_in_progress: bool,
}

/// Default bound on how often delivery of one operation is retried before the
/// operation is moved to terminal `failed`.
pub const DEFAULT_MAX_RETRIES: u32 = 3;

/// The pending-operation queue service.
pub struct SyncService {
    ops: Vec<SyncOperation>,
    connected: bool,
    next_id: u64,
    max_depth: usize,
    max_retries: u32,
}

impl View for SyncService {
    type V = QueueState;

    closed spec fn view(&self) -> QueueState {
        QueueState {
            ops: self.ops@.map_values(|op: SyncOperation| op@),
            connected: self.connected,
            next_id: self.next_id,
            max_depth: self.max_depth as int,
            max_retries: self.max_retries as int,
        }
    }
}

impl SyncService {
    /// An empty, disconnected queue with no depth limit beyond the machine's
    /// and the default retry threshold.
    pub fn new() -> (s: Self)
        ensures
            s@.wf(),
            s@.quiescent(),
            s@.ops == Seq::<OpModel>::empty(),
            s@.connected == false,
            s@.next_id == 0,
            s@.max_depth == usize::MAX as int,
            s@.max_retries == DEFAULT_MAX_RETRIES as int,
    {
        let s = SyncService {
            ops: Vec::new(),
            connected: false,
            next_id: 0,
            max_depth: usize::MAX,
            max_retries: DEFAULT_MAX_RETRIES,
        };
        proof {
            assert(s@.ops =~= Seq::<OpModel>::empty());
        }
        s
    }

    /// An empty, disconnected queue with a configurable maximum depth and
    /// retry threshold.
    pub fn with_config(max_depth: usize, max_retries: u32) -> (s: Self)
        requires
            max_retries < u32::MAX,
        ensures
            s@.wf(),
            s@.quiescent(),
            s@.ops == Seq::<OpModel>::empty(),
            s@.connected == false,
            s@.next_id == 0,
            s@.max_depth == max_depth as int,
            s@.max_retries == max_retries as int,
    {
        let s = SyncService { ops: Vec::new(), connected: false, next_id: 0, max_depth, max_retries };
        proof {
            assert(s@.ops =~= Seq::<OpModel>::empty());
        }
        s
    }

    /// Record whether the remote side is believed reachable. Never touches
    /// the queued operations.
    pub fn set_connectivity(&mut self, connected: bool)
        ensures
            final(self)@ == (QueueState { connected, ..old(self)@ }),
    {
        self.connected = connected;
    }

    /// Append a new operation with the given enqueue timestamp at the tail.
    ///
    /// Accepted exactly when the queue is below its configured maximum depth
    /// and the identifier space is not exhausted; otherwise nothing changes
    /// and `QueueFull` is returned.
    pub fn enqueue_at(&mut self, kind: String, payload: String, timestamp: String) -> (r: Result<
        u64,
        SyncError,
    >)
        requires
            old(self)@.wf(),
        ensures
            final(self)@.wf(),
            final(self)@ == spec_enqueue(old(self)@, kind@, payload@, timestamp@),
            r is Ok <==> can_accept(old(self)@),
            r matches Ok(id) ==> id == old(self)@.next_id,
            r matches Err(e) ==> e == SyncError::QueueFull,
            old(self)@.quiescent() ==> final(self)@.quiescent(),
            final(self)@.pending_total() == old(self)@.pending_total() + if can_accept(
                old(self)@,
            ) {
                1int
            } else {
                0int
            },
    {
        if self.ops.len() >= self.max_depth || self.next_id == u64::MAX {
            return Err(SyncError::QueueFull);
        }
        let id = self.next_id;
        let op = SyncOperation {
            id,
            operation_type: kind,
            payload,
            timestamp,
            status: OpStatus::Pending,
            retries: 0,
        };
        let ghost prev = self@;
        self.ops.push(op);
        self.next_id = id + 1;
        proof {
            assert(self@.ops =~= prev.ops.push(op@));
            assert(self@ == spec_enqueue(prev, kind@, payload@, timestamp@));
            lemma_active_count_push(prev.ops, op@);
        }
        Ok(id)
    }

    /// Append a new operation stamped with the current wall-clock time.
    pub fn enqueue(&mut self, kind: String, payload: String) -> (r: Result<u64, SyncError>)
        requires
            old(self)@.wf(),
        ensures
            final(self)@.wf(),
            exists|ts: Seq<char>| final(self)@ == spec_enqueue(old(self)@, kind@, payload@, ts),
            r is Ok <==> can_accept(old(self)@),
            r matches Ok(id) ==> id == old(self)@.next_id,
            r matches Err(e) ==> e == SyncError::QueueFull,
            old(self)@.quiescent() ==> final(self)@.quiescent(),
            final(self)@.pending_total() == old(self)@.pending_total() + if can_accept(
                old(self)@,
            ) {
                1int
            } else {
                0int
            },
    {
        let ts = crate::trusted::now_rfc3339();
        let ghost tsv = ts@;
        let r = self.enqueue_at(kind, payload, ts);
        proof {
            assert(final(self)@ == spec_enqueue(old(self)@, kind@, payload@, tsv));
        }
        r
    }

    /// Number of operations in `pending` or `in-flight` state.
    pub fn pending_count(&self) -> (n: usize)
        ensures
            n == self@.pending_total(),
    {
        let mut n: usize = 0;
        let mut i: usize = 0;
        while i < self.ops.len()
            invariant
                i <= self.ops@.len(),
                n <= i,
                n == active_count(self@.ops.take(i as int)),
            decreases self.ops@.len() - i,
        {
            proof {
                assert(self@.ops.take(i + 1).drop_last() =~= self@.ops.take(i as int));
                assert(self@.ops.take(i + 1).last() == self@.ops[i as int]);
            }
            let st = self.ops[i].status;
            if st == OpStatus::Pending || st == OpStatus::InFlight {
                n = n + 1;
            }
            i = i + 1;
        }
        proof {
            assert(self@.ops.take(self.ops@.len() as int) =~= self@.ops);
        }
        n
    }

    /// Snapshot of the operations still awaiting delivery, in queue order.
    pub fn list_pending(&self) -> (r: Vec<SyncOperation>)
        ensures
            r@.map_values(|op: SyncOperation| op@) == active_ops(self@.ops),
    {
        let mut r: Vec<SyncOperation> = Vec::new();
        let mut i: usize = 0;
        proof {
            assert(self@.ops.take(0) =~= Seq::<OpModel>::empty());
            assert(r@.map_values(|op: SyncOperation| op@) =~= Seq::<OpModel>::empty());
        }
        while i < self.ops.len()
            invariant
                i <= self.ops@.len(),
                r@.map_values(|op: SyncOperation| op@) == active_ops(self@.ops.take(i as int)),
            decreases self.ops@.len() - i,
        {
            proof {
                assert(self@.ops.take(i + 1).drop_last() =~= self@.ops.take(i as int));
                assert(self@.ops.take(i + 1).last() == self@.ops[i as int]);
            }
            let st = self.ops[i].status;
            if st == OpStatus::Pending || st == OpStatus::InFlight {
                let ghost prev = r@;
                r.push(self.ops[i].clone());
                proof {
                    assert(r@.map_values(|op: SyncOperation| op@) =~= prev.map_values(
                        |op: SyncOperation| op@,
                    ).push(self@.ops[i as int]));
                }
            }
            i = i + 1;
        }
        proof {
            assert(self@.ops.take(self.ops@.len() as int) =~= self@.ops);
        }
        r
    }

    /// Snapshot of every queued operation, whatever its state.
    pub fn get_pending_operations(&self) -> (r: Vec<SyncOperation>)
        ensures
            r@.map_values(|op: SyncOperation| op@) == self@.ops,
    {
        let mut r: Vec<SyncOperation> = Vec::new();
        let mut i: usize = 0;
        proof {
            assert(r@.map_values(|op: SyncOperation| op@) =~= self@.ops.take(0));
        }
        while i < self.ops.len()
            invariant
                i <= self.ops@.len(),
                r@.map_values(|op: SyncOperation| op@) == self@.ops.take(i as int),
            decreases self.ops@.len() - i,
        {
            let ghost prev = r@;
            r.push(self.ops[i].clone());
            proof {
                assert(r@.map_values(|op: SyncOperation| op@) =~= prev.map_values(
                    |op: SyncOperation| op@,
                ).push(self@.ops[i as int]));
                assert(self@.ops.take(i + 1) =~= self@.ops.take(i as int).push(
                    self@.ops[i as int],
                ));
            }
            i = i + 1;
        }
        proof {
            assert(self@.ops.take(self.ops@.len() as int) =~= self@.ops);
        }
        r
    }

    /// Build the status report handed back to the command layer. The caller
    /// supplies the result of its reachability probe; the last-sync stamp is
    /// present exactly when the probe succeeded.
    pub fn sync_data(&self, is_online: bool) -> (r: SyncStatus)
        ensures
            r.is_online == is_online,
            r.last_sync is Some <==> is_online,
            r.websocket_connected == self@.connected,
            r.sync_in_progress == false,
            r.pending_operations as int == if self@.pending_total() <= i32::MAX as int {
                self@.pending_total()
            } else {
                i32::MAX as int
            },
    {
        let count = self.pending_count();
        let pending: i32 = if count > i32::MAX as usize {
            i32::MAX
        } else {
            count as i32
        };
        SyncStatus {
            is_online,
            last_sync: if is_online {
                Some(crate::trusted::now_rfc3339())
            } else {
                None
            },
            pending_operations: pending,
            websocket_connected: self.connected,
            sync_in_progress: false,
        }
    }

    /// One flush cycle, driven by the delivery outcomes of the remote
    /// collaborator: when connectivity is believed absent this is a no-op
    /// reporting zero attempts; otherwise every pending operation is
    /// attempted in queue order, one outcome per attempt, until the outcomes
    /// run out.
    pub fn flush(&mut self, outcomes: &Vec<DeliveryOutcome>) -> (r: FlushReport)
        requires
            old(self)@.wf(),
            old(self)@.quiescent(),
        ensures
            final(self)@.wf(),
            final(self)@.quiescent(),
            final(self)@.connected == old(self)@.connected,
            final(self)@.next_id == old(self)@.next_id,
            final(self)@.max_depth == old(self)@.max_depth,
            final(self)@.max_retries == old(self)@.max_retries,
            !old(self)@.connected ==> final(self)@ == old(self)@ && r == (FlushReport {
                attempted: 0,
                delivered: 0,
                failed: 0,
            }),
            old(self)@.connected ==> final(self)@.ops == flush_ops(
                old(self)@.ops,
                outcomes@,
                old(self)@.max_retries,
            ),
            old(self)@.connected ==> r.attempted == flush_attempted(old(self)@.ops, outcomes@),
            old(self)@.connected ==> r.delivered == flush_delivered(old(self)@.ops, outcomes@),
            old(self)@.connected ==> r.failed == flush_failed_new(
                old(self)@.ops,
                outcomes@,
                old(self)@.max_retries,
            ),
    {
        if !self.connected {
            return FlushReport { attempted: 0, delivered: 0, failed: 0 };
        }
        let ghost orig = self@.ops;
        let ghost maxr = self@.max_retries;
        let mut new_ops: Vec<SyncOperation> = Vec::new();
        let mut attempted: usize = 0;
        let mut delivered: usize = 0;
        let mut failed: usize = 0;
        let mut k: usize = 0;
        let mut i: usize = 0;
        proof {
            assert(orig.skip(0) =~= orig);
            assert(outcomes@.skip(0) =~= outcomes@);
            assert(new_ops@.map_values(|op: SyncOperation| op@) =~= Seq::<OpModel>::empty());
        }
        while i < self.ops.len()
            invariant
                self@.wf(),
                self@.quiescent(),
                self@.ops == orig,
                self@.max_retries == maxr,
                i <= orig.len(),
                k <= outcomes@.len(),
                attempted <= i,
                delivered <= attempted,
                failed <= attempted,
                flush_ops(orig, outcomes@, maxr) == new_ops@.map_values(|op: SyncOperation| op@)
                    + flush_ops(orig.skip(i as int), outcomes@.skip(k as int), maxr),
                flush_attempted(orig, outcomes@) == attempted + flush_attempted(
                    orig.skip(i as int),
                    outcomes@.skip(k as int),
                ),
                flush_delivered(orig, outcomes@) == delivered + flush_delivered(
                    orig.skip(i as int),
                    outcomes@.skip(k as int),
                ),
                flush_failed_new(orig, outcomes@, maxr) == failed + flush_failed_new(
                    orig.skip(i as int),
                    outcomes@.skip(k as int),
                    maxr,
                ),
            decreases orig.len() - i,
        {
            proof {
                assert(orig[i as int] == self.ops@[i as int]@);
                assert(orig.skip(i as int).first() == orig[i as int]);
                assert(orig.skip(i as int).drop_first() =~= orig.skip(i + 1));
            }
            let pending_now = self.ops[i].status == OpStatus::Pending;
            if pending_now && k < outcomes.len() {
                proof {
                    assert(outcomes@.skip(k as int).first() == outcomes@[k as int]);
                    assert(outcomes@.skip(k as int).drop_first() =~= outcomes@.skip(k + 1));
                }
                let oc = outcomes[k];
                k = k + 1;
                attempted = attempted + 1;
                let resolved = apply_outcome(&self.ops[i], oc, self.max_retries);
                match resolved {
                    None => {
                        delivered = delivered + 1;
                    },
                    Some(op2) => {
                        if op2.status == OpStatus::Failed {
                            failed = failed + 1;
                        }
                        let ghost prev = new_ops@;
                        let ghost op2v = op2@;
                        new_ops.push(op2);
                        proof {
                            assert(new_ops@.map_values(|op: SyncOperation| op@) =~= prev.map_values(
                                |op: SyncOperation| op@,
                            ).push(op2v));
                            assert(prev.map_values(|op: SyncOperation| op@).push(op2v) + flush_ops(
                                orig.skip(i + 1),
                                outcomes@.skip(k as int),
                                maxr,
                            ) =~= prev.map_values(|op: SyncOperation| op@) + (seq![op2v]
                                + flush_ops(orig.skip(i + 1), outcomes@.skip(k as int), maxr)));
                        }
                    },
                }
            } else {
                let op2 = self.ops[i].clone();
                let ghost prev = new_ops@;
                let ghost op2v = op2@;
                new_ops.push(op2);
                proof {
                    assert(new_ops@.map_values(|op: SyncOperation| op@) =~= prev.map_values(
                        |op: SyncOperation| op@,
                    ).push(op2v));
                    assert(prev.map_values(|op: SyncOperation| op@).push(op2v) + flush_ops(
                        orig.skip(i + 1),
                        outcomes@.skip(k as int),
                        maxr,
                    ) =~= prev.map_values(|op: SyncOperation| op@) + (seq![op2v] + flush_ops(
                        orig.skip(i + 1),
                        outcomes@.skip(k as int),
                        maxr,
                    )));
                }
            }
            i = i + 1;
        }
        proof {
            assert(orig.skip(orig.len() as int) =~= Seq::<OpModel>::empty());
            assert(flush_ops(orig, outcomes@, maxr) =~= new_ops@.map_values(
                |op: SyncOperation| op@,
            ));
            lemma_flush_ops_wf(orig, outcomes@, maxr, self@.next_id);
        }
        self.ops = new_ops;
        FlushReport { attempted, delivered, failed }
    }

    /// A copy of the operation at `i`, for handing to the delivery call.
    pub fn get_operation(&self, i: usize) -> (r: SyncOperation)
        requires
            i < self@.ops.len(),
        ensures
            r@ == self@.ops[i as int],
    {
        proof {
            assert(self@.ops[i as int] == self.ops@[i as int]@);
        }
        self.ops[i].clone()
    }

    /// Mark the first pending operation at or after `from` as in-flight and
    /// hand its index back for a delivery attempt. Returns `None`, changing
    /// nothing, when connectivity is believed absent or nothing is pending
    /// there. Together with `finish_attempt` this lets a caller drain the
    /// queue one remote call at a time while `pending_count` and
    /// `list_pending` stay accurate.
    pub fn begin_attempt(&mut self, from: usize) -> (r: Option<usize>)
        requires
            old(self)@.wf(),
            old(self)@.quiescent(),
        ensures
            final(self)@.wf(),
            final(self)@.connected == old(self)@.connected,
            final(self)@.next_id == old(self)@.next_id,
            final(self)@.max_depth == old(self)@.max_depth,
            final(self)@.max_retries == old(self)@.max_retries,
            match r {
                None => final(self)@ == old(self)@ && (!old(self)@.connected || forall|j: int|
                    from <= j < old(self)@.ops.len() ==> (#[trigger] old(self)@.ops[j]).status
                        != OpStatus::Pending),
                Some(i) => {
                    &&& old(self)@.connected
                    &&& from <= i < old(self)@.ops.len()
                    &&& old(self)@.ops[i as int].status == OpStatus::Pending
                    &&& forall|j: int|
                        from <= j < i ==> (#[trigger] old(self)@.ops[j]).status
                            != OpStatus::Pending
                    &&& final(self)@.ops == old(self)@.ops.update(
                        i as int,
                        (OpModel { status: OpStatus::InFlight, ..old(self)@.ops[i as int] }),
                    )
                    &&& forall|j: int|
                        0 <= j < final(self)@.ops.len() && j != i ==> (#[trigger] final(self)@.ops[j]).status != OpStatus::InFlight
                },
            },
    {
        if !self.connected {
            return None;
        }
        let ghost orig = self@;
        let mut i: usize = from;
        while i < self.ops.len()
            invariant
                self@ == orig,
                orig == old(self)@,
                orig.wf(),
                orig.quiescent(),
                self.connected,
                from <= i,
                forall|j: int|
                    from <= j < i && j < orig.ops.len() ==> (#[trigger] orig.ops[j]).status
                        != OpStatus::Pending,
            decreases self.ops@.len() - i,
        {
            proof {
                assert(orig.ops[i as int] == self.ops@[i as int]@);
            }
            if self.ops[i].status == OpStatus::Pending {
                let marked = SyncOperation {
                    id: self.ops[i].id,
                    operation_type: self.ops[i].operation_type.clone(),
                    payload: self.ops[i].payload.clone(),
                    timestamp: self.ops[i].timestamp.clone(),
                    status: OpStatus::InFlight,
                    retries: self.ops[i].retries,
                };
                let ghost markedv = marked@;
                self.ops[i] = marked;
                proof {
                    assert(self@.ops =~= orig.ops.update(i as int, markedv));
                    assert(markedv == (OpModel {
                        status: OpStatus::InFlight,
                        ..orig.ops[i as int]
                    }));
                }
                return Some(i);
            }
            i = i + 1;
        }
        None
    }

    /// Resolve the single in-flight operation at `i` against the delivery
    /// outcome: on success it is removed, on a transient failure under the
    /// retry threshold it is requeued with one more retry, otherwise it is
    /// moved to terminal `failed`.
    pub fn finish_attempt(&mut self, i: usize, outcome: DeliveryOutcome) -> (r: AttemptResolution)
        requires
            old(self)@.wf(),
            i < old(self)@.ops.len(),
            old(self)@.ops[i as int].status == OpStatus::InFlight,
            forall|j: int|
                0 <= j < old(self)@.ops.len() && j != i ==> (#[trigger] old(self)@.ops[j]).status
                    != OpStatus::InFlight,
        ensures
            final(self)@.wf(),
            final(self)@.quiescent(),
            final(self)@.connected == old(self)@.connected,
            final(self)@.next_id == old(self)@.next_id,
            final(self)@.max_depth == old(self)@.max_depth,
            final(self)@.max_retries == old(self)@.max_retries,
            match resolve_op(old(self)@.ops[i as int], outcome, old(self)@.max_retries) {
                None => final(self)@.ops == old(self)@.ops.remove(i as int) && r
                    == AttemptResolution::Delivered,
                Some(op2) => final(self)@.ops == old(self)@.ops.update(i as int, op2) && (r
                    == AttemptResolution::Requeued <==> op2.status == OpStatus::Pending) && (r
                    == AttemptResolution::Failed <==> op2.status == OpStatus::Failed),
            },
    {
        let ghost orig = self@;
        proof {
            assert(orig.ops[i as int] == self.ops@[i as int]@);
        }
        match outcome {
            DeliveryOutcome::Delivered => {
                self.ops.remove(i);
                proof {
                    assert(self@.ops =~= orig.ops.remove(i as int));
                }
                AttemptResolution::Delivered
            },
            _ => {
                let resolved = apply_outcome(&self.ops[i], outcome, self.max_retries);
                match resolved {
                    Some(op2) => {
                        let requeued = op2.status == OpStatus::Pending;
                        let ghost op2v = op2@;
                        self.ops[i] = op2;
                        proof {
                            assert(self@.ops =~= orig.ops.update(i as int, op2v));
                        }
                        if requeued {
                            AttemptResolution::Requeued
                        } else {
                            AttemptResolution::Failed
                        }
                    },
                    None => {
                        proof {
                            assert(false);
                        }
                        AttemptResolution::Delivered
                    },
                }
            },
        }
    }
}

/// How `finish_attempt` resolved a delivery attempt.
#[derive(Clone, Copy, Debug, PartialEq, Eq, Structural)]
pub enum AttemptResolution {
    /// The operation was acknowledged and removed from the queue.
    Delivered,
    /// The operation goes back to `pending` for a later cycle.
    Requeued,
    /// The operation reached terminal `failed` and stays queued for
    /// inspection, excluded from further attempts.
    Failed,
}

/// Resolve one attempted operation against the outcome the remote side
/// answered, mirroring `resolve_op`.
fn apply_outcome(op: &SyncOperation, outcome: DeliveryOutcome, max_retries: u32) -> (r: Option<
    SyncOperation,
>)
    requires
        op@.retries <= max_retries,
        max_retries < u32::MAX,
    ensures
        r is None <==> resolve_op(op@, outcome, max_retries as int) is None,
        r matches Some(op2) ==> resolve_op(op@, outcome, max_retries as int) == Some(op2@),
{
    match outcome {
        DeliveryOutcome::Delivered => None,
        DeliveryOutcome::NetworkError => {
            let nr = op.retries + 1;
            let st = if nr > max_retries {
                OpStatus::Failed
            } else {
                OpStatus::Pending
            };
            Some(
                SyncOperation {
                    id: op.id,
                    operation_type: op.operation_type.clone(),
                    payload: op.payload.clone(),
                    timestamp: op.timestamp.clone(),
                    status: st,
                    retries: nr,
                },
            )
        },
        DeliveryOutcome::ServerRejected => Some(
            SyncOperation {
                id: op.id,
                operation_type: op.operation_type.clone(),
                payload: op.payload.clone(),
                timestamp: op.timestamp.clone(),
                status: OpStatus::Failed,
                retries: op.retries,
            },
        ),
    }
}

} // verus!
