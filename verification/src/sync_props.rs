//! Laws of the pending-operation queue, stated over its mathematical model
//! and proved once for every queue state, request sequence and outcome
//! sequence.

use vstd::prelude::*;
use crate::sync::{
    QueueState, OpModel, OpStatus, DeliveryOutcome, spec_enqueue, can_accept, active_count,
    flush_ops, flush_attempted, flush_delivered, flush_failed_new, resolve_op, op_active,
    lemma_active_count_push,
};

verus! {

/// The arguments of one `enqueue` call.
pub struct EnqueueRequest {
    pub kind: Seq<char>,
    pub payload: Seq<char>,
    pub timestamp: Seq<char>,
}

/// The queue state after a sequence of `enqueue` calls.
pub open spec fn apply_enqueues(s: QueueState, reqs: Seq<EnqueueRequest>) -> QueueState
    decreases reqs.len(),
{
    if reqs.len() == 0 {
        s
    } else {
        apply_enqueues(
            spec_enqueue(s, reqs.first().kind, reqs.first().payload, reqs.first().timestamp),
            reqs.drop_first(),
        )
    }
}

/// How many of a sequence of `enqueue` calls are accepted rather than
/// rejected with `QueueFull`.
pub open spec fn accepted_count(s: QueueState, reqs: Seq<EnqueueRequest>) -> int
    decreases reqs.len(),
{
    if reqs.len() == 0 {
        0
    } else {
        (if can_accept(s) {
            1int
        } else {
            0int
        }) + accepted_count(
            spec_enqueue(s, reqs.first().kind, reqs.first().payload, reqs.first().timestamp),
            reqs.drop_first(),
        )
    }
}

/// One `enqueue` step keeps the queue well formed, leaves connectivity
/// alone, and raises the pending count by one exactly when it is accepted.
pub proof fn lemma_spec_enqueue_wf(
    s: QueueState,
    kind: Seq<char>,
    payload: Seq<char>,
    ts: Seq<char>,
)
    requires
        s.wf(),
    ensures
        spec_enqueue(s, kind, payload, ts).wf(),
        spec_enqueue(s, kind, payload, ts).connected == s.connected,
        spec_enqueue(s, kind, payload, ts).pending_total() == s.pending_total() + if can_accept(
            s,
        ) {
            1int
        } else {
            0int
        },
{
    if can_accept(s) {
        let op = OpModel {
            id: s.next_id,
            kind,
            payload,
            timestamp: ts,
            status: OpStatus::Pending,
            retries: 0,
        };
        let s2 = spec_enqueue(s, kind, payload, ts);
        assert(forall|i: int| 0 <= i < s.ops.len() ==> s2.ops[i] == s.ops[i]);
        assert(s2.ops[s.ops.len() as int] == op);
        lemma_active_count_push(s.ops, op);
    }
}

/// While connectivity is false, a sequence of `enqueue` calls raises the
/// pending count by exactly the number of calls that were accepted; the
/// calls rejected with `QueueFull` leave the queue untouched and are not
/// counted.
pub proof fn lemma_enqueue_preserves_count(s: QueueState, reqs: Seq<EnqueueRequest>)
    requires
        s.wf(),
        !s.connected,
    ensures
        apply_enqueues(s, reqs).wf(),
        apply_enqueues(s, reqs).connected == s.connected,
        apply_enqueues(s, reqs).pending_total() == s.pending_total() + accepted_count(s, reqs),
    decreases reqs.len(),
{
    if reqs.len() == 0 {
    } else {
        let s2 = spec_enqueue(s, reqs.first().kind, reqs.first().payload, reqs.first().timestamp);
        lemma_spec_enqueue_wf(s, reqs.first().kind, reqs.first().payload, reqs.first().timestamp);
        lemma_enqueue_preserves_count(s2, reqs.drop_first());
    }
}

/// The operation/outcome pairs a flush cycle attempts: pending operations in
/// queue order, matched with the outcome sequence one for one.
pub open spec fn attempt_pairs(ops: Seq<OpModel>, outcomes: Seq<DeliveryOutcome>) -> Seq<
    (OpModel, DeliveryOutcome),
>
    decreases ops.len(),
{
    if ops.len() == 0 {
        Seq::empty()
    } else if ops.first().status == OpStatus::Pending && outcomes.len() > 0 {
        seq![(ops.first(), outcomes.first())] + attempt_pairs(
            ops.drop_first(),
            outcomes.drop_first(),
        )
    } else {
        attempt_pairs(ops.drop_first(), outcomes)
    }
}

/// Every attempted operation is one of the queued operations, and only
/// pending operations are ever attempted.
pub proof fn lemma_attempt_pairs_from_queue(ops: Seq<OpModel>, outcomes: Seq<DeliveryOutcome>)
    ensures
        forall|t: int|
            0 <= t < attempt_pairs(ops, outcomes).len() ==> exists|i: int|
                0 <= i < ops.len() && (#[trigger] attempt_pairs(ops, outcomes)[t]).0 == ops[i],
        forall|t: int|
            0 <= t < attempt_pairs(ops, outcomes).len() ==> (#[trigger] attempt_pairs(
                ops,
                outcomes,
            )[t]).0.status == OpStatus::Pending,
    decreases ops.len(),
{
    if ops.len() == 0 {
    } else {
        let rest = ops.drop_first();
        assert(forall|i: int| 0 <= i < rest.len() ==> rest[i] == ops[i + 1]);
        let pairs = attempt_pairs(ops, outcomes);
        if ops.first().status == OpStatus::Pending && outcomes.len() > 0 {
            lemma_attempt_pairs_from_queue(rest, outcomes.drop_first());
            let sub = attempt_pairs(rest, outcomes.drop_first());
            assert(pairs[0].0 == ops[0]);
            assert(forall|t: int| 0 <= t < sub.len() ==> pairs[t + 1] == sub[t]);
            assert forall|t: int| 0 <= t < pairs.len() implies exists|i: int|
                0 <= i < ops.len() && (#[trigger] pairs[t]).0 == ops[i] by {
                if t == 0 {
                    assert(pairs[0].0 == ops[0]);
                } else {
                    let i0 = choose|i0: int| 0 <= i0 < rest.len() && sub[t - 1].0 == rest[i0];
                    assert(pairs[t].0 == ops[i0 + 1]);
                }
            }
        } else {
            lemma_attempt_pairs_from_queue(rest, outcomes);
            let sub = attempt_pairs(rest, outcomes);
            assert(forall|t: int| 0 <= t < sub.len() ==> pairs[t] == sub[t]);
            assert forall|t: int| 0 <= t < pairs.len() implies exists|i: int|
                0 <= i < ops.len() && (#[trigger] pairs[t]).0 == ops[i] by {
                let i0 = choose|i0: int| 0 <= i0 < rest.len() && sub[t].0 == rest[i0];
                assert(pairs[t].0 == ops[i0 + 1]);
            }
        }
    }
}

/// The identifiers surviving a flush are drawn from the queued operations.
pub proof fn lemma_flush_ops_ids_subset(
    ops: Seq<OpModel>,
    outcomes: Seq<DeliveryOutcome>,
    max_retries: int,
)
    ensures
        forall|j: int|
            0 <= j < flush_ops(ops, outcomes, max_retries).len() ==> exists|i: int|
                0 <= i < ops.len() && (#[trigger] flush_ops(ops, outcomes, max_retries)[j]).id
                    == ops[i].id,
    decreases ops.len(),
{
    if ops.len() == 0 {
    } else {
        let rest = ops.drop_first();
        assert(forall|i: int| 0 <= i < rest.len() ==> rest[i] == ops[i + 1]);
        let result = flush_ops(ops, outcomes, max_retries);
        if ops.first().status == OpStatus::Pending && outcomes.len() > 0 {
            lemma_flush_ops_ids_subset(rest, outcomes.drop_first(), max_retries);
            let sub = flush_ops(rest, outcomes.drop_first(), max_retries);
            match resolve_op(ops.first(), outcomes.first(), max_retries) {
                None => {
                    assert forall|j: int| 0 <= j < result.len() implies exists|i: int|
                        0 <= i < ops.len() && (#[trigger] result[j]).id == ops[i].id by {
                        let i0 = choose|i0: int| 0 <= i0 < rest.len() && sub[j].id == rest[i0].id;
                        assert(result[j].id == ops[i0 + 1].id);
                    }
                },
                Some(op2) => {
                    assert(result[0] == op2);
                    assert(forall|j: int| 0 <= j < sub.len() ==> result[j + 1] == sub[j]);
                    assert forall|j: int| 0 <= j < result.len() implies exists|i: int|
                        0 <= i < ops.len() && (#[trigger] result[j]).id == ops[i].id by {
                        if j == 0 {
                            assert(result[0].id == ops[0].id);
                        } else {
                            let i0 = choose|i0: int|
                                0 <= i0 < rest.len() && sub[j - 1].id == rest[i0].id;
                            assert(result[j].id == ops[i0 + 1].id);
                        }
                    }
                },
            }
        } else {
            lemma_flush_ops_ids_subset(rest, outcomes, max_retries);
            let sub = flush_ops(rest, outcomes, max_retries);
            assert(result[0] == ops.first());
            assert(forall|j: int| 0 <= j < sub.len() ==> result[j + 1] == sub[j]);
            assert forall|j: int| 0 <= j < result.len() implies exists|i: int|
                0 <= i < ops.len() && (#[trigger] result[j]).id == ops[i].id by {
                if j == 0 {
                    assert(result[0].id == ops[0].id);
                } else {
                    let i0 = choose|i0: int| 0 <= i0 < rest.len() && sub[j - 1].id == rest[i0].id;
                    assert(result[j].id == ops[i0 + 1].id);
                }
            }
        }
    }
}

/// What a flush owes one attempted operation `op` with outcome `oc`, stated
/// of the resulting queue contents: success removes it entirely, a transient
/// failure under the retry threshold keeps it pending with its retry counter
/// raised by one, and a transient failure over the threshold or a server
/// rejection leaves it queued in terminal `failed` state.
pub open spec fn attempt_claim(
    op: OpModel,
    oc: DeliveryOutcome,
    result: Seq<OpModel>,
    max_retries: int,
) -> bool {
    &&& (oc == DeliveryOutcome::Delivered ==> forall|j: int|
        0 <= j < result.len() ==> (#[trigger] result[j]).id != op.id)
    &&& (oc == DeliveryOutcome::NetworkError && op.retries + 1 <= max_retries ==> result.contains(
        (OpModel { status: OpStatus::Pending, retries: op.retries + 1, ..op }),
    ))
    &&& (oc == DeliveryOutcome::NetworkError && op.retries + 1 > max_retries ==> result.contains(
        (OpModel { status: OpStatus::Failed, retries: op.retries + 1, ..op }),
    ))
    &&& (oc == DeliveryOutcome::ServerRejected ==> result.contains(
        (OpModel { status: OpStatus::Failed, ..op }),
    ))
}

/// An attempt claim survives keeping one unrelated operation in front of the
/// flush result.
proof fn lemma_attempt_claim_cons(
    head: OpModel,
    sub: Seq<OpModel>,
    op: OpModel,
    oc: DeliveryOutcome,
    max_retries: int,
)
    requires
        head.id != op.id,
        attempt_claim(op, oc, sub, max_retries),
    ensures
        attempt_claim(op, oc, seq![head] + sub, max_retries),
{
    let result = seq![head] + sub;
    assert(result[0] == head);
    assert(forall|j: int| 0 <= j < sub.len() ==> result[j + 1] == sub[j]);
    if oc == DeliveryOutcome::Delivered {
        assert forall|j: int| 0 <= j < result.len() implies (#[trigger] result[j]).id != op.id by {
            if j > 0 {
                assert(result[j] == sub[j - 1]);
            }
        }
    }
    if oc == DeliveryOutcome::NetworkError && op.retries + 1 <= max_retries {
        let target = OpModel { status: OpStatus::Pending, retries: op.retries + 1, ..op };
        let j0 = choose|j0: int| 0 <= j0 < sub.len() && sub[j0] == target;
        assert(result[j0 + 1] == target);
        assert(result.contains(target));
    }
    if oc == DeliveryOutcome::NetworkError && op.retries + 1 > max_retries {
        let target = OpModel { status: OpStatus::Failed, retries: op.retries + 1, ..op };
        let j0 = choose|j0: int| 0 <= j0 < sub.len() && sub[j0] == target;
        assert(result[j0 + 1] == target);
        assert(result.contains(target));
    }
    if oc == DeliveryOutcome::ServerRejected {
        let target = OpModel { status: OpStatus::Failed, ..op };
        let j0 = choose|j0: int| 0 <= j0 < sub.len() && sub[j0] == target;
        assert(result[j0 + 1] == target);
        assert(result.contains(target));
    }
}

/// Every operation a flush cycle attempts is resolved by its own outcome:
/// an operation whose delivery succeeds is absent from the resulting queue;
/// one whose delivery fails transiently under the retry threshold remains
/// pending with its retry counter raised by one; one that fails past the
/// threshold, or is rejected by the server, reaches terminal `failed`.
pub proof fn lemma_flush_resolves_attempts(
    ops: Seq<OpModel>,
    outcomes: Seq<DeliveryOutcome>,
    max_retries: int,
)
    requires
        forall|i: int, j: int| 0 <= i < j < ops.len() ==> ops[i].id != ops[j].id,
    ensures
        forall|t: int|
            0 <= t < attempt_pairs(ops, outcomes).len() ==> attempt_claim(
                (#[trigger] attempt_pairs(ops, outcomes)[t]).0,
                attempt_pairs(ops, outcomes)[t].1,
                flush_ops(ops, outcomes, max_retries),
                max_retries,
            ),
    decreases ops.len(),
{
    if ops.len() == 0 {
    } else {
        let rest = ops.drop_first();
        assert(forall|i: int| 0 <= i < rest.len() ==> rest[i] == ops[i + 1]);
        assert(forall|i: int, j: int| 0 <= i < j < rest.len() ==> rest[i].id != rest[j].id);
        let pairs = attempt_pairs(ops, outcomes);
        let result = flush_ops(ops, outcomes, max_retries);
        if ops.first().status == OpStatus::Pending && outcomes.len() > 0 {
            let outs2 = outcomes.drop_first();
            lemma_flush_resolves_attempts(rest, outs2, max_retries);
            lemma_flush_ops_ids_subset(rest, outs2, max_retries);
            lemma_attempt_pairs_from_queue(rest, outs2);
            let sub = flush_ops(rest, outs2, max_retries);
            let sub_pairs = attempt_pairs(rest, outs2);
            assert(pairs[0] == (ops.first(), outcomes.first()));
            assert(forall|t: int| 0 <= t < sub_pairs.len() ==> pairs[t + 1] == sub_pairs[t]);
            match resolve_op(ops.first(), outcomes.first(), max_retries) {
                None => {
                    assert(result == sub);
                    assert forall|t: int| 0 <= t < pairs.len() implies attempt_claim(
                        (#[trigger] pairs[t]).0,
                        pairs[t].1,
                        result,
                        max_retries,
                    ) by {
                        if t == 0 {
                            assert(pairs[0].1 == DeliveryOutcome::Delivered);
                            assert forall|j: int| 0 <= j < result.len() implies (
                            #[trigger] result[j]).id != ops[0].id by {
                                let i0 = choose|i0: int|
                                    0 <= i0 < rest.len() && result[j].id == rest[i0].id;
                                assert(result[j].id == ops[i0 + 1].id);
                            }
                        } else {
                            assert(pairs[t] == sub_pairs[t - 1]);
                            assert(attempt_claim(
                                sub_pairs[t - 1].0,
                                sub_pairs[t - 1].1,
                                sub,
                                max_retries,
                            ));
                        }
                    }
                },
                Some(op2) => {
                    assert(result == seq![op2] + sub);
                    assert(op2.id == ops[0].id);
                    assert forall|t: int| 0 <= t < pairs.len() implies attempt_claim(
                        (#[trigger] pairs[t]).0,
                        pairs[t].1,
                        result,
                        max_retries,
                    ) by {
                        if t == 0 {
                            assert(result[0] == op2);
                            assert(result.contains(op2));
                        } else {
                            assert(pairs[t] == sub_pairs[t - 1]);
                            let op = sub_pairs[t - 1].0;
                            let i0 = choose|i0: int| 0 <= i0 < rest.len() && sub_pairs[t - 1].0
                                == rest[i0];
                            assert(op == ops[i0 + 1]);
                            assert(op2.id != op.id);
                            lemma_attempt_claim_cons(
                                op2,
                                sub,
                                op,
                                sub_pairs[t - 1].1,
                                max_retries,
                            );
                        }
                    }
                },
            }
        } else {
            lemma_flush_resolves_attempts(rest, outcomes, max_retries);
            lemma_attempt_pairs_from_queue(rest, outcomes);
            let sub = flush_ops(rest, outcomes, max_retries);
            let sub_pairs = attempt_pairs(rest, outcomes);
            assert(result == seq![ops.first()] + sub);
            assert(forall|t: int| 0 <= t < sub_pairs.len() ==> pairs[t] == sub_pairs[t]);
            assert forall|t: int| 0 <= t < pairs.len() implies attempt_claim(
                (#[trigger] pairs[t]).0,
                pairs[t].1,
                result,
                max_retries,
            ) by {
                let op = sub_pairs[t].0;
                let i0 = choose|i0: int| 0 <= i0 < rest.len() && sub_pairs[t].0 == rest[i0];
                assert(op == ops[i0 + 1]);
                assert(ops[0].id != op.id);
                lemma_attempt_claim_cons(ops.first(), sub, op, sub_pairs[t].1, max_retries);
            }
        }
    }
}

/// A terminal `failed` operation is excluded from every later flush: it is
/// never attempted again, and it survives the flush unchanged. Since the
/// failure counter of a report counts only the transitions made by that very
/// cycle, a failure is reported by exactly one flush.
pub proof fn lemma_failed_excluded(
    ops: Seq<OpModel>,
    outcomes: Seq<DeliveryOutcome>,
    max_retries: int,
    i: int,
)
    requires
        0 <= i < ops.len(),
        ops[i].status == OpStatus::Failed,
        forall|i1: int, j1: int| 0 <= i1 < j1 < ops.len() ==> ops[i1].id != ops[j1].id,
    ensures
        forall|t: int|
            0 <= t < attempt_pairs(ops, outcomes).len() ==> (#[trigger] attempt_pairs(
                ops,
                outcomes,
            )[t]).0.id != ops[i].id,
        flush_ops(ops, outcomes, max_retries).contains(ops[i]),
    decreases ops.len(),
{
    let rest = ops.drop_first();
    assert(forall|i1: int| 0 <= i1 < rest.len() ==> rest[i1] == ops[i1 + 1]);
    assert(forall|i1: int, j1: int| 0 <= i1 < j1 < rest.len() ==> rest[i1].id != rest[j1].id);
    let pairs = attempt_pairs(ops, outcomes);
    let result = flush_ops(ops, outcomes, max_retries);
    if ops.first().status == OpStatus::Pending && outcomes.len() > 0 {
        let outs2 = outcomes.drop_first();
        lemma_failed_excluded(rest, outs2, max_retries, i - 1);
        let sub = flush_ops(rest, outs2, max_retries);
        let sub_pairs = attempt_pairs(rest, outs2);
        assert(pairs[0] == (ops.first(), outcomes.first()));
        assert(forall|t: int| 0 <= t < sub_pairs.len() ==> pairs[t + 1] == sub_pairs[t]);
        assert forall|t: int| 0 <= t < pairs.len() implies (#[trigger] pairs[t]).0.id
            != ops[i].id by {
            if t == 0 {
                assert(pairs[0].0.id == ops[0].id);
                assert(ops[0].id != ops[i].id);
            } else {
                assert(pairs[t] == sub_pairs[t - 1]);
                assert(sub_pairs[t - 1].0.id != rest[i - 1].id);
            }
        }
        let j0 = choose|j0: int| 0 <= j0 < sub.len() && sub[j0] == rest[i - 1];
        match resolve_op(ops.first(), outcomes.first(), max_retries) {
            None => {
                assert(result == sub);
                assert(result[j0] == ops[i]);
            },
            Some(op2) => {
                assert(result == seq![op2] + sub);
                assert(result[j0 + 1] == ops[i]);
            },
        }
        assert(result.contains(ops[i]));
    } else {
        let sub = flush_ops(rest, outcomes, max_retries);
        let sub_pairs = attempt_pairs(rest, outcomes);
        assert(result == seq![ops.first()] + sub);
        assert(forall|t: int| 0 <= t < sub_pairs.len() ==> pairs[t] == sub_pairs[t]);
        if i == 0 {
            lemma_attempt_pairs_from_queue(rest, outcomes);
            assert(result[0] == ops[0]);
            assert(result.contains(ops[0]));
            assert forall|t: int| 0 <= t < pairs.len() implies (#[trigger] pairs[t]).0.id
                != ops[i].id by {
                let i0 = choose|i0: int| 0 <= i0 < rest.len() && sub_pairs[t].0 == rest[i0];
                assert(pairs[t].0 == ops[i0 + 1]);
            }
        } else {
            lemma_failed_excluded(rest, outcomes, max_retries, i - 1);
            assert forall|t: int| 0 <= t < pairs.len() implies (#[trigger] pairs[t]).0.id
                != ops[i].id by {
                assert(sub_pairs[t].0.id != rest[i - 1].id);
            }
            let j0 = choose|j0: int| 0 <= j0 < sub.len() && sub[j0] == rest[i - 1];
            assert(result[j0 + 1] == ops[i]);
            assert(result.contains(ops[i]));
        }
    }
}

/// Flushes attempt operations strictly in enqueue order: with operations
/// A, B, C all pending and capacity for a single delivery before
/// connectivity drops, A alone is delivered, leaving B and C pending and
/// untouched.
pub proof fn lemma_fifo_delivers_head(a: OpModel, b: OpModel, c: OpModel, max_retries: int)
    requires
        a.status == OpStatus::Pending,
        b.status == OpStatus::Pending,
        c.status == OpStatus::Pending,
    ensures
        flush_ops(seq![a, b, c], seq![DeliveryOutcome::Delivered], max_retries) == seq![b, c],
        flush_attempted(seq![a, b, c], seq![DeliveryOutcome::Delivered]) == 1,
        flush_delivered(seq![a, b, c], seq![DeliveryOutcome::Delivered]) == 1,
        flush_failed_new(seq![a, b, c], seq![DeliveryOutcome::Delivered], max_retries) == 0,
{
    let ops = seq![a, b, c];
    let outs = seq![DeliveryOutcome::Delivered];
    let none: Seq<DeliveryOutcome> = Seq::empty();
    assert(ops.first() == a);
    assert(ops.drop_first() =~= seq![b, c]);
    assert(outs.first() == DeliveryOutcome::Delivered);
    assert(outs.drop_first() =~= none);
    assert(resolve_op(a, DeliveryOutcome::Delivered, max_retries) is None);
    assert(seq![b, c].first() == b);
    assert(seq![b, c].drop_first() =~= seq![c]);
    assert(seq![c].first() == c);
    assert(seq![c].drop_first() =~= Seq::<OpModel>::empty());
    assert(flush_ops(Seq::empty(), none, max_retries) =~= Seq::<OpModel>::empty());
    assert(flush_ops(seq![c], none, max_retries) =~= seq![c]);
    assert(flush_ops(seq![b, c], none, max_retries) =~= seq![b] + seq![c]);
    assert(seq![b] + seq![c] =~= seq![b, c]);
    assert(flush_ops(ops, outs, max_retries) =~= seq![b, c]);
    assert(flush_attempted(Seq::<OpModel>::empty(), none) == 0);
    assert(flush_attempted(seq![c], none) == 0);
    assert(flush_attempted(seq![b, c], none) == 0);
    assert(flush_delivered(Seq::<OpModel>::empty(), none) == 0);
    assert(flush_delivered(seq![c], none) == 0);
    assert(flush_delivered(seq![b, c], none) == 0);
    assert(flush_failed_new(Seq::<OpModel>::empty(), none, max_retries) == 0);
    assert(flush_failed_new(seq![c], none, max_retries) == 0);
    assert(flush_failed_new(seq![b, c], none, max_retries) == 0);
}

/// The pending count is never negative and never exceeds the queue length.
pub proof fn lemma_active_count_bounds(ops: Seq<OpModel>)
    ensures
        0 <= active_count(ops) <= ops.len(),
    decreases ops.len(),
{
    if ops.len() > 0 {
        lemma_active_count_bounds(ops.drop_last());
    }
}

/// A queue whose pending count is zero holds no operation awaiting delivery.
pub proof fn lemma_no_active_when_zero(ops: Seq<OpModel>)
    requires
        active_count(ops) == 0,
    ensures
        forall|i: int| 0 <= i < ops.len() ==> !op_active(#[trigger] ops[i]),
    decreases ops.len(),
{
    if ops.len() > 0 {
        lemma_active_count_bounds(ops.drop_last());
        lemma_no_active_when_zero(ops.drop_last());
        assert(forall|i: int| 0 <= i < ops.len() - 1 ==> ops[i] == ops.drop_last()[i]);
        assert(!op_active(ops.last()));
    }
}

/// A flush finding nothing pending makes no attempts and changes nothing.
pub proof fn lemma_flush_idle(ops: Seq<OpModel>, outcomes: Seq<DeliveryOutcome>, max_retries: int)
    requires
        forall|i: int| 0 <= i < ops.len() ==> (#[trigger] ops[i]).status != OpStatus::Pending,
    ensures
        flush_ops(ops, outcomes, max_retries) == ops,
        flush_attempted(ops, outcomes) == 0,
        flush_delivered(ops, outcomes) == 0,
        flush_failed_new(ops, outcomes, max_retries) == 0,
    decreases ops.len(),
{
    if ops.len() == 0 {
        assert(flush_ops(ops, outcomes, max_retries) =~= ops);
    } else {
        let rest = ops.drop_first();
        assert(forall|i: int| 0 <= i < rest.len() ==> rest[i] == ops[i + 1]);
        lemma_flush_idle(rest, outcomes, max_retries);
        assert(flush_ops(ops, outcomes, max_retries) =~= ops);
    }
}

/// Idempotence of flushing a drained queue: when the pending count is zero,
/// any flush leaves the queue contents unchanged and reports zero attempts,
/// zero deliveries and zero failures.
pub proof fn lemma_flush_idempotent_when_drained(s: QueueState, outcomes: Seq<DeliveryOutcome>)
    requires
        s.pending_total() == 0,
    ensures
        flush_ops(s.ops, outcomes, s.max_retries) == s.ops,
        flush_attempted(s.ops, outcomes) == 0,
        flush_delivered(s.ops, outcomes) == 0,
        flush_failed_new(s.ops, outcomes, s.max_retries) == 0,
{
    lemma_no_active_when_zero(s.ops);
    lemma_flush_idle(s.ops, outcomes, s.max_retries);
}

} // verus!
