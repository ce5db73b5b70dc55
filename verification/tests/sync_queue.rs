use clutch_partners::sync::{
    AttemptResolution, DeliveryOutcome, FlushReport, OpStatus, SyncError, SyncService,
};

#[test]
fn enqueue_assigns_fresh_ids_and_records_fields() {
    let mut q = SyncService::new();
    let id0 = q
        .enqueue("create-sale".to_string(), "{\"productId\":7,\"qty\":2}".to_string())
        .unwrap();
    let id1 = q.enqueue("adjust-stock".to_string(), "{\"sku\":\"A-1\"}".to_string()).unwrap();
    assert_eq!(id0, 0);
    assert_eq!(id1, 1);
    let ops = q.get_pending_operations();
    assert_eq!(ops.len(), 2);
    assert_eq!(ops[0].id, 0);
    assert_eq!(ops[0].operation_type, "create-sale");
    assert_eq!(ops[0].payload, "{\"productId\":7,\"qty\":2}");
    assert_eq!(ops[0].status, OpStatus::Pending);
    assert_eq!(ops[0].retries, 0);
    assert_eq!(ops[1].operation_type, "adjust-stock");
}

#[test]
fn queue_full_beyond_configured_depth() {
    let mut q = SyncService::with_config(2, 3);
    assert!(q.enqueue("a".to_string(), "1".to_string()).is_ok());
    assert!(q.enqueue("b".to_string(), "2".to_string()).is_ok());
    let r = q.enqueue("c".to_string(), "3".to_string());
    assert_eq!(r, Err(SyncError::QueueFull));
    assert_eq!(q.pending_count(), 2);
}

#[test]
fn offline_flush_is_a_no_op_then_online_flush_delivers() {
    // Scenario: one `create-sale` operation enqueued while offline.
    let mut q = SyncService::new();
    q.enqueue("create-sale".to_string(), "{\"productId\":7,\"qty\":2}".to_string()).unwrap();
    let offline = q.flush(&vec![DeliveryOutcome::Delivered]);
    assert_eq!(offline, FlushReport { attempted: 0, delivered: 0, failed: 0 });
    assert_eq!(q.pending_count(), 1);
    q.set_connectivity(true);
    let online = q.flush(&vec![DeliveryOutcome::Delivered]);
    assert_eq!(online, FlushReport { attempted: 1, delivered: 1, failed: 0 });
    assert_eq!(q.pending_count(), 0);
}

#[test]
fn delivered_ops_leave_and_failed_delivery_increments_retries() {
    let mut q = SyncService::new();
    let id0 = q.enqueue("a".to_string(), "1".to_string()).unwrap();
    let id1 = q.enqueue("b".to_string(), "2".to_string()).unwrap();
    q.set_connectivity(true);
    let rep = q.flush(&vec![DeliveryOutcome::NetworkError, DeliveryOutcome::Delivered]);
    assert_eq!(rep, FlushReport { attempted: 2, delivered: 1, failed: 0 });
    let remaining = q.list_pending();
    assert_eq!(remaining.len(), 1);
    assert_eq!(remaining[0].id, id0);
    assert_eq!(remaining[0].status, OpStatus::Pending);
    assert_eq!(remaining[0].retries, 1);
    assert!(remaining.iter().all(|op| op.id != id1));
}

#[test]
fn retry_threshold_reaches_terminal_failed_reported_once() {
    let mut q = SyncService::with_config(10, 0);
    q.enqueue("a".to_string(), "1".to_string()).unwrap();
    q.set_connectivity(true);
    let first = q.flush(&vec![DeliveryOutcome::NetworkError]);
    assert_eq!(first, FlushReport { attempted: 1, delivered: 0, failed: 1 });
    let ops = q.get_pending_operations();
    assert_eq!(ops.len(), 1);
    assert_eq!(ops[0].status, OpStatus::Failed);
    assert_eq!(ops[0].retries, 1);
    assert_eq!(q.pending_count(), 0);
    // The failed operation is excluded from later flushes and not reported again.
    let second = q.flush(&vec![DeliveryOutcome::Delivered]);
    assert_eq!(second, FlushReport { attempted: 0, delivered: 0, failed: 0 });
    assert_eq!(q.get_pending_operations().len(), 1);
}

#[test]
fn server_rejection_is_terminal_without_retries() {
    let mut q = SyncService::new();
    q.enqueue("a".to_string(), "1".to_string()).unwrap();
    q.set_connectivity(true);
    let rep = q.flush(&vec![DeliveryOutcome::ServerRejected]);
    assert_eq!(rep, FlushReport { attempted: 1, delivered: 0, failed: 1 });
    let ops = q.get_pending_operations();
    assert_eq!(ops[0].status, OpStatus::Failed);
    assert_eq!(ops[0].retries, 0);
}

#[test]
fn fifo_flush_delivers_first_enqueued_when_capacity_drops() {
    let mut q = SyncService::new();
    let a = q.enqueue("a".to_string(), "1".to_string()).unwrap();
    let b = q.enqueue("b".to_string(), "2".to_string()).unwrap();
    let c = q.enqueue("c".to_string(), "3".to_string()).unwrap();
    q.set_connectivity(true);
    // Only one outcome arrives before connectivity drops: A alone is delivered.
    let rep = q.flush(&vec![DeliveryOutcome::Delivered]);
    assert_eq!(rep, FlushReport { attempted: 1, delivered: 1, failed: 0 });
    let remaining = q.list_pending();
    assert_eq!(remaining.len(), 2);
    assert_eq!(remaining[0].id, b);
    assert_eq!(remaining[1].id, c);
    assert!(remaining.iter().all(|op| op.id != a));
}

#[test]
fn flush_of_drained_queue_reports_zero_attempts() {
    let mut q = SyncService::new();
    q.set_connectivity(true);
    let rep = q.flush(&vec![DeliveryOutcome::Delivered, DeliveryOutcome::NetworkError]);
    assert_eq!(rep, FlushReport { attempted: 0, delivered: 0, failed: 0 });
    assert_eq!(q.pending_count(), 0);
    assert_eq!(q.get_pending_operations().len(), 0);
}

#[test]
fn stepwise_attempts_mark_in_flight_and_resolve() {
    let mut q = SyncService::new();
    q.enqueue("a".to_string(), "1".to_string()).unwrap();
    q.enqueue("b".to_string(), "2".to_string()).unwrap();
    assert_eq!(q.begin_attempt(0), None);
    q.set_connectivity(true);
    let i = q.begin_attempt(0).unwrap();
    assert_eq!(i, 0);
    let op = q.get_operation(i);
    assert_eq!(op.operation_type, "a");
    assert_eq!(op.status, OpStatus::InFlight);
    // In-flight operations still count as awaiting delivery.
    assert_eq!(q.pending_count(), 2);
    assert_eq!(q.list_pending().len(), 2);
    let res = q.finish_attempt(i, DeliveryOutcome::Delivered);
    assert_eq!(res, AttemptResolution::Delivered);
    assert_eq!(q.pending_count(), 1);
    let i2 = q.begin_attempt(0).unwrap();
    let res2 = q.finish_attempt(i2, DeliveryOutcome::NetworkError);
    assert_eq!(res2, AttemptResolution::Requeued);
    assert_eq!(q.list_pending()[0].retries, 1);
}

#[test]
fn sync_data_reports_connectivity_and_counts() {
    let mut q = SyncService::new();
    q.enqueue("a".to_string(), "1".to_string()).unwrap();
    let offline = q.sync_data(false);
    assert!(!offline.is_online);
    assert!(offline.last_sync.is_none());
    assert_eq!(offline.pending_operations, 1);
    assert!(!offline.websocket_connected);
    assert!(!offline.sync_in_progress);
    q.set_connectivity(true);
    let online = q.sync_data(true);
    assert!(online.is_online);
    assert!(online.last_sync.is_some());
    assert!(online.websocket_connected);
}
