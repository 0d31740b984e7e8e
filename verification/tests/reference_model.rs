use oxide_kv::protocol::{Command, TxDecision, TxOp};
use oxide_kv::raft::reference_model::ReferenceModel;

#[test]
fn reference_model_set_then_get() {
    let mut rm = ReferenceModel::new();
    assert!(rm.apply(1, &Command::SetKey { key: "k".into(), value: "v".into() }));
    assert_eq!(rm.get("k"), Some(&"v".to_string()));
    assert_eq!(rm.applied_index(), 1);
}

#[test]
fn reference_model_delete_removes_key() {
    let mut rm = ReferenceModel::new();
    rm.apply(1, &Command::SetKey { key: "k".into(), value: "v".into() });
    rm.apply(2, &Command::Delete { key: "k".into() });
    assert_eq!(rm.get("k"), None);
    assert_eq!(rm.applied_index(), 2);
}

#[test]
fn reference_model_out_of_order_apply_returns_false() {
    let mut rm = ReferenceModel::new();
    assert!(!rm.apply(3, &Command::SetKey { key: "k".into(), value: "v".into() }));
    assert_eq!(rm.applied_index(), 0);
    assert!(rm.apply(1, &Command::SetKey { key: "k".into(), value: "v".into() }));
    assert_eq!(rm.applied_index(), 1);
}

#[test]
fn reference_model_stale_index_skipped() {
    let mut rm = ReferenceModel::new();
    rm.apply(1, &Command::SetKey { key: "k".into(), value: "v".into() });
    assert!(!rm.apply(1, &Command::SetKey { key: "k".into(), value: "other".into() }));
    assert_eq!(rm.get("k"), Some(&"v".to_string()));
}

#[test]
fn reference_model_compact_is_no_op() {
    let mut rm = ReferenceModel::new();
    assert!(rm.apply(1, &Command::Compact));
    assert_eq!(rm.applied_index(), 1);
    assert_eq!(rm.snapshot().len(), 0);
}

#[test]
fn reference_model_overwrite_takes_latest() {
    let mut rm = ReferenceModel::new();
    rm.apply(1, &Command::SetKey { key: "k".into(), value: "v1".into() });
    rm.apply(2, &Command::SetKey { key: "k".into(), value: "v2".into() });
    rm.apply(3, &Command::SetKey { key: "k".into(), value: "v3".into() });
    assert_eq!(rm.get("k"), Some(&"v3".to_string()));
}

#[test]
fn reference_model_snapshot_returns_full_state() {
    let mut rm = ReferenceModel::new();
    rm.apply(1, &Command::SetKey { key: "a".into(), value: "1".into() });
    rm.apply(2, &Command::SetKey { key: "b".into(), value: "2".into() });
    let snap = rm.snapshot();
    assert_eq!(snap.len(), 2);
    assert_eq!(snap.get("a"), Some(&"1".to_string()));
    assert_eq!(snap.get("b"), Some(&"2".to_string()));
}

#[test]
fn reference_model_begin_tx_stages_ops_invisibly() {
    let mut rm = ReferenceModel::new();
    assert!(rm.apply(
        1,
        &Command::BeginTx {
            tx_id: "t1".into(),
            ops: vec![TxOp::Put { key: "a".into(), value: "1".into() }],
        }
    ));
    assert_eq!(rm.get("a"), None, "staged ops must be invisible pre-commit");
    assert_eq!(rm.applied_index(), 1);
}

#[test]
fn reference_model_decide_commit_applies_atomically() {
    let mut rm = ReferenceModel::new();
    rm.apply(
        1,
        &Command::BeginTx {
            tx_id: "t1".into(),
            ops: vec![
                TxOp::Put { key: "a".into(), value: "1".into() },
                TxOp::Put { key: "b".into(), value: "2".into() },
            ],
        },
    );
    assert!(rm.apply(
        2,
        &Command::DecideTx { tx_id: "t1".into(), decision: TxDecision::Commit }
    ));
    assert_eq!(rm.get("a"), Some(&"1".to_string()));
    assert_eq!(rm.get("b"), Some(&"2".to_string()));
}

#[test]
fn reference_model_decide_abort_discards_ops() {
    let mut rm = ReferenceModel::new();
    rm.apply(1, &Command::SetKey { key: "a".into(), value: "pre".into() });
    rm.apply(
        2,
        &Command::BeginTx {
            tx_id: "t1".into(),
            ops: vec![TxOp::Put { key: "a".into(), value: "new".into() }],
        },
    );
    assert!(rm.apply(
        3,
        &Command::DecideTx { tx_id: "t1".into(), decision: TxDecision::Abort }
    ));
    assert_eq!(rm.get("a"), Some(&"pre".to_string()));
}

#[test]
fn reference_model_decide_delete_op_applies() {
    let mut rm = ReferenceModel::new();
    rm.apply(1, &Command::SetKey { key: "a".into(), value: "1".into() });
    rm.apply(
        2,
        &Command::BeginTx {
            tx_id: "t1".into(),
            ops: vec![TxOp::Delete { key: "a".into() }],
        },
    );
    rm.apply(
        3,
        &Command::DecideTx { tx_id: "t1".into(), decision: TxDecision::Commit },
    );
    assert_eq!(rm.get("a"), None);
}

#[test]
fn reference_model_decide_unknown_tx_is_no_op() {
    let mut rm = ReferenceModel::new();
    rm.apply(1, &Command::SetKey { key: "a".into(), value: "1".into() });
    assert!(rm.apply(
        2,
        &Command::DecideTx { tx_id: "ghost".into(), decision: TxDecision::Commit }
    ));
    assert_eq!(rm.get("a"), Some(&"1".to_string()));
    assert_eq!(rm.applied_index(), 2);
}

#[test]
fn reference_model_reset_clears_pending_txs() {
    let mut rm = ReferenceModel::new();
    rm.apply(
        1,
        &Command::BeginTx {
            tx_id: "t1".into(),
            ops: vec![TxOp::Put { key: "a".into(), value: "1".into() }],
        },
    );
    rm.reset();
    rm.apply(
        1,
        &Command::DecideTx { tx_id: "t1".into(), decision: TxDecision::Commit },
    );
    assert_eq!(rm.get("a"), None);
}

#[test]
fn a_value_is_that_of_the_last_write_since_the_reset() {
    let mut rm = ReferenceModel::new();
    let set = |value: &str| Command::SetKey { key: "k".into(), value: value.into() };
    rm.apply(1, &set("before"));
    rm.reset();
    assert_eq!(rm.get("k"), None);
    let ops = vec![
        TxOp::Put { key: "k".into(), value: "first".into() },
        TxOp::Put { key: "k".into(), value: "second".into() },
    ];
    assert!(rm.apply(1, &Command::BeginTx { tx_id: "t".into(), ops }));
    assert!(rm.apply(2, &set("own")));
    assert!(!rm.apply(2, &set("late")));
    assert_eq!(rm.get("k"), Some(&"own".to_string()));
    assert!(rm.apply(3, &Command::DecideTx { tx_id: "t".into(), decision: TxDecision::Commit }));
    assert_eq!(rm.get("k"), Some(&"second".to_string()));
    assert_eq!(rm.get("k"), rm.snapshot().get("k"));
    assert!(rm.apply(4, &Command::DecideTx { tx_id: "t".into(), decision: TxDecision::Commit }));
    assert!(rm.apply(5, &Command::Delete { key: "k".into() }));
    assert_eq!(rm.get("k"), None);
}
