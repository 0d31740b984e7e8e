use oxide_kv::protocol::{Command, TxDecision, TxOp, Vote};
use oxide_kv::state_machine::StateMachine;
use oxide_kv::text::{contains, decimal_text};
use oxide_kv::text_map::TextMap;
use oxide_kv::time::Duration;

fn put(key: &str, value: &str) -> TxOp {
    TxOp::Put { key: key.to_string(), value: value.to_string() }
}

#[test]
fn staged_writes_are_not_read() {
    let mut sm = StateMachine::new();
    sm.set("a", "old");
    sm.begin_tx_at("t".to_string(), vec![put("a", "new"), put("b", "1")], 5);
    assert_eq!(sm.get("a").as_deref(), Some("old"));
    assert_eq!(sm.get("b"), None);
    assert!(sm.is_tx_pending("t"));
    sm.decide_tx("t", TxDecision::Commit);
    assert_eq!(sm.get("a").as_deref(), Some("new"));
    assert_eq!(sm.get("b").as_deref(), Some("1"));
    assert!(!sm.is_tx_pending("t"));
}

#[test]
fn a_second_decision_changes_nothing() {
    let mut sm = StateMachine::new();
    sm.begin_tx_at("t".to_string(), vec![put("a", "1")], 5);
    sm.decide_tx("t", TxDecision::Abort);
    sm.decide_tx("t", TxDecision::Commit);
    assert_eq!(sm.get("a"), None);
}

#[test]
fn votes_are_counted_once_per_peer() {
    let mut sm = StateMachine::new();
    sm.begin_tx_at("t".to_string(), vec![put("a", "1")], 5);
    assert!(sm.record_vote("t", "n2".to_string(), Vote::Yes));
    assert!(sm.record_vote("t", "n2".to_string(), Vote::Yes));
    assert!(!sm.record_vote("ghost", "n2".to_string(), Vote::Yes));
    let view = sm.pending_tx("t").unwrap();
    assert_eq!(view.yes_votes, 1);
    assert_eq!(view.no_votes, 0);
    assert_eq!(view.op_count, 1);
}

#[test]
fn old_transactions_are_found_in_order() {
    let mut sm = StateMachine::new();
    sm.begin_tx_at("b".to_string(), vec![], 100);
    sm.begin_tx_at("a".to_string(), vec![], 100);
    sm.begin_tx_at("young".to_string(), vec![], 990);
    assert_eq!(
        sm.pending_txs_older_than(Duration::from_millis(500), 1_000),
        vec!["a".to_string(), "b".to_string()]
    );
    assert_eq!(sm.pending_tx_count(), 3);
}

#[test]
fn a_snapshot_replaces_everything() {
    let mut sm = StateMachine::new();
    sm.apply(&Command::SetKey { key: "old".to_string(), value: "1".to_string() }, 0);
    sm.begin_tx_at("t".to_string(), vec![], 0);
    let mut data = TextMap::new();
    data.insert("new".to_string(), "2".to_string());
    sm.install_snapshot(data);
    assert_eq!(sm.get("old"), None);
    assert_eq!(sm.get("new").as_deref(), Some("2"));
    assert_eq!(sm.pending_tx_count(), 0);
    sm.clear_for_snapshot();
    assert!(sm.snapshot_data().is_empty());
}

#[test]
fn maps_are_walked_in_the_order_of_their_keys() {
    let mut map = TextMap::new();
    for key in ["b", "a", "c", "ä", "B"] {
        map.insert(key.to_string(), key.len() as u64);
    }
    let keys: Vec<&String> = (0..map.len()).map(|i| map.key_at(i)).collect();
    assert_eq!(keys, ["B", "a", "b", "c", "ä"]);
    map.remove("b");
    assert!(!map.contains_key("b"));
    assert_eq!(map.get("ä"), Some(&2));
    assert_eq!(map.len(), 4);
}

#[test]
fn texts_are_searched_by_characters() {
    assert!(contains("größe", "öß"));
    assert!(contains("abc", ""));
    assert!(!contains("ab", "abc"));
    assert_eq!(decimal_text(0), "0");
    assert_eq!(decimal_text(u64::MAX), "18446744073709551615");
}
