use oxide_kv::client::{tx_outcome_reply, ClientHandler, Next};
use oxide_kv::json::to_line;
use oxide_kv::protocol::Command;
use oxide_kv::raft::coordinator::TxOutcome;
use oxide_kv::raft::node::{NodeState, RaftNode};
use oxide_kv::sdk::client::Client;
use oxide_kv::sdk::connection::Connection;
use oxide_kv::sdk::error::ClientError;
use oxide_kv::sdk::transaction::TxResult;
use oxide_kv::state_machine::StateMachine;
use serde_json::Value;

fn json(text: &str) -> Value {
    serde_json::from_str(text).unwrap()
}

#[test]
fn set_payload_shape() {
    let req: Value = Client::set("k", "v");
    assert!(req.get("Set").is_some());
    assert_eq!(req["Set"]["key"], "k");
    assert_eq!(req["Set"]["value"], "v");
}

#[test]
fn get_payload_shape() {
    let req: Value = Client::get("k");
    assert_eq!(req["Get"]["key"], "k");
}

#[test]
fn delete_payload_shape() {
    let req: Value = Client::delete("k");
    assert_eq!(req["Delete"]["key"], "k");
}

#[test]
fn begin_tx_payload_shape() {
    let mut tx = Client::begin_tx("t1".to_string());
    tx.set("a", "1").delete("b");
    let req: Value = tx.commit();
    assert_eq!(req["BeginTx"]["tx_id"], "t1");
    assert_eq!(req["BeginTx"]["ops"].as_array().unwrap().len(), 2);
    assert_eq!(req["BeginTx"]["ops"][0]["Put"]["key"], "a");
    assert_eq!(req["BeginTx"]["ops"][0]["Put"]["value"], "1");
    assert_eq!(req["BeginTx"]["ops"][1]["Delete"]["key"], "b");
}

#[test]
fn decide_tx_payload_shape() {
    let req: Value = Client::begin_tx("t1".to_string()).abort();
    assert_eq!(req["DecideTx"]["tx_id"], "t1");
    assert!(req["DecideTx"]["decision"]["Abort"].is_null());
    assert!(req["DecideTx"]["decision"].get("Abort").is_some());
    let req = Client::decide_tx_request("t1", true);
    assert!(req["DecideTx"]["decision"].get("Commit").is_some());
}

#[test]
fn mutation_ok_response_shape() {
    let resp = json(r#"{"status": "ok", "index": 7}"#);
    assert_eq!(Client::parse_index_response(&resp), Ok(7));
}

#[test]
fn get_hit_response_shape() {
    let resp = json(r#"{"status": "ok", "data": "v"}"#);
    assert_eq!(Client::parse_get_response(&resp), Ok(Some("v".to_string())));
}

#[test]
fn get_miss_response_shape() {
    let resp = json(r#"{"status": "not_found"}"#);
    assert_eq!(Client::parse_get_response(&resp), Ok(None));
}

#[test]
fn begin_tx_commit_response_shape() {
    let resp = json(
        r#"{"status": "ok", "tx_id": "t1", "decision": "commit", "begin_index": 3, "decide_index": 4}"#,
    );
    assert_eq!(
        Client::parse_begin_tx_response("t1", &resp),
        Ok(TxResult {
            decision: "commit".to_string(),
            begin_index: 3,
            decide_index: 4,
            tx_id: "t1".to_string(),
        })
    );
}

#[test]
fn begin_tx_aborted_response_shape() {
    let resp = json(r#"{"status": "aborted", "tx_id": "t1", "reason": "vote-no-from-node-2"}"#);
    assert_eq!(
        Client::parse_begin_tx_response("t1", &resp),
        Err(ClientError::TxAborted {
            tx_id: "t1".to_string(),
            reason: "vote-no-from-node-2".to_string(),
        })
    );
}

#[test]
fn not_leader_response_shape() {
    let resp = json(r#"{"error": "Not a leader. Please connect to the leader node."}"#);
    let refused = ClientError::NotLeader("Not a leader. Please connect to the leader node.".to_string());
    assert_eq!(Client::parse_index_response(&resp), Err(refused.clone()));
    assert_eq!(Client::parse_get_response(&resp), Err(refused.clone()));
    assert_eq!(Client::parse_begin_tx_response("t1", &resp), Err(refused.clone()));
    assert_eq!(Client::parse_decide_tx_response(&resp), Err(refused));
}

#[test]
fn other_errors_are_the_servers() {
    let resp = json(r#"{"error": "overloaded"}"#);
    assert_eq!(Client::check_not_leader(&resp), Err(ClientError::Server("overloaded".to_string())));
    let resp = json(r#"{"status": "error", "message": "no"}"#);
    assert_eq!(Client::parse_index_response(&resp), Err(ClientError::Server("no".to_string())));
    assert_eq!(
        Client::parse_begin_tx_response("t", &resp),
        Err(ClientError::Server("no".to_string()))
    );
    let resp = json(r#"{"status": "error"}"#);
    assert_eq!(
        Client::parse_index_response(&resp),
        Err(ClientError::Server("server error".to_string()))
    );
}

#[test]
fn replies_that_fit_no_request_are_shown() {
    let resp = json(r#"{"status": "ok", "index": -1}"#);
    assert_eq!(
        Client::parse_index_response(&resp),
        Err(ClientError::Server(r#"missing index: {"index":-1,"status":"ok"}"#.to_string()))
    );
    let resp = json(r#"[1]"#);
    assert_eq!(
        Client::parse_index_response(&resp),
        Err(ClientError::Server("unexpected response: [1]".to_string()))
    );
    assert_eq!(
        Client::parse_get_response(&resp),
        Err(ClientError::Server("unexpected Get response: [1]".to_string()))
    );
    assert_eq!(
        Client::parse_begin_tx_response("t", &resp),
        Err(ClientError::Server("unexpected BeginTx response: [1]".to_string()))
    );
    let resp = json(r#"{"status": "ok"}"#);
    assert_eq!(
        Client::parse_begin_tx_response("t", &resp),
        Err(ClientError::Server(r#"missing begin_index: {"status":"ok"}"#.to_string()))
    );
    let resp = json(r#"{"status": "ok", "begin_index": 1}"#);
    assert_eq!(
        Client::parse_begin_tx_response("t", &resp),
        Err(ClientError::Server(
            r#"missing decide_index: {"begin_index":1,"status":"ok"}"#.to_string()
        ))
    );
}

#[test]
fn defaults_stand_in_for_what_a_reply_leaves_out() {
    let resp = json(r#"{"status": "ok", "begin_index": 1, "decide_index": 2}"#);
    assert_eq!(Client::parse_begin_tx_response("t", &resp).unwrap().decision, "commit");
    let resp = json(r#"{"status": "aborted"}"#);
    assert_eq!(
        Client::parse_begin_tx_response("t", &resp),
        Err(ClientError::TxAborted { tx_id: "t".to_string(), reason: String::new() })
    );
    let resp = json(r#"{"status": "ok"}"#);
    assert_eq!(Client::parse_get_response(&resp), Ok(None));
}

#[test]
fn requests_are_lines() {
    let line = Connection::request_line(&Client::set("a\"b", "c\nd"));
    assert_eq!(line, b"{\"Set\":{\"key\":\"a\\\"b\",\"value\":\"c\\nd\"}}\n".to_vec());
}

#[test]
fn replies_are_read_from_lines() {
    assert_eq!(Connection::read_reply(""), Err(ClientError::ConnectionClosed));
    let fault = serde_json::from_str::<Value>("not json\n").unwrap_err().to_string();
    assert_eq!(Connection::read_reply("not json\n"), Err(ClientError::MalformedResponse(fault)));
    assert_eq!(Connection::read_reply("{\"a\": 1}\n"), Ok(json(r#"{"a": 1}"#)));
}

#[test]
fn what_a_node_answers_a_client_reads() {
    let mut node = RaftNode::new("solo".to_string(), vec![], StateMachine::new());
    node.state = NodeState::Leader;
    let mut ask = |command: Command| {
        let (next, _) = ClientHandler::dispatch_command(command, &mut node);
        let Next::Reply(reply) = next else {
            panic!("expected an answer");
        };
        let line = String::from_utf8(to_line(&reply)).unwrap();
        Connection::read_reply(&line).unwrap()
    };
    let resp = ask(Command::SetKey { key: "hello".into(), value: "wörld".into() });
    assert_eq!(Client::parse_index_response(&resp), Ok(1));
    let resp = ask(Command::Get { key: "hello".into() });
    assert_eq!(Client::parse_get_response(&resp), Ok(Some("wörld".to_string())));
    let resp = ask(Command::Get { key: "other".into() });
    assert_eq!(Client::parse_get_response(&resp), Ok(None));
    let resp = ask(Command::BeginTx { tx_id: "t".into(), ops: vec![] });
    assert_eq!(Client::parse_begin_tx_response("t", &resp).unwrap().decide_index, 3);
    let aborted = tx_outcome_reply(TxOutcome::Aborted { tx_id: "t".into(), reason: "no".into() });
    assert_eq!(
        Client::parse_begin_tx_response("t", &aborted),
        Err(ClientError::TxAborted { tx_id: "t".to_string(), reason: "no".to_string() })
    );
}

#[test]
fn client_errors_have_messages() {
    let cases = [
        (ClientError::Transport("refused".into()), "transport: refused"),
        (ClientError::MalformedResponse("eof".into()), "malformed response: eof"),
        (ClientError::NotLeader("n2".into()), "not a leader (server says: n2)"),
        (
            ClientError::TxAborted { tx_id: "t\"1".into(), reason: "no".into() },
            "transaction \"t\\\"1\" aborted: no",
        ),
        (ClientError::Server("x".into()), "server error: x"),
        (ClientError::ConnectionClosed, "connection closed by server"),
    ];
    for (error, message) in cases {
        assert_eq!(error.to_string(), message);
    }
}
