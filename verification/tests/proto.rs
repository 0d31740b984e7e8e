use oxide_kv::message::{decode, decode_length_delimited, encode_to_vec};
use oxide_kv::protocol::{Command, Configuration, LogEntry, ServerId, Snapshot, TxDecision, TxOp};
use oxide_kv::raft::proto::{decode_domain, encode_domain, pb};
use oxide_kv::raft::rpc::{
    AppendEntriesArgs, AppendReplyArgs, InstallSnapshotArgs, InstallSnapshotReplyArgs, RaftMessage, RequestVoteArgs,
    VoteResponseArgs,
};
use oxide_kv::text_map::TextMap;
use serde_json::Value;

fn object(fields: Vec<(&str, Value)>) -> Value {
    let mut map = serde_json::Map::new();
    for (key, value) in fields {
        map.insert(key.to_string(), value);
    }
    Value::Object(map)
}

#[test]
fn envelope_roundtrips_through_proto() {
    let original = RaftMessage::AppendEntries(AppendEntriesArgs {
        term: 7,
        leader_id: "n1".into(),
        prev_log_index: 4,
        prev_log_term: 6,
        entries: vec![
            LogEntry {
                term: 7,
                index: 5,
                command: Command::SetKey { key: "k".into(), value: "v".into() },
            },
            LogEntry { term: 7, index: 6, command: Command::Delete { key: "gone".into() } },
        ],
        leader_commit: 5,
    });

    let encoded = encode_domain(&original);
    let bytes = encode_to_vec(&encoded);
    let decoded_pb = decode::<pb::RaftMessage>(&bytes[..]).expect("decode");
    let decoded = decode_domain(decoded_pb);

    assert_eq!(decoded, original);
}

#[test]
fn all_message_variants_roundtrip() {
    let mut data = TextMap::new();
    data.insert("alpha".to_string(), "1".to_string());
    let cases = vec![
        RaftMessage::RequestVote(RequestVoteArgs {
            term: 1,
            candidate_id: "n2".into(),
            last_log_index: 10,
            last_log_term: 2,
        }),
        RaftMessage::VoteResponse(VoteResponseArgs { term: 3, vote_granted: true }),
        RaftMessage::AppendReply(AppendReplyArgs { term: 4, success: false }),
        RaftMessage::InstallSnapshot(InstallSnapshotArgs {
            term: 5,
            leader_id: "n1".into(),
            last_included_index: 100,
            last_included_term: 5,
            snapshot: Snapshot { last_included_index: 100, last_included_term: 5, data },
        }),
        RaftMessage::InstallSnapshotReply(InstallSnapshotReplyArgs { term: 5 }),
        RaftMessage::RequestPreVote(RequestVoteArgs {
            term: 2,
            candidate_id: "n3".into(),
            last_log_index: 1,
            last_log_term: 1,
        }),
        RaftMessage::PreVoteResponse(VoteResponseArgs { term: 2, vote_granted: false }),
    ];

    for original in cases {
        let encoded = encode_domain(&original);
        let bytes = encode_to_vec(&encoded);
        let decoded = decode::<pb::RaftMessage>(&bytes[..]).expect("decode");
        assert_eq!(decode_domain(decoded), original);
    }
}

#[test]
fn command_variants_roundtrip() {
    let servers = vec![ServerId { node_id: "n1".into(), addr: "a".into() }];
    let commands = vec![
        Command::SetKey { key: "k".into(), value: "v".into() },
        Command::Get { key: "k".into() },
        Command::Delete { key: "k".into() },
        Command::Compact,
        Command::BeginTx {
            tx_id: "t1".into(),
            ops: vec![
                TxOp::Put { key: "a".into(), value: "1".into() },
                TxOp::Delete { key: "b".into() },
            ],
        },
        Command::DecideTx { tx_id: "t1".into(), decision: TxDecision::Commit },
        Command::DecideTx { tx_id: "t1".into(), decision: TxDecision::Abort },
        Command::InstallConfiguration { config: Configuration::Simple(servers.clone()) },
        Command::InstallConfiguration {
            config: Configuration::Joint { old: servers.clone(), new: vec![] },
        },
    ];
    for c in commands {
        let encoded = pb::Command::from(&c);
        let bytes = encode_to_vec(&encoded);
        let decoded = decode::<pb::Command>(&bytes[..]).expect("decode");
        assert_eq!(Command::from(decoded), c);
    }
}

#[test]
fn protobuf_is_smaller_than_equivalent_json() {
    let entries: Vec<LogEntry> = (1..=20)
        .map(|i| LogEntry {
            term: 9,
            index: 100 + i as usize,
            command: Command::SetKey {
                key: format!("key-{i:03}"),
                value: format!("value-{i:03}-with-some-padding-to-make-it-realistic"),
            },
        })
        .collect();
    let json_entries: Vec<Value> = entries
        .iter()
        .map(|e| {
            let Command::SetKey { key, value } = &e.command else {
                panic!("expected a write");
            };
            let set = object(vec![
                ("key", Value::from(key.as_str())),
                ("value", Value::from(value.as_str())),
            ]);
            object(vec![
                ("term", Value::from(e.term)),
                ("index", Value::from(e.index)),
                ("command", object(vec![("Set", set)])),
            ])
        })
        .collect();
    let payload = RaftMessage::AppendEntries(AppendEntriesArgs {
        term: 9,
        leader_id: "node-1".into(),
        prev_log_index: 99,
        prev_log_term: 9,
        entries,
        leader_commit: 120,
    });
    let json = object(vec![(
        "AppendEntries",
        object(vec![
            ("term", Value::from(9u64)),
            ("leader_id", Value::from("node-1")),
            ("prev_log_index", Value::from(99u64)),
            ("prev_log_term", Value::from(9u64)),
            ("entries", Value::Array(json_entries)),
            ("leader_commit", Value::from(120u64)),
        ]),
    )]);
    let proto_bytes = encode_to_vec(&encode_domain(&payload));
    let json_bytes = serde_json::to_vec(&json).unwrap();

    assert!(
        proto_bytes.len() < json_bytes.len(),
        "expected protobuf ({} B) < json ({} B)",
        proto_bytes.len(),
        json_bytes.len(),
    );
}

#[test]
fn a_message_without_a_body_is_a_refused_vote() {
    let empty = decode::<pb::RaftMessage>(&[]).expect("decode");
    assert_eq!(
        decode_domain(empty),
        RaftMessage::VoteResponse(VoteResponseArgs { term: 0, vote_granted: false })
    );
}

#[test]
fn bytes_that_are_no_message_are_refused() {
    assert!(decode::<pb::RaftMessage>(&[0x0a, 0x05, 0x01]).is_err());
    assert!(decode::<pb::Command>(&[0x0a, 0x02, 0xff]).is_err());
}

fn nested_groups(n: usize) -> Vec<u8> {
    let mut bytes = vec![0x7b; n];
    bytes.extend(vec![0x7c; n]);
    bytes
}

fn delimited(body: &[u8]) -> Vec<u8> {
    let mut bytes = Vec::new();
    prost::encoding::encode_varint(body.len() as u64, &mut bytes);
    bytes.extend_from_slice(body);
    bytes
}

#[test]
fn unknown_groups_nest_to_the_same_depth_everywhere() {
    for n in [1, 2, 98, 99, 100, 101] {
        let groups = nested_groups(n);
        let plain = <() as prost::Message>::decode(&groups[..]).is_ok();
        assert_eq!(plain, n <= 100);
        assert_eq!(decode::<pb::RequestVoteArgs>(&groups).is_ok(), plain);

        let framed = delimited(&groups);
        let nested = <() as prost::Message>::decode_length_delimited(&framed[..]).is_ok();
        assert_eq!(nested, n <= 99);
        assert_eq!(decode_length_delimited::<pb::RequestVoteArgs>(&framed).is_ok(), nested);

        let mut message = vec![0x0a];
        message.extend_from_slice(&framed);
        assert_eq!(decode::<pb::RaftMessage>(&message).is_ok(), nested);
        let deeper = delimited(&message);
        assert_eq!(decode_length_delimited::<pb::RaftMessage>(&deeper).is_ok(), n <= 98);
    }
}

#[test]
fn a_group_inside_a_message_ends_with_it() {
    assert!(decode::<pb::RaftMessage>(&[0x0a, 0x02, 0x7b, 0x7c]).is_ok());
    assert!(decode::<pb::RaftMessage>(&[0x0a, 0x01, 0x7b, 0x7c]).is_err());
    assert!(decode::<pb::RaftMessage>(&[0x0a, 0x02, 0x7b, 0x74]).is_err());
    let inside = decode::<pb::RaftMessage>(&[0x0a, 0x04, 0x7b, 0x7c, 0x08, 0x07]).expect("decode");
    let body = pb::RequestVoteArgs { term: 7, candidate_id: String::new(), last_log_index: 0, last_log_term: 0 };
    assert_eq!(inside, pb::RaftMessage { body: Some(pb::RaftMessageBody::RequestVote(body)) });
}
