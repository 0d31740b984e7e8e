use oxide_kv::coordination::{pb, VoteRequest, VoteResponse};
use oxide_kv::message::{decode, decode_length_delimited, encode_length_delimited_to_vec};

#[test]
fn vote_request_domain_to_proto_round_trip() {
    let d = VoteRequest {
        term: 42,
        tx_id: "tx-1".to_string(),
        last_log_index: 17,
        last_log_term: 41,
    };
    let pb: pb::VoteRequest = (&d).into();
    let back: VoteRequest = pb.into();
    assert_eq!(d, back);
}

#[test]
fn vote_response_domain_to_proto_round_trip() {
    let d = VoteResponse {
        term: 42,
        vote_granted: true,
        reason: String::new(),
    };
    let pb: pb::VoteResponse = (&d).into();
    let back: VoteResponse = pb.into();
    assert_eq!(d, back);
}

#[test]
fn vote_request_wire_round_trip() {
    let d = VoteRequest {
        term: 7,
        tx_id: "tx-wire".to_string(),
        last_log_index: 99,
        last_log_term: 6,
    };
    let pb: pb::VoteRequest = (&d).into();
    let bytes = encode_length_delimited_to_vec(&pb);
    let decoded =
        decode_length_delimited::<pb::VoteRequest>(bytes.as_slice()).expect("decode VoteRequest");
    let back: VoteRequest = decoded.into();
    assert_eq!(d, back);
}

#[test]
fn vote_response_wire_round_trip_with_reason() {
    let d = VoteResponse {
        term: 3,
        vote_granted: false,
        reason: "tx not pending on this node".to_string(),
    };
    let pb: pb::VoteResponse = (&d).into();
    let bytes = encode_length_delimited_to_vec(&pb);
    let decoded =
        decode_length_delimited::<pb::VoteResponse>(bytes.as_slice()).expect("decode VoteResponse");
    let back: VoteResponse = decoded.into();
    assert_eq!(d, back);
}

#[test]
fn vote_request_boundary_term_zero_tx_id_empty() {
    let d = VoteRequest {
        term: 0,
        tx_id: String::new(),
        last_log_index: 0,
        last_log_term: 0,
    };
    let pb: pb::VoteRequest = (&d).into();
    let bytes = encode_length_delimited_to_vec(&pb);
    let decoded = decode_length_delimited::<pb::VoteRequest>(bytes.as_slice())
        .expect("decode boundary VoteRequest");
    let back: VoteRequest = decoded.into();
    assert_eq!(d, back);
}

#[test]
fn vote_request_boundary_last_log_index_u64_max() {
    let d = VoteRequest {
        term: 1,
        tx_id: "tx-big".to_string(),
        last_log_index: u64::MAX,
        last_log_term: u64::MAX,
    };
    let pb: pb::VoteRequest = (&d).into();
    let bytes = encode_length_delimited_to_vec(&pb);
    let decoded = decode_length_delimited::<pb::VoteRequest>(bytes.as_slice())
        .expect("decode max VoteRequest");
    assert_eq!(decoded.last_log_index, u64::MAX);
    assert_eq!(decoded.last_log_term, u64::MAX);
    let back: VoteRequest = decoded.into();
    assert_eq!(d, back);
}

#[test]
fn vote_response_boundary_empty_reason() {
    let d = VoteResponse {
        term: 0,
        vote_granted: true,
        reason: String::new(),
    };
    let pb: pb::VoteResponse = (&d).into();
    let bytes = encode_length_delimited_to_vec(&pb);
    let decoded = decode_length_delimited::<pb::VoteResponse>(bytes.as_slice())
        .expect("decode empty-reason VoteResponse");
    assert_eq!(decoded.reason, "");
    assert!(decoded.vote_granted);
    let back: VoteResponse = decoded.into();
    assert_eq!(d, back);
}

fn encode_tag(field_num: u32, wire_type: u32) -> Vec<u8> {
    let mut v: u64 = ((field_num as u64) << 3) | (wire_type as u64);
    let mut out = Vec::new();
    loop {
        let byte = (v & 0x7f) as u8;
        v >>= 7;
        if v == 0 {
            out.push(byte);
            break;
        } else {
            out.push(byte | 0x80);
        }
    }
    out
}

fn encode_varint(mut v: u64) -> Vec<u8> {
    let mut out = Vec::new();
    loop {
        let byte = (v & 0x7f) as u8;
        v >>= 7;
        if v == 0 {
            out.push(byte);
            break;
        } else {
            out.push(byte | 0x80);
        }
    }
    out
}

#[test]
fn vote_response_forward_compat_unknown_field_ignored() {
    let mut buf = Vec::new();
    buf.extend_from_slice(&encode_tag(1, 0));
    buf.extend_from_slice(&encode_varint(5));
    buf.extend_from_slice(&encode_tag(2, 0));
    buf.extend_from_slice(&encode_varint(1));
    buf.extend_from_slice(&encode_tag(3, 2));
    buf.extend_from_slice(&encode_varint(0));
    buf.extend_from_slice(&encode_tag(99, 0));
    buf.extend_from_slice(&encode_varint(12345));

    let decoded = decode::<pb::VoteResponse>(buf.as_slice())
        .expect("decode payload with unknown field tag 99");
    assert_eq!(decoded.term, 5);
    assert!(decoded.vote_granted);
    assert_eq!(decoded.reason, "");
    let back: VoteResponse = decoded.into();
    assert_eq!(back.term, 5);
    assert!(back.vote_granted);
    assert_eq!(back.reason, "");
}

#[test]
fn vote_request_forward_compat_unknown_field_ignored() {
    let mut buf = Vec::new();
    buf.extend_from_slice(&encode_tag(1, 0));
    buf.extend_from_slice(&encode_varint(1));
    buf.extend_from_slice(&encode_tag(2, 2));
    buf.extend_from_slice(&encode_varint(6));
    buf.extend_from_slice(b"tx-fwd");
    buf.extend_from_slice(&encode_tag(3, 0));
    buf.extend_from_slice(&encode_varint(10));
    buf.extend_from_slice(&encode_tag(4, 0));
    buf.extend_from_slice(&encode_varint(1));
    buf.extend_from_slice(&encode_tag(99, 0));
    buf.extend_from_slice(&encode_varint(12345));

    let decoded = decode::<pb::VoteRequest>(buf.as_slice())
        .expect("decode payload with unknown field tag 99");
    assert_eq!(decoded.term, 1);
    assert_eq!(decoded.tx_id, "tx-fwd");
    assert_eq!(decoded.last_log_index, 10);
    assert_eq!(decoded.last_log_term, 1);
    let back: VoteRequest = decoded.into();
    assert_eq!(back.tx_id, "tx-fwd");
    assert_eq!(back.last_log_index, 10);
}
