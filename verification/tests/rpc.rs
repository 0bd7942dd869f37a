use light_rpc::commitment::CommitmentLevel;
use light_rpc::confirmation::ConfirmationStatus;
use light_rpc::errors::ForwardError;
use light_rpc::errors::RpcError;
use light_rpc::gateway::decode_transaction_payload;
use light_rpc::gateway::Gateway;
use light_rpc::gateway::RpcMethod;
use light_rpc::gateway::TransportEvent;
use light_rpc::transaction::SignedTransaction;
use light_rpc::transaction::SubmissionHandle;

fn ok_event() -> TransportEvent {
    TransportEvent { connect_ok: true, send_ok: true }
}

#[test]
fn decode_yields_the_byte_payload_of_a_base58_string() {
    let encoded = String::from("StV1DL6CwTryKyV");
    let decoded = decode_transaction_payload(&encoded).unwrap();
    assert_eq!(decoded, b"hello world".to_vec());
    // agrees with the decoder the transport stack uses
    assert_eq!(decoded, bs58::decode("StV1DL6CwTryKyV").into_vec().unwrap());
}

#[test]
fn decode_of_the_empty_string_is_the_empty_payload() {
    let encoded = String::new();
    assert_eq!(decode_transaction_payload(&encoded).unwrap(), Vec::<u8>::new());
}

#[test]
fn malformed_payloads_are_rejected_before_any_network_operation() {
    let mut gw = Gateway::new(42, 2);
    for bad in ["0", "I", "l", "O", "hello world"] {
        let r = gw.send_encoded_transaction(&String::from(bad), 1, 0, ok_event());
        assert_eq!(r, Err(RpcError::DecodeFailed));
    }
    // nothing was forwarded: the pool never saw a connection
    assert_eq!(gw.pool.conns.len(), 0);
}

#[test]
fn send_transaction_request_answers_with_the_submission_handle() {
    let mut gw = Gateway::new(42, 2);
    let r = gw.execute_rpc_request(
        RpcMethod::SendTransaction,
        &String::from("StV1DL6CwTryKyV"),
        555,
        1,
        ok_event(),
    );
    assert_eq!(r, Ok(SubmissionHandle { id: 555 }));
}

#[test]
fn send_transaction_request_reports_transport_failures() {
    let mut gw = Gateway::new(42, 2);
    let r = gw.execute_rpc_request(
        RpcMethod::SendTransaction,
        &String::from("StV1DL6CwTryKyV"),
        556,
        1,
        TransportEvent { connect_ok: false, send_ok: true },
    );
    assert_eq!(r, Err(RpcError::Forward(ForwardError::ConnectFailed)));
}

#[test]
fn request_airdrop_is_answered_with_unsupported() {
    let mut gw = Gateway::new(42, 2);
    let r = gw.execute_rpc_request(
        RpcMethod::RequestAirdrop,
        &String::from("StV1DL6CwTryKyV"),
        557,
        1,
        ok_event(),
    );
    assert_eq!(r, Err(RpcError::Unsupported));
    assert_eq!(gw.pool.conns.len(), 0);
}

#[test]
fn batch_of_sixteen_confirms_before_the_polling_budget() {
    let mut gw = Gateway::new(42, 4);
    let blockhash = 777u64;
    let txs: Vec<SignedTransaction> = (0..16u64)
        .map(|k| SignedTransaction::new(1000 + k, blockhash, vec![k as u8, k as u8]))
        .collect();
    let evs = vec![ok_event(); 16];
    let (rs, mut tracker) =
        gw.submit_and_track(&txs, &evs, 5, CommitmentLevel::Confirmed, 300);
    assert_eq!(rs.len(), 16);
    let mut ids: Vec<u64> = rs.iter().map(|r| r.unwrap().id).collect();
    ids.sort();
    ids.dedup();
    assert_eq!(ids.len(), 16);

    let mut rounds = 0;
    while !tracker.is_finished() {
        rounds += 1;
        // under normal conditions the ledger reports every handle at the
        // requested level from the second polling round on
        let obs: Vec<Option<CommitmentLevel>> = tracker
            .entries
            .iter()
            .map(|e| {
                if rounds >= 2 && matches!(e.status, ConfirmationStatus::Pending) {
                    Some(CommitmentLevel::Confirmed)
                } else {
                    None
                }
            })
            .collect();
        tracker.record_round(&obs);
    }
    assert!(rounds < 300);
    for k in 0..16u64 {
        assert_eq!(
            tracker.status_of(SubmissionHandle { id: 1000 + k }),
            Some(ConfirmationStatus::Confirmed(CommitmentLevel::Confirmed))
        );
    }
}

#[test]
fn batch_of_sixteen_times_out_when_the_query_endpoint_is_unreachable() {
    let mut gw = Gateway::new(42, 4);
    let txs: Vec<SignedTransaction> = (0..16u64)
        .map(|k| SignedTransaction::new(2000 + k, 777, vec![k as u8]))
        .collect();
    let evs = vec![ok_event(); 16];
    let (rs, mut tracker) =
        gw.submit_and_track(&txs, &evs, 5, CommitmentLevel::Confirmed, 300);
    assert_eq!(rs.len(), 16);

    let mut rounds = 0;
    while !tracker.is_finished() {
        // the query endpoint is unreachable for the whole window: no
        // handle is ever observed
        tracker.record_round(&vec![None; 16]);
        rounds += 1;
        assert!(rounds <= 300);
    }
    assert_eq!(rounds, 300);
    for k in 0..16u64 {
        assert_eq!(
            tracker.status_of(SubmissionHandle { id: 2000 + k }),
            Some(ConfirmationStatus::TimedOut)
        );
    }
}

#[test]
fn failed_forwards_are_reported_separately_not_tracked() {
    let mut gw = Gateway::new(42, 4);
    let txs: Vec<SignedTransaction> =
        (0..3u64).map(|k| SignedTransaction::new(k, 7, vec![])).collect();
    let evs = vec![
        ok_event(),
        TransportEvent { connect_ok: true, send_ok: false },
        ok_event(),
    ];
    let (rs, tracker) = gw.submit_and_track(&txs, &evs, 1, CommitmentLevel::Confirmed, 10);
    assert_eq!(rs[1], Err(ForwardError::SendFailed));
    assert_eq!(tracker.entries.len(), 2);
    assert_eq!(tracker.status_of(SubmissionHandle { id: 0 }), Some(ConfirmationStatus::Pending));
    assert_eq!(tracker.status_of(SubmissionHandle { id: 1 }), None);
    assert_eq!(tracker.status_of(SubmissionHandle { id: 2 }), Some(ConfirmationStatus::Pending));
}
