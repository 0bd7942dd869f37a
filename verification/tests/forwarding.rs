use light_rpc::errors::ForwardError;
use light_rpc::gateway::Gateway;
use light_rpc::gateway::TransportEvent;
use light_rpc::transaction::SignedTransaction;
use light_rpc::transaction::SubmissionHandle;

fn ok_event() -> TransportEvent {
    TransportEvent { connect_ok: true, send_ok: true }
}

#[test]
fn forward_batch_returns_one_result_per_transaction_in_order() {
    let mut gw = Gateway::new(42, 2);
    let txs: Vec<SignedTransaction> =
        (0..5u64).map(|k| SignedTransaction::new(100 + k, 7, vec![k as u8])).collect();
    let evs = vec![ok_event(); 5];
    let rs = gw.forward_transactions(&txs, &evs, 1);
    assert_eq!(rs.len(), 5);
    for (k, r) in rs.iter().enumerate() {
        assert_eq!(*r, Ok(SubmissionHandle { id: 100 + k as u64 }));
    }
    for i in 0..5 {
        for j in 0..5 {
            if i != j {
                assert_ne!(rs[i].unwrap(), rs[j].unwrap());
            }
        }
    }
}

#[test]
fn failed_sends_do_not_affect_other_transactions() {
    let mut gw = Gateway::new(42, 2);
    let txs: Vec<SignedTransaction> =
        (0..3u64).map(|k| SignedTransaction::new(k, 7, vec![])).collect();
    let evs = vec![
        ok_event(),
        TransportEvent { connect_ok: true, send_ok: false },
        ok_event(),
    ];
    let rs = gw.forward_transactions(&txs, &evs, 1);
    assert_eq!(rs[0], Ok(SubmissionHandle { id: 0 }));
    assert_eq!(rs[1], Err(ForwardError::SendFailed));
    assert_eq!(rs[2], Ok(SubmissionHandle { id: 2 }));
}

#[test]
fn handle_is_derived_from_the_signature_not_the_send() {
    let mut gw = Gateway::new(42, 1);
    let tx = SignedTransaction::new(9000, 7, vec![1, 2, 3]);
    let r = gw.forward_transaction(&tx, 1, ok_event());
    assert_eq!(r, Ok(tx.handle()));
    assert_eq!(tx.handle(), SubmissionHandle { id: 9000 });
}

#[test]
fn connect_failure_with_empty_pool_yields_connect_failed() {
    let mut gw = Gateway::new(42, 1);
    let tx = SignedTransaction::new(5, 7, vec![1, 2]);
    let r = gw.forward_transaction(&tx, 1, TransportEvent { connect_ok: false, send_ok: true });
    assert_eq!(r, Err(ForwardError::ConnectFailed));
}

#[test]
fn exhausted_pool_yields_pool_exhausted_per_transaction() {
    let mut gw = Gateway::new(42, 1);
    let a = gw.pool.acquire(42, 0, true).unwrap();
    let tx = SignedTransaction::new(5, 7, vec![]);
    let r = gw.forward_transaction(&tx, 1, ok_event());
    assert_eq!(r, Err(ForwardError::PoolExhausted));
    assert!(gw.pool.release(a, 2));
}

#[test]
fn send_failure_evicts_the_connection_it_used() {
    let mut gw = Gateway::new(42, 4);
    let tx_ok = SignedTransaction::new(1, 7, vec![]);
    gw.forward_transaction(&tx_ok, 1, ok_event()).unwrap();
    assert_eq!(gw.pool.conns.len(), 1);
    let reused = gw.pool.conns[0].id;
    let tx_bad = SignedTransaction::new(2, 7, vec![]);
    let r = gw.forward_transaction(
        &tx_bad,
        2,
        TransportEvent { connect_ok: true, send_ok: false },
    );
    assert_eq!(r, Err(ForwardError::SendFailed));
    assert!(gw.pool.conns.iter().all(|c| c.id != reused));
}
