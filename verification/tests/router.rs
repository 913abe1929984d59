// The router: lazy account creation, dropped unroutable messages, and the
// per-client independence of the final snapshots.

use tx_engine::account::{Account, Running};
use tx_engine::engine::{should_create_account, RouteOutcome, Router};
use tx_engine::message::Message;

fn snapshot_for(snapshots: &[Account<Running>], client: u16) -> &Account<Running> {
    snapshots.iter().find(|a| a.client == client).expect("no snapshot for client")
}

#[test]
fn only_a_deposit_creates_an_account() {
    assert!(should_create_account(&Message::Deposit { client: 7, tx: 1, amount: 100 }));
    assert!(!should_create_account(&Message::Withdraw { client: 7, tx: 1, amount: 100 }));
    assert!(!should_create_account(&Message::Dispute { client: 7, tx: 1 }));
    assert!(!should_create_account(&Message::Resolve { client: 7, tx: 1 }));
    assert!(!should_create_account(&Message::Chargeback { client: 7, tx: 1 }));
}

#[test]
fn unroutable_message_is_dropped_without_an_account() {
    let mut router = Router::new();
    let outcome = router.route(Message::Dispute { client: 7, tx: 123 });
    assert_eq!(outcome, RouteOutcome::Dropped);
    let snapshots = router.finish();
    assert!(snapshots.is_empty());
}

#[test]
fn deposit_after_dropped_message_creates_fresh_account() {
    let mut router = Router::new();
    assert_eq!(router.route(Message::Dispute { client: 7, tx: 123 }), RouteOutcome::Dropped);
    assert_eq!(
        router.route(Message::Deposit { client: 7, tx: 124, amount: 250 }),
        RouteOutcome::Applied(Ok(()))
    );
    let snapshots = router.finish();
    assert_eq!(snapshots.len(), 1);
    let account = snapshot_for(&snapshots, 7);
    assert_eq!(account.available, 250);
    assert_eq!(account.held, 0);
    assert_eq!(account.total, 250);
    assert!(!account.locked);
}

#[test]
fn one_snapshot_per_client() {
    let messages = vec![
        Message::Deposit { client: 1, tx: 1, amount: 100 },
        Message::Deposit { client: 2, tx: 1, amount: 200 },
        Message::Deposit { client: 1, tx: 2, amount: 50 },
        Message::Withdraw { client: 2, tx: 2, amount: 150 },
    ];
    let snapshots = Router::run(&messages);
    assert_eq!(snapshots.len(), 2);
    let one = snapshot_for(&snapshots, 1);
    assert_eq!(one.total, 150);
    let two = snapshot_for(&snapshots, 2);
    assert_eq!(two.total, 50);
}

#[test]
fn interleaving_does_not_change_per_client_results() {
    let own_1 = vec![
        Message::Deposit { client: 1, tx: 1, amount: 100 },
        Message::Dispute { client: 1, tx: 1 },
        Message::Chargeback { client: 1, tx: 1 },
    ];
    let own_2 = vec![
        Message::Deposit { client: 2, tx: 1, amount: 500 },
        Message::Withdraw { client: 2, tx: 2, amount: 200 },
    ];
    let interleaved = vec![
        own_1[0], own_2[0], own_2[1], own_1[1], own_1[2],
    ];

    let from_interleaved = Router::run(&interleaved);
    let alone_1 = Router::run(&own_1);
    let alone_2 = Router::run(&own_2);

    let a = snapshot_for(&from_interleaved, 1);
    let b = snapshot_for(&alone_1, 1);
    assert_eq!(a.available, b.available);
    assert_eq!(a.held, b.held);
    assert_eq!(a.total, b.total);
    assert_eq!(a.locked, b.locked);
    assert!(a.locked);
    assert_eq!(a.total, 0);

    let a = snapshot_for(&from_interleaved, 2);
    let b = snapshot_for(&alone_2, 2);
    assert_eq!(a.available, b.available);
    assert_eq!(a.held, b.held);
    assert_eq!(a.total, b.total);
    assert_eq!(a.locked, b.locked);
    assert_eq!(a.total, 300);
}

#[test]
fn terminated_stream_reports_final_balances_once() {
    let messages = vec![
        Message::Deposit { client: 9, tx: 1, amount: 1000 },
        Message::Dispute { client: 9, tx: 1 },
        Message::Resolve { client: 9, tx: 1 },
        Message::Withdraw { client: 9, tx: 2, amount: 400 },
    ];
    let snapshots = Router::run(&messages);
    assert_eq!(snapshots.len(), 1);
    let account = snapshot_for(&snapshots, 9);
    assert_eq!(account.available, 600);
    assert_eq!(account.held, 0);
    assert_eq!(account.total, 600);
    assert!(!account.locked);
}
