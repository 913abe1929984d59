// Validation of raw input records into messages: the kind/amount table.

use tx_engine::message::Message;

#[test]
fn deposit_record_with_amount_is_valid() {
    let msg = Message::try_new("deposit", 5, 77, Some(110));
    assert_eq!(msg, Some(Message::Deposit { client: 5, tx: 77, amount: 110 }));
}

#[test]
fn withdrawal_record_with_amount_is_valid() {
    let msg = Message::try_new("withdrawal", 5, 78, Some(300));
    assert_eq!(msg, Some(Message::Withdraw { client: 5, tx: 78, amount: 300 }));
}

#[test]
fn dispute_resolve_chargeback_records_carry_no_amount() {
    assert_eq!(Message::try_new("dispute", 5, 77, None), Some(Message::Dispute {
        client: 5,
        tx: 77,
    }));
    assert_eq!(Message::try_new("resolve", 5, 77, None), Some(Message::Resolve {
        client: 5,
        tx: 77,
    }));
    assert_eq!(Message::try_new("chargeback", 5, 77, None), Some(Message::Chargeback {
        client: 5,
        tx: 77,
    }));
}

#[test]
fn record_with_wrong_amount_shape_is_invalid() {
    assert_eq!(Message::try_new("deposit", 5, 77, None), None);
    assert_eq!(Message::try_new("withdrawal", 5, 77, None), None);
    assert_eq!(Message::try_new("dispute", 5, 77, Some(100)), None);
    assert_eq!(Message::try_new("resolve", 5, 77, Some(100)), None);
    assert_eq!(Message::try_new("chargeback", 5, 77, Some(100)), None);
}

#[test]
fn unknown_record_kind_is_invalid() {
    assert_eq!(Message::try_new("transfer", 5, 77, Some(100)), None);
    assert_eq!(Message::try_new("", 5, 77, None), None);
    assert_eq!(Message::try_new("Deposit", 5, 77, Some(100)), None);
}
