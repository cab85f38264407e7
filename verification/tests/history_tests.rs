use sei_nova::history::{history_db_ops, history_readable, HistoryTx, _Event};
use sei_nova::model::{Attribute, Event};
use sei_nova::routing::DbOp;

fn s(x: &str) -> String {
    x.to_string()
}

fn event(t: &str, kv: &[(&str, &str)]) -> Event {
    Event { attributes: kv.iter().map(|(k, v)| Attribute { key: s(k), value: s(v) }).collect(), _type: s(t) }
}

fn transfer_msg(token: &str) -> _Event {
    _Event {
        events: vec![event(
            "wasm",
            &[
                ("_contract_address", "c1"),
                ("action", "transfer_nft"),
                ("sender", "alice"),
                ("recipient", "bob"),
                ("token_id", token),
            ],
        )],
    }
}

fn swap_msg() -> _Event {
    _Event {
        events: vec![event(
            "wasm",
            &[
                ("action", "swap"),
                ("sender", "w"),
                ("receiver", "w"),
                ("offer_asset", "usei"),
                ("ask_asset", "tok"),
                ("offer_amount", "1000"),
                ("return_amount", "55"),
            ],
        )],
    }
}

fn entry(hash: &str, events: Vec<_Event>) -> HistoryTx {
    HistoryTx { hash: s(hash), sender: s("sei1sender"), time: s("2024-01-01T00:00:00Z"), events }
}

#[test]
fn transfer_entry_joins_both_histories() {
    let h = vec![entry("A", vec![transfer_msg("5")])];
    assert!(history_readable(&h));
    let ops = history_db_ops(&h);
    assert_eq!(ops.len(), 2);
    match (&ops[0], &ops[1]) {
        (DbOp::NftHistory { wallet: w0, transaction: t0 }, DbOp::NftHistory { wallet: w1, .. }) => {
            assert_eq!(w0, "alice");
            assert_eq!(w1, "bob");
            assert_eq!(t0._type, "only_transfer_nft");
        },
        other => panic!("unexpected {:?}", other),
    }
}

#[test]
fn swap_entry_joins_the_sender_token_history() {
    let h = vec![entry("S", vec![swap_msg()])];
    let ops = history_db_ops(&h);
    assert_eq!(ops.len(), 1);
    match &ops[0] {
        DbOp::TokenHistory { wallet, swap } => {
            assert_eq!(wallet, "sei1sender");
            assert_eq!(swap.account, "sei1sender");
            assert_eq!(swap.source_token, "usei");
            assert_eq!(swap.target_amount, "55");
            assert_eq!(swap.trade_type, "token_swap");
            assert_eq!(swap.tx, "S");
        },
        other => panic!("unexpected {:?}", other),
    }
}

#[test]
fn a_later_listing_of_a_hash_replaces_the_earlier_one() {
    let h = vec![entry("A", vec![transfer_msg("1")]), entry("B", vec![]), entry("A", vec![transfer_msg("2")])];
    let ops = history_db_ops(&h);
    assert_eq!(ops.len(), 2);
    match &ops[0] {
        DbOp::NftHistory { transaction, .. } => match &transaction.transaction {
            sei_nova::model::_NftTransaction::OnlyTransfer(t) => assert_eq!(t.token_id, "2"),
            other => panic!("unexpected {:?}", other),
        },
        other => panic!("unexpected {:?}", other),
    }
}

#[test]
fn unreadable_entry_is_detected_unless_replaced() {
    let broken = _Event { events: vec![event("wasm", &[("action", "swap"), ("x", "y")])] };
    assert!(!history_readable(&vec![entry("A", vec![broken])]));
    let broken = _Event { events: vec![event("wasm", &[("action", "swap"), ("x", "y")])] };
    assert!(history_readable(&vec![entry("A", vec![broken]), entry("A", vec![swap_msg()])]));
}

#[test]
fn each_hash_is_written_once_from_its_last_listing() {
    let h = vec![
        entry("A", vec![transfer_msg("1")]),
        entry("B", vec![transfer_msg("7")]),
        entry("A", vec![transfer_msg("2")]),
        entry("A", vec![transfer_msg("3")]),
    ];
    let ops = history_db_ops(&h);
    // Two hashes, each a transfer written to both wallets.
    assert_eq!(ops.len(), 4);
    let ids: Vec<String> = ops
        .iter()
        .map(|op| match op {
            DbOp::NftHistory { transaction, .. } => match &transaction.transaction {
                sei_nova::model::_NftTransaction::OnlyTransfer(t) => t.token_id.clone(),
                other => panic!("unexpected {:?}", other),
            },
            other => panic!("unexpected {:?}", other),
        })
        .collect();
    assert_eq!(ids, vec![s("3"), s("3"), s("7"), s("7")]);
}
