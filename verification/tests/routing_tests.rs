use sei_nova::model::{
    Attribute, Event, Fee, HashData, Log, MintNFt, NftMessage, OnlyCreateAuction, TransferNft, Tx,
    TxAuthInfo, TxResponse, _NftTransaction,
};
use sei_nova::routing::{feed_action, scan_db_ops, scan_route, searcher_db_ops, searcher_route, DbOp, FeedAction, Route};

fn s(x: &str) -> String {
    x.to_string()
}

fn attr(k: &str, v: &str) -> Attribute {
    Attribute { key: s(k), value: s(v) }
}

fn event(t: &str, attrs: Vec<Attribute>) -> Event {
    Event { attributes: attrs, _type: s(t) }
}

fn hash_data(code: u64, logs: Vec<Vec<Event>>) -> HashData {
    HashData {
        tx: Tx {
            auth_info: TxAuthInfo {
                fee: Fee { amount: vec![], gas_limit: s("0"), granter: s(""), payer: s("") },
            },
        },
        tx_response: TxResponse {
            code,
            gas_used: s("0"),
            gas_wanted: s("0"),
            logs: logs.into_iter().map(|events| Log { events }).collect(),
            timestamp: s("2024-01-01T00:00:00Z"),
            txhash: s("HASH"),
        },
    }
}

fn transfer(token: &str) -> TransferNft {
    TransferNft {
        collection: s("c1"),
        sender: s("alice"),
        recipient: s("bob"),
        token_id: s(token),
        ts: s("2024-01-01T00:00:00Z"),
        tx: s("HASH"),
    }
}

#[test]
fn swap_goes_to_the_token_reader() {
    let h = hash_data(0, vec![vec![event("wasm", vec![attr("action", "swap")])]]);
    assert_eq!(searcher_route(&h), Route::Token);
    assert_eq!(scan_route(&h), Route::Token);
}

#[test]
fn marketplace_event_goes_to_the_nft_reader() {
    let h = hash_data(0, vec![vec![event("wasm-buy_now", vec![])]]);
    assert_eq!(searcher_route(&h), Route::Nft);
    assert_eq!(scan_route(&h), Route::Nft);
}

#[test]
fn wasm_nft_action_goes_to_the_nft_reader() {
    let h = hash_data(0, vec![vec![event("wasm", vec![attr("action", "transfer_nft")])]]);
    assert_eq!(searcher_route(&h), Route::Nft);
    assert_eq!(scan_route(&h), Route::Nft);
}

#[test]
fn failed_transaction_goes_nowhere() {
    let h = hash_data(5, vec![vec![event("wasm", vec![attr("action", "swap")])]]);
    assert_eq!(searcher_route(&h), Route::Skip);
    assert_eq!(scan_route(&h), Route::Skip);
}

#[test]
fn swap_wins_over_nft_action() {
    let h = hash_data(
        0,
        vec![vec![event("wasm-buy_now", vec![])], vec![event("wasm", vec![attr("action", "swap")])]],
    );
    assert_eq!(searcher_route(&h), Route::Token);
}

#[test]
fn scanner_reads_a_log_with_wasm_events_by_its_actions_only() {
    let h = hash_data(
        0,
        vec![vec![event("wasm-buy_now", vec![]), event("wasm", vec![attr("action", "approve")])]],
    );
    assert_eq!(searcher_route(&h), Route::Nft);
    assert_eq!(scan_route(&h), Route::Skip);
}

#[test]
fn unrelated_transaction_goes_nowhere() {
    let h = hash_data(0, vec![vec![event("coin_spent", vec![attr("amount", "5usei")])]]);
    assert_eq!(searcher_route(&h), Route::Skip);
    assert_eq!(scan_route(&h), Route::Skip);
}

fn holding(op: &DbOp) -> Option<(String, String, String)> {
    match op {
        DbOp::Holding { wallet, token_id, operate, .. } => Some((wallet.clone(), token_id.clone(), operate.clone())),
        _ => None,
    }
}

fn history(op: &DbOp) -> Option<(String, String)> {
    match op {
        DbOp::NftHistory { wallet, transaction } => Some((wallet.clone(), transaction._type.clone())),
        _ => None,
    }
}

#[test]
fn transfer_moves_the_holding_and_records_both_sides() {
    let ops = searcher_db_ops(&NftMessage::OnlyTransferNft(vec![transfer("7")]));
    assert_eq!(ops.len(), 4);
    assert_eq!(holding(&ops[0]), Some((s("alice"), s("7"), s("del"))));
    assert_eq!(holding(&ops[1]), Some((s("bob"), s("7"), s("add"))));
    assert_eq!(history(&ops[2]), Some((s("alice"), s("only_transfer_nft"))));
    assert_eq!(history(&ops[3]), Some((s("bob"), s("only_transfer_nft"))));
    match &ops[3] {
        DbOp::NftHistory { transaction, .. } => {
            assert!(matches!(&transaction.transaction, _NftTransaction::OnlyTransfer(t) if t.token_id == "7"))
        },
        _ => panic!("expected a history update"),
    }
}

#[test]
fn mint_concerns_only_its_recipient() {
    let m = MintNFt {
        collection: s("c1"),
        recipient: s("bob"),
        token_id: s("1"),
        price: s("10"),
        ts: s("t"),
        tx: s("H"),
    };
    let ops = searcher_db_ops(&NftMessage::Mint(vec![m]));
    assert_eq!(ops.len(), 2);
    assert_eq!(holding(&ops[0]), Some((s("bob"), s("1"), s("add"))));
    assert_eq!(history(&ops[1]), Some((s("bob"), s("mint_nft"))));
}

#[test]
fn listings_join_their_collection() {
    let l = OnlyCreateAuction {
        collection_address: s("c9"),
        token_id: s("3"),
        auction_price: s("5usei"),
        ts: s("t"),
    };
    let ops = searcher_db_ops(&NftMessage::OnlyCreateAuction(vec![l]));
    assert_eq!(ops.len(), 1);
    assert!(matches!(&ops[0], DbOp::Listings { collection, listing } if collection == "c9" && listing.token_id == "3"));
}

#[test]
fn unknown_message_changes_nothing() {
    assert!(searcher_db_ops(&NftMessage::Unkonw(s("HASH"))).is_empty());
    assert!(scan_db_ops(&NftMessage::Unkonw(s("HASH"))).is_empty());
}

#[test]
fn scanner_records_history_without_holdings() {
    let ops = scan_db_ops(&NftMessage::OnlyTransferNft(vec![transfer("1"), transfer("2")]));
    assert_eq!(ops.len(), 4);
    assert_eq!(history(&ops[0]), Some((s("alice"), s("only_transfer_nft"))));
    assert_eq!(history(&ops[1]), Some((s("bob"), s("only_transfer_nft"))));
    assert!(ops.iter().all(|o| holding(o).is_none()));
}

#[test]
fn feed_messages_are_forwarded_ignored_or_end_the_subscription() {
    assert!(matches!(feed_action(Some(vec![s("AB"), s("CD")]), true, false), FeedAction::Forward(h) if h == "ABCD"));
    assert!(matches!(feed_action(Some(vec![s("AB")]), true, true), FeedAction::Ignore));
    assert!(matches!(feed_action(None, true, false), FeedAction::Ignore));
    assert!(matches!(feed_action(None, false, false), FeedAction::Reconnect));
}

#[test]
fn scanner_updates_are_the_searcher_updates_without_holdings() {
    let msg = || NftMessage::OnlyTransferNft(vec![transfer("1"), transfer("2")]);
    let searcher: Vec<(String, String)> = searcher_db_ops(&msg()).iter().filter_map(history).collect();
    let scanner: Vec<(String, String)> = scan_db_ops(&msg()).iter().filter_map(history).collect();
    assert_eq!(searcher, scanner);
    assert_eq!(scan_db_ops(&msg()).len(), 4);
    assert_eq!(searcher_db_ops(&msg()).len(), 8);
}
