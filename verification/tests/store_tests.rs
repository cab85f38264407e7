use sei_nova::model::{
    Collection, CollectionInfo, MintNFt, NFTtransaction, NftToken, OnlyCreateAuction, TokenSwap, TransferNft,
    _NftTransaction,
};
use sei_nova::store::{
    create_auctions_after_update, needs_collection_info, nft_key, nfts_holding_after_update, nfts_transactions_after_update,
    token_transactions_after_update, try_create_auctions_after_update,
};
use chrono::Datelike;
use sei_nova::time::UtcStamp;

fn s(x: &str) -> String {
    x.to_string()
}

fn stamp(ts: &str) -> UtcStamp {
    let u = chrono::DateTime::parse_from_rfc3339(ts).unwrap().with_timezone(&chrono::Utc);
    let d = u.date_naive();
    let w = d.iso_week();
    UtcStamp {
        year: d.year(),
        month: d.month(),
        day: d.day(),
        iso_year: w.year(),
        iso_week: w.week(),
        days_from_ce: d.num_days_from_ce(),
        secs: u.timestamp(),
        nanos: u.timestamp_subsec_nanos(),
    }
}

fn mint(tx: &str, token: &str) -> NFTtransaction {
    NFTtransaction {
        transaction: _NftTransaction::Mint(MintNFt {
            collection: s("c1"),
            recipient: s("w"),
            token_id: s(token),
            price: s("1"),
            ts: s("t"),
            tx: s(tx),
        }),
        _type: s("mint_nft"),
    }
}

fn transfer(tx: &str) -> NFTtransaction {
    NFTtransaction {
        transaction: _NftTransaction::OnlyTransfer(TransferNft {
            collection: s("c1"),
            sender: s("a"),
            recipient: s("b"),
            token_id: s("1"),
            ts: s("t"),
            tx: s(tx),
        }),
        _type: s("only_transfer_nft"),
    }
}

fn swap(tx: &str, amount: &str) -> TokenSwap {
    TokenSwap {
        account: s("w"),
        source_token: s("usei"),
        target_token: s("tok"),
        source_amount: s(amount),
        target_amount: s("1"),
        trade_type: s("token_swap"),
        ts: s("t"),
        tx: s(tx),
    }
}

fn nft(token: &str) -> NftToken {
    NftToken {
        token_id: s(token),
        name: s("n"),
        key: format!("c1-{}", token),
        image: s("i"),
        royalty_percentage: 0,
        attributes: vec![],
    }
}

fn info() -> CollectionInfo {
    CollectionInfo { name: s("Cats"), symbol: s("CAT"), creator: s("sei1c"), count: s("10") }
}

fn listing(token: &str, ts: &str) -> OnlyCreateAuction {
    OnlyCreateAuction { collection_address: s("c1"), token_id: s(token), auction_price: s("5usei"), ts: s(ts) }
}

fn tx_of(t: &NFTtransaction) -> String {
    match &t.transaction {
        _NftTransaction::Mint(m) => m.tx.clone(),
        _NftTransaction::OnlyTransfer(m) => m.tx.clone(),
        _ => s("?"),
    }
}

#[test]
fn new_wallet_keeps_every_nft_transaction() {
    let r = nfts_transactions_after_update(None, vec![mint("A", "1"), mint("A", "1")]);
    assert_eq!(r.len(), 2);
}

#[test]
fn stored_nft_history_skips_same_kind_and_hash() {
    let r = nfts_transactions_after_update(
        Some(vec![mint("A", "1")]),
        vec![mint("A", "2"), transfer("A"), mint("B", "3"), mint("B", "4")],
    );
    let txs: Vec<String> = r.iter().map(tx_of).collect();
    assert_eq!(txs, vec![s("A"), s("A"), s("B")]);
    assert!(matches!(r[1].transaction, _NftTransaction::OnlyTransfer(_)));
}

#[test]
fn nft_history_update_is_idempotent() {
    let new = || vec![mint("A", "1"), transfer("B")];
    let once = nfts_transactions_after_update(Some(vec![mint("Z", "9")]), new());
    let twice = nfts_transactions_after_update(Some(once), new());
    assert_eq!(twice.len(), 3);
}

#[test]
fn stored_swap_history_skips_identical_swaps_only() {
    let r = token_transactions_after_update(
        Some(vec![swap("A", "10")]),
        vec![swap("A", "10"), swap("A", "11"), swap("B", "10")],
    );
    assert_eq!(r.len(), 3);
    assert_eq!(r[1].source_amount, "11");
    assert_eq!(r[2].tx, "B");
    let fresh = token_transactions_after_update(None, vec![swap("A", "10"), swap("A", "10")]);
    assert_eq!(fresh.len(), 2);
}

#[test]
fn adding_to_a_new_wallet_opens_the_collection() {
    let r = nfts_holding_after_update(None, "c1", nft("1"), "add", Some(info()));
    assert_eq!(r.len(), 1);
    assert_eq!(r[0].collection, "c1");
    assert_eq!(r[0].name, "Cats");
    assert_eq!(r[0].count, "10");
    assert_eq!(r[0].nfts.len(), 1);
    let none = nfts_holding_after_update(None, "c1", nft("1"), "add", None);
    assert!(none.is_empty());
}

fn held() -> Vec<Collection> {
    vec![Collection {
        collection: s("c1"),
        name: s("Cats"),
        symbol: s("CAT"),
        creator: s("sei1c"),
        count: s("10"),
        nfts: vec![nft("1"), nft("2")],
    }]
}

#[test]
fn adding_a_held_nft_changes_nothing() {
    let r = nfts_holding_after_update(Some(held()), "c1", nft("2"), "add", None);
    assert_eq!(r[0].nfts.len(), 2);
    let grown = nfts_holding_after_update(Some(held()), "c1", nft("3"), "add", None);
    assert_eq!(grown[0].nfts.len(), 3);
    assert_eq!(grown[0].nfts[2].token_id, "3");
}

#[test]
fn removing_then_adding_back_restores_the_tokens() {
    let removed = nfts_holding_after_update(Some(held()), "c1", nft("2"), "del", None);
    assert_eq!(removed[0].nfts.len(), 1);
    let back = nfts_holding_after_update(Some(removed), "c1", nft("2"), "add", None);
    let ids: Vec<String> = back[0].nfts.iter().map(|n| n.token_id.clone()).collect();
    assert_eq!(ids, vec![s("1"), s("2")]);
}

#[test]
fn emptied_collection_is_dropped() {
    let one = nfts_holding_after_update(Some(held()), "c1", nft("1"), "del", None);
    let none = nfts_holding_after_update(Some(one), "c1", nft("2"), "del", None);
    assert!(none.is_empty());
}

#[test]
fn listings_keep_only_those_made_today() {
    let today = stamp("2024-06-10T15:00:00Z");
    let stored = vec![
        listing("1", "2024-06-09T23:00:00Z"),
        listing("2", "2024-06-10T01:00:00+00:00"),
        listing("3", "2024-06-11T01:00:00+02:00"),
    ];
    let r = create_auctions_after_update(Some(stored), vec![listing("4", "2024-06-10T16:00:00Z")], &today);
    let ids: Vec<String> = r.iter().map(|l| l.token_id.clone()).collect();
    assert_eq!(ids, vec![s("2"), s("3"), s("4")]);
    let fresh = create_auctions_after_update(None, vec![listing("9", "whenever")], &today);
    assert_eq!(fresh.len(), 1);
}

#[test]
fn listings_with_unreadable_times_are_refused() {
    let today = stamp("2024-06-10T15:00:00Z");
    assert!(try_create_auctions_after_update(Some(vec![listing("1", "soon")]), vec![], &today).is_none());
    let ok = try_create_auctions_after_update(Some(vec![listing("1", "2024-06-10T00:00:00Z")]), vec![], &today);
    assert_eq!(ok.unwrap().len(), 1);
}

#[test]
fn adding_then_removing_an_nft_gives_the_holdings_back() {
    let added = nfts_holding_after_update(Some(held()), "c1", nft("3"), "add", None);
    let back = nfts_holding_after_update(Some(added), "c1", nft("3"), "del", None);
    let ids: Vec<String> = back[0].nfts.iter().map(|n| n.token_id.clone()).collect();
    assert_eq!(ids, vec![s("1"), s("2")]);
    let opened = nfts_holding_after_update(Some(held()), "c9", nft("5"), "add", Some(info()));
    assert_eq!(opened.len(), 2);
    let closed = nfts_holding_after_update(Some(opened), "c9", nft("5"), "del", None);
    assert_eq!(closed.len(), 1);
    assert_eq!(closed[0].collection, "c1");
}

#[test]
fn swap_history_update_is_idempotent() {
    let new = || vec![swap("A", "10"), swap("B", "20")];
    let once = token_transactions_after_update(Some(vec![swap("Z", "1")]), new());
    let twice = token_transactions_after_update(Some(once), new());
    assert_eq!(twice.len(), 3);
    assert_eq!(twice[0].tx, "Z");
}

#[test]
fn nft_keys_join_collection_and_token() {
    assert_eq!(nft_key("sei1abc", "42"), "sei1abc-42");
    assert_eq!(nft_key("", ""), "-");
}

#[test]
fn collection_information_is_needed_only_to_open_an_entry() {
    assert!(!needs_collection_info(&Some(held()), "c1", "add"));
    assert!(needs_collection_info(&Some(held()), "c2", "add"));
    assert!(needs_collection_info(&None, "c1", "add"));
    assert!(needs_collection_info(&Some(vec![]), "c1", "add"));
    assert!(!needs_collection_info(&None, "c1", "del"));
    assert!(!needs_collection_info(&Some(held()), "c2", "del"));
}
