use sei_nova::nft_parse::logs_readable;
use sei_nova::model::{Attribute, Event, Fee, HashData, Log, NftMessage, Tx, TxAuthInfo, TxResponse};
use sei_nova::nft_parse::{
    accept_bid_nft, batch_bids_nfts, cancel_auction_nft, create_auction_nft, fixed_sell_nfts,
    is_only_transfer, mint_nft_datas, nft_transaction_data, only_create_aucton_nft, only_transfer_nft,
    purchase_cart_nft,
};

fn s(x: &str) -> String {
    x.to_string()
}

fn attrs(kv: &[(&str, &str)]) -> Vec<Attribute> {
    kv.iter().map(|(k, v)| Attribute { key: s(k), value: s(v) }).collect()
}

fn event(t: &str, kv: &[(&str, &str)]) -> Event {
    Event { attributes: attrs(kv), _type: s(t) }
}

fn transfer_wasm() -> Vec<(&'static str, &'static str)> {
    vec![
        ("_contract_address", "c1"),
        ("action", "transfer_nft"),
        ("sender", "alice"),
        ("recipient", "bob"),
        ("token_id", "5"),
    ]
}

fn hash_data(logs: Vec<Vec<Event>>) -> HashData {
    HashData {
        tx: Tx { auth_info: TxAuthInfo { fee: Fee { amount: vec![], gas_limit: s("0"), granter: s(""), payer: s("") } } },
        tx_response: TxResponse {
            code: 0,
            gas_used: s("0"),
            gas_wanted: s("0"),
            logs: logs.into_iter().map(|events| Log { events }).collect(),
            timestamp: s("2024-05-01T00:00:00Z"),
            txhash: s("HASH"),
        },
    }
}

#[test]
fn mint_reads_the_attributes_after_its_marker() {
    let a = attrs(&[
        ("action", "mint_nft"),
        ("collection", "c1"),
        ("minter", "m"),
        ("owner", "bob"),
        ("token_id", "1"),
        ("price", "100"),
    ]);
    let v = mint_nft_datas(a, s("TX"), s("TS")).unwrap();
    assert_eq!(v.len(), 1);
    assert_eq!(v[0].collection, "c1");
    assert_eq!(v[0].recipient, "bob");
    assert_eq!(v[0].token_id, "1");
    assert_eq!(v[0].price, "100");
    assert_eq!(v[0].tx, "TX");
    assert_eq!(v[0].ts, "TS");
}

#[test]
fn no_mint_marker_means_none() {
    assert!(mint_nft_datas(attrs(&[("action", "burn")]), s("TX"), s("TS")).is_none());
}

#[test]
fn transfer_reads_around_its_action() {
    let v = only_transfer_nft(attrs(&transfer_wasm()), s("TX"), s("TS")).unwrap();
    assert_eq!(v.len(), 1);
    assert_eq!(v[0].collection, "c1");
    assert_eq!(v[0].sender, "alice");
    assert_eq!(v[0].recipient, "bob");
    assert_eq!(v[0].token_id, "5");
}

#[test]
fn fixed_sell_reads_its_offsets() {
    let a = attrs(&[
        ("action", "fixed_sell"),
        ("a", "x"),
        ("b", "x"),
        ("token_id", "5"),
        ("price", "300"),
        ("c", "x"),
        ("d", "x"),
        ("_contract_address", "c1"),
        ("action", "transfer_nft"),
        ("sender", "alice"),
        ("recipient", "bob"),
    ]);
    let v = fixed_sell_nfts(a, s("TX"), s("TS")).unwrap();
    assert_eq!(v.len(), 1);
    assert_eq!(v[0].price, "300");
    assert_eq!(v[0].transfer.token_id, "5");
    assert_eq!(v[0].transfer.collection, "c1");
    assert_eq!(v[0].transfer.sender, "alice");
    assert_eq!(v[0].transfer.recipient, "bob");
}

#[test]
fn listing_reads_around_its_token() {
    let a = attrs(&[("collection", "c7"), ("token_id", "3"), ("seller", "alice"), ("x", "y"), ("min_price", "70usei")]);
    let v = only_create_aucton_nft(a, s("TS")).unwrap();
    assert_eq!(v.len(), 1);
    assert_eq!(v[0].collection_address, "c7");
    assert_eq!(v[0].token_id, "3");
    assert_eq!(v[0].auction_price, "70usei");
    assert_eq!(v[0].ts, "TS");
}

#[test]
fn batch_bid_pairs_the_token_with_its_sale() {
    let events = vec![
        event(
            "wasm",
            &[
                ("action", "batch_bids"),
                ("_contract_address", "c1"),
                ("action", "transfer_nft"),
                ("sender", "alice"),
                ("recipient", "bob"),
                ("token_id", "9"),
            ],
        ),
        event("wasm-buy_now", &[("price", "450usei"), ("x", "y"), ("nft_token_id", "9")]),
    ];
    let v = batch_bids_nfts(events, s("TX"), s("TS")).unwrap();
    assert_eq!(v.len(), 1);
    assert_eq!(v[0].sale_price, "450usei");
    assert_eq!(v[0].transfer.collection, "c1");
    assert_eq!(v[0].transfer.sender, "alice");
    assert_eq!(v[0].transfer.recipient, "bob");
    assert_eq!(v[0].transfer.token_id, "9");
}

#[test]
fn cart_purchase_reads_buyer_seller_and_fees() {
    let events = vec![
        event("wasm", &transfer_wasm()),
        event(
            "wasm-buy_now",
            &[
                ("token_id", "5"),
                ("buyer", "bob"),
                ("seller", "alice"),
                ("price", "900usei"),
                ("fee", "18usei"),
                ("royalties", "45usei"),
            ],
        ),
    ];
    let v = purchase_cart_nft(events, s("TX"), s("TS")).unwrap();
    assert_eq!(v.len(), 1);
    assert_eq!(v[0].buyer, "bob");
    assert_eq!(v[0].seller, "alice");
    assert_eq!(v[0].sale_price, "900usei");
    assert_eq!(v[0].marketplace_fee, "18usei");
    assert_eq!(v[0].royalties, "45usei");
    assert_eq!(v[0].transfer.collection, "c1");
}

#[test]
fn cancelled_auction_reads_its_price() {
    let events = vec![
        event("wasm", &transfer_wasm()),
        event("wasm-cancel_auction", &[("token_id", "5"), ("x", "y"), ("price", "12usei")]),
    ];
    let v = cancel_auction_nft(events, s("TX"), s("TS")).unwrap();
    assert_eq!(v.len(), 1);
    assert_eq!(v[0].auction_price, "12usei");
    assert_eq!(v[0].transfer.sender, "alice");
}

#[test]
fn accepted_bid_reads_its_far_offsets() {
    let mut bid = vec![("token_id", "5"), ("price", "800usei"), ("seller", "alice"), ("bidder", "bob")];
    for _ in 4..8 {
        bid.push(("pad", "x"));
    }
    bid.push(("fee", "16usei"));
    for _ in 9..12 {
        bid.push(("pad", "x"));
    }
    bid.push(("royalties", "40usei"));
    let events = vec![event("wasm", &transfer_wasm()), event("wasm-accept_bid", &bid)];
    let v = accept_bid_nft(events, s("TX"), s("TS")).unwrap();
    assert_eq!(v.len(), 1);
    assert_eq!(v[0].sale_price, "800usei");
    assert_eq!(v[0].seller, "alice");
    assert_eq!(v[0].bidder, "bob");
    assert_eq!(v[0].marketplace_fee, "16usei");
    assert_eq!(v[0].royalties, "40usei");
}

#[test]
fn unmatched_token_shifts_the_next_one_onto_its_place() {
    let events = vec![
        event(
            "wasm",
            &[
                ("_contract_address", "c1"),
                ("action", "transfer_nft"),
                ("sender", "alice"),
                ("recipient", "market"),
                ("token_id", "1"),
                ("_contract_address", "c2"),
                ("action", "transfer_nft"),
                ("sender", "carol"),
                ("recipient", "market"),
                ("token_id", "2"),
            ],
        ),
        event("wasm-create_auction", &[("token_id", "2"), ("x", "y"), ("z", "w"), ("price", "70usei")]),
    ];
    let v = create_auction_nft(events, s("TX"), s("TS")).unwrap();
    assert_eq!(v.len(), 1);
    assert_eq!(v[0].transfer.token_id, "2");
    assert_eq!(v[0].transfer.collection, "c1");
    assert_eq!(v[0].transfer.sender, "alice");
    assert_eq!(v[0].auction_price, "70usei");
}

#[test]
fn plain_transfer_needs_a_trailing_wasm_event() {
    let ok = vec![event("wasm", &transfer_wasm())];
    assert!(is_only_transfer(&ok));
    let trailing = vec![event("wasm", &transfer_wasm()), event("transfer", &[("amount", "1usei")])];
    assert!(!is_only_transfer(&trailing));
}

#[test]
fn transaction_messages_follow_its_logs() {
    let h = hash_data(vec![vec![event("wasm", &transfer_wasm())], vec![event("coin_received", &[("a", "b")])]]);
    let ms = nft_transaction_data(h);
    assert_eq!(ms.len(), 2);
    match &ms[0] {
        NftMessage::OnlyTransferNft(v) => {
            assert_eq!(v[0].token_id, "5");
            assert_eq!(v[0].tx, "HASH");
            assert_eq!(v[0].ts, "2024-05-01T00:00:00Z");
        },
        other => panic!("unexpected {:?}", other),
    }
    assert!(matches!(&ms[1], NftMessage::Unkonw(h) if h == "HASH"));
}

#[test]
fn listing_log_gives_its_listings_before_the_trade() {
    let h = hash_data(vec![vec![event(
        "wasm-create_auction",
        &[("collection", "c7"), ("token_id", "3"), ("seller", "alice"), ("x", "y"), ("min_price", "70usei")],
    )]]);
    let ms = nft_transaction_data(h);
    assert_eq!(ms.len(), 2);
    assert!(matches!(&ms[0], NftMessage::OnlyCreateAuction(v) if v[0].auction_price == "70usei"));
    assert!(matches!(&ms[1], NftMessage::Unkonw(_)));
}

#[test]
fn readable_logs_are_recognised() {
    let good = vec![Log { events: vec![event("wasm", &transfer_wasm())] }];
    assert!(logs_readable(&good));
    let short_mint = vec![Log { events: vec![event("wasm", &[("action", "mint_nft"), ("collection", "c1")])] }];
    assert!(!logs_readable(&short_mint));
    let one_attr_transfer = vec![Log { events: vec![event("wasm", &[("action", "transfer_nft")])] }];
    assert!(!logs_readable(&one_attr_transfer));
    let nothing = vec![Log { events: vec![event("coin_received", &[("a", "b")])] }];
    assert!(logs_readable(&nothing));
}
