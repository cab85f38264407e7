use sei_nova::holdings::{UserCollectionHold, UserNft, UserNftHolding};
use sei_nova::model::{
    AcceptBidNft, CancelAuctionNft, MintNFt, NFTtransaction, PurcjaseCartNft, TransferNft, _NftTransaction,
};
use sei_nova::stats::_Transaction;
use chrono::Datelike;
use sei_nova::time::UtcStamp;
use sei_nova::trade_info::{
    age_of_nft_assets, flatten_holding, nft_trades, top_nfts, trade_info_nfts, try_age_of_nft_assets,
    try_trade_info_nfts,
};

fn s(x: &str) -> String {
    x.to_string()
}

fn stamp(ts: &str) -> UtcStamp {
    let u = chrono::DateTime::parse_from_rfc3339(ts).unwrap().with_timezone(&chrono::Utc);
    let d = u.date_naive();
    let w = d.iso_week();
    UtcStamp {
        year: d.year(),
        month: d.month(),
        day: d.day(),
        iso_year: w.year(),
        iso_week: w.week(),
        days_from_ce: d.num_days_from_ce(),
        secs: u.timestamp(),
        nanos: u.timestamp_subsec_nanos(),
    }
}

fn user_nft(id: &str, ts: &str) -> UserNft {
    UserNft {
        name: format!("n{}", id),
        token_id: s(id),
        key: format!("c-{}", id),
        image: s("i"),
        floor_price: None,
        royalty_percentage: 0,
        attributes: vec![],
        buy_price: None,
        royalties_fee: None,
        market_fee: None,
        unrealized_gains: None,
        ts: s(ts),
        tx_hash: s("T"),
    }
}

fn holding(groups: Vec<Vec<UserNft>>) -> UserNftHolding {
    UserNftHolding {
        collections: groups
            .into_iter()
            .map(|nfts| UserCollectionHold {
                name: s("C"),
                symbol: s("S"),
                contract: s("c"),
                creator: s("x"),
                floor_price: None,
                nfts_holding: nfts,
            })
            .collect(),
    }
}

fn ids(v: &Vec<UserNft>) -> Vec<String> {
    v.iter().map(|n| n.token_id.clone()).collect()
}

#[test]
fn held_nfts_are_listed_collection_by_collection() {
    let h = holding(vec![vec![user_nft("1", "t"), user_nft("2", "t")], vec![user_nft("3", "t")]]);
    assert_eq!(ids(&flatten_holding(&h)), vec![s("1"), s("2"), s("3")]);
}

#[test]
fn holding_times_fall_in_their_levels() {
    let today = stamp("2024-06-10T12:00:00Z");
    let h = holding(vec![
        vec![
            user_nft("a", "2024-06-05T23:00:00Z"),
            user_nft("b", "2024-06-03T00:00:00Z"),
            user_nft("c", "2024-05-13T00:00:00Z"),
        ],
        vec![
            user_nft("d", "2024-03-12T00:00:00Z"),
            user_nft("e", "2023-12-04T00:00:00Z"),
            user_nft("f", "2023-06-14T00:00:00Z"),
            user_nft("g", "2023-06-16T00:00:00Z"),
        ],
    ]);
    let a = age_of_nft_assets(&h, &today);
    // b, c, d and e are held exactly 7, 28, 90 and 189 days: the upper
    // bound of their level.
    assert_eq!(ids(&a.level1), vec![s("a"), s("b")]);
    assert_eq!(ids(&a.level2), vec![s("c")]);
    assert_eq!(ids(&a.level3), vec![s("d")]);
    assert_eq!(ids(&a.level4), vec![s("e")]);
    assert_eq!(ids(&a.level5), vec![s("g")]);
    assert_eq!(ids(&a.level6), vec![s("f")]);
    let total = a.level1.len() + a.level2.len() + a.level3.len() + a.level4.len() + a.level5.len() + a.level6.len();
    assert_eq!(total, 7);
}

#[test]
fn one_day_past_a_bound_moves_up_a_level() {
    let today = stamp("2024-06-10T12:00:00Z");
    let h = holding(vec![vec![
        user_nft("8", "2024-06-02T00:00:00Z"),
        user_nft("29", "2024-05-12T00:00:00Z"),
        user_nft("91", "2024-03-11T00:00:00Z"),
        user_nft("190", "2023-12-03T00:00:00Z"),
        user_nft("361", "2023-06-15T00:00:00Z"),
    ]]);
    let a = age_of_nft_assets(&h, &today);
    assert!(a.level1.is_empty());
    assert_eq!(ids(&a.level2), vec![s("8")]);
    assert_eq!(ids(&a.level3), vec![s("29")]);
    assert_eq!(ids(&a.level4), vec![s("91")]);
    assert_eq!(ids(&a.level5), vec![s("190")]);
    assert_eq!(ids(&a.level6), vec![s("361")]);
}

#[test]
fn unreadable_holding_time_gives_no_levels() {
    let today = stamp("2024-06-10T12:00:00Z");
    let h = holding(vec![vec![user_nft("a", "")]]);
    assert!(try_age_of_nft_assets(&h, &today).is_none());
    let ok = holding(vec![vec![user_nft("a", "2024-06-10T00:00:00Z")]]);
    assert_eq!(try_age_of_nft_assets(&ok, &today).unwrap().level1.len(), 1);
}

#[test]
fn gainers_keep_their_order_and_losers_are_reversed() {
    let h = holding(vec![vec![user_nft("1", "t"), user_nft("2", "t")], vec![user_nft("3", "t"), user_nft("4", "t")]]);
    let (g, l) = top_nfts(&h, &vec![1, -1, 0, -1]);
    assert_eq!(ids(&g), vec![s("1")]);
    assert_eq!(ids(&l), vec![s("4"), s("2")]);
}

fn transfer(from: &str, to: &str, ts: &str) -> TransferNft {
    TransferNft { collection: s("c"), sender: s(from), recipient: s(to), token_id: s("1"), ts: s(ts), tx: s("T") }
}

fn txs() -> Vec<NFTtransaction> {
    vec![
        NFTtransaction {
            transaction: _NftTransaction::AcceptBid(AcceptBidNft {
                transfer: transfer("x", "w", "2024-01-01T00:00:00Z"),
                bidder: s("w"),
                seller: s("x"),
                sale_price: s("100usei"),
                marketplace_fee: s("2usei"),
                royalties: s("1usei"),
            }),
            _type: s("accpet_bid_nft"),
        },
        NFTtransaction {
            transaction: _NftTransaction::PurchaseCart(PurcjaseCartNft {
                transfer: transfer("w", "y", "2024-01-02T00:00:00Z"),
                buyer: s("y"),
                seller: s("w"),
                sale_price: s("150usei"),
                marketplace_fee: s("3usei"),
                royalties: s("1usei"),
            }),
            _type: s("purchase_cart_nft"),
        },
        NFTtransaction {
            transaction: _NftTransaction::Mint(MintNFt {
                collection: s("c"),
                recipient: s("w"),
                token_id: s("2"),
                price: s("10"),
                ts: s("2024-01-01T05:00:00Z"),
                tx: s("M"),
            }),
            _type: s("mint_nft"),
        },
        NFTtransaction {
            transaction: _NftTransaction::CancelAuction(CancelAuctionNft {
                transfer: transfer("w", "market", "2024-02-01T00:00:00Z"),
                auction_price: s("70usei"),
            }),
            _type: s("cancel_auction_nft"),
        },
        NFTtransaction { transaction: _NftTransaction::Unkonw, _type: s("") },
    ]
}

#[test]
fn trades_split_into_purchases_and_sales() {
    let (all, buys, sells) = nft_trades(&s("w"), &txs());
    let prices = |v: &Vec<sei_nova::stats::_trade>| v.iter().map(|t| t.sale_price.clone()).collect::<Vec<_>>();
    assert_eq!(prices(&all), vec![s("100usei"), s("150usei"), s("10usei"), s("70usei")]);
    assert_eq!(prices(&buys), vec![s("100usei")]);
    assert_eq!(prices(&sells), vec![s("150usei")]);
}

fn get<'a>(v: &'a Vec<(String, _Transaction)>, k: &str) -> Option<(usize, &'a str)> {
    v.iter().rev().find(|(kk, _)| kk == k).map(|(_, t)| (t.transaction_amount, t.total_volume.as_str()))
}

#[test]
fn trade_info_counts_each_group() {
    let info = trade_info_nfts(None, &s("w"), &txs());
    assert!(info.age_of_nft_assets.is_none());
    assert_eq!(get(&info.transaction.day, "2024-01-01"), Some((2, "110usei")));
    assert_eq!(get(&info.transaction.month, "2024-1"), Some((3, "260usei")));
    assert_eq!(get(&info.transaction.month, "2024-2"), Some((1, "70usei")));
    assert_eq!(get(&info.volume.buy_volume.month, "2024-1"), Some((1, "100usei")));
    assert_eq!(get(&info.volume.sell_volume.day, "2024-01-02"), Some((1, "150usei")));
    assert!(try_trade_info_nfts(None, &s("w"), &txs()).is_some());
}

fn with_gain(id: &str, gain: &str) -> UserNft {
    let mut n = user_nft(id, "2024-01-01T00:00:00Z");
    n.unrealized_gains = Some(s(gain));
    n
}

#[test]
fn gainers_come_largest_first_and_losers_largest_loss_first() {
    let h = holding(vec![
        vec![with_gain("a", "10usei"), with_gain("b", "20usei"), with_gain("c", "-5usei")],
        vec![with_gain("d", "-30usei"), with_gain("e", "20usei"), with_gain("f", "-5usei"), with_gain("g", "0usei")],
    ]);
    let (g, l) = top_nfts(&h, &vec![1, 1, -1, -1, 1, -1, 0]);
    // Equal gains: gainers keep holding order, losers the reverse of it.
    assert_eq!(ids(&g), vec![s("b"), s("e"), s("a")]);
    assert_eq!(ids(&l), vec![s("d"), s("f"), s("c")]);
}
