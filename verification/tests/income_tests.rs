use sei_nova::income::{
    group_by_collection, income_candidates, income_collection, income_nft, IncomeNft, NftTransaction_,
};
use sei_nova::model::{
    BatchBidsNft, CollectionInfo, MintNFt, NFTtransaction, OnlyCreateAuction, PurcjaseCartNft,
    TransferNft, _NftTransaction,
};

fn s(x: &str) -> String {
    x.to_string()
}

fn side(token: &str, fee: &str, price: &str, royalties: &str, ts: &str) -> NftTransaction_ {
    NftTransaction_ {
        collection: s("c1"),
        token_id: s(token),
        marketplace_fee: s(fee),
        sale_price: s(price),
        royalties_fee: s(royalties),
        ts: s(ts),
    }
}

fn transfer(token: &str, from: &str, to: &str, ts: &str) -> TransferNft {
    TransferNft {
        collection: s("c1"),
        sender: s(from),
        recipient: s(to),
        token_id: s(token),
        ts: s(ts),
        tx: s("TX"),
    }
}

fn only_transfer(token: &str, from: &str, to: &str, ts: &str) -> NFTtransaction {
    NFTtransaction { transaction: _NftTransaction::OnlyTransfer(transfer(token, from, to, ts)), _type: s("transfer_nft") }
}

fn cart(token: &str, from: &str, to: &str, ts: &str, price: &str) -> NFTtransaction {
    NFTtransaction {
        transaction: _NftTransaction::PurchaseCart(PurcjaseCartNft {
            transfer: transfer(token, from, to, ts),
            buyer: s(to),
            seller: s(from),
            sale_price: s(price),
            marketplace_fee: s("6usei"),
            royalties: s("3usei"),
        }),
        _type: s("purchase_cart"),
    }
}

fn income(token: &str) -> IncomeNft {
    IncomeNft {
        token_id: s(token),
        buy_price: s("1usei"),
        sell_price: s("2usei"),
        realized_gains: s("1usei"),
        holding_time: s("0"),
        paid_fee: s("0usei"),
    }
}

#[test]
fn income_uses_recorded_fees_without_nft_details() {
    let buy = side("1", "20usei", "100usei", "5usei", "2024-01-01T00:00:00Z");
    let sell = side("1", "0usei", "250usei", "0usei", "2024-01-01T02:30:30Z");
    let r = income_nft(&buy, &sell, None).unwrap();
    assert_eq!(r.token_id, "1");
    assert_eq!(r.buy_price, "100usei");
    assert_eq!(r.sell_price, "250usei");
    assert_eq!(r.paid_fee, "25usei");
    assert_eq!(r.realized_gains, "125usei");
    assert_eq!(r.holding_time, "150");
}

#[test]
fn royalty_percentage_below_one_hundred_adds_nothing() {
    let buy = side("1", "20usei", "100usei", "5usei", "2024-01-01T00:00:00Z");
    let sell = side("1", "0usei", "250usei", "0usei", "2024-01-02T00:00:00Z");
    let r = income_nft(&buy, &sell, Some(5)).unwrap();
    assert_eq!(r.paid_fee, "20usei");
    assert_eq!(r.realized_gains, "130usei");
    assert_eq!(r.holding_time, "1440");
}

#[test]
fn full_royalty_can_make_the_gain_negative() {
    let buy = side("1", "20usei", "100usei", "5usei", "2024-01-01T00:00:00Z");
    let sell = side("1", "0usei", "250usei", "0usei", "2024-01-01T00:00:59Z");
    let r = income_nft(&buy, &sell, Some(100)).unwrap();
    assert_eq!(r.paid_fee, "270usei");
    assert_eq!(r.realized_gains, "-120usei");
    assert_eq!(r.holding_time, "0");
}

#[test]
fn unreadable_price_gives_no_income() {
    let buy = side("1", "20usei", "cheap", "5usei", "2024-01-01T00:00:00Z");
    let sell = side("1", "0usei", "250usei", "0usei", "2024-01-02T00:00:00Z");
    assert!(income_nft(&buy, &sell, None).is_none());
}

#[test]
fn unreadable_time_gives_no_income() {
    let buy = side("1", "20usei", "100usei", "5usei", "yesterday");
    let sell = side("1", "0usei", "250usei", "0usei", "2024-01-02T00:00:00Z");
    assert!(income_nft(&buy, &sell, None).is_none());
}

#[test]
fn token_bought_then_sold_is_a_candidate() {
    let txs = vec![
        only_transfer("1", "x", "w", "2024-01-01T00:00:00Z"),
        cart("1", "w", "y", "2024-01-03T00:00:00Z", "300usei"),
        cart("2", "x", "w", "2024-02-01T00:00:00Z", "50usei"),
        only_transfer("2", "w", "z", "2024-01-15T00:00:00Z"),
    ];
    let fees = vec![None, None, None, None];
    let pairs = income_candidates(&s("w"), &txs, &fees).unwrap();
    assert_eq!(pairs.len(), 1);
    let (b, sl) = &pairs[0];
    assert_eq!(b.token_id, "1");
    assert_eq!(b.sale_price, "0usei");
    assert_eq!(b.marketplace_fee, "0usei");
    assert_eq!(b.ts, "2024-01-01T00:00:00Z");
    assert_eq!(sl.sale_price, "300usei");
    assert_eq!(sl.marketplace_fee, "6usei");
    assert_eq!(sl.royalties_fee, "3usei");
}

#[test]
fn latest_purchase_and_sale_are_paired() {
    let txs = vec![
        cart("1", "x", "w", "2024-01-01T00:00:00Z", "10usei"),
        cart("1", "x", "w", "2024-01-05T00:00:00Z", "40usei"),
        cart("1", "w", "y", "2024-01-02T00:00:00Z", "20usei"),
        cart("1", "w", "y", "2024-01-09T00:00:00Z", "90usei"),
    ];
    let fees = vec![None, None, None, None];
    let pairs = income_candidates(&s("w"), &txs, &fees).unwrap();
    assert_eq!(pairs.len(), 1);
    assert_eq!(pairs[0].0.sale_price, "40usei");
    assert_eq!(pairs[0].1.sale_price, "90usei");
}

#[test]
fn a_mint_counts_as_a_sale() {
    let txs = vec![
        only_transfer("1", "x", "w", "2024-01-01T00:00:00Z"),
        NFTtransaction {
            transaction: _NftTransaction::Mint(MintNFt {
                collection: s("c1"),
                recipient: s("someone"),
                token_id: s("1"),
                price: s("70"),
                ts: s("2024-01-02T00:00:00Z"),
                tx: s("M"),
            }),
            _type: s("mint_nft"),
        },
    ];
    let pairs = income_candidates(&s("w"), &txs, &vec![None, None]).unwrap();
    assert_eq!(pairs.len(), 1);
    assert_eq!(pairs[0].1.sale_price, "70usei");
}

#[test]
fn batch_bid_needs_its_worked_out_fee() {
    let txs = vec![NFTtransaction {
        transaction: _NftTransaction::BatchBids(BatchBidsNft {
            transfer: transfer("1", "x", "w", "2024-01-01T00:00:00Z"),
            sale_price: s("100usei"),
        }),
        _type: s("batch_bids"),
    }];
    assert!(income_candidates(&s("w"), &txs, &vec![None]).is_none());
    let ok = income_candidates(&s("w"), &txs, &vec![Some(s("20usei"))]).unwrap();
    assert_eq!(ok.len(), 0);
}

#[test]
fn fees_must_match_the_transactions() {
    let txs = vec![only_transfer("1", "x", "w", "2024-01-01T00:00:00Z")];
    assert!(income_candidates(&s("w"), &txs, &vec![]).is_none());
}

#[test]
fn incomes_are_grouped_by_collection_in_first_order() {
    let cols = vec![s("b"), s("a"), s("b")];
    let rows = vec![income("1"), income("2"), income("3")];
    let g = group_by_collection(&cols, &rows);
    assert_eq!(g.len(), 2);
    assert_eq!(g[0].0, "b");
    assert_eq!(g[0].1.iter().map(|r| r.token_id.clone()).collect::<Vec<_>>(), vec![s("1"), s("3")]);
    assert_eq!(g[1].0, "a");
    assert_eq!(g[1].1.len(), 1);
    assert_eq!(g[1].1[0].token_id, "2");
}

fn info() -> CollectionInfo {
    CollectionInfo { name: s("Cats"), symbol: s("CAT"), creator: s("sei1c"), count: s("10") }
}

#[test]
fn income_collection_takes_the_first_listing_as_floor() {
    let listings = vec![
        OnlyCreateAuction { collection_address: s("c1"), token_id: s("4"), auction_price: s("77usei"), ts: s("t") },
        OnlyCreateAuction { collection_address: s("c1"), token_id: s("5"), auction_price: s("11usei"), ts: s("t") },
    ];
    let r = income_collection(s("c1"), vec![income("1")], info(), Some(listings)).unwrap();
    assert_eq!(r.name, "Cats");
    assert_eq!(r.symbol, "CAT");
    assert_eq!(r.collection, "c1");
    assert_eq!(r.floor_price, Some(s("77usei")));
    assert_eq!(r.income_nfts.len(), 1);
}

#[test]
fn income_collection_without_listings_has_no_floor() {
    let r = income_collection(s("c1"), vec![], info(), None).unwrap();
    assert_eq!(r.floor_price, None);
    assert!(income_collection(s("c1"), vec![], info(), Some(vec![])).is_none());
}

#[test]
fn every_collection_is_grouped_exactly_once() {
    let cols = vec![s("a"), s("b"), s("a"), s("c"), s("b"), s("a")];
    let rows = vec![income("1"), income("2"), income("3"), income("4"), income("5"), income("6")];
    let g = group_by_collection(&cols, &rows);
    let keys: Vec<&str> = g.iter().map(|(k, _)| k.as_str()).collect();
    assert_eq!(keys, vec!["a", "b", "c"]);
    let sizes: Vec<usize> = g.iter().map(|(_, v)| v.len()).collect();
    assert_eq!(sizes, vec![3, 2, 1]);
    assert!(group_by_collection(&vec![], &vec![]).is_empty());
}
