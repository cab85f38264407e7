use sei_nova::holdings::listing_prices_readable;
use sei_nova::holdings::holdings_showable;
use sei_nova::holdings::{collection_floor_prices, holding_collection_keys, nfts_holding};
use sei_nova::model::{
    Collection, FixedSellNft, MintNFt, NFTtransaction, NftToken, OnlyCreateAuction, TransferNft,
    _NftTransaction,
};

fn s(x: &str) -> String {
    x.to_string()
}

fn token(id: &str) -> NftToken {
    NftToken {
        token_id: s(id),
        name: format!("Nft #{}", id),
        key: format!("c1-{}", id),
        image: s("ipfs://img"),
        royalty_percentage: 5,
        attributes: vec![],
    }
}

fn collection(nfts: Vec<NftToken>) -> Collection {
    Collection {
        collection: s("c1"),
        name: s("Cats"),
        symbol: s("CAT"),
        creator: s("sei1creator"),
        count: s("100"),
        nfts,
    }
}

fn listing(token_id: &str, price: &str, ts: &str) -> OnlyCreateAuction {
    OnlyCreateAuction {
        collection_address: s("c1"),
        token_id: s(token_id),
        auction_price: s(price),
        ts: s(ts),
    }
}

fn mint(token_id: &str, price: &str) -> NFTtransaction {
    NFTtransaction {
        transaction: _NftTransaction::Mint(MintNFt {
            collection: s("c1"),
            recipient: s("w"),
            token_id: s(token_id),
            price: s(price),
            ts: s("2024-01-01T00:00:00Z"),
            tx: s("MINT"),
        }),
        _type: s("mint_nft"),
    }
}

fn fixed_sell(token_id: &str, price: &str) -> NFTtransaction {
    NFTtransaction {
        transaction: _NftTransaction::FixedSell(FixedSellNft {
            transfer: TransferNft {
                collection: s("c1"),
                sender: s("seller"),
                recipient: s("w"),
                token_id: s(token_id),
                ts: s("2024-01-02T00:00:00Z"),
                tx: s("FIXED"),
            },
            price: s(price),
        }),
        _type: s("fixed_sell"),
    }
}

fn floor_of(v: &Vec<(String, Option<String>)>, k: &str) -> Option<Option<String>> {
    v.iter().rev().find(|(kk, _)| kk == k).map(|(_, p)| p.clone())
}

#[test]
fn floor_prices_without_listings_are_none() {
    let ids = vec![s("1"), s("2")];
    let f = collection_floor_prices(&s("c1"), &ids, None);
    assert_eq!(floor_of(&f, "1"), None);
    assert_eq!(floor_of(&f, "2"), None);
    assert_eq!(floor_of(&f, "c1"), Some(None));
}

#[test]
fn floor_price_of_a_collection_is_its_cheapest_listing() {
    let ids = vec![s("1"), s("2")];
    let listings = vec![
        listing("1", "500usei", "2024-01-01T00:00:00Z"),
        listing("9", "120usei", "2024-01-01T00:00:00Z"),
        listing("2", "300usei", "2024-01-01T00:00:00Z"),
    ];
    let f = collection_floor_prices(&s("c1"), &ids, Some(listings));
    assert_eq!(floor_of(&f, "c1"), Some(Some(s("120usei"))));
    assert_eq!(floor_of(&f, "1"), Some(Some(s("500usei"))));
    assert_eq!(floor_of(&f, "2"), Some(Some(s("300usei"))));
}

#[test]
fn unlisted_tokens_get_no_floor_of_their_own() {
    let ids = vec![s("1"), s("3")];
    let listings = vec![listing("1", "80usei", "2024-01-01T00:00:00Z")];
    let f = collection_floor_prices(&s("c1"), &ids, Some(listings));
    assert_eq!(floor_of(&f, "1"), Some(Some(s("80usei"))));
    assert_eq!(floor_of(&f, "3"), None);
    assert_eq!(floor_of(&f, "c1"), Some(Some(s("80usei"))));
}

#[test]
fn holding_keys_list_each_collection_tokens() {
    let keys = holding_collection_keys(&vec![collection(vec![token("1"), token("2")])]);
    assert_eq!(keys, vec![(s("c1"), vec![s("1"), s("2")])]);
}

#[test]
fn no_collection_means_no_holding() {
    let r = nfts_holding(&s("w"), &vec![], &vec![], &vec![], &vec![]);
    assert!(r.is_none());
}

#[test]
fn minted_nft_gain_is_floor_less_mint_price() {
    let holdings = vec![collection(vec![token("1")])];
    let floors = vec![(s("c1"), vec![(s("1"), Some(s("500usei"))), (s("c1"), Some(s("300usei")))])];
    let txs = vec![mint("1", "100")];
    let fees = vec![None];
    let h = nfts_holding(&s("w"), &holdings, &floors, &txs, &fees).unwrap();
    assert_eq!(h.collections.len(), 1);
    let c = &h.collections[0];
    assert_eq!(c.contract, "c1");
    assert_eq!(c.name, "Cats");
    assert_eq!(c.floor_price, Some(s("300usei")));
    let n = &c.nfts_holding[0];
    assert_eq!(n.floor_price, Some(s("500usei")));
    assert_eq!(n.buy_price, Some(s("100usei")));
    assert_eq!(n.market_fee, None);
    assert_eq!(n.royalties_fee, None);
    assert_eq!(n.unrealized_gains, Some(s("400usei")));
    assert_eq!(n.ts, "2024-01-01T00:00:00Z");
    assert_eq!(n.tx_hash, "MINT");
}

#[test]
fn fixed_price_purchase_subtracts_the_marketplace_fee() {
    let holdings = vec![collection(vec![token("1")])];
    let floors = vec![(s("c1"), vec![(s("1"), None), (s("c1"), Some(s("1000usei")))])];
    let txs = vec![fixed_sell("1", "600")];
    let fees = vec![Some(s("120usei"))];
    let h = nfts_holding(&s("w"), &holdings, &floors, &txs, &fees).unwrap();
    let n = &h.collections[0].nfts_holding[0];
    assert_eq!(n.floor_price, Some(s("1000usei")));
    assert_eq!(n.buy_price, Some(s("600usei")));
    assert_eq!(n.market_fee, Some(s("120usei")));
    assert_eq!(n.unrealized_gains, Some(s("280usei")));
    assert_eq!(n.tx_hash, "FIXED");
}

#[test]
fn purchase_record_carries_to_the_next_nft_of_a_collection() {
    let holdings = vec![collection(vec![token("1"), token("2")])];
    let floors = vec![(s("c1"), vec![(s("1"), Some(s("500usei"))), (s("c1"), Some(s("300usei")))])];
    let txs = vec![mint("1", "100")];
    let fees = vec![None];
    let h = nfts_holding(&s("w"), &holdings, &floors, &txs, &fees).unwrap();
    let n = &h.collections[0].nfts_holding[1];
    assert_eq!(n.token_id, "2");
    assert_eq!(n.floor_price, Some(s("300usei")));
    assert_eq!(n.buy_price, Some(s("100usei")));
    assert_eq!(n.unrealized_gains, Some(s("200usei")));
    assert_eq!(n.tx_hash, "MINT");
}

#[test]
fn nft_never_bought_shows_its_floor_as_gain() {
    let holdings = vec![collection(vec![token("7")])];
    let floors = vec![(s("c1"), vec![(s("c1"), Some(s("42usei")))])];
    let h = nfts_holding(&s("w"), &holdings, &floors, &vec![], &vec![]).unwrap();
    let n = &h.collections[0].nfts_holding[0];
    assert_eq!(n.buy_price, None);
    assert_eq!(n.floor_price, Some(s("42usei")));
    assert_eq!(n.unrealized_gains, Some(s("42usei")));
    assert_eq!(n.ts, "");
}

#[test]
fn nft_without_floor_has_no_gain() {
    let holdings = vec![collection(vec![token("1")])];
    let floors = vec![(s("c1"), vec![(s("c1"), None)])];
    let txs = vec![mint("1", "100")];
    let h = nfts_holding(&s("w"), &holdings, &floors, &txs, &vec![None]).unwrap();
    let n = &h.collections[0].nfts_holding[0];
    assert_eq!(n.floor_price, None);
    assert_eq!(n.unrealized_gains, None);
    assert_eq!(n.buy_price, Some(s("100usei")));
}

#[test]
fn holdings_need_floors_and_worked_out_fees() {
    let holdings = vec![collection(vec![token("1")])];
    let floors = vec![(s("c1"), vec![(s("c1"), Some(s("1000usei")))])];
    let txs = vec![fixed_sell("1", "600")];
    assert!(holdings_showable(&s("w"), &holdings, &floors, &txs, &vec![Some(s("120usei"))]));
    assert!(!holdings_showable(&s("w"), &holdings, &floors, &txs, &vec![None]));
    assert!(!holdings_showable(&s("w"), &holdings, &vec![], &txs, &vec![Some(s("120usei"))]));
    let no_own_floor = vec![(s("c1"), vec![(s("1"), Some(s("5usei")))])];
    assert!(!holdings_showable(&s("w"), &holdings, &no_own_floor, &txs, &vec![Some(s("120usei"))]));
    let bad_price = vec![(s("c1"), vec![(s("c1"), Some(s("cheap")))])];
    assert!(!holdings_showable(&s("w"), &holdings, &bad_price, &txs, &vec![Some(s("120usei"))]));
}

#[test]
fn listing_prices_must_read() {
    assert!(listing_prices_readable(&vec![listing("1", "5usei", "t")]));
    assert!(!listing_prices_readable(&vec![listing("1", "-5usei", "t")]));
    assert!(listing_prices_readable(&vec![]));
}

#[test]
fn floor_prices_hold_each_key_once() {
    let ids = vec![s("1"), s("2"), s("1"), s("c1"), s("2")];
    let listings = vec![
        listing("1", "500usei", "2024-01-01T00:00:00Z"),
        listing("2", "300usei", "2024-01-01T00:00:00Z"),
    ];
    let f = collection_floor_prices(&s("c1"), &ids, Some(listings));
    let keys: Vec<&str> = f.iter().map(|(k, _)| k.as_str()).collect();
    assert_eq!(keys, vec!["c1", "1", "2"]);
    assert_eq!(floor_of(&f, "c1"), Some(Some(s("300usei"))));
    assert_eq!(floor_of(&f, "1"), Some(Some(s("500usei"))));
    assert_eq!(floor_of(&f, "2"), Some(Some(s("300usei"))));
}
