//! A wallet's NFT holdings as they are shown: the floor prices of each
//! collection's listings, every held NFT with what was paid for it and the
//! gain not yet realised, and how long the NFTs have been held.
use vstd::prelude::*;
use crate::assoc::{assoc_map, is_last_key, lemma_assoc_lookup, last_key, no_key};
use crate::model::{
    Collection, CollectionView, NFTtransaction, NftAttribute, NftToken, NftTokenView,
    OnlyCreateAuction, TransferNft, _NftTransaction, collections_view, copy_vec,
};
use crate::text::{concat, signed_decimal, unit_i64, unit_i64_exec, unit_u64, unit_u64_exec, with_unit_signed};

verus! {

// ---------------------------------------------------------------------------
// Floor prices of a collection
// ---------------------------------------------------------------------------

/// Floor prices keyed by token id, and by the collection's address for the
/// collection as a whole; `None` where the collection has no listing.
pub type FloorPrices = Vec<(String, Option<String>)>;

/// The text of an optional string.
pub open spec fn opt_view(o: Option<String>) -> Option<Seq<char>> {
    match o {
        Some(s) => Some(s@),
        None => None,
    }
}

/// The floor prices as a map.
pub open spec fn floor_map(v: Seq<(String, Option<String>)>) -> Map<Seq<char>, Option<Seq<char>>> {
    assoc_map(v, |o: Option<String>| opt_view(o))
}

/// The price of a listing: its amount before the unit.
pub open spec fn listing_price(a: OnlyCreateAuction) -> nat {
    unit_u64(a.auction_price@)->0
}

/// Every listing's price reads as a `u64` amount.
pub open spec fn prices_read(a: Seq<OnlyCreateAuction>) -> bool {
    forall|i: int| 0 <= i < a.len() ==> (#[trigger] unit_u64(a[i].auction_price@)) is Some
}

/// The listing is of the token `t`.
pub open spec fn token_is(t: Seq<char>) -> spec_fn(OnlyCreateAuction) -> bool {
    |x: OnlyCreateAuction| x.token_id@ == t
}

/// The listings of the token `t`, or all listings where `only` is false.
pub open spec fn listings_of(a: Seq<OnlyCreateAuction>, only: bool, t: Seq<char>) -> Seq<
    OnlyCreateAuction,
> {
    if only {
        a.filter(token_is(t))
    } else {
        a
    }
}

/// The first of the cheapest listings of `s` (which is not empty).
pub open spec fn cheapest(s: Seq<OnlyCreateAuction>) -> OnlyCreateAuction
    decreases s.len(),
{
    if s.len() <= 1 {
        s[0]
    } else {
        let b = cheapest(s.drop_last());
        if listing_price(s.last()) < listing_price(b) {
            s.last()
        } else {
            b
        }
    }
}

/// The floor prices of collection `c`, whose held tokens are `token_ids`,
/// given its listings (`None` where none are stored): with no listing, only
/// the collection's entry, with no price; with no held token, nothing;
/// otherwise the cheapest listing of the collection, and for each held token
/// with listings, its cheapest listing (the first such where prices tie).
pub open spec fn floor_prices_map(
    c: Seq<char>,
    token_ids: Seq<String>,
    auctions: Option<Seq<OnlyCreateAuction>>,
) -> Map<Seq<char>, Option<Seq<char>>> {
    match auctions {
        Some(a) => if a.len() == 0 {
            map![c => None]
        } else if token_ids.len() == 0 {
            Map::empty()
        } else {
            floor_upto(c, token_ids, a, token_ids.len() as int)
        },
        None => map![c => None],
    }
}

/// The floor prices of the collection and of its first `n` held tokens.
pub open spec fn floor_upto(c: Seq<char>, token_ids: Seq<String>, a: Seq<OnlyCreateAuction>, n: int) -> Map<
    Seq<char>,
    Option<Seq<char>>,
> {
    Map::new(
        |k: Seq<char>|
            k == c || (exists|m: int| 0 <= m < n && #[trigger] token_ids[m]@ == k) && listings_of(
                a,
                true,
                k,
            ).len() > 0,
        |k: Seq<char>|
            if k == c {
                Some(cheapest(a).auction_price@)
            } else {
                Some(cheapest(listings_of(a, true, k)).auction_price@)
            },
    )
}

/// The position of the first of the cheapest listings of token `t` (of all
/// listings where `only` is false), if there is any.
fn cheapest_index(a: &Vec<OnlyCreateAuction>, only: bool, t: &String) -> (r: Option<usize>)
    requires
        prices_read(a@),
    ensures
        match r {
            Some(j) => j < a@.len() && listings_of(a@, only, t@).len() > 0 && cheapest(
                listings_of(a@, only, t@),
            ) == a@[j as int],
            None => listings_of(a@, only, t@).len() == 0,
        },
{
    let mut best: Option<usize> = None;
    let mut best_price: u64 = 0;
    let mut j: usize = 0;
    while j < a.len()
        invariant
            j <= a.len(),
            prices_read(a@),
            best is None <==> listings_of(a@.take(j as int), only, t@).len() == 0,
            best matches Some(b) ==> b < j && cheapest(listings_of(a@.take(j as int), only, t@))
                == a@[b as int] && best_price == listing_price(a@[b as int]),
        decreases a.len() - j,
    {
        let x = &a[j];
        let ghost s = listings_of(a@.take(j as int), only, t@);
        proof {
            reveal(Seq::filter);
            assert(a@.take(j + 1).drop_last() =~= a@.take(j as int));
            assert(a@.take(j + 1).last() == *x);
            assert(unit_u64(a@[j as int].auction_price@) is Some);
        }
        if !only || x.token_id == *t {
            proof {
                assert(listings_of(a@.take(j + 1), only, t@) == s.push(*x));
                assert(s.push(*x).drop_last() =~= s);
            }
            let p = match unit_u64_exec(&x.auction_price) {
                Some(p) => p,
                None => {
                    return None;
                },
            };
            match best {
                None => {
                    proof {
                        assert(s.len() == 0);
                    }
                    best = Some(j);
                    best_price = p;
                },
                Some(b) => {
                    if p < best_price {
                        best = Some(j);
                        best_price = p;
                    }
                },
            }
        } else {
            proof {
                assert(listings_of(a@.take(j + 1), only, t@) == s);
            }
        }
        j = j + 1;
    }
    proof {
        assert(a@.take(a.len() as int) =~= a@);
    }
    best
}

/// The floor prices of collection `collection`, whose held tokens are
/// `token_ids`, from its stored listings (`None` where none are stored).
pub fn collection_floor_prices(
    collection: &String,
    token_ids: &Vec<String>,
    auctions: Option<Vec<OnlyCreateAuction>>,
) -> (r: FloorPrices)
    requires
        match auctions {
            Some(a) => a@.len() > 0 && token_ids@.len() > 0 ==> prices_read(a@),
            None => true,
        },
    ensures
        floor_map(r@) == floor_prices_map(
            collection@,
            token_ids@,
            match auctions {
                Some(a) => Some(a@),
                None => None,
            },
        ),
        forall|x: int, y: int| 0 <= x < y < r@.len() ==> (#[trigger] r@[x]).0@ != (#[trigger] r@[y]).0@,
{
    let mut out: FloorPrices = Vec::new();
    match auctions {
        None => {
            out.push((collection.clone(), None));
            proof {
                reveal_with_fuel(assoc_map, 2);
                assert(out@.drop_last() =~= Seq::<(String, Option<String>)>::empty());
                assert(floor_map(out@) =~= map![collection@ => None]);
            }
            out
        },
        Some(a) => {
            if a.len() == 0 {
                out.push((collection.clone(), None));
                proof {
                    reveal_with_fuel(assoc_map, 2);
                    assert(out@.drop_last() =~= Seq::<(String, Option<String>)>::empty());
                    assert(floor_map(out@) =~= map![collection@ => None]);
                }
                out
            } else if token_ids.len() == 0 {
                proof {
                    assert(floor_map(out@) =~= Map::empty());
                }
                out
            } else {
                let ghost c = collection@;
                let ci = cheapest_index(&a, false, collection);
                let ci = match ci {
                    Some(ci) => ci,
                    None => {
                        return out;
                    },
                };
                out.push((collection.clone(), Some(a[ci].auction_price.clone())));
                proof {
                    reveal_with_fuel(assoc_map, 2);
                    assert(out@.drop_last() =~= Seq::<(String, Option<String>)>::empty());
                    assert(listings_of(a@, false, c) == a@);
                    assert(floor_map(out@) =~= floor_upto(c, token_ids@, a@, 0));
                }
                let mut i: usize = 0;
                while i < token_ids.len()
                    invariant
                        i <= token_ids.len(),
                        c == collection@,
                        a@.len() > 0,
                        prices_read(a@),
                        floor_map(out@) == floor_upto(c, token_ids@, a@, i as int),
                        forall|x: int, y: int|
                            0 <= x < y < out@.len() ==> (#[trigger] out@[x]).0@ != (#[trigger] out@[y]).0@,
                    decreases token_ids.len() - i,
                {
                    let t = &token_ids[i];
                    let ghost cur = floor_map(out@);
                    if *t != *collection {
                        let held = last_key(&out, t);
                        if held.is_some() {
                            proof {
                                lemma_assoc_lookup(out@, |o: Option<String>| opt_view(o), t@);
                                assert(token_ids@[i as int]@ == t@);
                                assert(floor_map(out@) =~= floor_upto(c, token_ids@, a@, i + 1));
                            }
                        } else {
                            match cheapest_index(&a, true, t) {
                                Some(j) => {
                                    let ghost before = out@;
                                    out.push((t.clone(), Some(a[j].auction_price.clone())));
                                    proof {
                                        assert(out@.drop_last() =~= before);
                                        assert forall|x: int, y: int|
                                            0 <= x < y < out@.len() implies (#[trigger] out@[x]).0@ != (
                                            #[trigger] out@[y]).0@ by {
                                            if y == before.len() {
                                                assert(out@[x] == before[x]);
                                            } else {
                                                assert(out@[x] == before[x] && out@[y] == before[y]);
                                            }
                                        }
                                        assert(floor_map(out@) == cur.insert(
                                            t@,
                                            Some(cheapest(listings_of(a@, true, t@)).auction_price@),
                                        ));
                                        assert(token_ids@[i as int]@ == t@);
                                        assert(floor_map(out@) =~= floor_upto(c, token_ids@, a@, i + 1));
                                    }
                                },
                                None => {
                                    proof {
                                        assert(floor_map(out@) =~= floor_upto(c, token_ids@, a@, i + 1));
                                    }
                                },
                            }
                        }
                    } else {
                        proof {
                            assert(floor_map(out@) =~= floor_upto(c, token_ids@, a@, i + 1));
                        }
                    }
                    i = i + 1;
                }
                out
            }
        },
    }
}

// ---------------------------------------------------------------------------
// Held NFTs
// ---------------------------------------------------------------------------

/// A held NFT as it is shown.
#[derive(Debug)]
pub struct UserNft {
    pub name: String,
    pub token_id: String,
    pub key: String,
    pub image: String,
    pub floor_price: Option<String>,
    pub royalty_percentage: u64,
    pub attributes: Vec<NftAttribute>,
    pub buy_price: Option<String>,
    pub royalties_fee: Option<String>,
    pub market_fee: Option<String>,
    pub unrealized_gains: Option<String>,
    pub ts: String,
    pub tx_hash: String,
}

/// What a [`UserNft`] holds, as text.
pub struct UserNftView {
    pub name: Seq<char>,
    pub token_id: Seq<char>,
    pub key: Seq<char>,
    pub image: Seq<char>,
    pub floor_price: Option<Seq<char>>,
    pub royalty_percentage: u64,
    pub attributes: Seq<NftAttribute>,
    pub buy_price: Option<Seq<char>>,
    pub royalties_fee: Option<Seq<char>>,
    pub market_fee: Option<Seq<char>>,
    pub unrealized_gains: Option<Seq<char>>,
    pub ts: Seq<char>,
    pub tx_hash: Seq<char>,
}

impl View for UserNft {
    type V = UserNftView;

    open spec fn view(&self) -> UserNftView {
        UserNftView {
            name: self.name@,
            token_id: self.token_id@,
            key: self.key@,
            image: self.image@,
            floor_price: opt_view(self.floor_price),
            royalty_percentage: self.royalty_percentage,
            attributes: self.attributes@,
            buy_price: opt_view(self.buy_price),
            royalties_fee: opt_view(self.royalties_fee),
            market_fee: opt_view(self.market_fee),
            unrealized_gains: opt_view(self.unrealized_gains),
            ts: self.ts@,
            tx_hash: self.tx_hash@,
        }
    }
}

/// The views of a sequence of held NFTs.
pub open spec fn user_nfts_view(v: Seq<UserNft>) -> Seq<UserNftView> {
    v.map_values(|n: UserNft| n@)
}

/// A held collection as it is shown.
#[derive(Debug)]
pub struct UserCollectionHold {
    pub name: String,
    pub symbol: String,
    pub contract: String,
    pub creator: String,
    pub floor_price: Option<String>,
    pub nfts_holding: Vec<UserNft>,
}

/// What a [`UserCollectionHold`] holds, as text.
pub struct UserCollectionHoldView {
    pub name: Seq<char>,
    pub symbol: Seq<char>,
    pub contract: Seq<char>,
    pub creator: Seq<char>,
    pub floor_price: Option<Seq<char>>,
    pub nfts_holding: Seq<UserNftView>,
}

impl View for UserCollectionHold {
    type V = UserCollectionHoldView;

    open spec fn view(&self) -> UserCollectionHoldView {
        UserCollectionHoldView {
            name: self.name@,
            symbol: self.symbol@,
            contract: self.contract@,
            creator: self.creator@,
            floor_price: opt_view(self.floor_price),
            nfts_holding: user_nfts_view(self.nfts_holding@),
        }
    }
}

/// All of a wallet's held collections.
#[derive(Debug)]
pub struct UserNftHolding {
    pub collections: Vec<UserCollectionHold>,
}

/// The views of a sequence of held collections.
pub open spec fn holds_view(v: Seq<UserCollectionHold>) -> Seq<UserCollectionHoldView> {
    v.map_values(|c: UserCollectionHold| c@)
}

/// What the wallet's latest purchase of an NFT recorded: the price paid and
/// the fees, the time and the transaction.
pub struct Purchase {
    pub buy: Option<Seq<char>>,
    pub royalties: Option<Seq<char>>,
    pub market: Option<Seq<char>>,
    pub ts: Seq<char>,
    pub tx: Seq<char>,
}

/// The state carried from one NFT of a collection to the next: the last
/// purchase found, and the last unrealised gain computed.
pub struct HoldState {
    pub p: Purchase,
    pub gains: Option<Seq<char>>,
}

/// Where a collection starts: nothing found, nothing computed.
pub open spec fn start_state() -> HoldState {
    HoldState {
        p: Purchase { buy: None, royalties: None, market: None, ts: Seq::empty(), tx: Seq::empty() },
        gains: None,
    }
}

/// The transfer moves the token `token` of collection `c` to `wallet`.
pub open spec fn bought_by(tr: TransferNft, wallet: Seq<char>, c: Seq<char>, token: Seq<char>) -> bool {
    tr.collection@ == c && tr.token_id@ == token && tr.recipient@ == wallet
}

/// The purchase record after one transaction: a sale, purchase, mint or
/// transfer of the token to the wallet replaces it; anything else keeps it.
/// `fee` is the marketplace fee worked out for a batch-bid or fixed-price
/// sale.
pub open spec fn purchase_step(
    p: Purchase,
    wallet: Seq<char>,
    c: Seq<char>,
    token: Seq<char>,
    t: _NftTransaction,
    fee: Option<String>,
) -> Purchase {
    match t {
        _NftTransaction::AcceptBid(d) => if bought_by(d.transfer, wallet, c, token) {
            Purchase {
                buy: Some(d.sale_price@),
                royalties: Some(d.royalties@),
                market: Some(d.marketplace_fee@),
                ts: d.transfer.ts@,
                tx: d.transfer.tx@,
            }
        } else {
            p
        },
        _NftTransaction::BatchBids(d) => if bought_by(d.transfer, wallet, c, token) {
            Purchase {
                buy: Some(d.sale_price@),
                royalties: None,
                market: opt_view(fee),
                ts: d.transfer.ts@,
                tx: d.transfer.tx@,
            }
        } else {
            p
        },
        _NftTransaction::FixedSell(d) => if bought_by(d.transfer, wallet, c, token) {
            Purchase {
                buy: Some(d.price@ + "usei"@),
                royalties: None,
                market: opt_view(fee),
                ts: d.transfer.ts@,
                tx: d.transfer.tx@,
            }
        } else {
            p
        },
        _NftTransaction::Mint(d) => if d.collection@ == c && d.token_id@ == token && d.recipient@
            == wallet {
            Purchase {
                buy: Some(d.price@ + "usei"@),
                royalties: None,
                market: None,
                ts: d.ts@,
                tx: d.tx@,
            }
        } else {
            p
        },
        _NftTransaction::OnlyTransfer(d) => if bought_by(d, wallet, c, token) {
            Purchase { buy: None, royalties: None, market: None, ts: d.ts@, tx: d.tx@ }
        } else {
            p
        },
        _NftTransaction::PurchaseCart(d) => if bought_by(d.transfer, wallet, c, token) {
            Purchase {
                buy: Some(d.sale_price@),
                royalties: Some(d.royalties@),
                market: Some(d.marketplace_fee@),
                ts: d.transfer.ts@,
                tx: d.transfer.tx@,
            }
        } else {
            p
        },
        _ => p,
    }
}

/// The transaction is a batch-bid or fixed-price sale of the token to the
/// wallet, for which a marketplace fee is worked out.
pub open spec fn fee_needed(wallet: Seq<char>, c: Seq<char>, token: Seq<char>, t: _NftTransaction) -> bool {
    match t {
        _NftTransaction::BatchBids(d) => bought_by(d.transfer, wallet, c, token),
        _NftTransaction::FixedSell(d) => bought_by(d.transfer, wallet, c, token),
        _ => false,
    }
}

/// The purchase record after the transactions, in order.
pub open spec fn purchases(
    p: Purchase,
    wallet: Seq<char>,
    c: Seq<char>,
    token: Seq<char>,
    txs: Seq<NFTtransaction>,
    fees: Seq<Option<String>>,
) -> Purchase
    decreases txs.len(),
{
    if txs.len() == 0 {
        p
    } else {
        purchase_step(
            purchases(p, wallet, c, token, txs.drop_last(), fees),
            wallet,
            c,
            token,
            txs.last().transaction,
            fees[txs.len() - 1],
        )
    }
}

/// Every fee that the token's purchases need is there.
pub open spec fn fees_present(
    wallet: Seq<char>,
    c: Seq<char>,
    token: Seq<char>,
    txs: Seq<NFTtransaction>,
    fees: Seq<Option<String>>,
) -> bool {
    forall|i: int|
        0 <= i < txs.len() && #[trigger] fee_needed(wallet, c, token, txs[i].transaction) ==> fees[i] is Some
}

/// An amount before its unit, as an `i64`.
pub open spec fn amount(s: Seq<char>) -> int {
    unit_i64(s)->0
}

/// The value is within the range of `i64`.
pub open spec fn fits_i64(x: int) -> bool {
    i64::MIN <= x <= i64::MAX
}

/// An amount written as `<signed amount>usei`.
pub open spec fn usei(x: int) -> Seq<char> {
    signed_decimal(x) + "usei"@
}

/// The unrealised gain after a purchase record, given the NFT's floor price:
/// none without a floor price; the floor price less the price paid and the
/// fees recorded; the floor price itself where nothing was paid; otherwise
/// the gain computed before.
pub open spec fn gains_after(prev: Option<Seq<char>>, floor: Option<Seq<char>>, p: Purchase) -> Option<
    Seq<char>,
> {
    match floor {
        None => None,
        Some(fp) => match (p.buy, p.market, p.royalties) {
            (Some(bp), Some(mf), Some(rf)) => Some(
                usei(amount(fp) - amount(bp) - amount(mf) - amount(rf)),
            ),
            (Some(bp), Some(mf), None) => Some(usei(amount(fp) - amount(bp) - amount(mf))),
            (Some(bp), None, _) => Some(usei(amount(fp) - amount(bp))),
            (None, None, None) => Some(fp),
            _ => prev,
        },
    }
}

/// The amounts of the gain read, and each subtraction stays within `i64`.
pub open spec fn gains_defined(floor: Option<Seq<char>>, p: Purchase) -> bool {
    match floor {
        None => true,
        Some(fp) => match (p.buy, p.market, p.royalties) {
            (Some(bp), Some(mf), Some(rf)) => {
                &&& unit_i64(fp) is Some && unit_i64(bp) is Some
                &&& unit_i64(mf) is Some && unit_i64(rf) is Some
                &&& fits_i64(amount(fp) - amount(bp))
                &&& fits_i64(amount(fp) - amount(bp) - amount(mf))
                &&& fits_i64(amount(fp) - amount(bp) - amount(mf) - amount(rf))
            },
            (Some(bp), Some(mf), None) => {
                &&& unit_i64(fp) is Some && unit_i64(bp) is Some && unit_i64(mf) is Some
                &&& fits_i64(amount(fp) - amount(bp))
                &&& fits_i64(amount(fp) - amount(bp) - amount(mf))
            },
            (Some(bp), None, _) => unit_i64(fp) is Some && unit_i64(bp) is Some && fits_i64(
                amount(fp) - amount(bp),
            ),
            _ => true,
        },
    }
}

/// An NFT's floor price: its own where it has one, else its collection's.
pub open spec fn nft_floor(f: Map<Seq<char>, Option<Seq<char>>>, c: Seq<char>, token: Seq<char>) -> Option<
    Seq<char>,
> {
    if f.dom().contains(token) && f[token] is Some {
        f[token]
    } else if f.dom().contains(c) {
        f[c]
    } else {
        None
    }
}

/// The state after the NFT `n`, and the NFT as it is shown.
pub open spec fn hold_row(
    s: HoldState,
    n: NftTokenView,
    f: Map<Seq<char>, Option<Seq<char>>>,
    wallet: Seq<char>,
    c: Seq<char>,
    txs: Seq<NFTtransaction>,
    fees: Seq<Option<String>>,
) -> (HoldState, UserNftView) {
    let p = purchases(s.p, wallet, c, n.token_id, txs, fees);
    let fl = nft_floor(f, c, n.token_id);
    let g = gains_after(s.gains, fl, p);
    (
        HoldState { p: p, gains: g },
        UserNftView {
            name: n.name,
            token_id: n.token_id,
            key: n.key,
            image: n.image,
            floor_price: fl,
            royalty_percentage: n.royalty_percentage,
            attributes: n.attributes,
            buy_price: p.buy,
            royalties_fee: p.royalties,
            market_fee: p.market,
            unrealized_gains: g,
            ts: p.ts,
            tx_hash: p.tx,
        },
    )
}

/// The state after the NFTs `nfts`, in order, and the NFTs as they are shown.
pub open spec fn hold_rows(
    s: HoldState,
    nfts: Seq<NftTokenView>,
    f: Map<Seq<char>, Option<Seq<char>>>,
    wallet: Seq<char>,
    c: Seq<char>,
    txs: Seq<NFTtransaction>,
    fees: Seq<Option<String>>,
) -> (HoldState, Seq<UserNftView>)
    decreases nfts.len(),
{
    if nfts.len() == 0 {
        (s, Seq::empty())
    } else {
        let prev = hold_rows(s, nfts.drop_last(), f, wallet, c, txs, fees);
        let row = hold_row(prev.0, nfts.last(), f, wallet, c, txs, fees);
        (row.0, prev.1.push(row.1))
    }
}

/// The NFTs can be shown: each has the fees its purchases need and a gain
/// that can be computed.
pub open spec fn rows_defined(
    s: HoldState,
    nfts: Seq<NftTokenView>,
    f: Map<Seq<char>, Option<Seq<char>>>,
    wallet: Seq<char>,
    c: Seq<char>,
    txs: Seq<NFTtransaction>,
    fees: Seq<Option<String>>,
) -> bool
    decreases nfts.len(),
{
    if nfts.len() == 0 {
        true
    } else {
        let prev = hold_rows(s, nfts.drop_last(), f, wallet, c, txs, fees).0;
        let n = nfts.last();
        &&& rows_defined(s, nfts.drop_last(), f, wallet, c, txs, fees)
        &&& fees_present(wallet, c, n.token_id, txs, fees)
        &&& gains_defined(
            nft_floor(f, c, n.token_id),
            purchases(prev.p, wallet, c, n.token_id, txs, fees),
        )
    }
}

/// The floor prices of each collection, keyed by its address.
pub open spec fn floors_map(v: Seq<(String, FloorPrices)>) -> Map<Seq<char>, Map<Seq<char>, Option<Seq<char>>>> {
    assoc_map(v, |f: FloorPrices| floor_map(f@))
}

/// A held collection as it is shown: each of its NFTs in order, each NFT
/// starting from the state the previous one left.
pub open spec fn collection_hold(
    col: CollectionView,
    floors: Map<Seq<char>, Map<Seq<char>, Option<Seq<char>>>>,
    wallet: Seq<char>,
    txs: Seq<NFTtransaction>,
    fees: Seq<Option<String>>,
) -> UserCollectionHoldView {
    let f = floors[col.collection];
    UserCollectionHoldView {
        name: col.name,
        symbol: col.symbol,
        contract: col.collection,
        creator: col.creator,
        floor_price: f[col.collection],
        nfts_holding: hold_rows(start_state(), col.nfts, f, wallet, col.collection, txs, fees).1,
    }
}

/// The holdings can be shown: there is a fee for each transaction, every
/// collection has floor prices with an entry for itself, and its NFTs can be
/// shown.
pub open spec fn holding_ready(
    cols: Seq<CollectionView>,
    floors: Map<Seq<char>, Map<Seq<char>, Option<Seq<char>>>>,
    wallet: Seq<char>,
    txs: Seq<NFTtransaction>,
    fees: Seq<Option<String>>,
) -> bool {
    &&& fees.len() == txs.len()
    &&& forall|i: int|
        0 <= i < cols.len() ==> {
            &&& floors.dom().contains(#[trigger] cols[i].collection)
            &&& floors[cols[i].collection].dom().contains(cols[i].collection)
            &&& rows_defined(
                start_state(),
                cols[i].nfts,
                floors[cols[i].collection],
                wallet,
                cols[i].collection,
                txs,
                fees,
            )
        }
}

/// The purchase record, as the code keeps it.
struct PurchaseRec {
    buy: Option<String>,
    royalties: Option<String>,
    market: Option<String>,
    ts: String,
    tx: String,
}

impl View for PurchaseRec {
    type V = Purchase;

    closed spec fn view(&self) -> Purchase {
        Purchase {
            buy: opt_view(self.buy),
            royalties: opt_view(self.royalties),
            market: opt_view(self.market),
            ts: self.ts@,
            tx: self.tx@,
        }
    }
}

/// A copy of an optional string.
pub fn copy_opt(o: &Option<String>) -> (r: Option<String>)
    ensures
        opt_view(r) == opt_view(*o),
{
    match o {
        Some(s) => Some(s.clone()),
        None => None,
    }
}

fn copy_rec(p: &PurchaseRec) -> (r: PurchaseRec)
    ensures
        r@ == p@,
{
    PurchaseRec {
        buy: copy_opt(&p.buy),
        royalties: copy_opt(&p.royalties),
        market: copy_opt(&p.market),
        ts: p.ts.clone(),
        tx: p.tx.clone(),
    }
}

fn bought_by_exec(tr: &TransferNft, wallet: &String, c: &String, token: &String) -> (r: bool)
    ensures
        r == bought_by(*tr, wallet@, c@, token@),
{
    tr.collection == *c && tr.token_id == *token && tr.recipient == *wallet
}

fn purchase_step_exec(
    p: PurchaseRec,
    wallet: &String,
    c: &String,
    token: &String,
    t: &_NftTransaction,
    fee: &Option<String>,
) -> (r: PurchaseRec)
    ensures
        r@ == purchase_step(p@, wallet@, c@, token@, *t, *fee),
{
    match t {
        _NftTransaction::AcceptBid(d) => if bought_by_exec(&d.transfer, wallet, c, token) {
            PurchaseRec {
                buy: Some(d.sale_price.clone()),
                royalties: Some(d.royalties.clone()),
                market: Some(d.marketplace_fee.clone()),
                ts: d.transfer.ts.clone(),
                tx: d.transfer.tx.clone(),
            }
        } else {
            p
        },
        _NftTransaction::BatchBids(d) => if bought_by_exec(&d.transfer, wallet, c, token) {
            PurchaseRec {
                buy: Some(d.sale_price.clone()),
                royalties: None,
                market: copy_opt(fee),
                ts: d.transfer.ts.clone(),
                tx: d.transfer.tx.clone(),
            }
        } else {
            p
        },
        _NftTransaction::FixedSell(d) => if bought_by_exec(&d.transfer, wallet, c, token) {
            PurchaseRec {
                buy: Some(concat(&d.price, "usei")),
                royalties: None,
                market: copy_opt(fee),
                ts: d.transfer.ts.clone(),
                tx: d.transfer.tx.clone(),
            }
        } else {
            p
        },
        _NftTransaction::Mint(d) => if d.collection == *c && d.token_id == *token && d.recipient
            == *wallet {
            PurchaseRec {
                buy: Some(concat(&d.price, "usei")),
                royalties: None,
                market: None,
                ts: d.ts.clone(),
                tx: d.tx.clone(),
            }
        } else {
            p
        },
        _NftTransaction::OnlyTransfer(d) => if bought_by_exec(d, wallet, c, token) {
            PurchaseRec { buy: None, royalties: None, market: None, ts: d.ts.clone(), tx: d.tx.clone() }
        } else {
            p
        },
        _NftTransaction::PurchaseCart(d) => if bought_by_exec(&d.transfer, wallet, c, token) {
            PurchaseRec {
                buy: Some(d.sale_price.clone()),
                royalties: Some(d.royalties.clone()),
                market: Some(d.marketplace_fee.clone()),
                ts: d.transfer.ts.clone(),
                tx: d.transfer.tx.clone(),
            }
        } else {
            p
        },
        _ => p,
    }
}

fn purchases_exec(
    p: PurchaseRec,
    wallet: &String,
    c: &String,
    token: &String,
    txs: &Vec<NFTtransaction>,
    fees: &Vec<Option<String>>,
) -> (r: PurchaseRec)
    requires
        fees@.len() == txs@.len(),
    ensures
        r@ == purchases(p@, wallet@, c@, token@, txs@, fees@),
{
    let ghost p0 = p@;
    let mut cur = p;
    let mut i: usize = 0;
    while i < txs.len()
        invariant
            i <= txs.len(),
            fees@.len() == txs@.len(),
            cur@ == purchases(p0, wallet@, c@, token@, txs@.take(i as int), fees@),
        decreases txs.len() - i,
    {
        proof {
            assert(txs@.take(i + 1).drop_last() =~= txs@.take(i as int));
            assert(txs@.take(i + 1).last() == txs@[i as int]);
        }
        cur = purchase_step_exec(cur, wallet, c, token, &txs[i].transaction, &fees[i]);
        i = i + 1;
    }
    proof {
        assert(txs@.take(txs.len() as int) =~= txs@);
    }
    cur
}

fn gains_exec(prev: Option<String>, floor: &Option<String>, p: &PurchaseRec) -> (r: Option<String>)
    requires
        gains_defined(opt_view(*floor), p@),
    ensures
        opt_view(r) == gains_after(opt_view(prev), opt_view(*floor), p@),
{
    match floor {
        None => None,
        Some(fp) => match (&p.buy, &p.market, &p.royalties) {
            (Some(bp), Some(mf), Some(rf)) => {
                let f = unit_i64_exec(fp).unwrap();
                let b = unit_i64_exec(bp).unwrap();
                let m = unit_i64_exec(mf).unwrap();
                let r = unit_i64_exec(rf).unwrap();
                Some(with_unit_signed(f - b - m - r))
            },
            (Some(bp), Some(mf), None) => {
                let f = unit_i64_exec(fp).unwrap();
                let b = unit_i64_exec(bp).unwrap();
                let m = unit_i64_exec(mf).unwrap();
                Some(with_unit_signed(f - b - m))
            },
            (Some(bp), None, _) => {
                let f = unit_i64_exec(fp).unwrap();
                let b = unit_i64_exec(bp).unwrap();
                Some(with_unit_signed(f - b))
            },
            (None, None, None) => Some(fp.clone()),
            _ => prev,
        },
    }
}

/// The floor price stored for `k`, if one is stored.
fn floor_get(f: &FloorPrices, k: &String) -> (r: Option<Option<String>>)
    ensures
        r is Some <==> floor_map(f@).dom().contains(k@),
        r matches Some(v) ==> floor_map(f@)[k@] == opt_view(v),
{
    proof {
        lemma_assoc_lookup(f@, |o: Option<String>| opt_view(o), k@);
    }
    match last_key(f, k) {
        Some(j) => Some(copy_opt(&f[j].1)),
        None => None,
    }
}

fn nft_floor_exec(f: &FloorPrices, c: &String, token: &String) -> (r: Option<String>)
    ensures
        opt_view(r) == nft_floor(floor_map(f@), c@, token@),
{
    match floor_get(f, token) {
        Some(Some(p)) => Some(p),
        _ => match floor_get(f, c) {
            Some(v) => v,
            None => None,
        },
    }
}

/// A copy of an NFT's attributes.
pub fn copy_attrs(v: &Vec<NftAttribute>) -> (r: Vec<NftAttribute>)
    ensures
        r@ == v@,
{
    copy_vec(v)
}

/// The NFTs of one collection as they are shown, each starting from the
/// state the previous one left.
fn collection_rows(
    nfts: &Vec<NftToken>,
    f: &FloorPrices,
    wallet: &String,
    c: &String,
    txs: &Vec<NFTtransaction>,
    fees: &Vec<Option<String>>,
) -> (r: Vec<UserNft>)
    requires
        fees@.len() == txs@.len(),
        rows_defined(
            start_state(),
            nfts@.map_values(|t: NftToken| t@),
            floor_map(f@),
            wallet@,
            c@,
            txs@,
            fees@,
        ),
    ensures
        user_nfts_view(r@) == hold_rows(
            start_state(),
            nfts@.map_values(|t: NftToken| t@),
            floor_map(f@),
            wallet@,
            c@,
            txs@,
            fees@,
        ).1,
{
    let ghost nv = nfts@.map_values(|t: NftToken| t@);
    let ghost fm = floor_map(f@);
    let mut st = PurchaseRec { buy: None, royalties: None, market: None, ts: String::new(), tx: String::new() };
    let mut gains: Option<String> = None;
    let mut out: Vec<UserNft> = Vec::new();
    proof {
        assert(st@ == start_state().p);
    }
    let mut i: usize = 0;
    while i < nfts.len()
        invariant
            i <= nfts.len(),
            fees@.len() == txs@.len(),
            nv == nfts@.map_values(|t: NftToken| t@),
            fm == floor_map(f@),
            rows_defined(start_state(), nv, fm, wallet@, c@, txs@, fees@),
            st@ == hold_rows(start_state(), nv.take(i as int), fm, wallet@, c@, txs@, fees@).0.p,
            opt_view(gains) == hold_rows(start_state(), nv.take(i as int), fm, wallet@, c@, txs@, fees@).0.gains,
            user_nfts_view(out@) == hold_rows(start_state(), nv.take(i as int), fm, wallet@, c@, txs@, fees@).1,
        decreases nfts.len() - i,
    {
        let n = &nfts[i];
        proof {
            assert(nv.take(i + 1).drop_last() =~= nv.take(i as int));
            assert(nv.take(i + 1).last() == n@);
            lemma_rows_defined_prefix(start_state(), nv, fm, wallet@, c@, txs@, fees@, i + 1);
            assert(nv.take(i + 1).drop_last() =~= nv.take(i as int));
        }
        let p = purchases_exec(copy_rec(&st), wallet, c, &n.token_id, txs, fees);
        let fl = nft_floor_exec(f, c, &n.token_id);
        let g = gains_exec(gains, &fl, &p);
        let row = UserNft {
            name: n.name.clone(),
            token_id: n.token_id.clone(),
            key: n.key.clone(),
            image: n.image.clone(),
            floor_price: copy_opt(&fl),
            royalty_percentage: n.royalty_percentage,
            attributes: copy_attrs(&n.attributes),
            buy_price: copy_opt(&p.buy),
            royalties_fee: copy_opt(&p.royalties),
            market_fee: copy_opt(&p.market),
            unrealized_gains: copy_opt(&g),
            ts: p.ts.clone(),
            tx_hash: p.tx.clone(),
        };
        let ghost before = out@;
        out.push(row);
        proof {
            assert(out@ == before.push(out@.last()));
            assert(user_nfts_view(out@) =~= user_nfts_view(before).push(out@.last()@));
        }
        st = p;
        gains = g;
        i = i + 1;
    }
    proof {
        assert(nv.take(nfts.len() as int) =~= nv);
    }
    out
}

/// `rows_defined` holds of every prefix of the NFTs.
proof fn lemma_rows_defined_prefix(
    s: HoldState,
    nfts: Seq<NftTokenView>,
    f: Map<Seq<char>, Option<Seq<char>>>,
    wallet: Seq<char>,
    c: Seq<char>,
    txs: Seq<NFTtransaction>,
    fees: Seq<Option<String>>,
    n: int,
)
    requires
        0 <= n <= nfts.len(),
        rows_defined(s, nfts, f, wallet, c, txs, fees),
    ensures
        rows_defined(s, nfts.take(n), f, wallet, c, txs, fees),
    decreases nfts.len(),
{
    if n == nfts.len() {
        assert(nfts.take(n) =~= nfts);
    } else {
        assert(nfts.drop_last().take(n) =~= nfts.take(n));
        lemma_rows_defined_prefix(s, nfts.drop_last(), f, wallet, c, txs, fees, n);
    }
}

/// A wallet's holdings as they are shown, given its stored collections, the
/// floor prices of each collection, its NFT transactions and the
/// marketplace fee worked out for each transaction (where one is worked
/// out); `None` where it holds no collection.
pub fn nfts_holding(
    wallet: &String,
    holdings: &Vec<Collection>,
    floors: &Vec<(String, FloorPrices)>,
    transactions: &Vec<NFTtransaction>,
    fees: &Vec<Option<String>>,
) -> (r: Option<UserNftHolding>)
    requires
        holding_ready(collections_view(holdings@), floors_map(floors@), wallet@, transactions@, fees@),
    ensures
        r is None <==> holdings@.len() == 0,
        r matches Some(h) ==> holds_view(h.collections@) == collections_view(holdings@).map_values(
            |col: CollectionView|
                collection_hold(col, floors_map(floors@), wallet@, transactions@, fees@),
        ),
{
    if holdings.len() == 0 {
        return None;
    }
    let ghost cv = collections_view(holdings@);
    let ghost fm = floors_map(floors@);
    let mut out: Vec<UserCollectionHold> = Vec::new();
    let mut i: usize = 0;
    while i < holdings.len()
        invariant
            i <= holdings.len(),
            cv == collections_view(holdings@),
            fm == floors_map(floors@),
            holding_ready(cv, fm, wallet@, transactions@, fees@),
            holds_view(out@) == cv.take(i as int).map_values(
                |col: CollectionView| collection_hold(col, fm, wallet@, transactions@, fees@),
            ),
        decreases holdings.len() - i,
    {
        let col = &holdings[i];
        proof {
            assert(cv[i as int] == col@);
            assert(fm.dom().contains(cv[i as int].collection));
            lemma_assoc_lookup(floors@, |f: FloorPrices| floor_map(f@), col.collection@);
        }
        let j = match last_key(floors, &col.collection) {
            Some(j) => j,
            None => {
                return None;
            },
        };
        let f = &floors[j].1;
        let rows = collection_rows(&col.nfts, f, wallet, &col.collection, transactions, fees);
        let fc = match floor_get(f, &col.collection) {
            Some(v) => v,
            None => None,
        };
        let hold = UserCollectionHold {
            name: col.name.clone(),
            symbol: col.symbol.clone(),
            contract: col.collection.clone(),
            creator: col.creator.clone(),
            floor_price: fc,
            nfts_holding: rows,
        };
        let ghost before = out@;
        out.push(hold);
        proof {
            assert(cv.take(i + 1).drop_last() =~= cv.take(i as int));
            assert(holds_view(out@) =~= holds_view(before).push(out@[i as int]@));
            assert(cv.take(i + 1).map_values(
                |col: CollectionView| collection_hold(col, fm, wallet@, transactions@, fees@),
            ) =~= cv.take(i as int).map_values(
                |col: CollectionView| collection_hold(col, fm, wallet@, transactions@, fees@),
            ).push(collection_hold(cv[i as int], fm, wallet@, transactions@, fees@)));
        }
        i = i + 1;
    }
    proof {
        assert(cv.take(holdings.len() as int) =~= cv);
    }
    Some(UserNftHolding { collections: out })
}

/// A copy of a held NFT.
pub fn copy_user_nft(n: &UserNft) -> (r: UserNft)
    ensures
        r@ == n@,
{
    UserNft {
        name: n.name.clone(),
        token_id: n.token_id.clone(),
        key: n.key.clone(),
        image: n.image.clone(),
        floor_price: copy_opt(&n.floor_price),
        royalty_percentage: n.royalty_percentage,
        attributes: copy_attrs(&n.attributes),
        buy_price: copy_opt(&n.buy_price),
        royalties_fee: copy_opt(&n.royalties_fee),
        market_fee: copy_opt(&n.market_fee),
        unrealized_gains: copy_opt(&n.unrealized_gains),
        ts: n.ts.clone(),
        tx_hash: n.tx_hash.clone(),
    }
}

/// The token ids of each held collection, keyed by its address (a later
/// entry for the same address overrides an earlier one).
pub fn holding_collection_keys(holdings: &Vec<Collection>) -> (r: Vec<(String, Vec<String>)>)
    ensures
        r@.len() == holdings@.len(),
        forall|i: int|
            0 <= i < holdings@.len() ==> (#[trigger] r@[i]).0@ == holdings@[i].collection@ && r@[i].1@.len()
                == holdings@[i].nfts@.len() && forall|j: int|
                0 <= j < holdings@[i].nfts@.len() ==> (#[trigger] r@[i].1@[j])@
                    == holdings@[i].nfts@[j].token_id@,
{
    let mut out: Vec<(String, Vec<String>)> = Vec::new();
    let mut i: usize = 0;
    while i < holdings.len()
        invariant
            i <= holdings.len(),
            out@.len() == i,
            forall|k: int|
                0 <= k < i ==> (#[trigger] out@[k]).0@ == holdings@[k].collection@ && out@[k].1@.len()
                    == holdings@[k].nfts@.len() && forall|j: int|
                    0 <= j < holdings@[k].nfts@.len() ==> (#[trigger] out@[k].1@[j])@
                        == holdings@[k].nfts@[j].token_id@,
        decreases holdings.len() - i,
    {
        let col = &holdings[i];
        let mut keys: Vec<String> = Vec::new();
        let mut j: usize = 0;
        while j < col.nfts.len()
            invariant
                j <= col.nfts.len(),
                keys@.len() == j,
                forall|m: int| 0 <= m < j ==> (#[trigger] keys@[m])@ == col.nfts@[m].token_id@,
            decreases col.nfts.len() - j,
        {
            keys.push(col.nfts[j].token_id.clone());
            j = j + 1;
        }
        out.push((col.collection.clone(), keys));
        i = i + 1;
    }
    out
}

} // verus!

verus! {

/// The cheapest listing is one of the listings, and no listing is cheaper.
pub proof fn lemma_cheapest(s: Seq<OnlyCreateAuction>)
    requires
        s.len() > 0,
    ensures
        s.contains(cheapest(s)),
        forall|i: int| 0 <= i < s.len() ==> listing_price(cheapest(s)) <= listing_price(#[trigger] s[i]),
    decreases s.len(),
{
    if s.len() > 1 {
        let d = s.drop_last();
        lemma_cheapest(d);
        let k = choose|k: int| 0 <= k < d.len() && d[k] == cheapest(d);
        assert(s[k] == d[k]);
        assert(s[s.len() - 1] == s.last());
        assert forall|i: int| 0 <= i < s.len() implies listing_price(cheapest(s)) <= listing_price(
            #[trigger] s[i],
        ) by {
            if i < s.len() - 1 {
                assert(s[i] == d[i]);
            }
        }
    } else {
        assert(s[0] == cheapest(s));
    }
}

/// A collection's floor price is never above the floor price of one of its
/// tokens: the collection's cheapest listing is at most the token's
/// cheapest listing.
pub proof fn law_collection_floor_lowest(a: Seq<OnlyCreateAuction>, t: Seq<char>)
    requires
        listings_of(a, true, t).len() > 0,
    ensures
        listing_price(cheapest(a)) <= listing_price(cheapest(listings_of(a, true, t))),
{
    let f = listings_of(a, true, t);
    lemma_cheapest(f);
    let k = choose|k: int| 0 <= k < f.len() && f[k] == cheapest(f);
    assert(f.contains(f[k]));
    a.lemma_filter_contains_rev(token_is(t), f[k]);
    assert(a.contains(f[k]));
    let i = choose|i: int| 0 <= i < a.len() && a[i] == f[k];
    assert(a.len() > 0);
    lemma_cheapest(a);
    assert(listing_price(cheapest(a)) <= listing_price(a[i]));
}

} // verus!

verus! {

// ---------------------------------------------------------------------------
// Whether the holdings can be shown
// ---------------------------------------------------------------------------

/// Whether every listing's price reads, so that [`collection_floor_prices`]
/// may be called with the listings.
pub fn listing_prices_readable(a: &Vec<OnlyCreateAuction>) -> (r: bool)
    ensures
        r == prices_read(a@),
{
    let mut i: usize = 0;
    while i < a.len()
        invariant
            i <= a.len(),
            forall|k: int| 0 <= k < i ==> (#[trigger] unit_u64(a@[k].auction_price@)) is Some,
        decreases a.len() - i,
    {
        if unit_u64_exec(&a[i].auction_price).is_none() {
            return false;
        }
        i = i + 1;
    }
    true
}

fn fee_needed_exec(wallet: &String, c: &String, token: &String, t: &_NftTransaction) -> (r: bool)
    ensures
        r == fee_needed(wallet@, c@, token@, *t),
{
    match t {
        _NftTransaction::BatchBids(d) => bought_by_exec(&d.transfer, wallet, c, token),
        _NftTransaction::FixedSell(d) => bought_by_exec(&d.transfer, wallet, c, token),
        _ => false,
    }
}

fn fees_present_exec(
    wallet: &String,
    c: &String,
    token: &String,
    txs: &Vec<NFTtransaction>,
    fees: &Vec<Option<String>>,
) -> (r: bool)
    requires
        fees@.len() == txs@.len(),
    ensures
        r == fees_present(wallet@, c@, token@, txs@, fees@),
{
    let mut i: usize = 0;
    while i < txs.len()
        invariant
            i <= txs.len(),
            fees@.len() == txs@.len(),
            forall|k: int|
                0 <= k < i && #[trigger] fee_needed(wallet@, c@, token@, txs@[k].transaction) ==> fees@[k] is Some,
        decreases txs.len() - i,
    {
        if fee_needed_exec(wallet, c, token, &txs[i].transaction) && fees[i].is_none() {
            return false;
        }
        i = i + 1;
    }
    true
}

/// The difference stays within `i64`.
fn fits_after(x: i128) -> (r: bool)
    ensures
        r == fits_i64(x as int),
{
    -0x8000_0000_0000_0000i128 <= x && x <= 0x7fff_ffff_ffff_ffffi128
}

fn gains_defined_exec(floor: &Option<String>, p: &PurchaseRec) -> (r: bool)
    ensures
        r == gains_defined(opt_view(*floor), p@),
{
    match floor {
        None => true,
        Some(fp) => {
            let f = match unit_i64_exec(fp) {
                Some(v) => v,
                None => {
                    return match (&p.buy, &p.market, &p.royalties) {
                        (Some(_), Some(_), Some(_)) => false,
                        (Some(_), Some(_), None) => false,
                        (Some(_), None, _) => false,
                        _ => true,
                    };
                },
            };
            match (&p.buy, &p.market, &p.royalties) {
                (Some(bp), Some(mf), Some(rf)) => match (unit_i64_exec(bp), unit_i64_exec(mf), unit_i64_exec(rf)) {
                    (Some(b), Some(m), Some(rv)) => {
                        let d1 = f as i128 - b as i128;
                        let d2 = d1 - m as i128;
                        let d3 = d2 - rv as i128;
                        fits_after(d1) && fits_after(d2) && fits_after(d3)
                    },
                    _ => false,
                },
                (Some(bp), Some(mf), None) => match (unit_i64_exec(bp), unit_i64_exec(mf)) {
                    (Some(b), Some(m)) => {
                        let d1 = f as i128 - b as i128;
                        let d2 = d1 - m as i128;
                        fits_after(d1) && fits_after(d2)
                    },
                    _ => false,
                },
                (Some(bp), None, _) => match unit_i64_exec(bp) {
                    Some(b) => fits_after(f as i128 - b as i128),
                    None => false,
                },
                _ => true,
            }
        },
    }
}

/// Whether the NFTs of one collection can be shown (see [`rows_defined`]).
fn rows_fit(
    nfts: &Vec<NftToken>,
    f: &FloorPrices,
    wallet: &String,
    c: &String,
    txs: &Vec<NFTtransaction>,
    fees: &Vec<Option<String>>,
) -> (r: bool)
    requires
        fees@.len() == txs@.len(),
    ensures
        r == rows_defined(
            start_state(),
            nfts@.map_values(|t: NftToken| t@),
            floor_map(f@),
            wallet@,
            c@,
            txs@,
            fees@,
        ),
{
    let ghost nv = nfts@.map_values(|t: NftToken| t@);
    let ghost fm = floor_map(f@);
    let mut st = PurchaseRec { buy: None, royalties: None, market: None, ts: String::new(), tx: String::new() };
    let mut gains: Option<String> = None;
    proof {
        assert(st@ == start_state().p);
    }
    let mut i: usize = 0;
    while i < nfts.len()
        invariant
            i <= nfts.len(),
            fees@.len() == txs@.len(),
            nv == nfts@.map_values(|t: NftToken| t@),
            fm == floor_map(f@),
            rows_defined(start_state(), nv.take(i as int), fm, wallet@, c@, txs@, fees@),
            st@ == hold_rows(start_state(), nv.take(i as int), fm, wallet@, c@, txs@, fees@).0.p,
            opt_view(gains) == hold_rows(start_state(), nv.take(i as int), fm, wallet@, c@, txs@, fees@).0.gains,
        decreases nfts.len() - i,
    {
        let n = &nfts[i];
        proof {
            assert(nv.take(i + 1).drop_last() =~= nv.take(i as int));
            assert(nv.take(i + 1).last() == n@);
        }
        if !fees_present_exec(wallet, c, &n.token_id, txs, fees) {
            proof {
                if rows_defined(start_state(), nv, fm, wallet@, c@, txs@, fees@) {
                    lemma_rows_defined_prefix(start_state(), nv, fm, wallet@, c@, txs@, fees@, i + 1);
                }
            }
            return false;
        }
        let p = purchases_exec(copy_rec(&st), wallet, c, &n.token_id, txs, fees);
        let fl = nft_floor_exec(f, c, &n.token_id);
        if !gains_defined_exec(&fl, &p) {
            proof {
                if rows_defined(start_state(), nv, fm, wallet@, c@, txs@, fees@) {
                    lemma_rows_defined_prefix(start_state(), nv, fm, wallet@, c@, txs@, fees@, i + 1);
                }
            }
            return false;
        }
        let g = gains_exec(gains, &fl, &p);
        st = p;
        gains = g;
        i = i + 1;
    }
    proof {
        assert(nv.take(nfts.len() as int) =~= nv);
    }
    true
}

/// Whether a wallet's holdings can be shown, so that [`nfts_holding`] may be
/// called with them (see [`holding_ready`]).
pub fn holdings_showable(
    wallet: &String,
    holdings: &Vec<Collection>,
    floors: &Vec<(String, FloorPrices)>,
    transactions: &Vec<NFTtransaction>,
    fees: &Vec<Option<String>>,
) -> (r: bool)
    ensures
        r == holding_ready(collections_view(holdings@), floors_map(floors@), wallet@, transactions@, fees@),
{
    if fees.len() != transactions.len() {
        return false;
    }
    let ghost cv = collections_view(holdings@);
    let ghost fm = floors_map(floors@);
    let mut i: usize = 0;
    while i < holdings.len()
        invariant
            i <= holdings.len(),
            fees@.len() == transactions@.len(),
            cv == collections_view(holdings@),
            fm == floors_map(floors@),
            forall|k: int|
                0 <= k < i ==> {
                    &&& fm.dom().contains(#[trigger] cv[k].collection)
                    &&& fm[cv[k].collection].dom().contains(cv[k].collection)
                    &&& rows_defined(
                        start_state(),
                        cv[k].nfts,
                        fm[cv[k].collection],
                        wallet@,
                        cv[k].collection,
                        transactions@,
                        fees@,
                    )
                },
        decreases holdings.len() - i,
    {
        let col = &holdings[i];
        proof {
            assert(cv[i as int] == col@);
            lemma_assoc_lookup(floors@, |f: FloorPrices| floor_map(f@), col.collection@);
        }
        let j = match last_key(floors, &col.collection) {
            Some(j) => j,
            None => {
                proof {
                    assert(!fm.dom().contains(cv[i as int].collection));
                }
                return false;
            },
        };
        let f = &floors[j].1;
        proof {
            assert(fm[cv[i as int].collection] == floor_map(f@));
        }
        if floor_get(f, &col.collection).is_none() {
            proof {
                assert(!fm[cv[i as int].collection].dom().contains(cv[i as int].collection));
            }
            return false;
        }
        if !rows_fit(&col.nfts, f, wallet, &col.collection, transactions, fees) {
            return false;
        }
        i = i + 1;
    }
    true
}

} // verus!
