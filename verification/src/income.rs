//! The income a wallet has realised on NFTs it bought and later sold: its
//! latest purchase and latest sale of each token, what it paid and received,
//! the fees, and how long it held the token.
use vstd::prelude::*;
use crate::model::{CollectionInfo, NFTtransaction, OnlyCreateAuction, TransferNft, _NftTransaction, moved_by, party_of};
use crate::holdings::{amount, fits_i64, opt_view, usei};
use crate::text::{concat, i64_to_string, owned, signed_decimal, unit_i64, unit_i64_exec, with_unit_signed};
use crate::time::{UtcStamp, parse_rfc3339, rfc3339_utc};

verus! {

/// One side of an NFT trade, as the income reads it.
#[derive(Debug)]
pub struct NftTransaction_ {
    pub collection: String,
    pub token_id: String,
    pub marketplace_fee: String,
    pub sale_price: String,
    pub royalties_fee: String,
    pub ts: String,
}

/// What an [`NftTransaction_`] holds, as text.
pub struct TradeSide {
    pub collection: Seq<char>,
    pub token_id: Seq<char>,
    pub marketplace_fee: Seq<char>,
    pub sale_price: Seq<char>,
    pub royalties_fee: Seq<char>,
    pub ts: Seq<char>,
}

impl View for NftTransaction_ {
    type V = TradeSide;

    open spec fn view(&self) -> TradeSide {
        TradeSide {
            collection: self.collection@,
            token_id: self.token_id@,
            marketplace_fee: self.marketplace_fee@,
            sale_price: self.sale_price@,
            royalties_fee: self.royalties_fee@,
            ts: self.ts@,
        }
    }
}

/// The realised income on one token.
#[derive(Debug)]
pub struct IncomeNft {
    pub token_id: String,
    pub buy_price: String,
    pub sell_price: String,
    pub realized_gains: String,
    /// Minutes from the purchase to the sale.
    pub holding_time: String,
    pub paid_fee: String,
}

/// What an [`IncomeNft`] holds, as text.
pub struct IncomeView {
    pub token_id: Seq<char>,
    pub buy_price: Seq<char>,
    pub sell_price: Seq<char>,
    pub realized_gains: Seq<char>,
    pub holding_time: Seq<char>,
    pub paid_fee: Seq<char>,
}

impl View for IncomeNft {
    type V = IncomeView;

    open spec fn view(&self) -> IncomeView {
        IncomeView {
            token_id: self.token_id@,
            buy_price: self.buy_price@,
            sell_price: self.sell_price@,
            realized_gains: self.realized_gains@,
            holding_time: self.holding_time@,
            paid_fee: self.paid_fee@,
        }
    }
}

/// The realised income on the tokens of one collection.
#[derive(Debug)]
pub struct IncomeNfts {
    pub name: String,
    pub symbol: String,
    pub collection: String,
    pub floor_price: Option<String>,
    pub income_nfts: Vec<IncomeNft>,
}

// ---------------------------------------------------------------------------
// Purchases and sales
// ---------------------------------------------------------------------------

/// The transaction is one whose marketplace fee is worked out from its price.
pub open spec fn fee_worked_out(t: _NftTransaction) -> bool {
    t is BatchBids || t is CretaeAuction
}

/// The side of `wallet` in a transfer: 1 where it received the NFT, 2 where
/// it sent it, 0 otherwise.
pub open spec fn side_in(tr: TransferNft, wallet: Seq<char>) -> int {
    if tr.recipient@ == wallet {
        1
    } else if tr.sender@ == wallet {
        2
    } else {
        0
    }
}

/// The record that a transaction makes, and the wallet's side in it (1 a
/// purchase, 2 a sale, 0 neither). A mint is always a sale; `fee` is the
/// marketplace fee worked out for a batch-bid sale or an auction.
pub open spec fn side_record(wallet: Seq<char>, t: _NftTransaction, fee: Option<String>) -> (int, TradeSide) {
    let zero = "0usei"@;
    let fee_v = match fee {
        Some(f) => f@,
        None => Seq::empty(),
    };
    match t {
        _NftTransaction::AcceptBid(d) => (
            side_in(d.transfer, wallet),
            TradeSide {
                collection: d.transfer.collection@,
                token_id: d.transfer.token_id@,
                marketplace_fee: d.marketplace_fee@,
                sale_price: d.sale_price@,
                royalties_fee: d.royalties@,
                ts: d.transfer.ts@,
            },
        ),
        _NftTransaction::BatchBids(d) => (
            side_in(d.transfer, wallet),
            TradeSide {
                collection: d.transfer.collection@,
                token_id: d.transfer.token_id@,
                marketplace_fee: fee_v,
                sale_price: d.sale_price@,
                royalties_fee: zero,
                ts: d.transfer.ts@,
            },
        ),
        _NftTransaction::CretaeAuction(d) => (
            side_in(d.transfer, wallet),
            TradeSide {
                collection: d.transfer.collection@,
                token_id: d.transfer.token_id@,
                marketplace_fee: fee_v,
                sale_price: d.auction_price@,
                royalties_fee: zero,
                ts: d.transfer.ts@,
            },
        ),
        _NftTransaction::FixedSell(d) => (
            side_in(d.transfer, wallet),
            TradeSide {
                collection: d.transfer.collection@,
                token_id: d.transfer.token_id@,
                marketplace_fee: zero,
                sale_price: d.price@ + "usei"@,
                royalties_fee: zero,
                ts: d.transfer.ts@,
            },
        ),
        _NftTransaction::Mint(d) => (
            2,
            TradeSide {
                collection: d.collection@,
                token_id: d.token_id@,
                marketplace_fee: zero,
                sale_price: d.price@ + "usei"@,
                royalties_fee: zero,
                ts: d.ts@,
            },
        ),
        _NftTransaction::OnlyTransfer(d) => (
            side_in(d, wallet),
            TradeSide {
                collection: d.collection@,
                token_id: d.token_id@,
                marketplace_fee: zero,
                sale_price: zero,
                royalties_fee: zero,
                ts: d.ts@,
            },
        ),
        _NftTransaction::PurchaseCart(d) => (
            side_in(d.transfer, wallet),
            TradeSide {
                collection: d.transfer.collection@,
                token_id: d.transfer.token_id@,
                marketplace_fee: d.marketplace_fee@,
                sale_price: d.sale_price@,
                royalties_fee: d.royalties@,
                ts: d.transfer.ts@,
            },
        ),
        _ => (
            0,
            TradeSide {
                collection: Seq::empty(),
                token_id: Seq::empty(),
                marketplace_fee: Seq::empty(),
                sale_price: Seq::empty(),
                royalties_fee: Seq::empty(),
                ts: Seq::empty(),
            },
        ),
    }
}

/// The wallet's purchases (`side` 1) or sales (`side` 2), in order.
pub open spec fn side_records(
    wallet: Seq<char>,
    txs: Seq<NFTtransaction>,
    fees: Seq<Option<String>>,
    side: int,
) -> Seq<TradeSide>
    decreases txs.len(),
{
    if txs.len() == 0 {
        Seq::empty()
    } else {
        let prev = side_records(wallet, txs.drop_last(), fees, side);
        let r = side_record(wallet, txs.last().transaction, fees[txs.len() - 1]);
        if r.0 == side {
            prev.push(r.1)
        } else {
            prev
        }
    }
}

/// The time of a record.
pub open spec fn time_of(r: TradeSide) -> UtcStamp {
    rfc3339_utc(r.ts)->0
}

/// `a` is a later instant than `b`.
pub open spec fn later(a: UtcStamp, b: UtcStamp) -> bool {
    a.secs > b.secs || (a.secs == b.secs && a.nanos > b.nanos)
}

/// The token a record is about: its collection and token id.
pub open spec fn token_of(r: TradeSide) -> (Seq<char>, Seq<char>) {
    (r.collection, r.token_id)
}

/// The tokens of the records, each once, in the order they first occur.
pub open spec fn tokens_in(s: Seq<TradeSide>) -> Seq<(Seq<char>, Seq<char>)>
    decreases s.len(),
{
    if s.len() == 0 {
        Seq::empty()
    } else {
        let prev = tokens_in(s.drop_last());
        if prev.contains(token_of(s.last())) {
            prev
        } else {
            prev.push(token_of(s.last()))
        }
    }
}

/// The latest record of token `k` (the first of the latest where times tie).
pub open spec fn latest_of(s: Seq<TradeSide>, k: (Seq<char>, Seq<char>)) -> Option<TradeSide>
    decreases s.len(),
{
    if s.len() == 0 {
        None
    } else {
        let prev = latest_of(s.drop_last(), k);
        let r = s.last();
        if token_of(r) == k && (prev is None || later(time_of(r), time_of(prev->0))) {
            Some(r)
        } else {
            prev
        }
    }
}

/// For each token of the records, in order, its latest record.
pub open spec fn latest_records(s: Seq<TradeSide>) -> Seq<TradeSide> {
    tokens_in(s).map_values(|k: (Seq<char>, Seq<char>)| latest_of(s, k)->0)
}

/// The first record of token `k`, if any.
pub open spec fn record_of(s: Seq<TradeSide>, k: (Seq<char>, Seq<char>)) -> Option<TradeSide>
    decreases s.len(),
{
    if s.len() == 0 {
        None
    } else {
        let prev = record_of(s.drop_last(), k);
        if prev is None && token_of(s.last()) == k {
            Some(s.last())
        } else {
            prev
        }
    }
}

/// The pairs of a purchase and a later sale of the same token, in the order
/// of the purchases.
pub open spec fn sold_after(buys: Seq<TradeSide>, sells: Seq<TradeSide>) -> Seq<(TradeSide, TradeSide)>
    decreases buys.len(),
{
    if buys.len() == 0 {
        Seq::empty()
    } else {
        let prev = sold_after(buys.drop_last(), sells);
        let b = buys.last();
        match record_of(sells, token_of(b)) {
            Some(s) => if later(time_of(s), time_of(b)) {
                prev.push((b, s))
            } else {
                prev
            },
            None => prev,
        }
    }
}

/// The candidates for realised income: for each token, the wallet's latest
/// purchase paired with its latest sale, where the sale came later.
pub open spec fn income_pairs(wallet: Seq<char>, txs: Seq<NFTtransaction>, fees: Seq<Option<String>>) -> Seq<
    (TradeSide, TradeSide),
> {
    sold_after(
        latest_records(side_records(wallet, txs, fees, 1)),
        latest_records(side_records(wallet, txs, fees, 2)),
    )
}

/// Every record's time parses.
pub open spec fn times_parse(s: Seq<TradeSide>) -> bool {
    forall|i: int| 0 <= i < s.len() ==> (#[trigger] rfc3339_utc(s[i].ts)) is Some
}

/// The candidates can be found: each worked-out fee is there, and the times
/// of the wallet's purchases and sales parse.
pub open spec fn income_ready(wallet: Seq<char>, txs: Seq<NFTtransaction>, fees: Seq<Option<String>>) -> bool {
    &&& fees.len() == txs.len()
    &&& forall|i: int|
        0 <= i < txs.len() && #[trigger] fee_worked_out(txs[i].transaction) ==> fees[i] is Some
    &&& times_parse(side_records(wallet, txs, fees, 1))
    &&& times_parse(side_records(wallet, txs, fees, 2))
}

/// The views of a sequence of records.
pub open spec fn sides_view(v: Seq<NftTransaction_>) -> Seq<TradeSide> {
    v.map_values(|t: NftTransaction_| t@)
}

/// The views of a sequence of pairs of records.
pub open spec fn pairs_view(v: Seq<(NftTransaction_, NftTransaction_)>) -> Seq<(TradeSide, TradeSide)> {
    v.map_values(|p: (NftTransaction_, NftTransaction_)| (p.0@, p.1@))
}

fn side_in_exec(tr: &TransferNft, wallet: &String) -> (r: u8)
    ensures
        r as int == side_in(*tr, wallet@),
{
    if tr.recipient == *wallet {
        1
    } else if tr.sender == *wallet {
        2
    } else {
        0
    }
}

fn record(
    collection: &String,
    token_id: &String,
    marketplace_fee: String,
    sale_price: String,
    royalties_fee: String,
    ts: &String,
) -> (r: NftTransaction_)
    ensures
        r@ == (TradeSide {
            collection: collection@,
            token_id: token_id@,
            marketplace_fee: marketplace_fee@,
            sale_price: sale_price@,
            royalties_fee: royalties_fee@,
            ts: ts@,
        }),
{
    NftTransaction_ {
        collection: collection.clone(),
        token_id: token_id.clone(),
        marketplace_fee,
        sale_price,
        royalties_fee,
        ts: ts.clone(),
    }
}

fn fee_text(fee: &Option<String>) -> (r: String)
    ensures
        r@ == (match *fee {
            Some(f) => f@,
            None => Seq::<char>::empty(),
        }),
{
    match fee {
        Some(f) => f.clone(),
        None => String::new(),
    }
}

fn side_record_exec(wallet: &String, t: &_NftTransaction, fee: &Option<String>) -> (r: (u8, Option<NftTransaction_>))
    ensures
        r.0 as int == side_record(wallet@, *t, *fee).0,
        r.0 != 0 ==> (r.1 matches Some(x) && x@ == side_record(wallet@, *t, *fee).1),
{
    match t {
        _NftTransaction::AcceptBid(d) => {
            let s = side_in_exec(&d.transfer, wallet);
            if s == 0 {
                return (0, None);
            }
            (s, Some(record(&d.transfer.collection, &d.transfer.token_id, d.marketplace_fee.clone(), d.sale_price.clone(), d.royalties.clone(), &d.transfer.ts)))
        },
        _NftTransaction::BatchBids(d) => {
            let s = side_in_exec(&d.transfer, wallet);
            if s == 0 {
                return (0, None);
            }
            (s, Some(record(&d.transfer.collection, &d.transfer.token_id, fee_text(fee), d.sale_price.clone(), owned("0usei"), &d.transfer.ts)))
        },
        _NftTransaction::CretaeAuction(d) => {
            let s = side_in_exec(&d.transfer, wallet);
            if s == 0 {
                return (0, None);
            }
            (s, Some(record(&d.transfer.collection, &d.transfer.token_id, fee_text(fee), d.auction_price.clone(), owned("0usei"), &d.transfer.ts)))
        },
        _NftTransaction::FixedSell(d) => {
            let s = side_in_exec(&d.transfer, wallet);
            if s == 0 {
                return (0, None);
            }
            (s, Some(record(&d.transfer.collection, &d.transfer.token_id, owned("0usei"), concat(&d.price, "usei"), owned("0usei"), &d.transfer.ts)))
        },
        _NftTransaction::Mint(d) => {
            (2, Some(record(&d.collection, &d.token_id, owned("0usei"), concat(&d.price, "usei"), owned("0usei"), &d.ts)))
        },
        _NftTransaction::OnlyTransfer(d) => {
            let s = side_in_exec(d, wallet);
            if s == 0 {
                return (0, None);
            }
            (s, Some(record(&d.collection, &d.token_id, owned("0usei"), owned("0usei"), owned("0usei"), &d.ts)))
        },
        _NftTransaction::PurchaseCart(d) => {
            let s = side_in_exec(&d.transfer, wallet);
            if s == 0 {
                return (0, None);
            }
            (s, Some(record(&d.transfer.collection, &d.transfer.token_id, d.marketplace_fee.clone(), d.sale_price.clone(), d.royalties.clone(), &d.transfer.ts)))
        },
        _ => (0, None),
    }
}

fn copy_side(r: &NftTransaction_) -> (c: NftTransaction_)
    ensures
        c@ == r@,
{
    NftTransaction_ {
        collection: r.collection.clone(),
        token_id: r.token_id.clone(),
        marketplace_fee: r.marketplace_fee.clone(),
        sale_price: r.sale_price.clone(),
        royalties_fee: r.royalties_fee.clone(),
        ts: r.ts.clone(),
    }
}

/// The wallet's purchases and its sales, in order.
fn income_sides(wallet: &String, txs: &Vec<NFTtransaction>, fees: &Vec<Option<String>>) -> (r: (
    Vec<NftTransaction_>,
    Vec<NftTransaction_>,
))
    requires
        fees@.len() == txs@.len(),
    ensures
        sides_view(r.0@) == side_records(wallet@, txs@, fees@, 1),
        sides_view(r.1@) == side_records(wallet@, txs@, fees@, 2),
{
    let mut buys: Vec<NftTransaction_> = Vec::new();
    let mut sells: Vec<NftTransaction_> = Vec::new();
    let mut i: usize = 0;
    while i < txs.len()
        invariant
            i <= txs.len(),
            fees@.len() == txs@.len(),
            sides_view(buys@) == side_records(wallet@, txs@.take(i as int), fees@, 1),
            sides_view(sells@) == side_records(wallet@, txs@.take(i as int), fees@, 2),
        decreases txs.len() - i,
    {
        proof {
            assert(txs@.take(i + 1).drop_last() =~= txs@.take(i as int));
            assert(txs@.take(i + 1).last() == txs@[i as int]);
        }
        let ghost (b0, s0) = (buys@, sells@);
        let (side, rec) = side_record_exec(wallet, &txs[i].transaction, &fees[i]);
        match rec {
            Some(x) => {
                let ghost xv = x@;
                if side == 1 {
                    buys.push(x);
                    proof {
                        assert(sides_view(buys@) =~= sides_view(b0).push(xv));
                    }
                } else if side == 2 {
                    sells.push(x);
                    proof {
                        assert(sides_view(sells@) =~= sides_view(s0).push(xv));
                    }
                }
            },
            None => {},
        }
        i = i + 1;
    }
    proof {
        assert(txs@.take(txs.len() as int) =~= txs@);
    }
    (buys, sells)
}

/// `a` is later than `b`, on the code's numbers.
fn later_exec(a: &UtcStamp, b: &UtcStamp) -> (r: bool)
    ensures
        r == later(*a, *b),
{
    a.secs > b.secs || (a.secs == b.secs && a.nanos > b.nanos)
}

proof fn lemma_latest_some(s: Seq<TradeSide>, k: (Seq<char>, Seq<char>), i: int)
    requires
        0 <= i < s.len(),
        token_of(s[i]) == k,
    ensures
        latest_of(s, k) is Some,
    decreases s.len(),
{
    if i < s.len() - 1 {
        assert(s.drop_last()[i] == s[i]);
        lemma_latest_some(s.drop_last(), k, i);
    }
}

proof fn lemma_latest_token(s: Seq<TradeSide>, k: (Seq<char>, Seq<char>))
    ensures
        latest_of(s, k) matches Some(r) ==> token_of(r) == k,
    decreases s.len(),
{
    if s.len() > 0 {
        lemma_latest_token(s.drop_last(), k);
    }
}

proof fn lemma_tokens_in(s: Seq<TradeSide>)
    ensures
        forall|j: int| 0 <= j < tokens_in(s).len() ==> exists|i: int| 0 <= i < s.len() && token_of(s[i]) == #[trigger] tokens_in(s)[j],
        forall|i: int| 0 <= i < s.len() ==> tokens_in(s).contains(#[trigger] token_of(s[i])),
    decreases s.len(),
{
    if s.len() > 0 {
        lemma_tokens_in(s.drop_last());
        let p = tokens_in(s.drop_last());
        assert forall|j: int| 0 <= j < tokens_in(s).len() implies exists|i: int|
            0 <= i < s.len() && token_of(s[i]) == #[trigger] tokens_in(s)[j] by {
            if j < p.len() {
                let i = choose|i: int| 0 <= i < s.drop_last().len() && token_of(s.drop_last()[i]) == p[j];
                assert(s[i] == s.drop_last()[i]);
            } else {
                assert(token_of(s[s.len() - 1]) == tokens_in(s)[j]);
            }
        }
        assert forall|i: int| 0 <= i < s.len() implies tokens_in(s).contains(#[trigger] token_of(s[i])) by {
            if i < s.len() - 1 {
                assert(s.drop_last()[i] == s[i]);
                assert(p.contains(token_of(s.drop_last()[i])));
                let j = choose|j: int| 0 <= j < p.len() && p[j] == token_of(s[i]);
                assert(tokens_in(s)[j] == p[j]);
            } else {
                if !p.contains(token_of(s.last())) {
                    assert(tokens_in(s)[p.len() as int] == token_of(s.last()));
                }
            }
        }
    }
}

/// The latest record of the token of `recs[at]` among `recs`, or `None`
/// where a time does not parse.
fn latest_index(recs: &Vec<NftTransaction_>, at: usize) -> (r: Option<usize>)
    requires
        at < recs@.len(),
        times_parse(sides_view(recs@)),
    ensures
        (r matches Some(j) && j < recs@.len() && latest_of(sides_view(recs@), token_of(recs@[at as int]@))
            == Some(recs@[j as int]@)),
{
    let ghost s = sides_view(recs@);
    let ghost k = token_of(recs@[at as int]@);
    let mut best: Option<usize> = None;
    let mut best_t: Option<UtcStamp> = None;
    let mut j: usize = 0;
    while j < recs.len()
        invariant
            j <= recs.len(),
            at < recs@.len(),
            s == sides_view(recs@),
            k == token_of(recs@[at as int]@),
            times_parse(s),
            match best {
                Some(b) => b < j && latest_of(s.take(j as int), k) == Some(s[b as int]) && best_t
                    == Some(time_of(s[b as int])),
                None => latest_of(s.take(j as int), k) is None && best_t is None,
            },
        decreases recs.len() - j,
    {
        proof {
            assert(s.take(j + 1).drop_last() =~= s.take(j as int));
            assert(s.take(j + 1).last() == s[j as int]);
            assert(s[j as int] == recs@[j as int]@);
            assert(rfc3339_utc(s[j as int].ts) is Some);
            let prev = latest_of(s.take(j as int), k);
            assert(latest_of(s.take(j + 1), k) == if token_of(s[j as int]) == k && (prev is None
                || later(time_of(s[j as int]), time_of(prev->0))) {
                Some(s[j as int])
            } else {
                prev
            });
        }
        let r = &recs[j];
        if r.collection == recs[at].collection && r.token_id == recs[at].token_id {
            proof {
                assert(token_of(s[j as int]) == k);
            }
            let t = match parse_rfc3339(r.ts.as_str()) {
                Some(t) => t,
                None => {
                    return None;
                },
            };
            proof {
                assert(t == time_of(s[j as int]));
            }
            let replace = match &best_t {
                None => true,
                Some(bt) => later_exec(&t, bt),
            };
            if replace {
                best = Some(j);
                best_t = Some(t);
            }
        } else {
            proof {
                assert(token_of(s[j as int]) != k);
            }
        }
        j = j + 1;
    }
    proof {
        assert(s.take(recs.len() as int) =~= s);
        assert(s[at as int] == recs@[at as int]@);
        lemma_latest_some(s, k, at as int);
    }
    best
}

/// For each token of `recs`, in the order tokens first occur, its latest
/// record.
fn latest_per_token(recs: &Vec<NftTransaction_>) -> (r: Vec<NftTransaction_>)
    requires
        times_parse(sides_view(recs@)),
    ensures
        sides_view(r@) == latest_records(sides_view(recs@)),
{
    let ghost s = sides_view(recs@);
    let mut out: Vec<NftTransaction_> = Vec::new();
    let mut i: usize = 0;
    proof {
        lemma_tokens_in(s);
    }
    while i < recs.len()
        invariant
            i <= recs.len(),
            s == sides_view(recs@),
            times_parse(s),
            out@.len() == tokens_in(s.take(i as int)).len(),
            forall|m: int|
                0 <= m < out@.len() ==> (#[trigger] out@[m])@ == latest_of(
                    s,
                    tokens_in(s.take(i as int))[m],
                )->0 && token_of(out@[m]@) == tokens_in(s.take(i as int))[m],
        decreases recs.len() - i,
    {
        let ghost p = tokens_in(s.take(i as int));
        let ghost ki = token_of(s[i as int]);
        proof {
            assert(s.take(i + 1).drop_last() =~= s.take(i as int));
            assert(s.take(i + 1).last() == s[i as int]);
            assert(s[i as int] == recs@[i as int]@);
        }
        let mut seen = false;
        let mut m: usize = 0;
        while m < out.len()
            invariant
                m <= out@.len(),
                out@.len() == p.len(),
                forall|q: int| 0 <= q < out@.len() ==> token_of((#[trigger] out@[q])@) == p[q],
                !seen ==> forall|q: int| 0 <= q < m ==> p[q] != ki,
                seen ==> p.contains(ki),
                i < recs@.len(),
                ki == token_of(recs@[i as int]@),
            decreases out@.len() - m,
        {
            if out[m].collection == recs[i].collection && out[m].token_id == recs[i].token_id {
                proof {
                    assert(token_of(out@[m as int]@) == p[m as int]);
                    assert(p[m as int] == ki);
                }
                seen = true;
            }
            m = m + 1;
        }
        if !seen {
            let j = match latest_index(recs, i) {
                Some(j) => j,
                None => {
                    return out;
                },
            };
            proof {
                lemma_latest_token(s, ki);
                assert(!p.contains(ki));
            }
            let ghost o0 = out@;
            out.push(copy_side(&recs[j]));
            proof {
                assert(tokens_in(s.take(i + 1)) == p.push(ki));
                assert forall|q: int| 0 <= q < out@.len() implies (#[trigger] out@[q])@ == latest_of(
                    s,
                    tokens_in(s.take(i + 1))[q],
                )->0 && token_of(out@[q]@) == tokens_in(s.take(i + 1))[q] by {
                    if q < o0.len() {
                        assert(out@[q] == o0[q]);
                    }
                }
            }
        } else {
            proof {
                assert(tokens_in(s.take(i + 1)) == p);
            }
        }
        i = i + 1;
    }
    proof {
        assert(s.take(recs.len() as int) =~= s);
        assert(sides_view(out@) =~= latest_records(s));
    }
    out
}

fn record_index(recs: &Vec<NftTransaction_>, collection: &String, token_id: &String) -> (r: Option<usize>)
    ensures
        match record_of(sides_view(recs@), (collection@, token_id@)) {
            Some(x) => (r matches Some(j) && j < recs@.len() && recs@[j as int]@ == x),
            None => r is None,
        },
{
    let ghost s = sides_view(recs@);
    let ghost k = (collection@, token_id@);
    let mut j: usize = 0;
    while j < recs.len()
        invariant
            j <= recs.len(),
            s == sides_view(recs@),
            k == (collection@, token_id@),
            record_of(s.take(j as int), k) is None,
        decreases recs.len() - j,
    {
        proof {
            assert(s.take(j + 1).drop_last() =~= s.take(j as int));
            assert(s.take(j + 1).last() == s[j as int]);
            assert(s[j as int] == recs@[j as int]@);
        }
        if recs[j].collection == *collection && recs[j].token_id == *token_id {
            proof {
                lemma_record_of_prefix(s, k, j + 1);
            }
            return Some(j);
        }
        j = j + 1;
    }
    proof {
        assert(s.take(recs.len() as int) =~= s);
    }
    None
}

proof fn lemma_record_of_prefix(s: Seq<TradeSide>, k: (Seq<char>, Seq<char>), n: int)
    requires
        0 <= n <= s.len(),
        record_of(s.take(n), k) is Some,
    ensures
        record_of(s, k) == record_of(s.take(n), k),
    decreases s.len(),
{
    if n == s.len() {
        assert(s.take(n) =~= s);
    } else {
        assert(s.drop_last().take(n) =~= s.take(n));
        lemma_record_of_prefix(s.drop_last(), k, n);
    }
}

/// The candidates for realised income of `wallet`: for each token, its
/// latest purchase paired with its latest sale where the sale came later,
/// in the order of the purchases. `fees` holds the marketplace fee worked
/// out for each transaction (where one is worked out). `None` where a fee
/// that is needed is missing or a purchase's or sale's time does not parse.
pub fn income_candidates(
    wallet: &String,
    transactions: &Vec<NFTtransaction>,
    fees: &Vec<Option<String>>,
) -> (r: Option<Vec<(NftTransaction_, NftTransaction_)>>)
    ensures
        r is Some <==> income_ready(wallet@, transactions@, fees@),
        r matches Some(v) ==> pairs_view(v@) == income_pairs(wallet@, transactions@, fees@),
{
    if fees.len() != transactions.len() {
        return None;
    }
    let mut i: usize = 0;
    while i < transactions.len()
        invariant
            i <= transactions.len(),
            fees@.len() == transactions@.len(),
            forall|j: int|
                0 <= j < i && #[trigger] fee_worked_out(transactions@[j].transaction) ==> fees@[j] is Some,
        decreases transactions.len() - i,
    {
        let needs = match &transactions[i].transaction {
            _NftTransaction::BatchBids(_) => true,
            _NftTransaction::CretaeAuction(_) => true,
            _ => false,
        };
        proof {
            assert(needs == fee_worked_out(transactions@[i as int].transaction));
        }
        if needs && fees[i].is_none() {
            return None;
        }
        i = i + 1;
    }
    let (buys, sells) = income_sides(wallet, transactions, fees);
    if !all_times_parse(&buys) || !all_times_parse(&sells) {
        return None;
    }
    let bl = latest_per_token(&buys);
    let sl = latest_per_token(&sells);
    let ghost bv = sides_view(bl@);
    let ghost sv = sides_view(sl@);
    proof {
        assert(times_parse(bv)) by {
            lemma_latest_records_parse(sides_view(buys@));
        }
        assert(times_parse(sv)) by {
            lemma_latest_records_parse(sides_view(sells@));
        }
    }
    let mut out: Vec<(NftTransaction_, NftTransaction_)> = Vec::new();
    let mut b: usize = 0;
    while b < bl.len()
        invariant
            b <= bl.len(),
            bv == sides_view(bl@),
            sv == sides_view(sl@),
            times_parse(bv),
            times_parse(sv),
            pairs_view(out@) == sold_after(bv.take(b as int), sv),
        decreases bl.len() - b,
    {
        proof {
            assert(bv.take(b + 1).drop_last() =~= bv.take(b as int));
            assert(bv.take(b + 1).last() == bv[b as int]);
            assert(bv[b as int] == bl@[b as int]@);
            assert(rfc3339_utc(bv[b as int].ts) is Some);
        }
        let x = &bl[b];
        match record_index(&sl, &x.collection, &x.token_id) {
            Some(j) => {
                proof {
                    assert(sv[j as int] == sl@[j as int]@);
                    assert(rfc3339_utc(sv[j as int].ts) is Some);
                }
                let tb = parse_rfc3339(x.ts.as_str());
                let ts = parse_rfc3339(sl[j].ts.as_str());
                match (tb, ts) {
                    (Some(tb), Some(ts)) => {
                        if later_exec(&ts, &tb) {
                            let ghost o0 = out@;
                            out.push((copy_side(x), copy_side(&sl[j])));
                            proof {
                                assert(pairs_view(out@) =~= pairs_view(o0).push((bv[b as int], sv[j as int])));
                            }
                        }
                    },
                    _ => {},
                }
            },
            None => {},
        }
        b = b + 1;
    }
    proof {
        assert(bv.take(bl.len() as int) =~= bv);
    }
    Some(out)
}

proof fn lemma_latest_records_parse(s: Seq<TradeSide>)
    requires
        times_parse(s),
    ensures
        times_parse(latest_records(s)),
{
    lemma_tokens_in(s);
    assert forall|j: int| 0 <= j < latest_records(s).len() implies (#[trigger] rfc3339_utc(
        latest_records(s)[j].ts,
    )) is Some by {
        let k = tokens_in(s)[j];
        let i = choose|i: int| 0 <= i < s.len() && token_of(s[i]) == k;
        lemma_latest_some(s, k, i);
        lemma_latest_member(s, k);
    }
}

proof fn lemma_latest_member(s: Seq<TradeSide>, k: (Seq<char>, Seq<char>))
    ensures
        latest_of(s, k) matches Some(r) ==> exists|i: int| 0 <= i < s.len() && s[i] == r,
    decreases s.len(),
{
    if s.len() > 0 {
        lemma_latest_member(s.drop_last(), k);
        if latest_of(s, k) is Some && latest_of(s, k) != latest_of(s.drop_last(), k) {
            assert(s[s.len() - 1] == latest_of(s, k)->0);
        } else if latest_of(s, k) is Some {
            let i = choose|i: int| 0 <= i < s.drop_last().len() && s.drop_last()[i] == latest_of(s, k)->0;
            assert(s[i] == s.drop_last()[i]);
        }
    }
}

fn all_times_parse(recs: &Vec<NftTransaction_>) -> (r: bool)
    ensures
        r == times_parse(sides_view(recs@)),
{
    let ghost s = sides_view(recs@);
    let mut i: usize = 0;
    while i < recs.len()
        invariant
            i <= recs.len(),
            s == sides_view(recs@),
            forall|j: int| 0 <= j < i ==> (#[trigger] rfc3339_utc(s[j].ts)) is Some,
        decreases recs.len() - i,
    {
        proof {
            assert(s[i as int] == recs@[i as int]@);
        }
        if parse_rfc3339(recs[i].ts.as_str()).is_none() {
            proof {
                assert(rfc3339_utc(s[i as int].ts) is None);
            }
            return false;
        }
        i = i + 1;
    }
    true
}

// ---------------------------------------------------------------------------
// Realised income on a token
// ---------------------------------------------------------------------------

/// `(pct as i64) / 100`, as Rust computes it.
pub open spec fn royalty_rate(pct: u64) -> int {
    if pct <= i64::MAX {
        (pct / 100) as int
    } else {
        -(((0x1_0000_0000_0000_0000int - pct) / 100) as int)
    }
}

/// The whole seconds from `a` to `b`, rounded toward zero.
pub open spec fn whole_seconds(a: UtcStamp, b: UtcStamp) -> int {
    let (fs, rem) = if b.nanos < a.nanos {
        (b.secs - a.secs - 1, b.nanos + 1_000_000_000 - a.nanos)
    } else {
        (b.secs - a.secs, b.nanos - a.nanos)
    };
    if fs < 0 && rem > 0 {
        fs + 1
    } else {
        fs
    }
}

/// The whole minutes from `a` to `b`, rounded toward zero.
pub open spec fn whole_minutes(a: UtcStamp, b: UtcStamp) -> int {
    let s = whole_seconds(a, b);
    if s >= 0 {
        s / 60
    } else {
        -((-s) / 60)
    }
}

/// The fees paid on a purchase: its marketplace fee, and either the
/// royalties that the NFT's royalty percentage (`pct`, where the NFT's
/// details are known) takes of the sale price, or the royalties recorded.
pub open spec fn paid_fee(buy: TradeSide, sell: TradeSide, pct: Option<u64>) -> int {
    match pct {
        Some(p) => amount(buy.marketplace_fee) + amount(sell.sale_price) * royalty_rate(p),
        None => amount(buy.marketplace_fee) + amount(buy.royalties_fee),
    }
}

/// The realised income on a token bought in `buy` and sold in `sell`.
pub open spec fn income_row(buy: TradeSide, sell: TradeSide, pct: Option<u64>) -> IncomeView {
    let fee = paid_fee(buy, sell, pct);
    IncomeView {
        token_id: buy.token_id,
        buy_price: buy.sale_price,
        sell_price: sell.sale_price,
        realized_gains: usei(amount(sell.sale_price) - amount(buy.sale_price) - fee),
        holding_time: signed_decimal(whole_minutes(time_of(buy), time_of(sell))),
        paid_fee: usei(fee),
    }
}

/// The income can be worked out: the amounts read, no step leaves `i64`,
/// and both times parse.
pub open spec fn income_row_defined(buy: TradeSide, sell: TradeSide, pct: Option<u64>) -> bool {
    &&& unit_i64(sell.sale_price) is Some
    &&& unit_i64(buy.sale_price) is Some
    &&& unit_i64(buy.marketplace_fee) is Some
    &&& match pct {
        Some(p) => fits_i64(amount(sell.sale_price) * royalty_rate(p)),
        None => unit_i64(buy.royalties_fee) is Some,
    }
    &&& fits_i64(paid_fee(buy, sell, pct))
    &&& fits_i64(amount(sell.sale_price) - amount(buy.sale_price))
    &&& fits_i64(amount(sell.sale_price) - amount(buy.sale_price) - paid_fee(buy, sell, pct))
    &&& rfc3339_utc(buy.ts) is Some
    &&& rfc3339_utc(sell.ts) is Some
    &&& fits_i64(time_of(sell).secs - time_of(buy).secs)
    &&& fits_i64(time_of(sell).secs - time_of(buy).secs - 1)
}

fn minutes_between(a: &UtcStamp, b: &UtcStamp) -> (r: i64)
    requires
        fits_i64(b.secs - a.secs),
        fits_i64(b.secs - a.secs - 1),
    ensures
        r as int == whole_minutes(*a, *b),
{
    let (fs, rem): (i64, i64) = if b.nanos < a.nanos {
        (b.secs - a.secs - 1, (b.nanos as i64) + 1_000_000_000 - (a.nanos as i64))
    } else {
        (b.secs - a.secs, (b.nanos as i64) - (a.nanos as i64))
    };
    let s: i64 = if fs < 0 && rem > 0 {
        fs + 1
    } else {
        fs
    };
    if s >= 0 {
        s / 60
    } else {
        let m: i128 = -(s as i128);
        -((m / 60) as i64)
    }
}

/// The realised income on a token bought in `buy` and sold in `sell`, given
/// the NFT's royalty percentage where its details could be read; `None`
/// where an amount does not read, a step leaves `i64` or a time does not
/// parse.
pub fn income_nft(buy: &NftTransaction_, sell: &NftTransaction_, royalty_percentage: Option<u64>) -> (r: Option<IncomeNft>)
    ensures
        r is Some <==> income_row_defined(buy@, sell@, royalty_percentage),
        r matches Some(row) ==> row@ == income_row(buy@, sell@, royalty_percentage),
{
    let sp = match unit_i64_exec(&sell.sale_price) {
        Some(v) => v,
        None => {
            return None;
        },
    };
    let bp = match unit_i64_exec(&buy.sale_price) {
        Some(v) => v,
        None => {
            return None;
        },
    };
    let mf = match unit_i64_exec(&buy.marketplace_fee) {
        Some(v) => v,
        None => {
            return None;
        },
    };
    let second: i64 = match royalty_percentage {
        Some(p) => {
            let rate: i64 = if p <= 0x7fff_ffff_ffff_ffffu64 {
                (p / 100) as i64
            } else {
                let m: u64 = (u64::MAX - p) + 1;
                -((m / 100) as i64)
            };
            match sp.checked_mul(rate) {
                Some(v) => v,
                None => {
                    return None;
                },
            }
        },
        None => match unit_i64_exec(&buy.royalties_fee) {
            Some(v) => v,
            None => {
                return None;
            },
        },
    };
    let fee = match mf.checked_add(second) {
        Some(v) => v,
        None => {
            return None;
        },
    };
    let d = match sp.checked_sub(bp) {
        Some(v) => v,
        None => {
            return None;
        },
    };
    let gain = match d.checked_sub(fee) {
        Some(v) => v,
        None => {
            return None;
        },
    };
    let tb = match parse_rfc3339(buy.ts.as_str()) {
        Some(t) => t,
        None => {
            return None;
        },
    };
    let ts = match parse_rfc3339(sell.ts.as_str()) {
        Some(t) => t,
        None => {
            return None;
        },
    };
    let span = match ts.secs.checked_sub(tb.secs) {
        Some(v) => v,
        None => {
            return None;
        },
    };
    if span == i64::MIN {
        return None;
    }
    let minutes = minutes_between(&tb, &ts);
    Some(IncomeNft {
        token_id: buy.token_id.clone(),
        buy_price: buy.sale_price.clone(),
        sell_price: sell.sale_price.clone(),
        realized_gains: with_unit_signed(gain),
        holding_time: i64_to_string(minutes),
        paid_fee: with_unit_signed(fee),
    })
}

// ---------------------------------------------------------------------------
// Income per collection
// ---------------------------------------------------------------------------

/// The views of a sequence of incomes.
pub open spec fn incomes_view(v: Seq<IncomeNft>) -> Seq<IncomeView> {
    v.map_values(|x: IncomeNft| x@)
}

/// The texts of a sequence of strings.
pub open spec fn texts(v: Seq<String>) -> Seq<Seq<char>> {
    v.map_values(|x: String| x@)
}

/// The entries of `cs`, each once, in the order they first occur.
pub open spec fn distinct_in(cs: Seq<Seq<char>>) -> Seq<Seq<char>>
    decreases cs.len(),
{
    if cs.len() == 0 {
        Seq::empty()
    } else {
        let p = distinct_in(cs.drop_last());
        if p.contains(cs.last()) {
            p
        } else {
            p.push(cs.last())
        }
    }
}

/// [`distinct_in`] holds no entry twice and holds exactly the entries of `cs`.
proof fn lemma_distinct_in(cs: Seq<Seq<char>>)
    ensures
        forall|a: int, b: int|
            0 <= a < b < distinct_in(cs).len() ==> (#[trigger] distinct_in(cs)[a]) != (#[trigger] distinct_in(cs)[b]),
        forall|x: Seq<char>| #![trigger distinct_in(cs).contains(x)] #![trigger cs.contains(x)]
            distinct_in(cs).contains(x) <==> cs.contains(x),
    decreases cs.len(),
{
    if cs.len() > 0 {
        let q = cs.drop_last();
        let l = cs.last();
        lemma_distinct_in(q);
        let p = distinct_in(q);
        assert forall|x: Seq<char>| cs.contains(x) <==> (#[trigger] q.contains(x) || x == l) by {
            if cs.contains(x) {
                let i = choose|i: int| 0 <= i < cs.len() && cs[i] == x;
                if i < cs.len() - 1 {
                    assert(q[i] == x);
                }
            }
            if q.contains(x) {
                let i = choose|i: int| 0 <= i < q.len() && q[i] == x;
                assert(cs[i] == x);
            }
            if x == l {
                assert(cs[cs.len() - 1] == x);
            }
        }
        if !p.contains(l) {
            let d = p.push(l);
            assert forall|x: Seq<char>| d.contains(x) <==> (#[trigger] p.contains(x) || x == l) by {
                if d.contains(x) {
                    let i = choose|i: int| 0 <= i < d.len() && d[i] == x;
                    if i < p.len() {
                        assert(p[i] == x);
                    }
                }
                if p.contains(x) {
                    let i = choose|i: int| 0 <= i < p.len() && p[i] == x;
                    assert(d[i] == x);
                }
                if x == l {
                    assert(d[p.len() as int] == x);
                }
            }
            assert forall|a: int, b: int| 0 <= a < b < d.len() implies (#[trigger] d[a]) != (#[trigger] d[b]) by {
                if b == p.len() {
                    assert(d[a] == p[a]);
                    assert(p.contains(p[a]));
                } else {
                    assert(d[a] == p[a] && d[b] == p[b]);
                }
            }
        }
        assert forall|x: Seq<char>| #[trigger] distinct_in(cs).contains(x) <==> cs.contains(x) by {
            if x == l {
                assert(cs.contains(x));
            }
            assert(p.contains(x) <==> q.contains(x));
        }
    }
}

/// The rows whose collection (`cs`, position by position) is `c`, in order.
pub open spec fn rows_for(cs: Seq<Seq<char>>, rows: Seq<IncomeView>, c: Seq<char>) -> Seq<IncomeView>
    decreases cs.len(),
{
    if cs.len() == 0 {
        Seq::empty()
    } else {
        let p = rows_for(cs.drop_last(), rows, c);
        if cs.last() == c {
            p.push(rows[cs.len() - 1])
        } else {
            p
        }
    }
}

fn copy_income(x: &IncomeNft) -> (r: IncomeNft)
    ensures
        r@ == x@,
{
    IncomeNft {
        token_id: x.token_id.clone(),
        buy_price: x.buy_price.clone(),
        sell_price: x.sell_price.clone(),
        realized_gains: x.realized_gains.clone(),
        holding_time: x.holding_time.clone(),
        paid_fee: x.paid_fee.clone(),
    }
}

/// The incomes grouped by collection: each collection once, in the order it
/// first occurs, with its incomes in order. `collections[i]` is the
/// collection of `rows[i]`.
pub fn group_by_collection(collections: &Vec<String>, rows: &Vec<IncomeNft>) -> (r: Vec<(String, Vec<IncomeNft>)>)
    requires
        collections@.len() == rows@.len(),
    ensures
        r@.len() == distinct_in(texts(collections@)).len(),
        forall|m: int|
            0 <= m < r@.len() ==> (#[trigger] r@[m]).0@ == distinct_in(texts(collections@))[m]
                && incomes_view(r@[m].1@) == rows_for(
                texts(collections@),
                incomes_view(rows@),
                distinct_in(texts(collections@))[m],
            ),
            forall|a: int, b: int| 0 <= a < b < r@.len() ==> (#[trigger] r@[a]).0@ != (#[trigger] r@[b]).0@,
            forall|i: int|
                0 <= i < collections@.len() ==> exists|m: int|
                    0 <= m < r@.len() && (#[trigger] r@[m]).0@ == (#[trigger] collections@[i])@,
{
    let ghost cv = texts(collections@);
    proof {
        lemma_distinct_in(cv);
    }
    let mut keys: Vec<String> = Vec::new();
    let mut i: usize = 0;
    while i < collections.len()
        invariant
            i <= collections.len(),
            cv == texts(collections@),
            texts(keys@) == distinct_in(cv.take(i as int)),
        decreases collections.len() - i,
    {
        proof {
            assert(cv.take(i + 1).drop_last() =~= cv.take(i as int));
            assert(cv.take(i + 1).last() == collections@[i as int]@);
        }
        let ghost p = texts(keys@);
        let mut seen = false;
        let mut m: usize = 0;
        while m < keys.len()
            invariant
                m <= keys.len(),
                i < collections@.len(),
                p == texts(keys@),
                !seen ==> forall|q: int| 0 <= q < m ==> p[q] != collections@[i as int]@,
                seen ==> p.contains(collections@[i as int]@),
            decreases keys.len() - m,
        {
            if keys[m] == collections[i] {
                proof {
                    assert(p[m as int] == collections@[i as int]@);
                }
                seen = true;
            }
            m = m + 1;
        }
        if !seen {
            keys.push(collections[i].clone());
            proof {
                assert(texts(keys@) =~= p.push(collections@[i as int]@));
            }
        }
        i = i + 1;
    }
    proof {
        assert(cv.take(collections.len() as int) =~= cv);
    }
    let ghost rv = incomes_view(rows@);
    let mut out: Vec<(String, Vec<IncomeNft>)> = Vec::new();
    let mut k: usize = 0;
    while k < keys.len()
        invariant
            k <= keys.len(),
            cv == texts(collections@),
            rv == incomes_view(rows@),
            collections@.len() == rows@.len(),
            texts(keys@) == distinct_in(cv),
            out@.len() == k,
            forall|m: int|
                0 <= m < k ==> (#[trigger] out@[m]).0@ == distinct_in(cv)[m] && incomes_view(out@[m].1@)
                    == rows_for(cv, rv, distinct_in(cv)[m]),
        decreases keys.len() - k,
    {
        let c = &keys[k];
        proof {
            assert(texts(keys@)[k as int] == c@);
        }
        let mut group: Vec<IncomeNft> = Vec::new();
        let mut j: usize = 0;
        while j < collections.len()
            invariant
                j <= collections.len(),
                cv == texts(collections@),
                rv == incomes_view(rows@),
                collections@.len() == rows@.len(),
                incomes_view(group@) == rows_for(cv.take(j as int), rv, c@),
            decreases collections.len() - j,
        {
            proof {
                assert(cv.take(j + 1).drop_last() =~= cv.take(j as int));
                assert(cv.take(j + 1).last() == collections@[j as int]@);
                assert(rv[j as int] == rows@[j as int]@);
            }
            if collections[j] == *c {
                let ghost g0 = group@;
                group.push(copy_income(&rows[j]));
                proof {
                    assert(incomes_view(group@) =~= incomes_view(g0).push(rv[j as int]));
                }
            }
            j = j + 1;
        }
        proof {
            assert(cv.take(collections.len() as int) =~= cv);
        }
        let ghost o0 = out@;
        out.push((c.clone(), group));
        proof {
            assert forall|m: int| 0 <= m < k + 1 implies (#[trigger] out@[m]).0@ == distinct_in(cv)[m]
                && incomes_view(out@[m].1@) == rows_for(cv, rv, distinct_in(cv)[m]) by {
                if m < k {
                    assert(out@[m] == o0[m]);
                }
            }
        }
        k = k + 1;
    }
    proof {
        let d = distinct_in(cv);
        assert forall|a: int, b: int| 0 <= a < b < out@.len() implies (#[trigger] out@[a]).0@ != (
        #[trigger] out@[b]).0@ by {
            assert(d[a] != d[b]);
        }
        assert forall|i: int| 0 <= i < collections@.len() implies exists|m: int|
            0 <= m < out@.len() && (#[trigger] out@[m]).0@ == (#[trigger] collections@[i])@ by {
            assert(cv[i] == collections@[i]@);
            assert(cv.contains(cv[i]));
            assert(d.contains(cv[i]));
            let m = choose|m: int| 0 <= m < d.len() && d[m] == cv[i];
            assert(out@[m].0@ == d[m]);
        }
    }
    out
}

/// The income of one collection as it is shown: the collection's name and
/// symbol, its floor price (the price of its first stored listing, where
/// listings are stored) and its incomes. `None` where listings are stored
/// but there are none.
pub fn income_collection(
    collection: String,
    rows: Vec<IncomeNft>,
    info: CollectionInfo,
    listings: Option<Vec<OnlyCreateAuction>>,
) -> (r: Option<IncomeNfts>)
    ensures
        r is None <==> (listings matches Some(v) && v@.len() == 0),
        r matches Some(x) ==> {
            &&& x.name == info.name
            &&& x.symbol == info.symbol
            &&& x.collection == collection
            &&& x.income_nfts == rows
            &&& opt_view(x.floor_price) == match listings {
                Some(v) => Some(v@[0].auction_price@),
                None => None,
            }
        },
{
    let floor_price = match &listings {
        Some(v) => {
            if v.len() == 0 {
                return None;
            }
            Some(v[0].auction_price.clone())
        },
        None => None,
    };
    Some(IncomeNfts { name: info.name, symbol: info.symbol, collection, floor_price, income_nfts: rows })
}

} // verus!

verus! {

proof fn lemma_record_of_token(s: Seq<TradeSide>, k: (Seq<char>, Seq<char>))
    ensures
        record_of(s, k) matches Some(r) ==> token_of(r) == k,
    decreases s.len(),
{
    if s.len() > 0 {
        lemma_record_of_token(s.drop_last(), k);
    }
}

proof fn lemma_sold_after(buys: Seq<TradeSide>, sells: Seq<TradeSide>)
    ensures
        forall|k: int|
            0 <= k < sold_after(buys, sells).len() ==> token_of(#[trigger] sold_after(buys, sells)[k].0)
                == token_of(sold_after(buys, sells)[k].1) && later(
                time_of(sold_after(buys, sells)[k].1),
                time_of(sold_after(buys, sells)[k].0),
            ),
    decreases buys.len(),
{
    if buys.len() > 0 {
        let prev = sold_after(buys.drop_last(), sells);
        lemma_sold_after(buys.drop_last(), sells);
        lemma_record_of_token(sells, token_of(buys.last()));
        let cur = sold_after(buys, sells);
        assert forall|k: int| 0 <= k < cur.len() implies token_of(#[trigger] cur[k].0) == token_of(
            cur[k].1,
        ) && later(time_of(cur[k].1), time_of(cur[k].0)) by {
            if k < prev.len() {
                assert(cur[k] == prev[k]);
            }
        }
    }
}

/// Realised income only pairs a purchase with a later sale of the same
/// token.
pub proof fn law_income_sold_after_bought(
    wallet: Seq<char>,
    txs: Seq<NFTtransaction>,
    fees: Seq<Option<String>>,
)
    ensures
        forall|k: int|
            0 <= k < income_pairs(wallet, txs, fees).len() ==> token_of(
                #[trigger] income_pairs(wallet, txs, fees)[k].0,
            ) == token_of(income_pairs(wallet, txs, fees)[k].1) && later(
                time_of(income_pairs(wallet, txs, fees)[k].1),
                time_of(income_pairs(wallet, txs, fees)[k].0),
            ),
{
    lemma_sold_after(
        latest_records(side_records(wallet, txs, fees, 1)),
        latest_records(side_records(wallet, txs, fees, 2)),
    );
}


/// In the income records the wallet's side in a trade that moves an NFT is
/// decided by the transfer alone: a purchase where the wallet receives the
/// NFT, a sale where it only sends it, no record where it is neither party;
/// the record carries the transfer's collection, token and time. A mint is a
/// sale of the minter; a cancelled listing makes no record.
pub proof fn law_income_side_follows_transfer(wallet: Seq<char>, t: _NftTransaction, fee: Option<String>)
    ensures
        moved_by(t) is Some && !(t is CancelAuction) ==> {
            let tr = moved_by(t)->0;
            &&& side_record(wallet, t, fee).0 == party_of(tr, wallet)
            &&& side_record(wallet, t, fee).1.collection == tr.collection@
            &&& side_record(wallet, t, fee).1.token_id == tr.token_id@
            &&& side_record(wallet, t, fee).1.ts == tr.ts@
        },
        t is Mint ==> side_record(wallet, t, fee).0 == 2,
        t is CancelAuction || t is Unkonw ==> side_record(wallet, t, fee).0 == 0,
{
}

} // verus!
