//! Reading NFT trades out of the events of a transaction log.
//!
//! A marketplace contract reports each trade as attributes of a `wasm`
//! event (and of events such as `wasm-buy_now`) at fixed offsets from a
//! marker attribute; each reader below picks the fields at those offsets.
use vstd::prelude::*;
use crate::model::{
    AcceptBidNft, Attribute, BatchBidsNft, EventView, HashData, Log, NftMessage, NftMessageView,
    copy_attributes, copy_events, events_view, CancelAuctionNft, CretaeAuctionNft, Event, FixedSellNft,
    MintNFt, OnlyCreateAuction, PurcjaseCartNft, TransferNft,
};
use crate::text::is_lit;
use crate::select::{
    any_type, any_value, find_type, first_attrs, has_type, has_value,
    as_ints, key_positions, key_pred, key_value_positions, key_value_pred, lemma_positions,
    select_attrs, value_positions, value_pred, positions,
};

verus! {

/// `Some(v)` holding the records `s` where there is at least one, else `None`.
pub open spec fn some_if_any<T>(r: Option<Vec<T>>, s: Seq<T>) -> bool {
    match r {
        Some(v) => s.len() > 0 && v@ == s,
        None => s.len() == 0,
    }
}

fn some_if_nonempty<T>(v: Vec<T>) -> (r: Option<Vec<T>>)
    ensures
        some_if_any(r, v@),
{
    if v.len() > 0 {
        Some(v)
    } else {
        None
    }
}

// ---------------------------------------------------------------------------
// Records at fixed offsets from a marker attribute
// ---------------------------------------------------------------------------

/// A mint whose `mint_nft` marker is attribute `i`.
pub open spec fn mint_at(a: Seq<Attribute>, i: int, tx: String, ts: String) -> MintNFt {
    MintNFt {
        collection: a[i + 1].value,
        recipient: a[i + 3].value,
        token_id: a[i + 4].value,
        price: a[i + 5].value,
        ts: ts,
        tx: tx,
    }
}

/// The mints of a `wasm` event, one per attribute whose value is `mint_nft`.
pub open spec fn mint_records(a: Seq<Attribute>, tx: String, ts: String) -> Seq<MintNFt> {
    value_positions(a, "mint_nft"@).map_values(|i: int| mint_at(a, i, tx, ts))
}

/// Every `mint_nft` marker has its five following attributes.
pub open spec fn mint_defined(a: Seq<Attribute>) -> bool {
    forall|i: int| 0 <= i < a.len() && #[trigger] a[i].value@ == "mint_nft"@ ==> i + 5 < a.len()
}

/// The NFTs minted in a `wasm` event, or `None` if it mints none.
pub fn mint_nft_datas(wasm_attrs: Vec<Attribute>, tx: String, ts: String) -> (r: Option<
    Vec<MintNFt>,
>)
    requires
        mint_defined(wasm_attrs@),
    ensures
        some_if_any(r, mint_records(wasm_attrs@, tx, ts)),
{
    let a = &wasm_attrs;
    let pos = select_attrs(a, 0, "", "mint_nft");
    let ghost ps = value_positions(a@, "mint_nft"@);
    proof {
        lemma_positions(a@.len(), value_pred(a@, "mint_nft"@));
    }
    let mut out: Vec<MintNFt> = Vec::new();
    let alen = a.len();
    let mut k: usize = 0;
    while k < pos.len()
        invariant
            k <= pos.len(),
            alen == a@.len(),
            as_ints(pos@) == ps,
            ps == value_positions(a@, "mint_nft"@),
            mint_defined(a@),
            forall|j: int|
                0 <= j < ps.len() ==> 0 <= #[trigger] ps[j] < a@.len() && a@[ps[j]].value@
                    == "mint_nft"@,
            out@ == ps.take(k as int).map_values(|i: int| mint_at(a@, i, tx, ts)),
        decreases pos.len() - k,
    {
        let i = pos[k];
        proof {
            assert(ps[k as int] == i as int);
            assert(a@[i as int].value@ == "mint_nft"@);
        }
        let m = MintNFt {
            collection: a[i + 1].value.clone(),
            recipient: a[i + 3].value.clone(),
            token_id: a[i + 4].value.clone(),
            price: a[i + 5].value.clone(),
            ts: ts.clone(),
            tx: tx.clone(),
        };
        out.push(m);
        proof {
            assert(ps.take(k + 1) =~= ps.take(k as int).push(i as int));
            assert(out@ =~= ps.take(k + 1).map_values(|i: int| mint_at(a@, i, tx, ts)));
        }
        k = k + 1;
    }
    proof {
        assert(ps.take(pos.len() as int) =~= ps);
    }
    some_if_nonempty(out)
}

/// A transfer whose `action = transfer_nft` marker is attribute `i`.
pub open spec fn transfer_at(a: Seq<Attribute>, i: int, tx: String, ts: String) -> TransferNft {
    TransferNft {
        collection: a[i - 1].value,
        sender: a[i + 1].value,
        recipient: a[i + 2].value,
        token_id: a[i + 3].value,
        ts: ts,
        tx: tx,
    }
}

/// The transfers of a `wasm` event, one per `action = transfer_nft`.
pub open spec fn transfer_records(a: Seq<Attribute>, tx: String, ts: String) -> Seq<TransferNft> {
    key_value_positions(a, "action"@, "transfer_nft"@).map_values(
        |i: int| transfer_at(a, i, tx, ts),
    )
}

/// Every `action = transfer_nft` marker has one attribute before it and
/// three after it.
pub open spec fn transfer_defined(a: Seq<Attribute>) -> bool {
    forall|i: int|
        0 <= i < a.len() && #[trigger] a[i].key@ == "action"@ && a[i].value@ == "transfer_nft"@
            ==> 1 <= i && i + 3 < a.len()
}

/// The plain transfers of a `wasm` event, or `None` if it has none.
pub fn only_transfer_nft(wasm_attrs: Vec<Attribute>, tx: String, ts: String) -> (r: Option<
    Vec<TransferNft>,
>)
    requires
        transfer_defined(wasm_attrs@),
    ensures
        some_if_any(r, transfer_records(wasm_attrs@, tx, ts)),
{
    let a = &wasm_attrs;
    let pos = select_attrs(a, 1, "action", "transfer_nft");
    let ghost ps = key_value_positions(a@, "action"@, "transfer_nft"@);
    proof {
        lemma_positions(a@.len(), key_value_pred(a@, "action"@, "transfer_nft"@));
    }
    let mut out: Vec<TransferNft> = Vec::new();
    let alen = a.len();
    let mut k: usize = 0;
    while k < pos.len()
        invariant
            k <= pos.len(),
            alen == a@.len(),
            as_ints(pos@) == ps,
            ps == key_value_positions(a@, "action"@, "transfer_nft"@),
            transfer_defined(a@),
            forall|j: int|
                0 <= j < ps.len() ==> 0 <= #[trigger] ps[j] < a@.len() && a@[ps[j]].key@
                    == "action"@ && a@[ps[j]].value@ == "transfer_nft"@,
            out@ == ps.take(k as int).map_values(|i: int| transfer_at(a@, i, tx, ts)),
        decreases pos.len() - k,
    {
        let i = pos[k];
        proof {
            assert(ps[k as int] == i as int);
            assert(a@[i as int].key@ == "action"@ && a@[i as int].value@ == "transfer_nft"@);
        }
        let m = TransferNft {
            collection: a[i - 1].value.clone(),
            sender: a[i + 1].value.clone(),
            recipient: a[i + 2].value.clone(),
            token_id: a[i + 3].value.clone(),
            ts: ts.clone(),
            tx: tx.clone(),
        };
        out.push(m);
        proof {
            assert(ps.take(k + 1) =~= ps.take(k as int).push(i as int));
            assert(out@ =~= ps.take(k + 1).map_values(|i: int| transfer_at(a@, i, tx, ts)));
        }
        k = k + 1;
    }
    proof {
        assert(ps.take(pos.len() as int) =~= ps);
    }
    some_if_nonempty(out)
}

/// A fixed-price sale whose `action = fixed_sell` marker is attribute `i`.
pub open spec fn fixed_sell_at(a: Seq<Attribute>, i: int, tx: String, ts: String) -> FixedSellNft {
    FixedSellNft {
        transfer: TransferNft {
            collection: a[i + 7].value,
            sender: a[i + 9].value,
            recipient: a[i + 10].value,
            token_id: a[i + 3].value,
            ts: ts,
            tx: tx,
        },
        price: a[i + 4].value,
    }
}

/// The fixed-price sales of a `wasm` event, one per `action = fixed_sell`.
pub open spec fn fixed_sell_records(a: Seq<Attribute>, tx: String, ts: String) -> Seq<
    FixedSellNft,
> {
    key_value_positions(a, "action"@, "fixed_sell"@).map_values(
        |i: int| fixed_sell_at(a, i, tx, ts),
    )
}

/// Every `action = fixed_sell` marker has its ten following attributes.
pub open spec fn fixed_sell_defined(a: Seq<Attribute>) -> bool {
    forall|i: int|
        0 <= i < a.len() && #[trigger] a[i].key@ == "action"@ && a[i].value@ == "fixed_sell"@
            ==> i + 10 < a.len()
}

/// The fixed-price sales of a `wasm` event, or `None` if it has none.
pub fn fixed_sell_nfts(wasm_attrs: Vec<Attribute>, tx: String, ts: String) -> (r: Option<
    Vec<FixedSellNft>,
>)
    requires
        fixed_sell_defined(wasm_attrs@),
    ensures
        some_if_any(r, fixed_sell_records(wasm_attrs@, tx, ts)),
{
    let a = &wasm_attrs;
    let pos = select_attrs(a, 1, "action", "fixed_sell");
    let ghost ps = key_value_positions(a@, "action"@, "fixed_sell"@);
    proof {
        lemma_positions(a@.len(), key_value_pred(a@, "action"@, "fixed_sell"@));
    }
    let mut out: Vec<FixedSellNft> = Vec::new();
    let alen = a.len();
    let mut k: usize = 0;
    while k < pos.len()
        invariant
            k <= pos.len(),
            alen == a@.len(),
            as_ints(pos@) == ps,
            ps == key_value_positions(a@, "action"@, "fixed_sell"@),
            fixed_sell_defined(a@),
            forall|j: int|
                0 <= j < ps.len() ==> 0 <= #[trigger] ps[j] < a@.len() && a@[ps[j]].key@
                    == "action"@ && a@[ps[j]].value@ == "fixed_sell"@,
            out@ == ps.take(k as int).map_values(|i: int| fixed_sell_at(a@, i, tx, ts)),
        decreases pos.len() - k,
    {
        let i = pos[k];
        proof {
            assert(ps[k as int] == i as int);
            assert(a@[i as int].key@ == "action"@ && a@[i as int].value@ == "fixed_sell"@);
        }
        let m = FixedSellNft {
            transfer: TransferNft {
                collection: a[i + 7].value.clone(),
                sender: a[i + 9].value.clone(),
                recipient: a[i + 10].value.clone(),
                token_id: a[i + 3].value.clone(),
                ts: ts.clone(),
                tx: tx.clone(),
            },
            price: a[i + 4].value.clone(),
        };
        out.push(m);
        proof {
            assert(ps.take(k + 1) =~= ps.take(k as int).push(i as int));
            assert(out@ =~= ps.take(k + 1).map_values(|i: int| fixed_sell_at(a@, i, tx, ts)));
        }
        k = k + 1;
    }
    proof {
        assert(ps.take(pos.len() as int) =~= ps);
    }
    some_if_nonempty(out)
}

/// An auction listing whose `token_id` attribute is attribute `i`.
pub open spec fn listing_at(a: Seq<Attribute>, i: int, ts: String) -> OnlyCreateAuction {
    OnlyCreateAuction {
        collection_address: a[i - 1].value,
        token_id: a[i].value,
        auction_price: a[i + 3].value,
        ts: ts,
    }
}

/// The listings of a `wasm-create_auction` event, one per `token_id` key.
pub open spec fn listing_records(a: Seq<Attribute>, ts: String) -> Seq<OnlyCreateAuction> {
    key_positions(a, "token_id"@).map_values(|i: int| listing_at(a, i, ts))
}

/// Every `token_id` attribute has one attribute before it and three after.
pub open spec fn listing_defined(a: Seq<Attribute>) -> bool {
    forall|i: int| 0 <= i < a.len() && #[trigger] a[i].key@ == "token_id"@ ==> 1 <= i && i + 3 < a.len()
}

/// The auction listings of a `wasm-create_auction` event, or `None`.
pub fn only_create_aucton_nft(wasm_create_auction_attrs: Vec<Attribute>, ts: String) -> (r: Option<
    Vec<OnlyCreateAuction>,
>)
    requires
        listing_defined(wasm_create_auction_attrs@),
    ensures
        some_if_any(r, listing_records(wasm_create_auction_attrs@, ts)),
{
    let a = &wasm_create_auction_attrs;
    let pos = select_attrs(a, 2, "token_id", "");
    let ghost ps = key_positions(a@, "token_id"@);
    proof {
        lemma_positions(a@.len(), key_pred(a@, "token_id"@));
    }
    let mut out: Vec<OnlyCreateAuction> = Vec::new();
    let alen = a.len();
    let mut k: usize = 0;
    while k < pos.len()
        invariant
            k <= pos.len(),
            alen == a@.len(),
            as_ints(pos@) == ps,
            ps == key_positions(a@, "token_id"@),
            listing_defined(a@),
            forall|j: int|
                0 <= j < ps.len() ==> 0 <= #[trigger] ps[j] < a@.len() && a@[ps[j]].key@
                    == "token_id"@,
            out@ == ps.take(k as int).map_values(|i: int| listing_at(a@, i, ts)),
        decreases pos.len() - k,
    {
        let i = pos[k];
        proof {
            assert(ps[k as int] == i as int);
            assert(a@[i as int].key@ == "token_id"@);
        }
        let m = OnlyCreateAuction {
            collection_address: a[i - 1].value.clone(),
            token_id: a[i].value.clone(),
            auction_price: a[i + 3].value.clone(),
            ts: ts.clone(),
        };
        out.push(m);
        proof {
            assert(ps.take(k + 1) =~= ps.take(k as int).push(i as int));
            assert(out@ =~= ps.take(k + 1).map_values(|i: int| listing_at(a@, i, ts)));
        }
        k = k + 1;
    }
    proof {
        assert(ps.take(pos.len() as int) =~= ps);
    }
    some_if_nonempty(out)
}

} // verus!

verus! {

// ---------------------------------------------------------------------------
// Records that pair a `token_id` of the `wasm` event with attributes of a
// second event
// ---------------------------------------------------------------------------

/// Where the pairing of token ids stands after some of them.
pub struct PairRun {
    /// `(w, t, j)`: attribute `w` of the `wasm` event anchors the transfer
    /// fields, attribute `t` of it is the token id, and attribute `j` of the
    /// second event is the match.
    pub pairs: Seq<(int, int, int)>,
    /// How many matches have been found so far.
    pub counter: int,
    /// Whether every anchor looked up so far existed.
    pub ok: bool,
}

/// The pairing after the first `t` token ids of `a` (the `wasm` attributes).
///
/// The token ids are taken in order. Before each, the anchor is the
/// `counter`-th token id of `a`; every attribute of `o` whose key is `key`
/// and whose value is this token id is a match, and each match moves the
/// counter on by one.
pub open spec fn pair_run(a: Seq<Attribute>, o: Seq<Attribute>, key: Seq<char>, t: nat) -> PairRun
    decreases t,
{
    if t == 0 {
        PairRun { pairs: Seq::empty(), counter: 0, ok: true }
    } else {
        let prev = pair_run(a, o, key, (t - 1) as nat);
        let toks = key_positions(a, "token_id"@);
        if !prev.ok || prev.counter >= toks.len() {
            PairRun { pairs: prev.pairs, counter: prev.counter, ok: false }
        } else {
            let w = toks[prev.counter];
            let tp = toks[t - 1];
            let ms = key_value_positions(o, key, a[tp].value@);
            PairRun {
                pairs: prev.pairs + ms.map_values(|j: int| (w, tp, j)),
                counter: prev.counter + ms.len(),
                ok: true,
            }
        }
    }
}

/// The pairing of all token ids of `a` with the attributes of `o`.
pub open spec fn pairs_of(a: Seq<Attribute>, o: Seq<Attribute>, key: Seq<char>) -> PairRun {
    pair_run(a, o, key, key_positions(a, "token_id"@).len())
}

pub open spec fn as_triples(v: Seq<(usize, usize, usize)>) -> Seq<(int, int, int)> {
    v.map_values(|x: (usize, usize, usize)| (x.0 as int, x.1 as int, x.2 as int))
}

/// The pairs `(anchor, token id, match)` of `a` with `o`, or `None` where an
/// anchor is missing.
pub fn match_pairs(a: &Vec<Attribute>, o: &Vec<Attribute>, key: &str) -> (r: Option<
    Vec<(usize, usize, usize)>,
>)
    ensures
        match r {
            Some(v) => pairs_of(a@, o@, key@).ok && as_triples(v@) == pairs_of(a@, o@, key@).pairs
                && forall|k: int|
                0 <= k < v@.len() ==> (#[trigger] v@[k]).0 < a@.len() && v@[k].1 < a@.len()
                    && v@[k].2 < o@.len(),
            None => !pairs_of(a@, o@, key@).ok,
        },
{
    let toks = select_attrs(a, 2, "token_id", "");
    let ghost tk = key_positions(a@, "token_id"@);
    proof {
        lemma_positions(a@.len(), key_pred(a@, "token_id"@));
    }
    let mut out: Vec<(usize, usize, usize)> = Vec::new();
    let mut counter: usize = 0;
    let mut t: usize = 0;
    while t < toks.len()
        invariant
            t <= toks.len(),
            as_ints(toks@) == tk,
            tk == key_positions(a@, "token_id"@),
            forall|j: int| 0 <= j < tk.len() ==> 0 <= #[trigger] tk[j] < a@.len(),
            pair_run(a@, o@, key@, t as nat).ok,
            as_triples(out@) == pair_run(a@, o@, key@, t as nat).pairs,
            pair_run(a@, o@, key@, t as nat).counter <= usize::MAX ==> counter == pair_run(
                a@,
                o@,
                key@,
                t as nat,
            ).counter,
            pair_run(a@, o@, key@, t as nat).counter > usize::MAX ==> counter == usize::MAX,
            forall|k: int|
                0 <= k < out@.len() ==> (#[trigger] out@[k]).0 < a@.len() && out@[k].1 < a@.len()
                    && out@[k].2 < o@.len(),
        decreases toks.len() - t,
    {
        let ghost prev = pair_run(a@, o@, key@, t as nat);
        if counter >= toks.len() {
            proof {
                assert(pair_run(a@, o@, key@, (t + 1) as nat).ok == false);
                assert(!pair_run(a@, o@, key@, (t + 1) as nat).ok);
                lemma_run_stays_failed(a@, o@, key@, (t + 1) as nat, tk.len());
            }
            return None;
        }
        let w = toks[counter];
        let tp = toks[t];
        proof {
            assert(tk[counter as int] == w as int);
            assert(tk[t as int] == tp as int);
        }
        let ms = select_attrs(o, 1, key, a[tp].value.as_str());
        let ghost msp = key_value_positions(o@, key@, a@[tp as int].value@);
        proof {
            lemma_positions(o@.len(), key_value_pred(o@, key@, a@[tp as int].value@));
        }
        let ghost out0 = out@;
        let mut q: usize = 0;
        while q < ms.len()
            invariant
                q <= ms.len(),
                as_ints(ms@) == msp,
                forall|j: int| 0 <= j < msp.len() ==> 0 <= #[trigger] msp[j] < o@.len(),
                w < a@.len(),
                tp < a@.len(),
                out@.len() == out0.len() + q,
                as_triples(out@) == as_triples(out0) + msp.take(q as int).map_values(
                    |j: int| (w as int, tp as int, j),
                ),
                forall|k: int|
                    0 <= k < out@.len() ==> (#[trigger] out@[k]).0 < a@.len() && out@[k].1
                        < a@.len() && out@[k].2 < o@.len(),
            decreases ms.len() - q,
        {
            let j = ms[q];
            proof {
                assert(msp[q as int] == j as int);
            }
            let ghost before = out@;
            out.push((w, tp, j));
            proof {
                assert(msp.take(q + 1) =~= msp.take(q as int).push(j as int));
                assert(as_triples(out@) =~= as_triples(before).push((w as int, tp as int, j as int)));
                assert(as_triples(out@) =~= as_triples(out0) + msp.take(q + 1).map_values(
                    |j: int| (w as int, tp as int, j),
                ));
                assert forall|k: int| 0 <= k < out@.len() implies (#[trigger] out@[k]).0 < a@.len()
                    && out@[k].1 < a@.len() && out@[k].2 < o@.len() by {
                    if k < before.len() {
                        assert(out@[k] == before[k]);
                    }
                }
            }
            q = q + 1;
        }
        proof {
            assert(msp.take(ms.len() as int) =~= msp);
        }
        counter = if ms.len() > usize::MAX - counter {
            usize::MAX
        } else {
            counter + ms.len()
        };
        t = t + 1;
    }
    Some(out)
}

/// Once an anchor is missing the pairing stays failed.
proof fn lemma_run_stays_failed(a: Seq<Attribute>, o: Seq<Attribute>, key: Seq<char>, t: nat, n: nat)
    requires
        !pair_run(a, o, key, t).ok,
        t <= n,
    ensures
        !pair_run(a, o, key, n).ok,
    decreases n - t,
{
    if t < n {
        lemma_run_stays_failed(a, o, key, t + 1, n);
    }
}

} // verus!

verus! {

/// Every pairing of the `wasm` event with the first event of type `other`
/// is defined: both events exist, no anchor is missing, each anchor has four
/// attributes before it, and each match has `lo` attributes before it and
/// `hi` after it.
pub open spec fn paired_defined(
    es: Seq<EventView>,
    other: Seq<char>,
    key: Seq<char>,
    lo: int,
    hi: int,
) -> bool {
    &&& has_type(es, "wasm"@)
    &&& has_type(es, other)
    &&& pairs_of(first_attrs(es, "wasm"@), first_attrs(es, other), key).ok
    &&& forall|k: int|
        0 <= k < pairs_of(first_attrs(es, "wasm"@), first_attrs(es, other), key).pairs.len() ==> {
            let p = #[trigger] pairs_of(first_attrs(es, "wasm"@), first_attrs(es, other), key).pairs[k];
            &&& p.0 >= 4
            &&& p.2 >= lo
            &&& p.2 + hi < first_attrs(es, other).len()
        }
}

/// The transfer that the anchor `p.0` and token id `p.1` describe.
pub open spec fn paired_transfer(a: Seq<Attribute>, p: (int, int, int), tx: String, ts: String) -> TransferNft {
    TransferNft {
        collection: a[p.0 - 4].value,
        sender: a[p.0 - 2].value,
        recipient: a[p.0 - 1].value,
        token_id: a[p.1].value,
        ts: ts,
        tx: tx,
    }
}

fn transfer_of(a: &Vec<Attribute>, w: usize, tp: usize, tx: &String, ts: &String) -> (r: TransferNft)
    requires
        4 <= w < a@.len(),
        tp < a@.len(),
    ensures
        r == paired_transfer(a@, (w as int, tp as int, 0), *tx, *ts),
{
    TransferNft {
        collection: a[w - 4].value.clone(),
        sender: a[w - 2].value.clone(),
        recipient: a[w - 1].value.clone(),
        token_id: a[tp].value.clone(),
        ts: ts.clone(),
        tx: tx.clone(),
    }
}

} // verus!

verus! {

/// A batch-bid purchase: the transfer at the anchor, the price two attributes before the match.
pub open spec fn batch_bid_at(a: Seq<Attribute>, o: Seq<Attribute>, p: (int, int, int), tx: String, ts: String) -> BatchBidsNft {
    BatchBidsNft {
        transfer: paired_transfer(a, p, tx, ts),
        sale_price: o[p.2 - 2].value,
    }
}

/// The batch-bid purchases of a log, one per `nft_token_id` match in its `wasm-buy_now` event.
pub open spec fn batch_bid_records(es: Seq<EventView>, tx: String, ts: String) -> Seq<BatchBidsNft> {
    let a = first_attrs(es, "wasm"@);
    let o = first_attrs(es, "wasm-buy_now"@);
    pairs_of(a, o, "nft_token_id"@).pairs.map_values(|p: (int, int, int)| batch_bid_at(a, o, p, tx, ts))
}

/// The NFTs bought through batch bids in a log, or `None` if there are none.
pub fn batch_bids_nfts(events: Vec<Event>, tx: String, ts: String) -> (r: Option<Vec<BatchBidsNft>>)
    requires
        paired_defined(events_view(events@), "wasm-buy_now"@, "nft_token_id"@, 2, 0),
    ensures
        some_if_any(r, batch_bid_records(events_view(events@), tx, ts)),
{
    let wi = match find_type(&events, "wasm") {
        Some(i) => i,
        None => {
            return None;
        },
    };
    let oi = match find_type(&events, "wasm-buy_now") {
        Some(i) => i,
        None => {
            return None;
        },
    };
    let a = &events[wi].attributes;
    let o = &events[oi].attributes;
    let ghost run = pairs_of(a@, o@, "nft_token_id"@);
    let pairs = match match_pairs(a, o, "nft_token_id") {
        Some(p) => p,
        None => {
            return None;
        },
    };
    let olen = o.len();
    let mut out: Vec<BatchBidsNft> = Vec::new();
    let mut k: usize = 0;
    while k < pairs.len()
        invariant
            k <= pairs.len(),
            olen == o@.len(),
            as_triples(pairs@) == run.pairs,
            run == pairs_of(a@, o@, "nft_token_id"@),
            forall|m: int|
                0 <= m < pairs@.len() ==> (#[trigger] pairs@[m]).0 < a@.len() && pairs@[m].1 < a@.len()
                    && pairs@[m].2 < o@.len(),
            forall|m: int|
                0 <= m < run.pairs.len() ==> {
                    let p = #[trigger] run.pairs[m];
                    &&& p.0 >= 4
                    &&& p.2 >= 2
                    &&& p.2 + 0 < o@.len()
                },
            out@ == run.pairs.take(k as int).map_values(|p: (int, int, int)| batch_bid_at(a@, o@, p, tx, ts)),
        decreases pairs.len() - k,
    {
        let (w, tp, j) = pairs[k];
        proof {
            assert(run.pairs[k as int] == (w as int, tp as int, j as int));
        }
        let transfer = transfer_of(a, w, tp, &tx, &ts);
        let m = BatchBidsNft {
            transfer: transfer,
            sale_price: o[j - 2].value.clone(),
        };
        out.push(m);
        proof {
            assert(run.pairs.take(k + 1) =~= run.pairs.take(k as int).push(run.pairs[k as int]));
            assert(out@ =~= run.pairs.take(k + 1).map_values(|p: (int, int, int)| batch_bid_at(a@, o@, p, tx, ts)));
        }
        k = k + 1;
    }
    proof {
        assert(run.pairs.take(pairs.len() as int) =~= run.pairs);
    }
    some_if_nonempty(out)
}

} // verus!

verus! {

/// An auction listing: the transfer at the anchor, the price three attributes after the match.
pub open spec fn create_auction_at(a: Seq<Attribute>, o: Seq<Attribute>, p: (int, int, int), tx: String, ts: String) -> CretaeAuctionNft {
    CretaeAuctionNft {
        transfer: paired_transfer(a, p, tx, ts),
        auction_price: o[p.2 + 3].value,
    }
}

/// The auction listings of a log, one per `token_id` match in its `wasm-create_auction` event.
pub open spec fn create_auction_records(es: Seq<EventView>, tx: String, ts: String) -> Seq<CretaeAuctionNft> {
    let a = first_attrs(es, "wasm"@);
    let o = first_attrs(es, "wasm-create_auction"@);
    pairs_of(a, o, "token_id"@).pairs.map_values(|p: (int, int, int)| create_auction_at(a, o, p, tx, ts))
}

/// The NFTs put up for auction in a log, or `None` if there are none.
pub fn create_auction_nft(events: Vec<Event>, tx: String, ts: String) -> (r: Option<Vec<CretaeAuctionNft>>)
    requires
        paired_defined(events_view(events@), "wasm-create_auction"@, "token_id"@, 0, 3),
    ensures
        some_if_any(r, create_auction_records(events_view(events@), tx, ts)),
{
    let wi = match find_type(&events, "wasm") {
        Some(i) => i,
        None => {
            return None;
        },
    };
    let oi = match find_type(&events, "wasm-create_auction") {
        Some(i) => i,
        None => {
            return None;
        },
    };
    let a = &events[wi].attributes;
    let o = &events[oi].attributes;
    let ghost run = pairs_of(a@, o@, "token_id"@);
    let pairs = match match_pairs(a, o, "token_id") {
        Some(p) => p,
        None => {
            return None;
        },
    };
    let olen = o.len();
    let mut out: Vec<CretaeAuctionNft> = Vec::new();
    let mut k: usize = 0;
    while k < pairs.len()
        invariant
            k <= pairs.len(),
            olen == o@.len(),
            as_triples(pairs@) == run.pairs,
            run == pairs_of(a@, o@, "token_id"@),
            forall|m: int|
                0 <= m < pairs@.len() ==> (#[trigger] pairs@[m]).0 < a@.len() && pairs@[m].1 < a@.len()
                    && pairs@[m].2 < o@.len(),
            forall|m: int|
                0 <= m < run.pairs.len() ==> {
                    let p = #[trigger] run.pairs[m];
                    &&& p.0 >= 4
                    &&& p.2 >= 0
                    &&& p.2 + 3 < o@.len()
                },
            out@ == run.pairs.take(k as int).map_values(|p: (int, int, int)| create_auction_at(a@, o@, p, tx, ts)),
        decreases pairs.len() - k,
    {
        let (w, tp, j) = pairs[k];
        proof {
            assert(run.pairs[k as int] == (w as int, tp as int, j as int));
        }
        let transfer = transfer_of(a, w, tp, &tx, &ts);
        let m = CretaeAuctionNft {
            transfer: transfer,
            auction_price: o[j + 3].value.clone(),
        };
        out.push(m);
        proof {
            assert(run.pairs.take(k + 1) =~= run.pairs.take(k as int).push(run.pairs[k as int]));
            assert(out@ =~= run.pairs.take(k + 1).map_values(|p: (int, int, int)| create_auction_at(a@, o@, p, tx, ts)));
        }
        k = k + 1;
    }
    proof {
        assert(run.pairs.take(pairs.len() as int) =~= run.pairs);
    }
    some_if_nonempty(out)
}

} // verus!

verus! {

/// A withdrawn auction: the transfer at the anchor, the price two attributes after the match.
pub open spec fn cancel_auction_at(a: Seq<Attribute>, o: Seq<Attribute>, p: (int, int, int), tx: String, ts: String) -> CancelAuctionNft {
    CancelAuctionNft {
        transfer: paired_transfer(a, p, tx, ts),
        auction_price: o[p.2 + 2].value,
    }
}

/// The withdrawn auctions of a log, one per `token_id` match in its `wasm-cancel_auction` event.
pub open spec fn cancel_auction_records(es: Seq<EventView>, tx: String, ts: String) -> Seq<CancelAuctionNft> {
    let a = first_attrs(es, "wasm"@);
    let o = first_attrs(es, "wasm-cancel_auction"@);
    pairs_of(a, o, "token_id"@).pairs.map_values(|p: (int, int, int)| cancel_auction_at(a, o, p, tx, ts))
}

/// The auctions withdrawn in a log, or `None` if there are none.
pub fn cancel_auction_nft(events: Vec<Event>, tx: String, ts: String) -> (r: Option<Vec<CancelAuctionNft>>)
    requires
        paired_defined(events_view(events@), "wasm-cancel_auction"@, "token_id"@, 0, 2),
    ensures
        some_if_any(r, cancel_auction_records(events_view(events@), tx, ts)),
{
    let wi = match find_type(&events, "wasm") {
        Some(i) => i,
        None => {
            return None;
        },
    };
    let oi = match find_type(&events, "wasm-cancel_auction") {
        Some(i) => i,
        None => {
            return None;
        },
    };
    let a = &events[wi].attributes;
    let o = &events[oi].attributes;
    let ghost run = pairs_of(a@, o@, "token_id"@);
    let pairs = match match_pairs(a, o, "token_id") {
        Some(p) => p,
        None => {
            return None;
        },
    };
    let olen = o.len();
    let mut out: Vec<CancelAuctionNft> = Vec::new();
    let mut k: usize = 0;
    while k < pairs.len()
        invariant
            k <= pairs.len(),
            olen == o@.len(),
            as_triples(pairs@) == run.pairs,
            run == pairs_of(a@, o@, "token_id"@),
            forall|m: int|
                0 <= m < pairs@.len() ==> (#[trigger] pairs@[m]).0 < a@.len() && pairs@[m].1 < a@.len()
                    && pairs@[m].2 < o@.len(),
            forall|m: int|
                0 <= m < run.pairs.len() ==> {
                    let p = #[trigger] run.pairs[m];
                    &&& p.0 >= 4
                    &&& p.2 >= 0
                    &&& p.2 + 2 < o@.len()
                },
            out@ == run.pairs.take(k as int).map_values(|p: (int, int, int)| cancel_auction_at(a@, o@, p, tx, ts)),
        decreases pairs.len() - k,
    {
        let (w, tp, j) = pairs[k];
        proof {
            assert(run.pairs[k as int] == (w as int, tp as int, j as int));
        }
        let transfer = transfer_of(a, w, tp, &tx, &ts);
        let m = CancelAuctionNft {
            transfer: transfer,
            auction_price: o[j + 2].value.clone(),
        };
        out.push(m);
        proof {
            assert(run.pairs.take(k + 1) =~= run.pairs.take(k as int).push(run.pairs[k as int]));
            assert(out@ =~= run.pairs.take(k + 1).map_values(|p: (int, int, int)| cancel_auction_at(a@, o@, p, tx, ts)));
        }
        k = k + 1;
    }
    proof {
        assert(run.pairs.take(pairs.len() as int) =~= run.pairs);
    }
    some_if_nonempty(out)
}

} // verus!

verus! {

/// A cart purchase: the transfer at the anchor; buyer, seller, price, fee and royalties in the five attributes after the match.
pub open spec fn purchase_cart_at(a: Seq<Attribute>, o: Seq<Attribute>, p: (int, int, int), tx: String, ts: String) -> PurcjaseCartNft {
    PurcjaseCartNft {
        transfer: paired_transfer(a, p, tx, ts),
        buyer: o[p.2 + 1].value,
        seller: o[p.2 + 2].value,
        sale_price: o[p.2 + 3].value,
        marketplace_fee: o[p.2 + 4].value,
        royalties: o[p.2 + 5].value,
    }
}

/// The cart purchases of a log, one per `token_id` match in its `wasm-buy_now` event.
pub open spec fn purchase_cart_records(es: Seq<EventView>, tx: String, ts: String) -> Seq<PurcjaseCartNft> {
    let a = first_attrs(es, "wasm"@);
    let o = first_attrs(es, "wasm-buy_now"@);
    pairs_of(a, o, "token_id"@).pairs.map_values(|p: (int, int, int)| purchase_cart_at(a, o, p, tx, ts))
}

/// The NFTs bought from a cart in a log, or `None` if there are none.
pub fn purchase_cart_nft(events: Vec<Event>, tx: String, ts: String) -> (r: Option<Vec<PurcjaseCartNft>>)
    requires
        paired_defined(events_view(events@), "wasm-buy_now"@, "token_id"@, 0, 5),
    ensures
        some_if_any(r, purchase_cart_records(events_view(events@), tx, ts)),
{
    let wi = match find_type(&events, "wasm") {
        Some(i) => i,
        None => {
            return None;
        },
    };
    let oi = match find_type(&events, "wasm-buy_now") {
        Some(i) => i,
        None => {
            return None;
        },
    };
    let a = &events[wi].attributes;
    let o = &events[oi].attributes;
    let ghost run = pairs_of(a@, o@, "token_id"@);
    let pairs = match match_pairs(a, o, "token_id") {
        Some(p) => p,
        None => {
            return None;
        },
    };
    let olen = o.len();
    let mut out: Vec<PurcjaseCartNft> = Vec::new();
    let mut k: usize = 0;
    while k < pairs.len()
        invariant
            k <= pairs.len(),
            olen == o@.len(),
            as_triples(pairs@) == run.pairs,
            run == pairs_of(a@, o@, "token_id"@),
            forall|m: int|
                0 <= m < pairs@.len() ==> (#[trigger] pairs@[m]).0 < a@.len() && pairs@[m].1 < a@.len()
                    && pairs@[m].2 < o@.len(),
            forall|m: int|
                0 <= m < run.pairs.len() ==> {
                    let p = #[trigger] run.pairs[m];
                    &&& p.0 >= 4
                    &&& p.2 >= 0
                    &&& p.2 + 5 < o@.len()
                },
            out@ == run.pairs.take(k as int).map_values(|p: (int, int, int)| purchase_cart_at(a@, o@, p, tx, ts)),
        decreases pairs.len() - k,
    {
        let (w, tp, j) = pairs[k];
        proof {
            assert(run.pairs[k as int] == (w as int, tp as int, j as int));
        }
        let transfer = transfer_of(a, w, tp, &tx, &ts);
        let m = PurcjaseCartNft {
            transfer: transfer,
            buyer: o[j + 1].value.clone(),
            seller: o[j + 2].value.clone(),
            sale_price: o[j + 3].value.clone(),
            marketplace_fee: o[j + 4].value.clone(),
            royalties: o[j + 5].value.clone(),
        };
        out.push(m);
        proof {
            assert(run.pairs.take(k + 1) =~= run.pairs.take(k as int).push(run.pairs[k as int]));
            assert(out@ =~= run.pairs.take(k + 1).map_values(|p: (int, int, int)| purchase_cart_at(a@, o@, p, tx, ts)));
        }
        k = k + 1;
    }
    proof {
        assert(run.pairs.take(pairs.len() as int) =~= run.pairs);
    }
    some_if_nonempty(out)
}

} // verus!

verus! {

/// An accepted bid: the transfer at the anchor; price, seller, bidder, fee and royalties 1, 2, 3, 8 and 12 attributes after the match.
pub open spec fn accept_bid_at(a: Seq<Attribute>, o: Seq<Attribute>, p: (int, int, int), tx: String, ts: String) -> AcceptBidNft {
    AcceptBidNft {
        transfer: paired_transfer(a, p, tx, ts),
        bidder: o[p.2 + 3].value,
        seller: o[p.2 + 2].value,
        sale_price: o[p.2 + 1].value,
        marketplace_fee: o[p.2 + 8].value,
        royalties: o[p.2 + 12].value,
    }
}

/// The accepted bids of a log, one per `token_id` match in its `wasm-accept_bid` event.
pub open spec fn accept_bid_records(es: Seq<EventView>, tx: String, ts: String) -> Seq<AcceptBidNft> {
    let a = first_attrs(es, "wasm"@);
    let o = first_attrs(es, "wasm-accept_bid"@);
    pairs_of(a, o, "token_id"@).pairs.map_values(|p: (int, int, int)| accept_bid_at(a, o, p, tx, ts))
}

/// The bids accepted in a log, or `None` if there are none.
pub fn accept_bid_nft(events: Vec<Event>, tx: String, ts: String) -> (r: Option<Vec<AcceptBidNft>>)
    requires
        paired_defined(events_view(events@), "wasm-accept_bid"@, "token_id"@, 0, 12),
    ensures
        some_if_any(r, accept_bid_records(events_view(events@), tx, ts)),
{
    let wi = match find_type(&events, "wasm") {
        Some(i) => i,
        None => {
            return None;
        },
    };
    let oi = match find_type(&events, "wasm-accept_bid") {
        Some(i) => i,
        None => {
            return None;
        },
    };
    let a = &events[wi].attributes;
    let o = &events[oi].attributes;
    let ghost run = pairs_of(a@, o@, "token_id"@);
    let pairs = match match_pairs(a, o, "token_id") {
        Some(p) => p,
        None => {
            return None;
        },
    };
    let olen = o.len();
    let mut out: Vec<AcceptBidNft> = Vec::new();
    let mut k: usize = 0;
    while k < pairs.len()
        invariant
            k <= pairs.len(),
            olen == o@.len(),
            as_triples(pairs@) == run.pairs,
            run == pairs_of(a@, o@, "token_id"@),
            forall|m: int|
                0 <= m < pairs@.len() ==> (#[trigger] pairs@[m]).0 < a@.len() && pairs@[m].1 < a@.len()
                    && pairs@[m].2 < o@.len(),
            forall|m: int|
                0 <= m < run.pairs.len() ==> {
                    let p = #[trigger] run.pairs[m];
                    &&& p.0 >= 4
                    &&& p.2 >= 0
                    &&& p.2 + 12 < o@.len()
                },
            out@ == run.pairs.take(k as int).map_values(|p: (int, int, int)| accept_bid_at(a@, o@, p, tx, ts)),
        decreases pairs.len() - k,
    {
        let (w, tp, j) = pairs[k];
        proof {
            assert(run.pairs[k as int] == (w as int, tp as int, j as int));
        }
        let transfer = transfer_of(a, w, tp, &tx, &ts);
        let m = AcceptBidNft {
            transfer: transfer,
            bidder: o[j + 3].value.clone(),
            seller: o[j + 2].value.clone(),
            sale_price: o[j + 1].value.clone(),
            marketplace_fee: o[j + 8].value.clone(),
            royalties: o[j + 12].value.clone(),
        };
        out.push(m);
        proof {
            assert(run.pairs.take(k + 1) =~= run.pairs.take(k as int).push(run.pairs[k as int]));
            assert(out@ =~= run.pairs.take(k + 1).map_values(|p: (int, int, int)| accept_bid_at(a@, o@, p, tx, ts)));
        }
        k = k + 1;
    }
    proof {
        assert(run.pairs.take(pairs.len() as int) =~= run.pairs);
    }
    some_if_nonempty(out)
}

} // verus!

verus! {

// ---------------------------------------------------------------------------
// Which kind of NFT trade a log records
// ---------------------------------------------------------------------------

/// Some `wasm` event has an attribute whose value is `v`.
pub open spec fn wasm_with(es: Seq<EventView>, v: Seq<char>) -> bool {
    exists|i: int|
        0 <= i < es.len() && es[i]._type == "wasm"@ && #[trigger] has_value(es[i].attributes, v)
}

/// Some `wasm` event has attributes whose values are `v1` and `v2`.
pub open spec fn wasm_with_both(es: Seq<EventView>, v1: Seq<char>, v2: Seq<char>) -> bool {
    exists|i: int|
        0 <= i < es.len() && es[i]._type == "wasm"@ && #[trigger] has_value(es[i].attributes, v1)
            && has_value(es[i].attributes, v2)
}

/// A `wasm` event that transfers an NFT and whose second attribute says so.
pub open spec fn good_transfer(e: EventView) -> bool {
    &&& e._type == "wasm"@
    &&& has_value(e.attributes, "transfer_nft"@)
    &&& e.attributes.len() >= 2
    &&& e.attributes[1].value@ == "transfer_nft"@
}

/// A `wasm` event that transfers an NFT but has no second attribute.
pub open spec fn bad_transfer(e: EventView) -> bool {
    &&& e._type == "wasm"@
    &&& has_value(e.attributes, "transfer_nft"@)
    &&& e.attributes.len() < 2
}

/// Looking for a plain transfer reaches an event without a second attribute.
pub open spec fn transfer_panics(es: Seq<EventView>) -> bool {
    exists|k: int|
        0 <= k < es.len() && #[trigger] bad_transfer(es[k]) && forall|j: int|
            0 <= j < k ==> !good_transfer(#[trigger] es[j])
}

pub open spec fn mint_kind(es: Seq<EventView>) -> bool {
    wasm_with(es, "mint_nft"@)
}

pub open spec fn batch_kind(es: Seq<EventView>) -> bool {
    wasm_with_both(es, "batch_bids"@, "transfer_nft"@) && has_type(es, "wasm-buy_now"@)
}

pub open spec fn transfer_kind(es: Seq<EventView>) -> bool {
    &&& exists|k: int| 0 <= k < es.len() && #[trigger] good_transfer(es[k])
    &&& es.len() > 0
    &&& es.last()._type == "wasm"@
}

pub open spec fn create_kind(es: Seq<EventView>) -> bool {
    has_type(es, "wasm"@) && has_type(es, "wasm-create_auction"@)
}

pub open spec fn cancel_kind(es: Seq<EventView>) -> bool {
    has_type(es, "wasm"@) && has_type(es, "wasm-cancel_auction"@)
}

pub open spec fn purchase_kind(es: Seq<EventView>) -> bool {
    wasm_with_both(es, "purchase_cart"@, "transfer_nft"@) && has_type(es, "wasm-buy_now"@)
}

pub open spec fn accept_kind(es: Seq<EventView>) -> bool {
    has_type(es, "wasm"@) && has_type(es, "wasm-accept_bid"@)
}

pub open spec fn fixed_kind(es: Seq<EventView>) -> bool {
    wasm_with(es, "fixed_sell"@)
}

/// The listings message of a log, where it has a `wasm-create_auction` event.
pub open spec fn listing_part(es: Seq<EventView>, ts: String) -> Seq<NftMessageView> {
    if has_type(es, "wasm-create_auction"@) {
        let r = listing_records(first_attrs(es, "wasm-create_auction"@), ts);
        if r.len() > 0 {
            seq![NftMessageView::OnlyCreateAuction(r)]
        } else {
            Seq::empty()
        }
    } else {
        Seq::empty()
    }
}

/// `seq![m]` where `r` is not empty.
pub open spec fn msg_if_any<T>(r: Seq<T>, m: NftMessageView) -> Seq<NftMessageView> {
    if r.len() > 0 {
        seq![m]
    } else {
        Seq::empty()
    }
}

/// The trade message of a log: the first kind that matches, in the order
/// mint, batch bids, plain transfer, auction listing, withdrawn auction, cart
/// purchase, accepted bid, fixed-price sale; `Unkonw(tx)` if none matches.
pub open spec fn trade_part(es: Seq<EventView>, tx: String, ts: String) -> Seq<NftMessageView> {
    let wasm = first_attrs(es, "wasm"@);
    if mint_kind(es) {
        let r = mint_records(wasm, tx, ts);
        msg_if_any(r, NftMessageView::Mint(r))
    } else if batch_kind(es) {
        let r = batch_bid_records(es, tx, ts);
        msg_if_any(r, NftMessageView::BatchBids(r))
    } else if transfer_kind(es) {
        let r = transfer_records(wasm, tx, ts);
        msg_if_any(r, NftMessageView::OnlyTransferNft(r))
    } else if create_kind(es) {
        let r = create_auction_records(es, tx, ts);
        msg_if_any(r, NftMessageView::CretaeAuctionNft(r))
    } else if cancel_kind(es) {
        let r = cancel_auction_records(es, tx, ts);
        msg_if_any(r, NftMessageView::CancelAuctionNft(r))
    } else if purchase_kind(es) {
        let r = purchase_cart_records(es, tx, ts);
        msg_if_any(r, NftMessageView::PurchaseCartNft(r))
    } else if accept_kind(es) {
        let r = accept_bid_records(es, tx, ts);
        msg_if_any(r, NftMessageView::AcceptBidNft(r))
    } else if fixed_kind(es) {
        let r = fixed_sell_records(wasm, tx, ts);
        msg_if_any(r, NftMessageView::FixedSellNft(r))
    } else {
        seq![NftMessageView::Unkonw(tx)]
    }
}

/// Reading the log does not index past the attributes it looks at.
pub open spec fn log_defined(es: Seq<EventView>) -> bool {
    &&& has_type(es, "wasm-create_auction"@) ==> listing_defined(
        first_attrs(es, "wasm-create_auction"@),
    )
    &&& if mint_kind(es) {
        mint_defined(first_attrs(es, "wasm"@))
    } else if batch_kind(es) {
        paired_defined(es, "wasm-buy_now"@, "nft_token_id"@, 2, 0)
    } else if transfer_panics(es) {
        false
    } else if transfer_kind(es) {
        transfer_defined(first_attrs(es, "wasm"@))
    } else if create_kind(es) {
        paired_defined(es, "wasm-create_auction"@, "token_id"@, 0, 3)
    } else if cancel_kind(es) {
        paired_defined(es, "wasm-cancel_auction"@, "token_id"@, 0, 2)
    } else if purchase_kind(es) {
        paired_defined(es, "wasm-buy_now"@, "token_id"@, 0, 5)
    } else if accept_kind(es) {
        paired_defined(es, "wasm-accept_bid"@, "token_id"@, 0, 12)
    } else if fixed_kind(es) {
        fixed_sell_defined(first_attrs(es, "wasm"@))
    } else {
        true
    }
}

/// The messages of one log: its listings, then its trade.
pub open spec fn log_messages(es: Seq<EventView>, tx: String, ts: String) -> Seq<NftMessageView> {
    listing_part(es, ts) + trade_part(es, tx, ts)
}

/// The messages of a sequence of logs, log by log.
pub open spec fn logs_messages(logs: Seq<Log>, tx: String, ts: String) -> Seq<NftMessageView>
    decreases logs.len(),
{
    if logs.len() == 0 {
        Seq::empty()
    } else {
        logs_messages(logs.drop_last(), tx, ts) + log_messages(
            events_view(logs.last().events@),
            tx,
            ts,
        )
    }
}

/// Every log of the transaction can be read.
pub open spec fn logs_defined(logs: Seq<Log>) -> bool {
    forall|i: int| 0 <= i < logs.len() ==> #[trigger] log_defined(events_view(logs[i].events@))
}

/// Some `wasm` event has attributes whose values are `v1` and (where `both`)
/// `v2`.
pub fn any_wasm_with(events: &Vec<Event>, v1: &str, v2: &str, both: bool) -> (r: bool)
    ensures
        r == (if both {
            wasm_with_both(events_view(events@), v1@, v2@)
        } else {
            wasm_with(events_view(events@), v1@)
        }),
{
    let ghost es = events_view(events@);
    let mut i: usize = 0;
    while i < events.len()
        invariant
            i <= events.len(),
            es == events_view(events@),
            forall|k: int|
                0 <= k < i ==> !(es[k]._type == "wasm"@ && #[trigger] has_value(es[k].attributes, v1@)
                    && (both ==> has_value(es[k].attributes, v2@))),
        decreases events.len() - i,
    {
        let e = &events[i];
        proof {
            assert(es[i as int] == e@);
        }
        if is_lit(&e._type, "wasm") && any_value(&e.attributes, v1) && (!both || any_value(
            &e.attributes,
            v2,
        )) {
            proof {
                assert(es[i as int]._type == "wasm"@);
                assert(has_value(es[i as int].attributes, v1@));
                assert(both ==> has_value(es[i as int].attributes, v2@));
            }
            return true;
        }
        i = i + 1;
    }
    false
}

/// Whether the log records a plain transfer: some `wasm` event transfers an
/// NFT with `transfer_nft` as its second attribute, and the last event is a
/// `wasm` event.
pub fn is_only_transfer(events: &Vec<Event>) -> (r: bool)
    requires
        !transfer_panics(events_view(events@)),
    ensures
        r == transfer_kind(events_view(events@)),
{
    let ghost es = events_view(events@);
    let mut i: usize = 0;
    while i < events.len()
        invariant
            i <= events.len(),
            es == events_view(events@),
            !transfer_panics(es),
            forall|k: int| 0 <= k < i ==> !good_transfer(#[trigger] es[k]),
        decreases events.len() - i,
    {
        let e = &events[i];
        proof {
            assert(es[i as int] == e@);
        }
        if is_lit(&e._type, "wasm") && any_value(&e.attributes, "transfer_nft") {
            if e.attributes.len() < 2 {
                proof {
                    assert(bad_transfer(es[i as int]));
                    assert(transfer_panics(es));
                }
                return false;
            }
            if is_lit(&e.attributes[1].value, "transfer_nft") {
                proof {
                    assert(good_transfer(es[i as int]));
                }
                let last = &events[events.len() - 1];
                proof {
                    assert(es.last() == last@);
                }
                return is_lit(&last._type, "wasm");
            }
        }
        i = i + 1;
    }
    false
}

/// The messages that one log of a transaction yields.
fn log_messages_exec(events: &Vec<Event>, tx: &String, ts: &String) -> (r: Vec<NftMessage>)
    requires
        log_defined(events_view(events@)),
    ensures
        r@.map_values(|m: NftMessage| m@) == log_messages(events_view(events@), *tx, *ts),
{
    let ghost es = events_view(events@);
    let mut out: Vec<NftMessage> = Vec::new();
    if let Some(ci) = find_type(events, "wasm-create_auction") {
        let attrs = copy_attributes(&events[ci].attributes);
        if let Some(v) = only_create_aucton_nft(attrs, ts.clone()) {
            out.push(NftMessage::OnlyCreateAuction(v));
        }
    }
    proof {
        assert(out@.map_values(|m: NftMessage| m@) =~= listing_part(es, *ts));
    }
    let ghost first = out@;
    let wi = find_type(events, "wasm");
    let trade: Option<NftMessage> = if any_wasm_with(events, "mint_nft", "", false) {
        let wi = wi.unwrap();
        match mint_nft_datas(copy_attributes(&events[wi].attributes), tx.clone(), ts.clone()) {
            Some(v) => Some(NftMessage::Mint(v)),
            None => None,
        }
    } else if any_wasm_with(events, "batch_bids", "transfer_nft", true) && any_type(
        events,
        "wasm-buy_now",
    ) {
        match batch_bids_nfts(copy_events(events), tx.clone(), ts.clone()) {
            Some(v) => Some(NftMessage::BatchBids(v)),
            None => None,
        }
    } else if is_only_transfer(events) {
        proof {
            let k = choose|k: int| 0 <= k < es.len() && #[trigger] good_transfer(es[k]);
            assert(has_type(es, "wasm"@));
        }
        let wi = wi.unwrap();
        match only_transfer_nft(copy_attributes(&events[wi].attributes), tx.clone(), ts.clone()) {
            Some(v) => Some(NftMessage::OnlyTransferNft(v)),
            None => None,
        }
    } else if any_type(events, "wasm") && any_type(events, "wasm-create_auction") {
        match create_auction_nft(copy_events(events), tx.clone(), ts.clone()) {
            Some(v) => Some(NftMessage::CretaeAuctionNft(v)),
            None => None,
        }
    } else if any_type(events, "wasm") && any_type(events, "wasm-cancel_auction") {
        match cancel_auction_nft(copy_events(events), tx.clone(), ts.clone()) {
            Some(v) => Some(NftMessage::CancelAuctionNft(v)),
            None => None,
        }
    } else if any_wasm_with(events, "purchase_cart", "transfer_nft", true) && any_type(
        events,
        "wasm-buy_now",
    ) {
        match purchase_cart_nft(copy_events(events), tx.clone(), ts.clone()) {
            Some(v) => Some(NftMessage::PurchaseCartNft(v)),
            None => None,
        }
    } else if any_type(events, "wasm") && any_type(events, "wasm-accept_bid") {
        match accept_bid_nft(copy_events(events), tx.clone(), ts.clone()) {
            Some(v) => Some(NftMessage::AcceptBidNft(v)),
            None => None,
        }
    } else if any_wasm_with(events, "fixed_sell", "", false) {
        proof {
            let k = choose|k: int|
                0 <= k < es.len() && es[k]._type == "wasm"@ && #[trigger] has_value(
                    es[k].attributes,
                    "fixed_sell"@,
                );
            assert(has_type(es, "wasm"@));
        }
        let wi = wi.unwrap();
        match fixed_sell_nfts(copy_attributes(&events[wi].attributes), tx.clone(), ts.clone()) {
            Some(v) => Some(NftMessage::FixedSellNft(v)),
            None => None,
        }
    } else {
        Some(NftMessage::Unkonw(tx.clone()))
    };
    if let Some(m) = trade {
        out.push(m);
    }
    proof {
        assert(out@.map_values(|m: NftMessage| m@) =~= listing_part(es, *ts) + trade_part(
            es,
            *tx,
            *ts,
        ));
    }
    out
}

/// The NFT messages of a transaction, log by log: for each log, the auction
/// listings it records (if any), then the first kind of trade it records,
/// or `Unkonw` with the transaction hash.
pub fn nft_transaction_data(hash_data: HashData) -> (r: Vec<NftMessage>)
    requires
        logs_defined(hash_data.tx_response.logs@),
    ensures
        r@.map_values(|m: NftMessage| m@) == logs_messages(
            hash_data.tx_response.logs@,
            hash_data.tx_response.txhash,
            hash_data.tx_response.timestamp,
        ),
{
    let logs = &hash_data.tx_response.logs;
    let tx = &hash_data.tx_response.txhash;
    let ts = &hash_data.tx_response.timestamp;
    let mut out: Vec<NftMessage> = Vec::new();
    let mut i: usize = 0;
    while i < logs.len()
        invariant
            i <= logs.len(),
            logs_defined(logs@),
            out@.map_values(|m: NftMessage| m@) == logs_messages(logs@.take(i as int), *tx, *ts),
        decreases logs.len() - i,
    {
        proof {
            assert(log_defined(events_view(logs@[i as int].events@)));
        }
        let mut part = log_messages_exec(&logs[i].events, tx, ts);
        let ghost before = out@;
        out.append(&mut part);
        proof {
            assert(logs@.take(i + 1).drop_last() =~= logs@.take(i as int));
            assert(out@.map_values(|m: NftMessage| m@) =~= before.map_values(|m: NftMessage| m@)
                + log_messages(events_view(logs@[i as int].events@), *tx, *ts));
        }
        i = i + 1;
    }
    proof {
        assert(logs@.take(logs.len() as int) =~= logs@);
    }
    out
}

} // verus!

verus! {

// ---------------------------------------------------------------------------
// Whether a transaction can be read
// ---------------------------------------------------------------------------

/// The attributes that `select_attrs` picks with `mode`, `k` and `v`.
pub open spec fn picked(a: Seq<Attribute>, mode: u8, k: Seq<char>, v: Seq<char>) -> spec_fn(int) -> bool {
    if mode == 0 {
        value_pred(a, v)
    } else if mode == 1 {
        key_value_pred(a, k, v)
    } else {
        key_pred(a, k)
    }
}

/// Whether every attribute picked by `mode`, `k` and `v` has at least `lo`
/// attributes before it and `hi` after it.
pub(crate) fn picked_fit(a: &Vec<Attribute>, mode: u8, k: &str, v: &str, lo: usize, hi: usize) -> (r: bool)
    requires
        mode < 3,
    ensures
        r == forall|i: int|
            0 <= i < a@.len() && #[trigger] picked(a@, mode, k@, v@)(i) ==> lo <= i && i + hi < a@.len(),
{
    let ghost p = picked(a@, mode, k@, v@);
    let pos = select_attrs(a, mode, k, v);
    proof {
        lemma_positions(a@.len(), p);
    }
    let mut j: usize = 0;
    while j < pos.len()
        invariant
            j <= pos.len(),
            p == picked(a@, mode, k@, v@),
            as_ints(pos@) == positions(a@.len(), p),
            forall|m: int| 0 <= m < j ==> lo <= #[trigger] pos@[m] && pos@[m] + hi < a@.len(),
        decreases pos.len() - j,
    {
        let x = pos[j];
        proof {
            lemma_positions(a@.len(), p);
            assert(as_ints(pos@)[j as int] == x as int);
            assert(positions(a@.len(), p)[j as int] == x as int);
            assert(x < a@.len() && p(x as int));
        }
        if x < lo || hi >= a.len() - x {
            return false;
        }
        j = j + 1;
    }
    proof {
        assert forall|i: int| 0 <= i < a@.len() && #[trigger] p(i) implies lo <= i && i + hi < a@.len() by {
            assert(positions(a@.len(), p).contains(i));
            let m = choose|m: int| 0 <= m < positions(a@.len(), p).len() && positions(a@.len(), p)[m] == i;
            assert(as_ints(pos@)[m] == pos@[m] as int);
        }
    }
    true
}

pub(crate) fn mint_fits(a: &Vec<Attribute>) -> (r: bool)
    ensures
        r == mint_defined(a@),
{
    let r = picked_fit(a, 0, "", "mint_nft", 0, 5);
    proof {
        assert(r == mint_defined(a@)) by {
            if r {
                assert forall|i: int| 0 <= i < a@.len() && #[trigger] a@[i].value@ == "mint_nft"@ implies i + 5 < a@.len() by {
                    assert(picked(a@, 0, ""@, "mint_nft"@)(i));
                }
            } else {
                let i = choose|i: int|
                    !(0 <= i < a@.len() && #[trigger] picked(a@, 0, ""@, "mint_nft"@)(i) ==> 0 <= i && i + 5 < a@.len());
                assert(a@[i].value@ == "mint_nft"@);
            }
        }
    }
    r
}

pub(crate) fn transfer_fits(a: &Vec<Attribute>) -> (r: bool)
    ensures
        r == transfer_defined(a@),
{
    let r = picked_fit(a, 1, "action", "transfer_nft", 1, 3);
    proof {
        assert(r == transfer_defined(a@)) by {
            if r {
                assert forall|i: int|
                    0 <= i < a@.len() && #[trigger] a@[i].key@ == "action"@ && a@[i].value@ == "transfer_nft"@
                    implies 1 <= i && i + 3 < a@.len() by {
                    assert(picked(a@, 1, "action"@, "transfer_nft"@)(i));
                }
            } else {
                let i = choose|i: int|
                    !(0 <= i < a@.len() && #[trigger] picked(a@, 1, "action"@, "transfer_nft"@)(i) ==> 1 <= i && i + 3
                        < a@.len());
                assert(a@[i].key@ == "action"@ && a@[i].value@ == "transfer_nft"@);
            }
        }
    }
    r
}

pub(crate) fn fixed_sell_fits(a: &Vec<Attribute>) -> (r: bool)
    ensures
        r == fixed_sell_defined(a@),
{
    let r = picked_fit(a, 1, "action", "fixed_sell", 0, 10);
    proof {
        assert(r == fixed_sell_defined(a@)) by {
            if r {
                assert forall|i: int|
                    0 <= i < a@.len() && #[trigger] a@[i].key@ == "action"@ && a@[i].value@ == "fixed_sell"@
                    implies i + 10 < a@.len() by {
                    assert(picked(a@, 1, "action"@, "fixed_sell"@)(i));
                }
            } else {
                let i = choose|i: int|
                    !(0 <= i < a@.len() && #[trigger] picked(a@, 1, "action"@, "fixed_sell"@)(i) ==> 0 <= i && i + 10
                        < a@.len());
                assert(a@[i].key@ == "action"@ && a@[i].value@ == "fixed_sell"@);
            }
        }
    }
    r
}

pub(crate) fn listing_fits(a: &Vec<Attribute>) -> (r: bool)
    ensures
        r == listing_defined(a@),
{
    let r = picked_fit(a, 2, "token_id", "", 1, 3);
    proof {
        assert(r == listing_defined(a@)) by {
            if r {
                assert forall|i: int| 0 <= i < a@.len() && #[trigger] a@[i].key@ == "token_id"@ implies 1 <= i && i
                    + 3 < a@.len() by {
                    assert(picked(a@, 2, "token_id"@, ""@)(i));
                }
            } else {
                let i = choose|i: int|
                    !(0 <= i < a@.len() && #[trigger] picked(a@, 2, "token_id"@, ""@)(i) ==> 1 <= i && i + 3 < a@.len());
                assert(a@[i].key@ == "token_id"@);
            }
        }
    }
    r
}


/// Whether the trades of a log that pairs its `wasm` event with its first
/// `other` event can be read (see [`paired_defined`]).
pub(crate) fn paired_fits(events: &Vec<Event>, other: &str, key: &str, lo: usize, hi: usize) -> (r: bool)
    ensures
        r == paired_defined(events_view(events@), other@, key@, lo as int, hi as int),
{
    let ghost es = events_view(events@);
    let wi = match find_type(events, "wasm") {
        Some(i) => i,
        None => {
            return false;
        },
    };
    let oi = match find_type(events, other) {
        Some(i) => i,
        None => {
            return false;
        },
    };
    let a = &events[wi].attributes;
    let o = &events[oi].attributes;
    proof {
        assert(first_attrs(es, "wasm"@) == a@);
        assert(first_attrs(es, other@) == o@);
    }
    let ghost run = pairs_of(a@, o@, key@);
    let pairs = match match_pairs(a, o, key) {
        Some(p) => p,
        None => {
            return false;
        },
    };
    let mut k: usize = 0;
    while k < pairs.len()
        invariant
            k <= pairs.len(),
            as_triples(pairs@) == run.pairs,
            run == pairs_of(a@, o@, key@),
            es == events_view(events@),
            has_type(es, "wasm"@),
            has_type(es, other@),
            first_attrs(es, "wasm"@) == a@,
            first_attrs(es, other@) == o@,
            forall|m: int| 0 <= m < pairs@.len() ==> (#[trigger] pairs@[m]).2 < o@.len(),
            forall|m: int|
                0 <= m < k ==> {
                    let p = #[trigger] run.pairs[m];
                    &&& p.0 >= 4
                    &&& p.2 >= lo
                    &&& p.2 + hi < o@.len()
                },
        decreases pairs.len() - k,
    {
        let (w, _tp, j) = pairs[k];
        proof {
            assert(run.pairs[k as int] == (w as int, _tp as int, j as int));
        }
        if w < 4 || j < lo || hi >= o.len() - j {
            proof {
                assert(pairs_of(first_attrs(es, "wasm"@), first_attrs(es, other@), key@).pairs[k as int] == run.pairs[k as int]);
            }
            return false;
        }
        k = k + 1;
    }
    true
}

/// Whether looking for a plain transfer reaches a `wasm` transfer event
/// without a second attribute (see [`transfer_panics`]).
pub(crate) fn transfer_panics_exec(events: &Vec<Event>) -> (r: bool)
    ensures
        r == transfer_panics(events_view(events@)),
{
    let ghost es = events_view(events@);
    let mut i: usize = 0;
    while i < events.len()
        invariant
            i <= events.len(),
            es == events_view(events@),
            forall|k: int| 0 <= k < i ==> !good_transfer(#[trigger] es[k]) && !bad_transfer(es[k]),
        decreases events.len() - i,
    {
        let e = &events[i];
        proof {
            assert(es[i as int] == e@);
        }
        if is_lit(&e._type, "wasm") && any_value(&e.attributes, "transfer_nft") {
            if e.attributes.len() < 2 {
                proof {
                    assert(bad_transfer(es[i as int]));
                }
                return true;
            }
            if is_lit(&e.attributes[1].value, "transfer_nft") {
                proof {
                    assert(good_transfer(es[i as int]));
                    assert forall|k: int| 0 <= k < es.len() && #[trigger] bad_transfer(es[k]) implies exists|j: int|
                        0 <= j < k && good_transfer(#[trigger] es[j]) by {
                        assert(k > i);
                        assert(good_transfer(es[i as int]));
                    }
                }
                return false;
            }
        }
        i = i + 1;
    }
    false
}

/// Whether the log can be read (see [`log_defined`]).
fn log_fits(events: &Vec<Event>) -> (r: bool)
    ensures
        r == log_defined(events_view(events@)),
{
    let ghost es = events_view(events@);
    let listing_ok = match find_type(events, "wasm-create_auction") {
        Some(ci) => listing_fits(&events[ci].attributes),
        None => true,
    };
    if !listing_ok {
        return false;
    }
    let wi = find_type(events, "wasm");
    if any_wasm_with(events, "mint_nft", "", false) {
        proof {
            let k = choose|k: int|
                0 <= k < es.len() && es[k]._type == "wasm"@ && #[trigger] has_value(es[k].attributes, "mint_nft"@);
            assert(has_type(es, "wasm"@));
        }
        let wi = wi.unwrap();
        mint_fits(&events[wi].attributes)
    } else if any_wasm_with(events, "batch_bids", "transfer_nft", true) && any_type(events, "wasm-buy_now") {
        paired_fits(events, "wasm-buy_now", "nft_token_id", 2, 0)
    } else if transfer_panics_exec(events) {
        false
    } else if is_only_transfer(events) {
        proof {
            let k = choose|k: int| 0 <= k < es.len() && #[trigger] good_transfer(es[k]);
            assert(has_type(es, "wasm"@));
        }
        let wi = wi.unwrap();
        transfer_fits(&events[wi].attributes)
    } else if any_type(events, "wasm") && any_type(events, "wasm-create_auction") {
        paired_fits(events, "wasm-create_auction", "token_id", 0, 3)
    } else if any_type(events, "wasm") && any_type(events, "wasm-cancel_auction") {
        paired_fits(events, "wasm-cancel_auction", "token_id", 0, 2)
    } else if any_wasm_with(events, "purchase_cart", "transfer_nft", true) && any_type(events, "wasm-buy_now") {
        paired_fits(events, "wasm-buy_now", "token_id", 0, 5)
    } else if any_type(events, "wasm") && any_type(events, "wasm-accept_bid") {
        paired_fits(events, "wasm-accept_bid", "token_id", 0, 12)
    } else if any_wasm_with(events, "fixed_sell", "", false) {
        proof {
            let k = choose|k: int|
                0 <= k < es.len() && es[k]._type == "wasm"@ && #[trigger] has_value(es[k].attributes, "fixed_sell"@);
            assert(has_type(es, "wasm"@));
        }
        let wi = wi.unwrap();
        fixed_sell_fits(&events[wi].attributes)
    } else {
        true
    }
}

/// Whether every log of a transaction can be read, so that
/// [`nft_transaction_data`] may be called on it.
pub fn logs_readable(logs: &Vec<Log>) -> (r: bool)
    ensures
        r == logs_defined(logs@),
{
    let mut i: usize = 0;
    while i < logs.len()
        invariant
            i <= logs.len(),
            forall|k: int| 0 <= k < i ==> #[trigger] log_defined(events_view(logs@[k].events@)),
        decreases logs.len() - i,
    {
        if !log_fits(&logs[i].events) {
            return false;
        }
        i = i + 1;
    }
    true
}

} // verus!
