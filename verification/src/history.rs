//! Rebuilding a wallet's history from the transactions an explorer lists
//! for it: which list entries count, and the store updates that each
//! transaction's events ask for.
use vstd::prelude::*;
use crate::model::{
    Event, EventView, NftMessage, NftMessageView, TokenSwap, copy_attributes, copy_events,
    events_view,
};
use crate::nft_parse::{
    accept_bid_nft, accept_bid_records, accept_kind, any_wasm_with, batch_bid_records, batch_bids_nfts,
    batch_kind, cancel_auction_nft, cancel_auction_records, cancel_kind, create_auction_nft,
    create_auction_records, create_kind, fixed_kind, fixed_sell_defined, fixed_sell_nfts,
    fixed_sell_records, is_only_transfer, listing_defined, listing_records, mint_defined, mint_kind,
    mint_nft_datas, mint_records, msg_if_any, only_create_aucton_nft, only_transfer_nft,
    paired_defined, purchase_cart_nft, purchase_cart_records, purchase_kind, transfer_defined,
    transfer_kind, transfer_panics, transfer_records, fixed_sell_fits, listing_fits, mint_fits,
    paired_fits, transfer_fits, transfer_panics_exec,
};
use crate::routing::{
    DbOp, DbOpView, SwapText, listing_ops, msg_txs, ops_view, some_event, swap_text, txs_ops,
};
use crate::select::{any_type, find_type, first_attrs, has_type, has_value};
use crate::token_swap::{normal_token_swap, swap_at, swap_defined, swap_fits};

verus! {

/// The events of one message of a listed transaction.
#[derive(Debug)]
pub struct _Event {
    pub events: Vec<Event>,
}

/// A transaction as an explorer lists it for a wallet: its hash, sender and
/// time, and the events of each of its messages.
#[derive(Debug)]
pub struct HistoryTx {
    pub hash: String,
    pub sender: String,
    pub time: String,
    pub events: Vec<_Event>,
}

// ---------------------------------------------------------------------------
// The updates one message asks for
// ---------------------------------------------------------------------------

/// A `wasm` event that names one of the routed swaps of an aggregator.
pub open spec fn routed_swap_event(e: EventView) -> bool {
    &&& e._type == "wasm"@
    &&& has_value(e.attributes, "execute_swap_and_action"@) || has_value(e.attributes, "dispatch_user_swap"@)
        || has_value(e.attributes, "dispatch_post_swap_action"@) || has_value(
        e.attributes,
        "execute_user_swap"@,
    )
}

/// Some event is a routed swap.
pub open spec fn routed_swap(es: Seq<EventView>) -> bool {
    exists|j: int| 0 <= j < es.len() && #[trigger] routed_swap_event(es[j])
}

/// The NFT message of a message's events: the first kind that matches, in
/// the order mint, batch bids, fixed-price sale, plain transfer, auction,
/// withdrawn auction, cart purchase, listing only, accepted bid; none where
/// none matches or it records nothing.
pub open spec fn group_trade(es: Seq<EventView>, tx: String, ts: String) -> Seq<NftMessageView> {
    let wasm = first_attrs(es, "wasm"@);
    if mint_kind(es) {
        let r = mint_records(wasm, tx, ts);
        msg_if_any(r, NftMessageView::Mint(r))
    } else if batch_kind(es) {
        let r = batch_bid_records(es, tx, ts);
        msg_if_any(r, NftMessageView::BatchBids(r))
    } else if fixed_kind(es) {
        let r = fixed_sell_records(wasm, tx, ts);
        msg_if_any(r, NftMessageView::FixedSellNft(r))
    } else if transfer_kind(es) {
        let r = transfer_records(wasm, tx, ts);
        msg_if_any(r, NftMessageView::OnlyTransferNft(r))
    } else if create_kind(es) {
        let r = create_auction_records(es, tx, ts);
        msg_if_any(r, NftMessageView::CretaeAuctionNft(r))
    } else if cancel_kind(es) {
        let r = cancel_auction_records(es, tx, ts);
        msg_if_any(r, NftMessageView::CancelAuctionNft(r))
    } else if purchase_kind(es) {
        let r = purchase_cart_records(es, tx, ts);
        msg_if_any(r, NftMessageView::PurchaseCartNft(r))
    } else if has_type(es, "wasm-create_auction"@) {
        let r = listing_records(first_attrs(es, "wasm-create_auction"@), ts);
        msg_if_any(r, NftMessageView::OnlyCreateAuction(r))
    } else if accept_kind(es) {
        let r = accept_bid_records(es, tx, ts);
        msg_if_any(r, NftMessageView::AcceptBidNft(r))
    } else {
        Seq::empty()
    }
}

/// Reading the message's NFT trade does not index past the attributes it
/// looks at.
pub open spec fn group_trade_defined(es: Seq<EventView>) -> bool {
    if mint_kind(es) {
        mint_defined(first_attrs(es, "wasm"@))
    } else if batch_kind(es) {
        paired_defined(es, "wasm-buy_now"@, "nft_token_id"@, 2, 0)
    } else if fixed_kind(es) {
        fixed_sell_defined(first_attrs(es, "wasm"@))
    } else if transfer_panics(es) {
        false
    } else if transfer_kind(es) {
        transfer_defined(first_attrs(es, "wasm"@))
    } else if create_kind(es) {
        paired_defined(es, "wasm-create_auction"@, "token_id"@, 0, 3)
    } else if cancel_kind(es) {
        paired_defined(es, "wasm-cancel_auction"@, "token_id"@, 0, 2)
    } else if purchase_kind(es) {
        paired_defined(es, "wasm-buy_now"@, "token_id"@, 0, 5)
    } else if has_type(es, "wasm-create_auction"@) {
        listing_defined(first_attrs(es, "wasm-create_auction"@))
    } else if accept_kind(es) {
        paired_defined(es, "wasm-accept_bid"@, "token_id"@, 0, 12)
    } else {
        true
    }
}

/// The updates for NFT messages: listings join their collections'
/// listings, trades join the histories of both sides.
pub open spec fn messages_ops(ms: Seq<NftMessageView>) -> Seq<DbOpView>
    decreases ms.len(),
{
    if ms.len() == 0 {
        Seq::empty()
    } else {
        messages_ops(ms.drop_last()) + match ms.last() {
            NftMessageView::OnlyCreateAuction(v) => listing_ops(v),
            m => txs_ops(msg_txs(m), false),
        }
    }
}

/// The update for a swap the message records: it joins the sender's token
/// history.
pub open spec fn swap_op(es: Seq<EventView>, tx: String, ts: String, sender: String) -> DbOpView {
    DbOpView::TokenHistory {
        wallet: sender@,
        swap: SwapText {
            trade_type: "token_swap"@,
            ..swap_text(swap_at(first_attrs(es, "wasm"@), tx, ts, sender, tx))
        },
    }
}

/// The updates one message of a listed transaction asks for: its NFT trade
/// where it has an NFT action or marketplace NFT event; else its swap where
/// it has a routed or plain `wasm` swap; else none.
pub open spec fn group_ops(es: Seq<EventView>, tx: String, ts: String, sender: String) -> Seq<DbOpView> {
    if some_event(es, 1) {
        messages_ops(group_trade(es, tx, ts))
    } else if routed_swap(es) || some_event(es, 0) {
        seq![swap_op(es, tx, ts, sender)]
    } else {
        Seq::empty()
    }
}

/// Reading the message does not index past the attributes it looks at.
pub open spec fn group_ready(es: Seq<EventView>) -> bool {
    if some_event(es, 1) {
        group_trade_defined(es)
    } else if routed_swap(es) || some_event(es, 0) {
        swap_defined(first_attrs(es, "wasm"@))
    } else {
        true
    }
}

fn routed_swap_exec(events: &Vec<Event>) -> (r: bool)
    ensures
        r == routed_swap(events_view(events@)),
{
    let ghost es = events_view(events@);
    let mut j: usize = 0;
    while j < events.len()
        invariant
            j <= events.len(),
            es == events_view(events@),
            forall|k: int| 0 <= k < j ==> !#[trigger] routed_swap_event(es[k]),
        decreases events.len() - j,
    {
        let e = &events[j];
        proof {
            assert(es[j as int] == e@);
        }
        if crate::text::is_lit(&e._type, "wasm") && (crate::select::any_value(
            &e.attributes,
            "execute_swap_and_action",
        ) || crate::select::any_value(&e.attributes, "dispatch_user_swap")
            || crate::select::any_value(&e.attributes, "dispatch_post_swap_action")
            || crate::select::any_value(&e.attributes, "execute_user_swap")) {
            proof {
                assert(routed_swap_event(es[j as int]));
            }
            return true;
        }
        j = j + 1;
    }
    false
}

fn some_event_of(events: &Vec<Event>, which: u8) -> (r: bool)
    ensures
        r == some_event(events_view(events@), which),
{
    let ghost es = events_view(events@);
    let mut j: usize = 0;
    while j < events.len()
        invariant
            j <= events.len(),
            es == events_view(events@),
            forall|k: int| 0 <= k < j ==> !#[trigger] crate::routing::event_is(es[k], which),
        decreases events.len() - j,
    {
        proof {
            assert(es[j as int] == events@[j as int]@);
        }
        if crate::routing::event_is_exec(&events[j], which) {
            return true;
        }
        j = j + 1;
    }
    false
}

fn message_of(m: Option<NftMessage>) -> (r: Vec<NftMessage>)
    ensures
        match m {
            Some(x) => r@.len() == 1 && r@[0] == x,
            None => r@.len() == 0,
        },
{
    let mut out: Vec<NftMessage> = Vec::new();
    match m {
        Some(x) => out.push(x),
        None => {},
    }
    out
}

/// The NFT message of a message's events (see [`group_trade`]).
fn group_trade_exec(events: &Vec<Event>, tx: &String, ts: &String) -> (r: Vec<NftMessage>)
    requires
        group_trade_defined(events_view(events@)),
    ensures
        r@.map_values(|m: NftMessage| m@) == group_trade(events_view(events@), *tx, *ts),
{
    let ghost es = events_view(events@);
    let wi = find_type(events, "wasm");
    let m: Option<NftMessage> = if any_wasm_with(events, "mint_nft", "", false) {
        let wi = wi.unwrap();
        match mint_nft_datas(copy_attributes(&events[wi].attributes), tx.clone(), ts.clone()) {
            Some(v) => Some(NftMessage::Mint(v)),
            None => None,
        }
    } else if any_wasm_with(events, "batch_bids", "transfer_nft", true) && any_type(events, "wasm-buy_now") {
        match batch_bids_nfts(copy_events(events), tx.clone(), ts.clone()) {
            Some(v) => Some(NftMessage::BatchBids(v)),
            None => None,
        }
    } else if any_wasm_with(events, "fixed_sell", "", false) {
        proof {
            let k = choose|k: int|
                0 <= k < es.len() && es[k]._type == "wasm"@ && #[trigger] has_value(
                    es[k].attributes,
                    "fixed_sell"@,
                );
            assert(has_type(es, "wasm"@));
        }
        let wi = wi.unwrap();
        match fixed_sell_nfts(copy_attributes(&events[wi].attributes), tx.clone(), ts.clone()) {
            Some(v) => Some(NftMessage::FixedSellNft(v)),
            None => None,
        }
    } else if is_only_transfer(events) {
        proof {
            let k = choose|k: int| 0 <= k < es.len() && #[trigger] crate::nft_parse::good_transfer(es[k]);
            assert(has_type(es, "wasm"@));
        }
        let wi = wi.unwrap();
        match only_transfer_nft(copy_attributes(&events[wi].attributes), tx.clone(), ts.clone()) {
            Some(v) => Some(NftMessage::OnlyTransferNft(v)),
            None => None,
        }
    } else if any_type(events, "wasm") && any_type(events, "wasm-create_auction") {
        match create_auction_nft(copy_events(events), tx.clone(), ts.clone()) {
            Some(v) => Some(NftMessage::CretaeAuctionNft(v)),
            None => None,
        }
    } else if any_type(events, "wasm") && any_type(events, "wasm-cancel_auction") {
        match cancel_auction_nft(copy_events(events), tx.clone(), ts.clone()) {
            Some(v) => Some(NftMessage::CancelAuctionNft(v)),
            None => None,
        }
    } else if any_wasm_with(events, "purchase_cart", "transfer_nft", true) && any_type(events, "wasm-buy_now") {
        match purchase_cart_nft(copy_events(events), tx.clone(), ts.clone()) {
            Some(v) => Some(NftMessage::PurchaseCartNft(v)),
            None => None,
        }
    } else if let Some(ci) = find_type(events, "wasm-create_auction") {
        match only_create_aucton_nft(copy_attributes(&events[ci].attributes), ts.clone()) {
            Some(v) => Some(NftMessage::OnlyCreateAuction(v)),
            None => None,
        }
    } else if any_type(events, "wasm") && any_type(events, "wasm-accept_bid") {
        match accept_bid_nft(copy_events(events), tx.clone(), ts.clone()) {
            Some(v) => Some(NftMessage::AcceptBidNft(v)),
            None => None,
        }
    } else {
        None
    };
    let out = message_of(m);
    proof {
        assert(out@.map_values(|m: NftMessage| m@) =~= group_trade(es, *tx, *ts));
    }
    out
}

/// The updates one message of a listed transaction asks for (see
/// [`group_ops`]); `tx` is the transaction's hash, `ts` its time and
/// `sender` its sender.
pub fn group_db_ops(events: &Vec<Event>, tx: &String, ts: &String, sender: &String) -> (r: Vec<DbOp>)
    requires
        group_ready(events_view(events@)),
    ensures
        ops_view(r@) == group_ops(events_view(events@), *tx, *ts, *sender),
{
    let ghost es = events_view(events@);
    let mut out: Vec<DbOp> = Vec::new();
    if some_event_of(events, 1) {
        let ms = group_trade_exec(events, tx, ts);
        let ghost mv = ms@.map_values(|m: NftMessage| m@);
        let mut i: usize = 0;
        while i < ms.len()
            invariant
                i <= ms.len(),
                mv == ms@.map_values(|m: NftMessage| m@),
                ops_view(out@) == messages_ops(mv.take(i as int)),
            decreases ms.len() - i,
        {
            proof {
                assert(mv.take(i + 1).drop_last() =~= mv.take(i as int));
                assert(mv.take(i + 1).last() == ms@[i as int]@);
            }
            let mut part = match &ms[i] {
                NftMessage::OnlyCreateAuction(_) => crate::routing::searcher_db_ops(&ms[i]),
                m => crate::routing::scan_db_ops(m),
            };
            proof {
                assert(ops_view(part@) == match mv[i as int] {
                    NftMessageView::OnlyCreateAuction(v) => listing_ops(v),
                    m => txs_ops(msg_txs(m), false),
                });
            }
            let ghost o0 = out@;
            let ghost p0 = part@;
            out.append(&mut part);
            proof {
                assert(out@ =~= o0 + p0);
                assert(ops_view(out@) =~= ops_view(o0) + ops_view(p0));
            }
            i = i + 1;
        }
        proof {
            assert(mv.take(ms.len() as int) =~= mv);
        }
        out
    } else if routed_swap_exec(events) || some_event_of(events, 0) {
        let wi = match find_type(events, "wasm") {
            Some(wi) => wi,
            None => {
                proof {
                    if routed_swap(es) {
                        let j = choose|j: int| 0 <= j < es.len() && #[trigger] routed_swap_event(es[j]);
                        assert(es[j]._type == "wasm"@);
                    } else {
                        let j = choose|j: int| 0 <= j < es.len() && #[trigger] crate::routing::event_is(es[j], 0);
                        assert(es[j]._type == "wasm"@);
                    }
                }
                return out;
            },
        };
        let swap = normal_token_swap(copy_attributes(&events[wi].attributes), tx.clone(), ts.clone(), sender.clone());
        out.push(DbOp::TokenHistory { wallet: sender.clone(), swap });
        proof {
            assert(ops_view(out@) =~= seq![swap_op(es, *tx, *ts, *sender)]);
        }
        out
    } else {
        proof {
            assert(ops_view(out@) =~= Seq::<DbOpView>::empty());
        }
        out
    }
}

// ---------------------------------------------------------------------------
// The updates for a listed history
// ---------------------------------------------------------------------------

/// The updates of a listed transaction: those of each of its messages, in
/// order.
pub open spec fn groups_ops(gs: Seq<_Event>, tx: String, ts: String, sender: String) -> Seq<DbOpView>
    decreases gs.len(),
{
    if gs.len() == 0 {
        Seq::empty()
    } else {
        groups_ops(gs.drop_last(), tx, ts, sender) + group_ops(
            events_view(gs.last().events@),
            tx,
            ts,
            sender,
        )
    }
}

/// Every message of the listed transaction can be read.
pub open spec fn tx_ready(t: HistoryTx) -> bool {
    forall|j: int| 0 <= j < t.events@.len() ==> #[trigger] group_ready(events_view(t.events@[j].events@))
}

/// The hashes of the list, each once, in the order they first occur.
pub open spec fn distinct_hashes(v: Seq<HistoryTx>) -> Seq<Seq<char>>
    decreases v.len(),
{
    if v.len() == 0 {
        Seq::empty()
    } else {
        let p = distinct_hashes(v.drop_last());
        if p.contains(v.last().hash@) {
            p
        } else {
            p.push(v.last().hash@)
        }
    }
}

/// The position of the last entry with hash `h` (-1 where there is none).
pub open spec fn last_index(v: Seq<HistoryTx>, h: Seq<char>) -> int
    decreases v.len(),
{
    if v.len() == 0 {
        -1
    } else if v.last().hash@ == h {
        v.len() - 1
    } else {
        last_index(v.drop_last(), h)
    }
}

/// The entry that counts for each hash: the last one listed with it (a
/// later listing of a hash replaces an earlier one).
pub open spec fn counted(v: Seq<HistoryTx>) -> Seq<HistoryTx> {
    distinct_hashes(v).map_values(|h: Seq<char>| v[last_index(v, h)])
}

/// The updates for the counted entries, in order.
pub open spec fn plan_ops(ts: Seq<HistoryTx>) -> Seq<DbOpView>
    decreases ts.len(),
{
    if ts.len() == 0 {
        Seq::empty()
    } else {
        plan_ops(ts.drop_last()) + groups_ops(
            ts.last().events@,
            ts.last().hash,
            ts.last().time,
            ts.last().sender,
        )
    }
}

proof fn lemma_last_index(v: Seq<HistoryTx>, h: Seq<char>)
    ensures
        -1 <= last_index(v, h) < v.len(),
        last_index(v, h) >= 0 ==> v[last_index(v, h)].hash@ == h,
        last_index(v, h) >= 0 ==> forall|i: int| last_index(v, h) < i < v.len() ==> (#[trigger] v[i]).hash@ != h,
        last_index(v, h) < 0 ==> forall|i: int| 0 <= i < v.len() ==> (#[trigger] v[i]).hash@ != h,
    decreases v.len(),
{
    if v.len() > 0 {
        let d = v.drop_last();
        lemma_last_index(d, h);
        if v.last().hash@ != h {
            assert forall|i: int| last_index(v, h) < i < v.len() implies (#[trigger] v[i]).hash@ != h by {
                if i < v.len() - 1 {
                    assert(v[i] == d[i]);
                }
            }
            if last_index(v, h) < 0 {
                assert forall|i: int| 0 <= i < v.len() implies (#[trigger] v[i]).hash@ != h by {
                    if i < v.len() - 1 {
                        assert(v[i] == d[i]);
                    }
                }
            }
            if last_index(v, h) >= 0 {
                assert(v[last_index(v, h)] == d[last_index(d, h)]);
            }
        }
    }
}

fn last_index_exec(v: &Vec<HistoryTx>, h: &String) -> (r: usize)
    requires
        exists|i: int| 0 <= i < v@.len() && (#[trigger] v@[i]).hash@ == h@,
    ensures
        r as int == last_index(v@, h@),
        r < v@.len(),
{
    proof {
        lemma_last_index(v@, h@);
    }
    let mut j: usize = v.len();
    while j > 0
        invariant
            j <= v@.len(),
            forall|i: int| j <= i < v@.len() ==> (#[trigger] v@[i]).hash@ != h@,
            exists|i: int| 0 <= i < v@.len() && (#[trigger] v@[i]).hash@ == h@,
            -1 <= last_index(v@, h@) < v@.len(),
            last_index(v@, h@) >= 0 ==> v@[last_index(v@, h@)].hash@ == h@,
            last_index(v@, h@) >= 0 ==> forall|i: int|
                last_index(v@, h@) < i < v@.len() ==> (#[trigger] v@[i]).hash@ != h@,
            last_index(v@, h@) < 0 ==> forall|i: int| 0 <= i < v@.len() ==> (#[trigger] v@[i]).hash@ != h@,
        decreases j,
    {
        if v[j - 1].hash == *h {
            return j - 1;
        }
        j = j - 1;
    }
    proof {
        let i = choose|i: int| 0 <= i < v@.len() && (#[trigger] v@[i]).hash@ == h@;
        assert(v@[i].hash@ != h@);
    }
    0
}

/// The hashes of the list, each once, in the order they first occur (see
/// [`distinct_hashes`]).
fn distinct_hash_list(history: &Vec<HistoryTx>) -> (hashes: Vec<String>)
    ensures
        hashes@.map_values(|h: String| h@) == distinct_hashes(history@),
        forall|m: int|
            0 <= m < hashes@.len() ==> exists|k: int|
                0 <= k < history@.len() && (#[trigger] history@[k]).hash@ == (#[trigger] hashes@[m])@,
{
    let mut hashes: Vec<String> = Vec::new();
    let mut i: usize = 0;
    while i < history.len()
        invariant
            i <= history.len(),
            hashes@.map_values(|h: String| h@) == distinct_hashes(history@.take(i as int)),
            forall|m: int|
                0 <= m < hashes@.len() ==> exists|k: int|
                    0 <= k < i && (#[trigger] history@[k]).hash@ == (#[trigger] hashes@[m])@,
        decreases history.len() - i,
    {
        let ghost p = hashes@.map_values(|h: String| h@);
        proof {
            assert(history@.take(i + 1).drop_last() =~= history@.take(i as int));
            assert(history@.take(i + 1).last() == history@[i as int]);
        }
        let mut seen = false;
        let mut m: usize = 0;
        while m < hashes.len()
            invariant
                m <= hashes.len(),
                i < history@.len(),
                p == hashes@.map_values(|h: String| h@),
                !seen ==> forall|q: int| 0 <= q < m ==> p[q] != history@[i as int].hash@,
                seen ==> p.contains(history@[i as int].hash@),
            decreases hashes.len() - m,
        {
            if hashes[m] == history[i].hash {
                proof {
                    assert(p[m as int] == history@[i as int].hash@);
                }
                seen = true;
            }
            m = m + 1;
        }
        if !seen {
            let ghost h0 = hashes@;
            hashes.push(history[i].hash.clone());
            proof {
                assert(hashes@.map_values(|h: String| h@) =~= p.push(history@[i as int].hash@));
                assert forall|q: int| 0 <= q < hashes@.len() implies exists|k: int|
                    0 <= k < i + 1 && (#[trigger] history@[k]).hash@ == (#[trigger] hashes@[q])@ by {
                    if q < h0.len() {
                        assert(hashes@[q] == h0[q]);
                    } else {
                        assert(history@[i as int].hash@ == hashes@[q]@);
                    }
                }
            }
        }
        i = i + 1;
    }
    proof {
        assert(history@.take(history.len() as int) =~= history@);
    }
    hashes
}

/// The updates for a wallet's listed history (see [`counted`] and
/// [`group_ops`]): for each hash, in the order hashes first occur, the
/// updates of the last entry listed with it.
pub fn history_db_ops(history: &Vec<HistoryTx>) -> (r: Vec<DbOp>)
    requires
        forall|m: int| 0 <= m < counted(history@).len() ==> #[trigger] tx_ready(counted(history@)[m]),
    ensures
        ops_view(r@) == plan_ops(counted(history@)),
{
    let ghost cv = counted(history@);
    let hashes = distinct_hash_list(history);
    let ghost hv = hashes@.map_values(|h: String| h@);
    let mut out: Vec<DbOp> = Vec::new();
    let mut k: usize = 0;
    while k < hashes.len()
        invariant
            k <= hashes.len(),
            hv == hashes@.map_values(|h: String| h@),
            hv == distinct_hashes(history@),
            cv == counted(history@),
            forall|m: int|
                0 <= m < hashes@.len() ==> exists|k2: int|
                    0 <= k2 < history@.len() && (#[trigger] history@[k2]).hash@ == (#[trigger] hashes@[m])@,
            forall|m: int| 0 <= m < cv.len() ==> #[trigger] tx_ready(cv[m]),
            ops_view(out@) == plan_ops(cv.take(k as int)),
        decreases hashes.len() - k,
    {
        let j = last_index_exec(history, &hashes[k]);
        let t = &history[j];
        proof {
            assert(cv[k as int] == history@[j as int]);
            assert(cv.take(k + 1).drop_last() =~= cv.take(k as int));
            assert(cv.take(k + 1).last() == *t);
            assert(tx_ready(cv[k as int]));
        }
        let mut g: usize = 0;
        let ghost o0 = ops_view(out@);
        while g < t.events.len()
            invariant
                g <= t.events.len(),
                tx_ready(*t),
                ops_view(out@) == o0 + groups_ops(t.events@.take(g as int), t.hash, t.time, t.sender),
            decreases t.events.len() - g,
        {
            proof {
                assert(t.events@.take(g + 1).drop_last() =~= t.events@.take(g as int));
                assert(t.events@.take(g + 1).last() == t.events@[g as int]);
                assert(group_ready(events_view(t.events@[g as int].events@)));
            }
            let mut part = group_db_ops(&t.events[g].events, &t.hash, &t.time, &t.sender);
            let ghost before = out@;
            let ghost pv = part@;
            out.append(&mut part);
            proof {
                assert(out@ =~= before + pv);
                assert(ops_view(out@) =~= ops_view(before) + ops_view(pv));
            }
            g = g + 1;
        }
        proof {
            assert(t.events@.take(t.events.len() as int) =~= t.events@);
        }
        k = k + 1;
    }
    proof {
        assert(cv.take(hashes.len() as int) =~= cv);
    }
    out
}

/// Whether the NFT trade of a message can be read (see
/// [`group_trade_defined`]).
fn group_trade_fits(events: &Vec<Event>) -> (r: bool)
    ensures
        r == group_trade_defined(events_view(events@)),
{
    let ghost es = events_view(events@);
    let wi = find_type(events, "wasm");
    if any_wasm_with(events, "mint_nft", "", false) {
        proof {
            let k = choose|k: int|
                0 <= k < es.len() && es[k]._type == "wasm"@ && #[trigger] has_value(es[k].attributes, "mint_nft"@);
            assert(has_type(es, "wasm"@));
        }
        let wi = wi.unwrap();
        mint_fits(&events[wi].attributes)
    } else if any_wasm_with(events, "batch_bids", "transfer_nft", true) && any_type(events, "wasm-buy_now") {
        paired_fits(events, "wasm-buy_now", "nft_token_id", 2, 0)
    } else if any_wasm_with(events, "fixed_sell", "", false) {
        proof {
            let k = choose|k: int|
                0 <= k < es.len() && es[k]._type == "wasm"@ && #[trigger] has_value(es[k].attributes, "fixed_sell"@);
            assert(has_type(es, "wasm"@));
        }
        let wi = wi.unwrap();
        fixed_sell_fits(&events[wi].attributes)
    } else if transfer_panics_exec(events) {
        false
    } else if is_only_transfer(events) {
        proof {
            let k = choose|k: int| 0 <= k < es.len() && #[trigger] crate::nft_parse::good_transfer(es[k]);
            assert(has_type(es, "wasm"@));
        }
        let wi = wi.unwrap();
        transfer_fits(&events[wi].attributes)
    } else if any_type(events, "wasm") && any_type(events, "wasm-create_auction") {
        paired_fits(events, "wasm-create_auction", "token_id", 0, 3)
    } else if any_type(events, "wasm") && any_type(events, "wasm-cancel_auction") {
        paired_fits(events, "wasm-cancel_auction", "token_id", 0, 2)
    } else if any_wasm_with(events, "purchase_cart", "transfer_nft", true) && any_type(events, "wasm-buy_now") {
        paired_fits(events, "wasm-buy_now", "token_id", 0, 5)
    } else if let Some(ci) = find_type(events, "wasm-create_auction") {
        listing_fits(&events[ci].attributes)
    } else if any_type(events, "wasm") && any_type(events, "wasm-accept_bid") {
        paired_fits(events, "wasm-accept_bid", "token_id", 0, 12)
    } else {
        true
    }
}

/// Whether a message of a listed transaction can be read (see
/// [`group_ready`]).
fn group_fits(events: &Vec<Event>) -> (r: bool)
    ensures
        r == group_ready(events_view(events@)),
{
    let ghost es = events_view(events@);
    if some_event_of(events, 1) {
        group_trade_fits(events)
    } else if routed_swap_exec(events) || some_event_of(events, 0) {
        proof {
            if routed_swap(es) {
                let k = choose|k: int| 0 <= k < es.len() && #[trigger] routed_swap_event(es[k]);
                assert(es[k]._type == "wasm"@);
            } else {
                let k = choose|k: int| 0 <= k < es.len() && #[trigger] crate::routing::event_is(es[k], 0);
                assert(es[k]._type == "wasm"@);
            }
            assert(has_type(es, "wasm"@));
        }
        let wi = find_type(events, "wasm").unwrap();
        swap_fits(&events[wi].attributes)
    } else {
        true
    }
}

/// Whether every entry that counts in a wallet's listed history can be
/// read, so that [`history_db_ops`] may be called on it.
pub fn history_readable(history: &Vec<HistoryTx>) -> (r: bool)
    ensures
        r == forall|m: int| 0 <= m < counted(history@).len() ==> #[trigger] tx_ready(counted(history@)[m]),
{
    let ghost cv = counted(history@);
    let hashes = distinct_hash_list(history);
    let ghost hv = hashes@.map_values(|h: String| h@);
    let mut k: usize = 0;
    while k < hashes.len()
        invariant
            k <= hashes.len(),
            hv == hashes@.map_values(|h: String| h@),
            hv == distinct_hashes(history@),
            cv == counted(history@),
            forall|m: int|
                0 <= m < hashes@.len() ==> exists|k2: int|
                    0 <= k2 < history@.len() && (#[trigger] history@[k2]).hash@ == (#[trigger] hashes@[m])@,
            forall|m: int| 0 <= m < k ==> #[trigger] tx_ready(cv[m]),
        decreases hashes.len() - k,
    {
        let j = last_index_exec(history, &hashes[k]);
        let t = &history[j];
        proof {
            assert(cv[k as int] == history@[j as int]);
            assert(cv.len() == hv.len());
        }
        let mut g: usize = 0;
        while g < t.events.len()
            invariant
                g <= t.events.len(),
                cv == counted(history@),
                0 <= k < cv.len(),
                cv[k as int] == *t,
                forall|q: int| 0 <= q < g ==> #[trigger] group_ready(events_view(t.events@[q].events@)),
            decreases t.events.len() - g,
        {
            if !group_fits(&t.events[g].events) {
                proof {
                    assert(!tx_ready(cv[k as int]));
                }
                return false;
            }
            g = g + 1;
        }
        k = k + 1;
    }
    true
}


/// [`distinct_hashes`] holds no hash twice and holds exactly the hashes of `v`.
proof fn lemma_distinct_hashes(v: Seq<HistoryTx>)
    ensures
        forall|a: int, b: int|
            0 <= a < b < distinct_hashes(v).len() ==> (#[trigger] distinct_hashes(v)[a]) != (
            #[trigger] distinct_hashes(v)[b]),
        forall|x: Seq<char>|
            #[trigger] distinct_hashes(v).contains(x) <==> exists|i: int| 0 <= i < v.len() && (#[trigger] v[i]).hash@ == x,
    decreases v.len(),
{
    if v.len() > 0 {
        let q = v.drop_last();
        let l = v.last().hash@;
        lemma_distinct_hashes(q);
        let p = distinct_hashes(q);
        assert forall|x: Seq<char>|
            (exists|i: int| 0 <= i < v.len() && (#[trigger] v[i]).hash@ == x) <==> (#[trigger] p.contains(x) || x == l) by {
            if exists|i: int| 0 <= i < v.len() && (#[trigger] v[i]).hash@ == x {
                let i = choose|i: int| 0 <= i < v.len() && (#[trigger] v[i]).hash@ == x;
                if i < v.len() - 1 {
                    assert(q[i] == v[i]);
                }
            }
            if p.contains(x) {
                let i = choose|i: int| 0 <= i < q.len() && (#[trigger] q[i]).hash@ == x;
                assert(v[i] == q[i]);
            }
            if x == l {
                assert(v[v.len() - 1].hash@ == x);
            }
        }
        if !p.contains(l) {
            let d = p.push(l);
            assert forall|x: Seq<char>| d.contains(x) <==> (#[trigger] p.contains(x) || x == l) by {
                if d.contains(x) {
                    let i = choose|i: int| 0 <= i < d.len() && d[i] == x;
                    if i < p.len() {
                        assert(p[i] == x);
                    }
                }
                if p.contains(x) {
                    let i = choose|i: int| 0 <= i < p.len() && p[i] == x;
                    assert(d[i] == x);
                }
                if x == l {
                    assert(d[p.len() as int] == x);
                }
            }
            assert forall|a: int, b: int| 0 <= a < b < d.len() implies (#[trigger] d[a]) != (#[trigger] d[b]) by {
                if b == p.len() {
                    assert(d[a] == p[a]);
                    assert(p.contains(p[a]));
                } else {
                    assert(d[a] == p[a] && d[b] == p[b]);
                }
            }
        }
        assert forall|x: Seq<char>| #[trigger] distinct_hashes(v).contains(x) <==> exists|i: int|
            0 <= i < v.len() && (#[trigger] v[i]).hash@ == x by {
            if x == l {
                assert(v[v.len() - 1].hash@ == x);
            }
            assert(p.contains(x) <==> exists|i: int| 0 <= i < q.len() && (#[trigger] q[i]).hash@ == x);
        }
    }
}

/// Each hash of a listed history counts once: no two counted entries share a
/// hash, every listed hash has a counted entry, and the entry that counts is
/// the last one listed with its hash.
pub proof fn law_each_hash_counted_once(v: Seq<HistoryTx>)
    ensures
        forall|a: int, b: int|
            0 <= a < b < counted(v).len() ==> (#[trigger] counted(v)[a]).hash@ != (#[trigger] counted(v)[b]).hash@,
        forall|i: int|
            0 <= i < v.len() ==> exists|m: int|
                0 <= m < counted(v).len() && (#[trigger] counted(v)[m]).hash@ == (#[trigger] v[i]).hash@,
        forall|m: int|
            0 <= m < counted(v).len() ==> exists|k: int|
                0 <= k < v.len() && #[trigger] counted(v)[m] == v[k] && forall|j: int|
                    k < j < v.len() ==> (#[trigger] v[j]).hash@ != v[k].hash@,
{
    let d = distinct_hashes(v);
    let c = counted(v);
    lemma_distinct_hashes(v);
    assert forall|m: int| 0 <= m < d.len() implies {
        &&& 0 <= last_index(v, d[m]) < v.len()
        &&& (#[trigger] c[m]) == v[last_index(v, d[m])]
        &&& c[m].hash@ == d[m]
        &&& forall|j: int| last_index(v, d[m]) < j < v.len() ==> (#[trigger] v[j]).hash@ != d[m]
    } by {
        assert(d.contains(d[m]));
        lemma_last_index(v, d[m]);
        let i = choose|i: int| 0 <= i < v.len() && (#[trigger] v[i]).hash@ == d[m];
        assert(v[i].hash@ == d[m]);
    }
    assert forall|a: int, b: int| 0 <= a < b < c.len() implies (#[trigger] c[a]).hash@ != (#[trigger] c[b]).hash@ by {
        assert(d[a] != d[b]);
    }
    assert forall|i: int| 0 <= i < v.len() implies exists|m: int|
        0 <= m < c.len() && (#[trigger] c[m]).hash@ == (#[trigger] v[i]).hash@ by {
        assert(d.contains(v[i].hash@));
        let m = choose|m: int| 0 <= m < d.len() && d[m] == v[i].hash@;
        assert(c[m].hash@ == d[m]);
    }
    assert forall|m: int| 0 <= m < c.len() implies exists|k: int|
        0 <= k < v.len() && #[trigger] c[m] == v[k] && forall|j: int|
            k < j < v.len() ==> (#[trigger] v[j]).hash@ != v[k].hash@ by {
        let k = last_index(v, d[m]);
        assert(c[m] == v[k]);
    }
}

} // verus!
