//! Where a transaction goes and what it changes in the store: which
//! transactions the live searcher and the block scanner pass on as token
//! swaps or NFT trades, and the store updates that each NFT message asks
//! for.
use vstd::prelude::*;
use crate::model::{
    Attribute, Event, EventView, HashData, Log, NFTtransaction, NftMessage, NftMessageView,
    OnlyCreateAuction, TokenSwap, TransferNft, _NftTransaction, events_view, moved_by,
};
use crate::select::{any_value, has_type, has_value};
use crate::text::{concat, is_lit, owned};

verus! {

// ---------------------------------------------------------------------------
// Routing a transaction
// ---------------------------------------------------------------------------

/// Where a transaction is passed on to.
#[derive(Debug, PartialEq, Eq, Structural)]
pub enum Route {
    /// To the token swap reader.
    Token,
    /// To the NFT trade reader.
    Nft,
    /// Nowhere.
    Skip,
}

/// Some attribute names a transfer, batch bid, cart purchase or mint.
pub open spec fn nft_value(a: Seq<Attribute>) -> bool {
    has_value(a, "transfer_nft"@) || has_value(a, "batch_bids"@) || has_value(a, "purchase_cart"@)
        || has_value(a, "mint_nft"@)
}

/// An event type that a marketplace emits for an NFT trade.
pub open spec fn nft_event_type(t: Seq<char>) -> bool {
    ||| t == "wasm-accept_bid"@
    ||| t == " wasm-removed_token_from_offers"@
    ||| t == "wasm-create_auction"@
    ||| t == "wasm-place_bid"@
    ||| t == "wasm-cancel_auction"@
    ||| t == "wasm-buy_now"@
    ||| t == "wasm-withdraw_bid"@
}

/// What an event is tested for: 0 a `wasm` swap, 1 a `wasm` NFT action or
/// a marketplace NFT event, 2 a `wasm` NFT action, 3 a marketplace NFT
/// event.
pub open spec fn event_is(e: EventView, which: u8) -> bool {
    if which == 0 {
        e._type == "wasm"@ && has_value(e.attributes, "swap"@)
    } else if which == 1 {
        nft_event_type(e._type) || (e._type == "wasm"@ && nft_value(e.attributes))
    } else if which == 2 {
        e._type == "wasm"@ && nft_value(e.attributes)
    } else {
        nft_event_type(e._type)
    }
}

/// Some event of `es` passes the test `which`.
pub open spec fn some_event(es: Seq<EventView>, which: u8) -> bool {
    exists|j: int| 0 <= j < es.len() && #[trigger] event_is(es[j], which)
}

/// The events of log `i`.
pub open spec fn log_events(logs: Seq<Log>, i: int) -> Seq<EventView> {
    events_view(logs[i].events@)
}

/// Some log has an event that passes the test `which`.
pub open spec fn some_log(logs: Seq<Log>, which: u8) -> bool {
    exists|i: int| 0 <= i < logs.len() && #[trigger] some_event(log_events(logs, i), which)
}

/// How the block scanner reads a log as an NFT trade: where the log has a
/// `wasm` event, by its `wasm` NFT actions; otherwise by its marketplace NFT
/// events.
pub open spec fn scan_nft_log(es: Seq<EventView>) -> bool {
    if has_type(es, "wasm"@) {
        some_event(es, 2)
    } else {
        some_event(es, 3)
    }
}

/// Where the live searcher passes a transaction: failed ones nowhere; one
/// with a `wasm` swap to the token reader; else one with an NFT action or
/// marketplace NFT event to the NFT reader; else nowhere.
pub open spec fn searcher_route_of(h: HashData) -> Route {
    if h.tx_response.code != 0 {
        Route::Skip
    } else if some_log(h.tx_response.logs@, 0) {
        Route::Token
    } else if some_log(h.tx_response.logs@, 1) {
        Route::Nft
    } else {
        Route::Skip
    }
}

/// Where the block scanner passes a transaction: as the searcher does, but
/// each log is read as an NFT trade by [`scan_nft_log`].
pub open spec fn scan_route_of(h: HashData) -> Route {
    let logs = h.tx_response.logs@;
    if h.tx_response.code != 0 {
        Route::Skip
    } else if exists|i: int|
        0 <= i < logs.len() && has_type(log_events(logs, i), "wasm"@) && #[trigger] some_event(
            log_events(logs, i),
            0,
        ) {
        Route::Token
    } else if exists|i: int| 0 <= i < logs.len() && #[trigger] scan_nft_log(log_events(logs, i)) {
        Route::Nft
    } else {
        Route::Skip
    }
}

fn nft_value_exec(a: &Vec<Attribute>) -> (r: bool)
    ensures
        r == nft_value(a@),
{
    any_value(a, "transfer_nft") || any_value(a, "batch_bids") || any_value(a, "purchase_cart")
        || any_value(a, "mint_nft")
}

fn nft_event_type_exec(t: &String) -> (r: bool)
    ensures
        r == nft_event_type(t@),
{
    is_lit(t, "wasm-accept_bid") || is_lit(t, " wasm-removed_token_from_offers") || is_lit(
        t,
        "wasm-create_auction",
    ) || is_lit(t, "wasm-place_bid") || is_lit(t, "wasm-cancel_auction") || is_lit(t, "wasm-buy_now")
        || is_lit(t, "wasm-withdraw_bid")
}

pub fn event_is_exec(e: &Event, which: u8) -> (r: bool)
    ensures
        r == event_is(e@, which),
{
    if which == 0 {
        is_lit(&e._type, "wasm") && any_value(&e.attributes, "swap")
    } else if which == 1 {
        nft_event_type_exec(&e._type) || (is_lit(&e._type, "wasm") && nft_value_exec(&e.attributes))
    } else if which == 2 {
        is_lit(&e._type, "wasm") && nft_value_exec(&e.attributes)
    } else {
        nft_event_type_exec(&e._type)
    }
}

/// Whether some event passes the test `which`.
fn some_event_exec(events: &Vec<Event>, which: u8) -> (r: bool)
    ensures
        r == some_event(events_view(events@), which),
{
    let ghost es = events_view(events@);
    let mut j: usize = 0;
    while j < events.len()
        invariant
            j <= events.len(),
            es == events_view(events@),
            forall|k: int| 0 <= k < j ==> !#[trigger] event_is(es[k], which),
        decreases events.len() - j,
    {
        proof {
            assert(es[j as int] == events@[j as int]@);
        }
        if event_is_exec(&events[j], which) {
            return true;
        }
        j = j + 1;
    }
    false
}

fn has_wasm(events: &Vec<Event>) -> (r: bool)
    ensures
        r == has_type(events_view(events@), "wasm"@),
{
    crate::select::any_type(events, "wasm")
}

/// Where the live searcher passes the transaction (see [`searcher_route_of`]).
pub fn searcher_route(hash_data: &HashData) -> (r: Route)
    ensures
        r == searcher_route_of(*hash_data),
{
    if hash_data.tx_response.code != 0 {
        return Route::Skip;
    }
    let logs = &hash_data.tx_response.logs;
    let mut token = false;
    let mut nft = false;
    let mut i: usize = 0;
    while i < logs.len()
        invariant
            i <= logs.len(),
            token == exists|k: int| 0 <= k < i && #[trigger] some_event(log_events(logs@, k), 0),
            nft == exists|k: int| 0 <= k < i && #[trigger] some_event(log_events(logs@, k), 1),
        decreases logs.len() - i,
    {
        let s = some_event_exec(&logs[i].events, 0);
        let n = some_event_exec(&logs[i].events, 1);
        proof {
            assert(s == some_event(log_events(logs@, i as int), 0));
            assert(n == some_event(log_events(logs@, i as int), 1));
        }
        if s {
            token = true;
        }
        if n {
            nft = true;
        }
        i = i + 1;
    }
    if token {
        Route::Token
    } else if nft {
        Route::Nft
    } else {
        Route::Skip
    }
}

/// Where the block scanner passes the transaction (see [`scan_route_of`]).
pub fn scan_route(hash_data: &HashData) -> (r: Route)
    ensures
        r == scan_route_of(*hash_data),
{
    if hash_data.tx_response.code != 0 {
        return Route::Skip;
    }
    let logs = &hash_data.tx_response.logs;
    let mut token = false;
    let mut nft = false;
    let mut i: usize = 0;
    while i < logs.len()
        invariant
            i <= logs.len(),
            token == exists|k: int|
                0 <= k < i && has_type(log_events(logs@, k), "wasm"@) && #[trigger] some_event(
                    log_events(logs@, k),
                    0,
                ),
            nft == exists|k: int| 0 <= k < i && #[trigger] scan_nft_log(log_events(logs@, k)),
        decreases logs.len() - i,
    {
        let es = &logs[i].events;
        let w = has_wasm(es);
        let s = some_event_exec(es, 0);
        if w && s {
            token = true;
        }
        let n = if w {
            some_event_exec(es, 2)
        } else {
            some_event_exec(es, 3)
        };
        proof {
            assert(s == some_event(log_events(logs@, i as int), 0));
            assert(n == scan_nft_log(log_events(logs@, i as int)));
        }
        if n {
            nft = true;
        }
        i = i + 1;
    }
    if token {
        Route::Token
    } else if nft {
        Route::Nft
    } else {
        Route::Skip
    }
}

/// The block scanner passes a transaction on as a token swap exactly where
/// the live searcher does: a log with a `wasm` swap event has a `wasm`
/// event.
pub proof fn law_token_routes_agree(h: HashData)
    ensures
        (searcher_route_of(h) == Route::Token) == (scan_route_of(h) == Route::Token),
{
    let logs = h.tx_response.logs@;
    if some_log(logs, 0) {
        let i = choose|i: int| 0 <= i < logs.len() && #[trigger] some_event(log_events(logs, i), 0);
        let j = choose|j: int| 0 <= j < log_events(logs, i).len() && #[trigger] event_is(
            log_events(logs, i)[j],
            0,
        );
        assert(log_events(logs, i)[j]._type == "wasm"@);
        assert(has_type(log_events(logs, i), "wasm"@));
    }
}

// ---------------------------------------------------------------------------
// Store updates for NFT messages
// ---------------------------------------------------------------------------

/// One update of the store.
#[derive(Debug)]
pub enum DbOp {
    /// The NFT `token_id` of `collection` joins (`operate` is `add`) or
    /// leaves (`del`) the wallet's holdings.
    Holding { wallet: String, collection: String, token_id: String, operate: String },
    /// The transaction joins the wallet's NFT history.
    NftHistory { wallet: String, transaction: NFTtransaction },
    /// The swap joins the wallet's token history.
    TokenHistory { wallet: String, swap: TokenSwap },
    /// The listing joins the collection's listings.
    Listings { collection: String, listing: OnlyCreateAuction },
}

/// The texts of a swap.
pub struct SwapText {
    pub account: Seq<char>,
    pub source_token: Seq<char>,
    pub target_token: Seq<char>,
    pub source_amount: Seq<char>,
    pub target_amount: Seq<char>,
    pub trade_type: Seq<char>,
    pub tx: Seq<char>,
    pub ts: Seq<char>,
}

/// The texts of a swap.
pub open spec fn swap_text(s: TokenSwap) -> SwapText {
    SwapText {
        account: s.account@,
        source_token: s.source_token@,
        target_token: s.target_token@,
        source_amount: s.source_amount@,
        target_amount: s.target_amount@,
        trade_type: s.trade_type@,
        tx: s.tx@,
        ts: s.ts@,
    }
}

/// What a [`DbOp`] holds, as text.
pub enum DbOpView {
    Holding { wallet: Seq<char>, collection: Seq<char>, token_id: Seq<char>, operate: Seq<char> },
    NftHistory { wallet: Seq<char>, kind: Seq<char>, transaction: _NftTransaction },
    TokenHistory { wallet: Seq<char>, swap: SwapText },
    Listings { collection: Seq<char>, listing: OnlyCreateAuction },
}

impl View for DbOp {
    type V = DbOpView;

    open spec fn view(&self) -> DbOpView {
        match self {
            DbOp::Holding { wallet, collection, token_id, operate } => DbOpView::Holding {
                wallet: wallet@,
                collection: collection@,
                token_id: token_id@,
                operate: operate@,
            },
            DbOp::NftHistory { wallet, transaction } => DbOpView::NftHistory {
                wallet: wallet@,
                kind: transaction._type@,
                transaction: transaction.transaction,
            },
            DbOp::TokenHistory { wallet, swap } => DbOpView::TokenHistory {
                wallet: wallet@,
                swap: swap_text(*swap),
            },
            DbOp::Listings { collection, listing } => DbOpView::Listings {
                collection: collection@,
                listing: *listing,
            },
        }
    }
}

/// The views of a sequence of updates.
pub open spec fn ops_view(v: Seq<DbOp>) -> Seq<DbOpView> {
    v.map_values(|o: DbOp| o@)
}

/// The name a kind of NFT transaction is stored under.
pub open spec fn tx_kind(t: _NftTransaction) -> Seq<char> {
    match t {
        _NftTransaction::AcceptBid(_) => "accpet_bid_nft"@,
        _NftTransaction::CretaeAuction(_) => "create_auction_nft"@,
        _NftTransaction::CancelAuction(_) => "cancel_auction_nft"@,
        _NftTransaction::OnlyTransfer(_) => "only_transfer_nft"@,
        _NftTransaction::BatchBids(_) => "batch_bids_nft"@,
        _NftTransaction::PurchaseCart(_) => "purchase_cart_nft"@,
        _NftTransaction::Mint(_) => "mint_nft"@,
        _NftTransaction::FixedSell(_) => "fixed_price"@,
        _NftTransaction::Unkonw => Seq::empty(),
    }
}

/// The updates for a trade moving an NFT from a sender to a recipient:
/// (where `holdings` is kept) the NFT leaves the sender's holdings and joins
/// the recipient's; then the trade joins the sender's and the recipient's
/// histories.
pub open spec fn transfer_ops(tr: TransferNft, t: _NftTransaction, holdings: bool) -> Seq<DbOpView> {
    let hist = seq![
        DbOpView::NftHistory { wallet: tr.sender@, kind: tx_kind(t), transaction: t },
        DbOpView::NftHistory { wallet: tr.recipient@, kind: tx_kind(t), transaction: t },
    ];
    if holdings {
        seq![
            DbOpView::Holding {
                wallet: tr.sender@,
                collection: tr.collection@,
                token_id: tr.token_id@,
                operate: "del"@,
            },
            DbOpView::Holding {
                wallet: tr.recipient@,
                collection: tr.collection@,
                token_id: tr.token_id@,
                operate: "add"@,
            },
        ] + hist
    } else {
        hist
    }
}

/// The updates for one NFT transaction; a mint only concerns its recipient.
pub open spec fn tx_ops(t: _NftTransaction, holdings: bool) -> Seq<DbOpView> {
    match t {
        _NftTransaction::Mint(m) => {
            let hist = seq![
                DbOpView::NftHistory { wallet: m.recipient@, kind: tx_kind(t), transaction: t },
            ];
            if holdings {
                seq![
                    DbOpView::Holding {
                        wallet: m.recipient@,
                        collection: m.collection@,
                        token_id: m.token_id@,
                        operate: "add"@,
                    },
                ] + hist
            } else {
                hist
            }
        },
        _NftTransaction::OnlyTransfer(d) => transfer_ops(d, t, holdings),
        _NftTransaction::AcceptBid(d) => transfer_ops(d.transfer, t, holdings),
        _NftTransaction::BatchBids(d) => transfer_ops(d.transfer, t, holdings),
        _NftTransaction::CancelAuction(d) => transfer_ops(d.transfer, t, holdings),
        _NftTransaction::CretaeAuction(d) => transfer_ops(d.transfer, t, holdings),
        _NftTransaction::PurchaseCart(d) => transfer_ops(d.transfer, t, holdings),
        _NftTransaction::FixedSell(d) => transfer_ops(d.transfer, t, holdings),
        _NftTransaction::Unkonw => Seq::empty(),
    }
}

/// The updates for the transactions, in order.
pub open spec fn txs_ops(ts: Seq<_NftTransaction>, holdings: bool) -> Seq<DbOpView>
    decreases ts.len(),
{
    if ts.len() == 0 {
        Seq::empty()
    } else {
        txs_ops(ts.drop_last(), holdings) + tx_ops(ts.last(), holdings)
    }
}

/// The trades of an NFT message, each as an NFT transaction.
pub open spec fn msg_txs(m: NftMessageView) -> Seq<_NftTransaction> {
    match m {
        NftMessageView::Mint(v) => v.map_values(|x| _NftTransaction::Mint(x)),
        NftMessageView::BatchBids(v) => v.map_values(|x| _NftTransaction::BatchBids(x)),
        NftMessageView::OnlyTransferNft(v) => v.map_values(|x| _NftTransaction::OnlyTransfer(x)),
        NftMessageView::CretaeAuctionNft(v) => v.map_values(|x| _NftTransaction::CretaeAuction(x)),
        NftMessageView::CancelAuctionNft(v) => v.map_values(|x| _NftTransaction::CancelAuction(x)),
        NftMessageView::PurchaseCartNft(v) => v.map_values(|x| _NftTransaction::PurchaseCart(x)),
        NftMessageView::AcceptBidNft(v) => v.map_values(|x| _NftTransaction::AcceptBid(x)),
        NftMessageView::FixedSellNft(v) => v.map_values(|x| _NftTransaction::FixedSell(x)),
        _ => Seq::empty(),
    }
}

/// The updates for listings: each joins its collection's listings.
pub open spec fn listing_ops(ls: Seq<OnlyCreateAuction>) -> Seq<DbOpView> {
    ls.map_values(|l: OnlyCreateAuction| DbOpView::Listings { collection: l.collection_address@, listing: l })
}

/// The trades of a message, each as an NFT transaction.
fn message_txs(m: &NftMessage) -> (r: Vec<_NftTransaction>)
    ensures
        r@ == msg_txs(m@),
{
    let mut out: Vec<_NftTransaction> = Vec::new();
    match m {
        NftMessage::Mint(v) => {
            let mut i: usize = 0;
            while i < v.len()
                invariant
                    i <= v.len(),
                    out@ == v@.take(i as int).map_values(|x| _NftTransaction::Mint(x)),
                decreases v.len() - i,
            {
                out.push(_NftTransaction::Mint(v[i].clone()));
                proof {
                    assert(out@ =~= v@.take(i + 1).map_values(|x| _NftTransaction::Mint(x)));
                }
                i = i + 1;
            }
            proof {
                assert(v@.take(v.len() as int) =~= v@);
            }
        },
        NftMessage::BatchBids(v) => {
            let mut i: usize = 0;
            while i < v.len()
                invariant
                    i <= v.len(),
                    out@ == v@.take(i as int).map_values(|x| _NftTransaction::BatchBids(x)),
                decreases v.len() - i,
            {
                out.push(_NftTransaction::BatchBids(v[i].clone()));
                proof {
                    assert(out@ =~= v@.take(i + 1).map_values(|x| _NftTransaction::BatchBids(x)));
                }
                i = i + 1;
            }
            proof {
                assert(v@.take(v.len() as int) =~= v@);
            }
        },
        NftMessage::OnlyTransferNft(v) => {
            let mut i: usize = 0;
            while i < v.len()
                invariant
                    i <= v.len(),
                    out@ == v@.take(i as int).map_values(|x| _NftTransaction::OnlyTransfer(x)),
                decreases v.len() - i,
            {
                out.push(_NftTransaction::OnlyTransfer(v[i].clone()));
                proof {
                    assert(out@ =~= v@.take(i + 1).map_values(|x| _NftTransaction::OnlyTransfer(x)));
                }
                i = i + 1;
            }
            proof {
                assert(v@.take(v.len() as int) =~= v@);
            }
        },
        NftMessage::CretaeAuctionNft(v) => {
            let mut i: usize = 0;
            while i < v.len()
                invariant
                    i <= v.len(),
                    out@ == v@.take(i as int).map_values(|x| _NftTransaction::CretaeAuction(x)),
                decreases v.len() - i,
            {
                out.push(_NftTransaction::CretaeAuction(v[i].clone()));
                proof {
                    assert(out@ =~= v@.take(i + 1).map_values(|x| _NftTransaction::CretaeAuction(x)));
                }
                i = i + 1;
            }
            proof {
                assert(v@.take(v.len() as int) =~= v@);
            }
        },
        NftMessage::CancelAuctionNft(v) => {
            let mut i: usize = 0;
            while i < v.len()
                invariant
                    i <= v.len(),
                    out@ == v@.take(i as int).map_values(|x| _NftTransaction::CancelAuction(x)),
                decreases v.len() - i,
            {
                out.push(_NftTransaction::CancelAuction(v[i].clone()));
                proof {
                    assert(out@ =~= v@.take(i + 1).map_values(|x| _NftTransaction::CancelAuction(x)));
                }
                i = i + 1;
            }
            proof {
                assert(v@.take(v.len() as int) =~= v@);
            }
        },
        NftMessage::PurchaseCartNft(v) => {
            let mut i: usize = 0;
            while i < v.len()
                invariant
                    i <= v.len(),
                    out@ == v@.take(i as int).map_values(|x| _NftTransaction::PurchaseCart(x)),
                decreases v.len() - i,
            {
                out.push(_NftTransaction::PurchaseCart(v[i].clone()));
                proof {
                    assert(out@ =~= v@.take(i + 1).map_values(|x| _NftTransaction::PurchaseCart(x)));
                }
                i = i + 1;
            }
            proof {
                assert(v@.take(v.len() as int) =~= v@);
            }
        },
        NftMessage::AcceptBidNft(v) => {
            let mut i: usize = 0;
            while i < v.len()
                invariant
                    i <= v.len(),
                    out@ == v@.take(i as int).map_values(|x| _NftTransaction::AcceptBid(x)),
                decreases v.len() - i,
            {
                out.push(_NftTransaction::AcceptBid(v[i].clone()));
                proof {
                    assert(out@ =~= v@.take(i + 1).map_values(|x| _NftTransaction::AcceptBid(x)));
                }
                i = i + 1;
            }
            proof {
                assert(v@.take(v.len() as int) =~= v@);
            }
        },
        NftMessage::FixedSellNft(v) => {
            let mut i: usize = 0;
            while i < v.len()
                invariant
                    i <= v.len(),
                    out@ == v@.take(i as int).map_values(|x| _NftTransaction::FixedSell(x)),
                decreases v.len() - i,
            {
                out.push(_NftTransaction::FixedSell(v[i].clone()));
                proof {
                    assert(out@ =~= v@.take(i + 1).map_values(|x| _NftTransaction::FixedSell(x)));
                }
                i = i + 1;
            }
            proof {
                assert(v@.take(v.len() as int) =~= v@);
            }
        },
        _ => {},
    }
    out
}

fn history_op(wallet: &String, t: &_NftTransaction, kind: &str) -> (r: DbOp)
    ensures
        r@ == (DbOpView::NftHistory { wallet: wallet@, kind: kind@, transaction: *t }),
{
    DbOp::NftHistory {
        wallet: wallet.clone(),
        transaction: NFTtransaction { transaction: t.clone(), _type: owned(kind) },
    }
}

fn holding_op(wallet: &String, collection: &String, token_id: &String, operate: &str) -> (r: DbOp)
    ensures
        r@ == (DbOpView::Holding {
            wallet: wallet@,
            collection: collection@,
            token_id: token_id@,
            operate: operate@,
        }),
{
    DbOp::Holding {
        wallet: wallet.clone(),
        collection: collection.clone(),
        token_id: token_id.clone(),
        operate: owned(operate),
    }
}

fn push_transfer_ops(out: &mut Vec<DbOp>, tr: &TransferNft, t: &_NftTransaction, kind: &str, holdings: bool)
    requires
        kind@ == tx_kind(*t),
    ensures
        ops_view(final(out)@) == ops_view(old(out)@) + transfer_ops(*tr, *t, holdings),
{
    let ghost o0 = ops_view(out@);
    if holdings {
        out.push(holding_op(&tr.sender, &tr.collection, &tr.token_id, "del"));
        out.push(holding_op(&tr.recipient, &tr.collection, &tr.token_id, "add"));
    }
    out.push(history_op(&tr.sender, t, kind));
    out.push(history_op(&tr.recipient, t, kind));
    proof {
        assert(ops_view(out@) =~= o0 + transfer_ops(*tr, *t, holdings));
    }
}

fn push_tx_ops(out: &mut Vec<DbOp>, t: &_NftTransaction, holdings: bool)
    ensures
        ops_view(final(out)@) == ops_view(old(out)@) + tx_ops(*t, holdings),
{
    let ghost o0 = ops_view(out@);
    match t {
        _NftTransaction::Mint(m) => {
            if holdings {
                out.push(holding_op(&m.recipient, &m.collection, &m.token_id, "add"));
            }
            out.push(history_op(&m.recipient, t, "mint_nft"));
            proof {
                assert(ops_view(out@) =~= o0 + tx_ops(*t, holdings));
            }
        },
        _NftTransaction::OnlyTransfer(d) => push_transfer_ops(out, d, t, "only_transfer_nft", holdings),
        _NftTransaction::AcceptBid(d) => push_transfer_ops(out, &d.transfer, t, "accpet_bid_nft", holdings),
        _NftTransaction::BatchBids(d) => push_transfer_ops(out, &d.transfer, t, "batch_bids_nft", holdings),
        _NftTransaction::CancelAuction(d) => push_transfer_ops(
            out,
            &d.transfer,
            t,
            "cancel_auction_nft",
            holdings,
        ),
        _NftTransaction::CretaeAuction(d) => push_transfer_ops(
            out,
            &d.transfer,
            t,
            "create_auction_nft",
            holdings,
        ),
        _NftTransaction::PurchaseCart(d) => push_transfer_ops(
            out,
            &d.transfer,
            t,
            "purchase_cart_nft",
            holdings,
        ),
        _NftTransaction::FixedSell(d) => push_transfer_ops(out, &d.transfer, t, "fixed_price", holdings),
        _NftTransaction::Unkonw => {
            proof {
                assert(ops_view(out@) =~= o0 + tx_ops(*t, holdings));
            }
        },
    }
}

fn push_txs_ops(out: &mut Vec<DbOp>, ts: &Vec<_NftTransaction>, holdings: bool)
    ensures
        ops_view(final(out)@) == ops_view(old(out)@) + txs_ops(ts@, holdings),
{
    let ghost o0 = ops_view(out@);
    let mut i: usize = 0;
    while i < ts.len()
        invariant
            i <= ts.len(),
            ops_view(out@) == o0 + txs_ops(ts@.take(i as int), holdings),
        decreases ts.len() - i,
    {
        proof {
            assert(ts@.take(i + 1).drop_last() =~= ts@.take(i as int));
            assert(ts@.take(i + 1).last() == ts@[i as int]);
        }
        push_tx_ops(out, &ts[i], holdings);
        proof {
            assert(o0 + txs_ops(ts@.take(i as int), holdings) + tx_ops(ts@[i as int], holdings)
                =~= o0 + txs_ops(ts@.take(i + 1), holdings));
        }
        i = i + 1;
    }
    proof {
        assert(ts@.take(ts.len() as int) =~= ts@);
    }
}

fn push_listing_ops(out: &mut Vec<DbOp>, ls: &Vec<OnlyCreateAuction>)
    ensures
        ops_view(final(out)@) == ops_view(old(out)@) + listing_ops(ls@),
{
    let ghost o0 = ops_view(out@);
    let mut i: usize = 0;
    while i < ls.len()
        invariant
            i <= ls.len(),
            ops_view(out@) == o0 + listing_ops(ls@.take(i as int)),
        decreases ls.len() - i,
    {
        let ghost before = out@;
        let op = DbOp::Listings { collection: ls[i].collection_address.clone(), listing: ls[i].clone() };
        proof {
            assert(op@ == (DbOpView::Listings { collection: ls@[i as int].collection_address@, listing: ls@[i as int] }));
        }
        out.push(op);
        proof {
            assert(out@ == before.push(out@.last()));
            assert(ops_view(out@) =~= ops_view(before).push(out@.last()@));
            assert(listing_ops(ls@.take(i + 1)) =~= listing_ops(ls@.take(i as int)).push(
                DbOpView::Listings { collection: ls@[i as int].collection_address@, listing: ls@[i as int] },
            ));
            assert(ops_view(out@) =~= o0 + listing_ops(ls@.take(i + 1)));
        }
        i = i + 1;
    }
    proof {
        assert(ls@.take(ls.len() as int) =~= ls@);
    }
}

/// The store updates that the live searcher makes for an NFT message: for
/// each trade, in order, the NFT leaves the sender's holdings and joins the
/// recipient's, and the trade joins both histories (a mint only concerns
/// its recipient); each listing joins its collection's listings; an unknown
/// transaction changes nothing.
pub fn searcher_db_ops(m: &NftMessage) -> (r: Vec<DbOp>)
    ensures
        ops_view(r@) == match m@ {
            NftMessageView::OnlyCreateAuction(v) => listing_ops(v),
            _ => txs_ops(msg_txs(m@), true),
        },
{
    let mut out: Vec<DbOp> = Vec::new();
    match m {
        NftMessage::OnlyCreateAuction(v) => {
            push_listing_ops(&mut out, v);
            proof {
                assert(ops_view(out@) =~= listing_ops(v@));
            }
        },
        _ => {
            let ts = message_txs(m);
            push_txs_ops(&mut out, &ts, true);
            proof {
                assert(ops_view(out@) =~= txs_ops(msg_txs(m@), true));
            }
        },
    }
    out
}

/// The store updates that the block scanner makes for an NFT message: each
/// trade joins the sender's and the recipient's histories (a mint only its
/// recipient's); holdings and listings are left alone.
pub fn scan_db_ops(m: &NftMessage) -> (r: Vec<DbOp>)
    ensures
        ops_view(r@) == txs_ops(msg_txs(m@), false),
{
    let mut out: Vec<DbOp> = Vec::new();
    let ts = message_txs(m);
    push_txs_ops(&mut out, &ts, false);
    proof {
        assert(ops_view(out@) =~= txs_ops(msg_txs(m@), false));
    }
    out
}

} // verus!

verus! {

/// The updates that are not to holdings.
pub open spec fn not_holding() -> spec_fn(DbOpView) -> bool {
    |o: DbOpView| !(o is Holding)
}

proof fn lemma_tx_ops_without_holdings(t: _NftTransaction)
    ensures
        tx_ops(t, false) == tx_ops(t, true).filter(not_holding()),
{
    reveal_with_fuel(Seq::filter, 5);
    let f = not_holding();
    let h = tx_ops(t, true);
    match t {
        _NftTransaction::Mint(m) => {
            assert(h.drop_last().drop_last() =~= Seq::<DbOpView>::empty());
            assert(h.filter(f) =~= tx_ops(t, false));
        },
        _NftTransaction::Unkonw => {
            assert(h.filter(f) =~= tx_ops(t, false));
        },
        _ => {
            assert(h.drop_last().drop_last().drop_last().drop_last() =~= Seq::<DbOpView>::empty());
            assert(h.filter(f) =~= tx_ops(t, false));
        },
    }
}

/// The block scanner records the same NFT history updates as the live
/// searcher, in the same order: its updates are the searcher's with the
/// holding updates left out.
pub proof fn law_scan_is_searcher_without_holdings(ts: Seq<_NftTransaction>)
    ensures
        txs_ops(ts, false) == txs_ops(ts, true).filter(not_holding()),
    decreases ts.len(),
{
    if ts.len() > 0 {
        law_scan_is_searcher_without_holdings(ts.drop_last());
        lemma_tx_ops_without_holdings(ts.last());
        Seq::filter_distributes_over_add(txs_ops(ts.drop_last(), true), tx_ops(ts.last(), true), not_holding());
    } else {
        reveal(Seq::filter);
        assert(txs_ops(ts, true).filter(not_holding()) =~= Seq::<DbOpView>::empty());
    }
}

} // verus!

verus! {

// ---------------------------------------------------------------------------
// The live searcher's subscription feed
// ---------------------------------------------------------------------------

/// What the live searcher does with a message of its subscription feed.
#[derive(Debug)]
pub enum FeedAction {
    /// Look the transaction with this hash up.
    Forward(String),
    /// Nothing; wait for the next message.
    Ignore,
    /// The subscription has ended: connect again.
    Reconnect,
}

/// The texts of `v`, one after the other.
pub open spec fn joined(v: Seq<String>) -> Seq<char>
    decreases v.len(),
{
    if v.len() == 0 {
        Seq::empty()
    } else {
        joined(v.drop_last()) + v.last()@
    }
}

/// What to do with a feed message: `hashes` are the transaction hashes its
/// events list, where they list any; `has_result` tells whether it carries a
/// result at all; `vote` whether its events are those of a price-feed vote.
/// A message with hashes is forwarded (its hashes written one after the
/// other) unless it is a vote; one without a result ends the subscription;
/// anything else is ignored.
pub fn feed_action(hashes: Option<Vec<String>>, has_result: bool, vote: bool) -> (r: FeedAction)
    ensures
        match hashes {
            Some(h) => if vote {
                r is Ignore
            } else {
                r matches FeedAction::Forward(s) && s@ == joined(h@)
            },
            None => if has_result {
                r is Ignore
            } else {
                r is Reconnect
            },
        },
{
    match hashes {
        Some(h) => {
            if vote {
                return FeedAction::Ignore;
            }
            let mut s = String::new();
            let mut i: usize = 0;
            while i < h.len()
                invariant
                    i <= h.len(),
                    s@ == joined(h@.take(i as int)),
                decreases h.len() - i,
            {
                proof {
                    assert(h@.take(i + 1).drop_last() =~= h@.take(i as int));
                }
                s = concat(&s, h[i].as_str());
                i = i + 1;
            }
            proof {
                assert(h@.take(h.len() as int) =~= h@);
            }
            FeedAction::Forward(s)
        },
        None => {
            if has_result {
                FeedAction::Ignore
            } else {
                FeedAction::Reconnect
            }
        },
    }
}


/// Every trade that moves an NFT takes it out of the sender's holdings and
/// puts it in the recipient's, then records the trade in the sender's and
/// the recipient's histories; where holdings are not kept, only the
/// histories. A mint puts the NFT in the minter's holdings and history.
pub proof fn law_trade_moves_holding(t: _NftTransaction)
    ensures
        moved_by(t) matches Some(tr) ==> tx_ops(t, true) == seq![
            DbOpView::Holding {
                wallet: tr.sender@,
                collection: tr.collection@,
                token_id: tr.token_id@,
                operate: "del"@,
            },
            DbOpView::Holding {
                wallet: tr.recipient@,
                collection: tr.collection@,
                token_id: tr.token_id@,
                operate: "add"@,
            },
            DbOpView::NftHistory { wallet: tr.sender@, kind: tx_kind(t), transaction: t },
            DbOpView::NftHistory { wallet: tr.recipient@, kind: tx_kind(t), transaction: t },
        ],
        moved_by(t) matches Some(tr) ==> tx_ops(t, false) == seq![
            DbOpView::NftHistory { wallet: tr.sender@, kind: tx_kind(t), transaction: t },
            DbOpView::NftHistory { wallet: tr.recipient@, kind: tx_kind(t), transaction: t },
        ],
        t matches _NftTransaction::Mint(m) ==> tx_ops(t, true) == seq![
            DbOpView::Holding {
                wallet: m.recipient@,
                collection: m.collection@,
                token_id: m.token_id@,
                operate: "add"@,
            },
            DbOpView::NftHistory { wallet: m.recipient@, kind: tx_kind(t), transaction: t },
        ],
{
    if let Some(tr) = moved_by(t) {
        assert(tx_ops(t, true) =~= seq![
            DbOpView::Holding {
                wallet: tr.sender@,
                collection: tr.collection@,
                token_id: tr.token_id@,
                operate: "del"@,
            },
            DbOpView::Holding {
                wallet: tr.recipient@,
                collection: tr.collection@,
                token_id: tr.token_id@,
                operate: "add"@,
            },
            DbOpView::NftHistory { wallet: tr.sender@, kind: tx_kind(t), transaction: t },
            DbOpView::NftHistory { wallet: tr.recipient@, kind: tx_kind(t), transaction: t },
        ]);
    }
    if let _NftTransaction::Mint(m) = t {
        assert(tx_ops(t, true) =~= seq![
            DbOpView::Holding {
                wallet: m.recipient@,
                collection: m.collection@,
                token_id: m.token_id@,
                operate: "add"@,
            },
            DbOpView::NftHistory { wallet: m.recipient@, kind: tx_kind(t), transaction: t },
        ]);
    }
}

} // verus!
