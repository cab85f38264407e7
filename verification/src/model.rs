//! The records that flow through the library: transaction data as the chain
//! reports it, and the NFT and token records extracted from it.
use vstd::prelude::*;

verus! {

// ---------------------------------------------------------------------------
// Transaction data, as a chain node reports it
// ---------------------------------------------------------------------------

/// One key/value pair of an event.
#[derive(Debug)]
pub struct Attribute {
    pub key: String,
    pub value: String,
}

/// One event of a transaction log: its type and its attributes, in order.
#[derive(Debug)]
pub struct Event {
    pub attributes: Vec<Attribute>,
    pub _type: String,
}

/// What an [`Event`] holds: its type and its attributes.
pub struct EventView {
    pub _type: Seq<char>,
    pub attributes: Seq<Attribute>,
}

impl View for Event {
    type V = EventView;

    open spec fn view(&self) -> EventView {
        EventView { _type: self._type@, attributes: self.attributes@ }
    }
}

/// The views of a sequence of events.
pub open spec fn events_view(v: Seq<Event>) -> Seq<EventView> {
    v.map_values(|e: Event| e@)
}

/// The events that one message of a transaction emitted.
#[derive(Debug)]
pub struct Log {
    pub events: Vec<Event>,
}

/// The outcome of a transaction: its status code, logs, time and hash.
#[derive(Debug)]
pub struct TxResponse {
    pub code: u64,
    pub gas_used: String,
    pub gas_wanted: String,
    pub logs: Vec<Log>,
    pub timestamp: String,
    pub txhash: String,
}

/// One amount of a fee.
#[derive(Debug)]
pub struct FeeAmount {
    pub amount: String,
    pub denom: String,
}

/// The fee a transaction paid.
#[derive(Debug)]
pub struct Fee {
    pub amount: Vec<FeeAmount>,
    pub gas_limit: String,
    pub granter: String,
    pub payer: String,
}

/// The authorisation part of a transaction.
#[derive(Debug)]
pub struct TxAuthInfo {
    pub fee: Fee,
}

/// The signed part of a transaction.
#[derive(Debug)]
pub struct Tx {
    pub auth_info: TxAuthInfo,
}

/// A transaction together with its outcome.
#[derive(Debug)]
pub struct HashData {
    pub tx: Tx,
    pub tx_response: TxResponse,
}

// ---------------------------------------------------------------------------
// NFT and token records
// ---------------------------------------------------------------------------

/// Name, symbol, creator and size of an NFT collection.
#[derive(Debug)]
pub struct CollectionInfo {
    pub name: String,
    pub symbol: String,
    pub creator: String,
    pub count: String,
}

/// A token swap made by an account.
#[derive(Debug)]
pub struct TokenSwap {
    pub account: String,
    pub source_token: String,
    pub target_token: String,
    pub source_amount: String,
    pub target_amount: String,
    pub trade_type: String,
    pub ts: String,
    pub tx: String,
}

/// One trait of an NFT.
#[derive(Debug)]
pub struct NftAttribute {
    pub trait_type: String,
    pub value: String,
}

/// The traits of an NFT, as its metadata lists them.
#[derive(Debug)]
pub struct Attributes {
    pub attributes: Vec<NftAttribute>,
}

/// One NFT: its id, name, key (`collection-id`), image, royalty and traits.
#[derive(Debug)]
pub struct NftToken {
    pub token_id: String,
    pub name: String,
    pub key: String,
    pub image: String,
    pub royalty_percentage: u64,
    pub attributes: Vec<NftAttribute>,
}

/// A collection and the NFTs of it that a wallet holds.
#[derive(Debug)]
pub struct Collection {
    pub collection: String,
    pub name: String,
    pub symbol: String,
    pub creator: String,
    pub count: String,
    pub nfts: Vec<NftToken>,
}

/// What the store keeps of a wallet.
#[derive(Debug)]
pub struct User {
    pub wallet_address: String,
    pub nfts_holding: Vec<Collection>,
    pub nfts_transactions: Vec<NFTtransaction>,
    pub token_transactions: Vec<TokenSwap>,
}

/// An NFT transaction with the name of its kind.
#[derive(Debug)]
pub struct NFTtransaction {
    pub transaction: _NftTransaction,
    pub _type: String,
}

/// The kinds of NFT transaction.
#[derive(Debug)]
pub enum _NftTransaction {
    Mint(MintNFt),
    BatchBids(BatchBidsNft),
    OnlyTransfer(TransferNft),
    CancelAuction(CancelAuctionNft),
    CretaeAuction(CretaeAuctionNft),
    PurchaseCart(PurcjaseCartNft),
    AcceptBid(AcceptBidNft),
    FixedSell(FixedSellNft),
    Unkonw,
}

/// An NFT moved from a sender to a recipient.
#[derive(Debug)]
pub struct TransferNft {
    pub collection: String,
    pub sender: String,
    pub recipient: String,
    pub token_id: String,
    pub ts: String,
    pub tx: String,
}

/// The transfer by which a transaction moves an NFT from one wallet to
/// another; a mint and an unknown transaction have none.
pub open spec fn moved_by(t: _NftTransaction) -> Option<TransferNft> {
    match t {
        _NftTransaction::OnlyTransfer(d) => Some(d),
        _NftTransaction::AcceptBid(d) => Some(d.transfer),
        _NftTransaction::BatchBids(d) => Some(d.transfer),
        _NftTransaction::CancelAuction(d) => Some(d.transfer),
        _NftTransaction::CretaeAuction(d) => Some(d.transfer),
        _NftTransaction::PurchaseCart(d) => Some(d.transfer),
        _NftTransaction::FixedSell(d) => Some(d.transfer),
        _ => None,
    }
}

/// Where `wallet` stands in a transfer: 1 where it receives the NFT, 2 where
/// it only sends it, 0 where it is neither party.
pub open spec fn party_of(tr: TransferNft, wallet: Seq<char>) -> int {
    if tr.recipient@ == wallet {
        1
    } else if tr.sender@ == wallet {
        2
    } else {
        0
    }
}

/// An NFT minted to a recipient at a price.
#[derive(Debug)]
pub struct MintNFt {
    pub collection: String,
    pub recipient: String,
    pub token_id: String,
    pub price: String,
    pub ts: String,
    pub tx: String,
}

/// An NFT bought through a batch of bids.
#[derive(Debug)]
pub struct BatchBidsNft {
    pub transfer: TransferNft,
    pub sale_price: String,
}

/// An NFT sold at a fixed price.
#[derive(Debug)]
pub struct FixedSellNft {
    pub transfer: TransferNft,
    pub price: String,
}

/// An NFT put up for auction.
#[derive(Debug)]
pub struct CretaeAuctionNft {
    pub transfer: TransferNft,
    pub auction_price: String,
}

/// An auction of an NFT withdrawn.
#[derive(Debug)]
pub struct CancelAuctionNft {
    pub transfer: TransferNft,
    pub auction_price: String,
}

/// An NFT bought from a cart.
#[derive(Debug)]
pub struct PurcjaseCartNft {
    pub transfer: TransferNft,
    pub buyer: String,
    pub seller: String,
    pub sale_price: String,
    pub marketplace_fee: String,
    pub royalties: String,
}

/// A bid on an NFT accepted by its seller.
#[derive(Debug)]
pub struct AcceptBidNft {
    pub transfer: TransferNft,
    pub bidder: String,
    pub seller: String,
    pub sale_price: String,
    pub marketplace_fee: String,
    pub royalties: String,
}

/// The auctions listed on a collection contract.
#[derive(Debug)]
pub struct ContractCreateAuctions {
    pub contract_address: String,
    pub create_auctions: Vec<OnlyCreateAuction>,
}

/// One auction listing: which NFT, at what price, when.
#[derive(Debug)]
pub struct OnlyCreateAuction {
    pub collection_address: String,
    pub token_id: String,
    pub auction_price: String,
    pub ts: String,
}

/// An amount of one denomination held by a wallet.
#[derive(Debug)]
pub struct WalletTokenBalance {
    pub amount: String,
    pub denom: String,
}

/// The records extracted from one log of an NFT transaction.
#[derive(Debug)]
pub enum NftMessage {
    Mint(Vec<MintNFt>),
    BatchBids(Vec<BatchBidsNft>),
    OnlyTransferNft(Vec<TransferNft>),
    CretaeAuctionNft(Vec<CretaeAuctionNft>),
    CancelAuctionNft(Vec<CancelAuctionNft>),
    PurchaseCartNft(Vec<PurcjaseCartNft>),
    AcceptBidNft(Vec<AcceptBidNft>),
    FixedSellNft(Vec<FixedSellNft>),
    OnlyCreateAuction(Vec<OnlyCreateAuction>),
    Unkonw(String),
}

/// What an [`NftMessage`] holds, as sequences.
pub enum NftMessageView {
    Mint(Seq<MintNFt>),
    BatchBids(Seq<BatchBidsNft>),
    OnlyTransferNft(Seq<TransferNft>),
    CretaeAuctionNft(Seq<CretaeAuctionNft>),
    CancelAuctionNft(Seq<CancelAuctionNft>),
    PurchaseCartNft(Seq<PurcjaseCartNft>),
    AcceptBidNft(Seq<AcceptBidNft>),
    FixedSellNft(Seq<FixedSellNft>),
    OnlyCreateAuction(Seq<OnlyCreateAuction>),
    Unkonw(String),
}

impl View for NftMessage {
    type V = NftMessageView;

    open spec fn view(&self) -> NftMessageView {
        match self {
            NftMessage::Mint(v) => NftMessageView::Mint(v@),
            NftMessage::BatchBids(v) => NftMessageView::BatchBids(v@),
            NftMessage::OnlyTransferNft(v) => NftMessageView::OnlyTransferNft(v@),
            NftMessage::CretaeAuctionNft(v) => NftMessageView::CretaeAuctionNft(v@),
            NftMessage::CancelAuctionNft(v) => NftMessageView::CancelAuctionNft(v@),
            NftMessage::PurchaseCartNft(v) => NftMessageView::PurchaseCartNft(v@),
            NftMessage::AcceptBidNft(v) => NftMessageView::AcceptBidNft(v@),
            NftMessage::FixedSellNft(v) => NftMessageView::FixedSellNft(v@),
            NftMessage::OnlyCreateAuction(v) => NftMessageView::OnlyCreateAuction(v@),
            NftMessage::Unkonw(h) => NftMessageView::Unkonw(*h),
        }
    }
}

// ---------------------------------------------------------------------------
// Copies that keep every field
// ---------------------------------------------------------------------------

impl Clone for Attribute {
    fn clone(&self) -> (r: Self)
        ensures
            r == *self,
    {
        Attribute { key: self.key.clone(), value: self.value.clone() }
    }
}

impl Clone for TransferNft {
    fn clone(&self) -> (r: Self)
        ensures
            r == *self,
    {
        TransferNft {
            collection: self.collection.clone(),
            sender: self.sender.clone(),
            recipient: self.recipient.clone(),
            token_id: self.token_id.clone(),
            ts: self.ts.clone(),
            tx: self.tx.clone(),
        }
    }
}

impl Clone for TokenSwap {
    fn clone(&self) -> (r: Self)
        ensures
            r == *self,
    {
        TokenSwap {
            account: self.account.clone(),
            source_token: self.source_token.clone(),
            target_token: self.target_token.clone(),
            source_amount: self.source_amount.clone(),
            target_amount: self.target_amount.clone(),
            trade_type: self.trade_type.clone(),
            ts: self.ts.clone(),
            tx: self.tx.clone(),
        }
    }
}

impl Clone for OnlyCreateAuction {
    fn clone(&self) -> (r: Self)
        ensures
            r == *self,
    {
        OnlyCreateAuction {
            collection_address: self.collection_address.clone(),
            token_id: self.token_id.clone(),
            auction_price: self.auction_price.clone(),
            ts: self.ts.clone(),
        }
    }
}

impl Clone for Event {
    fn clone(&self) -> (r: Self)
        ensures
            r@ == self@,
    {
        let attributes = copy_attributes(&self.attributes);
        Event { attributes, _type: self._type.clone() }
    }
}

/// A copy of a vector of events.
pub fn copy_events(v: &Vec<Event>) -> (r: Vec<Event>)
    ensures
        events_view(r@) == events_view(v@),
{
    let mut out: Vec<Event> = Vec::new();
    let mut i: usize = 0;
    while i < v.len()
        invariant
            i <= v.len(),
            events_view(out@) == events_view(v@.take(i as int)),
        decreases v.len() - i,
    {
        let e = v[i].clone();
        let ghost before = out@;
        out.push(e);
        proof {
            assert(events_view(out@) =~= events_view(before).push(v@[i as int]@));
            assert(events_view(v@.take(i + 1)) =~= events_view(v@.take(i as int)).push(v@[i as int]@));
        }
        i = i + 1;
    }
    proof {
        assert(v@.take(v.len() as int) =~= v@);
    }
    out
}

impl Clone for MintNFt {
    fn clone(&self) -> (r: Self)
        ensures
            r == *self,
    {
        MintNFt {
            collection: self.collection.clone(),
            recipient: self.recipient.clone(),
            token_id: self.token_id.clone(),
            price: self.price.clone(),
            ts: self.ts.clone(),
            tx: self.tx.clone(),
        }
    }
}

impl Clone for BatchBidsNft {
    fn clone(&self) -> (r: Self)
        ensures
            r == *self,
    {
        BatchBidsNft {
            transfer: self.transfer.clone(),
            sale_price: self.sale_price.clone(),
        }
    }
}

impl Clone for FixedSellNft {
    fn clone(&self) -> (r: Self)
        ensures
            r == *self,
    {
        FixedSellNft {
            transfer: self.transfer.clone(),
            price: self.price.clone(),
        }
    }
}

impl Clone for CretaeAuctionNft {
    fn clone(&self) -> (r: Self)
        ensures
            r == *self,
    {
        CretaeAuctionNft {
            transfer: self.transfer.clone(),
            auction_price: self.auction_price.clone(),
        }
    }
}

impl Clone for CancelAuctionNft {
    fn clone(&self) -> (r: Self)
        ensures
            r == *self,
    {
        CancelAuctionNft {
            transfer: self.transfer.clone(),
            auction_price: self.auction_price.clone(),
        }
    }
}

impl Clone for PurcjaseCartNft {
    fn clone(&self) -> (r: Self)
        ensures
            r == *self,
    {
        PurcjaseCartNft {
            transfer: self.transfer.clone(),
            buyer: self.buyer.clone(),
            seller: self.seller.clone(),
            sale_price: self.sale_price.clone(),
            marketplace_fee: self.marketplace_fee.clone(),
            royalties: self.royalties.clone(),
        }
    }
}

impl Clone for AcceptBidNft {
    fn clone(&self) -> (r: Self)
        ensures
            r == *self,
    {
        AcceptBidNft {
            transfer: self.transfer.clone(),
            bidder: self.bidder.clone(),
            seller: self.seller.clone(),
            sale_price: self.sale_price.clone(),
            marketplace_fee: self.marketplace_fee.clone(),
            royalties: self.royalties.clone(),
        }
    }
}

impl Clone for NftAttribute {
    fn clone(&self) -> (r: Self)
        ensures
            r == *self,
    {
        NftAttribute {
            trait_type: self.trait_type.clone(),
            value: self.value.clone(),
        }
    }
}

impl Clone for CollectionInfo {
    fn clone(&self) -> (r: Self)
        ensures
            r == *self,
    {
        CollectionInfo {
            name: self.name.clone(),
            symbol: self.symbol.clone(),
            creator: self.creator.clone(),
            count: self.count.clone(),
        }
    }
}

impl Clone for WalletTokenBalance {
    fn clone(&self) -> (r: Self)
        ensures
            r == *self,
    {
        WalletTokenBalance {
            amount: self.amount.clone(),
            denom: self.denom.clone(),
        }
    }
}

impl Clone for NFTtransaction {
    fn clone(&self) -> (r: Self)
        ensures
            r == *self,
    {
        NFTtransaction {
            transaction: self.transaction.clone(),
            _type: self._type.clone(),
        }
    }
}

impl Clone for _NftTransaction {
    fn clone(&self) -> (r: Self)
        ensures
            r == *self,
    {
        match self {
            _NftTransaction::Mint(d) => _NftTransaction::Mint(d.clone()),
            _NftTransaction::BatchBids(d) => _NftTransaction::BatchBids(d.clone()),
            _NftTransaction::OnlyTransfer(d) => _NftTransaction::OnlyTransfer(d.clone()),
            _NftTransaction::CancelAuction(d) => _NftTransaction::CancelAuction(d.clone()),
            _NftTransaction::CretaeAuction(d) => _NftTransaction::CretaeAuction(d.clone()),
            _NftTransaction::PurchaseCart(d) => _NftTransaction::PurchaseCart(d.clone()),
            _NftTransaction::AcceptBid(d) => _NftTransaction::AcceptBid(d.clone()),
            _NftTransaction::FixedSell(d) => _NftTransaction::FixedSell(d.clone()),
            _NftTransaction::Unkonw => _NftTransaction::Unkonw,
        }
    }
}

/// What an [`NftToken`] holds, with its traits as a sequence.
pub struct NftTokenView {
    pub token_id: Seq<char>,
    pub name: Seq<char>,
    pub key: Seq<char>,
    pub image: Seq<char>,
    pub royalty_percentage: u64,
    pub attributes: Seq<NftAttribute>,
}

impl View for NftToken {
    type V = NftTokenView;

    open spec fn view(&self) -> NftTokenView {
        NftTokenView {
            token_id: self.token_id@,
            name: self.name@,
            key: self.key@,
            image: self.image@,
            royalty_percentage: self.royalty_percentage,
            attributes: self.attributes@,
        }
    }
}

/// What a [`Collection`] holds, with its NFTs as a sequence of views.
pub struct CollectionView {
    pub collection: Seq<char>,
    pub name: Seq<char>,
    pub symbol: Seq<char>,
    pub creator: Seq<char>,
    pub count: Seq<char>,
    pub nfts: Seq<NftTokenView>,
}

impl View for Collection {
    type V = CollectionView;

    open spec fn view(&self) -> CollectionView {
        CollectionView {
            collection: self.collection@,
            name: self.name@,
            symbol: self.symbol@,
            creator: self.creator@,
            count: self.count@,
            nfts: self.nfts@.map_values(|t: NftToken| t@),
        }
    }
}

/// The views of a sequence of collections.
pub open spec fn collections_view(v: Seq<Collection>) -> Seq<CollectionView> {
    v.map_values(|c: Collection| c@)
}

/// A copy of a vector of values that copy exactly.
pub fn copy_vec<T: Clone>(v: &Vec<T>) -> (r: Vec<T>)
    requires
        forall|a: T, b: T| #[trigger] call_ensures(T::clone, (&a,), b) ==> a == b,
    ensures
        r@ == v@,
{
    let mut out: Vec<T> = Vec::new();
    let mut i: usize = 0;
    while i < v.len()
        invariant
            i <= v.len(),
            out@ == v@.take(i as int),
            forall|a: T, b: T| #[trigger] call_ensures(T::clone, (&a,), b) ==> a == b,
        decreases v.len() - i,
    {
        let x = v[i].clone();
        out.push(x);
        proof {
            assert(v@.take(i as int).push(v@[i as int]) =~= v@.take(i + 1));
        }
        i = i + 1;
    }
    proof {
        assert(v@.take(v.len() as int) =~= v@);
    }
    out
}

impl Clone for NftToken {
    fn clone(&self) -> (r: Self)
        ensures
            r@ == self@,
    {
        NftToken {
            token_id: self.token_id.clone(),
            name: self.name.clone(),
            key: self.key.clone(),
            image: self.image.clone(),
            royalty_percentage: self.royalty_percentage,
            attributes: copy_vec(&self.attributes),
        }
    }
}

/// A copy of a vector of attributes.
pub fn copy_attributes(v: &Vec<Attribute>) -> (r: Vec<Attribute>)
    ensures
        r@ == v@,
{
    let mut out: Vec<Attribute> = Vec::new();
    let mut i: usize = 0;
    while i < v.len()
        invariant
            i <= v.len(),
            out@ == v@.take(i as int),
        decreases v.len() - i,
    {
        out.push(v[i].clone());
        proof {
            assert(v@.take(i as int).push(v@[i as int]) =~= v@.take(i + 1));
        }
        i = i + 1;
    }
    proof {
        assert(v@.take(v.len() as int) =~= v@);
    }
    out
}

} // verus!
