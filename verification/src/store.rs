//! What the store keeps of a wallet after each kind of update: the merge
//! rules for its NFT and token transaction histories, its NFT holdings, and
//! the auction listings kept per collection.
use vstd::prelude::*;
use crate::model::{
    Collection, CollectionInfo, CollectionView, NFTtransaction, NftToken, NftTokenView,
    OnlyCreateAuction, TokenSwap, _NftTransaction, collections_view,
};
use crate::select::{lemma_positions, lemma_positions_step, positions};
use crate::text::{is_lit, owned};
use crate::time::{UtcStamp, parse_rfc3339, rfc3339_utc};

verus! {

// ---------------------------------------------------------------------------
// NFT transaction histories
// ---------------------------------------------------------------------------

/// Two NFT transactions are the same one: the same kind with the same
/// transaction hash. An unknown transaction is the same as none.
pub open spec fn same_nft_tx(t: _NftTransaction, x: _NftTransaction) -> bool {
    match (t, x) {
        (_NftTransaction::Mint(a), _NftTransaction::Mint(b)) => a.tx@ == b.tx@,
        (_NftTransaction::AcceptBid(a), _NftTransaction::AcceptBid(b)) => a.transfer.tx@
            == b.transfer.tx@,
        (_NftTransaction::BatchBids(a), _NftTransaction::BatchBids(b)) => a.transfer.tx@
            == b.transfer.tx@,
        (_NftTransaction::CancelAuction(a), _NftTransaction::CancelAuction(b)) => a.transfer.tx@
            == b.transfer.tx@,
        (_NftTransaction::CretaeAuction(a), _NftTransaction::CretaeAuction(b)) => a.transfer.tx@
            == b.transfer.tx@,
        (_NftTransaction::OnlyTransfer(a), _NftTransaction::OnlyTransfer(b)) => a.tx@ == b.tx@,
        (_NftTransaction::FixedSell(a), _NftTransaction::FixedSell(b)) => a.transfer.tx@
            == b.transfer.tx@,
        (_NftTransaction::PurchaseCart(a), _NftTransaction::PurchaseCart(b)) => a.transfer.tx@
            == b.transfer.tx@,
        _ => false,
    }
}

/// `t` is already in `acc`.
pub open spec fn nft_tx_stored(acc: Seq<NFTtransaction>, t: NFTtransaction) -> bool {
    exists|i: int| 0 <= i < acc.len() && same_nft_tx(t.transaction, #[trigger] acc[i].transaction)
}

/// `acc` with each transaction of `new` appended, in order, unless it is
/// already there.
pub open spec fn merge_nft_txs(acc: Seq<NFTtransaction>, new: Seq<NFTtransaction>) -> Seq<
    NFTtransaction,
>
    decreases new.len(),
{
    if new.len() == 0 {
        acc
    } else {
        let a = merge_nft_txs(acc, new.drop_last());
        if nft_tx_stored(a, new.last()) {
            a
        } else {
            a.push(new.last())
        }
    }
}

/// The NFT history of a wallet after an update: the stored history merged
/// with the new transactions, or the new transactions for a new wallet.
pub open spec fn nft_history_update(existing: Option<Seq<NFTtransaction>>, new: Seq<NFTtransaction>) -> Seq<
    NFTtransaction,
> {
    match existing {
        Some(db) => merge_nft_txs(db, new),
        None => new,
    }
}

fn same_nft_tx_exec(t: &_NftTransaction, x: &_NftTransaction) -> (r: bool)
    ensures
        r == same_nft_tx(*t, *x),
{
    match (t, x) {
        (_NftTransaction::Mint(a), _NftTransaction::Mint(b)) => a.tx == b.tx,
        (_NftTransaction::AcceptBid(a), _NftTransaction::AcceptBid(b)) => a.transfer.tx
            == b.transfer.tx,
        (_NftTransaction::BatchBids(a), _NftTransaction::BatchBids(b)) => a.transfer.tx
            == b.transfer.tx,
        (_NftTransaction::CancelAuction(a), _NftTransaction::CancelAuction(b)) => a.transfer.tx
            == b.transfer.tx,
        (_NftTransaction::CretaeAuction(a), _NftTransaction::CretaeAuction(b)) => a.transfer.tx
            == b.transfer.tx,
        (_NftTransaction::OnlyTransfer(a), _NftTransaction::OnlyTransfer(b)) => a.tx == b.tx,
        (_NftTransaction::FixedSell(a), _NftTransaction::FixedSell(b)) => a.transfer.tx
            == b.transfer.tx,
        (_NftTransaction::PurchaseCart(a), _NftTransaction::PurchaseCart(b)) => a.transfer.tx
            == b.transfer.tx,
        _ => false,
    }
}

/// The NFT history of a wallet after an update with `nfts_transactions`:
/// for a stored wallet, each new transaction is appended unless one of the
/// same kind and hash is already there; a new wallet gets them all.
pub fn nfts_transactions_after_update(
    existing: Option<Vec<NFTtransaction>>,
    nfts_transactions: Vec<NFTtransaction>,
) -> (r: Vec<NFTtransaction>)
    ensures
        r@ == nft_history_update(
            match existing {
                Some(v) => Some(v@),
                None => None,
            },
            nfts_transactions@,
        ),
{
    match existing {
        None => nfts_transactions,
        Some(db) => {
            let mut acc = db;
            let ghost db0 = acc@;
            let new = &nfts_transactions;
            let mut i: usize = 0;
            while i < new.len()
                invariant
                    i <= new.len(),
                    acc@ == merge_nft_txs(db0, new@.take(i as int)),
                decreases new.len() - i,
            {
                let t = &new[i];
                let mut found = false;
                let mut j: usize = 0;
                while j < acc.len()
                    invariant
                        j <= acc.len(),
                        !found ==> forall|k: int|
                            0 <= k < j ==> !same_nft_tx(t.transaction, #[trigger] acc@[k].transaction),
                        found ==> nft_tx_stored(acc@, *t),
                    decreases acc.len() - j,
                {
                    if !found && same_nft_tx_exec(&t.transaction, &acc[j].transaction) {
                        found = true;
                    }
                    j = j + 1;
                }
                proof {
                    assert(new@.take(i + 1).drop_last() =~= new@.take(i as int));
                    assert(new@.take(i + 1).last() == *t);
                }
                if !found {
                    acc.push(t.clone());
                }
                i = i + 1;
            }
            proof {
                assert(new@.take(new.len() as int) =~= new@);
            }
            acc
        },
    }
}

/// Merging keeps what was stored, in front.
pub proof fn lemma_merge_nft_keeps(acc: Seq<NFTtransaction>, new: Seq<NFTtransaction>)
    ensures
        merge_nft_txs(acc, new).len() >= acc.len(),
        merge_nft_txs(acc, new).take(acc.len() as int) == acc,
    decreases new.len(),
{
    if new.len() > 0 {
        lemma_merge_nft_keeps(acc, new.drop_last());
        let a = merge_nft_txs(acc, new.drop_last());
        assert(a.push(new.last()).take(acc.len() as int) =~= a.take(acc.len() as int));
    }
}

proof fn lemma_nft_stored_push(acc: Seq<NFTtransaction>, x: NFTtransaction, t: NFTtransaction)
    requires
        nft_tx_stored(acc, t),
    ensures
        nft_tx_stored(acc.push(x), t),
{
    let i = choose|i: int| 0 <= i < acc.len() && same_nft_tx(t.transaction, #[trigger] acc[i].transaction);
    assert(acc.push(x)[i] == acc[i]);
}

/// After a merge every known transaction of `new` is stored.
pub proof fn lemma_merge_nft_stores(acc: Seq<NFTtransaction>, new: Seq<NFTtransaction>)
    ensures
        forall|k: int|
            0 <= k < new.len() && !(new[k].transaction is Unkonw) ==> nft_tx_stored(
                merge_nft_txs(acc, new),
                #[trigger] new[k],
            ),
    decreases new.len(),
{
    if new.len() > 0 {
        lemma_merge_nft_stores(acc, new.drop_last());
        let a = merge_nft_txs(acc, new.drop_last());
        let t = new.last();
        assert forall|k: int|
            0 <= k < new.len() && !(new[k].transaction is Unkonw) implies nft_tx_stored(
            merge_nft_txs(acc, new),
            #[trigger] new[k],
        ) by {
            if k < new.len() - 1 {
                assert(new.drop_last()[k] == new[k]);
                if !nft_tx_stored(a, t) {
                    lemma_nft_stored_push(a, t, new[k]);
                }
            } else {
                if !nft_tx_stored(a, t) {
                    let m = merge_nft_txs(acc, new);
                    assert(m[a.len() as int] == t);
                    assert(same_nft_tx(t.transaction, t.transaction));
                }
            }
        }
    }
}

/// Merging transactions that are all stored changes nothing.
pub proof fn lemma_merge_nft_stored_noop(acc: Seq<NFTtransaction>, new: Seq<NFTtransaction>)
    requires
        forall|k: int| 0 <= k < new.len() ==> nft_tx_stored(acc, #[trigger] new[k]),
    ensures
        merge_nft_txs(acc, new) == acc,
    decreases new.len(),
{
    if new.len() > 0 {
        assert forall|k: int| 0 <= k < new.drop_last().len() implies nft_tx_stored(
            acc,
            #[trigger] new.drop_last()[k],
        ) by {
            assert(new.drop_last()[k] == new[k]);
        }
        lemma_merge_nft_stored_noop(acc, new.drop_last());
        assert(nft_tx_stored(acc, new[new.len() - 1]));
    }
}

/// Storing the same known NFT transactions twice stores them once: a second
/// update with them leaves the history as the first left it, and the first
/// keeps everything stored before, in front.
pub proof fn law_nft_history_update_idempotent(
    existing: Seq<NFTtransaction>,
    new: Seq<NFTtransaction>,
)
    requires
        forall|k: int| 0 <= k < new.len() ==> !(#[trigger] new[k].transaction is Unkonw),
    ensures
        nft_history_update(Some(nft_history_update(Some(existing), new)), new)
            == nft_history_update(Some(existing), new),
        nft_history_update(Some(existing), new).take(existing.len() as int) == existing,
        forall|k: int|
            0 <= k < new.len() ==> nft_tx_stored(
                nft_history_update(Some(existing), new),
                #[trigger] new[k],
            ),
{
    lemma_merge_nft_stores(existing, new);
    lemma_merge_nft_stored_noop(merge_nft_txs(existing, new), new);
    lemma_merge_nft_keeps(existing, new);
}

// ---------------------------------------------------------------------------
// Token swap histories
// ---------------------------------------------------------------------------

/// Two swaps agree in every field.
pub open spec fn same_swap(t: TokenSwap, x: TokenSwap) -> bool {
    &&& t.account@ == x.account@
    &&& t.trade_type@ == x.trade_type@
    &&& t.tx@ == x.tx@
    &&& t.ts@ == x.ts@
    &&& t.target_amount@ == x.target_amount@
    &&& t.source_amount@ == x.source_amount@
    &&& t.target_token@ == x.target_token@
    &&& t.source_token@ == x.source_token@
}

/// `t` is already in `acc`.
pub open spec fn swap_stored(acc: Seq<TokenSwap>, t: TokenSwap) -> bool {
    exists|i: int| 0 <= i < acc.len() && same_swap(t, #[trigger] acc[i])
}

/// `acc` with each swap of `new` appended, in order, unless it is already
/// there.
pub open spec fn merge_swaps(acc: Seq<TokenSwap>, new: Seq<TokenSwap>) -> Seq<TokenSwap>
    decreases new.len(),
{
    if new.len() == 0 {
        acc
    } else {
        let a = merge_swaps(acc, new.drop_last());
        if swap_stored(a, new.last()) {
            a
        } else {
            a.push(new.last())
        }
    }
}

/// The swap history of a wallet after an update.
pub open spec fn swap_history_update(existing: Option<Seq<TokenSwap>>, new: Seq<TokenSwap>) -> Seq<
    TokenSwap,
> {
    match existing {
        Some(db) => merge_swaps(db, new),
        None => new,
    }
}

fn same_swap_exec(t: &TokenSwap, x: &TokenSwap) -> (r: bool)
    ensures
        r == same_swap(*t, *x),
{
    t.account == x.account && t.trade_type == x.trade_type && t.tx == x.tx && t.ts == x.ts
        && t.target_amount == x.target_amount && t.source_amount == x.source_amount
        && t.target_token == x.target_token && t.source_token == x.source_token
}

/// The swap history of a wallet after an update with `token_transactions`:
/// for a stored wallet, each new swap is appended unless one equal in every
/// field is already there; a new wallet gets them all.
pub fn token_transactions_after_update(
    existing: Option<Vec<TokenSwap>>,
    token_transactions: Vec<TokenSwap>,
) -> (r: Vec<TokenSwap>)
    ensures
        r@ == swap_history_update(
            match existing {
                Some(v) => Some(v@),
                None => None,
            },
            token_transactions@,
        ),
{
    match existing {
        None => token_transactions,
        Some(db) => {
            let mut acc = db;
            let ghost db0 = acc@;
            let new = &token_transactions;
            let mut i: usize = 0;
            while i < new.len()
                invariant
                    i <= new.len(),
                    acc@ == merge_swaps(db0, new@.take(i as int)),
                decreases new.len() - i,
            {
                let t = &new[i];
                let mut found = false;
                let mut j: usize = 0;
                while j < acc.len()
                    invariant
                        j <= acc.len(),
                        !found ==> forall|k: int| 0 <= k < j ==> !same_swap(*t, #[trigger] acc@[k]),
                        found ==> swap_stored(acc@, *t),
                    decreases acc.len() - j,
                {
                    if !found && same_swap_exec(t, &acc[j]) {
                        found = true;
                    }
                    j = j + 1;
                }
                proof {
                    assert(new@.take(i + 1).drop_last() =~= new@.take(i as int));
                    assert(new@.take(i + 1).last() == *t);
                }
                if !found {
                    acc.push(t.clone());
                }
                i = i + 1;
            }
            proof {
                assert(new@.take(new.len() as int) =~= new@);
            }
            acc
        },
    }
}

proof fn lemma_swap_stored_push(acc: Seq<TokenSwap>, x: TokenSwap, t: TokenSwap)
    requires
        swap_stored(acc, t),
    ensures
        swap_stored(acc.push(x), t),
{
    let i = choose|i: int| 0 <= i < acc.len() && same_swap(t, #[trigger] acc[i]);
    assert(acc.push(x)[i] == acc[i]);
}

proof fn lemma_merge_swaps_stores(acc: Seq<TokenSwap>, new: Seq<TokenSwap>)
    ensures
        forall|k: int| 0 <= k < new.len() ==> swap_stored(merge_swaps(acc, new), #[trigger] new[k]),
        merge_swaps(acc, new).len() >= acc.len(),
        merge_swaps(acc, new).take(acc.len() as int) == acc,
    decreases new.len(),
{
    if new.len() > 0 {
        lemma_merge_swaps_stores(acc, new.drop_last());
        let a = merge_swaps(acc, new.drop_last());
        let t = new.last();
        assert(a.push(t).take(acc.len() as int) =~= a.take(acc.len() as int));
        assert forall|k: int| 0 <= k < new.len() implies swap_stored(
            merge_swaps(acc, new),
            #[trigger] new[k],
        ) by {
            if k < new.len() - 1 {
                assert(new.drop_last()[k] == new[k]);
                if !swap_stored(a, t) {
                    lemma_swap_stored_push(a, t, new[k]);
                }
            } else {
                if !swap_stored(a, t) {
                    assert(merge_swaps(acc, new)[a.len() as int] == t);
                }
            }
        }
    }
}

proof fn lemma_merge_swaps_noop(acc: Seq<TokenSwap>, new: Seq<TokenSwap>)
    requires
        forall|k: int| 0 <= k < new.len() ==> swap_stored(acc, #[trigger] new[k]),
    ensures
        merge_swaps(acc, new) == acc,
    decreases new.len(),
{
    if new.len() > 0 {
        assert forall|k: int| 0 <= k < new.drop_last().len() implies swap_stored(
            acc,
            #[trigger] new.drop_last()[k],
        ) by {
            assert(new.drop_last()[k] == new[k]);
        }
        lemma_merge_swaps_noop(acc, new.drop_last());
        assert(swap_stored(acc, new[new.len() - 1]));
    }
}

/// Storing the same swaps twice stores them once, and what was stored stays
/// in front.
pub proof fn law_swap_history_update_idempotent(existing: Seq<TokenSwap>, new: Seq<TokenSwap>)
    ensures
        swap_history_update(Some(swap_history_update(Some(existing), new)), new)
            == swap_history_update(Some(existing), new),
        swap_history_update(Some(existing), new).take(existing.len() as int) == existing,
        forall|k: int|
            0 <= k < new.len() ==> swap_stored(
                swap_history_update(Some(existing), new),
                #[trigger] new[k],
            ),
{
    lemma_merge_swaps_stores(existing, new);
    lemma_merge_swaps_noop(merge_swaps(existing, new), new);
}

} // verus!

verus! {

// ---------------------------------------------------------------------------
// NFT holdings
// ---------------------------------------------------------------------------

/// The first collection of `cs` with address `account`.
pub open spec fn first_collection(cs: Seq<CollectionView>, account: Seq<char>) -> Option<int> {
    let ps = positions(cs.len(), |i: int| cs[i].collection == account);
    if ps.len() > 0 {
        Some(ps[0])
    } else {
        None
    }
}

/// The first NFT of `nfts` with key `key`.
pub open spec fn first_key(nfts: Seq<NftTokenView>, key: Seq<char>) -> Option<int> {
    let ps = positions(nfts.len(), |i: int| nfts[i].key == key);
    if ps.len() > 0 {
        Some(ps[0])
    } else {
        None
    }
}

/// A new holding entry: the collection's address and information, and the NFT.
pub open spec fn new_collection(account: Seq<char>, info: CollectionInfo, nft: NftTokenView) -> CollectionView {
    CollectionView {
        collection: account,
        name: info.name@,
        symbol: info.symbol@,
        creator: info.creator@,
        count: info.count@,
        nfts: seq![nft],
    }
}

/// The NFTs of a collection after an `add` (the NFT joins unless one with
/// its key is there) or a `del` (the first NFT with its key leaves).
pub open spec fn nfts_after(nfts: Seq<NftTokenView>, nft: NftTokenView, operate: Seq<char>) -> Seq<
    NftTokenView,
> {
    if operate == "add"@ {
        if first_key(nfts, nft.key) is Some {
            nfts
        } else {
            nfts.push(nft)
        }
    } else if operate == "del"@ {
        match first_key(nfts, nft.key) {
            Some(k) => nfts.remove(k),
            None => nfts,
        }
    } else {
        nfts
    }
}

/// A wallet's holdings after an update. Where the wallet holds the
/// collection, the NFT joins or leaves it, and a collection left empty is
/// dropped. Otherwise an `add` with the collection's information opens a new
/// entry at the end. A new wallet starts from no holdings.
pub open spec fn holding_update(
    holding: Option<Seq<CollectionView>>,
    account: Seq<char>,
    nft: NftTokenView,
    operate: Seq<char>,
    info: Option<CollectionInfo>,
) -> Seq<CollectionView> {
    let cs = match holding {
        Some(cs) => cs,
        None => Seq::empty(),
    };
    match first_collection(cs, account) {
        Some(c) => {
            let nfts = nfts_after(cs[c].nfts, nft, operate);
            let updated = cs.update(c, CollectionView { nfts: nfts, ..cs[c] });
            if nfts.len() == 0 {
                updated.remove(c)
            } else {
                updated
            }
        },
        None => if operate == "add"@ && info is Some {
            cs.push(new_collection(account, info->0, nft))
        } else {
            cs
        },
    }
}

/// Whether the update needs the collection's information: an `add` to a
/// collection that the wallet does not hold yet.
pub open spec fn needs_info(holding: Option<Seq<CollectionView>>, account: Seq<char>, operate: Seq<char>) -> bool {
    operate == "add"@ && match holding {
        Some(cs) => first_collection(cs, account) is None,
        None => true,
    }
}

fn find_collection(cs: &Vec<Collection>, account: &str) -> (r: Option<usize>)
    ensures
        r is None <==> first_collection(collections_view(cs@), account@) is None,
        r matches Some(c) ==> c < cs@.len() && first_collection(collections_view(cs@), account@)
            == Some(c as int),
{
    let ghost v = collections_view(cs@);
    let ghost p = |i: int| v[i].collection == account@;
    let mut i: usize = 0;
    while i < cs.len()
        invariant
            i <= cs.len(),
            v == collections_view(cs@),
            p == (|i: int| v[i].collection == account@),
            positions(i as nat, p).len() == 0,
        decreases cs.len() - i,
    {
        if is_lit(&cs[i].collection, account) {
            proof {
                lemma_positions_first(v.len(), p, i as int);
            }
            return Some(i);
        }
        i = i + 1;
    }
    None
}

fn find_key(nfts: &Vec<NftToken>, key: &String) -> (r: Option<usize>)
    ensures
        r is None <==> first_key(nfts@.map_values(|t: NftToken| t@), key@) is None,
        r matches Some(k) ==> k < nfts@.len() && first_key(nfts@.map_values(|t: NftToken| t@), key@)
            == Some(k as int),
{
    let ghost v = nfts@.map_values(|t: NftToken| t@);
    let ghost p = |i: int| v[i].key == key@;
    let mut i: usize = 0;
    while i < nfts.len()
        invariant
            i <= nfts.len(),
            v == nfts@.map_values(|t: NftToken| t@),
            p == (|i: int| v[i].key == key@),
            positions(i as nat, p).len() == 0,
        decreases nfts.len() - i,
    {
        if nfts[i].key == *key {
            proof {
                lemma_positions_first(v.len(), p, i as int);
            }
            return Some(i);
        }
        i = i + 1;
    }
    None
}

/// If nothing below `i` satisfies `p` and `i` does, `i` is the first position.
proof fn lemma_positions_first(n: nat, p: spec_fn(int) -> bool, i: int)
    requires
        0 <= i < n,
        p(i),
        positions(i as nat, p).len() == 0,
    ensures
        positions(n, p).len() > 0,
        positions(n, p)[0] == i,
    decreases n,
{
    if n - 1 == i {
        assert(positions(n, p) == positions(i as nat, p).push(i));
    } else {
        lemma_positions_first((n - 1) as nat, p, i);
        lemma_positions_step((n - 1) as nat, p);
    }
}

/// The key an NFT is held under: its collection's address and its token id,
/// joined by `-`.
pub open spec fn nft_key_of(collection: Seq<char>, token_id: Seq<char>) -> Seq<char> {
    collection + "-"@ + token_id
}

/// The key an NFT is held under (see [`nft_key_of`]).
pub fn nft_key(collection: &str, token_id: &str) -> (r: String)
    ensures
        r@ == nft_key_of(collection@, token_id@),
{
    let with_dash = crate::text::concat(&owned(collection), "-");
    let r = crate::text::concat(&with_dash, token_id);
    proof {
        assert(r@ =~= nft_key_of(collection@, token_id@));
    }
    r
}

/// Whether updating the holdings `holding` needs the collection's
/// information (see [`needs_info`]).
pub fn needs_collection_info(holding: &Option<Vec<Collection>>, collection_account: &str, operate: &str) -> (r: bool)
    ensures
        r == needs_info(
            match holding {
                Some(v) => Some(collections_view(v@)),
                None => None,
            },
            collection_account@,
            operate@,
        ),
{
    if !str_eq_lit(operate, "add") {
        return false;
    }
    match holding {
        Some(cs) => find_collection(cs, collection_account).is_none(),
        None => true,
    }
}

/// A wallet's holdings after the NFT `nft` of `collection_account` is
/// added (`operate == "add"`) or removed (`operate == "del"`); `holding` is
/// what is stored for the wallet, if it is stored, and `info` the
/// collection's information where [`needs_info`] asks for it.
pub fn nfts_holding_after_update(
    holding: Option<Vec<Collection>>,
    collection_account: &str,
    nft: NftToken,
    operate: &str,
    info: Option<CollectionInfo>,
) -> (r: Vec<Collection>)
    ensures
        collections_view(r@) == holding_update(
            match holding {
                Some(v) => Some(collections_view(v@)),
                None => None,
            },
            collection_account@,
            nft@,
            operate@,
            info,
        ),
{
    let ghost h = match &holding {
        Some(v) => Some(collections_view(v@)),
        None => None,
    };
    let mut cs = match holding {
        Some(v) => v,
        None => Vec::new(),
    };
    let ghost cs0 = collections_view(cs@);
    proof {
        assert(cs0 == (match h {
            Some(cs) => cs,
            None => Seq::<CollectionView>::empty(),
        }));
    }
    let is_add = str_eq_lit(operate, "add");
    let is_del = str_eq_lit(operate, "del");
    match find_collection(&cs, collection_account) {
        Some(c) => {
            let mut col = cs.remove(c);
            let ghost nv0 = col.nfts@.map_values(|t: NftToken| t@);
            let ghost nft_v = nft@;
            if is_add {
                if find_key(&col.nfts, &nft.key).is_none() {
                    col.nfts.push(nft);
                    proof {
                        assert(col.nfts@.map_values(|t: NftToken| t@) =~= nv0.push(nft_v));
                    }
                }
                proof {
                    assert(col.nfts@.map_values(|t: NftToken| t@) == nfts_after(nv0, nft_v, operate@));
                }
            } else if is_del {
                match find_key(&col.nfts, &nft.key) {
                    Some(k) => {
                        col.nfts.remove(k);
                        proof {
                            assert(col.nfts@.map_values(|t: NftToken| t@) =~= nv0.remove(k as int));
                        }
                    },
                    None => {},
                }
                proof {
                    assert(col.nfts@.map_values(|t: NftToken| t@) == nfts_after(nv0, nft_v, operate@));
                }
            }
            let ghost nv1 = col.nfts@.map_values(|t: NftToken| t@);
            proof {
                assert(nv1 == nfts_after(nv0, nft_v, operate@));
            }
            if col.nfts.len() > 0 {
                let ghost before = cs@;
                cs.insert(c, col);
                proof {
                    assert(collections_view(cs@) =~= cs0.update(
                        c as int,
                        CollectionView { nfts: nv1, ..cs0[c as int] },
                    ));
                }
            } else {
                proof {
                    assert(collections_view(cs@) =~= cs0.update(
                        c as int,
                        CollectionView { nfts: nv1, ..cs0[c as int] },
                    ).remove(c as int));
                }
            }
            cs
        },
        None => {
            if is_add {
                match info {
                    Some(i) => {
                        let ghost nft_v = nft@;
                        let mut nfts: Vec<NftToken> = Vec::new();
                        nfts.push(nft);
                        proof {
                            assert(nfts@.map_values(|t: NftToken| t@) =~= seq![nft_v]);
                        }
                        let ghost iv = i;
                        let col = Collection {
                            collection: owned(collection_account),
                            name: i.name,
                            symbol: i.symbol,
                            creator: i.creator,
                            count: i.count,
                            nfts: nfts,
                        };
                        let ghost before = cs@;
                        cs.push(col);
                        proof {
                            assert(collections_view(cs@) =~= cs0.push(
                                new_collection(collection_account@, iv, nft_v),
                            ));
                        }
                    },
                    None => {},
                }
            }
            cs
        },
    }
}

fn str_eq_lit(a: &str, lit: &str) -> (r: bool)
    ensures
        r == (a@ == lit@),
{
    crate::text::str_eq(a, lit)
}

/// `positions` depends only on the predicate's values below `n`.
pub proof fn lemma_positions_ext(n: nat, p: spec_fn(int) -> bool, q: spec_fn(int) -> bool)
    requires
        forall|i: int| 0 <= i < n ==> #[trigger] p(i) == q(i),
    ensures
        positions(n, p) == positions(n, q),
    decreases n,
{
    if n > 0 {
        lemma_positions_ext((n - 1) as nat, p, q);
    }
}

/// Removing an NFT undoes adding it: where the wallet's first entry for the
/// collection (if any) holds some NFTs but none with this NFT's key, adding
/// the NFT and then removing it gives back the holdings as they were.
pub proof fn law_holding_del_undoes_add(
    cs: Seq<CollectionView>,
    account: Seq<char>,
    nft: NftTokenView,
    info: CollectionInfo,
    info2: Option<CollectionInfo>,
)
    requires
        match first_collection(cs, account) {
            Some(c) => 0 <= c < cs.len() && first_key(cs[c].nfts, nft.key) is None
                && cs[c].nfts.len() > 0,
            None => true,
        },
    ensures
        holding_update(
            Some(holding_update(Some(cs), account, nft, "add"@, Some(info))),
            account,
            nft,
            "del"@,
            info2,
        ) == cs,
{
    reveal_strlit("add");
    reveal_strlit("del");
    assert("add"@[0] != "del"@[0]);
    let added = holding_update(Some(cs), account, nft, "add"@, Some(info));
    let pc = |i: int| cs[i].collection == account;
    lemma_positions(cs.len(), pc);
    match first_collection(cs, account) {
        Some(c) => {
            let nfts = cs[c].nfts;
            let grown = nfts.push(nft);
            assert(added == cs.update(c, CollectionView { nfts: grown, ..cs[c] }));
            let pa = |i: int| added[i].collection == account;
            lemma_positions_ext(added.len(), pa, pc);
            assert(first_collection(added, account) == Some(c));
            let pk = |i: int| grown[i].key == nft.key;
            let pk0 = |i: int| nfts[i].key == nft.key;
            lemma_positions_ext(nfts.len(), pk0, |i: int| nfts[i].key == nft.key);
            lemma_positions(nfts.len(), pk0);
            lemma_positions_ext(nfts.len(), pk, pk0);
            assert(positions(nfts.len(), pk).len() == 0);
            lemma_positions_first(grown.len(), pk, nfts.len() as int);
            assert(first_key(grown, nft.key) == Some(nfts.len() as int));
            assert(grown.remove(nfts.len() as int) =~= nfts);
            assert(added.update(c, CollectionView { nfts: nfts, ..added[c] }) =~= cs);
        },
        None => {
            let nc = new_collection(account, info, nft);
            assert(added == cs.push(nc));
            let pa = |i: int| added[i].collection == account;
            lemma_positions_ext(cs.len(), pa, pc);
            lemma_positions_first(added.len(), pa, cs.len() as int);
            assert(first_collection(added, account) == Some(cs.len() as int));
            let pk = |i: int| nc.nfts[i].key == nft.key;
            assert(positions(0, pk).len() == 0);
            lemma_positions_first(1, pk, 0);
            assert(first_key(nc.nfts, nft.key) == Some(0int));
            assert(nc.nfts.remove(0).len() == 0);
            assert(added.update(cs.len() as int, CollectionView { nfts: nc.nfts.remove(0), ..added[cs.len() as int] }).remove(cs.len() as int) =~= cs);
        },
    }
}

// ---------------------------------------------------------------------------
// Auction listings per collection
// ---------------------------------------------------------------------------

/// Two times fall on the same UTC day.
pub open spec fn same_day(t: UtcStamp, d: UtcStamp) -> bool {
    t.year == d.year && t.month == d.month && t.day == d.day
}

/// The listings of `auctions` made on the UTC day of `today`, in order.
pub open spec fn listed_today(auctions: Seq<OnlyCreateAuction>, today: UtcStamp) -> Seq<
    OnlyCreateAuction,
>
    decreases auctions.len(),
{
    if auctions.len() == 0 {
        Seq::empty()
    } else {
        let prev = listed_today(auctions.drop_last(), today);
        if same_day(rfc3339_utc(auctions.last().ts@)->0, today) {
            prev.push(auctions.last())
        } else {
            prev
        }
    }
}

/// Every listing's time is an RFC 3339 time.
pub open spec fn listing_times_parse(auctions: Seq<OnlyCreateAuction>) -> bool {
    forall|i: int| 0 <= i < auctions.len() ==> (#[trigger] rfc3339_utc(auctions[i].ts@)) is Some
}

/// The listings of a collection after an update: the stored ones made
/// today, then the new ones; a collection not stored yet gets the new ones.
pub open spec fn auctions_update(
    existing: Option<Seq<OnlyCreateAuction>>,
    new: Seq<OnlyCreateAuction>,
    today: UtcStamp,
) -> Seq<OnlyCreateAuction> {
    match existing {
        Some(db) => listed_today(db, today) + new,
        None => new,
    }
}

/// The listings kept for a collection after `create_auctions` are added on
/// the day of `today`.
pub fn create_auctions_after_update(
    existing: Option<Vec<OnlyCreateAuction>>,
    create_auctions: Vec<OnlyCreateAuction>,
    today: &UtcStamp,
) -> (r: Vec<OnlyCreateAuction>)
    requires
        existing matches Some(v) ==> listing_times_parse(v@),
    ensures
        r@ == auctions_update(
            match existing {
                Some(v) => Some(v@),
                None => None,
            },
            create_auctions@,
            *today,
        ),
{
    match existing {
        None => create_auctions,
        Some(db) => {
            let mut kept: Vec<OnlyCreateAuction> = Vec::new();
            let mut i: usize = 0;
            while i < db.len()
                invariant
                    i <= db.len(),
                    listing_times_parse(db@),
                    kept@ == listed_today(db@.take(i as int), *today),
                decreases db.len() - i,
            {
                proof {
                    assert(db@.take(i + 1).drop_last() =~= db@.take(i as int));
                    assert(rfc3339_utc(db@[i as int].ts@) is Some);
                }
                let t = parse_rfc3339(db[i].ts.as_str());
                match t {
                    Some(t) => {
                        if t.year == today.year && t.month == today.month && t.day == today.day {
                            kept.push(db[i].clone());
                        }
                    },
                    None => {},
                }
                i = i + 1;
            }
            proof {
                assert(db@.take(db.len() as int) =~= db@);
            }
            let mut add = create_auctions;
            kept.append(&mut add);
            kept
        },
    }
}

} // verus!

verus! {

/// Adding an NFT a second time changes nothing, where the first time it
/// was added (the wallet held the collection, or its information was
/// there to open a new entry).
pub proof fn law_holding_add_idempotent(
    cs: Seq<CollectionView>,
    account: Seq<char>,
    nft: NftTokenView,
    info: Option<CollectionInfo>,
    info2: Option<CollectionInfo>,
)
    requires
        first_collection(cs, account) is Some || info is Some,
    ensures
        holding_update(
            Some(holding_update(Some(cs), account, nft, "add"@, info)),
            account,
            nft,
            "add"@,
            info2,
        ) == holding_update(Some(cs), account, nft, "add"@, info),
{
    let added = holding_update(Some(cs), account, nft, "add"@, info);
    let pc = |i: int| cs[i].collection == account;
    lemma_positions(cs.len(), pc);
    match first_collection(cs, account) {
        Some(c) => {
            let nfts = cs[c].nfts;
            let grown = nfts_after(nfts, nft, "add"@);
            let pk0 = |i: int| nfts[i].key == nft.key;
            lemma_positions(nfts.len(), pk0);
            let pg = |i: int| grown[i].key == nft.key;
            if first_key(nfts, nft.key) is Some {
                assert(grown == nfts);
                lemma_positions_ext(nfts.len(), pg, pk0);
                assert(grown.len() > 0);
            } else {
                assert(grown == nfts.push(nft));
                lemma_positions_ext(nfts.len(), pg, pk0);
                lemma_positions_first(grown.len(), pg, nfts.len() as int);
            }
            assert(first_key(grown, nft.key) is Some);
            assert(added == cs.update(c, CollectionView { nfts: grown, ..cs[c] }));
            let pa = |i: int| added[i].collection == account;
            lemma_positions_ext(added.len(), pa, pc);
            assert(first_collection(added, account) == Some(c));
            assert(nfts_after(grown, nft, "add"@) == grown);
            assert(added.update(c, CollectionView { nfts: grown, ..added[c] }) =~= added);
        },
        None => {
            let nc = new_collection(account, info->0, nft);
            assert(added == cs.push(nc));
            let pa = |i: int| added[i].collection == account;
            lemma_positions_ext(cs.len(), pa, pc);
            lemma_positions_first(added.len(), pa, cs.len() as int);
            assert(first_collection(added, account) == Some(cs.len() as int));
            let pk = |i: int| nc.nfts[i].key == nft.key;
            assert(positions(0, pk).len() == 0);
            lemma_positions_first(1, pk, 0);
            assert(first_key(nc.nfts, nft.key) == Some(0int));
            assert(nfts_after(nc.nfts, nft, "add"@) == nc.nfts);
            assert(added.update(cs.len() as int, CollectionView { nfts: nc.nfts, ..added[cs.len() as int] }) =~= added);
        },
    }
}

} // verus!

verus! {

/// [`create_auctions_after_update`] where every stored listing's time
/// parses; `None` otherwise.
pub fn try_create_auctions_after_update(
    existing: Option<Vec<OnlyCreateAuction>>,
    create_auctions: Vec<OnlyCreateAuction>,
    today: &UtcStamp,
) -> (r: Option<Vec<OnlyCreateAuction>>)
    ensures
        r is Some <==> match existing {
            Some(v) => listing_times_parse(v@),
            None => true,
        },
        r matches Some(x) ==> x@ == auctions_update(
            match existing {
                Some(v) => Some(v@),
                None => None,
            },
            create_auctions@,
            *today,
        ),
{
    if let Some(v) = &existing {
        let mut i: usize = 0;
        while i < v.len()
            invariant
                i <= v.len(),
                existing == Some(*v),
                forall|j: int| 0 <= j < i ==> (#[trigger] rfc3339_utc(v@[j].ts@)) is Some,
            decreases v.len() - i,
        {
            if parse_rfc3339(v[i].ts.as_str()).is_none() {
                proof {
                    assert(rfc3339_utc(v@[i as int].ts@) is None);
                    assert(!listing_times_parse(v@));
                    assert(existing->0@ == v@);
                }
                return None;
            }
            i = i + 1;
        }
    }
    Some(create_auctions_after_update(existing, create_auctions, today))
}

} // verus!
