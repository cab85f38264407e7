//! The block scanner's side: which transactions of a listed block it
//! follows up, what a block listing answers, and its progress settings.
use vstd::prelude::*;
use crate::text::{byte_suffix, is_lit, owned};

verus! {

/// A transaction of a block as the block explorer lists it: its hash,
/// whether it succeeded, and the type of each of its messages.
#[derive(Debug)]
pub struct BlockTx {
    pub hash: String,
    pub success: bool,
    pub message_types: Vec<String>,
}

/// What the block explorer answered for a block: a list of transactions
/// (`None` where the list could not be read), an error code, or anything
/// else.
#[derive(Debug)]
pub enum BlockPage {
    Items(Option<Vec<BlockTx>>),
    Code(i64),
    Other,
}

/// What `str::to_uppercase` makes of a text.
pub uninterp spec fn uppercase(s: Seq<char>) -> Seq<char>;

/// `str::to_uppercase`. Claimed: the result is a function of the text alone
/// (named `uppercase`); what that function is, the contract leaves unsaid.
#[verifier::external_body]
fn to_uppercase(s: &str) -> (r: String)
    ensures
        r@ == uppercase(s@),
{
    s.to_uppercase()
}

/// The message type of a price-feed vote.
pub open spec fn oracle_vote() -> Seq<char> {
    "/seiprotocol.seichain.oracle.MsgAggregateExchangeRateVote"@
}

/// A transaction is followed up: it succeeded and some message is not a
/// price-feed vote.
pub open spec fn followed(t: BlockTx) -> bool {
    t.success && exists|i: int|
        0 <= i < t.message_types@.len() && (#[trigger] t.message_types@[i])@ != oracle_vote()
}

/// The hash the scanner looks a transaction up by: its listed hash without
/// the first two bytes, in upper case; `None` where those bytes cannot be
/// cut off.
pub open spec fn lookup_hash(t: BlockTx) -> Option<Seq<char>> {
    match byte_suffix(t.hash@, 2) {
        Some(s) => Some(uppercase(s)),
        None => None,
    }
}

/// The lookup hashes of the followed transactions, in order; `None` where
/// one cannot be made.
pub open spec fn followed_hashes(items: Seq<BlockTx>) -> Option<Seq<Seq<char>>>
    decreases items.len(),
{
    if items.len() == 0 {
        Some(Seq::empty())
    } else {
        match followed_hashes(items.drop_last()) {
            None => None,
            Some(p) => if followed(items.last()) {
                match lookup_hash(items.last()) {
                    Some(h) => Some(p.push(h)),
                    None => None,
                }
            } else {
                Some(p)
            },
        }
    }
}

/// The texts of a sequence of strings.
pub open spec fn texts_of(v: Seq<String>) -> Seq<Seq<char>> {
    v.map_values(|s: String| s@)
}

fn followed_exec(t: &BlockTx) -> (r: bool)
    ensures
        r == followed(*t),
{
    if !t.success {
        return false;
    }
    let mut i: usize = 0;
    while i < t.message_types.len()
        invariant
            t.success,
            i <= t.message_types.len(),
            forall|j: int| 0 <= j < i ==> (#[trigger] t.message_types@[j])@ == oracle_vote(),
        decreases t.message_types.len() - i,
    {
        if !is_lit(&t.message_types[i], "/seiprotocol.seichain.oracle.MsgAggregateExchangeRateVote") {
            proof {
                assert((t.message_types@[i as int])@ != oracle_vote());
            }
            return true;
        }
        i = i + 1;
    }
    false
}

fn cut_two(s: &String) -> (r: Option<String>)
    ensures
        match byte_suffix(s@, 2) {
            Some(p) => (r matches Some(x) && x@ == p),
            None => r is None,
        },
{
    let cs = crate::text::chars_of(s.as_str());
    match crate::text::boundary_position(&cs, 2) {
        Some(k) => {
            let mut out: Vec<char> = Vec::new();
            let mut i: usize = k;
            while i < cs.len()
                invariant
                    k <= i <= cs@.len(),
                    out@ == cs@.subrange(k as int, i as int),
                decreases cs.len() - i,
            {
                out.push(cs[i]);
                proof {
                    assert(cs@.subrange(k as int, i as int).push(cs@[i as int]) =~= cs@.subrange(
                        k as int,
                        i + 1,
                    ));
                }
                i = i + 1;
            }
            proof {
                assert(crate::text::is_char_boundary(s@, 2));
                let kk = choose|m: int| 0 <= m <= s@.len() && #[trigger] crate::text::utf8_len(s@.take(m)) == 2;
                crate::text::lemma_boundary_unique(s@, k as int, kk);
                assert(cs@.subrange(k as int, cs@.len() as int) =~= cs@.skip(k as int));
            }
            Some(crate::text::string_of(&out))
        },
        None => None,
    }
}

/// The lookup hashes of the followed transactions of a block, in order
/// (see [`followed_hashes`]).
pub fn block_tx_hashes(items: &Vec<BlockTx>) -> (r: Option<Vec<String>>)
    ensures
        match followed_hashes(items@) {
            Some(h) => (r matches Some(v) && texts_of(v@) == h),
            None => r is None,
        },
{
    let mut out: Vec<String> = Vec::new();
    let mut i: usize = 0;
    while i < items.len()
        invariant
            i <= items.len(),
            followed_hashes(items@.take(i as int)) == Some(texts_of(out@)),
        decreases items.len() - i,
    {
        let t = &items[i];
        proof {
            assert(items@.take(i + 1).drop_last() =~= items@.take(i as int));
            assert(items@.take(i + 1).last() == *t);
        }
        if followed_exec(t) {
            match cut_two(&t.hash) {
                Some(tail) => {
                    let ghost o0 = out@;
                    out.push(to_uppercase(tail.as_str()));
                    proof {
                        assert(texts_of(out@) =~= texts_of(o0).push(out@.last()@));
                    }
                },
                None => {
                    proof {
                        lemma_hashes_prefix_none(items@, i + 1);
                    }
                    return None;
                },
            }
        }
        i = i + 1;
    }
    proof {
        assert(items@.take(items.len() as int) =~= items@);
    }
    Some(out)
}

proof fn lemma_hashes_prefix_none(items: Seq<BlockTx>, j: int)
    requires
        0 <= j <= items.len(),
        followed_hashes(items.take(j)) is None,
    ensures
        followed_hashes(items) is None,
    decreases items.len(),
{
    if j < items.len() {
        assert(items.drop_last().take(j) =~= items.take(j));
        lemma_hashes_prefix_none(items.drop_last(), j);
    } else {
        assert(items.take(j) =~= items);
    }
}

/// What the scanner makes of a block listing: the lookup hashes of the
/// followed transactions; or the error `null` for an empty list, `1` for a
/// list that could not be read, `500` for that error code and `0` for any
/// other answer. `None` where a lookup hash cannot be made.
pub fn block_page_hashes(page: &BlockPage) -> (r: Option<Result<Vec<String>, String>>)
    ensures
        match *page {
            BlockPage::Items(Some(v)) => if v@.len() == 0 {
                (r matches Some(Err(e)) && e@ == "null"@)
            } else {
                match followed_hashes(v@) {
                    Some(h) => (r matches Some(Ok(hs)) && texts_of(hs@) == h),
                    None => r is None,
                }
            },
            BlockPage::Items(None) => (r matches Some(Err(e)) && e@ == "1"@),
            BlockPage::Code(c) => (r matches Some(Err(e)) && e@ == (if c == 500 {
                "500"@
            } else {
                "0"@
            })),
            BlockPage::Other => (r matches Some(Err(e)) && e@ == "0"@),
        },
{
    match page {
        BlockPage::Items(Some(v)) => {
            if v.len() == 0 {
                Some(Err(owned("null")))
            } else {
                match block_tx_hashes(v) {
                    Some(h) => Some(Ok(h)),
                    None => None,
                }
            }
        },
        BlockPage::Items(None) => Some(Err(owned("1"))),
        BlockPage::Code(c) => {
            if *c == 500 {
                Some(Err(owned("500")))
            } else {
                Some(Err(owned("0")))
            }
        },
        BlockPage::Other => Some(Err(owned("0"))),
    }
}

/// The block range the scanner covers, and the last block it finished.
#[derive(Debug)]
pub struct Config {
    pub start_block: usize,
    pub end_block: usize,
    pub sync_block: usize,
}

impl Config {
    /// The settings with `now_block` as the last finished block.
    pub fn with_sync_block(self, now_block: usize) -> (r: Config)
        ensures
            r.start_block == self.start_block,
            r.end_block == self.end_block,
            r.sync_block == now_block,
    {
        Config { start_block: self.start_block, end_block: self.end_block, sync_block: now_block }
    }
}

/// A wallet named in a request.
#[derive(Debug)]
pub struct Wallet {
    pub wallet_address: String,
}

/// The answer for a wallet with nothing to show.
#[derive(Debug)]
pub struct DontHaveData {
    pub wallet_address: String,
    pub result: Option<String>,
}

impl DontHaveData {
    /// The answer that the wallet has nothing to show.
    pub fn for_wallet(wallet_address: String) -> (r: DontHaveData)
        ensures
            r.wallet_address == wallet_address,
            r.result is None,
    {
        DontHaveData { wallet_address, result: None }
    }
}

} // verus!
