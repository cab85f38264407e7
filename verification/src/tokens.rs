//! A wallet's token balances as they are shown: the kind of each
//! denomination, its display name, its value in `usei` where a swap route
//! quotes one, the swaps that concern it; and its gain since it was bought.
use vstd::prelude::*;
use crate::holdings::opt_view;
use crate::model::{TokenSwap, WalletTokenBalance};
use crate::select::{lemma_positions, positions};
use crate::text::{
    boundary_position, byte_prefix, byte_suffix, chars_of, concat, is_char_boundary, is_lit,
    lemma_boundary_unique, owned, parse_i64, parse_i64_exec, parse_usize, parse_usize_exec, string_of,
    utf8_len,
};

verus! {

/// Where the logo of `usei` is found.
pub open spec fn sei_logo() -> Seq<char> {
    "https://raw.githubusercontent.com/astroport-fi/astroport-token-lists/main/img/sei.png"@
}

/// Where the logos of IBC tokens are found, before the token's name.
pub open spec fn ibc_logo_prefix() -> Seq<char> {
    "https://raw.githubusercontent.com/astroport-fi/astroport-token-lists/main/img/"@
}

/// A token held by a wallet, as it is shown.
#[derive(Debug)]
pub struct UserTokenHolding {
    pub name: String,
    pub demon: String,
    pub decimals: Option<u8>,
    pub logo_url: Option<String>,
    pub amount: String,
    pub worth_usei: Option<String>,
    pub buy_price: Option<String>,
    pub token_transactions: Vec<TokenSwap>,
}

/// What a [`UserTokenHolding`] holds, as text.
pub struct TokenHoldingView {
    pub name: Seq<char>,
    pub demon: Seq<char>,
    pub decimals: Option<u8>,
    pub logo_url: Option<Seq<char>>,
    pub amount: Seq<char>,
    pub worth_usei: Option<Seq<char>>,
    pub buy_price: Option<Seq<char>>,
    pub token_transactions: Seq<TokenSwap>,
}

impl View for UserTokenHolding {
    type V = TokenHoldingView;

    open spec fn view(&self) -> TokenHoldingView {
        TokenHoldingView {
            name: self.name@,
            demon: self.demon@,
            decimals: self.decimals,
            logo_url: opt_view(self.logo_url),
            amount: self.amount@,
            worth_usei: opt_view(self.worth_usei),
            buy_price: opt_view(self.buy_price),
            token_transactions: self.token_transactions@,
        }
    }
}

/// What a swap route to `usei` quotes for a token: the token's decimals and
/// the amount of `usei` the balance comes to.
#[derive(Debug)]
pub struct RouteQuote {
    pub decimals_in: u8,
    pub amount_out: String,
}

/// One step of a swap route: the pool contract, the denominations it swaps
/// from and to, its kind, and whether it is illiquid.
#[derive(Debug)]
pub struct SwapData {
    pub contract_addr: String,
    pub from: String,
    pub to: String,
    pub _type: String,
    pub illiquid: bool,
}

/// What a token's contract says of it.
#[derive(Debug)]
pub struct ContractTokenInfo {
    pub name: String,
    pub decimals: u8,
    pub logo_url: String,
}

// ---------------------------------------------------------------------------
// Kinds of denomination
// ---------------------------------------------------------------------------

/// The kind of a denomination: 0 for `usei`, 1 for a token factory
/// denomination (its first seven bytes are `factory`), 2 for an IBC one (its
/// first three bytes are `ibc`), 3 for any other. `None` where the first
/// seven, or three, bytes cannot be taken.
pub open spec fn token_kind(denom: Seq<char>) -> Option<u8> {
    if denom == "usei"@ {
        Some(0)
    } else {
        match byte_prefix(denom, 7) {
            None => None,
            Some(p) => if p == "factory"@ {
                Some(1)
            } else {
                match byte_prefix(denom, 3) {
                    None => None,
                    Some(q) => if q == "ibc"@ {
                        Some(2)
                    } else {
                        Some(3)
                    },
                }
            },
        }
    }
}

proof fn lemma_prefix_at(s: Seq<char>, b: int, k: int)
    requires
        0 <= k <= s.len(),
        utf8_len(s.take(k)) == b,
    ensures
        byte_prefix(s, b) == Some(s.take(k)),
        byte_suffix(s, b) == Some(s.skip(k)),
{
    assert(is_char_boundary(s, b));
    let kk = choose|m: int| 0 <= m <= s.len() && #[trigger] utf8_len(s.take(m)) == b;
    lemma_boundary_unique(s, k, kk);
}

/// `s.get(0..b)`.
fn prefix_bytes(s: &String, b: usize) -> (r: Option<String>)
    ensures
        match byte_prefix(s@, b as int) {
            Some(p) => r matches Some(x) && x@ == p,
            None => r is None,
        },
{
    let cs = chars_of(s.as_str());
    match boundary_position(&cs, b) {
        Some(k) => {
            let mut out: Vec<char> = Vec::new();
            let mut i: usize = 0;
            while i < k
                invariant
                    k <= cs@.len(),
                    i <= k,
                    out@ == cs@.take(i as int),
                decreases k - i,
            {
                out.push(cs[i]);
                proof {
                    assert(cs@.take(i as int).push(cs@[i as int]) =~= cs@.take(i + 1));
                }
                i = i + 1;
            }
            proof {
                lemma_prefix_at(s@, b as int, k as int);
            }
            Some(string_of(&out))
        },
        None => None,
    }
}

/// `s.get(b..)`.
fn suffix_bytes(s: &String, b: usize) -> (r: Option<String>)
    ensures
        match byte_suffix(s@, b as int) {
            Some(p) => r matches Some(x) && x@ == p,
            None => r is None,
        },
{
    let cs = chars_of(s.as_str());
    match boundary_position(&cs, b) {
        Some(k) => {
            let mut out: Vec<char> = Vec::new();
            let mut i: usize = k;
            while i < cs.len()
                invariant
                    k <= i <= cs@.len(),
                    out@ == cs@.subrange(k as int, i as int),
                decreases cs.len() - i,
            {
                out.push(cs[i]);
                proof {
                    assert(cs@.subrange(k as int, i as int).push(cs@[i as int]) =~= cs@.subrange(
                        k as int,
                        i + 1,
                    ));
                }
                i = i + 1;
            }
            proof {
                lemma_prefix_at(s@, b as int, k as int);
                assert(cs@.subrange(k as int, cs@.len() as int) =~= cs@.skip(k as int));
            }
            Some(string_of(&out))
        },
        None => None,
    }
}

/// The kind of a denomination (see [`token_kind`]).
pub fn token_kind_of(denom: &String) -> (r: Option<u8>)
    ensures
        r == token_kind(denom@),
{
    if is_lit(denom, "usei") {
        return Some(0);
    }
    match prefix_bytes(denom, 7) {
        None => None,
        Some(p) => if is_lit(&p, "factory") {
            Some(1)
        } else {
            match prefix_bytes(denom, 3) {
                None => None,
                Some(q) => if is_lit(&q, "ibc") {
                    Some(2)
                } else {
                    Some(3)
                },
            }
        },
    }
}

/// The positions of the slashes of `s`.
pub open spec fn slashes(s: Seq<char>) -> Seq<int> {
    positions(s.len(), |i: int| s[i] == '/')
}

/// The name of a token factory denomination: the bytes after its second
/// slash, the slash counted by its character position. `None` where it has
/// fewer than two slashes or that offset is not a character boundary.
pub open spec fn factory_name(denom: Seq<char>) -> Option<Seq<char>> {
    if slashes(denom).len() >= 2 {
        byte_suffix(denom, slashes(denom)[1] + 1)
    } else {
        None
    }
}

fn factory_name_of(denom: &String) -> (r: Option<String>)
    ensures
        match factory_name(denom@) {
            Some(n) => r matches Some(x) && x@ == n,
            None => r is None,
        },
{
    let cs = chars_of(denom.as_str());
    let ghost p = |i: int| denom@[i] == '/';
    proof {
        assert(slashes(denom@) == positions(denom@.len(), p));
    }
    let mut count: usize = 0;
    let mut i: usize = 0;
    while i < cs.len()
        invariant
            i <= cs@.len(),
            cs@ == denom@,
            p == (|i: int| denom@[i] == '/'),
            count == positions(i as nat, p).len(),
            count <= 1,
        decreases cs.len() - i,
    {
        if cs[i] == '/' {
            if count == 1 {
                proof {
                    assert(p(i as int));
                    crate::select::lemma_positions_step(i as nat, p);
                    lemma_positions_prefix(denom@.len(), p, (i + 1) as nat);
                    let q = positions((i + 1) as nat, p);
                    assert(q == positions(i as nat, p).push(i as int));
                    assert(q.len() == 2);
                    assert(slashes(denom@).take(2) == q);
                    assert(slashes(denom@).take(2)[1] == slashes(denom@)[1]);
                    assert(slashes(denom@)[1] == i);
                }
                return suffix_bytes(denom, i + 1);
            }
            count = count + 1;
        }
        i = i + 1;
    }
    proof {
        assert(slashes(denom@) == positions(i as nat, p));
    }
    None
}

/// The positions below `m` are a prefix of the positions below `n`.
proof fn lemma_positions_prefix(n: nat, p: spec_fn(int) -> bool, m: nat)
    requires
        m <= n,
    ensures
        positions(m, p).len() <= positions(n, p).len(),
        positions(m, p) == positions(n, p).take(positions(m, p).len() as int),
    decreases n,
{
    if m < n {
        lemma_positions_prefix((n - 1) as nat, p, m);
        let prev = positions((n - 1) as nat, p);
        if p(n - 1) {
            assert(positions(n, p) == prev.push(n - 1));
            assert(prev.push(n - 1).take(positions(m, p).len() as int) =~= prev.take(
                positions(m, p).len() as int,
            ));
        }
    } else {
        assert(positions(n, p).take(positions(n, p).len() as int) =~= positions(n, p));
    }
}

// ---------------------------------------------------------------------------
// One holding
// ---------------------------------------------------------------------------

/// The swaps shown with `usei`: those paid in `usei`, or whose source amount
/// reads `usei`.
pub open spec fn usei_swaps(swaps: Seq<TokenSwap>) -> Seq<TokenSwap> {
    swaps.filter(|t: TokenSwap| t.target_token@ == "usei"@ || t.source_amount@ == "usei"@)
}

/// The swaps that concern the denomination `denom`.
pub open spec fn denom_swaps(swaps: Seq<TokenSwap>, denom: Seq<char>) -> Seq<TokenSwap> {
    swaps.filter(|t: TokenSwap| t.source_token@ == denom || t.target_token@ == denom)
}

/// The swaps of a factory token can be read: each amount of each swap that
/// concerns it reads as a `usize`, and the time of each one that does not
/// buy it parses.
pub open spec fn factory_swaps_read(swaps: Seq<TokenSwap>, denom: Seq<char>) -> bool {
    forall|i: int|
        0 <= i < swaps.len() && (swaps[i].source_token@ == denom || swaps[i].target_token@ == denom)
            ==> {
            &&& parse_usize(#[trigger] swaps[i].source_amount@) is Some
            &&& parse_usize(swaps[i].target_amount@) is Some
            &&& swaps[i].target_token@ != denom ==> crate::time::rfc3339_utc(swaps[i].ts@) is Some
        }
}

/// The route's decimals and quote, where there is a route.
pub open spec fn route_decimals(route: Option<RouteQuote>) -> Option<u8> {
    match route {
        Some(q) => Some(q.decimals_in),
        None => None,
    }
}

/// What the route says the balance is worth, where there is a route.
pub open spec fn route_worth(route: Option<RouteQuote>) -> Option<Seq<char>> {
    match route {
        Some(q) => Some(q.amount_out@),
        None => None,
    }
}

/// A balance as it is shown, given the wallet's stored swaps (`None` where
/// the wallet is not stored), the swap route quote for the balance, the IBC
/// base denomination and the contract's own information, where these were
/// found. `None` where the denomination's kind cannot be read, the amount
/// is not a `usize`, a factory name or IBC logo name cannot be cut out, or a
/// factory token's swaps cannot be read.
pub open spec fn holding_of(
    b: WalletTokenBalance,
    history: Option<Seq<TokenSwap>>,
    route: Option<RouteQuote>,
    ibc_base: Option<String>,
    contract: Option<ContractTokenInfo>,
) -> Option<TokenHoldingView> {
    let d = b.denom@;
    match token_kind(d) {
        None => None,
        Some(k) => if k == 0 {
            Some(
                TokenHoldingView {
                    name: d,
                    demon: d,
                    decimals: Some(6),
                    logo_url: Some(sei_logo()),
                    amount: b.amount@,
                    worth_usei: Some(b.amount@),
                    buy_price: None,
                    token_transactions: match history {
                        Some(h) => usei_swaps(h),
                        None => Seq::empty(),
                    },
                },
            )
        } else if parse_usize(b.amount@) is None {
            None
        } else if k == 1 {
            match factory_name(d) {
                None => None,
                Some(name) => if history matches Some(h) && !factory_swaps_read(h, d) {
                    None
                } else {
                    Some(
                        TokenHoldingView {
                            name: name,
                            demon: d,
                            decimals: route_decimals(route),
                            logo_url: None,
                            amount: b.amount@,
                            worth_usei: route_worth(route),
                            buy_price: None,
                            token_transactions: match history {
                                Some(h) => denom_swaps(h, d),
                                None => Seq::empty(),
                            },
                        },
                    )
                },
            }
        } else if k == 2 {
            match ibc_base {
                Some(base) => match byte_suffix(base@, 1) {
                    None => None,
                    Some(tail) => Some(
                        TokenHoldingView {
                            name: base@,
                            demon: d,
                            decimals: route_decimals(route),
                            logo_url: Some(ibc_logo_prefix() + tail + ".svg"@),
                            amount: b.amount@,
                            worth_usei: route_worth(route),
                            buy_price: None,
                            token_transactions: Seq::empty(),
                        },
                    ),
                },
                None => Some(
                    TokenHoldingView {
                        name: d,
                        demon: d,
                        decimals: route_decimals(route),
                        logo_url: None,
                        amount: b.amount@,
                        worth_usei: route_worth(route),
                        buy_price: None,
                        token_transactions: Seq::empty(),
                    },
                ),
            }
        } else {
            match contract {
                Some(info) => Some(
                    TokenHoldingView {
                        name: info.name@,
                        demon: d,
                        decimals: Some(info.decimals),
                        logo_url: Some(info.logo_url@),
                        amount: b.amount@,
                        worth_usei: route_worth(route),
                        buy_price: None,
                        token_transactions: Seq::empty(),
                    },
                ),
                None => Some(
                    TokenHoldingView {
                        name: d,
                        demon: d,
                        decimals: route_decimals(route),
                        logo_url: None,
                        amount: b.amount@,
                        worth_usei: route_worth(route),
                        buy_price: None,
                        token_transactions: Seq::empty(),
                    },
                ),
            }
        },
    }
}

fn filter_swaps(swaps: &Vec<TokenSwap>, denom: &String, usei: bool) -> (r: Vec<TokenSwap>)
    ensures
        r@ == if usei {
            usei_swaps(swaps@)
        } else {
            denom_swaps(swaps@, denom@)
        },
{
    let mut out: Vec<TokenSwap> = Vec::new();
    let mut i: usize = 0;
    while i < swaps.len()
        invariant
            i <= swaps.len(),
            out@ == if usei {
                usei_swaps(swaps@.take(i as int))
            } else {
                denom_swaps(swaps@.take(i as int), denom@)
            },
        decreases swaps.len() - i,
    {
        let t = &swaps[i];
        proof {
            reveal(Seq::filter);
            assert(swaps@.take(i + 1).drop_last() =~= swaps@.take(i as int));
            assert(swaps@.take(i + 1).last() == *t);
        }
        let keep = if usei {
            is_lit(&t.target_token, "usei") || is_lit(&t.source_amount, "usei")
        } else {
            t.source_token == *denom || t.target_token == *denom
        };
        if keep {
            out.push(t.clone());
        }
        i = i + 1;
    }
    proof {
        assert(swaps@.take(swaps.len() as int) =~= swaps@);
    }
    out
}

fn factory_swaps_read_exec(swaps: &Vec<TokenSwap>, denom: &String) -> (r: bool)
    ensures
        r == factory_swaps_read(swaps@, denom@),
{
    let mut i: usize = 0;
    while i < swaps.len()
        invariant
            i <= swaps.len(),
            forall|j: int|
                0 <= j < i && (swaps@[j].source_token@ == denom@ || swaps@[j].target_token@ == denom@)
                    ==> {
                    &&& parse_usize(#[trigger] swaps@[j].source_amount@) is Some
                    &&& parse_usize(swaps@[j].target_amount@) is Some
                    &&& swaps@[j].target_token@ != denom@ ==> crate::time::rfc3339_utc(
                        swaps@[j].ts@,
                    ) is Some
                },
        decreases swaps.len() - i,
    {
        let t = &swaps[i];
        if t.source_token == *denom || t.target_token == *denom {
            if parse_usize_exec(t.source_amount.as_str()).is_none() || parse_usize_exec(
                t.target_amount.as_str(),
            ).is_none() {
                return false;
            }
            if t.target_token != *denom && crate::time::parse_rfc3339(t.ts.as_str()).is_none() {
                return false;
            }
        }
        i = i + 1;
    }
    true
}

fn route_parts(route: &Option<RouteQuote>) -> (r: (Option<u8>, Option<String>))
    ensures
        r.0 == route_decimals(*route),
        opt_view(r.1) == route_worth(*route),
{
    match route {
        Some(q) => (Some(q.decimals_in), Some(q.amount_out.clone())),
        None => (None, None),
    }
}

/// A balance as it is shown (see [`holding_of`]).
pub fn token_holding(
    balance: &WalletTokenBalance,
    history: &Option<Vec<TokenSwap>>,
    route: Option<RouteQuote>,
    ibc_base: Option<String>,
    contract: Option<ContractTokenInfo>,
) -> (r: Option<UserTokenHolding>)
    ensures
        match holding_of(
            *balance,
            match history {
                Some(h) => Some(h@),
                None => None,
            },
            route,
            ibc_base,
            contract,
        ) {
            Some(v) => (r matches Some(x) && x@ == v),
            None => r is None,
        },
{
    let d = &balance.denom;
    let (decimals, worth) = route_parts(&route);
    let kind = match token_kind_of(d) {
        Some(k) => k,
        None => {
            return None;
        },
    };
    if kind == 0 {
        let txs = match history {
            Some(h) => filter_swaps(h, d, true),
            None => Vec::new(),
        };
        return Some(
            UserTokenHolding {
                name: d.clone(),
                demon: d.clone(),
                decimals: Some(6),
                logo_url: Some(owned("https://raw.githubusercontent.com/astroport-fi/astroport-token-lists/main/img/sei.png")),
                amount: balance.amount.clone(),
                worth_usei: Some(balance.amount.clone()),
                buy_price: None,
                token_transactions: txs,
            },
        );
    }
    if parse_usize_exec(balance.amount.as_str()).is_none() {
        return None;
    }
    if kind == 1 {
        let name = match factory_name_of(d) {
            Some(n) => n,
            None => {
                return None;
            },
        };
        let txs = match history {
            Some(h) => {
                if !factory_swaps_read_exec(h, d) {
                    return None;
                }
                filter_swaps(h, d, false)
            },
            None => Vec::new(),
        };
        Some(
            UserTokenHolding {
                name,
                demon: d.clone(),
                decimals,
                logo_url: None,
                amount: balance.amount.clone(),
                worth_usei: worth,
                buy_price: None,
                token_transactions: txs,
            },
        )
    } else if kind == 2 {
        match ibc_base {
            Some(base) => match suffix_bytes(&base, 1) {
                None => None,
                Some(tail) => {
                    let logo = concat(
                        &concat(&owned("https://raw.githubusercontent.com/astroport-fi/astroport-token-lists/main/img/"), tail.as_str()),
                        ".svg",
                    );
                    Some(
                        UserTokenHolding {
                            name: base,
                            demon: d.clone(),
                            decimals,
                            logo_url: Some(logo),
                            amount: balance.amount.clone(),
                            worth_usei: worth,
                            buy_price: None,
                            token_transactions: Vec::new(),
                        },
                    )
                },
            },
            None => Some(
                UserTokenHolding {
                    name: d.clone(),
                    demon: d.clone(),
                    decimals,
                    logo_url: None,
                    amount: balance.amount.clone(),
                    worth_usei: worth,
                    buy_price: None,
                    token_transactions: Vec::new(),
                },
            ),
        }
    } else {
        match contract {
            Some(info) => Some(
                UserTokenHolding {
                    name: info.name,
                    demon: d.clone(),
                    decimals: Some(info.decimals),
                    logo_url: Some(info.logo_url),
                    amount: balance.amount.clone(),
                    worth_usei: worth,
                    buy_price: None,
                    token_transactions: Vec::new(),
                },
            ),
            None => Some(
                UserTokenHolding {
                    name: d.clone(),
                    demon: d.clone(),
                    decimals,
                    logo_url: None,
                    amount: balance.amount.clone(),
                    worth_usei: worth,
                    buy_price: None,
                    token_transactions: Vec::new(),
                },
            ),
        }
    }
}

// ---------------------------------------------------------------------------
// Gains since purchase
// ---------------------------------------------------------------------------

/// `unrealized_gains` read as an `i64`, where it is there and reads.
pub fn parse_unrealized_gains(unrealized_gains: &Option<String>) -> (r: Option<i64>)
    ensures
        r == match *unrealized_gains {
            Some(s) => match parse_i64(s@) {
                Some(v) => Some(v as i64),
                None => None,
            },
            None => None,
        },
{
    match unrealized_gains {
        Some(s) => parse_i64_exec(s.as_str()),
        None => None,
    }
}

/// A held token ranked by its gain. `fluctuation` is the gain and the
/// average purchase price it is measured against, where the token was
/// bought with `usei`.
#[derive(Debug)]
pub struct TopToken {
    pub name: String,
    pub demon: String,
    pub decimals: Option<u8>,
    pub logo_url: Option<String>,
    pub amount: String,
    pub worth_usei: Option<String>,
    pub unrealized_gains: Option<String>,
    pub fluctuation: Option<(usize, usize)>,
}

/// What a [`TopToken`] holds, as text.
pub struct TopView {
    pub name: Seq<char>,
    pub demon: Seq<char>,
    pub decimals: Option<u8>,
    pub logo_url: Option<Seq<char>>,
    pub amount: Seq<char>,
    pub worth_usei: Option<Seq<char>>,
    pub unrealized_gains: Option<Seq<char>>,
    pub fluctuation: Option<(usize, usize)>,
}

impl View for TopToken {
    type V = TopView;

    open spec fn view(&self) -> TopView {
        TopView {
            name: self.name@,
            demon: self.demon@,
            decimals: self.decimals,
            logo_url: opt_view(self.logo_url),
            amount: self.amount@,
            worth_usei: opt_view(self.worth_usei),
            unrealized_gains: opt_view(self.unrealized_gains),
            fluctuation: self.fluctuation,
        }
    }
}

/// The views of a sequence of ranked tokens.
pub open spec fn tops_view(v: Seq<TopToken>) -> Seq<TopView> {
    v.map_values(|t: TopToken| t@)
}

/// The wallet bought `denom` with `usei` in this swap.
pub open spec fn is_buy_of(t: TokenSwap, denom: Seq<char>) -> bool {
    t.target_token@ == denom && t.source_token@ == "usei"@
}

/// The `usei` paid (`paid`) or the tokens received (not `paid`) in the
/// wallet's purchases of `denom`.
pub open spec fn bought_total(swaps: Seq<TokenSwap>, denom: Seq<char>, paid: bool) -> int
    decreases swaps.len(),
{
    if swaps.len() == 0 {
        0
    } else {
        let t = swaps.last();
        bought_total(swaps.drop_last(), denom, paid) + if is_buy_of(t, denom) {
            if paid {
                parse_usize(t.source_amount@)->0 as int
            } else {
                parse_usize(t.target_amount@)->0 as int
            }
        } else {
            0int
        }
    }
}

/// The wallet bought `denom` with `usei` at least once.
pub open spec fn has_buys(swaps: Seq<TokenSwap>, denom: Seq<char>) -> bool {
    exists|i: int| 0 <= i < swaps.len() && #[trigger] is_buy_of(swaps[i], denom)
}

/// Every purchase's amounts read, and every partial total fits in a `usize`.
pub open spec fn buys_read(swaps: Seq<TokenSwap>, denom: Seq<char>) -> bool
    decreases swaps.len(),
{
    if swaps.len() == 0 {
        true
    } else {
        let t = swaps.last();
        &&& buys_read(swaps.drop_last(), denom)
        &&& is_buy_of(t, denom) ==> {
            &&& parse_usize(t.source_amount@) is Some
            &&& parse_usize(t.target_amount@) is Some
        }
        &&& bought_total(swaps, denom, true) <= usize::MAX
        &&& bought_total(swaps, denom, false) <= usize::MAX
    }
}

/// Where a holding goes: 0 among the gainers, 1 nowhere, 2 among the tokens
/// of unknown worth; with what is shown of it. `None` where the gain cannot
/// be worked out (an amount does not read, a total overflows, nothing was
/// received, or the worth is below the average price).
pub open spec fn top_entry(h: TokenHoldingView, swaps: Seq<TokenSwap>) -> Option<(int, TopView)> {
    let base = TopView {
        name: h.name,
        demon: h.demon,
        decimals: h.decimals,
        logo_url: h.logo_url,
        amount: h.amount,
        worth_usei: h.worth_usei,
        unrealized_gains: None,
        fluctuation: None,
    };
    if has_buys(swaps, h.demon) {
        if !buys_read(swaps, h.demon) || bought_total(swaps, h.demon, false) == 0 {
            None
        } else {
            let avg = bought_total(swaps, h.demon, true) / bought_total(swaps, h.demon, false);
            match h.worth_usei {
                None => Some((1, base)),
                Some(now) => match parse_usize(now) {
                    None => None,
                    Some(n) => if n < avg {
                        None
                    } else {
                        Some(
                            (
                                0,
                                TopView {
                                    unrealized_gains: Some(crate::text::decimal((n - avg) as nat)),
                                    fluctuation: Some(((n - avg) as usize, avg as usize)),
                                    ..base
                                },
                            ),
                        )
                    },
                },
            }
        }
    } else {
        match h.worth_usei {
            Some(now) => Some((0, TopView { unrealized_gains: Some(now), ..base })),
            None => Some((2, base)),
        }
    }
}

/// The gainers (`kind` 0) or the tokens of unknown worth (`kind` 2) among
/// the holdings, in order; `None` where some entry cannot be worked out.
pub open spec fn tops_of(hs: Seq<TokenHoldingView>, swaps: Seq<TokenSwap>, kind: int) -> Option<Seq<TopView>>
    decreases hs.len(),
{
    if hs.len() == 0 {
        Some(Seq::empty())
    } else {
        match (tops_of(hs.drop_last(), swaps, kind), top_entry(hs.last(), swaps)) {
            (Some(p), Some(e)) => if e.0 == kind {
                Some(p.push(e.1))
            } else {
                Some(p)
            },
            _ => None,
        }
    }
}

/// The key the gainers are ordered by: the gain read as an `i64`, 0 where
/// it is missing or does not read.
pub open spec fn gain_key(t: TopView) -> int {
    match t.unrealized_gains {
        Some(s) => match parse_i64(s) {
            Some(v) => v,
            None => 0,
        },
        None => 0,
    }
}

/// The keys never decrease along `s`.
pub open spec fn sorted_by_gain(s: Seq<TopView>) -> bool {
    forall|i: int, j: int| 0 <= i <= j < s.len() ==> gain_key(#[trigger] s[i]) <= gain_key(#[trigger] s[j])
}

/// The entries of `s` with key `k`, in order.
pub open spec fn with_key(s: Seq<TopView>, k: int) -> Seq<TopView> {
    s.filter(|t: TopView| gain_key(t) == k)
}

/// `r` is `s` ordered by key, entries with equal keys keeping their order.
pub open spec fn stably_sorted(r: Seq<TopView>, s: Seq<TopView>) -> bool {
    &&& sorted_by_gain(r)
    &&& forall|k: int| #[trigger] with_key(r, k) == with_key(s, k)
}

proof fn lemma_filter_none(s: Seq<TopView>, k: int)
    requires
        forall|i: int| 0 <= i < s.len() ==> gain_key(#[trigger] s[i]) != k,
    ensures
        with_key(s, k) == Seq::<TopView>::empty(),
    decreases s.len(),
{
    reveal(Seq::filter);
    if s.len() > 0 {
        lemma_filter_none(s.drop_last(), k);
    }
    assert(with_key(s, k) =~= Seq::<TopView>::empty());
}

/// Inserting `x` after every entry whose key is at most its own keeps the
/// order and the order of equal keys.
proof fn lemma_insert_sorted(out: Seq<TopView>, x: TopView, p: int, k: int)
    requires
        0 <= p <= out.len(),
        sorted_by_gain(out),
        forall|i: int| 0 <= i < p ==> gain_key(#[trigger] out[i]) <= gain_key(x),
        forall|i: int| p <= i < out.len() ==> gain_key(#[trigger] out[i]) > gain_key(x),
    ensures
        sorted_by_gain(out.insert(p, x)),
        with_key(out.insert(p, x), k) == if gain_key(x) == k {
            with_key(out, k).push(x)
        } else {
            with_key(out, k)
        },
{
    let a = out.subrange(0, p);
    let b = out.subrange(p, out.len() as int);
    assert(out.insert(p, x) =~= a + seq![x] + b);
    assert(out =~= a + b);
    let f = |t: TopView| gain_key(t) == k;
    Seq::filter_distributes_over_add(a + seq![x], b, f);
    Seq::filter_distributes_over_add(a, seq![x], f);
    Seq::filter_distributes_over_add(a, b, f);
    reveal(Seq::filter);
    assert(seq![x].drop_last() =~= Seq::<TopView>::empty());
    if gain_key(x) == k {
        assert forall|i: int| 0 <= i < b.len() implies gain_key(#[trigger] b[i]) != k by {
            assert(b[i] == out[p + i]);
        }
        lemma_filter_none(b, k);
        assert(with_key(b, k) =~= Seq::<TopView>::empty());
        assert(with_key(out.insert(p, x), k) =~= with_key(out, k).push(x));
    } else {
        assert(Seq::<TopView>::empty().filter(f) =~= Seq::<TopView>::empty());
        assert(seq![x].filter(f) =~= Seq::<TopView>::empty());
        assert(with_key(out.insert(p, x), k) =~= with_key(out, k));
    }
    assert forall|i: int, j: int| 0 <= i <= j < out.insert(p, x).len() implies gain_key(
        #[trigger] out.insert(p, x)[i],
    ) <= gain_key(#[trigger] out.insert(p, x)[j]) by {
        let s2 = out.insert(p, x);
        if i < p && j < p {
            assert(s2[i] == out[i] && s2[j] == out[j]);
        } else if i < p && j == p {
            assert(s2[i] == out[i]);
        } else if i < p && j > p {
            assert(s2[i] == out[i] && s2[j] == out[j - 1]);
        } else if i == p && j > p {
            assert(s2[j] == out[j - 1]);
        } else if i > p {
            assert(s2[i] == out[i - 1] && s2[j] == out[j - 1]);
        }
    }
}

fn gain_key_exec(t: &TopToken) -> (r: i64)
    ensures
        r as int == gain_key(t@),
{
    match parse_unrealized_gains(&t.unrealized_gains) {
        Some(v) => v,
        None => 0,
    }
}

/// The tokens ordered by their gain, tokens with equal gains keeping their
/// order.
pub fn sort_by_gain(tokens: Vec<TopToken>) -> (r: Vec<TopToken>)
    ensures
        stably_sorted(tops_view(r@), tops_view(tokens@)),
        r@.len() == tokens@.len(),
{
    let ghost tv = tops_view(tokens@);
    let mut out: Vec<TopToken> = Vec::new();
    let mut rest = tokens;
    let ghost n = tv.len();
    proof {
        reveal(Seq::filter);
        assert forall|k: int| #[trigger] with_key(tops_view(out@), k) == with_key(tv.take(0), k) by {
            assert(tops_view(out@) =~= Seq::<TopView>::empty());
            assert(tv.take(0) =~= Seq::<TopView>::empty());
        }
    }
    let mut i: usize = 0;
    let len0 = rest.len();
    while rest.len() > 0
        invariant
            i <= n,
            n == len0,
            n == tv.len(),
            rest@.len() == n - i,
            forall|j: int| 0 <= j < rest@.len() ==> (#[trigger] rest@[j])@ == tv[i + j],
            out@.len() == i,
            sorted_by_gain(tops_view(out@)),
            forall|k: int| #[trigger] with_key(tops_view(out@), k) == with_key(tv.take(i as int), k),
        decreases rest.len(),
    {
        let ghost r0 = rest@;
        let x = rest.remove(0);
        let ghost xv = x@;
        proof {
            assert(xv == r0[0]@);
            assert forall|j: int| 0 <= j < rest@.len() implies (#[trigger] rest@[j])@ == tv[i + 1 + j] by {
                assert(rest@[j] == r0[j + 1]);
            }
        }
        proof {
            assert(xv == tv[i as int]);
            assert(tv.take(i + 1) == tv.take(i as int).push(xv));
        }
        let kx = gain_key_exec(&x);
        let mut p: usize = 0;
        while p < out.len() && gain_key_exec(&out[p]) <= kx
            invariant
                p <= out@.len(),
                kx as int == gain_key(xv),
                sorted_by_gain(tops_view(out@)),
                forall|q: int| 0 <= q < p ==> gain_key(#[trigger] tops_view(out@)[q]) <= gain_key(xv),
            decreases out@.len() - p,
        {
            p = p + 1;
        }
        let ghost ov = tops_view(out@);
        proof {
            assert forall|q: int| p <= q < ov.len() implies gain_key(#[trigger] ov[q]) > gain_key(xv) by {
                assert(gain_key(ov[p as int]) > gain_key(xv));
                assert(gain_key(ov[p as int]) <= gain_key(ov[q]));
            }
            assert forall|k: int| #[trigger] with_key(ov.insert(p as int, xv), k) == with_key(
                tv.take(i + 1),
                k,
            ) by {
                lemma_insert_sorted(ov, xv, p as int, k);
                reveal(Seq::filter);
                assert(tv.take(i + 1).drop_last() =~= tv.take(i as int));
            }
            lemma_insert_sorted(ov, xv, p as int, 0);
        }
        out.insert(p, x);
        proof {
            assert(tops_view(out@) =~= ov.insert(p as int, xv));
        }
        i = i + 1;
    }
    proof {
        assert(tv.take(n as int) =~= tv);
    }
    out
}

proof fn lemma_buys_read_prefix(swaps: Seq<TokenSwap>, denom: Seq<char>, j: int)
    requires
        0 <= j <= swaps.len(),
        buys_read(swaps, denom),
    ensures
        buys_read(swaps.take(j), denom),
    decreases swaps.len(),
{
    if j == swaps.len() {
        assert(swaps.take(j) =~= swaps);
    } else {
        assert(swaps.drop_last().take(j) =~= swaps.take(j));
        lemma_buys_read_prefix(swaps.drop_last(), denom, j);
    }
}

/// The totals paid and received in the wallet's purchases of `denom`, and
/// whether there is any; `None` where they cannot be read.
#[verifier::spinoff_prover]
fn buy_totals(swaps: &Vec<TokenSwap>, denom: &String) -> (r: Option<(usize, usize, bool)>)
    ensures
        r is Some <==> buys_read(swaps@, denom@),
        r matches Some((p, q, any)) ==> p == bought_total(swaps@, denom@, true) && q == bought_total(
            swaps@,
            denom@,
            false,
        ) && any == has_buys(swaps@, denom@),
{
    let mut paid: usize = 0;
    let mut got: usize = 0;
    let mut any = false;
    let mut i: usize = 0;
    while i < swaps.len()
        invariant
            i <= swaps.len(),
            buys_read(swaps@.take(i as int), denom@),
            paid == bought_total(swaps@.take(i as int), denom@, true),
            got == bought_total(swaps@.take(i as int), denom@, false),
            any == exists|j: int| 0 <= j < i && #[trigger] is_buy_of(swaps@[j], denom@),
        decreases swaps.len() - i,
    {
        let t = &swaps[i];
        proof {
            assert(swaps@.take(i + 1).drop_last() =~= swaps@.take(i as int));
            assert(swaps@.take(i + 1).last() == *t);
        }
        if t.target_token == *denom && is_lit(&t.source_token, "usei") {
            let a = parse_usize_exec(t.source_amount.as_str());
            let b = parse_usize_exec(t.target_amount.as_str());
            match (a, b) {
                (Some(a), Some(b)) => {
                    match (paid.checked_add(a), got.checked_add(b)) {
                        (Some(p2), Some(q2)) => {
                            paid = p2;
                            got = q2;
                        },
                        _ => {
                            proof {
                                lemma_not_read(swaps@, denom@, i + 1);
                            }
                            return None;
                        },
                    }
                },
                _ => {
                    proof {
                        lemma_not_read(swaps@, denom@, i + 1);
                    }
                    return None;
                },
            }
            any = true;
        }
        i = i + 1;
    }
    proof {
        assert(swaps@.take(swaps.len() as int) =~= swaps@);
    }
    Some((paid, got, any))
}

proof fn lemma_not_read(swaps: Seq<TokenSwap>, denom: Seq<char>, j: int)
    requires
        0 <= j <= swaps.len(),
        !buys_read(swaps.take(j), denom),
    ensures
        !buys_read(swaps, denom),
{
    if buys_read(swaps, denom) {
        lemma_buys_read_prefix(swaps, denom, j);
    }
}

fn top_entry_exec(h: &UserTokenHolding, swaps: &Vec<TokenSwap>) -> (r: Option<(u8, TopToken)>)
    ensures
        match top_entry(h@, swaps@) {
            Some(e) => (r matches Some((k, t)) && k as int == e.0 && t@ == e.1),
            None => r is None,
        },
{
    let (paid, got, any) = match buy_totals(swaps, &h.demon) {
        Some(x) => x,
        None => {
            if !has_buys_exec(swaps, &h.demon) {
                proof {
                    assert(false) by {
                        lemma_no_buys_read(swaps@, h.demon@);
                    }
                }
            }
            return None;
        },
    };
    let base_worth = crate::holdings::copy_opt(&h.worth_usei);
    if any {
        if got == 0 {
            return None;
        }
        let avg = paid / got;
        match &h.worth_usei {
            None => Some((1, TopToken {
                name: h.name.clone(),
                demon: h.demon.clone(),
                decimals: h.decimals,
                logo_url: crate::holdings::copy_opt(&h.logo_url),
                amount: h.amount.clone(),
                worth_usei: base_worth,
                unrealized_gains: None,
                fluctuation: None,
            })),
            Some(now) => match parse_usize_exec(now.as_str()) {
                None => None,
                Some(n) => if n < avg {
                    None
                } else {
                    let g = n - avg;
                    Some((0, TopToken {
                        name: h.name.clone(),
                        demon: h.demon.clone(),
                        decimals: h.decimals,
                        logo_url: crate::holdings::copy_opt(&h.logo_url),
                        amount: h.amount.clone(),
                        worth_usei: base_worth,
                        unrealized_gains: Some(crate::text::u64_to_string(g as u64)),
                        fluctuation: Some((g, avg)),
                    }))
                },
            },
        }
    } else {
        match &h.worth_usei {
            Some(now) => Some((0, TopToken {
                name: h.name.clone(),
                demon: h.demon.clone(),
                decimals: h.decimals,
                logo_url: crate::holdings::copy_opt(&h.logo_url),
                amount: h.amount.clone(),
                worth_usei: base_worth,
                unrealized_gains: Some(now.clone()),
                fluctuation: None,
            })),
            None => Some((2, TopToken {
                name: h.name.clone(),
                demon: h.demon.clone(),
                decimals: h.decimals,
                logo_url: crate::holdings::copy_opt(&h.logo_url),
                amount: h.amount.clone(),
                worth_usei: base_worth,
                unrealized_gains: None,
                fluctuation: None,
            })),
        }
    }
}

/// With no purchase, the purchases read.
proof fn lemma_no_buys_read(swaps: Seq<TokenSwap>, denom: Seq<char>)
    requires
        !has_buys(swaps, denom),
    ensures
        buys_read(swaps, denom),
        bought_total(swaps, denom, true) == 0,
        bought_total(swaps, denom, false) == 0,
    decreases swaps.len(),
{
    if swaps.len() > 0 {
        assert(!is_buy_of(swaps[swaps.len() - 1], denom));
        assert forall|i: int| 0 <= i < swaps.drop_last().len() implies !is_buy_of(
            #[trigger] swaps.drop_last()[i],
            denom,
        ) by {
            assert(swaps.drop_last()[i] == swaps[i]);
        }
        lemma_no_buys_read(swaps.drop_last(), denom);
    }
}

fn has_buys_exec(swaps: &Vec<TokenSwap>, denom: &String) -> (r: bool)
    ensures
        r == has_buys(swaps@, denom@),
{
    let mut i: usize = 0;
    while i < swaps.len()
        invariant
            i <= swaps.len(),
            forall|j: int| 0 <= j < i ==> !is_buy_of(#[trigger] swaps@[j], denom@),
        decreases swaps.len() - i,
    {
        if swaps[i].target_token == *denom && is_lit(&swaps[i].source_token, "usei") {
            proof {
                assert(is_buy_of(swaps@[i as int], denom@));
            }
            return true;
        }
        i = i + 1;
    }
    false
}

/// The views of a sequence of holdings.
pub open spec fn token_holdings_view(v: Seq<UserTokenHolding>) -> Seq<TokenHoldingView> {
    v.map_values(|h: UserTokenHolding| h@)
}

/// The wallet's holdings ranked by gain, given its stored swaps: the
/// gainers ordered by gain (equal gains keeping their order), the losers,
/// and the tokens of unknown worth. A gain is the worth less the average
/// price paid in `usei`, or the worth itself for a token never bought with
/// `usei`; a token bought with `usei` whose worth is unknown is left out.
/// Gains are unsigned, so there are never any losers. `None` where a gain
/// cannot be worked out (see [`top_entry`]).
pub fn top_tokens(holdings: &Vec<UserTokenHolding>, swaps: &Vec<TokenSwap>) -> (r: Option<(Vec<TopToken>, Vec<TopToken>, Vec<TopToken>)>)
    ensures
        r is Some <==> tops_of(token_holdings_view(holdings@), swaps@, 0) is Some,
        r matches Some((g, l, u)) ==> {
            &&& stably_sorted(tops_view(g@), tops_of(token_holdings_view(holdings@), swaps@, 0)->0)
            &&& l@.len() == 0
            &&& tops_view(u@) == tops_of(token_holdings_view(holdings@), swaps@, 2)->0
        },
{
    let ghost hv = token_holdings_view(holdings@);
    let mut gainers: Vec<TopToken> = Vec::new();
    let mut unknown: Vec<TopToken> = Vec::new();
    let mut i: usize = 0;
    while i < holdings.len()
        invariant
            i <= holdings.len(),
            hv == token_holdings_view(holdings@),
            tops_of(hv.take(i as int), swaps@, 0) == Some(tops_view(gainers@)),
            tops_of(hv.take(i as int), swaps@, 2) == Some(tops_view(unknown@)),
        decreases holdings.len() - i,
    {
        proof {
            assert(hv.take(i + 1).drop_last() =~= hv.take(i as int));
            assert(hv.take(i + 1).last() == holdings@[i as int]@);
        }
        match top_entry_exec(&holdings[i], swaps) {
            None => {
                proof {
                    lemma_tops_prefix_none(hv, swaps@, i + 1);
                }
                return None;
            },
            Some((k, t)) => {
                let ghost tv = t@;
                let ghost (g0, u0) = (gainers@, unknown@);
                if k == 0 {
                    gainers.push(t);
                    proof {
                        assert(tops_view(gainers@) =~= tops_view(g0).push(tv));
                    }
                } else if k == 2 {
                    unknown.push(t);
                    proof {
                        assert(tops_view(unknown@) =~= tops_view(u0).push(tv));
                    }
                }
            },
        }
        i = i + 1;
    }
    proof {
        assert(hv.take(holdings.len() as int) =~= hv);
    }
    let sorted = sort_by_gain(gainers);
    Some((sorted, Vec::new(), unknown))
}

proof fn lemma_tops_prefix_none(hv: Seq<TokenHoldingView>, swaps: Seq<TokenSwap>, j: int)
    requires
        0 <= j <= hv.len(),
        tops_of(hv.take(j), swaps, 0) is None,
    ensures
        tops_of(hv, swaps, 0) is None,
    decreases hv.len(),
{
    if j < hv.len() {
        assert(hv.drop_last().take(j) =~= hv.take(j));
        lemma_tops_prefix_none(hv.drop_last(), swaps, j);
    } else {
        assert(hv.take(j) =~= hv);
    }
}


/// The totals of a denomination's purchases add up over the swaps: no swaps
/// give 0, two runs of swaps together give the sums of their totals, and one
/// more swap adds its `usei` paid and its tokens received where it buys the
/// denomination with `usei`, nothing otherwise.
pub proof fn law_bought_totals_add_up(s1: Seq<TokenSwap>, s2: Seq<TokenSwap>, t: TokenSwap, denom: Seq<char>)
    ensures
        bought_total(Seq::empty(), denom, true) == 0,
        bought_total(Seq::empty(), denom, false) == 0,
        bought_total(s1 + s2, denom, true) == bought_total(s1, denom, true) + bought_total(s2, denom, true),
        bought_total(s1 + s2, denom, false) == bought_total(s1, denom, false) + bought_total(s2, denom, false),
        bought_total(s1.push(t), denom, true) == bought_total(s1, denom, true) + if t.target_token@ == denom
            && t.source_token@ == "usei"@ {
            parse_usize(t.source_amount@)->0 as int
        } else {
            0int
        },
        bought_total(s1.push(t), denom, false) == bought_total(s1, denom, false) + if t.target_token@ == denom
            && t.source_token@ == "usei"@ {
            parse_usize(t.target_amount@)->0 as int
        } else {
            0int
        },
    decreases s2.len(),
{
    assert(s1.push(t).drop_last() =~= s1);
    if s2.len() > 0 {
        law_bought_totals_add_up(s1, s2.drop_last(), t, denom);
        assert((s1 + s2).drop_last() =~= s1 + s2.drop_last());
        assert((s1 + s2).last() == s2.last());
    } else {
        assert(s1 + s2 =~= s1);
    }
}

/// The swaps shown for a denomination are exactly the stored swaps that have
/// it on either side, in their order: none for no swaps, and a swap added to
/// the store is shown exactly when its source or its target token is the
/// denomination.
pub proof fn law_denom_swaps_either_side(s: Seq<TokenSwap>, t: TokenSwap, denom: Seq<char>)
    ensures
        denom_swaps(Seq::empty(), denom) == Seq::<TokenSwap>::empty(),
        denom_swaps(s.push(t), denom) == if t.source_token@ == denom || t.target_token@ == denom {
            denom_swaps(s, denom).push(t)
        } else {
            denom_swaps(s, denom)
        },
        forall|i: int|
            0 <= i < s.len() && (s[i].source_token@ == denom || s[i].target_token@ == denom) ==> denom_swaps(
                s,
                denom,
            ).contains(#[trigger] s[i]),
        forall|x: TokenSwap|
            #[trigger] denom_swaps(s, denom).contains(x) ==> s.contains(x) && (x.source_token@ == denom
                || x.target_token@ == denom),
{
    lemma_denom_swaps_step(s, t, denom);
    lemma_denom_swaps_members(s, denom);
}

proof fn lemma_denom_swaps_step(s: Seq<TokenSwap>, t: TokenSwap, denom: Seq<char>)
    ensures
        denom_swaps(Seq::empty(), denom) == Seq::<TokenSwap>::empty(),
        denom_swaps(s.push(t), denom) == if t.source_token@ == denom || t.target_token@ == denom {
            denom_swaps(s, denom).push(t)
        } else {
            denom_swaps(s, denom)
        },
{
    reveal(Seq::filter);
    assert(s.push(t).drop_last() =~= s);
    assert(denom_swaps(Seq::empty(), denom) =~= Seq::<TokenSwap>::empty());
}

proof fn lemma_denom_swaps_members(s: Seq<TokenSwap>, denom: Seq<char>)
    ensures
        forall|i: int|
            0 <= i < s.len() && (s[i].source_token@ == denom || s[i].target_token@ == denom) ==> denom_swaps(
                s,
                denom,
            ).contains(#[trigger] s[i]),
        forall|x: TokenSwap|
            #[trigger] denom_swaps(s, denom).contains(x) ==> s.contains(x) && (x.source_token@ == denom
                || x.target_token@ == denom),
    decreases s.len(),
{
    if s.len() == 0 {
        reveal(Seq::filter);
        assert(denom_swaps(s, denom) =~= Seq::<TokenSwap>::empty());
    } else {
        let p = s.drop_last();
        let t = s.last();
        lemma_denom_swaps_members(p, denom);
        lemma_denom_swaps_step(p, t, denom);
        assert(p.push(t) =~= s);
        let d = denom_swaps(p, denom);
        assert forall|i: int|
            0 <= i < s.len() && (s[i].source_token@ == denom || s[i].target_token@ == denom) implies denom_swaps(
            s,
            denom,
        ).contains(#[trigger] s[i]) by {
            if i < s.len() - 1 {
                assert(p[i] == s[i]);
                assert(d.contains(p[i]));
                let k = choose|k: int| 0 <= k < d.len() && d[k] == p[i];
                assert(denom_swaps(s, denom)[k] == d[k]);
            } else {
                assert(denom_swaps(s, denom)[d.len() as int] == t);
            }
        }
        assert forall|x: TokenSwap| #[trigger] denom_swaps(s, denom).contains(x) implies s.contains(x) && (
        x.source_token@ == denom || x.target_token@ == denom) by {
            let k = choose|k: int| 0 <= k < denom_swaps(s, denom).len() && denom_swaps(s, denom)[k] == x;
            if k < d.len() {
                assert(denom_swaps(s, denom)[k] == d[k]);
                assert(d.contains(x));
                let j = choose|j: int| 0 <= j < p.len() && p[j] == x;
                assert(s[j] == x);
            } else {
                assert(x == t);
                assert(s[s.len() - 1] == x);
            }
        }
    }
}

} // verus!
