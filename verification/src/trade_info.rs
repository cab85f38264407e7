//! What a wallet's NFT activity adds up to: how long its NFTs have been
//! held, which of them gained and which lost, and the statistics of its
//! trades, purchases and sales.
use vstd::prelude::*;
use crate::holdings::{UserNft, UserNftHolding, UserNftView, copy_user_nft, holds_view, user_nfts_view};
use crate::holdings::UserCollectionHoldView;
use crate::model::{NFTtransaction, _NftTransaction, moved_by, party_of};
use crate::stats::{
    StatView, TradeView, Transactions, _trade, absorb, entries_map, trade_views, view_groups, views_addable,
};
use crate::text::{concat, owned, unit_i64, unit_i64_exec};
use crate::time::{UtcStamp, parse_rfc3339, rfc3339_utc};

verus! {

/// The NFTs of all held collections, collection by collection.
pub open spec fn held_nfts(h: Seq<UserCollectionHoldView>) -> Seq<UserNftView>
    decreases h.len(),
{
    if h.len() == 0 {
        Seq::empty()
    } else {
        held_nfts(h.drop_last()) + h.last().nfts_holding
    }
}

/// Every held NFT, collection by collection.
pub fn flatten_holding(holding: &UserNftHolding) -> (r: Vec<UserNft>)
    ensures
        user_nfts_view(r@) == held_nfts(holds_view(holding.collections@)),
{
    let ghost hv = holds_view(holding.collections@);
    let mut out: Vec<UserNft> = Vec::new();
    let mut i: usize = 0;
    while i < holding.collections.len()
        invariant
            i <= holding.collections.len(),
            hv == holds_view(holding.collections@),
            user_nfts_view(out@) == held_nfts(hv.take(i as int)),
        decreases holding.collections.len() - i,
    {
        let col = &holding.collections[i];
        let ghost base = user_nfts_view(out@);
        proof {
            assert(hv.take(i + 1).drop_last() =~= hv.take(i as int));
            assert(hv.take(i + 1).last() == col@);
        }
        let mut j: usize = 0;
        while j < col.nfts_holding.len()
            invariant
                j <= col.nfts_holding.len(),
                user_nfts_view(out@) == base + user_nfts_view(col.nfts_holding@).take(j as int),
            decreases col.nfts_holding.len() - j,
        {
            let ghost before = out@;
            out.push(copy_user_nft(&col.nfts_holding[j]));
            proof {
                assert(out@ == before.push(out@.last()));
                assert(user_nfts_view(out@) =~= user_nfts_view(before).push(col.nfts_holding@[j as int]@));
                assert(user_nfts_view(col.nfts_holding@).take(j + 1) =~= user_nfts_view(
                    col.nfts_holding@,
                ).take(j as int).push(col.nfts_holding@[j as int]@));
                assert(user_nfts_view(out@) =~= base + user_nfts_view(col.nfts_holding@).take(j + 1));
            }
            j = j + 1;
        }
        proof {
            assert(user_nfts_view(col.nfts_holding@).take(col.nfts_holding.len() as int)
                =~= col@.nfts_holding);
        }
        i = i + 1;
    }
    proof {
        assert(hv.take(holding.collections.len() as int) =~= hv);
    }
    out
}

// ---------------------------------------------------------------------------
// How long NFTs have been held
// ---------------------------------------------------------------------------

/// Held NFTs by how long they have been held: up to a week, up to four
/// weeks, up to three months, up to six months, up to a year, longer.
#[derive(Debug)]
pub struct AgeOfNftAssets {
    pub level1: Vec<UserNft>,
    pub level2: Vec<UserNft>,
    pub level3: Vec<UserNft>,
    pub level4: Vec<UserNft>,
    pub level5: Vec<UserNft>,
    pub level6: Vec<UserNft>,
}

/// The days from the UTC day of the NFT's last acquisition to `today`.
pub open spec fn held_days(n: UserNftView, today: UtcStamp) -> int {
    today.days_from_ce - rfc3339_utc(n.ts)->0.days_from_ce
}

/// The level of a holding time in days: over 360 days is 6, over 189 days 5,
/// over 90 days 4, over 28 days 3, over 7 days 2, otherwise (up to a week) 1.
pub open spec fn age_level(days: int) -> int {
    if days > 360 {
        6
    } else if days > 189 {
        5
    } else if days > 90 {
        4
    } else if days > 28 {
        3
    } else if days > 7 {
        2
    } else {
        1
    }
}

/// The NFTs held for a time of the level `level`, in order.
pub open spec fn at_level(nfts: Seq<UserNftView>, today: UtcStamp, level: int) -> Seq<UserNftView> {
    nfts.filter(|n: UserNftView| age_level(held_days(n, today)) == level)
}

/// Every NFT's acquisition time parses.
pub open spec fn times_known(nfts: Seq<UserNftView>) -> bool {
    forall|i: int| 0 <= i < nfts.len() ==> (#[trigger] rfc3339_utc(nfts[i].ts)) is Some
}

fn level_of(days: i64) -> (r: u8)
    ensures
        r as int == age_level(days as int),
{
    if days > 360 {
        6
    } else if days > 189 {
        5
    } else if days > 90 {
        4
    } else if days > 28 {
        3
    } else if days > 7 {
        2
    } else {
        1
    }
}

/// The wallet's held NFTs by how long they have been held, on the UTC day of
/// `today`.
pub fn age_of_nft_assets(holding: &UserNftHolding, today: &UtcStamp) -> (r: AgeOfNftAssets)
    requires
        times_known(held_nfts(holds_view(holding.collections@))),
    ensures
        user_nfts_view(r.level1@) == at_level(held_nfts(holds_view(holding.collections@)), *today, 1),
        user_nfts_view(r.level2@) == at_level(held_nfts(holds_view(holding.collections@)), *today, 2),
        user_nfts_view(r.level3@) == at_level(held_nfts(holds_view(holding.collections@)), *today, 3),
        user_nfts_view(r.level4@) == at_level(held_nfts(holds_view(holding.collections@)), *today, 4),
        user_nfts_view(r.level5@) == at_level(held_nfts(holds_view(holding.collections@)), *today, 5),
        user_nfts_view(r.level6@) == at_level(held_nfts(holds_view(holding.collections@)), *today, 6),
{
    let all = flatten_holding(holding);
    let ghost v = user_nfts_view(all@);
    let mut l1: Vec<UserNft> = Vec::new();
    let mut l2: Vec<UserNft> = Vec::new();
    let mut l3: Vec<UserNft> = Vec::new();
    let mut l4: Vec<UserNft> = Vec::new();
    let mut l5: Vec<UserNft> = Vec::new();
    let mut l6: Vec<UserNft> = Vec::new();
    proof {
        reveal(Seq::filter);
        assert(user_nfts_view(l1@) =~= at_level(v.take(0), *today, 1));
        assert(user_nfts_view(l2@) =~= at_level(v.take(0), *today, 2));
        assert(user_nfts_view(l3@) =~= at_level(v.take(0), *today, 3));
        assert(user_nfts_view(l4@) =~= at_level(v.take(0), *today, 4));
        assert(user_nfts_view(l5@) =~= at_level(v.take(0), *today, 5));
        assert(user_nfts_view(l6@) =~= at_level(v.take(0), *today, 6));
    }
    let mut i: usize = 0;
    while i < all.len()
        invariant
            i <= all.len(),
            v == user_nfts_view(all@),
            times_known(v),
            user_nfts_view(l1@) == at_level(v.take(i as int), *today, 1),
            user_nfts_view(l2@) == at_level(v.take(i as int), *today, 2),
            user_nfts_view(l3@) == at_level(v.take(i as int), *today, 3),
            user_nfts_view(l4@) == at_level(v.take(i as int), *today, 4),
            user_nfts_view(l5@) == at_level(v.take(i as int), *today, 5),
            user_nfts_view(l6@) == at_level(v.take(i as int), *today, 6),
        decreases all.len() - i,
    {
        let n = &all[i];
        proof {
            assert(v[i as int] == n@);
            assert(rfc3339_utc(v[i as int].ts) is Some);
        }
        let t = match parse_rfc3339(n.ts.as_str()) {
            Some(t) => t,
            None => {
                return AgeOfNftAssets {
                    level1: l1,
                    level2: l2,
                    level3: l3,
                    level4: l4,
                    level5: l5,
                    level6: l6,
                };
            },
        };
        let days: i64 = (today.days_from_ce as i64) - (t.days_from_ce as i64);
        let lv = level_of(days);
        let ghost (v1, v2, v3, v4, v5, v6) = (
            user_nfts_view(l1@),
            user_nfts_view(l2@),
            user_nfts_view(l3@),
            user_nfts_view(l4@),
            user_nfts_view(l5@),
            user_nfts_view(l6@),
        );
        let c = copy_user_nft(n);
        if lv == 1 {
            l1.push(c);
        } else if lv == 2 {
            l2.push(c);
        } else if lv == 3 {
            l3.push(c);
        } else if lv == 4 {
            l4.push(c);
        } else if lv == 5 {
            l5.push(c);
        } else {
            l6.push(c);
        }
        proof {
            reveal(Seq::filter);
            assert(v.take(i + 1).drop_last() =~= v.take(i as int));
            assert(v.take(i + 1).last() == n@);
            assert(held_days(n@, *today) == days as int);
            assert(user_nfts_view(l1@) =~= if lv == 1 { v1.push(n@) } else { v1 });
            assert(user_nfts_view(l2@) =~= if lv == 2 { v2.push(n@) } else { v2 });
            assert(user_nfts_view(l3@) =~= if lv == 3 { v3.push(n@) } else { v3 });
            assert(user_nfts_view(l4@) =~= if lv == 4 { v4.push(n@) } else { v4 });
            assert(user_nfts_view(l5@) =~= if lv == 5 { v5.push(n@) } else { v5 });
            assert(user_nfts_view(l6@) =~= if lv == 6 { v6.push(n@) } else { v6 });
        }
        i = i + 1;
    }
    proof {
        assert(v.take(all.len() as int) =~= v);
    }
    AgeOfNftAssets { level1: l1, level2: l2, level3: l3, level4: l4, level5: l5, level6: l6 }
}

/// [`age_of_nft_assets`] where every acquisition time parses, `None`
/// otherwise.
pub fn try_age_of_nft_assets(holding: &UserNftHolding, today: &UtcStamp) -> (r: Option<AgeOfNftAssets>)
    ensures
        r is Some <==> times_known(held_nfts(holds_view(holding.collections@))),
        r matches Some(a) ==> {
            &&& user_nfts_view(a.level1@) == at_level(held_nfts(holds_view(holding.collections@)), *today, 1)
            &&& user_nfts_view(a.level2@) == at_level(held_nfts(holds_view(holding.collections@)), *today, 2)
            &&& user_nfts_view(a.level3@) == at_level(held_nfts(holds_view(holding.collections@)), *today, 3)
            &&& user_nfts_view(a.level4@) == at_level(held_nfts(holds_view(holding.collections@)), *today, 4)
            &&& user_nfts_view(a.level5@) == at_level(held_nfts(holds_view(holding.collections@)), *today, 5)
            &&& user_nfts_view(a.level6@) == at_level(held_nfts(holds_view(holding.collections@)), *today, 6)
        },
{
    let all = flatten_holding(holding);
    let ghost v = user_nfts_view(all@);
    let mut i: usize = 0;
    while i < all.len()
        invariant
            i <= all.len(),
            v == user_nfts_view(all@),
            v == held_nfts(holds_view(holding.collections@)),
            forall|j: int| 0 <= j < i ==> (#[trigger] rfc3339_utc(v[j].ts)) is Some,
        decreases all.len() - i,
    {
        proof {
            assert(v[i as int] == all@[i as int]@);
        }
        if parse_rfc3339(all[i].ts.as_str()).is_none() {
            proof {
                assert(rfc3339_utc(v[i as int].ts) is None);
            }
            return None;
        }
        i = i + 1;
    }
    Some(age_of_nft_assets(holding, today))
}

// ---------------------------------------------------------------------------
// Gainers and losers
// ---------------------------------------------------------------------------

/// The NFTs whose sign is positive (`gain`) or negative (not `gain`), in
/// order.
pub open spec fn pick(nfts: Seq<UserNftView>, signs: Seq<i8>, gain: bool) -> Seq<UserNftView>
    decreases nfts.len(),
{
    if nfts.len() == 0 {
        Seq::empty()
    } else {
        let prev = pick(nfts.drop_last(), signs, gain);
        let s = signs[nfts.len() - 1];
        if (gain && s > 0) || (!gain && s < 0) {
            prev.push(nfts.last())
        } else {
            prev
        }
    }
}

/// The unrealised gain of an NFT in `usei`: its gain text read as an `i64`
/// amount, 0 where it has none or the text does not read.
pub open spec fn nft_gain(n: UserNftView) -> int {
    match n.unrealized_gains {
        Some(g) => match unit_i64(g) {
            Some(v) => v,
            None => 0,
        },
        None => 0,
    }
}

/// The key NFTs are put in order by, smallest first: the gain, or where the
/// largest gain comes first (`desc`), the gain negated.
pub open spec fn order_key(n: UserNftView, desc: bool) -> int {
    if desc {
        -nft_gain(n)
    } else {
        nft_gain(n)
    }
}

/// The keys never decrease along `s`.
pub open spec fn in_gain_order(s: Seq<UserNftView>, desc: bool) -> bool {
    forall|i: int, j: int| 0 <= i <= j < s.len() ==> order_key(#[trigger] s[i], desc) <= order_key(#[trigger] s[j], desc)
}

/// The NFTs of `s` whose key is `k`, in order.
pub open spec fn with_order_key(s: Seq<UserNftView>, desc: bool, k: int) -> Seq<UserNftView> {
    s.filter(|n: UserNftView| order_key(n, desc) == k)
}

/// `r` is `s` put in gain order (largest first where `desc`, smallest first
/// otherwise), NFTs with equal gains keeping their order: a permutation of
/// `s`, and the only one that is both ordered and stable.
pub open spec fn sorted_by_gain_from(r: Seq<UserNftView>, s: Seq<UserNftView>, desc: bool) -> bool {
    &&& in_gain_order(r, desc)
    &&& forall|k: int| #[trigger] with_order_key(r, desc, k) == with_order_key(s, desc, k)
}

proof fn lemma_no_order_key(s: Seq<UserNftView>, desc: bool, k: int)
    requires
        forall|i: int| 0 <= i < s.len() ==> order_key(#[trigger] s[i], desc) != k,
    ensures
        with_order_key(s, desc, k) == Seq::<UserNftView>::empty(),
    decreases s.len(),
{
    reveal(Seq::filter);
    if s.len() > 0 {
        lemma_no_order_key(s.drop_last(), desc, k);
    }
    assert(with_order_key(s, desc, k) =~= Seq::<UserNftView>::empty());
}

/// Inserting `x` after every NFT whose key is at most its own keeps the
/// order, and the order of equal keys.
proof fn lemma_insert_in_order(out: Seq<UserNftView>, x: UserNftView, p: int, desc: bool, k: int)
    requires
        0 <= p <= out.len(),
        in_gain_order(out, desc),
        forall|i: int| 0 <= i < p ==> order_key(#[trigger] out[i], desc) <= order_key(x, desc),
        forall|i: int| p <= i < out.len() ==> order_key(#[trigger] out[i], desc) > order_key(x, desc),
    ensures
        in_gain_order(out.insert(p, x), desc),
        with_order_key(out.insert(p, x), desc, k) == if order_key(x, desc) == k {
            with_order_key(out, desc, k).push(x)
        } else {
            with_order_key(out, desc, k)
        },
{
    let a = out.subrange(0, p);
    let b = out.subrange(p, out.len() as int);
    assert(out.insert(p, x) =~= a + seq![x] + b);
    assert(out =~= a + b);
    let f = |n: UserNftView| order_key(n, desc) == k;
    Seq::filter_distributes_over_add(a + seq![x], b, f);
    Seq::filter_distributes_over_add(a, seq![x], f);
    Seq::filter_distributes_over_add(a, b, f);
    reveal(Seq::filter);
    assert(seq![x].drop_last() =~= Seq::<UserNftView>::empty());
    if order_key(x, desc) == k {
        assert forall|i: int| 0 <= i < b.len() implies order_key(#[trigger] b[i], desc) != k by {
            assert(b[i] == out[p + i]);
        }
        lemma_no_order_key(b, desc, k);
        assert(with_order_key(out.insert(p, x), desc, k) =~= with_order_key(out, desc, k).push(x));
    } else {
        assert(Seq::<UserNftView>::empty().filter(f) =~= Seq::<UserNftView>::empty());
        assert(seq![x].filter(f) =~= Seq::<UserNftView>::empty());
        assert(with_order_key(out.insert(p, x), desc, k) =~= with_order_key(out, desc, k));
    }
    assert forall|i: int, j: int| 0 <= i <= j < out.insert(p, x).len() implies order_key(
        #[trigger] out.insert(p, x)[i],
        desc,
    ) <= order_key(#[trigger] out.insert(p, x)[j], desc) by {
        let s2 = out.insert(p, x);
        if i < p && j < p {
            assert(s2[i] == out[i] && s2[j] == out[j]);
        } else if i < p && j == p {
            assert(s2[i] == out[i]);
        } else if i < p && j > p {
            assert(s2[i] == out[i] && s2[j] == out[j - 1]);
        } else if i == p && j > p {
            assert(s2[j] == out[j - 1]);
        } else if i > p {
            assert(s2[i] == out[i - 1] && s2[j] == out[j - 1]);
        }
    }
}

fn order_key_exec(n: &UserNft, desc: bool) -> (r: i128)
    ensures
        r as int == order_key(n@, desc),
{
    let g: i64 = match &n.unrealized_gains {
        Some(t) => match unit_i64_exec(t) {
            Some(v) => v,
            None => 0,
        },
        None => 0,
    };
    if desc {
        -(g as i128)
    } else {
        g as i128
    }
}

/// The NFTs in gain order: largest gain first where `desc`, smallest first
/// otherwise; NFTs with equal gains keep their order.
pub fn sort_nfts_by_gain(nfts: Vec<UserNft>, desc: bool) -> (r: Vec<UserNft>)
    ensures
        sorted_by_gain_from(user_nfts_view(r@), user_nfts_view(nfts@), desc),
        r@.len() == nfts@.len(),
{
    let ghost tv = user_nfts_view(nfts@);
    let mut out: Vec<UserNft> = Vec::new();
    let mut rest = nfts;
    let ghost n = tv.len();
    proof {
        reveal(Seq::filter);
        assert forall|k: int| #[trigger] with_order_key(user_nfts_view(out@), desc, k) == with_order_key(
            tv.take(0),
            desc,
            k,
        ) by {
            assert(user_nfts_view(out@) =~= Seq::<UserNftView>::empty());
            assert(tv.take(0) =~= Seq::<UserNftView>::empty());
        }
    }
    let mut i: usize = 0;
    let len0 = rest.len();
    while rest.len() > 0
        invariant
            i <= n,
            n == len0,
            n == tv.len(),
            rest@.len() == n - i,
            forall|j: int| 0 <= j < rest@.len() ==> (#[trigger] rest@[j])@ == tv[i + j],
            out@.len() == i,
            in_gain_order(user_nfts_view(out@), desc),
            forall|k: int| #[trigger] with_order_key(user_nfts_view(out@), desc, k) == with_order_key(
                tv.take(i as int),
                desc,
                k,
            ),
        decreases rest.len(),
    {
        let ghost r0 = rest@;
        let x = rest.remove(0);
        let ghost xv = x@;
        proof {
            assert(xv == r0[0]@);
            assert forall|j: int| 0 <= j < rest@.len() implies (#[trigger] rest@[j])@ == tv[i + 1 + j] by {
                assert(rest@[j] == r0[j + 1]);
            }
            assert(xv == tv[i as int]);
            assert(tv.take(i + 1) == tv.take(i as int).push(xv));
        }
        let kx = order_key_exec(&x, desc);
        let mut p: usize = 0;
        while p < out.len() && order_key_exec(&out[p], desc) <= kx
            invariant
                p <= out@.len(),
                kx as int == order_key(xv, desc),
                in_gain_order(user_nfts_view(out@), desc),
                forall|q: int| 0 <= q < p ==> order_key(#[trigger] user_nfts_view(out@)[q], desc) <= order_key(xv, desc),
            decreases out@.len() - p,
        {
            p = p + 1;
        }
        let ghost ov = user_nfts_view(out@);
        proof {
            assert forall|q: int| p <= q < ov.len() implies order_key(#[trigger] ov[q], desc) > order_key(xv, desc) by {
                assert(order_key(ov[p as int], desc) > order_key(xv, desc));
                assert(order_key(ov[p as int], desc) <= order_key(ov[q], desc));
            }
            assert forall|k: int| #[trigger] with_order_key(ov.insert(p as int, xv), desc, k) == with_order_key(
                tv.take(i + 1),
                desc,
                k,
            ) by {
                lemma_insert_in_order(ov, xv, p as int, desc, k);
                reveal(Seq::filter);
                assert(tv.take(i + 1).drop_last() =~= tv.take(i as int));
            }
            lemma_insert_in_order(ov, xv, p as int, desc, 0);
        }
        out.insert(p, x);
        proof {
            assert(user_nfts_view(out@) =~= ov.insert(p as int, xv));
        }
        i = i + 1;
    }
    proof {
        assert(tv.take(n as int) =~= tv);
    }
    out
}

/// The held NFTs that gained and those that lost, given the sign of each
/// one's unrealised gain (0 where it has none). The gainers come largest
/// gain first, equal gains in holding order; the losers come smallest gain
/// (largest loss) first, equal gains in reverse holding order.
pub fn top_nfts(holding: &UserNftHolding, signs: &Vec<i8>) -> (r: (Vec<UserNft>, Vec<UserNft>))
    requires
        signs@.len() == held_nfts(holds_view(holding.collections@)).len(),
    ensures
        sorted_by_gain_from(user_nfts_view(r.0@), pick(held_nfts(holds_view(holding.collections@)), signs@, true), true),
        sorted_by_gain_from(
            user_nfts_view(r.1@),
            pick(held_nfts(holds_view(holding.collections@)), signs@, false).reverse(),
            false,
        ),
{
    let all = flatten_holding(holding);
    let ghost v = user_nfts_view(all@);
    let mut gainers: Vec<UserNft> = Vec::new();
    let mut losers: Vec<UserNft> = Vec::new();
    let mut i: usize = 0;
    while i < all.len()
        invariant
            i <= all.len(),
            v == user_nfts_view(all@),
            signs@.len() == v.len(),
            user_nfts_view(gainers@) == pick(v.take(i as int), signs@, true),
            user_nfts_view(losers@) == pick(v.take(i as int), signs@, false),
        decreases all.len() - i,
    {
        proof {
            assert(v.take(i + 1).drop_last() =~= v.take(i as int));
            assert(v.take(i + 1).last() == all@[i as int]@);
        }
        let ghost (g0, l0) = (gainers@, losers@);
        if signs[i] > 0 {
            gainers.push(copy_user_nft(&all[i]));
            proof {
                assert(gainers@ == g0.push(gainers@.last()));
                assert(user_nfts_view(gainers@) =~= user_nfts_view(g0).push(all@[i as int]@));
            }
        } else if signs[i] < 0 {
            losers.push(copy_user_nft(&all[i]));
            proof {
                assert(losers@ == l0.push(losers@.last()));
                assert(user_nfts_view(losers@) =~= user_nfts_view(l0).push(all@[i as int]@));
            }
        }
        i = i + 1;
    }
    proof {
        assert(v.take(all.len() as int) =~= v);
    }
    let ghost lv = user_nfts_view(losers@);
    let mut reversed: Vec<UserNft> = Vec::new();
    let mut j: usize = losers.len();
    while j > 0
        invariant
            j <= losers.len(),
            lv == user_nfts_view(losers@),
            user_nfts_view(reversed@) == lv.subrange(j as int, lv.len() as int).reverse(),
        decreases j,
    {
        let ghost r0 = reversed@;
        reversed.push(copy_user_nft(&losers[j - 1]));
        proof {
            assert(reversed@ == r0.push(reversed@.last()));
            assert(user_nfts_view(reversed@) =~= user_nfts_view(r0).push(lv[j - 1]));
            assert(user_nfts_view(reversed@) =~= lv.subrange(j - 1, lv.len() as int).reverse());
        }
        j = j - 1;
    }
    proof {
        assert(lv.subrange(0, lv.len() as int) =~= lv);
    }
    (sort_nfts_by_gain(gainers, true), sort_nfts_by_gain(reversed, false))
}

// ---------------------------------------------------------------------------
// NFT trade statistics
// ---------------------------------------------------------------------------

/// The trade that an NFT transaction counts as: its price and its time.
pub open spec fn trade_of(t: _NftTransaction) -> Option<TradeView> {
    match t {
        _NftTransaction::AcceptBid(d) => Some((d.sale_price@, d.transfer.ts@)),
        _NftTransaction::BatchBids(d) => Some((d.sale_price@, d.transfer.ts@)),
        _NftTransaction::CancelAuction(d) => Some((d.auction_price@, d.transfer.ts@)),
        _NftTransaction::CretaeAuction(d) => Some((d.auction_price@, d.transfer.ts@)),
        _NftTransaction::FixedSell(d) => Some((d.price@, d.transfer.ts@)),
        _NftTransaction::Mint(d) => Some((d.price@ + "usei"@, d.ts@)),
        _NftTransaction::OnlyTransfer(d) => Some(("0usei"@, d.ts@)),
        _NftTransaction::PurchaseCart(d) => Some((d.sale_price@, d.transfer.ts@)),
        _NftTransaction::Unkonw => None,
    }
}

/// Which side of a trade the wallet is on: 1 where it received the NFT, 2
/// where it sent it, 0 otherwise or where the kind of trade has no sides.
pub open spec fn trade_side(wallet: Seq<char>, t: _NftTransaction) -> int {
    let tr = match t {
        _NftTransaction::AcceptBid(d) => Some(d.transfer),
        _NftTransaction::BatchBids(d) => Some(d.transfer),
        _NftTransaction::CretaeAuction(d) => Some(d.transfer),
        _NftTransaction::FixedSell(d) => Some(d.transfer),
        _NftTransaction::PurchaseCart(d) => Some(d.transfer),
        _ => None,
    };
    match tr {
        Some(tr) => if tr.recipient@ == wallet {
            1
        } else if tr.sender@ == wallet {
            2
        } else {
            0
        },
        None => 0,
    }
}

/// The trades of the transactions (`side` 0), the wallet's purchases
/// (`side` 1) or its sales (`side` 2), in order.
pub open spec fn nft_trade_views(wallet: Seq<char>, txs: Seq<NFTtransaction>, side: int) -> Seq<TradeView>
    decreases txs.len(),
{
    if txs.len() == 0 {
        Seq::empty()
    } else {
        let prev = nft_trade_views(wallet, txs.drop_last(), side);
        let t = txs.last().transaction;
        match trade_of(t) {
            Some(tv) => if side == 0 || trade_side(wallet, t) == side {
                prev.push(tv)
            } else {
                prev
            },
            None => prev,
        }
    }
}

fn trade_exec(t: &_NftTransaction, wallet: &String) -> (r: Option<(_trade, u8)>)
    ensures
        match trade_of(*t) {
            Some(tv) => r matches Some((tr, side)) && (tr.sale_price@, tr.ts@) == tv && side as int
                == trade_side(wallet@, *t),
            None => r is None,
        },
{
    let side_of = |recipient: &String, sender: &String| -> (s: u8)
        ensures
            s == (if recipient@ == wallet@ {
                1u8
            } else if sender@ == wallet@ {
                2u8
            } else {
                0u8
            }),
        {
            if *recipient == *wallet {
                1u8
            } else if *sender == *wallet {
                2u8
            } else {
                0u8
            }
        };
    match t {
        _NftTransaction::AcceptBid(d) => Some((
            _trade { sale_price: d.sale_price.clone(), ts: d.transfer.ts.clone() },
            side_of(&d.transfer.recipient, &d.transfer.sender),
        )),
        _NftTransaction::BatchBids(d) => Some((
            _trade { sale_price: d.sale_price.clone(), ts: d.transfer.ts.clone() },
            side_of(&d.transfer.recipient, &d.transfer.sender),
        )),
        _NftTransaction::CancelAuction(d) => Some((
            _trade { sale_price: d.auction_price.clone(), ts: d.transfer.ts.clone() },
            0u8,
        )),
        _NftTransaction::CretaeAuction(d) => Some((
            _trade { sale_price: d.auction_price.clone(), ts: d.transfer.ts.clone() },
            side_of(&d.transfer.recipient, &d.transfer.sender),
        )),
        _NftTransaction::FixedSell(d) => Some((
            _trade { sale_price: d.price.clone(), ts: d.transfer.ts.clone() },
            side_of(&d.transfer.recipient, &d.transfer.sender),
        )),
        _NftTransaction::Mint(d) => Some((
            _trade { sale_price: concat(&d.price, "usei"), ts: d.ts.clone() },
            0u8,
        )),
        _NftTransaction::OnlyTransfer(d) => Some((
            _trade { sale_price: owned("0usei"), ts: d.ts.clone() },
            0u8,
        )),
        _NftTransaction::PurchaseCart(d) => Some((
            _trade { sale_price: d.sale_price.clone(), ts: d.transfer.ts.clone() },
            side_of(&d.transfer.recipient, &d.transfer.sender),
        )),
        _NftTransaction::Unkonw => None,
    }
}

/// The trades of the transactions, the wallet's purchases and its sales.
pub fn nft_trades(wallet: &String, transactions: &Vec<NFTtransaction>) -> (r: (Vec<_trade>, Vec<_trade>, Vec<_trade>))
    ensures
        trade_views(r.0@) == nft_trade_views(wallet@, transactions@, 0),
        trade_views(r.1@) == nft_trade_views(wallet@, transactions@, 1),
        trade_views(r.2@) == nft_trade_views(wallet@, transactions@, 2),
{
    let mut all: Vec<_trade> = Vec::new();
    let mut buys: Vec<_trade> = Vec::new();
    let mut sells: Vec<_trade> = Vec::new();
    let mut i: usize = 0;
    while i < transactions.len()
        invariant
            i <= transactions.len(),
            trade_views(all@) == nft_trade_views(wallet@, transactions@.take(i as int), 0),
            trade_views(buys@) == nft_trade_views(wallet@, transactions@.take(i as int), 1),
            trade_views(sells@) == nft_trade_views(wallet@, transactions@.take(i as int), 2),
        decreases transactions.len() - i,
    {
        proof {
            assert(transactions@.take(i + 1).drop_last() =~= transactions@.take(i as int));
            assert(transactions@.take(i + 1).last() == transactions@[i as int]);
        }
        let ghost (a0, b0, s0) = (all@, buys@, sells@);
        match trade_exec(&transactions[i].transaction, wallet) {
            Some((tr, side)) => {
                let ghost tv = (tr.sale_price@, tr.ts@);
                if side == 1 {
                    buys.push(_trade { sale_price: tr.sale_price.clone(), ts: tr.ts.clone() });
                    proof {
                        assert(trade_views(buys@) =~= trade_views(b0).push(tv));
                    }
                } else if side == 2 {
                    sells.push(_trade { sale_price: tr.sale_price.clone(), ts: tr.ts.clone() });
                    proof {
                        assert(trade_views(sells@) =~= trade_views(s0).push(tv));
                    }
                }
                all.push(tr);
                proof {
                    assert(trade_views(all@) =~= trade_views(a0).push(tv));
                }
            },
            None => {},
        }
        i = i + 1;
    }
    proof {
        assert(transactions@.take(transactions.len() as int) =~= transactions@);
    }
    (all, buys, sells)
}

/// The purchase and sale statistics of a wallet.
#[derive(Debug)]
pub struct Volume {
    pub buy_volume: Transactions,
    pub sell_volume: Transactions,
}

/// A wallet's NFT trading: how long its NFTs have been held (where it holds
/// any), the statistics of all its trades, and of its purchases and sales.
#[derive(Debug)]
pub struct UserTradeInfo {
    pub age_of_nft_assets: Option<AgeOfNftAssets>,
    pub transaction: Transactions,
    pub volume: Volume,
}

/// The statistics of the trades for period `p`, starting from none.
pub open spec fn stats_of(tv: Seq<TradeView>, p: int) -> Map<Seq<char>, StatView> {
    absorb(Map::empty(), view_groups(tv, p))
}

/// The statistics of the three groups of trades can be made.
pub open spec fn nft_trade_info_ok(wallet: Seq<char>, txs: Seq<NFTtransaction>) -> bool {
    &&& views_addable(nft_trade_views(wallet, txs, 0))
    &&& views_addable(nft_trade_views(wallet, txs, 1))
    &&& views_addable(nft_trade_views(wallet, txs, 2))
}

/// The statistics `t` are those of the trades `tv`.
pub open spec fn stats_are(t: Transactions, tv: Seq<TradeView>) -> bool {
    &&& entries_map(t.day@) == stats_of(tv, 0)
    &&& entries_map(t.week@) == stats_of(tv, 1)
    &&& entries_map(t.month@) == stats_of(tv, 2)
}

/// A wallet's NFT trading information: `ages` as given, and the statistics
/// of all its trades, its purchases and its sales.
pub fn trade_info_nfts(
    ages: Option<AgeOfNftAssets>,
    wallet: &String,
    transactions: &Vec<NFTtransaction>,
) -> (r: UserTradeInfo)
    requires
        nft_trade_info_ok(wallet@, transactions@),
    ensures
        r.age_of_nft_assets == ages,
        stats_are(r.transaction, nft_trade_views(wallet@, transactions@, 0)),
        stats_are(r.volume.buy_volume, nft_trade_views(wallet@, transactions@, 1)),
        stats_are(r.volume.sell_volume, nft_trade_views(wallet@, transactions@, 2)),
{
    let (all, buys, sells) = nft_trades(wallet, transactions);
    let mut t = Transactions::new();
    let mut b = Transactions::new();
    let mut s = Transactions::new();
    proof {
        assert(entries_map(t.day@) =~= Map::empty());
        assert(entries_map(t.week@) =~= Map::empty());
        assert(entries_map(t.month@) =~= Map::empty());
        assert(entries_map(b.day@) =~= Map::empty());
        assert(entries_map(b.week@) =~= Map::empty());
        assert(entries_map(b.month@) =~= Map::empty());
        assert(entries_map(s.day@) =~= Map::empty());
        assert(entries_map(s.week@) =~= Map::empty());
        assert(entries_map(s.month@) =~= Map::empty());
    }
    t.add_data(all);
    b.add_data(buys);
    s.add_data(sells);
    UserTradeInfo { age_of_nft_assets: ages, transaction: t, volume: Volume { buy_volume: b, sell_volume: s } }
}

/// [`trade_info_nfts`] where the statistics can be made, `None` otherwise.
pub fn try_trade_info_nfts(
    ages: Option<AgeOfNftAssets>,
    wallet: &String,
    transactions: &Vec<NFTtransaction>,
) -> (r: Option<UserTradeInfo>)
    ensures
        r is Some <==> nft_trade_info_ok(wallet@, transactions@),
        r matches Some(info) ==> {
            &&& info.age_of_nft_assets == ages
            &&& stats_are(info.transaction, nft_trade_views(wallet@, transactions@, 0))
            &&& stats_are(info.volume.buy_volume, nft_trade_views(wallet@, transactions@, 1))
            &&& stats_are(info.volume.sell_volume, nft_trade_views(wallet@, transactions@, 2))
        },
{
    let (all, buys, sells) = nft_trades(wallet, transactions);
    let mut probe = Transactions::new();
    if !probe.try_add_data(all) {
        return None;
    }
    let mut probe = Transactions::new();
    if !probe.try_add_data(buys) {
        return None;
    }
    let mut probe = Transactions::new();
    if !probe.try_add_data(sells) {
        return None;
    }
    Some(trade_info_nfts(ages, wallet, transactions))
}

} // verus!

verus! {

/// Every held NFT falls in exactly one of the six holding-time levels: the
/// levels together hold as many NFTs as there are.
pub proof fn law_age_levels_partition(nfts: Seq<UserNftView>, today: UtcStamp)
    ensures
        at_level(nfts, today, 1).len() + at_level(nfts, today, 2).len() + at_level(nfts, today, 3).len()
            + at_level(nfts, today, 4).len() + at_level(nfts, today, 5).len() + at_level(
            nfts,
            today,
            6,
        ).len() == nfts.len(),
    decreases nfts.len(),
{
    reveal(Seq::filter);
    if nfts.len() > 0 {
        law_age_levels_partition(nfts.drop_last(), today);
        let l = age_level(held_days(nfts.last(), today));
        assert(1 <= l <= 6);
    }
}


/// In the trade statistics the wallet's side in a sale of an NFT is decided
/// by the transfer alone: a purchase where the wallet receives the NFT, a
/// sale where it only sends it, neither where it is not a party; the trade
/// counts at the transfer's time. A plain transfer, a cancelled listing and
/// a mint are neither purchases nor sales.
pub proof fn law_trade_side_follows_transfer(wallet: Seq<char>, t: _NftTransaction)
    ensures
        moved_by(t) is Some && !(t is OnlyTransfer) && !(t is CancelAuction) ==> {
            let tr = moved_by(t)->0;
            &&& trade_side(wallet, t) == party_of(tr, wallet)
            &&& trade_of(t) matches Some(v) && v.1 == tr.ts@
        },
        t is OnlyTransfer || t is CancelAuction || t is Mint || t is Unkonw ==> trade_side(wallet, t) == 0,
{
}

} // verus!
