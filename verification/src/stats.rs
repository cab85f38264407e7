//! Trading statistics: transactions grouped by UTC day, ISO week and month,
//! each group with its number of transactions and its volume in `usei`.
use vstd::prelude::*;
use crate::model::TokenSwap;
use crate::text::{decimal, is_lit, owned, parse_usize, parse_usize_exec, unit_usize, unit_usize_exec, with_unit};
use crate::time::{UtcStamp, day_key, day_key_of, pair_key, pair_key_of, parse_rfc3339, rfc3339_utc};

verus! {

/// The statistics of one group of transactions.
#[derive(Debug)]
pub struct _Transaction {
    /// How many transactions the group holds.
    pub transaction_amount: usize,
    /// Their summed volume, written as `<amount>usei`.
    pub total_volume: String,
}

/// The statistics of one group of token swaps.
pub type _TokenTransaction = _Transaction;

/// A group statistic as the contracts see it: the count and the volume text.
pub type StatView = (usize, Seq<char>);

/// One NFT trade as the statistics read it: its price and its time.
#[derive(Debug)]
pub struct _trade {
    pub sale_price: String,
    pub ts: String,
}

/// Group statistics keyed by period, in the order the groups were added.
pub type Entries = Vec<(String, _Transaction)>;

/// The statistics of `v` as a map from the period key to the statistic; a
/// later entry for the same key overrides an earlier one.
pub open spec fn entries_map(v: Seq<(String, _Transaction)>) -> Map<Seq<char>, StatView>
    decreases v.len(),
{
    if v.len() == 0 {
        Map::empty()
    } else {
        entries_map(v.drop_last()).insert(
            v.last().0@,
            (v.last().1.transaction_amount, v.last().1.total_volume@),
        )
    }
}

// ---------------------------------------------------------------------------
// Groups and their statistics
// ---------------------------------------------------------------------------

/// A sequence of (period key, volume) pairs: one per transaction.
pub type Groups = Seq<(Seq<char>, nat)>;

/// How many pairs of `g` have the key `k`.
pub open spec fn group_count(g: Groups, k: Seq<char>) -> nat
    decreases g.len(),
{
    if g.len() == 0 {
        0
    } else {
        group_count(g.drop_last(), k) + if g.last().0 == k {
            1nat
        } else {
            0nat
        }
    }
}

/// The summed volume of the pairs of `g` with the key `k`.
pub open spec fn group_sum(g: Groups, k: Seq<char>) -> nat
    decreases g.len(),
{
    if g.len() == 0 {
        0
    } else {
        group_sum(g.drop_last(), k) + if g.last().0 == k {
            g.last().1
        } else {
            0nat
        }
    }
}

/// The statistic of the group with key `k`.
pub open spec fn group_stat(g: Groups, k: Seq<char>) -> StatView {
    (group_count(g, k) as usize, decimal(group_sum(g, k)) + "usei"@)
}

/// Every group's volume fits in a `usize`.
pub open spec fn sums_fit(g: Groups) -> bool {
    forall|i: int| 0 <= i < g.len() ==> group_sum(g, #[trigger] g[i].0) <= usize::MAX
}

/// `m` with the groups of the first `n` pairs of `g` added: a key already in
/// `m` keeps its statistic, a new key gets the statistic of its whole group.
pub open spec fn absorb_upto(m: Map<Seq<char>, StatView>, g: Groups, n: int) -> Map<
    Seq<char>,
    StatView,
> {
    Map::new(
        |k: Seq<char>| m.dom().contains(k) || exists|j: int| 0 <= j < n && #[trigger] g[j].0 == k,
        |k: Seq<char>|
            if m.dom().contains(k) {
                m[k]
            } else {
                group_stat(g, k)
            },
    )
}

/// `m` with every group of `g` added where its key is not there yet.
pub open spec fn absorb(m: Map<Seq<char>, StatView>, g: Groups) -> Map<Seq<char>, StatView> {
    absorb_upto(m, g, g.len() as int)
}

/// Pairs the keys with the volumes.
pub open spec fn zipped(keys: Seq<String>, vols: Seq<usize>) -> Groups {
    Seq::new(keys.len(), |i: int| (keys[i]@, vols[i] as nat))
}

proof fn lemma_entries_dom(v: Seq<(String, _Transaction)>, k: Seq<char>)
    ensures
        entries_map(v).dom().contains(k) <==> exists|i: int| 0 <= i < v.len() && #[trigger] v[i].0@ == k,
    decreases v.len(),
{
    if v.len() > 0 {
        lemma_entries_dom(v.drop_last(), k);
        if entries_map(v.drop_last()).dom().contains(k) {
            let i = choose|i: int| 0 <= i < v.drop_last().len() && #[trigger] v.drop_last()[i].0@ == k;
            assert(v[i].0@ == k);
        }
        if exists|i: int| 0 <= i < v.len() && #[trigger] v[i].0@ == k {
            let i = choose|i: int| 0 <= i < v.len() && #[trigger] v[i].0@ == k;
            if i < v.len() - 1 {
                assert(v.drop_last()[i].0@ == k);
            }
        }
    }
}

proof fn lemma_group_prefix(g: Groups, j: int, k: Seq<char>)
    requires
        0 <= j <= g.len(),
    ensures
        group_sum(g.take(j), k) <= group_sum(g, k),
        group_count(g.take(j), k) <= j,
    decreases g.len(),
{
    if j == g.len() {
        assert(g.take(j) =~= g);
        lemma_group_count_len(g, k);
    } else {
        lemma_group_prefix(g.drop_last(), j, k);
        assert(g.drop_last().take(j) =~= g.take(j));
    }
}

proof fn lemma_group_count_len(g: Groups, k: Seq<char>)
    ensures
        group_count(g, k) <= g.len(),
    decreases g.len(),
{
    if g.len() > 0 {
        lemma_group_count_len(g.drop_last(), k);
    }
}

/// Whether `entries` holds a statistic for the key `k`.
fn has_entry(entries: &Entries, k: &String) -> (r: bool)
    ensures
        r == entries_map(entries@).dom().contains(k@),
{
    proof {
        lemma_entries_dom(entries@, k@);
    }
    let mut i: usize = 0;
    while i < entries.len()
        invariant
            i <= entries.len(),
            forall|j: int| 0 <= j < i ==> (#[trigger] entries@[j]).0@ != k@,
        decreases entries.len() - i,
    {
        if entries[i].0 == *k {
            proof {
                assert(entries@[i as int].0@ == k@);
                lemma_entries_dom(entries@, k@);
            }
            return true;
        }
        i = i + 1;
    }
    proof {
        lemma_entries_dom(entries@, k@);
    }
    false
}

/// The count and the volume of the group with key `k`, or `None` where the
/// volume does not fit in a `usize`.
fn count_and_sum(keys: &Vec<String>, vols: &Vec<usize>, k: &String) -> (r: Option<(usize, usize)>)
    requires
        keys.len() == vols.len(),
    ensures
        match r {
            Some((c, s)) => group_sum(zipped(keys@, vols@), k@) <= usize::MAX && c == group_count(
                zipped(keys@, vols@),
                k@,
            ) && s == group_sum(zipped(keys@, vols@), k@),
            None => group_sum(zipped(keys@, vols@), k@) > usize::MAX,
        },
{
    let ghost g = zipped(keys@, vols@);
    let mut c: usize = 0;
    let mut s: usize = 0;
    let mut j: usize = 0;
    while j < keys.len()
        invariant
            j <= keys.len(),
            keys.len() == vols.len(),
            g == zipped(keys@, vols@),
            c == group_count(g.take(j as int), k@),
            s == group_sum(g.take(j as int), k@),
        decreases keys.len() - j,
    {
        proof {
            assert(g.take(j + 1).drop_last() =~= g.take(j as int));
            lemma_group_prefix(g, j + 1, k@);
        }
        if keys[j] == *k {
            match s.checked_add(vols[j]) {
                Some(t) => {
                    s = t;
                },
                None => {
                    return None;
                },
            }
            c = c + 1;
        }
        j = j + 1;
    }
    proof {
        assert(g.take(keys.len() as int) =~= g);
    }
    Some((c, s))
}

/// Whether every group's volume fits in a `usize`.
fn sums_fit_exec(keys: &Vec<String>, vols: &Vec<usize>) -> (r: bool)
    requires
        keys.len() == vols.len(),
    ensures
        r == sums_fit(zipped(keys@, vols@)),
{
    let ghost g = zipped(keys@, vols@);
    let mut i: usize = 0;
    while i < keys.len()
        invariant
            i <= keys.len(),
            keys.len() == vols.len(),
            g == zipped(keys@, vols@),
            forall|j: int| 0 <= j < i ==> group_sum(g, #[trigger] g[j].0) <= usize::MAX,
        decreases keys.len() - i,
    {
        if count_and_sum(keys, vols, &keys[i]).is_none() {
            proof {
                assert(g[i as int].0 == keys@[i as int]@);
            }
            return false;
        }
        i = i + 1;
    }
    true
}

/// `v` starts with `u`: every entry of `u` is still there, in its place and
/// unchanged.
pub open spec fn kept_in_front(u: Seq<(String, _Transaction)>, v: Seq<(String, _Transaction)>) -> bool {
    &&& u.len() <= v.len()
    &&& v.take(u.len() as int) == u
}

/// No two entries of `v` have the same key.
pub open spec fn keys_distinct(v: Seq<(String, _Transaction)>) -> bool {
    forall|a: int, b: int| 0 <= a < b < v.len() ==> (#[trigger] v[a]).0@ != (#[trigger] v[b]).0@
}

/// Adds to `entries` the groups of the pairs (`keys[i]`, `vols[i]`) whose
/// key it does not hold yet, in the order the keys first occur.
fn absorb_groups(entries: &mut Entries, keys: &Vec<String>, vols: &Vec<usize>)
    requires
        keys.len() == vols.len(),
        sums_fit(zipped(keys@, vols@)),
    ensures
        entries_map(final(entries)@) == absorb(entries_map(old(entries)@), zipped(keys@, vols@)),
        kept_in_front(old(entries)@, final(entries)@),
        keys@.len() == 0 ==> final(entries)@ == old(entries)@,
        keys_distinct(old(entries)@) ==> keys_distinct(final(entries)@),
{
    let ghost g = zipped(keys@, vols@);
    let ghost m0 = entries_map(entries@);
    let ghost e0 = entries@;
    let mut i: usize = 0;
    proof {
        assert(entries_map(entries@) =~= absorb_upto(m0, g, 0));
        assert(e0.take(e0.len() as int) =~= e0);
    }
    while i < keys.len()
        invariant
            i <= keys.len(),
            keys.len() == vols.len(),
            g == zipped(keys@, vols@),
            sums_fit(g),
            entries_map(entries@) == absorb_upto(m0, g, i as int),
            kept_in_front(e0, entries@),
            i == 0 ==> entries@ == e0,
            keys_distinct(e0) ==> keys_distinct(entries@),
        decreases keys.len() - i,
    {
        let ghost cur = entries_map(entries@);
        let k = &keys[i];
        proof {
            assert(g[i as int].0 == k@);
        }
        if !has_entry(entries, k) {
            proof {
                assert(group_sum(g, g[i as int].0) <= usize::MAX);
            }
            match count_and_sum(keys, vols, k) {
                Some((c, s)) => {
                    let ghost before = entries@;
                    proof {
                        lemma_entries_dom(before, k@);
                    }
                    entries.push((owned(k.as_str()), _Transaction { transaction_amount: c, total_volume: with_unit(s as u64) }));
                    proof {
                        assert(entries@.drop_last() =~= before);
                        assert(entries@.take(e0.len() as int) =~= before.take(e0.len() as int));
                        if keys_distinct(e0) {
                            assert forall|a: int, b: int|
                                0 <= a < b < entries@.len() implies (#[trigger] entries@[a]).0@ != (
                                #[trigger] entries@[b]).0@ by {
                                if b == entries@.len() - 1 {
                                    assert(before[a] == entries@[a]);
                                } else {
                                    assert(before[a] == entries@[a] && before[b] == entries@[b]);
                                }
                            }
                        }
                        assert(entries_map(entries@) == cur.insert(k@, group_stat(g, k@)));
                        assert(entries_map(entries@) =~= absorb_upto(m0, g, i + 1));
                    }
                },
                None => {},
            }
        } else {
            proof {
                assert(entries_map(entries@) =~= absorb_upto(m0, g, i + 1)) by {
                    assert forall|kk: Seq<char>|
                        #![auto]
                        absorb_upto(m0, g, i + 1).dom().contains(kk) implies absorb_upto(
                            m0,
                            g,
                            i as int,
                        ).dom().contains(kk) by {
                        if !m0.dom().contains(kk) {
                            let j = choose|j: int| 0 <= j < i + 1 && #[trigger] g[j].0 == kk;
                            if j == i {
                                assert(cur.dom().contains(k@));
                            }
                        }
                    }
                }
            }
        }
        i = i + 1;
    }
}

// ---------------------------------------------------------------------------
// Parsed times
// ---------------------------------------------------------------------------

/// Times as `chrono` gives them: month in 1..=12, day in 1..=31.
pub open spec fn stamps_valid(stamps: Seq<UtcStamp>) -> bool {
    forall|i: int| 0 <= i < stamps.len() ==> 1 <= (#[trigger] stamps[i]).month <= 12 && 1 <= stamps[i].day <= 31
}

/// The key of a time for its day (`0`), week (`1`) or month (`2`); the week
/// is numbered within the ISO year where `iso`, within the calendar year
/// otherwise.
pub open spec fn stamp_key(t: UtcStamp, p: int, iso: bool) -> Seq<char> {
    if iso {
        trade_period_key(t, p)
    } else {
        swap_period_key(t, p)
    }
}

/// The (period key, volume) pairs of transactions at the times `stamps` with
/// the volumes `vols`, for period `p`.
pub open spec fn stamp_groups(stamps: Seq<UtcStamp>, vols: Seq<usize>, p: int, iso: bool) -> Groups {
    Seq::new(stamps.len(), |i: int| (stamp_key(stamps[i], p, iso), vols[i] as nat))
}

/// The day, week and month keys of the times.
fn period_keys(stamps: &Vec<UtcStamp>, iso: bool) -> (r: (Vec<String>, Vec<String>, Vec<String>))
    requires
        stamps_valid(stamps@),
    ensures
        r.0@.len() == stamps@.len(),
        r.1@.len() == stamps@.len(),
        r.2@.len() == stamps@.len(),
        forall|j: int| 0 <= j < stamps@.len() ==> (#[trigger] r.0@[j])@ == stamp_key(stamps@[j], 0, iso),
        forall|j: int| 0 <= j < stamps@.len() ==> (#[trigger] r.1@[j])@ == stamp_key(stamps@[j], 1, iso),
        forall|j: int| 0 <= j < stamps@.len() ==> (#[trigger] r.2@[j])@ == stamp_key(stamps@[j], 2, iso),
{
    let mut dk: Vec<String> = Vec::new();
    let mut wk: Vec<String> = Vec::new();
    let mut mk: Vec<String> = Vec::new();
    let mut i: usize = 0;
    while i < stamps.len()
        invariant
            i <= stamps.len(),
            stamps_valid(stamps@),
            dk@.len() == i,
            wk@.len() == i,
            mk@.len() == i,
            forall|j: int| 0 <= j < i ==> (#[trigger] dk@[j])@ == stamp_key(stamps@[j], 0, iso),
            forall|j: int| 0 <= j < i ==> (#[trigger] wk@[j])@ == stamp_key(stamps@[j], 1, iso),
            forall|j: int| 0 <= j < i ==> (#[trigger] mk@[j])@ == stamp_key(stamps@[j], 2, iso),
        decreases stamps.len() - i,
    {
        let t = &stamps[i];
        proof {
            assert(1 <= stamps@[i as int].month <= 12);
        }
        let wy: i64 = if iso {
            t.iso_year as i64
        } else {
            t.year as i64
        };
        let ghost (d0, w0, m0) = (dk@, wk@, mk@);
        dk.push(day_key_of(t));
        wk.push(pair_key_of(wy, t.iso_week as u64));
        mk.push(pair_key_of(t.year as i64, t.month as u64));
        proof {
            assert(d0 == dk@.drop_last() && w0 == wk@.drop_last() && m0 == mk@.drop_last());
            assert(wk@[i as int]@ == stamp_key(stamps@[i as int], 1, iso));
            assert(mk@[i as int]@ == stamp_key(stamps@[i as int], 2, iso));
        }
        i = i + 1;
    }
    (dk, wk, mk)
}

proof fn lemma_zipped_keys(keys: Seq<String>, vols: Seq<usize>, stamps: Seq<UtcStamp>, p: int, iso: bool)
    requires
        keys.len() == stamps.len(),
        vols.len() == stamps.len(),
        forall|j: int| 0 <= j < stamps.len() ==> (#[trigger] keys[j])@ == stamp_key(stamps[j], p, iso),
    ensures
        zipped(keys, vols) == stamp_groups(stamps, vols, p, iso),
{
    assert forall|j: int| 0 <= j < stamps.len() implies zipped(keys, vols)[j] == stamp_groups(stamps, vols, p, iso)[j] by {
        assert(keys[j]@ == stamp_key(stamps[j], p, iso));
    }
    assert(zipped(keys, vols) =~= stamp_groups(stamps, vols, p, iso));
}

// ---------------------------------------------------------------------------
// NFT trades
// ---------------------------------------------------------------------------

/// Day, week and month statistics of NFT trades.
#[derive(Debug)]
pub struct Transactions {
    pub day: Entries,
    pub week: Entries,
    /// Keyed by year and month.
    pub month: Entries,
}

/// The key of a trade's day (`0`), ISO week (`1`: ISO year and week) or month
/// (`2`: year and month).
pub open spec fn trade_period_key(t: UtcStamp, p: int) -> Seq<char> {
    if p == 0 {
        day_key(t)
    } else if p == 1 {
        pair_key(t.iso_year as int, t.iso_week as nat)
    } else {
        pair_key(t.year as int, t.month as nat)
    }
}

/// A trade as the statistics read it: its price text and its time text.
pub type TradeView = (Seq<char>, Seq<char>);

/// The price and time texts of the trades.
pub open spec fn trade_views(trades: Seq<_trade>) -> Seq<TradeView> {
    trades.map_values(|t: _trade| (t.sale_price@, t.ts@))
}

/// Each trade's time parses and its price is `<digits>` followed by four
/// bytes of unit.
pub open spec fn views_readable(tv: Seq<TradeView>) -> bool {
    forall|i: int|
        0 <= i < tv.len() ==> (#[trigger] rfc3339_utc(tv[i].1)) is Some && unit_usize(tv[i].0) is Some
}

/// The (period key, volume) pairs of the trades for period `p`.
pub open spec fn view_groups(tv: Seq<TradeView>, p: int) -> Groups {
    Seq::new(
        tv.len(),
        |i: int| (trade_period_key(rfc3339_utc(tv[i].1)->0, p), unit_usize(tv[i].0)->0),
    )
}

/// The trades can be read and every day, week and month volume fits.
pub open spec fn views_addable(tv: Seq<TradeView>) -> bool {
    &&& views_readable(tv)
    &&& sums_fit(view_groups(tv, 0))
    &&& sums_fit(view_groups(tv, 1))
    &&& sums_fit(view_groups(tv, 2))
}

/// Each trade's time parses and its price reads.
pub open spec fn trades_readable(trades: Seq<_trade>) -> bool {
    views_readable(trade_views(trades))
}

/// The (period key, volume) pairs of the trades for period `p`.
pub open spec fn trade_groups(trades: Seq<_trade>, p: int) -> Groups {
    view_groups(trade_views(trades), p)
}

/// The trades can be added to statistics.
pub open spec fn trades_addable(trades: Seq<_trade>) -> bool {
    views_addable(trade_views(trades))
}

proof fn lemma_trade_view(trades: Seq<_trade>, i: int)
    requires
        0 <= i < trades.len(),
    ensures
        trade_views(trades)[i] == (trades[i].sale_price@, trades[i].ts@),
        trade_views(trades).len() == trades.len(),
{
}

impl Transactions {
    /// No statistics.
    pub fn new() -> (r: Self)
        ensures
            r.day@.len() == 0,
            r.week@.len() == 0,
            r.month@.len() == 0,
    {
        Transactions { day: Vec::new(), week: Vec::new(), month: Vec::new() }
    }

    /// Adds trades at the UTC times `stamps` with the volumes `vols`
    /// (`vols[i]` that of the trade at `stamps[i]`): grouped by day, ISO week
    /// and month, each group's count and volume go under its key where no
    /// statistic for that key is held yet.
    pub fn add_stamped(&mut self, stamps: &Vec<UtcStamp>, vols: &Vec<usize>)
        requires
            stamps@.len() == vols@.len(),
            stamps_valid(stamps@),
            sums_fit(stamp_groups(stamps@, vols@, 0, true)),
            sums_fit(stamp_groups(stamps@, vols@, 1, true)),
            sums_fit(stamp_groups(stamps@, vols@, 2, true)),
        ensures
            entries_map(final(self).day@) == absorb(entries_map(old(self).day@), stamp_groups(stamps@, vols@, 0, true)),
            entries_map(final(self).week@) == absorb(entries_map(old(self).week@), stamp_groups(stamps@, vols@, 1, true)),
            entries_map(final(self).month@) == absorb(
                entries_map(old(self).month@),
                stamp_groups(stamps@, vols@, 2, true),
            ),
            kept_in_front(old(self).day@, final(self).day@),
            kept_in_front(old(self).week@, final(self).week@),
            kept_in_front(old(self).month@, final(self).month@),
            keys_distinct(old(self).day@) ==> keys_distinct(final(self).day@),
            keys_distinct(old(self).week@) ==> keys_distinct(final(self).week@),
            keys_distinct(old(self).month@) ==> keys_distinct(final(self).month@),
            stamps@.len() == 0 ==> final(self).day@ == old(self).day@ && final(self).week@ == old(
                self,
            ).week@ && final(self).month@ == old(self).month@,
    {
        let (dk, wk, mk) = period_keys(stamps, true);
        proof {
            lemma_zipped_keys(dk@, vols@, stamps@, 0, true);
            lemma_zipped_keys(wk@, vols@, stamps@, 1, true);
            lemma_zipped_keys(mk@, vols@, stamps@, 2, true);
        }
        absorb_groups(&mut self.day, &dk, &vols);
        absorb_groups(&mut self.week, &wk, &vols);
        absorb_groups(&mut self.month, &mk, &vols);
    }

    /// Groups `trades` by UTC day, ISO week and month and adds each group's
    /// count and volume under its key, where no statistic for that key is
    /// held yet (see [`Transactions::add_stamped`]).
    pub fn add_data(&mut self, trades: Vec<_trade>)
        requires
            trades_addable(trades@),
        ensures
            entries_map(final(self).day@) == absorb(entries_map(old(self).day@), trade_groups(trades@, 0)),
            entries_map(final(self).week@) == absorb(entries_map(old(self).week@), trade_groups(trades@, 1)),
            entries_map(final(self).month@) == absorb(
                entries_map(old(self).month@),
                trade_groups(trades@, 2),
            ),
            kept_in_front(old(self).day@, final(self).day@),
            kept_in_front(old(self).week@, final(self).week@),
            kept_in_front(old(self).month@, final(self).month@),
            keys_distinct(old(self).day@) ==> keys_distinct(final(self).day@),
            keys_distinct(old(self).week@) ==> keys_distinct(final(self).week@),
            keys_distinct(old(self).month@) ==> keys_distinct(final(self).month@),
            trades@.len() == 0 ==> final(self).day@ == old(self).day@ && final(self).week@ == old(
                self,
            ).week@ && final(self).month@ == old(self).month@,
    {
        let mut stamps: Vec<UtcStamp> = Vec::new();
        let mut vols: Vec<usize> = Vec::new();
        let mut i: usize = 0;
        while i < trades.len()
            invariant
                i <= trades.len(),
                trades_readable(trades@),
                stamps@.len() == i,
                vols@.len() == i,
                stamps_valid(stamps@),
                forall|j: int|
                    0 <= j < i ==> (#[trigger] stamps@[j]) == rfc3339_utc(trades@[j].ts@)->0 && vols@[j]
                        == unit_usize(trades@[j].sale_price@)->0,
            decreases trades.len() - i,
        {
            proof {
                lemma_trade_view(trades@, i as int);
                assert(rfc3339_utc(trade_views(trades@)[i as int].1) is Some);
                assert(unit_usize(trade_views(trades@)[i as int].0) is Some);
            }
            let t = match parse_rfc3339(trades[i].ts.as_str()) {
                Some(t) => t,
                None => {
                    return;
                },
            };
            let v = match unit_usize_exec(&trades[i].sale_price) {
                Some(v) => v,
                None => {
                    return;
                },
            };
            stamps.push(t);
            vols.push(v);
            i = i + 1;
        }
        proof {
            assert forall|p: int| 0 <= p <= 2 implies #[trigger] stamp_groups(stamps@, vols@, p, true) == trade_groups(trades@, p) by {
                assert forall|j: int| 0 <= j < trades@.len() implies stamp_groups(stamps@, vols@, p, true)[j]
                    == trade_groups(trades@, p)[j] by {
                    lemma_trade_view(trades@, j);
                    assert(stamps@[j] == rfc3339_utc(trades@[j].ts@)->0);
                }
                assert(stamp_groups(stamps@, vols@, p, true) =~= trade_groups(trades@, p));
            }
            assert(stamp_groups(stamps@, vols@, 0, true) == trade_groups(trades@, 0));
            assert(stamp_groups(stamps@, vols@, 1, true) == trade_groups(trades@, 1));
            assert(stamp_groups(stamps@, vols@, 2, true) == trade_groups(trades@, 2));
        }
        self.add_stamped(&stamps, &vols);
    }

    /// [`Transactions::add_data`] where the trades can be added (times that
    /// parse, prices that read, volumes that fit); otherwise nothing changes
    /// and the result is `false`.
    #[verifier::spinoff_prover]
    pub fn try_add_data(&mut self, trades: Vec<_trade>) -> (r: bool)
        ensures
            r == trades_addable(trades@),
            r ==> entries_map(final(self).day@) == absorb(
                entries_map(old(self).day@),
                trade_groups(trades@, 0),
            ) && entries_map(final(self).week@) == absorb(
                entries_map(old(self).week@),
                trade_groups(trades@, 1),
            ) && entries_map(final(self).month@) == absorb(
                entries_map(old(self).month@),
                trade_groups(trades@, 2),
            ),
            !r ==> final(self).day@ == old(self).day@ && final(self).week@ == old(self).week@
                && final(self).month@ == old(self).month@,
            kept_in_front(old(self).day@, final(self).day@),
            kept_in_front(old(self).week@, final(self).week@),
            kept_in_front(old(self).month@, final(self).month@),
            keys_distinct(old(self).day@) ==> keys_distinct(final(self).day@),
            keys_distinct(old(self).week@) ==> keys_distinct(final(self).week@),
            keys_distinct(old(self).month@) ==> keys_distinct(final(self).month@),
    {
        proof {
            let d = old(self).day@;
            let w = old(self).week@;
            let mo = old(self).month@;
            assert(d.take(d.len() as int) =~= d);
            assert(w.take(w.len() as int) =~= w);
            assert(mo.take(mo.len() as int) =~= mo);
        }
        let mut dk: Vec<String> = Vec::new();
        let mut wk: Vec<String> = Vec::new();
        let mut mk: Vec<String> = Vec::new();
        let mut vols: Vec<usize> = Vec::new();
        let mut i: usize = 0;
        while i < trades.len()
            invariant
                kept_in_front(old(self).day@, old(self).day@),
                kept_in_front(old(self).week@, old(self).week@),
                kept_in_front(old(self).month@, old(self).month@),
                i <= trades.len(),
                dk@.len() == i,
                wk@.len() == i,
                mk@.len() == i,
                vols@.len() == i,
                forall|j: int|
                    0 <= j < i ==> (#[trigger] rfc3339_utc(trades@[j].ts@)) is Some && unit_usize(
                        trades@[j].sale_price@,
                    ) is Some,
                forall|j: int|
                    0 <= j < i ==> {
                        &&& (#[trigger] dk@[j])@ == trade_groups(trades@, 0)[j].0
                        &&& wk@[j]@ == trade_groups(trades@, 1)[j].0
                        &&& mk@[j]@ == trade_groups(trades@, 2)[j].0
                        &&& vols@[j] == unit_usize(trades@[j].sale_price@)->0
                    },
            decreases trades.len() - i,
        {
            proof {
                lemma_trade_view(trades@, i as int);
                assert(rfc3339_utc(trade_views(trades@)[i as int].1) == rfc3339_utc(trades@[i as int].ts@));
                assert(unit_usize(trade_views(trades@)[i as int].0) == unit_usize(
                    trades@[i as int].sale_price@,
                ));
            }
            let t = match parse_rfc3339(trades[i].ts.as_str()) {
                Some(t) => t,
                None => {
                    return false;
                },
            };
            let v = match unit_usize_exec(&trades[i].sale_price) {
                Some(v) => v,
                None => {
                    return false;
                },
            };
            let ghost tv = rfc3339_utc(trades@[i as int].ts@)->0;
            proof {
                assert(t == tv);
                assert(trade_groups(trades@, 1)[i as int].0 == pair_key(tv.iso_year as int, tv.iso_week as nat));
                assert(trade_groups(trades@, 2)[i as int].0 == pair_key(tv.year as int, tv.month as nat));
            }
            dk.push(day_key_of(&t));
            wk.push(pair_key_of(t.iso_year as i64, t.iso_week as u64));
            mk.push(pair_key_of(t.year as i64, t.month as u64));
            vols.push(v);
            proof {
                assert(wk@[i as int]@ == trade_groups(trades@, 1)[i as int].0);
                assert(mk@[i as int]@ == trade_groups(trades@, 2)[i as int].0);
            }
            i = i + 1;
        }
        proof {
            assert forall|j: int| 0 <= j < trades@.len() implies zipped(wk@, vols@)[j] == trade_groups(
                trades@,
                1,
            )[j] && zipped(mk@, vols@)[j] == trade_groups(trades@, 2)[j] && zipped(dk@, vols@)[j]
                == trade_groups(trades@, 0)[j] by {
                assert(dk@[j]@ == trade_groups(trades@, 0)[j].0);
            }
            assert(zipped(dk@, vols@) =~= trade_groups(trades@, 0));
            assert(zipped(wk@, vols@) =~= trade_groups(trades@, 1));
            assert(zipped(mk@, vols@) =~= trade_groups(trades@, 2));
        }
        proof {
            assert forall|j: int| 0 <= j < trades@.len() implies (#[trigger] rfc3339_utc(
                trade_views(trades@)[j].1,
            )) is Some && unit_usize(trade_views(trades@)[j].0) is Some by {
                lemma_trade_view(trades@, j);
            }
        }
        if !(sums_fit_exec(&dk, &vols) && sums_fit_exec(&wk, &vols) && sums_fit_exec(&mk, &vols)) {
            return false;
        }
        self.add_data(trades);
        true
    }
}

// ---------------------------------------------------------------------------
// Token swaps
// ---------------------------------------------------------------------------

/// Statistics of token swaps. Every group is added to `day`: the day, the
/// week and the month groups alike; `week` and `month` are never filled.
#[derive(Debug)]
pub struct TokenTransaction {
    pub day: Entries,
    pub week: Entries,
    pub month: Entries,
}

/// The key of a swap's day (`0`), week (`1`: calendar year and ISO week) or
/// month (`2`: year and month).
pub open spec fn swap_period_key(t: UtcStamp, p: int) -> Seq<char> {
    if p == 0 {
        day_key(t)
    } else if p == 1 {
        pair_key(t.year as int, t.iso_week as nat)
    } else {
        pair_key(t.year as int, t.month as nat)
    }
}

/// The kinds of statistics: all swaps, sales and purchases.
pub open spec fn known_kind(trade_type: Seq<char>) -> bool {
    trade_type == "all"@ || trade_type == "sell"@ || trade_type == "buy"@
}

/// The volume a swap counts with in statistics of kind `trade_type`: for
/// `all`, the `usei` side of the swap (0 where neither side is `usei`); for
/// `sell`, the target amount; for `buy`, the source amount. `None` where that
/// amount is not a `usize`.
pub open spec fn swap_volume(s: TokenSwap, trade_type: Seq<char>) -> Option<nat> {
    if trade_type == "all"@ {
        if s.source_token@ == "usei"@ {
            parse_usize(s.source_amount@)
        } else if s.target_token@ == "usei"@ {
            parse_usize(s.target_amount@)
        } else {
            Some(0)
        }
    } else if trade_type == "sell"@ {
        parse_usize(s.target_amount@)
    } else {
        parse_usize(s.source_amount@)
    }
}

/// The (period key, volume) pairs of the swaps for period `p`.
pub open spec fn swap_groups(swaps: Seq<TokenSwap>, trade_type: Seq<char>, p: int) -> Groups {
    Seq::new(
        swaps.len(),
        |i: int|
            (
                swap_period_key(rfc3339_utc(swaps[i].ts@)->0, p),
                swap_volume(swaps[i], trade_type)->0,
            ),
    )
}

/// Every swap's time parses; for a known kind, every volume reads and every
/// group's volume fits.
pub open spec fn swaps_addable(swaps: Seq<TokenSwap>, trade_type: Seq<char>) -> bool {
    &&& forall|i: int| 0 <= i < swaps.len() ==> (#[trigger] rfc3339_utc(swaps[i].ts@)) is Some
    &&& known_kind(trade_type) ==> {
        &&& forall|i: int|
            0 <= i < swaps.len() ==> (#[trigger] swap_volume(swaps[i], trade_type)) is Some
        &&& sums_fit(swap_groups(swaps, trade_type, 0))
        &&& sums_fit(swap_groups(swaps, trade_type, 1))
        &&& sums_fit(swap_groups(swaps, trade_type, 2))
    }
}

/// `m` with the day groups, then the week groups, then the month groups of
/// the swaps added.
pub open spec fn swap_stats(m: Map<Seq<char>, StatView>, swaps: Seq<TokenSwap>, trade_type: Seq<char>) -> Map<
    Seq<char>,
    StatView,
> {
    absorb(
        absorb(absorb(m, swap_groups(swaps, trade_type, 0)), swap_groups(swaps, trade_type, 1)),
        swap_groups(swaps, trade_type, 2),
    )
}

/// The kind that a code stands for.
pub open spec fn kind_name(kind: u8) -> Seq<char> {
    if kind == 0 {
        "all"@
    } else if kind == 1 {
        "sell"@
    } else {
        "buy"@
    }
}

proof fn lemma_kinds_distinct()
    ensures
        "all"@ != "sell"@,
        "all"@ != "buy"@,
        "sell"@ != "buy"@,
        "usei"@.len() == 4,
{
    reveal_strlit("all");
    reveal_strlit("sell");
    reveal_strlit("buy");
    reveal_strlit("usei");
    assert("all"@.len() != "sell"@.len());
    assert("all"@[0] != "buy"@[0]);
    assert("sell"@.len() != "buy"@.len());
}

fn kind_code(trade_type: &str) -> (r: u8)
    ensures
        r == 0 <==> trade_type@ == "all"@,
        r == 1 <==> trade_type@ == "sell"@,
        r == 2 <==> trade_type@ == "buy"@,
        r == 3 <==> !known_kind(trade_type@),
        r < 3 ==> kind_name(r) == trade_type@,
{
    proof {
        lemma_kinds_distinct();
    }
    if crate::text::str_eq(trade_type, "all") {
        0
    } else if crate::text::str_eq(trade_type, "sell") {
        1
    } else if crate::text::str_eq(trade_type, "buy") {
        2
    } else {
        3
    }
}

fn swap_volume_exec(s: &TokenSwap, kind: u8) -> (r: Option<usize>)
    requires
        kind < 3,
    ensures
        match swap_volume(*s, kind_name(kind)) {
            Some(v) => r == Some(v as usize),
            None => r is None,
        },
{
    proof {
        lemma_kinds_distinct();
    }
    if kind == 0 {
        if is_lit(&s.source_token, "usei") {
            parse_usize_exec(s.source_amount.as_str())
        } else if is_lit(&s.target_token, "usei") {
            parse_usize_exec(s.target_amount.as_str())
        } else {
            Some(0)
        }
    } else if kind == 1 {
        parse_usize_exec(s.target_amount.as_str())
    } else {
        parse_usize_exec(s.source_amount.as_str())
    }
}

/// The UTC times and the volumes of `swaps` (volumes 0 for an unknown kind),
/// or `None` where a time does not parse or a volume does not read.
fn swap_stamps(swaps: &Vec<TokenSwap>, kind: u8) -> (r: Option<(Vec<UtcStamp>, Vec<usize>)>)
    requires
        kind < 4,
    ensures
        ({
            let tt = kind_name(kind);
            match r {
                Some((st, v)) => {
                    &&& forall|i: int| 0 <= i < swaps@.len() ==> (#[trigger] rfc3339_utc(swaps@[i].ts@)) is Some
                    &&& kind < 3 ==> forall|i: int|
                        0 <= i < swaps@.len() ==> (#[trigger] swap_volume(swaps@[i], tt)) is Some
                    &&& st@.len() == swaps@.len() && v@.len() == swaps@.len()
                    &&& stamps_valid(st@)
                    &&& forall|i: int| 0 <= i < swaps@.len() ==> (#[trigger] st@[i]) == rfc3339_utc(swaps@[i].ts@)->0
                    &&& kind < 3 ==> forall|i: int|
                        0 <= i < swaps@.len() ==> (#[trigger] v@[i]) == swap_volume(swaps@[i], tt)->0
                },
                None => !(forall|i: int| 0 <= i < swaps@.len() ==> (#[trigger] rfc3339_utc(swaps@[i].ts@)) is Some)
                    || (kind < 3 && !(forall|i: int|
                    0 <= i < swaps@.len() ==> (#[trigger] swap_volume(swaps@[i], tt)) is Some)),
            }
        }),
{
    let ghost tt = kind_name(kind);
    let mut st: Vec<UtcStamp> = Vec::new();
    let mut vols: Vec<usize> = Vec::new();
    let mut i: usize = 0;
    while i < swaps.len()
        invariant
            kind < 4,
            tt == kind_name(kind),
            i <= swaps.len(),
            st@.len() == i,
            vols@.len() == i,
            stamps_valid(st@),
            forall|j: int| 0 <= j < i ==> (#[trigger] rfc3339_utc(swaps@[j].ts@)) is Some,
            kind < 3 ==> forall|j: int| 0 <= j < i ==> (#[trigger] swap_volume(swaps@[j], tt)) is Some,
            forall|j: int| 0 <= j < i ==> (#[trigger] st@[j]) == rfc3339_utc(swaps@[j].ts@)->0,
            kind < 3 ==> forall|j: int| 0 <= j < i ==> #[trigger] vols@[j] == swap_volume(swaps@[j], tt)->0,
        decreases swaps.len() - i,
    {
        let t = match parse_rfc3339(swaps[i].ts.as_str()) {
            Some(t) => t,
            None => {
                return None;
            },
        };
        let v: usize = if kind < 3 {
            match swap_volume_exec(&swaps[i], kind) {
                Some(v) => v,
                None => {
                    return None;
                },
            }
        } else {
            0
        };
        st.push(t);
        vols.push(v);
        i = i + 1;
    }
    Some((st, vols))
}

/// The groups of the times and volumes that [`swap_stamps`] reads are those
/// of the swaps.
proof fn lemma_swap_stamp_groups(st: Seq<UtcStamp>, v: Seq<usize>, swaps: Seq<TokenSwap>, tt: Seq<char>)
    requires
        st.len() == swaps.len(),
        v.len() == swaps.len(),
        forall|i: int| 0 <= i < swaps.len() ==> (#[trigger] st[i]) == rfc3339_utc(swaps[i].ts@)->0,
        forall|i: int| 0 <= i < swaps.len() ==> (#[trigger] v[i]) == swap_volume(swaps[i], tt)->0,
    ensures
        stamp_groups(st, v, 0, false) == swap_groups(swaps, tt, 0),
        stamp_groups(st, v, 1, false) == swap_groups(swaps, tt, 1),
        stamp_groups(st, v, 2, false) == swap_groups(swaps, tt, 2),
{
    assert forall|p: int| 0 <= p <= 2 implies #[trigger] stamp_groups(st, v, p, false) == swap_groups(swaps, tt, p) by {
        assert forall|j: int| 0 <= j < swaps.len() implies stamp_groups(st, v, p, false)[j] == swap_groups(
            swaps,
            tt,
            p,
        )[j] by {
            assert(st[j] == rfc3339_utc(swaps[j].ts@)->0);
            assert(v[j] == swap_volume(swaps[j], tt)->0);
        }
        assert(stamp_groups(st, v, p, false) =~= swap_groups(swaps, tt, p));
    }
    assert(stamp_groups(st, v, 0, false) == swap_groups(swaps, tt, 0));
    assert(stamp_groups(st, v, 1, false) == swap_groups(swaps, tt, 1));
    assert(stamp_groups(st, v, 2, false) == swap_groups(swaps, tt, 2));
}

impl TokenTransaction {
    /// No statistics.
    pub fn new() -> (r: Self)
        ensures
            r.day@.len() == 0,
            r.week@.len() == 0,
            r.month@.len() == 0,
    {
        TokenTransaction { day: Vec::new(), week: Vec::new(), month: Vec::new() }
    }

    /// Adds swaps at the UTC times `stamps` with the volumes `vols` to `day`:
    /// grouped by day, by week (numbered within the calendar year) and by
    /// month, each group's count and volume go under its key where no
    /// statistic for that key is held yet; first the day groups, then the week
    /// groups, then the month groups.
    pub fn add_stamped(&mut self, stamps: &Vec<UtcStamp>, vols: &Vec<usize>)
        requires
            stamps@.len() == vols@.len(),
            stamps_valid(stamps@),
            sums_fit(stamp_groups(stamps@, vols@, 0, false)),
            sums_fit(stamp_groups(stamps@, vols@, 1, false)),
            sums_fit(stamp_groups(stamps@, vols@, 2, false)),
        ensures
            final(self).week@ == old(self).week@,
            final(self).month@ == old(self).month@,
            entries_map(final(self).day@) == absorb(
                absorb(
                    absorb(entries_map(old(self).day@), stamp_groups(stamps@, vols@, 0, false)),
                    stamp_groups(stamps@, vols@, 1, false),
                ),
                stamp_groups(stamps@, vols@, 2, false),
            ),
            kept_in_front(old(self).day@, final(self).day@),
            stamps@.len() == 0 ==> final(self).day@ == old(self).day@,
            keys_distinct(old(self).day@) ==> keys_distinct(final(self).day@),
            forall|k: Seq<char>|
                #[trigger] entries_map(old(self).day@).dom().contains(k) ==> entries_map(
                    final(self).day@,
                ).dom().contains(k) && entries_map(final(self).day@)[k] == entries_map(old(self).day@)[k],
    {
        let ghost m0 = entries_map(self.day@);
        let ghost g0 = stamp_groups(stamps@, vols@, 0, false);
        let ghost g1 = stamp_groups(stamps@, vols@, 1, false);
        let ghost g2 = stamp_groups(stamps@, vols@, 2, false);
        let (dk, wk, mk) = period_keys(stamps, false);
        proof {
            lemma_zipped_keys(dk@, vols@, stamps@, 0, false);
            lemma_zipped_keys(wk@, vols@, stamps@, 1, false);
            lemma_zipped_keys(mk@, vols@, stamps@, 2, false);
            law_absorb_keeps_existing(m0, g0);
            law_absorb_keeps_existing(absorb(m0, g0), g1);
            law_absorb_keeps_existing(absorb(absorb(m0, g0), g1), g2);
        }
        let ghost d0 = self.day@;
        absorb_groups(&mut self.day, &dk, &vols);
        let ghost d1 = self.day@;
        absorb_groups(&mut self.day, &wk, &vols);
        let ghost d2 = self.day@;
        absorb_groups(&mut self.day, &mk, &vols);
        proof {
            lemma_kept_trans(d0, d1, d2);
            lemma_kept_trans(d0, d2, self.day@);
        }
    }

    /// Groups `transactions` by UTC day, week and month and, for the kinds
    /// `all`, `sell` and `buy`, adds each group's count and volume to `day`
    /// under its key, where no statistic for that key is held yet (see
    /// [`TokenTransaction::add_stamped`]). Another kind changes nothing.
    pub fn add_data(&mut self, transactions: Vec<TokenSwap>, trade_type: &str)
        requires
            swaps_addable(transactions@, trade_type@),
        ensures
            final(self).week@ == old(self).week@,
            final(self).month@ == old(self).month@,
            known_kind(trade_type@) ==> entries_map(final(self).day@) == swap_stats(
                entries_map(old(self).day@),
                transactions@,
                trade_type@,
            ),
            !known_kind(trade_type@) ==> final(self).day@ == old(self).day@,
            kept_in_front(old(self).day@, final(self).day@),
            transactions@.len() == 0 ==> final(self).day@ == old(self).day@,
            keys_distinct(old(self).day@) ==> keys_distinct(final(self).day@),
            forall|k: Seq<char>|
                #[trigger] entries_map(old(self).day@).dom().contains(k) ==> entries_map(
                    final(self).day@,
                ).dom().contains(k) && entries_map(final(self).day@)[k] == entries_map(old(self).day@)[k],
    {
        proof {
            let d0 = self.day@;
            assert(d0.take(d0.len() as int) =~= d0);
        }
        let kind = kind_code(trade_type);
        if kind < 3 {
            match swap_stamps(&transactions, kind) {
                Some((st, vols)) => {
                    proof {
                        lemma_swap_stamp_groups(st@, vols@, transactions@, trade_type@);
                    }
                    self.add_stamped(&st, &vols);
                },
                None => {},
            }
        }
    }

    /// [`TokenTransaction::add_data`] where the swaps can be added; otherwise
    /// nothing changes and the result is `false`.
    pub fn try_add_data(&mut self, transactions: Vec<TokenSwap>, trade_type: &str) -> (r: bool)
        ensures
            r == swaps_addable(transactions@, trade_type@),
            final(self).week@ == old(self).week@,
            final(self).month@ == old(self).month@,
            r && known_kind(trade_type@) ==> entries_map(final(self).day@) == swap_stats(
                entries_map(old(self).day@),
                transactions@,
                trade_type@,
            ),
            !(r && known_kind(trade_type@)) ==> final(self).day@ == old(self).day@,
            kept_in_front(old(self).day@, final(self).day@),
            transactions@.len() == 0 ==> final(self).day@ == old(self).day@,
            keys_distinct(old(self).day@) ==> keys_distinct(final(self).day@),
            forall|k: Seq<char>|
                #[trigger] entries_map(old(self).day@).dom().contains(k) ==> entries_map(
                    final(self).day@,
                ).dom().contains(k) && entries_map(final(self).day@)[k] == entries_map(old(self).day@)[k],
    {
        proof {
            assert(old(self).day@.take(old(self).day@.len() as int) =~= old(self).day@);
        }
        let kind = kind_code(trade_type);
        match swap_stamps(&transactions, kind) {
            Some((st, vols)) => {
                if kind < 3 {
                    let (dk, wk, mk) = period_keys(&st, false);
                    proof {
                        lemma_swap_stamp_groups(st@, vols@, transactions@, trade_type@);
                        lemma_zipped_keys(dk@, vols@, st@, 0, false);
                        lemma_zipped_keys(wk@, vols@, st@, 1, false);
                        lemma_zipped_keys(mk@, vols@, st@, 2, false);
                    }
                    if !(sums_fit_exec(&dk, &vols) && sums_fit_exec(&wk, &vols) && sums_fit_exec(&mk, &vols)) {
                        return false;
                    }
                }
                self.add_data(transactions, trade_type);
                true
            },
            None => false,
        }
    }
}

/// Statistics of all of a wallet's swaps, of its sales and of its purchases.
#[derive(Debug)]
pub struct TokenTradeInfo {
    pub all: TokenTransaction,
    pub sell: TokenTransaction,
    pub buy: TokenTransaction,
}

/// A purchase: a swap that pays in `usei`.
pub open spec fn is_buy_swap(s: TokenSwap) -> bool {
    s.source_token@ == "usei"@
}

/// A sale: a swap that does not pay in `usei` but is paid in it.
pub open spec fn is_sell_swap(s: TokenSwap) -> bool {
    s.source_token@ != "usei"@ && s.target_token@ == "usei"@
}

/// The statistics of a wallet's swaps can be made.
pub open spec fn trade_info_ok(swaps: Seq<TokenSwap>) -> bool {
    &&& swaps_addable(swaps, "all"@)
    &&& swaps_addable(swaps.filter(|s: TokenSwap| is_buy_swap(s)), "buy"@)
    &&& swaps_addable(swaps.filter(|s: TokenSwap| is_sell_swap(s)), "sell"@)
}

fn split_swaps(transactions: &Vec<TokenSwap>) -> (r: (Vec<TokenSwap>, Vec<TokenSwap>, Vec<TokenSwap>))
    ensures
        r.0@ == transactions@,
        r.1@ == transactions@.filter(|s: TokenSwap| is_buy_swap(s)),
        r.2@ == transactions@.filter(|s: TokenSwap| is_sell_swap(s)),
{
    let mut all: Vec<TokenSwap> = Vec::new();
    let mut buys: Vec<TokenSwap> = Vec::new();
    let mut sells: Vec<TokenSwap> = Vec::new();
    let mut i: usize = 0;
    while i < transactions.len()
        invariant
            i <= transactions.len(),
            all@ == transactions@.take(i as int),
            buys@ == transactions@.take(i as int).filter(|s: TokenSwap| is_buy_swap(s)),
            sells@ == transactions@.take(i as int).filter(|s: TokenSwap| is_sell_swap(s)),
        decreases transactions.len() - i,
    {
        let t = &transactions[i];
        proof {
            reveal(Seq::filter);
            assert(transactions@.take(i + 1).drop_last() =~= transactions@.take(i as int));
            assert(transactions@.take(i + 1).last() == *t);
        }
        all.push(t.clone());
        if is_lit(&t.source_token, "usei") {
            buys.push(t.clone());
        } else if is_lit(&t.target_token, "usei") {
            sells.push(t.clone());
        }
        proof {
            assert(all@ =~= transactions@.take(i + 1));
        }
        i = i + 1;
    }
    proof {
        assert(transactions@.take(transactions.len() as int) =~= transactions@);
    }
    (all, buys, sells)
}

/// The trading statistics of a wallet's swaps: of all swaps, of its sales
/// (paid in `usei`) and of its purchases (paying in `usei`).
pub fn trade_info_tokens(transactions: Vec<TokenSwap>) -> (r: TokenTradeInfo)
    requires
        trade_info_ok(transactions@),
    ensures
        entries_map(r.all.day@) == swap_stats(Map::empty(), transactions@, "all"@),
        entries_map(r.buy.day@) == swap_stats(
            Map::empty(),
            transactions@.filter(|s: TokenSwap| is_buy_swap(s)),
            "buy"@,
        ),
        entries_map(r.sell.day@) == swap_stats(
            Map::empty(),
            transactions@.filter(|s: TokenSwap| is_sell_swap(s)),
            "sell"@,
        ),
        r.all.week@.len() == 0 && r.all.month@.len() == 0,
        r.buy.week@.len() == 0 && r.buy.month@.len() == 0,
        r.sell.week@.len() == 0 && r.sell.month@.len() == 0,
{
    let (all, buys, sells) = split_swaps(&transactions);
    let mut all_stats = TokenTransaction::new();
    let mut sell_stats = TokenTransaction::new();
    let mut buy_stats = TokenTransaction::new();
    proof {
        reveal_strlit("all");
        reveal_strlit("sell");
        reveal_strlit("buy");
        assert(entries_map(all_stats.day@) =~= Map::empty());
        assert(entries_map(buy_stats.day@) =~= Map::empty());
        assert(entries_map(sell_stats.day@) =~= Map::empty());
    }
    all_stats.add_data(all, "all");
    buy_stats.add_data(buys, "buy");
    sell_stats.add_data(sells, "sell");
    TokenTradeInfo { all: all_stats, sell: sell_stats, buy: buy_stats }
}

/// [`trade_info_tokens`] where the statistics can be made, `None` otherwise.
pub fn try_trade_info_tokens(transactions: Vec<TokenSwap>) -> (r: Option<TokenTradeInfo>)
    ensures
        r is Some <==> trade_info_ok(transactions@),
        r matches Some(info) ==> {
            &&& entries_map(info.all.day@) == swap_stats(Map::empty(), transactions@, "all"@)
            &&& entries_map(info.buy.day@) == swap_stats(
                Map::empty(),
                transactions@.filter(|s: TokenSwap| is_buy_swap(s)),
                "buy"@,
            )
            &&& entries_map(info.sell.day@) == swap_stats(
                Map::empty(),
                transactions@.filter(|s: TokenSwap| is_sell_swap(s)),
                "sell"@,
            )
        },
{
    let (all, buys, sells) = split_swaps(&transactions);
    let mut probe = TokenTransaction::new();
    if !probe.try_add_data(all, "all") {
        return None;
    }
    let mut probe = TokenTransaction::new();
    if !probe.try_add_data(buys, "buy") {
        return None;
    }
    let mut probe = TokenTransaction::new();
    if !probe.try_add_data(sells, "sell") {
        return None;
    }
    Some(trade_info_tokens(transactions))
}

} // verus!

verus! {

/// Adding the same groups a second time changes nothing: every key they
/// bring is already held after the first time, with the statistic it got.
pub proof fn law_absorb_idempotent(m: Map<Seq<char>, StatView>, g: Groups)
    ensures
        absorb(absorb(m, g), g) == absorb(m, g),
{
    let a = absorb(m, g);
    assert forall|k: Seq<char>| #[trigger] absorb(a, g).dom().contains(k) implies a.dom().contains(k) by {
        if !a.dom().contains(k) {
            let j = choose|j: int| 0 <= j < g.len() && #[trigger] g[j].0 == k;
            assert(a.dom().contains(g[j].0));
        }
    }
    assert(absorb(a, g) =~= a);
}

/// Adding trades to NFT trade statistics a second time changes nothing.
pub proof fn law_trade_stats_idempotent(m: Map<Seq<char>, StatView>, trades: Seq<_trade>, p: int)
    ensures
        absorb(absorb(m, trade_groups(trades, p)), trade_groups(trades, p)) == absorb(
            m,
            trade_groups(trades, p),
        ),
{
    law_absorb_idempotent(m, trade_groups(trades, p));
}

} // verus!

verus! {

/// The keys of `g`, each once, in the order they first occur.
pub open spec fn group_keys(g: Groups) -> Seq<Seq<char>>
    decreases g.len(),
{
    if g.len() == 0 {
        Seq::empty()
    } else {
        let p = group_keys(g.drop_last());
        if p.contains(g.last().0) {
            p
        } else {
            p.push(g.last().0)
        }
    }
}

/// The counts of the groups of `g` with the keys `keys`, added up.
pub open spec fn counts_total(g: Groups, keys: Seq<Seq<char>>) -> nat
    decreases keys.len(),
{
    if keys.len() == 0 {
        0
    } else {
        counts_total(g, keys.drop_last()) + group_count(g, keys.last())
    }
}

/// How many times `k` occurs in `keys`.
spec fn occurrences(keys: Seq<Seq<char>>, k: Seq<char>) -> nat
    decreases keys.len(),
{
    if keys.len() == 0 {
        0
    } else {
        occurrences(keys.drop_last(), k) + if keys.last() == k {
            1nat
        } else {
            0nat
        }
    }
}

proof fn lemma_group_keys(g: Groups)
    ensures
        forall|k: Seq<char>| group_keys(g).contains(k) <==> exists|j: int| 0 <= j < g.len() && #[trigger] g[j].0 == k,
        forall|k: Seq<char>| #[trigger] occurrences(group_keys(g), k) == if group_keys(g).contains(k) {
            1nat
        } else {
            0nat
        },
    decreases g.len(),
{
    if g.len() > 0 {
        let d = g.drop_last();
        lemma_group_keys(d);
        let p = group_keys(d);
        assert forall|k: Seq<char>| group_keys(g).contains(k) <==> exists|j: int| 0 <= j < g.len() && #[trigger] g[j].0 == k by {
            if group_keys(g).contains(k) {
                if p.contains(k) {
                    let j = choose|j: int| 0 <= j < d.len() && #[trigger] d[j].0 == k;
                    assert(g[j].0 == k);
                } else {
                    assert(g[g.len() - 1].0 == k);
                }
            }
            if exists|j: int| 0 <= j < g.len() && #[trigger] g[j].0 == k {
                let j = choose|j: int| 0 <= j < g.len() && #[trigger] g[j].0 == k;
                if j < g.len() - 1 {
                    assert(d[j].0 == k);
                    assert(p.contains(k));
                    if !p.contains(g.last().0) {
                        assert(p.push(g.last().0).contains(k)) by {
                            let i = choose|i: int| 0 <= i < p.len() && p[i] == k;
                            assert(p.push(g.last().0)[i] == k);
                        }
                    }
                } else {
                    if !p.contains(g.last().0) {
                        assert(p.push(g.last().0)[p.len() as int] == k);
                    }
                }
            }
        }
        assert forall|k: Seq<char>| #[trigger] occurrences(group_keys(g), k) == if group_keys(g).contains(k) {
            1nat
        } else {
            0nat
        } by {
            assert(occurrences(p, k) == if p.contains(k) {
                1nat
            } else {
                0nat
            });
            if p.contains(g.last().0) {
                assert(group_keys(g) == p);
            } else {
                let q = p.push(g.last().0);
                assert(group_keys(g) == q);
                assert(q.drop_last() =~= p);
                assert(occurrences(q, k) == occurrences(p, k) + if q.last() == k {
                    1nat
                } else {
                    0nat
                });
                if k == g.last().0 {
                    assert(q[p.len() as int] == k);
                } else if q.contains(k) {
                    let i = choose|i: int| 0 <= i < q.len() && q[i] == k;
                    assert(p[i] == k);
                } else if p.contains(k) {
                    let i = choose|i: int| 0 <= i < p.len() && p[i] == k;
                    assert(q[i] == k);
                }
            }
        }
    }
}

proof fn lemma_counts_step(g: Groups, keys: Seq<Seq<char>>)
    requires
        g.len() > 0,
    ensures
        counts_total(g, keys) == counts_total(g.drop_last(), keys) + occurrences(keys, g.last().0),
    decreases keys.len(),
{
    if keys.len() > 0 {
        lemma_counts_step(g, keys.drop_last());
    }
}

proof fn lemma_count_absent(g: Groups, k: Seq<char>)
    requires
        forall|j: int| 0 <= j < g.len() ==> (#[trigger] g[j]).0 != k,
    ensures
        group_count(g, k) == 0,
    decreases g.len(),
{
    if g.len() > 0 {
        let d = g.drop_last();
        assert forall|j: int| 0 <= j < d.len() implies (#[trigger] d[j]).0 != k by {
            assert(d[j] == g[j]);
        }
        lemma_count_absent(d, k);
        assert(g[g.len() - 1].0 != k);
    }
}

/// Every trade is counted in exactly one group: the statistics made from no
/// statistics hold one entry for each key that occurs, and their counts add
/// up to the number of trades.
pub proof fn law_every_trade_counted_once(g: Groups)
    ensures
        absorb(Map::empty(), g).dom() == group_keys(g).to_set(),
        counts_total(g, group_keys(g)) == g.len(),
    decreases g.len(),
{
    lemma_group_keys(g);
    assert(absorb(Map::empty(), g).dom() =~= group_keys(g).to_set());
    if g.len() > 0 {
        let d = g.drop_last();
        let k = g.last().0;
        law_every_trade_counted_once(d);
        lemma_group_keys(d);
        let p = group_keys(d);
        lemma_counts_step(g, p);
        if p.contains(k) {
            assert(occurrences(p, k) == 1);
        } else {
            assert(occurrences(p, k) == 0);
            assert(group_keys(g) == p.push(k));
            assert(p.push(k).drop_last() =~= p);
            assert forall|j: int| 0 <= j < d.len() implies (#[trigger] d[j]).0 != k by {
                if d[j].0 == k {
                    assert(p.contains(k));
                }
            }
            lemma_count_absent(d, k);
            assert(group_count(g, k) == 1);
        }
    }
}

/// A list that starts with `u`, extended, still starts with `u`.
proof fn lemma_kept_trans(u: Seq<(String, _Transaction)>, v: Seq<(String, _Transaction)>, w: Seq<(String, _Transaction)>)
    requires
        kept_in_front(u, v),
        kept_in_front(v, w),
    ensures
        kept_in_front(u, w),
{
    assert(w.take(u.len() as int) =~= w.take(v.len() as int).take(u.len() as int));
}

/// Adding groups never changes a statistic that is already held, and never
/// removes one.
pub proof fn law_absorb_keeps_existing(m: Map<Seq<char>, StatView>, g: Groups)
    ensures
        forall|k: Seq<char>| #[trigger] m.dom().contains(k) ==> absorb(m, g).dom().contains(k) && absorb(m, g)[k] == m[k],
        g.len() == 0 ==> absorb(m, g) == m,
{
    assert(g.len() == 0 ==> absorb(m, g) =~= m);
}

/// Adding swaps to swap statistics never overwrites, merges or removes a
/// statistic already held, and adding no swaps changes nothing.
pub proof fn law_token_stats_keep_existing(m: Map<Seq<char>, StatView>, swaps: Seq<TokenSwap>, trade_type: Seq<char>)
    ensures
        forall|k: Seq<char>|
            #[trigger] m.dom().contains(k) ==> swap_stats(m, swaps, trade_type).dom().contains(k) && swap_stats(
                m,
                swaps,
                trade_type,
            )[k] == m[k],
        swaps.len() == 0 ==> swap_stats(m, swaps, trade_type) == m,
{
    let g0 = swap_groups(swaps, trade_type, 0);
    let g1 = swap_groups(swaps, trade_type, 1);
    let g2 = swap_groups(swaps, trade_type, 2);
    law_absorb_keeps_existing(m, g0);
    law_absorb_keeps_existing(absorb(m, g0), g1);
    law_absorb_keeps_existing(absorb(absorb(m, g0), g1), g2);
}

} // verus!
