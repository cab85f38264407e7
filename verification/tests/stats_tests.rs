use sei_nova::model::TokenSwap;
use sei_nova::time::UtcStamp;
use sei_nova::stats::{
    trade_info_tokens, try_trade_info_tokens, TokenTransaction, Transactions, _Transaction, _trade,
};

fn trade(price: &str, ts: &str) -> _trade {
    _trade { sale_price: price.to_string(), ts: ts.to_string() }
}

fn swap(source: &str, target: &str, source_amount: &str, target_amount: &str, ts: &str) -> TokenSwap {
    TokenSwap {
        account: "sei1wallet".to_string(),
        source_token: source.to_string(),
        target_token: target.to_string(),
        source_amount: source_amount.to_string(),
        target_amount: target_amount.to_string(),
        trade_type: "token_swap".to_string(),
        ts: ts.to_string(),
        tx: "HASH".to_string(),
    }
}

fn get<'a>(v: &'a Vec<(String, _Transaction)>, k: &str) -> Option<(usize, &'a str)> {
    v.iter().rev().find(|(kk, _)| kk == k).map(|(_, t)| (t.transaction_amount, t.total_volume.as_str()))
}

#[test]
fn nft_trades_grouped_by_day_week_and_month() {
    let mut t = Transactions::new();
    t.add_data(vec![
        trade("100usei", "2024-01-05T10:00:00Z"),
        trade("250usei", "2024-01-05T23:59:59Z"),
        trade("7usei", "2024-01-08T00:00:00Z"),
    ]);
    assert_eq!(get(&t.day, "2024-01-05"), Some((2, "350usei")));
    assert_eq!(get(&t.day, "2024-01-08"), Some((1, "7usei")));
    assert_eq!(t.day.len(), 2);
    assert_eq!(get(&t.week, "2024-1"), Some((2, "350usei")));
    assert_eq!(get(&t.week, "2024-2"), Some((1, "7usei")));
    assert_eq!(get(&t.month, "2024-1"), Some((3, "357usei")));
    assert_eq!(t.month.len(), 1);
}

#[test]
fn nft_trade_days_follow_utc() {
    let mut t = Transactions::new();
    t.add_data(vec![trade("5usei", "2024-03-01T01:00:00+02:00")]);
    assert_eq!(get(&t.day, "2024-02-29"), Some((1, "5usei")));
    assert_eq!(get(&t.month, "2024-2"), Some((1, "5usei")));
}

#[test]
fn nft_trade_weeks_use_the_iso_year() {
    let mut t = Transactions::new();
    t.add_data(vec![trade("1usei", "2021-01-01T12:00:00Z")]);
    assert_eq!(get(&t.week, "2020-53"), Some((1, "1usei")));
    assert_eq!(get(&t.month, "2021-1"), Some((1, "1usei")));
}

#[test]
fn existing_statistics_are_kept() {
    let mut t = Transactions::new();
    t.add_data(vec![trade("100usei", "2024-01-05T10:00:00Z")]);
    t.add_data(vec![trade("900usei", "2024-01-05T11:00:00Z"), trade("1usei", "2024-01-06T11:00:00Z")]);
    assert_eq!(get(&t.day, "2024-01-05"), Some((1, "100usei")));
    assert_eq!(get(&t.day, "2024-01-06"), Some((1, "1usei")));
}

#[test]
fn adding_the_same_trades_twice_changes_nothing() {
    let trades = || vec![trade("100usei", "2024-01-05T10:00:00Z"), trade("3usei", "2024-02-05T10:00:00Z")];
    let mut once = Transactions::new();
    once.add_data(trades());
    let mut twice = Transactions::new();
    twice.add_data(trades());
    twice.add_data(trades());
    for k in ["2024-01-05", "2024-02-05"] {
        assert_eq!(get(&once.day, k), get(&twice.day, k));
    }
    for k in ["2024-1", "2024-2", "2024-5", "2024-6"] {
        assert_eq!(get(&once.week, k), get(&twice.week, k));
        assert_eq!(get(&once.month, k), get(&twice.month, k));
    }
}

#[test]
fn unreadable_trades_are_refused() {
    let mut t = Transactions::new();
    assert!(!t.try_add_data(vec![trade("100usei", "yesterday")]));
    assert!(t.day.is_empty() && t.week.is_empty() && t.month.is_empty());
    assert!(!t.try_add_data(vec![trade("12x4usei", "2024-01-05T10:00:00Z")]));
    assert!(!t.try_add_data(vec![trade("usei", "2024-01-05T10:00:00Z")]));
    assert!(t.try_add_data(vec![trade("0usei", "2024-01-05T10:00:00Z")]));
    assert_eq!(get(&t.day, "2024-01-05"), Some((1, "0usei")));
}

#[test]
fn overflowing_volume_is_refused() {
    let big = format!("{}usei", usize::MAX);
    let mut t = Transactions::new();
    assert!(!t.try_add_data(vec![trade(&big, "2024-01-05T10:00:00Z"), trade("1usei", "2024-01-05T11:00:00Z")]));
    assert!(t.try_add_data(vec![trade(&big, "2024-01-05T10:00:00Z")]));
}

#[test]
fn token_statistics_all_go_to_day() {
    let mut t = TokenTransaction::new();
    t.add_data(
        vec![
            swap("usei", "factory/a/b", "100", "5", "2024-01-05T10:00:00Z"),
            swap("factory/a/b", "usei", "7", "50", "2024-01-29T10:00:00Z"),
        ],
        "all",
    );
    assert!(t.week.is_empty() && t.month.is_empty());
    assert_eq!(get(&t.day, "2024-01-05"), Some((1, "100usei")));
    assert_eq!(get(&t.day, "2024-01-29"), Some((1, "50usei")));
    // The week of the first swap and the month of both share the key
    // `2024-1`; the week statistic came first and stays.
    assert_eq!(get(&t.day, "2024-1"), Some((1, "100usei")));
    assert_eq!(get(&t.day, "2024-5"), Some((1, "50usei")));
    assert_eq!(t.day.len(), 4);
}

#[test]
fn token_weeks_use_the_calendar_year() {
    let mut t = TokenTransaction::new();
    t.add_data(vec![swap("usei", "x", "9", "1", "2021-01-01T12:00:00Z")], "buy");
    assert_eq!(get(&t.day, "2021-53"), Some((1, "9usei")));
    assert_eq!(get(&t.day, "2021-01-01"), Some((1, "9usei")));
}

#[test]
fn token_statistics_volume_by_kind() {
    let s = || vec![swap("uatom", "uosmo", "3", "4", "2024-01-05T10:00:00Z")];
    let mut all = TokenTransaction::new();
    all.add_data(s(), "all");
    assert_eq!(get(&all.day, "2024-01-05"), Some((1, "0usei")));
    let mut sell = TokenTransaction::new();
    sell.add_data(s(), "sell");
    assert_eq!(get(&sell.day, "2024-01-05"), Some((1, "4usei")));
    let mut buy = TokenTransaction::new();
    buy.add_data(s(), "buy");
    assert_eq!(get(&buy.day, "2024-01-05"), Some((1, "3usei")));
    let mut other = TokenTransaction::new();
    other.add_data(s(), "swap");
    assert!(other.day.is_empty());
}

#[test]
fn token_statistics_refuse_unreadable_amounts() {
    let mut t = TokenTransaction::new();
    assert!(!t.try_add_data(vec![swap("usei", "x", "1.5", "1", "2024-01-05T10:00:00Z")], "all"));
    assert!(t.day.is_empty());
    assert!(t.try_add_data(vec![swap("usei", "x", "1.5", "1", "2024-01-05T10:00:00Z")], "sell"));
    assert!(!t.try_add_data(vec![swap("usei", "x", "1", "1", "not a time")], "other"));
}

#[test]
fn token_trade_info_splits_purchases_and_sales() {
    let swaps = vec![
        swap("usei", "tok", "100", "5", "2024-01-05T10:00:00Z"),
        swap("tok", "usei", "2", "40", "2024-01-05T12:00:00Z"),
        swap("tok", "other", "2", "40", "2024-01-06T12:00:00Z"),
    ];
    let info = trade_info_tokens(swaps);
    assert_eq!(get(&info.all.day, "2024-01-05"), Some((2, "140usei")));
    assert_eq!(get(&info.all.day, "2024-01-06"), Some((1, "0usei")));
    assert_eq!(get(&info.buy.day, "2024-01-05"), Some((1, "100usei")));
    assert_eq!(get(&info.buy.day, "2024-01-06"), None);
    assert_eq!(get(&info.sell.day, "2024-01-05"), Some((1, "40usei")));
    assert!(try_trade_info_tokens(vec![swap("usei", "tok", "x", "5", "2024-01-05T10:00:00Z")]).is_none());
}

#[test]
fn day_counts_add_up_to_the_number_of_trades() {
    let mut t = Transactions::new();
    t.add_data(vec![
        trade("1usei", "2024-01-05T10:00:00Z"),
        trade("2usei", "2024-01-06T10:00:00Z"),
        trade("3usei", "2024-01-05T11:00:00Z"),
        trade("4usei", "2024-02-01T00:00:00Z"),
    ]);
    let total: usize = t.day.iter().map(|(_, s)| s.transaction_amount).sum();
    assert_eq!(total, 4);
    assert_eq!(t.day.len(), 3);
    let months: usize = t.month.iter().map(|(_, s)| s.transaction_amount).sum();
    assert_eq!(months, 4);
}

fn snapshot(v: &Vec<(String, _Transaction)>) -> Vec<(String, usize, String)> {
    v.iter().map(|(k, t)| (k.clone(), t.transaction_amount, t.total_volume.clone())).collect()
}

fn keys_are_distinct(v: &Vec<(String, _Transaction)>) -> bool {
    v.iter().enumerate().all(|(i, (k, _))| v.iter().skip(i + 1).all(|(kk, _)| kk != k))
}

fn prefilled_token_stats() -> TokenTransaction {
    let mut t = TokenTransaction::new();
    t.day.push(("2024-01-05".to_string(), _Transaction { transaction_amount: 9, total_volume: "1usei".to_string() }));
    t.day.push(("2024-1".to_string(), _Transaction { transaction_amount: 4, total_volume: "2usei".to_string() }));
    t
}

#[test]
fn token_statistics_never_overwrite_an_existing_entry() {
    let mut t = prefilled_token_stats();
    let before = snapshot(&t.day);
    t.add_data(
        vec![
            swap("usei", "x", "100", "5", "2024-01-05T10:00:00Z"),
            swap("usei", "x", "30", "5", "2024-02-10T10:00:00Z"),
        ],
        "all",
    );
    let after = snapshot(&t.day);
    assert_eq!(&after[..before.len()], &before[..]);
    assert_eq!(get(&t.day, "2024-01-05"), Some((9, "1usei")));
    assert_eq!(get(&t.day, "2024-1"), Some((4, "2usei")));
    assert_eq!(get(&t.day, "2024-02-10"), Some((1, "30usei")));
    assert_eq!(get(&t.day, "2024-6"), Some((1, "30usei")));
    assert_eq!(get(&t.day, "2024-2"), Some((1, "30usei")));
    assert_eq!(t.day.len(), 5);
    assert!(keys_are_distinct(&t.day));
    assert!(t.week.is_empty() && t.month.is_empty());
}

#[test]
fn token_statistics_unchanged_by_no_swaps_or_an_unknown_kind() {
    let mut t = prefilled_token_stats();
    let before = snapshot(&t.day);
    t.add_data(vec![], "all");
    assert_eq!(snapshot(&t.day), before);
    t.add_data(vec![swap("usei", "x", "100", "5", "2024-03-05T10:00:00Z")], "swap");
    assert_eq!(snapshot(&t.day), before);
    assert!(t.try_add_data(vec![], "buy"));
    assert_eq!(snapshot(&t.day), before);
    assert!(t.try_add_data(vec![swap("usei", "x", "1", "5", "2024-03-05T10:00:00Z")], ""));
    assert_eq!(snapshot(&t.day), before);
    assert!(t.week.is_empty() && t.month.is_empty());
}

#[test]
fn token_statistics_keys_stay_distinct_over_many_additions() {
    let mut t = TokenTransaction::new();
    for kind in ["all", "sell", "buy", "all"] {
        t.add_data(
            vec![
                swap("usei", "x", "3", "4", "2024-01-05T10:00:00Z"),
                swap("x", "usei", "5", "6", "2024-01-06T10:00:00Z"),
            ],
            kind,
        );
        assert!(keys_are_distinct(&t.day));
    }
    // Day keys for the two days, and `2024-1` for both the week and the month.
    assert_eq!(t.day.len(), 3);
    assert_eq!(get(&t.day, "2024-01-05"), Some((1, "3usei")));
}

#[test]
fn nft_statistics_never_overwrite_and_keep_keys_distinct() {
    let mut t = Transactions::new();
    t.add_data(vec![trade("100usei", "2024-01-05T10:00:00Z")]);
    let (d, w, m) = (snapshot(&t.day), snapshot(&t.week), snapshot(&t.month));
    t.add_data(vec![trade("5usei", "2024-01-05T12:00:00Z"), trade("6usei", "2024-02-01T12:00:00Z")]);
    assert_eq!(&snapshot(&t.day)[..d.len()], &d[..]);
    assert_eq!(&snapshot(&t.week)[..w.len()], &w[..]);
    assert_eq!(&snapshot(&t.month)[..m.len()], &m[..]);
    assert!(keys_are_distinct(&t.day) && keys_are_distinct(&t.week) && keys_are_distinct(&t.month));
    t.add_data(vec![]);
    assert_eq!(t.day.len(), 2);
    assert_eq!(get(&t.month, "2024-1"), Some((1, "100usei")));
    assert_eq!(get(&t.month, "2024-2"), Some((1, "6usei")));
}

fn at(year: i32, month: u32, day: u32, iso_year: i32, iso_week: u32) -> UtcStamp {
    UtcStamp { year, month, day, iso_year, iso_week, days_from_ce: 0, secs: 0, nanos: 0 }
}

#[test]
fn nft_statistics_from_parsed_times() {
    let mut t = Transactions::new();
    t.add_stamped(
        &vec![at(2021, 1, 1, 2020, 53), at(2021, 1, 2, 2020, 53), at(2021, 1, 4, 2021, 1)],
        &vec![5, 7, 9],
    );
    assert_eq!(get(&t.day, "2021-01-01"), Some((1, "5usei")));
    assert_eq!(get(&t.day, "2021-01-02"), Some((1, "7usei")));
    assert_eq!(get(&t.day, "2021-01-04"), Some((1, "9usei")));
    assert_eq!(t.day.len(), 3);
    assert_eq!(get(&t.week, "2020-53"), Some((2, "12usei")));
    assert_eq!(get(&t.week, "2021-1"), Some((1, "9usei")));
    assert_eq!(t.week.len(), 2);
    assert_eq!(get(&t.month, "2021-1"), Some((3, "21usei")));
    assert_eq!(t.month.len(), 1);
    t.add_stamped(&vec![at(2021, 1, 1, 2020, 53)], &vec![100]);
    assert_eq!(get(&t.day, "2021-01-01"), Some((1, "5usei")));
    assert_eq!(t.day.len(), 3);
    t.add_stamped(&vec![], &vec![]);
    assert_eq!(t.month.len(), 1);
}

#[test]
fn token_statistics_from_parsed_times() {
    let mut t = prefilled_token_stats();
    t.add_stamped(&vec![at(2021, 1, 1, 2020, 53), at(2024, 1, 5, 2024, 1)], &vec![4, 6]);
    assert!(t.week.is_empty() && t.month.is_empty());
    assert_eq!(get(&t.day, "2024-01-05"), Some((9, "1usei")));
    assert_eq!(get(&t.day, "2024-1"), Some((4, "2usei")));
    assert_eq!(get(&t.day, "2021-01-01"), Some((1, "4usei")));
    // The week is numbered within the calendar year.
    assert_eq!(get(&t.day, "2021-53"), Some((1, "4usei")));
    assert_eq!(get(&t.day, "2021-1"), Some((1, "4usei")));
    assert_eq!(t.day.len(), 5);
    assert!(keys_are_distinct(&t.day));
}
