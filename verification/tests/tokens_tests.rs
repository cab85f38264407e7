use sei_nova::model::{TokenSwap, WalletTokenBalance};
use sei_nova::tokens::{
    parse_unrealized_gains, sort_by_gain, token_holding, token_kind_of, top_tokens, ContractTokenInfo,
    RouteQuote, TopToken, UserTokenHolding,
};

fn s(x: &str) -> String {
    x.to_string()
}

fn balance(denom: &str, amount: &str) -> WalletTokenBalance {
    WalletTokenBalance { amount: s(amount), denom: s(denom) }
}

fn swap(source: &str, target: &str, source_amount: &str, target_amount: &str) -> TokenSwap {
    TokenSwap {
        account: s("w"),
        source_token: s(source),
        target_token: s(target),
        source_amount: s(source_amount),
        target_amount: s(target_amount),
        trade_type: s("swap"),
        ts: s("2024-01-01T00:00:00Z"),
        tx: s("T"),
    }
}

fn quote(out: &str) -> Option<RouteQuote> {
    Some(RouteQuote { decimals_in: 6, amount_out: s(out) })
}

fn holding(denom: &str, worth: Option<&str>) -> UserTokenHolding {
    UserTokenHolding {
        name: s(denom),
        demon: s(denom),
        decimals: Some(6),
        logo_url: None,
        amount: s("10"),
        worth_usei: worth.map(s),
        buy_price: None,
        token_transactions: vec![],
    }
}

fn top(name: &str, gain: Option<&str>) -> TopToken {
    TopToken {
        name: s(name),
        demon: s(name),
        decimals: None,
        logo_url: None,
        amount: s("1"),
        worth_usei: None,
        unrealized_gains: gain.map(s),
        fluctuation: None,
    }
}

#[test]
fn denominations_are_classified_by_prefix() {
    assert_eq!(token_kind_of(&s("usei")), Some(0));
    assert_eq!(token_kind_of(&s("factory/sei1abc/coin")), Some(1));
    assert_eq!(token_kind_of(&s("ibc/ABCDEF1234")), Some(2));
    assert_eq!(token_kind_of(&s("sei1contractaddress")), Some(3));
    assert_eq!(token_kind_of(&s("abc")), None);
}

#[test]
fn usei_balance_is_worth_itself() {
    let history = Some(vec![
        swap("factory/a/b", "usei", "5", "50"),
        swap("usei", "factory/a/b", "50", "5"),
    ]);
    let h = token_holding(&balance("usei", "1234"), &history, None, None, None).unwrap();
    assert_eq!(h.name, "usei");
    assert_eq!(h.demon, "usei");
    assert_eq!(h.decimals, Some(6));
    assert_eq!(h.worth_usei, Some(s("1234")));
    assert_eq!(h.amount, "1234");
    assert_eq!(
        h.logo_url,
        Some(s("https://raw.githubusercontent.com/astroport-fi/astroport-token-lists/main/img/sei.png"))
    );
    assert_eq!(h.token_transactions.len(), 1);
    assert_eq!(h.token_transactions[0].target_token, "usei");
}

#[test]
fn factory_token_is_named_after_its_second_slash() {
    let history = Some(vec![
        swap("usei", "factory/sei1abc/coin", "100", "10"),
        swap("usei", "other", "1", "1"),
    ]);
    let h = token_holding(&balance("factory/sei1abc/coin", "10"), &history, quote("120"), None, None).unwrap();
    assert_eq!(h.name, "coin");
    assert_eq!(h.decimals, Some(6));
    assert_eq!(h.worth_usei, Some(s("120")));
    assert_eq!(h.logo_url, None);
    assert_eq!(h.token_transactions.len(), 1);
}

#[test]
fn factory_token_without_route_has_no_worth() {
    let h = token_holding(&balance("factory/sei1abc/coin", "10"), &None, None, None, None).unwrap();
    assert_eq!(h.decimals, None);
    assert_eq!(h.worth_usei, None);
    assert!(h.token_transactions.is_empty());
}

#[test]
fn factory_token_with_one_slash_is_refused() {
    assert!(token_holding(&balance("factory/coin", "10"), &None, None, None, None).is_none());
}

#[test]
fn ibc_token_takes_its_base_denomination() {
    let h = token_holding(&balance("ibc/XYZ", "7"), &None, quote("3"), Some(s("uatom")), None).unwrap();
    assert_eq!(h.name, "uatom");
    assert_eq!(
        h.logo_url,
        Some(s("https://raw.githubusercontent.com/astroport-fi/astroport-token-lists/main/img/atom.svg"))
    );
    assert_eq!(h.worth_usei, Some(s("3")));
    let bare = token_holding(&balance("ibc/XYZ", "7"), &None, None, None, None).unwrap();
    assert_eq!(bare.name, "ibc/XYZ");
    assert_eq!(bare.logo_url, None);
}

#[test]
fn contract_token_uses_its_contract_information() {
    let info = ContractTokenInfo { name: s("Coin"), decimals: 8, logo_url: s("https://logo") };
    let h = token_holding(&balance("sei1contract", "7"), &None, quote("9"), None, Some(info)).unwrap();
    assert_eq!(h.name, "Coin");
    assert_eq!(h.decimals, Some(8));
    assert_eq!(h.logo_url, Some(s("https://logo")));
    assert_eq!(h.worth_usei, Some(s("9")));
}

#[test]
fn balance_that_is_not_a_number_is_refused() {
    assert!(token_holding(&balance("sei1contract", "lots"), &None, None, None, None).is_none());
}

#[test]
fn unrealized_gains_parse_as_signed_numbers() {
    assert_eq!(parse_unrealized_gains(&Some(s("-42"))), Some(-42));
    assert_eq!(parse_unrealized_gains(&Some(s("17"))), Some(17));
    assert_eq!(parse_unrealized_gains(&Some(s("17usei"))), None);
    assert_eq!(parse_unrealized_gains(&None), None);
}

#[test]
fn sorting_by_gain_is_ascending_and_stable() {
    let sorted = sort_by_gain(vec![top("a", Some("5")), top("b", None), top("c", Some("-3")), top("d", Some("0"))]);
    let names: Vec<String> = sorted.iter().map(|t| t.name.clone()).collect();
    assert_eq!(names, vec![s("c"), s("b"), s("d"), s("a")]);
}

#[test]
fn bought_token_gain_is_worth_less_average_price() {
    let holdings = vec![holding("tok", Some("30")), holding("never", Some("8")), holding("dark", None)];
    let swaps = vec![swap("usei", "tok", "100", "10"), swap("usei", "tok", "50", "5")];
    let (gainers, losers, unknown) = top_tokens(&holdings, &swaps).unwrap();
    assert!(losers.is_empty());
    assert_eq!(gainers.len(), 2);
    assert_eq!(gainers[0].name, "never");
    assert_eq!(gainers[0].unrealized_gains, Some(s("8")));
    assert_eq!(gainers[0].fluctuation, None);
    assert_eq!(gainers[1].name, "tok");
    assert_eq!(gainers[1].unrealized_gains, Some(s("20")));
    assert_eq!(gainers[1].fluctuation, Some((20, 10)));
    assert_eq!(unknown.len(), 1);
    assert_eq!(unknown[0].name, "dark");
}

#[test]
fn bought_token_of_unknown_worth_is_left_out() {
    let holdings = vec![holding("tok", None)];
    let swaps = vec![swap("usei", "tok", "100", "10")];
    let (g, l, u) = top_tokens(&holdings, &swaps).unwrap();
    assert!(g.is_empty() && l.is_empty() && u.is_empty());
}

#[test]
fn worth_below_average_price_cannot_be_ranked() {
    let holdings = vec![holding("tok", Some("3"))];
    let swaps = vec![swap("usei", "tok", "100", "10")];
    assert!(top_tokens(&holdings, &swaps).is_none());
}
