use sei_nova::token_swap::swap_logs_readable;
use sei_nova::model::{Attribute, Event, Fee, HashData, Log, Tx, TxAuthInfo, TxResponse};
use sei_nova::token_swap::{height_token_swap, normal_token_swap, swap_datas};

fn s(x: &str) -> String {
    x.to_string()
}

fn attrs(kv: &[(&str, &str)]) -> Vec<Attribute> {
    kv.iter().map(|(k, v)| Attribute { key: s(k), value: s(v) }).collect()
}

fn one_step() -> Vec<Attribute> {
    attrs(&[
        ("action", "swap"),
        ("sender", "w"),
        ("receiver", "w"),
        ("offer_asset", "usei"),
        ("ask_asset", "factory/sei1x/coin"),
        ("offer_amount", "1000"),
        ("return_amount", "55"),
    ])
}

fn two_steps() -> Vec<Attribute> {
    attrs(&[
        ("action", "swap"),
        ("a", "x"),
        ("b", "x"),
        ("offer_asset", "usei"),
        ("ask_asset", "mid"),
        ("offer_amount", "1000"),
        ("return_amount", "70"),
        ("action", "swap"),
        ("a", "x"),
        ("b", "x"),
        ("offer_asset", "mid"),
        ("ask_asset", "tok"),
        ("offer_amount", "70"),
        ("return_amount", "9"),
    ])
}

#[test]
fn single_step_swap_reads_both_sides() {
    let r = normal_token_swap(one_step(), s("TX"), s("TS"), s("w"));
    assert_eq!(r.source_token, "usei");
    assert_eq!(r.source_amount, "1000");
    assert_eq!(r.target_token, "factory/sei1x/coin");
    assert_eq!(r.target_amount, "55");
    assert_eq!(r.trade_type, "token_swap");
    assert_eq!(r.account, "w");
    assert_eq!(r.tx, "TX");
    assert_eq!(r.ts, "TS");
}

#[test]
fn routed_swap_takes_first_input_and_last_output() {
    let r = height_token_swap(two_steps(), s("TX"), s("TS"), s("w"));
    assert_eq!(r.source_token, "usei");
    assert_eq!(r.source_amount, "1000");
    assert_eq!(r.target_token, "tok");
    assert_eq!(r.target_amount, "9");
}

fn event(t: &str, a: Vec<Attribute>) -> Event {
    Event { attributes: a, _type: s(t) }
}

#[test]
fn swaps_of_a_transaction_come_from_logs_with_wasm_events() {
    let logs = vec![
        Log { events: vec![event("message", attrs(&[("action", "exec"), ("sender", "sei1w")])), event("wasm", one_step())] },
        Log { events: vec![event("message", attrs(&[("sender", "sei1v")])), event("transfer", vec![])] },
        Log { events: vec![event("message", attrs(&[("sender", "sei1u")])), event("wasm", two_steps())] },
    ];
    let h = HashData {
        tx: Tx { auth_info: TxAuthInfo { fee: Fee { amount: vec![], gas_limit: s("0"), granter: s(""), payer: s("") } } },
        tx_response: TxResponse {
            code: 0,
            gas_used: s("0"),
            gas_wanted: s("0"),
            logs,
            timestamp: s("2024-01-01T00:00:00Z"),
            txhash: s("H"),
        },
    };
    let r = swap_datas(h);
    assert_eq!(r.len(), 2);
    assert_eq!(r[0].account, "sei1w");
    assert_eq!(r[0].target_amount, "55");
    assert_eq!(r[1].account, "sei1u");
    assert_eq!(r[1].target_token, "tok");
    assert_eq!(r[1].tx, "H");
    assert_eq!(r[1].ts, "2024-01-01T00:00:00Z");
}

#[test]
fn swap_logs_need_a_sender_and_complete_steps() {
    let ok = vec![Log { events: vec![event("message", attrs(&[("sender", "w")])), event("wasm", one_step())] }];
    assert!(swap_logs_readable(&ok));
    let no_sender = vec![Log { events: vec![event("wasm", one_step())] }];
    assert!(!swap_logs_readable(&no_sender));
    let short = vec![Log { events: vec![event("message", attrs(&[("sender", "w")])), event("wasm", attrs(&[("action", "swap")]))] }];
    assert!(!swap_logs_readable(&short));
    let no_wasm = vec![Log { events: vec![event("message", attrs(&[("sender", "w")]))] }];
    assert!(swap_logs_readable(&no_wasm));
}
