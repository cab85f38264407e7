//! Reading token swaps out of the events of a transaction log.
use vstd::prelude::*;
use crate::model::{Attribute, EventView, HashData, Log, TokenSwap, events_view};
use crate::select::{
    any_value, as_ints, has_value, find_type, first_attrs, has_type, key_positions, key_pred,
    lemma_positions, select_attrs, value_positions, value_pred,
};
use crate::text::owned;

verus! {

/// Positions of the `swap` steps of a `wasm` event.
pub open spec fn swap_steps(a: Seq<Attribute>) -> Seq<int> {
    value_positions(a, "swap"@)
}

/// There is a swap step, the first one has five attributes after it and the
/// last one six.
pub open spec fn swap_defined(a: Seq<Attribute>) -> bool {
    &&& swap_steps(a).len() > 0
    &&& swap_steps(a)[0] + 5 < a.len()
    &&& swap_steps(a).last() + 6 < a.len()
}

/// The swap a `wasm` event records: what went in (three and five attributes
/// after the first `swap` step) and what came out (four and six attributes
/// after the last one).
pub open spec fn swap_at(
    a: Seq<Attribute>,
    tx: String,
    ts: String,
    account: String,
    trade_type: String,
) -> TokenSwap {
    let first = swap_steps(a)[0];
    let last = swap_steps(a).last();
    TokenSwap {
        account: account,
        source_token: a[first + 3].value,
        target_token: a[last + 4].value,
        source_amount: a[first + 5].value,
        target_amount: a[last + 6].value,
        trade_type: trade_type,
        tx: tx,
        ts: ts,
    }
}

fn swap_record(attributes: &Vec<Attribute>, tx: String, ts: String, account: String) -> (r: TokenSwap)
    requires
        swap_defined(attributes@),
    ensures
        r == swap_at(attributes@, tx, ts, account, r.trade_type),
        r.trade_type@ == "token_swap"@,
{
    let a = attributes;
    let _alen = a.len();
    let steps = select_attrs(a, 0, "", "swap");
    proof {
        lemma_positions(a@.len(), value_pred(a@, "swap"@));
        assert(as_ints(steps@)[0] == steps@[0] as int);
        assert(as_ints(steps@).last() == steps@.last() as int);
    }
    let first = steps[0];
    let last = steps[steps.len() - 1];
    TokenSwap {
        account: account,
        source_token: a[first + 3].value.clone(),
        target_token: a[last + 4].value.clone(),
        source_amount: a[first + 5].value.clone(),
        target_amount: a[last + 6].value.clone(),
        trade_type: owned("token_swap"),
        tx: tx,
        ts: ts,
    }
}

} // verus!

verus! {

/// The swap that a `wasm` event records (the plain route).
pub fn normal_token_swap(attributes: Vec<Attribute>, tx: String, ts: String, account: String) -> (r:
    TokenSwap)
    requires
        swap_defined(attributes@),
    ensures
        r == swap_at(attributes@, tx, ts, account, r.trade_type),
        r.trade_type@ == "token_swap"@,
{
    swap_record(&attributes, tx, ts, account)
}

/// The swap that a `wasm` event records (the routed, multi-step kind).
pub fn height_token_swap(attributes: Vec<Attribute>, tx: String, ts: String, account: String) -> (r:
    TokenSwap)
    requires
        swap_defined(attributes@),
    ensures
        r == swap_at(attributes@, tx, ts, account, r.trade_type),
        r.trade_type@ == "token_swap"@,
{
    swap_record(&attributes, tx, ts, account)
}

/// The sender named by the first `message` event of a log: the value of its
/// first `sender` attribute.
pub open spec fn sender_of(es: Seq<EventView>) -> Option<String> {
    if has_type(es, "message"@) && key_positions(first_attrs(es, "message"@), "sender"@).len() > 0 {
        Some(first_attrs(es, "message"@)[key_positions(first_attrs(es, "message"@), "sender"@)[0]].value)
    } else {
        None
    }
}

/// Every log names its sender, and the swap of each log with a `wasm` event
/// can be read.
pub open spec fn swaps_defined(logs: Seq<Log>) -> bool {
    forall|i: int|
        0 <= i < logs.len() ==> {
            let es = #[trigger] events_view(logs[i].events@);
            &&& sender_of(es) is Some
            &&& has_type(es, "wasm"@) ==> swap_defined(first_attrs(es, "wasm"@))
        }
}

/// The swaps of a sequence of logs: one per log that has a `wasm` event.
/// `ty` holds the trade type of each.
pub open spec fn swaps_of(logs: Seq<Log>, tx: String, ts: String, ty: Seq<String>) -> Seq<TokenSwap>
    decreases logs.len(),
{
    if logs.len() == 0 {
        Seq::empty()
    } else {
        let es = events_view(logs.last().events@);
        let prev = swaps_of(logs.drop_last(), tx, ts, ty);
        if has_type(es, "wasm"@) {
            prev.push(
                swap_at(first_attrs(es, "wasm"@), tx, ts, sender_of(es)->0, ty[prev.len() as int]),
            )
        } else {
            prev
        }
    }
}

/// The attributes of a `wasm` event name one of the steps of a routed swap.
pub open spec fn routed_swap_attrs(a: Seq<Attribute>) -> bool {
    ||| has_value(a, "execute_swap_and_action"@)
    ||| has_value(a, "dispatch_user_swap"@)
    ||| has_value(a, "dispatch_post_swap_action"@)
    ||| has_value(a, "execute_user_swap"@)
}

/// Whether a `wasm` event belongs to a routed swap.
fn is_height_swap(a: &Vec<Attribute>) -> (r: bool)
    ensures
        r == routed_swap_attrs(a@),
{
    any_value(a, "execute_swap_and_action") || any_value(a, "dispatch_user_swap") || any_value(
        a,
        "dispatch_post_swap_action",
    ) || any_value(a, "execute_user_swap")
}

/// The sender of a log.
fn find_account(events: &Vec<crate::model::Event>) -> (r: Option<String>)
    ensures
        r == sender_of(events_view(events@)),
{
    let ghost es = events_view(events@);
    match find_type(events, "message") {
        Some(mi) => {
            let a = &events[mi].attributes;
            let ks = select_attrs(a, 2, "sender", "");
            proof {
                lemma_positions(a@.len(), key_pred(a@, "sender"@));
                assert(first_attrs(es, "message"@) == a@);
            }
            if ks.len() > 0 {
                proof {
                    assert(as_ints(ks@)[0] == ks@[0] as int);
                }
                Some(a[ks[0]].value.clone())
            } else {
                None
            }
        },
        None => None,
    }
}

/// The token swaps of a transaction: for each log with a `wasm` event, the
/// swap that event records, made by the log's sender, stamped with the
/// transaction's hash and time.
pub fn swap_datas(hash_data: HashData) -> (r: Vec<TokenSwap>)
    requires
        swaps_defined(hash_data.tx_response.logs@),
    ensures
        r@ == swaps_of(
            hash_data.tx_response.logs@,
            hash_data.tx_response.txhash,
            hash_data.tx_response.timestamp,
            r@.map_values(|s: TokenSwap| s.trade_type),
        ),
        forall|i: int| 0 <= i < r@.len() ==> (#[trigger] r@[i]).trade_type@ == "token_swap"@,
{
    let logs = &hash_data.tx_response.logs;
    let tx = &hash_data.tx_response.txhash;
    let ts = &hash_data.tx_response.timestamp;
    let mut out: Vec<TokenSwap> = Vec::new();
    let mut i: usize = 0;
    while i < logs.len()
        invariant
            i <= logs.len(),
            swaps_defined(logs@),
            out@ == swaps_of(logs@.take(i as int), *tx, *ts, out@.map_values(|s: TokenSwap| s.trade_type)),
            forall|k: int| 0 <= k < out@.len() ==> (#[trigger] out@[k]).trade_type@ == "token_swap"@,
        decreases logs.len() - i,
    {
        let events = &logs[i].events;
        let ghost es = events_view(events@);
        proof {
            assert(es == events_view(logs@[i as int].events@));
            assert(logs@.take(i + 1).drop_last() =~= logs@.take(i as int));
        }
        let account = match find_account(events) {
            Some(a) => a,
            None => {
                return out;
            },
        };
        let ghost before = out@;
        match find_type(events, "wasm") {
            Some(wi) => {
                let attrs = crate::model::copy_attributes(&events[wi].attributes);
                let s = if is_height_swap(&attrs) {
                    height_token_swap(attrs, tx.clone(), ts.clone(), account)
                } else {
                    normal_token_swap(attrs, tx.clone(), ts.clone(), account)
                };
                out.push(s);
                proof {
                    let tys = out@.map_values(|s: TokenSwap| s.trade_type);
                    assert(before.map_values(|s: TokenSwap| s.trade_type) =~= tys.take(before.len() as int));
                    lemma_swaps_of_prefix(logs@.take(i as int), *tx, *ts, tys, before.map_values(|s: TokenSwap| s.trade_type));
                    assert(out@ =~= swaps_of(logs@.take(i + 1), *tx, *ts, tys));
                }
            },
            None => {
                proof {
                    assert(out@ =~= swaps_of(logs@.take(i + 1), *tx, *ts, out@.map_values(|s: TokenSwap| s.trade_type)));
                }
            },
        }
        i = i + 1;
    }
    proof {
        assert(logs@.take(logs.len() as int) =~= logs@);
    }
    out
}

/// The swaps of some logs depend only on the first trade types.
proof fn lemma_swaps_of_prefix(logs: Seq<Log>, tx: String, ts: String, ty1: Seq<String>, ty2: Seq<String>)
    requires
        ty2.len() <= ty1.len(),
        ty2 == ty1.take(ty2.len() as int),
        swaps_of(logs, tx, ts, ty2).len() <= ty2.len(),
    ensures
        swaps_of(logs, tx, ts, ty1) == swaps_of(logs, tx, ts, ty2),
    decreases logs.len(),
{
    if logs.len() > 0 {
        lemma_swaps_len(logs.drop_last(), tx, ts, ty2);
        lemma_swaps_len(logs, tx, ts, ty2);
        lemma_swaps_of_prefix(logs.drop_last(), tx, ts, ty1, ty2);
    }
}

/// How many swaps some logs yield does not depend on the trade types.
proof fn lemma_swaps_len(logs: Seq<Log>, tx: String, ts: String, ty: Seq<String>)
    ensures
        swaps_of(logs, tx, ts, ty).len() <= logs.len(),
        logs.len() > 0 ==> swaps_of(logs.drop_last(), tx, ts, ty).len() <= swaps_of(logs, tx, ts, ty).len(),
    decreases logs.len(),
{
    if logs.len() > 0 {
        lemma_swaps_len(logs.drop_last(), tx, ts, ty);
    }
}

/// Whether a `wasm` event's swap can be read (see [`swap_defined`]).
pub(crate) fn swap_fits(a: &Vec<Attribute>) -> (r: bool)
    ensures
        r == swap_defined(a@),
{
    let steps = select_attrs(a, 0, "", "swap");
    proof {
        lemma_positions(a@.len(), value_pred(a@, "swap"@));
    }
    if steps.len() == 0 {
        return false;
    }
    let first = steps[0];
    let last = steps[steps.len() - 1];
    proof {
        assert(as_ints(steps@)[0] == first as int);
        assert(as_ints(steps@).last() == last as int);
        assert(swap_steps(a@)[0] < a@.len());
        assert(swap_steps(a@).last() < a@.len());
    }
    5 < a.len() - first && 6 < a.len() - last
}

/// Whether every log of a transaction can be read as a swap, so that
/// [`swap_datas`] may be called on it.
pub fn swap_logs_readable(logs: &Vec<Log>) -> (r: bool)
    ensures
        r == swaps_defined(logs@),
{
    let mut i: usize = 0;
    while i < logs.len()
        invariant
            i <= logs.len(),
            forall|k: int|
                0 <= k < i ==> {
                    let es = #[trigger] events_view(logs@[k].events@);
                    &&& sender_of(es) is Some
                    &&& has_type(es, "wasm"@) ==> swap_defined(first_attrs(es, "wasm"@))
                },
        decreases logs.len() - i,
    {
        let events = &logs[i].events;
        let ghost es = events_view(events@);
        if find_account(events).is_none() {
            return false;
        }
        match find_type(events, "wasm") {
            Some(wi) => {
                proof {
                    assert(first_attrs(es, "wasm"@) == events@[wi as int].attributes@);
                }
                if !swap_fits(&events[wi].attributes) {
                    return false;
                }
            },
            None => {},
        }
        i = i + 1;
    }
    true
}

} // verus!
