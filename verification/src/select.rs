//! Selecting positions of a sequence by a predicate, and finding events by
//! type: the two shapes of search that the transaction parsers are made of.
use vstd::prelude::*;
use crate::model::{Attribute, Event, EventView, events_view};
use crate::text::is_lit;

verus! {

/// The positions below `n` that satisfy `p`, in increasing order.
pub open spec fn positions(n: nat, p: spec_fn(int) -> bool) -> Seq<int>
    decreases n,
{
    if n == 0 {
        Seq::empty()
    } else {
        let prev = positions((n - 1) as nat, p);
        if p(n - 1) {
            prev.push(n - 1)
        } else {
            prev
        }
    }
}

/// Every selected position is below `n`, satisfies `p`, and they increase.
pub proof fn lemma_positions(n: nat, p: spec_fn(int) -> bool)
    ensures
        forall|k: int|
            0 <= k < positions(n, p).len() ==> 0 <= #[trigger] positions(n, p)[k] < n && p(
                positions(n, p)[k],
            ),
        forall|k1: int, k2: int|
            0 <= k1 < k2 < positions(n, p).len() ==> #[trigger] positions(n, p)[k1]
                < #[trigger] positions(n, p)[k2],
        forall|i: int| 0 <= i < n && p(i) ==> positions(n, p).contains(i),
        positions(n, p).len() <= n,
    decreases n,
{
    if n > 0 {
        lemma_positions((n - 1) as nat, p);
        let prev = positions((n - 1) as nat, p);
        assert forall|i: int| 0 <= i < n && p(i) implies positions(n, p).contains(i) by {
            if i < n - 1 {
                assert(prev.contains(i));
                let k = choose|k: int| 0 <= k < prev.len() && prev[k] == i;
                if p(n - 1) {
                    assert(positions(n, p) == prev.push(n - 1));
                    assert(positions(n, p)[k] == i);
                }
            } else {
                assert(positions(n, p) == prev.push(n - 1));
                assert(positions(n, p)[prev.len() as int] == i);
            }
        }
    }
}

/// `positions` grows by at most the next position.
pub proof fn lemma_positions_step(n: nat, p: spec_fn(int) -> bool)
    ensures
        positions(n + 1, p) == (if p(n as int) {
            positions(n, p).push(n as int)
        } else {
            positions(n, p)
        }),
{
}

/// Attribute `i` has the value `v`.
pub open spec fn value_pred(a: Seq<Attribute>, v: Seq<char>) -> spec_fn(int) -> bool {
    |i: int| a[i].value@ == v
}

/// Attribute `i` has the key `k` and the value `v`.
pub open spec fn key_value_pred(a: Seq<Attribute>, k: Seq<char>, v: Seq<char>) -> spec_fn(
    int,
) -> bool {
    |i: int| a[i].key@ == k && a[i].value@ == v
}

/// Attribute `i` has the key `k`.
pub open spec fn key_pred(a: Seq<Attribute>, k: Seq<char>) -> spec_fn(int) -> bool {
    |i: int| a[i].key@ == k
}

/// Positions of the attributes whose value is `v`.
pub open spec fn value_positions(a: Seq<Attribute>, v: Seq<char>) -> Seq<int> {
    positions(a.len(), value_pred(a, v))
}

/// Positions of the attributes whose key is `k` and value is `v`.
pub open spec fn key_value_positions(a: Seq<Attribute>, k: Seq<char>, v: Seq<char>) -> Seq<int> {
    positions(a.len(), key_value_pred(a, k, v))
}

/// Positions of the attributes whose key is `k`.
pub open spec fn key_positions(a: Seq<Attribute>, k: Seq<char>) -> Seq<int> {
    positions(a.len(), key_pred(a, k))
}

/// A vector of positions, seen as integers.
pub open spec fn as_ints(v: Seq<usize>) -> Seq<int> {
    v.map_values(|x: usize| x as int)
}

/// Where `p` holds, among the attributes of `a`, as the selection
/// `selector` decides attribute by attribute.
pub fn select_attrs(a: &Vec<Attribute>, mode: u8, k: &str, v: &str) -> (r: Vec<usize>)
    requires
        mode < 3,
    ensures
        as_ints(r@) == positions(
            a@.len(),
            if mode == 0 {
                value_pred(a@, v@)
            } else if mode == 1 {
                key_value_pred(a@, k@, v@)
            } else {
                key_pred(a@, k@)
            },
        ),
{
    let ghost p = if mode == 0 {
        value_pred(a@, v@)
    } else if mode == 1 {
        key_value_pred(a@, k@, v@)
    } else {
        key_pred(a@, k@)
    };
    let mut out: Vec<usize> = Vec::new();
    let mut i: usize = 0;
    while i < a.len()
        invariant
            i <= a.len(),
            mode < 3,
            p == (if mode == 0 {
                value_pred(a@, v@)
            } else if mode == 1 {
                key_value_pred(a@, k@, v@)
            } else {
                key_pred(a@, k@)
            }),
            as_ints(out@) == positions(i as nat, p),
        decreases a.len() - i,
    {
        let hit = if mode == 0 {
            is_lit(&a[i].value, v)
        } else if mode == 1 {
            is_lit(&a[i].key, k) && is_lit(&a[i].value, v)
        } else {
            is_lit(&a[i].key, k)
        };
        proof {
            assert(hit == p(i as int));
            lemma_positions_step(i as nat, p);
        }
        if hit {
            let ghost before = out@;
            out.push(i);
            proof {
                assert(as_ints(out@) =~= as_ints(before).push(i as int));
            }
        }
        i = i + 1;
    }
    out
}

/// Whether some attribute has the value `v`.
pub open spec fn has_value(a: Seq<Attribute>, v: Seq<char>) -> bool {
    exists|i: int| 0 <= i < a.len() && #[trigger] a[i].value@ == v
}

/// Whether some event has the type `t`.
pub open spec fn has_type(es: Seq<EventView>, t: Seq<char>) -> bool {
    exists|i: int| 0 <= i < es.len() && #[trigger] es[i]._type == t
}

/// `i` is the first event of type `t`.
pub open spec fn is_first_of_type(es: Seq<EventView>, t: Seq<char>, i: int) -> bool {
    &&& 0 <= i < es.len()
    &&& es[i]._type == t
    &&& forall|k: int| 0 <= k < i ==> #[trigger] es[k]._type != t
}

/// The first event of type `t` (meaningful where `has_type(es, t)`).
pub open spec fn first_of_type(es: Seq<EventView>, t: Seq<char>) -> int {
    choose|i: int| is_first_of_type(es, t, i)
}

/// The attributes of the first event of type `t`.
pub open spec fn first_attrs(es: Seq<EventView>, t: Seq<char>) -> Seq<Attribute> {
    es[first_of_type(es, t)].attributes
}

/// There is only one first event of a type.
pub proof fn lemma_first_unique(es: Seq<EventView>, t: Seq<char>, i: int)
    requires
        is_first_of_type(es, t, i),
    ensures
        first_of_type(es, t) == i,
        has_type(es, t),
{
    let j = first_of_type(es, t);
    assert(is_first_of_type(es, t, j));
    if j < i {
        assert(es[j]._type != t);
    } else if i < j {
        assert(es[i]._type != t);
    }
}

/// The first event of type `t`, if there is one.
pub fn find_type(es: &Vec<Event>, t: &str) -> (r: Option<usize>)
    ensures
        match r {
            Some(i) => is_first_of_type(events_view(es@), t@, i as int) && first_of_type(
                events_view(es@),
                t@,
            ) == i && has_type(events_view(es@), t@),
            None => !has_type(events_view(es@), t@),
        },
{
    let mut i: usize = 0;
    while i < es.len()
        invariant
            i <= es.len(),
            forall|k: int| 0 <= k < i ==> #[trigger] events_view(es@)[k]._type != t@,
        decreases es.len() - i,
    {
        if is_lit(&es[i]._type, t) {
            proof {
                lemma_first_unique(events_view(es@), t@, i as int);
            }
            return Some(i);
        }
        i = i + 1;
    }
    None
}

/// Whether some event has the type `t`.
pub fn any_type(es: &Vec<Event>, t: &str) -> (r: bool)
    ensures
        r == has_type(events_view(es@), t@),
{
    find_type(es, t).is_some()
}

/// Whether some attribute has the value `v`.
pub fn any_value(a: &Vec<Attribute>, v: &str) -> (r: bool)
    ensures
        r == has_value(a@, v@),
{
    let mut i: usize = 0;
    while i < a.len()
        invariant
            i <= a.len(),
            forall|k: int| 0 <= k < i ==> #[trigger] a@[k].value@ != v@,
        decreases a.len() - i,
    {
        if is_lit(&a[i].value, v) {
            return true;
        }
        i = i + 1;
    }
    false
}

} // verus!
