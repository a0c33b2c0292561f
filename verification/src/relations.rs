//! Relations between names, as lists of a name with the names related to
//! it, and their canonical form.
//!
//! A relation may be recorded from either end and more than once. Its
//! canonical form records every related pair once, under the name that
//! comes first in the order of names, with keys and related names in
//! ascending order.

use vstd::prelude::*;
use crate::names::{
    ascending, compare, insert_name, lemma_name_lt_asymmetric, lemma_name_lt_irreflexive,
    lemma_name_lt_total, lemma_name_lt_transitive, name_lt, texts, Order,
};

verus! {

/// The keys of a relation, in the order of its entries.
pub open spec fn keys(map: Seq<(String, Vec<String>)>) -> Seq<Seq<char>> {
    Seq::new(map.len(), |e: int| map[e].0@)
}

/// Whether entry `e` of `map` is the key `x` and lists `y` at position `v`.
pub open spec fn records_at(map: Seq<(String, Vec<String>)>, e: int, v: int, x: Seq<char>, y: Seq<char>) -> bool {
    &&& 0 <= e < map.len()
    &&& 0 <= v < map[e].1@.len()
    &&& map[e].0@ == x
    &&& map[e].1@[v]@ == y
}

/// Whether `map` records `y` under the key `x`.
pub open spec fn recorded(map: Seq<(String, Vec<String>)>, x: Seq<char>, y: Seq<char>) -> bool {
    exists|e: int, v: int| records_at(map, e, v, x, y)
}

/// Whether `map` relates `x` and `y`, from either end.
pub open spec fn relates(map: Seq<(String, Vec<String>)>, x: Seq<char>, y: Seq<char>) -> bool {
    recorded(map, x, y) || recorded(map, y, x)
}

/// Whether `map` records `y` under the key `x` before position `v` of
/// entry `e`.
pub open spec fn recorded_before(
    map: Seq<(String, Vec<String>)>,
    e: int,
    v: int,
    x: Seq<char>,
    y: Seq<char>,
) -> bool {
    exists|e0: int, v0: int| records_at(map, e0, v0, x, y) && (e0 < e || (e0 == e && v0 < v))
}

/// Whether `map` is in canonical form: its keys ascend, every key lists at
/// least one name, the names that a key lists ascend, and every listed name
/// comes after its key.
pub open spec fn canonical(map: Seq<(String, Vec<String>)>) -> bool {
    &&& ascending(keys(map))
    &&& forall|e: int| 0 <= e < map.len() ==> (#[trigger] map[e]).1@.len() > 0
    &&& forall|e: int| 0 <= e < map.len() ==> ascending(texts((#[trigger] map[e]).1@))
    &&& forall|x: Seq<char>, y: Seq<char>| #[trigger] recorded(map, x, y) ==> name_lt(x, y)
}

/// Where the key `key` stands in a relation with ascending keys.
fn find_key(map: &Vec<(String, Vec<String>)>, key: &str) -> (at: Result<usize, usize>)
    requires
        ascending(keys(map@)),
    ensures
        match at {
            Ok(p) => p < map.len() && map[p as int].0@ == key@,
            Err(p) => {
                &&& p <= map.len()
                &&& forall|i: int| 0 <= i < map.len() ==> (#[trigger] map[i]).0@ != key@
                &&& forall|i: int| 0 <= i < p ==> name_lt((#[trigger] map[i]).0@, key@)
                &&& forall|i: int| p <= i < map.len() ==> name_lt(key@, (#[trigger] map[i]).0@)
            },
        },
{
    let ghost listed = keys(map@);
    let mut p: usize = 0;
    while p < map.len()
        invariant
            p <= map.len(),
            listed == keys(map@),
            ascending(listed),
            forall|i: int| 0 <= i < p ==> name_lt((#[trigger] map[i]).0@, key@),
        decreases map.len() - p,
    {
        match compare(map[p].0.as_str(), key) {
            Order::Less => {},
            Order::Equal => {
                return Ok(p);
            },
            Order::Greater => {
                proof {
                    assert forall|i: int| p <= i < map.len() implies name_lt(
                        key@,
                        (#[trigger] map[i]).0@,
                    ) by {
                        assert(listed[i] == map[i].0@);
                        assert(listed[p as int] == map[p as int].0@);
                        if p < i {
                            lemma_name_lt_transitive(key@, listed[p as int], listed[i]);
                        }
                    }
                    assert forall|i: int| 0 <= i < map.len() implies (#[trigger] map[i]).0@
                        != key@ by {
                        if i < p {
                            lemma_name_lt_asymmetric(map[i].0@, key@);
                        } else {
                            lemma_name_lt_asymmetric(key@, map[i].0@);
                        }
                    }
                }
                return Err(p);
            },
        }
        p += 1;
    }
    proof {
        assert forall|i: int| 0 <= i < map.len() implies (#[trigger] map[i]).0@ != key@ by {
            lemma_name_lt_asymmetric(map[i].0@, key@);
        }
    }
    Err(p)
}

/// Records `hi` under the key `lo`, keeping the canonical form.
fn insert_pair(map: &mut Vec<(String, Vec<String>)>, lo: &str, hi: &str)
    requires
        canonical(old(map)@),
        name_lt(lo@, hi@),
    ensures
        canonical(final(map)@),
        forall|x: Seq<char>, y: Seq<char>| #[trigger]
            recorded(final(map)@, x, y) <==> (recorded(old(map)@, x, y) || (x == lo@ && y
                == hi@)),
{
    let ghost before = map@;
    match find_key(map, lo) {
        Ok(p) => {
            let (key, mut listed) = map.remove(p);
            let ghost names_before = texts(listed@);
            insert_name(&mut listed, hi);
            let ghost names_after = texts(listed@);
            map.insert(p, (key, listed));
            proof {
                let after = map@;
                assert(after.len() == before.len());
                assert forall|e: int| 0 <= e < after.len() && e != p implies after[e]
                    == before[e] by {}
                assert(after[p as int].0@ == before[p as int].0@);
                assert(keys(after) =~= keys(before));
                assert(names_after.contains(hi@));
                assert forall|x: Seq<char>, y: Seq<char>| #[trigger]
                    recorded(after, x, y) <==> (recorded(before, x, y) || (x == lo@ && y
                        == hi@)) by {
                    if recorded(after, x, y) {
                        let (e, v) = choose|e: int, v: int| records_at(after, e, v, x, y);
                        if e != p {
                            assert(records_at(before, e, v, x, y));
                        } else {
                            assert(names_after[v] == y);
                            if y != hi@ {
                                assert(names_before.contains(y));
                                let v0 = choose|v0: int|
                                    0 <= v0 < names_before.len() && names_before[v0] == y;
                                assert(records_at(before, e, v0, x, y));
                            }
                        }
                    }
                    if recorded(before, x, y) {
                        let (e, v) = choose|e: int, v: int| records_at(before, e, v, x, y);
                        if e != p {
                            assert(records_at(after, e, v, x, y));
                        } else {
                            assert(names_before[v] == y);
                            assert(names_after.contains(y));
                            let v1 = choose|v1: int|
                                0 <= v1 < names_after.len() && names_after[v1] == y;
                            assert(records_at(after, e, v1, x, y));
                        }
                    }
                    if x == lo@ && y == hi@ {
                        let v1 = choose|v1: int|
                            0 <= v1 < names_after.len() && names_after[v1] == y;
                        assert(records_at(after, p as int, v1, x, y));
                    }
                }
                assert forall|e: int| 0 <= e < after.len() implies (#[trigger] after[e]).1@.len()
                    > 0 by {
                    if e != p {
                        assert(before[e].1@.len() > 0);
                    } else {
                        let v1 = choose|v1: int|
                            0 <= v1 < names_after.len() && names_after[v1] == hi@;
                    }
                }
                assert forall|e: int| 0 <= e < after.len() implies ascending(
                    texts((#[trigger] after[e]).1@),
                ) by {
                    if e != p {
                        assert(ascending(texts(before[e].1@)));
                    }
                }
            }
        },
        Err(p) => {
            let mut listed: Vec<String> = Vec::new();
            listed.push(hi.to_owned());
            map.insert(p, (lo.to_owned(), listed));
            proof {
                let after = map@;
                assert(after.len() == before.len() + 1);
                assert forall|e: int| 0 <= e < p implies after[e] == before[e] by {}
                assert forall|e: int| p < e < after.len() implies after[e] == before[e - 1] by {}
                assert(after[p as int].0@ == lo@);
                assert(after[p as int].1@.len() == 1);
                assert(after[p as int].1@[0]@ == hi@);
                assert forall|i: int, j: int| 0 <= i < j < after.len() implies name_lt(
                    keys(after)[i],
                    keys(after)[j],
                ) by {
                    if i < p {
                        assert(keys(after)[i] == keys(before)[i]);
                    } else if i > p {
                        assert(keys(after)[i] == keys(before)[i - 1]);
                    }
                    if j < p {
                        assert(keys(after)[j] == keys(before)[j]);
                    } else if j > p {
                        assert(keys(after)[j] == keys(before)[j - 1]);
                    }
                    if i < p && j > p {
                        assert(name_lt(keys(before)[i], keys(before)[j - 1]));
                    }
                }
                assert forall|x: Seq<char>, y: Seq<char>| #[trigger]
                    recorded(after, x, y) <==> (recorded(before, x, y) || (x == lo@ && y
                        == hi@)) by {
                    if recorded(after, x, y) {
                        let (e, v) = choose|e: int, v: int| records_at(after, e, v, x, y);
                        if e < p {
                            assert(records_at(before, e, v, x, y));
                        } else if e > p {
                            assert(records_at(before, e - 1, v, x, y));
                        }
                    }
                    if recorded(before, x, y) {
                        let (e, v) = choose|e: int, v: int| records_at(before, e, v, x, y);
                        if e < p {
                            assert(records_at(after, e, v, x, y));
                        } else {
                            assert(records_at(after, e + 1, v, x, y));
                        }
                    }
                    if x == lo@ && y == hi@ {
                        assert(records_at(after, p as int, 0, x, y));
                    }
                }
                assert forall|e: int| 0 <= e < after.len() implies (#[trigger] after[e]).1@.len()
                    > 0 by {
                    if e < p {
                        assert(before[e].1@.len() > 0);
                    } else if e > p {
                        assert(before[e - 1].1@.len() > 0);
                    }
                }
                assert forall|e: int| 0 <= e < after.len() implies ascending(
                    texts((#[trigger] after[e]).1@),
                ) by {
                    if e < p {
                        assert(ascending(texts(before[e].1@)));
                    } else if e > p {
                        assert(ascending(texts(before[e - 1].1@)));
                    }
                }
            }
        },
    }
}

/// Brings a relation into canonical form: every pair of different names
/// that `map` relates, from whichever end and however often, is recorded
/// once, under the name that comes first. A name related to itself is
/// dropped.
pub fn simplify(map: Vec<(String, Vec<String>)>) -> (out: Vec<(String, Vec<String>)>)
    ensures
        canonical(out@),
        forall|x: Seq<char>, y: Seq<char>| #[trigger]
            recorded(out@, x, y) <==> (name_lt(x, y) && relates(map@, x, y)),
{
    let mut out: Vec<(String, Vec<String>)> = Vec::new();
    let mut e: usize = 0;
    assert(keys(out@) =~= Seq::<Seq<char>>::empty());
    while e < map.len()
        invariant
            e <= map.len(),
            canonical(out@),
            forall|x: Seq<char>, y: Seq<char>| #[trigger]
                recorded(out@, x, y) <==> (name_lt(x, y) && (recorded_before(map@, e as int, 0, x, y)
                    || recorded_before(map@, e as int, 0, y, x))),
        decreases map.len() - e,
    {
        let key = &map[e].0;
        let listed = &map[e].1;
        let mut v: usize = 0;
        while v < listed.len()
            invariant
                e < map.len(),
                v <= listed.len(),
                *key == map@[e as int].0,
                *listed == map@[e as int].1,
                canonical(out@),
                forall|x: Seq<char>, y: Seq<char>| #[trigger]
                    recorded(out@, x, y) <==> (name_lt(x, y) && (recorded_before(
                        map@,
                        e as int,
                        v as int,
                        x,
                        y,
                    ) || recorded_before(map@, e as int, v as int, y, x))),
            decreases listed.len() - v,
        {
            let name = &listed[v];
            let ghost held = out@;
            match compare(name.as_str(), key.as_str()) {
                Order::Less => {
                    insert_pair(&mut out, name.as_str(), key.as_str());
                },
                Order::Greater => {
                    insert_pair(&mut out, key.as_str(), name.as_str());
                },
                Order::Equal => {},
            }
            proof {
                assert forall|x: Seq<char>, y: Seq<char>| #[trigger]
                    recorded(out@, x, y) <==> (name_lt(x, y) && (recorded_before(
                        map@,
                        e as int,
                        v + 1,
                        x,
                        y,
                    ) || recorded_before(map@, e as int, v + 1, y, x))) by {
                    lemma_one_more(map@, e as int, v as int, x, y);
                    lemma_one_more(map@, e as int, v as int, y, x);
                    assert(recorded(held, x, y) <==> (name_lt(x, y) && (recorded_before(
                        map@,
                        e as int,
                        v as int,
                        x,
                        y,
                    ) || recorded_before(map@, e as int, v as int, y, x))));
                    if name_lt(x, y) {
                        lemma_name_lt_asymmetric(x, y);
                    }
                    if name_lt(name@, key@) {
                        lemma_name_lt_asymmetric(name@, key@);
                    }
                    if name_lt(key@, name@) {
                        lemma_name_lt_asymmetric(key@, name@);
                    }
                    lemma_name_lt_irreflexive(x);
                }
            }
            v += 1;
        }
        proof {
            assert forall|x: Seq<char>, y: Seq<char>| #[trigger]
                recorded(out@, x, y) <==> (name_lt(x, y) && (recorded_before(
                    map@,
                    e + 1,
                    0,
                    x,
                    y,
                ) || recorded_before(map@, e + 1, 0, y, x))) by {
                lemma_next_entry(map@, e as int, x, y);
                lemma_next_entry(map@, e as int, y, x);
            }
        }
        e += 1;
    }
    proof {
        assert forall|x: Seq<char>, y: Seq<char>| #[trigger]
            recorded(out@, x, y) <==> (name_lt(x, y) && relates(map@, x, y)) by {
            lemma_all_entries(map@, x, y);
            lemma_all_entries(map@, y, x);
        }
    }
    out
}

/// The canonical form of a relation relates exactly the pairs of different
/// names that the relation relates, and records none of them from both
/// ends.
pub proof fn lemma_canonical_form(
    map: Seq<(String, Vec<String>)>,
    out: Seq<(String, Vec<String>)>,
    x: Seq<char>,
    y: Seq<char>,
)
    requires
        forall|a: Seq<char>, b: Seq<char>| #[trigger]
            recorded(out, a, b) <==> (name_lt(a, b) && relates(map, a, b)),
    ensures
        relates(out, x, y) <==> (x != y && relates(map, x, y)),
        !(recorded(out, x, y) && recorded(out, y, x)),
{
    if x != y {
        lemma_name_lt_total(x, y);
    } else {
        lemma_name_lt_irreflexive(x);
    }
    if name_lt(x, y) {
        lemma_name_lt_asymmetric(x, y);
    }
    if name_lt(y, x) {
        lemma_name_lt_asymmetric(y, x);
    }
}

/// What position `v` of entry `e` adds to what is recorded before it.
proof fn lemma_one_more(map: Seq<(String, Vec<String>)>, e: int, v: int, x: Seq<char>, y: Seq<char>)
    requires
        0 <= e < map.len(),
        0 <= v < map[e].1@.len(),
    ensures
        recorded_before(map, e, v + 1, x, y) <==> (recorded_before(map, e, v, x, y) || (map[e].0@
            == x && map[e].1@[v]@ == y)),
{
    if recorded_before(map, e, v + 1, x, y) {
        let (e0, v0) = choose|e0: int, v0: int|
            records_at(map, e0, v0, x, y) && (e0 < e || (e0 == e && v0 < v + 1));
        if !(e0 == e && v0 == v) {
            assert(records_at(map, e0, v0, x, y) && (e0 < e || (e0 == e && v0 < v)));
        }
    }
    if recorded_before(map, e, v, x, y) {
        let (e0, v0) = choose|e0: int, v0: int|
            records_at(map, e0, v0, x, y) && (e0 < e || (e0 == e && v0 < v));
        assert(records_at(map, e0, v0, x, y) && (e0 < e || (e0 == e && v0 < v + 1)));
    }
    if map[e].0@ == x && map[e].1@[v]@ == y {
        assert(records_at(map, e, v, x, y) && (e < e || (e == e && v < v + 1)));
    }
}

/// What is recorded before the end of entry `e` is what is recorded before
/// entry `e + 1`.
proof fn lemma_next_entry(map: Seq<(String, Vec<String>)>, e: int, x: Seq<char>, y: Seq<char>)
    requires
        0 <= e < map.len(),
    ensures
        recorded_before(map, e + 1, 0, x, y) <==> recorded_before(
            map,
            e,
            map[e].1@.len() as int,
            x,
            y,
        ),
{
    let end = map[e].1@.len() as int;
    if recorded_before(map, e + 1, 0, x, y) {
        let (e0, v0) = choose|e0: int, v0: int|
            records_at(map, e0, v0, x, y) && (e0 < e + 1 || (e0 == e + 1 && v0 < 0));
        assert(records_at(map, e0, v0, x, y) && (e0 < e || (e0 == e && v0 < end)));
    }
    if recorded_before(map, e, end, x, y) {
        let (e0, v0) = choose|e0: int, v0: int|
            records_at(map, e0, v0, x, y) && (e0 < e || (e0 == e && v0 < end));
        assert(records_at(map, e0, v0, x, y) && (e0 < e + 1 || (e0 == e + 1 && v0 < 0)));
    }
}

/// What is recorded before the end of the relation is all that is recorded.
proof fn lemma_all_entries(map: Seq<(String, Vec<String>)>, x: Seq<char>, y: Seq<char>)
    ensures
        recorded_before(map, map.len() as int, 0, x, y) <==> recorded(map, x, y),
{
    let n = map.len() as int;
    if recorded_before(map, n, 0, x, y) {
        let (e0, v0) = choose|e0: int, v0: int|
            records_at(map, e0, v0, x, y) && (e0 < n || (e0 == n && v0 < 0));
        assert(records_at(map, e0, v0, x, y));
    }
    if recorded(map, x, y) {
        let (e0, v0) = choose|e0: int, v0: int| records_at(map, e0, v0, x, y);
        assert(records_at(map, e0, v0, x, y) && (e0 < n || (e0 == n && v0 < 0)));
    }
}

} // verus!
