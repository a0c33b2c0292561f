//! The order of names, and lists of names kept in that order.
//!
//! Names are ordered as their UTF-8 encodings are, byte by byte, a proper
//! prefix before its extensions. Indices are assigned to names by their
//! position in this order.

use vstd::prelude::*;
use vstd::utf8::{encode_utf8, encode_utf8_decode_utf8};

verus! {

/// Whether `a` comes before `b` because of position `k`: the two agree
/// before `k`, and at `k` either `a` ends and `b` goes on, or `a` has the
/// smaller byte.
pub open spec fn precedes_at(a: Seq<u8>, b: Seq<u8>, k: int) -> bool {
    &&& 0 <= k <= a.len()
    &&& k <= b.len()
    &&& forall|m: int| 0 <= m < k ==> a[m] == b[m]
    &&& if k == a.len() {
        k < b.len()
    } else {
        k < b.len() && a[k] < b[k]
    }
}

/// Whether `a` comes before `b` in lexicographic order.
pub open spec fn bytes_lt(a: Seq<u8>, b: Seq<u8>) -> bool {
    exists|k: int| precedes_at(a, b, k)
}

/// Whether the name `a` comes before the name `b`.
pub open spec fn name_lt(a: Seq<char>, b: Seq<char>) -> bool {
    bytes_lt(encode_utf8(a), encode_utf8(b))
}

/// The texts of a list of strings.
pub open spec fn texts(list: Seq<String>) -> Seq<Seq<char>> {
    Seq::new(list.len(), |i: int| list[i]@)
}

/// Whether `names` is in strictly ascending order, so that no name occurs
/// twice.
pub open spec fn ascending(names: Seq<Seq<char>>) -> bool {
    forall|i: int, j: int| 0 <= i < j < names.len() ==> name_lt(names[i], names[j])
}

/// How two names stand to each other.
#[derive(Debug, Clone, Copy, PartialEq, Eq, Structural)]
pub enum Order {
    Less,
    Equal,
    Greater,
}

/// No name comes before itself.
pub proof fn lemma_name_lt_irreflexive(a: Seq<char>)
    ensures
        !name_lt(a, a),
{
}

/// The order of names is transitive.
pub proof fn lemma_name_lt_transitive(a: Seq<char>, b: Seq<char>, c: Seq<char>)
    requires
        name_lt(a, b),
        name_lt(b, c),
    ensures
        name_lt(a, c),
{
    let x = encode_utf8(a);
    let y = encode_utf8(b);
    let z = encode_utf8(c);
    let k1 = choose|k: int| precedes_at(x, y, k);
    let k2 = choose|k: int| precedes_at(y, z, k);
    if k1 <= k2 {
        assert(precedes_at(x, z, k1));
    } else {
        assert(precedes_at(x, z, k2));
    }
}

/// Of two names at most one comes before the other.
pub proof fn lemma_name_lt_asymmetric(a: Seq<char>, b: Seq<char>)
    requires
        name_lt(a, b),
    ensures
        !name_lt(b, a),
        a != b,
{
    if name_lt(b, a) {
        lemma_name_lt_transitive(a, b, a);
    }
    lemma_name_lt_irreflexive(a);
}

/// Of two different names one comes before the other.
pub proof fn lemma_name_lt_total(a: Seq<char>, b: Seq<char>)
    requires
        a != b,
    ensures
        name_lt(a, b) || name_lt(b, a),
{
    let x = encode_utf8(a);
    let y = encode_utf8(b);
    encode_utf8_decode_utf8(a);
    encode_utf8_decode_utf8(b);
    assert(x != y);
    lemma_bytes_lt_total(x, y, 0);
}

/// Two byte sequences that agree before `k` and differ are ordered.
proof fn lemma_bytes_lt_total(x: Seq<u8>, y: Seq<u8>, k: int)
    requires
        0 <= k <= x.len(),
        k <= y.len(),
        forall|m: int| 0 <= m < k ==> x[m] == y[m],
        x != y,
    ensures
        bytes_lt(x, y) || bytes_lt(y, x),
    decreases x.len() - k,
{
    if k == x.len() {
        if k == y.len() {
            assert(x =~= y);
        } else {
            assert(precedes_at(x, y, k));
        }
    } else if k == y.len() {
        assert(precedes_at(y, x, k));
    } else if x[k] < y[k] {
        assert(precedes_at(x, y, k));
    } else if y[k] < x[k] {
        assert(precedes_at(y, x, k));
    } else {
        lemma_bytes_lt_total(x, y, k + 1);
    }
}

/// In an ascending list a name stands at one position only.
pub proof fn lemma_ascending_positions(names: Seq<Seq<char>>, i: int, j: int)
    requires
        ascending(names),
        0 <= i < names.len(),
        0 <= j < names.len(),
        names[i] == names[j],
    ensures
        i == j,
{
    if i < j {
        lemma_name_lt_irreflexive(names[i]);
    }
    if j < i {
        lemma_name_lt_irreflexive(names[i]);
    }
}

/// How the name `a` stands to the name `b`.
pub fn compare(a: &str, b: &str) -> (order: Order)
    ensures
        match order {
            Order::Less => name_lt(a@, b@),
            Order::Equal => a@ == b@,
            Order::Greater => name_lt(b@, a@),
        },
{
    let x = a.as_bytes();
    let y = b.as_bytes();
    let mut k: usize = 0;
    while k < x.len() && k < y.len()
        invariant
            k <= x.len(),
            k <= y.len(),
            x@ == encode_utf8(a@),
            y@ == encode_utf8(b@),
            forall|m: int| 0 <= m < k ==> x@[m] == y@[m],
        decreases x.len() - k,
    {
        if x[k] < y[k] {
            assert(precedes_at(x@, y@, k as int));
            return Order::Less;
        }
        if x[k] > y[k] {
            assert(precedes_at(y@, x@, k as int));
            return Order::Greater;
        }
        k += 1;
    }
    if x.len() < y.len() {
        assert(precedes_at(x@, y@, k as int));
        Order::Less
    } else if x.len() > y.len() {
        assert(precedes_at(y@, x@, k as int));
        Order::Greater
    } else {
        proof {
            assert(x@ =~= y@);
            encode_utf8_decode_utf8(a@);
            encode_utf8_decode_utf8(b@);
        }
        Order::Equal
    }
}

/// Whether `a` and `b` are the same name.
pub fn same_name(a: &str, b: &str) -> (same: bool)
    ensures
        same == (a@ == b@),
{
    match compare(a, b) {
        Order::Equal => true,
        Order::Less => {
            proof {
                lemma_name_lt_asymmetric(a@, b@);
            }
            false
        },
        Order::Greater => {
            proof {
                lemma_name_lt_asymmetric(b@, a@);
            }
            false
        },
    }
}

/// Where `name` stands in the ascending list `names`: `Ok` with its
/// position where the list holds it, `Err` with the position at which it
/// would have to be inserted where the list does not.
pub fn find(names: &Vec<String>, name: &str) -> (at: Result<usize, usize>)
    requires
        ascending(texts(names@)),
    ensures
        match at {
            Ok(p) => p < names.len() && names[p as int]@ == name@,
            Err(p) => {
                &&& p <= names.len()
                &&& !texts(names@).contains(name@)
                &&& forall|i: int| 0 <= i < p ==> name_lt(#[trigger] texts(names@)[i], name@)
                &&& forall|i: int|
                    p <= i < names.len() ==> name_lt(name@, #[trigger] texts(names@)[i])
            },
        },
{
    let ghost listed = texts(names@);
    let mut p: usize = 0;
    while p < names.len()
        invariant
            p <= names.len(),
            listed == texts(names@),
            ascending(listed),
            forall|i: int| 0 <= i < p ==> name_lt(#[trigger] listed[i], name@),
        decreases names.len() - p,
    {
        match compare(names[p].as_str(), name) {
            Order::Less => {},
            Order::Equal => {
                return Ok(p);
            },
            Order::Greater => {
                proof {
                    assert(name_lt(name@, listed[p as int]));
                    assert forall|i: int| p <= i < names.len() implies name_lt(
                        name@,
                        #[trigger] listed[i],
                    ) by {
                        if p < i {
                            lemma_name_lt_transitive(name@, listed[p as int], listed[i]);
                        }
                    }
                    assert forall|i: int| 0 <= i < listed.len() implies listed[i] != name@ by {
                        if i < p {
                            lemma_name_lt_asymmetric(listed[i], name@);
                        } else {
                            lemma_name_lt_asymmetric(name@, listed[i]);
                        }
                    }
                }
                return Err(p);
            },
        }
        assert(listed[p as int] == names[p as int]@);
        p += 1;
    }
    proof {
        assert forall|i: int| 0 <= i < listed.len() implies listed[i] != name@ by {
            lemma_name_lt_asymmetric(listed[i], name@);
        }
    }
    Err(p)
}

/// Puts `name` into the ascending list `names` unless the list holds it
/// already, and says whether it was put in.
pub fn insert_name(names: &mut Vec<String>, name: &str) -> (added: bool)
    requires
        ascending(texts(old(names)@)),
    ensures
        ascending(texts(final(names)@)),
        added == !texts(old(names)@).contains(name@),
        forall|x: Seq<char>|
            texts(final(names)@).contains(x) <==> (texts(old(names)@).contains(x) || x == name@),
{
    let ghost before = texts(names@);
    match find(names, name) {
        Ok(p) => {
            assert(before[p as int] == name@);
            false
        },
        Err(p) => {
            names.insert(p, name.to_owned());
            proof {
                let after = texts(names@);
                assert(after =~= before.insert(p as int, name@));
                assert forall|i: int, j: int| 0 <= i < j < after.len() implies name_lt(
                    after[i],
                    after[j],
                ) by {
                    if j < p {
                        assert(after[i] == before[i] && after[j] == before[j]);
                    } else if j == p {
                        assert(after[i] == before[i]);
                    } else if i < p {
                        assert(after[i] == before[i] && after[j] == before[j - 1]);
                    } else if i == p {
                        assert(after[j] == before[j - 1]);
                    } else {
                        assert(after[i] == before[i - 1] && after[j] == before[j - 1]);
                    }
                }
                assert forall|x: Seq<char>| after.contains(x) <==> (before.contains(x) || x
                    == name@) by {
                    if after.contains(x) {
                        let i = choose|i: int| 0 <= i < after.len() && after[i] == x;
                        if i < p {
                            assert(before[i] == x);
                        } else if i > p {
                            assert(before[i - 1] == x);
                        }
                    }
                    if before.contains(x) {
                        let i = choose|i: int| 0 <= i < before.len() && before[i] == x;
                        if i < p {
                            assert(after[i] == x);
                        } else {
                            assert(after[i + 1] == x);
                        }
                    }
                    if x == name@ {
                        assert(after[p as int] == x);
                    }
                }
            }
            true
        },
    }
}

} // verus!
