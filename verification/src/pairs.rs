//! Keys with their values, kept in the order in which the keys came; no key
//! stands twice. This is the mathematics of the small maps of the library.

use vstd::prelude::*;

verus! {

/// Keys with their values, in the order in which the keys came.
pub type Pairs<V> = Seq<(Seq<char>, V)>;

/// The first place at which `key` stands among the first `count` pairs.
pub open spec fn position<V>(pairs: Pairs<V>, key: Seq<char>, count: int) -> Option<int>
    decreases count,
{
    if count <= 0 || count > pairs.len() {
        None
    } else {
        match position(pairs, key, count - 1) {
            Some(at) => Some(at),
            None => if pairs[count - 1].0 == key {
                Some(count - 1)
            } else {
                None
            },
        }
    }
}

/// The value that the pairs give to `key`.
pub open spec fn value_of<V>(pairs: Pairs<V>, key: Seq<char>) -> Option<V> {
    match position(pairs, key, pairs.len() as int) {
        Some(at) => Some(pairs[at].1),
        None => None,
    }
}

/// The pairs after `key` was given `value`: the pair of `key` is changed
/// where there is one, and added at the end where there is none.
pub open spec fn put<V>(pairs: Pairs<V>, key: Seq<char>, value: V) -> Pairs<V> {
    match position(pairs, key, pairs.len() as int) {
        Some(at) => pairs.update(at, (key, value)),
        None => pairs.push((key, value)),
    }
}

/// The pairs after the first `count` pairs of `more` were put into them, in order.
pub open spec fn extended<V>(pairs: Pairs<V>, more: Pairs<V>, count: int) -> Pairs<V>
    decreases count,
{
    if count <= 0 || count > more.len() {
        pairs
    } else {
        put(extended(pairs, more, count - 1), more[count - 1].0, more[count - 1].1)
    }
}

/// Whether no key stands twice.
pub open spec fn keys_unique<V>(pairs: Pairs<V>) -> bool {
    forall|i: int, j: int| 0 <= i < j < pairs.len() ==> pairs[i].0 != pairs[j].0
}

/// What a position says: where it is `Some`, the key stands there and nowhere
/// before; where it is `None`, the key stands nowhere among the pairs counted.
pub proof fn lemma_position<V>(pairs: Pairs<V>, key: Seq<char>, count: int)
    requires
        0 <= count <= pairs.len(),
    ensures
        match position(pairs, key, count) {
            Some(at) => 0 <= at < count && pairs[at].0 == key && forall|j: int|
                0 <= j < at ==> pairs[j].0 != key,
            None => forall|j: int| 0 <= j < count ==> pairs[j].0 != key,
        },
    decreases count,
{
    if count > 0 {
        lemma_position(pairs, key, count - 1);
    }
}

/// A position among some pairs is the position among more pairs.
pub proof fn lemma_position_extends<V>(pairs: Pairs<V>, key: Seq<char>, count: int, more: int)
    requires
        0 <= count <= more <= pairs.len(),
        position(pairs, key, count) is Some,
    ensures
        position(pairs, key, more) == position(pairs, key, count),
    decreases more - count,
{
    if more > count {
        lemma_position_extends(pairs, key, count, more - 1);
    }
}

/// Positions depend only on the keys of the pairs counted.
pub proof fn lemma_position_same_keys<V>(a: Pairs<V>, b: Pairs<V>, key: Seq<char>, count: int)
    requires
        0 <= count <= a.len(),
        count <= b.len(),
        forall|j: int| 0 <= j < count ==> a[j].0 == b[j].0,
    ensures
        position(a, key, count) == position(b, key, count),
    decreases count,
{
    if count > 0 {
        lemma_position_same_keys(a, b, key, count - 1);
    }
}

/// After `key` was given a value, it has that value, every other key has the
/// value it had, and no key stands twice if none did.
pub proof fn lemma_put<V>(pairs: Pairs<V>, key: Seq<char>, value: V)
    ensures
        value_of(put(pairs, key, value), key) == Some(value),
        forall|other: Seq<char>| other != key ==> value_of(put(pairs, key, value), other)
            == value_of(pairs, other),
        keys_unique(pairs) ==> keys_unique(put(pairs, key, value)),
{
    let after = put(pairs, key, value);
    let len = pairs.len() as int;
    lemma_position(pairs, key, len);
    lemma_position(after, key, after.len() as int);
    lemma_position_same_keys(pairs, after, key, len);
    assert forall|other: Seq<char>| other != key implies value_of(after, other) == value_of(
        pairs,
        other,
    ) by {
        lemma_position_same_keys(pairs, after, other, len);
        lemma_position(pairs, other, len);
        lemma_position(after, other, after.len() as int);
    }
}

/// A key that stands among the pairs put in has a value afterwards.
pub proof fn lemma_extended_knows<V>(pairs: Pairs<V>, more: Pairs<V>, at: int, count: int)
    requires
        0 <= at < count <= more.len(),
    ensures
        value_of(extended(pairs, more, count), more[at].0) is Some,
    decreases count,
{
    let before = extended(pairs, more, count - 1);
    lemma_put(before, more[count - 1].0, more[count - 1].1);
    if at < count - 1 {
        lemma_extended_knows(pairs, more, at, count - 1);
    }
}

} // verus!
