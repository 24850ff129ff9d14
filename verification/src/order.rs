//! The order of texts in which a report lists its groups: that of their
//! characters' codes, the shorter of two texts first where it begins the
//! longer.

use vstd::prelude::*;
use crate::text::chars_of;

verus! {

/// Whether `a` and `b` agree up to `i` and `a`, from `i` on, comes before
/// `b`.
pub open spec fn precedes_from(a: Seq<char>, b: Seq<char>, i: int) -> bool
    decreases a.len() - i,
{
    if i < 0 || i >= b.len() {
        false
    } else if i >= a.len() {
        true
    } else if a[i] != b[i] {
        (a[i] as u32) < (b[i] as u32)
    } else {
        precedes_from(a, b, i + 1)
    }
}

/// Whether `a` comes before `b`.
pub open spec fn precedes(a: Seq<char>, b: Seq<char>) -> bool {
    precedes_from(a, b, 0)
}

/// Whether the texts of `keys` stand in ascending order, each once.
pub open spec fn ascending(keys: Seq<Seq<char>>) -> bool {
    forall|i: int, j: int|
        0 <= i < j < keys.len() ==> precedes(#[trigger] keys[i], #[trigger] keys[j])
}

/// The first index at or after `i` whose text does not come before `key`,
/// or the number of texts.
pub open spec fn place(keys: Seq<Seq<char>>, key: Seq<char>, i: int) -> int
    decreases keys.len() - i,
{
    if 0 <= i < keys.len() && precedes(keys[i], key) {
        place(keys, key, i + 1)
    } else {
        i
    }
}

/// Of two texts that differ, one comes before the other.
pub proof fn lemma_precedes_total(a: Seq<char>, b: Seq<char>, i: int)
    requires
        0 <= i <= a.len(),
        i <= b.len(),
        forall|j: int| 0 <= j < i ==> a[j] == b[j],
    ensures
        precedes_from(a, b, i) || precedes_from(b, a, i) || a == b,
        !(precedes_from(a, b, i) && precedes_from(b, a, i)),
        precedes_from(a, b, i) ==> a != b,
    decreases a.len() - i,
{
    if i >= a.len() || i >= b.len() {
        if a.len() == b.len() {
            assert(a =~= b);
        }
    } else if a[i] != b[i] {
        vstd::utf8::char_u32_cast(a[i], a[i] as u32);
        vstd::utf8::char_u32_cast(b[i], b[i] as u32);
    } else {
        lemma_precedes_total(a, b, i + 1);
    }
}

/// What comes before a text that comes before a third comes before the
/// third.
pub proof fn lemma_precedes_transitive(a: Seq<char>, b: Seq<char>, c: Seq<char>, i: int)
    requires
        0 <= i,
        precedes_from(a, b, i),
        precedes_from(b, c, i),
    ensures
        precedes_from(a, c, i),
    decreases a.len() - i,
{
    if i < a.len() && i < b.len() && i < c.len() {
        if a[i] == b[i] && b[i] == c[i] {
            lemma_precedes_transitive(a, b, c, i + 1);
        }
    }
}

/// `place` stops between the texts before `key` and the others.
pub proof fn lemma_place(keys: Seq<Seq<char>>, key: Seq<char>, i: int)
    requires
        0 <= i <= keys.len(),
        ascending(keys),
    ensures
        i <= place(keys, key, i) <= keys.len(),
        forall|k: int| i <= k < place(keys, key, i) ==> precedes(#[trigger] keys[k], key),
        forall|k: int|
            place(keys, key, i) <= k < keys.len() ==> !precedes(#[trigger] keys[k], key),
    decreases keys.len() - i,
{
    if i < keys.len() {
        if precedes(keys[i], key) {
            lemma_place(keys, key, i + 1);
        } else {
            assert forall|k: int| i <= k < keys.len() implies !precedes(
                #[trigger] keys[k],
                key,
            ) by {
                if k > i && precedes(keys[k], key) {
                    assert(precedes(keys[i], keys[k]));
                    lemma_precedes_transitive(keys[i], keys[k], key, 0);
                }
            }
        }
    }
}

/// A text put at its place among texts in ascending order, where it is not
/// among them yet, leaves them in ascending order.
pub proof fn lemma_insert_ascending(keys: Seq<Seq<char>>, key: Seq<char>)
    requires
        ascending(keys),
        !(place(keys, key, 0) < keys.len() && keys[place(keys, key, 0)] == key),
    ensures
        ascending(keys.insert(place(keys, key, 0), key)),
{
    lemma_place(keys, key, 0);
    let at = place(keys, key, 0);
    let after = keys.insert(at, key);
    assert forall|i: int, j: int| 0 <= i < j < after.len() implies precedes(
        #[trigger] after[i],
        #[trigger] after[j],
    ) by {
        if j < at {
            assert(after[i] == keys[i] && after[j] == keys[j]);
        } else if j == at {
            assert(after[i] == keys[i]);
        } else if i < at {
            assert(after[i] == keys[i] && after[j] == keys[j - 1]);
        } else if i == at {
            assert(after[j] == keys[j - 1]);
            lemma_precedes_total(key, keys[at], 0);
            if j - 1 > at {
                assert(precedes(keys[at], keys[j - 1]));
                lemma_precedes_transitive(key, keys[at], keys[j - 1], 0);
            }
        } else {
            assert(after[i] == keys[i - 1] && after[j] == keys[j - 1]);
        }
    }
}

/// Whether `a` comes before `b`.
pub fn comes_before(a: &Vec<char>, b: &Vec<char>) -> (before: bool)
    ensures
        before == precedes(a@, b@),
{
    let mut i: usize = 0;
    while i < a.len() && i < b.len()
        invariant
            i <= a.len(),
            i <= b.len(),
            precedes(a@, b@) == precedes_from(a@, b@, i as int),
        decreases a.len() - i,
    {
        if a[i] != b[i] {
            return (a[i] as u32) < (b[i] as u32);
        }
        i += 1;
    }
    i < b.len()
}

/// The texts by which groups are ordered.
pub open spec fn group_keys<V>(groups: Seq<(Seq<char>, V)>) -> Seq<Seq<char>> {
    Seq::new(groups.len(), |i: int| groups[i].0)
}

/// `groups` with the group `value` under `key`: in place of the group that
/// the key had, or at the key's place in the order.
pub open spec fn put<V>(groups: Seq<(Seq<char>, V)>, key: Seq<char>, value: V) -> Seq<
    (Seq<char>, V),
> {
    let at = place(group_keys(groups), key, 0);
    if at < groups.len() && groups[at].0 == key {
        groups.update(at, (key, value))
    } else {
        groups.insert(at, (key, value))
    }
}

/// Putting a group under its key keeps the keys in ascending order.
pub proof fn lemma_put_ascending<V>(groups: Seq<(Seq<char>, V)>, key: Seq<char>, value: V)
    requires
        ascending(group_keys(groups)),
    ensures
        ascending(group_keys(put(groups, key, value))),
{
    let keys = group_keys(groups);
    let at = place(keys, key, 0);
    lemma_place(keys, key, 0);
    if at < groups.len() && groups[at].0 == key {
        assert(group_keys(put(groups, key, value)) =~= keys);
    } else {
        lemma_insert_ascending(keys, key);
        assert(group_keys(put(groups, key, value)) =~= keys.insert(at, key));
    }
}

/// The keys of the groups, as texts.
pub open spec fn key_texts<V>(groups: Seq<(String, V)>) -> Seq<Seq<char>> {
    Seq::new(groups.len(), |i: int| groups[i].0@)
}

/// The place of `key` among the groups, and whether the group at that place
/// has this key.
pub fn find_place<V>(groups: &Vec<(String, V)>, key: &String) -> (r: (usize, bool))
    ensures
        r.0 == place(key_texts(groups@), key@, 0),
        r.0 <= groups.len(),
        r.1 == (r.0 < groups.len() && groups[r.0 as int].0@ == key@),
{
    let ghost keys = key_texts(groups@);
    let wanted = chars_of(key.as_str());
    let mut at: usize = 0;
    while at < groups.len()
        invariant
            at <= groups.len(),
            keys == key_texts(groups@),
            wanted@ == key@,
            place(keys, key@, 0) == place(keys, key@, at as int),
        decreases groups.len() - at,
    {
        let here = chars_of(groups[at].0.as_str());
        assert(keys[at as int] == here@);
        if !comes_before(&here, &wanted) {
            return (at, groups[at].0 == *key);
        }
        at += 1;
    }
    (at, false)
}

} // verus!
