//! Name-keyed tables: lists of `(name, value)` entries, looked up by name,
//! kept in ascending name order where the order matters.

use vstd::prelude::*;
use crate::device::same_text;
use crate::text::{lemma_text_order, text_before, text_less};

verus! {

/// The index of the first entry from `i` on named `name`.
pub open spec fn key_index<V>(s: Seq<(String, V)>, name: Seq<char>, i: int) -> Option<int>
    decreases s.len() - i,
{
    if i < 0 || i >= s.len() {
        None
    } else if s[i].0@ == name {
        Some(i)
    } else {
        key_index(s, name, i + 1)
    }
}

/// Names in ascending order, so none occurs twice.
pub open spec fn names_ascending<V>(s: Seq<(String, V)>) -> bool {
    forall|i: int| 0 <= i < s.len() - 1 ==> text_less(#[trigger] s[i].0@, s[i + 1].0@)
}

/// No name occurs twice.
pub open spec fn names_distinct<V>(s: Seq<(String, V)>) -> bool {
    forall|i: int, j: int| 0 <= i < j < s.len() ==> (#[trigger] s[i]).0@ != (#[trigger] s[j]).0@
}

/// Where `name` goes in an ascending list: before the first name that does
/// not sort before it.
pub open spec fn insert_position<V>(s: Seq<(String, V)>, name: Seq<char>, i: int) -> int
    decreases s.len() - i,
{
    if i < 0 || i >= s.len() {
        s.len() as int
    } else if text_less(s[i].0@, name) {
        insert_position(s, name, i + 1)
    } else {
        i
    }
}

pub proof fn lemma_key_index<V>(s: Seq<(String, V)>, name: Seq<char>, i: int)
    requires
        0 <= i,
    ensures
        key_index(s, name, i) matches Some(k) ==> i <= k < s.len() && s[k].0@ == name && forall|j: int|
            i <= j < k ==> s[j].0@ != name,
        key_index(s, name, i) is None ==> forall|j: int| i <= j < s.len() ==> s[j].0@ != name,
    decreases s.len() - i,
{
    if i < s.len() {
        lemma_key_index(s, name, i + 1);
    }
}

pub proof fn lemma_insert_position<V>(s: Seq<(String, V)>, name: Seq<char>, i: int)
    requires
        0 <= i <= s.len(),
        forall|j: int| 0 <= j < i ==> text_less(s[j].0@, name),
    ensures
        0 <= insert_position(s, name, i) <= s.len(),
        forall|j: int| 0 <= j < insert_position(s, name, i) ==> text_less(s[j].0@, name),
        insert_position(s, name, i) < s.len() ==> !text_less(s[insert_position(s, name, i)].0@, name),
    decreases s.len() - i,
{
    if i < s.len() && text_less(s[i].0@, name) {
        lemma_insert_position(s, name, i + 1);
    }
}

pub fn find_key<V>(v: &Vec<(String, V)>, name: &str) -> (r: Option<usize>)
    ensures
        r is None <==> key_index(v@, name@, 0) is None,
        r matches Some(k) ==> k < v@.len() && key_index(v@, name@, 0) == Some(k as int),
{
    let mut i: usize = 0;
    while i < v.len()
        invariant
            i <= v@.len(),
            key_index(v@, name@, 0) == key_index(v@, name@, i as int),
        decreases v@.len() - i,
    {
        if v[i].0.as_str().unicode_len() == name.unicode_len() && same_text(v[i].0.as_str(), name) {
            return Some(i);
        }
        i += 1;
    }
    None
}

pub fn find_position<V>(v: &Vec<(String, V)>, name: &str) -> (r: usize)
    ensures
        r == insert_position(v@, name@, 0),
{
    let mut i: usize = 0;
    while i < v.len() && text_before(v[i].0.as_str(), name)
        invariant
            i <= v@.len(),
            insert_position(v@, name@, 0) == insert_position(v@, name@, i as int),
        decreases v@.len() - i,
    {
        i += 1;
    }
    i
}

pub proof fn lemma_unique_index<V>(s: Seq<(String, V)>, name: Seq<char>, k: int)
    requires
        names_distinct(s),
        0 <= k < s.len(),
        s[k].0@ == name,
    ensures
        key_index(s, name, 0) == Some(k),
{
    lemma_key_index(s, name, 0);
    if key_index(s, name, 0) is Some {
        let j = key_index(s, name, 0)->0;
        if j != k {
            if j < k {
                assert(s[j].0@ != s[k].0@);
            } else {
                assert(s[k].0@ != s[j].0@);
            }
        }
    }
}

pub proof fn lemma_text_less_trans(a: Seq<char>, b: Seq<char>, c: Seq<char>)
    requires
        text_less(a, b),
        text_less(b, c),
    ensures
        text_less(a, c),
    decreases a.len(),
{
    if a.len() > 0 && b.len() > 0 && c.len() > 0 && a[0] == b[0] && b[0] == c[0] {
        lemma_text_less_trans(a.drop_first(), b.drop_first(), c.drop_first());
    }
}

/// The value listed for `name`, if the table lists it.
pub open spec fn entry_value<V>(s: Seq<(String, V)>, name: Seq<char>) -> Option<V> {
    match key_index(s, name, 0) {
        Some(k) => Some(s[k].1),
        None => None,
    }
}

/// Where the first entry of each name lies after one entry is inserted at
/// `p` under a name the table did not list.
pub proof fn lemma_first_match_shift<V>(before: Seq<(String, V)>, after: Seq<(String, V)>, p: int, n: Seq<char>)
    requires
        0 <= p <= before.len(),
        after.len() == before.len() + 1,
        forall|j: int| 0 <= j < p ==> after[j] == before[j],
        forall|j: int| p < j < after.len() ==> after[j] == before[j - 1],
        key_index(before, after[p].0@, 0) is None,
    ensures
        n != after[p].0@ ==> key_index(after, n, 0) == match key_index(before, n, 0) {
            Some(k) => Some(if k < p { k } else { k + 1 }),
            None => None,
        },
        key_index(after, after[p].0@, 0) == Some(p),
{
    lemma_key_index(before, n, 0);
    lemma_key_index(after, n, 0);
    lemma_key_index(before, after[p].0@, 0);
    lemma_key_index(after, after[p].0@, 0);
    if key_index(after, after[p].0@, 0) is Some {
        let j = key_index(after, after[p].0@, 0)->0;
        if j != p {
            if j < p {
                assert(after[j] == before[j]);
            } else {
                assert(after[j] == before[j - 1]);
            }
        }
    }
    if n != after[p].0@ {
        if key_index(before, n, 0) is Some {
            let k = key_index(before, n, 0)->0;
            let ka = if k < p { k } else { k + 1 };
            assert(after[ka] == before[k]);
            if key_index(after, n, 0) is Some {
                let j = key_index(after, n, 0)->0;
                if j < ka {
                    let jb = if j < p { j } else { j - 1 };
                    if j != p {
                        assert(after[j] == before[jb]);
                    }
                }
            }
        } else if key_index(after, n, 0) is Some {
            let j = key_index(after, n, 0)->0;
            if j < p {
                assert(after[j] == before[j]);
            } else if j > p {
                assert(after[j] == before[j - 1]);
            }
        }
    }
}

#[verifier::rlimit(30)]
proof fn lemma_put_replace<V>(before: Seq<(String, V)>, after: Seq<(String, V)>, k: int, name: Seq<char>, value: V)
    requires
        names_ascending(before),
        0 <= k < before.len(),
        key_index(before, name, 0) == Some(k),
        after == before.update(k, (before[k].0, value)),
    ensures
        names_ascending(after),
        forall|n: Seq<char>| #[trigger] entry_value(after, n) == if n == name {
            Some(value)
        } else {
            entry_value(before, n)
        },
{
    lemma_key_index(before, name, 0);
    assert forall|x: int| 0 <= x < after.len() implies #[trigger] after[x].0@ == before[x].0@ by {}
    assert forall|x: int| 0 <= x < after.len() - 1 implies text_less(#[trigger] after[x].0@, after[x + 1].0@) by {
        assert(after[x].0@ == before[x].0@ && after[x + 1].0@ == before[x + 1].0@);
    }
    assert forall|n: Seq<char>| #[trigger] entry_value(after, n) == if n == name {
        Some(value)
    } else {
        entry_value(before, n)
    } by {
        lemma_key_index(before, n, 0);
        lemma_key_index(after, n, 0);
        if key_index(before, n, 0) is Some {
            let j = key_index(before, n, 0)->0;
            assert(after[j].0@ == before[j].0@);
            if key_index(after, n, 0) is Some {
                let j2 = key_index(after, n, 0)->0;
                assert(after[j2].0@ == before[j2].0@);
            }
            assert(key_index(after, n, 0) == Some(j));
        } else {
            if key_index(after, n, 0) is Some {
                let j2 = key_index(after, n, 0)->0;
                assert(after[j2].0@ == before[j2].0@);
            }
            assert(key_index(after, n, 0) is None);
        }
    }
}

proof fn lemma_put_insert<V>(before: Seq<(String, V)>, after: Seq<(String, V)>, p: int, name: Seq<char>, value: V)
    requires
        names_ascending(before),
        key_index(before, name, 0) is None,
        p == insert_position(before, name, 0),
        after.len() == before.len() + 1,
        after[p].0@ == name,
        after[p].1 == value,
        forall|j: int| 0 <= j < p ==> after[j] == before[j],
        forall|j: int| p < j < after.len() ==> after[j] == before[j - 1],
    ensures
        names_ascending(after),
        forall|n: Seq<char>| #[trigger] entry_value(after, n) == if n == name {
            Some(value)
        } else {
            entry_value(before, n)
        },
{
    lemma_insert_position(before, name, 0);
    lemma_key_index(before, name, 0);
    if p < before.len() {
        lemma_text_order(before[p].0@, name);
    }
    assert forall|x: int| 0 <= x < after.len() - 1 implies text_less(#[trigger] after[x].0@, after[x + 1].0@) by {
        if x + 1 < p {
            assert(after[x] == before[x] && after[x + 1] == before[x + 1]);
        } else if x + 1 == p {
            assert(after[x] == before[x]);
        } else if x == p {
            assert(after[x + 1] == before[x]);
        } else {
            assert(after[x] == before[x - 1] && after[x + 1] == before[x]);
        }
    }
    assert forall|n: Seq<char>| #[trigger] entry_value(after, n) == if n == name {
        Some(value)
    } else {
        entry_value(before, n)
    } by {
        lemma_key_index(before, n, 0);
        lemma_key_index(after, n, 0);
        lemma_first_match_shift(before, after, p, n);
    }
}

/// Set the value of `name` in an ascending table: the entry is replaced
/// where the table lists the name, and inserted in its place otherwise.
pub fn put_entry<V>(table: &mut Vec<(String, V)>, name: &str, value: V)
    requires
        names_ascending(old(table)@),
    ensures
        names_ascending(final(table)@),
        forall|n: Seq<char>| #[trigger] entry_value(final(table)@, n) == if n == name@ {
            Some(value)
        } else {
            entry_value(old(table)@, n)
        },
        key_index(old(table)@, name@, 0) is Some ==> final(table)@.len() == old(table)@.len(),
        key_index(old(table)@, name@, 0) is None ==> final(table)@.len() == old(table)@.len() + 1,
{
    let ghost before = table@;
    let ghost v = value;
    match find_key(table, name) {
        Some(k) => {
            let key = table[k].0.clone();
            proof {
                lemma_key_index(before, name@, 0);
            }
            table.set(k, (key, value));
            proof {
                assert(table@ =~= before.update(k as int, (before[k as int].0, v)));
                lemma_put_replace(before, table@, k as int, name@, v);
            }
        },
        None => {
            let p = find_position(table, name);
            proof {
                lemma_insert_position(before, name@, 0);
                lemma_key_index(before, name@, 0);
            }
            table.insert(p, (String::from_str(name), value));
            proof {
                assert(table@ =~= before.insert(p as int, table@[p as int]));
                lemma_put_insert(before, table@, p as int, name@, v);
            }
        },
    }
}

/// A table as a map from each listed name to the view of its first value.
pub open spec fn table_map<V: View>(s: Seq<(String, V)>) -> Map<Seq<char>, V::V> {
    Map::new(|n: Seq<char>| key_index(s, n, 0) is Some, |n: Seq<char>| s[key_index(s, n, 0)->0].1@)
}

/// The map of a table after [`put_entry`].
pub proof fn lemma_put_map<V: View>(before: Seq<(String, V)>, after: Seq<(String, V)>, name: Seq<char>, value: V)
    requires
        forall|n: Seq<char>| #[trigger] entry_value(after, n) == if n == name {
            Some(value)
        } else {
            entry_value(before, n)
        },
    ensures
        table_map(after) == table_map(before).insert(name, value@),
{
    assert forall|n: Seq<char>| #[trigger] table_map(after).dom().contains(n) == table_map(before).insert(
        name,
        value@,
    ).dom().contains(n) by {
        assert(entry_value(after, n) == if n == name {
            Some(value)
        } else {
            entry_value(before, n)
        });
    }
    assert forall|n: Seq<char>| #[trigger] table_map(after).dom().contains(n) implies table_map(after)[n]
        == table_map(before).insert(name, value@)[n] by {
        assert(entry_value(after, n) == if n == name {
            Some(value)
        } else {
            entry_value(before, n)
        });
    }
    assert(table_map(after) =~= table_map(before).insert(name, value@));
}

proof fn lemma_ascending_pair<V>(s: Seq<(String, V)>, i: int, j: int)
    requires
        names_ascending(s),
        0 <= i < j < s.len(),
    ensures
        text_less(s[i].0@, s[j].0@),
    decreases j - i,
{
    assert(text_less(s[j - 1].0@, s[j].0@));
    if j > i + 1 {
        lemma_ascending_pair(s, i, j - 1);
        lemma_text_less_trans(s[i].0@, s[j - 1].0@, s[j].0@);
    }
}

/// Names in ascending order are distinct.
pub proof fn lemma_ascending_distinct<V>(s: Seq<(String, V)>)
    requires
        names_ascending(s),
    ensures
        names_distinct(s),
{
    assert forall|i: int, j: int| 0 <= i < j < s.len() implies (#[trigger] s[i]).0@ != (#[trigger] s[j]).0@ by {
        lemma_ascending_pair(s, i, j);
        lemma_text_order(s[i].0@, s[j].0@);
    }
}

/// Two tables list the same names with the same values, entry by entry.
pub open spec fn same_views<V: View>(a: Seq<(String, V)>, b: Seq<(String, V)>) -> bool {
    &&& a.len() == b.len()
    &&& forall|i: int| 0 <= i < a.len() ==> (#[trigger] a[i]).0@ == b[i].0@ && a[i].1@ == b[i].1@
}

proof fn lemma_same_key_index<V: View>(a: Seq<(String, V)>, b: Seq<(String, V)>, n: Seq<char>, i: int)
    requires
        same_views(a, b),
        0 <= i,
    ensures
        key_index(a, n, i) == key_index(b, n, i),
    decreases a.len() - i,
{
    if i < a.len() {
        assert(a[i].0@ == b[i].0@);
        lemma_same_key_index(a, b, n, i + 1);
    }
}

/// Tables with the same views have the same map and the same order.
pub proof fn lemma_same_views<V: View>(a: Seq<(String, V)>, b: Seq<(String, V)>)
    requires
        same_views(a, b),
    ensures
        table_map(a) == table_map(b),
        names_ascending(a) == names_ascending(b),
{
    assert forall|n: Seq<char>| #[trigger] key_index(a, n, 0) == key_index(b, n, 0) by {
        lemma_same_key_index(a, b, n, 0);
    }
    assert forall|n: Seq<char>| #[trigger] table_map(a).dom().contains(n) implies table_map(a)[n] == table_map(b)[n] by {
        lemma_key_index(a, n, 0);
        let k = key_index(a, n, 0)->0;
        assert(a[k].1@ == b[k].1@);
    }
    assert(table_map(a) =~= table_map(b));
    if names_ascending(a) {
        assert forall|i: int| 0 <= i < b.len() - 1 implies text_less(#[trigger] b[i].0@, b[i + 1].0@) by {
            assert(a[i].0@ == b[i].0@ && a[i + 1].0@ == b[i + 1].0@);
            assert(text_less(a[i].0@, a[i + 1].0@));
        }
    }
    if names_ascending(b) {
        assert forall|i: int| 0 <= i < a.len() - 1 implies text_less(#[trigger] a[i].0@, a[i + 1].0@) by {
            assert(a[i].0@ == b[i].0@ && a[i + 1].0@ == b[i + 1].0@);
            assert(text_less(b[i].0@, b[i + 1].0@));
        }
    }
}

/// A copy of a table of texts.
pub fn copy_texts(v: &Vec<(String, String)>) -> (r: Vec<(String, String)>)
    ensures
        same_views(r@, v@),
{
    let mut out: Vec<(String, String)> = Vec::new();
    let mut i: usize = 0;
    while i < v.len()
        invariant
            i <= v@.len(),
            out@.len() == i,
            forall|j: int| 0 <= j < i ==> (#[trigger] out@[j]).0@ == v@[j].0@ && out@[j].1@ == v@[j].1@,
        decreases v@.len() - i,
    {
        out.push((v[i].0.clone(), v[i].1.clone()));
        i += 1;
    }
    out
}

} // verus!
