//! Entries kept in strictly increasing order of their names, with at most
//! one entry a name: the entries of a `BTreeMap` keyed by `String`.

use vstd::prelude::*;
use vstd::utf8::encode_utf8;

use crate::rpa::vfs::{
    compare_bytes, lemma_bytes_lt_irreflexive, lemma_bytes_lt_total, lemma_bytes_lt_transitive,
    lemma_encode_injective, strictly_sorted, text_lt, Order,
};

verus! {

/// The names of named entries.
pub open spec fn keys_of<V>(s: Seq<(Seq<char>, V)>) -> Seq<Seq<char>> {
    s.map_values(|e: (Seq<char>, V)| e.0)
}

/// The names of entries held with a `String` name.
pub open spec fn names_in<V>(v: Seq<(String, V)>) -> Seq<Seq<char>> {
    v.map_values(|e: (String, V)| e.0@)
}

/// Entries in name order with `e` put in place of the entry of its name, or
/// where its name belongs: what `BTreeMap::insert` does to a map's entries.
pub open spec fn sorted_put<V>(s: Seq<(Seq<char>, V)>, e: (Seq<char>, V)) -> Seq<(Seq<char>, V)>
    decreases s.len(),
{
    if s.len() == 0 {
        seq![e]
    } else if s[0].0 == e.0 {
        seq![e] + s.drop_first()
    } else if text_lt(e.0, s[0].0) {
        seq![e] + s
    } else {
        seq![s[0]] + sorted_put(s.drop_first(), e)
    }
}

/// The position at which `name` belongs among entries sorted by name, and
/// whether the entry there has that name.
pub fn slot<V>(entries: &Vec<(String, V)>, name: &String) -> (r: (usize, bool))
    requires
        strictly_sorted(names_in(entries@)),
    ensures
        r.0 <= entries@.len(),
        forall|i: int| 0 <= i < r.0 ==> text_lt(#[trigger] entries@[i].0@, name@),
        forall|i: int| r.0 <= i < entries@.len() ==> !text_lt(#[trigger] entries@[i].0@, name@),
        r.1 == (r.0 < entries@.len() && entries@[r.0 as int].0@ == name@),
{
    let ghost v = names_in(entries@);
    let mut lo: usize = 0;
    let mut hi: usize = entries.len();
    while lo < hi
        invariant
            v == names_in(entries@),
            strictly_sorted(v),
            lo <= hi <= entries@.len(),
            forall|i: int| 0 <= i < lo ==> text_lt(#[trigger] entries@[i].0@, name@),
            forall|i: int| hi <= i < entries@.len() ==> !text_lt(#[trigger] entries@[i].0@, name@),
        decreases hi - lo,
    {
        let mid = lo + (hi - lo) / 2;
        let o = compare_bytes(entries[mid].0.as_str().as_bytes(), name.as_str().as_bytes());
        assert(v[mid as int] == entries@[mid as int].0@);
        if o == Order::Before {
            assert forall|i: int| 0 <= i <= mid implies text_lt(#[trigger] entries@[i].0@, name@) by {
                if i < mid {
                    assert(v[i] == entries@[i].0@);
                    assert(text_lt(v[i], v[mid as int]));
                    lemma_bytes_lt_transitive(
                        encode_utf8(entries@[i].0@),
                        encode_utf8(entries@[mid as int].0@),
                        encode_utf8(name@),
                    );
                }
            }
            lo = mid + 1;
        } else {
            assert forall|i: int| mid <= i < entries@.len() implies !text_lt(#[trigger] entries@[i].0@, name@) by {
                if i > mid && text_lt(entries@[i].0@, name@) {
                    assert(v[i] == entries@[i].0@);
                    assert(text_lt(v[mid as int], v[i]));
                    lemma_bytes_lt_transitive(
                        encode_utf8(entries@[mid as int].0@),
                        encode_utf8(entries@[i].0@),
                        encode_utf8(name@),
                    );
                }
            }
            hi = mid;
        }
    }
    if lo < entries.len() {
        let same = compare_bytes(entries[lo].0.as_str().as_bytes(), name.as_str().as_bytes())
            == Order::Same;
        proof {
            lemma_encode_injective(entries@[lo as int].0@, name@);
        }
        (lo, same)
    } else {
        (lo, false)
    }
}

/// Where `sorted_put` puts an entry: at the first position whose name is
/// not before its own, replacing an entry of the same name.
pub proof fn lemma_sorted_put_at<V>(s: Seq<(Seq<char>, V)>, e: (Seq<char>, V), p: int)
    requires
        0 <= p <= s.len(),
        forall|i: int| 0 <= i < p ==> text_lt(#[trigger] s[i].0, e.0),
        forall|i: int| p <= i < s.len() ==> !text_lt(#[trigger] s[i].0, e.0),
    ensures
        sorted_put(s, e) == if p < s.len() && s[p].0 == e.0 {
            s.update(p, e)
        } else {
            s.insert(p, e)
        },
    decreases s.len(),
{
    if s.len() == 0 {
        assert(s.insert(p, e) =~= seq![e]);
    } else if p == 0 {
        if s[0].0 == e.0 {
            assert(seq![e] + s.drop_first() =~= s.update(0, e));
        } else {
            lemma_bytes_lt_total(encode_utf8(s[0].0), encode_utf8(e.0));
            lemma_encode_injective(s[0].0, e.0);
            assert(seq![e] + s =~= s.insert(0, e));
        }
    } else {
        let a = s[0].0;
        assert(text_lt(a, e.0));
        lemma_bytes_lt_irreflexive(encode_utf8(a));
        assert(a != e.0);
        if text_lt(e.0, a) {
            lemma_bytes_lt_transitive(encode_utf8(a), encode_utf8(e.0), encode_utf8(a));
        }
        let rest = s.drop_first();
        assert forall|i: int| 0 <= i < p - 1 implies text_lt(#[trigger] rest[i].0, e.0) by {
            assert(rest[i] == s[i + 1]);
        }
        assert forall|i: int| p - 1 <= i < rest.len() implies !text_lt(#[trigger] rest[i].0, e.0) by {
            assert(rest[i] == s[i + 1]);
        }
        lemma_sorted_put_at(rest, e, p - 1);
        if p < s.len() && s[p].0 == e.0 {
            assert(seq![s[0]] + rest.update(p - 1, e) =~= s.update(p, e));
        } else {
            assert(seq![s[0]] + rest.insert(p - 1, e) =~= s.insert(p, e));
        }
    }
}

/// Putting an entry keeps the names in strictly increasing order.
pub proof fn lemma_sorted_put_sorted<V>(s: Seq<(Seq<char>, V)>, e: (Seq<char>, V), p: int)
    requires
        strictly_sorted(keys_of(s)),
        0 <= p <= s.len(),
        forall|i: int| 0 <= i < p ==> text_lt(#[trigger] s[i].0, e.0),
        forall|i: int| p <= i < s.len() ==> !text_lt(#[trigger] s[i].0, e.0),
    ensures
        strictly_sorted(keys_of(sorted_put(s, e))),
{
    lemma_sorted_put_at(s, e, p);
    let v = keys_of(s);
    let w = keys_of(sorted_put(s, e));
    if p < s.len() && s[p].0 == e.0 {
        assert forall|i: int, j: int| 0 <= i < j < w.len() implies text_lt(#[trigger] w[i], #[trigger] w[j]) by {
            assert(w[i] == v[i] && w[j] == v[j]);
        }
    } else {
        if p < s.len() {
            lemma_bytes_lt_total(encode_utf8(s[p].0), encode_utf8(e.0));
            lemma_encode_injective(s[p].0, e.0);
            assert(text_lt(e.0, s[p].0));
        }
        assert forall|i: int, j: int| 0 <= i < j < w.len() implies text_lt(#[trigger] w[i], #[trigger] w[j]) by {
            if j < p {
                assert(w[i] == v[i] && w[j] == v[j]);
            } else if j == p {
                assert(w[i] == v[i]);
                assert(w[j] == e.0);
                assert(text_lt(s[i].0, e.0));
            } else if i == p {
                assert(w[i] == e.0);
                assert(w[j] == v[j - 1]);
                if j - 1 > p {
                    assert(text_lt(v[p], v[j - 1]));
                    lemma_bytes_lt_transitive(encode_utf8(e.0), encode_utf8(v[p]), encode_utf8(v[j - 1]));
                }
            } else if i < p {
                assert(w[i] == v[i] && w[j] == v[j - 1]);
            } else {
                assert(w[i] == v[i - 1] && w[j] == v[j - 1]);
            }
        }
    }
}

/// The slot that `slot` finds for an entry, in terms of viewed entries
/// whose names are those of `entries`.
pub proof fn lemma_slot_view<V, W>(entries: Seq<(String, V)>, s: Seq<(Seq<char>, W)>, name: Seq<char>, p: int)
    requires
        s.len() == entries.len(),
        forall|i: int| 0 <= i < s.len() ==> #[trigger] s[i].0 == entries[i].0@,
        0 <= p <= entries.len(),
        forall|i: int| 0 <= i < p ==> text_lt(#[trigger] entries[i].0@, name),
        forall|i: int| p <= i < entries.len() ==> !text_lt(#[trigger] entries[i].0@, name),
    ensures
        forall|i: int| 0 <= i < p ==> text_lt(#[trigger] s[i].0, name),
        forall|i: int| p <= i < s.len() ==> !text_lt(#[trigger] s[i].0, name),
        keys_of(s) == names_in(entries),
{
    assert forall|i: int| 0 <= i < p implies text_lt(#[trigger] s[i].0, name) by {
        assert(text_lt(entries[i].0@, name));
    }
    assert forall|i: int| p <= i < s.len() implies !text_lt(#[trigger] s[i].0, name) by {
        assert(!text_lt(entries[i].0@, name));
    }
    assert(keys_of(s) =~= names_in(entries));
}

} // verus!
