//! Splitting of comma- and semicolon-separated lists of names.
use vstd::prelude::*;

use crate::text::{str_eq, trim_blanks, trimmed};

verus! {

/// The pieces of `s` between occurrences of `c`, in order; there is always at
/// least one piece, possibly empty.
pub open spec fn split_on(s: Seq<char>, c: char) -> Seq<Seq<char>>
    decreases s.len(),
{
    if s.len() == 0 {
        seq![Seq::empty()]
    } else {
        let pieces = split_on(s.drop_last(), c);
        if s.last() == c {
            pieces.push(Seq::empty())
        } else {
            pieces.update(pieces.len() - 1, pieces.last().push(s.last()))
        }
    }
}

/// The pieces of `s` between occurrences of `c`.
pub fn split_pieces(s: &str, c: char) -> (r: Vec<String>)
    ensures
        r@.len() == split_on(s@, c).len(),
        forall|i: int| 0 <= i < r@.len() ==> (#[trigger] r@[i])@ == split_on(s@, c)[i],
{
    let n = s.unicode_len();
    let mut pieces: Vec<String> = Vec::new();
    let mut start: usize = 0;
    let mut i: usize = 0;
    assert(s@.subrange(0, 0) =~= Seq::<char>::empty());
    while i < n
        invariant
            n == s@.len(),
            start <= i <= n,
            split_on(s@.subrange(0, i as int), c).len() == pieces@.len() + 1,
            forall|k: int|
                0 <= k < pieces@.len() ==> (#[trigger] pieces@[k])@ == split_on(
                    s@.subrange(0, i as int),
                    c,
                )[k],
            split_on(s@.subrange(0, i as int), c).last() == s@.subrange(start as int, i as int),
        decreases n - i,
    {
        let ghost pre = s@.subrange(0, i as int);
        let ghost next = s@.subrange(0, i + 1);
        assert(next.drop_last() =~= pre);
        assert(next.last() == s@[i as int]);
        if s.get_char(i) == c {
            pieces.push(s.substring_char(start, i).to_owned());
            start = i + 1;
            assert(s@.subrange(start as int, i + 1) =~= Seq::<char>::empty());
        } else {
            assert(s@.subrange(start as int, i + 1) =~= s@.subrange(start as int, i as int).push(
                s@[i as int],
            ));
        }
        i = i + 1;
    }
    pieces.push(s.substring_char(start, n).to_owned());
    assert(s@.subrange(0, n as int) =~= s@);
    pieces
}

/// Splits a comma-separated list into its items, each without surrounding blanks.
pub fn into_field_list(s: &str) -> (r: Vec<String>)
    ensures
        r@.len() == split_on(s@, ',').len(),
        forall|i: int| 0 <= i < r@.len() ==> (#[trigger] r@[i])@ == trimmed(split_on(s@, ',')[i]),
{
    let pieces = split_pieces(s, ',');
    let mut r: Vec<String> = Vec::new();
    let mut i: usize = 0;
    while i < pieces.len()
        invariant
            pieces@.len() == split_on(s@, ',').len(),
            forall|k: int| 0 <= k < pieces@.len() ==> (#[trigger] pieces@[k])@ == split_on(s@, ',')[k],
            i <= pieces@.len(),
            r@.len() == i,
            forall|k: int| 0 <= k < i ==> (#[trigger] r@[k])@ == trimmed(split_on(s@, ',')[k]),
        decreases pieces@.len() - i,
    {
        r.push(trim_blanks(pieces[i].as_str()));
        i = i + 1;
    }
    r
}

/// The record name of a `name: field, field, ...` group.
pub open spec fn group_key(g: Seq<char>) -> Seq<char> {
    trimmed(split_on(g, ':')[0])
}

/// The field names of a `name: field, field, ...` group.
pub open spec fn group_fields(g: Seq<char>) -> Seq<Seq<char>> {
    split_on(trimmed(split_on(g, ':')[1]), ',').map_values(|f: Seq<char>| trimmed(f))
}

/// The record-name to field-names map that `s`, a `;`-separated list of groups,
/// describes: a later group of the same name replaces an earlier one.
pub open spec fn rec_map_of(groups: Seq<Seq<char>>) -> Map<Seq<char>, Seq<Seq<char>>>
    decreases groups.len(),
{
    if groups.len() == 0 {
        Map::empty()
    } else {
        rec_map_of(groups.drop_last()).insert(
            group_key(groups.last()),
            group_fields(groups.last()),
        )
    }
}

/// `entries` lists each key of `m` once, with its value.
pub open spec fn lists_map(entries: Seq<(String, Vec<String>)>, m: Map<Seq<char>, Seq<Seq<char>>>) -> bool {
    &&& forall|i: int, j: int|
        0 <= i < j < entries.len() ==> (#[trigger] entries[i]).0@ != (#[trigger] entries[j]).0@
    &&& forall|i: int|
        0 <= i < entries.len() ==> m.contains_key((#[trigger] entries[i]).0@) && m[entries[i].0@]
            == entries[i].1@.map_values(|f: String| f@)
    &&& forall|k: Seq<char>|
        #[trigger] m.contains_key(k) ==> exists|i: int| 0 <= i < entries.len() && (#[trigger] entries[i]).0@ == k
}

/// Every `;`-separated group of `s` holds a `:`.
pub open spec fn groups_have_colon(s: Seq<char>) -> bool {
    forall|i: int|
        0 <= i < split_on(s, ';').len() ==> split_on(#[trigger] split_on(s, ';')[i], ':').len()
            >= 2
}

/// Reads `name: field, field; name: field, ...` as a list of record names, each with
/// its field names; names are stripped of surrounding blanks, and a later group of
/// the same name replaces an earlier one.
pub fn into_rec_map(s: &str) -> (r: Vec<(String, Vec<String>)>)
    requires
        groups_have_colon(s@),
    ensures
        lists_map(r@, rec_map_of(split_on(s@, ';'))),
{
    let groups = split_pieces(s, ';');
    let ghost gs = split_on(s@, ';');
    let mut r: Vec<(String, Vec<String>)> = Vec::new();
    let mut i: usize = 0;
    assert(gs.subrange(0, 0) =~= Seq::<Seq<char>>::empty());
    while i < groups.len()
        invariant
            groups@.len() == gs.len(),
            gs == split_on(s@, ';'),
            groups_have_colon(s@),
            forall|k: int| 0 <= k < groups@.len() ==> (#[trigger] groups@[k])@ == gs[k],
            i <= groups@.len(),
            lists_map(r@, rec_map_of(gs.subrange(0, i as int))),
        decreases groups@.len() - i,
    {
        let parts = split_pieces(groups[i].as_str(), ':');
        assert(split_on(gs[i as int], ':').len() >= 2);
        let key = trim_blanks(parts[0].as_str());
        let rest = trim_blanks(parts[1].as_str());
        let fields = into_field_list(rest.as_str());
        assert(fields@.map_values(|f: String| f@) =~= group_fields(gs[i as int]));
        let ghost before = r@;
        let ghost m = rec_map_of(gs.subrange(0, i as int));
        assert(gs.subrange(0, i + 1).drop_last() =~= gs.subrange(0, i as int));
        let mut k: usize = 0;
        while k < r.len() && !str_eq(r[k].0.as_str(), key.as_str())
            invariant
                k <= r@.len(),
                r@ == before,
                forall|j: int| 0 <= j < k ==> (#[trigger] r@[j]).0@ != key@,
            decreases r@.len() - k,
        {
            k = k + 1;
        }
        let found = k < r.len();
        let ghost kv = key@;
        let ghost fv = fields@.map_values(|f: String| f@);
        let ghost m2 = m.insert(kv, fv);
        if found {
            r.set(k, (key, fields));
            proof {
                assert(r@[k as int].0@ == kv);
                assert(r@[k as int].1@.map_values(|f: String| f@) == fv);
                assert forall|a: int, b: int| 0 <= a < b < r@.len() implies (#[trigger] r@[a]).0@
                    != (#[trigger] r@[b]).0@ by {
                    if a != k as int && b != k as int {
                        assert(r@[a] == before[a] && r@[b] == before[b]);
                    } else if a == k as int {
                        assert(r@[b] == before[b]);
                    } else {
                        assert(r@[a] == before[a]);
                    }
                }
                assert forall|j: int| 0 <= j < r@.len() implies m2.contains_key(
                    (#[trigger] r@[j]).0@,
                ) && m2[r@[j].0@] == r@[j].1@.map_values(|f: String| f@) by {
                    if j != k as int {
                        assert(r@[j] == before[j]);
                    }
                }
                assert forall|key2: Seq<char>| #[trigger] m2.contains_key(key2) implies exists|j: int|
                    0 <= j < r@.len() && (#[trigger] r@[j]).0@ == key2 by {
                    if key2 == kv {
                        assert(r@[k as int].0@ == key2);
                    } else {
                        let j = choose|j: int| 0 <= j < before.len() && (#[trigger] before[j]).0@ == key2;
                        assert(r@[j] == before[j]);
                    }
                }
            }
        } else {
            r.push((key, fields));
            proof {
                assert(r@[before.len() as int].0@ == kv);
                assert(r@[before.len() as int].1@.map_values(|f: String| f@) == fv);
                assert forall|a: int, b: int| 0 <= a < b < r@.len() implies (#[trigger] r@[a]).0@
                    != (#[trigger] r@[b]).0@ by {
                    assert(r@[a] == before[a]);
                    if b < before.len() {
                        assert(r@[b] == before[b]);
                    }
                }
                assert forall|j: int| 0 <= j < r@.len() implies m2.contains_key(
                    (#[trigger] r@[j]).0@,
                ) && m2[r@[j].0@] == r@[j].1@.map_values(|f: String| f@) by {
                    if j < before.len() {
                        assert(r@[j] == before[j]);
                    }
                }
                assert forall|key2: Seq<char>| #[trigger] m2.contains_key(key2) implies exists|j: int|
                    0 <= j < r@.len() && (#[trigger] r@[j]).0@ == key2 by {
                    if key2 == kv {
                        assert(r@[before.len() as int].0@ == key2);
                    } else {
                        let j = choose|j: int| 0 <= j < before.len() && (#[trigger] before[j]).0@ == key2;
                        assert(r@[j] == before[j]);
                    }
                }
            }
        }
        i = i + 1;
    }
    assert(gs.subrange(0, i as int) =~= gs);
    r
}

} // verus!
