use vstd::prelude::*;
use crate::tagset::{tag_set, distinct_tags};

verus! {

/// How many of the tag sets `sets` hold tag `t`.
pub open spec fn rows_with_tag(sets: Seq<Set<Seq<char>>>, t: Seq<char>) -> nat
    decreases sets.len(),
{
    if sets.len() == 0 {
        0
    } else {
        rows_with_tag(sets.drop_last(), t) + if sets.last().contains(t) { 1nat } else { 0nat }
    }
}

/// The tag sets of a list of tag lists.
pub open spec fn row_sets(rows: Seq<Vec<String>>) -> Seq<Set<Seq<char>>> {
    rows.map_values(|v: Vec<String>| tag_set(v@))
}

/// No tag text names two entries of a count list.
pub open spec fn distinct_keys(entries: Seq<(String, u32)>) -> bool {
    forall|a: int, b: int| 0 <= a < b < entries.len() ==> entries[a].0@ != entries[b].0@
}

/// Whether some entry of a count list is for tag `t`.
pub open spec fn names_tag(entries: Seq<(String, u32)>, t: Seq<char>) -> bool {
    exists|k: int| 0 <= k < entries.len() && entries[k].0@ == t
}

/// A count list that gives, for every tag held by some set of `sets`, how many
/// of them hold it, and names no other tag.
pub open spec fn counts_of(entries: Seq<(String, u32)>, sets: Seq<Set<Seq<char>>>) -> bool {
    &&& distinct_keys(entries)
    &&& forall|k: int| 0 <= k < entries.len() ==> entries[k].1 as nat == #[trigger] rows_with_tag(sets, entries[k].0@)
    &&& forall|k: int| 0 <= k < entries.len() ==> entries[k].1 > 0
    &&& forall|t: Seq<char>| #[trigger] rows_with_tag(sets, t) > 0 ==> names_tag(entries, t)
}

proof fn lemma_rows_with_tag_bound(sets: Seq<Set<Seq<char>>>, t: Seq<char>)
    ensures
        rows_with_tag(sets, t) <= sets.len(),
    decreases sets.len(),
{
    if sets.len() > 0 {
        lemma_rows_with_tag_bound(sets.drop_last(), t);
    }
}

fn find_entry(entries: &Vec<(String, u32)>, tag: &String) -> (r: Option<usize>)
    ensures
        match r {
            Some(k) => k < entries@.len() && entries@[k as int].0@ == tag@,
            None => forall|k: int| 0 <= k < entries@.len() ==> entries@[k].0@ != tag@,
        },
{
    let mut i: usize = 0;
    while i < entries.len()
        invariant
            i <= entries.len(),
            forall|k: int| 0 <= k < i ==> entries@[k].0@ != tag@,
        decreases entries.len() - i,
    {
        if entries[i].0 == *tag {
            return Some(i);
        }
        i += 1;
    }
    None
}

/// For each tag on some list of `rows`, the number of lists that hold it.
pub fn count_tags(rows: &Vec<Vec<String>>) -> (r: Vec<(String, u32)>)
    requires
        forall|i: int| 0 <= i < rows@.len() ==> distinct_tags(#[trigger] rows@[i]@),
        rows@.len() <= u32::MAX,
    ensures
        counts_of(r@, row_sets(rows@)),
{
    let ghost sets = row_sets(rows@);
    let mut e: Vec<(String, u32)> = Vec::new();
    let mut i: usize = 0;
    while i < rows.len()
        invariant
            i <= rows.len(),
            rows@.len() <= u32::MAX,
            sets == row_sets(rows@),
            forall|i: int| 0 <= i < rows@.len() ==> distinct_tags(#[trigger] rows@[i]@),
            counts_of(e@, sets.take(i as int)),
        decreases rows.len() - i,
    {
        let row = &rows[i];
        let ghost before = sets.take(i as int);
        let mut j: usize = 0;
        proof {
            assert(tag_set(row@.take(0)) =~= Set::empty());
        }
        while j < row.len()
            invariant
                i < rows.len(),
                rows@.len() <= u32::MAX,
                row == rows@[i as int],
                sets == row_sets(rows@),
                distinct_tags(row@),
                j <= row.len(),
                before == sets.take(i as int),
                distinct_keys(e@),
                forall|k: int| 0 <= k < e@.len() ==> e@[k].1 > 0,
                forall|k: int| 0 <= k < e@.len() ==> e@[k].1 as nat == rows_with_tag(before, e@[k].0@)
                    + if tag_set(row@.take(j as int)).contains(e@[k].0@) { 1nat } else { 0nat },
                forall|t: Seq<char>|
                    #![trigger rows_with_tag(before, t)]
                    #![trigger tag_set(row@.take(j as int)).contains(t)]
                    rows_with_tag(before, t) > 0 || tag_set(row@.take(j as int)).contains(t)
                    ==> names_tag(e@, t),
            decreases row.len() - j,
        {
            let tag = &row[j];
            let ghost pre = row@.take(j as int);
            let ghost post = row@.take(j + 1);
            proof {
                assert(post =~= pre.push(row@[j as int]));
                assert forall|t: Seq<char>| tag_set(post).contains(t) <==> (tag_set(pre).contains(t) || t == tag@) by {
                    if tag_set(post).contains(t) {
                        let k = choose|k: int| 0 <= k < post.len() && post[k]@ == t;
                        if k < j {
                            assert(pre[k] == post[k]);
                        }
                    }
                    if tag_set(pre).contains(t) {
                        let k = choose|k: int| 0 <= k < pre.len() && pre[k]@ == t;
                        assert(pre[k] == post[k]);
                    }
                    assert(post[j as int] == *tag);
                }
                assert(!tag_set(pre).contains(tag@)) by {
                    if tag_set(pre).contains(tag@) {
                        let k = choose|k: int| 0 <= k < pre.len() && pre[k]@ == tag@;
                        assert(pre[k] == row@[k]);
                    }
                }
                lemma_rows_with_tag_bound(before, tag@);
                assert(before.len() == i);
            }
            let ghost old_e = e@;
            match find_entry(&e, tag) {
                Some(k) => {
                    let key = e[k].0.clone();
                    let n = e[k].1;
                    assert(n as nat == rows_with_tag(before, tag@));
                    e.set(k, (key, n + 1));
                    proof {
                        assert forall|t: Seq<char>| rows_with_tag(before, t) > 0 || tag_set(post).contains(t)
                            implies names_tag(e@, t) by {
                            if t == tag@ {
                                assert(e@[k as int].0@ == t);
                            } else {
                                assert(rows_with_tag(before, t) > 0 || tag_set(pre).contains(t));
                                assert(names_tag(old_e, t));
                                let m = choose|m: int| 0 <= m < old_e.len() && old_e[m].0@ == t;
                                assert(e@[m].0@ == t);
                            }
                        }
                    }
                },
                None => {
                    e.push((tag.clone(), 1));
                    proof {
                        assert(rows_with_tag(before, tag@) == 0);
                        assert forall|t: Seq<char>| rows_with_tag(before, t) > 0 || tag_set(post).contains(t)
                            implies names_tag(e@, t) by {
                            if t == tag@ {
                                assert(e@[old_e.len() as int].0@ == t);
                            } else {
                                assert(rows_with_tag(before, t) > 0 || tag_set(pre).contains(t));
                                assert(names_tag(old_e, t));
                                let m = choose|m: int| 0 <= m < old_e.len() && old_e[m].0@ == t;
                                assert(e@[m].0@ == t);
                            }
                        }
                    }
                },
            }
            j += 1;
        }
        proof {
            assert(row@.take(row@.len() as int) =~= row@);
            assert(sets.take(i + 1).drop_last() =~= before);
            assert(sets.take(i + 1).last() == tag_set(row@));
            assert forall|t: Seq<char>| #[trigger] rows_with_tag(sets.take(i + 1), t) > 0
                implies names_tag(e@, t) by {
                assert(rows_with_tag(before, t) > 0 || tag_set(row@).contains(t));
            }
        }
        i += 1;
    }
    proof {
        assert(sets.take(rows@.len() as int) =~= sets);
    }
    e
}

} // verus!
