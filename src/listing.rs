use vstd::prelude::*;
use crate::error::FtagError;
use crate::tagset::{tag_set, distinct_tags, tags_match, matches_search};
use crate::codec::{stored_tags, strings_view, decode_tags};
use crate::counts::{rows_with_tag, row_sets, counts_of, names_tag, count_tags};

verus! {

/// A record as a scan of the table yields it.
pub struct TableRow {
    pub path: String,
    /// The JSON text of the path's tag list.
    pub tags: String,
}

/// What a global listing comes to.
pub struct GlobalTags {
    /// The paths whose records are stale and go, in table order.
    pub stale: Vec<String>,
    /// For each tag on a file still on disk, how many such files carry it.
    pub counts: Vec<(String, u32)>,
}

/// The tag set a record's text holds, or none where it is not well formed.
pub open spec fn row_tags(row: TableRow) -> Set<Seq<char>> {
    match stored_tags(row.tags@) {
        Some(s) => s,
        None => Set::empty(),
    }
}

/// Whether every record's text holds a tag list.
pub open spec fn all_readable(rows: Seq<TableRow>) -> bool {
    forall|i: int| 0 <= i < rows.len() ==> (#[trigger] stored_tags(rows[i].tags@)) is Some
}

/// The paths of a scan, each with the tag set its record holds.
pub open spec fn table_view(rows: Seq<TableRow>) -> Seq<(Seq<char>, Set<Seq<char>>)> {
    rows.map_values(|r: TableRow| (r.path@, row_tags(r)))
}

/// Paths with their tag lists, as paths with tag sets.
pub open spec fn decoded_view(rows: Seq<(String, Vec<String>)>) -> Seq<(Seq<char>, Set<Seq<char>>)> {
    rows.map_values(|e: (String, Vec<String>)| (e.0@, tag_set(e.1@)))
}

/// The entries of `rows` that answer a search for `find` without `exclude`,
/// in their order.
pub open spec fn matching(
    find: Set<Seq<char>>,
    exclude: Set<Seq<char>>,
    rows: Seq<(Seq<char>, Set<Seq<char>>)>,
) -> Seq<(Seq<char>, Set<Seq<char>>)>
    decreases rows.len(),
{
    if rows.len() == 0 {
        Seq::empty()
    } else {
        let prev = matching(find, exclude, rows.drop_last());
        if matches_search(find, exclude, rows.last().1) {
            prev.push(rows.last())
        } else {
            prev
        }
    }
}

/// A search yields exactly the entries of `rows` whose tags include all of
/// `find` and none of `exclude`.
pub proof fn lemma_matching_exact(
    find: Set<Seq<char>>,
    exclude: Set<Seq<char>>,
    rows: Seq<(Seq<char>, Set<Seq<char>>)>,
)
    ensures
        forall|e: (Seq<char>, Set<Seq<char>>)| #[trigger] matching(find, exclude, rows).contains(e)
            <==> rows.contains(e) && matches_search(find, exclude, e.1),
    decreases rows.len(),
{
    if rows.len() > 0 {
        let prev = rows.drop_last();
        lemma_matching_exact(find, exclude, prev);
        let m = matching(find, exclude, rows);
        let mp = matching(find, exclude, prev);
        assert forall|e: (Seq<char>, Set<Seq<char>>)| m.contains(e)
            <==> rows.contains(e) && matches_search(find, exclude, e.1) by {
            if m.contains(e) {
                let k = choose|k: int| 0 <= k < m.len() && m[k] == e;
                if k < mp.len() {
                    assert(mp[k] == e);
                    assert(mp.contains(e));
                    let j = choose|j: int| 0 <= j < prev.len() && prev[j] == e;
                    assert(rows[j] == e);
                } else {
                    assert(rows[rows.len() - 1] == e);
                }
            }
            if rows.contains(e) && matches_search(find, exclude, e.1) {
                let j = choose|j: int| 0 <= j < rows.len() && rows[j] == e;
                if j < prev.len() {
                    assert(prev[j] == e);
                    assert(mp.contains(e));
                    let k = choose|k: int| 0 <= k < mp.len() && mp[k] == e;
                    assert(m[k] == e);
                } else {
                    assert(m[m.len() - 1] == e);
                }
            }
        }
    }
}

/// The paths of the scanned records whose files are gone, in table order.
pub open spec fn stale_of(rows: Seq<(TableRow, bool)>) -> Seq<Seq<char>>
    decreases rows.len(),
{
    if rows.len() == 0 {
        Seq::empty()
    } else {
        let prev = stale_of(rows.drop_last());
        if rows.last().1 {
            prev
        } else {
            prev.push(rows.last().0.path@)
        }
    }
}

/// The tag sets of the scanned records whose files are still on disk.
pub open spec fn live_sets(rows: Seq<(TableRow, bool)>) -> Seq<Set<Seq<char>>>
    decreases rows.len(),
{
    if rows.len() == 0 {
        Seq::empty()
    } else {
        let prev = live_sets(rows.drop_last());
        if rows.last().1 {
            prev.push(row_tags(rows.last().0))
        } else {
            prev
        }
    }
}

/// Whether every scanned record of a file still on disk holds a tag list.
pub open spec fn live_readable(rows: Seq<(TableRow, bool)>) -> bool {
    forall|i: int| 0 <= i < rows.len() && rows[i].1 ==> (#[trigger] stored_tags(rows[i].0.tags@)) is Some
}

/// The paths to prune: those of the scanned records (each with whether its
/// file is still on disk) whose files are gone, in table order.
pub fn stale_paths(rows: &Vec<(TableRow, bool)>) -> (r: Vec<String>)
    ensures
        strings_view(r@) == stale_of(rows@),
{
    let mut r: Vec<String> = Vec::new();
    let mut i: usize = 0;
    while i < rows.len()
        invariant
            i <= rows.len(),
            strings_view(r@) == stale_of(rows@.take(i as int)),
        decreases rows.len() - i,
    {
        proof {
            assert(rows@.take(i + 1).drop_last() =~= rows@.take(i as int));
        }
        if !rows[i].1 {
            r.push(rows[i].0.path.clone());
        }
        assert(strings_view(r@) =~= stale_of(rows@.take(i + 1)));
        i += 1;
    }
    assert(rows@.take(rows@.len() as int) =~= rows@);
    r
}

/// The entries of `rows` whose tags include all of `find` and none of
/// `exclude`, in their order.
pub fn find_matching(
    find: &Vec<String>,
    exclude: &Vec<String>,
    rows: &Vec<(String, Vec<String>)>,
) -> (r: Vec<(String, Vec<String>)>)
    ensures
        decoded_view(r@) == matching(tag_set(find@), tag_set(exclude@), decoded_view(rows@)),
{
    let ghost f = tag_set(find@);
    let ghost x = tag_set(exclude@);
    let mut r: Vec<(String, Vec<String>)> = Vec::new();
    let mut i: usize = 0;
    while i < rows.len()
        invariant
            i <= rows.len(),
            f == tag_set(find@),
            x == tag_set(exclude@),
            decoded_view(r@) == matching(f, x, decoded_view(rows@.take(i as int))),
        decreases rows.len() - i,
    {
        proof {
            assert(decoded_view(rows@.take(i + 1)).drop_last() =~= decoded_view(rows@.take(i as int)));
            assert(decoded_view(rows@.take(i + 1)).last() == (rows@[i as int].0@, tag_set(rows@[i as int].1@)));
        }
        if tags_match(find, exclude, &rows[i].1) {
            let path = rows[i].0.clone();
            let tags = rows[i].1.clone();
            r.push((path, tags));
        }
        assert(decoded_view(r@) =~= matching(f, x, decoded_view(rows@.take(i + 1))));
        i += 1;
    }
    assert(rows@.take(rows@.len() as int) =~= rows@);
    r
}

fn decode_rows(rows: &Vec<TableRow>) -> (r: Result<Vec<(String, Vec<String>)>, FtagError>)
    ensures
        match r {
            Ok(d) => all_readable(rows@) && decoded_view(d@) == table_view(rows@),
            Err(e) => !all_readable(rows@) && e is JsonError,
        },
{
    let mut d: Vec<(String, Vec<String>)> = Vec::new();
    let mut i: usize = 0;
    while i < rows.len()
        invariant
            i <= rows.len(),
            all_readable(rows@.take(i as int)),
            decoded_view(d@) == table_view(rows@.take(i as int)),
        decreases rows.len() - i,
    {
        match decode_tags(rows[i].tags.as_str()) {
            Ok(tags) => {
                let ghost prev = d@;
                let path = rows[i].path.clone();
                d.push((path, tags));
                proof {
                    assert(decoded_view(d@).drop_last() =~= decoded_view(prev));
                    assert(table_view(rows@.take(i + 1)).drop_last() =~= table_view(rows@.take(i as int)));
                    assert(decoded_view(d@).last() == table_view(rows@.take(i + 1)).last());
                    assert(decoded_view(d@) =~= decoded_view(prev).push(decoded_view(d@).last()));
                    assert(table_view(rows@.take(i + 1)) =~= table_view(rows@.take(i as int)).push(
                        table_view(rows@.take(i + 1)).last()));
                }
            },
            Err(e) => {
                assert(!(stored_tags(rows@[i as int].tags@) is Some));
                return Err(e);
            },
        }
        proof {
            assert forall|k: int| 0 <= k < i + 1 implies (#[trigger] stored_tags(rows@.take(i + 1)[k].tags@)) is Some by {
                if k < i {
                    assert(rows@.take(i + 1)[k] == rows@.take(i as int)[k]);
                }
            }
            assert(decoded_view(d@) =~= table_view(rows@.take(i + 1)));
        }
        i += 1;
    }
    assert(rows@.take(rows@.len() as int) =~= rows@);
    Ok(d)
}

/// The records whose tags include all of `find` and none of `exclude`, each
/// path with its tags, in table order. `NoDatabaseError` without a database;
/// `JsonError` where some record's text does not hold a tag list.
pub fn find_tags(
    db_exists: bool,
    find: &Vec<String>,
    exclude: &Vec<String>,
    rows: &Vec<TableRow>,
) -> (r: Result<Vec<(String, Vec<String>)>, FtagError>)
    ensures
        !db_exists ==> r == Err::<Vec<(String, Vec<String>)>, FtagError>(FtagError::NoDatabaseError),
        db_exists ==> (r is Ok <==> all_readable(rows@)),
        db_exists ==> match r {
            Ok(found) => decoded_view(found@) == matching(tag_set(find@), tag_set(exclude@), table_view(rows@)),
            Err(e) => e is JsonError,
        },
{
    if !db_exists {
        return Err(FtagError::NoDatabaseError);
    }
    match decode_rows(rows) {
        Ok(d) => Ok(find_matching(find, exclude, &d)),
        Err(e) => Err(e),
    }
}

/// The global listing over scanned records, each with whether its file is
/// still on disk: the stale paths to prune, and for each tag on a file still
/// on disk, how many such files carry it. `NoDatabaseError` without a
/// database; `JsonError` where the text of a record whose file is on disk does
/// not hold a tag list (stale records are not read).
pub fn get_global_tags(db_exists: bool, rows: &Vec<(TableRow, bool)>) -> (r: Result<GlobalTags, FtagError>)
    requires
        rows@.len() <= u32::MAX,
    ensures
        !db_exists ==> r == Err::<GlobalTags, FtagError>(FtagError::NoDatabaseError),
        db_exists ==> (r is Ok <==> live_readable(rows@)),
        db_exists ==> match r {
            Ok(g) => strings_view(g.stale@) == stale_of(rows@) && counts_of(g.counts@, live_sets(rows@)),
            Err(e) => e is JsonError,
        },
{
    if !db_exists {
        return Err(FtagError::NoDatabaseError);
    }
    let stale = stale_paths(rows);
    let mut live: Vec<Vec<String>> = Vec::new();
    let mut i: usize = 0;
    while i < rows.len()
        invariant
            i <= rows.len(),
            db_exists,
            rows@.len() <= u32::MAX,
            live@.len() <= i,
            live_readable(rows@.take(i as int)),
            row_sets(live@) == live_sets(rows@.take(i as int)),
            forall|k: int| 0 <= k < live@.len() ==> distinct_tags(#[trigger] live@[k]@),
        decreases rows.len() - i,
    {
        let ghost prev = live@;
        proof {
            assert(rows@.take(i + 1).drop_last() =~= rows@.take(i as int));
            assert(rows@.take(i + 1).last() == rows@[i as int]);
        }
        if rows[i].1 {
            match decode_tags(rows[i].0.tags.as_str()) {
                Ok(tags) => {
                    live.push(tags);
                    proof {
                        assert(row_sets(live@) =~= row_sets(prev).push(row_tags(rows@[i as int].0)));
                    }
                },
                Err(e) => {
                    assert(!(stored_tags(rows@[i as int].0.tags@) is Some));
                    return Err(e);
                },
            }
        }
        proof {
            assert forall|k: int| 0 <= k < i + 1 && rows@.take(i + 1)[k].1
                implies (#[trigger] stored_tags(rows@.take(i + 1)[k].0.tags@)) is Some by {
                if k < i {
                    assert(rows@.take(i + 1)[k] == rows@.take(i as int)[k]);
                }
            }
        }
        i += 1;
    }
    assert(rows@.take(rows@.len() as int) =~= rows@);
    let counts = count_tags(&live);
    Ok(GlobalTags { stale, counts })
}

proof fn lemma_live_count_zero(rows: Seq<(TableRow, bool)>, t: Seq<char>)
    requires
        forall|i: int| 0 <= i < rows.len() && rows[i].1 ==> !(#[trigger] row_tags(rows[i].0)).contains(t),
    ensures
        rows_with_tag(live_sets(rows), t) == 0,
    decreases rows.len(),
{
    if rows.len() > 0 {
        let prev = rows.drop_last();
        assert forall|i: int| 0 <= i < prev.len() && prev[i].1 implies !(#[trigger] row_tags(prev[i].0)).contains(t) by {
            assert(prev[i] == rows[i]);
        }
        lemma_live_count_zero(prev, t);
        if rows.last().1 {
            let s = live_sets(rows);
            assert(s.drop_last() =~= live_sets(prev));
            assert(!row_tags(rows[rows.len() - 1].0).contains(t));
        }
    }
}

/// Once the files that carry a tag are all gone from disk, a global listing
/// names that tag nowhere in its counts: stale records are pruned before
/// counting.
pub proof fn lemma_pruned_tags_not_counted(rows: Seq<(TableRow, bool)>, t: Seq<char>, counts: Seq<(String, u32)>)
    requires
        forall|i: int| 0 <= i < rows.len() && (#[trigger] row_tags(rows[i].0)).contains(t) ==> !rows[i].1,
        counts_of(counts, live_sets(rows)),
    ensures
        !names_tag(counts, t),
{
    lemma_live_count_zero(rows, t);
    if names_tag(counts, t) {
        let k = choose|k: int| 0 <= k < counts.len() && counts[k].0@ == t;
        assert(counts[k].1 as nat == rows_with_tag(live_sets(rows), counts[k].0@));
    }
}

} // verus!
