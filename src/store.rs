use vstd::prelude::*;
use crate::error::FtagError;
use crate::tagset::{tag_set, distinct_tags, union_tags, subtract_tags};
use crate::codec::{stored_tags, tags_text, decode_tags, encode_tags};

verus! {

/// The record that the table holds for one path.
pub struct StoredRow {
    pub id: u32,
    /// The JSON text of the path's tag list.
    pub tags: String,
}

/// A change to the table that keeps one path's tags.
pub enum RowWrite {
    /// A new record for `path`.
    Insert { path: String, tags: String },
    /// New tag text for the record numbered `id`.
    Update { id: u32, tags: String },
}

/// What an edit of one path's tags comes to.
pub struct TagUpdate {
    /// The path's tags after the edit, each once.
    pub tags: Vec<String>,
    /// The change that stores them.
    pub write: RowWrite,
}

/// The tags a path holds before an edit: none without a record, else what its
/// record's text holds.
pub open spec fn current_tags(stored: Option<StoredRow>) -> Option<Set<Seq<char>>> {
    match stored {
        None => Some(Set::empty()),
        Some(row) => stored_tags(row.tags@),
    }
}

/// The tag set that the text a change writes reads back as.
pub open spec fn written_tags(w: RowWrite) -> Option<Set<Seq<char>>> {
    match w {
        RowWrite::Insert { tags, .. } => stored_tags(tags@),
        RowWrite::Update { tags, .. } => stored_tags(tags@),
    }
}

/// `w` stores `text` for `path`: a new record where there was none, else an
/// update of the record there was.
pub open spec fn stores_text(w: RowWrite, path: Seq<char>, stored: Option<StoredRow>, text: Seq<char>) -> bool {
    match stored {
        None => w matches RowWrite::Insert { path: p, tags } && p@ == path && tags@ == text,
        Some(row) => w matches RowWrite::Update { id, tags } && id == row.id && tags@ == text,
    }
}

/// Refuses to set up a store where a database file already exists.
pub fn init_db(db_exists: bool) -> (r: Result<(), FtagError>)
    ensures
        db_exists ==> r == Err::<(), FtagError>(FtagError::IoError(std::io::ErrorKind::AlreadyExists)),
        !db_exists ==> r is Ok,
{
    if db_exists {
        return Err(FtagError::IoError(std::io::ErrorKind::AlreadyExists));
    }
    Ok(())
}

/// The change that stores `serialized` for `path`: an update of the record
/// numbered `found`, or a new record where there is none; `NoDatabaseError`
/// without a database.
pub fn plan_row_write(path: &String, db_exists: bool, found: Option<u32>, serialized: String) -> (r: Result<RowWrite, FtagError>)
    ensures
        !db_exists ==> r == Err::<RowWrite, FtagError>(FtagError::NoDatabaseError),
        db_exists ==> (r matches Ok(w) && match found {
            None => w matches RowWrite::Insert { path: p, tags } && p@ == path@ && tags@ == serialized@,
            Some(id) => w matches RowWrite::Update { id: i, tags } && i == id && tags@ == serialized@,
        }),
{
    if !db_exists {
        return Err(FtagError::NoDatabaseError);
    }
    match found {
        None => Ok(RowWrite::Insert { path: path.clone(), tags: serialized }),
        Some(id) => Ok(RowWrite::Update { id, tags: serialized }),
    }
}

/// The tags of a path: `NotFound` where it is not on disk, none where it has
/// no record, else what its record's text holds.
pub fn get_file_tags(on_disk: bool, stored: Option<String>) -> (r: Result<Vec<String>, FtagError>)
    ensures
        !on_disk ==> r == Err::<Vec<String>, FtagError>(FtagError::IoError(std::io::ErrorKind::NotFound)),
        on_disk ==> match stored {
            None => r matches Ok(tags) && tags@.len() == 0,
            Some(text) => match r {
                Ok(tags) => stored_tags(text@) == Some(tag_set(tags@)) && distinct_tags(tags@),
                Err(e) => stored_tags(text@) is None && e is JsonError,
            },
        },
{
    if !on_disk {
        return Err(FtagError::IoError(std::io::ErrorKind::NotFound));
    }
    match stored {
        None => Ok(Vec::new()),
        Some(text) => decode_tags(text.as_str()),
    }
}

fn stored_list(stored: &Option<StoredRow>) -> (r: Result<Vec<String>, FtagError>)
    ensures
        match r {
            Ok(tags) => current_tags(*stored) == Some(tag_set(tags@)) && distinct_tags(tags@),
            Err(e) => current_tags(*stored) is None && e is JsonError,
        },
{
    match stored {
        None => {
            let v: Vec<String> = Vec::new();
            assert(tag_set(v@) =~= Set::empty());
            Ok(v)
        },
        Some(row) => decode_tags(row.tags.as_str()),
    }
}

fn row_id(stored: &Option<StoredRow>) -> (r: Option<u32>)
    ensures
        match *stored {
            None => r is None,
            Some(row) => r == Some(row.id),
        },
{
    match stored {
        None => None,
        Some(row) => Some(row.id),
    }
}

/// Adds `tags_to_add` to the tags of `path`, whose record (if any) is `stored`.
/// `NotFound` where the path is not on disk, `JsonError` where its record does
/// not hold a tag list, `NoDatabaseError` without a database; otherwise the
/// union of the old tags and the new, and the change that stores it, whose
/// text reads back as that union.
pub fn add_tags(
    path: &String,
    on_disk: bool,
    db_exists: bool,
    stored: Option<StoredRow>,
    tags_to_add: Vec<String>,
) -> (r: Result<TagUpdate, FtagError>)
    ensures
        !on_disk ==> r == Err::<TagUpdate, FtagError>(FtagError::IoError(std::io::ErrorKind::NotFound)),
        on_disk && current_tags(stored) is None ==> (r matches Err(e) && e is JsonError),
        on_disk && current_tags(stored) is Some && !db_exists
            ==> r == Err::<TagUpdate, FtagError>(FtagError::NoDatabaseError),
        on_disk && current_tags(stored) is Some && db_exists ==> (r matches Ok(u)
            && tag_set(u.tags@) == current_tags(stored).unwrap().union(tag_set(tags_to_add@))
            && distinct_tags(u.tags@)
            && stores_text(u.write, path@, stored, tags_text(u.tags@))
            && written_tags(u.write) == Some(tag_set(u.tags@))),
{
    if !on_disk {
        return Err(FtagError::IoError(std::io::ErrorKind::NotFound));
    }
    let old_tags = match stored_list(&stored) {
        Ok(t) => t,
        Err(e) => return Err(e),
    };
    let tags = union_tags(&old_tags, &tags_to_add);
    if !db_exists {
        return Err(FtagError::NoDatabaseError);
    }
    let text = encode_tags(&tags);
    let write = match plan_row_write(path, db_exists, row_id(&stored), text) {
        Ok(w) => w,
        Err(e) => return Err(e),
    };
    Ok(TagUpdate { tags, write })
}

/// Takes `tags_to_remove` from the tags of `path`, whose record (if any) is
/// `stored`; tags it does not hold are ignored, and a path without a record
/// gets one with no tags. Errors as for [`add_tags`].
pub fn remove_tags(
    path: &String,
    on_disk: bool,
    db_exists: bool,
    stored: Option<StoredRow>,
    tags_to_remove: Vec<String>,
) -> (r: Result<TagUpdate, FtagError>)
    ensures
        !on_disk ==> r == Err::<TagUpdate, FtagError>(FtagError::IoError(std::io::ErrorKind::NotFound)),
        on_disk && current_tags(stored) is None ==> (r matches Err(e) && e is JsonError),
        on_disk && current_tags(stored) is Some && !db_exists
            ==> r == Err::<TagUpdate, FtagError>(FtagError::NoDatabaseError),
        on_disk && current_tags(stored) is Some && db_exists ==> (r matches Ok(u)
            && tag_set(u.tags@) == current_tags(stored).unwrap().difference(tag_set(tags_to_remove@))
            && distinct_tags(u.tags@)
            && stores_text(u.write, path@, stored, tags_text(u.tags@))
            && written_tags(u.write) == Some(tag_set(u.tags@))),
{
    if !on_disk {
        return Err(FtagError::IoError(std::io::ErrorKind::NotFound));
    }
    let old_tags = match stored_list(&stored) {
        Ok(t) => t,
        Err(e) => return Err(e),
    };
    let tags = subtract_tags(&old_tags, &tags_to_remove);
    if !db_exists {
        return Err(FtagError::NoDatabaseError);
    }
    let text = encode_tags(&tags);
    let write = match plan_row_write(path, db_exists, row_id(&stored), text) {
        Ok(w) => w,
        Err(e) => return Err(e),
    };
    Ok(TagUpdate { tags, write })
}

/// Adding the same tags a second time changes nothing: the tags after two
/// adds of `tags` to a path that held `before` are those after one.
pub proof fn lemma_add_idempotent(before: Set<Seq<char>>, tags: Seq<String>)
    ensures
        before.union(tag_set(tags)).union(tag_set(tags)) == before.union(tag_set(tags)),
{
    assert(before.union(tag_set(tags)).union(tag_set(tags)) =~= before.union(tag_set(tags)));
}

/// The tags of a path that held `before` after one edit: an add (`true`) or a
/// removal (`false`) of a tag list.
pub open spec fn edit_of(before: Set<Seq<char>>, edit: (bool, Seq<String>)) -> Set<Seq<char>> {
    if edit.0 {
        before.union(tag_set(edit.1))
    } else {
        before.difference(tag_set(edit.1))
    }
}

/// The tags of a path that held `start` after the edits in `edits` in turn:
/// each an add (`true`) or a removal (`false`) of a tag list.
pub open spec fn after_edits(start: Set<Seq<char>>, edits: Seq<(bool, Seq<String>)>) -> Set<Seq<char>>
    decreases edits.len(),
{
    if edits.len() == 0 {
        start
    } else {
        edit_of(after_edits(start, edits.drop_last()), edits.last())
    }
}

/// All the tags that the edits of one direction (`adding`) name.
pub open spec fn edited_tags(edits: Seq<(bool, Seq<String>)>, adding: bool) -> Set<Seq<char>>
    decreases edits.len(),
{
    if edits.len() == 0 {
        Set::empty()
    } else {
        let prev = edited_tags(edits.drop_last(), adding);
        if edits.last().0 == adding {
            prev.union(tag_set(edits.last().1))
        } else {
            prev
        }
    }
}

/// Where no tag is both added and removed, a run of adds and removals leaves
/// a path with its old tags less the removed ones, plus all the added ones,
/// whatever the order of the edits; from no tags, that is the added tags less
/// the removed ones.
pub proof fn lemma_edits_give_set_algebra(start: Set<Seq<char>>, edits: Seq<(bool, Seq<String>)>)
    requires
        edited_tags(edits, true).disjoint(edited_tags(edits, false)),
    ensures
        after_edits(start, edits) == start.difference(edited_tags(edits, false)).union(edited_tags(edits, true)),
        start == Set::<Seq<char>>::empty() ==>
            after_edits(start, edits) == edited_tags(edits, true).difference(edited_tags(edits, false)),
    decreases edits.len(),
{
    if edits.len() > 0 {
        let prev = edits.drop_last();
        assert(edited_tags(prev, true).subset_of(edited_tags(edits, true)));
        assert(edited_tags(prev, false).subset_of(edited_tags(edits, false)));
        lemma_edits_give_set_algebra(start, prev);
        assert(after_edits(start, edits) =~= start.difference(edited_tags(edits, false)).union(edited_tags(edits, true)));
    }
    assert(Set::<Seq<char>>::empty().difference(edited_tags(edits, false)).union(edited_tags(edits, true))
        =~= edited_tags(edits, true).difference(edited_tags(edits, false)));
}

/// Whether each record of `records` is what the edit of the same index made
/// of the one before: its text reads back as that edit applied to the tags
/// the one before held. This is what `add_tags` and `remove_tags` promise of
/// the record they write.
pub open spec fn records_follow_edits(records: Seq<Option<StoredRow>>, edits: Seq<(bool, Seq<String>)>) -> bool {
    &&& records.len() == edits.len() + 1
    &&& current_tags(records[0]) is Some
    &&& forall|i: int| 0 <= i < edits.len() ==> #[trigger] current_tags(records[i + 1])
        == Some(edit_of(current_tags(records[i]).unwrap(), edits[i]))
}

proof fn lemma_records_track_edits(records: Seq<Option<StoredRow>>, edits: Seq<(bool, Seq<String>)>, n: int)
    requires
        records_follow_edits(records, edits),
        0 <= n <= edits.len(),
    ensures
        current_tags(records[n]) == Some(after_edits(current_tags(records[0]).unwrap(), edits.take(n))),
    decreases n,
{
    let start = current_tags(records[0]).unwrap();
    if n == 0 {
        assert(edits.take(0).len() == 0);
    } else {
        lemma_records_track_edits(records, edits, n - 1);
        assert(edits.take(n).drop_last() =~= edits.take(n - 1));
        assert(edits.take(n).last() == edits[n - 1]);
        assert(current_tags(records[(n - 1) + 1]) == Some(edit_of(current_tags(records[n - 1]).unwrap(), edits[n - 1])));
    }
}

/// Where no tag is both added and removed, the record that a run of adds and
/// removals leaves reads back as the tags the path first held, less all the
/// removed ones, plus all the added ones: the order of the edits does not
/// matter.
pub proof fn lemma_recorded_edits(records: Seq<Option<StoredRow>>, edits: Seq<(bool, Seq<String>)>)
    requires
        records_follow_edits(records, edits),
        edited_tags(edits, true).disjoint(edited_tags(edits, false)),
    ensures
        current_tags(records.last()) == Some(current_tags(records[0]).unwrap()
            .difference(edited_tags(edits, false)).union(edited_tags(edits, true))),
{
    lemma_records_track_edits(records, edits, edits.len() as int);
    assert(edits.take(edits.len() as int) =~= edits);
    lemma_edits_give_set_algebra(current_tags(records[0]).unwrap(), edits);
}

} // verus!
