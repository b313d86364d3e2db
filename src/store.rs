//! The store's operations on one directory's records: create with
//! de-duplication, update of a text, change of status, and delete with
//! renumbering.
use vstd::prelude::*;
use crate::codec::{push_record_line, record_line};
use crate::dir_map::{DirMapEntry, EntryModel, entries_model, find_entry, has_entry};
use crate::hasher::{file_token, path_hash, token_spec};
use crate::record::{RecordModel, Status, TodoError, TodoRecord, records_model};
use crate::text::{is_field_text, push_chars, reject_nl_and_tab};
use tinyvec::TinyVec;

verus! {

#[derive(Clone, Copy, Debug, PartialEq, Eq, Structural)]
pub enum CreateOutcome {
    /// A record was added under this ID.
    Added(u64),
    /// A record with the same text already stands under this ID.
    Duplicate(u64),
}

/// A new TODO item's text, as given on the command line.
#[derive(Debug)]
pub struct NewTodo {
    pub text: String,
}

/// A new active record.
pub open spec fn active_record(id: u64, text: Seq<char>) -> RecordModel {
    RecordModel { id, text, status: Status::Active }
}

pub open spec fn has_text(rs: Seq<RecordModel>, t: Seq<char>) -> bool {
    exists|i: int| 0 <= i < rs.len() && rs[i].text == t
}

pub open spec fn is_first_with_text(rs: Seq<RecordModel>, t: Seq<char>, i: int) -> bool {
    &&& 0 <= i < rs.len()
    &&& rs[i].text == t
    &&& forall|j: int| 0 <= j < i ==> rs[j].text != t
}

/// The first record whose text is `t`.
pub open spec fn first_text_index(rs: Seq<RecordModel>, t: Seq<char>) -> int {
    choose|i: int| is_first_with_text(rs, t, i)
}

pub open spec fn has_id(rs: Seq<RecordModel>, id: u64) -> bool {
    exists|i: int| 0 <= i < rs.len() && rs[i].id == id
}

pub open spec fn is_first_with_id(rs: Seq<RecordModel>, id: u64, i: int) -> bool {
    &&& 0 <= i < rs.len()
    &&& rs[i].id == id
    &&& forall|j: int| 0 <= j < i ==> rs[j].id != id
}

/// The largest ID among the records, 0 where there are none.
pub open spec fn max_id(rs: Seq<RecordModel>) -> nat
    decreases rs.len(),
{
    if rs.len() == 0 {
        0
    } else if rs.last().id >= max_id(rs.drop_last()) {
        rs.last().id as nat
    } else {
        max_id(rs.drop_last())
    }
}

/// The ID that a new record gets: one past the largest, 0 for none.
pub open spec fn next_id_spec(rs: Seq<RecordModel>) -> nat {
    if rs.len() == 0 {
        0
    } else {
        max_id(rs) + 1
    }
}

/// What creating a record with text `t` among `rs` returns, and the records
/// after it.
pub open spec fn create_spec(rs: Seq<RecordModel>, t: Seq<char>) -> (
    Result<CreateOutcome, TodoError>,
    Seq<RecordModel>,
) {
    if !is_field_text(t) {
        (Err(TodoError::InvalidText), rs)
    } else if has_text(rs, t) {
        (Ok(CreateOutcome::Duplicate(rs[first_text_index(rs, t)].id)), rs)
    } else if next_id_spec(rs) > u64::MAX {
        (Err(TodoError::IdsExhausted), rs)
    } else {
        (
            Ok(CreateOutcome::Added(next_id_spec(rs) as u64)),
            rs.push(active_record(next_id_spec(rs) as u64, t)),
        )
    }
}

/// The records after the first record with `id` gets the text `t`.
pub open spec fn with_text(rs: Seq<RecordModel>, i: int, t: Seq<char>) -> Seq<RecordModel> {
    rs.update(i, RecordModel { id: rs[i].id, text: t, status: rs[i].status })
}

/// The records after every record with `id` gets status `st`.
pub open spec fn with_status(rs: Seq<RecordModel>, id: u64, st: Status) -> Seq<RecordModel> {
    Seq::new(
        rs.len(),
        |j: int|
            if rs[j].id == id {
                RecordModel { id: rs[j].id, text: rs[j].text, status: st }
            } else {
                rs[j]
            },
    )
}

/// The records whose ID is not `id`, in their order.
pub open spec fn survivors(rs: Seq<RecordModel>, id: u64) -> Seq<RecordModel>
    decreases rs.len(),
{
    if rs.len() == 0 {
        Seq::empty()
    } else if rs.last().id == id {
        survivors(rs.drop_last(), id)
    } else {
        survivors(rs.drop_last(), id).push(rs.last())
    }
}

/// The records with their IDs replaced by 0, 1, 2, ... in order.
pub open spec fn renumbered(rs: Seq<RecordModel>) -> Seq<RecordModel> {
    Seq::new(
        rs.len(),
        |k: int| RecordModel { id: k as u64, text: rs[k].text, status: rs[k].status },
    )
}

/// Whether a record with `id` is active, so that deleting it asks first.
pub open spec fn needs_confirmation(rs: Seq<RecordModel>, id: u64) -> bool {
    exists|i: int| 0 <= i < rs.len() && rs[i].id == id && rs[i].status == Status::Active
}

proof fn lemma_first_text_index(rs: Seq<RecordModel>, t: Seq<char>, i: int)
    requires
        is_first_with_text(rs, t, i),
    ensures
        first_text_index(rs, t) == i,
{
    let j = first_text_index(rs, t);
    assert(is_first_with_text(rs, t, j));
    if j < i {
        assert(rs[j].text != t);
    }
    if i < j {
        assert(rs[i].text != t);
    }
}

/// The ID of the first record whose text is `t`, if any.
fn find_text(records: &Vec<TodoRecord>, t: &str) -> (r: Option<usize>)
    ensures
        match r {
            Some(i) => is_first_with_text(records_model(records@), t@, i as int),
            None => !has_text(records_model(records@), t@),
        },
{
    let wanted = t.to_owned();
    let mut i: usize = 0;
    while i < records.len()
        invariant
            i <= records@.len(),
            wanted@ == t@,
            forall|j: int| 0 <= j < i ==> records@[j].text@ != t@,
        decreases records@.len() - i,
    {
        if records[i].text == wanted {
            return Some(i);
        }
        i = i + 1;
    }
    None
}

/// The position of the first record with `id`, if any.
fn find_id(records: &Vec<TodoRecord>, id: u64) -> (r: Option<usize>)
    ensures
        match r {
            Some(i) => is_first_with_id(records_model(records@), id, i as int),
            None => !has_id(records_model(records@), id),
        },
{
    let mut i: usize = 0;
    while i < records.len()
        invariant
            i <= records@.len(),
            forall|j: int| 0 <= j < i ==> records@[j].id != id,
        decreases records@.len() - i,
    {
        if records[i].id == id {
            return Some(i);
        }
        i = i + 1;
    }
    None
}

/// The ID that a new record gets, or `None` where the largest ID is
/// `u64::MAX`.
pub fn next_id(records: &Vec<TodoRecord>) -> (r: Option<u64>)
    ensures
        match r {
            Some(n) => n == next_id_spec(records_model(records@)),
            None => next_id_spec(records_model(records@)) > u64::MAX,
        },
{
    if records.len() == 0 {
        return Some(0);
    }
    let ghost rs = records_model(records@);
    let mut m: u64 = 0;
    let mut i: usize = 0;
    assert(rs.subrange(0, 0) =~= Seq::<RecordModel>::empty());
    while i < records.len()
        invariant
            i <= records@.len(),
            rs == records_model(records@),
            m == max_id(rs.subrange(0, i as int)),
        decreases records@.len() - i,
    {
        assert(rs.subrange(0, i + 1).drop_last() =~= rs.subrange(0, i as int));
        if records[i].id >= m {
            m = records[i].id;
        }
        i = i + 1;
    }
    assert(rs.subrange(0, i as int) =~= rs);
    if m == u64::MAX {
        None
    } else {
        Some(m + 1)
    }
}

/// Adds an active record with text `text`, unless the text holds a
/// delimiter, a record with that text stands already, or no ID is left.
pub fn create_in_records(records: &mut Vec<TodoRecord>, text: &str) -> (r: Result<
    CreateOutcome,
    TodoError,
>)
    ensures
        (r, records_model(final(records)@)) == create_spec(records_model(old(records)@), text@),
{
    let ghost rs = records_model(records@);
    if reject_nl_and_tab(text) {
        return Err(TodoError::InvalidText);
    }
    match find_text(records, text) {
        Some(i) => {
            proof {
                lemma_first_text_index(rs, text@, i as int);
            }
            Ok(CreateOutcome::Duplicate(records[i].id))
        },
        None => match next_id(records) {
            None => Err(TodoError::IdsExhausted),
            Some(id) => {
                records.push(TodoRecord { id, text: text.to_owned(), status: Status::Active });
                assert(records_model(records@) =~= rs.push(active_record(id, text@)));
                Ok(CreateOutcome::Added(id))
            },
        },
    }
}

/// Creates a TODO item for directory `pwd`. Where the directory map has no
/// entry for `pwd`, the directory's records start out empty, and a new entry
/// naming its record file is added; `records` is then not read. Otherwise
/// `records` are the directory's records.
pub fn create_new_todo(
    new_todo: &NewTodo,
    pwd: &str,
    dir_map: &mut Vec<DirMapEntry>,
    records: &mut Vec<TodoRecord>,
) -> (r: Result<CreateOutcome, TodoError>)
    ensures
        has_entry(entries_model(old(dir_map)@), pwd@) ==> {
            &&& entries_model(final(dir_map)@) == entries_model(old(dir_map)@)
            &&& (r, records_model(final(records)@)) == create_spec(
                records_model(old(records)@),
                new_todo.text@,
            )
        },
        !has_entry(entries_model(old(dir_map)@), pwd@) && !is_field_text(new_todo.text@) ==> {
            &&& r == Err::<CreateOutcome, TodoError>(TodoError::InvalidText)
            &&& entries_model(final(dir_map)@) == entries_model(old(dir_map)@)
            &&& records_model(final(records)@) == records_model(old(records)@)
        },
        !has_entry(entries_model(old(dir_map)@), pwd@) && is_field_text(new_todo.text@) ==> {
            &&& r == Ok::<CreateOutcome, TodoError>(CreateOutcome::Added(0))
            &&& records_model(final(records)@) == seq![active_record(0, new_todo.text@)]
            &&& entries_model(final(dir_map)@) == entries_model(old(dir_map)@).push(
                EntryModel { directory_path: pwd@, file_token: token_spec(path_hash(pwd@)) },
            )
        },
{
    let text = new_todo.text.as_str();
    match find_entry(dir_map, pwd) {
        Some(_) => create_in_records(records, text),
        None => {
            if reject_nl_and_tab(text) {
                return Err(TodoError::InvalidText);
            }
            let ghost old_entries = entries_model(dir_map@);
            let entry = DirMapEntry { directory_path: pwd.to_owned(), file_token: file_token(pwd) };
            dir_map.push(entry);
            assert(entries_model(dir_map@) =~= old_entries.push(
                EntryModel { directory_path: pwd@, file_token: token_spec(path_hash(pwd@)) },
            ));
            let mut fresh: Vec<TodoRecord> = Vec::new();
            fresh.push(TodoRecord { id: 0, text: text.to_owned(), status: Status::Active });
            assert(records_model(fresh@) =~= seq![active_record(0, new_todo.text@)]);
            *records = fresh;
            Ok(CreateOutcome::Added(0))
        },
    }
}

/// Positions of the records that a deletion keeps, held in a
/// `tinyvec::TinyVec`: inline up to twenty items, on the heap past that.
#[verifier::external_body]
pub struct Slots {
    buf: TinyVec<[usize; 20]>,
}

/// The positions that a buffer holds, in order.
pub uninterp spec fn slots(v: Slots) -> Seq<usize>;

/// Relies on `TinyVec::new`: an empty vector.
#[verifier::external_body]
fn slots_new() -> (r: Slots)
    ensures
        slots(r) == Seq::<usize>::empty(),
{
    Slots { buf: TinyVec::new() }
}

/// Relies on `TinyVec::push`: the item goes at the end, inline or on the heap.
#[verifier::external_body]
fn slots_push(v: &mut Slots, x: usize)
    ensures
        slots(*final(v)) == slots(*old(v)).push(x),
{
    v.buf.push(x)
}

/// Relies on `TinyVec::len`: the number of items.
#[verifier::external_body]
fn slots_len(v: &Slots) -> (r: usize)
    ensures
        r == slots(*v).len(),
{
    v.buf.len()
}

/// Relies on indexing a `TinyVec` through its `Deref` to a slice.
#[verifier::external_body]
fn slots_get(v: &Slots, i: usize) -> (r: usize)
    requires
        i < slots(*v).len(),
    ensures
        r == slots(*v)[i as int],
{
    v.buf[i]
}

#[derive(Clone, Copy, Debug, PartialEq, Eq, Structural)]
pub enum DeleteOutcome {
    /// No record carries the ID; nothing changed.
    NotFound,
    /// The record is active and the deletion was not confirmed; nothing
    /// changed.
    NeedsConfirmation,
    /// The record is gone and the rest are renumbered.
    Deleted,
}

/// Deletes the records with `id` and renumbers the rest 0, 1, 2, ... in
/// their order. An active record goes only where `confirmed` holds.
pub fn delete_todo(records: &mut Vec<TodoRecord>, id: u64, confirmed: bool) -> (r: DeleteOutcome)
    ensures
        !has_id(records_model(old(records)@), id) ==> r == DeleteOutcome::NotFound,
        has_id(records_model(old(records)@), id) && needs_confirmation(
            records_model(old(records)@),
            id,
        ) && !confirmed ==> r == DeleteOutcome::NeedsConfirmation,
        has_id(records_model(old(records)@), id) && (!needs_confirmation(
            records_model(old(records)@),
            id,
        ) || confirmed) ==> r == DeleteOutcome::Deleted,
        r != DeleteOutcome::Deleted ==> records_model(final(records)@) == records_model(
            old(records)@,
        ),
        r == DeleteOutcome::Deleted ==> records_model(final(records)@) == renumbered(
            survivors(records_model(old(records)@), id),
        ),
{
    let ghost rs = records_model(records@);
    let mut kept = slots_new();
    let mut found = false;
    let mut active = false;
    let mut i: usize = 0;
    assert(rs.subrange(0, 0) =~= Seq::<RecordModel>::empty());
    while i < records.len()
        invariant
            i <= records@.len() == rs.len(),
            rs == records_model(records@),
            forall|k: int| 0 <= k < slots(kept).len() ==> slots(kept)[k] < i,
            survivors(rs.subrange(0, i as int), id) =~= Seq::new(
                slots(kept).len(),
                |k: int| rs[slots(kept)[k] as int],
            ),
            found <==> exists|j: int| 0 <= j < i && rs[j].id == id,
            active <==> exists|j: int|
                0 <= j < i && rs[j].id == id && rs[j].status == Status::Active,
        decreases rs.len() - i,
    {
        let ghost prev = slots(kept);
        assert(rs.subrange(0, i + 1).drop_last() =~= rs.subrange(0, i as int));
        if records[i].id == id {
            found = true;
            if records[i].status == Status::Active {
                active = true;
            }
        } else {
            slots_push(&mut kept, i);
        }
        i = i + 1;
    }
    assert(rs.subrange(0, i as int) =~= rs);
    if !found {
        return DeleteOutcome::NotFound;
    }
    if active && !confirmed {
        return DeleteOutcome::NeedsConfirmation;
    }
    let ghost surv = survivors(rs, id);
    let n = slots_len(&kept);
    let mut out: Vec<TodoRecord> = Vec::new();
    let mut k: usize = 0;
    while k < n
        invariant
            k <= n == slots(kept).len() == surv.len(),
            rs == records_model(records@),
            forall|q: int| 0 <= q < n ==> slots(kept)[q] < rs.len(),
            surv =~= Seq::new(n as nat, |q: int| rs[slots(kept)[q] as int]),
            records_model(out@) =~= renumbered(surv).subrange(0, k as int),
        decreases n - k,
    {
        let j = slots_get(&kept, k);
        let rec = TodoRecord {
            id: k as u64,
            text: records[j].text.clone(),
            status: records[j].status,
        };
        let ghost before = records_model(out@);
        out.push(rec);
        assert(records_model(out@) =~= before.push(rec@));
        k = k + 1;
    }
    *records = out;
    DeleteOutcome::Deleted
}

impl NewTodo {
    /// Appends this item's line, as an active record with `id`, to `buf`.
    pub fn io_write_as_active(&self, buf: &mut String, id: u64)
        ensures
            final(buf)@ == old(buf)@ + record_line(active_record(id, self.text@)),
    {
        let mut line: Vec<char> = Vec::new();
        push_record_line(&mut line, id, self.text.as_str(), Status::Active);
        assert(line@ =~= record_line(active_record(id, self.text@)));
        push_chars(buf, &line);
    }
}

/// Gives the first record with `id` the text `new_text`, keeping its ID and
/// status.
pub fn update_todo(records: &mut Vec<TodoRecord>, id: u64, new_text: &str) -> (r: Result<
    (),
    TodoError,
>)
    ensures
        !is_field_text(new_text@) ==> r == Err::<(), TodoError>(TodoError::InvalidText),
        is_field_text(new_text@) && !has_id(records_model(old(records)@), id) ==> r == Err::<
            (),
            TodoError,
        >(TodoError::NoRecordAtId),
        is_field_text(new_text@) && has_id(records_model(old(records)@), id) ==> r is Ok,
        r is Err ==> records_model(final(records)@) == records_model(old(records)@),
        r is Ok ==> is_field_text(new_text@) && exists|i: int|
            is_first_with_id(records_model(old(records)@), id, i) && records_model(
                final(records)@,
            ) == with_text(records_model(old(records)@), i, new_text@),
{
    if reject_nl_and_tab(new_text) {
        return Err(TodoError::InvalidText);
    }
    match find_id(records, id) {
        None => Err(TodoError::NoRecordAtId),
        Some(i) => {
            let ghost rs = records_model(records@);
            records[i].text = new_text.to_owned();
            assert(records_model(records@) =~= with_text(rs, i as int, new_text@));
            Ok(())
        },
    }
}

/// Gives every record with `id` the status `status`. A missing ID is
/// reported, as `update_todo` reports it.
pub fn mark_status(records: &mut Vec<TodoRecord>, id: u64, status: Status) -> (r: Result<
    (),
    TodoError,
>)
    ensures
        !has_id(records_model(old(records)@), id) ==> r == Err::<(), TodoError>(
            TodoError::NoRecordAtId,
        ) && records_model(final(records)@) == records_model(old(records)@),
        has_id(records_model(old(records)@), id) ==> r == Ok::<(), TodoError>(())
            && records_model(final(records)@) == with_status(
            records_model(old(records)@),
            id,
            status,
        ),
{
    let ghost rs = records_model(records@);
    if find_id(records, id).is_none() {
        return Err(TodoError::NoRecordAtId);
    }
    let mut i: usize = 0;
    while i < records.len()
        invariant
            i <= records@.len() == rs.len(),
            forall|j: int|
                0 <= j < i ==> #[trigger] records@[j]@ == with_status(rs, id, status)[j],
            forall|j: int| i <= j < rs.len() ==> #[trigger] records@[j]@ == rs[j],
        decreases rs.len() - i,
    {
        let ghost before = records@[i as int]@;
        assert(before == rs[i as int]);
        if records[i].id == id {
            records[i].status = status;
            assert(records@[i as int]@ == RecordModel {
                id: before.id,
                text: before.text,
                status,
            });
        }
        assert(records@[i as int]@ == with_status(rs, id, status)[i as int]);
        i = i + 1;
    }
    assert(records_model(records@) =~= with_status(rs, id, status));
    Ok(())
}

/// Marks the records with `id` done.
pub fn mark_done(records: &mut Vec<TodoRecord>, id: u64) -> (r: Result<(), TodoError>)
    ensures
        !has_id(records_model(old(records)@), id) ==> r == Err::<(), TodoError>(
            TodoError::NoRecordAtId,
        ) && records_model(final(records)@) == records_model(old(records)@),
        has_id(records_model(old(records)@), id) ==> r == Ok::<(), TodoError>(())
            && records_model(final(records)@) == with_status(
            records_model(old(records)@),
            id,
            Status::Done,
        ),
{
    mark_status(records, id, Status::Done)
}

/// Marks the records with `id` active.
pub fn mark_active(records: &mut Vec<TodoRecord>, id: u64) -> (r: Result<(), TodoError>)
    ensures
        !has_id(records_model(old(records)@), id) ==> r == Err::<(), TodoError>(
            TodoError::NoRecordAtId,
        ) && records_model(final(records)@) == records_model(old(records)@),
        has_id(records_model(old(records)@), id) ==> r == Ok::<(), TodoError>(())
            && records_model(final(records)@) == with_status(
            records_model(old(records)@),
            id,
            Status::Active,
        ),
{
    mark_status(records, id, Status::Active)
}


/// The ID that an outcome reports.
pub open spec fn outcome_id(o: CreateOutcome) -> u64 {
    match o {
        CreateOutcome::Added(id) => id,
        CreateOutcome::Duplicate(id) => id,
    }
}

/// Creating the same text a second time adds nothing and reports the ID
/// that the first call reported; where the first call added the record,
/// exactly one record then holds that text.
pub proof fn lemma_create_dedup(rs: Seq<RecordModel>, t: Seq<char>)
    ensures
        ({
            let (r1, rs1) = create_spec(rs, t);
            let (r2, rs2) = create_spec(rs1, t);
            r1 is Ok ==> {
                &&& r2 == Ok::<CreateOutcome, TodoError>(CreateOutcome::Duplicate(outcome_id(r1->Ok_0)))
                &&& rs2 == rs1
            }
        }),
        ({
            let (r1, rs1) = create_spec(rs, t);
            r1 matches Ok(CreateOutcome::Added(_)) ==> {
                &&& has_text(rs1, t)
                &&& forall|i: int, j: int|
                    0 <= i < rs1.len() && 0 <= j < rs1.len() && rs1[i].text == t && rs1[j].text
                        == t ==> i == j
            }
        }),
{
    let (r1, rs1) = create_spec(rs, t);
    if is_field_text(t) {
        if !has_text(rs, t) && next_id_spec(rs) <= u64::MAX {
            let n = rs.len() as int;
            assert(rs1[n].text == t);
            assert(is_first_with_text(rs1, t, n)) by {
                assert forall|j: int| 0 <= j < n implies rs1[j].text != t by {
                    assert(rs1[j] == rs[j]);
                }
            }
            lemma_first_text_index(rs1, t, n);
            assert forall|i: int, j: int|
                0 <= i < rs1.len() && 0 <= j < rs1.len() && rs1[i].text == t && rs1[j].text
                    == t implies i == j by {
                if i < n {
                    assert(rs1[i] == rs[i]);
                }
                if j < n {
                    assert(rs1[j] == rs[j]);
                }
            }
        }
    }
}

/// The first record of an empty list gets ID 0; after that, each new record
/// gets one past the largest ID present, whatever gaps lie below it.
pub proof fn lemma_create_ids(rs: Seq<RecordModel>, t: Seq<char>)
    requires
        is_field_text(t),
        !has_text(rs, t),
    ensures
        rs.len() == 0 ==> create_spec(rs, t).0 == Ok::<CreateOutcome, TodoError>(
            CreateOutcome::Added(0),
        ),
        rs.len() > 0 && max_id(rs) < u64::MAX ==> create_spec(rs, t).0 == Ok::<
            CreateOutcome,
            TodoError,
        >(CreateOutcome::Added((max_id(rs) + 1) as u64)),
        forall|i: int| 0 <= i < rs.len() ==> rs[i].id <= max_id(rs),
    decreases rs.len(),
{
    if rs.len() > 0 {
        let p = rs.drop_last();
        if has_text(p, t) {
            let i = choose|i: int| 0 <= i < p.len() && p[i].text == t;
            assert(rs[i] == p[i]);
        }
        lemma_create_ids(p, t);
        assert forall|i: int| 0 <= i < rs.len() implies rs[i].id <= max_id(rs) by {
            if i < rs.len() - 1 {
                assert(rs[i] == p[i]);
            }
        }
    }
}

/// Updating a record's text keeps its ID and status, and leaves every other
/// record, and so every other line of the file, as it was.
pub proof fn lemma_update_changes_one_line(rs: Seq<RecordModel>, i: int, t: Seq<char>)
    requires
        0 <= i < rs.len(),
    ensures
        with_text(rs, i, t).len() == rs.len(),
        with_text(rs, i, t)[i].id == rs[i].id,
        with_text(rs, i, t)[i].status == rs[i].status,
        with_text(rs, i, t)[i].text == t,
        forall|j: int|
            0 <= j < rs.len() && j != i ==> record_line(#[trigger] with_text(rs, i, t)[j])
                == record_line(rs[j]),
{
}

} // verus!
