//! The listing shown to the user: a heading per directory and one line per
//! record, `id - marker: text`.
use vstd::prelude::*;
use crate::codec::{marker, parse_records, parse_spec};
use crate::decimal::{decimal, decimal_chars};
use crate::record::{RecordModel, Status, TodoError, TodoRecord, records_model};
use crate::text::{extend_chars, push_chars};

verus! {

/// How one record is shown.
pub open spec fn shown_line(r: RecordModel) -> Seq<char> {
    decimal(r.id as nat) + seq![' ', '-', ' '] + marker(r.status) + seq![':', ' '] + r.text
        + seq!['\n']
}

/// How a sequence of records is shown.
pub open spec fn shown(rs: Seq<RecordModel>) -> Seq<char>
    decreases rs.len(),
{
    if rs.len() == 0 {
        Seq::empty()
    } else {
        shown(rs.drop_last()) + shown_line(rs.last())
    }
}

/// The heading above a directory's records.
pub open spec fn heading(dir: Seq<char>) -> Seq<char> {
    seq!['\n', 'T', 'o', 'd', 'o', ':', ' ', '"'] + dir + seq!['"', '\n']
}

fn push_shown_line(out: &mut Vec<char>, rec: &TodoRecord)
    ensures
        final(out)@ == old(out)@ + shown_line(rec@),
{
    let d = decimal_chars(rec.id);
    let mut i: usize = 0;
    while i < d.len()
        invariant
            i <= d@.len(),
            d@ == decimal(rec.id as nat),
            out@ == old(out)@ + d@.subrange(0, i as int),
        decreases d@.len() - i,
    {
        out.push(d[i]);
        assert(d@.subrange(0, i + 1) =~= d@.subrange(0, i as int).push(d@[i as int]));
        i = i + 1;
    }
    assert(d@.subrange(0, i as int) =~= d@);
    out.push(' ');
    out.push('-');
    out.push(' ');
    out.push('[');
    match rec.status {
        Status::Active => out.push(' '),
        Status::Done => out.push('\u{2713}'),
    }
    out.push(']');
    out.push(':');
    out.push(' ');
    extend_chars(out, rec.text.as_str());
    out.push('\n');
    assert(out@ =~= old(out)@ + shown_line(rec@));
}

/// Appends how `records` are shown to `print_buf`.
pub fn write_records(print_buf: &mut String, records: &Vec<TodoRecord>)
    ensures
        final(print_buf)@ == old(print_buf)@ + shown(records_model(records@)),
{
    let mut out: Vec<char> = Vec::new();
    let mut i: usize = 0;
    while i < records.len()
        invariant
            i <= records@.len(),
            out@ == shown(records_model(records@.subrange(0, i as int))),
        decreases records@.len() - i,
    {
        push_shown_line(&mut out, &records[i]);
        let ghost m = records_model(records@.subrange(0, i + 1));
        assert(m.drop_last() =~= records_model(records@.subrange(0, i as int)));
        assert(m.last() == records@[i as int]@);
        i = i + 1;
    }
    assert(records@.subrange(0, i as int) =~= records@);
    push_chars(print_buf, &out);
}

/// Appends how the records of a record file's text are shown to
/// `print_buf`; a file that does not parse leaves `print_buf` as it was.
pub fn write_todos_in_file(print_buf: &mut String, raw_todo_file: &str) -> (r: Result<
    (),
    TodoError,
>)
    ensures
        match parse_spec(raw_todo_file@) {
            Some(rs) => r is Ok && final(print_buf)@ == old(print_buf)@ + shown(rs),
            None => {
                &&& r == Err::<(), TodoError>(TodoError::MalformedRecordFile)
                &&& final(print_buf)@ == old(print_buf)@
            },
        },
{
    match parse_records(raw_todo_file) {
        Ok(records) => {
            write_records(print_buf, &records);
            Ok(())
        },
        Err(e) => Err(e),
    }
}

/// Appends the heading of directory `dir` to `print_buf`.
pub fn write_heading(print_buf: &mut String, dir: &str)
    ensures
        final(print_buf)@ == old(print_buf)@ + heading(dir@),
{
    let mut out: Vec<char> = Vec::new();
    out.push('\n');
    extend_chars(&mut out, "Todo: \"");
    extend_chars(&mut out, dir);
    out.push('"');
    out.push('\n');
    proof {
        reveal_strlit("Todo: \"");
    }
    assert(out@ =~= heading(dir@));
    push_chars(print_buf, &out);
}


/// A directory to list, with its record file's text, or `None` where the
/// file could not be opened.
#[derive(Debug)]
pub struct ListedDir {
    pub directory_path: String,
    pub contents: Option<String>,
}

/// How one directory is shown: its heading, then its records where its file
/// was opened; `None` where the file's text does not parse.
pub open spec fn dir_listing(d: ListedDir) -> Option<Seq<char>> {
    match d.contents {
        None => Some(heading(d.directory_path@)),
        Some(t) => match parse_spec(t@) {
            None => None,
            Some(rs) => Some(heading(d.directory_path@) + shown(rs)),
        },
    }
}

/// How a sequence of directories is shown, one after the other.
pub open spec fn listing_spec(ds: Seq<ListedDir>) -> Option<Seq<char>>
    decreases ds.len(),
{
    if ds.len() == 0 {
        Some(Seq::empty())
    } else {
        match (listing_spec(ds.drop_last()), dir_listing(ds.last())) {
            (Some(p), Some(q)) => Some(p + q),
            _ => None,
        }
    }
}

/// The listing of every directory, in order.
pub fn list_todos_all(dirs: &Vec<ListedDir>) -> (r: Result<String, TodoError>)
    ensures
        match listing_spec(dirs@) {
            Some(t) => r is Ok && r->Ok_0@ == t,
            None => r == Err::<String, TodoError>(TodoError::MalformedRecordFile),
        },
{
    let mut out = String::new();
    let mut i: usize = 0;
    assert(dirs@.subrange(0, 0) =~= Seq::<ListedDir>::empty());
    while i < dirs.len()
        invariant
            i <= dirs@.len(),
            listing_spec(dirs@.subrange(0, i as int)) == Some(out@),
        decreases dirs@.len() - i,
    {
        let ghost before = out@;
        let ghost sub = dirs@.subrange(0, i + 1);
        assert(sub.drop_last() =~= dirs@.subrange(0, i as int));
        assert(sub.last() == dirs@[i as int]);
        let d = &dirs[i];
        write_heading(&mut out, d.directory_path.as_str());
        match &d.contents {
            Some(t) => {
                match write_todos_in_file(&mut out, t.as_str()) {
                    Ok(()) => {
                        assert(out@ =~= before + dir_listing(*d)->0);
                    },
                    Err(e) => {
                        proof {
                            lemma_listing_stays_none(dirs@, i as int + 1);
                        }
                        return Err(e);
                    },
                }
            },
            None => {
                assert(out@ =~= before + dir_listing(*d)->0);
            },
        }
        i = i + 1;
    }
    assert(dirs@.subrange(0, i as int) =~= dirs@);
    Ok(out)
}

/// Once a prefix of the directories does not show, no longer prefix does.
proof fn lemma_listing_stays_none(ds: Seq<ListedDir>, k: int)
    requires
        0 <= k <= ds.len(),
        listing_spec(ds.subrange(0, k)) is None,
    ensures
        listing_spec(ds) is None,
    decreases ds.len() - k,
{
    if k < ds.len() {
        assert(ds.subrange(0, k + 1).drop_last() =~= ds.subrange(0, k));
        lemma_listing_stays_none(ds, k + 1);
    } else {
        assert(ds.subrange(0, k) =~= ds);
    }
}

} // verus!
