//! The record file format: one record per line, `id<TAB>text<TAB>marker`,
//! each line ended by a newline.
use vstd::prelude::*;
use crate::decimal::{
    decimal, decimal_chars, is_digit, lemma_decimal_reads_back, parse_decimal, parse_decimal_spec,
};
use crate::record::{RecordModel, Status, TodoError, TodoRecord, records_model};
use crate::text::{
    CARRIAGE_RETURN, FIELD_SEP, LINE_SEP, chars_between, chars_of, extend_chars, is_field_text, string_of,
};

verus! {

/// The marker of an active record.
pub open spec fn active_marker() -> Seq<char> {
    seq!['[', ' ', ']']
}

/// The marker of a done record.
pub open spec fn done_marker() -> Seq<char> {
    seq!['[', '\u{2713}', ']']
}

pub open spec fn marker(s: Status) -> Seq<char> {
    match s {
        Status::Active => active_marker(),
        Status::Done => done_marker(),
    }
}

pub open spec fn status_of_marker(m: Seq<char>) -> Option<Status> {
    if m == active_marker() {
        Some(Status::Active)
    } else if m == done_marker() {
        Some(Status::Done)
    } else {
        None
    }
}

/// A record's line without its newline.
pub open spec fn record_fields(r: RecordModel) -> Seq<char> {
    decimal(r.id as nat) + seq![FIELD_SEP] + r.text + seq![FIELD_SEP] + marker(r.status)
}

/// A record's line, newline included.
pub open spec fn record_line(r: RecordModel) -> Seq<char> {
    record_fields(r).push(LINE_SEP)
}

/// The text of a record file holding `rs`.
pub open spec fn serialize_spec(rs: Seq<RecordModel>) -> Seq<char>
    decreases rs.len(),
{
    if rs.len() == 0 {
        Seq::empty()
    } else {
        serialize_spec(rs.drop_last()) + record_line(rs.last())
    }
}

/// The position of the first `c` in `s`, or `s.len()` where there is none.
pub open spec fn first_index(s: Seq<char>, c: char) -> nat
    decreases s.len(),
{
    if s.len() == 0 {
        0
    } else if s[0] == c {
        0
    } else {
        1 + first_index(s.drop_first(), c)
    }
}

/// The record that a line (without its newline) holds, if it is one.
pub open spec fn parse_line_spec(l: Seq<char>) -> Option<RecordModel> {
    let t1 = first_index(l, FIELD_SEP) as int;
    if t1 >= l.len() {
        None
    } else {
        let rest = l.subrange(t1 + 1, l.len() as int);
        let t2 = first_index(rest, FIELD_SEP) as int;
        if t2 >= rest.len() {
            None
        } else {
            match (
                parse_decimal_spec(l.subrange(0, t1)),
                status_of_marker(rest.subrange(t2 + 1, rest.len() as int)),
            ) {
                (Some(id), Some(st)) => Some(
                    RecordModel { id, text: rest.subrange(0, t2), status: st },
                ),
                _ => None,
            }
        }
    }
}

/// Where the first line of `s` ends: at its first newline, or at the end.
pub open spec fn line_end(s: Seq<char>) -> int {
    first_index(s, LINE_SEP) as int
}

/// The first line of `s`, without its newline, and without a carriage
/// return that stands just before that newline.
pub open spec fn first_line(s: Seq<char>) -> Seq<char> {
    let e = line_end(s);
    if 0 < e < s.len() && s[e - 1] == CARRIAGE_RETURN {
        s.subrange(0, e - 1)
    } else {
        s.subrange(0, e)
    }
}

/// What follows the first line of `s` and its newline.
pub open spec fn after_first_line(s: Seq<char>) -> Seq<char> {
    let e = line_end(s);
    if e < s.len() {
        s.subrange(e + 1, s.len() as int)
    } else {
        Seq::empty()
    }
}

/// The records that a record file holds, or `None` where a line is not a
/// record. The last line may lack its newline.
pub open spec fn parse_spec(s: Seq<char>) -> Option<Seq<RecordModel>>
    decreases s.len(),
{
    if s.len() == 0 {
        Some(Seq::empty())
    } else {
        match parse_line_spec(first_line(s)) {
            None => None,
            Some(r) => match parse_spec(after_first_line(s)) {
                None => None,
                Some(rest) => Some(seq![r] + rest),
            },
        }
    }
}

pub open spec fn prepend(a: Seq<RecordModel>, o: Option<Seq<RecordModel>>) -> Option<
    Seq<RecordModel>,
> {
    match o {
        Some(x) => Some(a + x),
        None => None,
    }
}

/// Every record's text can stand in a field.
pub open spec fn texts_are_fields(rs: Seq<RecordModel>) -> bool {
    forall|i: int| 0 <= i < rs.len() ==> is_field_text(#[trigger] rs[i].text)
}

/// Where the first `c` of `s` stands, given that none comes before `k`.
pub proof fn lemma_first_index(s: Seq<char>, c: char, k: int)
    requires
        0 <= k <= s.len(),
        forall|j: int| 0 <= j < k ==> s[j] != c,
        k == s.len() || s[k] == c,
    ensures
        first_index(s, c) == k,
    decreases k,
{
    if k > 0 {
        lemma_first_index(s.drop_first(), c, k - 1);
    }
}

/// The bounds of the line that starts at `pos`: where its text ends, and
/// where the next line starts.
pub fn line_bounds(s: &Vec<char>, pos: usize) -> (r: (usize, usize))
    requires
        pos < s@.len(),
    ensures
        pos <= r.0 <= r.1 <= s@.len(),
        pos < r.1,
        s@.subrange(pos as int, r.0 as int) == first_line(s@.subrange(pos as int, s@.len() as int)),
        s@.subrange(r.1 as int, s@.len() as int) == after_first_line(
            s@.subrange(pos as int, s@.len() as int),
        ),
{
    let n = s.len();
    let ghost t = s@.subrange(pos as int, n as int);
    let mut e: usize = pos;
    while e < n && s[e] != LINE_SEP
        invariant
            pos <= e <= n == s@.len(),
            forall|j: int| pos <= j < e ==> s@[j] != LINE_SEP,
        decreases n - e,
    {
        e = e + 1;
    }
    proof {
        assert forall|j: int| 0 <= j < e - pos implies t[j] != LINE_SEP by {
            assert(t[j] == s@[pos + j]);
        }
        lemma_first_index(t, LINE_SEP, e - pos);
    }
    if e == n {
        assert(s@.subrange(pos as int, e as int) =~= t.subrange(0, e - pos));
        assert(s@.subrange(n as int, n as int) =~= Seq::<char>::empty());
        return (n, n);
    }
    assert(t.subrange(e - pos + 1, t.len() as int) =~= s@.subrange(e + 1, n as int));
    if e > pos && s[e - 1] == CARRIAGE_RETURN {
        assert(s@.subrange(pos as int, e - 1) =~= t.subrange(0, e - pos - 1));
        (e - 1, e + 1)
    } else {
        assert(s@.subrange(pos as int, e as int) =~= t.subrange(0, e - pos));
        (e, e + 1)
    }
}

proof fn lemma_serialize_front(rs: Seq<RecordModel>)
    requires
        rs.len() > 0,
    ensures
        serialize_spec(rs) == record_line(rs[0]) + serialize_spec(rs.drop_first()),
    decreases rs.len(),
{
    if rs.len() == 1 {
        assert(rs.drop_last() =~= Seq::<RecordModel>::empty());
        assert(rs.drop_first() =~= Seq::<RecordModel>::empty());
        assert(serialize_spec(rs.drop_first()) == Seq::<char>::empty());
        assert(serialize_spec(rs.drop_last()) == Seq::<char>::empty());
        assert(serialize_spec(rs) =~= record_line(rs[0]) + serialize_spec(rs.drop_first()));
    } else {
        lemma_serialize_front(rs.drop_last());
        assert(rs.drop_last().drop_first() =~= rs.drop_first().drop_last());
        assert(rs.drop_first().last() == rs.last());
        assert(rs.drop_last()[0] == rs[0]);
        assert(serialize_spec(rs) =~= record_line(rs[0]) + serialize_spec(rs.drop_first()));
    }
}

proof fn lemma_line_reads_back(r: RecordModel)
    requires
        is_field_text(r.text),
    ensures
        forall|j: int| 0 <= j < record_fields(r).len() ==> record_fields(r)[j] != LINE_SEP,
        parse_line_spec(record_fields(r)) == Some(r),
{
    let d = decimal(r.id as nat);
    lemma_decimal_reads_back(r.id as nat);
    let l = record_fields(r);
    let mk = marker(r.status);
    let tl = r.text.len();
    assert forall|j: int| 0 <= j < d.len() implies d[j] != FIELD_SEP && d[j] != LINE_SEP by {
        assert(is_digit(d[j]));
    }
    assert forall|j: int| 0 <= j < tl implies r.text[j] != FIELD_SEP && r.text[j]
        != LINE_SEP by {
        if r.text[j] == FIELD_SEP {
            assert(r.text.contains(FIELD_SEP));
        }
        if r.text[j] == LINE_SEP {
            assert(r.text.contains(LINE_SEP));
        }
    }
    assert forall|j: int| 0 <= j < l.len() implies l[j] != LINE_SEP by {
        if j < d.len() {
            assert(l[j] == d[j]);
        } else if j == d.len() {
        } else if j < d.len() + 1 + tl {
            assert(l[j] == r.text[j - d.len() - 1]);
        } else if j == d.len() + 1 + tl {
        } else {
            assert(l[j] == mk[j - d.len() - 2 - tl]);
        }
    }
    lemma_first_index(l, FIELD_SEP, d.len() as int);
    let rest = l.subrange(d.len() + 1 as int, l.len() as int);
    assert(rest =~= r.text + seq![FIELD_SEP] + mk);
    assert forall|j: int| 0 <= j < tl implies rest[j] != FIELD_SEP by {
        assert(rest[j] == r.text[j]);
    }
    lemma_first_index(rest, FIELD_SEP, tl as int);
    assert(rest.subrange(tl + 1 as int, rest.len() as int) =~= mk);
    assert(l.subrange(0, d.len() as int) =~= d);
    assert(rest.subrange(0, tl as int) =~= r.text);
    assert(active_marker()[1] != done_marker()[1]);
    assert(status_of_marker(mk) == Some(r.status));
}

/// A file that starts with a record's line reads as that record followed by
/// what the rest reads as.
proof fn lemma_parse_front(r: RecordModel, u: Seq<char>)
    requires
        is_field_text(r.text),
    ensures
        parse_spec(record_line(r) + u) == prepend(seq![r], parse_spec(u)),
{
    lemma_line_reads_back(r);
    let s = record_line(r) + u;
    let l = record_fields(r);
    assert forall|j: int| 0 <= j < l.len() implies s[j] != LINE_SEP by {
        assert(s[j] == l[j]);
    }
    lemma_first_index(s, LINE_SEP, l.len() as int);
    assert(l[l.len() - 1] == ']');
    assert(s[l.len() - 1] == ']');
    assert(first_line(s) =~= l);
    assert(after_first_line(s) =~= u);
}

/// Serializing records whose texts hold no delimiter and parsing the result
/// gives back the same records, field for field.
pub proof fn lemma_round_trip(rs: Seq<RecordModel>)
    requires
        texts_are_fields(rs),
    ensures
        parse_spec(serialize_spec(rs)) == Some(rs),
    decreases rs.len(),
{
    if rs.len() == 0 {
        assert(serialize_spec(rs) == Seq::<char>::empty());
        assert(rs =~= Seq::<RecordModel>::empty());
    } else {
        let tail = rs.drop_first();
        assert(texts_are_fields(tail)) by {
            assert forall|i: int| 0 <= i < tail.len() implies is_field_text(
                #[trigger] tail[i].text,
            ) by {
                assert(tail[i] == rs[i + 1]);
            }
        }
        lemma_round_trip(tail);
        lemma_serialize_front(rs);
        lemma_parse_front(rs[0], serialize_spec(tail));
        let whole = serialize_spec(rs);
        let front = record_line(rs[0]) + serialize_spec(tail);
        assert(whole == front);
        assert(parse_spec(front) == Some(seq![rs[0]] + tail));
        assert(seq![rs[0]] + tail =~= rs);
    }
}

/// Appends the line of a record to `out`.
pub fn push_record_line(out: &mut Vec<char>, id: u64, text: &str, status: Status)
    ensures
        final(out)@ == old(out)@ + record_line(RecordModel { id, text: text@, status }),
{
    let d = decimal_chars(id);
    let mut i: usize = 0;
    while i < d.len()
        invariant
            i <= d@.len(),
            d@ == decimal(id as nat),
            out@ == old(out)@ + d@.subrange(0, i as int),
        decreases d@.len() - i,
    {
        out.push(d[i]);
        assert(d@.subrange(0, i + 1) =~= d@.subrange(0, i as int).push(d@[i as int]));
        i = i + 1;
    }
    assert(d@.subrange(0, i as int) =~= d@);
    out.push(FIELD_SEP);
    extend_chars(out, text);
    out.push(FIELD_SEP);
    out.push('[');
    match status {
        Status::Active => out.push(' '),
        Status::Done => out.push('\u{2713}'),
    }
    out.push(']');
    out.push(LINE_SEP);
    let ghost r = RecordModel { id, text: text@, status };
    assert(out@ =~= old(out)@ + record_line(r));
}

/// The text of a record file holding `rs`.
pub fn serialize_records(rs: &Vec<TodoRecord>) -> (r: String)
    ensures
        r@ == serialize_spec(records_model(rs@)),
{
    let mut out: Vec<char> = Vec::new();
    let mut i: usize = 0;
    while i < rs.len()
        invariant
            i <= rs@.len(),
            out@ == serialize_spec(records_model(rs@.subrange(0, i as int))),
        decreases rs@.len() - i,
    {
        let rec = &rs[i];
        push_record_line(&mut out, rec.id, rec.text.as_str(), rec.status);
        let ghost m = records_model(rs@.subrange(0, i + 1));
        assert(m.drop_last() =~= records_model(rs@.subrange(0, i as int)));
        assert(m.last() == rs@[i as int]@);
        i = i + 1;
    }
    assert(rs@.subrange(0, i as int) =~= rs@);
    string_of(&out, 0, out.len())
}

/// Reads one line (without its newline) as a record.
pub fn parse_line(l: &Vec<char>) -> (r: Option<TodoRecord>)
    ensures
        match r {
            Some(rec) => parse_line_spec(l@) == Some(rec@),
            None => parse_line_spec(l@) is None,
        },
{
    let n = l.len();
    let mut t1: usize = 0;
    while t1 < n && l[t1] != FIELD_SEP
        invariant
            t1 <= n == l@.len(),
            forall|j: int| 0 <= j < t1 ==> l@[j] != FIELD_SEP,
        decreases n - t1,
    {
        t1 = t1 + 1;
    }
    proof {
        lemma_first_index(l@, FIELD_SEP, t1 as int);
    }
    if t1 == n {
        return None;
    }
    let mut t2: usize = t1 + 1;
    while t2 < n && l[t2] != FIELD_SEP
        invariant
            t1 < n == l@.len(),
            t1 + 1 <= t2 <= n,
            forall|j: int| t1 + 1 <= j < t2 ==> l@[j] != FIELD_SEP,
        decreases n - t2,
    {
        t2 = t2 + 1;
    }
    let ghost rest = l@.subrange(t1 + 1, n as int);
    proof {
        assert forall|j: int| 0 <= j < t2 - t1 - 1 implies rest[j] != FIELD_SEP by {
            assert(rest[j] == l@[t1 + 1 + j]);
        }
        lemma_first_index(rest, FIELD_SEP, t2 - t1 - 1);
    }
    if t2 == n {
        return None;
    }
    let ghost m = rest.subrange(t2 - t1, rest.len() as int);
    assert(m =~= l@.subrange(t2 + 1, n as int));
    let status = if n - t2 == 4 && l[t2 + 1] == '[' && l[t2 + 3] == ']' {
        if l[t2 + 2] == ' ' {
            assert(m =~= active_marker());
            Some(Status::Active)
        } else if l[t2 + 2] == '\u{2713}' {
            assert(m =~= done_marker());
            Some(Status::Done)
        } else {
            assert(m[1] != active_marker()[1]);
            assert(m[1] != done_marker()[1]);
            None
        }
    } else {
        proof {
            if m.len() == 3 {
                assert(m[0] != '[' || m[2] != ']');
                assert(m != active_marker() && m != done_marker()) by {
                    if m == active_marker() {
                        assert(m[0] == '[');
                    }
                    if m == done_marker() {
                        assert(m[0] == '[');
                    }
                }
            }
        }
        None
    };
    let id = parse_decimal(l, 0, t1);
    match (id, status) {
        (Some(id), Some(status)) => {
            let text = string_of(l, t1 + 1, t2);
            assert(text@ =~= rest.subrange(0, t2 - t1 - 1));
            Some(TodoRecord { id, text, status })
        },
        _ => None,
    }
}

/// Reads a record file.
pub fn parse_records(contents: &str) -> (r: Result<Vec<TodoRecord>, TodoError>)
    ensures
        match r {
            Ok(v) => parse_spec(contents@) == Some(records_model(v@)),
            Err(e) => e == TodoError::MalformedRecordFile && parse_spec(contents@) is None,
        },
{
    let s = chars_of(contents);
    let n = s.len();
    let mut acc: Vec<TodoRecord> = Vec::new();
    let mut pos: usize = 0;
    assert(s@.subrange(0, n as int) =~= s@);
    proof {
        if parse_spec(s@) is Some {
            assert(records_model(acc@) + parse_spec(s@)->0 =~= parse_spec(s@)->0);
        }
    }
    while pos < n
        invariant
            pos <= n == s@.len(),
            s@ == contents@,
            parse_spec(s@) == prepend(
                records_model(acc@),
                parse_spec(s@.subrange(pos as int, n as int)),
            ),
        decreases n - pos,
    {
        let (end, next) = line_bounds(&s, pos);
        let line = chars_between(&s, pos, end);
        match parse_line(&line) {
            None => {
                return Err(TodoError::MalformedRecordFile);
            },
            Some(rec) => {
                let ghost before = records_model(acc@);
                acc.push(rec);
                assert(records_model(acc@) =~= before.push(rec@));
                proof {
                    let tail = parse_spec(s@.subrange(next as int, n as int));
                    if tail is Some {
                        assert(before + (seq![rec@] + tail->0) =~= records_model(acc@)
                            + tail->0);
                    }
                }
                pos = next;
            },
        }
    }
    assert(records_model(acc@) + Seq::<RecordModel>::empty() =~= records_model(acc@));
    Ok(acc)
}

} // verus!
