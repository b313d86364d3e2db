//! The directory map: which record file belongs to which directory, one
//! `path<TAB>token` line per directory.
use vstd::prelude::*;
use crate::codec::{after_first_line, first_index, first_line, lemma_first_index, line_bounds};
use crate::record::TodoError;
use crate::text::{FIELD_SEP, LINE_SEP, chars_between, chars_of, extend_chars, string_of};

verus! {

#[derive(Debug)]
pub struct DirMapEntry {
    pub directory_path: String,
    pub file_token: String,
}

pub struct EntryModel {
    pub directory_path: Seq<char>,
    pub file_token: Seq<char>,
}

impl View for DirMapEntry {
    type V = EntryModel;

    open spec fn view(&self) -> EntryModel {
        EntryModel { directory_path: self.directory_path@, file_token: self.file_token@ }
    }
}

pub open spec fn entries_model(v: Seq<DirMapEntry>) -> Seq<EntryModel> {
    v.map_values(|e: DirMapEntry| e@)
}

/// An entry's line, newline included.
pub open spec fn entry_line(e: EntryModel) -> Seq<char> {
    e.directory_path + seq![FIELD_SEP] + e.file_token + seq![LINE_SEP]
}

/// The text of a directory map holding `es`.
pub open spec fn dir_map_spec(es: Seq<EntryModel>) -> Seq<char>
    decreases es.len(),
{
    if es.len() == 0 {
        Seq::empty()
    } else {
        dir_map_spec(es.drop_last()) + entry_line(es.last())
    }
}

/// The entry that a line (without its newline) holds: the path up to the
/// first tab, then the token up to the next tab or the line's end; any
/// further fields are ignored.
pub open spec fn parse_entry_spec(l: Seq<char>) -> Option<EntryModel> {
    let t = first_index(l, FIELD_SEP) as int;
    if t >= l.len() {
        None
    } else {
        let rest = l.subrange(t + 1, l.len() as int);
        Some(
            EntryModel {
                directory_path: l.subrange(0, t),
                file_token: rest.subrange(0, first_index(rest, FIELD_SEP) as int),
            },
        )
    }
}

/// The entries of a directory map's text, or `None` where a line holds no
/// tab. The last line may lack its newline.
pub open spec fn parse_dir_map_spec(s: Seq<char>) -> Option<Seq<EntryModel>>
    decreases s.len(),
{
    if s.len() == 0 {
        Some(Seq::empty())
    } else {
        match parse_entry_spec(first_line(s)) {
            None => None,
            Some(x) => match parse_dir_map_spec(after_first_line(s)) {
                None => None,
                Some(rest) => Some(seq![x] + rest),
            },
        }
    }
}

pub open spec fn prepend_entries(a: Seq<EntryModel>, o: Option<Seq<EntryModel>>) -> Option<
    Seq<EntryModel>,
> {
    match o {
        Some(x) => Some(a + x),
        None => None,
    }
}

/// Whether `i` is the first entry for `path`.
pub open spec fn is_first_entry(es: Seq<EntryModel>, path: Seq<char>, i: int) -> bool {
    &&& 0 <= i < es.len()
    &&& es[i].directory_path == path
    &&& forall|j: int| 0 <= j < i ==> es[j].directory_path != path
}

pub open spec fn has_entry(es: Seq<EntryModel>, path: Seq<char>) -> bool {
    exists|i: int| 0 <= i < es.len() && es[i].directory_path == path
}

fn parse_entry(l: &Vec<char>) -> (r: Option<DirMapEntry>)
    ensures
        match r {
            Some(e) => parse_entry_spec(l@) == Some(e@),
            None => parse_entry_spec(l@) is None,
        },
{
    let n = l.len();
    let mut t: usize = 0;
    while t < n && l[t] != FIELD_SEP
        invariant
            t <= n == l@.len(),
            forall|j: int| 0 <= j < t ==> l@[j] != FIELD_SEP,
        decreases n - t,
    {
        t = t + 1;
    }
    proof {
        lemma_first_index(l@, FIELD_SEP, t as int);
    }
    if t == n {
        return None;
    }
    let mut k: usize = t + 1;
    while k < n && l[k] != FIELD_SEP
        invariant
            t < k <= n == l@.len(),
            forall|j: int| t < j < k ==> l@[j] != FIELD_SEP,
        decreases n - k,
    {
        k = k + 1;
    }
    let ghost rest = l@.subrange(t + 1, n as int);
    proof {
        assert forall|j: int| 0 <= j < k - t - 1 implies rest[j] != FIELD_SEP by {
            assert(rest[j] == l@[t + 1 + j]);
        }
        lemma_first_index(rest, FIELD_SEP, k - t - 1);
    }
    let directory_path = string_of(l, 0, t);
    let file_token = string_of(l, t + 1, k);
    assert(file_token@ =~= rest.subrange(0, k - t - 1));
    Some(DirMapEntry { directory_path, file_token })
}

/// Reads the directory map's text.
pub fn dir_map_entries(dir_map_buf: &str) -> (r: Result<Vec<DirMapEntry>, TodoError>)
    ensures
        match r {
            Ok(v) => parse_dir_map_spec(dir_map_buf@) == Some(entries_model(v@)),
            Err(e) => e == TodoError::MalformedDirMap && parse_dir_map_spec(dir_map_buf@) is None,
        },
{
    let s = chars_of(dir_map_buf);
    let n = s.len();
    let mut acc: Vec<DirMapEntry> = Vec::new();
    let mut pos: usize = 0;
    assert(s@.subrange(0, n as int) =~= s@);
    proof {
        if parse_dir_map_spec(s@) is Some {
            assert(entries_model(acc@) + parse_dir_map_spec(s@)->0 =~= parse_dir_map_spec(s@)->0);
        }
    }
    while pos < n
        invariant
            pos <= n == s@.len(),
            s@ == dir_map_buf@,
            parse_dir_map_spec(s@) == prepend_entries(
                entries_model(acc@),
                parse_dir_map_spec(s@.subrange(pos as int, n as int)),
            ),
        decreases n - pos,
    {
        let (end, next) = line_bounds(&s, pos);
        let line = chars_between(&s, pos, end);
        match parse_entry(&line) {
            None => {
                return Err(TodoError::MalformedDirMap);
            },
            Some(entry) => {
                let ghost before = entries_model(acc@);
                acc.push(entry);
                assert(entries_model(acc@) =~= before.push(entry@));
                proof {
                    let tail = parse_dir_map_spec(s@.subrange(next as int, n as int));
                    if tail is Some {
                        assert(before + (seq![entry@] + tail->0) =~= entries_model(acc@)
                            + tail->0);
                    }
                }
                pos = next;
            },
        }
    }
    assert(entries_model(acc@) + Seq::<EntryModel>::empty() =~= entries_model(acc@));
    Ok(acc)
}

/// The first entry for `path`, compared character for character.
pub fn find_entry(entries: &Vec<DirMapEntry>, path: &str) -> (r: Option<usize>)
    ensures
        match r {
            Some(i) => is_first_entry(entries_model(entries@), path@, i as int),
            None => !has_entry(entries_model(entries@), path@),
        },
{
    let wanted = path.to_owned();
    let mut i: usize = 0;
    while i < entries.len()
        invariant
            i <= entries@.len(),
            wanted@ == path@,
            forall|j: int| 0 <= j < i ==> entries@[j].directory_path@ != path@,
        decreases entries@.len() - i,
    {
        if entries[i].directory_path == wanted {
            return Some(i);
        }
        i = i + 1;
    }
    None
}

/// The text of a directory map holding `entries`.
pub fn serialize_dir_map(entries: &Vec<DirMapEntry>) -> (r: String)
    ensures
        r@ == dir_map_spec(entries_model(entries@)),
{
    let mut out: Vec<char> = Vec::new();
    let mut i: usize = 0;
    while i < entries.len()
        invariant
            i <= entries@.len(),
            out@ == dir_map_spec(entries_model(entries@.subrange(0, i as int))),
        decreases entries@.len() - i,
    {
        let e = &entries[i];
        extend_chars(&mut out, e.directory_path.as_str());
        out.push(FIELD_SEP);
        extend_chars(&mut out, e.file_token.as_str());
        out.push(LINE_SEP);
        let ghost m = entries_model(entries@.subrange(0, i + 1));
        assert(m.drop_last() =~= entries_model(entries@.subrange(0, i as int)));
        assert(m.last() == entries@[i as int]@);
        assert(out@ =~= dir_map_spec(m));
        i = i + 1;
    }
    assert(entries@.subrange(0, i as int) =~= entries@);
    string_of(&out, 0, out.len())
}

} // verus!
