//! TODO records, their status, and the errors of the store.
use vstd::prelude::*;

verus! {

#[derive(Clone, Copy, Debug, PartialEq, Eq, Structural)]
pub enum Status {
    Active,
    Done,
}

#[derive(Debug)]
pub struct TodoRecord {
    pub id: u64,
    pub text: String,
    pub status: Status,
}

/// What a record is, with its text as characters.
pub struct RecordModel {
    pub id: u64,
    pub text: Seq<char>,
    pub status: Status,
}

impl View for TodoRecord {
    type V = RecordModel;

    open spec fn view(&self) -> RecordModel {
        RecordModel { id: self.id, text: self.text@, status: self.status }
    }
}

/// The models of a vector of records.
pub open spec fn records_model(v: Seq<TodoRecord>) -> Seq<RecordModel> {
    v.map_values(|r: TodoRecord| r@)
}

#[derive(Clone, Copy, Debug, PartialEq, Eq, Structural)]
pub enum TodoError {
    /// The text holds a tab or a newline.
    InvalidText,
    /// No record carries the requested ID.
    NoRecordAtId,
    /// Every ID up to the largest `u64` is taken.
    IdsExhausted,
    /// A record file holds a line that is not a record.
    MalformedRecordFile,
    /// The directory map holds a line that is not an entry.
    MalformedDirMap,
}

impl TodoRecord {
    pub fn new(id: u64, text: String, status: Status) -> (r: TodoRecord)
        ensures
            r.id == id,
            r.text == text,
            r.status == status,
    {
        TodoRecord { id, text, status }
    }
}

} // verus!
