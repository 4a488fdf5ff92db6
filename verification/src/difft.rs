//! What difftastic reports of a file.

use vstd::prelude::*;

verus! {

/// What happened to a file.
#[derive(Clone, Copy, Debug, PartialEq, Eq, Structural)]
pub enum Status {
    Unchanged,
    Changed,
    Created,
    Deleted,
}

/// A piece of a line that changed.
#[derive(Clone, Debug, PartialEq, Eq)]
pub struct Change {
    pub start: u32,
    pub end: u32,
    pub content: String,
    pub highlight: String,
}

/// One side of a line that changed.
#[derive(Clone, Debug, PartialEq, Eq)]
pub struct Side {
    pub line_number: u32,
    pub changes: Vec<Change>,
}

/// A line that changed, on either side or on both.
#[derive(Clone, Debug, PartialEq, Eq)]
pub struct DiffLine {
    pub lhs: Option<Side>,
    pub rhs: Option<Side>,
}

/// A file that was compared.
#[derive(Clone, Debug, PartialEq, Eq)]
pub struct DifftFile {
    pub path: String,
    pub language: String,
    pub status: Status,
    pub aligned_lines: Vec<(Option<u32>, Option<u32>)>,
    pub chunks: Vec<Vec<DiffLine>>,
}

/// The name of a status.
pub open spec fn status_text(status: Status) -> Seq<char> {
    match status {
        Status::Unchanged => "Unchanged"@,
        Status::Changed => "Changed"@,
        Status::Created => "Created"@,
        Status::Deleted => "Deleted"@,
    }
}

/// Names a status.
pub fn status_name(status: Status) -> (r: String)
    ensures
        r@ == status_text(status),
{
    match status {
        Status::Unchanged => "Unchanged".to_owned(),
        Status::Changed => "Changed".to_owned(),
        Status::Created => "Created".to_owned(),
        Status::Deleted => "Deleted".to_owned(),
    }
}

/// The files that a JSON output was parsed into, or why it could not be parsed.
pub fn parsed_files(parsed: Result<Vec<DifftFile>, String>) -> (r: Result<Vec<DifftFile>, String>)
    ensures
        match (parsed, r) {
            (Ok(files), Ok(result)) => result == files,
            (Err(error), Err(message)) => message@ == "Failed to parse difftastic JSON: "@ + error@,
            _ => false,
        },
{
    match parsed {
        Ok(files) => Ok(files),
        Err(error) => Err(
            "Failed to parse difftastic JSON: ".to_owned().concat(error.as_str()),
        ),
    }
}

/// A status goes by its own name.
pub proof fn law_statuses_go_by_their_names()
    ensures
        status_text(Status::Unchanged) == "Unchanged"@,
        status_text(Status::Changed) == "Changed"@,
        status_text(Status::Created) == "Created"@,
        status_text(Status::Deleted) == "Deleted"@,
{
}

} // verus!
