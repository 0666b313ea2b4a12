//! What the command line reads and shows.

use crate::instant::{format_rfc3339, parse_rfc3339, rfc3339_moment, rfc3339_text};
use crate::path::texts;
use crate::text::{decimal, push_decimal};
use vstd::prelude::*;

verus! {

/// A `--at` argument that is no RFC 3339 time.
pub struct InvalidAt {
    /// The argument.
    pub text: String,
    /// What is wrong with it.
    pub error: chrono::ParseError,
}

/// The moment that an optional `--at` argument names.
pub fn parse_at(at: Option<String>) -> (moment: Result<Option<(i64, u32)>, InvalidAt>)
    ensures
        match moment {
            Ok(Some(m)) => at is Some && rfc3339_moment(at->0@) == Some(m),
            Ok(None) => at is None,
            Err(e) => at is Some && rfc3339_moment(at->0@) is None && e.text@ == at->0@,
        },
{
    match at {
        Some(text) => match parse_rfc3339(text.as_str()) {
            Ok(moment) => Ok(Some(moment)),
            Err(error) => Err(InvalidAt { text, error }),
        },
        None => Ok(None),
    }
}

/// The table cell for a creation time: empty where there is none, or none that
/// can be shown.
pub open spec fn created_at_cell(created_at: Option<(i64, i32)>) -> Seq<char> {
    match created_at {
        Some((secs, nanos)) => match rfc3339_text(secs, nanos as u32) {
            Some(text) => text,
            None => Seq::empty(),
        },
        None => Seq::empty(),
    }
}

/// The row that a branch has in a listing: name, id and creation time.
pub fn branch_row(name: String, id: u32, created_at: Option<(i64, i32)>) -> (row: Vec<String>)
    ensures
        texts(row@) == seq![name@, decimal(id as nat), created_at_cell(created_at)],
{
    let shown = match created_at {
        Some((secs, nanos)) => format_rfc3339(
            secs,
            #[verifier::truncate]
            (nanos as u32),
        ),
        None => None,
    };
    branch_row_from(name, id, shown)
}

/// The row of a branch whose creation time is shown as given.
pub fn branch_row_from(name: String, id: u32, created_at: Option<String>) -> (row: Vec<String>)
    ensures
        texts(row@) == seq![
            name@,
            decimal(id as nat),
            match created_at {
                Some(text) => text@,
                None => Seq::empty(),
            },
        ],
{
    let mut id_text = String::new();
    push_decimal(&mut id_text, id as u64);
    assert(id_text@ =~= decimal(id as nat));
    let mut row: Vec<String> = Vec::new();
    row.push(name);
    row.push(id_text);
    match created_at {
        Some(text) => row.push(text),
        None => row.push(String::new()),
    }
    assert(texts(row@) =~= seq![
        name@,
        decimal(id as nat),
        match created_at {
            Some(text) => text@,
            None => Seq::empty(),
        },
    ]);
    row
}

/// The row that a fork has in a listing: name, its db path, its parent's, and
/// its base epoch.
pub fn fork_row(name: String, db_path: String, parent_db_path: String, base_epoch: u64) -> (row:
    Vec<String>)
    ensures
        texts(row@) == seq![name@, db_path@, parent_db_path@, decimal(base_epoch as nat)],
{
    let mut epoch_text = String::new();
    push_decimal(&mut epoch_text, base_epoch);
    assert(epoch_text@ =~= decimal(base_epoch as nat));
    let mut row: Vec<String> = Vec::new();
    row.push(name);
    row.push(db_path);
    row.push(parent_db_path);
    row.push(epoch_text);
    assert(texts(row@) =~= seq![name@, db_path@, parent_db_path@, decimal(base_epoch as nat)]);
    row
}

/// A branch is shown with its creation time where it has one that can be written
/// out, and with an empty cell otherwise.
pub proof fn law_shown_creation_time(secs: i64, nanos: i32)
    requires
        nanos >= 0,
    ensures
        created_at_cell(None).len() == 0,
        rfc3339_text(secs, nanos as u32) is None ==> created_at_cell(Some((secs, nanos))).len()
            == 0,
        rfc3339_text(secs, nanos as u32) is Some ==> rfc3339_text(secs, nanos as u32) == Some(
            created_at_cell(Some((secs, nanos))),
        ),
{
}

} // verus!
