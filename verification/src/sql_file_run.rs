//! The checks before an uploaded SQL file runs against one connection, in
//! their order: the file's path, then its size, then its content. The
//! service reads the file system and hands back what it found.
use vstd::prelude::*;

use crate::sql_file_batch::{sql_file_size_error, MAX_SQL_FILE_BYTES};
use crate::text::decimal;

verus! {

broadcast use vstd::string::group_string_axioms;

/// What the last check found.
#[derive(Debug)]
pub enum SqlFileRunEvent {
    /// The path was checked: it is an uploaded file, or why not.
    PathChecked(Result<(), String>),
    /// The file's size in bytes, or why it could not be read.
    SizeRead(Result<u64, String>),
    /// The file's content was read and decoded, or why not.
    ContentRead(Result<(), String>),
}

/// What the runner of a SQL file does next.
#[derive(Debug)]
pub enum SqlFileRunStep {
    /// Read the file's size.
    ReadSize,
    /// Read and decode the file's content.
    ReadContent,
    /// Report the execution as started, then execute the content.
    Start,
    /// Report the execution as failed with this message, and stop.
    Fail(String),
}

/// The message of a file over the size limit.
pub open spec fn too_large_message(size_bytes: nat) -> Seq<char> {
    "File too large: "@ + decimal(size_bytes) + " bytes (max "@ + decimal(MAX_SQL_FILE_BYTES as nat) + " bytes)"@
}

/// `step` ends the run with the message `m`.
pub open spec fn fails_with(step: SqlFileRunStep, m: Seq<char>) -> bool {
    step matches SqlFileRunStep::Fail(e) && e@ == m
}

/// The next step after a check: the first check that fails ends the run
/// with its message; a file over 200 MiB is refused with its size; each
/// check that passes leads to the next one, and the execution starts only
/// once the content has been read.
pub fn next_sql_file_run_step(event: SqlFileRunEvent) -> (step: SqlFileRunStep)
    ensures
        match event {
            SqlFileRunEvent::PathChecked(Err(e)) => fails_with(step, e@),
            SqlFileRunEvent::PathChecked(Ok(())) => step is ReadSize,
            SqlFileRunEvent::SizeRead(Err(e)) => fails_with(step, e@),
            SqlFileRunEvent::SizeRead(Ok(size)) => if size > MAX_SQL_FILE_BYTES {
                fails_with(step, too_large_message(size as nat))
            } else {
                step is ReadContent
            },
            SqlFileRunEvent::ContentRead(Err(e)) => fails_with(step, e@),
            SqlFileRunEvent::ContentRead(Ok(())) => step is Start,
        },
{
    match event {
        SqlFileRunEvent::PathChecked(Err(e)) => SqlFileRunStep::Fail(e),
        SqlFileRunEvent::PathChecked(Ok(())) => SqlFileRunStep::ReadSize,
        SqlFileRunEvent::SizeRead(Err(e)) => SqlFileRunStep::Fail(e),
        SqlFileRunEvent::SizeRead(Ok(size)) => match sql_file_size_error(size) {
            Some(m) => SqlFileRunStep::Fail(m),
            None => SqlFileRunStep::ReadContent,
        },
        SqlFileRunEvent::ContentRead(Err(e)) => SqlFileRunStep::Fail(e),
        SqlFileRunEvent::ContentRead(Ok(())) => SqlFileRunStep::Start,
    }
}

} // verus!
