//! The answer of the transform command.

use vstd::prelude::*;
use crate::text::same_text;

verus! {

/// Whether the command succeeded.
#[derive(Clone, Copy, Debug, PartialEq, Eq, Structural)]
pub enum CommandStatus {
    Success,
    Failure,
}

/// The word a status is written as.
pub open spec fn status_text(s: CommandStatus) -> Seq<char> {
    match s {
        CommandStatus::Success => "success"@,
        CommandStatus::Failure => "failure"@,
    }
}

impl CommandStatus {
    /// The word this status is written as.
    pub fn as_text(&self) -> (r: &'static str)
        ensures
            r@ == status_text(*self),
    {
        match self {
            CommandStatus::Success => "success",
            CommandStatus::Failure => "failure",
        }
    }

    /// The status a word names, if any.
    pub fn from_text(s: &str) -> (r: Option<CommandStatus>)
        ensures
            match r {
                Some(st) => status_text(st) == s@,
                None => s@ != "success"@ && s@ != "failure"@,
            },
    {
        if same_text(s, "success") {
            Some(CommandStatus::Success)
        } else if same_text(s, "failure") {
            Some(CommandStatus::Failure)
        } else {
            None
        }
    }
}

/// What the command answers: its status, the number of rows it wrote, the
/// fatal error if it failed, and a warning for each row it left out.
#[derive(Clone, Debug)]
pub struct TransformCommandResponse {
    pub status: CommandStatus,
    pub num_rows: i32,
    pub error: Vec<String>,
    pub warning: Vec<String>,
}

impl TransformCommandResponse {
    /// The answer of a run that wrote `num_rows` rows.
    pub fn success(num_rows: i32, warning: Vec<String>) -> (r: Self)
        ensures
            r.status == CommandStatus::Success,
            r.num_rows == num_rows,
            r.error@.len() == 0,
            r.warning@ == warning@,
    {
        TransformCommandResponse { status: CommandStatus::Success, num_rows, error: Vec::new(), warning }
    }

    /// The answer of a run that failed.
    pub fn failure(error: Vec<String>) -> (r: Self)
        ensures
            r.status == CommandStatus::Failure,
            r.num_rows == 0,
            r.error@ == error@,
            r.warning@.len() == 0,
    {
        TransformCommandResponse { status: CommandStatus::Failure, num_rows: 0, error, warning: Vec::new() }
    }

    /// The answer of a run that failed for one reason.
    pub fn failed_with(message: String) -> (r: Self)
        ensures
            r.status == CommandStatus::Failure,
            r.num_rows == 0,
            r.error@.len() == 1,
            r.error@[0]@ == message@,
            r.warning@.len() == 0,
    {
        let mut error: Vec<String> = Vec::new();
        error.push(message);
        Self::failure(error)
    }

    /// The answer once the records were read and the report written, or
    /// failed to be written for the reason given. The row count is that of
    /// the records, capped at `i32::MAX`.
    pub fn after_write(num_records: usize, warning: Vec<String>, write_error: Option<String>) -> (r: Self)
        ensures
            match write_error {
                Some(m) => r.status == CommandStatus::Failure && r.num_rows == 0 && r.error@.len() == 1
                    && r.error@[0]@ == m@ && r.warning@.len() == 0,
                None => r.status == CommandStatus::Success && r.error@.len() == 0 && r.warning@ == warning@
                    && r.num_rows as int == if num_records <= i32::MAX { num_records as int } else { i32::MAX as int },
            },
    {
        match write_error {
            Some(m) => Self::failed_with(m),
            None => {
                let n: i32 = if num_records <= i32::MAX as usize { num_records as i32 } else { i32::MAX };
                Self::success(n, warning)
            },
        }
    }
}

} // verus!
