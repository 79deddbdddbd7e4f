//! The library's error type and its messages.
use vstd::prelude::*;
use vstd::string::StringExecFns;
use crate::text::{decimal, u64_to_decimal};
use crate::types::FetchedVTODO;

verus! {

/// Everything that can go wrong in a sync run.
#[derive(Debug)]
pub enum CaldaWarriorError {
    Config(String),
    Tw { code: i32, stderr: String },
    CalDav { status: u16, body: String },
    Auth { server_url: String },
    IcalParse(String),
    SyncConflict,
    EtagConflict { refetched_vtodo: FetchedVTODO },
}

/// Decimal rendering of a signed integer, with a leading `-` when negative.
pub open spec fn signed_decimal(i: int) -> Seq<char> {
    if i < 0 {
        seq!['-'] + decimal((-i) as nat)
    } else {
        decimal(i as nat)
    }
}

/// The message of each error.
pub open spec fn error_message(e: CaldaWarriorError) -> Seq<char> {
    match e {
        CaldaWarriorError::Config(s) => "Configuration error: "@ + s@,
        CaldaWarriorError::Tw { code, stderr } => "TaskWarrior exited with code "@ + signed_decimal(
            code as int,
        ) + ": "@ + stderr@,
        CaldaWarriorError::CalDav { status, body } => "CalDAV request failed with status "@ + decimal(
            status as nat,
        ) + ": "@ + body@,
        CaldaWarriorError::Auth { server_url } => "Authentication failed for "@ + server_url@
            + ": check your credentials in the config file"@,
        CaldaWarriorError::IcalParse(s) => "iCalendar parse error: "@ + s@,
        CaldaWarriorError::SyncConflict => "Sync conflict could not be resolved automatically"@,
        CaldaWarriorError::EtagConflict { .. } =>
            "ETag conflict: server resource changed during sync; refetched VTODO is attached for retry"@,
    }
}

/// Decimal rendering of an `i32`.
pub fn i32_to_decimal(i: i32) -> (s: String)
    ensures
        s@ == signed_decimal(i as int),
{
    if i < 0 {
        let m: u64 = (-(i as i64)) as u64;
        let d = u64_to_decimal(m);
        let mut s = String::from_str("-");
        s.append(d.as_str());
        proof {
            reveal_strlit("-");
        }
        s
    } else {
        u64_to_decimal(i as u64)
    }
}

impl CaldaWarriorError {
    /// The human-readable message of the error.
    pub fn message(&self) -> (s: String)
        ensures
            s@ == error_message(*self),
    {
        match self {
            CaldaWarriorError::Config(s) => {
                let mut m = String::from_str("Configuration error: ");
                m.append(s.as_str());
                m
            },
            CaldaWarriorError::Tw { code, stderr } => {
                let mut m = String::from_str("TaskWarrior exited with code ");
                let d = i32_to_decimal(*code);
                m.append(d.as_str());
                m.append(": ");
                m.append(stderr.as_str());
                m
            },
            CaldaWarriorError::CalDav { status, body } => {
                let mut m = String::from_str("CalDAV request failed with status ");
                let d = u64_to_decimal(*status as u64);
                m.append(d.as_str());
                m.append(": ");
                m.append(body.as_str());
                m
            },
            CaldaWarriorError::Auth { server_url } => {
                let mut m = String::from_str("Authentication failed for ");
                m.append(server_url.as_str());
                m.append(": check your credentials in the config file");
                m
            },
            CaldaWarriorError::IcalParse(s) => {
                let mut m = String::from_str("iCalendar parse error: ");
                m.append(s.as_str());
                m
            },
            CaldaWarriorError::SyncConflict => String::from_str(
                "Sync conflict could not be resolved automatically",
            ),
            CaldaWarriorError::EtagConflict { .. } => String::from_str(
                "ETag conflict: server resource changed during sync; refetched VTODO is attached for retry",
            ),
        }
    }
}

} // verus!
