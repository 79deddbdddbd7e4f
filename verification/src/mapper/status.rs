//! Status mapper: TaskWarrior status to the CalDAV/sync status descriptor.
use vstd::prelude::*;
use vstd::string::StringExecFns;

use crate::text::str_eq;
use crate::trusted::{debug_str, str_debug, uuid_text, uuid_to_string};
use crate::types::{opt_str, TWTask, TWTaskView, Timestamp, Warning, WarningView};

verus! {

/// How a TaskWarrior task's status maps to the CalDAV side.
///
/// `TwStateDeleted` describes a state; it is not a delete instruction.
#[derive(Debug)]
pub enum TwToCalDavStatus {
    /// "pending": VTODO STATUS:NEEDS-ACTION.
    NeedsAction,
    /// "waiting": NEEDS-ACTION with a wait instant.
    NeedsActionWithWait(Timestamp),
    /// "completed": VTODO STATUS:COMPLETED at the given instant.
    Completed(Timestamp),
    /// "deleted": the caller decides what it means.
    TwStateDeleted,
    /// "recurring": skipped with a warning.
    Skip(Warning),
}

/// The warning text for a skipped recurring task.
pub open spec fn recurring_message(t: TWTaskView) -> Seq<char> {
    let recur = match t.recur {
        Some(r) => r,
        None => "unknown"@,
    };
    "recurring task "@ + uuid_text(t.uuid) + " skipped (recur: "@ + str_debug(recur) + ")"@
}

/// The descriptor a task's status maps to.
pub open spec fn status_spec(t: TWTaskView, r: TwToCalDavStatus) -> bool {
    if t.status == "pending"@ {
        r is NeedsAction
    } else if t.status == "waiting"@ {
        r == TwToCalDavStatus::NeedsActionWithWait(
            match t.wait {
                Some(w) => w,
                None => t.entry,
            },
        )
    } else if t.status == "recurring"@ {
        r matches TwToCalDavStatus::Skip(w) && w@ == WarningView {
            tw_uuid: Some(t.uuid),
            message: recurring_message(t),
        }
    } else if t.status == "completed"@ {
        r == TwToCalDavStatus::Completed(
            match t.end {
                Some(e) => e,
                None => t.entry,
            },
        )
    } else if t.status == "deleted"@ {
        r is TwStateDeleted
    } else {
        r is NeedsAction
    }
}

/// Maps a TaskWarrior task's status to a [`TwToCalDavStatus`]; an unknown status maps to
/// NEEDS-ACTION.
pub fn tw_to_caldav_status(task: &TWTask) -> (r: TwToCalDavStatus)
    ensures
        status_spec(task@, r),
{
    let st = task.status.as_str();
    if str_eq(st, "pending") {
        TwToCalDavStatus::NeedsAction
    } else if str_eq(st, "waiting") {
        let wait_dt = match task.wait {
            Some(w) => w,
            None => task.entry,
        };
        TwToCalDavStatus::NeedsActionWithWait(wait_dt)
    } else if str_eq(st, "recurring") {
        let recur = match &task.recur {
            Some(r) => r.as_str(),
            None => "unknown",
        };
        let mut msg = String::from_str("recurring task ");
        msg.append(uuid_to_string(task.uuid).as_str());
        msg.append(" skipped (recur: ");
        msg.append(debug_str(recur).as_str());
        msg.append(")");
        TwToCalDavStatus::Skip(Warning { tw_uuid: Some(task.uuid), message: msg })
    } else if str_eq(st, "completed") {
        let end_dt = match task.end {
            Some(e) => e,
            None => task.entry,
        };
        TwToCalDavStatus::Completed(end_dt)
    } else if str_eq(st, "deleted") {
        TwToCalDavStatus::TwStateDeleted
    } else {
        TwToCalDavStatus::NeedsAction
    }
}

} // verus!
