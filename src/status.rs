//! The processing status of an ingested file.
use vstd::prelude::*;
use crate::text::{push_text, same_text, text_of};

verus! {

/// Where an ingested file stands in its processing lifecycle.
#[derive(Clone, Copy, Debug, PartialEq, Eq, Structural)]
pub enum FileStatus {
    Unprocessed,
    Processing,
    Processed,
    Failed,
}

/// The stored name of each status.
pub open spec fn status_name(s: FileStatus) -> Seq<char> {
    match s {
        FileStatus::Unprocessed => "Unprocessed"@,
        FileStatus::Processing => "Processing"@,
        FileStatus::Processed => "Processed"@,
        FileStatus::Failed => "Failed"@,
    }
}

/// The status whose stored name is `t`, if there is one.
pub open spec fn status_named(t: Seq<char>) -> Option<FileStatus> {
    if t == "Unprocessed"@ {
        Some(FileStatus::Unprocessed)
    } else if t == "Processing"@ {
        Some(FileStatus::Processing)
    } else if t == "Processed"@ {
        Some(FileStatus::Processed)
    } else if t == "Failed"@ {
        Some(FileStatus::Failed)
    } else {
        None
    }
}

/// Distinct statuses have distinct stored names, so reading back a written
/// name gives the status that was written.
pub proof fn lemma_status_name_round_trip(s: FileStatus)
    ensures
        status_named(status_name(s)) == Some(s),
{
    reveal_strlit("Unprocessed");
    reveal_strlit("Processing");
    reveal_strlit("Processed");
    reveal_strlit("Failed");
    assert("Unprocessed"@.len() == 11);
    assert("Processing"@.len() == 10);
    assert("Processed"@.len() == 9);
    assert("Failed"@.len() == 6);
}

impl FileStatus {
    /// The name under which the status is stored.
    pub fn as_str(&self) -> (r: &'static str)
        ensures
            r@ == status_name(*self),
    {
        match self {
            FileStatus::Unprocessed => "Unprocessed",
            FileStatus::Processing => "Processing",
            FileStatus::Processed => "Processed",
            FileStatus::Failed => "Failed",
        }
    }

    /// Reads a stored status name; anything else is refused with a message
    /// that quotes the input.
    pub fn parse(s: &str) -> (r: Result<FileStatus, String>)
        ensures
            match status_named(s@) {
                Some(st) => r == Ok::<FileStatus, String>(st),
                None => r.is_err() && r->Err_0@ == "Invalid file status: "@ + s@,
            },
    {
        if same_text(s, "Unprocessed") {
            Ok(FileStatus::Unprocessed)
        } else if same_text(s, "Processing") {
            Ok(FileStatus::Processing)
        } else if same_text(s, "Processed") {
            Ok(FileStatus::Processed)
        } else if same_text(s, "Failed") {
            Ok(FileStatus::Failed)
        } else {
            let mut msg = text_of("Invalid file status: ");
            push_text(&mut msg, s);
            Err(msg)
        }
    }
}

impl std::str::FromStr for FileStatus {
    type Err = String;

    fn from_str(s: &str) -> Result<FileStatus, String> {
        FileStatus::parse(s)
    }
}

} // verus!
