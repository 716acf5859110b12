use vstd::prelude::*;

use crate::text::{push_decimal, push_str, spec_decimal};

verus! {

/// Errors raised by the library.
#[derive(Debug)]
pub enum GitkaError {
    Config(String),
    RepoNotFound(String),
    AlreadyExtracted(String),
    NotExtracted(String),
    NotWorkspaceEligible(String),
    Compression(String),
    Extraction(String),
    UsbDetection(String),
    BudgetExceeded { needed: u64, available: u64 },
    SyncConflict(String),
    VerificationFailed(String, String),
}

/// The text an error is shown with.
pub open spec fn spec_error_message(e: GitkaError) -> Seq<char> {
    match e {
        GitkaError::Config(m) => "Config error: "@ + m@,
        GitkaError::RepoNotFound(m) => "Repo not found: "@ + m@,
        GitkaError::AlreadyExtracted(m) => "Repo already extracted: "@ + m@,
        GitkaError::NotExtracted(m) => "Repo not extracted: "@ + m@,
        GitkaError::NotWorkspaceEligible(m) => "Not workspace-eligible: "@ + m@,
        GitkaError::Compression(m) => "Compression error: "@ + m@,
        GitkaError::Extraction(m) => "Extraction error: "@ + m@,
        GitkaError::UsbDetection(m) => "USB detection error: "@ + m@,
        GitkaError::BudgetExceeded { needed, available } => "Budget exceeded: "@
            + spec_decimal(needed as nat) + " needed, "@ + spec_decimal(available as nat)
            + " available"@,
        GitkaError::SyncConflict(m) => "Sync conflict in repo "@ + m@
            + ": manual resolution required"@,
        GitkaError::VerificationFailed(r, m) => "Verification failed for repo "@ + r@ + ": "@ + m@,
    }
}

impl GitkaError {
    /// The text the error is shown with.
    pub fn message(&self) -> (r: String)
        ensures
            r@ == spec_error_message(*self),
    {
        let mut s = String::new();
        match self {
            GitkaError::Config(m) => { push_str(&mut s, "Config error: "); push_str(&mut s, m.as_str()); },
            GitkaError::RepoNotFound(m) => { push_str(&mut s, "Repo not found: "); push_str(&mut s, m.as_str()); },
            GitkaError::AlreadyExtracted(m) => { push_str(&mut s, "Repo already extracted: "); push_str(&mut s, m.as_str()); },
            GitkaError::NotExtracted(m) => { push_str(&mut s, "Repo not extracted: "); push_str(&mut s, m.as_str()); },
            GitkaError::NotWorkspaceEligible(m) => { push_str(&mut s, "Not workspace-eligible: "); push_str(&mut s, m.as_str()); },
            GitkaError::Compression(m) => { push_str(&mut s, "Compression error: "); push_str(&mut s, m.as_str()); },
            GitkaError::Extraction(m) => { push_str(&mut s, "Extraction error: "); push_str(&mut s, m.as_str()); },
            GitkaError::UsbDetection(m) => { push_str(&mut s, "USB detection error: "); push_str(&mut s, m.as_str()); },
            GitkaError::BudgetExceeded { needed, available } => {
                push_str(&mut s, "Budget exceeded: ");
                push_decimal(&mut s, *needed);
                push_str(&mut s, " needed, ");
                push_decimal(&mut s, *available);
                push_str(&mut s, " available");
            },
            GitkaError::SyncConflict(m) => {
                push_str(&mut s, "Sync conflict in repo ");
                push_str(&mut s, m.as_str());
                push_str(&mut s, ": manual resolution required");
            },
            GitkaError::VerificationFailed(r, m) => {
                push_str(&mut s, "Verification failed for repo ");
                push_str(&mut s, r.as_str());
                push_str(&mut s, ": ");
                push_str(&mut s, m.as_str());
            },
        }
        proof { assert(s@ =~= spec_error_message(*self)); }
        s
    }
}

} // verus!
