use vstd::prelude::*;

use crate::text::push_all;

verus! {

/// Why a script path could not be taken apart.
#[derive(Debug, PartialEq, Eq)]
pub enum ParseScriptError {
    /// The path does not start with the root; both are given in normal form.
    BadTargetFolder { root: String, path: String },
    /// Nothing is left of the path once the root is stripped.
    NoFileName { path: String },
}

impl ParseScriptError {
    pub open spec fn message_text(&self) -> Seq<char> {
        match self {
            ParseScriptError::BadTargetFolder { root, path } =>
                "Can't find the target folder prefix '\""@ + root@ + "\"' in: \""@ + path@
                    + "\""@,
            ParseScriptError::NoFileName { path } =>
                "Can't extract the filename from: \""@ + path@ + "\""@,
        }
    }

    /// A one-line description of the error.
    pub fn message(&self) -> (r: String)
        ensures
            r@ == self.message_text(),
    {
        let mut s = String::new();
        match self {
            ParseScriptError::BadTargetFolder { root, path } => {
                push_all(&mut s, "Can't find the target folder prefix '\"");
                push_all(&mut s, root.as_str());
                push_all(&mut s, "\"' in: \"");
                push_all(&mut s, path.as_str());
                push_all(&mut s, "\"");
            },
            ParseScriptError::NoFileName { path } => {
                push_all(&mut s, "Can't extract the filename from: \"");
                push_all(&mut s, path.as_str());
                push_all(&mut s, "\"");
            },
        }
        assert(s@ =~= match self {
            ParseScriptError::BadTargetFolder { root, path } =>
                "Can't find the target folder prefix '\""@ + root@ + "\"' in: \""@ + path@ + "\""@,
            ParseScriptError::NoFileName { path } =>
                "Can't extract the filename from: \""@ + path@ + "\""@,
        });
        s
    }
}

} // verus!

verus! {

/// Why the blobs of a ref could not be listed.
#[derive(Debug, Clone, Copy, PartialEq, Eq)]
pub enum EnumerateError {
    /// The repository cannot be opened.
    RepositoryUnavailable,
    /// The ref is missing, ambiguous, or does not lead to a commit.
    RefUnresolved,
    /// An object of the commit's tree cannot be read.
    ObjectUnreadable,
}

/// Why no rename plan could be made.
#[derive(Debug, PartialEq, Eq)]
pub enum RenameError {
    /// The blobs of the target ref could not be listed.
    TargetUnavailable { branch: String, cause: EnumerateError },
    /// The blobs of the source ref could not be listed.
    SourceUnavailable { branch: String, cause: EnumerateError },
    /// The newest target script does not lie under the migrations root.
    Path(ParseScriptError),
    /// The newest target script's name does not start with a canonical code.
    MalformedCode { file: String },
}

impl RenameError {
    /// A one-line description of the error.
    pub fn message(&self) -> (r: String)
        ensures
            r@ == match self {
                RenameError::TargetUnavailable { branch, .. } =>
                    "Can't open target branch: "@ + branch@,
                RenameError::SourceUnavailable { branch, .. } =>
                    "Can't open source branch: "@ + branch@,
                RenameError::Path(e) => e.message_text(),
                RenameError::MalformedCode { file } =>
                    "Can't extract the date and index from: \""@ + file@ + "\""@,
            },
    {
        match self {
            RenameError::TargetUnavailable { branch, .. } => {
                let mut s = String::new();
                push_all(&mut s, "Can't open target branch: ");
                push_all(&mut s, branch.as_str());
                assert(s@ =~= "Can't open target branch: "@ + branch@);
                s
            },
            RenameError::SourceUnavailable { branch, .. } => {
                let mut s = String::new();
                push_all(&mut s, "Can't open source branch: ");
                push_all(&mut s, branch.as_str());
                assert(s@ =~= "Can't open source branch: "@ + branch@);
                s
            },
            RenameError::Path(e) => e.message(),
            RenameError::MalformedCode { file } => {
                let mut s = String::new();
                push_all(&mut s, "Can't extract the date and index from: \"");
                push_all(&mut s, file.as_str());
                push_all(&mut s, "\"");
                assert(s@ =~= "Can't extract the date and index from: \""@ + file@ + "\""@);
                s
            },
        }
    }
}

} // verus!
