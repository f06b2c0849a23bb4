//! The patch operations that workers propose and the parent applies, as far
//! as the ownership rules read them: what kind of change, and on which path.
use vstd::prelude::*;

verus! {

/// Replace text in one file.
#[derive(Debug, Clone, PartialEq, Eq)]
pub struct ReplaceRequest {
    pub path: String,
    pub old_text: String,
    pub new_text: String,
    pub replace_all: bool,
}

impl ReplaceRequest {
    /// A replacement of one occurrence.
    pub fn once(path: &str, old_text: &str, new_text: &str) -> (r: Self)
        ensures
            r.path@ == path@,
            r.old_text@ == old_text@,
            r.new_text@ == new_text@,
            !r.replace_all,
    {
        ReplaceRequest {
            path: path.to_owned(),
            old_text: old_text.to_owned(),
            new_text: new_text.to_owned(),
            replace_all: false,
        }
    }
}

#[derive(Debug, Clone, Copy, PartialEq, Eq, Structural)]
pub enum PatchOperationKind {
    /// Reading the file a change needs.
    Read,
    Replace,
}

/// One proposed change.
#[derive(Debug, Clone, PartialEq, Eq)]
pub enum PatchOperation {
    Replace(ReplaceRequest),
}

impl PatchOperation {
    pub open spec fn path_view(&self) -> Seq<char> {
        match self {
            PatchOperation::Replace(r) => r.path@,
        }
    }

    /// The file the operation changes.
    pub fn path(&self) -> (p: &str)
        ensures
            p@ == self.path_view(),
    {
        match self {
            PatchOperation::Replace(r) => r.path.as_str(),
        }
    }

    pub fn kind(&self) -> (k: PatchOperationKind)
        ensures
            self is Replace ==> k == PatchOperationKind::Replace,
    {
        match self {
            PatchOperation::Replace(_) => PatchOperationKind::Replace,
        }
    }
}

/// What applying one operation did.
#[derive(Debug, Clone, PartialEq, Eq)]
pub struct PatchResult {
    pub path: String,
    pub operation: PatchOperationKind,
    pub changed: bool,
}

} // verus!
