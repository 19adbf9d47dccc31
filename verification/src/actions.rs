//! Filesystem actions. The library performs no I/O: each operation returns
//! the exact list of actions the surrounding shell must carry out, in order.

use vstd::prelude::*;

verus! {

/// The abstract form of one filesystem action.
#[verifier::ext_equal]
pub enum ActionSpec {
    CreateTruncated { path: Seq<char> },
    AppendBytes { path: Seq<char>, bytes: Seq<u8> },
    WriteFile { path: Seq<char>, content: Seq<char> },
    DeleteIfExists { path: Seq<char> },
}

/// One filesystem action for the shell to carry out.
pub enum FsAction {
    /// Remove any file at `path`, create its parent directories, create the
    /// file empty, and keep the handle open: later `AppendBytes` for `path`
    /// write through that handle.
    CreateTruncated { path: String },
    /// Write `bytes` at the end of the file whose handle the last
    /// `CreateTruncated` for `path` opened.
    AppendBytes { path: String, bytes: Vec<u8> },
    /// Create parent directories and overwrite the file at `path` so that it
    /// holds exactly `content`.
    WriteFile { path: String, content: String },
    /// Delete the file at `path` if it exists.
    DeleteIfExists { path: String },
}

impl View for FsAction {
    type V = ActionSpec;

    open spec fn view(&self) -> ActionSpec {
        match self {
            FsAction::CreateTruncated { path } => ActionSpec::CreateTruncated { path: path@ },
            FsAction::AppendBytes { path, bytes } => ActionSpec::AppendBytes {
                path: path@,
                bytes: bytes@,
            },
            FsAction::WriteFile { path, content } => ActionSpec::WriteFile {
                path: path@,
                content: content@,
            },
            FsAction::DeleteIfExists { path } => ActionSpec::DeleteIfExists { path: path@ },
        }
    }
}

/// The abstract form of a list of actions.
pub open spec fn acts_view(v: Seq<FsAction>) -> Seq<ActionSpec> {
    v.map_values(|a: FsAction| a@)
}

} // verus!
