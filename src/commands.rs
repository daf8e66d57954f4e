//! The commands of the command-line surface, and those of them that this
//! library does not provide.
use crate::error::GitError;
use vstd::prelude::*;

verus! {

/// A command with its arguments.
pub enum Commands {
    Init { repo_path: String },
    Add { files: Vec<String> },
    Commit {},
    Status {},
    Log {},
    Rm {},
    Checkout {},
    CheckIgnore {},
    CatFile { obj_sha: String, pretty_print: bool, obj_type: bool, obj_size: bool },
    HashObject { file_path: String, write: bool },
    LsTree { tree_sha: String },
    WriteTree,
    RevParse {},
    ShowRef { hash: bool },
    Tag {},
}

/// Staging files is not provided.
pub fn add(args: Commands) -> (r: Result<(), GitError>)
    ensures
        r == Err::<(), GitError>(GitError::Unsupported),
{
    Err(GitError::Unsupported)
}

/// Authoring commits is not provided.
pub fn commit(args: Commands) -> (r: Result<(), GitError>)
    ensures
        r == Err::<(), GitError>(GitError::Unsupported),
{
    Err(GitError::Unsupported)
}

/// Comparing the working tree with the store is not provided.
pub fn status(args: Commands) -> (r: Result<(), GitError>)
    ensures
        r == Err::<(), GitError>(GitError::Unsupported),
{
    Err(GitError::Unsupported)
}

/// Removing files is not provided.
pub fn rm(args: Commands) -> (r: Result<(), GitError>)
    ensures
        r == Err::<(), GitError>(GitError::Unsupported),
{
    Err(GitError::Unsupported)
}

/// Checking out a commit is not provided.
pub fn checkout(args: Commands) -> (r: Result<(), GitError>)
    ensures
        r == Err::<(), GitError>(GitError::Unsupported),
{
    Err(GitError::Unsupported)
}

/// Matching ignore patterns is not provided.
pub fn check_ignore(args: Commands) -> (r: Result<(), GitError>)
    ensures
        r == Err::<(), GitError>(GitError::Unsupported),
{
    Err(GitError::Unsupported)
}

/// Writing a tree from the working directory is not provided.
pub fn write_tree(args: Commands) -> (r: Result<(), GitError>)
    ensures
        r == Err::<(), GitError>(GitError::Unsupported),
{
    Err(GitError::Unsupported)
}

/// Parsing revision expressions is not provided.
pub fn rev_parse(args: Commands) -> (r: Result<(), GitError>)
    ensures
        r == Err::<(), GitError>(GitError::Unsupported),
{
    Err(GitError::Unsupported)
}

/// Creating tags is not provided.
pub fn tag(args: Commands) -> (r: Result<(), GitError>)
    ensures
        r == Err::<(), GitError>(GitError::Unsupported),
{
    Err(GitError::Unsupported)
}

} // verus!
