//! The vocabulary shared by the cache and by peeling: object ids and kinds.
use vstd::prelude::*;
use git_hash::ObjectId;

verus! {

#[verifier::external_type_specification]
#[verifier::external_body]
pub struct ExObjectId(git_hash::ObjectId);

/// The number of bytes of an object id (a SHA-1 digest).
pub const ID_LEN: usize = 20;

/// Relies on `git_hash::ObjectId::as_slice`: every id of this hash version is
/// a SHA-1 digest, held as twenty bytes.
#[verifier::external_body]
pub(crate) fn id_len(id: &ObjectId) -> (r: usize)
    ensures
        r == ID_LEN,
{
    id.as_slice().len()
}

/// The kind of a git object.
///
/// `Commit` and `Tag` point at another object; `Tree` and `Blob` end a chain
/// of such references.
#[derive(Clone, Copy, Debug, PartialEq, Eq, Structural, Hash)]
pub enum Kind {
    Tree,
    Blob,
    Commit,
    Tag,
}

impl Kind {
    /// Whether objects of this kind refer to another object that peeling follows.
    pub open spec fn is_indirection(self) -> bool {
        self is Commit || self is Tag
    }
}

} // verus!
