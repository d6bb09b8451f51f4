//! Objects by id, and peeling: following tags and commits until an object of
//! a wanted kind is reached.
//!
//! Looking an object up is the object database's work, outside this library.
//! Peeling is therefore a state machine: [`Peel`] names the id to look up
//! next, and [`Peel::advance`] takes what the lookup found and decides the
//! next step.
use vstd::prelude::*;
use crate::kind::Kind;
use git_hash::ObjectId;

verus! {

/// An object of the repository, known by its id.
pub struct Object {
    id: ObjectId,
}

impl Object {
    pub closed spec fn object_id(&self) -> ObjectId {
        self.id
    }

    /// The object with the given id.
    pub fn from_id(id: ObjectId) -> (r: Object)
        ensures
            r.object_id() == id,
    {
        Object { id }
    }

    /// The id of this object.
    pub fn id(&self) -> (r: &ObjectId)
        ensures
            *r == self.object_id(),
    {
        &self.id
    }

    /// Start peeling this object to an object of `kind`: the first lookup is
    /// for this object's own id.
    pub fn peel_to_kind(&self, kind: Kind) -> (r: Peel)
        ensures
            r.id == self.object_id(),
            r.target == kind,
    {
        Peel { id: self.id, target: kind }
    }
}

/// Why peeling failed.
pub enum Error<E> {
    /// The object database could not produce an object; the cause is kept.
    FindExisting(E),
    /// The chain ended in a tree or blob at `id` without meeting `kind`.
    NotFound { id: ObjectId, kind: Kind },
    /// The commit or tag at `id` (of kind `kind`) did not decode far enough to
    /// name the object it points at.
    Decode { id: ObjectId, kind: Kind },
}

/// What peeling asks for next.
pub enum Step<E> {
    /// Look up the object with this id and hand the result to `advance`.
    Find(ObjectId),
    /// Peeling is over: the id of the object of the wanted kind, or why there
    /// is none.
    Done(Result<ObjectId, Error<E>>),
}

/// The state of one peeling: the id that is being resolved and the kind that
/// is wanted.
pub struct Peel {
    pub id: ObjectId,
    pub target: Kind,
}

/// What the tree line of a commit's body names, where the body decodes that far.
pub uninterp spec fn commit_tree_of(data: Seq<u8>) -> Option<ObjectId>;

/// What the object line of a tag's body names, where the body decodes that far.
pub uninterp spec fn tag_target_of(data: Seq<u8>) -> Option<ObjectId>;

/// Relies on `git_object::CommitRefIter::tree_id`: it decodes the first header
/// of a commit's body, its tree id; decoding errors become `None`.
#[verifier::external_body]
fn commit_tree_id(data: &[u8]) -> (r: Option<ObjectId>)
    ensures
        r == commit_tree_of(data@),
{
    git_object::CommitRefIter::from_bytes(data).tree_id().ok()
}

/// Relies on `git_object::TagRefIter::target_id`: it decodes the first header
/// of a tag's body, the id of the tagged object; decoding errors become `None`.
#[verifier::external_body]
fn tag_target_id(data: &[u8]) -> (r: Option<ObjectId>)
    ensures
        r == tag_target_of(data@),
{
    git_object::TagRefIter::from_bytes(data).target_id().ok()
}

/// The object that an object of `kind` with body `data` points at, for the
/// kinds that point at one.
pub open spec fn next_hop(kind: Kind, data: Seq<u8>) -> Option<ObjectId> {
    match kind {
        Kind::Commit => commit_tree_of(data),
        Kind::Tag => tag_target_of(data),
        _ => None,
    }
}

/// One step of peeling at `id` towards `target`, given what the lookup of `id`
/// found and, for a commit or tag, the id it points at.
pub open spec fn peel_step<E>(
    id: ObjectId,
    target: Kind,
    found: Result<Kind, E>,
    next: Option<ObjectId>,
) -> Step<E> {
    match found {
        Err(e) => Step::Done(Err(Error::FindExisting(e))),
        Ok(kind) => if kind == target {
            Step::Done(Ok(id))
        } else if kind.is_indirection() {
            match next {
                Some(n) => Step::Find(n),
                None => Step::Done(Err(Error::Decode { id, kind })),
            }
        } else {
            Step::Done(Err(Error::NotFound { id, kind: target }))
        },
    }
}

/// Decide the step of peeling at `id` towards `target`, where the lookup of
/// `id` gave `found` and the body of a commit or tag was decoded to `next`.
pub fn decide_step<E>(
    id: ObjectId,
    target: Kind,
    found: Result<Kind, E>,
    next: Option<ObjectId>,
) -> (r: Step<E>)
    ensures
        r == peel_step(id, target, found, next),
{
    match found {
        Err(e) => Step::Done(Err(Error::FindExisting(e))),
        Ok(kind) => {
            if kind == target {
                Step::Done(Ok(id))
            } else {
                match kind {
                    Kind::Commit | Kind::Tag => match next {
                        Some(n) => Step::Find(n),
                        None => Step::Done(Err(Error::Decode { id, kind })),
                    },
                    Kind::Tree | Kind::Blob => Step::Done(Err(Error::NotFound { id, kind: target })),
                }
            }
        },
    }
}

impl Peel {
    /// Take the result of looking up `self.id`: `found` is the object's kind
    /// or the lookup's error, `data` the object's body.
    ///
    /// On `Step::Find(n)` the state moves on to `n`, which is to be looked up
    /// next; on `Step::Done` peeling is over and the state is left as it was.
    pub fn advance<E>(&mut self, found: Result<Kind, E>, data: &[u8]) -> (r: Step<E>)
        ensures
            r == peel_step(
                old(self).id,
                old(self).target,
                found,
                match found {
                    Ok(kind) => next_hop(kind, data@),
                    Err(_) => None,
                },
            ),
            final(self).target == old(self).target,
            final(self).id == (match r {
                Step::Find(n) => n,
                Step::Done(_) => old(self).id,
            }),
    {
        let next = match &found {
            Ok(kind) => {
                if *kind == self.target {
                    None
                } else {
                    match kind {
                        Kind::Commit => commit_tree_id(data),
                        Kind::Tag => tag_target_id(data),
                        Kind::Tree | Kind::Blob => None,
                    }
                }
            },
            Err(_) => None,
        };
        let r = decide_step(self.id, self.target, found, next);
        if let Step::Find(n) = &r {
            self.id = *n;
        }
        r
    }
}

} // verus!
