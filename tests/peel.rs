use std::collections::HashMap;

use git_hash::ObjectId;
use git_object_cache::kind::Kind;
use git_object_cache::object::{Error, Object, Step};

fn oid(b: u8) -> ObjectId {
    ObjectId::from([b; 20])
}

fn commit_body(tree: ObjectId) -> Vec<u8> {
    format!(
        "tree {}\nauthor A <a@example.com> 0 +0000\ncommitter A <a@example.com> 0 +0000\n\nmessage\n",
        tree
    )
    .into_bytes()
}

fn tag_body(target: ObjectId) -> Vec<u8> {
    format!(
        "object {}\ntype commit\ntag v1\ntagger A <a@example.com> 0 +0000\n\nmessage\n",
        target
    )
    .into_bytes()
}

struct Graph {
    objects: HashMap<ObjectId, (Kind, Vec<u8>)>,
    lookups: usize,
}

impl Graph {
    fn new(objects: Vec<(ObjectId, Kind, Vec<u8>)>) -> Self {
        Graph {
            objects: objects.into_iter().map(|(id, k, d)| (id, (k, d))).collect(),
            lookups: 0,
        }
    }

    fn peel(&mut self, start: ObjectId, kind: Kind) -> Result<ObjectId, Error<String>> {
        let mut peel = Object::from_id(start).peel_to_kind(kind);
        loop {
            self.lookups += 1;
            let step = match self.objects.get(&peel.id) {
                Some((k, data)) => peel.advance(Ok(*k), data),
                None => peel.advance(Err(format!("missing {}", peel.id)), &[]),
            };
            match step {
                Step::Find(next) => assert_eq!(next, peel.id),
                Step::Done(result) => return result,
            }
        }
    }
}

#[test]
fn object_keeps_its_id() {
    let o = Object::from_id(oid(5));
    assert_eq!(*o.id(), oid(5));
}

#[test]
fn peel_to_own_kind_is_identity_after_one_lookup() {
    let mut g = Graph::new(vec![(oid(1), Kind::Blob, b"content".to_vec())]);
    assert_eq!(g.peel(oid(1), Kind::Blob).ok(), Some(oid(1)));
    assert_eq!(g.lookups, 1);
}

#[test]
fn peel_follows_tag_then_commit_to_tree() {
    let (a, b, c) = (oid(0xaa), oid(0xbb), oid(0xcc));
    let mut g = Graph::new(vec![
        (a, Kind::Tag, tag_body(b)),
        (b, Kind::Commit, commit_body(c)),
        (c, Kind::Tree, Vec::new()),
    ]);
    assert_eq!(g.peel(a, Kind::Tree).ok(), Some(c));
    assert_eq!(g.lookups, 3);
}

#[test]
fn peel_stops_at_commit_when_commit_is_wanted() {
    let (a, b, c) = (oid(0xaa), oid(0xbb), oid(0xcc));
    let mut g = Graph::new(vec![
        (a, Kind::Tag, tag_body(b)),
        (b, Kind::Commit, commit_body(c)),
        (c, Kind::Tree, Vec::new()),
    ]);
    assert_eq!(g.peel(a, Kind::Commit).ok(), Some(b));
    assert_eq!(g.lookups, 2);
}

#[test]
fn peel_of_blob_to_commit_is_not_found() {
    let blob = oid(3);
    let mut g = Graph::new(vec![(blob, Kind::Blob, b"x".to_vec())]);
    match g.peel(blob, Kind::Commit) {
        Err(Error::NotFound { id, kind }) => {
            assert_eq!(id, blob);
            assert_eq!(kind, Kind::Commit);
        }
        _ => panic!("expected NotFound"),
    }
    assert_eq!(g.lookups, 1);
}

#[test]
fn peel_ending_in_tree_reports_the_tree() {
    let (b, c) = (oid(0xbb), oid(0xcc));
    let mut g = Graph::new(vec![(b, Kind::Commit, commit_body(c)), (c, Kind::Tree, Vec::new())]);
    match g.peel(b, Kind::Blob) {
        Err(Error::NotFound { id, kind }) => {
            assert_eq!(id, c);
            assert_eq!(kind, Kind::Blob);
        }
        _ => panic!("expected NotFound"),
    }
    assert_eq!(g.lookups, 2);
}

#[test]
fn failed_first_lookup_is_propagated() {
    let mut g = Graph::new(Vec::new());
    match g.peel(oid(7), Kind::Tree) {
        Err(Error::FindExisting(msg)) => assert_eq!(msg, format!("missing {}", oid(7))),
        _ => panic!("expected FindExisting"),
    }
    assert_eq!(g.lookups, 1);
}

#[test]
fn failed_later_lookup_is_propagated() {
    let (a, b) = (oid(0xaa), oid(0xbb));
    let mut g = Graph::new(vec![(a, Kind::Tag, tag_body(b))]);
    assert!(matches!(g.peel(a, Kind::Tree), Err(Error::FindExisting(_))));
    assert_eq!(g.lookups, 2);
}

#[test]
fn undecodable_commit_is_a_decode_error() {
    let a = oid(0xaa);
    let mut g = Graph::new(vec![(a, Kind::Commit, b"not a commit".to_vec())]);
    match g.peel(a, Kind::Tree) {
        Err(Error::Decode { id, kind }) => {
            assert_eq!(id, a);
            assert_eq!(kind, Kind::Commit);
        }
        _ => panic!("expected Decode"),
    }
}

#[test]
fn decide_step_follows_a_tag() {
    let s: Step<()> = git_object_cache::object::decide_step(oid(1), Kind::Tree, Ok(Kind::Tag), Some(oid(2)));
    assert!(matches!(s, Step::Find(n) if n == oid(2)));
}

#[test]
fn peel_through_tags_to_blob_is_not_found() {
    let (t1, t2, blob) = (oid(0x11), oid(0x22), oid(0x33));
    let mut g = Graph::new(vec![
        (t1, Kind::Tag, tag_body(t2)),
        (t2, Kind::Tag, tag_body(blob)),
        (blob, Kind::Blob, b"x".to_vec()),
    ]);
    match g.peel(t1, Kind::Commit) {
        Err(Error::NotFound { id, kind }) => {
            assert_eq!(id, blob);
            assert_eq!(kind, Kind::Commit);
        }
        _ => panic!("expected NotFound"),
    }
    assert_eq!(g.lookups, 3);
}
