//! The object store: a content-addressed repository of immutable directory
//! and file objects, consumed through two loading primitives.
//!
//! The store itself is an outside collaborator (a git repository). What it
//! returns depends on the repository on disk, so the two loaders promise
//! nothing of their results; the engine states what holds of whatever came
//! back, and its verified helpers take the loaded values as arguments.

use vstd::prelude::*;
use crate::oid::ObjectId;

verus! {

/// The declared kind of a directory entry or a loaded object. Kinds other
/// than directory and file exist in the store (a commit pointed at by a
/// submodule entry, a tag); the engine supports none of them.
#[derive(Clone, Copy, PartialEq, Eq, Structural, Debug)]
pub enum EntryKind {
    Directory,
    File,
    Unsupported,
}

/// One entry of a directory object, as plain values: the child's
/// identifier, its declared kind, and its name (raw bytes, in the store's
/// native encoding).
pub struct RawEntry {
    pub id: ObjectId,
    pub kind: EntryKind,
    pub name: Vec<u8>,
}

/// An object as the store hands it out: absent, a directory, a file with
/// its raw content, or an object of an unsupported kind.
pub enum ObjectInfo {
    Missing,
    Directory,
    File(Vec<u8>),
    Unsupported,
}

/// Declares git2::Repository so that the engine can hold the store handle
/// and pass it to the loaders. The type is opaque: nothing is assumed of
/// what a repository value contains.
#[verifier::external_type_specification]
#[verifier::external_body]
pub struct ExRepository(git2::Repository);

/// Relies on git2::Repository::find_object to load the object named by
/// `id`, on git2::Object::kind and git2::Object::as_blob to classify it,
/// and on git2::Blob::content for a file object's bytes. The result depends
/// on the repository on disk, so nothing is promised of it.
#[verifier::external_body]
pub(crate) fn load_object(repo: &git2::Repository, id: &ObjectId) -> ObjectInfo {
    let oid = match git2::Oid::from_bytes(&id.bytes) { Ok(o) => o, Err(_) => return ObjectInfo::Missing };
    let obj = match repo.find_object(oid, None) { Ok(o) => o, Err(_) => return ObjectInfo::Missing };
    match obj.kind() {
        Some(git2::ObjectType::Tree) => ObjectInfo::Directory,
        Some(git2::ObjectType::Blob) => match obj.as_blob() {
            Some(b) => ObjectInfo::File(b.content().to_vec()),
            None => ObjectInfo::Unsupported,
        },
        _ => ObjectInfo::Unsupported,
    }
}

/// Relies on git2::Repository::find_tree to load the directory object named
/// by `id`, and on git2::TreeEntry::id, git2::TreeEntry::kind and
/// git2::TreeEntry::name_bytes to hand every entry out as plain values, in
/// the store's native enumeration order. name_bytes unwraps a non-null
/// name, which the tree object format guarantees. The result depends on
/// the repository on disk, so nothing is promised of it.
#[verifier::external_body]
pub(crate) fn load_directory(repo: &git2::Repository, id: &ObjectId) -> Option<Vec<RawEntry>> {
    let oid = match git2::Oid::from_bytes(&id.bytes) { Ok(o) => o, Err(_) => return None };
    let tree = match repo.find_tree(oid) { Ok(t) => t, Err(_) => return None };
    let mut entries = Vec::new();
    for e in tree.iter() {
        let kind = match e.kind() {
            Some(git2::ObjectType::Tree) => EntryKind::Directory,
            Some(git2::ObjectType::Blob) => EntryKind::File,
            _ => EntryKind::Unsupported,
        };
        entries.push(RawEntry { id: ObjectId { bytes: e.id().as_bytes().to_vec() }, kind, name: e.name_bytes().to_vec() });
    }
    Some(entries)
}

} // verus!
