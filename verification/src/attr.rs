//! Synthetic filesystem attributes. The store's objects carry no native
//! filesystem metadata, so every attribute record is computed on demand: a
//! directory object yields a directory node of size 0, a file object a
//! regular-file node sized by its content, and everything else is fixed
//! constants shared by all nodes.

use vstd::prelude::*;
use vstd::arithmetic::div_mod::lemma_fundamental_div_mod;
use vstd::arithmetic::div_mod::lemma_fundamental_div_mod_converse;
use crate::store::{EntryKind, ObjectInfo};
use crate::errors::FsError;

verus! {

/// The kind of a synthesized node: the mount exposes directories and
/// regular files, nothing else.
#[derive(Clone, Copy, PartialEq, Eq, Structural, Debug)]
pub enum NodeKind {
    Directory,
    RegularFile,
}

/// The one timestamp every node reports, as seconds; a fixed constant, not
/// wall-clock time.
pub const ATTR_TIME_SECS: i64 = 1381237736;

/// How long a caller may cache an attribute reply, in seconds: short and
/// fixed, since the mounted view never changes.
pub const ATTR_TTL_SECS: i64 = 1;

/// Permission bits shared by all nodes.
pub const ATTR_PERM: u16 = 0o755;

/// Link count shared by all nodes.
pub const ATTR_NLINK: u32 = 2;

/// Owner shared by all nodes.
pub const ATTR_UID: u32 = 99;

/// Group shared by all nodes.
pub const ATTR_GID: u32 = 99;

/// The block size that the block count is computed against.
pub const ATTR_BLOCK_SIZE: u64 = 4096;

/// A synthesized attribute record. All fields besides the inode, the kind,
/// the size and the block count are the fixed constants above.
#[derive(Clone, Copy, PartialEq, Eq, Structural, Debug)]
pub struct FileAttrData {
    pub ino: u64,
    pub size: u64,
    pub blocks: u64,
    pub time_secs: i64,
    pub kind: NodeKind,
    pub perm: u16,
    pub nlink: u32,
    pub uid: u32,
    pub gid: u32,
    pub rdev: u32,
    pub flags: u32,
}

/// The block count of a node of `size` bytes: the size divided by the
/// block size, rounded up.
pub open spec fn spec_blocks(size: int) -> int {
    (size + 4095) / 4096
}

/// The attribute record synthesized for inode `ino` holding an object of
/// the given kind and size.
pub open spec fn spec_attr(ino: u64, kind: NodeKind, size: u64) -> FileAttrData {
    FileAttrData {
        ino,
        size,
        blocks: spec_blocks(size as int) as u64,
        time_secs: ATTR_TIME_SECS,
        kind,
        perm: ATTR_PERM,
        nlink: ATTR_NLINK,
        uid: ATTR_UID,
        gid: ATTR_GID,
        rdev: 0,
        flags: 0,
    }
}

/// The kind and size a loaded object presents as a filesystem node:
/// directories have size 0, files the length of their content; an absent
/// object or one of an unsupported kind is an error.
pub open spec fn spec_classify(info: ObjectInfo) -> Result<(NodeKind, u64), FsError> {
    match info {
        ObjectInfo::Missing => Err(FsError::NotFound),
        ObjectInfo::Directory => Ok((NodeKind::Directory, 0u64)),
        ObjectInfo::File(content) => Ok((NodeKind::RegularFile, content@.len() as u64)),
        ObjectInfo::Unsupported => Err(FsError::UnsupportedObject),
    }
}

/// The node kind declared by a directory entry's kind, if it is supported.
pub open spec fn spec_entry_node_kind(kind: EntryKind) -> Option<NodeKind> {
    match kind {
        EntryKind::Directory => Some(NodeKind::Directory),
        EntryKind::File => Some(NodeKind::RegularFile),
        EntryKind::Unsupported => None,
    }
}

/// Determines kind and size of the node a loaded object presents, failing
/// on absent objects and on unsupported kinds.
pub fn classify_object(info: &ObjectInfo) -> (r: Result<(NodeKind, u64), FsError>)
    ensures
        r == spec_classify(*info),
{
    match info {
        ObjectInfo::Missing => Err(FsError::NotFound),
        ObjectInfo::Directory => Ok((NodeKind::Directory, 0u64)),
        ObjectInfo::File(content) => Ok((NodeKind::RegularFile, content.len() as u64)),
        ObjectInfo::Unsupported => Err(FsError::UnsupportedObject),
    }
}

/// Synthesizes the attribute record for inode `ino` holding an object of
/// the given kind and size: block count rounded up from the size, every
/// other field a fixed constant.
pub fn make_attr(ino: u64, kind: NodeKind, size: u64) -> (r: FileAttrData)
    ensures
        r == spec_attr(ino, kind, size),
{
    let q = size / 4096;
    let rem = size % 4096;
    proof {
        lemma_fundamental_div_mod(size as int, 4096);
        if rem == 0 {
            lemma_fundamental_div_mod_converse(
                size as int + 4095, 4096, q as int, 4095,
            );
        } else {
            lemma_fundamental_div_mod_converse(
                size as int + 4095, 4096, q as int + 1, rem as int - 1,
            );
        }
    }
    let blocks = if rem != 0 { q + 1 } else { q };
    FileAttrData {
        ino,
        size,
        blocks,
        time_secs: ATTR_TIME_SECS,
        kind,
        perm: ATTR_PERM,
        nlink: ATTR_NLINK,
        uid: ATTR_UID,
        gid: ATTR_GID,
        rdev: 0,
        flags: 0,
    }
}

} // verus!
