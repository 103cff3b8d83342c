//! The tree engine: answers the four read-only filesystem operations —
//! lookup, getattr, read, readdir — by translating inode numbers to object
//! identifiers through the identity table, loading objects from the store,
//! and synthesizing attribute records.

use vstd::prelude::*;
use crate::attr::{
    classify_object, make_attr, spec_attr, spec_classify, spec_entry_node_kind, FileAttrData,
    NodeKind,
};
use crate::bimap::{
    distinct_ids, lemma_find_at, lemma_find_characterization, lemma_find_stable, spec_find,
    spec_intern, spec_resolve, Bimap,
};
use crate::errors::FsError;
use crate::oid::ObjectId;
use crate::store::{load_directory, load_object, EntryKind, ObjectInfo, RawEntry};

verus! {

/// One emitted directory-listing entry: the child's inode, its position in
/// the listing (also the cursor at which the listing would resume after
/// it), its kind, and its name.
#[derive(PartialEq, Eq, Debug)]
pub struct DirEntryData {
    pub ino: u64,
    pub position: u64,
    pub kind: NodeKind,
    pub name: Vec<u8>,
}

/// An independent copy of a byte string.
fn copy_bytes(v: &Vec<u8>) -> (r: Vec<u8>)
    ensures
        r@ == v@,
{
    let mut r: Vec<u8> = Vec::new();
    let n = v.len();
    let mut i: usize = 0;
    while i < n
        invariant
            n == v.len(),
            i <= n,
            r@ == v@.take(i as int),
        decreases n - i,
    {
        r.push(v[i]);
        assert(r@ =~= v@.take(i as int + 1));
        i = i + 1;
    }
    assert(r@ =~= v@);
    r
}

/// Byte-for-byte equality of two byte strings.
fn bytes_equal(a: &Vec<u8>, b: &[u8]) -> (r: bool)
    ensures
        r <==> a@ == b@,
{
    if a.len() != b.len() {
        assert(a@ != b@);
        return false;
    }
    let n = a.len();
    let mut i: usize = 0;
    while i < n
        invariant
            n == a.len(),
            n == b.len(),
            i <= n,
            forall|j: int| 0 <= j < i ==> a@[j] == b@[j],
        decreases n - i,
    {
        if a[i] != b[i] {
            assert(a@[i as int] != b@[i as int]);
            return false;
        }
        i = i + 1;
    }
    assert(a@ =~= b@);
    true
}

/// Scans directory entries in their native order for an exact,
/// case-sensitive name match, yielding the index of the first match.
pub fn find_entry(entries: &Vec<RawEntry>, name: &[u8]) -> (r: Option<usize>)
    ensures
        match r {
            Some(i) => i < entries@.len() && entries@[i as int].name@ == name@
                && forall|j: int| 0 <= j < i ==> entries@[j].name@ != name@,
            None => forall|j: int| 0 <= j < entries@.len() ==> entries@[j].name@ != name@,
        },
{
    let n = entries.len();
    let mut i: usize = 0;
    while i < n
        invariant
            n == entries@.len(),
            i <= n,
            forall|j: int| 0 <= j < i ==> entries@[j].name@ != name@,
        decreases n - i,
    {
        if bytes_equal(&entries[i].name, name) {
            return Some(i);
        }
        i = i + 1;
    }
    None
}

/// Every entry's declared kind is one the engine supports.
pub open spec fn entries_supported(es: Seq<RawEntry>) -> bool {
    forall|i: int| 0 <= i < es.len() ==> es[i].kind != EntryKind::Unsupported
}

/// The identity table after interning every entry's identifier, in order.
pub open spec fn table_after(s: Seq<Seq<u8>>, es: Seq<RawEntry>) -> Seq<Seq<u8>>
    decreases es.len(),
{
    if es.len() == 0 {
        s
    } else {
        spec_intern(table_after(s, es.drop_last()), es.last().id@).0
    }
}

/// The inode each entry receives when the entries are interned in order
/// into a table that starts as `s`.
pub open spec fn inodes_after(s: Seq<Seq<u8>>, es: Seq<RawEntry>) -> Seq<int>
    decreases es.len(),
{
    if es.len() == 0 {
        Seq::empty()
    } else {
        inodes_after(s, es.drop_last()).push(
            spec_intern(table_after(s, es.drop_last()), es.last().id@).1,
        )
    }
}

/// The listing entry at child position `i` carries the child's interned
/// inode, its position offset by the two leading self-references, its
/// declared kind, and its name.
pub open spec fn child_entry_ok(
    l: Seq<DirEntryData>,
    s: Seq<Seq<u8>>,
    es: Seq<RawEntry>,
    i: int,
) -> bool {
    &&& l[i + 2].ino as int == inodes_after(s, es)[i]
    &&& l[i + 2].position == i + 2
    &&& Some(l[i + 2].kind) == spec_entry_node_kind(es[i].kind)
    &&& l[i + 2].name@ == es[i].name@
}

/// A full initial listing: a self-reference entry and a parent-reference
/// entry, both bound to the mount root (inode 1), then every child of the
/// directory in the store's native order.
pub open spec fn listing_matches(l: Seq<DirEntryData>, s: Seq<Seq<u8>>, es: Seq<RawEntry>) -> bool {
    &&& l.len() == es.len() + 2
    &&& l[0].ino == 1 && l[0].position == 0 && l[0].kind == NodeKind::Directory
        && l[0].name@ == seq![46u8]
    &&& l[1].ino == 1 && l[1].position == 1 && l[1].kind == NodeKind::Directory
        && l[1].name@ == seq![46u8, 46u8]
    &&& forall|i: int| 0 <= i < es.len() ==> #[trigger] child_entry_ok(l, s, es, i)
}

/// Determines a directory entry's inode (interning its identifier), its
/// node kind, and its name; an entry of an unsupported kind fails the
/// request and interns nothing.
pub fn get_tree_entry_info(nodes: &mut Bimap, entry: &RawEntry) -> (r: Result<
    (u64, NodeKind, Vec<u8>),
    FsError,
>)
    requires
        old(nodes).wf(),
    ensures
        final(nodes).wf(),
        old(nodes)@.is_prefix_of(final(nodes)@),
        entry.kind == EntryKind::Unsupported ==> r == Err::<(u64, NodeKind, Vec<u8>), FsError>(
            FsError::UnsupportedObject,
        ) && final(nodes)@ == old(nodes)@,
        r is Err ==> r == Err::<(u64, NodeKind, Vec<u8>), FsError>(FsError::UnsupportedObject),
        entry.kind != EntryKind::Unsupported ==> (r matches Ok(info) && {
            &&& final(nodes)@ == spec_intern(old(nodes)@, entry.id@).0
            &&& info.0 as int == spec_intern(old(nodes)@, entry.id@).1
            &&& 1 <= info.0 <= final(nodes)@.len()
            &&& final(nodes)@[info.0 as int - 1] == entry.id@
            &&& Some(info.1) == spec_entry_node_kind(entry.kind)
            &&& info.2@ == entry.name@
        }),

{
    let kind = match entry.kind {
        EntryKind::Directory => NodeKind::Directory,
        EntryKind::File => NodeKind::RegularFile,
        EntryKind::Unsupported => {
            assert(old(nodes)@.is_prefix_of(nodes@));
            return Err(FsError::UnsupportedObject);
        },
    };
    let ino = nodes.get_reverse_or_alloc(&entry.id);
    Ok((ino, kind, copy_bytes(&entry.name)))
}

/// Builds the initial directory listing: the two root-bound
/// self-reference entries, then each child with its interned inode, in the
/// store's native order. Fails, interning no further entry, as soon as a
/// child of an unsupported kind is met.
pub fn build_listing(nodes: &mut Bimap, entries: &Vec<RawEntry>) -> (r: Result<
    Vec<DirEntryData>,
    FsError,
>)
    requires
        old(nodes).wf(),
        entries@.len() + 2 <= u64::MAX,
    ensures
        final(nodes).wf(),
        old(nodes)@.is_prefix_of(final(nodes)@),
        r is Ok <==> entries_supported(entries@),
        r matches Ok(l) ==> final(nodes)@ == table_after(old(nodes)@, entries@)
            && listing_matches(l@, old(nodes)@, entries@),
        r is Err ==> r == Err::<Vec<DirEntryData>, FsError>(FsError::UnsupportedObject),
{
    let mut out: Vec<DirEntryData> = Vec::new();
    let mut dot: Vec<u8> = Vec::new();
    dot.push(46);
    let mut dotdot: Vec<u8> = Vec::new();
    dotdot.push(46);
    dotdot.push(46);
    assert(dot@ =~= seq![46u8]);
    assert(dotdot@ =~= seq![46u8, 46u8]);
    out.push(DirEntryData { ino: 1, position: 0, kind: NodeKind::Directory, name: dot });
    out.push(DirEntryData { ino: 1, position: 1, kind: NodeKind::Directory, name: dotdot });

    let n = entries.len();
    let mut i: usize = 0;
    while i < n
        invariant
            nodes.wf(),
            n == entries@.len(),
            n + 2 <= u64::MAX,
            i <= n,
            nodes@ == table_after(old(nodes)@, entries@.take(i as int)),
            old(nodes)@.is_prefix_of(nodes@),
            inodes_after(old(nodes)@, entries@.take(i as int)).len() == i,
            out@.len() == i + 2,
            out@[0].ino == 1 && out@[0].position == 0 && out@[0].kind == NodeKind::Directory
                && out@[0].name@ == seq![46u8],
            out@[1].ino == 1 && out@[1].position == 1 && out@[1].kind == NodeKind::Directory
                && out@[1].name@ == seq![46u8, 46u8],
            forall|j: int| 0 <= j < i ==> entries@[j].kind != EntryKind::Unsupported,
            forall|j: int| 0 <= j < i ==> #[trigger] child_entry_ok(
                out@,
                old(nodes)@,
                entries@.take(i as int),
                j,
            ),
        decreases n - i,
    {
        let ghost prev_table = nodes@;
        let ghost prev_out = out@;
        let ghost taken = entries@.take(i as int);
        let info = match get_tree_entry_info(nodes, &entries[i]) {
            Ok(t) => t,
            Err(e) => {
                proof {
                    assert(entries@[i as int].kind == EntryKind::Unsupported);
                    assert(!entries_supported(entries@));
                }
                return Err(e);
            },
        };
        let position = i as u64 + 2;
        out.push(DirEntryData { ino: info.0, position, kind: info.1, name: info.2 });
        proof {
            crate::bimap::lemma_prefix_transitive(old(nodes)@, prev_table, nodes@);
            let taken1 = entries@.take(i as int + 1);
            assert(taken1.drop_last() =~= taken);
            assert(taken1.last() == entries@[i as int]);
            assert(nodes@ == table_after(old(nodes)@, taken1));
            assert(inodes_after(old(nodes)@, taken1) =~= inodes_after(old(nodes)@, taken).push(
                spec_intern(prev_table, entries@[i as int].id@).1,
            ));
            assert forall|j: int| 0 <= j < i + 1 implies #[trigger] child_entry_ok(
                out@,
                old(nodes)@,
                taken1,
                j,
            ) by {
                if j < i {
                    assert(child_entry_ok(prev_out, old(nodes)@, taken, j));
                    assert(out@[j + 2] == prev_out[j + 2]);
                    assert(inodes_after(old(nodes)@, taken1)[j] == inodes_after(
                        old(nodes)@,
                        taken,
                    )[j]);
                    assert(taken1[j] == taken[j]);
                } else {
                    assert(out@[i as int + 2].ino as int == inodes_after(old(nodes)@, taken1)[
                        i as int
                    ]);
                }
            }
        }
        i = i + 1;
    }
    proof {
        assert(entries@.take(n as int) =~= entries@);
    }
    Ok(out)
}

/// The byte range `[offset, offset + len)` of `content`, clamped to the
/// content's actual length: empty when `offset` is at or past the end,
/// truncated when `offset + len` runs past the end.
pub open spec fn spec_read_range(content: Seq<u8>, offset: int, len: int) -> Seq<u8> {
    if offset >= content.len() {
        Seq::empty()
    } else if offset + len >= content.len() {
        content.subrange(offset, content.len() as int)
    } else {
        content.subrange(offset, offset + len)
    }
}

/// Copies the requested byte range out of a file's content, clamped to
/// the content's actual length: an offset at or past the end yields zero
/// bytes, and a range that runs past the end yields only the available
/// trailing bytes.
pub fn read_slice(content: &Vec<u8>, offset: u64, size: u32) -> (r: Vec<u8>)
    ensures
        r@ == spec_read_range(content@, offset as int, size as int),
        offset as int >= content@.len() ==> r@.len() == 0,
        (offset as int) < content@.len() && content@.len() < offset as int + size as int
            ==> r@.len() == content@.len() - offset as int,
        r@.len() <= size,
{
    let n = content.len();
    if offset >= n as u64 {
        let r: Vec<u8> = Vec::new();
        assert(r@ =~= spec_read_range(content@, offset as int, size as int));
        return r;
    }
    let start = offset as usize;
    let avail = n - start;
    let count = if (size as u64) < (avail as u64) {
        size as usize
    } else {
        avail
    };
    let mut r: Vec<u8> = Vec::new();
    let mut i: usize = 0;
    while i < count
        invariant
            n == content@.len(),
            start < n,
            start + count <= n,
            i <= count,
            r@ == content@.subrange(start as int, start as int + i as int),
        decreases count - i,
    {
        r.push(content[start + i]);
        assert(r@ =~= content@.subrange(start as int, start as int + i as int + 1));
        i = i + 1;
    }
    assert(r@ =~= spec_read_range(content@, offset as int, size as int));
    r
}

/// Checks that a loaded object's node kind is the one the directory
/// entry declared for it.
pub fn kinds_agree(declared: EntryKind, loaded: NodeKind) -> (r: bool)
    ensures
        r <==> spec_entry_node_kind(declared) == Some(loaded),
{
    match (declared, loaded) {
        (EntryKind::Directory, NodeKind::Directory) => true,
        (EntryKind::File, NodeKind::RegularFile) => true,
        _ => false,
    }
}

/// Ends a directory listing of `count` children: the one valid follow-up
/// cursor — one past the last emitted position, so `count + 2` — succeeds
/// with no further entries; any other cursor is an internal
/// inconsistency, reported as an error.
pub fn end_listing(count: usize, cursor: u64) -> (r: Result<Vec<DirEntryData>, FsError>)
    requires
        count + 2 <= u64::MAX,
    ensures
        cursor == count + 2 ==> (r matches Ok(l) && l@ == Seq::<DirEntryData>::empty()),
        cursor != count + 2 ==> r == Err::<Vec<DirEntryData>, FsError>(
            FsError::InternalInconsistency,
        ),
{
    if cursor == count as u64 + 2 {
        let empty: Vec<DirEntryData> = Vec::new();
        assert(empty@ =~= Seq::<DirEntryData>::empty());
        Ok(empty)
    } else {
        Err(FsError::InternalInconsistency)
    }
}

/// Serves a read from a loaded object: only a file can be read — its
/// content clamped to the requested range. A directory is a type
/// mismatch, an object of an unsupported kind an unsupported-object
/// error, and an absent object a not-found reply.
pub fn read_object(info: &ObjectInfo, offset: u64, size: u32) -> (r: Result<Vec<u8>, FsError>)
    ensures
        *info is Directory ==> r == Err::<Vec<u8>, FsError>(FsError::TypeMismatch),
        *info is Unsupported ==> r == Err::<Vec<u8>, FsError>(FsError::UnsupportedObject),
        *info is Missing ==> r == Err::<Vec<u8>, FsError>(FsError::NotFound),
        *info matches ObjectInfo::File(content) ==> (r matches Ok(data) && data@
            == spec_read_range(content@, offset as int, size as int) && data@.len() <= size),
{
    match info {
        ObjectInfo::File(content) => Ok(read_slice(content, offset, size)),
        ObjectInfo::Directory => Err(FsError::TypeMismatch),
        ObjectInfo::Unsupported => Err(FsError::UnsupportedObject),
        ObjectInfo::Missing => Err(FsError::NotFound),
    }
}

/// Loads the directory object bound to `ino`: the inode is resolved
/// through the identity table, then the store is asked for the directory.
/// A failure of either step is a not-found reply.
pub fn get_tree(repo: &git2::Repository, nodes: &Bimap, ino: u64) -> (r: Result<
    Vec<RawEntry>,
    FsError,
>)
    ensures
        spec_resolve(nodes@, ino as int) is None ==> r == Err::<Vec<RawEntry>, FsError>(
            FsError::NotFound,
        ),
        r is Ok ==> spec_resolve(nodes@, ino as int) is Some,
        r is Err ==> r == Err::<Vec<RawEntry>, FsError>(FsError::NotFound),
{
    let oid = match nodes.get_forward(ino) {
        Some(o) => o,
        None => {
            return Err(FsError::NotFound);
        },
    };
    match load_directory(repo, &oid) {
        Some(entries) => Ok(entries),
        None => Err(FsError::NotFound),
    }
}

/// Loads the object bound to `ino`. An inode without a binding is an
/// internal inconsistency (the bridge handed the engine an inode it never
/// allocated) and is reported as an error, never as an abort; a bound
/// inode whose object the store no longer yields is a not-found reply.
pub fn get_obj(repo: &git2::Repository, nodes: &Bimap, ino: u64) -> (r: Result<
    ObjectInfo,
    FsError,
>)
    ensures
        r == Err::<ObjectInfo, FsError>(FsError::InternalInconsistency) <==> spec_resolve(
            nodes@,
            ino as int,
        ) is None,
        r matches Ok(info) ==> !(info is Missing) && spec_resolve(nodes@, ino as int) is Some,
        r matches Err(e) ==> e == FsError::NotFound || e == FsError::InternalInconsistency,
{
    let oid = match nodes.get_forward(ino) {
        Some(o) => o,
        None => {
            return Err(FsError::InternalInconsistency);
        },
    };
    match load_object(repo, &oid) {
        ObjectInfo::Missing => Err(FsError::NotFound),
        info => Ok(info),
    }
}

/// The attribute record was synthesized from a loaded object: the record
/// is exactly what the object's kind and size dictate.
pub open spec fn attr_from_object(attr: FileAttrData, info: ObjectInfo) -> bool {
    spec_classify(info) matches Ok(p) && attr == spec_attr(attr.ino, p.0, p.1)
}

/// What a successful lookup did: some directory entry bore the requested
/// name; its identifier was interned, yielding the returned inode (and
/// extending the table by at most that identifier); the record's kind is
/// the one the entry declared, which the object the store yielded agreed
/// with; and the record was synthesized from that object.
pub open spec fn lookup_ok_describes(
    pre: Seq<Seq<u8>>,
    post: Seq<Seq<u8>>,
    name: Seq<u8>,
    attr: FileAttrData,
    entry: RawEntry,
    info: ObjectInfo,
) -> bool {
    &&& entry.name@ == name
    &&& post == spec_intern(pre, entry.id@).0
    &&& attr.ino as int == spec_intern(pre, entry.id@).1
    &&& spec_resolve(post, attr.ino as int) == Some(entry.id@)
    &&& Some(attr.kind) == spec_entry_node_kind(entry.kind)
    &&& attr_from_object(attr, info)
}

/// Some directory entry and loaded object describe the successful lookup.
pub open spec fn lookup_ok(
    pre: Seq<Seq<u8>>,
    post: Seq<Seq<u8>>,
    name: Seq<u8>,
    attr: FileAttrData,
) -> bool {
    exists|entry: RawEntry, info: ObjectInfo| lookup_ok_describes(pre, post, name, attr, entry, info)
}

/// What a successful initial readdir did: the store yielded these
/// entries, all of a supported kind; every one was interned in order; and
/// the listing reflects them entry for entry.
pub open spec fn readdir_ok_describes(
    pre: Seq<Seq<u8>>,
    post: Seq<Seq<u8>>,
    l: Seq<DirEntryData>,
    es: Seq<RawEntry>,
) -> bool {
    &&& entries_supported(es)
    &&& post == table_after(pre, es)
    &&& listing_matches(l, pre, es)
}

/// The virtual filesystem engine: the identity table and the handle to
/// the object store, created once per mount from one resolved root
/// directory identifier. The mounted view is a permanent snapshot: the
/// table only ever grows, and the root binding never changes.
pub struct GitFilesystem {
    repo: git2::Repository,
    nodes: Bimap,
}

impl GitFilesystem {
    /// The identity table: position `k - 1` holds the identifier bound to
    /// inode `k`.
    pub closed spec fn table(&self) -> Seq<Seq<u8>> {
        self.nodes@
    }

    /// The engine's invariant: no identifier is bound twice, and the root
    /// binding (inode 1) is present.
    pub open spec fn wf(&self) -> bool {
        distinct_ids(self.table()) && self.table().len() >= 1
    }

    /// The root directory identifier fixed at mount start.
    pub open spec fn root_id(&self) -> Seq<u8> {
        self.table()[0]
    }

    /// Creates the engine over a store handle and the resolved root
    /// directory identifier, which is seeded as inode 1.
    pub fn new(repo: git2::Repository, root: ObjectId) -> (r: GitFilesystem)
        ensures
            r.wf(),
            r.table() == seq![root@],
            r.root_id() == root@,
    {
        let mut nodes = Bimap::new();
        nodes.get_reverse_or_alloc(&root);
        proof {
            assert(nodes@ =~= seq![root@]);
        }
        GitFilesystem { repo, nodes }
    }

    /// Looks a child up by name in the directory bound to `parent`: scans
    /// the directory's entries in their native order for an exact,
    /// case-sensitive match, interns the match's identifier, and
    /// synthesizes its attribute record, with the node kind the entry
    /// declared (checked against the loaded object). An unresolvable
    /// parent, an unloadable directory and a missing name are all
    /// not-found replies, and no error reply interns anything: the table
    /// grows by at most the matched identifier, on success alone.
    pub fn lookup(&mut self, parent: u64, name: &[u8]) -> (r: Result<FileAttrData, FsError>)
        requires
            old(self).wf(),
        ensures
            final(self).wf(),
            old(self).table().is_prefix_of(final(self).table()),
            final(self).table().len() <= old(self).table().len() + 1,
            final(self).root_id() == old(self).root_id(),
            spec_resolve(old(self).table(), parent as int) is None ==> r == Err::<
                FileAttrData,
                FsError,
            >(FsError::NotFound) && final(self).table() == old(self).table(),
            r is Err ==> final(self).table() == old(self).table(),
            r matches Ok(attr) ==> lookup_ok(
                old(self).table(),
                final(self).table(),
                name@,
                attr,
            ),
            r matches Err(e) ==> e == FsError::NotFound || e == FsError::UnsupportedObject,
    {
        let entries = match get_tree(&self.repo, &self.nodes, parent) {
            Ok(t) => t,
            Err(e) => {
                return Err(e);
            },
        };
        let idx = match find_entry(&entries, name) {
            Some(i) => i,
            None => {
                return Err(FsError::NotFound);
            },
        };
        let loaded = load_object(&self.repo, &entries[idx].id);
        let (kind, size) = match classify_object(&loaded) {
            Ok(p) => p,
            Err(e) => {
                return Err(e);
            },
        };
        if !kinds_agree(entries[idx].kind, kind) {
            return Err(FsError::UnsupportedObject);
        }
        let interned = match get_tree_entry_info(&mut self.nodes, &entries[idx]) {
            Ok(t) => t,
            Err(e) => {
                return Err(e);
            },
        };
        let attr = make_attr(interned.0, kind, size);
        proof {
            let e = entries@[idx as int];
            assert(lookup_ok_describes(
                old(self).table(),
                self.nodes@,
                name@,
                attr,
                e,
                loaded,
            ));
            assert(lookup_ok(old(self).table(), self.nodes@, name@, attr));
        }
        Ok(attr)
    }

    /// Queries the attributes of the object bound to `ino`. An inode
    /// without a binding is an internal inconsistency, reported as an
    /// error while the engine keeps serving. No interning happens: the
    /// table is left exactly as it was.
    pub fn getattr(&self, ino: u64) -> (r: Result<FileAttrData, FsError>)
        ensures
            r == Err::<FileAttrData, FsError>(FsError::InternalInconsistency) <==> spec_resolve(
                self.table(),
                ino as int,
            ) is None,
            r matches Ok(attr) ==> attr.ino == ino && exists|info: ObjectInfo|
                attr_from_object(attr, info),
            r matches Err(e) ==> e == FsError::NotFound || e == FsError::UnsupportedObject
                || e == FsError::InternalInconsistency,
    {
        let info = match get_obj(&self.repo, &self.nodes, ino) {
            Ok(o) => o,
            Err(e) => {
                return Err(e);
            },
        };
        let (kind, size) = match classify_object(&info) {
            Ok(p) => p,
            Err(e) => {
                return Err(e);
            },
        };
        let attr = make_attr(ino, kind, size);
        proof {
            assert(attr_from_object(attr, info));
        }
        Ok(attr)
    }

    /// Reads the byte range `[offset, offset + size)` of the file bound
    /// to `ino`, clamped to the file's actual content length. Reading a
    /// directory is a type mismatch; an inode without a binding is an
    /// internal inconsistency; both are per-request errors.
    pub fn read(&self, ino: u64, offset: u64, size: u32) -> (r: Result<Vec<u8>, FsError>)
        ensures
            r == Err::<Vec<u8>, FsError>(FsError::InternalInconsistency) <==> spec_resolve(
                self.table(),
                ino as int,
            ) is None,
            r matches Ok(data) ==> exists|content: Seq<u8>|
                data@ == #[trigger] spec_read_range(content, offset as int, size as int),
            r matches Ok(data) ==> data@.len() <= size,
            r matches Err(e) ==> e == FsError::NotFound || e == FsError::TypeMismatch
                || e == FsError::UnsupportedObject || e == FsError::InternalInconsistency,
    {
        let info = match get_obj(&self.repo, &self.nodes, ino) {
            Ok(o) => o,
            Err(e) => {
                return Err(e);
            },
        };
        let result = read_object(&info, offset, size);
        proof {
            match info {
                ObjectInfo::File(content) => {
                    assert(result matches Ok(data) && data@ == spec_read_range(
                        content@,
                        offset as int,
                        size as int,
                    ));
                },
                _ => {},
            }
        }
        result
    }

    /// Lists the directory bound to `ino`. The initial call (`cursor` 0)
    /// yields the full listing: the two root-bound self-references, then
    /// every child in the store's native order, each with its interned
    /// inode. Every nonzero cursor is handed to `end_listing`, whose
    /// contract fixes the acceptance rule: the one cursor one past the
    /// last emitted position ends the listing successfully with no
    /// entries, and any other is an internal inconsistency, reported as
    /// an error while the engine keeps serving. No reply but a successful
    /// initial listing changes the table.
    pub fn readdir(&mut self, ino: u64, cursor: u64) -> (r: Result<Vec<DirEntryData>, FsError>)
        requires
            old(self).wf(),
        ensures
            final(self).wf(),
            old(self).table().is_prefix_of(final(self).table()),
            final(self).root_id() == old(self).root_id(),
            spec_resolve(old(self).table(), ino as int) is None ==> r == Err::<
                Vec<DirEntryData>,
                FsError,
            >(FsError::NotFound) && final(self).table() == old(self).table(),
            cursor != 0 ==> final(self).table() == old(self).table(),
            cursor != 0 ==> (r matches Ok(l) ==> l@.len() == 0),
            cursor == 0 ==> (r matches Ok(l) ==> exists|es: Seq<RawEntry>|
                readdir_ok_describes(old(self).table(), final(self).table(), l@, es)),
            r == Err::<Vec<DirEntryData>, FsError>(FsError::NotFound) ==> final(self).table()
                == old(self).table(),
            r == Err::<Vec<DirEntryData>, FsError>(FsError::InternalInconsistency)
                ==> final(self).table() == old(self).table(),
            r matches Err(e) ==> e == FsError::NotFound || e == FsError::UnsupportedObject
                || e == FsError::InternalInconsistency,
    {
        let entries = match get_tree(&self.repo, &self.nodes, ino) {
            Ok(t) => t,
            Err(e) => {
                return Err(e);
            },
        };
        if entries.len() as u128 > (u64::MAX - 2) as u128 {
            return Err(FsError::InternalInconsistency);
        }
        if cursor != 0 {
            return end_listing(entries.len(), cursor);
        }
        let listing = match build_listing(&mut self.nodes, &entries) {
            Ok(l) => l,
            Err(e) => {
                return Err(e);
            },
        };
        proof {
            assert(readdir_ok_describes(
                old(self).table(),
                self.nodes@,
                listing@,
                entries@,
            ));
        }
        Ok(listing)
    }
}

/// Attribute consistency: after a successful lookup, the returned inode
/// resolves to the very identifier the lookup matched — so a following
/// getattr on that inode consults the same identifier — and any attribute
/// record synthesized from the same loaded object for that inode is the
/// record lookup returned, same kind and size included. (That the
/// content-addressed store yields the same object for the same identifier
/// is the store's own guarantee, not restated here.)
pub proof fn lemma_attr_consistency(
    pre: Seq<Seq<u8>>,
    post: Seq<Seq<u8>>,
    name: Seq<u8>,
    attr: FileAttrData,
    entry: RawEntry,
    info: ObjectInfo,
)
    requires
        lookup_ok_describes(pre, post, name, attr, entry, info),
    ensures
        spec_resolve(post, attr.ino as int) == Some(entry.id@),
        forall|a2: FileAttrData| a2.ino == attr.ino && #[trigger] attr_from_object(a2, info)
            ==> a2 == attr && a2.kind == attr.kind && a2.size == attr.size,
{
}

/// Every entry interned in a pass is bound in the resulting table at the
/// inode the pass assigned it, and the pass only extends the table.
pub proof fn lemma_table_after_binds(s: Seq<Seq<u8>>, es: Seq<RawEntry>)
    ensures
        inodes_after(s, es).len() == es.len(),
        s.is_prefix_of(table_after(s, es)),
        forall|j: int| 0 <= j < es.len() ==> #[trigger] spec_find(table_after(s, es), es[j].id@)
            == Some(inodes_after(s, es)[j]),
    decreases es.len(),
{
    if es.len() == 0 {
        assert(s =~= table_after(s, es).subrange(0, s.len() as int));
    } else {
        let es1 = es.drop_last();
        let e = es.last();
        lemma_table_after_binds(s, es1);
        let t1 = table_after(s, es1);
        let t = table_after(s, es);
        let k = spec_intern(t1, e.id@).1;
        if spec_find(t1, e.id@) is Some {
            assert(t == t1);
        } else {
            assert(t == t1.push(e.id@));
            assert(t1 =~= t.subrange(0, t1.len() as int));
        }
        assert(t1.is_prefix_of(t));
        crate::bimap::lemma_prefix_transitive(s, t1, t);
        assert forall|j: int| 0 <= j < es.len() implies #[trigger] spec_find(t, es[j].id@)
            == Some(inodes_after(s, es)[j]) by {
            if j < es.len() - 1 {
                assert(es[j] == es1[j]);
                lemma_find_stable(t1, t, es1[j].id@);
                assert(inodes_after(s, es)[j] == inodes_after(s, es1)[j]);
            } else {
                lemma_find_characterization(t1, e.id@);
                if spec_find(t1, e.id@) is Some {
                    assert(spec_find(t, e.id@) == Some(k));
                } else {
                    assert(t[t1.len() as int] == e.id@);
                    assert forall|m: int| 0 <= m < t1.len() implies t[m] != e.id@ by {
                        assert(t[m] == t1[m]);
                    }
                    lemma_find_at(t, e.id@, t1.len() as int);
                    assert(k == t1.len() + 1);
                }
                assert(inodes_after(s, es)[j] == k);
            }
        }
    }
}

/// A pass over entries that are all already bound leaves the table
/// unchanged and assigns exactly the bound inodes.
pub proof fn lemma_pass_noop(t: Seq<Seq<u8>>, es: Seq<RawEntry>)
    requires
        forall|j: int| 0 <= j < es.len() ==> (#[trigger] spec_find(t, es[j].id@)) is Some,
    ensures
        table_after(t, es) == t,
        inodes_after(t, es).len() == es.len(),
        forall|j: int| 0 <= j < es.len() ==> inodes_after(t, es)[j] == (#[trigger] spec_find(
            t,
            es[j].id@,
        ))->Some_0,
    decreases es.len(),
{
    if es.len() == 0 {
    } else {
        let es1 = es.drop_last();
        let e = es.last();
        assert(forall|j: int| 0 <= j < es1.len() ==> es1[j] == es[j]);
        lemma_pass_noop(t, es1);
        assert(es[es.len() - 1] == e);
        assert(spec_find(t, e.id@) is Some);
    }
}

/// Interning the same entries a second time — as a second initial
/// listing of the same unchanged directory does — leaves the table as the
/// first pass left it and assigns every child the same inode again.
pub proof fn lemma_listing_deterministic(s: Seq<Seq<u8>>, es: Seq<RawEntry>)
    ensures
        table_after(table_after(s, es), es) == table_after(s, es),
        inodes_after(table_after(s, es), es) == inodes_after(s, es),
{
    let t = table_after(s, es);
    lemma_table_after_binds(s, es);
    lemma_pass_noop(t, es);
    assert forall|j: int| 0 <= j < es.len() implies inodes_after(t, es)[j] == inodes_after(
        s,
        es,
    )[j] by {
        assert(spec_find(t, es[j].id@) == Some(inodes_after(s, es)[j]));
    }
    assert(inodes_after(t, es) =~= inodes_after(s, es));
}

/// Listing entries `i` of two listings agree in every field the listing
/// carries.
pub open spec fn listing_entries_agree(l1: Seq<DirEntryData>, l2: Seq<DirEntryData>, i: int) -> bool {
    &&& l1[i].ino == l2[i].ino
    &&& l1[i].position == l2[i].position
    &&& l1[i].kind == l2[i].kind
    &&& l1[i].name@ == l2[i].name@
}

/// Directory-order determinism: two consecutive initial `readdir` calls
/// on the same unchanged directory produce listings that agree entry for
/// entry — same inodes, same positions, same kinds, same names, in the
/// same order.
pub proof fn lemma_readdir_deterministic(
    s: Seq<Seq<u8>>,
    es: Seq<RawEntry>,
    l1: Seq<DirEntryData>,
    l2: Seq<DirEntryData>,
)
    requires
        listing_matches(l1, s, es),
        listing_matches(l2, table_after(s, es), es),
    ensures
        l1.len() == l2.len(),
        forall|i: int| 0 <= i < l1.len() ==> #[trigger] listing_entries_agree(l1, l2, i),
{
    lemma_listing_deterministic(s, es);
    assert forall|i: int| 0 <= i < l1.len() implies #[trigger] listing_entries_agree(
        l1,
        l2,
        i,
    ) by {
        if i >= 2 {
            assert(child_entry_ok(l1, s, es, i - 2));
            assert(child_entry_ok(l2, table_after(s, es), es, i - 2));
            assert(l1[i].ino as int == inodes_after(s, es)[i - 2]);
            assert(l2[i].ino as int == inodes_after(table_after(s, es), es)[i - 2]);
        }
    }
}

} // verus!
