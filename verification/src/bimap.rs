//! The identity table: a bidirectional mapping between object identifiers
//! and small sequential inode numbers.
//!
//! Inodes are assigned in first-seen order starting at 1 (the first entry,
//! seeded at mount start, is the root). An entry is never removed and never
//! renumbered, so an identifier keeps its inode for the life of the mount.

use vstd::prelude::*;
use crate::oid::ObjectId;

verus! {

/// No identifier occurs twice in the table.
pub open spec fn distinct_ids(s: Seq<Seq<u8>>) -> bool {
    forall|i: int, j: int| 0 <= i < j < s.len() ==> s[i] != s[j]
}

/// The identifier bound to an inode, if the inode has been assigned.
pub open spec fn spec_resolve(s: Seq<Seq<u8>>, ino: int) -> Option<Seq<u8>> {
    if 1 <= ino <= s.len() {
        Some(s[ino - 1])
    } else {
        None
    }
}

/// The inode of the first occurrence of `id` in the table, if any.
pub open spec fn spec_find(s: Seq<Seq<u8>>, id: Seq<u8>) -> Option<int>
    decreases s.len(),
{
    if s.len() == 0 {
        None
    } else if s[0] == id {
        Some(1)
    } else {
        match spec_find(s.drop_first(), id) {
            Some(k) => Some(k + 1),
            None => None,
        }
    }
}

/// The table and inode that interning `id` yields: the existing binding if
/// `id` was seen before, otherwise the table extended by `id` with the next
/// inode number.
pub open spec fn spec_intern(s: Seq<Seq<u8>>, id: Seq<u8>) -> (Seq<Seq<u8>>, int) {
    match spec_find(s, id) {
        Some(k) => (s, k),
        None => (s.push(id), s.len() as int + 1),
    }
}

/// A found inode points at the sought identifier, and nothing before it
/// matches; a miss means no entry matches.
pub proof fn lemma_find_characterization(s: Seq<Seq<u8>>, id: Seq<u8>)
    ensures
        match spec_find(s, id) {
            Some(k) => 1 <= k <= s.len() && s[k - 1] == id
                && (forall|j: int| 0 <= j < k - 1 ==> s[j] != id),
            None => forall|j: int| 0 <= j < s.len() ==> s[j] != id,
        },
    decreases s.len(),
{
    if s.len() == 0 {
    } else if s[0] == id {
    } else {
        let t = s.drop_first();
        lemma_find_characterization(t, id);
        match spec_find(t, id) {
            Some(k) => {
                assert(s[k] == t[k - 1]);
                assert forall|j: int| 0 <= j < k implies s[j] != id by {
                    if j > 0 {
                        assert(s[j] == t[j - 1]);
                    }
                }
            }
            None => {
                assert forall|j: int| 0 <= j < s.len() implies s[j] != id by {
                    if j > 0 {
                        assert(s[j] == t[j - 1]);
                    }
                }
            }
        }
    }
}

/// If `id` stands at position `i` and nowhere earlier, the first occurrence
/// is exactly there.
pub proof fn lemma_find_at(s: Seq<Seq<u8>>, id: Seq<u8>, i: int)
    requires
        0 <= i < s.len(),
        s[i] == id,
        forall|j: int| 0 <= j < i ==> s[j] != id,
    ensures
        spec_find(s, id) == Some(i + 1),
    decreases s.len(),
{
    if i == 0 {
    } else {
        assert(s[0] != id);
        assert(s.drop_first()[i - 1] == id);
        assert(forall|j: int| 0 <= j < i - 1 ==> s.drop_first()[j] == s[j + 1]);
        lemma_find_at(s.drop_first(), id, i - 1);
    }
}

/// An identifier's first occurrence does not move while the table grows:
/// a binding, once made, is stable.
pub proof fn lemma_find_stable(s: Seq<Seq<u8>>, s2: Seq<Seq<u8>>, id: Seq<u8>)
    requires
        spec_find(s, id) is Some,
        s.is_prefix_of(s2),
    ensures
        spec_find(s2, id) == spec_find(s, id),
{
    lemma_find_characterization(s, id);
    let k = spec_find(s, id)->Some_0;
    assert forall|j: int| 0 <= j < k - 1 implies s2[j] != id by {
        assert(s2[j] == s[j]);
    }
    assert(s2[k - 1] == s[k - 1]);
    lemma_find_at(s2, id, k - 1);
}

/// Prefixes chain: a prefix of a prefix is a prefix.
pub proof fn lemma_prefix_transitive(a: Seq<Seq<u8>>, b: Seq<Seq<u8>>, c: Seq<Seq<u8>>)
    requires
        a.is_prefix_of(b),
        b.is_prefix_of(c),
    ensures
        a.is_prefix_of(c),
{
    assert forall|j: int| 0 <= j < a.len() implies c[j] == a[j] by {
        assert(b[j] == a[j]);
    }
    assert(a =~= c.subrange(0, a.len() as int));
}

/// Interning is idempotent: a second interning of the same identifier
/// changes nothing and yields the same inode.
pub proof fn lemma_intern_idempotent(s: Seq<Seq<u8>>, id: Seq<u8>)
    ensures
        spec_intern(spec_intern(s, id).0, id) == spec_intern(s, id),
{
    let (s1, k1) = spec_intern(s, id);
    lemma_find_characterization(s, id);
    if spec_find(s, id) is None {
        assert(s1[s.len() as int] == id);
        assert(forall|j: int| 0 <= j < s.len() ==> s1[j] == s[j] && s1[j] != id);
        lemma_find_at(s1, id, s.len() as int);
    }
}

/// Resolving an inode and interning the identifier it yields returns the
/// same inode, and leaves the table unchanged.
pub proof fn lemma_resolve_intern_roundtrip(s: Seq<Seq<u8>>, ino: int)
    requires
        distinct_ids(s),
        spec_resolve(s, ino) is Some,
    ensures
        spec_intern(s, spec_resolve(s, ino)->Some_0) == (s, ino),
{
    let id = spec_resolve(s, ino)->Some_0;
    assert(s[ino - 1] == id);
    assert(forall|j: int| 0 <= j < ino - 1 ==> s[j] != id);
    lemma_find_at(s, id, ino - 1);
}

/// While the table only grows, inode 1 keeps resolving to the identifier it
/// was bound to at the start — the root binding is stable.
pub proof fn lemma_root_stable(s1: Seq<Seq<u8>>, s2: Seq<Seq<u8>>)
    requires
        s1.len() >= 1,
        s1.is_prefix_of(s2),
    ensures
        spec_resolve(s2, 1) == spec_resolve(s1, 1),
{
    assert(s2[0] == s1[0]);
}

/// The bidirectional identifier/inode table. The ordered sequence of
/// identifiers is the ground truth: inode `k` is bound to the identifier at
/// position `k - 1`, and the reverse direction finds an identifier's first
/// (and, by the distinctness invariant, only) position.
pub struct Bimap {
    forward: Vec<ObjectId>,
}

impl View for Bimap {
    type V = Seq<Seq<u8>>;

    closed spec fn view(&self) -> Seq<Seq<u8>> {
        self.forward@.map_values(|o: ObjectId| o@)
    }
}

impl Bimap {
    /// The table never holds the same identifier twice.
    pub open spec fn wf(&self) -> bool {
        distinct_ids(self@)
    }

    /// An empty table; the first interned identifier receives inode 1.
    pub fn new() -> (r: Bimap)
        ensures
            r@ == Seq::<Seq<u8>>::empty(),
            r.wf(),
    {
        let r = Bimap { forward: Vec::new() };
        assert(r@ =~= Seq::<Seq<u8>>::empty());
        r
    }

    /// The number of inodes assigned so far.
    pub fn len(&self) -> (r: usize)
        ensures
            r == self@.len(),
    {
        self.forward.len()
    }

    /// The identifier bound to inode `k`, or nothing if `k` was never
    /// assigned.
    pub fn get_forward(&self, k: u64) -> (r: Option<ObjectId>)
        ensures
            match r {
                Some(o) => spec_resolve(self@, k as int) == Some(o@),
                None => spec_resolve(self@, k as int) is None,
            },
    {
        if 1 <= k && k <= self.forward.len() as u64 {
            let i = (k - 1) as usize;
            assert(self@[k as int - 1] == self.forward@[k as int - 1]@);
            Some(self.forward[i].duplicate())
        } else {
            None
        }
    }

    /// The inode bound to identifier `v`, or nothing if `v` was never
    /// interned.
    pub fn get_reverse(&self, v: &ObjectId) -> (r: Option<u64>)
        ensures
            match r {
                Some(k) => spec_find(self@, v@) == Some(k as int)
                    && 1 <= k <= self@.len() && self@[k as int - 1] == v@,
                None => spec_find(self@, v@) is None,
            },
    {
        let n = self.forward.len();
        let mut i: usize = 0;
        while i < n
            invariant
                n == self.forward.len(),
                n == self@.len(),
                i <= n,
                forall|j: int| 0 <= j < i ==> self@[j] != v@,
                forall|j: int| 0 <= j < n ==> self@[j] == self.forward@[j]@,
            decreases n - i,
        {
            if self.forward[i].is_same(v) {
                proof {
                    lemma_find_at(self@, v@, i as int);
                }
                return Some(i as u64 + 1);
            }
            i = i + 1;
        }
        proof {
            lemma_find_characterization(self@, v@);
        }
        None
    }

    /// Interns `v`: returns its existing inode if it was seen before,
    /// otherwise appends it and returns the newly assigned inode. No entry
    /// is ever removed or renumbered.
    pub fn get_reverse_or_alloc(&mut self, v: &ObjectId) -> (r: u64)
        requires
            old(self).wf(),
        ensures
            final(self).wf(),
            final(self)@ == spec_intern(old(self)@, v@).0,
            r as int == spec_intern(old(self)@, v@).1,
            1 <= r <= final(self)@.len(),
            final(self)@[r as int - 1] == v@,
            old(self)@.is_prefix_of(final(self)@),
    {
        match self.get_reverse(v) {
            Some(k) => {
                assert(old(self)@.is_prefix_of(self@));
                return k;
            }
            None => {}
        }

        self.forward.push(v.duplicate());
        proof {
            lemma_find_characterization(old(self)@, v@);
            assert(self@ =~= old(self)@.push(v@));
            assert(old(self)@.is_prefix_of(self@));
            assert forall|i: int, j: int| 0 <= i < j < self@.len() implies self@[i] != self@[j] by {
                if j < old(self)@.len() {
                    assert(self@[i] == old(self)@[i] && self@[j] == old(self)@[j]);
                } else {
                    assert(self@[j] == v@ && self@[i] == old(self)@[i]);
                }
            }
        }

        let k = self.forward.len();
        k as u64
    }
}

} // verus!
