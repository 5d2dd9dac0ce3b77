use std::hash::{DefaultHasher, Hash, Hasher};
use std::path::PathBuf;
use vstd::prelude::*;

use crate::text::{hexadecimal, to_hex};
use crate::tree::DirNode;

verus! {

#[verifier::external_type_specification]
#[verifier::external_body]
pub struct ExPathBuf(PathBuf);

/// Nanoseconds in a second.
pub const NANOS_PER_SEC: u128 = 1_000_000_000;

/// A scanned tree as it is stored on disk: modification times are kept to
/// the second.
pub struct CachedNode {
    pub name: String,
    pub path: String,
    pub size: u64,
    pub is_dir: bool,
    pub file_count: u64,
    pub readable: bool,
    pub modified_secs: u64,
    pub children: Vec<CachedNode>,
}

/// The whole seconds of a modification time `t` (nanoseconds since the
/// epoch), as a cache entry holds them. A time past what 64-bit seconds can
/// hold (which no clock reading reaches) is kept as the largest.
pub open spec fn whole_secs(t: u128) -> u64 {
    if t / NANOS_PER_SEC <= u64::MAX {
        (t / NANOS_PER_SEC) as u64
    } else {
        u64::MAX
    }
}

/// `c` is the cache entry for `n`: the same tree, with modification times
/// rounded down to the second.
pub open spec fn caches(c: CachedNode, n: DirNode) -> bool
    decreases n,
{
    &&& c.name@ == n.name@
    &&& c.path@ == n.path@
    &&& c.size == n.size
    &&& c.is_dir == n.is_dir
    &&& c.file_count == n.file_count
    &&& c.readable == n.readable
    &&& c.modified_secs == whole_secs(n.modified)
    &&& c.children@.len() == n.children@.len()
    &&& forall|i: int| 0 <= i < n.children@.len() ==> caches(#[trigger] c.children@[i], n.children@[i])
}

/// `n` is the tree read back from the cache entry `c`.
pub open spec fn restores(n: DirNode, c: CachedNode) -> bool
    decreases c,
{
    &&& n.name@ == c.name@
    &&& n.path@ == c.path@
    &&& n.size == c.size
    &&& n.is_dir == c.is_dir
    &&& n.file_count == c.file_count
    &&& n.readable == c.readable
    &&& n.modified == c.modified_secs * NANOS_PER_SEC
    &&& n.children@.len() == c.children@.len()
    &&& forall|i: int| 0 <= i < c.children@.len() ==> restores(#[trigger] n.children@[i], c.children@[i])
}

/// `m` is `n` with every modification time rounded down to the second.
pub open spec fn same_to_the_second(m: DirNode, n: DirNode) -> bool
    decreases n,
{
    &&& m.name@ == n.name@
    &&& m.path@ == n.path@
    &&& m.size == n.size
    &&& m.is_dir == n.is_dir
    &&& m.file_count == n.file_count
    &&& m.readable == n.readable
    &&& m.modified == whole_secs(n.modified) * NANOS_PER_SEC
    &&& m.children@.len() == n.children@.len()
    &&& forall|i: int| 0 <= i < n.children@.len() ==> same_to_the_second(#[trigger] m.children@[i], n.children@[i])
}

/// Reading back what was written gives the tree that was written, with its
/// modification times rounded down to the second.
pub proof fn lemma_cache_round_trip(n: DirNode, c: CachedNode, m: DirNode)
    requires
        caches(c, n),
        restores(m, c),
    ensures
        same_to_the_second(m, n),
    decreases n,
{
    assert forall|i: int| 0 <= i < n.children@.len() implies same_to_the_second(#[trigger] m.children@[i], n.children@[i]) by {
        lemma_cache_round_trip(n.children@[i], c.children@[i], m.children@[i]);
    }
}

impl CachedNode {
    /// The cache entry for a scanned tree.
    pub fn from_node(n: &DirNode) -> (c: CachedNode)
        ensures
            caches(c, *n),
        decreases n,
    {
        let mut children: Vec<CachedNode> = Vec::new();
        let mut i: usize = 0;
        while i < n.children.len()
            invariant
                i <= n.children@.len(),
                children@.len() == i,
                forall|k: int| 0 <= k < i ==> caches(#[trigger] children@[k], n.children@[k]),
            decreases n.children@.len() - i,
        {
            let child = CachedNode::from_node(&n.children[i]);
            children.push(child);
            i = i + 1;
        }
        let secs = n.modified / NANOS_PER_SEC;
        let modified_secs: u64 = if secs <= u64::MAX as u128 {
            secs as u64
        } else {
            u64::MAX
        };
        CachedNode {
            name: n.name.clone(),
            path: n.path.clone(),
            size: n.size,
            is_dir: n.is_dir,
            file_count: n.file_count,
            readable: n.readable,
            modified_secs,
            children,
        }
    }

    /// The tree this entry holds.
    pub fn to_dir_node(&self) -> (n: DirNode)
        ensures
            restores(n, *self),
        decreases self,
    {
        let mut children: Vec<DirNode> = Vec::new();
        let mut i: usize = 0;
        while i < self.children.len()
            invariant
                i <= self.children@.len(),
                children@.len() == i,
                forall|k: int| 0 <= k < i ==> restores(#[trigger] children@[k], self.children@[k]),
            decreases self.children@.len() - i,
        {
            let child = self.children[i].to_dir_node();
            children.push(child);
            i = i + 1;
        }
        DirNode {
            name: self.name.clone(),
            path: self.path.clone(),
            size: self.size,
            is_dir: self.is_dir,
            file_count: self.file_count,
            readable: self.readable,
            modified: self.modified_secs as u128 * NANOS_PER_SEC,
            children,
        }
    }

    /// The tree this entry holds.
    pub fn into_dir_node(self) -> (n: DirNode)
        ensures
            restores(n, self),
    {
        self.to_dir_node()
    }
}

/// Hashes a path with `std`'s `DefaultHasher`. The value can differ between
/// toolchains and between 32- and 64-bit machines, so nothing is stated of it.
#[verifier::external_body]
fn path_hash(scan_path: &PathBuf) -> u64 {
    let mut hasher = DefaultHasher::new();
    scan_path.as_path().hash(&mut hasher);
    hasher.finish()
}

/// The name of the cache file for the hash `h`: `h` in hexadecimal, then
/// ".cache".
pub fn cache_file_name(h: u64) -> (name: String)
    ensures
        name@ == hexadecimal(h as nat) + ".cache"@,
{
    let mut name = to_hex(h);
    name.append(".cache");
    name
}

/// The name of the cache file for a scanned path, inside the cache
/// directory: the hexadecimal hash of the path, then ".cache".
pub fn cache_file_for(scan_path: &PathBuf) -> (name: String)
    ensures
        exists|h: u64| name@ == hexadecimal(h as nat) + ".cache"@,
{
    let h = path_hash(scan_path);
    cache_file_name(h)
}

} // verus!
