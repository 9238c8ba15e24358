use vstd::prelude::*;

verus! {

/// A model of one filesystem node: a regular file with its size in bytes, or
/// a directory with its named entries. Entry kinds other than regular files
/// and directories are simply absent from the model, as the scanner ignores
/// them.
pub enum FsTree {
    File { size: u64 },
    Dir { entries: Vec<DirEntry> },
}

/// One directory entry: its name (a single path component) and the node it
/// leads to.
pub struct DirEntry {
    pub name: String,
    pub node: FsTree,
}

/// A discovered oversized file. It carries only the path, as a sequence of
/// components from the scan root; the size is re-read lazily by the consumer,
/// so a match is a hint, not a committed fact.
pub struct Match {
    pub path: Vec<String>,
}

impl View for Match {
    type V = Seq<Seq<char>>;

    open spec fn view(&self) -> Seq<Seq<char>> {
        self.path@.map_values(|s: String| s@)
    }
}

/// The view of a path under construction: each component as its characters.
pub open spec fn path_view(p: Seq<String>) -> Seq<Seq<char>> {
    p.map_values(|s: String| s@)
}

/// A well-formed directory tree: within every directory, entry names are
/// distinct (as they are on a real filesystem).
pub open spec fn tree_wf(node: FsTree) -> bool
    decreases node, 0int,
{
    match node {
        FsTree::File { .. } => true,
        FsTree::Dir { entries } => {
            &&& forall|i: int, j: int|
                0 <= i < j < entries@.len() ==> entries@[i].name@ != entries@[j].name@
            &&& entries_wf(entries@, 0)
        },
    }
}

/// All entries of a directory from index `i` on are themselves well-formed.
pub open spec fn entries_wf(entries: Seq<DirEntry>, i: int) -> bool
    decreases entries, entries.len() - i,
{
    0 <= i < entries.len() ==> tree_wf(entries[i].node) && entries_wf(entries, i + 1)
}

/// Whether an oversized regular file (size strictly above `threshold`) lies
/// at relative path `rel` below `node`. A directory itself is never
/// oversized; a file is reached only by the empty remaining path.
pub open spec fn oversized_at(node: FsTree, rel: Seq<Seq<char>>, threshold: u64) -> bool
    decreases node, 0int,
{
    match node {
        FsTree::File { size } => rel.len() == 0 && size > threshold,
        FsTree::Dir { entries } => rel.len() > 0 && oversized_in(entries@, 0, rel, threshold),
    }
}

/// Whether some entry at index `i` or later is named `rel[0]` and has an
/// oversized file at the remainder of `rel` below it.
pub open spec fn oversized_in(
    entries: Seq<DirEntry>,
    i: int,
    rel: Seq<Seq<char>>,
    threshold: u64,
) -> bool
    decreases entries, entries.len() - i,
{
    if 0 <= i < entries.len() && rel.len() > 0 {
        (entries[i].name@ == rel[0] && oversized_at(entries[i].node, rel.drop_first(), threshold))
            || oversized_in(entries, i + 1, rel, threshold)
    } else {
        false
    }
}

/// Copies a path under construction, component by component.
pub fn clone_path(v: &Vec<String>) -> (r: Vec<String>)
    ensures
        r@ == v@,
{
    let mut r: Vec<String> = Vec::new();
    let mut i: usize = 0;
    while i < v.len()
        invariant
            i <= v.len(),
            r@ == v@.take(i as int),
        decreases v.len() - i,
    {
        r.push(v[i].clone());
        proof {
            assert(r@ =~= v@.take(i as int + 1));
        }
        i = i + 1;
    }
    proof {
        assert(r@ =~= v@);
    }
    r
}

} // verus!
