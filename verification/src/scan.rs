use vstd::prelude::*;
use crate::fs_tree::DirEntry;
use crate::fs_tree::FsTree;
use crate::fs_tree::Match;
use crate::fs_tree::entries_wf;
use crate::fs_tree::oversized_at;
use crate::fs_tree::oversized_in;
use crate::fs_tree::path_view;
use crate::fs_tree::tree_wf;

verus! {

/// The matches that a traversal of `node` emits, in the traversal's own
/// entry-enumeration order, each as a full path: `prefix` extended by the
/// components leading to an oversized file. A file matches exactly when its
/// size strictly exceeds `threshold`.
pub open spec fn spec_matches(node: FsTree, prefix: Seq<Seq<char>>, threshold: u64) -> Seq<
    Seq<Seq<char>>,
>
    decreases node, 0int,
{
    match node {
        FsTree::File { size } => if size > threshold {
            seq![prefix]
        } else {
            Seq::empty()
        },
        FsTree::Dir { entries } => spec_matches_from(entries@, 0, prefix, threshold),
    }
}

/// The matches emitted for the entries of one directory from index `i` on.
pub open spec fn spec_matches_from(
    entries: Seq<DirEntry>,
    i: int,
    prefix: Seq<Seq<char>>,
    threshold: u64,
) -> Seq<Seq<Seq<char>>>
    decreases entries, entries.len() - i,
{
    if 0 <= i < entries.len() {
        spec_matches(entries[i].node, prefix.push(entries[i].name@), threshold)
            + spec_matches_from(entries, i + 1, prefix, threshold)
    } else {
        Seq::empty()
    }
}

/// The views of a sequence of emitted matches.
pub open spec fn match_views(ms: Seq<Match>) -> Seq<Seq<Seq<char>>> {
    ms.map_values(|m: Match| m@)
}

/// One traversal unit: enumerates the directory node, emits every oversized
/// file underneath it onto `out` (the model of the shared channel), and
/// leaves the path under construction as it found it.
pub fn scan_node(node: &FsTree, prefix: &mut Vec<String>, threshold: u64, out: &mut Vec<Match>)
    ensures
        final(prefix)@ == old(prefix)@,
        final(out)@.len() == old(out)@.len() + spec_matches(
            *node,
            path_view(old(prefix)@),
            threshold,
        ).len(),
        final(out)@.take(old(out)@.len() as int) == old(out)@,
        match_views(final(out)@) == match_views(old(out)@) + spec_matches(
            *node,
            path_view(old(prefix)@),
            threshold,
        ),
    decreases *node, 0int,
{
    match node {
        FsTree::File { size } => {
            if *size > threshold {
                let path = crate::fs_tree::clone_path(prefix);
                let m = Match { path };
                proof {
                    assert(m@ =~= path_view(prefix@));
                }
                out.push(m);
                proof {
                    assert(out@.take(old(out)@.len() as int) =~= old(out)@);
                    assert(match_views(out@) =~= match_views(old(out)@) + spec_matches(
                        *node,
                        path_view(old(prefix)@),
                        threshold,
                    ));
                }
            } else {
                proof {
                    assert(out@.take(old(out)@.len() as int) =~= old(out)@);
                    assert(match_views(out@) =~= match_views(old(out)@) + spec_matches(
                        *node,
                        path_view(old(prefix)@),
                        threshold,
                    ));
                }
            }
        },
        FsTree::Dir { entries } => {
            scan_entries(entries, 0, prefix, threshold, out);
        },
    }
}

/// Scans the entries of one directory from index `i` on, dispatching one
/// traversal per entry: subdirectories are traversed in full, oversized files
/// are emitted, and everything else is ignored.
pub fn scan_entries(
    entries: &Vec<DirEntry>,
    i: usize,
    prefix: &mut Vec<String>,
    threshold: u64,
    out: &mut Vec<Match>,
)
    ensures
        final(prefix)@ == old(prefix)@,
        final(out)@.len() == old(out)@.len() + spec_matches_from(
            entries@,
            i as int,
            path_view(old(prefix)@),
            threshold,
        ).len(),
        final(out)@.take(old(out)@.len() as int) == old(out)@,
        match_views(final(out)@) == match_views(old(out)@) + spec_matches_from(
            entries@,
            i as int,
            path_view(old(prefix)@),
            threshold,
        ),
    decreases entries@, entries@.len() - i,
{
    if i < entries.len() {
        let ghost p0 = prefix@;
        let ghost out0 = out@;
        let name = entries[i].name.clone();
        prefix.push(name);
        proof {
            assert(path_view(prefix@) =~= path_view(p0).push(entries@[i as int].name@));
        }
        scan_node(&entries[i].node, prefix, threshold, out);
        prefix.pop();
        let ghost out_mid = out@;
        proof {
            assert(prefix@ =~= p0);
        }
        scan_entries(entries, i + 1, prefix, threshold, out);
        proof {
            assert(out@.take(out0.len() as int) =~= out0) by {
                assert(out@.take(out_mid.len() as int) == out_mid);
                assert(out@.len() >= out_mid.len() >= out0.len());
                assert forall|k: int| 0 <= k < out0.len() implies out@[k] == out0[k] by {
                    assert(out@.take(out_mid.len() as int)[k] == out@[k]);
                    assert(out@.take(out_mid.len() as int)[k] == out_mid[k]);
                    assert(out_mid.take(out0.len() as int)[k] == out_mid[k]);
                    assert(out_mid.take(out0.len() as int)[k] == out0[k]);
                }
            }
            assert(match_views(out@) =~= match_views(out0) + spec_matches_from(
                entries@,
                i as int,
                path_view(p0),
                threshold,
            )) by {
                assert(spec_matches_from(entries@, i as int, path_view(p0), threshold)
                    == spec_matches(
                    entries@[i as int].node,
                    path_view(p0).push(entries@[i as int].name@),
                    threshold,
                ) + spec_matches_from(entries@, i + 1, path_view(p0), threshold));
            }
        }
    } else {
        proof {
            assert(out@.take(old(out)@.len() as int) =~= old(out)@);
            assert(match_views(out@) =~= match_views(old(out)@) + spec_matches_from(
                entries@,
                i as int,
                path_view(old(prefix)@),
                threshold,
            ));
        }
    }
}

/// One scan root: a configured root path and the directory tree below it.
pub struct ScanRoot {
    pub path: String,
    pub tree: FsTree,
}

/// The matches of a whole scan: the traversal output of each root in turn,
/// from root index `i` on. A root's matches are full paths starting with the
/// root path itself.
pub open spec fn spec_forest_matches(roots: Seq<ScanRoot>, i: int, threshold: u64) -> Seq<
    Seq<Seq<char>>,
>
    decreases roots.len() - i,
{
    if 0 <= i < roots.len() {
        spec_matches(roots[i].tree, seq![roots[i].path@], threshold) + spec_forest_matches(
            roots,
            i + 1,
            threshold,
        )
    } else {
        Seq::empty()
    }
}

/// Launches one traversal per root and merges their output into a single
/// match sequence. The sequence is complete exactly when every root's
/// traversal has finished; this model runs them in turn, so completeness
/// holds on return.
pub fn run_scan(roots: &Vec<ScanRoot>, threshold: u64) -> (out: Vec<Match>)
    ensures
        match_views(out@) == spec_forest_matches(roots@, 0, threshold),
{
    let mut out: Vec<Match> = Vec::new();
    proof {
        assert(match_views(out@) + spec_forest_matches(roots@, 0, threshold)
            =~= spec_forest_matches(roots@, 0, threshold));
    }
    let mut i: usize = 0;
    while i < roots.len()
        invariant
            i <= roots@.len(),
            match_views(out@) + spec_forest_matches(roots@, i as int, threshold)
                == spec_forest_matches(roots@, 0, threshold),
        decreases roots@.len() - i,
    {
        let mut prefix: Vec<String> = Vec::new();
        prefix.push(roots[i].path.clone());
        proof {
            assert(path_view(prefix@) =~= seq![roots@[i as int].path@]);
        }
        let ghost out_prev = out@;
        scan_node(&roots[i].tree, &mut prefix, threshold, &mut out);
        proof {
            assert(match_views(out@) + spec_forest_matches(roots@, i + 1, threshold)
                =~= spec_forest_matches(roots@, 0, threshold)) by {
                assert(spec_forest_matches(roots@, i as int, threshold) == spec_matches(
                    roots@[i as int].tree,
                    seq![roots@[i as int].path@],
                    threshold,
                ) + spec_forest_matches(roots@, i + 1, threshold));
                assert(match_views(out@) == match_views(out_prev) + spec_matches(
                    roots@[i as int].tree,
                    seq![roots@[i as int].path@],
                    threshold,
                ));
            }
        }
        i = i + 1;
    }
    proof {
        assert(match_views(out@) =~= spec_forest_matches(roots@, 0, threshold));
    }
    out
}

/// The whole disk check up to consumption: parses the configured size
/// threshold and scans the given forest (the model of the directories at the
/// configured roots). A malformed threshold string yields an empty match
/// sequence rather than an error — deliberately, as the original behaviour
/// documents it.
pub fn scan_with_config(config: &crate::config::DiskConfig, forest: &Vec<ScanRoot>) -> (out: Vec<
    Match,
>)
    ensures
        match crate::units::parsed_size(config.size_threshold@) {
            Some(threshold) => match_views(out@) == spec_forest_matches(forest@, 0, threshold),
            None => out@.len() == 0,
        },
{
    match crate::units::parse_size(config.size_threshold.as_str()) {
        Some(threshold) => run_scan(forest, threshold),
        None => Vec::new(),
    }
}

/// An arbitrary interleaving of two match streams, as the shared channel may
/// deliver them: `pick_first[k]` says whose element comes next while both
/// streams still have one; the remainder of the longer stream follows.
pub open spec fn interleave<A>(a: Seq<A>, b: Seq<A>, pick_first: Seq<bool>) -> Seq<A>
    decreases a.len() + b.len(),
{
    if a.len() == 0 {
        b
    } else if b.len() == 0 {
        a
    } else if pick_first[0] {
        seq![a.first()] + interleave(a.drop_first(), b, pick_first.drop_first())
    } else {
        seq![b.first()] + interleave(a, b.drop_first(), pick_first.drop_first())
    }
}

/// Law: however two traversal outputs interleave at the channel, the merged
/// stream carries exactly the elements of both — the multiset (and so the
/// match set) of a scan does not depend on the interleaving order.
pub proof fn lemma_interleave_multiset<A>(a: Seq<A>, b: Seq<A>, pick_first: Seq<bool>)
    ensures
        interleave(a, b, pick_first).to_multiset() == a.to_multiset().add(b.to_multiset()),
    decreases a.len() + b.len(),
{
    broadcast use vstd::seq_lib::group_to_multiset_ensures;

    let m = interleave(a, b, pick_first);
    if a.len() == 0 {
        assert(m.to_multiset() =~= a.to_multiset().add(b.to_multiset()));
    } else if b.len() == 0 {
        assert(m.to_multiset() =~= a.to_multiset().add(b.to_multiset()));
    } else if pick_first[0] {
        lemma_interleave_multiset(a.drop_first(), b, pick_first.drop_first());
        vstd::seq_lib::lemma_multiset_commutative(
            seq![a.first()],
            interleave(a.drop_first(), b, pick_first.drop_first()),
        );
        assert(seq![a.first()] + a.drop_first() =~= a);
        vstd::seq_lib::lemma_multiset_commutative(seq![a.first()], a.drop_first());
        assert(m.to_multiset() =~= a.to_multiset().add(b.to_multiset()));
    } else {
        lemma_interleave_multiset(a, b.drop_first(), pick_first.drop_first());
        vstd::seq_lib::lemma_multiset_commutative(
            seq![b.first()],
            interleave(a, b.drop_first(), pick_first.drop_first()),
        );
        assert(seq![b.first()] + b.drop_first() =~= b);
        vstd::seq_lib::lemma_multiset_commutative(seq![b.first()], b.drop_first());
        assert(m.to_multiset() =~= a.to_multiset().add(b.to_multiset()));
    }
}

/// Law: two runs over the same stable tree deliver the same match multiset,
/// whatever interleaving order each run's channel happened to produce.
pub proof fn lemma_rescan_same_matches<A>(a: Seq<A>, b: Seq<A>, first_run: Seq<bool>, second_run: Seq<bool>)
    ensures
        interleave(a, b, first_run).to_multiset() == interleave(a, b, second_run).to_multiset(),
{
    lemma_interleave_multiset(a, b, first_run);
    lemma_interleave_multiset(a, b, second_run);
}

/// Whether every root's tree is well-formed, from root index `i` on.
pub open spec fn roots_wf(roots: Seq<ScanRoot>, i: int) -> bool
    decreases roots.len() - i,
{
    0 <= i < roots.len() ==> tree_wf(roots[i].tree) && roots_wf(roots, i + 1)
}

proof fn lemma_roots_wf_at(roots: Seq<ScanRoot>, i: int, j: int)
    requires
        0 <= i <= j < roots.len(),
        roots_wf(roots, i),
    ensures
        tree_wf(roots[j].tree),
    decreases j - i,
{
    if i < j {
        lemma_roots_wf_at(roots, i + 1, j);
    }
}

/// Law: a whole scan over well-formed trees at pairwise-distinct root paths
/// reports a path exactly when some root holds an oversized file there, and
/// reports every such path exactly once, whichever root it came from.
pub proof fn lemma_forest_scan_exact(roots: Seq<ScanRoot>, i: int, threshold: u64)
    requires
        0 <= i,
        roots_wf(roots, i),
        forall|a: int, b: int| 0 <= a < b < roots.len() ==> roots[a].path@ != roots[b].path@,
    ensures
        forall|p: Seq<Seq<char>>|
            #[trigger] spec_forest_matches(roots, i, threshold).contains(p) <==> (exists|j: int|
                i <= j < roots.len() && #[trigger] spec_matches(
                    roots[j].tree,
                    seq![roots[j].path@],
                    threshold,
                ).contains(p)),
        spec_forest_matches(roots, i, threshold).no_duplicates(),
    decreases roots.len() - i,
{
    let ms = spec_forest_matches(roots, i, threshold);
    if i < roots.len() {
        let head = spec_matches(roots[i].tree, seq![roots[i].path@], threshold);
        let rest = spec_forest_matches(roots, i + 1, threshold);
        assert(ms == head + rest);
        lemma_forest_scan_exact(roots, i + 1, threshold);
        lemma_scan_exact(roots[i].tree, seq![roots[i].path@], threshold);

        assert forall|p: Seq<Seq<char>>| #[trigger] ms.contains(p) <==> (exists|j: int|
            i <= j < roots.len() && #[trigger] spec_matches(
                roots[j].tree,
                seq![roots[j].path@],
                threshold,
            ).contains(p)) by {
            lemma_concat_contains(head, rest, p);
            if head.contains(p) {
                assert(i <= i < roots.len() && spec_matches(
                    roots[i].tree,
                    seq![roots[i].path@],
                    threshold,
                ).contains(p));
            }
            if rest.contains(p) {
                let j = choose|j: int|
                    i + 1 <= j < roots.len() && #[trigger] spec_matches(
                        roots[j].tree,
                        seq![roots[j].path@],
                        threshold,
                    ).contains(p);
                assert(i <= j < roots.len() && spec_matches(
                    roots[j].tree,
                    seq![roots[j].path@],
                    threshold,
                ).contains(p));
            }
            if exists|j: int|
                i <= j < roots.len() && #[trigger] spec_matches(
                    roots[j].tree,
                    seq![roots[j].path@],
                    threshold,
                ).contains(p) {
                let j = choose|j: int|
                    i <= j < roots.len() && #[trigger] spec_matches(
                        roots[j].tree,
                        seq![roots[j].path@],
                        threshold,
                    ).contains(p);
                if j == i {
                    assert(head.contains(p));
                } else {
                    assert(rest.contains(p));
                }
            }
        }

        assert(ms.no_duplicates()) by {
            assert forall|x: Seq<Seq<char>>| head.contains(x) implies !rest.contains(x) by {
                if rest.contains(x) {
                    assert(x.take(1) == seq![roots[i].path@]);
                    let j = choose|j: int|
                        i + 1 <= j < roots.len() && #[trigger] spec_matches(
                            roots[j].tree,
                            seq![roots[j].path@],
                            threshold,
                        ).contains(x);
                    lemma_roots_wf_at(roots, i + 1, j);
                    lemma_scan_exact(roots[j].tree, seq![roots[j].path@], threshold);
                    assert(x.take(1) == seq![roots[j].path@]);
                    assert(roots[i].path@ == x.take(1)[0]);
                    assert(roots[j].path@ == x.take(1)[0]);
                    assert(false);
                }
            }
            lemma_concat_no_dup(head, rest);
        }
    } else {
        assert(ms.len() == 0);
        assert forall|p: Seq<Seq<char>>| #[trigger] ms.contains(p) <==> (exists|j: int|
            i <= j < roots.len() && #[trigger] spec_matches(
                roots[j].tree,
                seq![roots[j].path@],
                threshold,
            ).contains(p)) by {
            assert(!ms.contains(p));
        }
    }
}

/// Law: a two-root scan delivered in any channel interleaving carries exactly
/// the multiset — hence exactly the set — of the canonical root-by-root scan:
/// element order may vary across runs, the matches themselves never do.
pub proof fn lemma_scan_interleaving_complete(
    first: ScanRoot,
    second: ScanRoot,
    schedule: Seq<bool>,
    threshold: u64,
)
    ensures
        interleave(
            spec_matches(first.tree, seq![first.path@], threshold),
            spec_matches(second.tree, seq![second.path@], threshold),
            schedule,
        ).to_multiset() == spec_forest_matches(seq![first, second], 0, threshold).to_multiset(),
{
    let a = spec_matches(first.tree, seq![first.path@], threshold);
    let b = spec_matches(second.tree, seq![second.path@], threshold);
    lemma_interleave_multiset(a, b, schedule);
    let roots = seq![first, second];
    assert(spec_forest_matches(roots, 2, threshold) =~= Seq::<Seq<Seq<char>>>::empty());
    assert(spec_forest_matches(roots, 1, threshold) =~= b);
    assert(spec_forest_matches(roots, 0, threshold) =~= a + b);
    vstd::seq_lib::lemma_multiset_commutative(a, b);
}

pub(crate) proof fn lemma_concat_contains<A>(a: Seq<A>, b: Seq<A>, x: A)
    ensures
        (a + b).contains(x) <==> a.contains(x) || b.contains(x),
{
    if (a + b).contains(x) {
        let k = choose|k: int| 0 <= k < (a + b).len() && (a + b)[k] == x;
        if k < a.len() {
            assert(a[k] == x);
            assert(a.contains(x));
        } else {
            assert(b[k - a.len()] == x);
            assert(b.contains(x));
        }
    }
    if a.contains(x) {
        let k = choose|k: int| 0 <= k < a.len() && a[k] == x;
        assert((a + b)[k] == x);
        assert((a + b).contains(x));
    }
    if b.contains(x) {
        let k = choose|k: int| 0 <= k < b.len() && b[k] == x;
        assert((a + b)[a.len() + k] == x);
        assert((a + b).contains(x));
    }
}

proof fn lemma_concat_no_dup<A>(a: Seq<A>, b: Seq<A>)
    requires
        a.no_duplicates(),
        b.no_duplicates(),
        forall|x: A| a.contains(x) ==> !b.contains(x),
    ensures
        (a + b).no_duplicates(),
{
    let c = a + b;
    assert forall|i: int, j: int|
        0 <= i < c.len() && 0 <= j < c.len() && i != j implies c[i] != c[j] by {
        if i < a.len() && j < a.len() {
            assert(c[i] == a[i]);
            assert(c[j] == a[j]);
        } else if i >= a.len() && j >= a.len() {
            assert(c[i] == b[i - a.len()]);
            assert(c[j] == b[j - a.len()]);
        } else if c[i] == c[j] {
            let ai = if i < a.len() { i } else { j };
            let bj = if i < a.len() { j } else { i };
            assert(c[ai] == a[ai]);
            assert(c[bj] == b[bj - a.len()]);
            assert(a.contains(a[ai]));
            assert(b.contains(b[bj - a.len()]));
            assert(false);
        }
    }
}

proof fn lemma_oversized_in_name(entries: Seq<DirEntry>, i: int, rel: Seq<Seq<char>>, threshold: u64)
    requires
        oversized_in(entries, i, rel, threshold),
    ensures
        exists|j: int| i <= j < entries.len() && entries[j].name@ == rel[0],
    decreases entries.len() - i,
{
    if entries[i].name@ == rel[0] && oversized_at(entries[i].node, rel.drop_first(), threshold) {
        assert(i <= i < entries.len() && entries[i].name@ == rel[0]);
    } else {
        lemma_oversized_in_name(entries, i + 1, rel, threshold);
        let j = choose|j: int| i + 1 <= j < entries.len() && entries[j].name@ == rel[0];
        assert(i <= j < entries.len() && entries[j].name@ == rel[0]);
    }
}

/// Law: over a well-formed tree (distinct entry names in every directory), a
/// scan reports exactly the regular files whose size strictly exceeds the
/// threshold — each exactly once; a directory never appears, nor a file at or
/// below the threshold.
pub proof fn lemma_scan_exact(node: FsTree, prefix: Seq<Seq<char>>, threshold: u64)
    requires
        tree_wf(node),
    ensures
        forall|p: Seq<Seq<char>>|
            #[trigger] spec_matches(node, prefix, threshold).contains(p) <==> (p.len()
                >= prefix.len() && p.take(prefix.len() as int) == prefix && oversized_at(
                node,
                p.skip(prefix.len() as int),
                threshold,
            )),
        spec_matches(node, prefix, threshold).no_duplicates(),
    decreases node, 0int,
{
    let ms = spec_matches(node, prefix, threshold);
    let n = prefix.len() as int;
    match node {
        FsTree::File { size } => {
            if size > threshold {
                assert(ms == seq![prefix]);
                assert forall|p: Seq<Seq<char>>| #[trigger] ms.contains(p) <==> (p.len()
                    >= prefix.len() && p.take(n) == prefix && oversized_at(
                    node,
                    p.skip(n),
                    threshold,
                )) by {
                    if ms.contains(p) {
                        let k = choose|k: int| 0 <= k < ms.len() && ms[k] == p;
                        assert(k == 0);
                        assert(p == prefix);
                        assert(p.take(n) =~= prefix);
                        assert(p.skip(n) =~= Seq::<Seq<char>>::empty());
                    }
                    if p.len() >= prefix.len() && p.take(n) == prefix && oversized_at(
                        node,
                        p.skip(n),
                        threshold,
                    ) {
                        assert(p.skip(n).len() == 0);
                        assert(p =~= p.take(n));
                        assert(ms[0] == p);
                        assert(ms.contains(p));
                    }
                }
            } else {
                assert(ms.len() == 0);
                assert forall|p: Seq<Seq<char>>| #[trigger] ms.contains(p) <==> (p.len()
                    >= prefix.len() && p.take(n) == prefix && oversized_at(
                    node,
                    p.skip(n),
                    threshold,
                )) by {
                    assert(!ms.contains(p));
                    assert(!oversized_at(node, p.skip(n), threshold));
                }
            }
        },
        FsTree::Dir { entries } => {
            lemma_scan_from_exact(entries@, 0, prefix, threshold);
            assert forall|p: Seq<Seq<char>>| #[trigger] ms.contains(p) <==> (p.len()
                >= prefix.len() && p.take(n) == prefix && oversized_at(
                node,
                p.skip(n),
                threshold,
            )) by {
                assert(ms == spec_matches_from(entries@, 0, prefix, threshold));
                if ms.contains(p) {
                    assert(p.len() > prefix.len());
                    assert(p.skip(n).len() > 0);
                }
                if p.len() >= prefix.len() && p.take(n) == prefix && oversized_at(
                    node,
                    p.skip(n),
                    threshold,
                ) {
                    assert(p.skip(n).len() > 0);
                    assert(p.len() > prefix.len());
                }
            }
        },
    }
}

/// The membership characterization and uniqueness for the tail of one
/// directory's entry list, from index `i` on.
pub proof fn lemma_scan_from_exact(
    entries: Seq<DirEntry>,
    i: int,
    prefix: Seq<Seq<char>>,
    threshold: u64,
)
    requires
        0 <= i,
        forall|a: int, b: int| 0 <= a < b < entries.len() ==> entries[a].name@ != entries[b].name@,
        entries_wf(entries, i),
    ensures
        forall|p: Seq<Seq<char>>|
            #[trigger] spec_matches_from(entries, i, prefix, threshold).contains(p) <==> (p.len()
                > prefix.len() && p.take(prefix.len() as int) == prefix && oversized_in(
                entries,
                i,
                p.skip(prefix.len() as int),
                threshold,
            )),
        spec_matches_from(entries, i, prefix, threshold).no_duplicates(),
    decreases entries, entries.len() - i,
{
    let n = prefix.len() as int;
    let ms = spec_matches_from(entries, i, prefix, threshold);
    if i < entries.len() {
        let name = entries[i].name@;
        let child_prefix = prefix.push(name);
        let child = spec_matches(entries[i].node, child_prefix, threshold);
        let rest = spec_matches_from(entries, i + 1, prefix, threshold);
        assert(ms == child + rest);
        assert(tree_wf(entries[i].node));
        assert(entries_wf(entries, i + 1));
        lemma_scan_exact(entries[i].node, child_prefix, threshold);
        lemma_scan_from_exact(entries, i + 1, prefix, threshold);

        assert forall|p: Seq<Seq<char>>| #[trigger] ms.contains(p) <==> (p.len() > prefix.len()
            && p.take(n) == prefix && oversized_in(entries, i, p.skip(n), threshold)) by {
            lemma_concat_contains(child, rest, p);
            if child.contains(p) {
                assert(p.len() >= child_prefix.len());
                assert(p.take(n + 1) == child_prefix);
                assert(p.take(n) =~= prefix) by {
                    assert forall|k: int| 0 <= k < n implies p.take(n)[k] == prefix[k] by {
                        assert(p.take(n)[k] == p[k]);
                        assert(p.take(n + 1)[k] == p[k]);
                        assert(child_prefix[k] == prefix[k]);
                    }
                }
                let rel = p.skip(n);
                assert(p[n] == name) by {
                    assert(p.take(n + 1)[n] == p[n]);
                    assert(child_prefix[n] == name);
                }
                assert(rel[0] == p[n]);
                assert(rel.drop_first() =~= p.skip(n + 1));
                assert(oversized_at(entries[i].node, rel.drop_first(), threshold));
                assert(oversized_in(entries, i, rel, threshold));
                assert(p.len() > prefix.len());
            }
            if rest.contains(p) {
                let rel = p.skip(n);
                assert(oversized_in(entries, i + 1, rel, threshold));
                assert(rel.len() > 0);
                assert(oversized_in(entries, i, rel, threshold));
            }
            if p.len() > prefix.len() && p.take(n) == prefix && oversized_in(
                entries,
                i,
                p.skip(n),
                threshold,
            ) {
                let rel = p.skip(n);
                if entries[i].name@ == rel[0] && oversized_at(
                    entries[i].node,
                    rel.drop_first(),
                    threshold,
                ) {
                    assert(p.take(n + 1) =~= child_prefix) by {
                        assert forall|k: int| 0 <= k < n + 1 implies p.take(n + 1)[k]
                            == child_prefix[k] by {
                            assert(p.take(n + 1)[k] == p[k]);
                            if k < n {
                                assert(p.take(n)[k] == p[k]);
                                assert(child_prefix[k] == prefix[k]);
                            } else {
                                assert(rel[0] == p[n]);
                                assert(child_prefix[n] == name);
                            }
                        }
                    }
                    assert(rel.drop_first() =~= p.skip(n + 1));
                    assert(oversized_at(entries[i].node, p.skip(n + 1), threshold));
                    assert(child.contains(p));
                } else {
                    assert(oversized_in(entries, i + 1, rel, threshold));
                    assert(rest.contains(p));
                }
                assert(ms.contains(p));
            }
        }

        assert(ms.no_duplicates()) by {
            assert forall|x: Seq<Seq<char>>| child.contains(x) implies !rest.contains(x) by {
                if rest.contains(x) {
                    assert(x.take(n + 1) == child_prefix);
                    assert(x[n] == name) by {
                        assert(x.take(n + 1)[n] == x[n]);
                        assert(child_prefix[n] == name);
                    }
                    let rel = x.skip(n);
                    assert(rel[0] == x[n]);
                    assert(oversized_in(entries, i + 1, rel, threshold));
                    lemma_oversized_in_name(entries, i + 1, rel, threshold);
                    let j = choose|j: int|
                        i + 1 <= j < entries.len() && entries[j].name@ == rel[0];
                    assert(entries[i].name@ != entries[j].name@);
                    assert(false);
                }
            }
            lemma_concat_no_dup(child, rest);
        }
    } else {
        assert(ms.len() == 0);
        assert forall|p: Seq<Seq<char>>| #[trigger] ms.contains(p) <==> (p.len() > prefix.len()
            && p.take(n) == prefix && oversized_in(entries, i, p.skip(n), threshold)) by {
            assert(!ms.contains(p));
            assert(!oversized_in(entries, i, p.skip(n), threshold));
        }
    }
}

} // verus!
