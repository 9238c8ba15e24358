use vstd::prelude::*;
use vstd::string::StrSliceExecFns;
use crate::fs_tree::Match;
use crate::scan::match_views;

verus! {

/// The index of the last '.' in a file name, or -1 where there is none.
pub open spec fn last_dot(name: Seq<char>) -> int
    decreases name.len(),
{
    if name.len() == 0 {
        -1
    } else if name.last() == '.' {
        name.len() - 1
    } else {
        last_dot(name.drop_last())
    }
}

/// The extension of a file name: the portion after the final '.', or nothing
/// where no '.' stands past the first character (a lone leading dot marks a
/// hidden file, not an extension).
pub open spec fn spec_extension(name: Seq<char>) -> Option<Seq<char>> {
    if last_dot(name) >= 1 {
        Some(name.skip(last_dot(name) + 1))
    } else {
        None
    }
}

/// Extracts the extension of one file name.
pub fn extension_of(name: &str) -> (r: Option<String>)
    ensures
        match r {
            Some(e) => spec_extension(name@) == Some(e@),
            None => spec_extension(name@) is None,
        },
{
    let n = name.unicode_len();
    let mut j: usize = n;
    proof {
        assert(name@.take(n as int) =~= name@);
    }
    while j > 0
        invariant
            j <= n,
            n == name@.len(),
            last_dot(name@) == last_dot(name@.take(j as int)),
        decreases j,
    {
        let c = name.get_char(j - 1);
        if c == '.' {
            proof {
                assert(name@.take(j as int).last() == name@[j as int - 1]);
                assert(last_dot(name@.take(j as int)) == j as int - 1);
            }
            if j >= 2 {
                let e = name.substring_char(j, n);
                let s = e.to_owned();
                proof {
                    assert(s@ =~= name@.skip(j as int));
                }
                return Some(s);
            } else {
                return None;
            }
        }
        proof {
            assert(name@.take(j as int).last() != '.');
            assert(name@.take(j as int).drop_last() =~= name@.take(j as int - 1));
        }
        j = j - 1;
    }
    proof {
        assert(name@.take(0) =~= Seq::<char>::empty());
    }
    None
}

/// The allow-list key of a match: the extension of its final path component,
/// or the empty string where it has none (exactly what the remover compares
/// against its configured list).
pub open spec fn spec_ext_key(path: Seq<Seq<char>>) -> Seq<char> {
    if path.len() == 0 {
        Seq::empty()
    } else {
        match spec_extension(path.last()) {
            Some(e) => e,
            None => Seq::empty(),
        }
    }
}

/// Whether the remover deletes a match: with no allow-list configured, every
/// match is deleted; with one, exactly the matches whose key is a member.
pub open spec fn spec_should_remove(path: Seq<Seq<char>>, allow: Option<Seq<Seq<char>>>) -> bool {
    match allow {
        None => true,
        Some(list) => list.contains(spec_ext_key(path)),
    }
}

/// The view of an optional extension allow-list.
pub open spec fn allow_view(allow: Option<Vec<String>>) -> Option<Seq<Seq<char>>> {
    match allow {
        None => None,
        Some(v) => Some(v@.map_values(|s: String| s@)),
    }
}

/// The allow-list key of one match.
pub fn ext_key(m: &Match) -> (r: String)
    ensures
        r@ == spec_ext_key(m@),
{
    if m.path.len() == 0 {
        proof {
            assert(m@.len() == 0);
        }
        String::new()
    } else {
        let name = &m.path[m.path.len() - 1];
        proof {
            assert(m@.last() == name@);
        }
        match extension_of(name.as_str()) {
            Some(e) => e,
            None => String::new(),
        }
    }
}

/// The remover's per-match decision against the configured allow-list.
pub fn should_remove(m: &Match, allow: &Option<Vec<String>>) -> (r: bool)
    ensures
        r == spec_should_remove(m@, allow_view(*allow)),
{
    match allow {
        Option::None => true,
        Option::Some(list) => {
            let key = ext_key(m);
            let mut k: usize = 0;
            let mut found = false;
            while k < list.len()
                invariant
                    k <= list@.len(),
                    key@ == spec_ext_key(m@),
                    found == exists|t: int| 0 <= t < k && list@[t]@ == key@,
                decreases list@.len() - k,
            {
                if list[k] == key {
                    found = true;
                    proof {
                        assert(list@[k as int]@ == key@);
                    }
                }
                k = k + 1;
            }
            proof {
                let mapped = list@.map_values(|s: String| s@);
                if found {
                    let t = choose|t: int| 0 <= t < list@.len() && list@[t]@ == key@;
                    assert(mapped[t] == key@);
                    assert(mapped.contains(spec_ext_key(m@)));
                } else {
                    if mapped.contains(spec_ext_key(m@)) {
                        let t = choose|t: int| 0 <= t < mapped.len() && mapped[t] == key@;
                        assert(list@[t]@ == key@);
                        assert(false);
                    }
                }
            }
            found
        },
    }
}

/// The remover's deletion plan for the matches drained from the channel, from
/// index `i` on: exactly the allowed matches, in stream order.
pub open spec fn spec_plan(
    paths: Seq<Seq<Seq<char>>>,
    i: int,
    allow: Option<Seq<Seq<char>>>,
) -> Seq<Seq<Seq<char>>>
    decreases paths.len() - i,
{
    if 0 <= i < paths.len() {
        if spec_should_remove(paths[i], allow) {
            seq![paths[i]] + spec_plan(paths, i + 1, allow)
        } else {
            spec_plan(paths, i + 1, allow)
        }
    } else {
        Seq::empty()
    }
}

/// Law: the remover's plan holds exactly the matched files that pass the
/// extension allow-list — it deletes nothing else, and every other matched
/// file is left alone.
pub proof fn lemma_plan_exact(paths: Seq<Seq<Seq<char>>>, i: int, allow: Option<Seq<Seq<char>>>)
    requires
        0 <= i,
    ensures
        forall|p: Seq<Seq<char>>|
            #[trigger] spec_plan(paths, i, allow).contains(p) ==> paths.contains(p)
                && spec_should_remove(p, allow),
        forall|k: int|
            i <= k < paths.len() && spec_should_remove(paths[k], allow) ==> spec_plan(
                paths,
                i,
                allow,
            ).contains(#[trigger] paths[k]),
    decreases paths.len() - i,
{
    if i < paths.len() {
        lemma_plan_exact(paths, i + 1, allow);
        let rest = spec_plan(paths, i + 1, allow);
        if spec_should_remove(paths[i], allow) {
            let plan = seq![paths[i]] + rest;
            assert forall|p: Seq<Seq<char>>| #[trigger] plan.contains(p) implies paths.contains(p)
                && spec_should_remove(p, allow) by {
                crate::scan::lemma_concat_contains(seq![paths[i]], rest, p);
                if seq![paths[i]].contains(p) {
                    assert(p == paths[i]);
                }
            }
            assert forall|k: int|
                i <= k < paths.len() && spec_should_remove(paths[k], allow) implies plan.contains(
                #[trigger] paths[k],
            ) by {
                if k == i {
                    assert(plan[0] == paths[i]);
                } else {
                    assert(rest.contains(paths[k]));
                    crate::scan::lemma_concat_contains(seq![paths[i]], rest, paths[k]);
                }
            }
        } else {
            assert forall|k: int|
                i <= k < paths.len() && spec_should_remove(paths[k], allow) implies spec_plan(
                paths,
                i,
                allow,
            ).contains(#[trigger] paths[k]) by {
                assert(k != i);
            }
        }
    }
}

/// Builds the remover's deletion plan for one drained match stream.
pub fn remover_plan(matches: &Vec<Match>, allow: &Option<Vec<String>>) -> (plan: Vec<Match>)
    ensures
        match_views(plan@) == spec_plan(match_views(matches@), 0, allow_view(*allow)),
{
    let ghost pviews = match_views(matches@);
    let ghost av = allow_view(*allow);
    let mut plan: Vec<Match> = Vec::new();
    proof {
        assert(match_views(plan@) + spec_plan(pviews, 0, av) =~= spec_plan(pviews, 0, av));
    }
    let mut i: usize = 0;
    while i < matches.len()
        invariant
            i <= matches@.len(),
            pviews == match_views(matches@),
            av == allow_view(*allow),
            match_views(plan@) + spec_plan(pviews, i as int, av) == spec_plan(pviews, 0, av),
        decreases matches@.len() - i,
    {
        let ghost plan_prev = plan@;
        if should_remove(&matches[i], allow) {
            let copy = Match { path: crate::fs_tree::clone_path(&matches[i].path) };
            proof {
                assert(copy@ =~= matches@[i as int]@);
                assert(pviews[i as int] == matches@[i as int]@);
            }
            plan.push(copy);
            proof {
                assert(match_views(plan@) + spec_plan(pviews, i + 1, av) =~= spec_plan(
                    pviews,
                    0,
                    av,
                )) by {
                    assert(match_views(plan@) =~= match_views(plan_prev).push(pviews[i as int]));
                    assert(spec_plan(pviews, i as int, av) == seq![pviews[i as int]] + spec_plan(
                        pviews,
                        i + 1,
                        av,
                    ));
                    assert(match_views(plan_prev).push(pviews[i as int]) + spec_plan(
                        pviews,
                        i + 1,
                        av,
                    ) =~= match_views(plan_prev) + spec_plan(pviews, i as int, av));
                }
            }
        } else {
            proof {
                assert(pviews[i as int] == matches@[i as int]@);
                assert(spec_plan(pviews, i as int, av) == spec_plan(pviews, i + 1, av));
            }
        }
        i = i + 1;
    }
    proof {
        assert(match_views(plan@) =~= spec_plan(pviews, 0, av));
    }
    plan
}

/// The outcome of one attempted deletion, as the I/O layer observes it.
#[derive(Clone, Copy)]
pub enum DeleteOutcome {
    Deleted,
    Failed,
}

/// How many deletions from index `i` on succeeded.
pub open spec fn count_deleted(outcomes: Seq<DeleteOutcome>, i: int) -> int
    decreases outcomes.len() - i,
{
    if 0 <= i < outcomes.len() {
        (if outcomes[i] is Deleted {
            1int
        } else {
            0int
        }) + count_deleted(outcomes, i + 1)
    } else {
        0
    }
}

/// A summary of one remover run.
pub struct RemovalReport {
    pub deleted: usize,
    pub failed: usize,
}

/// The remover's per-item skip-and-continue policy: every planned deletion is
/// attempted and accounted for exactly once — deleted, or logged as a
/// non-fatal failure — so one item's failure never stops the processing of
/// the matches after it.
pub fn apply_outcomes(outcomes: &Vec<DeleteOutcome>) -> (rep: RemovalReport)
    ensures
        rep.deleted == count_deleted(outcomes@, 0),
        rep.deleted + rep.failed == outcomes@.len(),
{
    let mut deleted: usize = 0;
    let mut failed: usize = 0;
    let mut i: usize = 0;
    while i < outcomes.len()
        invariant
            i <= outcomes@.len(),
            deleted + failed == i,
            deleted + count_deleted(outcomes@, i as int) == count_deleted(outcomes@, 0),
        decreases outcomes@.len() - i,
    {
        match outcomes[i] {
            DeleteOutcome::Deleted => {
                deleted = deleted + 1;
            },
            DeleteOutcome::Failed => {
                failed = failed + 1;
            },
        }
        i = i + 1;
    }
    RemovalReport { deleted, failed }
}

/// The reporter's surviving lines among the matches from index `i` on: each
/// match whose file still exists at consumption time, paired with its
/// re-read size.
pub open spec fn spec_survivors(
    paths: Seq<Seq<Seq<char>>>,
    sizes: Seq<Option<u64>>,
    i: int,
) -> Seq<(Seq<Seq<char>>, u64)>
    decreases paths.len() - i,
{
    if 0 <= i < paths.len() && paths.len() == sizes.len() {
        match sizes[i] {
            Some(s) => seq![(paths[i], s)] + spec_survivors(paths, sizes, i + 1),
            None => spec_survivors(paths, sizes, i + 1),
        }
    } else {
        Seq::empty()
    }
}

/// The reporter's output: one line per match whose file still exists when its
/// metadata is re-read (`sizes[k]` is that re-reading's result for match
/// `k`); a vanished file is skipped silently, never reported as an error. No
/// filesystem mutation.
pub fn reporter_survivors(matches: &Vec<Match>, sizes: &Vec<Option<u64>>) -> (out: Vec<
    (Match, u64),
>)
    requires
        matches@.len() == sizes@.len(),
    ensures
        out@.map_values(|t: (Match, u64)| (t.0@, t.1)) == spec_survivors(
            match_views(matches@),
            sizes@,
            0,
        ),
{
    let ghost pviews = match_views(matches@);
    let mut out: Vec<(Match, u64)> = Vec::new();
    proof {
        assert(out@.map_values(|t: (Match, u64)| (t.0@, t.1)) + spec_survivors(pviews, sizes@, 0)
            =~= spec_survivors(pviews, sizes@, 0));
    }
    let mut i: usize = 0;
    while i < matches.len()
        invariant
            i <= matches@.len(),
            matches@.len() == sizes@.len(),
            pviews == match_views(matches@),
            out@.map_values(|t: (Match, u64)| (t.0@, t.1)) + spec_survivors(
                pviews,
                sizes@,
                i as int,
            ) == spec_survivors(pviews, sizes@, 0),
        decreases matches@.len() - i,
    {
        let ghost out_prev = out@;
        match sizes[i] {
            Some(s) => {
                let copy = Match { path: crate::fs_tree::clone_path(&matches[i].path) };
                proof {
                    assert(copy@ =~= matches@[i as int]@);
                    assert(pviews[i as int] == matches@[i as int]@);
                }
                out.push((copy, s));
                proof {
                    assert(out@.map_values(|t: (Match, u64)| (t.0@, t.1)) + spec_survivors(
                        pviews,
                        sizes@,
                        i + 1,
                    ) =~= spec_survivors(pviews, sizes@, 0)) by {
                        assert(out@.map_values(|t: (Match, u64)| (t.0@, t.1)) =~= out_prev.map_values(
                            |t: (Match, u64)| (t.0@, t.1),
                        ).push((pviews[i as int], s)));
                        assert(spec_survivors(pviews, sizes@, i as int) == seq![
                            (pviews[i as int], s),
                        ] + spec_survivors(pviews, sizes@, i + 1));
                        assert(out_prev.map_values(|t: (Match, u64)| (t.0@, t.1)).push(
                            (pviews[i as int], s),
                        ) + spec_survivors(pviews, sizes@, i + 1) =~= out_prev.map_values(
                            |t: (Match, u64)| (t.0@, t.1),
                        ) + spec_survivors(pviews, sizes@, i as int));
                    }
                }
            },
            None => {
                proof {
                    assert(spec_survivors(pviews, sizes@, i as int) == spec_survivors(
                        pviews,
                        sizes@,
                        i + 1,
                    ));
                }
            },
        }
        i = i + 1;
    }
    proof {
        assert(out@.map_values(|t: (Match, u64)| (t.0@, t.1)) =~= spec_survivors(
            pviews,
            sizes@,
            0,
        ));
    }
    out
}

} // verus!
