//! The search itself: a frontier-driven traversal of a directory tree that
//! returns exactly the set of entry paths whose name matches the pattern.

use vstd::prelude::*;

use crate::frontier::Frontier;
use crate::matching::entry_matches;
use crate::matching::name_matches;
use crate::tree::all_paths;
use crate::tree::entries_all_paths;
use crate::tree::entries_match_set;
use crate::tree::entries_size;
use crate::tree::entry_all_paths;
use crate::tree::entry_match_set;
use crate::tree::final_component;
use crate::tree::join_path;
use crate::tree::join_str;
use crate::tree::lemma_match_has_matching_name;
use crate::tree::lemma_match_in_subtree;
use crate::tree::lemma_node_size_pos;
use crate::tree::match_set;
use crate::tree::node_size;
use crate::tree::starts_with;
use crate::tree::wf_node;
use crate::tree::FsEntry;
use crate::tree::FsNode;

verus! {

/// How many directories a worker takes from the frontier in one tick; sized
/// to amortize taking the frontier lock.
pub const DIRS_PER_TICK: usize = 24;

/// The kind of entry a search could one day be narrowed to.  The field that
/// carries it is part of the request shape but is not consulted by the
/// matching; it is reserved.
pub enum EntryKind {
    File,
    Directory,
    Symlink,
}

/// A search request: the root directory, the pattern to match entry names
/// against (case-insensitively, as a substring), and the reserved entry-kind
/// filter.  Immutable once the search starts.
pub struct SearchData {
    pub path: String,
    pub pattern: String,
    pub file_type: Option<EntryKind>,
}

/// A directory awaiting a scan: its full path and its subtree.
pub struct PendingDir {
    pub path: String,
    pub node: FsNode,
}

/// The matches that scanning everything still pending in `dirs` would produce.
pub open spec fn pending_sets(dirs: Seq<PendingDir>, pattern: Seq<char>) -> Set<Seq<char>>
    decreases dirs.len(),
{
    if dirs.len() == 0 {
        Set::empty()
    } else {
        pending_sets(dirs.subrange(0, dirs.len() - 1), pattern) + match_set(
            dirs[dirs.len() - 1].path@,
            dirs[dirs.len() - 1].node,
            pattern,
        )
    }
}

/// Every entry path that scanning what is pending in `dirs` would list,
/// matching or not.
pub open spec fn pending_all(dirs: Seq<PendingDir>) -> Set<Seq<char>>
    decreases dirs.len(),
{
    if dirs.len() == 0 {
        Set::empty()
    } else {
        pending_all(dirs.subrange(0, dirs.len() - 1)) + all_paths(
            dirs[dirs.len() - 1].path@,
            dirs[dirs.len() - 1].node,
        )
    }
}

/// The number of tree nodes still pending in `dirs`; the termination measure
/// of the search loop.
pub open spec fn pending_size(dirs: Seq<PendingDir>) -> nat
    decreases dirs.len(),
{
    if dirs.len() == 0 {
        0
    } else {
        pending_size(dirs.subrange(0, dirs.len() - 1)) + node_size(dirs[dirs.len() - 1].node)
    }
}

/// The set of path views held by a vector of found paths.
pub open spec fn path_set(paths: Seq<String>) -> Set<Seq<char>>
    decreases paths.len(),
{
    if paths.len() == 0 {
        Set::empty()
    } else {
        path_set(paths.subrange(0, paths.len() - 1)).insert(paths[paths.len() - 1]@)
    }
}

proof fn lemma_pending_sets_concat(a: Seq<PendingDir>, b: Seq<PendingDir>, pattern: Seq<char>)
    ensures
        pending_sets(a + b, pattern) == pending_sets(a, pattern) + pending_sets(b, pattern),
    decreases b.len(),
{
    if b.len() == 0 {
        assert(a + b =~= a);
        assert(pending_sets(a, pattern) + pending_sets(b, pattern) =~= pending_sets(a, pattern));
    } else {
        let b0 = b.subrange(0, b.len() - 1);
        lemma_pending_sets_concat(a, b0, pattern);
        assert((a + b).subrange(0, (a + b).len() - 1) =~= a + b0);
        assert((a + b)[(a + b).len() - 1] == b[b.len() - 1]);
        assert(pending_sets(a + b, pattern) =~= pending_sets(a, pattern) + pending_sets(
            b,
            pattern,
        ));
    }
}

proof fn lemma_pending_all_concat(a: Seq<PendingDir>, b: Seq<PendingDir>)
    ensures
        pending_all(a + b) == pending_all(a) + pending_all(b),
    decreases b.len(),
{
    if b.len() == 0 {
        assert(a + b =~= a);
        assert(pending_all(a) + pending_all(b) =~= pending_all(a));
    } else {
        let b0 = b.subrange(0, b.len() - 1);
        lemma_pending_all_concat(a, b0);
        assert((a + b).subrange(0, (a + b).len() - 1) =~= a + b0);
        assert((a + b)[(a + b).len() - 1] == b[b.len() - 1]);
        assert(pending_all(a + b) =~= pending_all(a) + pending_all(b));
    }
}

proof fn lemma_pending_size_concat(a: Seq<PendingDir>, b: Seq<PendingDir>)
    ensures
        pending_size(a + b) == pending_size(a) + pending_size(b),
    decreases b.len(),
{
    if b.len() == 0 {
        assert(a + b =~= a);
    } else {
        let b0 = b.subrange(0, b.len() - 1);
        lemma_pending_size_concat(a, b0);
        assert((a + b).subrange(0, (a + b).len() - 1) =~= a + b0);
        assert((a + b)[(a + b).len() - 1] == b[b.len() - 1]);
    }
}

proof fn lemma_pending_split(dirs: Seq<PendingDir>, at: int, pattern: Seq<char>)
    requires
        0 <= at <= dirs.len(),
    ensures
        pending_sets(dirs, pattern) == pending_sets(dirs.subrange(0, at), pattern) + pending_sets(
            dirs.subrange(at, dirs.len() as int),
            pattern,
        ),
        pending_size(dirs) == pending_size(dirs.subrange(0, at)) + pending_size(
            dirs.subrange(at, dirs.len() as int),
        ),
        pending_all(dirs) == pending_all(dirs.subrange(0, at)) + pending_all(
            dirs.subrange(at, dirs.len() as int),
        ),
{
    assert(dirs =~= dirs.subrange(0, at) + dirs.subrange(at, dirs.len() as int));
    lemma_pending_sets_concat(
        dirs.subrange(0, at),
        dirs.subrange(at, dirs.len() as int),
        pattern,
    );
    lemma_pending_size_concat(dirs.subrange(0, at), dirs.subrange(at, dirs.len() as int));
    lemma_pending_all_concat(dirs.subrange(0, at), dirs.subrange(at, dirs.len() as int));
}

proof fn lemma_pending_size_at_least_len(dirs: Seq<PendingDir>)
    ensures
        pending_size(dirs) >= dirs.len(),
    decreases dirs.len(),
{
    if dirs.len() > 0 {
        lemma_pending_size_at_least_len(dirs.subrange(0, dirs.len() - 1));
        lemma_node_size_pos(dirs[dirs.len() - 1].node);
    }
}

/// Searches the tree rooted at `search_data.path` for entries whose name
/// contains the pattern, case-insensitively.  The traversal works off a
/// shared-style frontier in bounded batches, exactly as the worker pool does;
/// the worker count never influences which paths come back, so the returned
/// set is pinned for any positive count.  Per-directory failures (a denied
/// directory) are absorbed: the directory is skipped, never reported.  An
/// empty pattern matches every name, so it returns every entry the tree
/// lists.
pub fn search(search_data: SearchData, tree: FsNode, thread_count: usize) -> (found: Vec<String>)
    requires
        thread_count >= 1,
    ensures
        path_set(found@) == match_set(search_data.path@, tree, search_data.pattern@),
        search_data.pattern@.len() == 0 ==> path_set(found@) == all_paths(
            search_data.path@,
            tree,
        ),
{
    let ghost total = match_set(search_data.path@, tree, search_data.pattern@);
    let ghost all_total = all_paths(search_data.path@, tree);
    let SearchData { path, pattern, file_type: _ } = search_data;
    let mut frontier: Frontier<PendingDir> = Frontier::with_seed(
        PendingDir { path, node: tree },
    );
    let mut found: Vec<String> = Vec::new();
    proof {
        assert(frontier@.subrange(0, 0) =~= Seq::<PendingDir>::empty());
        assert(pending_sets(frontier@.subrange(0, 0), pattern@) == Set::<Seq<char>>::empty());
        assert(pending_sets(frontier@, pattern@) == Set::<Seq<char>>::empty() + match_set(
            frontier@[0].path@,
            frontier@[0].node,
            pattern@,
        ));
        assert(match_set(frontier@[0].path@, frontier@[0].node, pattern@) == total);
        assert(path_set(found@) + pending_sets(frontier@, pattern@) =~= total);
        assert(pending_all(frontier@.subrange(0, 0)) == Set::<Seq<char>>::empty());
        assert(pending_all(frontier@) == Set::<Seq<char>>::empty() + all_paths(
            frontier@[0].path@,
            frontier@[0].node,
        ));
        assert(path_set(found@) + pending_all(frontier@) =~= all_total);
    }
    while !frontier.is_empty()
        invariant
            path_set(found@) + pending_sets(frontier@, pattern@) == total,
            pattern@.len() == 0 ==> path_set(found@) + pending_all(frontier@) == all_total,
        decreases pending_size(frontier@),
    {
        let ghost pre = frontier@;
        let mut batch = frontier.pop_batch(DIRS_PER_TICK);
        let ghost batch0 = batch@;
        let ghost mid = frontier@;
        proof {
            lemma_pending_split(pre, pre.len() - batch0.len(), pattern@);
            lemma_pending_size_at_least_len(batch0);
        }
        let ghost popped_size = pending_size(batch0);
        let mut discovered: Vec<PendingDir> = Vec::new();
        while batch.len() > 0
            invariant
                frontier@ == mid,
                path_set(found@) + pending_sets(frontier@, pattern@) + pending_sets(
                    discovered@,
                    pattern@,
                ) + pending_sets(batch@, pattern@) == total,
                pattern@.len() == 0 ==> path_set(found@) + pending_all(frontier@) + pending_all(
                    discovered@,
                ) + pending_all(batch@) == all_total,
                pending_size(discovered@) + pending_size(batch@) + batch0.len() - batch@.len()
                    <= popped_size,
                batch@.len() <= batch0.len(),
            decreases batch@.len(),
        {
            let ghost batch_pre = batch@;
            let pd = batch.pop().unwrap();
            let ghost pd0 = pd;
            proof {
                assert(batch@ =~= batch_pre.subrange(0, batch_pre.len() - 1));
            }
            let PendingDir { path: dir_path, node } = pd;
            match node {
                FsNode::Dir { entries } => {
                    let mut entries = entries;
                    let ghost entries0 = entries@;
                    let ghost batch_now = batch@;
                    let ghost disc0_size = pending_size(discovered@);
                    proof {
                        assert(match_set(pd0.path@, pd0.node, pattern@) == entries_match_set(
                            dir_path@,
                            entries0,
                            pattern@,
                        ));
                        assert(all_paths(pd0.path@, pd0.node) == entries_all_paths(
                            dir_path@,
                            entries0,
                        ));
                        assert(node_size(pd0.node) == 1 + entries_size(entries0));
                    }
                    while entries.len() > 0
                        invariant
                            frontier@ == mid,
                            batch@ == batch_now,
                            path_set(found@) + pending_sets(frontier@, pattern@) + pending_sets(
                                discovered@,
                                pattern@,
                            ) + pending_sets(batch@, pattern@) + entries_match_set(
                                dir_path@,
                                entries@,
                                pattern@,
                            ) == total,
                            pattern@.len() == 0 ==> path_set(found@) + pending_all(frontier@)
                                + pending_all(discovered@) + pending_all(batch@)
                                + entries_all_paths(dir_path@, entries@) == all_total,
                            pending_size(discovered@) + entries_size(entries@) <= disc0_size
                                + entries_size(entries0),
                        decreases entries@.len(),
                    {
                        let ghost entries_pre = entries@;
                        let e = entries.pop().unwrap();
                        let ghost e0 = e;
                        proof {
                            assert(entries@ =~= entries_pre.subrange(0, entries_pre.len() - 1));
                        }
                        let FsEntry { name, node: child } = e;
                        let ghost child0 = child;
                        let ghost found_pre = found@;
                        let ghost disc_pre = discovered@;
                        let ghost child_path = join_path(dir_path@, e0.name@);
                        proof {
                            assert(entries_match_set(dir_path@, entries_pre, pattern@)
                                == entries_match_set(dir_path@, entries@, pattern@)
                                + entry_match_set(dir_path@, e0, pattern@));
                            assert(entry_match_set(dir_path@, e0, pattern@) == (if name_matches(
                                e0.name@,
                                pattern@,
                            ) {
                                set![child_path]
                            } else {
                                Set::<Seq<char>>::empty()
                            }) + match_set(child_path, e0.node, pattern@));
                            assert(entries_all_paths(dir_path@, entries_pre) == entries_all_paths(
                                dir_path@,
                                entries@,
                            ) + entry_all_paths(dir_path@, e0));
                            assert(entry_all_paths(dir_path@, e0) == set![child_path] + all_paths(
                                child_path,
                                e0.node,
                            ));
                        }
                        let matched = entry_matches(name.as_str(), pattern.as_str());
                        let child_is_dir = matches!(
                            &child,
                            FsNode::Dir { .. } | FsNode::DeniedDir
                        );
                        if matched {
                            let full = join_str(dir_path.as_str(), name.as_str());
                            found.push(full);
                            proof {
                                assert(found@.subrange(0, found@.len() - 1) =~= found_pre);
                                assert(path_set(found@) == path_set(found_pre).insert(
                                    child_path,
                                ));
                            }
                        }
                        if child_is_dir {
                            let full = join_str(dir_path.as_str(), name.as_str());
                            discovered.push(PendingDir { path: full, node: child });
                            proof {
                                assert(discovered@.subrange(0, discovered@.len() - 1)
                                    =~= disc_pre);
                                assert(pending_sets(discovered@, pattern@) == pending_sets(
                                    disc_pre,
                                    pattern@,
                                ) + match_set(child_path, child0, pattern@));
                                assert(pending_all(discovered@) == pending_all(disc_pre)
                                    + all_paths(child_path, child0));
                            }
                        }
                        proof {
                            if !child_is_dir {
                                assert(match_set(child_path, e0.node, pattern@)
                                    =~= Set::<Seq<char>>::empty());
                                assert(all_paths(child_path, e0.node)
                                    =~= Set::<Seq<char>>::empty());
                            }
                            assert(path_set(found@) + pending_sets(frontier@, pattern@)
                                + pending_sets(discovered@, pattern@) + pending_sets(
                                batch@,
                                pattern@,
                            ) + entries_match_set(dir_path@, entries@, pattern@) =~= total);
                            if pattern@.len() == 0 {
                                assert(path_set(found@) + pending_all(frontier@) + pending_all(
                                    discovered@,
                                ) + pending_all(batch@) + entries_all_paths(dir_path@, entries@)
                                    =~= all_total);
                            }
                        }
                    }
                    proof {
                        assert(entries_match_set(dir_path@, entries@, pattern@)
                            =~= Set::<Seq<char>>::empty());
                        assert(entries_all_paths(dir_path@, entries@)
                            =~= Set::<Seq<char>>::empty());
                        assert(path_set(found@) + pending_sets(frontier@, pattern@)
                            + pending_sets(discovered@, pattern@) + pending_sets(batch@, pattern@)
                            =~= total);
                    }
                },
                FsNode::File => {
                    proof {
                        assert(match_set(pd0.path@, pd0.node, pattern@)
                            =~= Set::<Seq<char>>::empty());
                        assert(all_paths(pd0.path@, pd0.node) =~= Set::<Seq<char>>::empty());
                    }
                },
                FsNode::DeniedDir => {
                    proof {
                        assert(match_set(pd0.path@, pd0.node, pattern@)
                            =~= Set::<Seq<char>>::empty());
                        assert(all_paths(pd0.path@, pd0.node) =~= Set::<Seq<char>>::empty());
                    }
                },
            }
            proof {
                assert(path_set(found@) + pending_sets(frontier@, pattern@) + pending_sets(
                    discovered@,
                    pattern@,
                ) + pending_sets(batch@, pattern@) =~= total);
                if pattern@.len() == 0 {
                    assert(path_set(found@) + pending_all(frontier@) + pending_all(discovered@)
                        + pending_all(batch@) =~= all_total);
                }
            }
        }
        proof {
            assert(pending_sets(batch@, pattern@) =~= Set::<Seq<char>>::empty());
            assert(pending_all(batch@) =~= Set::<Seq<char>>::empty());
        }
        if discovered.len() > 0 {
            let ghost disc_final = discovered@;
            let ghost fr_pre = frontier@;
            frontier.push_many(discovered);
            proof {
                lemma_pending_sets_concat(fr_pre, disc_final, pattern@);
                lemma_pending_all_concat(fr_pre, disc_final);
                lemma_pending_size_concat(fr_pre, disc_final);
                assert(path_set(found@) + pending_sets(frontier@, pattern@) =~= total);
                if pattern@.len() == 0 {
                    assert(path_set(found@) + pending_all(frontier@) =~= all_total);
                }
            }
        } else {
            proof {
                assert(pending_sets(discovered@, pattern@) =~= Set::<Seq<char>>::empty());
                assert(pending_all(discovered@) =~= Set::<Seq<char>>::empty());
                assert(path_set(found@) + pending_sets(frontier@, pattern@) =~= total);
                if pattern@.len() == 0 {
                    assert(path_set(found@) + pending_all(frontier@) =~= all_total);
                }
            }
        }
    }
    proof {
        assert(pending_sets(frontier@, pattern@) =~= Set::<Seq<char>>::empty());
        assert(path_set(found@) =~= total);
        if pattern@.len() == 0 {
            assert(pending_all(frontier@) =~= Set::<Seq<char>>::empty());
            assert(path_set(found@) =~= all_total);
        }
    }
    found
}

/// Soundness of every returned path: over a well-formed tree, a path that a
/// search returns has a final component whose lower-cased form contains the
/// lower-cased pattern, and it lies within the subtree rooted at the
/// request's root path.
pub proof fn lemma_results_sound(
    search_data: SearchData,
    tree: FsNode,
    found: Seq<String>,
    p: Seq<char>,
)
    requires
        wf_node(tree),
        path_set(found) == match_set(search_data.path@, tree, search_data.pattern@),
        path_set(found).contains(p),
    ensures
        name_matches(final_component(p), search_data.pattern@),
        starts_with(p, search_data.path@ + seq!['/']),
{
    lemma_match_has_matching_name(search_data.path@, tree, search_data.pattern@, p);
    lemma_match_in_subtree(search_data.path@, tree, search_data.pattern@, p);
}

/// Idempotence: two searches with the same request over an unmodified tree
/// return the same set of paths, whatever order either run produced them in.
pub proof fn lemma_search_idempotent(
    search_data: SearchData,
    tree: FsNode,
    first: Seq<String>,
    second: Seq<String>,
)
    requires
        path_set(first) == match_set(search_data.path@, tree, search_data.pattern@),
        path_set(second) == match_set(search_data.path@, tree, search_data.pattern@),
    ensures
        path_set(first) == path_set(second),
{
}

/// The worker count is irrelevant to the outcome: the result sets of two
/// searches of the same request over an unmodified tree are equal for any two
/// positive worker counts.
pub proof fn lemma_worker_count_irrelevant(
    search_data: SearchData,
    tree: FsNode,
    count_a: usize,
    count_b: usize,
    first: Seq<String>,
    second: Seq<String>,
)
    requires
        count_a >= 1,
        count_b >= 1,
        path_set(first) == match_set(search_data.path@, tree, search_data.pattern@),
        path_set(second) == match_set(search_data.path@, tree, search_data.pattern@),
    ensures
        path_set(first) == path_set(second),
{
}

} // verus!
