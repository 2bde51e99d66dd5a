//! An in-memory model of a directory tree, the set of paths a search over it
//! must return, and the lemmas that tie every such path to a matching final
//! component inside the searched subtree.

use vstd::prelude::*;
use vstd::string::StringExecFns;

use crate::matching::name_matches;

verus! {

/// One entry of a directory listing: its name and what it is.
pub struct FsEntry {
    pub name: String,
    pub node: FsNode,
}

/// A node of the directory tree.  A `DeniedDir` is a directory whose listing
/// fails (permission denied, deleted underneath the search, and the like):
/// the search skips it silently.
pub enum FsNode {
    File,
    Dir { entries: Vec<FsEntry> },
    DeniedDir,
}

/// The full path of an entry named `name` inside the directory at `dir`.
pub open spec fn join_path(dir: Seq<char>, name: Seq<char>) -> Seq<char> {
    dir + seq!['/'] + name
}

/// Builds the full path of an entry, as `join_path` describes it.
pub fn join_str(dir: &str, name: &str) -> (r: String)
    ensures
        r@ == join_path(dir@, name@),
{
    let mut r: String = dir.to_owned();
    r.append("/");
    r.append(name);
    proof {
        reveal_strlit("/");
        assert(r@ =~= join_path(dir@, name@));
    }
    r
}

/// The set of full paths that a search of the subtree `node`, mounted at the
/// directory path `dir`, returns for `pattern`: every entry anywhere below
/// `dir` whose name matches.  A file has no entries, and a denied directory
/// hides its entries from the search.
pub open spec fn match_set(dir: Seq<char>, node: FsNode, pattern: Seq<char>) -> Set<Seq<char>>
    decreases node,
{
    match node {
        FsNode::Dir { entries } => entries_match_set(dir, entries@, pattern),
        _ => Set::empty(),
    }
}

/// The matches contributed by one listed entry: its own path when its name
/// matches, and everything matching below it.
pub open spec fn entry_match_set(dir: Seq<char>, e: FsEntry, pattern: Seq<char>) -> Set<Seq<char>>
    decreases e,
{
    (if name_matches(e.name@, pattern) {
        set![join_path(dir, e.name@)]
    } else {
        Set::empty()
    }) + match_set(join_path(dir, e.name@), e.node, pattern)
}

/// The matches contributed by a listing, entry by entry.
pub open spec fn entries_match_set(
    dir: Seq<char>,
    entries: Seq<FsEntry>,
    pattern: Seq<char>,
) -> Set<Seq<char>>
    decreases entries,
{
    if entries.len() == 0 {
        Set::empty()
    } else {
        entries_match_set(dir, entries.subrange(0, entries.len() - 1), pattern) + entry_match_set(
            dir,
            entries[entries.len() - 1],
            pattern,
        )
    }
}

/// Every entry path of the subtree `node` mounted at `dir`, matching or not:
/// what a search whose pattern matches every name returns.  A denied
/// directory hides its entries here exactly as it does from the search.
pub open spec fn all_paths(dir: Seq<char>, node: FsNode) -> Set<Seq<char>>
    decreases node,
{
    match node {
        FsNode::Dir { entries } => entries_all_paths(dir, entries@),
        _ => Set::empty(),
    }
}

/// The paths contributed by one listed entry: its own path and everything
/// below it.
pub open spec fn entry_all_paths(dir: Seq<char>, e: FsEntry) -> Set<Seq<char>>
    decreases e,
{
    set![join_path(dir, e.name@)] + all_paths(join_path(dir, e.name@), e.node)
}

pub open spec fn entries_all_paths(dir: Seq<char>, entries: Seq<FsEntry>) -> Set<Seq<char>>
    decreases entries,
{
    if entries.len() == 0 {
        Set::empty()
    } else {
        entries_all_paths(dir, entries.subrange(0, entries.len() - 1)) + entry_all_paths(
            dir,
            entries[entries.len() - 1],
        )
    }
}

/// The number of nodes of a subtree; the termination measure of the search.
pub open spec fn node_size(node: FsNode) -> nat
    decreases node,
{
    match node {
        FsNode::Dir { entries } => 1 + entries_size(entries@),
        _ => 1,
    }
}

pub open spec fn entries_size(entries: Seq<FsEntry>) -> nat
    decreases entries,
{
    if entries.len() == 0 {
        0
    } else {
        entries_size(entries.subrange(0, entries.len() - 1)) + node_size(
            entries[entries.len() - 1].node,
        )
    }
}

pub proof fn lemma_node_size_pos(node: FsNode)
    ensures
        node_size(node) >= 1,
{
}

/// A usable entry name: nonempty and free of the path separator.
pub open spec fn valid_name(name: Seq<char>) -> bool {
    name.len() > 0 && forall|i: int| 0 <= i < name.len() ==> name[i] != '/'
}

/// A well-formed tree: every entry name anywhere in it is a valid name.
pub open spec fn wf_node(node: FsNode) -> bool
    decreases node,
{
    match node {
        FsNode::Dir { entries } => wf_entries(entries@),
        _ => true,
    }
}

pub open spec fn wf_entries(entries: Seq<FsEntry>) -> bool
    decreases entries,
{
    if entries.len() == 0 {
        true
    } else {
        wf_entries(entries.subrange(0, entries.len() - 1)) && valid_name(
            entries[entries.len() - 1].name@,
        ) && wf_node(entries[entries.len() - 1].node)
    }
}

/// The part of a path after its last separator; the whole path when it holds
/// no separator.
pub open spec fn final_component(p: Seq<char>) -> Seq<char>
    decreases p.len(),
{
    if p.len() == 0 {
        p
    } else if p[p.len() - 1] == '/' {
        Seq::empty()
    } else {
        final_component(p.subrange(0, p.len() - 1)).push(p[p.len() - 1])
    }
}

/// Joining a separator-free name onto a directory path leaves exactly that
/// name as the final component.
pub proof fn lemma_final_component_of_join(dir: Seq<char>, name: Seq<char>)
    requires
        forall|i: int| 0 <= i < name.len() ==> name[i] != '/',
    ensures
        final_component(join_path(dir, name)) == name,
    decreases name.len(),
{
    let p = join_path(dir, name);
    if name.len() == 0 {
        assert(p =~= dir + seq!['/']);
        assert(p[p.len() - 1] == '/');
        assert(final_component(p) =~= name);
    } else {
        let shorter = name.subrange(0, name.len() - 1);
        lemma_final_component_of_join(dir, shorter);
        assert(p.subrange(0, p.len() - 1) =~= join_path(dir, shorter));
        assert(p[p.len() - 1] == name[name.len() - 1]);
        assert(final_component(p) =~= name);
    }
}

/// `prefix` is an initial segment of `p`.
pub open spec fn starts_with(p: Seq<char>, prefix: Seq<char>) -> bool {
    prefix.len() <= p.len() && p.subrange(0, prefix.len() as int) == prefix
}

pub proof fn lemma_starts_with_trans(p: Seq<char>, a: Seq<char>, b: Seq<char>)
    requires
        starts_with(p, a),
        starts_with(a, b),
    ensures
        starts_with(p, b),
{
    assert(p.subrange(0, b.len() as int) =~= b) by {
        assert forall|i: int| 0 <= i < b.len() implies p[i] == b[i] by {
            assert(p.subrange(0, a.len() as int)[i] == p[i]);
            assert(a.subrange(0, b.len() as int)[i] == a[i]);
        }
    }
}

/// Every path a search returns lies within the subtree rooted at the searched
/// directory: the directory path, followed by a separator, starts it.
pub proof fn lemma_match_in_subtree(
    dir: Seq<char>,
    node: FsNode,
    pattern: Seq<char>,
    p: Seq<char>,
)
    requires
        match_set(dir, node, pattern).contains(p),
    ensures
        starts_with(p, dir + seq!['/']),
    decreases node,
{
    match node {
        FsNode::Dir { entries } => {
            lemma_entries_match_in_subtree(dir, entries@, pattern, p);
        },
        _ => {},
    }
}

proof fn lemma_entries_match_in_subtree(
    dir: Seq<char>,
    entries: Seq<FsEntry>,
    pattern: Seq<char>,
    p: Seq<char>,
)
    requires
        entries_match_set(dir, entries, pattern).contains(p),
    ensures
        starts_with(p, dir + seq!['/']),
    decreases entries,
{
    if entries.len() == 0 {
    } else {
        let rest = entries.subrange(0, entries.len() - 1);
        let e = entries[entries.len() - 1];
        if entries_match_set(dir, rest, pattern).contains(p) {
            lemma_entries_match_in_subtree(dir, rest, pattern, p);
        } else {
            let child = join_path(dir, e.name@);
            assert(entry_match_set(dir, e, pattern).contains(p));
            if name_matches(e.name@, pattern) && p == child {
                assert(p.subrange(0, dir.len() as int + 1) =~= dir + seq!['/']);
            } else {
                assert(match_set(child, e.node, pattern).contains(p));
                lemma_match_in_subtree(child, e.node, pattern, p);
                assert((child + seq!['/']).subrange(0, dir.len() as int + 1) =~= dir + seq!['/']);
                lemma_starts_with_trans(p, child + seq!['/'], dir + seq!['/']);
            }
        }
    }
}

/// Every path a search returns has a final component whose lower-cased form
/// contains the lower-cased pattern.
pub proof fn lemma_match_has_matching_name(
    dir: Seq<char>,
    node: FsNode,
    pattern: Seq<char>,
    p: Seq<char>,
)
    requires
        wf_node(node),
        match_set(dir, node, pattern).contains(p),
    ensures
        name_matches(final_component(p), pattern),
    decreases node,
{
    match node {
        FsNode::Dir { entries } => {
            lemma_entries_match_has_matching_name(dir, entries@, pattern, p);
        },
        _ => {},
    }
}

proof fn lemma_entries_match_has_matching_name(
    dir: Seq<char>,
    entries: Seq<FsEntry>,
    pattern: Seq<char>,
    p: Seq<char>,
)
    requires
        wf_entries(entries),
        entries_match_set(dir, entries, pattern).contains(p),
    ensures
        name_matches(final_component(p), pattern),
    decreases entries,
{
    if entries.len() == 0 {
    } else {
        let rest = entries.subrange(0, entries.len() - 1);
        let e = entries[entries.len() - 1];
        if entries_match_set(dir, rest, pattern).contains(p) {
            lemma_entries_match_has_matching_name(dir, rest, pattern, p);
        } else {
            let child = join_path(dir, e.name@);
            assert(entry_match_set(dir, e, pattern).contains(p));
            if name_matches(e.name@, pattern) && p == child {
                lemma_final_component_of_join(dir, e.name@);
            } else {
                assert(match_set(child, e.node, pattern).contains(p));
                lemma_match_has_matching_name(child, e.node, pattern, p);
            }
        }
    }
}

} // verus!
