//! The filesystem tree view: which walked entries are kept, what a
//! tree node holds, and how the flat list of nodes is nested into a
//! tree by path parenthood.
use vstd::prelude::*;
use vstd::string::StrSliceExecFns;
use vstd::string::StringExecFns;

use crate::security::risk_of;
use crate::security::assess_risk_level;
use crate::seqext::{lemma_filter_empty, lemma_filter_take_step};
use crate::strutil::{contains_seq, str_contains, str_eq};

verus! {

/// One node of the tree view.
#[derive(Debug)]
pub struct TreeNode {
    pub id: String,
    pub name: String,
    pub path: String,
    pub size: u64,
    pub is_directory: bool,
    pub last_modified: i64,
    pub last_accessed: i64,
    pub children: Option<Vec<TreeNode>>,
    pub expanded: bool,
    pub selected: bool,
    pub risk_level: String,
    pub ai_insight: Option<String>,
    pub usage_pattern: Option<String>,
}

/// Some filter pattern occurs in the name.
pub open spec fn any_pattern_matches(name: Seq<char>, patterns: Seq<String>) -> bool {
    exists|k: int| 0 <= k < patterns.len() && contains_seq(name, patterns[k]@)
}

/// Whether a walked entry belongs in the tree: hidden names only when
/// asked for, names must match a filter pattern when any is given, and
/// files below the size threshold are left out.
pub open spec fn tree_accepts(
    name: Seq<char>,
    is_directory: bool,
    size: u64,
    include_hidden: bool,
    size_threshold: u64,
    patterns: Seq<String>,
) -> bool {
    &&& (include_hidden || !(name.len() > 0 && name[0] == '.'))
    &&& (patterns.len() == 0 || any_pattern_matches(name, patterns))
    &&& (is_directory || size >= size_threshold)
}

/// Decide whether a walked entry belongs in the tree.
pub fn tree_entry_accepted(
    name: &str,
    is_directory: bool,
    size: u64,
    include_hidden: bool,
    size_threshold: u64,
    filter_patterns: &Vec<String>,
) -> (r: bool)
    ensures
        r == tree_accepts(
            name@,
            is_directory,
            size,
            include_hidden,
            size_threshold,
            filter_patterns@,
        ),
{
    if !include_hidden {
        let hidden = if name.unicode_len() == 0 {
            false
        } else {
            name.get_char(0) == '.'
        };
        if hidden {
            return false;
        }
    }
    if filter_patterns.len() > 0 {
        let mut found = false;
        let m = filter_patterns.len();
        let mut k: usize = 0;
        while k < m
            invariant
                m == filter_patterns@.len(),
                k <= m,
                found ==> any_pattern_matches(name@, filter_patterns@),
                !found ==> forall|q: int| 0 <= q < k ==> !contains_seq(name@, filter_patterns@[q]@),
            decreases m - k,
        {
            if !found && str_contains(name, filter_patterns[k].as_str()) {
                found = true;
            }
            k += 1;
        }
        if !found {
            return false;
        }
    }
    if !is_directory && size < size_threshold {
        return false;
    }
    true
}

/// What a freshly made tree node holds: identifier and path equal, no
/// children yet, interface state cleared, and the risk classification
/// of its path.
pub open spec fn fresh_node_matches(
    n: TreeNode,
    path: Seq<char>,
    name: Seq<char>,
    size: u64,
    is_directory: bool,
    last_modified: i64,
    last_accessed: i64,
) -> bool {
    &&& n.id@ == path
    &&& n.name@ == name
    &&& n.path@ == path
    &&& n.size == size
    &&& n.is_directory == is_directory
    &&& n.last_modified == last_modified
    &&& n.last_accessed == last_accessed
    &&& n.children is None
    &&& !n.expanded
    &&& !n.selected
    &&& n.risk_level@ == risk_of(path, is_directory)
    &&& n.ai_insight is None
    &&& n.usage_pattern is None
}

/// Make a tree node for a walked entry, with the risk classification
/// of its path.
pub fn make_tree_node(
    path: &str,
    name: &str,
    size: u64,
    is_directory: bool,
    last_modified: i64,
    last_accessed: i64,
) -> (n: TreeNode)
    ensures
        fresh_node_matches(n, path@, name@, size, is_directory, last_modified, last_accessed),
{
    TreeNode {
        id: String::from_str(path),
        name: String::from_str(name),
        path: String::from_str(path),
        size,
        is_directory,
        last_modified,
        last_accessed,
        children: None,
        expanded: false,
        selected: false,
        risk_level: assess_risk_level(path, is_directory),
        ai_insight: None,
        usage_pattern: None,
    }
}

/// The position of the last slash of a path, or -1 when it has none.
pub open spec fn last_slash(p: Seq<char>) -> int
    decreases p.len(),
{
    if p.len() == 0 {
        -1
    } else if p[p.len() - 1] == '/' {
        p.len() - 1
    } else {
        last_slash(p.drop_last())
    }
}

/// The last slash is a slash and nothing after it is one.
pub proof fn lemma_last_slash(p: Seq<char>)
    ensures
        last_slash(p) == -1 ==> forall|k: int| 0 <= k < p.len() ==> p[k] != '/',
        last_slash(p) != -1 ==> 0 <= last_slash(p) < p.len() && p[last_slash(p)] == '/' && (
        forall|k: int| last_slash(p) < k < p.len() ==> p[k] != '/'),
    decreases p.len(),
{
    if p.len() > 0 && p[p.len() - 1] != '/' {
        lemma_last_slash(p.drop_last());
        assert(forall|k: int| 0 <= k < p.len() - 1 ==> p[k] == p.drop_last()[k]);
    }
}

/// The parent of a clean path: everything before the last slash, the
/// root alone for a first-level entry, nothing for the root itself or
/// a path without slashes.
pub open spec fn parent_of(p: Seq<char>) -> Option<Seq<char>> {
    let i = last_slash(p);
    if i == -1 {
        None
    } else if i == 0 {
        if p.len() == 1 {
            None
        } else {
            Some(p.take(1))
        }
    } else {
        Some(p.take(i))
    }
}

/// A parent is strictly shorter than its path.
pub proof fn lemma_parent_shorter(p: Seq<char>)
    ensures
        parent_of(p) matches Some(q) ==> q.len() < p.len(),
{
    lemma_last_slash(p);
}

/// Compute the parent of a path.
pub fn parent_path(p: &str) -> (r: Option<String>)
    ensures
        match r {
            Some(q) => parent_of(p@) == Some(q@),
            None => parent_of(p@) is None,
        },
{
    proof {
        lemma_last_slash(p@);
    }
    let n = p.unicode_len();
    let mut i: usize = n;
    while i > 0 && p.get_char(i - 1) != '/'
        invariant
            n == p@.len(),
            i <= n,
            forall|k: int| i <= k < n ==> p@[k] != '/',
        decreases i,
    {
        i -= 1;
    }
    if i == 0 {
        assert(last_slash(p@) == -1) by {
            if last_slash(p@) != -1 {
                assert(p@[last_slash(p@)] == '/');
            }
        }
        return None;
    }
    assert(p@[i - 1] == '/');
    assert(last_slash(p@) == i - 1) by {
        if last_slash(p@) == -1 {
            assert(p@[i - 1] != '/');
        } else if last_slash(p@) < i - 1 {
            assert(p@[i - 1] != '/');
        } else if last_slash(p@) > i - 1 {
            assert(p@[last_slash(p@)] != '/');
        }
    }
    if i - 1 == 0 {
        if n == 1 {
            None
        } else {
            let root = String::from_str(p.substring_char(0, 1));
            assert(root@ =~= p@.take(1));
            Some(root)
        }
    } else {
        let q = String::from_str(p.substring_char(0, i - 1));
        assert(q@ =~= p@.take(i - 1));
        Some(q)
    }
}

/// The parent of a path, with the scan root standing in where there is
/// none.
pub open spec fn parent_or_root(p: Seq<char>, root: Seq<char>) -> Seq<char> {
    match parent_of(p) {
        Some(q) => q,
        None => root,
    }
}

/// A node that belongs at the top of the tree: its parent is the scan
/// root and it is not the root itself.
pub open spec fn top_pred(it: TreeNode, root: Seq<char>) -> bool {
    parent_or_root(it.path@, root) == root && it.path@ != root
}

/// A node that belongs under the node at `parent`.
pub open spec fn child_pred(it: TreeNode, parent: Seq<char>) -> bool {
    parent_of(it.path@) == Some(parent)
}

/// No two nodes of the flat list share a path.
pub open spec fn unique_paths(s: Seq<TreeNode>) -> bool {
    forall|i: int, j: int| 0 <= i < j < s.len() ==> s[i].path@ != s[j].path@
}

/// Every node of the flat list is still without children.
pub open spec fn all_children_none(s: Seq<TreeNode>) -> bool {
    forall|i: int| 0 <= i < s.len() ==> s[i].children is None
}

/// The longest path length among the nodes.
pub open spec fn max_path_len(s: Seq<TreeNode>) -> int
    decreases s.len(),
{
    if s.len() == 0 {
        0
    } else {
        let rest = max_path_len(s.drop_last());
        if s.last().path@.len() > rest {
            s.last().path@.len() as int
        } else {
            rest
        }
    }
}

/// Every node's path is at most the maximum.
pub proof fn lemma_max_path_len(s: Seq<TreeNode>, i: int)
    requires
        0 <= i < s.len(),
    ensures
        s[i].path@.len() <= max_path_len(s),
        max_path_len(s) >= 0,
    decreases s.len(),
{
    if i == s.len() - 1 {
        lemma_max_nonneg(s);
    } else {
        lemma_max_path_len(s.drop_last(), i);
    }
}

/// The maximum path length is non-negative.
proof fn lemma_max_nonneg(s: Seq<TreeNode>)
    ensures
        max_path_len(s) >= 0,
    decreases s.len(),
{
    if s.len() > 0 {
        lemma_max_nonneg(s.drop_last());
    }
}

/// What a built subtree holds, with a recursion budget: the node
/// carries its source's fields; its children are the nodes whose paths
/// name it as parent, in list order, each a built subtree in turn, or
/// nothing when it has none.
pub open spec fn tree_node_built(n: TreeNode, src: TreeNode, items: Seq<TreeNode>, fuel: int) -> bool
    decreases fuel,
{
    if fuel <= 0 {
        false
    } else {
        let kids = items.filter(|x: TreeNode| child_pred(x, src.path@));
        &&& n.id@ == src.id@
        &&& n.name@ == src.name@
        &&& n.path@ == src.path@
        &&& n.size == src.size
        &&& n.is_directory == src.is_directory
        &&& n.last_modified == src.last_modified
        &&& n.last_accessed == src.last_accessed
        &&& n.expanded == src.expanded
        &&& n.selected == src.selected
        &&& n.risk_level@ == src.risk_level@
        &&& n.ai_insight is None
        &&& n.usage_pattern is None
        &&& if kids.len() == 0 {
            n.children is None
        } else {
            n.children matches Some(v) && v@.len() == kids.len() && (forall|k: int|
                0 <= k < kids.len() ==> tree_node_built(#[trigger] v@[k], kids[k], items, fuel - 1))
        }
    }
}

/// A subtree built within a budget is built within any larger one.
pub proof fn lemma_tree_built_mono(
    n: TreeNode,
    src: TreeNode,
    items: Seq<TreeNode>,
    f: int,
    g: int,
)
    requires
        0 <= f <= g,
        tree_node_built(n, src, items, f),
    ensures
        tree_node_built(n, src, items, g),
    decreases f,
{
    let kids = items.filter(|x: TreeNode| child_pred(x, src.path@));
    if kids.len() > 0 {
        let v = n.children->Some_0;
        assert forall|k: int| 0 <= k < kids.len() implies tree_node_built(
            #[trigger] v@[k],
            kids[k],
            items,
            g - 1,
        ) by {
            assert(tree_node_built(v@[k], kids[k], items, f - 1));
            if f - 1 < 0 {
            } else {
                lemma_tree_built_mono(v@[k], kids[k], items, f - 1, g - 1);
            }
        }
    }
}

/// Collect the indices of the children of the node at `parent`.
fn child_indices(items: &Vec<TreeNode>, parent: &str) -> (idxs: Vec<usize>)
    ensures
        ({
            let kids = items@.filter(|x: TreeNode| child_pred(x, parent@));
            idxs@.len() == kids.len() && (forall|k: int|
                0 <= k < kids.len() ==> 0 <= #[trigger] idxs@[k] < items@.len() && items@[idxs@[k]
                    as int] == kids[k])
        }),
{
    let n = items.len();
    let mut idxs: Vec<usize> = Vec::new();
    let mut i: usize = 0;
    proof {
        lemma_filter_empty(|x: TreeNode| child_pred(x, parent@));
        assert(items@.take(0) =~= Seq::<TreeNode>::empty());
    }
    while i < n
        invariant
            n == items@.len(),
            i <= n,
            ({
                let kids = items@.take(i as int).filter(|x: TreeNode| child_pred(x, parent@));
                idxs@.len() == kids.len() && (forall|k: int|
                    0 <= k < kids.len() ==> 0 <= #[trigger] idxs@[k] < items@.len()
                        && items@[idxs@[k] as int] == kids[k])
            }),
        decreases n - i,
    {
        proof {
            lemma_filter_take_step(items@, |x: TreeNode| child_pred(x, parent@), i as int);
        }
        let is_child = match parent_path(items[i].path.as_str()) {
            Some(q) => str_eq(q.as_str(), parent),
            None => false,
        };
        if is_child {
            idxs.push(i);
        }
        i += 1;
    }
    proof {
        assert(items@.take(n as int) =~= items@);
    }
    idxs
}

/// Build the subtree rooted at the node at `idx`: the node with its
/// children nested below it, each child a subtree in turn.
pub fn build_tree_node_recursive(items: &Vec<TreeNode>, idx: usize) -> (n: TreeNode)
    requires
        idx < items@.len(),
        unique_paths(items@),
        all_children_none(items@),
    ensures
        tree_node_built(
            n,
            items@[idx as int],
            items@,
            max_path_len(items@) + 1 - items@[idx as int].path@.len(),
        ),
    decreases max_path_len(items@) + 1 - items@[idx as int].path@.len(),
{
    proof {
        lemma_max_path_len(items@, idx as int);
    }
    let src = &items[idx];
    let idxs = child_indices(items, src.path.as_str());
    let ghost kids = items@.filter(|x: TreeNode| child_pred(x, src.path@));
    let ghost fuel = max_path_len(items@) + 1 - items@[idx as int].path@.len();
    let mut children: Vec<TreeNode> = Vec::new();
    let m = idxs.len();
    let mut k: usize = 0;
    while k < m
        invariant
            idx < items@.len(),
            unique_paths(items@),
            all_children_none(items@),
            m == idxs@.len(),
            k <= m,
            kids == items@.filter(|x: TreeNode| child_pred(x, items@[idx as int].path@)),
            fuel == max_path_len(items@) + 1 - items@[idx as int].path@.len(),
            fuel >= 1,
            idxs@.len() == kids.len(),
            forall|q: int|
                0 <= q < kids.len() ==> 0 <= #[trigger] idxs@[q] < items@.len() && items@[idxs@[q]
                    as int] == kids[q],
            children@.len() == k,
            forall|q: int|
                0 <= q < k ==> tree_node_built(#[trigger] children@[q], kids[q], items@, fuel - 1),
        decreases m - k,
    {
        let ci = idxs[k];
        proof {
            s_lemma_child_longer(items@, idx as int, ci as int);
            lemma_max_path_len(items@, ci as int);
        }
        let child = build_tree_node_recursive(items, ci);
        proof {
            lemma_tree_built_mono(
                child,
                items@[ci as int],
                items@,
                max_path_len(items@) + 1 - items@[ci as int].path@.len(),
                fuel - 1,
            );
        }
        children.push(child);
        k += 1;
    }
    let children_opt: Option<Vec<TreeNode>> = if children.len() == 0 {
        None
    } else {
        Some(children)
    };
    TreeNode {
        id: src.id.clone(),
        name: src.name.clone(),
        path: src.path.clone(),
        size: src.size,
        is_directory: src.is_directory,
        last_modified: src.last_modified,
        last_accessed: src.last_accessed,
        children: children_opt,
        expanded: src.expanded,
        selected: src.selected,
        risk_level: src.risk_level.clone(),
        ai_insight: None,
        usage_pattern: None,
    }
}

/// A child's path is strictly longer than its parent node's.
proof fn s_lemma_child_longer(items: Seq<TreeNode>, parent: int, child: int)
    requires
        0 <= parent < items.len(),
        0 <= child < items.len(),
        child_pred(items[child], items[parent].path@),
    ensures
        items[child].path@.len() > items[parent].path@.len(),
{
    lemma_parent_shorter(items[child].path@);
}

/// Nest the flat list of nodes into a tree: one entry per node whose
/// parent is the scan root, in list order, each with its subtree
/// below it.
pub fn build_tree_structure(items: &Vec<TreeNode>, root_path: &str) -> (r: Vec<TreeNode>)
    requires
        unique_paths(items@),
        all_children_none(items@),
    ensures
        ({
            let tops = items@.filter(|x: TreeNode| top_pred(x, root_path@));
            r@.len() == tops.len() && (forall|j: int|
                0 <= j < tops.len() ==> tree_node_built(
                    #[trigger] r@[j],
                    tops[j],
                    items@,
                    max_path_len(items@) + 1,
                ))
        }),
{
    let n = items.len();
    let mut r: Vec<TreeNode> = Vec::new();
    let mut i: usize = 0;
    proof {
        lemma_filter_empty(|x: TreeNode| top_pred(x, root_path@));
        assert(items@.take(0) =~= Seq::<TreeNode>::empty());
    }
    while i < n
        invariant
            n == items@.len(),
            unique_paths(items@),
            all_children_none(items@),
            i <= n,
            ({
                let tops = items@.take(i as int).filter(|x: TreeNode| top_pred(x, root_path@));
                r@.len() == tops.len() && (forall|j: int|
                    0 <= j < tops.len() ==> tree_node_built(
                        #[trigger] r@[j],
                        tops[j],
                        items@,
                        max_path_len(items@) + 1,
                    ))
            }),
        decreases n - i,
    {
        proof {
            lemma_filter_take_step(items@, |x: TreeNode| top_pred(x, root_path@), i as int);
        }
        let parent = match parent_path(items[i].path.as_str()) {
            Some(q) => q,
            None => String::from_str(root_path),
        };
        let is_top = str_eq(parent.as_str(), root_path) && !str_eq(
            items[i].path.as_str(),
            root_path,
        );
        if is_top {
            proof {
                lemma_max_path_len(items@, i as int);
            }
            let node = build_tree_node_recursive(items, i);
            proof {
                lemma_tree_built_mono(
                    node,
                    items@[i as int],
                    items@,
                    max_path_len(items@) + 1 - items@[i as int].path@.len(),
                    max_path_len(items@) + 1,
                );
            }
            r.push(node);
        }
        i += 1;
    }
    proof {
        assert(items@.take(n as int) =~= items@);
    }
    r
}

} // verus!
