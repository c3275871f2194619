//! What the flattening of a group tree visits: every group that can be
//! reached from the root, each exactly once, at any depth.

use vstd::prelude::*;
use crate::group::GroupView;
use crate::resolver::{descriptor, flatten, flatten_all};

verus! {

/// The group reached from `g` by going down along `path`, whose entries pick
/// a subgroup by its position, one level after the other. The empty path
/// reaches `g` itself; a path that leaves the tree reaches nothing.
pub open spec fn descend(g: GroupView, path: Seq<int>) -> Option<GroupView>
    decreases path.len(),
{
    if path.len() == 0 {
        Some(g)
    } else if 0 <= path[0] < g.sub_groups.len() {
        descend(g.sub_groups[path[0]], path.drop_first())
    } else {
        None
    }
}

/// The number of groups in the trees before the tree at position `i`.
pub open spec fn offset(gs: Seq<GroupView>, i: int) -> int {
    flatten_all(gs.take(i)).len() as int
}

/// Where the flattening of `g` puts the group that `path` reaches.
pub open spec fn position(g: GroupView, path: Seq<int>) -> int
    decreases path.len(),
{
    if path.len() == 0 {
        0
    } else {
        1 + offset(g.sub_groups, path[0]) + position(
            g.sub_groups[path[0]],
            path.drop_first(),
        )
    }
}

/// The group that `path` reaches in a list of trees: the first entry picks
/// the tree, the rest goes down in it.
pub open spec fn descend_from(gs: Seq<GroupView>, path: Seq<int>) -> Option<GroupView> {
    if path.len() > 0 && 0 <= path[0] < gs.len() {
        descend(gs[path[0]], path.drop_first())
    } else {
        None
    }
}

/// Where the flattening of a list of trees puts the group that `path`
/// reaches.
pub open spec fn position_from(gs: Seq<GroupView>, path: Seq<int>) -> int {
    offset(gs, path[0]) + position(gs[path[0]], path.drop_first())
}

/// The flattening of a list of trees holds the flattening of each tree as
/// one block, the blocks in the order of the trees.
pub proof fn lemma_block(gs: Seq<GroupView>, i: int)
    requires
        0 <= i < gs.len(),
    ensures
        0 <= offset(gs, i),
        offset(gs, i + 1) == offset(gs, i) + flatten(gs[i]).len(),
        offset(gs, i + 1) <= flatten_all(gs).len(),
        forall|k: int|
            0 <= k < flatten(gs[i]).len() ==> flatten_all(gs)[offset(gs, i) + k] == flatten(
                gs[i],
            )[k],
    decreases gs.len(),
{
    if i == gs.len() - 1 {
        assert(gs.take(i + 1) =~= gs);
        assert(gs.take(i) =~= gs.drop_last());
    } else {
        let front = gs.drop_last();
        lemma_block(front, i);
        assert(front.take(i) =~= gs.take(i));
        assert(front.take(i + 1) =~= gs.take(i + 1));
        assert(front[i] == gs[i]);
    }
}

/// The blocks of later trees start after the blocks of earlier trees end.
pub proof fn lemma_blocks_in_order(gs: Seq<GroupView>, i: int, j: int)
    requires
        0 <= i < j < gs.len(),
    ensures
        offset(gs, i) + flatten(gs[i]).len() <= offset(gs, j),
    decreases j - i,
{
    lemma_block(gs, i);
    if i + 1 < j {
        lemma_blocks_in_order(gs, i + 1, j);
        lemma_block(gs, i + 1);
    }
}

/// Every position of the flattening of a list of trees lies in the block of
/// one of the trees.
pub proof fn lemma_block_of(gs: Seq<GroupView>, k: int) -> (i: int)
    requires
        0 <= k < flatten_all(gs).len(),
    ensures
        0 <= i < gs.len(),
        offset(gs, i) <= k < offset(gs, i) + flatten(gs[i]).len(),
    decreases gs.len(),
{
    let front = gs.drop_last();
    let last = gs.len() - 1;
    lemma_block(gs, last);
    assert(gs.take(last + 1) =~= gs);
    if k >= offset(gs, last) {
        last
    } else {
        assert(gs.take(last) =~= front);
        let i = lemma_block_of(front, k);
        assert(front.take(i) =~= gs.take(i));
        assert(front[i] == gs[i]);
        i
    }
}

/// Every group that can be reached from the root is visited: the flattening
/// holds it at the position of its path, however deep it lies.
pub proof fn lemma_reachable_is_visited(g: GroupView, path: Seq<int>)
    requires
        descend(g, path) is Some,
    ensures
        0 <= position(g, path) < flatten(g).len(),
        flatten(g)[position(g, path)] == descriptor(descend(g, path)->0),
    decreases path.len(),
{
    if path.len() > 0 {
        let i = path[0];
        lemma_reachable_is_visited(g.sub_groups[i], path.drop_first());
        lemma_block(g.sub_groups, i);
    }
}

/// No group is visited twice: two paths that reach groups at the same
/// position of the flattening are the same path.
pub proof fn lemma_visited_once(g: GroupView, p: Seq<int>, q: Seq<int>)
    requires
        descend(g, p) is Some,
        descend(g, q) is Some,
        position(g, p) == position(g, q),
    ensures
        p == q,
    decreases p.len(),
{
    lemma_reachable_is_visited(g, p);
    lemma_reachable_is_visited(g, q);
    if p.len() == 0 || q.len() == 0 {
        if p.len() > 0 {
            lemma_reachable_is_visited(g.sub_groups[p[0]], p.drop_first());
            lemma_block(g.sub_groups, p[0]);
        }
        if q.len() > 0 {
            lemma_reachable_is_visited(g.sub_groups[q[0]], q.drop_first());
            lemma_block(g.sub_groups, q[0]);
        }
        assert(p =~= q);
    } else {
        let a = p[0];
        let b = q[0];
        lemma_reachable_is_visited(g.sub_groups[a], p.drop_first());
        lemma_reachable_is_visited(g.sub_groups[b], q.drop_first());
        lemma_block(g.sub_groups, a);
        lemma_block(g.sub_groups, b);
        if a < b {
            lemma_blocks_in_order(g.sub_groups, a, b);
        }
        if b < a {
            lemma_blocks_in_order(g.sub_groups, b, a);
        }
        lemma_visited_once(g.sub_groups[a], p.drop_first(), q.drop_first());
        assert(p =~= seq![a] + p.drop_first());
        assert(q =~= seq![b] + q.drop_first());
    }
}

/// Nothing else is visited: every position of the flattening holds a group
/// that a path reaches from the root. The path is handed back.
pub proof fn lemma_visited_is_reachable(g: GroupView, k: int) -> (path: Seq<int>)
    requires
        0 <= k < flatten(g).len(),
    ensures
        descend(g, path) is Some,
        position(g, path) == k,
    decreases g,
{
    if k == 0 {
        Seq::empty()
    } else {
        let i = lemma_block_of(g.sub_groups, k - 1);
        let rest = lemma_visited_is_reachable(g.sub_groups[i], k - 1 - offset(g.sub_groups, i));
        let path = seq![i] + rest;
        assert(path.drop_first() =~= rest);
        path
    }
}

/// Resolving a list of roots visits every group that can be reached from
/// one of them.
pub proof fn lemma_reachable_from_roots_is_visited(gs: Seq<GroupView>, path: Seq<int>)
    requires
        descend_from(gs, path) is Some,
    ensures
        0 <= position_from(gs, path) < flatten_all(gs).len(),
        flatten_all(gs)[position_from(gs, path)] == descriptor(descend_from(gs, path)->0),
{
    lemma_reachable_is_visited(gs[path[0]], path.drop_first());
    lemma_block(gs, path[0]);
}

/// Resolving a list of roots visits no group twice.
pub proof fn lemma_visited_once_from_roots(gs: Seq<GroupView>, p: Seq<int>, q: Seq<int>)
    requires
        descend_from(gs, p) is Some,
        descend_from(gs, q) is Some,
        position_from(gs, p) == position_from(gs, q),
    ensures
        p == q,
{
    let a = p[0];
    let b = q[0];
    lemma_reachable_is_visited(gs[a], p.drop_first());
    lemma_reachable_is_visited(gs[b], q.drop_first());
    lemma_block(gs, a);
    lemma_block(gs, b);
    if a < b {
        lemma_blocks_in_order(gs, a, b);
    }
    if b < a {
        lemma_blocks_in_order(gs, b, a);
    }
    lemma_visited_once(gs[a], p.drop_first(), q.drop_first());
    assert(p =~= seq![a] + p.drop_first());
    assert(q =~= seq![b] + q.drop_first());
}

/// Resolving a list of roots visits only groups that can be reached from
/// one of them. The path is handed back.
pub proof fn lemma_visited_is_reachable_from_roots(gs: Seq<GroupView>, k: int) -> (path: Seq<
    int,
>)
    requires
        0 <= k < flatten_all(gs).len(),
    ensures
        descend_from(gs, path) is Some,
        position_from(gs, path) == k,
{
    let i = lemma_block_of(gs, k);
    let rest = lemma_visited_is_reachable(gs[i], k - offset(gs, i));
    let path = seq![i] + rest;
    assert(path.drop_first() =~= rest);
    path
}

} // verus!
