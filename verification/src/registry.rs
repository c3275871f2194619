//! The registry as a mathematical value, what merging does to it, and the
//! laws of merging.

use vstd::prelude::*;
use crate::members::MembersView;

verus! {

/// A registry as a mathematical value: usernames to sets of group paths.
pub type Registry = Map<Seq<char>, Set<Seq<char>>>;

/// The paths that a registry holds for a user: none, if it does not know
/// the user.
pub open spec fn known(reg: Registry, user: Seq<char>) -> Set<Seq<char>> {
    if reg.dom().contains(user) {
        reg[user]
    } else {
        Set::empty()
    }
}

/// The registry after one path was added to one user's paths, the user
/// being created first if the registry did not know it.
pub open spec fn add_path(reg: Registry, user: Seq<char>, path: Seq<char>) -> Registry {
    reg.insert(user, known(reg, user).insert(path))
}

/// Whether a user is a member in one of the answers.
pub open spec fn mentioned(pairs: Seq<MembersView>, user: Seq<char>) -> bool {
    exists|i: int| 0 <= i < pairs.len() && (#[trigger] pairs[i]).members.contains(user)
}

/// The paths of the groups that the answers name a user a member of.
pub open spec fn paths_of(pairs: Seq<MembersView>, user: Seq<char>) -> Set<Seq<char>> {
    Set::new(
        |path: Seq<char>|
            exists|i: int|
                0 <= i < pairs.len() && (#[trigger] pairs[i]).group.path == path
                    && pairs[i].members.contains(user),
    )
}

/// The registry after the answers were merged into it: it knows every user
/// it knew and every user the answers mention, and holds for each what it
/// held before together with the paths the answers give.
pub open spec fn merged(reg: Registry, pairs: Seq<MembersView>) -> Registry {
    Map::new(
        |user: Seq<char>| reg.dom().contains(user) || mentioned(pairs, user),
        |user: Seq<char>| known(reg, user).union(paths_of(pairs, user)),
    )
}

/// Merging no answers changes nothing.
pub proof fn lemma_merge_nothing(reg: Registry)
    ensures
        merged(reg, Seq::empty()) == reg,
{
    let none = Seq::<MembersView>::empty();
    assert forall|user: Seq<char>| paths_of(none, user) =~= Set::<Seq<char>>::empty() by {}
    assert(merged(reg, none) =~~= reg);
}

/// An answer without members changes nothing.
pub proof fn lemma_merge_nobody(reg: Registry, pair: MembersView)
    requires
        pair.members.len() == 0,
    ensures
        merged(reg, seq![pair]) == reg,
{
    let one = seq![pair];
    assert forall|user: Seq<char>| !mentioned(one, user) by {
        if mentioned(one, user) {
            let i = choose|i: int| 0 <= i < one.len() && (#[trigger] one[i]).members.contains(user);
            assert(one[i] == pair);
        }
    }
    assert forall|user: Seq<char>| paths_of(one, user) =~= Set::<Seq<char>>::empty() by {
        assert forall|path: Seq<char>| !paths_of(one, user).contains(path) by {
            if paths_of(one, user).contains(path) {
                let i = choose|i: int|
                    0 <= i < one.len() && (#[trigger] one[i]).group.path == path
                        && one[i].members.contains(user);
                assert(one[i] == pair);
            }
        }
    }
    assert(merged(reg, one) =~~= reg);
}

/// Merging an answer with one more member is merging the answer without
/// that member and then adding the group's path to that member.
pub proof fn lemma_merge_one_more(reg: Registry, pair: MembersView, user: Seq<char>)
    ensures
        merged(
            reg,
            seq![MembersView { group: pair.group, members: pair.members.push(user) }],
        ) == add_path(merged(reg, seq![pair]), user, pair.group.path),
{
    let more = MembersView { group: pair.group, members: pair.members.push(user) };
    let a = seq![more];
    let b = seq![pair];
    let left = merged(reg, a);
    let right = add_path(merged(reg, b), user, pair.group.path);
    assert(a[0] == more);
    assert(b[0] == pair);
    assert(more.members.last() == user);
    assert(more.members.contains(user));
    assert forall|u: Seq<char>| pair.members.contains(u) implies more.members.contains(u) by {
        let k = choose|k: int| 0 <= k < pair.members.len() && pair.members[k] == u;
        assert(more.members[k] == u);
    }
    assert forall|u: Seq<char>| more.members.contains(u) implies pair.members.contains(u) || u
        == user by {
        let k = choose|k: int| 0 <= k < more.members.len() && more.members[k] == u;
        if k < pair.members.len() {
            assert(pair.members[k] == u);
        }
    }
    assert forall|u: Seq<char>| mentioned(a, u) <==> (mentioned(b, u) || u == user) by {
        if mentioned(a, u) {
            let i = choose|i: int| 0 <= i < a.len() && (#[trigger] a[i]).members.contains(u);
            assert(a[i] == more);
            if u != user {
                assert(b[0].members.contains(u));
            }
        }
        if mentioned(b, u) {
            let i = choose|i: int| 0 <= i < b.len() && (#[trigger] b[i]).members.contains(u);
            assert(b[i] == pair);
            assert(a[0].members.contains(u));
        }
        if u == user {
            assert(a[0].members.contains(u));
        }
    }
    assert forall|u: Seq<char>, p: Seq<char>|
        paths_of(a, u).contains(p) <==> (paths_of(b, u).contains(p) || (u == user && p
            == pair.group.path)) by {
        if paths_of(a, u).contains(p) {
            let i = choose|i: int|
                0 <= i < a.len() && (#[trigger] a[i]).group.path == p && a[i].members.contains(u);
            assert(a[i] == more);
            if u != user {
                assert(b[0].group.path == p && b[0].members.contains(u));
            }
        }
        if paths_of(b, u).contains(p) {
            let i = choose|i: int|
                0 <= i < b.len() && (#[trigger] b[i]).group.path == p && b[i].members.contains(u);
            assert(b[i] == pair);
            assert(a[0].group.path == p && a[0].members.contains(u));
        }
        if u == user && p == pair.group.path {
            assert(a[0].group.path == p && a[0].members.contains(u));
        }
    }
    assert(left.dom() =~= right.dom());
    assert forall|u: Seq<char>| left.dom().contains(u) implies left[u] =~= right[u] by {
        assert forall|p: Seq<char>| left[u].contains(p) <==> right[u].contains(p) by {
            assert(paths_of(a, u).contains(p) <==> (paths_of(b, u).contains(p) || (u == user && p
                == pair.group.path)));
        }
    }
    assert(left =~= right);
}

/// Merging two lists of answers one after the other is merging the two
/// lists joined.
pub proof fn lemma_merge_in_turn(reg: Registry, first: Seq<MembersView>, second: Seq<MembersView>)
    ensures
        merged(merged(reg, first), second) == merged(reg, first + second),
{
    let both = first + second;
    let left = merged(merged(reg, first), second);
    let right = merged(reg, both);
    assert forall|u: Seq<char>| mentioned(both, u) <==> (mentioned(first, u) || mentioned(
        second,
        u,
    )) by {
        if mentioned(both, u) {
            let i = choose|i: int| 0 <= i < both.len() && (#[trigger] both[i]).members.contains(u);
            if i < first.len() {
                assert(first[i].members.contains(u));
            } else {
                assert(second[i - first.len()].members.contains(u));
            }
        }
        if mentioned(first, u) {
            let i = choose|i: int|
                0 <= i < first.len() && (#[trigger] first[i]).members.contains(u);
            assert(both[i].members.contains(u));
        }
        if mentioned(second, u) {
            let i = choose|i: int|
                0 <= i < second.len() && (#[trigger] second[i]).members.contains(u);
            assert(both[i + first.len()].members.contains(u));
        }
    }
    assert forall|u: Seq<char>, p: Seq<char>|
        paths_of(both, u).contains(p) <==> (paths_of(first, u).contains(p) || paths_of(
            second,
            u,
        ).contains(p)) by {
        if paths_of(both, u).contains(p) {
            let i = choose|i: int|
                0 <= i < both.len() && (#[trigger] both[i]).group.path == p
                    && both[i].members.contains(u);
            if i < first.len() {
                assert(first[i].group.path == p && first[i].members.contains(u));
            } else {
                let k = i - first.len();
                assert(second[k].group.path == p && second[k].members.contains(u));
            }
        }
        if paths_of(first, u).contains(p) {
            let i = choose|i: int|
                0 <= i < first.len() && (#[trigger] first[i]).group.path == p
                    && first[i].members.contains(u);
            assert(both[i].group.path == p && both[i].members.contains(u));
        }
        if paths_of(second, u).contains(p) {
            let i = choose|i: int|
                0 <= i < second.len() && (#[trigger] second[i]).group.path == p
                    && second[i].members.contains(u);
            let k = i + first.len();
            assert(both[k].group.path == p && both[k].members.contains(u));
        }
    }
    assert(left.dom() =~= right.dom());
    assert forall|u: Seq<char>| left.dom().contains(u) implies left[u] =~= right[u] by {
        assert forall|p: Seq<char>| left[u].contains(p) <==> right[u].contains(p) by {
            assert(paths_of(both, u).contains(p) <==> (paths_of(first, u).contains(p)
                || paths_of(second, u).contains(p)));
        }
    }
    assert(left =~= right);
}

/// Merging is idempotent: merging the same answers a second time changes
/// nothing.
pub proof fn lemma_merge_twice(reg: Registry, pairs: Seq<MembersView>)
    ensures
        merged(merged(reg, pairs), pairs) == merged(reg, pairs),
{
    let once = merged(reg, pairs);
    let twice = merged(once, pairs);
    assert(twice.dom() =~= once.dom());
    assert forall|u: Seq<char>| once.dom().contains(u) implies twice[u] =~= once[u] by {
        if !reg.dom().contains(u) && !mentioned(pairs, u) {
        }
    }
    assert(twice =~= once);
}

/// Merging does not depend on the order of the answers: two lists that hold
/// the same answers, each as often as the other, give the same registry.
pub proof fn lemma_merge_any_order(reg: Registry, a: Seq<MembersView>, b: Seq<MembersView>)
    requires
        a.to_multiset() == b.to_multiset(),
    ensures
        merged(reg, a) == merged(reg, b),
{
    lemma_merge_covered(reg, a, b);
    lemma_merge_covered(reg, b, a);
    let left = merged(reg, a);
    let right = merged(reg, b);
    assert(left.dom() =~= right.dom());
    assert forall|u: Seq<char>| left.dom().contains(u) implies left[u] =~= right[u] by {
        assert forall|p: Seq<char>| left[u].contains(p) <==> right[u].contains(p) by {
            assert(paths_of(a, u).contains(p) ==> paths_of(b, u).contains(p));
            assert(paths_of(b, u).contains(p) ==> paths_of(a, u).contains(p));
        }
    }
    assert(left =~= right);
}

/// What a list of answers says of a user, every list says that holds all
/// its answers.
proof fn lemma_merge_covered(reg: Registry, a: Seq<MembersView>, b: Seq<MembersView>)
    requires
        a.to_multiset() == b.to_multiset(),
    ensures
        forall|u: Seq<char>| mentioned(a, u) ==> mentioned(b, u),
        forall|u: Seq<char>, p: Seq<char>|
            paths_of(a, u).contains(p) ==> paths_of(b, u).contains(p),
{
    a.to_multiset_ensures();
    b.to_multiset_ensures();
    assert forall|u: Seq<char>| mentioned(a, u) implies mentioned(b, u) by {
        let i = choose|i: int| 0 <= i < a.len() && (#[trigger] a[i]).members.contains(u);
        assert(a.contains(a[i]));
        assert(b.to_multiset().count(a[i]) > 0);
        assert(b.contains(a[i]));
        let k = choose|k: int| 0 <= k < b.len() && b[k] == a[i];
        assert(b[k].members.contains(u));
    }
    assert forall|u: Seq<char>, p: Seq<char>| paths_of(a, u).contains(p) implies paths_of(
        b,
        u,
    ).contains(p) by {
        let i = choose|i: int|
            0 <= i < a.len() && (#[trigger] a[i]).group.path == p && a[i].members.contains(u);
        assert(a.contains(a[i]));
        assert(b.to_multiset().count(a[i]) > 0);
        assert(b.contains(a[i]));
        let k = choose|k: int| 0 <= k < b.len() && b[k] == a[i];
        assert(b[k].group.path == p && b[k].members.contains(u));
    }
}

} // verus!
