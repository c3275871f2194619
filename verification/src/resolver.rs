//! From the top-level listing of a realm to the flat list of groups whose
//! members are to be fetched.

use vstd::prelude::*;
use crate::error::{DirectoryFault, GatherError};
use crate::group::{Group, GroupView, group_views};

verus! {

/// A group that was reached from a configured root: what is needed to ask
/// for its members and to record them.
#[derive(Clone, Debug, PartialEq, Eq)]
pub struct ResolvedGroup {
    pub id: String,
    pub name: String,
    pub path: String,
}

/// The mathematical value of a [`ResolvedGroup`].
pub ghost struct ResolvedView {
    pub id: Seq<char>,
    pub name: Seq<char>,
    pub path: Seq<char>,
}

impl View for ResolvedGroup {
    type V = ResolvedView;

    open spec fn view(&self) -> ResolvedView {
        ResolvedView { id: self.id@, name: self.name@, path: self.path@ }
    }
}

/// The values of a list of resolved groups.
pub open spec fn resolved_views(groups: Seq<ResolvedGroup>) -> Seq<ResolvedView> {
    Seq::new(groups.len(), |i: int| groups[i]@)
}

/// The texts of a list of strings.
pub open spec fn texts(strings: Seq<String>) -> Seq<Seq<char>> {
    Seq::new(strings.len(), |i: int| strings[i]@)
}

/// A group without its subgroups.
pub open spec fn descriptor(g: GroupView) -> ResolvedView {
    ResolvedView { id: g.id, name: g.name, path: g.path }
}

/// A group followed by all its descendants: each subgroup, in the order
/// listed, directly followed by its own descendants.
pub open spec fn flatten(g: GroupView) -> Seq<ResolvedView>
    decreases g,
{
    seq![descriptor(g)] + flatten_all(g.sub_groups)
}

/// The groups of a list, each followed by all its descendants.
pub open spec fn flatten_all(gs: Seq<GroupView>) -> Seq<ResolvedView>
    decreases gs,
{
    if gs.len() == 0 {
        Seq::empty()
    } else {
        flatten_all(gs.drop_last()) + flatten(gs.last())
    }
}

/// Whether some group at or below `g` carries the identifier of one of its
/// ancestors, where `ancestors` are the identifiers above `g`.
pub open spec fn cyclic(g: GroupView, ancestors: Seq<Seq<char>>) -> bool
    decreases g,
{
    ancestors.contains(g.id) || exists|i: int|
        0 <= i < g.sub_groups.len() && cyclic(
            #[trigger] g.sub_groups[i],
            ancestors.push(g.id),
        )
}

/// Whether a group of the list is cyclic when taken as a root.
pub open spec fn any_cyclic(gs: Seq<GroupView>) -> bool {
    exists|i: int| 0 <= i < gs.len() && cyclic(#[trigger] gs[i], Seq::empty())
}

/// The groups of a listing whose name is one of `roots`, in listing order.
pub open spec fn selected(listing: Seq<GroupView>, roots: Seq<Seq<char>>) -> Seq<GroupView> {
    listing.filter(|g: GroupView| roots.contains(g.name))
}

/// Whether `wanted` is one of `strings`.
pub fn contains_text(strings: &Vec<String>, wanted: &String) -> (found: bool)
    ensures
        found == texts(strings@).contains(wanted@),
{
    let mut i: usize = 0;
    while i < strings.len()
        invariant
            i <= strings.len(),
            forall|j: int| 0 <= j < i ==> (#[trigger] texts(strings@)[j]) != wanted@,
        decreases strings.len() - i,
    {
        assert(texts(strings@)[i as int] == strings@[i as int]@);
        if strings[i] == *wanted {
            return true;
        }
        i += 1;
    }
    false
}

/// Appends `g` and its descendants to `out`, unless a group at or below `g`
/// repeats the identifier of an ancestor. `trail` holds the identifiers
/// above `g` and is handed back as it came.
fn walk(g: &Group, trail: &mut Vec<String>, out: &mut Vec<ResolvedGroup>) -> (ok: bool)
    ensures
        texts(final(trail)@) == texts(old(trail)@),
        ok == !cyclic(g@, texts(old(trail)@)),
        ok ==> resolved_views(final(out)@) == resolved_views(old(out)@) + flatten(g@),
    decreases g,
{
    if contains_text(trail, &g.id) {
        return false;
    }
    out.push(ResolvedGroup { id: g.id.clone(), name: g.name.clone(), path: g.path.clone() });
    trail.push(g.id.clone());
    let ghost above = texts(old(trail)@).push(g.id@);
    let ghost before = resolved_views(old(out)@) + seq![descriptor(g@)];
    assert(texts(trail@) =~= above);
    assert(resolved_views(out@) =~= before + flatten_all(g@.sub_groups.take(0)));
    let mut i: usize = 0;
    while i < g.sub_groups.len()
        invariant
            i <= g.sub_groups.len(),
            above == texts(old(trail)@).push(g.id@),
            texts(trail@) == above,
            forall|j: int| 0 <= j < i ==> !cyclic(#[trigger] g@.sub_groups[j], above),
            resolved_views(out@) == before + flatten_all(g@.sub_groups.take(i as int)),
        decreases g.sub_groups.len() - i,
    {
        assert(g@.sub_groups[i as int] == g.sub_groups@[i as int]@);
        if !walk(&g.sub_groups[i], trail, out) {
            let ghost full = trail@;
            trail.pop();
            proof {
                assert(texts(full).len() == above.len());
                lemma_texts_drop_last(full);
                assert(trail@ =~= full.drop_last());
                assert(above.drop_last() =~= texts(old(trail)@));
            }
            return false;
        }
        proof {
            let subs = g@.sub_groups;
            assert(subs.take(i + 1).drop_last() =~= subs.take(i as int));
            assert(subs.take(i + 1).last() == subs[i as int]);
        }
        i += 1;
    }
    let ghost full = trail@;
    trail.pop();
    proof {
        lemma_texts_drop_last(full);
        assert(trail@ =~= full.drop_last());
        assert(above.drop_last() =~= texts(old(trail)@));
        assert(g@.sub_groups.take(i as int) =~= g@.sub_groups);
    }
    true
}

/// Resolves the groups whose members a run has to fetch.
///
/// Of the top-level `listing`, the groups named in `roots` are kept, in
/// listing order; a name in `roots` that no group carries is passed over.
/// Each kept group is followed by all its descendants, to any depth. A kept
/// tree in which a group repeats the identifier of one of its ancestors is
/// refused with `Cycle`.
pub fn resolve(listing: &Vec<Group>, roots: &Vec<String>) -> (r: Result<
    Vec<ResolvedGroup>,
    GatherError,
>)
    ensures
        any_cyclic(selected(group_views(listing@), texts(roots@))) ==> r == Err::<
            Vec<ResolvedGroup>,
            GatherError,
        >(GatherError::DirectoryError(DirectoryFault::Cycle)),
        !any_cyclic(selected(group_views(listing@), texts(roots@))) ==> (r matches Ok(out)
            && resolved_views(out@) == flatten_all(
            selected(group_views(listing@), texts(roots@)),
        )),
{
    let mut out: Vec<ResolvedGroup> = Vec::new();
    let mut trail: Vec<String> = Vec::new();
    let ghost all = group_views(listing@);
    let ghost names = texts(roots@);
    let mut i: usize = 0;
    assert(all.take(0) =~= Seq::empty());
    assert(resolved_views(out@) =~= Seq::empty());
    assert(texts(trail@) =~= Seq::empty());
    while i < listing.len()
        invariant
            i <= listing.len(),
            all == group_views(listing@),
            names == texts(roots@),
            texts(trail@) == Seq::<Seq<char>>::empty(),
            !any_cyclic(selected(all.take(i as int), names)),
            resolved_views(out@) == flatten_all(selected(all.take(i as int), names)),
        decreases listing.len() - i,
    {
        proof {
            assert(all.take(i + 1).drop_last() =~= all.take(i as int));
            assert(all.take(i + 1).last() == listing@[i as int]@);
            reveal(Seq::filter);
        }
        if contains_text(roots, &listing[i].name) {
            let ghost kept = selected(all.take(i as int), names);
            proof {
                assert(selected(all.take(i + 1), names) == kept.push(listing@[i as int]@));
                assert(kept.push(listing@[i as int]@).drop_last() =~= kept);
            }
            if !walk(&listing[i], &mut trail, &mut out) {
                proof {
                    let next = kept.push(listing@[i as int]@);
                    assert(cyclic(next[next.len() - 1], Seq::empty()));
                    lemma_selected_prefix(all, names, i + 1);
                }
                return Err(GatherError::DirectoryError(DirectoryFault::Cycle));
            }
            proof {
                let next = kept.push(listing@[i as int]@);
                assert forall|j: int| 0 <= j < next.len() implies !cyclic(
                    #[trigger] next[j],
                    Seq::empty(),
                ) by {
                    if j < kept.len() {
                        assert(next[j] == kept[j]);
                    }
                }
            }
        } else {
            proof {
                assert(selected(all.take(i + 1), names) == selected(all.take(i as int), names));
            }
        }
        i += 1;
    }
    assert(all.take(i as int) =~= all);
    Ok(out)
}

/// Dropping the last string drops the last text.
proof fn lemma_texts_drop_last(strings: Seq<String>)
    requires
        strings.len() > 0,
    ensures
        texts(strings.drop_last()) == texts(strings).drop_last(),
{
    assert(texts(strings.drop_last()) =~= texts(strings).drop_last());
}

/// A cyclic group among the roots selected from a prefix of the listing is
/// also among the roots selected from the whole listing.
proof fn lemma_selected_prefix(all: Seq<GroupView>, names: Seq<Seq<char>>, n: int)
    requires
        0 <= n <= all.len(),
        any_cyclic(selected(all.take(n), names)),
    ensures
        any_cyclic(selected(all, names)),
{
    let pred = |g: GroupView| names.contains(g.name);
    let part = selected(all.take(n), names);
    let whole = selected(all, names);
    let i = choose|i: int| 0 <= i < part.len() && cyclic(#[trigger] part[i], Seq::empty());
    let g = part[i];
    all.take(n).lemma_filter_pred(pred, i);
    all.take(n).lemma_filter_contains_rev(pred, g);
    let k = choose|k: int| 0 <= k < all.take(n).len() && all.take(n)[k] == g;
    assert(all[k] == g);
    all.lemma_filter_contains(pred, k);
    let m = choose|m: int| 0 <= m < whole.len() && whole[m] == g;
    assert(cyclic(whole[m], Seq::empty()));
}

} // verus!
