//! Group records as the directory sends them, and the validated group tree.

use vstd::prelude::*;
use crate::error::{DirectoryFault, GatherError};

verus! {

/// The text of an optional string.
pub open spec fn text(s: Option<String>) -> Option<Seq<char>> {
    match s {
        Some(s) => Some(s@),
        None => None,
    }
}

/// A group as the directory sends it: any field may be absent.
#[derive(Debug, PartialEq, Eq)]
pub struct RawGroup {
    pub id: Option<String>,
    pub name: Option<String>,
    pub path: Option<String>,
    pub sub_groups: Option<Vec<RawGroup>>,
}

/// The mathematical value of a [`RawGroup`].
pub ghost struct RawGroupView {
    pub id: Option<Seq<char>>,
    pub name: Option<Seq<char>>,
    pub path: Option<Seq<char>>,
    pub sub_groups: Option<Seq<RawGroupView>>,
}

impl RawGroup {
    /// The value of this record, field by field and child by child.
    pub open spec fn model(self) -> RawGroupView
        decreases self,
    {
        RawGroupView {
            id: text(self.id),
            name: text(self.name),
            path: text(self.path),
            sub_groups: match self.sub_groups {
                Some(gs) => Some(
                    Seq::new(
                        gs@.len(),
                        |i: int|
                            if 0 <= i < gs@.len() {
                                gs@[i].model()
                            } else {
                                arbitrary()
                            },
                    ),
                ),
                None => None,
            },
        }
    }
}

impl View for RawGroup {
    type V = RawGroupView;

    open spec fn view(&self) -> RawGroupView {
        self.model()
    }
}

/// A group of the directory: its identifier, its display name, its path in
/// the hierarchy, and its subgroups in the order the directory lists them.
#[derive(Debug, PartialEq, Eq)]
pub struct Group {
    pub id: String,
    pub name: String,
    pub path: String,
    pub sub_groups: Vec<Group>,
}

/// The mathematical value of a [`Group`].
pub ghost struct GroupView {
    pub id: Seq<char>,
    pub name: Seq<char>,
    pub path: Seq<char>,
    pub sub_groups: Seq<GroupView>,
}

impl Group {
    /// The value of this group, field by field and child by child.
    pub open spec fn model(self) -> GroupView
        decreases self,
    {
        GroupView {
            id: self.id@,
            name: self.name@,
            path: self.path@,
            sub_groups: Seq::new(
                self.sub_groups@.len(),
                |i: int|
                    if 0 <= i < self.sub_groups@.len() {
                        self.sub_groups@[i].model()
                    } else {
                        arbitrary()
                    },
            ),
        }
    }
}

impl View for Group {
    type V = GroupView;

    open spec fn view(&self) -> GroupView {
        self.model()
    }
}

/// Whether a record and every record below it carries all four fields.
pub open spec fn complete(raw: RawGroupView) -> bool
    decreases raw,
{
    &&& raw.id is Some
    &&& raw.name is Some
    &&& raw.path is Some
    &&& raw.sub_groups is Some
    &&& forall|i: int|
        0 <= i < raw.sub_groups->0.len() ==> complete(#[trigger] raw.sub_groups->0[i])
}

/// The group that a complete record describes.
pub open spec fn typed(raw: RawGroupView) -> GroupView
    decreases raw,
{
    GroupView {
        id: raw.id->0,
        name: raw.name->0,
        path: raw.path->0,
        sub_groups: if raw.sub_groups is Some {
            Seq::new(
                raw.sub_groups->0.len(),
                |i: int|
                    if 0 <= i < raw.sub_groups->0.len() {
                        typed(raw.sub_groups->0[i])
                    } else {
                        arbitrary()
                    },
            )
        } else {
            Seq::empty()
        },
    }
}

/// The groups that a listing of complete records describes.
pub open spec fn typed_all(raws: Seq<RawGroupView>) -> Seq<GroupView> {
    Seq::new(raws.len(), |i: int| typed(raws[i]))
}

/// The values of the records of a listing.
pub open spec fn raw_views(raws: Seq<RawGroup>) -> Seq<RawGroupView> {
    Seq::new(raws.len(), |i: int| raws[i]@)
}

/// The values of the groups of a listing.
pub open spec fn group_views(groups: Seq<Group>) -> Seq<GroupView> {
    Seq::new(groups.len(), |i: int| groups[i]@)
}

/// Whether every record of a listing is complete.
pub open spec fn all_complete(raws: Seq<RawGroupView>) -> bool {
    forall|i: int| 0 <= i < raws.len() ==> complete(#[trigger] raws[i])
}

impl Group {
    /// Validates one record of the directory and everything below it.
    ///
    /// The record becomes a group exactly when it and all its descendants
    /// carry an identifier, a name, a path and a list of subgroups; a record
    /// that lacks one is refused with `MissingField`.
    pub fn parse(raw: &RawGroup) -> (r: Result<Group, GatherError>)
        ensures
            complete(raw@) ==> (r matches Ok(g) && g@ == typed(raw@)),
            !complete(raw@) ==> r == Err::<Group, GatherError>(
                GatherError::DirectoryError(DirectoryFault::MissingField),
            ),
        decreases raw,
    {
        match (&raw.id, &raw.name, &raw.path, &raw.sub_groups) {
            (Some(id), Some(name), Some(path), Some(subs)) => {
                let mut children: Vec<Group> = Vec::new();
                let mut i: usize = 0;
                while i < subs.len()
                    invariant
                        raw.sub_groups == Some(*subs),
                        i <= subs.len(),
                        children@.len() == i,
                        forall|j: int| 0 <= j < i ==> complete(#[trigger] raw@.sub_groups->0[j]),
                        forall|j: int|
                            0 <= j < i ==> (#[trigger] children@[j])@ == typed(
                                raw@.sub_groups->0[j],
                            ),
                    decreases subs.len() - i,
                {
                    assert(raw@.sub_groups->0[i as int] == subs@[i as int]@);
                    match Group::parse(&subs[i]) {
                        Ok(g) => {
                            children.push(g);
                        },
                        Err(e) => {
                            return Err(e);
                        },
                    }
                    i += 1;
                }
                let g = Group {
                    id: id.clone(),
                    name: name.clone(),
                    path: path.clone(),
                    sub_groups: children,
                };
                proof {
                    assert(g@.sub_groups =~= typed(raw@).sub_groups);
                }
                Ok(g)
            },
            _ => Err(GatherError::DirectoryError(DirectoryFault::MissingField)),
        }
    }
}

/// Validates a listing of the directory, record by record.
///
/// The listing becomes a list of groups, in the same order, exactly when
/// every record in it is complete; otherwise it is refused with
/// `MissingField`.
pub fn parse_listing(raws: &Vec<RawGroup>) -> (r: Result<Vec<Group>, GatherError>)
    ensures
        all_complete(raw_views(raws@)) ==> (r matches Ok(groups) && group_views(groups@)
            == typed_all(raw_views(raws@))),
        !all_complete(raw_views(raws@)) ==> r == Err::<Vec<Group>, GatherError>(
            GatherError::DirectoryError(DirectoryFault::MissingField),
        ),
{
    let mut groups: Vec<Group> = Vec::new();
    let mut i: usize = 0;
    while i < raws.len()
        invariant
            i <= raws.len(),
            groups@.len() == i,
            forall|j: int| 0 <= j < i ==> complete(#[trigger] raw_views(raws@)[j]),
            forall|j: int| 0 <= j < i ==> (#[trigger] groups@[j])@ == typed(raw_views(raws@)[j]),
        decreases raws.len() - i,
    {
        assert(raw_views(raws@)[i as int] == raws@[i as int]@);
        match Group::parse(&raws[i]) {
            Ok(g) => {
                groups.push(g);
            },
            Err(e) => {
                return Err(e);
            },
        }
        i += 1;
    }
    proof {
        assert(group_views(groups@) =~= typed_all(raw_views(raws@)));
    }
    Ok(groups)
}

} // verus!
