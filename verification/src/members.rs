//! Membership answers as the directory sends them, and paired with the
//! groups they were asked for.

use vstd::prelude::*;
use crate::error::{DirectoryFault, GatherError};
use crate::group::text;
use crate::resolver::{ResolvedGroup, ResolvedView, resolved_views};

verus! {

/// A user as the directory sends it: the username may be absent.
#[derive(Clone, Debug, PartialEq, Eq)]
pub struct RawUser {
    pub username: Option<String>,
}

impl View for RawUser {
    type V = Option<Seq<char>>;

    open spec fn view(&self) -> Option<Seq<char>> {
        text(self.username)
    }
}

/// A user of the directory, known by its username.
#[derive(Clone, Debug, PartialEq, Eq)]
pub struct UserIdentity {
    pub username: String,
}

impl View for UserIdentity {
    type V = Seq<char>;

    open spec fn view(&self) -> Seq<char> {
        self.username@
    }
}

/// A group together with the users that are its members.
#[derive(Clone, Debug, PartialEq, Eq)]
pub struct GroupMembers {
    pub group: ResolvedGroup,
    pub members: Vec<UserIdentity>,
}

/// The mathematical value of a [`GroupMembers`].
pub ghost struct MembersView {
    pub group: ResolvedView,
    pub members: Seq<Seq<char>>,
}

impl View for GroupMembers {
    type V = MembersView;

    open spec fn view(&self) -> MembersView {
        MembersView { group: self.group@, members: identity_views(self.members@) }
    }
}

/// The values of the users of one answer.
pub open spec fn user_views(users: Seq<RawUser>) -> Seq<Option<Seq<char>>> {
    Seq::new(users.len(), |i: int| users[i]@)
}

/// The values of a list of answers.
pub open spec fn answer_views(answers: Seq<Vec<RawUser>>) -> Seq<Seq<Option<Seq<char>>>> {
    Seq::new(answers.len(), |i: int| user_views(answers[i]@))
}

/// The usernames of a list of identified users.
pub open spec fn identity_views(users: Seq<UserIdentity>) -> Seq<Seq<char>> {
    Seq::new(users.len(), |i: int| users[i]@)
}

/// The values of a list of groups with their members.
pub open spec fn members_views(pairs: Seq<GroupMembers>) -> Seq<MembersView> {
    Seq::new(pairs.len(), |i: int| pairs[i]@)
}

/// Whether every user of an answer carries a username.
pub open spec fn named(users: Seq<Option<Seq<char>>>) -> bool {
    forall|i: int| 0 <= i < users.len() ==> (#[trigger] users[i]) is Some
}

/// Whether every user of every answer carries a username.
pub open spec fn all_named(answers: Seq<Seq<Option<Seq<char>>>>) -> bool {
    forall|i: int| 0 <= i < answers.len() ==> named(#[trigger] answers[i])
}

/// The usernames of an answer in which every user carries one.
pub open spec fn usernames(users: Seq<Option<Seq<char>>>) -> Seq<Seq<char>> {
    Seq::new(users.len(), |i: int| users[i]->0)
}

/// Each group with the usernames of the answer at the same position.
pub open spec fn paired(groups: Seq<ResolvedView>, answers: Seq<Seq<Option<Seq<char>>>>) -> Seq<
    MembersView,
> {
    Seq::new(
        groups.len(),
        |i: int| MembersView { group: groups[i], members: usernames(answers[i]) },
    )
}

/// A copy of a resolved group.
pub fn copy_group(group: &ResolvedGroup) -> (r: ResolvedGroup)
    ensures
        r@ == group@,
{
    ResolvedGroup { id: group.id.clone(), name: group.name.clone(), path: group.path.clone() }
}

/// A copy of a list of resolved groups.
pub fn copy_groups(groups: &Vec<ResolvedGroup>) -> (r: Vec<ResolvedGroup>)
    ensures
        resolved_views(r@) == resolved_views(groups@),
{
    let mut copies: Vec<ResolvedGroup> = Vec::new();
    let mut i: usize = 0;
    while i < groups.len()
        invariant
            i <= groups.len(),
            copies@.len() == i,
            forall|j: int| 0 <= j < i ==> (#[trigger] copies@[j])@ == groups@[j]@,
        decreases groups.len() - i,
    {
        copies.push(copy_group(&groups[i]));
        i += 1;
    }
    assert(resolved_views(copies@) =~= resolved_views(groups@));
    copies
}

/// Validates the users of one answer.
///
/// The users are accepted, in the same order, exactly when each of them
/// carries a username; otherwise the answer is refused with `MissingField`.
pub fn identify(users: &Vec<RawUser>) -> (r: Result<Vec<UserIdentity>, GatherError>)
    ensures
        named(user_views(users@)) ==> (r matches Ok(members) && identity_views(members@)
            == usernames(user_views(users@))),
        !named(user_views(users@)) ==> r == Err::<Vec<UserIdentity>, GatherError>(
            GatherError::DirectoryError(DirectoryFault::MissingField),
        ),
{
    let mut members: Vec<UserIdentity> = Vec::new();
    let mut i: usize = 0;
    while i < users.len()
        invariant
            i <= users.len(),
            members@.len() == i,
            forall|j: int| 0 <= j < i ==> (#[trigger] user_views(users@)[j]) is Some,
            forall|j: int| 0 <= j < i ==> (#[trigger] members@[j])@ == user_views(users@)[j]->0,
        decreases users.len() - i,
    {
        assert(user_views(users@)[i as int] == users@[i as int]@);
        match &users[i].username {
            Some(name) => {
                members.push(UserIdentity { username: name.clone() });
            },
            None => {
                return Err(GatherError::DirectoryError(DirectoryFault::MissingField));
            },
        }
        i += 1;
    }
    assert(identity_views(members@) =~= usernames(user_views(users@)));
    Ok(members)
}

/// Pairs each group with the answer to its membership query: the answer at
/// the same position.
///
/// Where there are not as many answers as groups, the answers are refused
/// with `Unexpected`. Where there are, and a user of some answer carries no
/// username, they are refused as a whole with `MissingField`. Otherwise
/// every group comes back with the usernames of its answer, all in the order
/// given.
pub fn pair_up(groups: &Vec<ResolvedGroup>, answers: &Vec<Vec<RawUser>>) -> (r: Result<
    Vec<GroupMembers>,
    GatherError,
>)
    ensures
        groups@.len() != answers@.len() ==> r == Err::<Vec<GroupMembers>, GatherError>(
            GatherError::DirectoryError(DirectoryFault::Unexpected),
        ),
        groups@.len() == answers@.len() && !all_named(answer_views(answers@)) ==> r == Err::<
            Vec<GroupMembers>,
            GatherError,
        >(GatherError::DirectoryError(DirectoryFault::MissingField)),
        groups@.len() == answers@.len() && all_named(answer_views(answers@)) ==> (r matches Ok(
            pairs,
        ) && members_views(pairs@) == paired(resolved_views(groups@), answer_views(answers@))),
{
    if groups.len() != answers.len() {
        return Err(GatherError::DirectoryError(DirectoryFault::Unexpected));
    }
    let mut pairs: Vec<GroupMembers> = Vec::new();
    let mut i: usize = 0;
    while i < groups.len()
        invariant
            i <= groups.len(),
            groups@.len() == answers@.len(),
            pairs@.len() == i,
            forall|j: int| 0 <= j < i ==> named(#[trigger] answer_views(answers@)[j]),
            forall|j: int|
                0 <= j < i ==> (#[trigger] pairs@[j])@ == (MembersView {
                    group: groups@[j]@,
                    members: usernames(answer_views(answers@)[j]),
                }),
        decreases groups.len() - i,
    {
        assert(answer_views(answers@)[i as int] == user_views(answers@[i as int]@));
        match identify(&answers[i]) {
            Ok(members) => {
                pairs.push(GroupMembers { group: copy_group(&groups[i]), members });
            },
            Err(e) => {
                return Err(e);
            },
        }
        i += 1;
    }
    assert(members_views(pairs@) =~= paired(resolved_views(groups@), answer_views(answers@)));
    Ok(pairs)
}

} // verus!
