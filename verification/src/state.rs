//! The registry: for each user, the paths of the groups the user is known to
//! belong to.

use vstd::prelude::*;
use crate::members::{GroupMembers, MembersView, members_views};
use crate::registry::{
    Registry, add_path, merged, lemma_merge_in_turn, lemma_merge_nobody, lemma_merge_nothing,
    lemma_merge_one_more,
};
use crate::resolver::texts;

verus! {

/// One user of the registry.
#[derive(Debug)]
pub struct User {
    username: String,
    groups: Vec<String>,
}

/// The mathematical value of a [`User`].
pub ghost struct UserView {
    pub username: Seq<char>,
    pub groups: Set<Seq<char>>,
}

impl View for User {
    type V = UserView;

    closed spec fn view(&self) -> UserView {
        UserView { username: self.username@, groups: texts(self.groups@).to_set() }
    }
}

impl User {
    #[verifier::type_invariant]
    spec fn no_path_twice(self) -> bool {
        texts(self.groups@).no_duplicates()
    }

    /// A user that belongs to no group yet.
    pub fn new(username: String) -> (user: User)
        ensures
            user@ == (UserView { username: username@, groups: Set::empty() }),
    {
        let user = User { username, groups: Vec::new() };
        assert(texts(user.groups@) =~= Seq::empty());
        assert(texts(user.groups@).to_set() =~= Set::empty());
        user
    }

    /// The username.
    pub fn username(&self) -> (name: &String)
        ensures
            name@ == self@.username,
    {
        &self.username
    }

    /// Whether the user is known to belong to the group at `path`.
    pub fn has_group(&self, path: &str) -> (found: bool)
        ensures
            found == self@.groups.contains(path@),
    {
        let wanted = path.to_owned();
        crate::resolver::contains_text(&self.groups, &wanted)
    }

    /// Adds the group at `path` to the user's groups; a path that is already
    /// there stays once.
    pub fn add_group(&mut self, path: &str)
        ensures
            final(self)@ == (UserView {
                username: old(self)@.username,
                groups: old(self)@.groups.insert(path@),
            }),
    {
        proof {
            use_type_invariant(&*self);
        }
        let wanted = path.to_owned();
        if !crate::resolver::contains_text(&self.groups, &wanted) {
            let ghost before = texts(self.groups@);
            let mut groups: Vec<String> = Vec::new();
            std::mem::swap(&mut groups, &mut self.groups);
            groups.push(wanted);
            proof {
                assert(texts(groups@) =~= before.push(path@));
                before.lemma_push_to_set_commute(path@);
            }
            self.groups = groups;
        } else {
            assert(texts(self.groups@).to_set().insert(path@) =~= texts(self.groups@).to_set());
        }
    }

    /// The paths of the groups the user is known to belong to, each once.
    pub fn groups(&self) -> (paths: Vec<String>)
        ensures
            texts(paths@).no_duplicates(),
            texts(paths@).to_set() == self@.groups,
    {
        proof {
            use_type_invariant(self);
        }
        let mut paths: Vec<String> = Vec::new();
        let mut i: usize = 0;
        while i < self.groups.len()
            invariant
                i <= self.groups.len(),
                paths@.len() == i,
                forall|j: int| 0 <= j < i ==> (#[trigger] paths@[j])@ == self.groups@[j]@,
            decreases self.groups.len() - i,
        {
            paths.push(self.groups[i].clone());
            i += 1;
        }
        assert(texts(paths@) =~= texts(self.groups@));
        paths
    }

    /// Whether two users are known to belong to the same groups.
    pub fn same_groups(&self, other: &User) -> (same: bool)
        ensures
            same == (self@.groups == other@.groups),
    {
        proof {
            use_type_invariant(self);
            use_type_invariant(other);
            texts(self.groups@).unique_seq_to_set();
            texts(other.groups@).unique_seq_to_set();
        }
        if self.groups.len() != other.groups.len() {
            return false;
        }
        let mut i: usize = 0;
        while i < self.groups.len()
            invariant
                i <= self.groups.len(),
                forall|j: int|
                    0 <= j < i ==> texts(other.groups@).contains(
                        #[trigger] texts(self.groups@)[j],
                    ),
            decreases self.groups.len() - i,
        {
            if !crate::resolver::contains_text(&other.groups, &self.groups[i]) {
                proof {
                    let path = texts(self.groups@)[i as int];
                    assert(texts(self.groups@).contains(path));
                    assert(self@.groups.contains(path));
                    assert(!other@.groups.contains(path));
                }
                return false;
            }
            assert(texts(self.groups@)[i as int] == self.groups@[i as int]@);
            i += 1;
        }
        proof {
            assert forall|path: Seq<char>| self@.groups.contains(path) implies other@.groups.contains(
                path,
            ) by {
                let k = choose|k: int|
                    0 <= k < texts(self.groups@).len() && texts(self.groups@)[k] == path;
                assert(texts(other.groups@).contains(texts(self.groups@)[k]));
            }
            vstd::set_lib::lemma_subset_equality(self@.groups, other@.groups);
        }
        true
    }

    /// The number of groups the user is known to belong to.
    pub fn group_count(&self) -> (n: usize)
        ensures
            self@.groups.finite(),
            n == self@.groups.len(),
    {
        proof {
            use_type_invariant(self);
            texts(self.groups@).unique_seq_to_set();
        }
        self.groups.len()
    }
}

/// Whether no two users of the list carry the same username.
spec fn distinct(users: Seq<User>) -> bool {
    forall|i: int, j: int|
        0 <= i < j < users.len() ==> (#[trigger] users[i])@.username != (#[trigger] users[j])@.username
}

/// Whether the user at position `i` carries the username `name`.
spec fn at(users: Seq<User>, i: int, name: Seq<char>) -> bool {
    0 <= i < users.len() && users[i]@.username == name
}

/// The registry that a list of users stands for.
spec fn registry_of(users: Seq<User>) -> Registry {
    Map::new(
        |name: Seq<char>| exists|i: int| at(users, i, name),
        |name: Seq<char>| users[choose|i: int| at(users, i, name)]@.groups,
    )
}

/// In a list without repeated usernames, the registry holds for each user
/// of the list that user's paths.
proof fn lemma_lookup(users: Seq<User>, i: int)
    requires
        distinct(users),
        0 <= i < users.len(),
    ensures
        registry_of(users).dom().contains(users[i]@.username),
        registry_of(users)[users[i]@.username] == users[i]@.groups,
{
    let name = users[i]@.username;
    assert(at(users, i, name));
    let k = choose|k: int| at(users, k, name);
    assert(at(users, k, name));
    if k < i {
        assert(users[k]@.username != users[i]@.username);
    }
    if i < k {
        assert(users[i]@.username != users[k]@.username);
    }
}

/// The usernames of a list of users, in order.
spec fn usernames_of(users: Seq<User>) -> Seq<Seq<char>> {
    Seq::new(users.len(), |i: int| users[i]@.username)
}

/// The usernames of a list without repeated usernames are the users that
/// its registry knows, each once.
proof fn lemma_usernames(users: Seq<User>)
    requires
        distinct(users),
    ensures
        usernames_of(users).no_duplicates(),
        usernames_of(users).to_set() == registry_of(users).dom(),
{
    let names = usernames_of(users);
    assert forall|n: Seq<char>| names.to_set().contains(n) implies registry_of(
        users,
    ).dom().contains(n) by {
        let k = choose|k: int| 0 <= k < names.len() && names[k] == n;
        assert(at(users, k, n));
    }
    assert forall|n: Seq<char>| registry_of(users).dom().contains(n) implies names.to_set().contains(
        n,
    ) by {
        let k = choose|k: int| at(users, k, n);
        assert(names[k] == n);
    }
    assert(names.to_set() =~= registry_of(users).dom());
}

/// The registry.
#[derive(Debug)]
pub struct State {
    users: Vec<User>,
}

impl View for State {
    type V = Registry;

    closed spec fn view(&self) -> Registry {
        registry_of(self.users@)
    }
}

/// The position of the user called `name`, if the list holds one.
fn find(users: &Vec<User>, name: &String) -> (found: Option<usize>)
    ensures
        match found {
            Some(i) => at(users@, i as int, name@),
            None => forall|i: int| !at(users@, i, name@),
        },
{
    let mut i: usize = 0;
    while i < users.len()
        invariant
            i <= users.len(),
            forall|j: int| 0 <= j < i ==> !at(users@, j, name@),
        decreases users.len() - i,
    {
        if users[i].username == *name {
            return Some(i);
        }
        i += 1;
    }
    None
}

impl State {
    #[verifier::type_invariant]
    spec fn no_user_twice(self) -> bool {
        distinct(self.users@)
    }

    /// A registry that knows no user.
    pub fn new() -> (state: State)
        ensures
            state@ == Map::<Seq<char>, Set<Seq<char>>>::empty(),
    {
        let state = State { users: Vec::new() };
        assert(state@ =~= Map::<Seq<char>, Set<Seq<char>>>::empty());
        state
    }

    /// The usernames that the registry knows, each once.
    pub fn usernames(&self) -> (names: Vec<String>)
        ensures
            texts(names@).no_duplicates(),
            texts(names@).to_set() == self@.dom(),
    {
        proof {
            use_type_invariant(self);
        }
        let mut names: Vec<String> = Vec::new();
        let mut i: usize = 0;
        while i < self.users.len()
            invariant
                i <= self.users.len(),
                names@.len() == i,
                forall|j: int| 0 <= j < i ==> (#[trigger] names@[j])@ == self.users@[j]@.username,
            decreases self.users.len() - i,
        {
            names.push(self.users[i].username.clone());
            i += 1;
        }
        proof {
            assert(texts(names@) =~= usernames_of(self.users@));
            lemma_usernames(self.users@);
        }
        names
    }

    /// The number of users that the registry knows.
    pub fn len(&self) -> (n: usize)
        ensures
            self@.dom().finite(),
            n == self@.dom().len(),
    {
        proof {
            use_type_invariant(self);
            lemma_usernames(self.users@);
            usernames_of(self.users@).unique_seq_to_set();
        }
        self.users.len()
    }

    /// Whether two registries know the same users with the same groups.
    pub fn same_as(&self, other: &State) -> (same: bool)
        ensures
            same == (self@ == other@),
    {
        proof {
            use_type_invariant(self);
            use_type_invariant(other);
            lemma_usernames(self.users@);
            lemma_usernames(other.users@);
            usernames_of(self.users@).unique_seq_to_set();
            usernames_of(other.users@).unique_seq_to_set();
        }
        if self.users.len() != other.users.len() {
            return false;
        }
        let mut i: usize = 0;
        while i < self.users.len()
            invariant
                i <= self.users.len(),
                distinct(self.users@),
                distinct(other.users@),
                forall|j: int|
                    0 <= j < i ==> other@.dom().contains((#[trigger] self.users@[j])@.username)
                        && other@[self.users@[j]@.username] == self.users@[j]@.groups,
            decreases self.users.len() - i,
        {
            proof {
                lemma_lookup(self.users@, i as int);
            }
            match find(&other.users, &self.users[i].username) {
                None => {
                    proof {
                        let name = self.users@[i as int]@.username;
                        assert(!other@.dom().contains(name));
                    }
                    return false;
                },
                Some(k) => {
                    proof {
                        lemma_lookup(other.users@, k as int);
                    }
                    if !self.users[i].same_groups(&other.users[k]) {
                        return false;
                    }
                },
            }
            i += 1;
        }
        proof {
            assert forall|name: Seq<char>| self@.dom().contains(name) implies other@.dom().contains(
                name,
            ) && other@[name] == self@[name] by {
                let k = choose|k: int| at(self.users@, k, name);
                lemma_lookup(self.users@, k);
                assert(other@.dom().contains(self.users@[k]@.username));
            }
            vstd::set_lib::lemma_subset_equality(self@.dom(), other@.dom());
            assert(self@ =~= other@);
        }
        true
    }

    /// Whether the registry knows the user.
    pub fn contains_user(&self, username: &str) -> (found: bool)
        ensures
            found == self@.dom().contains(username@),
    {
        let name = username.to_owned();
        find(&self.users, &name).is_some()
    }

    /// The record of a user, if the registry knows the user.
    pub fn user(&self, username: &str) -> (found: Option<&User>)
        ensures
            match found {
                Some(user) => self@.dom().contains(username@) && user@ == (UserView {
                    username: username@,
                    groups: self@[username@],
                }),
                None => !self@.dom().contains(username@),
            },
    {
        proof {
            use_type_invariant(self);
        }
        let name = username.to_owned();
        match find(&self.users, &name) {
            Some(i) => {
                proof {
                    lemma_lookup(self.users@, i as int);
                }
                Some(&self.users[i])
            },
            None => None,
        }
    }

    /// Adds the group at `path` to the paths of the user called `username`.
    /// A user that the registry does not know yet is created; a path that
    /// the user already has stays once; nothing else changes.
    pub fn add_group_path(&mut self, username: &str, path: &str)
        ensures
            final(self)@ == add_path(old(self)@, username@, path@),
    {
        proof {
            use_type_invariant(&*self);
        }
        let name = username.to_owned();
        let mut users: Vec<User> = Vec::new();
        std::mem::swap(&mut users, &mut self.users);
        let ghost before = users@;
        match find(&users, &name) {
            Some(i) => {
                users[i].add_group(path);
                proof {
                    lemma_changed(before, users@, i as int, path@);
                }
            },
            None => {
                let mut user = User::new(name);
                user.add_group(path);
                users.push(user);
                proof {
                    assert(users@.drop_last() =~= before);
                    lemma_created(before, users@, path@);
                }
            },
        }
        self.users = users;
    }

    /// Merges the answer to one membership query: the group's path is added
    /// to the paths of each of its members.
    pub fn merge_pair(&mut self, pair: &GroupMembers)
        ensures
            final(self)@ == merged(old(self)@, seq![pair@]),
    {
        let ghost start = self@;
        let ghost group = pair@.group;
        proof {
            assert(pair@.members.take(0) =~= Seq::empty());
            lemma_merge_nobody(start, MembersView { group, members: pair@.members.take(0) });
        }
        let mut i: usize = 0;
        while i < pair.members.len()
            invariant
                i <= pair.members.len(),
                group == pair@.group,
                self@ == merged(
                    start,
                    seq![MembersView { group, members: pair@.members.take(i as int) }],
                ),
            decreases pair.members.len() - i,
        {
            proof {
                let so_far = MembersView { group, members: pair@.members.take(i as int) };
                let user = pair.members@[i as int]@;
                assert(pair@.members[i as int] == user);
                assert(pair@.members.take(i + 1) =~= so_far.members.push(user));
                lemma_merge_one_more(start, so_far, user);
            }
            self.add_group_path(pair.members[i].username.as_str(), pair.group.path.as_str());
            i += 1;
        }
        proof {
            assert(pair@.members.take(i as int) =~= pair@.members);
        }
    }

    /// Merges the answers of a run: the registry then knows every user it
    /// knew and every member named in `pairs`, each with the paths held
    /// before and the paths of the groups that `pairs` names the user a
    /// member of. Nothing is ever taken away.
    pub fn merge(&mut self, pairs: &Vec<GroupMembers>)
        ensures
            final(self)@ == merged(old(self)@, members_views(pairs@)),
    {
        let ghost start = self@;
        let ghost all = members_views(pairs@);
        proof {
            lemma_merge_nothing(start);
            assert(all.take(0) =~= Seq::empty());
        }
        let mut i: usize = 0;
        while i < pairs.len()
            invariant
                i <= pairs.len(),
                all == members_views(pairs@),
                self@ == merged(start, all.take(i as int)),
            decreases pairs.len() - i,
        {
            proof {
                lemma_merge_in_turn(start, all.take(i as int), seq![pairs@[i as int]@]);
                assert(all.take(i + 1) =~= all.take(i as int) + seq![pairs@[i as int]@]);
            }
            self.merge_pair(&pairs[i]);
            i += 1;
        }
        proof {
            assert(all.take(i as int) =~= all);
        }
    }
}

/// Adding a path to one user of a list is adding it in the registry.
proof fn lemma_changed(before: Seq<User>, after: Seq<User>, i: int, path: Seq<char>)
    requires
        distinct(before),
        0 <= i < before.len(),
        after.len() == before.len(),
        forall|j: int| 0 <= j < before.len() && j != i ==> after[j] == before[j],
        after[i]@ == (UserView {
            username: before[i]@.username,
            groups: before[i]@.groups.insert(path),
        }),
    ensures
        distinct(after),
        registry_of(after) == add_path(registry_of(before), before[i]@.username, path),
{
    let name = before[i]@.username;
    let goal = add_path(registry_of(before), name, path);
    assert forall|a: int, b: int| 0 <= a < b < after.len() implies (#[trigger] after[a])@.username
        != (#[trigger] after[b])@.username by {
        assert(after[a]@.username == before[a]@.username);
        assert(after[b]@.username == before[b]@.username);
    }
    lemma_lookup(before, i);
    assert forall|n: Seq<char>| registry_of(after).dom().contains(n) implies goal.dom().contains(
        n,
    ) by {
        let k = choose|k: int| at(after, k, n);
        assert(at(before, k, n));
    }
    assert forall|n: Seq<char>| goal.dom().contains(n) implies registry_of(after).dom().contains(
        n,
    ) by {
        if n == name {
            assert(at(after, i, n));
        } else {
            let k = choose|k: int| at(before, k, n);
            assert(at(after, k, n));
        }
    }
    assert forall|n: Seq<char>| goal.dom().contains(n) implies registry_of(after)[n] == goal[n] by {
        let k = choose|k: int| at(after, k, n);
        assert(at(after, k, n));
        lemma_lookup(after, k);
        if k != i {
            lemma_lookup(before, k);
        }
    }
    assert(registry_of(after) =~= goal);
}

/// Appending a user that so far has one path, under a username that the
/// list does not hold, is adding that path in the registry.
proof fn lemma_created(before: Seq<User>, after: Seq<User>, path: Seq<char>)
    requires
        distinct(before),
        after.len() == before.len() + 1,
        after.drop_last() == before,
        forall|i: int| !at(before, i, after.last()@.username),
        after.last()@.groups == Set::<Seq<char>>::empty().insert(path),
    ensures
        distinct(after),
        registry_of(after) == add_path(registry_of(before), after.last()@.username, path),
{
    let name = after.last()@.username;
    let last = after.len() - 1;
    let goal = add_path(registry_of(before), name, path);
    assert forall|j: int| 0 <= j < before.len() implies after[j] == before[j] by {
        assert(after.drop_last()[j] == after[j]);
    }
    assert forall|a: int, b: int| 0 <= a < b < after.len() implies (#[trigger] after[a])@.username
        != (#[trigger] after[b])@.username by {
        if b == last {
            assert(!at(before, a, name));
        }
    }
    assert(!registry_of(before).dom().contains(name));
    assert forall|n: Seq<char>| registry_of(after).dom().contains(n) implies goal.dom().contains(
        n,
    ) by {
        let k = choose|k: int| at(after, k, n);
        if k != last {
            assert(at(before, k, n));
        }
    }
    assert forall|n: Seq<char>| goal.dom().contains(n) implies registry_of(after).dom().contains(
        n,
    ) by {
        if n == name {
            assert(at(after, last, n));
        } else {
            let k = choose|k: int| at(before, k, n);
            assert(at(after, k, n));
        }
    }
    assert forall|n: Seq<char>| goal.dom().contains(n) implies registry_of(after)[n] == goal[n] by {
        let k = choose|k: int| at(after, k, n);
        assert(at(after, k, n));
        lemma_lookup(after, k);
        if k != last {
            lemma_lookup(before, k);
        }
    }
    assert(registry_of(after) =~= goal);
}

} // verus!
