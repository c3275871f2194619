use gluebuddy::members::{GroupMembers, UserIdentity};
use gluebuddy::resolver::ResolvedGroup;
use gluebuddy::state::{State, User};

fn pair(path: &str, users: &[&str]) -> GroupMembers {
    GroupMembers {
        group: ResolvedGroup {
            id: format!("id:{}", path),
            name: path.rsplit('/').next().unwrap().to_string(),
            path: path.to_string(),
        },
        members: users.iter().map(|u| UserIdentity { username: u.to_string() }).collect(),
    }
}

/// The registry as sorted usernames, each with its sorted paths.
fn snapshot(state: &State) -> Vec<(String, Vec<String>)> {
    let mut names = state.usernames();
    names.sort();
    names
        .into_iter()
        .map(|name| {
            let mut paths = state.user(&name).unwrap().groups();
            paths.sort();
            (name, paths)
        })
        .collect()
}

fn entry(name: &str, paths: &[&str]) -> (String, Vec<String>) {
    (name.to_string(), paths.iter().map(|p| p.to_string()).collect())
}

#[test]
fn new_user_has_no_groups() {
    let user = User::new("alice".to_string());
    assert_eq!(user.username(), "alice");
    assert_eq!(user.group_count(), 0);
    assert_eq!(user.groups(), Vec::<String>::new());
    assert!(!user.has_group("/a"));
}

#[test]
fn adding_a_group_twice_keeps_it_once() {
    let mut user = User::new("alice".to_string());
    user.add_group("/a");
    user.add_group("/b");
    user.add_group("/a");
    assert_eq!(user.group_count(), 2);
    assert_eq!(user.groups(), vec!["/a".to_string(), "/b".to_string()]);
    assert!(user.has_group("/a"));
    assert!(user.has_group("/b"));
    assert!(!user.has_group("/c"));
    assert_eq!(user.username(), "alice");
}

#[test]
fn same_groups_ignores_order() {
    let mut a = User::new("a".to_string());
    let mut b = User::new("b".to_string());
    assert!(a.same_groups(&b));
    a.add_group("/x");
    a.add_group("/y");
    b.add_group("/y");
    assert!(!a.same_groups(&b));
    assert!(!b.same_groups(&a));
    b.add_group("/x");
    assert!(a.same_groups(&b));
    b.add_group("/z");
    assert!(!a.same_groups(&b));
    a.add_group("/w");
    assert!(!a.same_groups(&b));
}

#[test]
fn new_registry_is_empty() {
    let state = State::new();
    assert_eq!(state.len(), 0);
    assert!(!state.contains_user("alice"));
    assert!(state.user("alice").is_none());
    assert_eq!(state.usernames(), Vec::<String>::new());
}

#[test]
fn adding_a_path_creates_the_user() {
    let mut state = State::new();
    state.add_group_path("alice", "/a");
    assert_eq!(state.len(), 1);
    assert!(state.contains_user("alice"));
    assert!(!state.contains_user("bob"));
    let user = state.user("alice").unwrap();
    assert_eq!(user.username(), "alice");
    assert_eq!(user.groups(), vec!["/a".to_string()]);
    assert_eq!(snapshot(&state), vec![entry("alice", &["/a"])]);
}

#[test]
fn adding_paths_is_additive_and_keeps_other_users() {
    let mut state = State::new();
    state.add_group_path("alice", "/a");
    state.add_group_path("bob", "/b");
    state.add_group_path("alice", "/c");
    state.add_group_path("alice", "/a");
    assert_eq!(state.len(), 2);
    assert_eq!(snapshot(&state), vec![entry("alice", &["/a", "/c"]), entry("bob", &["/b"])]);
}

#[test]
fn merging_adds_the_group_path_to_each_member() {
    let mut state = State::new();
    state.merge(&vec![
        pair("/Staff", &["alice", "bob"]),
        pair("/Staff/Sub", &["alice"]),
        pair("/Empty", &[]),
    ]);
    assert_eq!(
        snapshot(&state),
        vec![entry("alice", &["/Staff", "/Staff/Sub"]), entry("bob", &["/Staff"])]
    );
}

#[test]
fn merging_keeps_what_was_there() {
    let mut state = State::new();
    state.add_group_path("carol", "/Old");
    state.add_group_path("alice", "/Old");
    state.merge(&vec![pair("/New", &["alice", "dave"])]);
    assert_eq!(
        snapshot(&state),
        vec![entry("alice", &["/New", "/Old"]), entry("carol", &["/Old"]), entry("dave", &["/New"])]
    );
}

#[test]
fn merging_nothing_changes_nothing() {
    let mut state = State::new();
    state.add_group_path("alice", "/a");
    state.merge(&Vec::new());
    assert_eq!(snapshot(&state), vec![entry("alice", &["/a"])]);
    state.merge_pair(&pair("/b", &[]));
    assert_eq!(snapshot(&state), vec![entry("alice", &["/a"])]);
}

#[test]
fn a_member_listed_twice_gets_the_path_once() {
    let mut state = State::new();
    state.merge_pair(&pair("/a", &["alice", "alice"]));
    assert_eq!(snapshot(&state), vec![entry("alice", &["/a"])]);
}

#[test]
fn merging_the_same_pair_twice_changes_nothing() {
    let mut once = State::new();
    once.add_group_path("alice", "/Old");
    once.merge_pair(&pair("/Staff", &["alice", "bob"]));
    let mut twice = State::new();
    twice.add_group_path("alice", "/Old");
    twice.merge_pair(&pair("/Staff", &["alice", "bob"]));
    let before = snapshot(&twice);
    twice.merge_pair(&pair("/Staff", &["alice", "bob"]));
    assert_eq!(snapshot(&twice), before);
    assert!(once.same_as(&twice));
    assert_eq!(
        snapshot(&twice),
        vec![entry("alice", &["/Old", "/Staff"]), entry("bob", &["/Staff"])]
    );
}

#[test]
fn merging_the_same_list_twice_changes_nothing() {
    let pairs = vec![pair("/a", &["u", "v"]), pair("/b", &["v", "w"])];
    let mut state = State::new();
    state.merge(&pairs);
    let before = snapshot(&state);
    state.merge(&pairs);
    assert_eq!(snapshot(&state), before);
}

#[test]
fn merge_order_does_not_matter() {
    let make = || {
        vec![
            pair("/a", &["u", "v"]),
            pair("/b", &["v", "w"]),
            pair("/a/c", &["w", "u", "x"]),
        ]
    };
    let orders: [[usize; 3]; 6] =
        [[0, 1, 2], [0, 2, 1], [1, 0, 2], [1, 2, 0], [2, 0, 1], [2, 1, 0]];
    let mut reference = State::new();
    reference.merge(&make());
    let expected = vec![
        entry("u", &["/a", "/a/c"]),
        entry("v", &["/a", "/b"]),
        entry("w", &["/a/c", "/b"]),
        entry("x", &["/a/c"]),
    ];
    assert_eq!(snapshot(&reference), expected);
    for order in orders {
        let all = make();
        let permuted: Vec<GroupMembers> = order.iter().map(|&i| all[i].clone()).collect();
        let mut state = State::new();
        state.merge(&permuted);
        assert_eq!(snapshot(&state), expected);
        assert!(state.same_as(&reference));
        assert!(reference.same_as(&state));
    }
}

#[test]
fn merging_in_two_parts_equals_merging_at_once() {
    let mut at_once = State::new();
    at_once.merge(&vec![pair("/a", &["u"]), pair("/b", &["u", "v"])]);
    let mut in_parts = State::new();
    in_parts.merge(&vec![pair("/a", &["u"])]);
    in_parts.merge(&vec![pair("/b", &["u", "v"])]);
    assert!(at_once.same_as(&in_parts));
}

#[test]
fn registries_differ_by_user_or_by_path() {
    let mut a = State::new();
    let mut b = State::new();
    assert!(a.same_as(&b));
    a.add_group_path("alice", "/a");
    assert!(!a.same_as(&b));
    assert!(!b.same_as(&a));
    b.add_group_path("bob", "/a");
    assert!(!a.same_as(&b));
    b.add_group_path("alice", "/b");
    a.add_group_path("bob", "/a");
    assert!(!a.same_as(&b));
    a.add_group_path("alice", "/b");
    b.add_group_path("alice", "/a");
    assert!(a.same_as(&b));
    assert!(b.same_as(&a));
}
