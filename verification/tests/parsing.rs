use gluebuddy::error::{DirectoryFault, GatherError};
use gluebuddy::group::{parse_listing, Group, RawGroup};
use gluebuddy::members::{
    copy_group, copy_groups, identify, pair_up, GroupMembers, RawUser, UserIdentity,
};
use gluebuddy::resolver::ResolvedGroup;

fn some(s: &str) -> Option<String> {
    Some(s.to_string())
}

fn raw(id: &str, name: &str, path: &str, subs: Vec<RawGroup>) -> RawGroup {
    RawGroup { id: some(id), name: some(name), path: some(path), sub_groups: Some(subs) }
}

fn group(id: &str, name: &str, path: &str, sub_groups: Vec<Group>) -> Group {
    Group { id: id.to_string(), name: name.to_string(), path: path.to_string(), sub_groups }
}

fn resolved(id: &str, name: &str, path: &str) -> ResolvedGroup {
    ResolvedGroup { id: id.to_string(), name: name.to_string(), path: path.to_string() }
}

fn missing_field() -> GatherError {
    GatherError::DirectoryError(DirectoryFault::MissingField)
}

#[test]
fn complete_record_becomes_a_group() {
    let r = raw("1", "A", "/A", vec![raw("2", "B", "/A/B", vec![]), raw("3", "C", "/A/C", vec![])]);
    assert_eq!(
        Group::parse(&r),
        Ok(group(
            "1",
            "A",
            "/A",
            vec![group("2", "B", "/A/B", vec![]), group("3", "C", "/A/C", vec![])]
        ))
    );
}

#[test]
fn record_without_identifier_is_refused() {
    let mut r = raw("1", "A", "/A", vec![]);
    r.id = None;
    assert_eq!(Group::parse(&r), Err(missing_field()));
}

#[test]
fn record_without_name_is_refused() {
    let mut r = raw("1", "A", "/A", vec![]);
    r.name = None;
    assert_eq!(Group::parse(&r), Err(missing_field()));
}

#[test]
fn record_without_path_is_refused() {
    let mut r = raw("1", "A", "/A", vec![]);
    r.path = None;
    assert_eq!(Group::parse(&r), Err(missing_field()));
}

#[test]
fn record_without_subgroup_list_is_refused() {
    let mut r = raw("1", "A", "/A", vec![]);
    r.sub_groups = None;
    assert_eq!(Group::parse(&r), Err(missing_field()));
}

#[test]
fn record_with_an_incomplete_descendant_is_refused() {
    let mut leaf = raw("3", "C", "/A/B/C", vec![]);
    leaf.path = None;
    let r = raw("1", "A", "/A", vec![raw("2", "B", "/A/B", vec![leaf])]);
    assert_eq!(Group::parse(&r), Err(missing_field()));
}

#[test]
fn empty_strings_are_present_fields() {
    let r = raw("", "", "", vec![]);
    assert_eq!(Group::parse(&r), Ok(group("", "", "", vec![])));
}

#[test]
fn listing_is_parsed_in_order() {
    let listing = vec![raw("1", "A", "/A", vec![]), raw("2", "B", "/B", vec![])];
    assert_eq!(
        parse_listing(&listing),
        Ok(vec![group("1", "A", "/A", vec![]), group("2", "B", "/B", vec![])])
    );
    assert_eq!(parse_listing(&Vec::new()), Ok(Vec::new()));
}

#[test]
fn listing_with_one_incomplete_record_is_refused() {
    let mut bad = raw("2", "B", "/B", vec![]);
    bad.name = None;
    let listing = vec![raw("1", "A", "/A", vec![]), bad, raw("3", "C", "/C", vec![])];
    assert_eq!(parse_listing(&listing), Err(missing_field()));
}

#[test]
fn users_with_usernames_are_accepted_in_order() {
    let users = vec![RawUser { username: some("bob") }, RawUser { username: some("alice") }];
    assert_eq!(
        identify(&users),
        Ok(vec![
            UserIdentity { username: "bob".to_string() },
            UserIdentity { username: "alice".to_string() },
        ])
    );
    assert_eq!(identify(&Vec::new()), Ok(Vec::new()));
}

#[test]
fn user_without_username_is_refused() {
    let users = vec![RawUser { username: some("bob") }, RawUser { username: None }];
    assert_eq!(identify(&users), Err(missing_field()));
}

#[test]
fn answers_are_paired_with_groups_by_position() {
    let groups = vec![resolved("1", "A", "/A"), resolved("2", "B", "/B")];
    let answers = vec![vec![RawUser { username: some("u") }, RawUser { username: some("v") }], vec![]];
    assert_eq!(
        pair_up(&groups, &answers),
        Ok(vec![
            GroupMembers {
                group: resolved("1", "A", "/A"),
                members: vec![
                    UserIdentity { username: "u".to_string() },
                    UserIdentity { username: "v".to_string() },
                ],
            },
            GroupMembers { group: resolved("2", "B", "/B"), members: vec![] },
        ])
    );
    assert_eq!(pair_up(&Vec::new(), &Vec::new()), Ok(Vec::new()));
}

#[test]
fn answers_with_one_nameless_user_are_refused_as_a_whole() {
    let groups = vec![resolved("1", "A", "/A"), resolved("2", "B", "/B")];
    let answers = vec![vec![RawUser { username: some("u") }], vec![RawUser { username: None }]];
    assert_eq!(pair_up(&groups, &answers), Err(missing_field()));
}

#[test]
fn too_few_or_too_many_answers_are_refused() {
    let groups = vec![resolved("1", "A", "/A"), resolved("2", "B", "/B")];
    let unexpected = GatherError::DirectoryError(DirectoryFault::Unexpected);
    assert_eq!(pair_up(&groups, &vec![vec![]]), Err(unexpected.clone()));
    assert_eq!(pair_up(&groups, &vec![vec![], vec![], vec![]]), Err(unexpected.clone()));
    assert_eq!(pair_up(&groups, &Vec::new()), Err(unexpected.clone()));
    assert_eq!(
        pair_up(&groups, &vec![vec![RawUser { username: None }]]),
        Err(unexpected)
    );
}

#[test]
fn copy_of_a_group_equals_the_group() {
    let g = resolved("1", "A", "/A");
    assert_eq!(copy_group(&g), g);
    let list = vec![resolved("1", "A", "/A"), resolved("2", "B", "/B")];
    assert_eq!(copy_groups(&list), list);
    assert_eq!(copy_groups(&Vec::new()), Vec::new());
}
