use manage::authority::Authority;
use manage::errors::Error;
use manage::group::Group;
use manage::member::Member;
use manage::principal::Principal;
use manage::project::Project;
use manage::types::{Profile, ProjectType};

fn p(b: u8) -> Principal {
    Principal::new(vec![b])
}

fn member(b: u8, authority: Authority) -> Member {
    Member::new(format!("m{}", b), authority, p(b), None)
}

fn project(id: u64, visibility: Profile, members: Vec<Member>, canisters: Vec<Principal>) -> Project {
    Project::new(
        id,
        0,
        1,
        format!("project{}", id),
        "d".to_string(),
        p(1),
        "git".to_string(),
        visibility,
        members,
        0,
        canisters,
        ProjectType::Tools,
    )
}

fn group(visibility: Profile, projects: Vec<Project>, members: Vec<Member>) -> Group {
    Group::new(
        1,
        0,
        visibility,
        "g".to_string(),
        "d".to_string(),
        projects,
        members,
        "u".to_string(),
    )
}

#[test]
fn add_canister_rejects_duplicates() {
    let now = 5;
    let mut pr = project(10, Profile::Public, vec![member(2, Authority::Write)], vec![p(30)]);
    assert_eq!(pr.add_canister(p(31), &p(2), now), Ok(()));
    assert_eq!(pr.add_canister(p(31), &p(2), now), Err(Error::AlreadyExists));
    assert_eq!(pr.canisters.len(), 2);
}

#[test]
fn remove_canister_requires_presence() {
    let now = 5;
    let mut pr = project(10, Profile::Public, vec![member(2, Authority::Write)], vec![p(30)]);
    assert_eq!(pr.remove_canister(&p(31), &p(2), now), Err(Error::NotFound));
    assert_eq!(pr.remove_canister(&p(30), &p(2), now), Ok(()));
    assert_eq!(pr.canisters.len(), 0);
    assert_eq!(pr.remove_canister(&p(30), &p(2), now), Err(Error::NotFound));
}

#[test]
fn canister_ops_demand_enough_authority() {
    let now = 5;
    let mut pr = project(
        10,
        Profile::Public,
        vec![member(2, Authority::Read), member(3, Authority::Operational)],
        vec![p(30)],
    );
    assert_eq!(pr.add_canister(p(31), &p(2), now), Err(Error::PermissionDenied));
    assert_eq!(pr.stop_canister(&p(30), &p(2), now), Err(Error::PermissionDenied));
    assert_eq!(pr.stop_canister(&p(30), &p(3), now), Ok(()));
    assert_eq!(pr.start_canister(&p(99), &p(3), now), Err(Error::NotFound));
    assert_eq!(pr.get_canister_status(&p(30), &p(2), true, now), Ok(0));
    assert_eq!(pr.get_canister_status(&p(30), &p(9), false, now), Ok(0));
}

#[test]
fn remove_member_is_idempotent() {
    let mut pr = project(10, Profile::Public, vec![member(2, Authority::Write)], Vec::new());
    assert_eq!(pr.remove_member(&p(9)), Ok(()));
    assert_eq!(pr.members.len(), 1);
    assert_eq!(pr.remove_member(&p(2)), Ok(()));
    assert_eq!(pr.members.len(), 0);
    assert_eq!(pr.remove_member(&p(2)), Ok(()));
}

#[test]
fn update_member_authority_requires_presence() {
    let mut pr = project(10, Profile::Public, vec![member(2, Authority::Read)], Vec::new());
    assert_eq!(
        pr.update_member_authority(&p(9), Authority::Write),
        Err(Error::NotFound)
    );
    assert_eq!(pr.update_member_authority(&p(2), Authority::Write), Ok(()));
    assert!(matches!(pr.members[0].authority, Authority::Write));
}

#[test]
fn add_member_overwrites_same_identity() {
    let mut pr = project(10, Profile::Public, Vec::new(), Vec::new());
    assert_eq!(pr.add_member(member(2, Authority::Read)), Ok(()));
    assert_eq!(pr.add_member(member(2, Authority::Operational)), Ok(()));
    assert_eq!(pr.members.len(), 1);
    assert!(matches!(pr.members[0].authority, Authority::Operational));
}

#[test]
fn visibility_private_group_outsider_is_refused() {
    let pr = project(10, Profile::Private, Vec::new(), Vec::new());
    let g = group(Profile::Private, vec![pr], Vec::new());
    assert!(matches!(
        g.get_project_info(10, &p(9)),
        Err(Error::PermissionDenied)
    ));
}

#[test]
fn visibility_public_group_public_project_visible_to_anyone() {
    let pr = project(10, Profile::Public, Vec::new(), Vec::new());
    let g = group(Profile::Public, vec![pr], Vec::new());
    match g.get_project_info(10, &p(9)) {
        Ok(Some(found)) => assert_eq!(found.id, 10),
        _ => panic!("a public project of a public group must be visible"),
    }
}

#[test]
fn visibility_private_group_project_member_path() {
    let pr = project(10, Profile::Private, vec![member(8, Authority::Read)], Vec::new());
    let g = group(Profile::Private, vec![pr], Vec::new());
    match g.get_project_info(10, &p(8)) {
        Ok(Some(found)) => assert_eq!(found.id, 10),
        _ => panic!("a project member must see the project of a private group"),
    }
}

#[test]
fn visibility_public_group_private_project_needs_membership() {
    let pr = project(10, Profile::Private, vec![member(8, Authority::Read)], Vec::new());
    let g = group(Profile::Public, vec![pr], Vec::new());
    assert!(matches!(
        g.get_project_info(10, &p(9)),
        Err(Error::PermissionDenied)
    ));
    assert!(matches!(g.get_project_info(10, &p(8)), Ok(Some(_))));
    assert!(matches!(g.get_project_info(77, &p(9)), Ok(None)));
}

#[test]
fn group_remove_project_is_idempotent() {
    let now = 5;
    let mut g = group(Profile::Public, Vec::new(), vec![member(2, Authority::Operational)]);
    assert_eq!(g.remove_project(10, &p(2), now), Ok(()));
    assert_eq!(g.add_project(project(10, Profile::Public, Vec::new(), Vec::new()), &p(2), now), Ok(()));
    assert_eq!(g.projects.len(), 1);
    assert_eq!(g.remove_project(10, &p(2), now), Ok(()));
    assert_eq!(g.projects.len(), 0);
    assert_eq!(g.remove_project(10, &p(2), now), Ok(()));
}

#[test]
fn group_add_project_rejects_taken_id() {
    let now = 5;
    let mut g = group(Profile::Public, Vec::new(), vec![member(2, Authority::Operational)]);
    assert_eq!(
        g.add_project(project(10, Profile::Public, Vec::new(), Vec::new()), &p(2), now),
        Ok(())
    );
    assert_eq!(
        g.add_project(project(10, Profile::Private, Vec::new(), Vec::new()), &p(2), now),
        Err(Error::AlreadyExists)
    );
}

#[test]
fn project_basic_information_bypass_from_group_check() {
    let now = 5;
    let mut g = group(
        Profile::Public,
        vec![project(10, Profile::Public, Vec::new(), Vec::new())],
        vec![member(2, Authority::Write)],
    );
    // The sender clears the group's own Write check, so the project check is
    // bypassed even though the sender is no member of the project.
    assert_eq!(
        g.update_project_basic_information(
            10,
            "n2".to_string(),
            "d2".to_string(),
            Profile::Private,
            "git2".to_string(),
            7,
            Vec::new(),
            &p(2),
            now,
        ),
        Ok(())
    );
    assert_eq!(g.projects[0].name, "n2");
    assert_eq!(g.projects[0].canister_cycle_floor, 7);
    // A stranger clears neither check.
    assert_eq!(
        g.update_project_basic_information(
            10,
            "n3".to_string(),
            "d3".to_string(),
            Profile::Public,
            "git3".to_string(),
            8,
            Vec::new(),
            &p(9),
            now,
        ),
        Err(Error::PermissionDenied)
    );
    assert_eq!(g.projects[0].name, "n2");
}

#[test]
fn member_self_removal_needs_no_authority() {
    let now = 5;
    let mut g = group(
        Profile::Public,
        vec![project(10, Profile::Public, vec![member(8, Authority::Read)], Vec::new())],
        Vec::new(),
    );
    assert_eq!(g.remove_project_member(10, &p(8), &p(8), now), Ok(()));
    assert_eq!(g.projects[0].members.len(), 0);
}
