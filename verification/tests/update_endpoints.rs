use manage::authority::Authority;
use manage::errors::Error;
use manage::group::Group;
use manage::member::Member;
use manage::principal::Principal;
use manage::project::Project;
use manage::registry::Registry;
use manage::types::{Profile, ProjectType};

fn p(b: u8) -> Principal {
    Principal::new(vec![b])
}

fn member(b: u8, authority: Authority) -> Member {
    Member::new(format!("m{}", b), authority, p(b), None)
}

/// A registry whose user `p(1)` owns group 1 with project 10; `p(2)` holds
/// `Write` on the project, `p(1)` holds `Operational` on the group.
fn seeded() -> Registry {
    let mut r = Registry::new(p(100), p(101));
    r.add_user("alice".to_string(), Profile::Public, &p(1), 1).unwrap();
    r.add_user("bob".to_string(), Profile::Public, &p(2), 2).unwrap();
    let g = Group::new(
        1,
        0,
        Profile::Public,
        "g".to_string(),
        "d".to_string(),
        Vec::new(),
        vec![member(1, Authority::Operational)],
        "u".to_string(),
    );
    r.add_group(&p(1), g, &p(1)).unwrap();
    let pr = Project::new(
        10,
        0,
        1,
        "project".to_string(),
        "d".to_string(),
        p(1),
        "git".to_string(),
        Profile::Public,
        vec![member(2, Authority::Write)],
        0,
        Vec::new(),
        ProjectType::Tools,
    );
    r.add_project(&p(1), 1, pr, &p(1), 5).unwrap();
    r
}

fn project_of(r: &Registry) -> Project {
    r.get_project_info(&p(1), 1, 10, &p(1)).unwrap().unwrap()
}

#[test]
fn update_project_git_repo_url_applies_and_checks() {
    let mut r = seeded();
    assert_eq!(
        r.update_project_git_repo_url(&p(1), 1, 10, "new-git".to_string(), &p(2), 5),
        Ok(())
    );
    assert_eq!(project_of(&r).git_repo_url, "new-git");
    assert_eq!(
        r.update_project_git_repo_url(&p(1), 1, 10, "x".to_string(), &p(9), 5),
        Err(Error::PermissionDenied)
    );
    assert_eq!(
        r.update_project_git_repo_url(&p(1), 1, 77, "x".to_string(), &p(2), 5),
        Err(Error::NotFound)
    );
    assert_eq!(
        r.update_project_git_repo_url(&p(1), 77, 10, "x".to_string(), &p(2), 5),
        Err(Error::NotFound)
    );
    assert_eq!(project_of(&r).git_repo_url, "new-git");
}

#[test]
fn update_cycle_floor_demands_both_write_checks() {
    let mut r = seeded();
    // p(2) clears the project check but not the group check.
    assert_eq!(
        r.update_canister_cycle_floor(&p(1), 1, 10, 9, &p(2), 5),
        Err(Error::PermissionDenied)
    );
    // p(1) clears the group check and then the project check refuses it.
    assert_eq!(
        r.update_canister_cycle_floor(&p(1), 1, 10, 9, &p(1), 5),
        Err(Error::PermissionDenied)
    );
    assert_eq!(project_of(&r).canister_cycle_floor, 0);
}

#[test]
fn update_visibility_and_description() {
    let mut r = seeded();
    assert_eq!(
        r.update_project_visibility(&p(1), 1, 10, Profile::Private, &p(2), 5),
        Ok(())
    );
    assert_eq!(
        r.update_project_description(&p(1), 1, 10, "fresh".to_string(), &p(2), 5),
        Ok(())
    );
    let pr = project_of(&r);
    assert!(matches!(pr.visibility, Profile::Private));
    assert_eq!(pr.description, "fresh");
}

#[test]
fn update_member_authorities_through_registry() {
    let mut r = seeded();
    assert_eq!(
        r.add_group_member(&p(1), 1, member(2, Authority::Read), &p(1)),
        Ok(())
    );
    assert_eq!(
        r.update_group_member_authority(&p(1), 1, &p(2), Authority::Write, &p(1)),
        Ok(())
    );
    assert_eq!(
        r.update_group_member_authority(&p(1), 1, &p(2), Authority::Write, &p(9)),
        Err(Error::PermissionDenied)
    );
    assert_eq!(
        r.update_group_member_authority(&p(1), 1, &p(9), Authority::Write, &p(1)),
        Err(Error::NotFound)
    );
    assert_eq!(
        r.update_project_member_authority(&p(1), 1, 10, &p(2), Authority::Operational, &p(1), 5),
        Ok(())
    );
    let m = r.get_group_member_info(&p(1), 1, &p(2)).unwrap();
    assert!(matches!(m.authority, Authority::Write));
    let pr = project_of(&r);
    assert!(matches!(pr.members[0].authority, Authority::Operational));
}

#[test]
fn update_basic_information_through_registry() {
    let mut r = seeded();
    assert_eq!(
        r.update_group_basic_information(
            &p(1),
            1,
            "g2".to_string(),
            "d2".to_string(),
            Profile::Private,
            "u2".to_string(),
            &p(1),
            5,
        ),
        Ok(())
    );
    let g = r.get_group_info(&p(1), 1, &p(1)).unwrap().unwrap();
    assert_eq!(g.name, "g2");
    assert_eq!(g.url, "u2");
    assert_eq!(
        r.update_project_basic_information(
            &p(1),
            1,
            10,
            "n2".to_string(),
            "d2".to_string(),
            Profile::Public,
            "git2".to_string(),
            5,
            vec![p(30), p(30), p(31)],
            &p(2),
            5,
        ),
        Ok(())
    );
    let pr = project_of(&r);
    assert_eq!(pr.name, "n2");
    assert_eq!(pr.canister_cycle_floor, 5);
    // The replacement canister set is deduplicated on the way in.
    assert_eq!(pr.canisters.len(), 2);
}

#[test]
fn project_canisters_through_registry() {
    let mut r = seeded();
    assert_eq!(r.add_project_canister(&p(1), 1, 10, p(30), &p(2), 5), Ok(()));
    assert_eq!(
        r.add_project_canister(&p(1), 1, 10, p(30), &p(2), 5),
        Err(Error::AlreadyExists)
    );
    assert_eq!(
        r.remove_project_canister(&p(1), 1, 10, &p(31), &p(2), 5),
        Err(Error::NotFound)
    );
    assert_eq!(r.remove_project_canister(&p(1), 1, 10, &p(30), &p(2), 5), Ok(()));
    assert_eq!(project_of(&r).canisters.len(), 0);
}
