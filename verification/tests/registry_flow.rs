use manage::authority::Authority;
use manage::errors::Error;
use manage::group::Group;
use manage::member::Member;
use manage::principal::Principal;
use manage::project::Project;
use manage::registry::{canister_controller_check, Registry};
use manage::types::{Profile, ProjectType};
use manage::user::RelationProject;

fn p(b: u8) -> Principal {
    Principal::new(vec![b])
}

fn fresh_registry() -> Registry {
    Registry::new(p(100), p(101))
}

fn group(id: u64, visibility: Profile, members: Vec<Member>) -> Group {
    Group::new(
        id,
        0,
        visibility,
        format!("group{}", id),
        "d".to_string(),
        Vec::new(),
        members,
        "u".to_string(),
    )
}

fn project(id: u64, group_id: u64, visibility: Profile, members: Vec<Member>) -> Project {
    Project::new(
        id,
        0,
        group_id,
        format!("project{}", id),
        "d".to_string(),
        p(1),
        "git".to_string(),
        visibility,
        members,
        0,
        Vec::new(),
        ProjectType::Dapp,
    )
}

fn member(b: u8, authority: Authority) -> Member {
    Member::new(format!("m{}", b), authority, p(b), None)
}

fn relations_for<'a>(r: &'a Registry, of: &Principal, owner: &Principal) -> Vec<RelationProject> {
    let info = r.get_user_info(of, of, 0).expect("user must exist");
    for entry in info.relation_project.iter() {
        if entry.principal == *owner {
            return entry.relations.clone();
        }
    }
    Vec::new()
}

#[test]
fn add_user_rejects_second_registration() {
    let mut r = fresh_registry();
    assert_eq!(r.add_user("alice".to_string(), Profile::Public, &p(1), 1), Ok(()));
    assert_eq!(
        r.add_user("alice-again".to_string(), Profile::Public, &p(1), 2),
        Err(Error::AlreadyExists)
    );
}

#[test]
fn ownership_unique_second_add_group_fails_and_preserves_contents() {
    let mut r = fresh_registry();
    assert_eq!(r.add_user("alice".to_string(), Profile::Public, &p(1), 1), Ok(()));
    let mut first = group(1, Profile::Public, Vec::new());
    first.description = "kept".to_string();
    assert_eq!(r.add_group(&p(1), first, &p(1)), Ok(()));
    let mut second = group(1, Profile::Private, Vec::new());
    second.description = "usurper".to_string();
    assert_eq!(r.add_group(&p(1), second, &p(1)), Err(Error::AlreadyExists));
    let info = r.get_user_info(&p(1), &p(1), 1).unwrap();
    assert_eq!(info.groups.len(), 1);
    assert_eq!(info.groups[0].description, "kept");
    assert!(matches!(info.groups[0].visibility, Profile::Public));
}

#[test]
fn add_group_is_owner_only() {
    let mut r = fresh_registry();
    assert_eq!(r.add_user("alice".to_string(), Profile::Public, &p(1), 1), Ok(()));
    assert_eq!(
        r.add_group(&p(1), group(1, Profile::Public, Vec::new()), &p(2)),
        Err(Error::PermissionDenied)
    );
    assert_eq!(
        r.add_group(&p(9), group(1, Profile::Public, Vec::new()), &p(9)),
        Err(Error::NotFound)
    );
}

#[test]
fn end_to_end_scenario_relation_and_visibility() {
    let now = 50;
    let a = p(1);
    let b = p(2);
    let mut r = fresh_registry();
    assert_eq!(r.add_user("alice".to_string(), Profile::Public, &a, 1), Ok(()));
    assert_eq!(r.add_user("bob".to_string(), Profile::Public, &b, 2), Ok(()));
    assert_eq!(
        r.add_group(&a, group(1, Profile::Private, vec![member(1, Authority::Operational)]), &a),
        Ok(())
    );
    assert_eq!(r.add_project(&a, 1, project(10, 1, Profile::Public, Vec::new()), &a, now), Ok(()));
    assert_eq!(
        r.add_project_member(&a, 1, 10, member(2, Authority::Write), &a, now),
        Ok(())
    );
    let rels = relations_for(&r, &b, &a);
    assert_eq!(rels, vec![RelationProject::new(1, 10)]);
    // The group is private and B is not on its member table, so the rule
    // that admits B goes through the project's own member table.
    match r.get_project_info(&a, 1, 10, &b) {
        Ok(Some(found)) => assert_eq!(found.id, 10),
        other => panic!("project must be visible to its member: {:?}", other.map(|_| ())),
    }
}

#[test]
fn relation_round_trip_restores_prior_value() {
    let now = 50;
    let a = p(1);
    let b = p(2);
    let mut r = fresh_registry();
    assert_eq!(r.add_user("alice".to_string(), Profile::Public, &a, 1), Ok(()));
    assert_eq!(r.add_user("bob".to_string(), Profile::Public, &b, 2), Ok(()));
    assert_eq!(
        r.add_group(&a, group(1, Profile::Public, vec![member(1, Authority::Operational)]), &a),
        Ok(())
    );
    assert_eq!(r.add_project(&a, 1, project(10, 1, Profile::Public, Vec::new()), &a, now), Ok(()));
    assert_eq!(r.add_project(&a, 1, project(11, 1, Profile::Public, Vec::new()), &a, now), Ok(()));
    assert_eq!(
        r.add_project_member(&a, 1, 11, member(2, Authority::Read), &a, now),
        Ok(())
    );
    let before = relations_for(&r, &b, &a);
    assert_eq!(before, vec![RelationProject::new(1, 11)]);
    assert_eq!(
        r.add_project_member(&a, 1, 10, member(2, Authority::Write), &a, now),
        Ok(())
    );
    assert_eq!(
        relations_for(&r, &b, &a),
        vec![RelationProject::new(1, 11), RelationProject::new(1, 10)]
    );
    assert_eq!(r.remove_project_member(&a, 1, 10, &b, &a, now), Ok(()));
    assert_eq!(relations_for(&r, &b, &a), before);
}

#[test]
fn add_project_fans_out_relations_to_existing_members() {
    let now = 50;
    let a = p(1);
    let b = p(2);
    let c = p(3);
    let mut r = fresh_registry();
    assert_eq!(r.add_user("alice".to_string(), Profile::Public, &a, 1), Ok(()));
    assert_eq!(r.add_user("bob".to_string(), Profile::Public, &b, 2), Ok(()));
    assert_eq!(r.add_user("carol".to_string(), Profile::Public, &c, 3), Ok(()));
    assert_eq!(
        r.add_group(&a, group(1, Profile::Public, vec![member(1, Authority::Operational)]), &a),
        Ok(())
    );
    let pr = project(
        10,
        1,
        Profile::Public,
        vec![member(2, Authority::Read), member(3, Authority::Write)],
    );
    assert_eq!(r.add_project(&a, 1, pr, &a, now), Ok(()));
    assert_eq!(relations_for(&r, &b, &a), vec![RelationProject::new(1, 10)]);
    assert_eq!(relations_for(&r, &c, &a), vec![RelationProject::new(1, 10)]);
    assert_eq!(r.remove_project(&a, 1, 10, &a, now), Ok(()));
    assert_eq!(relations_for(&r, &b, &a), Vec::new());
    assert_eq!(relations_for(&r, &c, &a), Vec::new());
}

#[test]
fn add_project_member_demands_registered_member() {
    let now = 50;
    let a = p(1);
    let mut r = fresh_registry();
    assert_eq!(r.add_user("alice".to_string(), Profile::Public, &a, 1), Ok(()));
    assert_eq!(
        r.add_group(&a, group(1, Profile::Public, vec![member(1, Authority::Operational)]), &a),
        Ok(())
    );
    assert_eq!(r.add_project(&a, 1, project(10, 1, Profile::Public, Vec::new()), &a, now), Ok(()));
    assert_eq!(
        r.add_project_member(&a, 1, 10, member(9, Authority::Read), &a, now),
        Err(Error::NotFound)
    );
    // Nothing was written: the project's member table is still empty.
    let info = r.get_project_info(&a, 1, 10, &a).unwrap().unwrap();
    assert_eq!(info.members.len(), 0);
}

#[test]
fn idempotent_removal_of_group_member_and_projects() {
    let now = 50;
    let a = p(1);
    let mut r = fresh_registry();
    assert_eq!(r.add_user("alice".to_string(), Profile::Public, &a, 1), Ok(()));
    assert_eq!(
        r.add_group(&a, group(1, Profile::Public, vec![member(1, Authority::Operational)]), &a),
        Ok(())
    );
    // Removing things that are not there succeeds as a no-op.
    assert_eq!(r.remove_group(&a, 77, &a), Ok(()));
    assert_eq!(r.remove_group_member(&a, 1, &p(9), &a), Ok(()));
    assert_eq!(r.remove_project(&a, 1, 77, &a, now), Ok(()));
}

#[test]
fn expired_member_cannot_mutate() {
    let now: u64 = 1000;
    let a = p(1);
    let b = p(2);
    let mut r = fresh_registry();
    assert_eq!(r.add_user("alice".to_string(), Profile::Public, &a, 1), Ok(()));
    assert_eq!(r.add_user("bob".to_string(), Profile::Public, &b, 2), Ok(()));
    let expiring = Member::new("bob".to_string(), Authority::Operational, p(2), Some(now - 1));
    assert_eq!(r.add_group(&a, group(1, Profile::Public, vec![expiring]), &a), Ok(()));
    assert_eq!(
        r.add_project(&a, 1, project(10, 1, Profile::Public, Vec::new()), &b, now),
        Err(Error::IdentityExpired)
    );
}

#[test]
fn get_user_info_filters_private_groups_for_outsiders() {
    let now: u64 = 1000;
    let a = p(1);
    let mut r = fresh_registry();
    assert_eq!(r.add_user("alice".to_string(), Profile::Public, &a, 1), Ok(()));
    assert_eq!(r.add_group(&a, group(1, Profile::Public, Vec::new()), &a), Ok(()));
    assert_eq!(r.add_group(&a, group(2, Profile::Private, Vec::new()), &a), Ok(()));
    let fresh = Member::new("s".to_string(), Authority::Read, p(9), Some(now + 5));
    let stale = Member::new("s".to_string(), Authority::Read, p(9), Some(now - 5));
    assert_eq!(r.add_group(&a, group(3, Profile::Private, vec![fresh]), &a), Ok(()));
    assert_eq!(r.add_group(&a, group(4, Profile::Private, vec![stale]), &a), Ok(()));
    let seen = r.get_user_info(&a, &p(9), now).unwrap();
    let ids: Vec<u64> = seen.groups.iter().map(|g| g.id).collect();
    assert_eq!(ids, vec![1, 3]);
    let own = r.get_user_info(&a, &a, now).unwrap();
    assert_eq!(own.groups.len(), 4);
}

#[test]
fn private_profile_is_hidden_from_others() {
    let mut r = fresh_registry();
    assert_eq!(r.add_user("alice".to_string(), Profile::Private, &p(1), 1), Ok(()));
    assert!(matches!(r.get_user_info(&p(1), &p(9), 0), Err(Error::PermissionDenied)));
    assert!(r.get_user_info(&p(1), &p(1), 0).is_ok());
    assert!(matches!(r.get_user_info(&p(9), &p(9), 0), Err(Error::NotFound)));
}

#[test]
fn update_log_canister_is_owner_only() {
    let mut r = fresh_registry();
    assert_eq!(r.update_log_canister(p(55), &p(9)), Err(Error::PermissionDenied));
    assert_eq!(r.update_log_canister(p(55), &p(100)), Ok(()));
    assert_eq!(r.log_canister, p(55));
}

#[test]
fn controller_check_admits_account_or_sender() {
    assert_eq!(canister_controller_check(&None, &p(1), &p(2)), Err(Error::PermissionDenied));
    assert_eq!(
        canister_controller_check(&Some(vec![p(3), p(1)]), &p(1), &p(2)),
        Ok(())
    );
    assert_eq!(
        canister_controller_check(&Some(vec![p(3), p(2)]), &p(1), &p(2)),
        Ok(())
    );
    assert_eq!(
        canister_controller_check(&Some(vec![p(3)]), &p(1), &p(2)),
        Err(Error::PermissionDenied)
    );
}

#[test]
fn lifecycle_checks_resolve_through_the_tree() {
    let now = 50;
    let a = p(1);
    let mut r = fresh_registry();
    assert_eq!(r.add_user("alice".to_string(), Profile::Public, &a, 1), Ok(()));
    assert_eq!(
        r.add_group(&a, group(1, Profile::Private, vec![member(1, Authority::Operational)]), &a),
        Ok(())
    );
    let mut pr = project(10, 1, Profile::Public, vec![member(1, Authority::Operational)]);
    pr.canister_cycle_floor = 42;
    pr.canisters = vec![p(30)];
    assert_eq!(r.add_project(&a, 1, pr, &a, now), Ok(()));
    assert_eq!(r.get_canister_status(&a, 1, 10, &p(30), &a, now), Ok(42));
    assert_eq!(r.stop_project_canister(&a, 1, 10, &p(30), &a, now), Ok(()));
    assert_eq!(
        r.start_project_canister(&a, 1, 10, &p(31), &a, now),
        Err(Error::NotFound)
    );
    assert_eq!(
        r.delete_project_canister(&a, 1, 10, &p(30), &p(9), now),
        Err(Error::PermissionDenied)
    );
    assert_eq!(
        r.get_canister_status(&a, 1, 77, &p(30), &a, now),
        Err(Error::NotFound)
    );
    assert_eq!(
        r.get_canister_status(&p(9), 1, 10, &p(30), &a, now),
        Err(Error::NotFound)
    );
}

#[test]
fn serialize_restore_round_trip() {
    let now = 50;
    let a = p(1);
    let b = p(2);
    let mut r = fresh_registry();
    assert_eq!(r.add_user("alice".to_string(), Profile::Public, &a, 1), Ok(()));
    assert_eq!(r.add_user("bob".to_string(), Profile::Private, &b, 2), Ok(()));
    assert_eq!(
        r.add_group(&a, group(1, Profile::Public, vec![member(1, Authority::Operational)]), &a),
        Ok(())
    );
    assert_eq!(r.add_project(&a, 1, project(10, 1, Profile::Public, Vec::new()), &a, now), Ok(()));
    let saved = r.serialize_users();
    let mut fresh = fresh_registry();
    fresh.restore_users(saved);
    let info = fresh.get_user_info(&a, &a, now).unwrap();
    assert_eq!(info.user_name, "alice");
    assert_eq!(info.groups.len(), 1);
    assert_eq!(info.groups[0].projects.len(), 1);
    assert!(fresh.get_user_info(&b, &b, now).is_ok());
}

#[test]
fn visible_project_lists_only_public_groups() {
    let a = p(1);
    let b = p(2);
    let mut r = fresh_registry();
    assert_eq!(r.add_user("alice".to_string(), Profile::Public, &a, 1), Ok(()));
    assert_eq!(r.add_user("bob".to_string(), Profile::Public, &b, 2), Ok(()));
    assert_eq!(r.add_group(&a, group(1, Profile::Public, Vec::new()), &a), Ok(()));
    assert_eq!(r.add_group(&a, group(2, Profile::Private, Vec::new()), &a), Ok(()));
    assert_eq!(r.add_group(&b, group(7, Profile::Public, Vec::new()), &b), Ok(()));
    let listing = r.visible_project();
    assert_eq!(listing.len(), 2);
    assert_eq!(listing[0].len(), 1);
    assert_eq!(listing[0][0].0, a);
    assert_eq!(listing[0][0].1, 1);
    assert_eq!(listing[1].len(), 1);
    assert_eq!(listing[1][0].0, b);
    assert_eq!(listing[1][0].1, 7);
}

#[test]
fn group_member_info_reports_missing_records() {
    let a = p(1);
    let mut r = fresh_registry();
    assert_eq!(r.add_user("alice".to_string(), Profile::Public, &a, 1), Ok(()));
    assert_eq!(
        r.add_group(&a, group(1, Profile::Public, vec![member(2, Authority::Write)]), &a),
        Ok(())
    );
    let m = r.get_group_member_info(&a, 1, &p(2)).unwrap();
    assert_eq!(m.identity, p(2));
    assert!(matches!(m.authority, Authority::Write));
    assert!(matches!(r.get_group_member_info(&a, 1, &p(9)), Err(Error::NotFound)));
    assert!(matches!(r.get_group_member_info(&a, 77, &p(2)), Err(Error::NotFound)));
}

#[test]
fn group_info_respects_visibility() {
    let a = p(1);
    let mut r = fresh_registry();
    assert_eq!(r.add_user("alice".to_string(), Profile::Public, &a, 1), Ok(()));
    assert_eq!(
        r.add_group(&a, group(1, Profile::Private, vec![member(2, Authority::Read)]), &a),
        Ok(())
    );
    assert!(matches!(r.get_group_info(&a, 1, &p(2)), Ok(Some(_))));
    assert!(matches!(r.get_group_info(&a, 1, &a), Ok(Some(_))));
    assert!(matches!(r.get_group_info(&a, 1, &p(9)), Err(Error::PermissionDenied)));
    assert!(matches!(r.get_group_info(&a, 77, &p(9)), Ok(None)));
}
