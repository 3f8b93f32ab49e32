use manage::authority::Authority;
use manage::errors::Error;
use manage::group::Group;
use manage::member::Member;
use manage::principal::Principal;
use manage::types::Profile;

fn p(b: u8) -> Principal {
    Principal::new(vec![b])
}

fn member(b: u8, authority: Authority, expiration_time: Option<u64>) -> Member {
    Member::new(format!("m{}", b), authority, p(b), expiration_time)
}

fn group_with(members: Vec<Member>) -> Group {
    Group::new(
        1,
        0,
        Profile::Public,
        "g".to_string(),
        "d".to_string(),
        Vec::new(),
        members,
        "u".to_string(),
    )
}

#[test]
fn authority_order_table() {
    assert_eq!(Authority::authority_check(Authority::Read, Authority::Read), true);
    assert_eq!(Authority::authority_check(Authority::Read, Authority::Write), false);
    assert_eq!(Authority::authority_check(Authority::Read, Authority::Operational), false);
    assert_eq!(Authority::authority_check(Authority::Write, Authority::Read), true);
    assert_eq!(Authority::authority_check(Authority::Write, Authority::Write), true);
    assert_eq!(Authority::authority_check(Authority::Write, Authority::Operational), false);
    assert_eq!(Authority::authority_check(Authority::Operational, Authority::Read), true);
    assert_eq!(Authority::authority_check(Authority::Operational, Authority::Write), true);
    assert_eq!(
        Authority::authority_check(Authority::Operational, Authority::Operational),
        true
    );
}

#[test]
fn expired_member_fails_every_check() {
    let now: u64 = 1000;
    let g = group_with(vec![member(2, Authority::Operational, Some(now - 1))]);
    assert_eq!(
        g.identity_check(Authority::Read, &p(2), now),
        Err(Error::IdentityExpired)
    );
    assert_eq!(
        g.identity_check(Authority::Write, &p(2), now),
        Err(Error::IdentityExpired)
    );
    assert_eq!(
        g.identity_check(Authority::Operational, &p(2), now),
        Err(Error::IdentityExpired)
    );
}

#[test]
fn unexpired_member_passes_at_or_below_level() {
    let now: u64 = 1000;
    let g = group_with(vec![member(2, Authority::Write, Some(now + 1000))]);
    assert_eq!(g.identity_check(Authority::Read, &p(2), now), Ok(()));
    assert_eq!(g.identity_check(Authority::Write, &p(2), now), Ok(()));
    assert_eq!(
        g.identity_check(Authority::Operational, &p(2), now),
        Err(Error::PermissionDenied)
    );
}

#[test]
fn member_without_expiration_never_expires() {
    let now: u64 = u64::MAX;
    let g = group_with(vec![member(2, Authority::Read, None)]);
    assert_eq!(g.identity_check(Authority::Read, &p(2), now), Ok(()));
}

#[test]
fn absent_sender_is_refused() {
    let g = group_with(vec![member(2, Authority::Operational, None)]);
    assert_eq!(
        g.identity_check(Authority::Read, &p(9), 5),
        Err(Error::PermissionDenied)
    );
}

#[test]
fn expired_at_exact_time_still_passes() {
    let now: u64 = 1000;
    let g = group_with(vec![member(2, Authority::Read, Some(now))]);
    assert_eq!(g.identity_check(Authority::Read, &p(2), now), Ok(()));
}

#[test]
fn principal_equality_is_by_bytes() {
    assert_eq!(p(1), p(1));
    assert_ne!(p(1), p(2));
    assert_ne!(Principal::new(vec![1, 2]), Principal::new(vec![1]));
}

#[test]
fn error_messages_name_each_variant() {
    assert_eq!(Error::NotFound.message(), "not found");
    assert_eq!(Error::AlreadyExists.message(), "already exists");
    assert_eq!(Error::PermissionDenied.message(), "no permission");
    assert_eq!(Error::IdentityExpired.message(), "identity expiration");
    assert_eq!(Error::ExternalFailure.message(), "external call failed");
}
