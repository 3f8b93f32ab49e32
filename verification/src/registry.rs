use vstd::prelude::*;

use crate::authority::Authority;
use crate::errors::Error;
use crate::group::{spec_project_op, with_project, Group, GroupView};
use crate::member::{spec_member_check, Member, MemberView};
use crate::principal::Principal;
use crate::project::{Project, ProjectView};
use crate::table::{
    lemma_lookup_at, lemma_lookup_member, lemma_lookup_none, lemma_lookup_update,
    lemma_update_absent, lemma_update_at, lemma_update_unique, table_contains, table_lookup,
    table_of, table_remove, table_unique, table_update,
};
use crate::types::Profile;
use crate::user::{
    member_keys, relations_of, spec_user_project_op, visible_groups, with_group, RelationEntryView,
    RelationProject, User, UserView,
};

verus! {

/// The process-wide store: one user record per registered identity, plus
/// the owner of the store and the audit-log sink's canister id, both set at
/// construction. The host environment supplies the acting principal and
/// the clock of every call; the store itself never reads either.
#[derive(Debug)]
pub struct Registry {
    pub owner: Principal,
    pub log_canister: Principal,
    pub users: Vec<User>,
}

/// The mathematical value of the registry.
#[verifier::ext_equal]
pub struct RegistryView {
    pub owner: Seq<u8>,
    pub log_canister: Seq<u8>,
    pub users: Seq<UserView>,
}

impl View for Registry {
    type V = RegistryView;

    open spec fn view(&self) -> RegistryView {
        RegistryView {
            owner: self.owner@,
            log_canister: self.log_canister@,
            users: self.users.deep_view(),
        }
    }
}

impl RegistryView {
    /// User identities are unique and every user is well formed.
    pub open spec fn wf(self) -> bool {
        &&& table_unique(self.users)
        &&& forall|i: int| 0 <= i < self.users.len() ==> self.users[i].wf()
    }
}

/// The registry with the user filed under `u.identity` replaced by `u`.
pub open spec fn with_user(r: RegistryView, u: UserView) -> RegistryView {
    RegistryView { users: table_update(r.users, u.identity, u), ..r }
}

/// A user after one relation pair `(gid, pid)` from `owner` was appended,
/// exactly as `add_project_relation` leaves it.
pub open spec fn user_with_relation_added(
    u: UserView,
    owner: Seq<u8>,
    gid: u64,
    pid: u64,
) -> UserView {
    UserView {
        relation_project: table_update(
            u.relation_project,
            owner,
            RelationEntryView {
                principal: owner,
                relations: relations_of(u.relation_project, owner).push(
                    RelationProject { group_id: gid, project_id: pid },
                ),
            },
        ),
        ..u
    }
}

/// A user after the first relation pair with `pid` from `owner` was
/// dropped, exactly as `remove_project_relation` leaves it.
pub open spec fn user_with_relation_removed(u: UserView, owner: Seq<u8>, pid: u64) -> UserView {
    match table_lookup(u.relation_project, owner) {
        None => u,
        Some(entry) => UserView {
            relation_project: table_update(
                u.relation_project,
                owner,
                RelationEntryView {
                    principal: owner,
                    relations: table_remove(entry.relations, pid),
                },
            ),
            ..u
        },
    }
}

/// The user list after appending the relation pair `(gid, pid)` from
/// `owner` to each of `members` in order. An unregistered member leaves the
/// list as it is; callers check registration before relying on this.
pub open spec fn add_relations(
    users: Seq<UserView>,
    members: Seq<Seq<u8>>,
    owner: Seq<u8>,
    gid: u64,
    pid: u64,
) -> Seq<UserView>
    decreases members.len(),
{
    if members.len() == 0 {
        users
    } else {
        let prev = add_relations(users, members.drop_last(), owner, gid, pid);
        match table_lookup(prev, members.last()) {
            None => prev,
            Some(u) => table_update(
                prev,
                members.last(),
                user_with_relation_added(u, owner, gid, pid),
            ),
        }
    }
}

/// The user list after dropping the relation pair with `pid` from `owner`
/// for each of `members` in order.
pub open spec fn remove_relations(
    users: Seq<UserView>,
    members: Seq<Seq<u8>>,
    owner: Seq<u8>,
    pid: u64,
) -> Seq<UserView>
    decreases members.len(),
{
    if members.len() == 0 {
        users
    } else {
        let prev = remove_relations(users, members.drop_last(), owner, pid);
        match table_lookup(prev, members.last()) {
            None => prev,
            Some(u) => table_update(
                prev,
                members.last(),
                user_with_relation_removed(u, owner, pid),
            ),
        }
    }
}

/// Whether every one of `mk` is the identity of a registered user.
pub open spec fn all_members_registered(users: Seq<UserView>, mk: Seq<Seq<u8>>) -> bool {
    forall|k: int| 0 <= k < mk.len() ==> table_contains(users, mk[k])
}

/// Whether the controllers reported for a canister admit `ii` or `sender`:
/// the check a lifecycle endpoint applies to the controller list the
/// management service hands back.
pub open spec fn spec_controller_check(
    controllers: Option<Seq<Seq<u8>>>,
    ii: Seq<u8>,
    sender: Seq<u8>,
) -> Result<(), Error> {
    match controllers {
        None => Err(Error::PermissionDenied),
        Some(cs) => if table_contains(cs, ii) || table_contains(cs, sender) {
            Ok(())
        } else {
            Err(Error::PermissionDenied)
        },
    }
}

/// The index of the first user filed under identity `id`, if any.
pub(crate) fn find_user(users: &Vec<User>, id: &Principal) -> (r: Option<usize>)
    ensures
        match r {
            Some(i) => i < users.len() && users@[i as int]@.identity == id@ && (forall|j: int|
                0 <= j < i ==> users@[j]@.identity != id@),
            None => forall|j: int| 0 <= j < users.len() ==> users@[j]@.identity != id@,
        },
{
    let n = users.len();
    let mut i: usize = 0;
    while i < n
        invariant
            n == users.len(),
            i <= n,
            forall|j: int| 0 <= j < i ==> users@[j]@.identity != id@,
        decreases n - i,
    {
        if users[i].identity == *id {
            return Some(i);
        }
        i += 1;
    }
    None
}

/// Decide whether the management service's controller list admits the
/// account or the sender; a missing list refuses everyone.
pub fn canister_controller_check(
    controllers: &Option<Vec<Principal>>,
    ii: &Principal,
    sender: &Principal,
) -> (res: Result<(), Error>)
    ensures
        res == spec_controller_check(
            match controllers {
                Some(cs) => Some(cs.deep_view()),
                None => None,
            },
            ii@,
            sender@,
        ),
{
    match controllers {
        None => Err(Error::PermissionDenied),
        Some(cs) => {
            let ghost csv = cs.deep_view();
            match crate::project::find_canister(cs, ii) {
                Some(i) => {
                    proof {
                        lemma_lookup_member(csv, i as int);
                    }
                    Ok(())
                },
                None => {
                    proof {
                        lemma_lookup_none(csv, ii@);
                    }
                    match crate::project::find_canister(cs, sender) {
                        Some(i) => {
                            proof {
                                lemma_lookup_member(csv, i as int);
                            }
                            Ok(())
                        },
                        None => {
                            proof {
                                lemma_lookup_none(csv, sender@);
                            }
                            Err(Error::PermissionDenied)
                        },
                    }
                },
            }
        },
    }
}

impl Registry {
    /// A fresh store: the constructing principal becomes the owner, the
    /// log sink address is set once here, and no user is registered.
    pub fn new(owner: Principal, log_canister: Principal) -> (r: Self)
        ensures
            r@ == (RegistryView {
                owner: owner@,
                log_canister: log_canister@,
                users: Seq::empty(),
            }),
            r@.wf(),
    {
        let r = Self { owner, log_canister, users: Vec::new() };
        proof {
            assert(r@ =~= (RegistryView {
                owner: r.owner@,
                log_canister: r.log_canister@,
                users: Seq::empty(),
            }));
        }
        r
    }

    /// Point the store at another audit-log sink; only the owner may.
    pub fn update_log_canister(&mut self, log_canister: Principal, sender: &Principal) -> (res:
        Result<(), Error>)
        requires
            old(self)@.wf(),
        ensures
            final(self)@.wf(),
            match res {
                Ok(()) => old(self)@.owner == sender@ && final(self)@ == (RegistryView {
                    log_canister: log_canister@,
                    ..old(self)@
                }),
                Err(e) => final(self)@ == old(self)@ && old(self)@.owner != sender@ && e
                    == Error::PermissionDenied,
            },
    {
        if !(self.owner == *sender) {
            return Err(Error::PermissionDenied);
        }
        self.log_canister = log_canister;
        Ok(())
    }

    /// Register the calling principal as a user; an identity already
    /// registered is refused.
    pub fn add_user(&mut self, name: String, profile: Profile, caller: &Principal, now: u64) -> (res:
        Result<(), Error>)
        requires
            old(self)@.wf(),
        ensures
            final(self)@.wf(),
            match res {
                Ok(()) => !table_contains(old(self)@.users, caller@) && final(self)@ == (
                RegistryView {
                    users: old(self)@.users.push(
                        UserView {
                            user_name: name@,
                            profile,
                            identity: caller@,
                            groups: Seq::empty(),
                            relation_project: Seq::empty(),
                            create_time: now,
                        },
                    ),
                    ..old(self)@
                }),
                Err(e) => final(self)@ == old(self)@ && table_contains(old(self)@.users, caller@)
                    && e == Error::AlreadyExists,
            },
    {
        let ghost us = self.users.deep_view();
        match find_user(&self.users, caller) {
            Some(i) => {
                proof {
                    lemma_lookup_member(us, i as int);
                }
                Err(Error::AlreadyExists)
            },
            None => {
                proof {
                    lemma_lookup_none(us, caller@);
                }
                let user = User::new(name, profile, caller.clone(), now);
                proof {
                    lemma_update_absent(us, user@.identity, user@);
                    lemma_update_unique(us, user@.identity, user@);
                }
                let ghost uv = user@;
                self.users.push(user);
                proof {
                    assert(self.users.deep_view() =~= us.push(uv));
                }
                Ok(())
            },
        }
    }

    /// Add a group to a registered user's record; the user's owner check
    /// decides.
    pub fn add_group(&mut self, account: &Principal, group: Group, caller: &Principal) -> (res:
        Result<(), Error>)
        requires
            old(self)@.wf(),
            group@.wf(),
        ensures
            final(self)@.wf(),
            match res {
                Ok(()) => {
                    let fu = table_lookup(old(self)@.users, account@);
                    fu is Some && fu->0.identity == caller@ && !table_contains(
                        fu->0.groups,
                        group@.id,
                    ) && final(self)@ == with_user(
                        old(self)@,
                        UserView { groups: fu->0.groups.push(group@), ..fu->0 },
                    )
                },
                Err(e) => final(self)@ == old(self)@ && match table_lookup(
                    old(self)@.users,
                    account@,
                ) {
                    None => e == Error::NotFound,
                    Some(u) => if u.identity != caller@ {
                        e == Error::PermissionDenied
                    } else {
                        table_contains(u.groups, group@.id) && e == Error::AlreadyExists
                    },
                },
            },
    {
        let ghost us = self.users.deep_view();
        match find_user(&self.users, account) {
            None => {
                proof {
                    lemma_lookup_none(us, account@);
                }
                Err(Error::NotFound)
            },
            Some(i) => {
                proof {
                    lemma_lookup_at(us, i as int);
                }
                let u = &mut self.users[i];
                let r = u.add_group(group, caller);
                proof {
                    self.relate_user_update(us, i as int, r is Ok);
                }
                r
            },
        }
    }

    /// Remove a group from a registered user's record; the user's owner
    /// check decides, and a missing group id is a no-op.
    pub fn remove_group(&mut self, account: &Principal, group_id: u64, caller: &Principal) -> (res:
        Result<(), Error>)
        requires
            old(self)@.wf(),
        ensures
            final(self)@.wf(),
            match res {
                Ok(()) => {
                    let fu = table_lookup(old(self)@.users, account@);
                    fu is Some && fu->0.identity == caller@ && final(self)@ == with_user(
                        old(self)@,
                        UserView { groups: table_remove(fu->0.groups, group_id), ..fu->0 },
                    )
                },
                Err(e) => final(self)@ == old(self)@ && match table_lookup(
                    old(self)@.users,
                    account@,
                ) {
                    None => e == Error::NotFound,
                    Some(u) => u.identity != caller@ && e == Error::PermissionDenied,
                },
            },
    {
        let ghost us = self.users.deep_view();
        match find_user(&self.users, account) {
            None => {
                proof {
                    lemma_lookup_none(us, account@);
                }
                Err(Error::NotFound)
            },
            Some(i) => {
                proof {
                    lemma_lookup_at(us, i as int);
                }
                let u = &mut self.users[i];
                let r = u.remove_group(group_id, caller);
                proof {
                    self.relate_user_update(us, i as int, r is Ok);
                }
                r
            },
        }
    }

    /// Read a registered user's record under its own visibility rule.
    pub fn get_user_info(&self, account: &Principal, caller: &Principal, now: u64) -> (res: Result<
        User,
        Error,
    >)
        ensures
            match res {
                Ok(u) => {
                    let fu = table_lookup(self@.users, account@);
                    fu is Some && if caller@ == fu->0.identity {
                        u@ == fu->0
                    } else {
                        fu->0.profile == Profile::Public && u@ == (UserView {
                            groups: visible_groups(fu->0.groups, caller@, now),
                            ..fu->0
                        })
                    }
                },
                Err(e) => match table_lookup(self@.users, account@) {
                    None => e == Error::NotFound,
                    Some(u) => caller@ != u.identity && u.profile == Profile::Private && e
                        == Error::PermissionDenied,
                },
            },
    {
        let ghost us = self.users.deep_view();
        match find_user(&self.users, account) {
            None => {
                proof {
                    lemma_lookup_none(us, account@);
                }
                Err(Error::NotFound)
            },
            Some(i) => {
                proof {
                    lemma_lookup_at(us, i as int);
                }
                self.users[i].get_user_info(caller, now)
            },
        }
    }

    /// Add a project to a group of `account`'s tree; the group demands
    /// `Operational`. The relation index of every principal already filed
    /// as a member of the new project is updated in the same call; to keep
    /// the pair transactional, every such principal must itself be
    /// registered before anything is written.
    pub fn add_project(
        &mut self,
        account: &Principal,
        group_id: u64,
        project: Project,
        caller: &Principal,
        now: u64,
    ) -> (res: Result<(), Error>)
        requires
            old(self)@.wf(),
            project@.wf(),
        ensures
            final(self)@.wf(),
            match res {
                Ok(()) => {
                    let fu = table_lookup(old(self)@.users, account@);
                    fu is Some && all_members_registered(
                        old(self)@.users,
                        member_keys(project@.members),
                    ) && {
                        let found_g = table_lookup(fu->0.groups, group_id);
                        found_g is Some && spec_member_check(
                            found_g->0.members,
                            caller@,
                            Authority::Operational,
                            now,
                        ) is Ok && !table_contains(found_g->0.projects, project@.id) && {
                            let u2 = with_group(
                                fu->0,
                                GroupView {
                                    projects: found_g->0.projects.push(project@),
                                    ..found_g->0
                                },
                            );
                            let users1 = table_update(old(self)@.users, account@, u2);
                            final(self)@ == (RegistryView {
                                users: add_relations(
                                    users1,
                                    member_keys(project@.members),
                                    account@,
                                    group_id,
                                    project@.id,
                                ),
                                ..old(self)@
                            })
                        }
                    }
                },
                Err(e) => final(self)@ == old(self)@ && match table_lookup(
                    old(self)@.users,
                    account@,
                ) {
                    None => e == Error::NotFound,
                    Some(u) => if !all_members_registered(
                        old(self)@.users,
                        member_keys(project@.members),
                    ) {
                        e == Error::NotFound
                    } else {
                        match table_lookup(u.groups, group_id) {
                            None => e == Error::NotFound,
                            Some(g) => match spec_member_check(
                                g.members,
                                caller@,
                                Authority::Operational,
                                now,
                            ) {
                                Err(x) => e == x,
                                Ok(()) => table_contains(g.projects, project@.id)
                                    && e == Error::AlreadyExists,
                            },
                        }
                    },
                },
            },
    {
        let ghost us = self.users.deep_view();
        let project_id = project.id;
        let i = match find_user(&self.users, account) {
            None => {
                proof {
                    lemma_lookup_none(us, account@);
                }
                return Err(Error::NotFound);
            },
            Some(i) => i,
        };
        proof {
            lemma_lookup_at(us, i as int);
        }
        let mkeys = crate::user::member_identities(&project.members);
        if !self.all_registered(&mkeys) {
            return Err(Error::NotFound);
        }
        let ghost mseq = mkeys.deep_view();
        let u = &mut self.users[i];
        let r = u.add_project(group_id, project, caller, now);
        proof {
            self.relate_user_update(us, i as int, r is Ok);
        }
        let members = match r {
            Err(e) => {
                return Err(e);
            },
            Ok(m) => m,
        };
        proof {
            assert(members.deep_view() == mseq);
            assert forall|k: int|
                0 <= k < mseq.len() implies table_contains(
                self.users.deep_view(),
                mseq[k],
            ) by {
                lemma_lookup_update(
                    us,
                    us[i as int].identity,
                    self.users.deep_view()[i as int],
                    mseq[k],
                );
            }
        }
        self.fan_out_add_relations(members, account, group_id, project_id);
        Ok(())
    }

    /// Remove a project from a group of `account`'s tree. The owner may
    /// always; anyone else needs the group's `Operational` check. The
    /// relation entries of every member of the removed project are revoked
    /// in the same call, so every such principal must itself be registered
    /// before anything is written.
    #[verifier::rlimit(100)]
    #[verifier::spinoff_prover]
    pub fn remove_project(
        &mut self,
        account: &Principal,
        group_id: u64,
        project_id: u64,
        caller: &Principal,
        now: u64,
    ) -> (res: Result<(), Error>)
        requires
            old(self)@.wf(),
        ensures
            final(self)@.wf(),
            match res {
                Ok(()) => {
                    let fu = table_lookup(old(self)@.users, account@);
                    fu is Some && {
                        let found_g = table_lookup(fu->0.groups, group_id);
                        found_g is Some && {
                            let mk = match table_lookup(found_g->0.projects, project_id) {
                                Some(p) => member_keys(p.members),
                                None => Seq::empty(),
                            };
                            all_members_registered(old(self)@.users, mk) && (caller@
                                == fu->0.identity || spec_member_check(
                                found_g->0.members,
                                caller@,
                                Authority::Operational,
                                now,
                            ) is Ok) && {
                                let u2 = with_group(
                                    fu->0,
                                    GroupView {
                                        projects: table_remove(found_g->0.projects, project_id),
                                        ..found_g->0
                                    },
                                );
                                let users1 = table_update(old(self)@.users, account@, u2);
                                final(self)@ == (RegistryView {
                                    users: remove_relations(users1, mk, account@, project_id),
                                    ..old(self)@
                                })
                            }
                        }
                    }
                },
                Err(e) => final(self)@ == old(self)@ && match table_lookup(
                    old(self)@.users,
                    account@,
                ) {
                    None => e == Error::NotFound,
                    Some(u) => match table_lookup(u.groups, group_id) {
                        None => e == Error::NotFound,
                        Some(g) => {
                            let mk = match table_lookup(g.projects, project_id) {
                                Some(p) => member_keys(p.members),
                                None => Seq::empty(),
                            };
                            if !all_members_registered(old(self)@.users, mk) {
                                e == Error::NotFound
                            } else {
                                caller@ != u.identity && Err::<(), Error>(e) == spec_member_check(
                                    g.members,
                                    caller@,
                                    Authority::Operational,
                                    now,
                                )
                            }
                        },
                    },
                },
            },
    {
        let ghost us = self.users.deep_view();
        let i = match find_user(&self.users, account) {
            None => {
                proof {
                    lemma_lookup_none(us, account@);
                }
                return Err(Error::NotFound);
            },
            Some(i) => i,
        };
        proof {
            lemma_lookup_at(us, i as int);
        }
        let mkeys = {
            let user_ref = &self.users[i];
            let ghost gs = user_ref.groups.deep_view();
            match crate::user::find_group(&user_ref.groups, group_id) {
                None => {
                    proof {
                        lemma_lookup_none(gs, group_id);
                    }
                    return Err(Error::NotFound);
                },
                Some(gi) => {
                    proof {
                        lemma_lookup_at(gs, gi as int);
                    }
                    let g_ref = &user_ref.groups[gi];
                    let ghost ps = g_ref.projects.deep_view();
                    match crate::group::find_project(&g_ref.projects, project_id) {
                        None => {
                            proof {
                                lemma_lookup_none(ps, project_id);
                            }
                            let v: Vec<Principal> = Vec::new();
                            proof {
                                assert(v.deep_view() =~= Seq::<Seq<u8>>::empty());
                            }
                            v
                        },
                        Some(pi) => {
                            proof {
                                lemma_lookup_at(ps, pi as int);
                            }
                            crate::user::member_identities(&g_ref.projects[pi].members)
                        },
                    }
                },
            }
        };
        let registered = self.all_registered(&mkeys);
        if !registered {
            proof {
                let fu = table_lookup(us, account@);
                let found_g = table_lookup(fu->0.groups, group_id);
                let mk = match table_lookup(found_g->0.projects, project_id) {
                    Some(p) => member_keys(p.members),
                    None => Seq::<Seq<u8>>::empty(),
                };
                assert(mkeys.deep_view() =~= mk);
                assert(!all_members_registered(us, mk));
            }
            return Err(Error::NotFound);
        }
        let ghost mseq = mkeys.deep_view();
        let u = &mut self.users[i];
        let r = u.remove_project(group_id, project_id, caller, now);
        proof {
            self.relate_user_update(us, i as int, r is Ok);
        }
        let members = match r {
            Err(e) => {
                return Err(e);
            },
            Ok(m) => m,
        };
        proof {
            assert(members.deep_view() == mseq);
            assert forall|k: int|
                0 <= k < mseq.len() implies table_contains(
                self.users.deep_view(),
                mseq[k],
            ) by {
                lemma_lookup_update(
                    us,
                    us[i as int].identity,
                    self.users.deep_view()[i as int],
                    mseq[k],
                );
            }
        }
        self.fan_out_remove_relations(members, account, project_id);
        Ok(())
    }

    /// File a member into a group of `account`'s tree; only the account's
    /// own identity may.
    pub fn add_group_member(
        &mut self,
        account: &Principal,
        group_id: u64,
        member: Member,
        caller: &Principal,
    ) -> (res: Result<(), Error>)
        requires
            old(self)@.wf(),
        ensures
            final(self)@.wf(),
            match res {
                Ok(()) => {
                    let fu = table_lookup(old(self)@.users, account@);
                    fu is Some && fu->0.identity == caller@ && {
                        let found_g = table_lookup(fu->0.groups, group_id);
                        found_g is Some && final(self)@ == with_user(
                            old(self)@,
                            with_group(
                                fu->0,
                                GroupView {
                                    members: table_update(
                                        found_g->0.members,
                                        member@.identity,
                                        member@,
                                    ),
                                    ..found_g->0
                                },
                            ),
                        )
                    }
                },
                Err(e) => final(self)@ == old(self)@ && match table_lookup(
                    old(self)@.users,
                    account@,
                ) {
                    None => e == Error::NotFound,
                    Some(u) => if u.identity != caller@ {
                        e == Error::PermissionDenied
                    } else {
                        !table_contains(u.groups, group_id) && e == Error::NotFound
                    },
                },
            },
    {
        let ghost us = self.users.deep_view();
        match find_user(&self.users, account) {
            None => {
                proof {
                    lemma_lookup_none(us, account@);
                }
                Err(Error::NotFound)
            },
            Some(i) => {
                proof {
                    lemma_lookup_at(us, i as int);
                }
                let u = &mut self.users[i];
                let r = u.add_group_member(group_id, member, caller);
                proof {
                    self.relate_user_update(us, i as int, r is Ok);
                }
                r
            },
        }
    }

    /// Drop a member from a group of `account`'s tree; the member itself
    /// may always, anyone else needs the account's own identity.
    pub fn remove_group_member(
        &mut self,
        account: &Principal,
        group_id: u64,
        member: &Principal,
        caller: &Principal,
    ) -> (res: Result<(), Error>)
        requires
            old(self)@.wf(),
        ensures
            final(self)@.wf(),
            match res {
                Ok(()) => {
                    let fu = table_lookup(old(self)@.users, account@);
                    fu is Some && (member@ != caller@ ==> fu->0.identity == caller@) && {
                        let found_g = table_lookup(fu->0.groups, group_id);
                        found_g is Some && final(self)@ == with_user(
                            old(self)@,
                            with_group(
                                fu->0,
                                GroupView {
                                    members: table_remove(found_g->0.members, member@),
                                    ..found_g->0
                                },
                            ),
                        )
                    }
                },
                Err(e) => final(self)@ == old(self)@ && match table_lookup(
                    old(self)@.users,
                    account@,
                ) {
                    None => e == Error::NotFound,
                    Some(u) => if member@ != caller@ && u.identity != caller@ {
                        e == Error::PermissionDenied
                    } else {
                        !table_contains(u.groups, group_id) && e == Error::NotFound
                    },
                },
            },
    {
        let ghost us = self.users.deep_view();
        match find_user(&self.users, account) {
            None => {
                proof {
                    lemma_lookup_none(us, account@);
                }
                Err(Error::NotFound)
            },
            Some(i) => {
                proof {
                    lemma_lookup_at(us, i as int);
                }
                let u = &mut self.users[i];
                let r = u.remove_group_member(group_id, member, caller);
                proof {
                    self.relate_user_update(us, i as int, r is Ok);
                }
                r
            },
        }
    }

    /// File a member into a project of `account`'s tree; the owning group
    /// demands `Operational`. The member's own relation index is updated
    /// in the same call, so the member must be a registered user before
    /// anything is written.
    pub fn add_project_member(
        &mut self,
        account: &Principal,
        group_id: u64,
        project_id: u64,
        member: Member,
        caller: &Principal,
        now: u64,
    ) -> (res: Result<(), Error>)
        requires
            old(self)@.wf(),
        ensures
            final(self)@.wf(),
            match res {
                Ok(()) => {
                    let fu = table_lookup(old(self)@.users, account@);
                    fu is Some && table_contains(old(self)@.users, member@.identity) && {
                        let found_g = table_lookup(fu->0.groups, group_id);
                        found_g is Some && spec_member_check(
                            found_g->0.members,
                            caller@,
                            Authority::Operational,
                            now,
                        ) is Ok && {
                            let found_p = table_lookup(found_g->0.projects, project_id);
                            found_p is Some && {
                                let u2 = with_group(
                                    fu->0,
                                    with_project(
                                        found_g->0,
                                        ProjectView {
                                            members: table_update(
                                                found_p->0.members,
                                                member@.identity,
                                                member@,
                                            ),
                                            ..found_p->0
                                        },
                                    ),
                                );
                                let users1 = table_update(old(self)@.users, account@, u2);
                                let w = table_lookup(users1, member@.identity);
                                w is Some && final(self)@ == (RegistryView {
                                    users: table_update(
                                        users1,
                                        member@.identity,
                                        user_with_relation_added(
                                            w->0,
                                            account@,
                                            group_id,
                                            project_id,
                                        ),
                                    ),
                                    ..old(self)@
                                })
                            }
                        }
                    }
                },
                Err(e) => final(self)@ == old(self)@ && match table_lookup(
                    old(self)@.users,
                    account@,
                ) {
                    None => e == Error::NotFound,
                    Some(u) => if !table_contains(old(self)@.users, member@.identity) {
                        e == Error::NotFound
                    } else {
                        match table_lookup(u.groups, group_id) {
                            None => e == Error::NotFound,
                            Some(g) => match spec_member_check(
                                g.members,
                                caller@,
                                Authority::Operational,
                                now,
                            ) {
                                Err(x) => e == x,
                                Ok(()) => !table_contains(g.projects, project_id) && e
                                    == Error::NotFound,
                            },
                        }
                    },
                },
            },
    {
        let ghost us = self.users.deep_view();
        let i = match find_user(&self.users, account) {
            None => {
                proof {
                    lemma_lookup_none(us, account@);
                }
                return Err(Error::NotFound);
            },
            Some(i) => i,
        };
        proof {
            lemma_lookup_at(us, i as int);
        }
        let member_id = member.identity.clone();
        match find_user(&self.users, &member_id) {
            None => {
                proof {
                    lemma_lookup_none(us, member_id@);
                }
                return Err(Error::NotFound);
            },
            Some(j0) => {
                proof {
                    lemma_lookup_member(us, j0 as int);
                }
            },
        }
        let u = &mut self.users[i];
        let r = u.add_project_member(group_id, project_id, member, caller, now);
        proof {
            self.relate_user_update(us, i as int, r is Ok);
        }
        match r {
            Err(e) => Err(e),
            Ok(()) => {
                let ghost users1 = self.users.deep_view();
                proof {
                    lemma_lookup_update(
                        us,
                        us[i as int].identity,
                        users1[i as int],
                        member_id@,
                    );
                }
                let j = match find_user(&self.users, &member_id) {
                    None => {
                        proof {
                            lemma_lookup_none(users1, member_id@);
                        }
                        vstd::pervasive::unreached()
                    },
                    Some(j) => j,
                };
                proof {
                    lemma_lookup_at(users1, j as int);
                }
                let w = &mut self.users[j];
                let wr = w.add_project_relation(account, group_id, project_id);
                proof {
                    self.relate_user_update(users1, j as int, wr is Ok);
                }
                Ok(())
            },
        }
    }

    /// Drop a member from a project of `account`'s tree; the member's own
    /// relation entry for `account` is revoked in the same call, so the
    /// member must be a registered user before anything is written.
    pub fn remove_project_member(
        &mut self,
        account: &Principal,
        group_id: u64,
        project_id: u64,
        member: &Principal,
        caller: &Principal,
        now: u64,
    ) -> (res: Result<(), Error>)
        requires
            old(self)@.wf(),
        ensures
            final(self)@.wf(),
            match res {
                Ok(()) => {
                    let fu = table_lookup(old(self)@.users, account@);
                    fu is Some && table_contains(old(self)@.users, member@) && {
                        let found_g = table_lookup(fu->0.groups, group_id);
                        found_g is Some && (member@ != caller@ ==> spec_member_check(
                            found_g->0.members,
                            caller@,
                            Authority::Operational,
                            now,
                        ) is Ok) && {
                            let found_p = table_lookup(found_g->0.projects, project_id);
                            found_p is Some && {
                                let u2 = with_group(
                                    fu->0,
                                    with_project(
                                        found_g->0,
                                        ProjectView {
                                            members: table_remove(found_p->0.members, member@),
                                            ..found_p->0
                                        },
                                    ),
                                );
                                let users1 = table_update(old(self)@.users, account@, u2);
                                let w = table_lookup(users1, member@);
                                w is Some && final(self)@ == (RegistryView {
                                    users: table_update(
                                        users1,
                                        member@,
                                        user_with_relation_removed(w->0, account@, project_id),
                                    ),
                                    ..old(self)@
                                })
                            }
                        }
                    }
                },
                Err(e) => final(self)@ == old(self)@ && match table_lookup(
                    old(self)@.users,
                    account@,
                ) {
                    None => e == Error::NotFound,
                    Some(u) => if !table_contains(old(self)@.users, member@) {
                        e == Error::NotFound
                    } else {
                        match table_lookup(u.groups, group_id) {
                            None => e == Error::NotFound,
                            Some(g) => if member@ != caller@ && spec_member_check(
                                g.members,
                                caller@,
                                Authority::Operational,
                                now,
                            ) is Err {
                                Err::<(), Error>(e) == spec_member_check(
                                    g.members,
                                    caller@,
                                    Authority::Operational,
                                    now,
                                )
                            } else {
                                !table_contains(g.projects, project_id) && e == Error::NotFound
                            },
                        }
                    },
                },
            },
    {
        let ghost us = self.users.deep_view();
        let i = match find_user(&self.users, account) {
            None => {
                proof {
                    lemma_lookup_none(us, account@);
                }
                return Err(Error::NotFound);
            },
            Some(i) => i,
        };
        proof {
            lemma_lookup_at(us, i as int);
        }
        match find_user(&self.users, member) {
            None => {
                proof {
                    lemma_lookup_none(us, member@);
                }
                return Err(Error::NotFound);
            },
            Some(j0) => {
                proof {
                    lemma_lookup_member(us, j0 as int);
                }
            },
        }
        let u = &mut self.users[i];
        let r = u.remove_project_member(group_id, project_id, member, caller, now);
        proof {
            self.relate_user_update(us, i as int, r is Ok);
        }
        match r {
            Err(e) => Err(e),
            Ok(()) => {
                let ghost users1 = self.users.deep_view();
                proof {
                    lemma_lookup_update(us, us[i as int].identity, users1[i as int], member@);
                }
                let j = match find_user(&self.users, member) {
                    None => {
                        proof {
                            lemma_lookup_none(users1, member@);
                        }
                        vstd::pervasive::unreached()
                    },
                    Some(j) => j,
                };
                proof {
                    lemma_lookup_at(users1, j as int);
                }
                let w = &mut self.users[j];
                let wr = w.remove_project_relation(account, project_id);
                proof {
                    self.relate_user_update(users1, j as int, wr is Ok);
                }
                Ok(())
            },
        }
    }

    /// Whether every principal of `ids` is a registered user.
    fn all_registered(&self, ids: &Vec<Principal>) -> (b: bool)
        ensures
            b == all_members_registered(self.users.deep_view(), ids.deep_view()),
    {
        let ghost us = self.users.deep_view();
        let n = ids.len();
        let mut t: usize = 0;
        while t < n
            invariant
                n == ids.len(),
                t <= n,
                us == self.users.deep_view(),
                forall|k: int| 0 <= k < t ==> table_contains(us, ids.deep_view()[k]),
            decreases n - t,
        {
            match find_user(&self.users, &ids[t]) {
                None => {
                    proof {
                        lemma_lookup_none(us, ids.deep_view()[t as int]);
                    }
                    return false;
                },
                Some(j) => {
                    proof {
                        lemma_lookup_member(us, j as int);
                    }
                },
            }
            t += 1;
        }
        true
    }

    /// Append the relation pair `(group_id, project_id)` from `account` to
    /// every principal of `members`, each of which must be registered.
    fn fan_out_add_relations(
        &mut self,
        members: Vec<Principal>,
        account: &Principal,
        group_id: u64,
        project_id: u64,
    )
        requires
            old(self)@.wf(),
            all_members_registered(old(self)@.users, members.deep_view()),
        ensures
            final(self)@.wf(),
            final(self)@ == (RegistryView {
                users: add_relations(
                    old(self)@.users,
                    members.deep_view(),
                    account@,
                    group_id,
                    project_id,
                ),
                ..old(self)@
            }),
    {
        let ghost base = self.users.deep_view();
        let ghost mseq = members.deep_view();
        let n = members.len();
        let mut t: usize = 0;
        proof {
            assert(mseq.take(0) =~= Seq::<Seq<u8>>::empty());
        }
        while t < n
            invariant
                n == members.len(),
                t <= n,
                members.deep_view() == mseq,
                self.owner@ == old(self).owner@,
                self.log_canister@ == old(self).log_canister@,
                base == old(self)@.users,
                forall|k: int| 0 <= k < mseq.len() ==> table_contains(base, mseq[k]),
                self.users.deep_view() == add_relations(
                    base,
                    mseq.take(t as int),
                    account@,
                    group_id,
                    project_id,
                ),
                table_unique(self.users.deep_view()),
                forall|k: int|
                    0 <= k < self.users.deep_view().len() ==> self.users.deep_view()[k].wf(),
                forall|id: Seq<u8>|
                    #[trigger] table_contains(self.users.deep_view(), id) == table_contains(
                        base,
                        id,
                    ),
            decreases n - t,
        {
            let ghost cur = self.users.deep_view();
            proof {
                assert(mseq.take(t + 1).drop_last() =~= mseq.take(t as int));
                assert(mseq.take(t + 1).last() == mseq[t as int]);
                assert(table_contains(cur, mseq[t as int]));
            }
            let j = match find_user(&self.users, &members[t]) {
                None => {
                    proof {
                        lemma_lookup_none(cur, mseq[t as int]);
                    }
                    vstd::pervasive::unreached()
                },
                Some(j) => j,
            };
            proof {
                lemma_lookup_at(cur, j as int);
            }
            let w = &mut self.users[j];
            let wr = w.add_project_relation(account, group_id, project_id);
            proof {
                self.relate_user_update(cur, j as int, wr is Ok);
                assert(wr is Ok);
                let newu = self.users.deep_view()[j as int];
                assert(newu == user_with_relation_added(
                    cur[j as int],
                    account@,
                    group_id,
                    project_id,
                ));
                assert forall|id: Seq<u8>|
                    #[trigger] table_contains(self.users.deep_view(), id) == table_contains(
                        base,
                        id,
                    ) by {
                    lemma_lookup_update(cur, cur[j as int].identity, newu, id);
                    assert(table_contains(cur, cur[j as int].identity) == table_contains(
                        base,
                        cur[j as int].identity,
                    ));
                    assert(table_contains(cur, id) == table_contains(base, id));
                }
            }
            t += 1;
        }
        proof {
            assert(mseq.take(n as int) =~= mseq);
            assert(final(self)@ =~= (RegistryView {
                users: add_relations(base, mseq, account@, group_id, project_id),
                ..old(self)@
            }));
        }
    }

    /// Drop the relation pair with `project_id` from `account` for every
    /// principal of `members`, each of which must be registered.
    fn fan_out_remove_relations(
        &mut self,
        members: Vec<Principal>,
        account: &Principal,
        project_id: u64,
    )
        requires
            old(self)@.wf(),
            all_members_registered(old(self)@.users, members.deep_view()),
        ensures
            final(self)@.wf(),
            final(self)@ == (RegistryView {
                users: remove_relations(
                    old(self)@.users,
                    members.deep_view(),
                    account@,
                    project_id,
                ),
                ..old(self)@
            }),
    {
        let ghost base = self.users.deep_view();
        let ghost mseq = members.deep_view();
        let n = members.len();
        let mut t: usize = 0;
        proof {
            assert(mseq.take(0) =~= Seq::<Seq<u8>>::empty());
        }
        while t < n
            invariant
                n == members.len(),
                t <= n,
                members.deep_view() == mseq,
                self.owner@ == old(self).owner@,
                self.log_canister@ == old(self).log_canister@,
                base == old(self)@.users,
                forall|k: int| 0 <= k < mseq.len() ==> table_contains(base, mseq[k]),
                self.users.deep_view() == remove_relations(
                    base,
                    mseq.take(t as int),
                    account@,
                    project_id,
                ),
                table_unique(self.users.deep_view()),
                forall|k: int|
                    0 <= k < self.users.deep_view().len() ==> self.users.deep_view()[k].wf(),
                forall|id: Seq<u8>|
                    #[trigger] table_contains(self.users.deep_view(), id) == table_contains(
                        base,
                        id,
                    ),
            decreases n - t,
        {
            let ghost cur = self.users.deep_view();
            proof {
                assert(mseq.take(t + 1).drop_last() =~= mseq.take(t as int));
                assert(mseq.take(t + 1).last() == mseq[t as int]);
                assert(table_contains(cur, mseq[t as int]));
            }
            let j = match find_user(&self.users, &members[t]) {
                None => {
                    proof {
                        lemma_lookup_none(cur, mseq[t as int]);
                    }
                    vstd::pervasive::unreached()
                },
                Some(j) => j,
            };
            proof {
                lemma_lookup_at(cur, j as int);
            }
            let w = &mut self.users[j];
            let wr = w.remove_project_relation(account, project_id);
            proof {
                self.relate_user_update(cur, j as int, wr is Ok);
                assert(wr is Ok);
                let newu = self.users.deep_view()[j as int];
                assert(newu == user_with_relation_removed(cur[j as int], account@, project_id));
                assert forall|id: Seq<u8>|
                    #[trigger] table_contains(self.users.deep_view(), id) == table_contains(
                        base,
                        id,
                    ) by {
                    lemma_lookup_update(cur, cur[j as int].identity, newu, id);
                    assert(table_contains(cur, cur[j as int].identity) == table_contains(
                        base,
                        cur[j as int].identity,
                    ));
                    assert(table_contains(cur, id) == table_contains(base, id));
                }
            }
            t += 1;
        }
        proof {
            assert(mseq.take(n as int) =~= mseq);
            assert(final(self)@ =~= (RegistryView {
                users: remove_relations(base, mseq, account@, project_id),
                ..old(self)@
            }));
        }
    }

    /// After a delegated call mutated the user at index `i`, tie the new
    /// user list to a table update of the old one (or to the old one
    /// itself when the call failed and left the user unchanged).
    proof fn relate_user_update(&self, us: Seq<UserView>, i: int, ok: bool)
        requires
            0 <= i < us.len(),
            table_unique(us),
            forall|k: int| 0 <= k < us.len() ==> us[k].wf(),
            self.users.deep_view().len() == us.len(),
            forall|k: int| 0 <= k < us.len() && k != i ==> self.users.deep_view()[k] == us[k],
            self.users.deep_view()[i].identity == us[i].identity,
            self.users.deep_view()[i].wf(),
            forall|j: int| 0 <= j < i ==> us[j].identity != us[i].identity,
            !ok ==> self.users.deep_view()[i] == us[i],
        ensures
            ok ==> self.users.deep_view() == table_update(
                us,
                us[i].identity,
                self.users.deep_view()[i],
            ),
            !ok ==> self.users.deep_view() == us,
            table_unique(self.users.deep_view()),
            forall|k: int|
                0 <= k < self.users.deep_view().len() ==> self.users.deep_view()[k].wf(),
    {
        let newu = self.users.deep_view()[i];
        assert(self.users.deep_view() =~= us.update(i, newu));
        lemma_update_at(us, i, newu);
        lemma_update_unique(us, us[i].identity, newu);
        if !ok {
            assert(self.users.deep_view() =~= us);
        }
    }
}

impl Registry {
    /// Track one more canister inside a project of `account`'s tree.
    pub fn add_project_canister(
        &mut self,
        account: &Principal,
        group_id: u64,
        project_id: u64,
        canister: Principal,
        caller: &Principal,
        now: u64,
    ) -> (res: Result<(), Error>)
        requires
            old(self)@.wf(),
        ensures
            final(self)@.wf(),
            match res {
                Ok(()) => {
                    let fu = table_lookup(old(self)@.users, account@);
                    fu is Some && {
                        let r = spec_user_project_op(
                            fu->0,
                            group_id,
                            project_id,
                            caller@,
                            Authority::Write,
                            now,
                        );
                        r is Ok && !table_contains(r->Ok_0.1.canisters, canister@) && final(self)@
                            == with_user(
                            old(self)@,
                            with_group(
                                fu->0,
                                with_project(
                                    r->Ok_0.0,
                                    ProjectView {
                                        canisters: r->Ok_0.1.canisters.push(canister@),
                                        ..r->Ok_0.1
                                    },
                                ),
                            ),
                        )
                    }
                },
                Err(e) => final(self)@ == old(self)@ && match table_lookup(
                    old(self)@.users,
                    account@,
                ) {
                    None => e == Error::NotFound,
                    Some(u) => match spec_user_project_op(
                        u,
                        group_id,
                        project_id,
                        caller@,
                        Authority::Write,
                        now,
                    ) {
                        Err(x) => e == x,
                        Ok(r) => table_contains(r.1.canisters, canister@)
                            && e == Error::AlreadyExists,
                    },
                },
            },
    {
        let ghost us = self.users.deep_view();
        match find_user(&self.users, account) {
            None => {
                proof {
                    lemma_lookup_none(us, account@);
                }
                Err(Error::NotFound)
            },
            Some(i) => {
                proof {
                    lemma_lookup_at(us, i as int);
                }
                let u = &mut self.users[i];
                let r = u.add_project_canister(group_id, project_id, canister, caller, now);
                proof {
                    self.relate_user_update(us, i as int, r is Ok);
                }
                r
            },
        }
    }

    /// Stop tracking a canister inside a project of `account`'s tree.
    pub fn remove_project_canister(
        &mut self,
        account: &Principal,
        group_id: u64,
        project_id: u64,
        canister: &Principal,
        caller: &Principal,
        now: u64,
    ) -> (res: Result<(), Error>)
        requires
            old(self)@.wf(),
        ensures
            final(self)@.wf(),
            match res {
                Ok(()) => {
                    let fu = table_lookup(old(self)@.users, account@);
                    fu is Some && {
                        let r = spec_user_project_op(
                            fu->0,
                            group_id,
                            project_id,
                            caller@,
                            Authority::Write,
                            now,
                        );
                        r is Ok && table_contains(r->Ok_0.1.canisters, canister@) && final(self)@
                            == with_user(
                            old(self)@,
                            with_group(
                                fu->0,
                                with_project(
                                    r->Ok_0.0,
                                    ProjectView {
                                        canisters: table_remove(r->Ok_0.1.canisters, canister@),
                                        ..r->Ok_0.1
                                    },
                                ),
                            ),
                        )
                    }
                },
                Err(e) => final(self)@ == old(self)@ && match table_lookup(
                    old(self)@.users,
                    account@,
                ) {
                    None => e == Error::NotFound,
                    Some(u) => match spec_user_project_op(
                        u,
                        group_id,
                        project_id,
                        caller@,
                        Authority::Write,
                        now,
                    ) {
                        Err(x) => e == x,
                        Ok(r) => !table_contains(r.1.canisters, canister@)
                            && e == Error::NotFound,
                    },
                },
            },
    {
        let ghost us = self.users.deep_view();
        match find_user(&self.users, account) {
            None => {
                proof {
                    lemma_lookup_none(us, account@);
                }
                Err(Error::NotFound)
            },
            Some(i) => {
                proof {
                    lemma_lookup_at(us, i as int);
                }
                let u = &mut self.users[i];
                let r = u.remove_project_canister(group_id, project_id, canister, caller, now);
                proof {
                    self.relate_user_update(us, i as int, r is Ok);
                }
                r
            },
        }
    }

    /// Replace a project's git repository url.
    pub fn update_project_git_repo_url(
        &mut self,
        account: &Principal,
        group_id: u64,
        project_id: u64,
        git: String,
        caller: &Principal,
        now: u64,
    ) -> (res: Result<(), Error>)
        requires
            old(self)@.wf(),
        ensures
            final(self)@.wf(),
            match res {
                Ok(()) => {
                    let fu = table_lookup(old(self)@.users, account@);
                    fu is Some && {
                        let r = spec_user_project_op(
                            fu->0,
                            group_id,
                            project_id,
                            caller@,
                            Authority::Write,
                            now,
                        );
                        r is Ok && final(self)@ == with_user(
                            old(self)@,
                            with_group(
                                fu->0,
                                with_project(
                                    r->Ok_0.0,
                                    ProjectView { git_repo_url: git@, ..r->Ok_0.1 },
                                ),
                            ),
                        )
                    }
                },
                Err(e) => final(self)@ == old(self)@ && match table_lookup(
                    old(self)@.users,
                    account@,
                ) {
                    None => e == Error::NotFound,
                    Some(u) => Err::<(GroupView, ProjectView), Error>(e) == spec_user_project_op(
                        u,
                        group_id,
                        project_id,
                        caller@,
                        Authority::Write,
                        now,
                    ),
                },
            },
    {
        let ghost us = self.users.deep_view();
        match find_user(&self.users, account) {
            None => {
                proof {
                    lemma_lookup_none(us, account@);
                }
                Err(Error::NotFound)
            },
            Some(i) => {
                proof {
                    lemma_lookup_at(us, i as int);
                }
                let u = &mut self.users[i];
                let r = u.update_project_git_repo_url(group_id, project_id, git, caller, now);
                proof {
                    self.relate_user_update(us, i as int, r is Ok);
                }
                r
            },
        }
    }

    /// Replace a project's cycle floor; demands `Write` at the group level
    /// and then at the project level.
    pub fn update_canister_cycle_floor(
        &mut self,
        account: &Principal,
        group_id: u64,
        project_id: u64,
        floor: u128,
        caller: &Principal,
        now: u64,
    ) -> (res: Result<(), Error>)
        requires
            old(self)@.wf(),
        ensures
            final(self)@.wf(),
            match res {
                Ok(()) => {
                    let fu = table_lookup(old(self)@.users, account@);
                    fu is Some && {
                        let found_g = table_lookup(fu->0.groups, group_id);
                        found_g is Some && spec_member_check(
                            found_g->0.members,
                            caller@,
                            Authority::Write,
                            now,
                        ) is Ok && {
                            let r = spec_project_op(
                                found_g->0,
                                project_id,
                                caller@,
                                Authority::Write,
                                now,
                            );
                            r is Ok && final(self)@ == with_user(
                                old(self)@,
                                with_group(
                                    fu->0,
                                    with_project(
                                        found_g->0,
                                        ProjectView { canister_cycle_floor: floor, ..r->Ok_0 },
                                    ),
                                ),
                            )
                        }
                    }
                },
                Err(e) => final(self)@ == old(self)@ && match table_lookup(
                    old(self)@.users,
                    account@,
                ) {
                    None => e == Error::NotFound,
                    Some(u) => match table_lookup(u.groups, group_id) {
                        None => e == Error::NotFound,
                        Some(g) => match spec_member_check(
                            g.members,
                            caller@,
                            Authority::Write,
                            now,
                        ) {
                            Err(x) => e == x,
                            Ok(()) => Err::<ProjectView, Error>(e) == spec_project_op(
                                g,
                                project_id,
                                caller@,
                                Authority::Write,
                                now,
                            ),
                        },
                    },
                },
            },
    {
        let ghost us = self.users.deep_view();
        match find_user(&self.users, account) {
            None => {
                proof {
                    lemma_lookup_none(us, account@);
                }
                Err(Error::NotFound)
            },
            Some(i) => {
                proof {
                    lemma_lookup_at(us, i as int);
                }
                let u = &mut self.users[i];
                let r = u.update_canister_cycle_floor(group_id, project_id, floor, caller, now);
                proof {
                    self.relate_user_update(us, i as int, r is Ok);
                }
                r
            },
        }
    }

    /// Replace a project's visibility.
    pub fn update_project_visibility(
        &mut self,
        account: &Principal,
        group_id: u64,
        project_id: u64,
        visibility: Profile,
        caller: &Principal,
        now: u64,
    ) -> (res: Result<(), Error>)
        requires
            old(self)@.wf(),
        ensures
            final(self)@.wf(),
            match res {
                Ok(()) => {
                    let fu = table_lookup(old(self)@.users, account@);
                    fu is Some && {
                        let r = spec_user_project_op(
                            fu->0,
                            group_id,
                            project_id,
                            caller@,
                            Authority::Write,
                            now,
                        );
                        r is Ok && final(self)@ == with_user(
                            old(self)@,
                            with_group(
                                fu->0,
                                with_project(
                                    r->Ok_0.0,
                                    ProjectView { visibility, ..r->Ok_0.1 },
                                ),
                            ),
                        )
                    }
                },
                Err(e) => final(self)@ == old(self)@ && match table_lookup(
                    old(self)@.users,
                    account@,
                ) {
                    None => e == Error::NotFound,
                    Some(u) => Err::<(GroupView, ProjectView), Error>(e) == spec_user_project_op(
                        u,
                        group_id,
                        project_id,
                        caller@,
                        Authority::Write,
                        now,
                    ),
                },
            },
    {
        let ghost us = self.users.deep_view();
        match find_user(&self.users, account) {
            None => {
                proof {
                    lemma_lookup_none(us, account@);
                }
                Err(Error::NotFound)
            },
            Some(i) => {
                proof {
                    lemma_lookup_at(us, i as int);
                }
                let u = &mut self.users[i];
                let r = u.update_project_visibility(group_id, project_id, visibility, caller, now);
                proof {
                    self.relate_user_update(us, i as int, r is Ok);
                }
                r
            },
        }
    }

    /// Replace a project's description.
    pub fn update_project_description(
        &mut self,
        account: &Principal,
        group_id: u64,
        project_id: u64,
        description: String,
        caller: &Principal,
        now: u64,
    ) -> (res: Result<(), Error>)
        requires
            old(self)@.wf(),
        ensures
            final(self)@.wf(),
            match res {
                Ok(()) => {
                    let fu = table_lookup(old(self)@.users, account@);
                    fu is Some && {
                        let r = spec_user_project_op(
                            fu->0,
                            group_id,
                            project_id,
                            caller@,
                            Authority::Write,
                            now,
                        );
                        r is Ok && final(self)@ == with_user(
                            old(self)@,
                            with_group(
                                fu->0,
                                with_project(
                                    r->Ok_0.0,
                                    ProjectView { description: description@, ..r->Ok_0.1 },
                                ),
                            ),
                        )
                    }
                },
                Err(e) => final(self)@ == old(self)@ && match table_lookup(
                    old(self)@.users,
                    account@,
                ) {
                    None => e == Error::NotFound,
                    Some(u) => Err::<(GroupView, ProjectView), Error>(e) == spec_user_project_op(
                        u,
                        group_id,
                        project_id,
                        caller@,
                        Authority::Write,
                        now,
                    ),
                },
            },
    {
        let ghost us = self.users.deep_view();
        match find_user(&self.users, account) {
            None => {
                proof {
                    lemma_lookup_none(us, account@);
                }
                Err(Error::NotFound)
            },
            Some(i) => {
                proof {
                    lemma_lookup_at(us, i as int);
                }
                let u = &mut self.users[i];
                let r = u.update_project_description(group_id, project_id, description, caller, now);
                proof {
                    self.relate_user_update(us, i as int, r is Ok);
                }
                r
            },
        }
    }

    /// Change a group member's authority; only the account's own identity
    /// may.
    pub fn update_group_member_authority(
        &mut self,
        account: &Principal,
        group_id: u64,
        member: &Principal,
        auth: Authority,
        caller: &Principal,
    ) -> (res: Result<(), Error>)
        requires
            old(self)@.wf(),
        ensures
            final(self)@.wf(),
            match res {
                Ok(()) => {
                    let fu = table_lookup(old(self)@.users, account@);
                    fu is Some && fu->0.identity == caller@ && {
                        let found_g = table_lookup(fu->0.groups, group_id);
                        found_g is Some && {
                            let found_m = table_lookup(found_g->0.members, member@);
                            found_m is Some && final(self)@ == with_user(
                                old(self)@,
                                with_group(
                                    fu->0,
                                    GroupView {
                                        members: table_update(
                                            found_g->0.members,
                                            member@,
                                            MemberView { authority: auth, ..found_m->0 },
                                        ),
                                        ..found_g->0
                                    },
                                ),
                            )
                        }
                    }
                },
                Err(e) => final(self)@ == old(self)@ && match table_lookup(
                    old(self)@.users,
                    account@,
                ) {
                    None => e == Error::NotFound,
                    Some(u) => if u.identity != caller@ {
                        e == Error::PermissionDenied
                    } else {
                        match table_lookup(u.groups, group_id) {
                            None => e == Error::NotFound,
                            Some(g) => !table_contains(g.members, member@) && e
                                == Error::NotFound,
                        }
                    },
                },
            },
    {
        let ghost us = self.users.deep_view();
        match find_user(&self.users, account) {
            None => {
                proof {
                    lemma_lookup_none(us, account@);
                }
                Err(Error::NotFound)
            },
            Some(i) => {
                proof {
                    lemma_lookup_at(us, i as int);
                }
                let u = &mut self.users[i];
                let r = u.update_group_member_authority(group_id, member, auth, caller);
                proof {
                    self.relate_user_update(us, i as int, r is Ok);
                }
                r
            },
        }
    }

    /// Change a project member's authority; the owning group demands
    /// `Operational`.
    pub fn update_project_member_authority(
        &mut self,
        account: &Principal,
        group_id: u64,
        project_id: u64,
        member: &Principal,
        auth: Authority,
        caller: &Principal,
        now: u64,
    ) -> (res: Result<(), Error>)
        requires
            old(self)@.wf(),
        ensures
            final(self)@.wf(),
            match res {
                Ok(()) => {
                    let fu = table_lookup(old(self)@.users, account@);
                    fu is Some && {
                        let found_g = table_lookup(fu->0.groups, group_id);
                        found_g is Some && spec_member_check(
                            found_g->0.members,
                            caller@,
                            Authority::Operational,
                            now,
                        ) is Ok && {
                            let found_p = table_lookup(found_g->0.projects, project_id);
                            found_p is Some && {
                                let found_m = table_lookup(found_p->0.members, member@);
                                found_m is Some && final(self)@ == with_user(
                                    old(self)@,
                                    with_group(
                                        fu->0,
                                        with_project(
                                            found_g->0,
                                            ProjectView {
                                                members: table_update(
                                                    found_p->0.members,
                                                    member@,
                                                    MemberView {
                                                        authority: auth,
                                                        ..found_m->0
                                                    },
                                                ),
                                                ..found_p->0
                                            },
                                        ),
                                    ),
                                )
                            }
                        }
                    }
                },
                Err(e) => final(self)@ == old(self)@ && match table_lookup(
                    old(self)@.users,
                    account@,
                ) {
                    None => e == Error::NotFound,
                    Some(u) => match table_lookup(u.groups, group_id) {
                        None => e == Error::NotFound,
                        Some(g) => match spec_member_check(
                            g.members,
                            caller@,
                            Authority::Operational,
                            now,
                        ) {
                            Err(x) => e == x,
                            Ok(()) => match table_lookup(g.projects, project_id) {
                                None => e == Error::NotFound,
                                Some(p) => !table_contains(p.members, member@) && e
                                    == Error::NotFound,
                            },
                        },
                    },
                },
            },
    {
        let ghost us = self.users.deep_view();
        match find_user(&self.users, account) {
            None => {
                proof {
                    lemma_lookup_none(us, account@);
                }
                Err(Error::NotFound)
            },
            Some(i) => {
                proof {
                    lemma_lookup_at(us, i as int);
                }
                let u = &mut self.users[i];
                let r = u.update_project_member_authority(
                    group_id,
                    project_id,
                    member,
                    auth,
                    caller,
                    now,
                );
                proof {
                    self.relate_user_update(us, i as int, r is Ok);
                }
                r
            },
        }
    }

    /// Replace a group's basic information; the group demands `Write`.
    pub fn update_group_basic_information(
        &mut self,
        account: &Principal,
        group_id: u64,
        name: String,
        description: String,
        visibility: Profile,
        url: String,
        caller: &Principal,
        now: u64,
    ) -> (res: Result<(), Error>)
        requires
            old(self)@.wf(),
        ensures
            final(self)@.wf(),
            match res {
                Ok(()) => {
                    let fu = table_lookup(old(self)@.users, account@);
                    fu is Some && {
                        let found_g = table_lookup(fu->0.groups, group_id);
                        found_g is Some && spec_member_check(
                            found_g->0.members,
                            caller@,
                            Authority::Write,
                            now,
                        ) is Ok && final(self)@ == with_user(
                            old(self)@,
                            with_group(
                                fu->0,
                                GroupView {
                                    name: name@,
                                    description: description@,
                                    visibility,
                                    url: url@,
                                    ..found_g->0
                                },
                            ),
                        )
                    }
                },
                Err(e) => final(self)@ == old(self)@ && match table_lookup(
                    old(self)@.users,
                    account@,
                ) {
                    None => e == Error::NotFound,
                    Some(u) => match table_lookup(u.groups, group_id) {
                        None => e == Error::NotFound,
                        Some(g) => Err::<(), Error>(e) == spec_member_check(
                            g.members,
                            caller@,
                            Authority::Write,
                            now,
                        ),
                    },
                },
            },
    {
        let ghost us = self.users.deep_view();
        match find_user(&self.users, account) {
            None => {
                proof {
                    lemma_lookup_none(us, account@);
                }
                Err(Error::NotFound)
            },
            Some(i) => {
                proof {
                    lemma_lookup_at(us, i as int);
                }
                let u = &mut self.users[i];
                let r = u.update_group_basic_information(
                    group_id,
                    name,
                    description,
                    visibility,
                    url,
                    caller,
                    now,
                );
                proof {
                    self.relate_user_update(us, i as int, r is Ok);
                }
                r
            },
        }
    }

    /// Replace a project's whole basic information; the group's `Write`
    /// check bypasses the project's own.
    pub fn update_project_basic_information(
        &mut self,
        account: &Principal,
        group_id: u64,
        project_id: u64,
        name: String,
        description: String,
        visibility: Profile,
        git: String,
        canister_cycle_floor: u128,
        canisters: Vec<Principal>,
        caller: &Principal,
        now: u64,
    ) -> (res: Result<(), Error>)
        requires
            old(self)@.wf(),
        ensures
            final(self)@.wf(),
            match res {
                Ok(()) => {
                    let fu = table_lookup(old(self)@.users, account@);
                    fu is Some && {
                        let found_g = table_lookup(fu->0.groups, group_id);
                        found_g is Some && {
                            let found_p = table_lookup(found_g->0.projects, project_id);
                            let bypass = spec_member_check(
                                found_g->0.members,
                                caller@,
                                Authority::Write,
                                now,
                            ) is Ok;
                            found_p is Some && (!bypass ==> spec_member_check(
                                found_p->0.members,
                                caller@,
                                Authority::Write,
                                now,
                            ) is Ok) && final(self)@ == with_user(
                                old(self)@,
                                with_group(
                                    fu->0,
                                    with_project(
                                        found_g->0,
                                        ProjectView {
                                            name: name@,
                                            description: description@,
                                            visibility,
                                            git_repo_url: git@,
                                            canister_cycle_floor,
                                            canisters: table_of(canisters.deep_view()),
                                            ..found_p->0
                                        },
                                    ),
                                ),
                            )
                        }
                    }
                },
                Err(e) => final(self)@ == old(self)@ && match table_lookup(
                    old(self)@.users,
                    account@,
                ) {
                    None => e == Error::NotFound,
                    Some(u) => match table_lookup(u.groups, group_id) {
                        None => e == Error::NotFound,
                        Some(g) => match table_lookup(g.projects, project_id) {
                            None => e == Error::NotFound,
                            Some(p) => spec_member_check(
                                g.members,
                                caller@,
                                Authority::Write,
                                now,
                            ) is Err && Err::<(), Error>(e) == spec_member_check(
                                p.members,
                                caller@,
                                Authority::Write,
                                now,
                            ),
                        },
                    },
                },
            },
    {
        let ghost us = self.users.deep_view();
        match find_user(&self.users, account) {
            None => {
                proof {
                    lemma_lookup_none(us, account@);
                }
                Err(Error::NotFound)
            },
            Some(i) => {
                proof {
                    lemma_lookup_at(us, i as int);
                }
                let u = &mut self.users[i];
                let r = u.update_project_basic_information(
                    group_id,
                    project_id,
                    name,
                    description,
                    visibility,
                    git,
                    canister_cycle_floor,
                    canisters,
                    caller,
                    now,
                );
                proof {
                    self.relate_user_update(us, i as int, r is Ok);
                }
                r
            },
        }
    }

    /// The authority check of a status query on a project's canister, resolved
    /// through the owning account.
    pub fn get_canister_status(
        &self,
        account: &Principal,
        group_id: u64,
        project_id: u64,
        canister: &Principal,
        caller: &Principal,
        now: u64,
    ) -> (res: Result<u128, Error>)
        ensures
            res == match table_lookup(self@.users, account@) {
                None => Err::<u128, Error>(Error::NotFound),
                Some(u) => match table_lookup(u.groups, group_id) {
                    None => Err::<u128, Error>(Error::NotFound),
                    Some(g) => match table_lookup(g.projects, project_id) {
                        None => Err::<u128, Error>(Error::NotFound),
                        Some(p) => match crate::project::spec_canister_op(
                            p,
                            canister@,
                            caller@,
                            Authority::Read,
                            g.visibility == Profile::Private,
                            now,
                        ) {
                            Ok(()) => Ok::<u128, Error>(p.canister_cycle_floor),
                            Err(e) => Err::<u128, Error>(e),
                        },
                    },
                },
            },
    {
        let ghost us = self.users.deep_view();
        match find_user(&self.users, account) {
            None => {
                proof {
                    lemma_lookup_none(us, account@);
                }
                Err(Error::NotFound)
            },
            Some(i) => {
                proof {
                    lemma_lookup_at(us, i as int);
                }
                self.users[i].get_canister_status(group_id, project_id, canister, caller, now)
            },
        }
    }

    /// The authority check of stopping a project's canister.
    pub fn stop_project_canister(
        &self,
        account: &Principal,
        group_id: u64,
        project_id: u64,
        canister: &Principal,
        caller: &Principal,
        now: u64,
    ) -> (res: Result<(), Error>)
        ensures
            res == match table_lookup(self@.users, account@) {
                None => Err::<(), Error>(Error::NotFound),
                Some(u) => match table_lookup(u.groups, group_id) {
                    None => Err::<(), Error>(Error::NotFound),
                    Some(g) => match table_lookup(g.projects, project_id) {
                        None => Err::<(), Error>(Error::NotFound),
                        Some(p) => crate::project::spec_canister_op(
                            p,
                            canister@,
                            caller@,
                            Authority::Operational,
                            true,
                            now,
                        ),
                    },
                },
            },
    {
        let ghost us = self.users.deep_view();
        match find_user(&self.users, account) {
            None => {
                proof {
                    lemma_lookup_none(us, account@);
                }
                Err(Error::NotFound)
            },
            Some(i) => {
                proof {
                    lemma_lookup_at(us, i as int);
                }
                self.users[i].stop_project_canister(group_id, project_id, canister, caller, now)
            },
        }
    }

    /// The authority check of starting a project's canister.
    pub fn start_project_canister(
        &self,
        account: &Principal,
        group_id: u64,
        project_id: u64,
        canister: &Principal,
        caller: &Principal,
        now: u64,
    ) -> (res: Result<(), Error>)
        ensures
            res == match table_lookup(self@.users, account@) {
                None => Err::<(), Error>(Error::NotFound),
                Some(u) => match table_lookup(u.groups, group_id) {
                    None => Err::<(), Error>(Error::NotFound),
                    Some(g) => match table_lookup(g.projects, project_id) {
                        None => Err::<(), Error>(Error::NotFound),
                        Some(p) => crate::project::spec_canister_op(
                            p,
                            canister@,
                            caller@,
                            Authority::Operational,
                            true,
                            now,
                        ),
                    },
                },
            },
    {
        let ghost us = self.users.deep_view();
        match find_user(&self.users, account) {
            None => {
                proof {
                    lemma_lookup_none(us, account@);
                }
                Err(Error::NotFound)
            },
            Some(i) => {
                proof {
                    lemma_lookup_at(us, i as int);
                }
                self.users[i].start_project_canister(group_id, project_id, canister, caller, now)
            },
        }
    }

    /// The authority check of deleting a project's canister.
    pub fn delete_project_canister(
        &self,
        account: &Principal,
        group_id: u64,
        project_id: u64,
        canister: &Principal,
        caller: &Principal,
        now: u64,
    ) -> (res: Result<(), Error>)
        ensures
            res == match table_lookup(self@.users, account@) {
                None => Err::<(), Error>(Error::NotFound),
                Some(u) => match table_lookup(u.groups, group_id) {
                    None => Err::<(), Error>(Error::NotFound),
                    Some(g) => match table_lookup(g.projects, project_id) {
                        None => Err::<(), Error>(Error::NotFound),
                        Some(p) => crate::project::spec_canister_op(
                            p,
                            canister@,
                            caller@,
                            Authority::Operational,
                            true,
                            now,
                        ),
                    },
                },
            },
    {
        let ghost us = self.users.deep_view();
        match find_user(&self.users, account) {
            None => {
                proof {
                    lemma_lookup_none(us, account@);
                }
                Err(Error::NotFound)
            },
            Some(i) => {
                proof {
                    lemma_lookup_at(us, i as int);
                }
                self.users[i].delete_project_canister(group_id, project_id, canister, caller, now)
            },
        }
    }

    /// The authority check of installing code on a project's canister.
    pub fn install_code(
        &self,
        account: &Principal,
        group_id: u64,
        project_id: u64,
        canister: &Principal,
        install_mod: crate::types::InstallCodeMode,
        caller: &Principal,
        now: u64,
    ) -> (res: Result<(), Error>)
        ensures
            res == match table_lookup(self@.users, account@) {
                None => Err::<(), Error>(Error::NotFound),
                Some(u) => match table_lookup(u.groups, group_id) {
                    None => Err::<(), Error>(Error::NotFound),
                    Some(g) => match table_lookup(g.projects, project_id) {
                        None => Err::<(), Error>(Error::NotFound),
                        Some(p) => crate::project::spec_canister_op(
                            p,
                            canister@,
                            caller@,
                            Authority::Operational,
                            true,
                            now,
                        ),
                    },
                },
            },
    {
        let ghost us = self.users.deep_view();
        match find_user(&self.users, account) {
            None => {
                proof {
                    lemma_lookup_none(us, account@);
                }
                Err(Error::NotFound)
            },
            Some(i) => {
                proof {
                    lemma_lookup_at(us, i as int);
                }
                self.users[i].install_code(
                    group_id,
                    project_id,
                    canister,
                    install_mod,
                    caller,
                    now,
                )
            },
        }
    }

    /// Read one project of a registered user's tree under the visibility
    /// rules; a missing account is refused.
    pub fn get_project_info(
        &self,
        account: &Principal,
        group_id: u64,
        project_id: u64,
        caller: &Principal,
    ) -> (res: Result<Option<Project>, Error>)
        ensures
            match res {
                Ok(Some(p)) => {
                    let fu = table_lookup(self@.users, account@);
                    fu is Some && crate::user::spec_user_get_project_info(
                        fu->0,
                        group_id,
                        project_id,
                        caller@,
                    ) == Ok::<Option<ProjectView>, Error>(Some(p@))
                },
                Ok(None) => {
                    let fu = table_lookup(self@.users, account@);
                    fu is Some && crate::user::spec_user_get_project_info(
                        fu->0,
                        group_id,
                        project_id,
                        caller@,
                    ) == Ok::<Option<ProjectView>, Error>(None)
                },
                Err(e) => match table_lookup(self@.users, account@) {
                    None => e == Error::NotFound,
                    Some(u) => crate::user::spec_user_get_project_info(
                        u,
                        group_id,
                        project_id,
                        caller@,
                    ) == Err::<Option<ProjectView>, Error>(e),
                },
            },
    {
        let ghost us = self.users.deep_view();
        match find_user(&self.users, account) {
            None => {
                proof {
                    lemma_lookup_none(us, account@);
                }
                Err(Error::NotFound)
            },
            Some(i) => {
                proof {
                    lemma_lookup_at(us, i as int);
                }
                self.users[i].get_project_info(group_id, project_id, caller)
            },
        }
    }

    /// Read one group of a registered user's tree under the visibility
    /// rules; a missing account is refused.
    pub fn get_group_info(&self, account: &Principal, group_id: u64, caller: &Principal) -> (res:
        Result<Option<Group>, Error>)
        ensures
            match res {
                Ok(Some(g)) => {
                    let fu = table_lookup(self@.users, account@);
                    fu is Some && crate::user::spec_get_group_info(fu->0, group_id, caller@)
                        == Ok::<Option<GroupView>, Error>(Some(g@))
                },
                Ok(None) => {
                    let fu = table_lookup(self@.users, account@);
                    fu is Some && crate::user::spec_get_group_info(fu->0, group_id, caller@)
                        == Ok::<Option<GroupView>, Error>(None)
                },
                Err(e) => match table_lookup(self@.users, account@) {
                    None => e == Error::NotFound,
                    Some(u) => crate::user::spec_get_group_info(u, group_id, caller@) == Err::<
                        Option<GroupView>,
                        Error,
                    >(e),
                },
            },
    {
        let ghost us = self.users.deep_view();
        match find_user(&self.users, account) {
            None => {
                proof {
                    lemma_lookup_none(us, account@);
                }
                Err(Error::NotFound)
            },
            Some(i) => {
                proof {
                    lemma_lookup_at(us, i as int);
                }
                self.users[i].get_group_info(group_id, caller)
            },
        }
    }

    /// Read one member record of a group of a registered user's tree.
    pub fn get_group_member_info(&self, account: &Principal, group_id: u64, member: &Principal) -> (res:
        Result<Member, Error>)
        ensures
            match res {
                Ok(m) => {
                    let fu = table_lookup(self@.users, account@);
                    fu is Some && {
                        let found_g = table_lookup(fu->0.groups, group_id);
                        found_g is Some && table_lookup(found_g->0.members, member@) == Some(m@)
                    }
                },
                Err(e) => e == Error::NotFound && match table_lookup(self@.users, account@) {
                    None => true,
                    Some(u) => match table_lookup(u.groups, group_id) {
                        None => true,
                        Some(g) => !table_contains(g.members, member@),
                    },
                },
            },
    {
        let ghost us = self.users.deep_view();
        match find_user(&self.users, account) {
            None => {
                proof {
                    lemma_lookup_none(us, account@);
                }
                Err(Error::NotFound)
            },
            Some(i) => {
                proof {
                    lemma_lookup_at(us, i as int);
                }
                self.users[i].get_group_member_info(group_id, member)
            },
        }
    }

    /// The whole durable state, as the list of registered users keyed by
    /// their identity; the restoring side accepts exactly this shape.
    pub fn serialize_users(&self) -> (r: Vec<(Principal, User)>)
        ensures
            r.deep_view() == Seq::new(
                self@.users.len(),
                |i: int| (self@.users[i].identity, self@.users[i]),
            ),
    {
        let n = self.users.len();
        let mut r: Vec<(Principal, User)> = Vec::new();
        let mut i: usize = 0;
        proof {
            assert(r.deep_view() =~= Seq::new(
                self@.users.len(),
                |k: int| (self@.users[k].identity, self@.users[k]),
            ).take(0));
        }
        while i < n
            invariant
                n == self.users.len(),
                i <= n,
                r.deep_view() == Seq::new(
                    self@.users.len(),
                    |k: int| (self@.users[k].identity, self@.users[k]),
                ).take(i as int),
            decreases n - i,
        {
            let ghost before = r.deep_view();
            let entry = (self.users[i].identity.clone(), self.users[i].clone());
            r.push(entry);
            proof {
                assert(r.deep_view() =~= before.push(
                    (self@.users[i as int].identity, self@.users[i as int]),
                ));
                assert(r.deep_view() =~= Seq::new(
                    self@.users.len(),
                    |k: int| (self@.users[k].identity, self@.users[k]),
                ).take(i + 1));
            }
            i += 1;
        }
        proof {
            assert(Seq::new(
                self@.users.len(),
                |k: int| (self@.users[k].identity, self@.users[k]),
            ).take(n as int) =~= Seq::new(
                self@.users.len(),
                |k: int| (self@.users[k].identity, self@.users[k]),
            ));
        }
        r
    }

    /// Replace the registered users with the restored list. Entries are
    /// filed under their identity in order, a later entry under the same
    /// identity winning, so restoring what `serialize_users` produced
    /// rebuilds the store exactly.
    pub fn restore_users(&mut self, entries: Vec<(Principal, User)>)
        requires
            forall|k: int|
                0 <= k < entries.deep_view().len() ==> #[trigger] entries.deep_view()[k].1.wf(),
        ensures
            final(self)@ == (RegistryView {
                users: table_of(
                    Seq::new(entries.deep_view().len(), |k: int| entries.deep_view()[k].1),
                ),
                ..old(self)@
            }),
            final(self)@.wf(),
    {
        let ghost input = Seq::new(entries.deep_view().len(), |k: int| entries.deep_view()[k].1);
        let n = entries.len();
        let mut users: Vec<User> = Vec::new();
        let mut rest = entries;
        let mut i: usize = 0;
        proof {
            assert(users.deep_view() =~= table_of(input.take(0)));
        }
        while i < n
            invariant
                n == rest.len(),
                i <= n,
                input == Seq::new(
                    rest.deep_view().len(),
                    |k: int| rest.deep_view()[k].1,
                ),
                forall|k: int| 0 <= k < input.len() ==> (#[trigger] input[k]).wf(),
                users.deep_view() == table_of(input.take(i as int)),
                table_unique(users.deep_view()),
                forall|k: int|
                    0 <= k < users.deep_view().len() ==> (#[trigger] users.deep_view()[k]).wf(),
            decreases n - i,
        {
            let u = rest[i].1.clone();
            let ghost before = users.deep_view();
            proof {
                lemma_update_unique(before, u@.identity, u@);
                assert(input.take(i + 1).drop_last() =~= input.take(i as int));
                assert(input.take(i + 1).last() == input[i as int]);
                assert(u@ == input[i as int]);
            }
            upsert_user(&mut users, u);
            proof {
                assert forall|k: int|
                    0 <= k < users.deep_view().len() implies (
                #[trigger] users.deep_view()[k]).wf() by {
                    crate::table::lemma_update_is_subset(
                        before,
                        input[i as int].identity,
                        input[i as int],
                        k,
                    );
                    if users.deep_view()[k] != input[i as int] {
                        let j = choose|j: int|
                            0 <= j < before.len() && before[j] == users.deep_view()[k];
                    }
                }
            }
            i += 1;
        }
        proof {
            assert(input.take(n as int) =~= input);
        }
        self.users = users;
    }
}

/// File `u` under its identity: overwrite the record already filed there,
/// or append.
fn upsert_user(users: &mut Vec<User>, u: User)
    ensures
        final(users).deep_view() == table_update(old(users).deep_view(), u@.identity, u@),
{
    let ghost us = users.deep_view();
    match find_user(users, &u.identity) {
        Some(i) => {
            proof {
                lemma_update_at(us, i as int, u@);
            }
            users[i] = u;
            proof {
                assert(users.deep_view() =~= us.update(i as int, u@));
            }
        },
        None => {
            proof {
                lemma_update_absent(us, u@.identity, u@);
            }
            let ghost uv = u@;
            users.push(u);
            proof {
                assert(users.deep_view() =~= us.push(uv));
            }
        },
    }
}

/// The relation index round-trips at the level of one user record:
/// appending the pair `(gid, pid)` from `owner` and then dropping the first
/// pair with `pid` from `owner` restores the relation list exactly,
/// provided the prior list held no pair with that project id. (With such a
/// prior pair the removal would drop the older pair instead, which is why
/// that case is excluded here.)
pub proof fn law_relation_round_trip(u: UserView, owner: Seq<u8>, gid: u64, pid: u64)
    requires
        forall|t: int|
            0 <= t < relations_of(u.relation_project, owner).len() ==> relations_of(
                u.relation_project,
                owner,
            )[t].project_id != pid,
    ensures
        ({
            let added = user_with_relation_added(u, owner, gid, pid);
            let restored = user_with_relation_removed(added, owner, pid);
            relations_of(restored.relation_project, owner) == relations_of(
                u.relation_project,
                owner,
            )
        }),
{
    let rps = u.relation_project;
    let before = relations_of(rps, owner);
    let rp = RelationProject { group_id: gid, project_id: pid };
    let e1 = RelationEntryView { principal: owner, relations: before.push(rp) };
    let added = user_with_relation_added(u, owner, gid, pid);
    lemma_lookup_update(rps, owner, e1, owner);
    assert(table_lookup(added.relation_project, owner) == Some(e1));
    assert(forall|j: int| 0 <= j < before.len() ==> before.push(rp)[j].project_id != pid);
    crate::table::lemma_remove_at(before.push(rp), before.len() as int);
    assert(table_remove(before.push(rp), pid) =~= before);
    let e2 = RelationEntryView { principal: owner, relations: before };
    let restored = user_with_relation_removed(added, owner, pid);
    lemma_lookup_update(added.relation_project, owner, e2, owner);
    assert(table_lookup(restored.relation_project, owner) == Some(e2));
}

/// The relation index round-trips across the whole registry: if `r1` is
/// the state a successful `add_project_member` left behind (a forward
/// record `ua1` filed for the owner, then the pair appended to the
/// member's index) and `r2` the state a successful `remove_project_member`
/// left after it (a forward record `ua2`, then the pair dropped again),
/// the member's relation list for that owner is back to its value in `r0`,
/// provided it held no pair with that project id to begin with.
pub proof fn law_relation_index_round_trip(
    r0: RegistryView,
    r1: RegistryView,
    r2: RegistryView,
    account: Seq<u8>,
    member: Seq<u8>,
    gid: u64,
    pid: u64,
    ua1: UserView,
    ua2: UserView,
)
    requires
        r0.wf(),
        table_contains(r0.users, member),
        table_contains(r0.users, account),
        ua1.identity == account,
        ua1.relation_project == table_lookup(r0.users, account)->0.relation_project,
        ({
            let users1 = table_update(r0.users, account, ua1);
            table_lookup(users1, member) is Some && r1 == (RegistryView {
                users: table_update(
                    users1,
                    member,
                    user_with_relation_added(
                        table_lookup(users1, member)->0,
                        account,
                        gid,
                        pid,
                    ),
                ),
                ..r0
            })
        }),
        ua2.identity == account,
        ua2.relation_project == table_lookup(r1.users, account)->0.relation_project,
        ({
            let users2 = table_update(r1.users, account, ua2);
            table_lookup(users2, member) is Some && r2 == (RegistryView {
                users: table_update(
                    users2,
                    member,
                    user_with_relation_removed(table_lookup(users2, member)->0, account, pid),
                ),
                ..r1
            })
        }),
        forall|t: int|
            0 <= t < relations_of(
                table_lookup(r0.users, member)->0.relation_project,
                account,
            ).len() ==> relations_of(
                table_lookup(r0.users, member)->0.relation_project,
                account,
            )[t].project_id != pid,
    ensures
        table_lookup(r2.users, member) is Some,
        relations_of(table_lookup(r2.users, member)->0.relation_project, account)
            == relations_of(table_lookup(r0.users, member)->0.relation_project, account),
{
    let w0 = table_lookup(r0.users, member)->0;
    crate::table::lemma_lookup_properties(r0.users, member);
    let users1 = table_update(r0.users, account, ua1);
    lemma_lookup_update(r0.users, account, ua1, member);
    let w1 = table_lookup(users1, member)->0;
    assert(w1.identity == member);
    let added = user_with_relation_added(w1, account, gid, pid);
    lemma_lookup_update(users1, member, added, account);
    lemma_lookup_update(users1, member, added, member);
    assert(table_lookup(r1.users, member) == Some(added));
    if member == account {
        assert(w1 == ua1);
        assert(w1.relation_project == w0.relation_project);
    } else {
        assert(w1 == w0);
    }
    let users2 = table_update(r1.users, account, ua2);
    lemma_lookup_update(r1.users, account, ua2, member);
    let w2 = table_lookup(users2, member)->0;
    if member == account {
        assert(table_lookup(r1.users, account) == Some(added));
        assert(w2 == ua2);
    } else {
        assert(w2 == added);
    }
    assert(w2.relation_project == added.relation_project);
    let removed = user_with_relation_removed(w2, account, pid);
    lemma_lookup_update(users2, member, removed, member);
    assert(table_lookup(r2.users, member) == Some(removed));
    let before = relations_of(w0.relation_project, account);
    let rp = RelationProject { group_id: gid, project_id: pid };
    let e1 = RelationEntryView { principal: account, relations: before.push(rp) };
    lemma_lookup_update(w1.relation_project, account, e1, account);
    assert(relations_of(added.relation_project, account) == before.push(rp));
    assert(table_lookup(w2.relation_project, account) == Some(e1));
    assert(forall|j: int| 0 <= j < before.len() ==> before.push(rp)[j].project_id != pid);
    crate::table::lemma_remove_at(before.push(rp), before.len() as int);
    assert(table_remove(before.push(rp), pid) =~= before);
    let e2 = RelationEntryView { principal: account, relations: before };
    lemma_lookup_update(w2.relation_project, account, e2, account);
    assert(relations_of(removed.relation_project, account) == before);
}

/// Restoring what was serialized rebuilds the store exactly: the durable
/// pairs carry each user under its identity, identities are unique in a
/// well-formed registry, and filing unique records changes nothing.
pub proof fn law_persistence_round_trip(r: RegistryView)
    requires
        r.wf(),
    ensures
        ({
            let entries = Seq::new(r.users.len(), |i: int| (r.users[i].identity, r.users[i]));
            table_of(Seq::new(entries.len(), |k: int| entries[k].1)) == r.users
        }),
{
    let entries = Seq::new(r.users.len(), |i: int| (r.users[i].identity, r.users[i]));
    assert(Seq::new(entries.len(), |k: int| entries[k].1) =~= r.users);
    crate::table::lemma_table_of_unique(r.users);
}

/// The `(owner identity, group id, group)` triples of every public group
/// of one user, in storage order.
pub open spec fn public_triples(identity: Seq<u8>, gs: Seq<GroupView>) -> Seq<
    (Seq<u8>, u64, GroupView),
>
    decreases gs.len(),
{
    if gs.len() == 0 {
        Seq::empty()
    } else if gs.last().visibility == Profile::Public {
        public_triples(identity, gs.drop_last()).push((identity, gs.last().id, gs.last()))
    } else {
        public_triples(identity, gs.drop_last())
    }
}

impl Registry {
    /// Every public group of every registered user, tagged with its
    /// owner's identity and its id: the anonymous discovery listing.
    pub fn visible_project(&self) -> (r: Vec<Vec<(Principal, u64, Group)>>)
        ensures
            r.deep_view() == Seq::new(
                self@.users.len(),
                |i: int| public_triples(self@.users[i].identity, self@.users[i].groups),
            ),
    {
        let ghost goal = Seq::new(
            self@.users.len(),
            |i: int| public_triples(self@.users[i].identity, self@.users[i].groups),
        );
        let n = self.users.len();
        let mut r: Vec<Vec<(Principal, u64, Group)>> = Vec::new();
        let mut i: usize = 0;
        proof {
            assert(r.deep_view() =~= goal.take(0));
        }
        while i < n
            invariant
                n == self.users.len(),
                i <= n,
                goal == Seq::new(
                    self@.users.len(),
                    |k: int| public_triples(self@.users[k].identity, self@.users[k].groups),
                ),
                r.deep_view() == goal.take(i as int),
            decreases n - i,
        {
            let u = &self.users[i];
            let ghost gs = u.groups.deep_view();
            let m = u.groups.len();
            let mut row: Vec<(Principal, u64, Group)> = Vec::new();
            let mut j: usize = 0;
            proof {
                assert(gs.take(0) =~= Seq::<GroupView>::empty());
                assert(row.deep_view() =~= public_triples(u@.identity, gs.take(0)));
            }
            while j < m
                invariant
                    m == u.groups.len(),
                    j <= m,
                    gs == u.groups.deep_view(),
                    row.deep_view() == public_triples(u@.identity, gs.take(j as int)),
                decreases m - j,
            {
                let ghost before = row.deep_view();
                proof {
                    assert(gs.take(j + 1).drop_last() =~= gs.take(j as int));
                    assert(gs.take(j + 1).last() == gs[j as int]);
                }
                let g = &u.groups[j];
                if let Profile::Public = g.visibility {
                    let entry = (u.identity.clone(), g.id, g.clone());
                    row.push(entry);
                    proof {
                        assert(row.deep_view() =~= before.push(
                            (u@.identity, gs[j as int].id, gs[j as int]),
                        ));
                    }
                }
                j += 1;
            }
            proof {
                assert(gs.take(m as int) =~= gs);
            }
            let ghost rbefore = r.deep_view();
            r.push(row);
            proof {
                assert(r.deep_view() =~= rbefore.push(public_triples(
                    self@.users[i as int].identity,
                    self@.users[i as int].groups,
                )));
                assert(r.deep_view() =~= goal.take(i + 1));
            }
            i += 1;
        }
        proof {
            assert(goal.take(n as int) =~= goal);
        }
        r
    }
}

} // verus!
