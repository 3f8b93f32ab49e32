use vstd::prelude::*;

use crate::authority::Authority;
use crate::errors::Error;
use crate::group::{
    spec_get_project_info, spec_project_op, with_project, Group, GroupView,
};
use crate::member::{find_member, member_expired, spec_member_check, Member, MemberView};
use crate::principal::Principal;
use crate::project::{Project, ProjectView};
use crate::table::{
    lemma_lookup_at, lemma_lookup_member, lemma_lookup_none, lemma_remove_absent, lemma_remove_at,
    lemma_remove_unique, lemma_update_absent, lemma_update_at, lemma_update_same,
    lemma_update_unique, table_contains, table_lookup, table_remove, table_unique, table_update,
    Keyed,
};
use crate::types::{InstallCodeMode, Profile};

verus! {

/// One `(group, project)` pair a principal was invited into.
#[derive(Clone, Copy, Debug, PartialEq, Eq, Structural)]
pub struct RelationProject {
    pub group_id: u64,
    pub project_id: u64,
}

impl RelationProject {
    pub fn new(group_id: u64, project_id: u64) -> (r: Self)
        ensures
            r == (RelationProject { group_id, project_id }),
    {
        Self { group_id, project_id }
    }
}

/// Inside a relation list, removal is keyed by the project id alone.
impl Keyed for RelationProject {
    type Key = u64;

    open spec fn key(self) -> u64 {
        self.project_id
    }
}

/// One reverse-index entry: every `(group, project)` pair of one owner's
/// tree that `principal` was invited into.
#[derive(Debug)]
pub struct RelationEntry {
    pub principal: Principal,
    pub relations: Vec<RelationProject>,
}

/// The mathematical value of a reverse-index entry.
#[verifier::ext_equal]
pub struct RelationEntryView {
    pub principal: Seq<u8>,
    pub relations: Seq<RelationProject>,
}

impl View for RelationEntry {
    type V = RelationEntryView;

    open spec fn view(&self) -> RelationEntryView {
        RelationEntryView { principal: self.principal@, relations: self.relations@ }
    }
}

impl DeepView for RelationEntry {
    type V = RelationEntryView;

    open spec fn deep_view(&self) -> RelationEntryView {
        self.view()
    }
}

impl Keyed for RelationEntryView {
    type Key = Seq<u8>;

    open spec fn key(self) -> Seq<u8> {
        self.principal
    }
}

impl Clone for RelationEntry {
    fn clone(&self) -> (r: Self)
        ensures
            r@ == self@,
    {
        let r = RelationEntry {
            principal: self.principal.clone(),
            relations: self.relations.clone(),
        };
        proof {
            assert forall|i: int|
                0 <= i < r.relations@.len() implies r.relations@[i] == self.relations@[i] by {
                assert(cloned::<RelationProject>(self.relations@[i], r.relations@[i]));
            }
            assert(r.relations@ =~= self.relations@);
        }
        r
    }
}

/// The root aggregate: a registered administrator, the groups it owns, and
/// the reverse relation index telling this user which other owners' projects
/// it was invited into.
#[derive(Debug)]
pub struct User {
    pub user_name: String,
    pub profile: Profile,
    pub identity: Principal,
    pub groups: Vec<Group>,
    pub relation_project: Vec<RelationEntry>,
    pub create_time: u64,
}

/// The mathematical value of a user.
#[verifier::ext_equal]
pub struct UserView {
    pub user_name: Seq<char>,
    pub profile: Profile,
    pub identity: Seq<u8>,
    pub groups: Seq<GroupView>,
    pub relation_project: Seq<RelationEntryView>,
    pub create_time: u64,
}

impl View for User {
    type V = UserView;

    open spec fn view(&self) -> UserView {
        UserView {
            user_name: self.user_name@,
            profile: self.profile,
            identity: self.identity@,
            groups: self.groups.deep_view(),
            relation_project: self.relation_project.deep_view(),
            create_time: self.create_time,
        }
    }
}

impl DeepView for User {
    type V = UserView;

    open spec fn deep_view(&self) -> UserView {
        self.view()
    }
}

impl Keyed for UserView {
    type Key = Seq<u8>;

    open spec fn key(self) -> Seq<u8> {
        self.identity
    }
}

impl UserView {
    /// Group ids are unique and every group is well formed; relation
    /// entries are filed under unique principals.
    pub open spec fn wf(self) -> bool {
        &&& table_unique(self.groups)
        &&& table_unique(self.relation_project)
        &&& forall|i: int| 0 <= i < self.groups.len() ==> self.groups[i].wf()
    }
}

/// The user with the group filed under `g.id` replaced by `g`.
pub open spec fn with_group(u: UserView, g: GroupView) -> UserView {
    UserView { groups: table_update(u.groups, g.id, g), ..u }
}

/// The relation list a user keeps for the owner `p`; absent entries read as
/// the empty list.
pub open spec fn relations_of(rs: Seq<RelationEntryView>, p: Seq<u8>) -> Seq<RelationProject> {
    match table_lookup(rs, p) {
        Some(e) => e.relations,
        None => Seq::empty(),
    }
}

/// The identities under which the members of a table are filed.
pub open spec fn member_keys(ms: Seq<MemberView>) -> Seq<Seq<u8>> {
    Seq::new(ms.len(), |i: int| ms[i].identity)
}

/// Whether `get_user_info` shows a group to an outside sender: public
/// groups always, private groups only to their own unexpired members.
pub open spec fn group_visible_to(g: GroupView, sender: Seq<u8>, now: u64) -> bool {
    match g.visibility {
        Profile::Public => true,
        Profile::Private => match table_lookup(g.members, sender) {
            Some(m) => !member_expired(m, now),
            None => false,
        },
    }
}

/// The subsequence of groups `get_user_info` shows to an outside sender.
pub open spec fn visible_groups(gs: Seq<GroupView>, sender: Seq<u8>, now: u64) -> Seq<GroupView>
    decreases gs.len(),
{
    if gs.len() == 0 {
        gs
    } else if group_visible_to(gs.last(), sender, now) {
        visible_groups(gs.drop_last(), sender, now).push(gs.last())
    } else {
        visible_groups(gs.drop_last(), sender, now)
    }
}

/// Resolve a group and then one of its projects, gating the sender on the
/// project's member table at `required`.
pub open spec fn spec_user_project_op(
    u: UserView,
    gid: u64,
    pid: u64,
    sender: Seq<u8>,
    required: Authority,
    now: u64,
) -> Result<(GroupView, ProjectView), Error> {
    match table_lookup(u.groups, gid) {
        None => Err(Error::NotFound),
        Some(g) => match spec_project_op(g, pid, sender, required, now) {
            Err(e) => Err(e),
            Ok(p) => Ok((g, p)),
        },
    }
}

/// The index of the first group filed under `id`, if any.
pub(crate) fn find_group(groups: &Vec<Group>, id: u64) -> (r: Option<usize>)
    ensures
        match r {
            Some(i) => i < groups.len() && groups@[i as int]@.id == id && (forall|j: int|
                0 <= j < i ==> groups@[j]@.id != id),
            None => forall|j: int| 0 <= j < groups.len() ==> groups@[j]@.id != id,
        },
{
    let n = groups.len();
    let mut i: usize = 0;
    while i < n
        invariant
            n == groups.len(),
            i <= n,
            forall|j: int| 0 <= j < i ==> groups@[j]@.id != id,
        decreases n - i,
    {
        if groups[i].id == id {
            return Some(i);
        }
        i += 1;
    }
    None
}

/// The index of the first relation entry filed under `p`, if any.
pub(crate) fn find_relation(entries: &Vec<RelationEntry>, p: &Principal) -> (r: Option<usize>)
    ensures
        match r {
            Some(i) => i < entries.len() && entries@[i as int]@.principal == p@ && (forall|j: int|
                0 <= j < i ==> entries@[j]@.principal != p@),
            None => forall|j: int| 0 <= j < entries.len() ==> entries@[j]@.principal != p@,
        },
{
    let n = entries.len();
    let mut i: usize = 0;
    while i < n
        invariant
            n == entries.len(),
            i <= n,
            forall|j: int| 0 <= j < i ==> entries@[j]@.principal != p@,
        decreases n - i,
    {
        if entries[i].principal == *p {
            return Some(i);
        }
        i += 1;
    }
    None
}

/// Clone a group list, keeping its mathematical value.
pub(crate) fn clone_groups(gs: &Vec<Group>) -> (r: Vec<Group>)
    ensures
        r.deep_view() == gs.deep_view(),
{
    let n = gs.len();
    let mut r: Vec<Group> = Vec::new();
    let mut i: usize = 0;
    proof {
        assert(r.deep_view() =~= gs.deep_view().take(0));
    }
    while i < n
        invariant
            n == gs.len(),
            i <= n,
            r.deep_view() == gs.deep_view().take(i as int),
        decreases n - i,
    {
        let ghost before = r.deep_view();
        let c = gs[i].clone();
        proof {
            assert(c@ == gs.deep_view()[i as int]);
        }
        r.push(c);
        proof {
            assert(r.deep_view() =~= before.push(gs.deep_view()[i as int]));
            assert(r.deep_view() =~= gs.deep_view().take(i + 1));
        }
        i += 1;
    }
    proof {
        assert(gs.deep_view().take(n as int) =~= gs.deep_view());
    }
    r
}

/// The identities of every member on a table, as owned values.
pub(crate) fn member_identities(ms: &Vec<Member>) -> (r: Vec<Principal>)
    ensures
        r.deep_view() == member_keys(ms.deep_view()),
{
    let n = ms.len();
    let mut r: Vec<Principal> = Vec::new();
    let mut i: usize = 0;
    proof {
        assert(r.deep_view() =~= member_keys(ms.deep_view()).take(0));
    }
    while i < n
        invariant
            n == ms.len(),
            i <= n,
            r.deep_view() == member_keys(ms.deep_view()).take(i as int),
        decreases n - i,
    {
        let ghost before = r.deep_view();
        let c = ms[i].identity.clone();
        r.push(c);
        proof {
            assert(r.deep_view() =~= before.push(ms.deep_view()[i as int].identity));
            assert(r.deep_view() =~= member_keys(ms.deep_view()).take(i + 1));
        }
        i += 1;
    }
    proof {
        assert(member_keys(ms.deep_view()).take(n as int) =~= member_keys(ms.deep_view()));
    }
    r
}

impl Clone for User {
    fn clone(&self) -> (r: Self)
        ensures
            r@ == self@,
    {
        let r = User {
            user_name: self.user_name.clone(),
            profile: self.profile,
            identity: self.identity.clone(),
            groups: clone_groups(&self.groups),
            relation_project: self.relation_project.clone(),
            create_time: self.create_time,
        };
        proof {
            assert forall|i: int|
                0 <= i < r.relation_project@.len() implies r.relation_project@[i]@
                == self.relation_project@[i]@ by {
                assert(cloned::<RelationEntry>(
                    self.relation_project@[i],
                    r.relation_project@[i],
                ));
            }
            assert(r.relation_project.deep_view() =~= self.relation_project.deep_view());
            assert(r@ =~= self@);
        }
        r
    }
}

impl User {
    /// A fresh user with no groups and an empty relation index.
    pub fn new(user_name: String, profile: Profile, identity: Principal, create_time: u64) -> (r:
        Self)
        ensures
            r@ == (UserView {
                user_name: user_name@,
                profile,
                identity: identity@,
                groups: Seq::empty(),
                relation_project: Seq::empty(),
                create_time,
            }),
            r@.wf(),
    {
        let r = Self {
            user_name,
            profile,
            identity,
            groups: Vec::new(),
            relation_project: Vec::new(),
            create_time,
        };
        proof {
            assert(r@ =~= (UserView {
                user_name: r.user_name@,
                profile: r.profile,
                identity: r.identity@,
                groups: Seq::empty(),
                relation_project: Seq::empty(),
                create_time: r.create_time,
            }));
        }
        r
    }

    /// The owner check: only the user's own identity clears it.
    pub fn identity_check(&self, sender: &Principal) -> (res: Result<(), Error>)
        ensures
            res == if self@.identity == sender@ {
                Ok::<(), Error>(())
            } else {
                Err::<(), Error>(Error::PermissionDenied)
            },
    {
        if self.identity == *sender {
            Ok(())
        } else {
            Err(Error::PermissionDenied)
        }
    }

    /// Read this user's record. The owner sees everything; any other sender
    /// is refused a private profile, and on a public profile receives a
    /// defensive copy holding only the groups visible to it.
    pub fn get_user_info(&self, sender: &Principal, now: u64) -> (res: Result<User, Error>)
        ensures
            match res {
                Ok(u) => if sender@ == self@.identity {
                    u@ == self@
                } else {
                    self@.profile == Profile::Public && u@ == (UserView {
                        groups: visible_groups(self@.groups, sender@, now),
                        ..self@
                    })
                },
                Err(e) => sender@ != self@.identity && self@.profile == Profile::Private && e
                    == Error::PermissionDenied,
            },
    {
        if self.identity == *sender {
            return Ok(self.clone());
        }
        if let Profile::Private = self.profile {
            return Err(Error::PermissionDenied);
        }
        let n = self.groups.len();
        let mut kept: Vec<Group> = Vec::new();
        let mut i: usize = 0;
        proof {
            assert(self.groups.deep_view().take(0) =~= Seq::<GroupView>::empty());
            assert(kept.deep_view() =~= visible_groups(
                self.groups.deep_view().take(0),
                sender@,
                now,
            ));
        }
        while i < n
            invariant
                n == self.groups.len(),
                i <= n,
                kept.deep_view() == visible_groups(
                    self.groups.deep_view().take(i as int),
                    sender@,
                    now,
                ),
            decreases n - i,
        {
            let ghost before = kept.deep_view();
            let ghost gs = self.groups.deep_view();
            proof {
                assert(gs.take(i + 1).drop_last() =~= gs.take(i as int));
                assert(gs.take(i + 1).last() == gs[i as int]);
            }
            if group_visible(&self.groups[i], sender, now) {
                let c = self.groups[i].clone();
                kept.push(c);
                proof {
                    assert(kept.deep_view() =~= before.push(gs[i as int]));
                }
            }
            i += 1;
        }
        proof {
            assert(self.groups.deep_view().take(n as int) =~= self.groups.deep_view());
        }
        let r = User {
            user_name: self.user_name.clone(),
            profile: self.profile,
            identity: self.identity.clone(),
            groups: kept,
            relation_project: self.relation_project.clone(),
            create_time: self.create_time,
        };
        proof {
            assert forall|k: int|
                0 <= k < r.relation_project@.len() implies r.relation_project@[k]@
                == self.relation_project@[k]@ by {
                assert(cloned::<RelationEntry>(
                    self.relation_project@[k],
                    r.relation_project@[k],
                ));
            }
            assert(r.relation_project.deep_view() =~= self.relation_project.deep_view());
            assert(r@ =~= (UserView {
                groups: visible_groups(self@.groups, sender@, now),
                ..self@
            }));
        }
        Ok(r)
    }

    /// Add a group; only the owner may, and an id already taken is refused.
    pub fn add_group(&mut self, group: Group, sender: &Principal) -> (res: Result<(), Error>)
        requires
            old(self)@.wf(),
            group@.wf(),
        ensures
            final(self)@.wf(),
            match res {
                Ok(()) => old(self)@.identity == sender@ && !table_contains(
                    old(self)@.groups,
                    group@.id,
                ) && final(self)@ == (UserView {
                    groups: old(self)@.groups.push(group@),
                    ..old(self)@
                }),
                Err(e) => final(self)@ == old(self)@ && if old(self)@.identity != sender@ {
                    e == Error::PermissionDenied
                } else {
                    table_contains(old(self)@.groups, group@.id) && e == Error::AlreadyExists
                },
            },
    {
        self.identity_check(sender)?;
        let ghost gs = self.groups.deep_view();
        match find_group(&self.groups, group.id) {
            Some(i) => {
                proof {
                    lemma_lookup_member(gs, i as int);
                }
                Err(Error::AlreadyExists)
            },
            None => {
                proof {
                    lemma_lookup_none(gs, group@.id);
                    lemma_update_absent(gs, group@.id, group@);
                    lemma_update_unique(gs, group@.id, group@);
                }
                let ghost gv = group@;
                self.groups.push(group);
                proof {
                    assert(self.groups.deep_view() =~= gs.push(gv));
                }
                Ok(())
            },
        }
    }

    /// Remove a group; only the owner may. Removing an id that is not
    /// present succeeds and changes nothing.
    pub fn remove_group(&mut self, group_id: u64, sender: &Principal) -> (res: Result<(), Error>)
        requires
            old(self)@.wf(),
        ensures
            final(self)@.wf(),
            match res {
                Ok(()) => old(self)@.identity == sender@ && final(self)@ == (UserView {
                    groups: table_remove(old(self)@.groups, group_id),
                    ..old(self)@
                }),
                Err(e) => final(self)@ == old(self)@ && old(self)@.identity != sender@ && e
                    == Error::PermissionDenied,
            },
    {
        self.identity_check(sender)?;
        let ghost gs = self.groups.deep_view();
        proof {
            lemma_remove_unique(gs, group_id);
        }
        match find_group(&self.groups, group_id) {
            None => {
                proof {
                    lemma_lookup_none(gs, group_id);
                    lemma_remove_absent(gs, group_id);
                }
                Ok(())
            },
            Some(i) => {
                proof {
                    lemma_remove_at(gs, i as int);
                }
                self.groups.remove(i);
                proof {
                    assert(self.groups.deep_view() =~= gs.remove(i as int));
                }
                Ok(())
            },
        }
    }

    /// Append one `(group, project)` pair to the relation list this user
    /// keeps for the owner `relation_project_user`, creating the entry when
    /// it is the first invitation from that owner.
    pub fn add_project_relation(
        &mut self,
        relation_project_user: &Principal,
        group_id: u64,
        project_id: u64,
    ) -> (res: Result<(), Error>)
        requires
            old(self)@.wf(),
        ensures
            final(self)@.wf(),
            res is Ok,
            final(self)@ == (UserView {
                relation_project: table_update(
                    old(self)@.relation_project,
                    relation_project_user@,
                    RelationEntryView {
                        principal: relation_project_user@,
                        relations: relations_of(
                            old(self)@.relation_project,
                            relation_project_user@,
                        ).push(RelationProject { group_id, project_id }),
                    },
                ),
                ..old(self)@
            }),
    {
        let ghost rs = self.relation_project.deep_view();
        let rp = RelationProject::new(group_id, project_id);
        match find_relation(&self.relation_project, relation_project_user) {
            Some(i) => {
                proof {
                    lemma_lookup_at(rs, i as int);
                    lemma_update_at(
                        rs,
                        i as int,
                        RelationEntryView {
                            principal: rs[i as int].principal,
                            relations: rs[i as int].relations.push(rp),
                        },
                    );
                    lemma_update_unique(
                        rs,
                        rs[i as int].principal,
                        RelationEntryView {
                            principal: rs[i as int].principal,
                            relations: rs[i as int].relations.push(rp),
                        },
                    );
                }
                let e = &mut self.relation_project[i];
                e.relations.push(rp);
                proof {
                    assert(self.relation_project.deep_view() =~= rs.update(
                        i as int,
                        RelationEntryView {
                            principal: rs[i as int].principal,
                            relations: rs[i as int].relations.push(rp),
                        },
                    ));
                }
                Ok(())
            },
            None => {
                proof {
                    lemma_lookup_none(rs, relation_project_user@);
                }
                let mut relations: Vec<RelationProject> = Vec::new();
                relations.push(rp);
                let entry = RelationEntry {
                    principal: relation_project_user.clone(),
                    relations,
                };
                proof {
                    lemma_update_absent(rs, relation_project_user@, entry@);
                    lemma_update_unique(rs, relation_project_user@, entry@);
                    assert(entry@.relations =~= relations_of(rs, relation_project_user@).push(
                        rp,
                    ));
                }
                let ghost ev = entry@;
                self.relation_project.push(entry);
                proof {
                    assert(self.relation_project.deep_view() =~= rs.push(ev));
                }
                Ok(())
            },
        }
    }

    /// Drop the first pair with this project id from the relation list this
    /// user keeps for the owner `relation_project_user`. A missing entry or
    /// a missing pair is a no-op.
    pub fn remove_project_relation(
        &mut self,
        relation_project_user: &Principal,
        project_id: u64,
    ) -> (res: Result<(), Error>)
        requires
            old(self)@.wf(),
        ensures
            final(self)@.wf(),
            res is Ok,
            final(self)@ == match table_lookup(
                old(self)@.relation_project,
                relation_project_user@,
            ) {
                None => old(self)@,
                Some(entry) => UserView {
                    relation_project: table_update(
                        old(self)@.relation_project,
                        relation_project_user@,
                        RelationEntryView {
                            principal: relation_project_user@,
                            relations: table_remove(entry.relations, project_id),
                        },
                    ),
                    ..old(self)@
                },
            },
    {
        let ghost rs = self.relation_project.deep_view();
        match find_relation(&self.relation_project, relation_project_user) {
            None => {
                proof {
                    lemma_lookup_none(rs, relation_project_user@);
                }
                Ok(())
            },
            Some(i) => {
                proof {
                    lemma_lookup_at(rs, i as int);
                }
                let ghost entry = rs[i as int];
                let ghost newe = RelationEntryView {
                    principal: entry.principal,
                    relations: table_remove(entry.relations, project_id),
                };
                match find_relation_project(&self.relation_project[i].relations, project_id) {
                    None => {
                        proof {
                            lemma_lookup_none(entry.relations, project_id);
                            lemma_remove_absent(entry.relations, project_id);
                            assert(newe =~= entry);
                            lemma_update_same(rs, entry.principal);
                            assert((UserView {
                                relation_project: table_update(rs, entry.principal, newe),
                                ..old(self)@
                            }) =~= old(self)@);
                        }
                        Ok(())
                    },
                    Some(k) => {
                        proof {
                            lemma_remove_at(entry.relations, k as int);
                            lemma_update_at(rs, i as int, newe);
                            lemma_update_unique(rs, entry.principal, newe);
                        }
                        let e = &mut self.relation_project[i];
                        e.relations.remove(k);
                        proof {
                            assert(self.relation_project.deep_view()[i as int].relations
                                =~= entry.relations.remove(k as int));
                            assert(self.relation_project.deep_view()[i as int] =~= newe);
                            assert(self.relation_project.deep_view() =~= rs.update(
                                i as int,
                                newe,
                            ));
                        }
                        Ok(())
                    },
                }
            },
        }
    }
}

/// Resolve a group without any check, for reads that filter later.
pub open spec fn spec_get_group_info(u: UserView, gid: u64, sender: Seq<u8>) -> Result<
    Option<GroupView>,
    Error,
> {
    match table_lookup(u.groups, gid) {
        None => Ok(None),
        Some(g) => match g.visibility {
            Profile::Public => Ok(Some(g)),
            Profile::Private => if table_contains(g.members, sender) || u.identity == sender {
                Ok(Some(g))
            } else {
                Err(Error::PermissionDenied)
            },
        },
    }
}

/// The visibility rule of reading one project through its owning user: the
/// owner sees everything, everyone else goes through the group's rule.
pub open spec fn spec_user_get_project_info(
    u: UserView,
    gid: u64,
    pid: u64,
    sender: Seq<u8>,
) -> Result<Option<ProjectView>, Error> {
    match table_lookup(u.groups, gid) {
        None => Ok(None),
        Some(g) => if u.identity == sender {
            Ok(table_lookup(g.projects, pid))
        } else {
            spec_get_project_info(g, pid, sender)
        },
    }
}

impl User {
    /// Change a group member's authority; only the owner may.
    pub fn update_group_member_authority(
        &mut self,
        group_id: u64,
        member: &Principal,
        auth: Authority,
        sender: &Principal,
    ) -> (res: Result<(), Error>)
        requires
            old(self)@.wf(),
        ensures
            final(self)@.wf(),
            match res {
                Ok(()) => old(self)@.identity == sender@ && {
                    let found_g = table_lookup(old(self)@.groups, group_id);
                    found_g is Some && {
                        let found_m = table_lookup(found_g->0.members, member@);
                        found_m is Some && final(self)@ == with_group(
                            old(self)@,
                            GroupView {
                                members: table_update(
                                    found_g->0.members,
                                    member@,
                                    MemberView { authority: auth, ..found_m->0 },
                                ),
                                ..found_g->0
                            },
                        )
                    }
                },
                Err(e) => final(self)@ == old(self)@ && if old(self)@.identity != sender@ {
                    e == Error::PermissionDenied
                } else {
                    match table_lookup(old(self)@.groups, group_id) {
                        None => e == Error::NotFound,
                        Some(g) => !table_contains(g.members, member@) && e == Error::NotFound,
                    }
                },
            },
    {
        self.identity_check(sender)?;
        let ghost gs = self.groups.deep_view();
        match find_group(&self.groups, group_id) {
            None => {
                proof {
                    lemma_lookup_none(gs, group_id);
                }
                Err(Error::NotFound)
            },
            Some(i) => {
                proof {
                    lemma_lookup_at(gs, i as int);
                }
                let g = &mut self.groups[i];
                let r = g.update_member_authority(member, auth);
                proof {
                    self.relate_group_update(gs, i as int, r is Ok);
                }
                r
            },
        }
    }

    /// Change a project member's authority; the owning group demands
    /// `Operational` of the sender.
    pub fn update_project_member_authority(
        &mut self,
        group_id: u64,
        project_id: u64,
        member: &Principal,
        auth: Authority,
        sender: &Principal,
        now: u64,
    ) -> (res: Result<(), Error>)
        requires
            old(self)@.wf(),
        ensures
            final(self)@.wf(),
            match res {
                Ok(()) => {
                    let found_g = table_lookup(old(self)@.groups, group_id);
                    found_g is Some && spec_member_check(
                        found_g->0.members,
                        sender@,
                        Authority::Operational,
                        now,
                    ) is Ok && {
                        let found_p = table_lookup(found_g->0.projects, project_id);
                        found_p is Some && {
                            let found_m = table_lookup(found_p->0.members, member@);
                            found_m is Some && final(self)@ == with_group(
                                old(self)@,
                                with_project(
                                    found_g->0,
                                    ProjectView {
                                        members: table_update(
                                            found_p->0.members,
                                            member@,
                                            MemberView { authority: auth, ..found_m->0 },
                                        ),
                                        ..found_p->0
                                    },
                                ),
                            )
                        }
                    }
                },
                Err(e) => final(self)@ == old(self)@ && match table_lookup(
                    old(self)@.groups,
                    group_id,
                ) {
                    None => e == Error::NotFound,
                    Some(g) => match spec_member_check(
                        g.members,
                        sender@,
                        Authority::Operational,
                        now,
                    ) {
                        Err(x) => e == x,
                        Ok(()) => match table_lookup(g.projects, project_id) {
                            None => e == Error::NotFound,
                            Some(p) => !table_contains(p.members, member@) && e
                                == Error::NotFound,
                        },
                    },
                },
            },
    {
        let ghost gs = self.groups.deep_view();
        match find_group(&self.groups, group_id) {
            None => {
                proof {
                    lemma_lookup_none(gs, group_id);
                }
                Err(Error::NotFound)
            },
            Some(i) => {
                proof {
                    lemma_lookup_at(gs, i as int);
                }
                let g = &mut self.groups[i];
                let r = g.update_project_member_authority(project_id, member, auth, sender, now);
                proof {
                    self.relate_group_update(gs, i as int, r is Ok);
                }
                r
            },
        }
    }

    /// Add a project to one of this user's groups; the group demands
    /// `Operational`. On success, hands back the principals already filed
    /// as members of the new project, so the caller can fan out
    /// relation-index updates.
    pub fn add_project(&mut self, group_id: u64, project: Project, sender: &Principal, now: u64) -> (res:
        Result<Vec<Principal>, Error>)
        requires
            old(self)@.wf(),
            project@.wf(),
        ensures
            final(self)@.wf(),
            match res {
                Ok(v) => {
                    let found_g = table_lookup(old(self)@.groups, group_id);
                    found_g is Some && spec_member_check(
                        found_g->0.members,
                        sender@,
                        Authority::Operational,
                        now,
                    ) is Ok && !table_contains(found_g->0.projects, project@.id) && final(self)@
                        == with_group(
                        old(self)@,
                        GroupView { projects: found_g->0.projects.push(project@), ..found_g->0 },
                    ) && v.deep_view() == member_keys(project@.members)
                },
                Err(e) => final(self)@ == old(self)@ && match table_lookup(
                    old(self)@.groups,
                    group_id,
                ) {
                    None => e == Error::NotFound,
                    Some(g) => match spec_member_check(
                        g.members,
                        sender@,
                        Authority::Operational,
                        now,
                    ) {
                        Err(x) => e == x,
                        Ok(()) => table_contains(g.projects, project@.id)
                            && e == Error::AlreadyExists,
                    },
                },
            },
    {
        let ghost gs = self.groups.deep_view();
        match find_group(&self.groups, group_id) {
            None => {
                proof {
                    lemma_lookup_none(gs, group_id);
                }
                Err(Error::NotFound)
            },
            Some(i) => {
                proof {
                    lemma_lookup_at(gs, i as int);
                }
                let members = member_identities(&project.members);
                let g = &mut self.groups[i];
                let r = g.add_project(project, sender, now);
                proof {
                    self.relate_group_update(gs, i as int, r is Ok);
                }
                match r {
                    Ok(()) => Ok(members),
                    Err(e) => Err(e),
                }
            },
        }
    }

    /// Remove a project from one of this user's groups. The owner may
    /// always; anyone else needs the group's `Operational` check. Hands back
    /// the members of the removed project so relation entries can be
    /// revoked; a missing project yields an empty list and succeeds.
    pub fn remove_project(&mut self, group_id: u64, project_id: u64, sender: &Principal, now: u64) -> (res:
        Result<Vec<Principal>, Error>)
        requires
            old(self)@.wf(),
        ensures
            final(self)@.wf(),
            match res {
                Ok(v) => {
                    let found_g = table_lookup(old(self)@.groups, group_id);
                    found_g is Some && (sender@ == old(self)@.identity || spec_member_check(
                        found_g->0.members,
                        sender@,
                        Authority::Operational,
                        now,
                    ) is Ok) && final(self)@ == with_group(
                        old(self)@,
                        GroupView {
                            projects: table_remove(found_g->0.projects, project_id),
                            ..found_g->0
                        },
                    ) && v.deep_view() == match table_lookup(found_g->0.projects, project_id) {
                        Some(p) => member_keys(p.members),
                        None => Seq::empty(),
                    }
                },
                Err(e) => final(self)@ == old(self)@ && match table_lookup(
                    old(self)@.groups,
                    group_id,
                ) {
                    None => e == Error::NotFound,
                    Some(g) => sender@ != old(self)@.identity && Err::<(), Error>(e)
                        == spec_member_check(g.members, sender@, Authority::Operational, now),
                },
            },
    {
        let ghost gs = self.groups.deep_view();
        match find_group(&self.groups, group_id) {
            None => {
                proof {
                    lemma_lookup_none(gs, group_id);
                }
                Err(Error::NotFound)
            },
            Some(i) => {
                proof {
                    lemma_lookup_at(gs, i as int);
                }
                let ghost ps = self.groups@[i as int].projects.deep_view();
                let members = match crate::group::find_project(
                    &self.groups[i].projects,
                    project_id,
                ) {
                    Some(j) => {
                        proof {
                            lemma_lookup_at(ps, j as int);
                        }
                        member_identities(&self.groups[i].projects[j].members)
                    },
                    None => {
                        proof {
                            lemma_lookup_none(ps, project_id);
                        }
                        let v: Vec<Principal> = Vec::new();
                        proof {
                            assert(v.deep_view() =~= Seq::<Seq<u8>>::empty());
                        }
                        v
                    },
                };
                let owner = self.identity == *sender;
                let g = &mut self.groups[i];
                let r = if owner {
                    g.remove_project_unchecked(project_id);
                    Ok(())
                } else {
                    g.remove_project(project_id, sender, now)
                };
                proof {
                    self.relate_group_update(gs, i as int, r is Ok);
                }
                match r {
                    Ok(()) => Ok(members),
                    Err(e) => Err(e),
                }
            },
        }
    }

    /// File a member into a group; only the owner may.
    pub fn add_group_member(&mut self, group_id: u64, member: Member, sender: &Principal) -> (res:
        Result<(), Error>)
        requires
            old(self)@.wf(),
        ensures
            final(self)@.wf(),
            match res {
                Ok(()) => old(self)@.identity == sender@ && {
                    let found_g = table_lookup(old(self)@.groups, group_id);
                    found_g is Some && final(self)@ == with_group(
                        old(self)@,
                        GroupView {
                            members: table_update(
                                found_g->0.members,
                                member@.identity,
                                member@,
                            ),
                            ..found_g->0
                        },
                    )
                },
                Err(e) => final(self)@ == old(self)@ && if old(self)@.identity != sender@ {
                    e == Error::PermissionDenied
                } else {
                    !table_contains(old(self)@.groups, group_id) && e == Error::NotFound
                },
            },
    {
        self.identity_check(sender)?;
        let ghost gs = self.groups.deep_view();
        match find_group(&self.groups, group_id) {
            None => {
                proof {
                    lemma_lookup_none(gs, group_id);
                }
                Err(Error::NotFound)
            },
            Some(i) => {
                proof {
                    lemma_lookup_at(gs, i as int);
                }
                let g = &mut self.groups[i];
                let r = g.add_member(member);
                proof {
                    self.relate_group_update(gs, i as int, r is Ok);
                }
                r
            },
        }
    }

    /// Drop a member from a group. A principal may always remove itself;
    /// anyone else needs the owner check.
    pub fn remove_group_member(&mut self, group_id: u64, member: &Principal, sender: &Principal) -> (res:
        Result<(), Error>)
        requires
            old(self)@.wf(),
        ensures
            final(self)@.wf(),
            match res {
                Ok(()) => (member@ != sender@ ==> old(self)@.identity == sender@) && {
                    let found_g = table_lookup(old(self)@.groups, group_id);
                    found_g is Some && final(self)@ == with_group(
                        old(self)@,
                        GroupView {
                            members: table_remove(found_g->0.members, member@),
                            ..found_g->0
                        },
                    )
                },
                Err(e) => final(self)@ == old(self)@ && if member@ != sender@ && old(
                    self,
                )@.identity != sender@ {
                    e == Error::PermissionDenied
                } else {
                    !table_contains(old(self)@.groups, group_id) && e == Error::NotFound
                },
            },
    {
        if *member != *sender {
            self.identity_check(sender)?;
        }
        let ghost gs = self.groups.deep_view();
        match find_group(&self.groups, group_id) {
            None => {
                proof {
                    lemma_lookup_none(gs, group_id);
                }
                Err(Error::NotFound)
            },
            Some(i) => {
                proof {
                    lemma_lookup_at(gs, i as int);
                }
                let g = &mut self.groups[i];
                let r = g.remove_member(member);
                proof {
                    self.relate_group_update(gs, i as int, r is Ok);
                }
                r
            },
        }
    }

    /// File a member into a project; the owning group demands
    /// `Operational`.
    pub fn add_project_member(
        &mut self,
        group_id: u64,
        project_id: u64,
        member: Member,
        sender: &Principal,
        now: u64,
    ) -> (res: Result<(), Error>)
        requires
            old(self)@.wf(),
        ensures
            final(self)@.wf(),
            match res {
                Ok(()) => {
                    let found_g = table_lookup(old(self)@.groups, group_id);
                    found_g is Some && spec_member_check(
                        found_g->0.members,
                        sender@,
                        Authority::Operational,
                        now,
                    ) is Ok && {
                        let found_p = table_lookup(found_g->0.projects, project_id);
                        found_p is Some && final(self)@ == with_group(
                            old(self)@,
                            with_project(
                                found_g->0,
                                ProjectView {
                                    members: table_update(
                                        found_p->0.members,
                                        member@.identity,
                                        member@,
                                    ),
                                    ..found_p->0
                                },
                            ),
                        )
                    }
                },
                Err(e) => final(self)@ == old(self)@ && match table_lookup(
                    old(self)@.groups,
                    group_id,
                ) {
                    None => e == Error::NotFound,
                    Some(g) => match spec_member_check(
                        g.members,
                        sender@,
                        Authority::Operational,
                        now,
                    ) {
                        Err(x) => e == x,
                        Ok(()) => !table_contains(g.projects, project_id)
                            && e == Error::NotFound,
                    },
                },
            },
    {
        let ghost gs = self.groups.deep_view();
        match find_group(&self.groups, group_id) {
            None => {
                proof {
                    lemma_lookup_none(gs, group_id);
                }
                Err(Error::NotFound)
            },
            Some(i) => {
                proof {
                    lemma_lookup_at(gs, i as int);
                }
                let g = &mut self.groups[i];
                let r = g.add_project_member(project_id, member, sender, now);
                proof {
                    self.relate_group_update(gs, i as int, r is Ok);
                }
                r
            },
        }
    }

    /// Drop a member from a project. A principal may always remove itself;
    /// anyone else needs the group's `Operational` check.
    pub fn remove_project_member(
        &mut self,
        group_id: u64,
        project_id: u64,
        member: &Principal,
        sender: &Principal,
        now: u64,
    ) -> (res: Result<(), Error>)
        requires
            old(self)@.wf(),
        ensures
            final(self)@.wf(),
            match res {
                Ok(()) => {
                    let found_g = table_lookup(old(self)@.groups, group_id);
                    found_g is Some && (member@ != sender@ ==> spec_member_check(
                        found_g->0.members,
                        sender@,
                        Authority::Operational,
                        now,
                    ) is Ok) && {
                        let found_p = table_lookup(found_g->0.projects, project_id);
                        found_p is Some && final(self)@ == with_group(
                            old(self)@,
                            with_project(
                                found_g->0,
                                ProjectView {
                                    members: table_remove(found_p->0.members, member@),
                                    ..found_p->0
                                },
                            ),
                        )
                    }
                },
                Err(e) => final(self)@ == old(self)@ && match table_lookup(
                    old(self)@.groups,
                    group_id,
                ) {
                    None => e == Error::NotFound,
                    Some(g) => if member@ != sender@ && spec_member_check(
                        g.members,
                        sender@,
                        Authority::Operational,
                        now,
                    ) is Err {
                        Err::<(), Error>(e) == spec_member_check(
                            g.members,
                            sender@,
                            Authority::Operational,
                            now,
                        )
                    } else {
                        !table_contains(g.projects, project_id) && e == Error::NotFound
                    },
                },
            },
    {
        let ghost gs = self.groups.deep_view();
        match find_group(&self.groups, group_id) {
            None => {
                proof {
                    lemma_lookup_none(gs, group_id);
                }
                Err(Error::NotFound)
            },
            Some(i) => {
                proof {
                    lemma_lookup_at(gs, i as int);
                }
                let g = &mut self.groups[i];
                let r = g.remove_project_member(project_id, member, sender, now);
                proof {
                    self.relate_group_update(gs, i as int, r is Ok);
                }
                r
            },
        }
    }

    /// After a delegated call mutated the group at index `i`, tie the new
    /// group list to a table update of the old one (or to the old one
    /// itself when the call failed and left the group unchanged).
    proof fn relate_group_update(&self, gs: Seq<GroupView>, i: int, ok: bool)
        requires
            0 <= i < gs.len(),
            table_unique(gs),
            forall|k: int| 0 <= k < gs.len() ==> gs[k].wf(),
            self.groups.deep_view().len() == gs.len(),
            forall|k: int| 0 <= k < gs.len() && k != i ==> self.groups.deep_view()[k] == gs[k],
            self.groups.deep_view()[i].id == gs[i].id,
            self.groups.deep_view()[i].wf(),
            forall|j: int| 0 <= j < i ==> gs[j].id != gs[i].id,
            !ok ==> self.groups.deep_view()[i] == gs[i],
        ensures
            ok ==> self.groups.deep_view() == table_update(
                gs,
                gs[i].id,
                self.groups.deep_view()[i],
            ),
            !ok ==> self.groups.deep_view() == gs,
            table_unique(self.groups.deep_view()),
            forall|k: int|
                0 <= k < self.groups.deep_view().len() ==> self.groups.deep_view()[k].wf(),
    {
        let newg = self.groups.deep_view()[i];
        assert(self.groups.deep_view() =~= gs.update(i, newg));
        lemma_update_at(gs, i, newg);
        lemma_update_unique(gs, gs[i].id, newg);
        if !ok {
            assert(self.groups.deep_view() =~= gs);
        }
    }
}

impl User {
    /// Track one more canister inside a project; the project's own `Write`
    /// check decides.
    pub fn add_project_canister(
        &mut self,
        group_id: u64,
        project_id: u64,
        canister: Principal,
        sender: &Principal,
        now: u64,
    ) -> (res: Result<(), Error>)
        requires
            old(self)@.wf(),
        ensures
            final(self)@.wf(),
            match res {
                Ok(()) => {
                    let r = spec_user_project_op(
                        old(self)@,
                        group_id,
                        project_id,
                        sender@,
                        Authority::Write,
                        now,
                    );
                    r is Ok && !table_contains(r->Ok_0.1.canisters, canister@) && final(self)@
                        == with_group(
                        old(self)@,
                        with_project(
                            r->Ok_0.0,
                            ProjectView {
                                canisters: r->Ok_0.1.canisters.push(canister@),
                                ..r->Ok_0.1
                            },
                        ),
                    )
                },
                Err(e) => final(self)@ == old(self)@ && match spec_user_project_op(
                    old(self)@,
                    group_id,
                    project_id,
                    sender@,
                    Authority::Write,
                    now,
                ) {
                    Err(x) => e == x,
                    Ok(r) => table_contains(r.1.canisters, canister@)
                        && e == Error::AlreadyExists,
                },
            },
    {
        let ghost gs = self.groups.deep_view();
        match find_group(&self.groups, group_id) {
            None => {
                proof {
                    lemma_lookup_none(gs, group_id);
                }
                Err(Error::NotFound)
            },
            Some(i) => {
                proof {
                    lemma_lookup_at(gs, i as int);
                }
                let g = &mut self.groups[i];
                let r = g.add_project_canister(project_id, canister, sender, now);
                proof {
                    self.relate_group_update(gs, i as int, r is Ok);
                }
                r
            },
        }
    }

    /// Stop tracking a canister inside a project; the project's own
    /// `Write` check decides, and a canister that is not tracked is refused.
    pub fn remove_project_canister(
        &mut self,
        group_id: u64,
        project_id: u64,
        canister: &Principal,
        sender: &Principal,
        now: u64,
    ) -> (res: Result<(), Error>)
        requires
            old(self)@.wf(),
        ensures
            final(self)@.wf(),
            match res {
                Ok(()) => {
                    let r = spec_user_project_op(
                        old(self)@,
                        group_id,
                        project_id,
                        sender@,
                        Authority::Write,
                        now,
                    );
                    r is Ok && table_contains(r->Ok_0.1.canisters, canister@) && final(self)@
                        == with_group(
                        old(self)@,
                        with_project(
                            r->Ok_0.0,
                            ProjectView {
                                canisters: table_remove(r->Ok_0.1.canisters, canister@),
                                ..r->Ok_0.1
                            },
                        ),
                    )
                },
                Err(e) => final(self)@ == old(self)@ && match spec_user_project_op(
                    old(self)@,
                    group_id,
                    project_id,
                    sender@,
                    Authority::Write,
                    now,
                ) {
                    Err(x) => e == x,
                    Ok(r) => !table_contains(r.1.canisters, canister@) && e == Error::NotFound,
                },
            },
    {
        let ghost gs = self.groups.deep_view();
        match find_group(&self.groups, group_id) {
            None => {
                proof {
                    lemma_lookup_none(gs, group_id);
                }
                Err(Error::NotFound)
            },
            Some(i) => {
                proof {
                    lemma_lookup_at(gs, i as int);
                }
                let g = &mut self.groups[i];
                let r = g.remove_project_canister(project_id, canister, sender, now);
                proof {
                    self.relate_group_update(gs, i as int, r is Ok);
                }
                r
            },
        }
    }

    /// Replace a project's git repository url; the project's own `Write`
    /// check decides.
    pub fn update_project_git_repo_url(
        &mut self,
        group_id: u64,
        project_id: u64,
        git: String,
        sender: &Principal,
        now: u64,
    ) -> (res: Result<(), Error>)
        requires
            old(self)@.wf(),
        ensures
            final(self)@.wf(),
            match res {
                Ok(()) => {
                    let r = spec_user_project_op(
                        old(self)@,
                        group_id,
                        project_id,
                        sender@,
                        Authority::Write,
                        now,
                    );
                    r is Ok && final(self)@ == with_group(
                        old(self)@,
                        with_project(
                            r->Ok_0.0,
                            ProjectView { git_repo_url: git@, ..r->Ok_0.1 },
                        ),
                    )
                },
                Err(e) => final(self)@ == old(self)@ && Err::<(GroupView, ProjectView), Error>(e)
                    == spec_user_project_op(
                    old(self)@,
                    group_id,
                    project_id,
                    sender@,
                    Authority::Write,
                    now,
                ),
            },
    {
        let ghost gs = self.groups.deep_view();
        match find_group(&self.groups, group_id) {
            None => {
                proof {
                    lemma_lookup_none(gs, group_id);
                }
                Err(Error::NotFound)
            },
            Some(i) => {
                proof {
                    lemma_lookup_at(gs, i as int);
                }
                let g = &mut self.groups[i];
                let r = g.update_git_repo_url(project_id, git, sender, now);
                proof {
                    self.relate_group_update(gs, i as int, r is Ok);
                }
                r
            },
        }
    }

    /// Replace a project's cycle floor; demands `Write` at the group level
    /// and then the project's own `Write` check.
    pub fn update_canister_cycle_floor(
        &mut self,
        group_id: u64,
        project_id: u64,
        floor: u128,
        sender: &Principal,
        now: u64,
    ) -> (res: Result<(), Error>)
        requires
            old(self)@.wf(),
        ensures
            final(self)@.wf(),
            match res {
                Ok(()) => {
                    let found_g = table_lookup(old(self)@.groups, group_id);
                    found_g is Some && spec_member_check(
                        found_g->0.members,
                        sender@,
                        Authority::Write,
                        now,
                    ) is Ok && {
                        let r = spec_project_op(
                            found_g->0,
                            project_id,
                            sender@,
                            Authority::Write,
                            now,
                        );
                        r is Ok && final(self)@ == with_group(
                            old(self)@,
                            with_project(
                                found_g->0,
                                ProjectView { canister_cycle_floor: floor, ..r->Ok_0 },
                            ),
                        )
                    }
                },
                Err(e) => final(self)@ == old(self)@ && match table_lookup(
                    old(self)@.groups,
                    group_id,
                ) {
                    None => e == Error::NotFound,
                    Some(g) => match spec_member_check(g.members, sender@, Authority::Write, now) {
                        Err(x) => e == x,
                        Ok(()) => Err::<ProjectView, Error>(e) == spec_project_op(
                            g,
                            project_id,
                            sender@,
                            Authority::Write,
                            now,
                        ),
                    },
                },
            },
    {
        let ghost gs = self.groups.deep_view();
        match find_group(&self.groups, group_id) {
            None => {
                proof {
                    lemma_lookup_none(gs, group_id);
                }
                Err(Error::NotFound)
            },
            Some(i) => {
                proof {
                    lemma_lookup_at(gs, i as int);
                }
                let g = &mut self.groups[i];
                let r = g.update_canister_cycle_floor(project_id, floor, sender, now);
                proof {
                    self.relate_group_update(gs, i as int, r is Ok);
                }
                r
            },
        }
    }

    /// Replace a project's visibility; the project's own `Write` check
    /// decides.
    pub fn update_project_visibility(
        &mut self,
        group_id: u64,
        project_id: u64,
        visibility: Profile,
        sender: &Principal,
        now: u64,
    ) -> (res: Result<(), Error>)
        requires
            old(self)@.wf(),
        ensures
            final(self)@.wf(),
            match res {
                Ok(()) => {
                    let r = spec_user_project_op(
                        old(self)@,
                        group_id,
                        project_id,
                        sender@,
                        Authority::Write,
                        now,
                    );
                    r is Ok && final(self)@ == with_group(
                        old(self)@,
                        with_project(r->Ok_0.0, ProjectView { visibility, ..r->Ok_0.1 }),
                    )
                },
                Err(e) => final(self)@ == old(self)@ && Err::<(GroupView, ProjectView), Error>(e)
                    == spec_user_project_op(
                    old(self)@,
                    group_id,
                    project_id,
                    sender@,
                    Authority::Write,
                    now,
                ),
            },
    {
        let ghost gs = self.groups.deep_view();
        match find_group(&self.groups, group_id) {
            None => {
                proof {
                    lemma_lookup_none(gs, group_id);
                }
                Err(Error::NotFound)
            },
            Some(i) => {
                proof {
                    lemma_lookup_at(gs, i as int);
                }
                let g = &mut self.groups[i];
                let r = g.update_visibility(project_id, visibility, sender, now);
                proof {
                    self.relate_group_update(gs, i as int, r is Ok);
                }
                r
            },
        }
    }

    /// Replace a project's description; the project's own `Write` check
    /// decides.
    pub fn update_project_description(
        &mut self,
        group_id: u64,
        project_id: u64,
        description: String,
        sender: &Principal,
        now: u64,
    ) -> (res: Result<(), Error>)
        requires
            old(self)@.wf(),
        ensures
            final(self)@.wf(),
            match res {
                Ok(()) => {
                    let r = spec_user_project_op(
                        old(self)@,
                        group_id,
                        project_id,
                        sender@,
                        Authority::Write,
                        now,
                    );
                    r is Ok && final(self)@ == with_group(
                        old(self)@,
                        with_project(
                            r->Ok_0.0,
                            ProjectView { description: description@, ..r->Ok_0.1 },
                        ),
                    )
                },
                Err(e) => final(self)@ == old(self)@ && Err::<(GroupView, ProjectView), Error>(e)
                    == spec_user_project_op(
                    old(self)@,
                    group_id,
                    project_id,
                    sender@,
                    Authority::Write,
                    now,
                ),
            },
    {
        let ghost gs = self.groups.deep_view();
        match find_group(&self.groups, group_id) {
            None => {
                proof {
                    lemma_lookup_none(gs, group_id);
                }
                Err(Error::NotFound)
            },
            Some(i) => {
                proof {
                    lemma_lookup_at(gs, i as int);
                }
                let g = &mut self.groups[i];
                let r = g.update_description(project_id, description, sender, now);
                proof {
                    self.relate_group_update(gs, i as int, r is Ok);
                }
                r
            },
        }
    }

    /// The authority check of a status query on a project's canister, resolved
    /// through the owning group.
    pub fn get_canister_status(
        &self,
        group_id: u64,
        project_id: u64,
        canister: &Principal,
        sender: &Principal,
        now: u64,
    ) -> (res: Result<u128, Error>)
        ensures
            res == match table_lookup(self@.groups, group_id) {
                None => Err::<u128, Error>(Error::NotFound),
                Some(g) => match table_lookup(g.projects, project_id) {
                    None => Err::<u128, Error>(Error::NotFound),
                    Some(p) => match crate::project::spec_canister_op(
                        p,
                        canister@,
                        sender@,
                        Authority::Read,
                        g.visibility == Profile::Private,
                        now,
                    ) {
                        Ok(()) => Ok::<u128, Error>(p.canister_cycle_floor),
                        Err(e) => Err::<u128, Error>(e),
                    },
                },
            },
    {
        let ghost gs = self.groups.deep_view();
        match find_group(&self.groups, group_id) {
            None => {
                proof {
                    lemma_lookup_none(gs, group_id);
                }
                Err(Error::NotFound)
            },
            Some(i) => {
                proof {
                    lemma_lookup_at(gs, i as int);
                }
                self.groups[i].get_canister_status(project_id, canister, sender, now)
            },
        }
    }

    /// The authority check of stopping a project's canister.
    pub fn stop_project_canister(
        &self,
        group_id: u64,
        project_id: u64,
        canister: &Principal,
        sender: &Principal,
        now: u64,
    ) -> (res: Result<(), Error>)
        ensures
            res == match table_lookup(self@.groups, group_id) {
                None => Err::<(), Error>(Error::NotFound),
                Some(g) => match table_lookup(g.projects, project_id) {
                    None => Err::<(), Error>(Error::NotFound),
                    Some(p) => crate::project::spec_canister_op(
                        p,
                        canister@,
                        sender@,
                        Authority::Operational,
                        true,
                        now,
                    ),
                },
            },
    {
        let ghost gs = self.groups.deep_view();
        match find_group(&self.groups, group_id) {
            None => {
                proof {
                    lemma_lookup_none(gs, group_id);
                }
                Err(Error::NotFound)
            },
            Some(i) => {
                proof {
                    lemma_lookup_at(gs, i as int);
                }
                self.groups[i].stop_project_canister(project_id, canister, sender, now)
            },
        }
    }

    /// The authority check of starting a project's canister.
    pub fn start_project_canister(
        &self,
        group_id: u64,
        project_id: u64,
        canister: &Principal,
        sender: &Principal,
        now: u64,
    ) -> (res: Result<(), Error>)
        ensures
            res == match table_lookup(self@.groups, group_id) {
                None => Err::<(), Error>(Error::NotFound),
                Some(g) => match table_lookup(g.projects, project_id) {
                    None => Err::<(), Error>(Error::NotFound),
                    Some(p) => crate::project::spec_canister_op(
                        p,
                        canister@,
                        sender@,
                        Authority::Operational,
                        true,
                        now,
                    ),
                },
            },
    {
        let ghost gs = self.groups.deep_view();
        match find_group(&self.groups, group_id) {
            None => {
                proof {
                    lemma_lookup_none(gs, group_id);
                }
                Err(Error::NotFound)
            },
            Some(i) => {
                proof {
                    lemma_lookup_at(gs, i as int);
                }
                self.groups[i].start_project_canister(project_id, canister, sender, now)
            },
        }
    }

    /// The authority check of deleting a project's canister.
    pub fn delete_project_canister(
        &self,
        group_id: u64,
        project_id: u64,
        canister: &Principal,
        sender: &Principal,
        now: u64,
    ) -> (res: Result<(), Error>)
        ensures
            res == match table_lookup(self@.groups, group_id) {
                None => Err::<(), Error>(Error::NotFound),
                Some(g) => match table_lookup(g.projects, project_id) {
                    None => Err::<(), Error>(Error::NotFound),
                    Some(p) => crate::project::spec_canister_op(
                        p,
                        canister@,
                        sender@,
                        Authority::Operational,
                        true,
                        now,
                    ),
                },
            },
    {
        let ghost gs = self.groups.deep_view();
        match find_group(&self.groups, group_id) {
            None => {
                proof {
                    lemma_lookup_none(gs, group_id);
                }
                Err(Error::NotFound)
            },
            Some(i) => {
                proof {
                    lemma_lookup_at(gs, i as int);
                }
                self.groups[i].delete_project_canister(project_id, canister, sender, now)
            },
        }
    }

    /// The authority check of installing code on a project's canister.
    pub fn install_code(
        &self,
        group_id: u64,
        project_id: u64,
        canister: &Principal,
        install_mod: InstallCodeMode,
        sender: &Principal,
        now: u64,
    ) -> (res: Result<(), Error>)
        ensures
            res == match table_lookup(self@.groups, group_id) {
                None => Err::<(), Error>(Error::NotFound),
                Some(g) => match table_lookup(g.projects, project_id) {
                    None => Err::<(), Error>(Error::NotFound),
                    Some(p) => crate::project::spec_canister_op(
                        p,
                        canister@,
                        sender@,
                        Authority::Operational,
                        true,
                        now,
                    ),
                },
            },
    {
        let ghost gs = self.groups.deep_view();
        match find_group(&self.groups, group_id) {
            None => {
                proof {
                    lemma_lookup_none(gs, group_id);
                }
                Err(Error::NotFound)
            },
            Some(i) => {
                proof {
                    lemma_lookup_at(gs, i as int);
                }
                self.groups[i].install_code(project_id, canister, install_mod, sender, now)
            },
        }
    }

    /// Read one project through the visibility rule of
    /// `spec_user_get_project_info`, as a defensive copy.
    pub fn get_project_info(&self, group_id: u64, project_id: u64, sender: &Principal) -> (res:
        Result<Option<Project>, Error>)
        ensures
            match res {
                Ok(Some(p)) => spec_user_get_project_info(self@, group_id, project_id, sender@)
                    == Ok::<Option<ProjectView>, Error>(Some(p@)),
                Ok(None) => spec_user_get_project_info(self@, group_id, project_id, sender@)
                    == Ok::<Option<ProjectView>, Error>(None),
                Err(e) => spec_user_get_project_info(self@, group_id, project_id, sender@)
                    == Err::<Option<ProjectView>, Error>(e),
            },
    {
        let ghost gs = self.groups.deep_view();
        match find_group(&self.groups, group_id) {
            None => {
                proof {
                    lemma_lookup_none(gs, group_id);
                }
                Ok(None)
            },
            Some(i) => {
                proof {
                    lemma_lookup_at(gs, i as int);
                }
                let g = &self.groups[i];
                if self.identity == *sender {
                    let ghost ps = g.projects.deep_view();
                    match crate::group::find_project(&g.projects, project_id) {
                        None => {
                            proof {
                                lemma_lookup_none(ps, project_id);
                            }
                            Ok(None)
                        },
                        Some(j) => {
                            proof {
                                lemma_lookup_at(ps, j as int);
                            }
                            Ok(Some(g.projects[j].clone()))
                        },
                    }
                } else {
                    match g.get_project_info(project_id, sender) {
                        Err(e) => Err(e),
                        Ok(None) => Ok(None),
                        Ok(Some(p)) => Ok(Some(p.clone())),
                    }
                }
            },
        }
    }

    /// Read one group: public groups always, private groups only to their
    /// members and to the owner, as a defensive copy.
    pub fn get_group_info(&self, group_id: u64, sender: &Principal) -> (res: Result<
        Option<Group>,
        Error,
    >)
        ensures
            match res {
                Ok(Some(g)) => spec_get_group_info(self@, group_id, sender@) == Ok::<
                    Option<GroupView>,
                    Error,
                >(Some(g@)),
                Ok(None) => spec_get_group_info(self@, group_id, sender@) == Ok::<
                    Option<GroupView>,
                    Error,
                >(None),
                Err(e) => spec_get_group_info(self@, group_id, sender@) == Err::<
                    Option<GroupView>,
                    Error,
                >(e),
            },
    {
        let ghost gs = self.groups.deep_view();
        match find_group(&self.groups, group_id) {
            None => {
                proof {
                    lemma_lookup_none(gs, group_id);
                }
                Ok(None)
            },
            Some(i) => {
                proof {
                    lemma_lookup_at(gs, i as int);
                }
                let g = &self.groups[i];
                match g.visibility {
                    Profile::Public => Ok(Some(g.clone())),
                    Profile::Private => {
                        let ghost ms = g.members.deep_view();
                        match find_member(&g.members, sender) {
                            Some(j) => {
                                proof {
                                    lemma_lookup_at(ms, j as int);
                                }
                                Ok(Some(g.clone()))
                            },
                            None => {
                                proof {
                                    lemma_lookup_none(ms, sender@);
                                }
                                if self.identity == *sender {
                                    Ok(Some(g.clone()))
                                } else {
                                    Err(Error::PermissionDenied)
                                }
                            },
                        }
                    },
                }
            },
        }
    }

    /// Read one member record of a group, as a copy.
    pub fn get_group_member_info(&self, group_id: u64, member: &Principal) -> (res: Result<
        Member,
        Error,
    >)
        ensures
            match res {
                Ok(m) => {
                    let found_g = table_lookup(self@.groups, group_id);
                    found_g is Some && table_lookup(found_g->0.members, member@) == Some(m@)
                },
                Err(e) => e == Error::NotFound && match table_lookup(self@.groups, group_id) {
                    None => true,
                    Some(g) => !table_contains(g.members, member@),
                },
            },
    {
        let ghost gs = self.groups.deep_view();
        match find_group(&self.groups, group_id) {
            None => {
                proof {
                    lemma_lookup_none(gs, group_id);
                }
                Err(Error::NotFound)
            },
            Some(i) => {
                proof {
                    lemma_lookup_at(gs, i as int);
                }
                let g = &self.groups[i];
                let ghost ms = g.members.deep_view();
                match find_member(&g.members, member) {
                    None => {
                        proof {
                            lemma_lookup_none(ms, member@);
                        }
                        Err(Error::NotFound)
                    },
                    Some(j) => {
                        proof {
                            lemma_lookup_at(ms, j as int);
                        }
                        Ok(g.members[j].clone())
                    },
                }
            },
        }
    }

    /// Replace a group's basic information; the group demands `Write`.
    pub fn update_group_basic_information(
        &mut self,
        group_id: u64,
        name: String,
        description: String,
        visibility: Profile,
        url: String,
        sender: &Principal,
        now: u64,
    ) -> (res: Result<(), Error>)
        requires
            old(self)@.wf(),
        ensures
            final(self)@.wf(),
            match res {
                Ok(()) => {
                    let found_g = table_lookup(old(self)@.groups, group_id);
                    found_g is Some && spec_member_check(
                        found_g->0.members,
                        sender@,
                        Authority::Write,
                        now,
                    ) is Ok && final(self)@ == with_group(
                        old(self)@,
                        GroupView {
                            name: name@,
                            description: description@,
                            visibility,
                            url: url@,
                            ..found_g->0
                        },
                    )
                },
                Err(e) => final(self)@ == old(self)@ && match table_lookup(
                    old(self)@.groups,
                    group_id,
                ) {
                    None => e == Error::NotFound,
                    Some(g) => Err::<(), Error>(e) == spec_member_check(
                        g.members,
                        sender@,
                        Authority::Write,
                        now,
                    ),
                },
            },
    {
        let ghost gs = self.groups.deep_view();
        match find_group(&self.groups, group_id) {
            None => {
                proof {
                    lemma_lookup_none(gs, group_id);
                }
                Err(Error::NotFound)
            },
            Some(i) => {
                proof {
                    lemma_lookup_at(gs, i as int);
                }
                let g = &mut self.groups[i];
                let r = g.update_basic_information(name, description, visibility, url, sender, now);
                proof {
                    self.relate_group_update(gs, i as int, r is Ok);
                }
                r
            },
        }
    }

    /// Replace a project's whole basic information; the group's `Write`
    /// check bypasses the project's own.
    pub fn update_project_basic_information(
        &mut self,
        group_id: u64,
        project_id: u64,
        name: String,
        description: String,
        visibility: Profile,
        git: String,
        canister_cycle_floor: u128,
        canisters: Vec<Principal>,
        sender: &Principal,
        now: u64,
    ) -> (res: Result<(), Error>)
        requires
            old(self)@.wf(),
        ensures
            final(self)@.wf(),
            match res {
                Ok(()) => {
                    let found_g = table_lookup(old(self)@.groups, group_id);
                    found_g is Some && {
                        let found_p = table_lookup(found_g->0.projects, project_id);
                        let bypass = spec_member_check(
                            found_g->0.members,
                            sender@,
                            Authority::Write,
                            now,
                        ) is Ok;
                        found_p is Some && (!bypass ==> spec_member_check(
                            found_p->0.members,
                            sender@,
                            Authority::Write,
                            now,
                        ) is Ok) && final(self)@ == with_group(
                            old(self)@,
                            with_project(
                                found_g->0,
                                ProjectView {
                                    name: name@,
                                    description: description@,
                                    visibility,
                                    git_repo_url: git@,
                                    canister_cycle_floor,
                                    canisters: crate::table::table_of(canisters.deep_view()),
                                    ..found_p->0
                                },
                            ),
                        )
                    }
                },
                Err(e) => final(self)@ == old(self)@ && match table_lookup(
                    old(self)@.groups,
                    group_id,
                ) {
                    None => e == Error::NotFound,
                    Some(g) => match table_lookup(g.projects, project_id) {
                        None => e == Error::NotFound,
                        Some(p) => spec_member_check(g.members, sender@, Authority::Write, now)
                            is Err && Err::<(), Error>(e) == spec_member_check(
                            p.members,
                            sender@,
                            Authority::Write,
                            now,
                        ),
                    },
                },
            },
    {
        let ghost gs = self.groups.deep_view();
        match find_group(&self.groups, group_id) {
            None => {
                proof {
                    lemma_lookup_none(gs, group_id);
                }
                Err(Error::NotFound)
            },
            Some(i) => {
                proof {
                    lemma_lookup_at(gs, i as int);
                }
                let g = &mut self.groups[i];
                let r = g.update_project_basic_information(
                    project_id,
                    name,
                    description,
                    visibility,
                    git,
                    canister_cycle_floor,
                    canisters,
                    sender,
                    now,
                );
                proof {
                    self.relate_group_update(gs, i as int, r is Ok);
                }
                r
            },
        }
    }
}

/// The index of the first pair with this project id, if any.
fn find_relation_project(list: &Vec<RelationProject>, project_id: u64) -> (r: Option<usize>)
    ensures
        match r {
            Some(k) => k < list.len() && list@[k as int].project_id == project_id && (forall|
                t: int,
            | 0 <= t < k ==> list@[t].project_id != project_id),
            None => forall|t: int| 0 <= t < list.len() ==> list@[t].project_id != project_id,
        },
{
    let n = list.len();
    let mut k: usize = 0;
    while k < n
        invariant
            n == list.len(),
            k <= n,
            forall|t: int| 0 <= t < k ==> list@[t].project_id != project_id,
        decreases n - k,
    {
        if list[k].project_id == project_id {
            return Some(k);
        }
        k += 1;
    }
    None
}

/// Whether one group is shown to an outside sender by `get_user_info`.
fn group_visible(g: &Group, sender: &Principal, now: u64) -> (b: bool)
    ensures
        b == group_visible_to(g@, sender@, now),
{
    match g.visibility {
        Profile::Public => true,
        Profile::Private => {
            let ghost ms = g.members.deep_view();
            match find_member(&g.members, sender) {
                None => {
                    proof {
                        lemma_lookup_none(ms, sender@);
                    }
                    false
                },
                Some(i) => {
                    proof {
                        lemma_lookup_at(ms, i as int);
                    }
                    let m = &g.members[i];
                    if let Option::Some(e) = m.expiration_time {
                        if e < now {
                            return false;
                        }
                    }
                    true
                },
            }
        },
    }
}

/// Ownership of a group id is exclusive: after one successful add of `g`
/// onto a user without that id, the id is taken and a lookup under it
/// finds exactly `g` — so by the contract of `add_group`, a second add
/// with the same id returns `AlreadyExists` and leaves the stored group's
/// contents unmodified.
pub proof fn law_group_ownership_unique(u0: UserView, g: GroupView)
    requires
        !table_contains(u0.groups, g.id),
    ensures
        table_contains(u0.groups.push(g), g.id),
        table_lookup(u0.groups.push(g), g.id) == Some(g),
{
    crate::table::lemma_lookup_none_elements(u0.groups, g.id);
    crate::table::lemma_lookup_at(u0.groups.push(g), u0.groups.len() as int);
}

} // verus!
