use vstd::prelude::*;

use crate::authority::Authority;
use crate::errors::Error;
use crate::member::{
    find_member, member_check, remove_member_entry, spec_member_check, upsert_member, Member,
    MemberView,
};
use crate::principal::Principal;
use crate::project::{build_member_table, spec_canister_op, Project, ProjectView};
use crate::table::{
    lemma_lookup_at, lemma_lookup_member, lemma_lookup_none, lemma_remove_absent, lemma_remove_at,
    lemma_remove_unique, lemma_update_absent, lemma_update_at, lemma_update_is_subset,
    lemma_update_unique, table_contains, table_lookup, table_of, table_remove, table_unique,
    table_update, Keyed,
};
use crate::types::{InstallCodeMode, Profile};

verus! {

/// A group: basic information, a member table carrying group-level roles,
/// and the projects it owns, keyed by project id.
#[derive(Debug)]
pub struct Group {
    pub id: u64,
    pub create_time: u64,
    pub visibility: Profile,
    pub name: String,
    pub description: String,
    pub projects: Vec<Project>,
    pub members: Vec<Member>,
    pub url: String,
}

/// The mathematical value of a group.
#[verifier::ext_equal]
pub struct GroupView {
    pub id: u64,
    pub create_time: u64,
    pub visibility: Profile,
    pub name: Seq<char>,
    pub description: Seq<char>,
    pub projects: Seq<ProjectView>,
    pub members: Seq<MemberView>,
    pub url: Seq<char>,
}

impl View for Group {
    type V = GroupView;

    open spec fn view(&self) -> GroupView {
        GroupView {
            id: self.id,
            create_time: self.create_time,
            visibility: self.visibility,
            name: self.name@,
            description: self.description@,
            projects: self.projects.deep_view(),
            members: self.members.deep_view(),
            url: self.url@,
        }
    }
}

impl DeepView for Group {
    type V = GroupView;

    open spec fn deep_view(&self) -> GroupView {
        self.view()
    }
}

impl Keyed for GroupView {
    type Key = u64;

    open spec fn key(self) -> u64 {
        self.id
    }
}

impl GroupView {
    /// Project ids and member identities are unique, and every owned
    /// project is itself well formed.
    pub open spec fn wf(self) -> bool {
        &&& table_unique(self.projects)
        &&& table_unique(self.members)
        &&& forall|i: int| 0 <= i < self.projects.len() ==> self.projects[i].wf()
    }
}

/// The group with the project filed under `p.id` replaced by `p`.
pub open spec fn with_project(g: GroupView, p: ProjectView) -> GroupView {
    GroupView { projects: table_update(g.projects, p.id, p), ..g }
}

/// Resolve a project of the group and check the sender on the project's own
/// member table at `required`.
pub open spec fn spec_project_op(
    g: GroupView,
    pid: u64,
    sender: Seq<u8>,
    required: Authority,
    now: u64,
) -> Result<ProjectView, Error> {
    match table_lookup(g.projects, pid) {
        None => Err(Error::NotFound),
        Some(p) => match spec_member_check(p.members, sender, required, now) {
            Err(e) => Err(e),
            Ok(()) => Ok(p),
        },
    }
}

/// The visibility rule for reading a project of this group: a public group
/// shows public projects to anyone and private projects to their own
/// members; a private group shows everything to its own members, and to
/// outsiders only projects they are members of.
pub open spec fn spec_get_project_info(g: GroupView, pid: u64, sender: Seq<u8>) -> Result<
    Option<ProjectView>,
    Error,
> {
    match g.visibility {
        Profile::Public => match table_lookup(g.projects, pid) {
            None => Ok(None),
            Some(p) => match p.visibility {
                Profile::Public => Ok(Some(p)),
                Profile::Private => if table_contains(p.members, sender) {
                    Ok(Some(p))
                } else {
                    Err(Error::PermissionDenied)
                },
            },
        },
        Profile::Private => if table_contains(g.members, sender) {
            Ok(table_lookup(g.projects, pid))
        } else {
            match table_lookup(g.projects, pid) {
                None => Ok(None),
                Some(p) => if table_contains(p.members, sender) {
                    Ok(Some(p))
                } else {
                    Err(Error::PermissionDenied)
                },
            }
        },
    }
}

/// The index of the first project filed under `id`, if any.
pub(crate) fn find_project(projects: &Vec<Project>, id: u64) -> (r: Option<usize>)
    ensures
        match r {
            Some(i) => i < projects.len() && projects@[i as int]@.id == id && (forall|j: int|
                0 <= j < i ==> projects@[j]@.id != id),
            None => forall|j: int| 0 <= j < projects.len() ==> projects@[j]@.id != id,
        },
{
    let n = projects.len();
    let mut i: usize = 0;
    while i < n
        invariant
            n == projects.len(),
            i <= n,
            forall|j: int| 0 <= j < i ==> projects@[j]@.id != id,
        decreases n - i,
    {
        if projects[i].id == id {
            return Some(i);
        }
        i += 1;
    }
    None
}

/// File each project of `ps` under its id in turn, so that for one id the
/// last record wins.
pub(crate) fn build_project_table(ps: Vec<Project>) -> (r: Vec<Project>)
    ensures
        r.deep_view() == table_of(ps.deep_view()),
        table_unique(r.deep_view()),
        (forall|i: int| 0 <= i < ps.deep_view().len() ==> ps.deep_view()[i].wf()) ==> (forall|
            i: int,
        | 0 <= i < r.deep_view().len() ==> r.deep_view()[i].wf()),
{
    let ghost input = ps.deep_view();
    let mut r: Vec<Project> = Vec::new();
    let mut rest = ps;
    let n = rest.len();
    let mut i: usize = 0;
    proof {
        assert(r.deep_view() =~= table_of(input.take(0)));
    }
    while i < n
        invariant
            n == rest.len(),
            i <= n,
            rest.deep_view() == input,
            r.deep_view() == table_of(input.take(i as int)),
            table_unique(r.deep_view()),
            (forall|k: int| 0 <= k < input.len() ==> input[k].wf()) ==> (forall|k: int|
                0 <= k < r.deep_view().len() ==> r.deep_view()[k].wf()),
        decreases n - i,
    {
        let p = rest[i].clone();
        let ghost before = r.deep_view();
        proof {
            lemma_update_unique(before, p@.id, p@);
            assert(input.take(i + 1).drop_last() =~= input.take(i as int));
            assert(input.take(i + 1).last() == input[i as int]);
            assert(p@ == input[i as int]);
        }
        upsert_project(&mut r, p);
        proof {
            if forall|k: int| 0 <= k < input.len() ==> input[k].wf() {
                assert forall|k: int|
                    0 <= k < r.deep_view().len() implies r.deep_view()[k].wf() by {
                    lemma_update_is_subset(before, input[i as int].id, input[i as int], k);
                    if r.deep_view()[k] != input[i as int] {
                        let j = choose|j: int|
                            0 <= j < before.len() && before[j] == r.deep_view()[k];
                    }
                }
            }
        }
        i += 1;
    }
    proof {
        assert(input.take(n as int) =~= input);
    }
    r
}

/// File `p` under its id: overwrite the record already filed there, or
/// append.
pub(crate) fn upsert_project(projects: &mut Vec<Project>, p: Project)
    ensures
        final(projects).deep_view() == table_update(old(projects).deep_view(), p@.id, p@),
{
    let ghost ps = projects.deep_view();
    match find_project(projects, p.id) {
        Some(i) => {
            proof {
                lemma_update_at(ps, i as int, p@);
            }
            projects[i] = p;
            proof {
                assert(projects.deep_view() =~= ps.update(i as int, p@));
            }
        },
        None => {
            proof {
                lemma_update_absent(ps, p@.id, p@);
            }
            let ghost pv = p@;
            projects.push(p);
            proof {
                assert(projects.deep_view() =~= ps.push(pv));
            }
        },
    }
}

impl Clone for Group {
    fn clone(&self) -> (r: Self)
        ensures
            r@ == self@,
    {
        let r = Group {
            id: self.id,
            create_time: self.create_time,
            visibility: self.visibility,
            name: self.name.clone(),
            description: self.description.clone(),
            projects: clone_projects(&self.projects),
            members: self.members.clone(),
            url: self.url.clone(),
        };
        proof {
            assert forall|i: int|
                0 <= i < r.members@.len() implies r.members@[i]@ == self.members@[i]@ by {
                assert(cloned::<Member>(self.members@[i], r.members@[i]));
            }
            assert(r.members.deep_view() =~= self.members.deep_view());
            assert(r@ =~= self@);
        }
        r
    }
}

/// Clone a project list, keeping its mathematical value.
pub(crate) fn clone_projects(ps: &Vec<Project>) -> (r: Vec<Project>)
    ensures
        r.deep_view() == ps.deep_view(),
{
    let n = ps.len();
    let mut r: Vec<Project> = Vec::new();
    let mut i: usize = 0;
    proof {
        assert(r.deep_view() =~= ps.deep_view().take(0));
    }
    while i < n
        invariant
            n == ps.len(),
            i <= n,
            r.deep_view() == ps.deep_view().take(i as int),
        decreases n - i,
    {
        let ghost before = r.deep_view();
        let c = ps[i].clone();
        proof {
            assert(c@ == ps.deep_view()[i as int]);
        }
        r.push(c);
        proof {
            assert(r.deep_view() =~= before.push(ps.deep_view()[i as int]));
            assert(r.deep_view() =~= ps.deep_view().take(i + 1));
        }
        i += 1;
    }
    proof {
        assert(ps.deep_view().take(n as int) =~= ps.deep_view());
    }
    r
}

impl Group {
    /// Build a group; members and projects are filed under their keys, a
    /// later record under the same key winning.
    pub fn new(
        id: u64,
        create_time: u64,
        visibility: Profile,
        name: String,
        description: String,
        projects: Vec<Project>,
        members: Vec<Member>,
        url: String,
    ) -> (r: Self)
        requires
            forall|i: int|
                0 <= i < projects.deep_view().len() ==> projects.deep_view()[i].wf(),
        ensures
            r@ == (GroupView {
                id,
                create_time,
                visibility,
                name: name@,
                description: description@,
                projects: table_of(projects.deep_view()),
                members: table_of(members.deep_view()),
                url: url@,
            }),
            r@.wf(),
    {
        let project_table = build_project_table(projects);
        let member_table = build_member_table(members);
        Self {
            id,
            create_time,
            name,
            description,
            visibility,
            projects: project_table,
            members: member_table,
            url,
        }
    }

    /// Resolve `sender` among the group's own members and demand `opt`.
    pub fn identity_check(&self, opt: Authority, sender: &Principal, now: u64) -> (res: Result<
        (),
        Error,
    >)
        ensures
            res == spec_member_check(self@.members, sender@, opt, now),
    {
        member_check(&self.members, opt, sender, now)
    }

    /// Add a project to the group; demands `Operational` and fails when the
    /// project id is already taken.
    pub fn add_project(&mut self, project: Project, sender: &Principal, now: u64) -> (res: Result<
        (),
        Error,
    >)
        requires
            old(self)@.wf(),
            project@.wf(),
        ensures
            final(self)@.wf(),
            match res {
                Ok(()) => spec_member_check(old(self)@.members, sender@, Authority::Operational, now)
                    is Ok && !table_contains(old(self)@.projects, project@.id) && final(self)@ == (
                GroupView { projects: old(self)@.projects.push(project@), ..old(self)@ }),
                Err(e) => final(self)@ == old(self)@ && match spec_member_check(
                    old(self)@.members,
                    sender@,
                    Authority::Operational,
                    now,
                ) {
                    Err(g) => e == g,
                    Ok(()) => table_contains(old(self)@.projects, project@.id)
                        && e == Error::AlreadyExists,
                },
            },
    {
        self.identity_check(Authority::Operational, sender, now)?;
        let ghost ps = self.projects.deep_view();
        match find_project(&self.projects, project.id) {
            Some(i) => {
                proof {
                    lemma_lookup_member(ps, i as int);
                }
                Err(Error::AlreadyExists)
            },
            None => {
                proof {
                    lemma_lookup_none(ps, project@.id);
                    lemma_update_absent(ps, project@.id, project@);
                    lemma_update_unique(ps, project@.id, project@);
                }
                let ghost pv = project@;
                self.projects.push(project);
                proof {
                    assert(self.projects.deep_view() =~= ps.push(pv));
                }
                Ok(())
            },
        }
    }

    /// Remove a project; demands `Operational`. Removing an id that is not
    /// present succeeds and changes nothing.
    pub fn remove_project(&mut self, project_id: u64, sender: &Principal, now: u64) -> (res: Result<
        (),
        Error,
    >)
        requires
            old(self)@.wf(),
        ensures
            final(self)@.wf(),
            match res {
                Ok(()) => spec_member_check(old(self)@.members, sender@, Authority::Operational, now)
                    is Ok && final(self)@ == (GroupView {
                    projects: table_remove(old(self)@.projects, project_id),
                    ..old(self)@
                }),
                Err(e) => final(self)@ == old(self)@ && Err::<(), Error>(e) == spec_member_check(
                    old(self)@.members,
                    sender@,
                    Authority::Operational,
                    now,
                ),
            },
    {
        self.identity_check(Authority::Operational, sender, now)?;
        let ghost ps = self.projects.deep_view();
        proof {
            lemma_remove_unique(ps, project_id);
        }
        match find_project(&self.projects, project_id) {
            None => {
                proof {
                    lemma_lookup_none(ps, project_id);
                    lemma_remove_absent(ps, project_id);
                }
                Ok(())
            },
            Some(i) => {
                proof {
                    lemma_remove_at(ps, i as int);
                }
                self.projects.remove(i);
                proof {
                    assert(self.projects.deep_view() =~= ps.remove(i as int));
                }
                Ok(())
            },
        }
    }

    /// File a member under its identity; unchecked at this layer, because
    /// only the owning user's identity may reach it.
    pub fn add_member(&mut self, member: Member) -> (res: Result<(), Error>)
        requires
            old(self)@.wf(),
        ensures
            final(self)@.wf(),
            res is Ok,
            final(self)@ == (GroupView {
                members: table_update(old(self)@.members, member@.identity, member@),
                ..old(self)@
            }),
    {
        proof {
            lemma_update_unique(self@.members, member@.identity, member@);
        }
        upsert_member(&mut self.members, member);
        Ok(())
    }

    /// Drop the member filed under `member`; missing records are a no-op.
    pub fn remove_member(&mut self, member: &Principal) -> (res: Result<(), Error>)
        requires
            old(self)@.wf(),
        ensures
            final(self)@.wf(),
            res is Ok,
            final(self)@ == (GroupView {
                members: table_remove(old(self)@.members, member@),
                ..old(self)@
            }),
    {
        proof {
            lemma_remove_unique(self@.members, member@);
        }
        remove_member_entry(&mut self.members, member);
        Ok(())
    }

    /// Hand out a copy of every project; demands `Read`.
    pub fn get_group_projects_info(&self, sender: &Principal, now: u64) -> (res: Result<
        Option<Vec<Project>>,
        Error,
    >)
        ensures
            match res {
                Ok(Some(v)) => spec_member_check(self@.members, sender@, Authority::Read, now) is Ok
                    && v.deep_view() == self@.projects,
                Ok(None) => false,
                Err(e) => Err::<(), Error>(e) == spec_member_check(
                    self@.members,
                    sender@,
                    Authority::Read,
                    now,
                ),
            },
    {
        self.identity_check(Authority::Read, sender, now)?;
        Ok(Some(clone_projects(&self.projects)))
    }

    /// Change the authority level of the member filed under `member`;
    /// unchecked at this layer (the owner check stands above).
    pub fn update_member_authority(&mut self, member: &Principal, authority: Authority) -> (res:
        Result<(), Error>)
        requires
            old(self)@.wf(),
        ensures
            final(self)@.wf(),
            match res {
                Ok(()) => {
                    let found = table_lookup(old(self)@.members, member@);
                    found is Some && final(self)@ == (GroupView {
                        members: table_update(
                            old(self)@.members,
                            member@,
                            MemberView { authority, ..found->0 },
                        ),
                        ..old(self)@
                    })
                },
                Err(e) => final(self)@ == old(self)@ && !table_contains(
                    old(self)@.members,
                    member@,
                ) && e == Error::NotFound,
            },
    {
        let ghost ms = self.members.deep_view();
        match find_member(&self.members, member) {
            None => {
                proof {
                    lemma_lookup_none(ms, member@);
                }
                Err(Error::NotFound)
            },
            Some(i) => {
                proof {
                    lemma_lookup_at(ms, i as int);
                    lemma_update_at(ms, i as int, MemberView { authority, ..ms[i as int] });
                    lemma_update_unique(
                        ms,
                        ms[i as int].identity,
                        MemberView { authority, ..ms[i as int] },
                    );
                }
                self.members[i].authority = authority;
                proof {
                    assert(self.members.deep_view() =~= ms.update(
                        i as int,
                        MemberView { authority, ..ms[i as int] },
                    ));
                }
                Ok(())
            },
        }
    }

    /// Change a project member's authority; demands `Operational` at the
    /// group level, then delegates to the project.
    pub fn update_project_member_authority(
        &mut self,
        project_id: u64,
        member: &Principal,
        authority: Authority,
        sender: &Principal,
        now: u64,
    ) -> (res: Result<(), Error>)
        requires
            old(self)@.wf(),
        ensures
            final(self)@.wf(),
            match res {
                Ok(()) => spec_member_check(old(self)@.members, sender@, Authority::Operational, now)
                    is Ok && {
                    let found_p = table_lookup(old(self)@.projects, project_id);
                    found_p is Some && {
                        let found_m = table_lookup(found_p->0.members, member@);
                        found_m is Some && final(self)@ == with_project(
                            old(self)@,
                            ProjectView {
                                members: table_update(
                                    found_p->0.members,
                                    member@,
                                    MemberView { authority, ..found_m->0 },
                                ),
                                ..found_p->0
                            },
                        )
                    }
                },
                Err(e) => final(self)@ == old(self)@ && match spec_member_check(
                    old(self)@.members,
                    sender@,
                    Authority::Operational,
                    now,
                ) {
                    Err(g) => e == g,
                    Ok(()) => match table_lookup(old(self)@.projects, project_id) {
                        None => e == Error::NotFound,
                        Some(p) => !table_contains(p.members, member@) && e == Error::NotFound,
                    },
                },
            },
    {
        self.identity_check(Authority::Operational, sender, now)?;
        let ghost ps = self.projects.deep_view();
        match find_project(&self.projects, project_id) {
            None => {
                proof {
                    lemma_lookup_none(ps, project_id);
                }
                Err(Error::NotFound)
            },
            Some(i) => {
                proof {
                    lemma_lookup_at(ps, i as int);
                }
                let p = &mut self.projects[i];
                let r = p.update_member_authority(member, authority);
                proof {
                    self.relate_project_update(ps, i as int, r is Ok);
                }
                r
            },
        }
    }

    /// Replace a project's git repository url; the project's own `Write`
    /// check decides.
    pub fn update_git_repo_url(&mut self, project_id: u64, git: String, sender: &Principal, now: u64) -> (res:
        Result<(), Error>)
        requires
            old(self)@.wf(),
        ensures
            final(self)@.wf(),
            match res {
                Ok(()) => {
                    let r = spec_project_op(old(self)@, project_id, sender@, Authority::Write, now);
                    r is Ok && final(self)@ == with_project(
                        old(self)@,
                        ProjectView { git_repo_url: git@, ..r->Ok_0 },
                    )
                },
                Err(e) => final(self)@ == old(self)@ && Err::<ProjectView, Error>(e)
                    == spec_project_op(old(self)@, project_id, sender@, Authority::Write, now),
            },
    {
        let ghost ps = self.projects.deep_view();
        match find_project(&self.projects, project_id) {
            None => {
                proof {
                    lemma_lookup_none(ps, project_id);
                }
                Err(Error::NotFound)
            },
            Some(i) => {
                proof {
                    lemma_lookup_at(ps, i as int);
                }
                let p = &mut self.projects[i];
                let r = p.update_git_repo_url(git, sender, now);
                proof {
                    self.relate_project_update(ps, i as int, r is Ok);
                }
                r
            },
        }
    }

    /// Replace a project's cycle floor; demands `Write` at the group level
    /// and then the project's own `Write` check.
    pub fn update_canister_cycle_floor(
        &mut self,
        project_id: u64,
        floor: u128,
        sender: &Principal,
        now: u64,
    ) -> (res: Result<(), Error>)
        requires
            old(self)@.wf(),
        ensures
            final(self)@.wf(),
            match res {
                Ok(()) => spec_member_check(old(self)@.members, sender@, Authority::Write, now)
                    is Ok && {
                    let r = spec_project_op(old(self)@, project_id, sender@, Authority::Write, now);
                    r is Ok && final(self)@ == with_project(
                        old(self)@,
                        ProjectView { canister_cycle_floor: floor, ..r->Ok_0 },
                    )
                },
                Err(e) => final(self)@ == old(self)@ && match spec_member_check(
                    old(self)@.members,
                    sender@,
                    Authority::Write,
                    now,
                ) {
                    Err(g) => e == g,
                    Ok(()) => Err::<ProjectView, Error>(e) == spec_project_op(
                        old(self)@,
                        project_id,
                        sender@,
                        Authority::Write,
                        now,
                    ),
                },
            },
    {
        self.identity_check(Authority::Write, sender, now)?;
        let ghost ps = self.projects.deep_view();
        match find_project(&self.projects, project_id) {
            None => {
                proof {
                    lemma_lookup_none(ps, project_id);
                }
                Err(Error::NotFound)
            },
            Some(i) => {
                proof {
                    lemma_lookup_at(ps, i as int);
                }
                let p = &mut self.projects[i];
                let r = p.update_canister_cycle_floor(floor, sender, now);
                proof {
                    self.relate_project_update(ps, i as int, r is Ok);
                }
                r
            },
        }
    }

    /// Replace a project's visibility; the project's own `Write` check
    /// decides.
    pub fn update_visibility(
        &mut self,
        project_id: u64,
        visibility: Profile,
        sender: &Principal,
        now: u64,
    ) -> (res: Result<(), Error>)
        requires
            old(self)@.wf(),
        ensures
            final(self)@.wf(),
            match res {
                Ok(()) => {
                    let r = spec_project_op(old(self)@, project_id, sender@, Authority::Write, now);
                    r is Ok && final(self)@ == with_project(
                        old(self)@,
                        ProjectView { visibility, ..r->Ok_0 },
                    )
                },
                Err(e) => final(self)@ == old(self)@ && Err::<ProjectView, Error>(e)
                    == spec_project_op(old(self)@, project_id, sender@, Authority::Write, now),
            },
    {
        let ghost ps = self.projects.deep_view();
        match find_project(&self.projects, project_id) {
            None => {
                proof {
                    lemma_lookup_none(ps, project_id);
                }
                Err(Error::NotFound)
            },
            Some(i) => {
                proof {
                    lemma_lookup_at(ps, i as int);
                }
                let p = &mut self.projects[i];
                let r = p.update_visibility(visibility, sender, now);
                proof {
                    self.relate_project_update(ps, i as int, r is Ok);
                }
                r
            },
        }
    }

    /// Replace a project's description; the project's own `Write` check
    /// decides.
    pub fn update_description(
        &mut self,
        project_id: u64,
        description: String,
        sender: &Principal,
        now: u64,
    ) -> (res: Result<(), Error>)
        requires
            old(self)@.wf(),
        ensures
            final(self)@.wf(),
            match res {
                Ok(()) => {
                    let r = spec_project_op(old(self)@, project_id, sender@, Authority::Write, now);
                    r is Ok && final(self)@ == with_project(
                        old(self)@,
                        ProjectView { description: description@, ..r->Ok_0 },
                    )
                },
                Err(e) => final(self)@ == old(self)@ && Err::<ProjectView, Error>(e)
                    == spec_project_op(old(self)@, project_id, sender@, Authority::Write, now),
            },
    {
        let ghost ps = self.projects.deep_view();
        match find_project(&self.projects, project_id) {
            None => {
                proof {
                    lemma_lookup_none(ps, project_id);
                }
                Err(Error::NotFound)
            },
            Some(i) => {
                proof {
                    lemma_lookup_at(ps, i as int);
                }
                let p = &mut self.projects[i];
                let r = p.update_description(description, sender, now);
                proof {
                    self.relate_project_update(ps, i as int, r is Ok);
                }
                r
            },
        }
    }

    /// File a member into a project; demands `Operational` at the group
    /// level (the project itself trusts this caller).
    pub fn add_project_member(&mut self, project_id: u64, member: Member, sender: &Principal, now: u64) -> (res:
        Result<(), Error>)
        requires
            old(self)@.wf(),
        ensures
            final(self)@.wf(),
            match res {
                Ok(()) => spec_member_check(old(self)@.members, sender@, Authority::Operational, now)
                    is Ok && {
                    let found_p = table_lookup(old(self)@.projects, project_id);
                    found_p is Some && final(self)@ == with_project(
                        old(self)@,
                        ProjectView {
                            members: table_update(found_p->0.members, member@.identity, member@),
                            ..found_p->0
                        },
                    )
                },
                Err(e) => final(self)@ == old(self)@ && match spec_member_check(
                    old(self)@.members,
                    sender@,
                    Authority::Operational,
                    now,
                ) {
                    Err(g) => e == g,
                    Ok(()) => !table_contains(old(self)@.projects, project_id)
                        && e == Error::NotFound,
                },
            },
    {
        self.identity_check(Authority::Operational, sender, now)?;
        let ghost ps = self.projects.deep_view();
        match find_project(&self.projects, project_id) {
            None => {
                proof {
                    lemma_lookup_none(ps, project_id);
                }
                Err(Error::NotFound)
            },
            Some(i) => {
                proof {
                    lemma_lookup_at(ps, i as int);
                }
                let p = &mut self.projects[i];
                let r = p.add_member(member);
                proof {
                    self.relate_project_update(ps, i as int, r is Ok);
                }
                r
            },
        }
    }

    /// Drop a member from a project. A principal may always remove itself;
    /// anyone else demands `Operational` at the group level.
    pub fn remove_project_member(
        &mut self,
        project_id: u64,
        member: &Principal,
        sender: &Principal,
        now: u64,
    ) -> (res: Result<(), Error>)
        requires
            old(self)@.wf(),
        ensures
            final(self)@.wf(),
            match res {
                Ok(()) => (member@ != sender@ ==> spec_member_check(
                    old(self)@.members,
                    sender@,
                    Authority::Operational,
                    now,
                ) is Ok) && {
                    let found_p = table_lookup(old(self)@.projects, project_id);
                    found_p is Some && final(self)@ == with_project(
                        old(self)@,
                        ProjectView {
                            members: table_remove(found_p->0.members, member@),
                            ..found_p->0
                        },
                    )
                },
                Err(e) => final(self)@ == old(self)@ && if member@ != sender@ && spec_member_check(
                    old(self)@.members,
                    sender@,
                    Authority::Operational,
                    now,
                ) is Err {
                    Err::<(), Error>(e) == spec_member_check(
                        old(self)@.members,
                        sender@,
                        Authority::Operational,
                        now,
                    )
                } else {
                    !table_contains(old(self)@.projects, project_id) && e == Error::NotFound
                },
            },
    {
        if *member != *sender {
            self.identity_check(Authority::Operational, sender, now)?;
        }
        let ghost ps = self.projects.deep_view();
        match find_project(&self.projects, project_id) {
            None => {
                proof {
                    lemma_lookup_none(ps, project_id);
                }
                Err(Error::NotFound)
            },
            Some(i) => {
                proof {
                    lemma_lookup_at(ps, i as int);
                }
                let p = &mut self.projects[i];
                let r = p.remove_member(member);
                proof {
                    self.relate_project_update(ps, i as int, r is Ok);
                }
                r
            },
        }
    }

    /// Track one more canister inside a project; the project's own `Write`
    /// check decides.
    pub fn add_project_canister(
        &mut self,
        project_id: u64,
        canister: Principal,
        sender: &Principal,
        now: u64,
    ) -> (res: Result<(), Error>)
        requires
            old(self)@.wf(),
        ensures
            final(self)@.wf(),
            match res {
                Ok(()) => {
                    let r = spec_project_op(old(self)@, project_id, sender@, Authority::Write, now);
                    r is Ok && !table_contains(r->Ok_0.canisters, canister@) && final(self)@
                        == with_project(
                        old(self)@,
                        ProjectView { canisters: r->Ok_0.canisters.push(canister@), ..r->Ok_0 },
                    )
                },
                Err(e) => final(self)@ == old(self)@ && match spec_project_op(
                    old(self)@,
                    project_id,
                    sender@,
                    Authority::Write,
                    now,
                ) {
                    Err(g) => e == g,
                    Ok(p) => table_contains(p.canisters, canister@) && e == Error::AlreadyExists,
                },
            },
    {
        let ghost ps = self.projects.deep_view();
        match find_project(&self.projects, project_id) {
            None => {
                proof {
                    lemma_lookup_none(ps, project_id);
                }
                Err(Error::NotFound)
            },
            Some(i) => {
                proof {
                    lemma_lookup_at(ps, i as int);
                }
                let p = &mut self.projects[i];
                let r = p.add_canister(canister, sender, now);
                proof {
                    self.relate_project_update(ps, i as int, r is Ok);
                }
                r
            },
        }
    }

    /// Stop tracking a canister inside a project; the project's own `Write`
    /// check decides, and a canister that is not tracked is refused.
    pub fn remove_project_canister(
        &mut self,
        project_id: u64,
        canister: &Principal,
        sender: &Principal,
        now: u64,
    ) -> (res: Result<(), Error>)
        requires
            old(self)@.wf(),
        ensures
            final(self)@.wf(),
            match res {
                Ok(()) => {
                    let r = spec_project_op(old(self)@, project_id, sender@, Authority::Write, now);
                    r is Ok && table_contains(r->Ok_0.canisters, canister@) && final(self)@
                        == with_project(
                        old(self)@,
                        ProjectView {
                            canisters: table_remove(r->Ok_0.canisters, canister@),
                            ..r->Ok_0
                        },
                    )
                },
                Err(e) => final(self)@ == old(self)@ && match spec_project_op(
                    old(self)@,
                    project_id,
                    sender@,
                    Authority::Write,
                    now,
                ) {
                    Err(g) => e == g,
                    Ok(p) => !table_contains(p.canisters, canister@) && e == Error::NotFound,
                },
            },
    {
        let ghost ps = self.projects.deep_view();
        match find_project(&self.projects, project_id) {
            None => {
                proof {
                    lemma_lookup_none(ps, project_id);
                }
                Err(Error::NotFound)
            },
            Some(i) => {
                proof {
                    lemma_lookup_at(ps, i as int);
                }
                let p = &mut self.projects[i];
                let r = p.remove_canister(canister, sender, now);
                proof {
                    self.relate_project_update(ps, i as int, r is Ok);
                }
                r
            },
        }
    }

    /// The authority check of a status query on a project's canister. A private group
    /// makes the project verify direct `Read` access even for non-members,
    /// because private groups disallow transitive visibility.
    pub fn get_canister_status(&self, project_id: u64, canister: &Principal, sender: &Principal, now: u64) -> (res:
        Result<u128, Error>)
        ensures
            res == match table_lookup(self@.projects, project_id) {
                None => Err::<u128, Error>(Error::NotFound),
                Some(p) => match spec_canister_op(
                    p,
                    canister@,
                    sender@,
                    Authority::Read,
                    self@.visibility == Profile::Private,
                    now,
                ) {
                    Ok(()) => Ok::<u128, Error>(p.canister_cycle_floor),
                    Err(e) => Err::<u128, Error>(e),
                },
            },
    {
        let ghost ps = self.projects.deep_view();
        match find_project(&self.projects, project_id) {
            None => {
                proof {
                    lemma_lookup_none(ps, project_id);
                }
                Err(Error::NotFound)
            },
            Some(i) => {
                proof {
                    lemma_lookup_at(ps, i as int);
                }
                let check = self.visibility == Profile::Private;
                self.projects[i].get_canister_status(canister, sender, check, now)
            },
        }
    }

    /// The authority check of handing a project's canister to a new controller.
    pub fn set_canister_controller(&self, project_id: u64, canister: &Principal, sender: &Principal, now: u64) -> (res:
        Result<(), Error>)
        ensures
            res == match table_lookup(self@.projects, project_id) {
                None => Err::<(), Error>(Error::NotFound),
                Some(p) => spec_canister_op(
                    p,
                    canister@,
                    sender@,
                    Authority::Operational,
                    true,
                    now,
                ),
            },
    {
        let ghost ps = self.projects.deep_view();
        match find_project(&self.projects, project_id) {
            None => {
                proof {
                    lemma_lookup_none(ps, project_id);
                }
                Err(Error::NotFound)
            },
            Some(i) => {
                proof {
                    lemma_lookup_at(ps, i as int);
                }
                self.projects[i].set_canister_controller(canister, sender, now)
            },
        }
    }

    /// The authority check of stopping a project's canister.
    pub fn stop_project_canister(&self, project_id: u64, canister: &Principal, sender: &Principal, now: u64) -> (res:
        Result<(), Error>)
        ensures
            res == match table_lookup(self@.projects, project_id) {
                None => Err::<(), Error>(Error::NotFound),
                Some(p) => spec_canister_op(
                    p,
                    canister@,
                    sender@,
                    Authority::Operational,
                    true,
                    now,
                ),
            },
    {
        let ghost ps = self.projects.deep_view();
        match find_project(&self.projects, project_id) {
            None => {
                proof {
                    lemma_lookup_none(ps, project_id);
                }
                Err(Error::NotFound)
            },
            Some(i) => {
                proof {
                    lemma_lookup_at(ps, i as int);
                }
                self.projects[i].stop_canister(canister, sender, now)
            },
        }
    }

    /// The authority check of starting a project's canister.
    pub fn start_project_canister(&self, project_id: u64, canister: &Principal, sender: &Principal, now: u64) -> (res:
        Result<(), Error>)
        ensures
            res == match table_lookup(self@.projects, project_id) {
                None => Err::<(), Error>(Error::NotFound),
                Some(p) => spec_canister_op(
                    p,
                    canister@,
                    sender@,
                    Authority::Operational,
                    true,
                    now,
                ),
            },
    {
        let ghost ps = self.projects.deep_view();
        match find_project(&self.projects, project_id) {
            None => {
                proof {
                    lemma_lookup_none(ps, project_id);
                }
                Err(Error::NotFound)
            },
            Some(i) => {
                proof {
                    lemma_lookup_at(ps, i as int);
                }
                self.projects[i].start_canister(canister, sender, now)
            },
        }
    }

    /// The authority check of deleting a project's canister.
    pub fn delete_project_canister(&self, project_id: u64, canister: &Principal, sender: &Principal, now: u64) -> (res:
        Result<(), Error>)
        ensures
            res == match table_lookup(self@.projects, project_id) {
                None => Err::<(), Error>(Error::NotFound),
                Some(p) => spec_canister_op(
                    p,
                    canister@,
                    sender@,
                    Authority::Operational,
                    true,
                    now,
                ),
            },
    {
        let ghost ps = self.projects.deep_view();
        match find_project(&self.projects, project_id) {
            None => {
                proof {
                    lemma_lookup_none(ps, project_id);
                }
                Err(Error::NotFound)
            },
            Some(i) => {
                proof {
                    lemma_lookup_at(ps, i as int);
                }
                self.projects[i].delete_canister(canister, sender, now)
            },
        }
    }

    /// The authority check of installing code on a project's canister.
    pub fn install_code(
        &self,
        project_id: u64,
        canister: &Principal,
        install_mod: InstallCodeMode,
        sender: &Principal,
        now: u64,
    ) -> (res: Result<(), Error>)
        ensures
            res == match table_lookup(self@.projects, project_id) {
                None => Err::<(), Error>(Error::NotFound),
                Some(p) => spec_canister_op(
                    p,
                    canister@,
                    sender@,
                    Authority::Operational,
                    true,
                    now,
                ),
            },
    {
        let ghost ps = self.projects.deep_view();
        match find_project(&self.projects, project_id) {
            None => {
                proof {
                    lemma_lookup_none(ps, project_id);
                }
                Err(Error::NotFound)
            },
            Some(i) => {
                proof {
                    lemma_lookup_at(ps, i as int);
                }
                self.projects[i].install_code(canister, install_mod, sender, now)
            },
        }
    }

    /// Read one project under the visibility rule of `spec_get_project_info`.
    pub fn get_project_info(&self, project_id: u64, sender: &Principal) -> (res: Result<
        Option<&Project>,
        Error,
    >)
        ensures
            match res {
                Ok(Some(p)) => spec_get_project_info(self@, project_id, sender@) == Ok::<
                    Option<ProjectView>,
                    Error,
                >(Some(p@)),
                Ok(None) => spec_get_project_info(self@, project_id, sender@) == Ok::<
                    Option<ProjectView>,
                    Error,
                >(None),
                Err(e) => spec_get_project_info(self@, project_id, sender@) == Err::<
                    Option<ProjectView>,
                    Error,
                >(e),
            },
    {
        let ghost ps = self.projects.deep_view();
        let group_member = match self.visibility {
            Profile::Public => false,
            Profile::Private => {
                let ghost ms = self.members.deep_view();
                match find_member(&self.members, sender) {
                    Some(i) => {
                        proof {
                            lemma_lookup_at(ms, i as int);
                        }
                        true
                    },
                    None => {
                        proof {
                            lemma_lookup_none(ms, sender@);
                        }
                        false
                    },
                }
            },
        };
        match find_project(&self.projects, project_id) {
            None => {
                proof {
                    lemma_lookup_none(ps, project_id);
                }
                Ok(None)
            },
            Some(i) => {
                proof {
                    lemma_lookup_at(ps, i as int);
                }
                let p = &self.projects[i];
                if group_member {
                    return Ok(Some(p));
                }
                let project_member = {
                    let ghost pms = p.members.deep_view();
                    match find_member(&p.members, sender) {
                        Some(j) => {
                            proof {
                                lemma_lookup_at(pms, j as int);
                            }
                            true
                        },
                        None => {
                            proof {
                                lemma_lookup_none(pms, sender@);
                            }
                            false
                        },
                    }
                };
                match self.visibility {
                    Profile::Public => {
                        match p.visibility {
                            Profile::Public => Ok(Some(p)),
                            Profile::Private => {
                                if project_member {
                                    Ok(Some(p))
                                } else {
                                    Err(Error::PermissionDenied)
                                }
                            },
                        }
                    },
                    Profile::Private => {
                        if project_member {
                            Ok(Some(p))
                        } else {
                            Err(Error::PermissionDenied)
                        }
                    },
                }
            },
        }
    }

    /// Replace the group's own basic information; demands `Write`.
    pub fn update_basic_information(
        &mut self,
        name: String,
        description: String,
        visibility: Profile,
        url: String,
        sender: &Principal,
        now: u64,
    ) -> (res: Result<(), Error>)
        requires
            old(self)@.wf(),
        ensures
            final(self)@.wf(),
            match res {
                Ok(()) => spec_member_check(old(self)@.members, sender@, Authority::Write, now)
                    is Ok && final(self)@ == (GroupView {
                    name: name@,
                    description: description@,
                    visibility,
                    url: url@,
                    ..old(self)@
                }),
                Err(e) => final(self)@ == old(self)@ && Err::<(), Error>(e) == spec_member_check(
                    old(self)@.members,
                    sender@,
                    Authority::Write,
                    now,
                ),
            },
    {
        self.identity_check(Authority::Write, sender, now)?;
        self.name = name;
        self.description = description;
        self.visibility = visibility;
        self.url = url;
        Ok(())
    }

    /// Replace a project's whole basic information. When the group-level
    /// `Write` check clears the sender the project's own check is bypassed;
    /// otherwise the project demands `Write` itself.
    pub fn update_project_basic_information(
        &mut self,
        project_id: u64,
        name: String,
        description: String,
        visibility: Profile,
        git: String,
        canister_cycle_floor: u128,
        canisters: Vec<Principal>,
        sender: &Principal,
        now: u64,
    ) -> (res: Result<(), Error>)
        requires
            old(self)@.wf(),
        ensures
            final(self)@.wf(),
            match res {
                Ok(()) => {
                    let found_p = table_lookup(old(self)@.projects, project_id);
                    let bypass = spec_member_check(
                        old(self)@.members,
                        sender@,
                        Authority::Write,
                        now,
                    ) is Ok;
                    found_p is Some && (!bypass ==> spec_member_check(
                        found_p->0.members,
                        sender@,
                        Authority::Write,
                        now,
                    ) is Ok) && final(self)@ == with_project(
                        old(self)@,
                        ProjectView {
                            name: name@,
                            description: description@,
                            visibility,
                            git_repo_url: git@,
                            canister_cycle_floor,
                            canisters: table_of(canisters.deep_view()),
                            ..found_p->0
                        },
                    )
                },
                Err(e) => final(self)@ == old(self)@ && match table_lookup(
                    old(self)@.projects,
                    project_id,
                ) {
                    None => e == Error::NotFound,
                    Some(p) => spec_member_check(old(self)@.members, sender@, Authority::Write, now)
                        is Err && Err::<(), Error>(e) == spec_member_check(
                        p.members,
                        sender@,
                        Authority::Write,
                        now,
                    ),
                },
            },
    {
        let check = match self.identity_check(Authority::Write, sender, now) {
            Ok(()) => false,
            Err(_) => true,
        };
        let ghost ps = self.projects.deep_view();
        match find_project(&self.projects, project_id) {
            None => {
                proof {
                    lemma_lookup_none(ps, project_id);
                }
                Err(Error::NotFound)
            },
            Some(i) => {
                proof {
                    lemma_lookup_at(ps, i as int);
                }
                let p = &mut self.projects[i];
                let r = p.update_basic_information(
                    name,
                    description,
                    visibility,
                    git,
                    canister_cycle_floor,
                    canisters,
                    sender,
                    now,
                    check,
                );
                proof {
                    self.relate_project_update(ps, i as int, r is Ok);
                }
                r
            },
        }
    }

    /// Remove a project with no check at all: the path the owning user's
    /// identity takes. Removing an id that is not present changes nothing.
    pub(crate) fn remove_project_unchecked(&mut self, project_id: u64)
        requires
            old(self)@.wf(),
        ensures
            final(self)@.wf(),
            final(self)@ == (GroupView {
                projects: table_remove(old(self)@.projects, project_id),
                ..old(self)@
            }),
    {
        let ghost ps = self.projects.deep_view();
        proof {
            lemma_remove_unique(ps, project_id);
        }
        match find_project(&self.projects, project_id) {
            None => {
                proof {
                    lemma_lookup_none(ps, project_id);
                    lemma_remove_absent(ps, project_id);
                }
            },
            Some(i) => {
                proof {
                    lemma_remove_at(ps, i as int);
                }
                self.projects.remove(i);
                proof {
                    assert(self.projects.deep_view() =~= ps.remove(i as int));
                }
            },
        }
    }

    /// After a delegated call mutated the project at index `i`, tie the new
    /// project list to a table update of the old one (or to the old one
    /// itself when the call failed and left the project unchanged).
    proof fn relate_project_update(&self, ps: Seq<ProjectView>, i: int, ok: bool)
        requires
            0 <= i < ps.len(),
            table_unique(ps),
            forall|k: int| 0 <= k < ps.len() ==> ps[k].wf(),
            self.projects.deep_view().len() == ps.len(),
            forall|k: int| 0 <= k < ps.len() && k != i ==> self.projects.deep_view()[k] == ps[k],
            self.projects.deep_view()[i].id == ps[i].id,
            self.projects.deep_view()[i].wf(),
            forall|j: int| 0 <= j < i ==> ps[j].id != ps[i].id,
            !ok ==> self.projects.deep_view()[i] == ps[i],
        ensures
            ok ==> self.projects.deep_view() == table_update(
                ps,
                ps[i].id,
                self.projects.deep_view()[i],
            ),
            !ok ==> self.projects.deep_view() == ps,
            table_unique(self.projects.deep_view()),
            forall|k: int|
                0 <= k < self.projects.deep_view().len() ==> self.projects.deep_view()[k].wf(),
    {
        let newp = self.projects.deep_view()[i];
        assert(self.projects.deep_view() =~= ps.update(i, newp));
        lemma_update_at(ps, i, newp);
        lemma_update_unique(ps, ps[i].id, newp);
        if !ok {
            assert(self.projects.deep_view() =~= ps);
        }
    }
}

/// The visibility rule seen as a table. In a private group whose member
/// table excludes the sender, a project is readable exactly when the sender
/// stands on the project's own member table; in a public group a public
/// project is readable by anyone at all.
pub proof fn law_visibility_table(g: GroupView, pid: u64, sender: Seq<u8>)
    ensures
        ({
            let p = table_lookup(g.projects, pid);
            g.visibility == Profile::Private && p is Some && !table_contains(g.members, sender)
                && !table_contains(p->0.members, sender)
        }) ==> spec_get_project_info(g, pid, sender) == Err::<Option<ProjectView>, Error>(
            Error::PermissionDenied,
        ),
        ({
            let p = table_lookup(g.projects, pid);
            g.visibility == Profile::Public && p is Some && p->0.visibility == Profile::Public
        }) ==> spec_get_project_info(g, pid, sender) == Ok::<Option<ProjectView>, Error>(
            Some(table_lookup(g.projects, pid)->0),
        ),
{
}

} // verus!
