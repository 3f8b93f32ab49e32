use vstd::prelude::*;

use crate::authority::Authority;
use crate::errors::Error;
use crate::member::{
    find_member, member_check, remove_member_entry, spec_member_check, upsert_member, Member,
    MemberView,
};
use crate::principal::Principal;
use crate::table::{
    lemma_lookup_at, lemma_remove_at, lemma_update_absent, lemma_update_at, lemma_update_same,
    lemma_update_unique, table_contains, table_lookup, table_of, table_remove, table_unique,
    table_update,
};
use crate::types::{Profile, ProjectType};

verus! {

/// A project: basic information, a member table keyed by identity, and the
/// set of managed canisters it owns. `in_group` is informational; dispatch
/// is always top-down from the owning group.
#[derive(Debug)]
pub struct Project {
    pub id: u64,
    pub create_time: u64,
    pub in_group: u64,
    pub visibility: Profile,
    pub create_by: Principal,
    pub name: String,
    pub description: String,
    pub git_repo_url: String,
    pub members: Vec<Member>,
    pub canister_cycle_floor: u128,
    pub canisters: Vec<Principal>,
    pub function: ProjectType,
}

/// The mathematical value of a project.
#[verifier::ext_equal]
pub struct ProjectView {
    pub id: u64,
    pub create_time: u64,
    pub in_group: u64,
    pub visibility: Profile,
    pub create_by: Seq<u8>,
    pub name: Seq<char>,
    pub description: Seq<char>,
    pub git_repo_url: Seq<char>,
    pub members: Seq<MemberView>,
    pub canister_cycle_floor: u128,
    pub canisters: Seq<Seq<u8>>,
    pub function: ProjectType,
}

impl View for Project {
    type V = ProjectView;

    open spec fn view(&self) -> ProjectView {
        ProjectView {
            id: self.id,
            create_time: self.create_time,
            in_group: self.in_group,
            visibility: self.visibility,
            create_by: self.create_by@,
            name: self.name@,
            description: self.description@,
            git_repo_url: self.git_repo_url@,
            members: self.members.deep_view(),
            canister_cycle_floor: self.canister_cycle_floor,
            canisters: self.canisters.deep_view(),
            function: self.function,
        }
    }
}

impl DeepView for Project {
    type V = ProjectView;

    open spec fn deep_view(&self) -> ProjectView {
        self.view()
    }
}

impl crate::table::Keyed for ProjectView {
    type Key = u64;

    open spec fn key(self) -> u64 {
        self.id
    }
}

impl ProjectView {
    /// Member identities are unique, and so are the owned canister ids.
    pub open spec fn wf(self) -> bool {
        table_unique(self.members) && table_unique(self.canisters)
    }
}

/// Whether the check of an operation on one of a project's canisters passes:
/// the canister must be owned by the project, and — unless the caller
/// already vouches for the sender — the sender must clear `required`.
pub open spec fn spec_canister_op(
    p: ProjectView,
    canister: Seq<u8>,
    sender: Seq<u8>,
    required: Authority,
    check: bool,
    now: u64,
) -> Result<(), Error> {
    if !table_contains(p.canisters, canister) {
        Err(Error::NotFound)
    } else if check {
        spec_member_check(p.members, sender, required, now)
    } else {
        Ok(())
    }
}

/// The index of the first canister id equal to `c`, if any.
pub(crate) fn find_canister(canisters: &Vec<Principal>, c: &Principal) -> (r: Option<usize>)
    ensures
        match r {
            Some(i) => i < canisters.len() && canisters@[i as int]@ == c@ && (forall|j: int|
                0 <= j < i ==> canisters@[j]@ != c@),
            None => forall|j: int| 0 <= j < canisters.len() ==> canisters@[j]@ != c@,
        },
{
    let n = canisters.len();
    let mut i: usize = 0;
    while i < n
        invariant
            n == canisters.len(),
            i <= n,
            forall|j: int| 0 <= j < i ==> canisters@[j]@ != c@,
        decreases n - i,
    {
        if canisters[i] == *c {
            return Some(i);
        }
        i += 1;
    }
    None
}

impl Clone for Project {
    fn clone(&self) -> (r: Self)
        ensures
            r@ == self@,
    {
        let r = Project {
            id: self.id,
            create_time: self.create_time,
            in_group: self.in_group,
            visibility: self.visibility,
            create_by: self.create_by.clone(),
            name: self.name.clone(),
            description: self.description.clone(),
            git_repo_url: self.git_repo_url.clone(),
            members: self.members.clone(),
            canister_cycle_floor: self.canister_cycle_floor,
            canisters: self.canisters.clone(),
            function: self.function,
        };
        proof {
            assert forall|i: int|
                0 <= i < r.members@.len() implies r.members@[i]@ == self.members@[i]@ by {
                assert(cloned::<Member>(self.members@[i], r.members@[i]));
            }
            assert(r.members.deep_view() =~= self.members.deep_view());
            assert forall|i: int|
                0 <= i < r.canisters@.len() implies r.canisters@[i]@ == self.canisters@[i]@ by {
                assert(cloned::<Principal>(self.canisters@[i], r.canisters@[i]));
            }
            assert(r.canisters.deep_view() =~= self.canisters.deep_view());
            assert(r@ =~= self@);
        }
        r
    }
}

impl Project {
    /// Build a project. Members are filed under their identity (a later
    /// record under the same identity wins) and duplicate canister ids are
    /// dropped, so the result is well formed whatever the inputs.
    pub fn new(
        id: u64,
        create_time: u64,
        group: u64,
        name: String,
        description: String,
        create_by: Principal,
        git: String,
        visibility: Profile,
        members: Vec<Member>,
        canister_cycle_floor: u128,
        canisters: Vec<Principal>,
        function: ProjectType,
    ) -> (r: Self)
        ensures
            r@ == (ProjectView {
                id,
                create_time,
                in_group: group,
                visibility,
                create_by: create_by@,
                name: name@,
                description: description@,
                git_repo_url: git@,
                members: table_of(members.deep_view()),
                canister_cycle_floor,
                canisters: table_of(canisters.deep_view()),
                function,
            }),
            r@.wf(),
    {
        let member_table = build_member_table(members);
        let canister_table = build_canister_table(canisters);
        Self {
            id,
            name,
            description,
            create_by,
            create_time,
            git_repo_url: git,
            visibility,
            in_group: group,
            members: member_table,
            canister_cycle_floor,
            canisters: canister_table,
            function,
        }
    }

    /// Resolve `sender` among the project's members and demand `opt`.
    pub(crate) fn identity_check(&self, opt: Authority, sender: &Principal, now: u64) -> (res:
        Result<(), Error>)
        ensures
            res == spec_member_check(self@.members, sender@, opt, now),
    {
        member_check(&self.members, opt, sender, now)
    }

    /// File a member under its identity, overwriting any record already
    /// there. Unchecked: the caller has already checked one layer up.
    pub fn add_member(&mut self, member: Member) -> (res: Result<(), Error>)
        requires
            old(self)@.wf(),
        ensures
            final(self)@.wf(),
            res is Ok,
            final(self)@ == (ProjectView {
                members: table_update(old(self)@.members, member@.identity, member@),
                ..old(self)@
            }),
    {
        proof {
            lemma_update_unique(self@.members, member@.identity, member@);
        }
        upsert_member(&mut self.members, member);
        Ok(())
    }

    /// Drop the member filed under `member`; missing records are a no-op.
    pub fn remove_member(&mut self, member: &Principal) -> (res: Result<(), Error>)
        requires
            old(self)@.wf(),
        ensures
            final(self)@.wf(),
            res is Ok,
            final(self)@ == (ProjectView {
                members: table_remove(old(self)@.members, member@),
                ..old(self)@
            }),
    {
        proof {
            crate::table::lemma_remove_unique(self@.members, member@);
        }
        remove_member_entry(&mut self.members, member);
        Ok(())
    }

    /// Replace the stored git repository url; demands `Write`.
    pub fn update_git_repo_url(&mut self, git: String, sender: &Principal, now: u64) -> (res:
        Result<(), Error>)
        ensures
            match res {
                Ok(()) => spec_member_check(old(self)@.members, sender@, Authority::Write, now)
                    is Ok && final(self)@ == (ProjectView { git_repo_url: git@, ..old(self)@ }),
                Err(e) => final(self)@ == old(self)@ && Err::<(), Error>(e) == spec_member_check(
                    old(self)@.members,
                    sender@,
                    Authority::Write,
                    now,
                ),
            },
    {
        self.identity_check(Authority::Write, sender, now)?;
        self.git_repo_url = git;
        Ok(())
    }

    /// Replace the cycle floor handed to canister status queries; demands
    /// `Write`.
    pub fn update_canister_cycle_floor(&mut self, floor: u128, sender: &Principal, now: u64) -> (res:
        Result<(), Error>)
        ensures
            match res {
                Ok(()) => spec_member_check(old(self)@.members, sender@, Authority::Write, now)
                    is Ok && final(self)@ == (ProjectView {
                    canister_cycle_floor: floor,
                    ..old(self)@
                }),
                Err(e) => final(self)@ == old(self)@ && Err::<(), Error>(e) == spec_member_check(
                    old(self)@.members,
                    sender@,
                    Authority::Write,
                    now,
                ),
            },
    {
        self.identity_check(Authority::Write, sender, now)?;
        self.canister_cycle_floor = floor;
        Ok(())
    }

    /// Replace the visibility; demands `Write`.
    pub fn update_visibility(&mut self, visibility: Profile, sender: &Principal, now: u64) -> (res:
        Result<(), Error>)
        ensures
            match res {
                Ok(()) => spec_member_check(old(self)@.members, sender@, Authority::Write, now)
                    is Ok && final(self)@ == (ProjectView { visibility, ..old(self)@ }),
                Err(e) => final(self)@ == old(self)@ && Err::<(), Error>(e) == spec_member_check(
                    old(self)@.members,
                    sender@,
                    Authority::Write,
                    now,
                ),
            },
    {
        self.identity_check(Authority::Write, sender, now)?;
        self.visibility = visibility;
        Ok(())
    }

    /// Replace the description; demands `Write`.
    pub fn update_description(&mut self, description: String, sender: &Principal, now: u64) -> (res:
        Result<(), Error>)
        ensures
            match res {
                Ok(()) => spec_member_check(old(self)@.members, sender@, Authority::Write, now)
                    is Ok && final(self)@ == (ProjectView {
                    description: description@,
                    ..old(self)@
                }),
                Err(e) => final(self)@ == old(self)@ && Err::<(), Error>(e) == spec_member_check(
                    old(self)@.members,
                    sender@,
                    Authority::Write,
                    now,
                ),
            },
    {
        self.identity_check(Authority::Write, sender, now)?;
        self.description = description;
        Ok(())
    }

    /// Track one more canister; demands `Write` and fails when the id is
    /// already tracked by this project.
    pub fn add_canister(&mut self, canister: Principal, sender: &Principal, now: u64) -> (res:
        Result<(), Error>)
        requires
            old(self)@.wf(),
        ensures
            final(self)@.wf(),
            match res {
                Ok(()) => spec_member_check(old(self)@.members, sender@, Authority::Write, now)
                    is Ok && !table_contains(old(self)@.canisters, canister@) && final(self)@ == (
                ProjectView { canisters: old(self)@.canisters.push(canister@), ..old(self)@ }),
                Err(e) => final(self)@ == old(self)@ && match spec_member_check(
                    old(self)@.members,
                    sender@,
                    Authority::Write,
                    now,
                ) {
                    Err(g) => e == g,
                    Ok(()) => table_contains(old(self)@.canisters, canister@)
                        && e == Error::AlreadyExists,
                },
            },
    {
        self.identity_check(Authority::Write, sender, now)?;
        let ghost cs = self.canisters.deep_view();
        match find_canister(&self.canisters, &canister) {
            Some(i) => {
                proof {
                    crate::table::lemma_lookup_member(cs, i as int);
                }
                Err(Error::AlreadyExists)
            },
            None => {
                proof {
                    crate::table::lemma_lookup_none(cs, canister@);
                    lemma_update_absent(cs, canister@, canister@);
                    lemma_update_unique(cs, canister@, canister@);
                }
                let ghost cv = canister@;
                self.canisters.push(canister);
                proof {
                    assert(self.canisters.deep_view() =~= cs.push(cv));
                }
                Ok(())
            },
        }
    }

    /// Stop tracking a canister; demands `Write` and fails when the id is
    /// not tracked by this project.
    pub fn remove_canister(&mut self, canister: &Principal, sender: &Principal, now: u64) -> (res:
        Result<(), Error>)
        requires
            old(self)@.wf(),
        ensures
            final(self)@.wf(),
            match res {
                Ok(()) => spec_member_check(old(self)@.members, sender@, Authority::Write, now)
                    is Ok && table_contains(old(self)@.canisters, canister@) && final(self)@ == (
                ProjectView {
                    canisters: table_remove(old(self)@.canisters, canister@),
                    ..old(self)@
                }),
                Err(e) => final(self)@ == old(self)@ && match spec_member_check(
                    old(self)@.members,
                    sender@,
                    Authority::Write,
                    now,
                ) {
                    Err(g) => e == g,
                    Ok(()) => !table_contains(old(self)@.canisters, canister@)
                        && e == Error::NotFound,
                },
            },
    {
        self.identity_check(Authority::Write, sender, now)?;
        let ghost cs = self.canisters.deep_view();
        match find_canister(&self.canisters, canister) {
            None => {
                proof {
                    crate::table::lemma_lookup_none(cs, canister@);
                }
                Err(Error::NotFound)
            },
            Some(i) => {
                proof {
                    crate::table::lemma_lookup_member(cs, i as int);
                    lemma_remove_at(cs, i as int);
                    crate::table::lemma_remove_unique(cs, canister@);
                }
                self.canisters.remove(i);
                proof {
                    assert(self.canisters.deep_view() =~= cs.remove(i as int));
                }
                Ok(())
            },
        }
    }

    /// Change the authority level of the member filed under `member`.
    /// Unchecked here: the demanded `Operational` check stands one layer up.
    pub fn update_member_authority(&mut self, member: &Principal, authority: Authority) -> (res:
        Result<(), Error>)
        requires
            old(self)@.wf(),
        ensures
            final(self)@.wf(),
            match res {
                Ok(()) => {
                    let found = table_lookup(old(self)@.members, member@);
                    found is Some && final(self)@ == (ProjectView {
                        members: table_update(
                            old(self)@.members,
                            member@,
                            MemberView { authority, ..found->0 },
                        ),
                        ..old(self)@
                    })
                },
                Err(e) => final(self)@ == old(self)@ && !table_contains(old(self)@.members, member@)
                    && e == Error::NotFound,
            },
    {
        let ghost ms = self.members.deep_view();
        match find_member(&self.members, member) {
            None => {
                proof {
                    crate::table::lemma_lookup_none(ms, member@);
                }
                Err(Error::NotFound)
            },
            Some(i) => {
                proof {
                    lemma_lookup_at(ms, i as int);
                    lemma_update_at(ms, i as int, MemberView { authority, ..ms[i as int] });
                    lemma_update_unique(
                        ms,
                        ms[i as int].identity,
                        MemberView { authority, ..ms[i as int] },
                    );
                }
                self.members[i].authority = authority;
                proof {
                    assert(self.members.deep_view() =~= ms.update(
                        i as int,
                        MemberView { authority, ..ms[i as int] },
                    ));
                }
                Ok(())
            },
        }
    }

    /// The authority check of a status query: the canister must be owned here, and
    /// `Read` is demanded unless the owning group already checked the sender.
    /// On success, hands back the cycle floor the forwarded query needs.
    pub fn get_canister_status(&self, canister: &Principal, sender: &Principal, check: bool, now: u64) -> (res:
        Result<u128, Error>)
        ensures
            res == match spec_canister_op(self@, canister@, sender@, Authority::Read, check, now) {
                Ok(()) => Ok::<u128, Error>(self@.canister_cycle_floor),
                Err(e) => Err::<u128, Error>(e),
            },
    {
        let ghost cs = self.canisters.deep_view();
        match find_canister(&self.canisters, canister) {
            None => {
                proof {
                    crate::table::lemma_lookup_none(cs, canister@);
                }
                Err(Error::NotFound)
            },
            Some(i) => {
                proof {
                    crate::table::lemma_lookup_member(cs, i as int);
                }
                if check {
                    self.identity_check(Authority::Read, sender, now)?;
                }
                Ok(self.canister_cycle_floor)
            },
        }
    }

    /// The authority check of handing a canister to a new controller; demands
    /// `Operational` on an owned canister.
    pub fn set_canister_controller(&self, canister: &Principal, sender: &Principal, now: u64) -> (res:
        Result<(), Error>)
        ensures
            res == spec_canister_op(self@, canister@, sender@, Authority::Operational, true, now),
    {
        self.canister_op_check(canister, sender, now)
    }

    /// The authority check of stopping an owned canister; demands `Operational`.
    pub fn stop_canister(&self, canister: &Principal, sender: &Principal, now: u64) -> (res: Result<
        (),
        Error,
    >)
        ensures
            res == spec_canister_op(self@, canister@, sender@, Authority::Operational, true, now),
    {
        self.canister_op_check(canister, sender, now)
    }

    /// The authority check of starting an owned canister; demands `Operational`.
    pub fn start_canister(&self, canister: &Principal, sender: &Principal, now: u64) -> (res:
        Result<(), Error>)
        ensures
            res == spec_canister_op(self@, canister@, sender@, Authority::Operational, true, now),
    {
        self.canister_op_check(canister, sender, now)
    }

    /// The authority check of deleting an owned canister; demands `Operational`.
    pub fn delete_canister(&self, canister: &Principal, sender: &Principal, now: u64) -> (res:
        Result<(), Error>)
        ensures
            res == spec_canister_op(self@, canister@, sender@, Authority::Operational, true, now),
    {
        self.canister_op_check(canister, sender, now)
    }

    /// The authority check of installing code on an owned canister; demands
    /// `Operational`. The install mode is recorded by the caller that
    /// forwards the call; it plays no part in the check.
    pub fn install_code(
        &self,
        canister: &Principal,
        install_mod: crate::types::InstallCodeMode,
        sender: &Principal,
        now: u64,
    ) -> (res: Result<(), Error>)
        ensures
            res == spec_canister_op(self@, canister@, sender@, Authority::Operational, true, now),
    {
        let _ = install_mod;
        self.canister_op_check(canister, sender, now)
    }

    /// The shared check of the `Operational` canister operations.
    fn canister_op_check(&self, canister: &Principal, sender: &Principal, now: u64) -> (res: Result<
        (),
        Error,
    >)
        ensures
            res == spec_canister_op(self@, canister@, sender@, Authority::Operational, true, now),
    {
        let ghost cs = self.canisters.deep_view();
        match find_canister(&self.canisters, canister) {
            None => {
                proof {
                    crate::table::lemma_lookup_none(cs, canister@);
                }
                Err(Error::NotFound)
            },
            Some(i) => {
                proof {
                    crate::table::lemma_lookup_member(cs, i as int);
                }
                self.identity_check(Authority::Operational, sender, now)
            },
        }
    }

    /// Replace name, description and visibility in one step; demands
    /// `Write`.
    pub fn update_name_and_description_and_visibility(
        &mut self,
        name: String,
        description: String,
        visibility: Profile,
        sender: &Principal,
        now: u64,
    ) -> (res: Result<(), Error>)
        ensures
            match res {
                Ok(()) => spec_member_check(old(self)@.members, sender@, Authority::Write, now)
                    is Ok && final(self)@ == (ProjectView {
                    name: name@,
                    description: description@,
                    visibility,
                    ..old(self)@
                }),
                Err(e) => final(self)@ == old(self)@ && Err::<(), Error>(e) == spec_member_check(
                    old(self)@.members,
                    sender@,
                    Authority::Write,
                    now,
                ),
            },
    {
        self.identity_check(Authority::Write, sender, now)?;
        self.name = name;
        self.description = description;
        self.visibility = visibility;
        Ok(())
    }

    /// Replace every simple field in one atomic step; demands `Write`
    /// unless the owning group's `Write` check already covered the sender.
    /// The replacement canister set is deduplicated on the way in.
    pub fn update_basic_information(
        &mut self,
        name: String,
        description: String,
        visibility: Profile,
        git: String,
        canister_cycle_floor: u128,
        canisters: Vec<Principal>,
        sender: &Principal,
        now: u64,
        check: bool,
    ) -> (res: Result<(), Error>)
        requires
            old(self)@.wf(),
        ensures
            final(self)@.wf(),
            match res {
                Ok(()) => (check ==> spec_member_check(
                    old(self)@.members,
                    sender@,
                    Authority::Write,
                    now,
                ) is Ok) && final(self)@ == (ProjectView {
                    name: name@,
                    description: description@,
                    visibility,
                    git_repo_url: git@,
                    canister_cycle_floor,
                    canisters: table_of(canisters.deep_view()),
                    ..old(self)@
                }),
                Err(e) => final(self)@ == old(self)@ && check && Err::<(), Error>(e)
                    == spec_member_check(old(self)@.members, sender@, Authority::Write, now),
            },
    {
        if check {
            self.identity_check(Authority::Write, sender, now)?;
        }
        self.name = name;
        self.description = description;
        self.visibility = visibility;
        self.git_repo_url = git;
        self.canister_cycle_floor = canister_cycle_floor;
        self.canisters = build_canister_table(canisters);
        Ok(())
    }
}

/// File each member of `ms` in turn, so that for one identity the last
/// record wins.
pub(crate) fn build_member_table(ms: Vec<Member>) -> (r: Vec<Member>)
    ensures
        r.deep_view() == table_of(ms.deep_view()),
        table_unique(r.deep_view()),
{
    let ghost input = ms.deep_view();
    let mut r: Vec<Member> = Vec::new();
    let mut rest = ms;
    let n = rest.len();
    let mut i: usize = 0;
    proof {
        assert(r.deep_view() =~= table_of(input.take(0)));
    }
    while i < n
        invariant
            n == rest.len(),
            i <= n,
            rest.deep_view() == input,
            r.deep_view() == table_of(input.take(i as int)),
            table_unique(r.deep_view()),
        decreases n - i,
    {
        let m = rest[i].clone();
        proof {
            lemma_update_unique(r.deep_view(), m@.identity, m@);
            assert(input.take(i + 1).drop_last() =~= input.take(i as int));
            assert(input.take(i + 1).last() == input[i as int]);
            assert(m@ == input[i as int]);
        }
        upsert_member(&mut r, m);
        i += 1;
    }
    proof {
        assert(input.take(n as int) =~= input);
    }
    r
}

/// Keep the first occurrence of each canister id, in order.
pub(crate) fn build_canister_table(cs: Vec<Principal>) -> (r: Vec<Principal>)
    ensures
        r.deep_view() == table_of(cs.deep_view()),
        table_unique(r.deep_view()),
{
    let ghost input = cs.deep_view();
    let mut r: Vec<Principal> = Vec::new();
    let mut rest = cs;
    let n = rest.len();
    let mut i: usize = 0;
    proof {
        assert(r.deep_view() =~= table_of(input.take(0)));
    }
    while i < n
        invariant
            n == rest.len(),
            i <= n,
            rest.deep_view() == input,
            r.deep_view() == table_of(input.take(i as int)),
            table_unique(r.deep_view()),
        decreases n - i,
    {
        let c = rest[i].clone();
        let ghost before = r.deep_view();
        proof {
            assert(input.take(i + 1).drop_last() =~= input.take(i as int));
            assert(input.take(i + 1).last() == input[i as int]);
            assert(c@ == input[i as int]);
        }
        match find_canister(&r, &c) {
            Some(j) => {
                proof {
                    lemma_lookup_at(before, j as int);
                    lemma_update_same(before, c@);
                }
            },
            None => {
                proof {
                    crate::table::lemma_lookup_none(before, c@);
                    lemma_update_absent(before, c@, c@);
                    lemma_update_unique(before, c@, c@);
                }
                r.push(c);
                proof {
                    assert(r.deep_view() =~= before.push(input[i as int]));
                }
            },
        }
        i += 1;
    }
    proof {
        assert(input.take(n as int) =~= input);
    }
    r
}

} // verus!
