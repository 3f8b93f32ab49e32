use vstd::prelude::*;

use crate::authority::Authority;
use crate::errors::Error;
use crate::principal::Principal;
use crate::table::{
    lemma_lookup_at, lemma_lookup_none, lemma_remove_absent, lemma_remove_at, lemma_update_absent,
    lemma_update_at, table_lookup, table_remove, table_update, Keyed,
};

verus! {

/// A principal's role inside one group or project: a display name, an
/// authority level, the identity it is filed under, and an optional
/// expiration time after which every authority check fails.
#[derive(Debug)]
pub struct Member {
    pub name: String,
    pub authority: Authority,
    pub identity: Principal,
    pub expiration_time: Option<u64>,
}

/// The mathematical value of a member record.
pub struct MemberView {
    pub name: Seq<char>,
    pub authority: Authority,
    pub identity: Seq<u8>,
    pub expiration_time: Option<u64>,
}

impl View for Member {
    type V = MemberView;

    open spec fn view(&self) -> MemberView {
        MemberView {
            name: self.name@,
            authority: self.authority,
            identity: self.identity@,
            expiration_time: self.expiration_time,
        }
    }
}

impl DeepView for Member {
    type V = MemberView;

    open spec fn deep_view(&self) -> MemberView {
        self.view()
    }
}

impl Keyed for MemberView {
    type Key = Seq<u8>;

    open spec fn key(self) -> Seq<u8> {
        self.identity
    }
}

impl Member {
    pub fn new(name: String, authority: Authority, identity: Principal, expiration_time: Option<
        u64,
    >) -> (r: Self)
        ensures
            r@ == (MemberView {
                name: name@,
                authority,
                identity: identity@,
                expiration_time,
            }),
    {
        Self { name, authority, identity, expiration_time }
    }
}

impl Clone for Member {
    fn clone(&self) -> (r: Self)
        ensures
            r@ == self@,
    {
        Member {
            name: self.name.clone(),
            authority: self.authority,
            identity: self.identity.clone(),
            expiration_time: self.expiration_time,
        }
    }
}

/// Whether a member record has expired at time `now`. A record without an
/// expiration time never expires.
pub open spec fn member_expired(m: MemberView, now: u64) -> bool {
    match m.expiration_time {
        Some(e) => e < now,
        None => false,
    }
}

/// The outcome of resolving `sender` in a member table and demanding
/// authority `opt` at time `now`: the sender must be on the table, its rank
/// must reach the demanded rank, and its record must not have expired.
pub open spec fn spec_member_check(
    ms: Seq<MemberView>,
    sender: Seq<u8>,
    opt: Authority,
    now: u64,
) -> Result<(), Error> {
    match table_lookup(ms, sender) {
        None => Err(Error::PermissionDenied),
        Some(m) => if m.authority.rank() < opt.rank() {
            Err(Error::PermissionDenied)
        } else if member_expired(m, now) {
            Err(Error::IdentityExpired)
        } else {
            Ok(())
        },
    }
}

/// The index of the first record filed under `id`, if any.
pub(crate) fn find_member(members: &Vec<Member>, id: &Principal) -> (r: Option<usize>)
    ensures
        match r {
            Some(i) => i < members.len() && members@[i as int]@.identity == id@ && (forall|j: int|
                0 <= j < i ==> members@[j]@.identity != id@),
            None => forall|j: int| 0 <= j < members.len() ==> members@[j]@.identity != id@,
        },
{
    let n = members.len();
    let mut i: usize = 0;
    while i < n
        invariant
            n == members.len(),
            i <= n,
            forall|j: int| 0 <= j < i ==> members@[j]@.identity != id@,
        decreases n - i,
    {
        if members[i].identity == *id {
            return Some(i);
        }
        i += 1;
    }
    None
}

/// Resolve `sender` in a member table and demand authority `opt` at `now`.
pub(crate) fn member_check(members: &Vec<Member>, opt: Authority, sender: &Principal, now: u64) -> (res: Result<
    (),
    Error,
>)
    ensures
        res == spec_member_check(members.deep_view(), sender@, opt, now),
{
    let ghost ms = members.deep_view();
    match find_member(members, sender) {
        None => {
            proof {
                lemma_lookup_none(ms, sender@);
            }
            Err(Error::PermissionDenied)
        },
        Some(i) => {
            proof {
                lemma_lookup_at(ms, i as int);
            }
            let m = &members[i];
            if !Authority::authority_check(m.authority, opt) {
                return Err(Error::PermissionDenied);
            }
            if let Option::Some(e) = m.expiration_time {
                if e < now {
                    return Err(Error::IdentityExpired);
                }
            }
            Ok(())
        },
    }
}

/// File `m` under its identity: overwrite the record already filed there,
/// or append.
pub(crate) fn upsert_member(members: &mut Vec<Member>, m: Member)
    ensures
        final(members).deep_view() == table_update(old(members).deep_view(), m@.identity, m@),
{
    let ghost ms = members.deep_view();
    match find_member(members, &m.identity) {
        Some(i) => {
            proof {
                lemma_update_at(ms, i as int, m@);
            }
            members[i] = m;
            proof {
                assert(members.deep_view() =~= ms.update(i as int, m@));
            }
        },
        None => {
            proof {
                lemma_update_absent(ms, m@.identity, m@);
            }
            members.push(m);
            proof {
                assert(members.deep_view() =~= ms.push(m@));
            }
        },
    }
}

/// Drop the record filed under `id`; a missing record is a no-op.
pub(crate) fn remove_member_entry(members: &mut Vec<Member>, id: &Principal)
    ensures
        final(members).deep_view() == table_remove(old(members).deep_view(), id@),
{
    let ghost ms = members.deep_view();
    match find_member(members, id) {
        Some(i) => {
            proof {
                lemma_remove_at(ms, i as int);
            }
            members.remove(i);
            proof {
                assert(members.deep_view() =~= ms.remove(i as int));
            }
        },
        None => {
            proof {
                lemma_remove_absent(ms, id@);
                assert(members.deep_view() =~= ms);
            }
        },
    }
}

/// Expiry is enforced lazily and uniformly: a member whose expiration time
/// lies in the past fails the check at every demanded authority, while the
/// same member with an expiration time at or after `now` (or none) passes
/// the check at every demanded authority at or below its own level.
pub proof fn law_expiry_monotonicity(
    ms: Seq<MemberView>,
    m: MemberView,
    opt: Authority,
    now: u64,
)
    requires
        table_lookup(ms, m.identity) == Some(m),
    ensures
        member_expired(m, now) ==> spec_member_check(ms, m.identity, opt, now) is Err,
        !member_expired(m, now) && m.authority.rank() >= opt.rank() ==> spec_member_check(
            ms,
            m.identity,
            opt,
            now,
        ) is Ok,
{
}

} // verus!
