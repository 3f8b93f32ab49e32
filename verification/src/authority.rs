use vstd::prelude::*;

verus! {

/// The three-level permission model of groups and projects, ordered like
/// file-operation permission classes: a single level implies all lower
/// levels, and there is no combination of levels.
#[derive(Clone, Copy, Debug, PartialEq, Eq, Structural)]
pub enum Authority {
    /// May read the basic information of a group or project.
    Read,
    /// May read and modify basic information, but not operate core
    /// functions such as deleting canisters.
    Write,
    /// May do anything.
    Operational,
}

impl Authority {
    /// The numeric rank of a level; authority is granted by rank comparison.
    pub open spec fn rank(self) -> int {
        match self {
            Authority::Read => 1,
            Authority::Write => 2,
            Authority::Operational => 4,
        }
    }

    /// Whether a principal holding level `operator` may perform an operation
    /// that demands level `opt`: exactly a comparison of the two ranks.
    pub fn authority_check(operator: Authority, opt: Authority) -> (r: bool)
        ensures
            r == (operator.rank() >= opt.rank()),
    {
        let opt_rank: u8 = match opt {
            Authority::Read => 1u8,
            Authority::Write => 2u8,
            Authority::Operational => 4u8,
        };

        let operator_rank: u8 = match operator {
            Authority::Read => 1u8,
            Authority::Write => 2u8,
            Authority::Operational => 4u8,
        };

        operator_rank >= opt_rank
    }
}

/// The authority order is total and monotone: a check passes exactly when the
/// held rank is at least the required rank, so anything granted to a lower
/// level is granted to every higher level as well.
pub proof fn law_authority_order(held: Authority, required: Authority)
    ensures
        (held.rank() >= required.rank()) == match (held, required) {
            (Authority::Read, Authority::Read) => true,
            (Authority::Read, _) => false,
            (Authority::Write, Authority::Operational) => false,
            (Authority::Write, _) => true,
            (Authority::Operational, _) => true,
        },
{
}

} // verus!
