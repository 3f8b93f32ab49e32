use vstd::prelude::*;

verus! {

/// Visibility of a user profile, a group or a project.
#[derive(Clone, Copy, Debug, PartialEq, Eq, Structural)]
pub enum Profile {
    Public,
    Private,
}

/// The action tags recorded by the audit-log sink after a mutation.
#[derive(Clone, Debug)]
pub enum Action {
    UpdateGroup(u64, String),
    UpdateProject(u64, u64, String),
    UpdateProjectCanister(u64, u64, String),
}

/// The application domain a project belongs to; informational only.
#[derive(Clone, Copy, Debug, PartialEq, Eq, Structural)]
pub enum ProjectType {
    Wallet,
    Infrastructure,
    NFT,
    Authentication,
    Tools,
    Dapp,
    Sns,
    Defi,
    Games,
    Official,
    Bridge,
    Swap,
    Metaverse,
}

/// The run state a managed canister reports.
#[derive(Clone, Copy, Debug, PartialEq, Eq, Structural)]
pub enum CanisterStatus {
    Running,
    Stopping,
    Stopped,
}

/// How code is installed on a managed canister.
#[derive(Clone, Copy, Debug, PartialEq, Eq, Structural)]
pub enum InstallCodeMode {
    Install,
    Reinstall,
    Upgrade,
}

} // verus!
