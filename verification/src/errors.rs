use vstd::prelude::*;

verus! {

/// Failure conditions of the transfer workflow, one variant per condition.
///
/// The first four are expected input or authorization errors and are
/// reported with no mutation attempted; the last three indicate a missing
/// community, a consistency violation, or an unexpected store failure.
#[derive(Clone, Copy, Debug, PartialEq, Eq, Structural)]
pub enum TransferError {
    /// The credential could not be resolved to a requester identity.
    Unauthenticated,
    /// The community does not exist.
    NotFound,
    /// The community exists but has no moderators at all.
    RosterEmpty,
    /// The requester is neither the top moderator nor a site admin.
    NotAuthorized,
    /// The target person is not currently a moderator of the community.
    TargetNotModerator,
    /// A (community, person) membership was already present on reinsertion.
    DuplicateMembership,
    /// An unexpected store inconsistency; nothing was committed.
    Internal,
}

} // verus!
