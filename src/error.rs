use vstd::prelude::*;

verus! {

/// Every way an escrow operation can be refused.
#[derive(Clone, Copy, Debug, PartialEq, Eq, Structural)]
pub enum ErrorCode {
    /// The title is empty or longer than the allowed number of characters.
    InvalidTitle,
    /// The total obligation is zero.
    InvalidAmount,
    /// The participant count is below two or above the configured bound.
    InvalidParticipantCount,
    /// The organizer already has a group under this expense identifier.
    DuplicateGroup,
    /// No group exists under the given identifier.
    UnknownGroup,
    /// The group was settled; it takes no payment and no second settlement.
    AlreadySettled,
    /// Every participant slot of the group has been paid.
    AllParticipantsPaid,
    /// The payer already holds a participant record for this group.
    DuplicateParticipant,
    /// The oracle quote is older than the allowed age.
    StalePrice,
    /// The oracle quote is non-positive or does not give a usable rate.
    InvalidPrice,
    /// The submitted amount lies outside the acceptance band.
    InvalidPaymentAmount,
    /// The caller is not the organizer of the group.
    Unauthorized,
    /// The payer does not hold the amount to transfer.
    InsufficientFunds,
    /// The custody balance would no longer fit its integer type.
    BalanceOverflow,
}

} // verus!
