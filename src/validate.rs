use vstd::prelude::*;
use vstd::string::StrSliceExecFns;
use vstd::arithmetic::div_mod::{lemma_fundamental_div_mod, lemma_mod_pos_bound};
use vstd::arithmetic::mul::lemma_mul_is_commutative;

use crate::error::ErrorCode;

verus! {

/// Longest accepted title, in characters.
pub const MAX_TITLE_CHARS: usize = 50;

/// Fewest participants a group can be created with.
pub const MIN_PARTICIPANTS: u8 = 2;

/// Participant bound used when no other is configured.
pub const DEFAULT_MAX_PARTICIPANTS: u8 = 10;

/// The per-participant share: the total divided by the count, rounded down.
pub open spec fn share_of(total_amount: int, participant_count: int) -> int {
    total_amount / participant_count
}

/// The first rule that a group creation breaks, if any.
pub open spec fn creation_error(
    title: Seq<char>,
    total_amount: int,
    participant_count: int,
    max_participants: int,
) -> Option<ErrorCode> {
    if title.len() == 0 || title.len() > MAX_TITLE_CHARS {
        Some(ErrorCode::InvalidTitle)
    } else if total_amount <= 0 {
        Some(ErrorCode::InvalidAmount)
    } else if participant_count < MIN_PARTICIPANTS || participant_count > max_participants {
        Some(ErrorCode::InvalidParticipantCount)
    } else {
        None
    }
}

/// Checks the inputs of a group creation and computes the share.
/// The remainder of the division is dropped, not redistributed.
pub fn validate_creation(
    title: &String,
    total_amount: u64,
    participant_count: u8,
    max_participants: u8,
) -> (r: Result<u64, ErrorCode>)
    ensures
        match creation_error(title@, total_amount as int, participant_count as int, max_participants as int) {
            Some(e) => r == Err::<u64, ErrorCode>(e),
            None => r == Ok::<u64, ErrorCode>(share_of(total_amount as int, participant_count as int) as u64),
        },
{
    let title_len = title.as_str().unicode_len();
    if title_len == 0 || title_len > MAX_TITLE_CHARS {
        return Err(ErrorCode::InvalidTitle);
    }
    if total_amount == 0 {
        return Err(ErrorCode::InvalidAmount);
    }
    if participant_count < MIN_PARTICIPANTS || participant_count > max_participants {
        return Err(ErrorCode::InvalidParticipantCount);
    }
    Ok(total_amount / participant_count as u64)
}

/// The share never over-collects: share times count stays within the total,
/// and the amount lost to rounding is below the participant count.
pub proof fn lemma_share_rounding(total_amount: u64, participant_count: u8)
    requires
        participant_count >= MIN_PARTICIPANTS,
    ensures
        share_of(total_amount as int, participant_count as int) * participant_count <= total_amount,
        total_amount - share_of(total_amount as int, participant_count as int) * participant_count
            <= participant_count - 1,
{
    let t = total_amount as int;
    let c = participant_count as int;
    lemma_fundamental_div_mod(t, c);
    lemma_mod_pos_bound(t, c);
    lemma_mul_is_commutative(t / c, c);
}

} // verus!
