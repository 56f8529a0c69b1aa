use spleety::convert::{acceptance_band, amount_in_band, expected_native};
use spleety::error::ErrorCode;
use spleety::ledger::{CreateExpense, Escrow, Identity, JoinAndPay, Settle};
use spleety::price::{normalize_price, OracleQuote};
use spleety::validate::{validate_creation, DEFAULT_MAX_PARTICIPANTS};

fn id(b: u8) -> Identity {
    Identity { bytes: [b; 32] }
}

fn quote_at(observed_at: i64) -> OracleQuote {
    // 100.00 fiat per native unit, reported with two decimals.
    OracleQuote { mantissa: 10000, exponent: -2, observed_at }
}

fn request(organizer: Identity, expense_id: &str, total_amount: u64, participant_count: u8) -> CreateExpense {
    CreateExpense {
        organizer,
        expense_id: expense_id.to_string(),
        title: "Dinner".to_string(),
        total_amount,
        participant_count,
        now: 1_000,
    }
}

fn pay(group: usize, payer: Identity, amount: u64, now: i64) -> JoinAndPay {
    JoinAndPay { group, payer, amount, payer_funds: u64::MAX, quote: quote_at(now), now }
}

fn escrow_with_group(total_amount: u64, participant_count: u8) -> (Escrow, usize) {
    let mut e = Escrow::new(DEFAULT_MAX_PARTICIPANTS);
    let created = e.create_expense(request(id(1), "trip", total_amount, participant_count)).unwrap();
    (e, created.group)
}

#[test]
fn share_is_rounded_down() {
    let title = "Lunch".to_string();
    assert_eq!(validate_creation(&title, 1000, 3, 10), Ok(333));
    assert_eq!(validate_creation(&title, 1000, 4, 10), Ok(250));
    assert_eq!(validate_creation(&title, 1, 2, 10), Ok(0));
}

#[test]
fn creation_rejects_bad_title() {
    assert_eq!(validate_creation(&String::new(), 1000, 4, 10), Err(ErrorCode::InvalidTitle));
    let long: String = "x".repeat(51);
    assert_eq!(validate_creation(&long, 1000, 4, 10), Err(ErrorCode::InvalidTitle));
    let edge: String = "é".repeat(50);
    assert_eq!(validate_creation(&edge, 1000, 4, 10), Ok(250));
}

#[test]
fn creation_rejects_zero_amount() {
    let title = "Lunch".to_string();
    assert_eq!(validate_creation(&title, 0, 4, 10), Err(ErrorCode::InvalidAmount));
}

#[test]
fn creation_rejects_bad_participant_count() {
    let title = "Lunch".to_string();
    assert_eq!(validate_creation(&title, 1000, 1, 10), Err(ErrorCode::InvalidParticipantCount));
    assert_eq!(validate_creation(&title, 1000, 11, 10), Err(ErrorCode::InvalidParticipantCount));
    assert_eq!(validate_creation(&title, 1000, 10, 10), Ok(100));
    assert_eq!(validate_creation(&title, 1000, 200, 255), Ok(5));
}

#[test]
fn create_expense_initializes_group() {
    let mut e = Escrow::new(DEFAULT_MAX_PARTICIPANTS);
    let created = e.create_expense(request(id(7), "trip", 1000, 4)).unwrap();
    assert_eq!(created.group, 0);
    assert_eq!(created.share, 250);
    assert_eq!(created.title, "Dinner");
    let g = &e.groups[0];
    assert_eq!(g.paid_count, 0);
    assert_eq!(g.custody_balance, 0);
    assert!(!g.settled);
    assert_eq!(g.share, 250);
    assert_eq!(g.created_at, 1_000);
    assert_eq!(g.organizer.bytes, [7u8; 32]);
}

#[test]
fn duplicate_group_key_is_rejected() {
    let mut e = Escrow::new(DEFAULT_MAX_PARTICIPANTS);
    assert!(e.create_expense(request(id(1), "trip", 1000, 4)).is_ok());
    assert_eq!(e.create_expense(request(id(1), "trip", 500, 2)).err(), Some(ErrorCode::DuplicateGroup));
    assert_eq!(e.groups.len(), 1);
    assert_eq!(e.create_expense(request(id(2), "trip", 500, 2)).unwrap().group, 1);
    assert_eq!(e.create_expense(request(id(1), "party", 500, 2)).unwrap().group, 2);
}

#[test]
fn normalize_price_scales_quotes() {
    assert_eq!(normalize_price(&quote_at(0), 0), Ok(10000));
    let eight = OracleQuote { mantissa: 15_000_000_000, exponent: -8, observed_at: 0 };
    assert_eq!(normalize_price(&eight, 10), Ok(15000));
    let positive = OracleQuote { mantissa: 3, exponent: 2, observed_at: 0 };
    assert_eq!(normalize_price(&positive, 0), Ok(30000));
}

#[test]
fn normalize_price_rejects_bad_quotes() {
    let zero = OracleQuote { mantissa: 0, exponent: -2, observed_at: 0 };
    assert_eq!(normalize_price(&zero, 0), Err(ErrorCode::InvalidPrice));
    let negative = OracleQuote { mantissa: -5, exponent: -2, observed_at: 0 };
    assert_eq!(normalize_price(&negative, 0), Err(ErrorCode::InvalidPrice));
    let vanishing = OracleQuote { mantissa: 5, exponent: -40, observed_at: 0 };
    assert_eq!(normalize_price(&vanishing, 0), Err(ErrorCode::InvalidPrice));
    let huge = OracleQuote { mantissa: 1, exponent: 18, observed_at: 0 };
    assert_eq!(normalize_price(&huge, 0), Err(ErrorCode::InvalidPrice));
    let extreme = OracleQuote { mantissa: i64::MAX, exponent: i32::MIN, observed_at: 0 };
    assert_eq!(normalize_price(&extreme, 0), Err(ErrorCode::InvalidPrice));
}

#[test]
fn normalize_price_staleness_boundary() {
    assert_eq!(normalize_price(&quote_at(100), 160), Ok(10000));
    assert_eq!(normalize_price(&quote_at(100), 161), Err(ErrorCode::StalePrice));
    let bad_and_stale = OracleQuote { mantissa: 0, exponent: 0, observed_at: i64::MIN };
    assert_eq!(normalize_price(&bad_and_stale, i64::MAX), Err(ErrorCode::StalePrice));
}

#[test]
fn conversion_and_band_values() {
    assert_eq!(expected_native(250, 10000), 25_000_000);
    assert_eq!(acceptance_band(25_000_000), (24_500_000, 25_500_000));
    assert_eq!(expected_native(1, 3), 333_333_333);
    assert_eq!(acceptance_band(333_333_333), (326_666_666, 339_999_999));
    assert!(amount_in_band(24_500_000, 250, 10000));
    assert!(amount_in_band(25_500_000, 250, 10000));
    assert!(!amount_in_band(24_499_999, 250, 10000));
    assert!(!amount_in_band(25_500_001, 250, 10000));
}

#[test]
fn paid_count_and_custody_follow_payments() {
    let (mut e, g) = escrow_with_group(1000, 4);
    let amounts = [25_000_000u64, 24_600_000, 25_400_000];
    for (k, a) in amounts.iter().enumerate() {
        let made = e.join_and_pay(&pay(g, id(10 + k as u8), *a, 2_000)).unwrap();
        assert_eq!(made.amount, *a);
        assert_eq!(made.share, 250);
        assert_eq!(made.price, 10000);
    }
    assert_eq!(e.groups[g].paid_count, 3);
    assert_eq!(e.groups[g].custody_balance, 75_000_000);
    assert_eq!(e.participants.len(), 3);
    let p = e.participants[1];
    assert_eq!(p.group, g);
    assert_eq!(p.payer.bytes, [11u8; 32]);
    assert!(p.has_paid);
    assert_eq!(p.amount_paid, 24_600_000);
    assert_eq!(p.paid_at, 2_000);
}

#[test]
fn second_join_is_duplicate() {
    let (mut e, g) = escrow_with_group(1000, 4);
    assert!(e.join_and_pay(&pay(g, id(5), 25_000_000, 10)).is_ok());
    for a in [25_000_000u64, 0, 1, u64::MAX] {
        assert_eq!(e.join_and_pay(&pay(g, id(5), a, 10)).err(), Some(ErrorCode::DuplicateParticipant));
    }
    let stale = JoinAndPay { quote: quote_at(0), ..pay(g, id(5), 25_000_000, 1_000) };
    assert_eq!(e.join_and_pay(&stale).err(), Some(ErrorCode::DuplicateParticipant));
    assert_eq!(e.groups[g].paid_count, 1);
    assert_eq!(e.groups[g].custody_balance, 25_000_000);
}

#[test]
fn stale_quote_is_rejected() {
    let (mut e, g) = escrow_with_group(1000, 4);
    let stale = JoinAndPay { quote: quote_at(100), ..pay(g, id(5), 25_000_000, 161) };
    assert_eq!(e.join_and_pay(&stale).err(), Some(ErrorCode::StalePrice));
    assert_eq!(e.groups[g].paid_count, 0);
    assert_eq!(e.participants.len(), 0);
    let fresh_enough = JoinAndPay { quote: quote_at(100), ..pay(g, id(5), 25_000_000, 160) };
    assert!(e.join_and_pay(&fresh_enough).is_ok());
}

#[test]
fn invalid_price_is_rejected_on_join() {
    let (mut e, g) = escrow_with_group(1000, 4);
    let bad = JoinAndPay { quote: OracleQuote { mantissa: 0, exponent: -2, observed_at: 10 }, ..pay(g, id(5), 1, 10) };
    assert_eq!(e.join_and_pay(&bad).err(), Some(ErrorCode::InvalidPrice));
}

#[test]
fn band_edges_accepted_outside_rejected() {
    let (mut e, g) = escrow_with_group(1000, 4);
    assert_eq!(e.join_and_pay(&pay(g, id(2), 24_499_999, 10)).err(), Some(ErrorCode::InvalidPaymentAmount));
    assert_eq!(e.join_and_pay(&pay(g, id(2), 25_500_001, 10)).err(), Some(ErrorCode::InvalidPaymentAmount));
    assert!(e.join_and_pay(&pay(g, id(2), 24_500_000, 10)).is_ok());
    assert!(e.join_and_pay(&pay(g, id(3), 25_500_000, 10)).is_ok());
    assert_eq!(e.groups[g].custody_balance, 50_000_000);
}

#[test]
fn insufficient_funds_leave_no_record() {
    let (mut e, g) = escrow_with_group(1000, 4);
    let poor = JoinAndPay { payer_funds: 24_999_999, ..pay(g, id(2), 25_000_000, 10) };
    assert_eq!(e.join_and_pay(&poor).err(), Some(ErrorCode::InsufficientFunds));
    assert_eq!(e.participants.len(), 0);
    assert_eq!(e.groups[g].paid_count, 0);
    let exact = JoinAndPay { payer_funds: 25_000_000, ..pay(g, id(2), 25_000_000, 10) };
    assert!(e.join_and_pay(&exact).is_ok());
}

#[test]
fn full_group_takes_no_more_payments() {
    let (mut e, g) = escrow_with_group(1000, 2);
    // share 500 cents: 50,000,000 units at 10000 cents per native unit.
    assert!(e.join_and_pay(&pay(g, id(2), 50_000_000, 10)).is_ok());
    assert!(e.join_and_pay(&pay(g, id(3), 50_000_000, 10)).is_ok());
    assert_eq!(e.join_and_pay(&pay(g, id(4), 50_000_000, 10)).err(), Some(ErrorCode::AllParticipantsPaid));
    assert_eq!(e.groups[g].paid_count, 2);
}

#[test]
fn unknown_group_is_rejected() {
    let (mut e, _) = escrow_with_group(1000, 4);
    assert_eq!(e.join_and_pay(&pay(9, id(2), 25_000_000, 10)).err(), Some(ErrorCode::UnknownGroup));
    assert_eq!(e.settle(&Settle { group: 9, caller: id(1) }).err(), Some(ErrorCode::UnknownGroup));
}

#[test]
fn custody_overflow_is_rejected() {
    // share 10^12 cents at one native unit per 100 cents: 10^19 units each.
    let (mut e, g) = escrow_with_group(2_000_000_000_000, 2);
    let q = OracleQuote { mantissa: 1, exponent: 0, observed_at: 10 };
    let first = JoinAndPay { group: g, payer: id(2), amount: 10_000_000_000_000_000_000, payer_funds: u64::MAX, quote: q, now: 10 };
    assert!(e.join_and_pay(&first).is_ok());
    let second = JoinAndPay { payer: id(3), ..first };
    assert_eq!(e.join_and_pay(&second).err(), Some(ErrorCode::BalanceOverflow));
    assert_eq!(e.groups[g].custody_balance, 10_000_000_000_000_000_000);
}

#[test]
fn non_organizer_cannot_settle() {
    let (mut e, g) = escrow_with_group(1000, 4);
    assert!(e.join_and_pay(&pay(g, id(2), 25_000_000, 10)).is_ok());
    assert_eq!(e.settle(&Settle { group: g, caller: id(2) }).err(), Some(ErrorCode::Unauthorized));
    assert_eq!(e.groups[g].custody_balance, 25_000_000);
    assert!(!e.groups[g].settled);
}

#[test]
fn second_settle_withdraws_nothing() {
    let (mut e, g) = escrow_with_group(1000, 4);
    assert!(e.join_and_pay(&pay(g, id(2), 25_000_000, 10)).is_ok());
    let first = e.settle(&Settle { group: g, caller: id(1) }).unwrap();
    assert_eq!(first.amount_withdrawn, 25_000_000);
    assert_eq!(first.paid_count, 1);
    assert_eq!(first.participant_count, 4);
    assert_eq!(e.groups[g].custody_balance, 0);
    assert!(e.groups[g].settled);
    assert_eq!(e.settle(&Settle { group: g, caller: id(1) }).err(), Some(ErrorCode::AlreadySettled));
    assert_eq!(e.settle(&Settle { group: g, caller: id(2) }).err(), Some(ErrorCode::Unauthorized));
    assert_eq!(e.join_and_pay(&pay(g, id(3), 25_000_000, 10)).err(), Some(ErrorCode::AlreadySettled));
}

#[test]
fn settle_of_empty_group_withdraws_zero() {
    let (mut e, g) = escrow_with_group(1000, 4);
    let done = e.settle(&Settle { group: g, caller: id(1) }).unwrap();
    assert_eq!(done.amount_withdrawn, 0);
    assert!(e.groups[g].settled);
}

#[test]
fn end_to_end_scenario() {
    let mut e = Escrow::new(DEFAULT_MAX_PARTICIPANTS);
    let created = e.create_expense(request(id(1), "dinner", 1000, 4)).unwrap();
    assert_eq!(created.share, 250);
    let g = created.group;
    assert_eq!(expected_native(250, 10000), 25_000_000);
    assert_eq!(acceptance_band(25_000_000), (24_500_000, 25_500_000));
    assert_eq!(e.join_and_pay(&pay(g, id(2), 24_000_000, 10)).err(), Some(ErrorCode::InvalidPaymentAmount));
    let made = e.join_and_pay(&pay(g, id(2), 25_000_000, 10)).unwrap();
    assert_eq!(made.amount, 25_000_000);
    let settled = e.settle(&Settle { group: g, caller: id(1) }).unwrap();
    assert_eq!(settled.amount_withdrawn, 25_000_000);
}
