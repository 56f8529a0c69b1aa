use vstd::prelude::*;

use crate::convert::{amount_in_band, band_high, band_low, expected_native_of, within_band};
use crate::error::ErrorCode;
use crate::price::{is_stale, normalize_price, quote_error, quote_rate, OracleQuote};
use crate::validate::{creation_error, share_of, validate_creation, MIN_PARTICIPANTS};

verus! {

/// An already authenticated caller, by its 32-byte public key.
#[derive(Clone, Copy, Debug)]
pub struct Identity {
    pub bytes: [u8; 32],
}

impl Identity {
    pub open spec fn key(self) -> Seq<u8> {
        self.bytes@
    }

    /// Whether two identities carry the same key.
    pub fn same_as(&self, other: &Identity) -> (r: bool)
        ensures
            r == (self.key() == other.key()),
    {
        let mut i: usize = 0;
        while i < 32
            invariant
                0 <= i <= 32,
                self.bytes@.len() == 32,
                other.bytes@.len() == 32,
                forall|j: int| 0 <= j < i ==> self.bytes@[j] == other.bytes@[j],
            decreases 32 - i,
        {
            if self.bytes[i] != other.bytes[i] {
                return false;
            }
            i = i + 1;
        }
        assert(self.bytes@ =~= other.bytes@);
        true
    }
}

/// One shared expense: what is owed, what was paid, and what is held.
pub struct ExpenseGroup {
    pub organizer: Identity,
    pub expense_id: String,
    pub title: String,
    /// Total obligation in fiat cents.
    pub total_amount: u64,
    pub participant_count: u8,
    /// Obligation of each participant in fiat cents.
    pub share: u64,
    pub paid_count: u8,
    /// Native smallest units held for the organizer.
    pub custody_balance: u64,
    pub settled: bool,
    pub created_at: i64,
}

/// The record of one payer's payment into one group.
#[derive(Clone, Copy, Debug)]
pub struct Participant {
    /// Index of the group paid into.
    pub group: usize,
    pub payer: Identity,
    pub has_paid: bool,
    /// Native smallest units transferred into custody.
    pub amount_paid: u64,
    pub paid_at: i64,
}

/// Every expense group and every participant record, with the policy bound
/// on the participant count of a new group.
pub struct Escrow {
    pub max_participants: u8,
    pub groups: Vec<ExpenseGroup>,
    pub participants: Vec<Participant>,
}

/// A request to create a group.
pub struct CreateExpense {
    pub organizer: Identity,
    pub expense_id: String,
    pub title: String,
    /// Total obligation in fiat cents.
    pub total_amount: u64,
    pub participant_count: u8,
    pub now: i64,
}

/// A request to pay into a group: the payer, the amount offered in native
/// smallest units, what the payer holds, and the quote to convert at.
#[derive(Clone, Copy, Debug)]
pub struct JoinAndPay {
    pub group: usize,
    pub payer: Identity,
    pub amount: u64,
    pub payer_funds: u64,
    pub quote: OracleQuote,
    pub now: i64,
}

/// A request to withdraw the custody of a group.
#[derive(Clone, Copy, Debug)]
pub struct Settle {
    pub group: usize,
    pub caller: Identity,
}

/// What a group creation reports.
pub struct ExpenseCreated {
    pub group: usize,
    pub organizer: Identity,
    pub title: String,
    pub total_amount: u64,
    pub participant_count: u8,
    pub share: u64,
}

/// What an accepted payment reports.
#[derive(Clone, Copy, Debug)]
pub struct PaymentMade {
    pub group: usize,
    pub payer: Identity,
    /// The share owed, in fiat cents.
    pub share: u64,
    /// The amount transferred, in native smallest units.
    pub amount: u64,
    /// The rate used, in fiat cents per whole native unit.
    pub price: u64,
}

/// What a settlement reports.
#[derive(Clone, Copy, Debug)]
pub struct ExpenseSettled {
    pub group: usize,
    pub organizer: Identity,
    pub amount_withdrawn: u64,
    pub paid_count: u8,
    pub participant_count: u8,
}

/// Number of records in `ps` that belong to group `g`.
pub open spec fn records_of(ps: Seq<Participant>, g: int) -> nat
    decreases ps.len(),
{
    if ps.len() == 0 {
        0
    } else {
        records_of(ps.drop_last(), g) + if ps.last().group == g { 1nat } else { 0nat }
    }
}

/// Sum of the amounts of the records in `ps` that belong to group `g`.
pub open spec fn paid_sum(ps: Seq<Participant>, g: int) -> int
    decreases ps.len(),
{
    if ps.len() == 0 {
        0
    } else {
        paid_sum(ps.drop_last(), g) + if ps.last().group == g { ps.last().amount_paid as int } else { 0 }
    }
}

/// The record left by an accepted payment.
pub open spec fn payment_record(group_id: int, payer: Identity, amount: int, now: int) -> Participant {
    Participant {
        group: group_id as usize,
        payer,
        has_paid: true,
        amount_paid: amount as u64,
        paid_at: now as i64,
    }
}

impl CreateExpense {
    /// The group this request creates: nothing paid, nothing held, not settled.
    pub open spec fn fresh_group(self) -> ExpenseGroup {
        ExpenseGroup {
            organizer: self.organizer,
            expense_id: self.expense_id,
            title: self.title,
            total_amount: self.total_amount,
            participant_count: self.participant_count,
            share: share_of(self.total_amount as int, self.participant_count as int) as u64,
            paid_count: 0,
            custody_balance: 0,
            settled: false,
            created_at: self.now,
        }
    }
}

impl JoinAndPay {
    /// The rate that this request's quote gives.
    pub open spec fn rate(self) -> int {
        quote_rate(self.quote.mantissa as int, self.quote.exponent as int)
    }

    /// The record that this request leaves when accepted.
    pub open spec fn record(self) -> Participant {
        payment_record(self.group as int, self.payer, self.amount as int, self.now as int)
    }
}

/// The report of the creation of group `id`.
pub open spec fn created_event(id: usize, grp: ExpenseGroup) -> ExpenseCreated {
    ExpenseCreated {
        group: id,
        organizer: grp.organizer,
        title: grp.title,
        total_amount: grp.total_amount,
        participant_count: grp.participant_count,
        share: grp.share,
    }
}

/// The report of the settlement of group `id`, given the group before it.
pub open spec fn settled_event(id: usize, grp: ExpenseGroup) -> ExpenseSettled {
    ExpenseSettled {
        group: id,
        organizer: grp.organizer,
        amount_withdrawn: grp.custody_balance,
        paid_count: grp.paid_count,
        participant_count: grp.participant_count,
    }
}

impl ExpenseGroup {
    /// The group after one more accepted payment of `amount`.
    pub open spec fn paid_into(self, amount: int) -> ExpenseGroup {
        ExpenseGroup {
            paid_count: (self.paid_count + 1) as u8,
            custody_balance: (self.custody_balance + amount) as u64,
            ..self
        }
    }

    /// The group after its custody was withdrawn and it was closed.
    pub open spec fn closed(self) -> ExpenseGroup {
        ExpenseGroup { custody_balance: 0, settled: true, ..self }
    }
}

proof fn lemma_push_record(ps: Seq<Participant>, p: Participant, g: int)
    ensures
        records_of(ps.push(p), g) == records_of(ps, g) + if p.group == g { 1nat } else { 0nat },
        paid_sum(ps.push(p), g) == paid_sum(ps, g) + if p.group == g { p.amount_paid as int } else { 0 },
{
    assert(ps.push(p).drop_last() =~= ps);
}

proof fn lemma_no_records(ps: Seq<Participant>, g: int)
    requires
        forall|i: int| 0 <= i < ps.len() ==> ps[i].group < g,
    ensures
        records_of(ps, g) == 0,
        paid_sum(ps, g) == 0,
    decreases ps.len(),
{
    if ps.len() > 0 {
        lemma_no_records(ps.drop_last(), g);
    }
}

impl Escrow {
    /// What the ledger holds about group `g` agrees with its records.
    pub open spec fn group_consistent(&self, g: int) -> bool {
        let grp = self.groups@[g];
        &&& MIN_PARTICIPANTS <= grp.participant_count
        &&& grp.paid_count <= grp.participant_count
        &&& grp.share == share_of(grp.total_amount as int, grp.participant_count as int)
        &&& grp.paid_count == records_of(self.participants@, g)
        &&& grp.custody_balance == if grp.settled { 0 } else { paid_sum(self.participants@, g) }
    }

    /// Records point at existing groups, are marked paid and are unique per
    /// (group, payer); groups are unique per (organizer, expense identifier)
    /// and each agrees with its records.
    pub open spec fn wf(&self) -> bool {
        &&& forall|i: int|
            0 <= i < self.participants@.len() ==> #[trigger] self.participants@[i].group
                < self.groups@.len() && self.participants@[i].has_paid
        &&& forall|i: int, j: int|
            0 <= i < j < self.participants@.len() ==> !(#[trigger] self.participants@[i].group
                == #[trigger] self.participants@[j].group && self.participants@[i].payer.key()
                == self.participants@[j].payer.key())
        &&& forall|i: int, j: int|
            0 <= i < j < self.groups@.len() ==> !(#[trigger] self.groups@[i].organizer.key()
                == #[trigger] self.groups@[j].organizer.key() && self.groups@[i].expense_id@
                == self.groups@[j].expense_id@)
        &&& forall|g: int| 0 <= g < self.groups@.len() ==> #[trigger] self.group_consistent(g)
    }

    /// Whether `payer` already holds a record for group `g`.
    pub open spec fn has_participant(&self, g: int, payer: Identity) -> bool {
        exists|i: int|
            0 <= i < self.participants@.len() && #[trigger] self.participants@[i].group == g
                && self.participants@[i].payer.key() == payer.key()
    }

    /// Whether `organizer` already has a group under `expense_id`.
    pub open spec fn has_group_key(&self, organizer: Identity, expense_id: Seq<char>) -> bool {
        exists|i: int|
            0 <= i < self.groups@.len() && #[trigger] self.groups@[i].organizer.key()
                == organizer.key() && self.groups@[i].expense_id@ == expense_id
    }

    /// The first rule that a group creation breaks, if any.
    pub open spec fn create_error(
        &self,
        organizer: Identity,
        expense_id: Seq<char>,
        title: Seq<char>,
        total_amount: int,
        participant_count: int,
    ) -> Option<ErrorCode> {
        match creation_error(title, total_amount, participant_count, self.max_participants as int) {
            Some(e) => Some(e),
            None => if self.has_group_key(organizer, expense_id) {
                Some(ErrorCode::DuplicateGroup)
            } else {
                None
            },
        }
    }

    /// The first rule that a payment breaks, if any: an unknown group, a
    /// payer who already paid, a settled or full group, a refused quote, an
    /// amount outside the band, missing funds, then a custody overflow.
    pub open spec fn join_error(
        &self,
        g: int,
        payer: Identity,
        amount: int,
        payer_funds: int,
        quote: OracleQuote,
        now: int,
    ) -> Option<ErrorCode> {
        if !(0 <= g < self.groups@.len()) {
            Some(ErrorCode::UnknownGroup)
        } else if self.has_participant(g, payer) {
            Some(ErrorCode::DuplicateParticipant)
        } else if self.groups@[g].settled {
            Some(ErrorCode::AlreadySettled)
        } else if self.groups@[g].paid_count >= self.groups@[g].participant_count {
            Some(ErrorCode::AllParticipantsPaid)
        } else if quote_error(quote, now) is Some {
            quote_error(quote, now)
        } else if !within_band(
            amount,
            expected_native_of(
                self.groups@[g].share as int,
                quote_rate(quote.mantissa as int, quote.exponent as int),
            ),
        ) {
            Some(ErrorCode::InvalidPaymentAmount)
        } else if amount > payer_funds {
            Some(ErrorCode::InsufficientFunds)
        } else if self.groups@[g].custody_balance + amount > u64::MAX {
            Some(ErrorCode::BalanceOverflow)
        } else {
            None
        }
    }

    /// The first rule that a settlement breaks, if any.
    pub open spec fn settle_error(&self, g: int, caller: Identity) -> Option<ErrorCode> {
        if !(0 <= g < self.groups@.len()) {
            Some(ErrorCode::UnknownGroup)
        } else if self.groups@[g].organizer.key() != caller.key() {
            Some(ErrorCode::Unauthorized)
        } else if self.groups@[g].settled {
            Some(ErrorCode::AlreadySettled)
        } else {
            None
        }
    }

    /// An empty ledger whose new groups may have up to `max_participants` participants.
    pub fn new(max_participants: u8) -> (r: Escrow)
        ensures
            r.wf(),
            r.max_participants == max_participants,
            r.groups@.len() == 0,
            r.participants@.len() == 0,
    {
        Escrow { max_participants, groups: Vec::new(), participants: Vec::new() }
    }

    /// Index of the record of `payer` for group `group_id`, if there is one.
    pub fn find_participant(&self, group_id: usize, payer: &Identity) -> (r: Option<usize>)
        ensures
            match r {
                Some(i) => i < self.participants@.len() && self.participants@[i as int].group
                    == group_id && self.participants@[i as int].payer.key() == payer.key(),
                None => !self.has_participant(group_id as int, *payer),
            },
    {
        let mut i: usize = 0;
        while i < self.participants.len()
            invariant
                0 <= i <= self.participants@.len(),
                forall|k: int|
                    0 <= k < i ==> !(#[trigger] self.participants@[k].group == group_id
                        && self.participants@[k].payer.key() == payer.key()),
            decreases self.participants@.len() - i,
        {
            if self.participants[i].group == group_id && self.participants[i].payer.same_as(payer) {
                return Some(i);
            }
            i = i + 1;
        }
        None
    }

    /// Index of the group of `organizer` under `expense_id`, if there is one.
    pub fn find_group(&self, organizer: &Identity, expense_id: &String) -> (r: Option<usize>)
        ensures
            match r {
                Some(i) => i < self.groups@.len() && self.groups@[i as int].organizer.key()
                    == organizer.key() && self.groups@[i as int].expense_id@ == expense_id@,
                None => !self.has_group_key(*organizer, expense_id@),
            },
    {
        let mut i: usize = 0;
        while i < self.groups.len()
            invariant
                0 <= i <= self.groups@.len(),
                forall|k: int|
                    0 <= k < i ==> !(#[trigger] self.groups@[k].organizer.key() == organizer.key()
                        && self.groups@[k].expense_id@ == expense_id@),
            decreases self.groups@.len() - i,
        {
            if self.groups[i].organizer.same_as(organizer) && self.groups[i].expense_id == *expense_id {
                return Some(i);
            }
            i = i + 1;
        }
        None
    }
}

impl Escrow {
    /// Creates the group that `request` describes, owned by its organizer.
    /// Refuses a bad title, amount or participant count, and a second group
    /// of the same organizer under the same expense identifier.
    pub fn create_expense(&mut self, request: CreateExpense) -> (r: Result<ExpenseCreated, ErrorCode>)
        requires
            old(self).wf(),
        ensures
            final(self).wf(),
            match old(self).create_error(
                request.organizer,
                request.expense_id@,
                request.title@,
                request.total_amount as int,
                request.participant_count as int,
            ) {
                Some(e) => r == Err::<ExpenseCreated, ErrorCode>(e) && *final(self) == *old(self),
                None => r == Ok::<ExpenseCreated, ErrorCode>(
                    created_event(old(self).groups@.len() as usize, request.fresh_group()),
                ) && final(self).groups@ == old(self).groups@.push(request.fresh_group())
                    && final(self).participants@ == old(self).participants@
                    && final(self).max_participants == old(self).max_participants,
            },
    {
        let ghost req = request;
        let CreateExpense { organizer, expense_id, title, total_amount, participant_count, now } = request;
        let share = match validate_creation(&title, total_amount, participant_count, self.max_participants) {
            Ok(share) => share,
            Err(e) => return Err(e),
        };
        if self.find_group(&organizer, &expense_id).is_some() {
            return Err(ErrorCode::DuplicateGroup);
        }
        let id = self.groups.len();
        let event = ExpenseCreated {
            group: id,
            organizer,
            title: title.clone(),
            total_amount,
            participant_count,
            share,
        };
        let group = ExpenseGroup {
            organizer,
            expense_id,
            title,
            total_amount,
            participant_count,
            share,
            paid_count: 0,
            custody_balance: 0,
            settled: false,
            created_at: now,
        };
        let ghost before = *self;
        self.groups.push(group);
        proof {
            let ps = self.participants@;
            assert(group == req.fresh_group());
            assert forall|g: int| 0 <= g < self.groups@.len() implies #[trigger] self.group_consistent(g) by {
                if g < id {
                    assert(before.group_consistent(g));
                } else {
                    lemma_no_records(ps, g);
                }
            }
            assert forall|i: int, j: int|
                0 <= i < j < self.groups@.len() implies !(#[trigger] self.groups@[i].organizer.key()
                    == #[trigger] self.groups@[j].organizer.key() && self.groups@[i].expense_id@
                    == self.groups@[j].expense_id@) by {
                if j == id {
                    assert(!(before.groups@[i].organizer.key() == organizer.key()
                        && before.groups@[i].expense_id@ == req.expense_id@));
                }
            }
        }
        Ok(event)
    }

    /// Accepts the payment that `request` offers into its group at the rate
    /// of its quote, records it, and adds the amount to the group's custody.
    pub fn join_and_pay(&mut self, request: &JoinAndPay) -> (r: Result<PaymentMade, ErrorCode>)
        requires
            old(self).wf(),
        ensures
            final(self).wf(),
            match old(self).join_error(
                request.group as int,
                request.payer,
                request.amount as int,
                request.payer_funds as int,
                request.quote,
                request.now as int,
            ) {
                Some(e) => r == Err::<PaymentMade, ErrorCode>(e) && *final(self) == *old(self),
                None => r == Ok::<PaymentMade, ErrorCode>(
                    PaymentMade {
                        group: request.group,
                        payer: request.payer,
                        share: old(self).groups@[request.group as int].share,
                        amount: request.amount,
                        price: request.rate() as u64,
                    },
                ) && final(self).participants@ == old(self).participants@.push(request.record())
                    && final(self).groups@ == old(self).groups@.update(
                    request.group as int,
                    old(self).groups@[request.group as int].paid_into(request.amount as int),
                ) && final(self).max_participants == old(self).max_participants,
            },
    {
        let group_id = request.group;
        let amount = request.amount;
        if group_id >= self.groups.len() {
            return Err(ErrorCode::UnknownGroup);
        }
        if self.find_participant(group_id, &request.payer).is_some() {
            return Err(ErrorCode::DuplicateParticipant);
        }
        if self.groups[group_id].settled {
            return Err(ErrorCode::AlreadySettled);
        }
        if self.groups[group_id].paid_count >= self.groups[group_id].participant_count {
            return Err(ErrorCode::AllParticipantsPaid);
        }
        let price = match normalize_price(&request.quote, request.now) {
            Ok(price) => price,
            Err(e) => return Err(e),
        };
        let share = self.groups[group_id].share;
        if !amount_in_band(amount, share, price) {
            return Err(ErrorCode::InvalidPaymentAmount);
        }
        if amount > request.payer_funds {
            return Err(ErrorCode::InsufficientFunds);
        }
        let custody = self.groups[group_id].custody_balance;
        if amount > u64::MAX - custody {
            return Err(ErrorCode::BalanceOverflow);
        }
        let record = Participant {
            group: group_id,
            payer: request.payer,
            has_paid: true,
            amount_paid: amount,
            paid_at: request.now,
        };
        let ghost before = *self;
        let paid = self.groups[group_id].paid_count;
        self.groups[group_id].paid_count = paid + 1;
        self.groups[group_id].custody_balance = custody + amount;
        self.participants.push(record);
        proof {
            let g = group_id as int;
            assert(self.groups@ =~= before.groups@.update(g, before.groups@[g].paid_into(amount as int)));
            assert forall|h: int| 0 <= h < self.groups@.len() implies #[trigger] self.group_consistent(h) by {
                assert(before.group_consistent(h));
                lemma_push_record(before.participants@, record, h);
            }
            assert forall|i: int, j: int|
                0 <= i < j < self.participants@.len() implies !(#[trigger] self.participants@[i].group
                    == #[trigger] self.participants@[j].group && self.participants@[i].payer.key()
                    == self.participants@[j].payer.key()) by {
                if j == before.participants@.len() {
                    assert(!(before.participants@[i].group == group_id
                        && before.participants@[i].payer.key() == request.payer.key()));
                }
            }
        }
        Ok(PaymentMade { group: group_id, payer: request.payer, share, amount, price })
    }

    /// Withdraws the whole custody balance of the requested group for its
    /// organizer and closes the group.
    pub fn settle(&mut self, request: &Settle) -> (r: Result<ExpenseSettled, ErrorCode>)
        requires
            old(self).wf(),
        ensures
            final(self).wf(),
            match old(self).settle_error(request.group as int, request.caller) {
                Some(e) => r == Err::<ExpenseSettled, ErrorCode>(e) && *final(self) == *old(self),
                None => r == Ok::<ExpenseSettled, ErrorCode>(
                    settled_event(request.group, old(self).groups@[request.group as int]),
                ) && final(self).groups@ == old(self).groups@.update(
                    request.group as int,
                    old(self).groups@[request.group as int].closed(),
                ) && final(self).participants@ == old(self).participants@
                    && final(self).max_participants == old(self).max_participants,
            },
    {
        let group_id = request.group;
        if group_id >= self.groups.len() {
            return Err(ErrorCode::UnknownGroup);
        }
        if !self.groups[group_id].organizer.same_as(&request.caller) {
            return Err(ErrorCode::Unauthorized);
        }
        if self.groups[group_id].settled {
            return Err(ErrorCode::AlreadySettled);
        }
        let ghost before = *self;
        let event = ExpenseSettled {
            group: group_id,
            organizer: self.groups[group_id].organizer,
            amount_withdrawn: self.groups[group_id].custody_balance,
            paid_count: self.groups[group_id].paid_count,
            participant_count: self.groups[group_id].participant_count,
        };
        self.groups[group_id].custody_balance = 0;
        self.groups[group_id].settled = true;
        proof {
            let g = group_id as int;
            assert(self.groups@ =~= before.groups@.update(g, before.groups@[g].closed()));
            assert forall|h: int| 0 <= h < self.groups@.len() implies #[trigger] self.group_consistent(h) by {
                assert(before.group_consistent(h));
            }
        }
        Ok(event)
    }
}

/// The paid count of a group is the number of its payment records, and until
/// it is settled its custody balance is the sum of the amounts accepted; a
/// group starts with neither, so after N accepted payments the count is N.
pub proof fn lemma_payments_tracked(e: &Escrow, g: int)
    requires
        e.wf(),
        0 <= g < e.groups@.len(),
    ensures
        e.groups@[g].paid_count == records_of(e.participants@, g),
        !e.groups@[g].settled ==> e.groups@[g].custody_balance == paid_sum(e.participants@, g),
        e.groups@[g].paid_count <= e.groups@[g].participant_count,
{
    assert(e.group_consistent(g));
}

/// Once a payment from `payer` into group `g` was accepted, every later
/// payment from the same payer into that group is refused as a duplicate,
/// whatever its amount, funds, quote or time.
pub proof fn lemma_second_join_is_duplicate(
    before: &Escrow,
    after: &Escrow,
    g: usize,
    payer: Identity,
    amount: int,
    payer_funds: int,
    quote: OracleQuote,
    now: int,
    next_amount: int,
    next_funds: int,
    next_quote: OracleQuote,
    next_now: int,
)
    requires
        before.join_error(g as int, payer, amount, payer_funds, quote, now) is None,
        after.participants@ == before.participants@.push(payment_record(g as int, payer, amount, now)),
        after.groups@.len() == before.groups@.len(),
    ensures
        after.join_error(g as int, payer, next_amount, next_funds, next_quote, next_now)
            == Some(ErrorCode::DuplicateParticipant),
{
    let last = before.participants@.len() as int;
    assert(after.participants@[last].group == g);
}

/// On an open group with a free slot, a payer without a record who brings a
/// stale quote is refused for staleness, whatever the amount.
pub proof fn lemma_stale_quote_refused(
    e: &Escrow,
    g: int,
    payer: Identity,
    amount: int,
    payer_funds: int,
    quote: OracleQuote,
    now: int,
)
    requires
        0 <= g < e.groups@.len(),
        !e.has_participant(g, payer),
        !e.groups@[g].settled,
        e.groups@[g].paid_count < e.groups@[g].participant_count,
        is_stale(quote.observed_at as int, now),
    ensures
        e.join_error(g, payer, amount, payer_funds, quote, now) == Some(ErrorCode::StalePrice),
{
}

/// With a fresh, usable quote on an open group with a free slot, an amount
/// outside the band is refused, and an amount on either edge of the band is
/// accepted when the payer holds it and custody can take it.
pub proof fn lemma_band_is_closed(
    e: &Escrow,
    g: int,
    payer: Identity,
    amount: int,
    payer_funds: int,
    quote: OracleQuote,
    now: int,
)
    requires
        0 <= g < e.groups@.len(),
        !e.has_participant(g, payer),
        !e.groups@[g].settled,
        e.groups@[g].paid_count < e.groups@[g].participant_count,
        quote_error(quote, now) is None,
    ensures
        ({
            let expected = expected_native_of(
                e.groups@[g].share as int,
                quote_rate(quote.mantissa as int, quote.exponent as int),
            );
            &&& (amount < band_low(expected) || amount > band_high(expected)) ==> e.join_error(
                g,
                payer,
                amount,
                payer_funds,
                quote,
                now,
            ) == Some(ErrorCode::InvalidPaymentAmount)
            &&& ((amount == band_low(expected) || amount == band_high(expected)) && amount
                <= payer_funds && e.groups@[g].custody_balance + amount <= u64::MAX) ==> e.join_error(
                g,
                payer,
                amount,
                payer_funds,
                quote,
                now,
            ) is None
        }),
{
}

/// A caller who is not the organizer cannot settle; a refused settlement
/// leaves the ledger as it was.
pub proof fn lemma_non_organizer_cannot_settle(e: &Escrow, g: int, caller: Identity)
    requires
        0 <= g < e.groups@.len(),
        e.groups@[g].organizer.key() != caller.key(),
    ensures
        e.settle_error(g, caller) == Some(ErrorCode::Unauthorized),
{
}

/// After a settlement, a second settlement of the same group withdraws
/// nothing: it is refused, as already settled when the organizer asks.
pub proof fn lemma_second_settle_refused(before: &Escrow, after: &Escrow, g: int, caller: Identity, next_caller: Identity)
    requires
        before.settle_error(g, caller) is None,
        after.groups@ == before.groups@.update(g, before.groups@[g].closed()),
    ensures
        after.settle_error(g, next_caller) is Some,
        next_caller.key() == before.groups@[g].organizer.key() ==> after.settle_error(g, next_caller)
            == Some(ErrorCode::AlreadySettled),
{
}

} // verus!
