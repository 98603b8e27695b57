//! Transactions, the requests that create them, and the rules a request has
//! to meet before anything is written to the books.

use crate::date::Date;
use crate::money::{checked_total, pow10, total, total_units, Money, MAX_SCALE};
use crate::text::{integer_text, integer_to_string};
use vstd::prelude::*;
use vstd::string::StringExecFns;

verus! {

/// Why the amounts of a single journal entry are refused.
#[derive(Clone, Copy, Debug, PartialEq, Eq, Structural)]
pub enum EntryError {
    /// Both a debit and a credit amount are given.
    ConflictingAmounts,
    /// No amount is given, or the one given is not greater than zero.
    MissingAmount,
}

/// What the amounts of one journal entry are judged to be: exactly one of
/// debit and credit has to be given, and it has to be greater than zero.
pub open spec fn amounts_check(debit: Option<Money>, credit: Option<Money>) -> Result<
    (),
    EntryError,
> {
    match (debit, credit) {
        (Some(_), Some(_)) => Err(EntryError::ConflictingAmounts),
        (Some(d), None) => if d@ > 0 {
            Ok(())
        } else {
            Err(EntryError::MissingAmount)
        },
        (None, Some(c)) => if c@ > 0 {
            Ok(())
        } else {
            Err(EntryError::MissingAmount)
        },
        (None, None) => Err(EntryError::MissingAmount),
    }
}

/// Judges the amounts of one journal entry.
pub fn check_amounts(debit: &Option<Money>, credit: &Option<Money>) -> (r: Result<(), EntryError>)
    ensures
        r == amounts_check(*debit, *credit),
{
    match (debit, credit) {
        (Some(_), Some(_)) => Err(EntryError::ConflictingAmounts),
        (Some(d), None) => if d.is_positive() {
            Ok(())
        } else {
            Err(EntryError::MissingAmount)
        },
        (None, Some(c)) => if c.is_positive() {
            Ok(())
        } else {
            Err(EntryError::MissingAmount)
        },
        (None, None) => Err(EntryError::MissingAmount),
    }
}

impl EntryError {
    /// The reason in words.
    pub open spec fn spec_message(self) -> Seq<char> {
        match self {
            EntryError::ConflictingAmounts =>
                "Journal entry cannot have both debit and credit amounts"@,
            EntryError::MissingAmount =>
                "Journal entry must have a positive debit or credit amount"@,
        }
    }

    /// The reason in words.
    pub fn message(&self) -> (r: String)
        ensures
            r@ == self.spec_message(),
    {
        match self {
            EntryError::ConflictingAmounts => String::from_str(
                "Journal entry cannot have both debit and credit amounts",
            ),
            EntryError::MissingAmount => String::from_str(
                "Journal entry must have a positive debit or credit amount",
            ),
        }
    }
}

/// Why a transaction request is refused.
#[derive(Clone, Copy, Debug, PartialEq)]
pub enum ValidationError {
    /// The request has no journal entries.
    EmptyTransaction,
    /// The entry at this position, counted from 1, gives both a debit and a
    /// credit amount.
    ConflictingAmounts { position: usize },
    /// The entry at this position, counted from 1, gives no amount, or one
    /// that is not greater than zero.
    MissingAmount { position: usize },
    /// The debits do not add up to the credits.
    Unbalanced { debits: Money, credits: Money },
    /// The debits or the credits could not be added up exactly.
    AmountOutOfRange,
}

/// The refusal of the entry at `position` for the reason `error`.
pub open spec fn entry_refusal(position: usize, error: EntryError) -> ValidationError {
    match error {
        EntryError::ConflictingAmounts => ValidationError::ConflictingAmounts { position },
        EntryError::MissingAmount => ValidationError::MissingAmount { position },
    }
}

impl ValidationError {
    /// The reason in words; an entry is named by its position.
    pub open spec fn spec_message(self) -> Seq<char> {
        match self {
            ValidationError::EmptyTransaction =>
                "Transaction must have at least one journal entry"@,
            ValidationError::ConflictingAmounts { position } => "Journal entry "@ + integer_text(
                position as int,
            ) + ": "@ + EntryError::ConflictingAmounts.spec_message(),
            ValidationError::MissingAmount { position } => "Journal entry "@ + integer_text(
                position as int,
            ) + ": "@ + EntryError::MissingAmount.spec_message(),
            ValidationError::Unbalanced { debits, credits } =>
                "Transaction does not balance: debits ("@ + crate::money::decimal_text(
                debits.spec_mantissa(),
                debits.spec_scale(),
            ) + ") != credits ("@ + crate::money::decimal_text(
                credits.spec_mantissa(),
                credits.spec_scale(),
            ) + ")"@,
            ValidationError::AmountOutOfRange =>
                "Transaction amounts cannot be added up exactly"@,
        }
    }

    /// The reason in words; an entry is named by its position.
    pub fn message(&self) -> (r: String)
        ensures
            r@ == self.spec_message(),
    {
        match self {
            ValidationError::EmptyTransaction => String::from_str(
                "Transaction must have at least one journal entry",
            ),
            ValidationError::ConflictingAmounts { position } => {
                let mut text = String::from_str("Journal entry ");
                text.append(integer_to_string(*position as i128).as_str());
                text.append(": ");
                text.append(EntryError::ConflictingAmounts.message().as_str());
                text
            },
            ValidationError::MissingAmount { position } => {
                let mut text = String::from_str("Journal entry ");
                text.append(integer_to_string(*position as i128).as_str());
                text.append(": ");
                text.append(EntryError::MissingAmount.message().as_str());
                text
            },
            ValidationError::Unbalanced { debits, credits } => {
                let mut text = String::from_str("Transaction does not balance: debits (");
                text.append(debits.to_text().as_str());
                text.append(") != credits (");
                text.append(credits.to_text().as_str());
                text.append(")");
                text
            },
            ValidationError::AmountOutOfRange => String::from_str(
                "Transaction amounts cannot be added up exactly",
            ),
        }
    }
}

/// The header of a posted transaction.
#[derive(Debug)]
pub struct Transaction {
    pub id: i64,
    pub description: String,
    pub reference: Option<String>,
    pub transaction_date: Date,
    /// Seconds since the Unix epoch.
    pub created_at: i64,
    /// Seconds since the Unix epoch.
    pub updated_at: i64,
}

/// A copy of a text that may be absent.
pub fn clone_optional_text(text: &Option<String>) -> (r: Option<String>)
    ensures
        r == *text,
{
    match text {
        Some(t) => Some(t.clone()),
        None => None,
    }
}

impl Clone for Transaction {
    fn clone(&self) -> (r: Transaction)
        ensures
            r == *self,
    {
        Transaction {
            id: self.id,
            description: self.description.clone(),
            reference: clone_optional_text(&self.reference),
            transaction_date: self.transaction_date,
            created_at: self.created_at,
            updated_at: self.updated_at,
        }
    }
}

/// One leg of a transaction request: a debit or a credit on one account.
#[derive(Debug)]
pub struct CreateJournalEntryRequest {
    pub account_id: i64,
    pub debit_amount: Option<Money>,
    pub credit_amount: Option<Money>,
    pub description: Option<String>,
}

impl CreateJournalEntryRequest {
    /// What the entry is judged to be.
    pub open spec fn spec_validate(self) -> Result<(), EntryError> {
        amounts_check(self.debit_amount, self.credit_amount)
    }

    /// The debit amount, zero where none is given.
    pub open spec fn debit_or_zero(self) -> Money {
        match self.debit_amount {
            Some(d) => d,
            None => Money::of(0, 0),
        }
    }

    /// The credit amount, zero where none is given.
    pub open spec fn credit_or_zero(self) -> Money {
        match self.credit_amount {
            Some(c) => c,
            None => Money::of(0, 0),
        }
    }

    /// The amount of the entry whichever side it is on: the debit amount
    /// where one is given, else the credit amount, else zero.
    pub open spec fn either_amount(self) -> Money {
        match self.debit_amount {
            Some(d) => d,
            None => self.credit_or_zero(),
        }
    }

    /// Whether the amounts of the entry are well formed.
    pub open spec fn wf(self) -> bool {
        &&& self.debit_amount matches Some(d) ==> d.wf()
        &&& self.credit_amount matches Some(c) ==> c.wf()
    }

    /// Checks that exactly one of debit and credit is given and that it is
    /// greater than zero.
    pub fn validate(&self) -> (r: Result<(), EntryError>)
        ensures
            r == self.spec_validate(),
    {
        check_amounts(&self.debit_amount, &self.credit_amount)
    }
}

/// The debit amounts of the entries, in order, zero where none is given.
pub open spec fn debit_column(entries: Seq<CreateJournalEntryRequest>) -> Seq<Money> {
    Seq::new(entries.len(), |i: int| entries[i].debit_or_zero())
}

/// The credit amounts of the entries, in order, zero where none is given.
pub open spec fn credit_column(entries: Seq<CreateJournalEntryRequest>) -> Seq<Money> {
    Seq::new(entries.len(), |i: int| entries[i].credit_or_zero())
}

/// The amounts of the entries, in order, whichever side they are on.
pub open spec fn amount_column(entries: Seq<CreateJournalEntryRequest>) -> Seq<Money> {
    Seq::new(entries.len(), |i: int| entries[i].either_amount())
}

/// Whether every entry passes its own check.
pub open spec fn all_entries_valid(entries: Seq<CreateJournalEntryRequest>) -> bool {
    forall|i: int| 0 <= i < entries.len() ==> (#[trigger] entries[i]).spec_validate() is Ok
}

/// Whether `i` is the first position, counted from 0, of an entry that fails
/// its own check.
pub open spec fn is_first_invalid(entries: Seq<CreateJournalEntryRequest>, i: int) -> bool {
    &&& 0 <= i < entries.len()
    &&& entries[i].spec_validate() is Err
    &&& all_entries_valid(entries.take(i))
}

/// The refusal of the entry at position `i`, counted from 0; it is reported
/// by its position counted from 1.
pub open spec fn refusal_at(entries: Seq<CreateJournalEntryRequest>, i: int) -> Result<
    (Money, Money),
    ValidationError,
> {
    Err(entry_refusal((i + 1) as usize, entries[i].spec_validate()->Err_0))
}

/// What a list of entries is judged to be as a transaction: the totals of
/// its debits and credits where it is accepted, the reason where it is not.
///
/// An empty list is refused. Otherwise the first entry that fails its own
/// check is reported with its position. Otherwise debits and credits are
/// added up, and have to be the same number.
pub open spec fn judged(entries: Seq<CreateJournalEntryRequest>, r: Result<
    (Money, Money),
    ValidationError,
>) -> bool {
    if entries.len() == 0 {
        r == Err::<(Money, Money), ValidationError>(ValidationError::EmptyTransaction)
    } else if !all_entries_valid(entries) {
        exists|i: int| #[trigger] is_first_invalid(entries, i) && r == refusal_at(entries, i)
    } else {
        match (checked_total(debit_column(entries)), checked_total(credit_column(entries))) {
            (Some(d), Some(c)) => if d@ == c@ {
                r == Ok::<(Money, Money), ValidationError>((d, c))
            } else {
                r == Err::<(Money, Money), ValidationError>(
                    ValidationError::Unbalanced { debits: d, credits: c },
                )
            },
            _ => r == Err::<(Money, Money), ValidationError>(ValidationError::AmountOutOfRange),
        }
    }
}

/// What is asked for when a transaction is posted.
#[derive(Debug)]
pub struct CreateTransactionRequest {
    pub description: String,
    pub reference: Option<String>,
    pub transaction_date: Date,
    pub journal_entries: Vec<CreateJournalEntryRequest>,
}

impl CreateTransactionRequest {
    /// Whether the request is accepted: see `judged`.
    pub open spec fn accepted(self) -> bool {
        exists|totals: (Money, Money)|
            judged(self.journal_entries@, Ok::<(Money, Money), ValidationError>(totals))
    }

    /// Judges the request and, where it is accepted, hands out the totals of
    /// its debits and of its credits.
    pub fn totals(&self) -> (r: Result<(Money, Money), ValidationError>)
        ensures
            judged(self.journal_entries@, r),
            r matches Ok((d, c)) ==> d@ == c@ && d@ == total_units(
                debit_column(self.journal_entries@),
            ) && c@ == total_units(credit_column(self.journal_entries@)),
    {
        let entries = &self.journal_entries;
        if entries.len() == 0 {
            return Err(ValidationError::EmptyTransaction);
        }
        let mut i: usize = 0;
        while i < entries.len()
            invariant
                i <= entries.len(),
                entries == &self.journal_entries,
                all_entries_valid(entries@.take(i as int)),
            decreases entries.len() - i,
        {
            match entries[i].validate() {
                Ok(()) => {},
                Err(e) => {
                    assert(is_first_invalid(entries@, i as int));
                    assert(!all_entries_valid(entries@));
                    return Err(
                        match e {
                            EntryError::ConflictingAmounts => ValidationError::ConflictingAmounts {
                                position: i + 1,
                            },
                            EntryError::MissingAmount => ValidationError::MissingAmount {
                                position: i + 1,
                            },
                        },
                    );
                },
            }
            proof {
                let longer = entries@.take(i + 1);
                assert forall|j: int| 0 <= j < longer.len() implies (
                #[trigger] longer[j]).spec_validate() is Ok by {
                    if j < i {
                        assert(longer[j] == entries@.take(i as int)[j]);
                    }
                }
            }
            i = i + 1;
        }
        assert(entries@.take(i as int) =~= entries@);
        let mut debits: Vec<Money> = Vec::new();
        let mut credits: Vec<Money> = Vec::new();
        let mut k: usize = 0;
        while k < entries.len()
            invariant
                k <= entries.len(),
                debits@.len() == k,
                credits@.len() == k,
                forall|j: int| 0 <= j < k ==> debits@[j] == entries@[j].debit_or_zero(),
                forall|j: int| 0 <= j < k ==> credits@[j] == entries@[j].credit_or_zero(),
            decreases entries.len() - k,
        {
            let debit = match entries[k].debit_amount {
                Some(d) => d,
                None => Money::zero(),
            };
            let credit = match entries[k].credit_amount {
                Some(c) => c,
                None => Money::zero(),
            };
            debits.push(debit);
            credits.push(credit);
            k = k + 1;
        }
        assert(debits@ =~= debit_column(entries@));
        assert(credits@ =~= credit_column(entries@));
        let d = match total(&debits) {
            Some(d) => d,
            None => {
                return Err(ValidationError::AmountOutOfRange);
            },
        };
        let c = match total(&credits) {
            Some(c) => c,
            None => {
                return Err(ValidationError::AmountOutOfRange);
            },
        };
        if d == c {
            Ok((d, c))
        } else {
            Err(ValidationError::Unbalanced { debits: d, credits: c })
        }
    }

    /// Validate that the transaction balances (total debits = total
    /// credits), after checking that it has entries and that each of them
    /// gives exactly one amount, greater than zero.
    pub fn validate(&self) -> (r: Result<(), ValidationError>)
        ensures
            r is Ok <==> self.accepted(),
            r matches Err(e) ==> judged(
                self.journal_entries@,
                Err::<(Money, Money), ValidationError>(e),
            ),
    {
        match self.totals() {
            Ok(totals) => Ok(()),
            Err(e) => {
                proof {
                    lemma_judged_once(
                        self.journal_entries@,
                        Err::<(Money, Money), ValidationError>(e),
                    );
                }
                Err(e)
            },
        }
    }

    /// What `total_amount` returns: half the sum of the amounts of all
    /// entries, whichever side they are on.
    pub open spec fn spec_total_amount(self) -> Option<Money> {
        match checked_total(amount_column(self.journal_entries@)) {
            Some(sum) => sum.quotient(Money::of(2, 0)),
            None => None,
        }
    }

    /// Get the total amount of the transaction: half of what its entries add
    /// up to, which for a balanced transaction is the sum of its debits.
    pub fn total_amount(&self) -> (r: Option<Money>)
        ensures
            r == self.spec_total_amount(),
            r matches Some(half) ==> 2 * half@ == total_units(
                amount_column(self.journal_entries@),
            ),
    {
        let entries = &self.journal_entries;
        let mut amounts: Vec<Money> = Vec::new();
        let mut k: usize = 0;
        while k < entries.len()
            invariant
                k <= entries.len(),
                amounts@.len() == k,
                forall|j: int| 0 <= j < k ==> amounts@[j] == entries@[j].either_amount(),
            decreases entries.len() - k,
        {
            let amount = match entries[k].debit_amount {
                Some(d) => d,
                None => match entries[k].credit_amount {
                    Some(c) => c,
                    None => Money::zero(),
                },
            };
            amounts.push(amount);
            k = k + 1;
        }
        assert(amounts@ =~= amount_column(entries@));
        let sum = match total(&amounts) {
            Some(sum) => sum,
            None => {
                return None;
            },
        };
        let two = Money::new(2, 0);
        let half = sum.checked_div(two);
        proof {
            if let Some(h) = half {
                let p = pow10(MAX_SCALE as nat);
                crate::money::lemma_pow10_positive(MAX_SCALE as nat);
                assert(two@ == 2 * p);
                assert(2 * h@ == sum@) by (nonlinear_arith)
                    requires
                        h@ * (2 * p) == sum@ * p,
                        p >= 1,
                ;
            }
        }
        half
    }
}

/// A list of entries is judged in one way only.
pub proof fn lemma_judged_once(entries: Seq<CreateJournalEntryRequest>, r: Result<
    (Money, Money),
    ValidationError,
>)
    requires
        judged(entries, r),
    ensures
        forall|other: Result<(Money, Money), ValidationError>| #[trigger]
            judged(entries, other) ==> other == r,
{
    assert forall|other: Result<(Money, Money), ValidationError>| #[trigger]
        judged(entries, other) implies other == r by {
        if entries.len() > 0 && !all_entries_valid(entries) {
            let i = choose|i: int| #[trigger]
                is_first_invalid(entries, i) && r == refusal_at(entries, i);
            let j = choose|j: int| #[trigger]
                is_first_invalid(entries, j) && other == refusal_at(entries, j);
            if i < j {
                assert(entries.take(j)[i] == entries[i]);
            } else if j < i {
                assert(entries.take(i)[j] == entries[j]);
            }
        }
    }
}

/// What may be changed on a transaction; a field left out stays as it is.
#[derive(Debug)]
pub struct UpdateTransactionRequest {
    pub description: Option<String>,
    pub reference: Option<String>,
    pub transaction_date: Option<Date>,
}

/// A journal entry together with the code and name of its account.
#[derive(Debug)]
pub struct JournalEntryWithAccount {
    pub id: i64,
    pub transaction_id: i64,
    pub account_id: i64,
    pub account_code: String,
    pub account_name: String,
    pub debit_amount: Money,
    pub credit_amount: Money,
    pub description: Option<String>,
    /// Seconds since the Unix epoch.
    pub created_at: i64,
}

/// A transaction with its journal entries and the totals of their debits and
/// credits.
#[derive(Debug)]
pub struct TransactionWithEntries {
    pub transaction: Transaction,
    pub journal_entries: Vec<JournalEntryWithAccount>,
    pub total_debits: Money,
    pub total_credits: Money,
}

impl TransactionWithEntries {
    /// Check if the transaction is balanced.
    pub fn is_balanced(&self) -> (r: bool)
        ensures
            r == (self.total_debits@ == self.total_credits@),
    {
        self.total_debits == self.total_credits
    }

    /// Get the net amount of the transaction: the greater of its two totals.
    pub fn net_amount(&self) -> (r: Money)
        ensures
            r == (if self.total_debits@ > self.total_credits@ {
                self.total_debits
            } else {
                self.total_credits
            }),
    {
        self.total_debits.max(self.total_credits)
    }
}

/// Figures over a set of transactions.
#[derive(Debug)]
pub struct TransactionSummary {
    pub total_transactions: i64,
    pub total_amount: Money,
    pub date_range: Option<(Date, Date)>,
}

/// Which transactions a listing shows.
#[derive(Debug)]
pub struct TransactionFilter {
    /// Only transactions dated on or after this day.
    pub start_date: Option<Date>,
    /// Only transactions dated on or before this day.
    pub end_date: Option<Date>,
    pub account_id: Option<i64>,
    /// Only transactions whose description contains this text, whatever the
    /// case of the letters.
    pub description_contains: Option<String>,
    pub min_amount: Option<Money>,
    pub max_amount: Option<Money>,
    /// The largest number of transactions to show.
    pub limit: Option<i64>,
    /// The number of matching transactions to pass over first.
    pub offset: Option<i64>,
}

impl Default for TransactionFilter {
    /// Every transaction matches; the first fifty are shown.
    fn default() -> (r: TransactionFilter)
        ensures
            r.start_date is None,
            r.end_date is None,
            r.account_id is None,
            r.description_contains is None,
            r.min_amount is None,
            r.max_amount is None,
            r.limit == Some(50i64),
            r.offset == Some(0i64),
    {
        TransactionFilter {
            start_date: None,
            end_date: None,
            account_id: None,
            description_contains: None,
            min_amount: None,
            max_amount: None,
            limit: Some(50),
            offset: Some(0),
        }
    }
}

} // verus!
