use bookkeeping::database::{Database, LedgerError};
use bookkeeping::date::Date;
use bookkeeping::models::{
    Account, AccountSummary, AccountType, CreateAccountRequest, CreateJournalEntryRequest,
    CreateTransactionRequest, EntryError, JournalEntry, JournalEntryWithAccount, Transaction,
    TransactionFilter, TrialBalance, TrialBalanceEntry, UpdateAccountRequest, ValidationError,
};
use bookkeeping::money::Money;

fn account(id: i64, code: &str, name: &str, account_type: AccountType, balance: Money) -> Account {
    Account {
        id,
        code: code.to_string(),
        name: name.to_string(),
        account_type,
        parent_id: None,
        balance,
        created_at: 0,
        updated_at: 0,
    }
}

fn leg(account_id: i64, debit: Option<Money>, credit: Option<Money>) -> CreateJournalEntryRequest {
    CreateJournalEntryRequest { account_id, debit_amount: debit, credit_amount: credit, description: None }
}

fn request(description: &str, legs: Vec<CreateJournalEntryRequest>) -> CreateTransactionRequest {
    CreateTransactionRequest {
        description: description.to_string(),
        reference: None,
        transaction_date: Date::from_ymd_opt(2024, 1, 1).unwrap(),
        journal_entries: legs,
    }
}

fn open(db: &mut Database, code: &str, name: &str, account_type: AccountType) -> Account {
    db.create_account(
        CreateAccountRequest {
            code: code.to_string(),
            name: name.to_string(),
            account_type,
            parent_id: None,
        },
        1_700_000_000,
    )
    .unwrap()
}

#[test]
fn test_account_creation() {
    let mut db = Database::new();

    let request = CreateAccountRequest {
        code: "9999".to_string(),
        name: "Test Account".to_string(),
        account_type: AccountType::Asset,
        parent_id: None,
    };

    let account = db.create_account(request, 1_700_000_000).unwrap();

    assert_eq!(account.code, "9999");
    assert_eq!(account.name, "Test Account");
    assert_eq!(account.account_type, AccountType::Asset);
    assert_eq!(account.balance, Money::zero());
}

#[test]
fn test_transaction_validation() {
    let request = CreateTransactionRequest {
        description: "Test transaction".to_string(),
        reference: None,
        transaction_date: Date::from_ymd_opt(2024, 1, 1).unwrap(),
        journal_entries: vec![
            CreateJournalEntryRequest {
                account_id: 1,
                debit_amount: Some(Money::new(10000, 2)),
                credit_amount: None,
                description: None,
            },
            CreateJournalEntryRequest {
                account_id: 2,
                debit_amount: None,
                credit_amount: Some(Money::new(10000, 2)),
                description: None,
            },
        ],
    };

    assert!(request.validate().is_ok());
}

#[test]
fn test_unbalanced_transaction_validation() {
    let request = CreateTransactionRequest {
        description: "Unbalanced transaction".to_string(),
        reference: None,
        transaction_date: Date::from_ymd_opt(2024, 1, 1).unwrap(),
        journal_entries: vec![
            CreateJournalEntryRequest {
                account_id: 1,
                debit_amount: Some(Money::new(10000, 2)),
                credit_amount: None,
                description: None,
            },
            CreateJournalEntryRequest {
                account_id: 2,
                debit_amount: None,
                credit_amount: Some(Money::new(5000, 2)),
                description: None,
            },
        ],
    };

    assert!(request.validate().is_err());
}

#[test]
fn test_account_normal_balance() {
    let asset_account = Account {
        id: 1,
        code: "1110".to_string(),
        name: "Cash".to_string(),
        account_type: AccountType::Asset,
        parent_id: None,
        balance: Money::new(10000, 2),
        created_at: 0,
        updated_at: 0,
    };

    assert!(asset_account.has_normal_balance());
    assert_eq!(asset_account.normal_balance(), Money::new(10000, 2));

    let liability_account = Account {
        id: 2,
        code: "2110".to_string(),
        name: "Accounts Payable".to_string(),
        account_type: AccountType::Liability,
        parent_id: None,
        balance: Money::new(-10000, 2),
        created_at: 0,
        updated_at: 0,
    };

    assert!(liability_account.has_normal_balance());
    assert_eq!(liability_account.normal_balance(), Money::new(10000, 2));
}

#[test]
fn test_account_summary() {
    let mut summary = AccountSummary::new();

    let cash_account = account(1, "1110", "Cash", AccountType::Asset, Money::new(50000, 2));
    let revenue_account =
        account(2, "4100", "Sales Revenue", AccountType::Revenue, Money::new(-50000, 2));

    summary.add_account(&cash_account).unwrap();
    summary.add_account(&revenue_account).unwrap();

    assert_eq!(summary.total_assets, Money::new(50000, 2));
    assert_eq!(summary.total_revenue, Money::new(50000, 2));
    assert_eq!(summary.net_income, Money::new(50000, 2));
}

#[test]
fn test_trial_balance() {
    let mut trial_balance = TrialBalance::new();

    let entry = TrialBalanceEntry {
        account_id: 1,
        account_code: "1110".to_string(),
        account_name: "Cash".to_string(),
        account_type: AccountType::Asset,
        debit_balance: Money::new(10000, 2),
        credit_balance: Money::zero(),
    };

    trial_balance.add_entry(entry).unwrap();

    assert_eq!(trial_balance.total_debits, Money::new(10000, 2));
    assert_eq!(trial_balance.total_credits, Money::zero());
    assert!(!trial_balance.is_balanced);
}

#[test]
fn cash_sale_is_posted_with_equal_totals() {
    let mut db = Database::new();
    let cash = open(&mut db, "1110", "Cash", AccountType::Asset);
    let sales = open(&mut db, "4100", "Sales Revenue", AccountType::Revenue);
    let posted = db
        .create_transaction(
            request(
                "Cash sale",
                vec![
                    leg(cash.id, Some(Money::new(10000, 2)), None),
                    leg(sales.id, None, Some(Money::new(10000, 2))),
                ],
            ),
            1_700_000_100,
        )
        .unwrap();
    assert_eq!(posted.total_debits, Money::new(10000, 2));
    assert_eq!(posted.total_credits, Money::new(10000, 2));
    assert!(posted.is_balanced());
    assert_eq!(posted.net_amount(), Money::new(10000, 2));
    assert_eq!(posted.transaction.id, 1);
    assert_eq!(posted.transaction.description, "Cash sale");
    assert_eq!(posted.journal_entries.len(), 2);
    assert_eq!(posted.journal_entries[0].id, 1);
    assert_eq!(posted.journal_entries[0].account_code, "1110");
    assert_eq!(posted.journal_entries[0].account_name, "Cash");
    assert_eq!(posted.journal_entries[0].debit_amount, Money::new(10000, 2));
    assert_eq!(posted.journal_entries[0].credit_amount, Money::zero());
    assert_eq!(posted.journal_entries[1].id, 2);
    assert_eq!(posted.journal_entries[1].account_code, "4100");
    assert_eq!(posted.journal_entries[1].credit_amount, Money::new(10000, 2));
}

#[test]
fn unbalanced_request_is_refused_and_nothing_is_stored() {
    let mut db = Database::new();
    let cash = open(&mut db, "1110", "Cash", AccountType::Asset);
    let sales = open(&mut db, "4100", "Sales Revenue", AccountType::Revenue);
    let refused = db.create_transaction(
        request(
            "Cash sale",
            vec![
                leg(cash.id, Some(Money::new(10000, 2)), None),
                leg(sales.id, None, Some(Money::new(5000, 2))),
            ],
        ),
        1_700_000_100,
    );
    match refused {
        Err(LedgerError::Validation(ValidationError::Unbalanced { debits, credits })) => {
            assert_eq!(debits, Money::new(10000, 2));
            assert_eq!(credits, Money::new(5000, 2));
        }
        other => panic!("expected an unbalanced refusal, got {:?}", other.map(|t| t.transaction.id)),
    }
    assert!(db.get_transaction(1).unwrap().is_none());
    assert!(db.list_transactions(TransactionFilter::default()).unwrap().is_empty());
    let report = db.get_trial_balance().unwrap();
    assert_eq!(report.total_debits, Money::zero());
    assert_eq!(report.total_credits, Money::zero());
}

#[test]
fn entry_with_both_amounts_is_conflicting() {
    let entry = leg(1, Some(Money::new(5000, 2)), Some(Money::new(5000, 2)));
    assert_eq!(entry.validate(), Err(EntryError::ConflictingAmounts));
    let whole = request("Both sides", vec![leg(1, Some(Money::new(5000, 2)), None), entry]);
    assert_eq!(whole.validate(), Err(ValidationError::ConflictingAmounts { position: 2 }));
}

#[test]
fn entry_without_a_positive_amount_is_missing_one() {
    assert_eq!(leg(1, None, None).validate(), Err(EntryError::MissingAmount));
    assert_eq!(leg(1, Some(Money::zero()), None).validate(), Err(EntryError::MissingAmount));
    assert_eq!(leg(1, Some(Money::new(-1, 2)), None).validate(), Err(EntryError::MissingAmount));
    assert_eq!(leg(1, None, Some(Money::new(-1, 2))).validate(), Err(EntryError::MissingAmount));
    assert_eq!(leg(1, None, Some(Money::new(1, 2))).validate(), Ok(()));
    let whole = request("No amount", vec![leg(1, None, None)]);
    assert_eq!(whole.validate(), Err(ValidationError::MissingAmount { position: 1 }));
}

#[test]
fn empty_request_is_refused() {
    assert_eq!(request("Nothing", vec![]).validate(), Err(ValidationError::EmptyTransaction));
}

#[test]
fn trial_balance_after_cash_sale() {
    let mut db = Database::new();
    let cash = open(&mut db, "1110", "Cash", AccountType::Asset);
    let sales = open(&mut db, "4100", "Sales Revenue", AccountType::Revenue);
    db.create_transaction(
        request(
            "Cash sale",
            vec![
                leg(cash.id, Some(Money::new(10000, 2)), None),
                leg(sales.id, None, Some(Money::new(10000, 2))),
            ],
        ),
        1_700_000_100,
    )
    .unwrap();
    let report = db.get_trial_balance().unwrap();
    assert_eq!(report.entries.len(), 2);
    assert_eq!(report.entries[0].account_code, "1110");
    assert_eq!(report.entries[0].debit_balance, Money::new(10000, 2));
    assert_eq!(report.entries[0].credit_balance, Money::zero());
    assert_eq!(report.entries[1].account_code, "4100");
    assert_eq!(report.entries[1].debit_balance, Money::zero());
    assert_eq!(report.entries[1].credit_balance, Money::new(10000, 2));
    assert_eq!(report.total_debits, Money::new(10000, 2));
    assert_eq!(report.total_credits, Money::new(10000, 2));
    assert!(report.is_balanced);
}

#[test]
fn trial_balance_orders_by_type_then_code() {
    let mut db = Database::new();
    open(&mut db, "5100", "Rent", AccountType::Expense);
    open(&mut db, "1200", "Receivables", AccountType::Asset);
    open(&mut db, "4100", "Sales", AccountType::Revenue);
    open(&mut db, "1110", "Cash", AccountType::Asset);
    open(&mut db, "3000", "Capital", AccountType::Equity);
    open(&mut db, "2110", "Payables", AccountType::Liability);
    let report = db.get_trial_balance().unwrap();
    let codes: Vec<&str> = report.entries.iter().map(|e| e.account_code.as_str()).collect();
    assert_eq!(codes, vec!["1110", "1200", "2110", "3000", "4100", "5100"]);
    assert!(report.is_balanced);
}

#[test]
fn trial_balance_nets_each_account() {
    let mut db = Database::new();
    let cash = open(&mut db, "1110", "Cash", AccountType::Asset);
    let sales = open(&mut db, "4100", "Sales", AccountType::Revenue);
    let rent = open(&mut db, "5100", "Rent", AccountType::Expense);
    db.create_transaction(
        request(
            "Sale",
            vec![
                leg(cash.id, Some(Money::new(10000, 2)), None),
                leg(sales.id, None, Some(Money::new(10000, 2))),
            ],
        ),
        1,
    )
    .unwrap();
    db.create_transaction(
        request(
            "Rent",
            vec![
                leg(rent.id, Some(Money::new(3050, 2)), None),
                leg(cash.id, None, Some(Money::new(3050, 2))),
            ],
        ),
        2,
    )
    .unwrap();
    let report = db.get_trial_balance().unwrap();
    assert_eq!(report.entries[0].account_code, "1110");
    assert_eq!(report.entries[0].debit_balance, Money::new(6950, 2));
    assert_eq!(report.entries[1].credit_balance, Money::new(10000, 2));
    assert_eq!(report.entries[2].debit_balance, Money::new(3050, 2));
    assert_eq!(report.total_debits, Money::new(10000, 2));
    assert_eq!(report.total_credits, Money::new(10000, 2));
    assert!(report.is_balanced);
}

#[test]
fn deleting_an_account_with_entries_opens_the_trial_balance() {
    let mut db = Database::new();
    let cash = open(&mut db, "1110", "Cash", AccountType::Asset);
    let sales = open(&mut db, "4100", "Sales", AccountType::Revenue);
    db.create_transaction(
        request(
            "Sale",
            vec![
                leg(cash.id, Some(Money::new(10000, 2)), None),
                leg(sales.id, None, Some(Money::new(10000, 2))),
            ],
        ),
        1,
    )
    .unwrap();
    assert!(db.delete_account(sales.id));
    assert!(!db.delete_account(sales.id));
    let report = db.get_trial_balance().unwrap();
    assert_eq!(report.total_debits, Money::new(10000, 2));
    assert_eq!(report.total_credits, Money::zero());
    assert!(!report.is_balanced);
    let view = db.get_transaction(1).unwrap().unwrap();
    assert_eq!(view.journal_entries.len(), 1);
    assert!(!view.is_balanced());
}

#[test]
fn unknown_account_is_refused_by_the_books() {
    let mut db = Database::new();
    let cash = open(&mut db, "1110", "Cash", AccountType::Asset);
    let refused = db.create_transaction(
        request(
            "Sale",
            vec![
                leg(cash.id, Some(Money::new(10000, 2)), None),
                leg(77, None, Some(Money::new(10000, 2))),
            ],
        ),
        1,
    );
    assert!(matches!(refused, Err(LedgerError::UnknownAccount { account_id: 77 })));
    assert!(db.get_transaction(1).unwrap().is_none());
}

#[test]
fn reading_a_transaction_twice_gives_the_same() {
    let mut db = Database::new();
    let cash = open(&mut db, "1110", "Cash", AccountType::Asset);
    let sales = open(&mut db, "4100", "Sales", AccountType::Revenue);
    let posted = db
        .create_transaction(
            request(
                "Sale",
                vec![
                    leg(cash.id, Some(Money::new(2500, 2)), None),
                    leg(cash.id, Some(Money::new(7500, 2)), None),
                    leg(sales.id, None, Some(Money::new(10000, 2))),
                ],
            ),
            1,
        )
        .unwrap();
    let first = db.get_transaction(posted.transaction.id).unwrap().unwrap();
    let second = db.get_transaction(posted.transaction.id).unwrap().unwrap();
    assert_eq!(first.total_debits, second.total_debits);
    assert_eq!(first.total_credits, second.total_credits);
    assert_eq!(first.total_debits, posted.total_debits);
    let ids = |entries: &Vec<JournalEntryWithAccount>| -> Vec<i64> {
        entries.iter().map(|e| e.id).collect()
    };
    assert_eq!(ids(&first.journal_entries), vec![1, 2, 3]);
    assert_eq!(ids(&first.journal_entries), ids(&second.journal_entries));
}

#[test]
fn account_codes_are_unique_and_parents_must_exist() {
    let mut db = Database::new();
    let cash = open(&mut db, "1110", "Cash", AccountType::Asset);
    let again = db.create_account(
        CreateAccountRequest {
            code: "1110".to_string(),
            name: "Cash again".to_string(),
            account_type: AccountType::Asset,
            parent_id: None,
        },
        5,
    );
    assert_eq!(again.err(), Some(LedgerError::DuplicateCode));
    let orphan = db.create_account(
        CreateAccountRequest {
            code: "1120".to_string(),
            name: "Petty cash".to_string(),
            account_type: AccountType::Asset,
            parent_id: Some(42),
        },
        5,
    );
    assert_eq!(orphan.err(), Some(LedgerError::InvalidParent));
    let child = db
        .create_account(
            CreateAccountRequest {
                code: "1120".to_string(),
                name: "Petty cash".to_string(),
                account_type: AccountType::Asset,
                parent_id: Some(cash.id),
            },
            5,
        )
        .unwrap();
    assert_eq!(child.id, 2);
    assert_eq!(child.parent_id, Some(1));
    assert_eq!(db.get_account_by_code("1120").unwrap().id, 2);
    assert!(db.get_account_by_code("1130").is_none());
    assert!(db.get_account(3).is_none());
}

#[test]
fn account_update_changes_name_and_parent() {
    let mut db = Database::new();
    let cash = open(&mut db, "1110", "Cash", AccountType::Asset);
    let bank = open(&mut db, "1120", "Bank", AccountType::Asset);
    let renamed = db
        .update_account(
            bank.id,
            UpdateAccountRequest { name: Some("Bank account".to_string()), parent_id: Some(cash.id) },
            99,
        )
        .unwrap()
        .unwrap();
    assert_eq!(renamed.name, "Bank account");
    assert_eq!(renamed.parent_id, Some(cash.id));
    assert_eq!(renamed.updated_at, 99);
    assert_eq!(renamed.created_at, bank.created_at);
    assert_eq!(db.get_account(bank.id).unwrap().name, "Bank account");
    let own = db.update_account(bank.id, UpdateAccountRequest { name: None, parent_id: Some(bank.id) }, 100);
    assert_eq!(own.err(), Some(LedgerError::SelfParent));
    let missing = db.update_account(bank.id, UpdateAccountRequest { name: None, parent_id: Some(9) }, 100);
    assert_eq!(missing.err(), Some(LedgerError::InvalidParent));
    let absent = db.update_account(9, UpdateAccountRequest { name: None, parent_id: None }, 100);
    assert!(absent.unwrap().is_none());
}

#[test]
fn accounts_are_listed_by_code() {
    let mut db = Database::new();
    open(&mut db, "4100", "Sales", AccountType::Revenue);
    open(&mut db, "1110", "Cash", AccountType::Asset);
    open(&mut db, "111", "Short", AccountType::Asset);
    open(&mut db, "2110", "Payables", AccountType::Liability);
    let codes: Vec<String> = db.list_accounts().into_iter().map(|a| a.code).collect();
    assert_eq!(codes, vec!["111", "1110", "2110", "4100"]);
}

fn dated(description: &str, year: i32, month: u32, day: u32, cash: i64, sales: i64) -> CreateTransactionRequest {
    CreateTransactionRequest {
        description: description.to_string(),
        reference: None,
        transaction_date: Date::from_ymd_opt(year, month, day).unwrap(),
        journal_entries: vec![
            leg(cash, Some(Money::new(100, 2)), None),
            leg(sales, None, Some(Money::new(100, 2))),
        ],
    }
}

fn listing(db: &Database, filter: TransactionFilter) -> Vec<String> {
    db.list_transactions(filter).unwrap().into_iter().map(|t| t.transaction.description).collect()
}

#[test]
fn transactions_are_listed_newest_first_and_filtered() {
    let mut db = Database::new();
    let cash = open(&mut db, "1110", "Cash", AccountType::Asset).id;
    let sales = open(&mut db, "4100", "Sales", AccountType::Revenue).id;
    db.create_transaction(dated("January sale", 2024, 1, 15, cash, sales), 1).unwrap();
    db.create_transaction(dated("March SALE", 2024, 3, 1, cash, sales), 2).unwrap();
    db.create_transaction(dated("February refund", 2024, 2, 10, cash, sales), 3).unwrap();
    db.create_transaction(dated("March second", 2024, 3, 1, cash, sales), 4).unwrap();

    assert_eq!(
        listing(&db, TransactionFilter::default()),
        vec!["March second", "March SALE", "February refund", "January sale"]
    );
    let mut filter = TransactionFilter::default();
    filter.start_date = Date::from_ymd_opt(2024, 2, 10);
    filter.end_date = Date::from_ymd_opt(2024, 3, 1);
    assert_eq!(listing(&db, filter), vec!["March second", "March SALE", "February refund"]);
    let mut filter = TransactionFilter::default();
    filter.description_contains = Some("sAlE".to_string());
    assert_eq!(listing(&db, filter), vec!["March SALE", "January sale"]);
    let mut filter = TransactionFilter::default();
    filter.limit = Some(2);
    filter.offset = Some(1);
    assert_eq!(listing(&db, filter), vec!["March SALE", "February refund"]);
    let mut filter = TransactionFilter::default();
    filter.limit = Some(0);
    assert!(listing(&db, filter).is_empty());
    let mut filter = TransactionFilter::default();
    filter.limit = None;
    filter.offset = Some(10);
    assert!(listing(&db, filter).is_empty());
    let mut filter = TransactionFilter::default();
    filter.limit = Some(-1);
    filter.offset = Some(-5);
    assert_eq!(listing(&db, filter).len(), 4);
}

#[test]
fn default_filter_shows_the_first_fifty() {
    let filter = TransactionFilter::default();
    assert_eq!(filter.limit, Some(50));
    assert_eq!(filter.offset, Some(0));
    assert!(filter.start_date.is_none() && filter.end_date.is_none());
    assert!(filter.description_contains.is_none());
}

#[test]
fn total_amount_is_half_of_all_amounts() {
    let whole = request(
        "Sale",
        vec![
            leg(1, Some(Money::new(10000, 2)), None),
            leg(2, None, Some(Money::new(2500, 2))),
            leg(3, None, Some(Money::new(7500, 2))),
        ],
    );
    assert_eq!(whole.total_amount(), Some(Money::new(10000, 2)));
    let odd = request("Cent", vec![leg(1, Some(Money::new(1, 2)), None)]);
    assert_eq!(odd.total_amount(), Some(Money::new(5, 3)));
}

#[test]
fn refusals_say_why() {
    assert_eq!(
        ValidationError::EmptyTransaction.message(),
        "Transaction must have at least one journal entry"
    );
    assert_eq!(
        ValidationError::ConflictingAmounts { position: 12 }.message(),
        "Journal entry 12: Journal entry cannot have both debit and credit amounts"
    );
    assert_eq!(
        ValidationError::MissingAmount { position: 1 }.message(),
        "Journal entry 1: Journal entry must have a positive debit or credit amount"
    );
    assert_eq!(
        ValidationError::Unbalanced { debits: Money::new(10000, 2), credits: Money::new(5000, 2) }
            .message(),
        "Transaction does not balance: debits (100.00) != credits (50.00)"
    );
    assert_eq!(
        LedgerError::UnknownAccount { account_id: -7 }.message(),
        "Account with ID -7 does not exist"
    );
    assert_eq!(LedgerError::DuplicateCode.message(), "Account code already exists");
}

#[test]
fn stored_records_are_taken_back_only_if_they_fit() {
    let mut db = Database::new();
    db.restore_account(account(3, "1110", "Cash", AccountType::Asset, Money::new(500, 2))).unwrap();
    db.restore_account(account(7, "4100", "Sales", AccountType::Revenue, Money::zero())).unwrap();
    assert_eq!(
        db.restore_account(account(5, "9999", "Late", AccountType::Asset, Money::zero())),
        Err(LedgerError::InconsistentRecord)
    );
    assert_eq!(
        db.restore_account(account(8, "1110", "Twice", AccountType::Asset, Money::zero())),
        Err(LedgerError::InconsistentRecord)
    );
    let head = |id: i64| Transaction {
        id,
        description: "Sale".to_string(),
        reference: None,
        transaction_date: Date::from_ymd_opt(2024, 1, 1).unwrap(),
        created_at: 1,
        updated_at: 1,
    };
    let row = |id: i64, transaction_id: i64, account_id: i64, debit: i64, credit: i64| JournalEntry {
        id,
        transaction_id,
        account_id,
        debit_amount: Money::new(debit, 2),
        credit_amount: Money::new(credit, 2),
        description: None,
        created_at: 1,
    };
    db.restore_transaction(head(4), vec![row(10, 4, 3, 100, 0), row(11, 4, 7, 0, 100)]).unwrap();
    assert_eq!(
        db.restore_transaction(head(5), vec![row(12, 5, 3, 100, 0), row(13, 5, 7, 0, 99)]),
        Err(LedgerError::InconsistentRecord)
    );
    assert_eq!(
        db.restore_transaction(head(5), vec![row(11, 5, 3, 100, 0), row(12, 5, 7, 0, 100)]),
        Err(LedgerError::InconsistentRecord)
    );
    assert_eq!(
        db.restore_transaction(head(5), vec![row(12, 4, 3, 100, 0), row(13, 5, 7, 0, 100)]),
        Err(LedgerError::InconsistentRecord)
    );
    assert_eq!(
        db.restore_transaction(head(5), vec![row(12, 5, 3, 100, 100)]),
        Err(LedgerError::InconsistentRecord)
    );
    let view = db.get_transaction(4).unwrap().unwrap();
    assert_eq!(view.total_debits, Money::new(100, 2));
    assert!(db.get_transaction(5).unwrap().is_none());
    let next = open(&mut db, "5100", "Rent", AccountType::Expense);
    assert_eq!(next.id, 8);
    let posted = db
        .create_transaction(
            request("Next", vec![leg(3, Some(Money::new(1, 0)), None), leg(7, None, Some(Money::new(1, 0)))]),
            2,
        )
        .unwrap();
    assert_eq!(posted.transaction.id, 5);
    assert_eq!(posted.journal_entries[0].id, 12);
}

fn top() -> Money {
    Money::from_parts(79228162514264337593543950335, 0).unwrap()
}

#[test]
fn totals_that_cannot_be_formed_are_refused() {
    let whole = request(
        "Too much",
        vec![leg(1, Some(top()), None), leg(1, Some(top()), None), leg(2, None, Some(top()))],
    );
    assert_eq!(whole.validate(), Err(ValidationError::AmountOutOfRange));
    assert_eq!(whole.total_amount(), None);
    assert_eq!(
        ValidationError::AmountOutOfRange.message(),
        "Transaction amounts cannot be added up exactly"
    );
}

#[test]
fn a_trial_balance_that_cannot_be_formed_is_refused() {
    let mut db = Database::new();
    let cash = open(&mut db, "1110", "Cash", AccountType::Asset);
    let sales = open(&mut db, "4100", "Sales", AccountType::Revenue);
    for now in 1..=2 {
        db.create_transaction(
            request("Huge", vec![leg(cash.id, Some(top()), None), leg(sales.id, None, Some(top()))]),
            now,
        )
        .unwrap();
    }
    assert_eq!(db.get_trial_balance().err(), Some(LedgerError::AmountOutOfRange));
    assert_eq!(db.get_transaction(2).unwrap().unwrap().total_debits, top());
    assert_eq!(LedgerError::AmountOutOfRange.message(), "Amounts cannot be added up exactly");
}

#[test]
fn the_books_can_run_out_of_ids() {
    let mut db = Database::new();
    db.restore_account(account(i64::MAX - 1, "1110", "Cash", AccountType::Asset, Money::zero()))
        .unwrap();
    let refused = db.create_account(
        CreateAccountRequest {
            code: "1120".to_string(),
            name: "Bank".to_string(),
            account_type: AccountType::Asset,
            parent_id: None,
        },
        1,
    );
    assert_eq!(refused.err(), Some(LedgerError::IdsExhausted));
    assert_eq!(
        db.restore_account(account(i64::MAX, "1130", "Last", AccountType::Asset, Money::zero())),
        Err(LedgerError::InconsistentRecord)
    );
    assert_eq!(LedgerError::IdsExhausted.message(), "No identifiers are left");
    assert_eq!(LedgerError::InconsistentRecord.message(), "Record does not fit the books");
    assert_eq!(LedgerError::InvalidParent.message(), "Parent account does not exist");
    assert_eq!(LedgerError::SelfParent.message(), "Account cannot be its own parent");
    assert_eq!(
        LedgerError::Validation(ValidationError::EmptyTransaction).message(),
        "Transaction must have at least one journal entry"
    );
}

#[test]
fn amounts_of_mixed_scale_balance_by_value() {
    let mut db = Database::new();
    let cash = open(&mut db, "1110", "Cash", AccountType::Asset);
    let sales = open(&mut db, "4100", "Sales", AccountType::Revenue);
    let posted = db
        .create_transaction(
            request(
                "Mixed",
                vec![
                    leg(cash.id, Some(Money::new(1, 1)), None),
                    leg(cash.id, Some(Money::new(1, 2)), None),
                    leg(sales.id, None, Some(Money::new(110, 3))),
                ],
            ),
            1,
        )
        .unwrap();
    assert_eq!(posted.total_debits, posted.total_credits);
    assert_eq!(posted.total_debits.to_text(), "0.11");
    assert_eq!(posted.total_credits.to_text(), "0.110");
    let report = db.get_trial_balance().unwrap();
    assert!(report.is_balanced);
}

#[test]
fn what_was_posted_is_read_back() {
    let mut db = Database::new();
    let cash = open(&mut db, "1110", "Cash", AccountType::Asset);
    let sales = open(&mut db, "4100", "Sales", AccountType::Revenue);
    let posted = db
        .create_transaction(
            request(
                "Sale",
                vec![
                    leg(cash.id, Some(Money::new(1999, 2)), None),
                    leg(sales.id, None, Some(Money::new(1999, 2))),
                ],
            ),
            7,
        )
        .unwrap();
    let read = db.get_transaction(posted.transaction.id).unwrap().unwrap();
    assert_eq!(read.transaction.id, posted.transaction.id);
    assert_eq!(read.transaction.description, posted.transaction.description);
    assert_eq!(read.transaction.created_at, 7);
    assert_eq!(read.total_debits, posted.total_debits);
    assert_eq!(read.total_credits, posted.total_credits);
    assert_eq!(read.journal_entries.len(), posted.journal_entries.len());
    for (a, b) in read.journal_entries.iter().zip(posted.journal_entries.iter()) {
        assert_eq!((a.id, a.account_id, &a.account_code), (b.id, b.account_id, &b.account_code));
        assert_eq!((a.debit_amount, a.credit_amount), (b.debit_amount, b.credit_amount));
    }
}
