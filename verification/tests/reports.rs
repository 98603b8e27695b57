use bookkeeping::database::Database;
use bookkeeping::date::Date;
use bookkeeping::handlers::accounts::{
    create_account, delete_account, get_account, list_accounts, update_account,
    ListAccountsQuery,
};
use bookkeeping::handlers::reports::{
    account_summary, balance_sheet, income_statement, trial_balance, BalanceSheet,
    IncomeStatement,
};
use bookkeeping::handlers::transactions::{
    create_transaction, delete_transaction, get_transaction, list_transactions,
    update_transaction, validate_transaction, ListTransactionsQuery,
};
use bookkeeping::handlers::{not_found_error, validation_error, ApiError};
use bookkeeping::models::journal_entry::CreateJournalEntryRequest as StandaloneEntryRequest;
use bookkeeping::models::{
    Account, AccountStatement, AccountSummary, AccountType, CreateAccountRequest,
    CreateJournalEntryRequest, CreateTransactionRequest, EntryError, JournalEntry,
    JournalEntryWithDetails, TransactionFilter, TrialBalance, TrialBalanceEntry,
    UpdateAccountRequest, UpdateTransactionRequest,
};
use bookkeeping::money::Money;
use bookkeeping::LedgerError;

fn account(id: i64, code: &str, account_type: AccountType, balance: Money) -> Account {
    Account {
        id,
        code: code.to_string(),
        name: format!("Account {}", code),
        account_type,
        parent_id: None,
        balance,
        created_at: 0,
        updated_at: 0,
    }
}

fn new_account(code: &str, name: &str, account_type: AccountType) -> CreateAccountRequest {
    CreateAccountRequest {
        code: code.to_string(),
        name: name.to_string(),
        account_type,
        parent_id: None,
    }
}

fn leg(account_id: i64, debit: Option<Money>, credit: Option<Money>) -> CreateJournalEntryRequest {
    CreateJournalEntryRequest { account_id, debit_amount: debit, credit_amount: credit, description: None }
}

fn sale(cash: i64, sales: i64, debit: i64, credit: i64) -> CreateTransactionRequest {
    CreateTransactionRequest {
        description: "Cash sale".to_string(),
        reference: Some("INV-1".to_string()),
        transaction_date: Date::from_ymd_opt(2024, 1, 1).unwrap(),
        journal_entries: vec![
            leg(cash, Some(Money::new(debit, 2)), None),
            leg(sales, None, Some(Money::new(credit, 2))),
        ],
    }
}

fn refusal<T>(result: Result<T, ApiError>) -> (u16, String) {
    match result {
        Ok(_) => panic!("expected a refusal"),
        Err(e) => (e.status, e.message),
    }
}

fn books() -> Database {
    let mut db = Database::new();
    create_account(&mut db, new_account("1110", "Cash", AccountType::Asset), 1).ok().unwrap();
    create_account(&mut db, new_account("4100", "Sales Revenue", AccountType::Revenue), 1)
        .ok()
        .unwrap();
    db
}

#[test]
fn summary_adds_magnitudes_by_type() {
    let mut summary = AccountSummary::new();
    summary.add_account(&account(1, "1110", AccountType::Asset, Money::new(70000, 2))).unwrap();
    summary.add_account(&account(2, "2110", AccountType::Liability, Money::new(-20000, 2))).unwrap();
    summary.add_account(&account(3, "3000", AccountType::Equity, Money::new(-10000, 2))).unwrap();
    summary.add_account(&account(4, "4100", AccountType::Revenue, Money::new(-60000, 2))).unwrap();
    summary.add_account(&account(5, "5100", AccountType::Expense, Money::new(20000, 2))).unwrap();
    assert_eq!(summary.total_assets, Money::new(70000, 2));
    assert_eq!(summary.total_liabilities, Money::new(20000, 2));
    assert_eq!(summary.total_equity, Money::new(10000, 2));
    assert_eq!(summary.total_revenue, Money::new(60000, 2));
    assert_eq!(summary.total_expenses, Money::new(20000, 2));
    assert_eq!(summary.net_income, Money::new(40000, 2));
    assert_eq!(summary.is_balanced(), Ok(true));
    summary.add_account(&account(6, "5200", AccountType::Expense, Money::new(1, 2))).unwrap();
    assert_eq!(summary.is_balanced(), Ok(false));
}

#[test]
fn summary_takes_magnitude_against_polarity() {
    let mut summary = AccountSummary::new();
    summary.add_account(&account(1, "1110", AccountType::Asset, Money::new(-500, 2))).unwrap();
    assert_eq!(summary.total_assets, Money::new(500, 2));
    let top = Money::from_parts(79228162514264337593543950335, 0).unwrap();
    summary.add_account(&account(2, "1120", AccountType::Asset, top)).unwrap_err();
    assert_eq!(summary.total_assets, Money::new(500, 2));
}

#[test]
fn polarity_of_the_account_types() {
    assert!(AccountType::Asset.is_debit_normal() && !AccountType::Asset.is_credit_normal());
    assert!(AccountType::Expense.is_debit_normal() && !AccountType::Expense.is_credit_normal());
    assert!(AccountType::Liability.is_credit_normal() && !AccountType::Liability.is_debit_normal());
    assert!(AccountType::Equity.is_credit_normal() && !AccountType::Equity.is_debit_normal());
    assert!(AccountType::Revenue.is_credit_normal() && !AccountType::Revenue.is_debit_normal());
    assert_eq!(AccountType::Asset.rank(), 1);
    assert_eq!(AccountType::Expense.rank(), 5);
    let overdrawn = account(1, "1110", AccountType::Asset, Money::new(-1, 2));
    assert!(!overdrawn.has_normal_balance());
    assert_eq!(overdrawn.normal_balance(), Money::new(-1, 2));
    let prepaid = account(2, "2110", AccountType::Liability, Money::new(1, 2));
    assert!(!prepaid.has_normal_balance());
    assert_eq!(prepaid.normal_balance(), Money::new(-1, 2));
    assert!(account(3, "3000", AccountType::Equity, Money::zero()).has_normal_balance());
}

#[test]
fn balance_sheet_sections_and_balance() {
    let mut sheet = BalanceSheet::new();
    assert!(sheet.is_balanced);
    sheet.add_account(&account(1, "1110", AccountType::Asset, Money::new(30000, 2))).unwrap();
    assert!(!sheet.is_balanced);
    sheet.add_account(&account(2, "2110", AccountType::Liability, Money::new(-10000, 2))).unwrap();
    sheet.add_account(&account(3, "3000", AccountType::Equity, Money::new(-20000, 2))).unwrap();
    sheet.add_account(&account(4, "4100", AccountType::Revenue, Money::new(-999, 2))).unwrap();
    assert_eq!(sheet.assets.accounts.len(), 1);
    assert_eq!(sheet.assets.accounts[0].code, "1110");
    assert_eq!(sheet.assets.accounts[0].balance, Money::new(30000, 2));
    assert_eq!(sheet.liabilities.total, Money::new(10000, 2));
    assert_eq!(sheet.equity.total, Money::new(20000, 2));
    assert_eq!(sheet.total_assets, Money::new(30000, 2));
    assert_eq!(sheet.total_liabilities_and_equity, Money::new(30000, 2));
    assert!(sheet.is_balanced);
}

#[test]
fn income_statement_nets_revenue_and_expenses() {
    let mut statement = IncomeStatement::new();
    statement.add_account(&account(4, "4100", AccountType::Revenue, Money::new(-60000, 2))).unwrap();
    statement.add_account(&account(5, "5100", AccountType::Expense, Money::new(25000, 2))).unwrap();
    statement.add_account(&account(1, "1110", AccountType::Asset, Money::new(1, 2))).unwrap();
    assert_eq!(statement.revenue.accounts.len(), 1);
    assert_eq!(statement.expenses.accounts[0].amount, Money::new(25000, 2));
    assert_eq!(statement.gross_profit, Money::new(60000, 2));
    assert_eq!(statement.net_income, Money::new(35000, 2));
}

#[test]
fn reports_of_the_books() {
    let mut db = Database::new();
    db.restore_account(account(1, "2110", AccountType::Liability, Money::new(-10000, 2))).unwrap();
    db.restore_account(account(2, "1110", AccountType::Asset, Money::new(30000, 2))).unwrap();
    db.restore_account(account(3, "4100", AccountType::Revenue, Money::new(-50000, 2))).unwrap();
    db.restore_account(account(4, "3000", AccountType::Equity, Money::new(-20000, 2))).unwrap();
    db.restore_account(account(5, "5100", AccountType::Expense, Money::new(12000, 2))).unwrap();
    let summary = account_summary(&db).ok().unwrap();
    assert_eq!(summary.total_assets, Money::new(30000, 2));
    assert_eq!(summary.net_income, Money::new(38000, 2));
    assert_eq!(db.get_account_summary().unwrap().total_revenue, Money::new(50000, 2));
    let sheet = balance_sheet(&db).ok().unwrap();
    assert_eq!(sheet.total_assets, Money::new(30000, 2));
    assert_eq!(sheet.total_liabilities_and_equity, Money::new(30000, 2));
    assert!(sheet.is_balanced);
    let statement = income_statement(&db).ok().unwrap();
    assert_eq!(statement.gross_profit, Money::new(50000, 2));
    assert_eq!(statement.net_income, Money::new(38000, 2));
    assert_eq!(statement.revenue.accounts[0].code, "4100");
    let report = trial_balance(&db).ok().unwrap();
    assert_eq!(report.entries.len(), 5);
    assert_eq!(report.entries[0].account_code, "1110");
    assert!(report.is_balanced);
}

#[test]
fn trial_balance_sorts_are_stable() {
    let line = |id: i64, code: &str, account_type: AccountType| TrialBalanceEntry {
        account_id: id,
        account_code: code.to_string(),
        account_name: String::new(),
        account_type,
        debit_balance: Money::zero(),
        credit_balance: Money::zero(),
    };
    let mut report = TrialBalance::new();
    report.add_entry(line(1, "20", AccountType::Expense)).unwrap();
    report.add_entry(line(2, "10", AccountType::Revenue)).unwrap();
    report.add_entry(line(3, "20", AccountType::Asset)).unwrap();
    report.add_entry(line(4, "é", AccountType::Asset)).unwrap();
    report.add_entry(line(5, "1", AccountType::Asset)).unwrap();
    report.add_entry(line(6, "20", AccountType::Asset)).unwrap();
    report.sort_by_code();
    let ids: Vec<i64> = report.entries.iter().map(|e| e.account_id).collect();
    assert_eq!(ids, vec![5, 2, 1, 3, 6, 4]);
    report.sort_by_type_and_code();
    let ids: Vec<i64> = report.entries.iter().map(|e| e.account_id).collect();
    assert_eq!(ids, vec![5, 3, 6, 4, 2, 1]);
    assert!(report.is_balanced);
}

#[test]
fn trial_balance_totals_follow_the_columns() {
    let line = |debit: i64, credit: i64| TrialBalanceEntry {
        account_id: 1,
        account_code: "1".to_string(),
        account_name: String::new(),
        account_type: AccountType::Asset,
        debit_balance: Money::new(debit, 2),
        credit_balance: Money::new(credit, 2),
    };
    let mut report = TrialBalance::new();
    report.add_entry(line(100, 0)).unwrap();
    assert!(!report.is_balanced);
    report.add_entry(line(0, 100)).unwrap();
    assert!(report.is_balanced);
    assert_eq!(report.total_debits, Money::new(100, 2));
    let top = Money::from_parts(79228162514264337593543950335, 0).unwrap();
    let too_much = TrialBalanceEntry {
        account_id: 2,
        account_code: "2".to_string(),
        account_name: String::new(),
        account_type: AccountType::Asset,
        debit_balance: top,
        credit_balance: Money::zero(),
    };
    report.add_entry(too_much).unwrap_err();
    assert_eq!(report.entries.len(), 2);
    assert_eq!(report.total_debits, Money::new(100, 2));
}

#[test]
fn account_statement_runs_the_balance() {
    let detail = |id: i64, day: u32, debit: i64, credit: i64| JournalEntryWithDetails {
        id,
        transaction_id: id,
        transaction_description: String::new(),
        transaction_date: Date::from_ymd_opt(2024, 1, day).unwrap(),
        account_id: 1,
        account_code: "1110".to_string(),
        account_name: "Cash".to_string(),
        debit_amount: Money::new(debit, 2),
        credit_amount: Money::new(credit, 2),
        description: None,
        created_at: 0,
    };
    let mut statement = AccountStatement::new(
        1,
        "1110".to_string(),
        "Cash".to_string(),
        AccountType::Asset,
        Money::new(5000, 2),
    );
    assert_eq!(statement.closing_balance, Money::new(5000, 2));
    statement.add_entry(detail(1, 20, 10000, 0)).unwrap();
    statement.add_entry(detail(2, 5, 0, 2500)).unwrap();
    statement.add_entry(detail(3, 20, 100, 0)).unwrap();
    assert_eq!(statement.total_debits, Money::new(10100, 2));
    assert_eq!(statement.total_credits, Money::new(2500, 2));
    assert_eq!(statement.closing_balance, Money::new(12600, 2));
    assert_eq!(statement.opening_balance, Money::new(5000, 2));
    statement.sort_by_date();
    let ids: Vec<i64> = statement.entries.iter().map(|e| e.id).collect();
    assert_eq!(ids, vec![2, 1, 3]);
}

#[test]
fn journal_entry_sides() {
    let debit = JournalEntry {
        id: 1,
        transaction_id: 1,
        account_id: 1,
        debit_amount: Money::new(1250, 2),
        credit_amount: Money::zero(),
        description: None,
        created_at: 0,
    };
    assert!(debit.is_debit() && !debit.is_credit());
    assert_eq!(debit.amount(), Money::new(1250, 2));
    assert_eq!(debit.net_amount(), Some(Money::new(1250, 2)));
    let credit = JournalEntry {
        debit_amount: Money::zero(),
        credit_amount: Money::new(300, 2),
        ..debit.clone()
    };
    assert!(credit.is_credit() && !credit.is_debit());
    assert_eq!(credit.amount(), Money::new(300, 2));
    assert_eq!(credit.net_amount(), Some(Money::new(-300, 2)));
}

#[test]
fn standalone_entry_request() {
    let request = StandaloneEntryRequest {
        transaction_id: 9,
        account_id: 4,
        debit_amount: None,
        credit_amount: Some(Money::new(750, 2)),
        description: Some("Fee".to_string()),
    };
    assert_eq!(request.validate(), Ok(()));
    let entry = request.to_journal_entry(1234);
    assert_eq!(entry.id, 0);
    assert_eq!(entry.transaction_id, 9);
    assert_eq!(entry.account_id, 4);
    assert_eq!(entry.debit_amount, Money::zero());
    assert_eq!(entry.credit_amount, Money::new(750, 2));
    assert_eq!(entry.description.as_deref(), Some("Fee"));
    assert_eq!(entry.created_at, 1234);
    let both = StandaloneEntryRequest { debit_amount: Some(Money::new(1, 0)), ..request };
    assert_eq!(both.validate(), Err(EntryError::ConflictingAmounts));
    assert_eq!(
        EntryError::MissingAmount.message(),
        "Journal entry must have a positive debit or credit amount"
    );
}

#[test]
fn refusals_carry_status_and_reason() {
    let e = validation_error("Account code cannot be empty");
    assert_eq!((e.status, e.message.as_str()), (400, "Account code cannot be empty"));
    let e = not_found_error("Transaction");
    assert_eq!((e.status, e.message.as_str()), (404, "Transaction not found"));
    let e = ApiError::from(LedgerError::IdsExhausted);
    assert_eq!((e.status, e.message.as_str()), (500, "No identifiers are left"));
}

#[test]
fn opening_accounts_through_the_handlers() {
    let mut db = books();
    assert_eq!(
        refusal(create_account(&mut db, new_account("", "Nameless", AccountType::Asset), 2)),
        (400, "Account code cannot be empty".to_string())
    );
    assert_eq!(
        refusal(create_account(&mut db, new_account("1120", "", AccountType::Asset), 2)),
        (400, "Account name cannot be empty".to_string())
    );
    assert_eq!(
        refusal(create_account(&mut db, new_account("1110", "Cash too", AccountType::Asset), 2)),
        (400, "Account code already exists".to_string())
    );
    let orphan = CreateAccountRequest { parent_id: Some(50), ..new_account("1120", "Bank", AccountType::Asset) };
    assert_eq!(
        refusal(create_account(&mut db, orphan, 2)),
        (400, "Parent account does not exist".to_string())
    );
    let bank = create_account(&mut db, new_account("1120", "Bank", AccountType::Asset), 2).ok().unwrap();
    assert_eq!(bank.id, 3);
    assert_eq!(get_account(&db, 3).ok().unwrap().code, "1120");
    assert_eq!(refusal(get_account(&db, 4)), (404, "Account not found".to_string()));
    let assets = list_accounts(&db, ListAccountsQuery { account_type: Some(AccountType::Asset) }).ok().unwrap();
    assert_eq!(assets.iter().map(|a| a.code.as_str()).collect::<Vec<_>>(), vec!["1110", "1120"]);
    let all = list_accounts(&db, ListAccountsQuery { account_type: None }).ok().unwrap();
    assert_eq!(all.len(), 3);
    let none = list_accounts(&db, ListAccountsQuery { account_type: Some(AccountType::Equity) }).ok().unwrap();
    assert!(none.is_empty());
}

#[test]
fn changing_and_deleting_accounts_through_the_handlers() {
    let mut db = books();
    let change = |name: Option<&str>, parent_id: Option<i64>| UpdateAccountRequest {
        name: name.map(|n| n.to_string()),
        parent_id,
    };
    assert_eq!(refusal(update_account(&mut db, 9, change(None, None), 3)), (404, "Account not found".to_string()));
    assert_eq!(
        refusal(update_account(&mut db, 1, change(Some(""), None), 3)),
        (400, "Account name cannot be empty".to_string())
    );
    assert_eq!(
        refusal(update_account(&mut db, 1, change(None, Some(9)), 3)),
        (400, "Parent account does not exist".to_string())
    );
    assert_eq!(
        refusal(update_account(&mut db, 1, change(None, Some(1)), 3)),
        (400, "Account cannot be its own parent".to_string())
    );
    let changed = update_account(&mut db, 2, change(Some("Sales"), Some(1)), 3).ok().unwrap();
    assert_eq!((changed.name.as_str(), changed.parent_id, changed.updated_at), ("Sales", Some(1), 3));
    assert!(delete_account(&mut db, 2).is_ok());
    assert_eq!(refusal(delete_account(&mut db, 2)), (404, "Account not found".to_string()));
    assert_eq!(refusal(get_account(&db, 2)), (404, "Account not found".to_string()));
}

#[test]
fn posting_through_the_handlers() {
    let mut db = books();
    let posted = create_transaction(&mut db, sale(1, 2, 10000, 10000), 5).ok().unwrap();
    assert_eq!(posted.total_debits, Money::new(10000, 2));
    assert_eq!(posted.total_credits, Money::new(10000, 2));
    assert_eq!(posted.transaction.reference.as_deref(), Some("INV-1"));
    assert_eq!(posted.transaction.created_at, 5);
    assert_eq!(
        refusal(create_transaction(&mut db, sale(1, 2, 10000, 5000), 6)),
        (400, "Transaction does not balance: debits (100.00) != credits (50.00)".to_string())
    );
    assert_eq!(
        refusal(create_transaction(&mut db, sale(1, 8, 10000, 10000), 6)),
        (400, "Account with ID 8 does not exist".to_string())
    );
    let mut both = sale(1, 2, 100, 100);
    both.journal_entries[1].debit_amount = Some(Money::new(100, 2));
    assert_eq!(
        refusal(create_transaction(&mut db, both, 6)),
        (400, "Journal entry 2: Journal entry cannot have both debit and credit amounts".to_string())
    );
    let mut none = sale(1, 2, 100, 100);
    none.journal_entries.clear();
    assert_eq!(
        refusal(create_transaction(&mut db, none, 6)),
        (400, "Transaction must have at least one journal entry".to_string())
    );
    assert_eq!(get_transaction(&db, 1).ok().unwrap().journal_entries.len(), 2);
    assert_eq!(refusal(get_transaction(&db, 2)), (404, "Transaction not found".to_string()));
    let query = ListTransactionsQuery {
        start_date: None,
        end_date: None,
        account_id: None,
        description_contains: Some("CASH".to_string()),
        limit: None,
        offset: None,
    };
    assert_eq!(list_transactions(&db, query).ok().unwrap().len(), 1);
}

#[test]
fn a_query_without_limit_shows_fifty() {
    let query = ListTransactionsQuery {
        start_date: Date::from_ymd_opt(2024, 1, 1),
        end_date: None,
        account_id: Some(3),
        description_contains: None,
        limit: None,
        offset: None,
    };
    let filter = TransactionFilter::from(query);
    assert_eq!(filter.limit, Some(50));
    assert_eq!(filter.offset, Some(0));
    assert_eq!(filter.account_id, Some(3));
    assert_eq!(filter.start_date, Date::from_ymd_opt(2024, 1, 1));
    assert!(filter.min_amount.is_none() && filter.max_amount.is_none());
    let query = ListTransactionsQuery {
        start_date: None,
        end_date: None,
        account_id: None,
        description_contains: None,
        limit: Some(7),
        offset: Some(3),
    };
    let filter = TransactionFilter::from(query);
    assert_eq!((filter.limit, filter.offset), (Some(7), Some(3)));
}

#[test]
fn changing_and_deleting_transactions_is_not_offered() {
    let mut db = books();
    create_transaction(&mut db, sale(1, 2, 100, 100), 5).ok().unwrap();
    let change = |description: Option<&str>| UpdateTransactionRequest {
        description: description.map(|d| d.to_string()),
        reference: None,
        transaction_date: None,
    };
    assert_eq!(
        refusal(update_transaction(&db, 1, change(Some("Other")))),
        (501, "Transaction updates are not yet implemented".to_string())
    );
    assert_eq!(
        refusal(update_transaction(&db, 1, change(Some("")))),
        (501, "Transaction updates are not yet implemented".to_string())
    );
    assert_eq!(
        refusal(update_transaction(&db, 1, change(None))),
        (501, "Transaction updates are not yet implemented".to_string())
    );
    assert_eq!(refusal(update_transaction(&db, 2, change(Some("")))), (404, "Transaction not found".to_string()));
    assert_eq!(refusal(update_transaction(&db, 2, change(None))), (404, "Transaction not found".to_string()));
    assert_eq!(
        refusal(delete_transaction(&db, 1)),
        (501, "Transaction deletion is not yet implemented".to_string())
    );
    assert_eq!(refusal(delete_transaction(&db, 2)), (404, "Transaction not found".to_string()));
    assert!(db.has_transaction(1));
    assert_eq!(get_transaction(&db, 1).ok().unwrap().transaction.description, "Cash sale");
}

#[test]
fn a_trial_run_posts_nothing() {
    let db = books();
    let found = validate_transaction(&db, sale(1, 2, 10000, 10000));
    assert!(found.valid);
    assert!(found.errors.is_empty());
    assert_eq!(found.total_amount, Some(Money::new(10000, 2)));
    assert!(!db.has_transaction(1));
    let found = validate_transaction(&db, sale(1, 2, 10000, 5000));
    assert!(!found.valid);
    assert_eq!(
        found.errors,
        vec!["Transaction does not balance: debits (100.00) != credits (50.00)".to_string()]
    );
    assert_eq!(found.total_amount, None);
    let found = validate_transaction(&db, sale(7, 9, 100, 100));
    assert!(!found.valid);
    assert_eq!(
        found.errors,
        vec![
            "Account with ID 7 does not exist".to_string(),
            "Account with ID 9 does not exist".to_string()
        ]
    );
    assert_eq!(found.total_amount, None);
}
