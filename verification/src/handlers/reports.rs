//! The reports: account summary, trial balance, balance sheet and income
//! statement. Each is computed anew from the books when it is asked for.

use crate::database::reports::{is_trial_balance, summary_of, trial_balance_fits};
use crate::database::{AccountsByCode, Database, LedgerError};
use crate::handlers::{ApiError, INTERNAL_SERVER_ERROR};
use crate::models::account::{Account, AccountSummary, AccountType};
use crate::models::journal_entry::TrialBalance;
use crate::money::{Money, OutOfRange};
use crate::sort::sorted;
use vstd::prelude::*;

verus! {

/// The summary of all accounts by account type.
pub fn account_summary(database: &Database) -> (r: Result<AccountSummary, ApiError>)
    ensures
        match summary_of(sorted::<Account, AccountsByCode>(database.accounts())) {
            Some(summary) => r matches Ok(s) && s == summary,
            None => r matches Err(e) && e.is(
                INTERNAL_SERVER_ERROR,
                LedgerError::AmountOutOfRange.spec_message(),
            ),
        },
{
    match database.get_account_summary() {
        Ok(summary) => Ok(summary),
        Err(e) => Err(ApiError::from(e)),
    }
}

/// The trial balance. As long as every journal entry is on an account that
/// the books hold, its two totals are equal.
pub fn trial_balance(database: &Database) -> (r: Result<TrialBalance, ApiError>)
    requires
        database.wf(),
    ensures
        match r {
            Ok(report) => {
                &&& is_trial_balance(database.accounts(), database.entries(), report)
                &&& database.entries_resolved() ==> report.is_balanced && report.total_debits@
                    == report.total_credits@
            },
            Err(e) => e.is(INTERNAL_SERVER_ERROR, LedgerError::AmountOutOfRange.spec_message())
                && !trial_balance_fits(database.accounts(), database.entries()),
        },
{
    match database.get_trial_balance() {
        Ok(report) => Ok(report),
        Err(e) => Err(ApiError::from(e)),
    }
}

/// An account on the balance sheet, with the magnitude of its normal
/// balance.
#[derive(Debug)]
pub struct BalanceSheetAccount {
    pub id: i64,
    pub code: String,
    pub name: String,
    pub balance: Money,
}

/// One section of the balance sheet: its accounts and their total.
#[derive(Debug)]
pub struct BalanceSheetSection {
    pub accounts: Vec<BalanceSheetAccount>,
    pub total: Money,
}

/// The balance sheet: assets on one side, liabilities and equity on the
/// other. Revenue and expense accounts do not appear on it.
#[derive(Debug)]
pub struct BalanceSheet {
    pub assets: BalanceSheetSection,
    pub liabilities: BalanceSheetSection,
    pub equity: BalanceSheetSection,
    pub total_assets: Money,
    pub total_liabilities_and_equity: Money,
    /// Whether the two sides are the same number.
    pub is_balanced: bool,
}

/// The line of an account on the balance sheet.
pub open spec fn sheet_line(account: Account) -> BalanceSheetAccount {
    BalanceSheetAccount {
        id: account.id,
        code: account.code,
        name: account.name,
        balance: account.spec_normal_balance().magnitude(),
    }
}

/// The totals of a balance sheet: of the assets, the liabilities and the
/// equity, and of liabilities and equity together.
pub struct SheetTotals {
    pub assets: Money,
    pub liabilities: Money,
    pub equity: Money,
    pub liabilities_and_equity: Money,
}

/// The totals after one more account: the magnitude of its normal balance
/// is added to the total of its section, if it has one, and liabilities and
/// equity are added up anew. Nothing where one of the sums is refused.
pub open spec fn sheet_totals_after(totals: SheetTotals, account: Account) -> Option<SheetTotals> {
    let amount = account.spec_normal_balance().magnitude();
    let stepped = match account.account_type {
        AccountType::Asset => match totals.assets.sum(amount) {
            Some(assets) => Some(SheetTotals { assets, ..totals }),
            None => None,
        },
        AccountType::Liability => match totals.liabilities.sum(amount) {
            Some(liabilities) => Some(SheetTotals { liabilities, ..totals }),
            None => None,
        },
        AccountType::Equity => match totals.equity.sum(amount) {
            Some(equity) => Some(SheetTotals { equity, ..totals }),
            None => None,
        },
        _ => Some(totals),
    };
    match stepped {
        Some(next) => match next.liabilities.sum(next.equity) {
            Some(both) => Some(SheetTotals { liabilities_and_equity: both, ..next }),
            None => None,
        },
        None => None,
    }
}

impl BalanceSheet {
    /// The totals of the sheet.
    pub open spec fn totals(self) -> SheetTotals {
        SheetTotals {
            assets: self.assets.total,
            liabilities: self.liabilities.total,
            equity: self.equity.total,
            liabilities_and_equity: self.total_liabilities_and_equity,
        }
    }

    /// Whether the sheet is consistent in itself: the total of the assets
    /// stands in `total_assets`, and `is_balanced` says whether the two
    /// sides are the same number.
    pub open spec fn coherent(self) -> bool {
        &&& self.total_assets == self.assets.total
        &&& self.is_balanced == (self.total_assets@ == self.total_liabilities_and_equity@)
    }

    /// The balance sheet of no accounts: every total is zero, and the two
    /// sides balance.
    pub fn new() -> (r: BalanceSheet)
        ensures
            r.assets.accounts@.len() == 0,
            r.liabilities.accounts@.len() == 0,
            r.equity.accounts@.len() == 0,
            r.assets.total == Money::of(0, 0),
            r.liabilities.total == Money::of(0, 0),
            r.equity.total == Money::of(0, 0),
            r.total_assets == Money::of(0, 0),
            r.total_liabilities_and_equity == Money::of(0, 0),
            r.is_balanced,
    {
        BalanceSheet {
            assets: BalanceSheetSection { accounts: Vec::new(), total: Money::zero() },
            liabilities: BalanceSheetSection { accounts: Vec::new(), total: Money::zero() },
            equity: BalanceSheetSection { accounts: Vec::new(), total: Money::zero() },
            total_assets: Money::zero(),
            total_liabilities_and_equity: Money::zero(),
            is_balanced: true,
        }
    }

    /// Adds an account: an asset, liability or equity account enters its
    /// section with the magnitude of its normal balance, and the totals
    /// and the balance are formed anew. Where a total cannot be formed the
    /// sheet is left as it was.
    pub fn add_account(&mut self, account: &Account) -> (r: Result<(), OutOfRange>)
        ensures
            match sheet_totals_after(old(self).totals(), *account) {
                Some(totals) => {
                    &&& r is Ok
                    &&& final(self).totals() == totals
                    &&& final(self).coherent()
                    &&& final(self).assets.accounts@ == (if account.account_type is Asset {
                        old(self).assets.accounts@.push(sheet_line(*account))
                    } else {
                        old(self).assets.accounts@
                    })
                    &&& final(self).liabilities.accounts@ == (if account.account_type
                        is Liability {
                        old(self).liabilities.accounts@.push(sheet_line(*account))
                    } else {
                        old(self).liabilities.accounts@
                    })
                    &&& final(self).equity.accounts@ == (if account.account_type is Equity {
                        old(self).equity.accounts@.push(sheet_line(*account))
                    } else {
                        old(self).equity.accounts@
                    })
                },
                None => r is Err && *final(self) == *old(self),
            },
    {
        let amount = account.normal_balance().abs();
        let mut assets = self.assets.total;
        let mut liabilities = self.liabilities.total;
        let mut equity = self.equity.total;
        match account.account_type {
            AccountType::Asset => match assets.checked_add(amount) {
                Some(total) => {
                    assets = total;
                },
                None => {
                    return Err(OutOfRange {});
                },
            },
            AccountType::Liability => match liabilities.checked_add(amount) {
                Some(total) => {
                    liabilities = total;
                },
                None => {
                    return Err(OutOfRange {});
                },
            },
            AccountType::Equity => match equity.checked_add(amount) {
                Some(total) => {
                    equity = total;
                },
                None => {
                    return Err(OutOfRange {});
                },
            },
            _ => {},
        }
        let both = match liabilities.checked_add(equity) {
            Some(both) => both,
            None => {
                return Err(OutOfRange {});
            },
        };
        let line = BalanceSheetAccount {
            id: account.id,
            code: account.code.clone(),
            name: account.name.clone(),
            balance: amount,
        };
        match account.account_type {
            AccountType::Asset => {
                self.assets.accounts.push(line);
            },
            AccountType::Liability => {
                self.liabilities.accounts.push(line);
            },
            AccountType::Equity => {
                self.equity.accounts.push(line);
            },
            _ => {},
        }
        self.assets.total = assets;
        self.liabilities.total = liabilities;
        self.equity.total = equity;
        self.total_assets = assets;
        self.total_liabilities_and_equity = both;
        self.is_balanced = assets == both;
        Ok(())
    }
}

/// The lines of the accounts of one type, in the order of the accounts.
pub open spec fn sheet_lines(accounts: Seq<Account>, account_type: AccountType) -> Seq<
    BalanceSheetAccount,
>
    decreases accounts.len(),
{
    if accounts.len() == 0 {
        Seq::empty()
    } else if accounts.last().account_type == account_type {
        sheet_lines(accounts.drop_last(), account_type).push(sheet_line(accounts.last()))
    } else {
        sheet_lines(accounts.drop_last(), account_type)
    }
}

/// The totals that adding the accounts one after the other arrives at.
pub open spec fn sheet_totals_of(accounts: Seq<Account>) -> Option<SheetTotals>
    decreases accounts.len(),
{
    if accounts.len() == 0 {
        Some(
            SheetTotals {
                assets: Money::of(0, 0),
                liabilities: Money::of(0, 0),
                equity: Money::of(0, 0),
                liabilities_and_equity: Money::of(0, 0),
            },
        )
    } else {
        match sheet_totals_of(accounts.drop_last()) {
            Some(totals) => sheet_totals_after(totals, accounts.last()),
            None => None,
        }
    }
}

/// Whether `sheet` is the balance sheet of the accounts.
pub open spec fn is_balance_sheet(accounts: Seq<Account>, sheet: BalanceSheet) -> bool {
    &&& sheet_totals_of(accounts) == Some(sheet.totals())
    &&& sheet.coherent()
    &&& sheet.assets.accounts@ == sheet_lines(accounts, AccountType::Asset)
    &&& sheet.liabilities.accounts@ == sheet_lines(accounts, AccountType::Liability)
    &&& sheet.equity.accounts@ == sheet_lines(accounts, AccountType::Equity)
}

/// Once the totals cannot be formed, they cannot for more accounts either.
pub proof fn lemma_sheet_none_extends(accounts: Seq<Account>, k: int)
    requires
        0 <= k <= accounts.len(),
        sheet_totals_of(accounts.take(k)) is None,
    ensures
        sheet_totals_of(accounts) is None,
    decreases accounts.len() - k,
{
    if k < accounts.len() {
        assert(accounts.take(k + 1).drop_last() =~= accounts.take(k));
        lemma_sheet_none_extends(accounts, k + 1);
    } else {
        assert(accounts.take(k) =~= accounts);
    }
}

/// The balance sheet of all accounts, taken in the order of their codes.
pub fn balance_sheet(database: &Database) -> (r: Result<BalanceSheet, ApiError>)
    ensures
        match r {
            Ok(sheet) => is_balance_sheet(
                sorted::<Account, AccountsByCode>(database.accounts()),
                sheet,
            ),
            Err(e) => e.is(INTERNAL_SERVER_ERROR, LedgerError::AmountOutOfRange.spec_message())
                && sheet_totals_of(sorted::<Account, AccountsByCode>(database.accounts()))
                is None,
        },
{
    let accounts = database.list_accounts();
    let mut sheet = BalanceSheet::new();
    let mut i: usize = 0;
    proof {
        assert(accounts@.take(0) =~= Seq::<Account>::empty());
        assert(sheet.assets.accounts@ =~= Seq::<BalanceSheetAccount>::empty());
        assert(sheet.liabilities.accounts@ =~= Seq::<BalanceSheetAccount>::empty());
        assert(sheet.equity.accounts@ =~= Seq::<BalanceSheetAccount>::empty());
        assert(sheet_totals_of(accounts@.take(0)) == Some(sheet.totals()));
    }
    while i < accounts.len()
        invariant
            i <= accounts.len(),
            accounts@ == sorted::<Account, AccountsByCode>(database.accounts()),
            is_balance_sheet(accounts@.take(i as int), sheet),
        decreases accounts.len() - i,
    {
        proof {
            assert(accounts@.take(i + 1).drop_last() =~= accounts@.take(i as int));
            assert(accounts@.take(i + 1).last() == accounts@[i as int]);
        }
        match sheet.add_account(&accounts[i]) {
            Ok(()) => {},
            Err(_) => {
                proof {
                    lemma_sheet_none_extends(accounts@, i + 1);
                }
                return Err(ApiError::from(LedgerError::AmountOutOfRange));
            },
        }
        i = i + 1;
    }
    assert(accounts@.take(i as int) =~= accounts@);
    Ok(sheet)
}

/// An account on the income statement, with the magnitude of its normal
/// balance.
#[derive(Debug)]
pub struct IncomeStatementAccount {
    pub id: i64,
    pub code: String,
    pub name: String,
    pub amount: Money,
}

/// One section of the income statement: its accounts and their total.
#[derive(Debug)]
pub struct IncomeStatementSection {
    pub accounts: Vec<IncomeStatementAccount>,
    pub total: Money,
}

/// The income statement: revenue, expenses, and what is left.
#[derive(Debug)]
pub struct IncomeStatement {
    pub revenue: IncomeStatementSection,
    pub expenses: IncomeStatementSection,
    /// The total of the revenue.
    pub gross_profit: Money,
    /// Revenue less expenses.
    pub net_income: Money,
}

/// The line of an account on the income statement.
pub open spec fn statement_line(account: Account) -> IncomeStatementAccount {
    IncomeStatementAccount {
        id: account.id,
        code: account.code,
        name: account.name,
        amount: account.spec_normal_balance().magnitude(),
    }
}

/// The totals of an income statement: of the revenue and of the expenses,
/// and the net income.
pub struct StatementTotals {
    pub revenue: Money,
    pub expenses: Money,
    pub net_income: Money,
}

/// The totals after one more account: the magnitude of its normal balance
/// is added to revenue or to expenses, if it is of either type, and the net
/// income is formed anew. Nothing where a calculation is refused.
pub open spec fn statement_totals_after(totals: StatementTotals, account: Account) -> Option<
    StatementTotals,
> {
    let amount = account.spec_normal_balance().magnitude();
    let stepped = match account.account_type {
        AccountType::Revenue => match totals.revenue.sum(amount) {
            Some(revenue) => Some(StatementTotals { revenue, ..totals }),
            None => None,
        },
        AccountType::Expense => match totals.expenses.sum(amount) {
            Some(expenses) => Some(StatementTotals { expenses, ..totals }),
            None => None,
        },
        _ => Some(totals),
    };
    match stepped {
        Some(next) => match next.revenue.difference(next.expenses) {
            Some(net) => Some(StatementTotals { net_income: net, ..next }),
            None => None,
        },
        None => None,
    }
}

impl IncomeStatement {
    /// The totals of the statement.
    pub open spec fn totals(self) -> StatementTotals {
        StatementTotals {
            revenue: self.revenue.total,
            expenses: self.expenses.total,
            net_income: self.net_income,
        }
    }

    /// The income statement of no accounts: every amount is zero.
    pub fn new() -> (r: IncomeStatement)
        ensures
            r.revenue.accounts@.len() == 0,
            r.expenses.accounts@.len() == 0,
            r.revenue.total == Money::of(0, 0),
            r.expenses.total == Money::of(0, 0),
            r.gross_profit == Money::of(0, 0),
            r.net_income == Money::of(0, 0),
    {
        IncomeStatement {
            revenue: IncomeStatementSection { accounts: Vec::new(), total: Money::zero() },
            expenses: IncomeStatementSection { accounts: Vec::new(), total: Money::zero() },
            gross_profit: Money::zero(),
            net_income: Money::zero(),
        }
    }

    /// Adds an account: a revenue or expense account enters its section
    /// with the magnitude of its normal balance, and gross profit and net
    /// income are formed anew. Where an amount cannot be formed the
    /// statement is left as it was.
    pub fn add_account(&mut self, account: &Account) -> (r: Result<(), OutOfRange>)
        ensures
            match statement_totals_after(old(self).totals(), *account) {
                Some(totals) => {
                    &&& r is Ok
                    &&& final(self).totals() == totals
                    &&& final(self).gross_profit == totals.revenue
                    &&& final(self).net_income@ == totals.revenue@ - totals.expenses@
                    &&& final(self).revenue.accounts@ == (if account.account_type is Revenue {
                        old(self).revenue.accounts@.push(statement_line(*account))
                    } else {
                        old(self).revenue.accounts@
                    })
                    &&& final(self).expenses.accounts@ == (if account.account_type is Expense {
                        old(self).expenses.accounts@.push(statement_line(*account))
                    } else {
                        old(self).expenses.accounts@
                    })
                },
                None => r is Err && *final(self) == *old(self),
            },
    {
        let amount = account.normal_balance().abs();
        let mut revenue = self.revenue.total;
        let mut expenses = self.expenses.total;
        match account.account_type {
            AccountType::Revenue => match revenue.checked_add(amount) {
                Some(total) => {
                    revenue = total;
                },
                None => {
                    return Err(OutOfRange {});
                },
            },
            AccountType::Expense => match expenses.checked_add(amount) {
                Some(total) => {
                    expenses = total;
                },
                None => {
                    return Err(OutOfRange {});
                },
            },
            _ => {},
        }
        let net = match revenue.checked_sub(expenses) {
            Some(net) => net,
            None => {
                return Err(OutOfRange {});
            },
        };
        let line = IncomeStatementAccount {
            id: account.id,
            code: account.code.clone(),
            name: account.name.clone(),
            amount,
        };
        match account.account_type {
            AccountType::Revenue => {
                self.revenue.accounts.push(line);
            },
            AccountType::Expense => {
                self.expenses.accounts.push(line);
            },
            _ => {},
        }
        self.revenue.total = revenue;
        self.expenses.total = expenses;
        self.gross_profit = revenue;
        self.net_income = net;
        Ok(())
    }
}

/// The lines of the accounts of one type, in the order of the accounts.
pub open spec fn statement_lines(accounts: Seq<Account>, account_type: AccountType) -> Seq<
    IncomeStatementAccount,
>
    decreases accounts.len(),
{
    if accounts.len() == 0 {
        Seq::empty()
    } else if accounts.last().account_type == account_type {
        statement_lines(accounts.drop_last(), account_type).push(statement_line(accounts.last()))
    } else {
        statement_lines(accounts.drop_last(), account_type)
    }
}

/// The totals that adding the revenue and expense accounts among the
/// accounts, one after the other, arrives at.
pub open spec fn statement_totals_of(accounts: Seq<Account>) -> Option<StatementTotals>
    decreases accounts.len(),
{
    if accounts.len() == 0 {
        Some(
            StatementTotals {
                revenue: Money::of(0, 0),
                expenses: Money::of(0, 0),
                net_income: Money::of(0, 0),
            },
        )
    } else {
        match statement_totals_of(accounts.drop_last()) {
            Some(totals) => if accounts.last().account_type is Revenue
                || accounts.last().account_type is Expense {
                statement_totals_after(totals, accounts.last())
            } else {
                Some(totals)
            },
            None => None,
        }
    }
}

/// Whether `statement` is the income statement of the accounts.
pub open spec fn is_income_statement(accounts: Seq<Account>, statement: IncomeStatement) -> bool {
    &&& statement_totals_of(accounts) == Some(statement.totals())
    &&& statement.gross_profit == statement.revenue.total
    &&& statement.revenue.accounts@ == statement_lines(accounts, AccountType::Revenue)
    &&& statement.expenses.accounts@ == statement_lines(accounts, AccountType::Expense)
}

/// Once the totals cannot be formed, they cannot for more accounts either.
pub proof fn lemma_statement_none_extends(accounts: Seq<Account>, k: int)
    requires
        0 <= k <= accounts.len(),
        statement_totals_of(accounts.take(k)) is None,
    ensures
        statement_totals_of(accounts) is None,
    decreases accounts.len() - k,
{
    if k < accounts.len() {
        assert(accounts.take(k + 1).drop_last() =~= accounts.take(k));
        lemma_statement_none_extends(accounts, k + 1);
    } else {
        assert(accounts.take(k) =~= accounts);
    }
}

/// The income statement of the revenue and expense accounts, taken in the
/// order of their codes.
pub fn income_statement(database: &Database) -> (r: Result<IncomeStatement, ApiError>)
    ensures
        match r {
            Ok(statement) => is_income_statement(
                sorted::<Account, AccountsByCode>(database.accounts()),
                statement,
            ),
            Err(e) => e.is(INTERNAL_SERVER_ERROR, LedgerError::AmountOutOfRange.spec_message())
                && statement_totals_of(sorted::<Account, AccountsByCode>(database.accounts()))
                is None,
        },
{
    let accounts = database.list_accounts();
    let mut statement = IncomeStatement::new();
    let mut i: usize = 0;
    proof {
        assert(accounts@.take(0) =~= Seq::<Account>::empty());
        assert(statement.revenue.accounts@ =~= Seq::<IncomeStatementAccount>::empty());
        assert(statement.expenses.accounts@ =~= Seq::<IncomeStatementAccount>::empty());
        assert(statement_totals_of(accounts@.take(0)) == Some(statement.totals()));
    }
    while i < accounts.len()
        invariant
            i <= accounts.len(),
            accounts@ == sorted::<Account, AccountsByCode>(database.accounts()),
            is_income_statement(accounts@.take(i as int), statement),
        decreases accounts.len() - i,
    {
        proof {
            assert(accounts@.take(i + 1).drop_last() =~= accounts@.take(i as int));
            assert(accounts@.take(i + 1).last() == accounts@[i as int]);
        }
        if matches!(accounts[i].account_type, AccountType::Revenue | AccountType::Expense) {
            match statement.add_account(&accounts[i]) {
                Ok(()) => {},
                Err(_) => {
                    proof {
                        lemma_statement_none_extends(accounts@, i + 1);
                    }
                    return Err(ApiError::from(LedgerError::AmountOutOfRange));
                },
            }
        }
        i = i + 1;
    }
    assert(accounts@.take(i as int) =~= accounts@);
    Ok(statement)
}

} // verus!
