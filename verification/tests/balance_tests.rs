use expense_split::balance::{compute_balances, share};
use expense_split::error::Error;
use expense_split::expense::Expense;
use expense_split::project::ProjectRepo;
use expense_split::store::Store;
use expense_split::user::UserRepo;

fn expense(id: u128, made_by: u128, amount: u32) -> Expense {
    Expense {
        id,
        project_id: 1,
        name: format!("expense {}", id),
        date: String::from("2025-01-02"),
        made_by,
        amount,
        created: 0,
        updated: 0,
    }
}

#[test]
fn shares_of_ten_among_three() {
    let payer_share = share(10, 3, true);
    let other_share = share(10, 3, false);
    assert_eq!(payer_share, 4);
    assert_eq!(other_share, 3);
    assert_eq!(payer_share + other_share + other_share, 10);
}

#[test]
fn balances_of_ten_among_three() {
    let members: Vec<u128> = vec![1, 2, 3];
    let expenses = vec![expense(10, 1, 10)];
    let balances = compute_balances(&members, &expenses).unwrap();
    assert_eq!(balances, vec![(1u128, 6i128), (2u128, -3i128), (3u128, -3i128)]);
}

#[test]
fn balances_sum_to_zero() {
    let members: Vec<u128> = vec![1, 2, 3, 4];
    let expenses = vec![
        expense(10, 1, 10),
        expense(11, 3, 7),
        expense(12, 4, 0),
        expense(13, 2, 101),
        expense(14, 1, 4_294_967_295),
    ];
    let balances = compute_balances(&members, &expenses).unwrap();
    assert_eq!(balances.len(), 4);
    let total: i128 = balances.iter().map(|b| b.1).sum();
    assert_eq!(total, 0);
}

#[test]
fn single_member_balance_is_zero() {
    let members: Vec<u128> = vec![42];
    let expenses = vec![expense(10, 42, 1), expense(11, 42, 999), expense(12, 42, 0)];
    let balances = compute_balances(&members, &expenses).unwrap();
    assert_eq!(balances, vec![(42u128, 0i128)]);
}

#[test]
fn zero_members_fail() {
    let members: Vec<u128> = Vec::new();
    let expenses: Vec<Expense> = Vec::new();
    let error = compute_balances(&members, &expenses).unwrap_err();
    assert_eq!(error, Error::EmptyProjectError);
}

#[test]
fn zero_expenses_give_zero_balances() {
    let members: Vec<u128> = vec![1, 2];
    let expenses: Vec<Expense> = Vec::new();
    let balances = compute_balances(&members, &expenses).unwrap();
    assert_eq!(balances, vec![(1u128, 0i128), (2u128, 0i128)]);
}

#[test]
fn store_balance_of_missing_project_is_not_found() {
    let mut store = Store::new();
    store.add_user(7, "Ada", "ada@math.org").unwrap();
    assert_eq!(store.balance(5).unwrap_err(), Error::NotFound);
}

#[test]
fn store_balance_of_memberless_project_is_empty_project() {
    let mut store = Store::new();
    store.add_user(7, "Ada", "ada@math.org").unwrap();
    store.add_project(1, "Groceries", 7).unwrap();
    assert_eq!(store.balance(1).unwrap_err(), Error::EmptyProjectError);
}

#[test]
fn store_balance_joins_members_and_payers() {
    let mut store = Store::new();
    store.add_user(7, "Ada", "ada@math.org").unwrap();
    store.add_user(8, "Bob", "bob@math.org").unwrap();
    store.add_user(9, "Cleo", "cleo@math.org").unwrap();
    store.add_project(1, "Groceries", 7).unwrap();
    store.add_member(1, 8).unwrap();
    store.add_member(1, 9).unwrap();
    // Ada is no explicit member; paying an expense joins her to the split.
    store.add_expense(50, 1, "Milk", "2025-01-02", 7, 10).unwrap();

    let balances = store.balance(1).unwrap();
    assert_eq!(balances, vec![(8u128, -3i128), (9u128, -3i128), (7u128, 6i128)]);
}

#[test]
fn store_balance_ignores_other_projects() {
    let mut store = Store::new();
    store.add_user(7, "Ada", "ada@math.org").unwrap();
    store.add_user(8, "Bob", "bob@math.org").unwrap();
    store.add_project(1, "Groceries", 7).unwrap();
    store.add_project(2, "Travel", 8).unwrap();
    store.add_member(1, 7).unwrap();
    store.add_member(1, 8).unwrap();
    store.add_expense(50, 1, "Milk", "2025-01-02", 7, 9).unwrap();
    store.add_expense(51, 2, "Flight", "2025-01-03", 8, 1000).unwrap();

    let balances = store.balance(1).unwrap();
    // 9 among two: payer keeps 9 - (4 + 1) = 4 fronted, the other owes 4.
    assert_eq!(balances, vec![(7u128, 4i128), (8u128, -4i128)]);
}
