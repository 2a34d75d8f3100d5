use std::str::FromStr;

use expense_split::error::Error;
use expense_split::project::ProjectRepo;
use expense_split::store::Store;
use expense_split::user::UserRepo;
use uuid::Uuid;

#[test]
fn add_user() {
    let mut store = Store::new();
    let user_id = Uuid::from_str("019450c3-984d-7145-855e-195a8e3bba25").unwrap();

    let user = store.add_user(user_id.as_u128(), "Doofie", "doofie@doof.us").unwrap();

    assert_eq!(user.id, user_id.as_u128());
    assert_eq!(user.name, "Doofie");
    assert_eq!(user.email, "doofie@doof.us");
    assert!(user.created < user.updated);
}

#[test]
fn add_user_with_invalid_email() {
    let mut store = Store::new();
    let user_id = Uuid::from_str("019450c3-984d-7145-855e-195a8e3bba25").unwrap();

    let error = store.add_user(user_id.as_u128(), "Doofie", "INVALID EMAIL").unwrap_err();
    assert_eq!(error, Error::ConstraintViolation);
}

#[test]
fn test_add_project() {
    let mut store = Store::new();
    let user_id = Uuid::from_str("01945150-5a8b-7559-b3c8-a1fa5f53e997").unwrap();
    let user = store.add_user(user_id.as_u128(), "Doofie", "doofie@doof.us").unwrap();

    let project_id = Uuid::from_str("019450c3-984d-7145-855e-195a8e3bba25").unwrap();
    let project_name = "Groceries";

    let project = store.add_project(project_id.as_u128(), project_name, user.id).unwrap();
    assert_eq!(project.id, project_id.as_u128());
    assert_eq!(project.name, project_name);
    assert_eq!(project.owner_id, user.id);
    assert!(project.created < project.updated);
}

#[test]
fn test_list_projects_when_no_projects_exists() {
    let mut store = Store::new();
    let user_id = Uuid::from_str("01945150-5a8b-7559-b3c8-a1fa5f53e997").unwrap();
    let user = store.add_user(user_id.as_u128(), "Doofie", "doofie@doof.us").unwrap();

    let projects = store.list_projects(user.id);
    assert_eq!(projects.len(), 0);
}

#[test]
fn test_list_projects_when_projects_exist() {
    let mut store = Store::new();
    let user_id = Uuid::from_str("01945150-5a8b-7559-b3c8-a1fa5f53e997").unwrap();
    let user = store.add_user(user_id.as_u128(), "Doofie", "doofie@doof.us").unwrap();

    let project_id = Uuid::from_str("019450c3-984d-7145-855e-195a8e3bba25").unwrap();
    let project_name = "Groceries";
    let _ = store.add_project(project_id.as_u128(), project_name, user.id).unwrap();

    let projects = store.list_projects(user.id);
    assert_eq!(projects.len(), 1);
    assert_eq!(projects[0].id, project_id.as_u128());
    assert_eq!(projects[0].name, project_name);
    assert_eq!(projects[0].owner_id, user.id);
    assert!(projects[0].created < projects[0].updated);
}

#[test]
fn add_user_then_lookup_matches() {
    let mut store = Store::new();
    let user = store.add_user(7, "Ada", "ada@math.org").unwrap();
    let found = store.get_user(7).unwrap();
    assert_eq!(found.id, user.id);
    assert_eq!(found.name, "Ada");
    assert_eq!(found.email, "ada@math.org");
    assert!(found.created <= found.updated);
}

#[test]
fn rejected_user_is_not_persisted() {
    let mut store = Store::new();
    let error = store.add_user(7, "Ada", "not an email").unwrap_err();
    assert_eq!(error, Error::ConstraintViolation);
    assert!(store.get_user(7).is_none());
}

#[test]
fn duplicate_user_id_is_rejected() {
    let mut store = Store::new();
    store.add_user(7, "Ada", "ada@math.org").unwrap();
    let error = store.add_user(7, "Bob", "bob@math.org").unwrap_err();
    assert_eq!(error, Error::ConstraintViolation);
}

#[test]
fn duplicate_email_is_rejected() {
    let mut store = Store::new();
    store.add_user(7, "Ada", "ada@math.org").unwrap();
    let error = store.add_user(8, "Bob", "ada@math.org").unwrap_err();
    assert_eq!(error, Error::ConstraintViolation);
}

#[test]
fn project_with_unknown_owner_is_rejected() {
    let mut store = Store::new();
    let error = store.add_project(1, "Groceries", 99).unwrap_err();
    assert_eq!(error, Error::ForeignKeyViolation);
    assert_eq!(store.list_projects(99).len(), 0);
}

#[test]
fn duplicate_project_id_is_rejected() {
    let mut store = Store::new();
    store.add_user(7, "Ada", "ada@math.org").unwrap();
    store.add_project(1, "Groceries", 7).unwrap();
    let error = store.add_project(1, "Travel", 7).unwrap_err();
    assert_eq!(error, Error::ConstraintViolation);
}

#[test]
fn membership_constraints() {
    let mut store = Store::new();
    store.add_user(7, "Ada", "ada@math.org").unwrap();
    store.add_user(8, "Bob", "bob@math.org").unwrap();
    store.add_project(1, "Groceries", 7).unwrap();

    assert_eq!(store.add_member(2, 8).unwrap_err(), Error::ForeignKeyViolation);
    assert_eq!(store.add_member(1, 99).unwrap_err(), Error::ForeignKeyViolation);
    store.add_member(1, 8).unwrap();
    assert_eq!(store.add_member(1, 8).unwrap_err(), Error::ConstraintViolation);
    assert_eq!(store.list_members(1), vec![8u128]);
}

#[test]
fn expense_constraints() {
    let mut store = Store::new();
    store.add_user(7, "Ada", "ada@math.org").unwrap();
    store.add_project(1, "Groceries", 7).unwrap();

    let e = store.add_expense(50, 1, "Milk", "2025-01-02", 7, 120).unwrap();
    assert_eq!(e.amount, 120);
    assert!(e.created < e.updated);
    assert_eq!(store.add_expense(50, 1, "Twice", "2025-01-02", 7, 1).unwrap_err(), Error::ConstraintViolation);
    assert_eq!(store.add_expense(51, 2, "NoProject", "2025-01-02", 7, 1).unwrap_err(), Error::ForeignKeyViolation);
    assert_eq!(store.add_expense(51, 1, "NoPayer", "2025-01-02", 99, 1).unwrap_err(), Error::ForeignKeyViolation);

    let listed = store.list_expenses(1);
    assert_eq!(listed.len(), 1);
    assert_eq!(listed[0].id, 50);
    assert_eq!(listed[0].name, "Milk");
    assert_eq!(listed[0].date, "2025-01-02");
    assert_eq!(listed[0].made_by, 7);
}
