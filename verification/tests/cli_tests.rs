use expense_split::cli::{dispatch, Cli, Command, Output};
use expense_split::error::Error;
use expense_split::project::ProjectRepo;
use expense_split::store::Store;
use expense_split::user::{is_valid_email, UserRepo};

#[test]
fn email_format_cases() {
    assert!(is_valid_email("doofie@doof.us"));
    assert!(is_valid_email("a@b.c"));
    assert!(is_valid_email("first.last@mail.example.com"));
    assert!(!is_valid_email(""));
    assert!(!is_valid_email("INVALID EMAIL"));
    assert!(!is_valid_email("no-at-sign.example"));
    assert!(!is_valid_email("@domain.com"));
    assert!(!is_valid_email("two@@signs.net"));
    assert!(!is_valid_email("dot@.starts"));
    assert!(!is_valid_email("dot@ends."));
    assert!(!is_valid_email("none@dotless"));
    assert!(!is_valid_email("space in@local.part"));
}

#[test]
fn dispatch_project_add_and_list() {
    let mut store = Store::new();
    store.add_user(7, "Ada", "ada@math.org").unwrap();

    let added = dispatch(
        &mut store,
        7,
        Cli { command: Command::ProjectAdd { id: 1, name: String::from("Groceries") } },
    )
    .unwrap();
    match added {
        Output::ProjectAdded(p) => {
            assert_eq!(p.id, 1);
            assert_eq!(p.name, "Groceries");
            assert_eq!(p.owner_id, 7);
        },
        _ => panic!("expected a project"),
    }

    let listed = dispatch(&mut store, 7, Cli { command: Command::ProjectList }).unwrap();
    match listed {
        Output::Projects(ps) => {
            assert_eq!(ps.len(), 1);
            assert_eq!(ps[0].id, 1);
        },
        _ => panic!("expected projects"),
    }
}

#[test]
fn dispatch_user_add_joins_project() {
    let mut store = Store::new();
    store.add_user(7, "Ada", "ada@math.org").unwrap();
    store.add_project(1, "Groceries", 7).unwrap();

    let added = dispatch(
        &mut store,
        7,
        Cli {
            command: Command::UserAdd {
                id: 8,
                project_id: 1,
                name: String::from("Bob"),
                email: String::from("bob@math.org"),
            },
        },
    )
    .unwrap();
    match added {
        Output::UserAdded(u) => {
            assert_eq!(u.id, 8);
            assert_eq!(u.email, "bob@math.org");
        },
        _ => panic!("expected a user"),
    }

    let members = dispatch(&mut store, 7, Cli { command: Command::UserList { project_id: 1 } })
        .unwrap();
    match members {
        Output::Members(ms) => assert_eq!(ms, vec![8u128]),
        _ => panic!("expected members"),
    }
}

#[test]
fn dispatch_user_add_to_missing_project_keeps_user() {
    let mut store = Store::new();
    let error = dispatch(
        &mut store,
        7,
        Cli {
            command: Command::UserAdd {
                id: 8,
                project_id: 1,
                name: String::from("Bob"),
                email: String::from("bob@math.org"),
            },
        },
    )
    .unwrap_err();
    assert_eq!(error, Error::ForeignKeyViolation);
    assert!(store.get_user(8).is_some());
}

#[test]
fn dispatch_expense_and_balance() {
    let mut store = Store::new();
    store.add_user(7, "Ada", "ada@math.org").unwrap();
    store.add_user(8, "Bob", "bob@math.org").unwrap();
    store.add_project(1, "Groceries", 7).unwrap();
    store.add_member(1, 8).unwrap();

    let added = dispatch(
        &mut store,
        7,
        Cli {
            command: Command::ExpenseAdd {
                id: 50,
                project_id: 1,
                name: String::from("Milk"),
                date: String::from("2025-01-02"),
                made_by: 7,
                amount: 10,
            },
        },
    )
    .unwrap();
    match added {
        Output::ExpenseAdded(e) => {
            assert_eq!(e.amount, 10);
            assert_eq!(e.made_by, 7);
        },
        _ => panic!("expected an expense"),
    }

    let listed = dispatch(&mut store, 7, Cli { command: Command::ExpenseList { project_id: 1 } })
        .unwrap();
    match listed {
        Output::Expenses(es) => {
            assert_eq!(es.len(), 1);
            assert_eq!(es[0].name, "Milk");
        },
        _ => panic!("expected expenses"),
    }

    let balances = dispatch(&mut store, 7, Cli { command: Command::Balance { project_id: 1 } })
        .unwrap();
    match balances {
        Output::Balances(b) => assert_eq!(b, vec![(8u128, -5i128), (7u128, 5i128)]),
        _ => panic!("expected balances"),
    }
}

#[test]
fn dispatch_balance_of_missing_project() {
    let mut store = Store::new();
    let error = dispatch(&mut store, 7, Cli { command: Command::Balance { project_id: 1 } })
        .unwrap_err();
    assert_eq!(error, Error::NotFound);
}
