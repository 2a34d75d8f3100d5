use vstd::prelude::*;
use crate::balance::member_balance;
use crate::error::Error;
use crate::expense::Expense;
use crate::project::{owner_projects, Member, Project, ProjectRepo};
use crate::store::{
    balance_members, project_expenses, project_member_ids, seq_has_user, Store,
};
use crate::user::{User, UserRepo};

verus! {

/// A parsed command. Ids are caller-supplied, collision-resistant values that
/// the boundary layer draws before dispatching; adding a user names the
/// project whose splits the user joins.
pub enum Command {
    ProjectAdd { id: u128, name: String },
    ProjectList,
    UserAdd { id: u128, project_id: u128, name: String, email: String },
    UserList { project_id: u128 },
    ExpenseAdd {
        id: u128,
        project_id: u128,
        name: String,
        date: String,
        made_by: u128,
        amount: u32,
    },
    ExpenseList { project_id: u128 },
    Balance { project_id: u128 },
}

/// A parsed command-line invocation.
pub struct Cli {
    pub command: Command,
}

/// What a dispatched command hands back for rendering.
#[derive(Debug)]
pub enum Output {
    ProjectAdded(Project),
    Projects(Vec<Project>),
    UserAdded(User),
    Members(Vec<u128>),
    ExpenseAdded(Expense),
    Expenses(Vec<Expense>),
    Balances(Vec<(u128, i128)>),
}

/// Runs one parsed command against the store on behalf of `current_user`,
/// who owns the projects that `ProjectAdd` creates and `ProjectList` lists.
/// `UserAdd` registers the user and then joins them to the named project; the
/// membership fails with `ForeignKeyViolation` when that project is absent,
/// leaving the registered user in place.
pub fn dispatch(store: &mut Store, current_user: u128, cli: Cli) -> (r: Result<Output, Error>)
    requires
        old(store)@.wf(),
        old(store)@.clock + 2 <= u64::MAX,
    ensures
        final(store)@.wf(),
        ({
            let s0 = old(store)@;
            match cli.command {
                Command::ProjectAdd { id, name } => {
                    &&& s0.project_insert_ok(id, current_user) ==> r is Ok && r->Ok_0
                        is ProjectAdded && r->Ok_0->ProjectAdded_0@ == s0.fresh_project(
                        id,
                        name@,
                        current_user,
                    ) && final(store)@ == s0.with_project(id, name@, current_user)
                    &&& s0.has_project(id) ==> r == Err::<Output, Error>(
                        Error::ConstraintViolation,
                    ) && final(store)@ == s0
                    &&& !s0.has_project(id) && !s0.has_user(current_user) ==> r == Err::<
                        Output,
                        Error,
                    >(Error::ForeignKeyViolation) && final(store)@ == s0
                },
                Command::ProjectList => {
                    &&& r is Ok && r->Ok_0 is Projects
                    &&& r->Ok_0->Projects_0@.map_values(|p: Project| p@) == owner_projects(
                        s0.projects,
                        current_user,
                    )
                    &&& final(store)@ == s0
                },
                Command::UserAdd { id, project_id, name, email } => {
                    &&& !s0.user_insert_ok(id, email@) ==> r == Err::<Output, Error>(
                        Error::ConstraintViolation,
                    ) && final(store)@ == s0
                    &&& s0.user_insert_ok(id, email@) && s0.has_project(project_id) ==> r is Ok
                        && r->Ok_0 is UserAdded && r->Ok_0->UserAdded_0@ == s0.fresh_user(
                        id,
                        name@,
                        email@,
                    ) && final(store)@ == s0.with_user(id, name@, email@).with_member(
                        project_id,
                        id,
                    )
                    &&& s0.user_insert_ok(id, email@) && !s0.has_project(project_id) ==> r
                        == Err::<Output, Error>(Error::ForeignKeyViolation) && final(store)@
                        == s0.with_user(id, name@, email@)
                },
                Command::UserList { project_id } => {
                    &&& r is Ok && r->Ok_0 is Members
                    &&& r->Ok_0->Members_0@ == project_member_ids(s0.members, project_id)
                    &&& final(store)@ == s0
                },
                Command::ExpenseAdd { id, project_id, name, date, made_by, amount } => {
                    &&& s0.expense_insert_ok(id, project_id, made_by) ==> r is Ok && r->Ok_0
                        is ExpenseAdded && r->Ok_0->ExpenseAdded_0@ == s0.fresh_expense(
                        id,
                        project_id,
                        name@,
                        date@,
                        made_by,
                        amount,
                    ) && final(store)@ == s0.with_expense(
                        id,
                        project_id,
                        name@,
                        date@,
                        made_by,
                        amount,
                    )
                    &&& s0.has_expense(id) ==> r == Err::<Output, Error>(
                        Error::ConstraintViolation,
                    ) && final(store)@ == s0
                    &&& !s0.has_expense(id) && (!s0.has_project(project_id) || !s0.has_user(
                        made_by,
                    )) ==> r == Err::<Output, Error>(Error::ForeignKeyViolation) && final(store)@
                        == s0
                },
                Command::ExpenseList { project_id } => {
                    &&& r is Ok && r->Ok_0 is Expenses
                    &&& r->Ok_0->Expenses_0@.map_values(|e: Expense| e@) == project_expenses(
                        s0.expenses,
                        project_id,
                    )
                    &&& final(store)@ == s0
                },
                Command::Balance { project_id } => {
                    &&& !s0.has_project(project_id) ==> r == Err::<Output, Error>(Error::NotFound)
                        && final(store)@ == s0
                    &&& s0.has_project(project_id) && balance_members(s0, project_id).len() == 0
                        ==> r == Err::<Output, Error>(Error::EmptyProjectError) && final(store)@
                        == s0
                    &&& s0.has_project(project_id) && balance_members(s0, project_id).len() >= 1
                        ==> r is Ok && r->Ok_0 is Balances && r->Ok_0->Balances_0@.len()
                        == balance_members(s0, project_id).len() && (forall|i: int|
                        0 <= i < balance_members(s0, project_id).len() ==> (
                        #[trigger] r->Ok_0->Balances_0@[i]).0 == balance_members(s0, project_id)[i]
                            && r->Ok_0->Balances_0@[i].1 as int == member_balance(
                            balance_members(s0, project_id)[i],
                            project_expenses(s0.expenses, project_id),
                            balance_members(s0, project_id).len() as int,
                        )) && final(store)@ == s0
                },
            }
        }),
{
    match cli.command {
        Command::ProjectAdd { id, name } => {
            match store.add_project(id, name.as_str(), current_user) {
                Ok(p) => Ok(Output::ProjectAdded(p)),
                Err(e) => Err(e),
            }
        },
        Command::ProjectList => Ok(Output::Projects(store.list_projects(current_user))),
        Command::UserAdd { id, project_id, name, email } => {
            let u = match store.add_user(id, name.as_str(), email.as_str()) {
                Ok(u) => u,
                Err(e) => {
                    return Err(e);
                },
            };
            proof {
                let s0 = old(store)@;
                let pair = Member { project_id, user_id: id };
                assert(!store@.has_member(pair)) by {
                    if store@.members.contains(pair) {
                        let w = choose|w: int|
                            0 <= w < store@.members.len() && store@.members[w] == pair;
                        assert(s0.members[w] == pair);
                        assert(seq_has_user(s0.users, s0.members[w].user_id));
                    }
                }
                assert(store@.has_user(id)) by {
                    assert(store@.users[store@.users.len() - 1].id == id);
                }
            }
            match store.add_member(project_id, id) {
                Ok(_) => Ok(Output::UserAdded(u)),
                Err(e) => Err(e),
            }
        },
        Command::UserList { project_id } => Ok(Output::Members(store.list_members(project_id))),
        Command::ExpenseAdd { id, project_id, name, date, made_by, amount } => {
            match store.add_expense(id, project_id, name.as_str(), date.as_str(), made_by, amount) {
                Ok(e) => Ok(Output::ExpenseAdded(e)),
                Err(e) => Err(e),
            }
        },
        Command::ExpenseList { project_id } => Ok(Output::Expenses(store.list_expenses(project_id))),
        Command::Balance { project_id } => {
            match store.balance(project_id) {
                Ok(b) => Ok(Output::Balances(b)),
                Err(e) => Err(e),
            }
        },
    }
}

} // verus!
