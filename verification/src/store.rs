use vstd::prelude::*;
use vstd::string::*;
use crate::error::Error;
use crate::expense::{Expense, ExpenseM};
use crate::project::{
    lemma_owner_projects_elems, owner_projects, Member, Project, ProjectM, ProjectRepo,
};
use crate::user::{is_valid_email, valid_email, User, UserM, UserRepo};

verus! {

/// The mathematical model of the whole store: the rows of each table and the
/// logical clock that stamps inserted rows.
#[verifier::ext_equal]
pub ghost struct StoreM {
    pub users: Seq<UserM>,
    pub projects: Seq<ProjectM>,
    pub members: Seq<Member>,
    pub expenses: Seq<ExpenseM>,
    pub clock: u64,
}

/// Some user row carries this id.
pub open spec fn seq_has_user(users: Seq<UserM>, id: u128) -> bool {
    exists|i: int| 0 <= i < users.len() && (#[trigger] users[i]).id == id
}

/// Some user row carries this email.
pub open spec fn seq_has_email(users: Seq<UserM>, email: Seq<char>) -> bool {
    exists|i: int| 0 <= i < users.len() && (#[trigger] users[i]).email == email
}

/// Some project row carries this id.
pub open spec fn seq_has_project(projects: Seq<ProjectM>, id: u128) -> bool {
    exists|i: int| 0 <= i < projects.len() && (#[trigger] projects[i]).id == id
}

/// Some expense row carries this id.
pub open spec fn seq_has_expense(expenses: Seq<ExpenseM>, id: u128) -> bool {
    exists|i: int| 0 <= i < expenses.len() && (#[trigger] expenses[i]).id == id
}

impl StoreM {
    pub open spec fn has_user(self, id: u128) -> bool {
        seq_has_user(self.users, id)
    }

    pub open spec fn has_email(self, email: Seq<char>) -> bool {
        seq_has_email(self.users, email)
    }

    pub open spec fn has_project(self, id: u128) -> bool {
        seq_has_project(self.projects, id)
    }

    pub open spec fn has_expense(self, id: u128) -> bool {
        seq_has_expense(self.expenses, id)
    }

    pub open spec fn has_member(self, m: Member) -> bool {
        self.members.contains(m)
    }

    /// The store accepts a user insert when the email is well formed and
    /// neither the id nor the email is taken.
    pub open spec fn user_insert_ok(self, id: u128, email: Seq<char>) -> bool {
        &&& valid_email(email)
        &&& !self.has_user(id)
        &&& !self.has_email(email)
    }

    /// The row a user insert writes: created now, updated one clock tick
    /// later.
    pub open spec fn fresh_user(self, id: u128, name: Seq<char>, email: Seq<char>) -> UserM {
        UserM { id, name, email, created: self.clock, updated: (self.clock + 1) as u64 }
    }

    /// The store after a successful user insert.
    pub open spec fn with_user(self, id: u128, name: Seq<char>, email: Seq<char>) -> StoreM {
        StoreM {
            users: self.users.push(self.fresh_user(id, name, email)),
            clock: (self.clock + 2) as u64,
            ..self
        }
    }

    /// The store accepts a project insert when the id is free and the owner
    /// exists.
    pub open spec fn project_insert_ok(self, id: u128, owner_id: u128) -> bool {
        &&& !self.has_project(id)
        &&& self.has_user(owner_id)
    }

    pub open spec fn fresh_project(self, id: u128, name: Seq<char>, owner_id: u128) -> ProjectM {
        ProjectM { id, name, owner_id, created: self.clock, updated: (self.clock + 1) as u64 }
    }

    /// The store after a successful project insert.
    pub open spec fn with_project(self, id: u128, name: Seq<char>, owner_id: u128) -> StoreM {
        StoreM {
            projects: self.projects.push(self.fresh_project(id, name, owner_id)),
            clock: (self.clock + 2) as u64,
            ..self
        }
    }

    /// The store accepts a membership insert when the pair is new and both
    /// rows it references exist.
    pub open spec fn member_insert_ok(self, project_id: u128, user_id: u128) -> bool {
        &&& !self.has_member(Member { project_id, user_id })
        &&& self.has_project(project_id)
        &&& self.has_user(user_id)
    }

    /// The store after a successful membership insert.
    pub open spec fn with_member(self, project_id: u128, user_id: u128) -> StoreM {
        StoreM { members: self.members.push(Member { project_id, user_id }), ..self }
    }

    /// The store accepts an expense insert when the id is free and both the
    /// project and the payer exist.
    pub open spec fn expense_insert_ok(self, id: u128, project_id: u128, made_by: u128) -> bool {
        &&& !self.has_expense(id)
        &&& self.has_project(project_id)
        &&& self.has_user(made_by)
    }

    pub open spec fn fresh_expense(
        self,
        id: u128,
        project_id: u128,
        name: Seq<char>,
        date: Seq<char>,
        made_by: u128,
        amount: u32,
    ) -> ExpenseM {
        ExpenseM {
            id,
            project_id,
            name,
            date,
            made_by,
            amount,
            created: self.clock,
            updated: (self.clock + 1) as u64,
        }
    }

    /// The store after a successful expense insert.
    pub open spec fn with_expense(
        self,
        id: u128,
        project_id: u128,
        name: Seq<char>,
        date: Seq<char>,
        made_by: u128,
        amount: u32,
    ) -> StoreM {
        StoreM {
            expenses: self.expenses.push(
                self.fresh_expense(id, project_id, name, date, made_by, amount),
            ),
            clock: (self.clock + 2) as u64,
            ..self
        }
    }

    /// The relational constraints the store enforces: well-formed rows,
    /// unique ids, unique emails, distinct membership pairs, and foreign keys
    /// from projects, memberships and expenses to the rows they reference.
    pub open spec fn wf(self) -> bool {
        &&& forall|i: int| 0 <= i < self.users.len() ==> (#[trigger] self.users[i]).wf()
        &&& forall|i: int, j: int|
            0 <= i < self.users.len() && 0 <= j < self.users.len() && i != j ==> (
            #[trigger] self.users[i]).id != (#[trigger] self.users[j]).id
        &&& forall|i: int, j: int|
            0 <= i < self.users.len() && 0 <= j < self.users.len() && i != j ==> (
            #[trigger] self.users[i]).email != (#[trigger] self.users[j]).email
        &&& forall|i: int| 0 <= i < self.projects.len() ==> (#[trigger] self.projects[i]).wf()
        &&& forall|i: int, j: int|
            0 <= i < self.projects.len() && 0 <= j < self.projects.len() && i != j ==> (
            #[trigger] self.projects[i]).id != (#[trigger] self.projects[j]).id
        &&& forall|i: int|
            0 <= i < self.projects.len() ==> seq_has_user(
                self.users,
                (#[trigger] self.projects[i]).owner_id,
            )
        &&& forall|i: int, j: int|
            0 <= i < self.members.len() && 0 <= j < self.members.len() && i != j ==> (
            #[trigger] self.members[i]) != (#[trigger] self.members[j])
        &&& forall|i: int|
            0 <= i < self.members.len() ==> seq_has_project(
                self.projects,
                (#[trigger] self.members[i]).project_id,
            ) && seq_has_user(self.users, self.members[i].user_id)
        &&& forall|i: int| 0 <= i < self.expenses.len() ==> (#[trigger] self.expenses[i]).wf()
        &&& forall|i: int, j: int|
            0 <= i < self.expenses.len() && 0 <= j < self.expenses.len() && i != j ==> (
            #[trigger] self.expenses[i]).id != (#[trigger] self.expenses[j]).id
        &&& forall|i: int|
            0 <= i < self.expenses.len() ==> seq_has_project(
                self.projects,
                (#[trigger] self.expenses[i]).project_id,
            ) && seq_has_user(self.users, self.expenses[i].made_by)
    }
}

proof fn lemma_user_push_preserves_has(users: Seq<UserM>, u: UserM, s2: Seq<UserM>)
    requires
        s2 == users.push(u),
    ensures
        forall|id: u128| seq_has_user(users, id) ==> seq_has_user(s2, id),
        forall|email: Seq<char>| seq_has_email(users, email) ==> seq_has_email(s2, email),
{
    assert forall|id: u128| seq_has_user(users, id) implies seq_has_user(s2, id) by {
        let w = choose|w: int| 0 <= w < users.len() && (#[trigger] users[w]).id == id;
        assert(s2[w] == users[w]);
    }
    assert forall|email: Seq<char>| seq_has_email(users, email) implies seq_has_email(s2, email) by {
        let w = choose|w: int| 0 <= w < users.len() && (#[trigger] users[w]).email == email;
        assert(s2[w] == users[w]);
    }
}

/// A successful user insert keeps the store well formed.
proof fn lemma_with_user_wf(s: StoreM, id: u128, name: Seq<char>, email: Seq<char>)
    requires
        s.wf(),
        s.user_insert_ok(id, email),
        s.clock + 2 <= u64::MAX,
    ensures
        s.with_user(id, name, email).wf(),
{
    let s2 = s.with_user(id, name, email);
    lemma_user_push_preserves_has(s.users, s.fresh_user(id, name, email), s2.users);
    assert forall|i: int| 0 <= i < s2.users.len() implies (#[trigger] s2.users[i]).wf() by {
        if i < s.users.len() {
            assert(s2.users[i] == s.users[i]);
        }
    }
    assert forall|i: int, j: int|
        0 <= i < s2.users.len() && 0 <= j < s2.users.len() && i != j implies (
    #[trigger] s2.users[i]).id != (#[trigger] s2.users[j]).id by {
        if i < s.users.len() && j < s.users.len() {
        } else if i < s.users.len() {
            assert(s2.users[i] == s.users[i]);
            assert(s.users[i].id != id);
        } else {
            assert(s2.users[j] == s.users[j]);
            assert(s.users[j].id != id);
        }
    }
    assert forall|i: int, j: int|
        0 <= i < s2.users.len() && 0 <= j < s2.users.len() && i != j implies (
    #[trigger] s2.users[i]).email != (#[trigger] s2.users[j]).email by {
        if i < s.users.len() && j < s.users.len() {
        } else if i < s.users.len() {
            assert(s2.users[i] == s.users[i]);
            assert(s.users[i].email != email);
        } else {
            assert(s2.users[j] == s.users[j]);
            assert(s.users[j].email != email);
        }
    }
}

/// A successful project insert keeps the store well formed.
proof fn lemma_with_project_wf(s: StoreM, id: u128, name: Seq<char>, owner_id: u128)
    requires
        s.wf(),
        s.project_insert_ok(id, owner_id),
        s.clock + 2 <= u64::MAX,
    ensures
        s.with_project(id, name, owner_id).wf(),
{
    let s2 = s.with_project(id, name, owner_id);
    assert forall|i: int| 0 <= i < s2.projects.len() implies (#[trigger] s2.projects[i]).wf() by {
        if i < s.projects.len() {
            assert(s2.projects[i] == s.projects[i]);
        }
    }
    assert forall|i: int, j: int|
        0 <= i < s2.projects.len() && 0 <= j < s2.projects.len() && i != j implies (
    #[trigger] s2.projects[i]).id != (#[trigger] s2.projects[j]).id by {
        if i < s.projects.len() && j < s.projects.len() {
        } else if i < s.projects.len() {
            assert(s2.projects[i] == s.projects[i]);
            assert(s.projects[i].id != id);
        } else {
            assert(s2.projects[j] == s.projects[j]);
            assert(s.projects[j].id != id);
        }
    }
    assert forall|i: int|
        0 <= i < s2.projects.len() implies seq_has_user(
        s2.users,
        (#[trigger] s2.projects[i]).owner_id,
    ) by {
        if i < s.projects.len() {
            assert(s2.projects[i] == s.projects[i]);
        }
    }
    assert forall|i: int|
        0 <= i < s2.members.len() implies seq_has_project(
        s2.projects,
        (#[trigger] s2.members[i]).project_id,
    ) && seq_has_user(s2.users, s2.members[i].user_id) by {
        let w = choose|w: int|
            0 <= w < s.projects.len() && (#[trigger] s.projects[w]).id == s.members[i].project_id;
        assert(s2.projects[w] == s.projects[w]);
    }
    assert forall|i: int|
        0 <= i < s2.expenses.len() implies seq_has_project(
        s2.projects,
        (#[trigger] s2.expenses[i]).project_id,
    ) && seq_has_user(s2.users, s2.expenses[i].made_by) by {
        let w = choose|w: int|
            0 <= w < s.projects.len() && (#[trigger] s.projects[w]).id == s.expenses[i].project_id;
        assert(s2.projects[w] == s.projects[w]);
    }
}

/// A successful membership insert keeps the store well formed.
proof fn lemma_with_member_wf(s: StoreM, project_id: u128, user_id: u128)
    requires
        s.wf(),
        s.member_insert_ok(project_id, user_id),
    ensures
        s.with_member(project_id, user_id).wf(),
{
    let s2 = s.with_member(project_id, user_id);
    let m = Member { project_id, user_id };
    assert forall|i: int, j: int|
        0 <= i < s2.members.len() && 0 <= j < s2.members.len() && i != j implies (
    #[trigger] s2.members[i]) != (#[trigger] s2.members[j]) by {
        if i < s.members.len() && j < s.members.len() {
        } else if i < s.members.len() {
            assert(s2.members[i] == s.members[i]);
            assert(s.members.contains(s.members[i]));
        } else {
            assert(s2.members[j] == s.members[j]);
            assert(s.members.contains(s.members[j]));
        }
    }
    assert forall|i: int|
        0 <= i < s2.members.len() implies seq_has_project(
        s2.projects,
        (#[trigger] s2.members[i]).project_id,
    ) && seq_has_user(s2.users, s2.members[i].user_id) by {
        if i < s.members.len() {
            assert(s2.members[i] == s.members[i]);
        }
    }
}

/// A successful expense insert keeps the store well formed.
proof fn lemma_with_expense_wf(
    s: StoreM,
    id: u128,
    project_id: u128,
    name: Seq<char>,
    date: Seq<char>,
    made_by: u128,
    amount: u32,
)
    requires
        s.wf(),
        s.expense_insert_ok(id, project_id, made_by),
        s.clock + 2 <= u64::MAX,
    ensures
        s.with_expense(id, project_id, name, date, made_by, amount).wf(),
{
    let s2 = s.with_expense(id, project_id, name, date, made_by, amount);
    assert forall|i: int| 0 <= i < s2.expenses.len() implies (#[trigger] s2.expenses[i]).wf() by {
        if i < s.expenses.len() {
            assert(s2.expenses[i] == s.expenses[i]);
        }
    }
    assert forall|i: int, j: int|
        0 <= i < s2.expenses.len() && 0 <= j < s2.expenses.len() && i != j implies (
    #[trigger] s2.expenses[i]).id != (#[trigger] s2.expenses[j]).id by {
        if i < s.expenses.len() && j < s.expenses.len() {
        } else if i < s.expenses.len() {
            assert(s2.expenses[i] == s.expenses[i]);
            assert(s.expenses[i].id != id);
        } else {
            assert(s2.expenses[j] == s.expenses[j]);
            assert(s.expenses[j].id != id);
        }
    }
    assert forall|i: int|
        0 <= i < s2.expenses.len() implies seq_has_project(
        s2.projects,
        (#[trigger] s2.expenses[i]).project_id,
    ) && seq_has_user(s2.users, s2.expenses[i].made_by) by {
        if i < s.expenses.len() {
            assert(s2.expenses[i] == s.expenses[i]);
        }
    }
}

/// The user ids of a project's explicitly added members, in insertion order.
pub open spec fn project_member_ids(members: Seq<Member>, project_id: u128) -> Seq<u128>
    decreases members.len(),
{
    if members.len() == 0 {
        Seq::empty()
    } else {
        let prefix = project_member_ids(members.drop_last(), project_id);
        if members.last().project_id == project_id {
            prefix.push(members.last().user_id)
        } else {
            prefix
        }
    }
}

/// The expenses recorded against a project, in insertion order.
pub open spec fn project_expenses(expenses: Seq<ExpenseM>, project_id: u128) -> Seq<ExpenseM>
    decreases expenses.len(),
{
    if expenses.len() == 0 {
        Seq::empty()
    } else {
        let prefix = project_expenses(expenses.drop_last(), project_id);
        if expenses.last().project_id == project_id {
            prefix.push(expenses.last())
        } else {
            prefix
        }
    }
}

/// A member list extended by every payer not yet in it, in first-payment
/// order.
pub open spec fn add_payers(base: Seq<u128>, expenses: Seq<ExpenseM>) -> Seq<u128>
    decreases expenses.len(),
{
    if expenses.len() == 0 {
        base
    } else {
        let prefix = add_payers(base, expenses.drop_last());
        if prefix.contains(expenses.last().made_by) {
            prefix
        } else {
            prefix.push(expenses.last().made_by)
        }
    }
}

/// The members that take part in a project's balance: the explicitly added
/// members joined by every expense payer.
pub open spec fn balance_members(s: StoreM, project_id: u128) -> Seq<u128> {
    add_payers(
        project_member_ids(s.members, project_id),
        project_expenses(s.expenses, project_id),
    )
}

/// Every collected member id comes from a membership row of the project.
proof fn lemma_member_ids_elems(ms: Seq<Member>, project_id: u128)
    ensures
        forall|k: int|
            0 <= k < project_member_ids(ms, project_id).len() ==> ms.contains(
                Member { project_id, user_id: (#[trigger] project_member_ids(ms, project_id)[k]) },
            ),
    decreases ms.len(),
{
    if ms.len() > 0 {
        lemma_member_ids_elems(ms.drop_last(), project_id);
        let prefix = project_member_ids(ms.drop_last(), project_id);
        let l = project_member_ids(ms, project_id);
        assert forall|k: int| 0 <= k < l.len() implies ms.contains(
            Member { project_id, user_id: l[k] },
        ) by {
            if k < prefix.len() {
                assert(l[k] == prefix[k]);
                let i = choose|i: int|
                    0 <= i < ms.drop_last().len() && ms.drop_last()[i] == (Member {
                        project_id,
                        user_id: prefix[k],
                    });
                assert(ms[i] == (Member { project_id, user_id: l[k] }));
            } else {
                assert(ms.last().project_id == project_id && l[k] == ms.last().user_id);
                assert(ms[ms.len() - 1] == (Member { project_id, user_id: l[k] }));
            }
        }
    }
}

/// Distinct membership rows give a duplicate-free member id list per project.
proof fn lemma_member_ids_no_dup(ms: Seq<Member>, project_id: u128)
    requires
        forall|i: int, j: int|
            0 <= i < ms.len() && 0 <= j < ms.len() && i != j ==> (#[trigger] ms[i]) != (
            #[trigger] ms[j]),
    ensures
        project_member_ids(ms, project_id).no_duplicates(),
    decreases ms.len(),
{
    if ms.len() > 0 {
        assert(forall|i: int|
            0 <= i < ms.drop_last().len() ==> (#[trigger] ms.drop_last()[i]) == ms[i]);
        lemma_member_ids_no_dup(ms.drop_last(), project_id);
        let prefix = project_member_ids(ms.drop_last(), project_id);
        if ms.last().project_id == project_id {
            assert(!prefix.contains(ms.last().user_id)) by {
                if prefix.contains(ms.last().user_id) {
                    let k = choose|k: int|
                        0 <= k < prefix.len() && prefix[k] == ms.last().user_id;
                    lemma_member_ids_elems(ms.drop_last(), project_id);
                    assert(ms.drop_last().contains(
                        Member { project_id, user_id: prefix[k] },
                    ));
                    let i = choose|i: int|
                        0 <= i < ms.drop_last().len() && ms.drop_last()[i] == (Member {
                            project_id,
                            user_id: prefix[k],
                        });
                    assert(ms[i] == ms[ms.len() - 1]);
                }
            }
            let l = project_member_ids(ms, project_id);
            assert(l == prefix.push(ms.last().user_id));
            assert forall|p: int, q: int|
                0 <= p < l.len() && 0 <= q < l.len() && p != q implies l[p] != l[q] by {
                if p < prefix.len() && q < prefix.len() {
                    assert(prefix[p] != prefix[q]);
                }
            }
        }
    }
}

/// Joining the payers keeps the list duplicate-free, keeps everything already
/// in it, and brings in the payer of every expense.
proof fn lemma_add_payers_props(base: Seq<u128>, expenses: Seq<ExpenseM>)
    requires
        base.no_duplicates(),
    ensures
        add_payers(base, expenses).no_duplicates(),
        forall|x: u128| base.contains(x) ==> add_payers(base, expenses).contains(x),
        forall|j: int|
            0 <= j < expenses.len() ==> add_payers(base, expenses).contains(
                (#[trigger] expenses[j]).made_by,
            ),
    decreases expenses.len(),
{
    if expenses.len() > 0 {
        assert(forall|i: int|
            0 <= i < expenses.drop_last().len() ==> (#[trigger] expenses.drop_last()[i])
                == expenses[i]);
        lemma_add_payers_props(base, expenses.drop_last());
        let prefix = add_payers(base, expenses.drop_last());
        let l = add_payers(base, expenses);
        let payer = expenses.last().made_by;
        if prefix.contains(payer) {
            assert(l == prefix);
        } else {
            assert(l == prefix.push(payer));
            assert forall|p: int, q: int|
                0 <= p < l.len() && 0 <= q < l.len() && p != q implies l[p] != l[q] by {
                if p < prefix.len() && q < prefix.len() {
                    assert(prefix[p] != prefix[q]);
                }
            }
            assert forall|x: u128| prefix.contains(x) implies l.contains(x) by {
                let w = choose|w: int| 0 <= w < prefix.len() && prefix[w] == x;
                assert(l[w] == x);
            }
            assert(l[l.len() - 1] == payer);
        }
        assert forall|j: int| 0 <= j < expenses.len() implies l.contains(
            (#[trigger] expenses[j]).made_by,
        ) by {
            if j < expenses.len() - 1 {
                assert(expenses.drop_last()[j] == expenses[j]);
                assert(prefix.contains(expenses[j].made_by));
                let w = choose|w: int|
                    0 <= w < prefix.len() && prefix[w] == expenses[j].made_by;
                assert(l[w] == expenses[j].made_by);
            } else {
                assert(l.contains(payer)) by {
                    if prefix.contains(payer) {
                        let w = choose|w: int| 0 <= w < prefix.len() && prefix[w] == payer;
                        assert(l[w] == payer);
                    } else {
                        assert(l[l.len() - 1] == payer);
                    }
                }
            }
        }
    }
}

/// Whether a list of ids holds `x`.
fn contains_id(v: &Vec<u128>, x: u128) -> (r: bool)
    ensures
        r == v@.contains(x),
{
    let mut i: usize = 0;
    while i < v.len()
        invariant
            i <= v@.len(),
            forall|j: int| 0 <= j < i ==> v@[j] != x,
        decreases v@.len() - i,
    {
        if v[i] == x {
            proof {
                assert(v@[i as int] == x);
            }
            return true;
        }
        i += 1;
    }
    false
}

/// An in-memory store satisfying the relational constraints of the backing
/// database: unique ids, unique well-formed emails, foreign keys, and
/// store-managed timestamps from a logical clock that ticks between the
/// `created` and `updated` stamps of an inserted row.
pub struct Store {
    pub users: Vec<User>,
    pub projects: Vec<Project>,
    pub members: Vec<Member>,
    pub expenses: Vec<Expense>,
    pub clock: u64,
}

impl View for Store {
    type V = StoreM;

    open spec fn view(&self) -> StoreM {
        StoreM {
            users: self.users@.map_values(|u: User| u@),
            projects: self.projects@.map_values(|p: Project| p@),
            members: self.members@,
            expenses: self.expenses@.map_values(|e: Expense| e@),
            clock: self.clock,
        }
    }
}

impl Store {
    /// Creates an empty store with its clock at zero.
    pub fn new() -> (r: Store)
        ensures
            r@ == (StoreM {
                users: Seq::<UserM>::empty(),
                projects: Seq::<ProjectM>::empty(),
                members: Seq::<Member>::empty(),
                expenses: Seq::<ExpenseM>::empty(),
                clock: 0,
            }),
            r@.wf(),
    {
        let s = Store {
            users: Vec::new(),
            projects: Vec::new(),
            members: Vec::new(),
            expenses: Vec::new(),
            clock: 0,
        };
        proof {
            assert(s@ =~= StoreM {
                users: Seq::<UserM>::empty(),
                projects: Seq::<ProjectM>::empty(),
                members: Seq::<Member>::empty(),
                expenses: Seq::<ExpenseM>::empty(),
                clock: 0,
            });
        }
        s
    }

    /// Looks a user up by id.
    pub fn get_user(&self, id: u128) -> (r: Option<User>)
        ensures
            match r {
                Some(u) => u@.id == id && self@.users.contains(u@),
                None => !self@.has_user(id),
            },
    {
        let mut i: usize = 0;
        while i < self.users.len()
            invariant
                i <= self.users@.len(),
                forall|j: int| 0 <= j < i ==> (#[trigger] self.users@[j])@.id != id,
            decreases self.users@.len() - i,
        {
            if self.users[i].id == id {
                let u = self.users[i].duplicate();
                proof {
                    assert(self@.users[i as int] == u@);
                    assert(self@.users.contains(u@));
                }
                return Some(u);
            }
            i += 1;
        }
        proof {
            assert forall|j: int| 0 <= j < self@.users.len() implies (#[trigger] self@.users[j]).id
                != id by {
                assert(self@.users[j] == self.users@[j]@);
            }
        }
        None
    }

    /// Whether a project with this id is stored.
    pub fn find_project(&self, id: u128) -> (r: bool)
        ensures
            r == self@.has_project(id),
    {
        let mut i: usize = 0;
        while i < self.projects.len()
            invariant
                i <= self.projects@.len(),
                forall|j: int| 0 <= j < i ==> (#[trigger] self.projects@[j])@.id != id,
            decreases self.projects@.len() - i,
        {
            if self.projects[i].id == id {
                proof {
                    assert(self@.projects[i as int] == self.projects@[i as int]@);
                }
                return true;
            }
            i += 1;
        }
        proof {
            assert forall|j: int|
                0 <= j < self@.projects.len() implies (#[trigger] self@.projects[j]).id != id by {
                assert(self@.projects[j] == self.projects@[j]@);
            }
        }
        false
    }

    /// Adds `user_id` to the expense splits of `project_id`. A repeated pair
    /// fails with `ConstraintViolation`, a missing project or user with
    /// `ForeignKeyViolation`; a failed insert persists nothing.
    pub fn add_member(&mut self, project_id: u128, user_id: u128) -> (r: Result<(), Error>)
        requires
            old(self)@.wf(),
        ensures
            final(self)@.wf(),
            old(self)@.member_insert_ok(project_id, user_id) ==> r is Ok && final(self)@ == old(
                self,
            )@.with_member(project_id, user_id),
            old(self)@.has_member(Member { project_id, user_id }) ==> r == Err::<(), Error>(
                Error::ConstraintViolation,
            ) && final(self)@ == old(self)@,
            !old(self)@.has_member(Member { project_id, user_id }) && (!old(self)@.has_project(
                project_id,
            ) || !old(self)@.has_user(user_id)) ==> r == Err::<(), Error>(
                Error::ForeignKeyViolation,
            ) && final(self)@ == old(self)@,
    {
        let pair = Member { project_id, user_id };
        let mut i: usize = 0;
        while i < self.members.len()
            invariant
                *self == *old(self),
                self@.wf(),
                pair == (Member { project_id, user_id }),
                i <= self.members@.len(),
                forall|j: int| 0 <= j < i ==> (#[trigger] self.members@[j]) != pair,
            decreases self.members@.len() - i,
        {
            if self.members[i].project_id == project_id && self.members[i].user_id == user_id {
                proof {
                    assert(self@.members[i as int] == pair);
                    assert(self@.members.contains(pair));
                }
                return Err(Error::ConstraintViolation);
            }
            i += 1;
        }
        proof {
            assert(!self@.has_member(pair)) by {
                if self@.members.contains(pair) {
                    let w = choose|w: int|
                        0 <= w < self@.members.len() && self@.members[w] == pair;
                    assert(self.members@[w] != pair);
                }
            }
        }
        if !self.find_project(project_id) {
            return Err(Error::ForeignKeyViolation);
        }
        match self.get_user(user_id) {
            Some(member_user) => {
                proof {
                    let w = choose|w: int|
                        0 <= w < self@.users.len() && #[trigger] self@.users[w] == member_user@;
                    assert(self@.users[w].id == user_id);
                }
            },
            None => {
                return Err(Error::ForeignKeyViolation);
            },
        }
        let ghost prev = self@;
        self.members.push(pair);
        proof {
            assert(self@ =~= prev.with_member(project_id, user_id));
            lemma_with_member_wf(prev, project_id, user_id);
        }
        Ok(())
    }

    /// Lists the explicitly added member ids of a project, in insertion
    /// order.
    pub fn list_members(&self, project_id: u128) -> (r: Vec<u128>)
        ensures
            r@ == project_member_ids(self@.members, project_id),
    {
        let mut out: Vec<u128> = Vec::new();
        let mut i: usize = 0;
        while i < self.members.len()
            invariant
                i <= self.members@.len(),
                out@ == project_member_ids(self@.members.take(i as int), project_id),
            decreases self.members@.len() - i,
        {
            proof {
                assert(self@.members.take(i as int + 1).drop_last() =~= self@.members.take(
                    i as int,
                ));
                assert(self@.members.take(i as int + 1).last() == self@.members[i as int]);
            }
            let m = self.members[i];
            if m.project_id == project_id {
                out.push(m.user_id);
            }
            i += 1;
        }
        proof {
            assert(self@.members.take(self.members@.len() as int) =~= self@.members);
        }
        out
    }

    /// Records an expense with a caller-supplied id; the store assigns the
    /// timestamps. A taken id fails with `ConstraintViolation`, a missing
    /// project or payer with `ForeignKeyViolation`; a failed insert persists
    /// nothing.
    pub fn add_expense(
        &mut self,
        id: u128,
        project_id: u128,
        name: &str,
        date: &str,
        made_by: u128,
        amount: u32,
    ) -> (r: Result<Expense, Error>)
        requires
            old(self)@.wf(),
            old(self)@.clock + 2 <= u64::MAX,
        ensures
            final(self)@.wf(),
            old(self)@.expense_insert_ok(id, project_id, made_by) ==> r is Ok && r->Ok_0@ == old(
                self,
            )@.fresh_expense(id, project_id, name@, date@, made_by, amount) && final(self)@ == old(
                self,
            )@.with_expense(id, project_id, name@, date@, made_by, amount),
            old(self)@.has_expense(id) ==> r == Err::<Expense, Error>(Error::ConstraintViolation)
                && final(self)@ == old(self)@,
            !old(self)@.has_expense(id) && (!old(self)@.has_project(project_id) || !old(
                self,
            )@.has_user(made_by)) ==> r == Err::<Expense, Error>(Error::ForeignKeyViolation)
                && final(self)@ == old(self)@,
    {
        let mut i: usize = 0;
        while i < self.expenses.len()
            invariant
                *self == *old(self),
                self@.wf(),
                i <= self.expenses@.len(),
                forall|j: int| 0 <= j < i ==> (#[trigger] self.expenses@[j])@.id != id,
            decreases self.expenses@.len() - i,
        {
            if self.expenses[i].id == id {
                proof {
                    assert(self@.expenses[i as int] == self.expenses@[i as int]@);
                }
                return Err(Error::ConstraintViolation);
            }
            i += 1;
        }
        proof {
            assert forall|j: int|
                0 <= j < self@.expenses.len() implies (#[trigger] self@.expenses[j]).id != id by {
                assert(self@.expenses[j] == self.expenses@[j]@);
            }
        }
        if !self.find_project(project_id) {
            return Err(Error::ForeignKeyViolation);
        }
        match self.get_user(made_by) {
            Some(payer) => {
                proof {
                    let w = choose|w: int|
                        0 <= w < self@.users.len() && #[trigger] self@.users[w] == payer@;
                    assert(self@.users[w].id == made_by);
                }
            },
            None => {
                return Err(Error::ForeignKeyViolation);
            },
        }
        let created = self.clock;
        let expense = Expense {
            id,
            project_id,
            name: String::from_str(name),
            date: String::from_str(date),
            made_by,
            amount,
            created,
            updated: created + 1,
        };
        let ret = expense.duplicate();
        let ghost prev = self@;
        self.expenses.push(expense);
        self.clock = self.clock + 2;
        proof {
            assert(self@.expenses =~= prev.expenses.push(
                prev.fresh_expense(id, project_id, name@, date@, made_by, amount),
            ));
            assert(self@ =~= prev.with_expense(id, project_id, name@, date@, made_by, amount));
            lemma_with_expense_wf(prev, id, project_id, name@, date@, made_by, amount);
        }
        Ok(ret)
    }

    /// Lists the expenses of a project, in insertion order.
    pub fn list_expenses(&self, project_id: u128) -> (r: Vec<Expense>)
        ensures
            r@.map_values(|e: Expense| e@) == project_expenses(self@.expenses, project_id),
    {
        let mut out: Vec<Expense> = Vec::new();
        let mut i: usize = 0;
        while i < self.expenses.len()
            invariant
                i <= self.expenses@.len(),
                out@.map_values(|e: Expense| e@) == project_expenses(
                    self@.expenses.take(i as int),
                    project_id,
                ),
            decreases self.expenses@.len() - i,
        {
            proof {
                assert(self@.expenses.take(i as int + 1).drop_last() =~= self@.expenses.take(
                    i as int,
                ));
                assert(self@.expenses.take(i as int + 1).last() == self@.expenses[i as int]);
                assert(self@.expenses[i as int] == self.expenses@[i as int]@);
            }
            let e = &self.expenses[i];
            if e.project_id == project_id {
                out.push(e.duplicate());
                proof {
                    assert(out@.map_values(|e: Expense| e@) =~= project_expenses(
                        self@.expenses.take(i as int + 1),
                        project_id,
                    ));
                }
            } else {
                proof {
                    assert(out@.map_values(|e: Expense| e@) =~= project_expenses(
                        self@.expenses.take(i as int + 1),
                        project_id,
                    ));
                }
            }
            i += 1;
        }
        proof {
            assert(self@.expenses.take(self.expenses@.len() as int) =~= self@.expenses);
        }
        out
    }

    /// Computes the net balance of every member of a project under the
    /// equal-split policy: the explicitly added members joined by every
    /// payer, paired with their balances. A missing project fails with
    /// `NotFound`; a project without members fails with `EmptyProjectError`.
    pub fn balance(&self, project_id: u128) -> (r: Result<Vec<(u128, i128)>, Error>)
        requires
            self@.wf(),
        ensures
            !self@.has_project(project_id) ==> r == Err::<Vec<(u128, i128)>, Error>(
                Error::NotFound,
            ),
            self@.has_project(project_id) && balance_members(self@, project_id).len() == 0 ==> r
                == Err::<Vec<(u128, i128)>, Error>(Error::EmptyProjectError),
            self@.has_project(project_id) && balance_members(self@, project_id).len() >= 1 ==> r
                is Ok && r->Ok_0@.len() == balance_members(self@, project_id).len() && forall|i: int|
                0 <= i < balance_members(self@, project_id).len() ==> (#[trigger] r->Ok_0@[i]).0
                    == balance_members(self@, project_id)[i] && r->Ok_0@[i].1 as int
                    == crate::balance::member_balance(
                    balance_members(self@, project_id)[i],
                    project_expenses(self@.expenses, project_id),
                    balance_members(self@, project_id).len() as int,
                ),
    {
        if !self.find_project(project_id) {
            return Err(Error::NotFound);
        }
        let mut ms: Vec<u128> = self.list_members(project_id);
        let es: Vec<Expense> = self.list_expenses(project_id);
        let ghost base = ms@;
        let ghost fes = crate::balance::expense_views(es@);
        proof {
            assert(fes == project_expenses(self@.expenses, project_id));
        }
        let mut k: usize = 0;
        while k < es.len()
            invariant
                k <= es@.len(),
                fes == crate::balance::expense_views(es@),
                fes == project_expenses(self@.expenses, project_id),
                ms@ == add_payers(base, fes.take(k as int)),
            decreases es@.len() - k,
        {
            proof {
                assert(fes.take(k as int + 1).drop_last() =~= fes.take(k as int));
                assert(fes.take(k as int + 1).last() == fes[k as int]);
                assert(fes[k as int] == es@[k as int]@);
            }
            let payer = es[k].made_by;
            if !contains_id(&ms, payer) {
                ms.push(payer);
            }
            k += 1;
        }
        proof {
            assert(fes.take(es@.len() as int) =~= fes);
            assert(ms@ == balance_members(self@, project_id));
            lemma_member_ids_no_dup(self@.members, project_id);
            lemma_add_payers_props(base, fes);
            assert forall|i: int| 0 <= i < es@.len() implies ms@.contains(
                (#[trigger] es@[i])@.made_by,
            ) by {
                assert(fes[i] == es@[i]@);
            }
        }
        crate::balance::compute_balances(&ms, &es)
    }
}

impl UserRepo for Store {
    open spec fn model(&self) -> StoreM {
        self@
    }

    fn add_user(&mut self, id: u128, name: &str, email: &str) -> (r: Result<User, Error>) {
        if !is_valid_email(email) {
            return Err(Error::ConstraintViolation);
        }
        let email_owned = String::from_str(email);
        let mut i: usize = 0;
        while i < self.users.len()
            invariant
                *self == *old(self),
                self@.wf(),
                i <= self.users@.len(),
                email_owned@ == email@,
                forall|j: int|
                    0 <= j < i ==> (#[trigger] self.users@[j])@.id != id && self.users@[j]@.email
                        != email@,
            decreases self.users@.len() - i,
        {
            if self.users[i].id == id || self.users[i].email == email_owned {
                proof {
                    assert(self@.users[i as int] == self.users@[i as int]@);
                }
                return Err(Error::ConstraintViolation);
            }
            i += 1;
        }
        proof {
            assert forall|j: int| 0 <= j < self@.users.len() implies (#[trigger] self@.users[j]).id
                != id && self@.users[j].email != email@ by {
                assert(self@.users[j] == self.users@[j]@);
            }
            assert(old(self)@.user_insert_ok(id, email@));
        }
        let created = self.clock;
        let user = User {
            id,
            name: String::from_str(name),
            email: email_owned,
            created,
            updated: created + 1,
        };
        let ret = user.duplicate();
        let ghost prev = self@;
        self.users.push(user);
        self.clock = self.clock + 2;
        proof {
            assert(self@.users =~= prev.users.push(prev.fresh_user(id, name@, email@)));
            assert(self@ =~= prev.with_user(id, name@, email@));
            lemma_with_user_wf(prev, id, name@, email@);
        }
        Ok(ret)
    }
}

impl ProjectRepo for Store {
    open spec fn model(&self) -> StoreM {
        self@
    }

    fn list_projects(&self, owner_id: u128) -> (r: Vec<Project>) {
        let mut out: Vec<Project> = Vec::new();
        let mut i: usize = 0;
        while i < self.projects.len()
            invariant
                i <= self.projects@.len(),
                out@.map_values(|p: Project| p@) == owner_projects(
                    self@.projects.take(i as int),
                    owner_id,
                ),
            decreases self.projects@.len() - i,
        {
            proof {
                assert(self@.projects.take(i as int + 1).drop_last() =~= self@.projects.take(
                    i as int,
                ));
                assert(self@.projects.take(i as int + 1).last() == self@.projects[i as int]);
                assert(self@.projects[i as int] == self.projects@[i as int]@);
            }
            let p = &self.projects[i];
            if p.owner_id == owner_id {
                out.push(p.duplicate());
                proof {
                    assert(out@.map_values(|p: Project| p@) =~= owner_projects(
                        self@.projects.take(i as int + 1),
                        owner_id,
                    ));
                }
            } else {
                proof {
                    assert(out@.map_values(|p: Project| p@) =~= owner_projects(
                        self@.projects.take(i as int + 1),
                        owner_id,
                    ));
                }
            }
            i += 1;
        }
        proof {
            assert(self@.projects.take(self.projects@.len() as int) =~= self@.projects);
        }
        out
    }

    fn add_project(&mut self, id: u128, name: &str, owner_id: u128) -> (r: Result<Project, Error>) {
        let mut i: usize = 0;
        while i < self.projects.len()
            invariant
                *self == *old(self),
                self@.wf(),
                i <= self.projects@.len(),
                forall|j: int| 0 <= j < i ==> (#[trigger] self.projects@[j])@.id != id,
            decreases self.projects@.len() - i,
        {
            if self.projects[i].id == id {
                proof {
                    assert(self@.projects[i as int] == self.projects@[i as int]@);
                }
                return Err(Error::ConstraintViolation);
            }
            i += 1;
        }
        proof {
            assert forall|j: int| 0 <= j < self@.projects.len() implies (
            #[trigger] self@.projects[j]).id != id by {
                assert(self@.projects[j] == self.projects@[j]@);
            }
        }
        match self.get_user(owner_id) {
            Some(owner) => {
                proof {
                    let w = choose|w: int|
                        0 <= w < self@.users.len() && #[trigger] self@.users[w] == owner@;
                    assert(self@.users[w].id == owner_id);
                }
            },
            None => {
                return Err(Error::ForeignKeyViolation);
            },
        }
        let created = self.clock;
        let project = Project {
            id,
            name: String::from_str(name),
            owner_id,
            created,
            updated: created + 1,
        };
        let ret = project.duplicate();
        let ghost prev = self@;
        self.projects.push(project);
        self.clock = self.clock + 2;
        proof {
            assert(self@.projects =~= prev.projects.push(prev.fresh_project(id, name@, owner_id)));
            assert(self@ =~= prev.with_project(id, name@, owner_id));
            lemma_with_project_wf(prev, id, name@, owner_id);
        }
        Ok(ret)
    }
}

/// Inserting a valid user and then looking the id up finds exactly the
/// inserted row: matching fields, and a creation stamp no later than the
/// update stamp.
pub proof fn lemma_add_user_then_lookup(s: StoreM, id: u128, name: Seq<char>, email: Seq<char>)
    requires
        s.wf(),
        s.user_insert_ok(id, email),
        s.clock + 2 <= u64::MAX,
    ensures
        ({
            let s2 = s.with_user(id, name, email);
            let u = s.fresh_user(id, name, email);
            &&& s2.wf()
            &&& s2.has_user(id)
            &&& forall|i: int|
                0 <= i < s2.users.len() && (#[trigger] s2.users[i]).id == id ==> s2.users[i] == u
            &&& u.id == id && u.name == name && u.email == email && u.created <= u.updated
        }),
{
    lemma_with_user_wf(s, id, name, email);
    let s2 = s.with_user(id, name, email);
    let u = s.fresh_user(id, name, email);
    assert(s2.users[s2.users.len() - 1] == u);
    assert forall|i: int|
        0 <= i < s2.users.len() && (#[trigger] s2.users[i]).id == id implies s2.users[i] == u by {
        if i < s.users.len() {
            assert(s2.users[i] == s.users[i]);
        }
    }
}

/// Adding a project and then listing the owner's projects finds exactly one
/// project with the inserted id, carrying the given name and owner; it is the
/// last of the listing.
pub proof fn lemma_add_project_then_list(s: StoreM, id: u128, name: Seq<char>, owner_id: u128)
    requires
        s.wf(),
        s.project_insert_ok(id, owner_id),
        s.clock + 2 <= u64::MAX,
    ensures
        ({
            let l = owner_projects(s.with_project(id, name, owner_id).projects, owner_id);
            &&& s.with_project(id, name, owner_id).wf()
            &&& l.len() >= 1
            &&& l.last() == s.fresh_project(id, name, owner_id)
            &&& l.last().id == id && l.last().name == name && l.last().owner_id == owner_id
            &&& forall|k: int| 0 <= k < l.len() && (#[trigger] l[k]).id == id ==> k == l.len() - 1
        }),
{
    lemma_with_project_wf(s, id, name, owner_id);
    let p = s.fresh_project(id, name, owner_id);
    let ps2 = s.with_project(id, name, owner_id).projects;
    assert(ps2.drop_last() =~= s.projects);
    assert(ps2.last() == p);
    let l = owner_projects(ps2, owner_id);
    assert(l == owner_projects(s.projects, owner_id).push(p));
    lemma_owner_projects_elems(s.projects, owner_id);
    assert forall|k: int| 0 <= k < l.len() && (#[trigger] l[k]).id == id implies k == l.len()
        - 1 by {
        if k < l.len() - 1 {
            assert(l[k] == owner_projects(s.projects, owner_id)[k]);
            let i = choose|i: int|
                0 <= i < s.projects.len() && s.projects[i] == owner_projects(
                    s.projects,
                    owner_id,
                )[k];
            assert(s.projects[i].id != id);
        }
    }
}

/// Balance conservation at the store: over the member list that a project's
/// balance query assembles, the computed balances of any well-formed store
/// sum to exactly zero.
pub proof fn lemma_store_balance_conservation(s: StoreM, project_id: u128)
    requires
        s.wf(),
        balance_members(s, project_id).len() >= 1,
    ensures
        crate::balance::total_balance(
            balance_members(s, project_id),
            project_expenses(s.expenses, project_id),
            balance_members(s, project_id).len() as int,
        ) == 0,
{
    let base = project_member_ids(s.members, project_id);
    let es = project_expenses(s.expenses, project_id);
    lemma_member_ids_no_dup(s.members, project_id);
    lemma_add_payers_props(base, es);
    crate::balance::lemma_balance_conservation(balance_members(s, project_id), es);
}

} // verus!
