use vstd::prelude::*;

verus! {

/// An expense recorded against a project: `made_by` is the paying user and
/// `amount` is denominated in integral minor currency units.
#[derive(Debug)]
pub struct Expense {
    pub id: u128,
    pub project_id: u128,
    pub name: String,
    pub date: String,
    pub made_by: u128,
    pub amount: u32,
    pub created: u64,
    pub updated: u64,
}

/// The mathematical model of an [`Expense`].
pub ghost struct ExpenseM {
    pub id: u128,
    pub project_id: u128,
    pub name: Seq<char>,
    pub date: Seq<char>,
    pub made_by: u128,
    pub amount: u32,
    pub created: u64,
    pub updated: u64,
}

impl View for Expense {
    type V = ExpenseM;

    open spec fn view(&self) -> ExpenseM {
        ExpenseM {
            id: self.id,
            project_id: self.project_id,
            name: self.name@,
            date: self.date@,
            made_by: self.made_by,
            amount: self.amount,
            created: self.created,
            updated: self.updated,
        }
    }
}

impl ExpenseM {
    /// A stored expense row is well formed: its creation stamp is no later
    /// than its update stamp.
    pub open spec fn wf(self) -> bool {
        self.created <= self.updated
    }
}

impl Expense {
    /// Returns a copy of this expense.
    pub fn duplicate(&self) -> (r: Expense)
        ensures
            r@ == self@,
    {
        Expense {
            id: self.id,
            project_id: self.project_id,
            name: self.name.clone(),
            date: self.date.clone(),
            made_by: self.made_by,
            amount: self.amount,
            created: self.created,
            updated: self.updated,
        }
    }
}

} // verus!
