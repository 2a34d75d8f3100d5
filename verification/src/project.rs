use vstd::prelude::*;
use crate::error::Error;
use crate::store::StoreM;

verus! {

/// A project: a collection of members and expenses owned by one user.
#[derive(Debug)]
pub struct Project {
    pub id: u128,
    pub name: String,
    pub owner_id: u128,
    pub created: u64,
    pub updated: u64,
}

/// The mathematical model of a [`Project`].
pub ghost struct ProjectM {
    pub id: u128,
    pub name: Seq<char>,
    pub owner_id: u128,
    pub created: u64,
    pub updated: u64,
}

impl View for Project {
    type V = ProjectM;

    open spec fn view(&self) -> ProjectM {
        ProjectM {
            id: self.id,
            name: self.name@,
            owner_id: self.owner_id,
            created: self.created,
            updated: self.updated,
        }
    }
}

impl ProjectM {
    /// A stored project row is well formed: its creation stamp is no later
    /// than its update stamp.
    pub open spec fn wf(self) -> bool {
        self.created <= self.updated
    }
}

impl Project {
    /// Returns a copy of this project.
    pub fn duplicate(&self) -> (r: Project)
        ensures
            r@ == self@,
    {
        Project {
            id: self.id,
            name: self.name.clone(),
            owner_id: self.owner_id,
            created: self.created,
            updated: self.updated,
        }
    }
}

/// The projects of one owner, in creation order.
pub open spec fn owner_projects(projects: Seq<ProjectM>, owner_id: u128) -> Seq<ProjectM>
    decreases projects.len(),
{
    if projects.len() == 0 {
        Seq::empty()
    } else {
        let prefix = owner_projects(projects.drop_last(), owner_id);
        if projects.last().owner_id == owner_id {
            prefix.push(projects.last())
        } else {
            prefix
        }
    }
}

/// Every listed project belongs to the owner and comes from the stored rows.
pub proof fn lemma_owner_projects_elems(ps: Seq<ProjectM>, owner_id: u128)
    ensures
        forall|k: int|
            0 <= k < owner_projects(ps, owner_id).len() ==> (#[trigger] owner_projects(
                ps,
                owner_id,
            )[k]).owner_id == owner_id && exists|i: int|
                0 <= i < ps.len() && ps[i] == owner_projects(ps, owner_id)[k],
    decreases ps.len(),
{
    if ps.len() > 0 {
        lemma_owner_projects_elems(ps.drop_last(), owner_id);
        let prefix = owner_projects(ps.drop_last(), owner_id);
        let l = owner_projects(ps, owner_id);
        assert forall|k: int| 0 <= k < l.len() implies (#[trigger] l[k]).owner_id == owner_id
            && exists|i: int| 0 <= i < ps.len() && ps[i] == l[k] by {
            if k < prefix.len() {
                assert(l[k] == prefix[k]);
                let i = choose|i: int|
                    0 <= i < ps.drop_last().len() && ps.drop_last()[i] == prefix[k];
                assert(ps[i] == l[k]);
            } else {
                assert(l[k] == ps.last());
                assert(ps[ps.len() - 1] == l[k]);
            }
        }
    }
}

/// An owner with no stored project lists an empty sequence.
pub proof fn lemma_list_projects_empty(projects: Seq<ProjectM>, owner_id: u128)
    requires
        forall|i: int| 0 <= i < projects.len() ==> (#[trigger] projects[i]).owner_id != owner_id,
    ensures
        owner_projects(projects, owner_id) == Seq::<ProjectM>::empty(),
    decreases projects.len(),
{
    if projects.len() > 0 {
        assert(forall|i: int|
            0 <= i < projects.drop_last().len() ==> (#[trigger] projects.drop_last()[i])
                == projects[i]);
        lemma_list_projects_empty(projects.drop_last(), owner_id);
    }
}

/// A capability-scoped repository of projects over a store whose model is a
/// [`StoreM`].
pub trait ProjectRepo {
    /// The store state this repository acts on.
    spec fn model(&self) -> StoreM;

    /// Lists the projects of one owner in creation order; an owner with no
    /// projects gets an empty sequence, not an error.
    fn list_projects(&self, owner_id: u128) -> (r: Vec<Project>)
        ensures
            r@.map_values(|p: Project| p@) == owner_projects(self.model().projects, owner_id),
    ;

    /// Inserts a project row with a caller-supplied id and owner; the store
    /// assigns the timestamps. A taken id fails with `ConstraintViolation`, a
    /// missing owner with `ForeignKeyViolation`; a failed insert persists
    /// nothing.
    fn add_project(&mut self, id: u128, name: &str, owner_id: u128) -> (r: Result<Project, Error>)
        requires
            old(self).model().wf(),
            old(self).model().clock + 2 <= u64::MAX,
        ensures
            final(self).model().wf(),
            old(self).model().project_insert_ok(id, owner_id) ==> r is Ok && r->Ok_0@ == old(
                self,
            ).model().fresh_project(id, name@, owner_id) && final(self).model() == old(
                self,
            ).model().with_project(id, name@, owner_id),
            old(self).model().has_project(id) ==> r == Err::<Project, Error>(
                Error::ConstraintViolation,
            ) && final(self).model() == old(self).model(),
            !old(self).model().has_project(id) && !old(self).model().has_user(owner_id) ==> r
                == Err::<Project, Error>(Error::ForeignKeyViolation) && final(self).model() == old(
                self,
            ).model(),
    ;
}

/// A membership row: `user_id` takes part in the expense splits of
/// `project_id`.
#[derive(Clone, Copy, Debug, PartialEq, Eq, Structural)]
pub struct Member {
    pub project_id: u128,
    pub user_id: u128,
}

} // verus!
