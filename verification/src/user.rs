use vstd::prelude::*;
use vstd::string::*;
use crate::error::Error;
use crate::store::StoreM;

verus! {

/// A registered user of the expense-splitting tool.
///
/// Ids are caller-supplied and globally unique. The email must satisfy the
/// store's format constraint. The `created` and `updated` stamps are assigned
/// by the store from its logical clock, never by the caller.
#[derive(Debug)]
pub struct User {
    pub id: u128,
    pub name: String,
    pub email: String,
    pub created: u64,
    pub updated: u64,
}

/// The mathematical model of a [`User`]: the same fields, with the strings
/// taken as character sequences.
pub ghost struct UserM {
    pub id: u128,
    pub name: Seq<char>,
    pub email: Seq<char>,
    pub created: u64,
    pub updated: u64,
}

impl View for User {
    type V = UserM;

    open spec fn view(&self) -> UserM {
        UserM {
            id: self.id,
            name: self.name@,
            email: self.email@,
            created: self.created,
            updated: self.updated,
        }
    }
}

impl UserM {
    /// A stored user row is well formed: its email passed the store's check
    /// constraint and its creation stamp is no later than its update stamp.
    pub open spec fn wf(self) -> bool {
        &&& self.created <= self.updated
        &&& valid_email(self.email)
    }
}

impl User {
    /// Returns a copy of this user.
    pub fn duplicate(&self) -> (r: User)
        ensures
            r@ == self@,
    {
        User {
            id: self.id,
            name: self.name.clone(),
            email: self.email.clone(),
            created: self.created,
            updated: self.updated,
        }
    }
}

/// A capability-scoped repository of users over a store whose model is a
/// [`StoreM`].
pub trait UserRepo {
    /// The store state this repository acts on.
    spec fn model(&self) -> StoreM;

    /// Inserts a user row with a caller-supplied id; the store assigns the
    /// timestamps. Fails with `ConstraintViolation`, and persists nothing,
    /// when the email is malformed or the id or email is already taken.
    fn add_user(&mut self, id: u128, name: &str, email: &str) -> (r: Result<User, Error>)
        requires
            old(self).model().wf(),
            old(self).model().clock + 2 <= u64::MAX,
        ensures
            final(self).model().wf(),
            old(self).model().user_insert_ok(id, email@) ==> r is Ok && r->Ok_0@ == old(
                self,
            ).model().fresh_user(id, name@, email@) && final(self).model() == old(
                self,
            ).model().with_user(id, name@, email@),
            !old(self).model().user_insert_ok(id, email@) ==> r == Err::<User, Error>(
                Error::ConstraintViolation,
            ) && final(self).model() == old(self).model(),
    ;
}

/// Position `at` splits `s` into a well-formed email: the single `'@'` of the
/// string stands at `at` with a non-empty local part before it, no character
/// is a space, and the domain part holds a `'.'` that neither starts nor ends
/// it.
pub open spec fn email_split_at(s: Seq<char>, at: int) -> bool {
    &&& 1 <= at < s.len()
    &&& s[at] == '@'
    &&& forall|j: int| 0 <= j < s.len() && j != at ==> s[j] != '@'
    &&& forall|j: int| 0 <= j < s.len() ==> s[j] != ' '
    &&& exists|k: int| at + 1 < k < s.len() - 1 && s[k] == '.'
}

/// The store's email format constraint.
pub open spec fn valid_email(s: Seq<char>) -> bool {
    exists|at: int| email_split_at(s, at)
}

/// Decides the store's email format constraint.
pub fn is_valid_email(s: &str) -> (r: bool)
    ensures
        r == valid_email(s@),
{
    let len = s.unicode_len();
    let mut i: usize = 0;
    let mut seen_at: bool = false;
    let mut at_pos: usize = 0;
    while i < len
        invariant
            len == s@.len(),
            i <= len,
            seen_at ==> at_pos < i && s@[at_pos as int] == '@',
            !seen_at ==> forall|j: int| 0 <= j < i ==> s@[j] != '@',
            seen_at ==> forall|j: int| 0 <= j < i && j != at_pos ==> s@[j] != '@',
            forall|j: int| 0 <= j < i ==> s@[j] != ' ',
        decreases len - i,
    {
        let c = s.get_char(i);
        if c == ' ' {
            proof {
                assert forall|at: int| !email_split_at(s@, at) by {
                    if email_split_at(s@, at) {
                        assert(s@[i as int] != ' ');
                    }
                }
                assert(!valid_email(s@));
            }
            return false;
        }
        if c == '@' {
            if seen_at {
                proof {
                    assert forall|at: int| !email_split_at(s@, at) by {
                        if email_split_at(s@, at) {
                            if at == at_pos as int {
                                assert(s@[i as int] != '@');
                            } else {
                                assert(s@[at_pos as int] != '@');
                            }
                        }
                    }
                    assert(!valid_email(s@));
                }
                return false;
            }
            seen_at = true;
            at_pos = i;
        }
        i += 1;
    }
    if !seen_at {
        proof {
            assert forall|at: int| !email_split_at(s@, at) by {
                if email_split_at(s@, at) {
                    assert(s@[at] != '@');
                }
            }
            assert(!valid_email(s@));
        }
        return false;
    }
    if at_pos == 0 {
        proof {
            assert forall|at: int| !email_split_at(s@, at) by {
                if email_split_at(s@, at) {
                    if at != 0 {
                        assert(s@[at] != '@');
                    }
                }
            }
            assert(!valid_email(s@));
        }
        return false;
    }
    // The domain part must hold a '.' strictly between at_pos + 1 and the
    // last position.
    if at_pos + 1 >= len - 1 {
        proof {
            assert forall|at: int| !email_split_at(s@, at) by {
                if email_split_at(s@, at) {
                    if at != at_pos as int {
                        assert(s@[at] != '@');
                    } else {
                        let k = choose|k: int| at + 1 < k < s@.len() - 1 && s@[k] == '.';
                        assert(at + 1 < k < s@.len() - 1);
                    }
                }
            }
            assert(!valid_email(s@));
        }
        return false;
    }
    let mut k: usize = at_pos + 2;
    while k < len - 1
        invariant
            len == s@.len(),
            1 <= at_pos < len,
            at_pos + 1 < len - 1,
            at_pos + 2 <= k <= len - 1,
            s@[at_pos as int] == '@',
            forall|j: int| 0 <= j < len && j != at_pos ==> s@[j] != '@',
            forall|j: int| 0 <= j < len ==> s@[j] != ' ',
            forall|j: int| at_pos + 2 <= j < k ==> s@[j] != '.',
        decreases len - k,
    {
        if s.get_char(k) == '.' {
            proof {
                assert(at_pos as int + 1 < k as int && (k as int) < s@.len() - 1 && s@[k as int] == '.');
                assert(email_split_at(s@, at_pos as int));
                assert(valid_email(s@));
            }
            return true;
        }
        k += 1;
    }
    proof {
        assert forall|at: int| !email_split_at(s@, at) by {
            if email_split_at(s@, at) {
                if at != at_pos as int {
                    assert(s@[at] != '@');
                } else {
                    let kk = choose|kk: int| at + 1 < kk < s@.len() - 1 && s@[kk] == '.';
                    assert(s@[kk] != '.');
                }
            }
        }
        assert(!valid_email(s@));
    }
    false
}

} // verus!
