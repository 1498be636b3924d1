//! The user directory: registration with unique emails, and login by exact
//! email and password.
use crate::domains::User;
use validator::ValidateEmail;
use vstd::prelude::*;

verus! {

/// Whether `s` is an email address by the validator crate's rules (the HTML5
/// form of an address, with international domain names allowed).
pub uninterp spec fn email_ok(s: Seq<char>) -> bool;

/// Relies on validator's `ValidateEmail::validate_email` for `String`: its
/// verdict on the text, which refuses empty text and text without an `@`.
#[verifier::external_body]
fn email_is_valid(email: &String) -> (r: bool)
    ensures
        r == email_ok(email@),
        email@.len() == 0 ==> !r,
        !email@.contains('@') ==> !r,
{
    email.validate_email()
}

/// Why a registration was refused.
#[derive(Debug, Clone, Copy, PartialEq, Eq, Structural)]
pub enum RegisterError {
    /// A user with this exact email is already registered.
    DuplicateEmail,
    /// The email is not a well-formed address.
    InvalidInput,
}

/// Why a login was refused.
#[derive(Debug, Clone, Copy, PartialEq, Eq, Structural)]
pub enum LoginError {
    /// No user has this email together with this password.
    InvalidCredentials,
}

/// Ids are positions and emails are unique.
pub open spec fn directory_ok(s: Seq<User>) -> bool {
    &&& forall|i: int| 0 <= i < s.len() ==> #[trigger] s[i].id == i
    &&& forall|i: int, j: int|
        0 <= i < s.len() && 0 <= j < s.len() && i != j ==> #[trigger] s[i].email@ != #[trigger] s[j].email@
}

/// Whether a user of `s` has the email `email`.
pub open spec fn email_taken(s: Seq<User>, email: Seq<char>) -> bool {
    exists|i: int| 0 <= i < s.len() && #[trigger] s[i].email@ == email
}

/// Whether a user of `s` has both the email `email` and the password `password`.
pub open spec fn credentials_match(s: Seq<User>, email: Seq<char>, password: Seq<char>) -> bool {
    exists|i: int| 0 <= i < s.len() && #[trigger] s[i].email@ == email && s[i].password@ == password
}

/// Every registered user logs in with their own email and password, and
/// finds their own id: no other user matches the pair, and no other password
/// matches the email.
pub proof fn lemma_login_finds_registered(s: Seq<User>, i: int, other: Seq<char>)
    requires
        directory_ok(s),
        0 <= i < s.len(),
    ensures
        credentials_match(s, s[i].email@, s[i].password@),
        forall|j: int|
            0 <= j < s.len() && #[trigger] s[j].email@ == s[i].email@ && s[j].password@ == s[i].password@
                ==> j == i && s[j].id == i,
        other != s[i].password@ ==> !credentials_match(s, s[i].email@, other),
{
}

/// Once an email is registered, registering it again is refused as a
/// duplicate, whatever the password.
pub proof fn lemma_second_registration_refused(before: Seq<User>, email: String, password: String, id: u32)
    ensures
        email_taken(before.push(User { id, email, password }), email@),
{
    let after = before.push(User { id, email, password });
    assert(after[before.len() as int].email@ == email@);
}

/// The registered users, in order of registration. Callers that share one
/// directory hold a single lock across each call, so that a registration's
/// duplicate check and its insertion happen as one step.
pub struct UserDirectory {
    users: Vec<User>,
}

impl View for UserDirectory {
    type V = Seq<User>;

    closed spec fn view(&self) -> Seq<User> {
        self.users@
    }
}

impl UserDirectory {
    /// The directory's invariant.
    pub open spec fn wf(&self) -> bool {
        directory_ok(self@)
    }

    /// A directory without users.
    pub fn new() -> (r: UserDirectory)
        ensures
            r.wf(),
            r@ == Seq::<User>::empty(),
    {
        UserDirectory { users: Vec::new() }
    }

    /// The number of registered users.
    pub fn len(&self) -> (r: usize)
        ensures
            r == self@.len(),
    {
        self.users.len()
    }

    /// Registers `email` with `password`, given whether the email is well
    /// formed. A taken email is refused first, then an ill-formed one; else the
    /// user is appended with the directory's size as its id.
    pub fn add_user(&mut self, email: String, password: String, well_formed: bool) -> (r: Result<u32, RegisterError>)
        requires
            old(self).wf(),
            old(self)@.len() < u32::MAX,
        ensures
            final(self).wf(),
            match r {
                Ok(id) => {
                    &&& !email_taken(old(self)@, email@)
                    &&& well_formed
                    &&& id == old(self)@.len()
                    &&& final(self)@ == old(self)@.push(User { id, email, password })
                },
                Err(e) => {
                    &&& final(self)@ == old(self)@
                    &&& e == RegisterError::DuplicateEmail <==> email_taken(old(self)@, email@)
                    &&& e == RegisterError::InvalidInput <==> (!email_taken(old(self)@, email@) && !well_formed)
                },
            },
    {
        let mut i: usize = 0;
        while i < self.users.len()
            invariant
                self == old(self),
                self.wf(),
                i <= self@.len(),
                forall|j: int| 0 <= j < i ==> #[trigger] self@[j].email@ != email@,
            decreases self@.len() - i,
        {
            if self.users[i].email == email {
                return Err(RegisterError::DuplicateEmail);
            }
            i += 1;
        }
        if !well_formed {
            return Err(RegisterError::InvalidInput);
        }
        let id = self.users.len() as u32;
        self.users.push(User { id, email, password });
        Ok(id)
    }

    /// Registers `email` with `password`: refused if the email is taken, then
    /// if it is not a well-formed address; else the new user's id.
    pub fn register(&mut self, email: String, password: String) -> (r: Result<u32, RegisterError>)
        requires
            old(self).wf(),
            old(self)@.len() < u32::MAX,
        ensures
            final(self).wf(),
            match r {
                Ok(id) => {
                    &&& !email_taken(old(self)@, email@)
                    &&& email_ok(email@)
                    &&& id == old(self)@.len()
                    &&& final(self)@ == old(self)@.push(User { id, email, password })
                },
                Err(e) => {
                    &&& final(self)@ == old(self)@
                    &&& e == RegisterError::DuplicateEmail <==> email_taken(old(self)@, email@)
                    &&& e == RegisterError::InvalidInput <==> (!email_taken(old(self)@, email@) && !email_ok(email@))
                },
            },
            (email@.len() == 0 || !email@.contains('@')) && !email_taken(old(self)@, email@)
                ==> r == Err::<u32, RegisterError>(RegisterError::InvalidInput),
    {
        let well_formed = email_is_valid(&email);
        self.add_user(email, password, well_formed)
    }

    /// The id of the user with exactly this email and password.
    pub fn authenticate(&self, email: &String, password: &String) -> (r: Result<u32, LoginError>)
        requires
            self.wf(),
        ensures
            match r {
                Ok(id) => {
                    &&& id < self@.len()
                    &&& self@[id as int].email@ == email@
                    &&& self@[id as int].password@ == password@
                },
                Err(e) => e == LoginError::InvalidCredentials && !credentials_match(self@, email@, password@),
            },
    {
        let mut i: usize = 0;
        while i < self.users.len()
            invariant
                self.wf(),
                i <= self@.len(),
                forall|j: int| 0 <= j < i ==> !(#[trigger] self@[j].email@ == email@ && self@[j].password@ == password@),
            decreases self@.len() - i,
        {
            let u = &self.users[i];
            if u.email == *email && u.password == *password {
                return Ok(u.id);
            }
            i += 1;
        }
        Err(LoginError::InvalidCredentials)
    }

    /// Whether a user with the id `id` is registered.
    pub fn has_user(&self, id: u32) -> (r: bool)
        requires
            self.wf(),
        ensures
            r == (id < self@.len()),
    {
        (id as usize) < self.users.len()
    }
}

} // verus!
