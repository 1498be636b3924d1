//! The request authorizer: every task operation first resolves the bearer
//! token's claims to a registered user, and then touches only that user's
//! task collection.
use crate::domains::{Task, TaskView, User, deadline_in_utc, text_of, utc_rfc3339};
use crate::tasks::{StoreError, TaskStore, tasks_of, without_id, sort_by_id, merged_task, has_id, first_with_id};
use crate::token::{Claims, issue_claims, parse_user_id, user_id_of, decimal_of, is_current, lemma_user_id_round_trip, TOKEN_LIFETIME_SECS};
use crate::users::{UserDirectory, RegisterError, LoginError, email_taken, email_ok, credentials_match};
use vstd::prelude::*;

verus! {

/// The scheme word that opens an `Authorization` header value.
pub open spec fn bearer_prefix() -> Seq<char> {
    seq!['B', 'e', 'a', 'r', 'e', 'r', ' ']
}

/// The token in a header value: the text after a leading `Bearer `, or the
/// whole value when it does not start so. The match is exact, case included.
pub open spec fn strip_bearer(header: Seq<char>) -> Seq<char> {
    if header.len() >= 7 && header.take(7) == bearer_prefix() {
        header.skip(7)
    } else {
        header
    }
}

/// The token carried by the header value `header`.
pub fn bearer_token(header: &str) -> (r: String)
    ensures
        r@ == strip_bearer(header@),
{
    let n = header.unicode_len();
    if n >= 7 && header.get_char(0) == 'B' && header.get_char(1) == 'e' && header.get_char(2) == 'a'
        && header.get_char(3) == 'r' && header.get_char(4) == 'e' && header.get_char(5) == 'r'
        && header.get_char(6) == ' ' {
        assert(header@.take(7) =~= bearer_prefix());
        header.substring_char(7, n).to_owned()
    } else {
        proof {
            if header@.len() >= 7 && header@.take(7) == bearer_prefix() {
                assert(header@.take(7)[0] == 'B');
                assert(header@.take(7)[1] == 'e');
                assert(header@.take(7)[2] == 'a');
                assert(header@.take(7)[3] == 'r');
                assert(header@.take(7)[4] == 'e');
                assert(header@.take(7)[5] == 'r');
                assert(header@.take(7)[6] == ' ');
            }
        }
        header.to_owned()
    }
}

/// Why an operation of the service was refused.
#[derive(Debug, Clone, Copy, PartialEq, Eq, Structural)]
pub enum ApiError {
    /// The token is missing, invalid or expired, its subject is not a user
    /// id, or it speaks for another user than the one addressed.
    Unauthorized,
    /// The token is valid but names no registered user.
    UnknownUser,
    /// A field that the operation needs was not given.
    MissingField,
    /// A deadline was given that is not RFC 3339 date-time text.
    InvalidField,
    /// The user has no task collection, or the task is not in it.
    NotFound,
    /// The user's collection cannot number another task.
    Internal,
}

/// The user that `token` resolves to in the directory `users`: `None` stands
/// for a token whose signature or time window was refused.
pub open spec fn resolve(users: Seq<User>, token: Option<&Claims>) -> Result<u32, ApiError> {
    match token {
        None => Err(ApiError::Unauthorized),
        Some(c) => match user_id_of(c.uid@) {
            None => Err(ApiError::Unauthorized),
            Some(u) => if u < users.len() {
                Ok(u)
            } else {
                Err(ApiError::UnknownUser)
            },
        },
    }
}

/// A token issued for a registered user resolves to that user, and its
/// claims are current from their issue time up to and including their expiry
/// time, and no longer one second after it.
pub proof fn lemma_issued_token_window(users: Seq<User>, c: Claims, user: u32, now: int)
    requires
        user < users.len(),
        c.uid@ == decimal_of(user as nat),
        c.exp == c.iat + TOKEN_LIFETIME_SECS,
    ensures
        resolve(users, Some(&c)) == Ok::<u32, ApiError>(user),
        c.iat <= now <= c.exp ==> is_current(c.exp as int, c.iat as int, now),
        now == c.exp ==> is_current(c.exp as int, c.iat as int, now),
        now > c.exp ==> !is_current(c.exp as int, c.iat as int, now),
{
    lemma_user_id_round_trip(user);
}

/// Isolation: an operation under a token for user `a` writes only the
/// collection of `a`, so the collection of any other user `b` is listed
/// afterwards as it was.
pub proof fn lemma_other_user_untouched(m: Map<u32, Seq<Task>>, a: u32, b: u32, written: Seq<Task>)
    requires
        a != b,
    ensures
        tasks_of(m.insert(a, written), b) == tasks_of(m, b),
{
}

/// The deadline to store for a deadline given as `d`: its UTC text, or none
/// if none was given; `Err` for one that is not RFC 3339 text.
pub open spec fn stored_deadline(d: Option<String>) -> Result<Option<Seq<char>>, ApiError> {
    match d {
        None => Ok(None),
        Some(t) => match utc_rfc3339(t@) {
            Some(u) => Ok(Some(u)),
            None => Err(ApiError::InvalidField),
        },
    }
}

/// The users and their tasks. Callers that share a service hold one lock
/// across each call, which serializes every change of the directory and of
/// the task collections.
pub struct TodoService {
    pub users: UserDirectory,
    pub tasks: TaskStore,
}

impl TodoService {
    /// The service's invariant.
    pub open spec fn wf(&self) -> bool {
        self.users.wf()
    }

    /// A service without users or tasks.
    pub fn new() -> (r: TodoService)
        ensures
            r.wf(),
            r.users@ == Seq::<User>::empty(),
            r.tasks@ == Map::<u32, Seq<Task>>::empty(),
    {
        TodoService { users: UserDirectory::new(), tasks: TaskStore::new() }
    }

    /// Registers a user; see [`UserDirectory::register`].
    pub fn register(&mut self, email: String, password: String) -> (r: Result<u32, RegisterError>)
        requires
            old(self).wf(),
            old(self).users@.len() < u32::MAX,
        ensures
            final(self).wf(),
            final(self).tasks@ == old(self).tasks@,
            match r {
                Ok(id) => {
                    &&& !email_taken(old(self).users@, email@)
                    &&& email_ok(email@)
                    &&& id == old(self).users@.len()
                    &&& final(self).users@ == old(self).users@.push(User { id, email, password })
                },
                Err(e) => {
                    &&& final(self).users@ == old(self).users@
                    &&& e == RegisterError::DuplicateEmail <==> email_taken(old(self).users@, email@)
                    &&& e == RegisterError::InvalidInput <==> (!email_taken(old(self).users@, email@)
                        && !email_ok(email@))
                },
            },
            (email@.len() == 0 || !email@.contains('@')) && !email_taken(old(self).users@, email@)
                ==> r == Err::<u32, RegisterError>(RegisterError::InvalidInput),
    {
        self.users.register(email, password)
    }

    /// Claims for a fresh token of the user with exactly this email and
    /// password, issued now; the caller signs them.
    pub fn login(&self, email: &String, password: &String) -> (r: Result<Claims, LoginError>)
        requires
            self.wf(),
        ensures
            match r {
                Ok(c) => exists|id: u32|
                    {
                        &&& id < self.users@.len()
                        &&& #[trigger] self.users@[id as int].email@ == email@
                        &&& self.users@[id as int].password@ == password@
                        &&& c.uid@ == decimal_of(id as nat)
                    },
                Err(e) => e == LoginError::InvalidCredentials && !credentials_match(
                    self.users@,
                    email@,
                    password@,
                ),
            },
            r is Ok ==> {
                &&& r->Ok_0.jti@.len() == 36
                &&& r->Ok_0.iat <= usize::MAX - TOKEN_LIFETIME_SECS
                &&& r->Ok_0.exp == r->Ok_0.iat + TOKEN_LIFETIME_SECS
            },
    {
        match self.users.authenticate(email, password) {
            Ok(id) => Ok(issue_claims(id)),
            Err(e) => Err(e),
        }
    }

    /// The user that `token` speaks for, if it is registered.
    pub fn authorize(&self, token: Option<&Claims>) -> (r: Result<u32, ApiError>)
        requires
            self.wf(),
        ensures
            r == resolve(self.users@, token),
    {
        match token {
            None => Err(ApiError::Unauthorized),
            Some(c) => match parse_user_id(c.uid.as_str()) {
                None => Err(ApiError::Unauthorized),
                Some(u) => if self.users.has_user(u) {
                    Ok(u)
                } else {
                    Err(ApiError::UnknownUser)
                },
            },
        }
    }

    /// Creates an uncompleted task for the user that `token` speaks for and
    /// returns its id, the length of their collection before the call. The
    /// deadline is stored as UTC RFC 3339 text.
    pub fn create_task(
        &mut self,
        token: Option<&Claims>,
        name: Option<String>,
        description: Option<String>,
        deadline: Option<String>,
    ) -> (r: Result<u32, ApiError>)
        requires
            old(self).wf(),
        ensures
            final(self).wf(),
            final(self).users == old(self).users,
            r is Err ==> final(self).tasks@ == old(self).tasks@,
            match resolve(old(self).users@, token) {
                Err(e) => r == Err::<u32, ApiError>(e),
                Ok(u) => if name is None || description is None || deadline is None {
                    r == Err::<u32, ApiError>(ApiError::MissingField)
                } else if utc_rfc3339(deadline->Some_0@) is None {
                    r == Err::<u32, ApiError>(ApiError::InvalidField)
                } else if tasks_of(old(self).tasks@, u).len() >= u32::MAX {
                    r == Err::<u32, ApiError>(ApiError::Internal)
                } else {
                    let id = tasks_of(old(self).tasks@, u).len() as u32;
                    &&& r == Ok::<u32, ApiError>(id)
                    &&& exists|t: Task|
                        {
                            &&& #[trigger] t@ == (TaskView {
                                id,
                                name: name->Some_0@,
                                description: description->Some_0@,
                                deadline: utc_rfc3339(deadline->Some_0@)->Some_0,
                                completed: false,
                            })
                            &&& final(self).tasks@ == old(self).tasks@.insert(
                                u,
                                tasks_of(old(self).tasks@, u).push(t),
                            )
                        }
                },
            },
    {
        let u = match self.authorize(token) {
            Ok(u) => u,
            Err(e) => {
                return Err(e);
            },
        };
        let (name, description, deadline) = match (name, description, deadline) {
            (Some(n), Some(d), Some(t)) => (n, d, t),
            _ => {
                return Err(ApiError::MissingField);
            },
        };
        let deadline = match deadline_in_utc(&deadline) {
            Some(d) => d,
            None => {
                return Err(ApiError::InvalidField);
            },
        };
        if self.tasks.count(u) >= 4294967295 {
            return Err(ApiError::Internal);
        }
        let ghost created = Task {
            id: tasks_of(self.tasks@, u).len() as u32,
            name,
            description,
            deadline,
            completed: false,
        };
        let id = self.tasks.create(u, name, description, deadline);
        assert(created@.deadline == deadline@);
        Ok(id)
    }

    /// The tasks of `target`, in order, when `token` speaks for that user. A
    /// target that is not registered is refused as unknown before the token's
    /// user is compared with it.
    pub fn list_tasks(&self, token: Option<&Claims>, target: u32) -> (r: Result<Vec<Task>, ApiError>)
        requires
            self.wf(),
        ensures
            match resolve(self.users@, token) {
                Err(e) => r matches Err(f) && f == e,
                Ok(u) => if target >= self.users@.len() {
                    r matches Err(f) && f == ApiError::UnknownUser
                } else if u != target {
                    r matches Err(f) && f == ApiError::Unauthorized
                } else {
                    r matches Ok(v) && v@ == tasks_of(self.tasks@, u)
                },
            },
    {
        let u = match self.authorize(token) {
            Ok(u) => u,
            Err(e) => {
                return Err(e);
            },
        };
        if !self.users.has_user(target) {
            return Err(ApiError::UnknownUser);
        }
        if u != target {
            return Err(ApiError::Unauthorized);
        }
        Ok(self.tasks.list(u))
    }

    /// Updates the task `task_id` of the user that `token` speaks for; see
    /// [`TaskStore::update`]. A missing task is reported before a malformed
    /// deadline; a new deadline is stored as UTC RFC 3339 text.
    pub fn update_task(
        &mut self,
        token: Option<&Claims>,
        task_id: u32,
        name: Option<String>,
        description: Option<String>,
        deadline: Option<String>,
        completed: bool,
    ) -> (r: Result<Task, ApiError>)
        requires
            old(self).wf(),
        ensures
            final(self).wf(),
            final(self).users == old(self).users,
            r is Err ==> final(self).tasks@ == old(self).tasks@,
            match resolve(old(self).users@, token) {
                Err(e) => r matches Err(f) && f == e,
                Ok(u) => {
                    let s = old(self).tasks@[u];
                    if !(old(self).tasks@.contains_key(u) && has_id(s, task_id)) {
                        r matches Err(f) && f == ApiError::NotFound
                    } else {
                        match stored_deadline(deadline) {
                            Err(e) => r matches Err(f) && f == e,
                            Ok(d) => r matches Ok(t) && {
                                &&& t@ == merged_task(
                                    s[first_with_id(s, task_id)]@,
                                    text_of(name),
                                    text_of(description),
                                    d,
                                    completed,
                                )
                                &&& final(self).tasks@ == old(self).tasks@.insert(
                                    u,
                                    sort_by_id(without_id(s, task_id).push(t)),
                                )
                            },
                        }
                    }
                },
            },
    {
        let u = match self.authorize(token) {
            Ok(u) => u,
            Err(e) => {
                return Err(e);
            },
        };
        if !self.tasks.has_task(u, task_id) {
            return Err(ApiError::NotFound);
        }
        let deadline = match deadline {
            None => None,
            Some(d) => match deadline_in_utc(&d) {
                Some(n) => Some(n),
                None => {
                    return Err(ApiError::InvalidField);
                },
            },
        };
        match self.tasks.update(u, task_id, name, description, deadline, completed) {
            Ok(t) => Ok(t),
            Err(StoreError::NotFound) => Err(ApiError::NotFound),
        }
    }

    /// Deletes every task `task_id` of the user that `token` speaks for; see
    /// [`TaskStore::delete`].
    pub fn delete_task(&mut self, token: Option<&Claims>, task_id: u32) -> (r: Result<(), ApiError>)
        requires
            old(self).wf(),
        ensures
            final(self).wf(),
            final(self).users == old(self).users,
            match resolve(old(self).users@, token) {
                Err(e) => r == Err::<(), ApiError>(e) && final(self).tasks@ == old(self).tasks@,
                Ok(u) => if old(self).tasks@.contains_key(u) {
                    &&& r == Ok::<(), ApiError>(())
                    &&& final(self).tasks@ == old(self).tasks@.insert(
                        u,
                        without_id(old(self).tasks@[u], task_id),
                    )
                } else {
                    r == Err::<(), ApiError>(ApiError::NotFound) && final(self).tasks@
                        == old(self).tasks@
                },
            },
    {
        let u = match self.authorize(token) {
            Ok(u) => u,
            Err(e) => {
                return Err(e);
            },
        };
        match self.tasks.delete(u, task_id) {
            Ok(()) => Ok(()),
            Err(StoreError::NotFound) => Err(ApiError::NotFound),
        }
    }
}

} // verus!
