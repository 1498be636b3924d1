//! Records held by the user directory and the task store.
use vstd::prelude::*;

verus! {

/// A registered account. The id equals the directory's size when it was
/// added; the password is kept verbatim and compared byte for byte.
#[derive(Debug)]
pub struct User {
    pub id: u32,
    pub email: String,
    pub password: String,
}

/// The mathematical view of a [`User`].
pub struct UserView {
    pub id: u32,
    pub email: Seq<char>,
    pub password: Seq<char>,
}

impl View for User {
    type V = UserView;

    open spec fn view(&self) -> UserView {
        UserView { id: self.id, email: self.email@, password: self.password@ }
    }
}

/// One entry of a user's task list. The id is unique only among the tasks
/// of the owning user; the owner itself is the key of the collection that
/// holds the task.
#[derive(Debug)]
pub struct Task {
    pub id: u32,
    pub name: String,
    pub description: String,
    /// The deadline as RFC 3339 date-time text.
    pub deadline: String,
    pub completed: bool,
}

/// The mathematical view of a [`Task`].
pub struct TaskView {
    pub id: u32,
    pub name: Seq<char>,
    pub description: Seq<char>,
    pub deadline: Seq<char>,
    pub completed: bool,
}

impl View for Task {
    type V = TaskView;

    open spec fn view(&self) -> TaskView {
        TaskView {
            id: self.id,
            name: self.name@,
            description: self.description@,
            deadline: self.deadline@,
            completed: self.completed,
        }
    }
}

impl Clone for User {
    fn clone(&self) -> (r: Self)
        ensures
            r == *self,
    {
        User { id: self.id, email: self.email.clone(), password: self.password.clone() }
    }
}

impl Clone for Task {
    fn clone(&self) -> (r: Self)
        ensures
            r == *self,
    {
        Task {
            id: self.id,
            name: self.name.clone(),
            description: self.description.clone(),
            deadline: self.deadline.clone(),
            completed: self.completed,
        }
    }
}

/// The text of an optional string.
pub open spec fn text_of(o: Option<String>) -> Option<Seq<char>> {
    match o {
        Some(s) => Some(s@),
        None => None,
    }
}

/// The RFC 3339 text, in UTC, of the instant that `s` writes in RFC 3339
/// form, as chrono writes it; none if `s` is not RFC 3339 date-time text.
pub uninterp spec fn utc_rfc3339(s: Seq<char>) -> Option<Seq<char>>;

/// Relies on chrono's `DateTime::parse_from_rfc3339`, converted to UTC by
/// `with_timezone` and written back by `to_rfc3339`: the same instant as UTC
/// text, or nothing for text that does not parse.
#[verifier::external_body]
pub(crate) fn deadline_in_utc(text: &String) -> (r: Option<String>)
    ensures
        text_of(r) == utc_rfc3339(text@),
{
    chrono::DateTime::parse_from_rfc3339(text).ok().map(|d| d.with_timezone(&chrono::Utc).to_rfc3339())
}

} // verus!
