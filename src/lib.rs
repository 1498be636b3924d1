//! A task-list service core: users register and log in, receive a bearer
//! token, and manage a private list of tasks guarded by that token.
pub mod domains;
pub mod service;
pub mod tasks;
pub mod token;
pub mod users;
