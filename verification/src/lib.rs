//! WorkBindr: employee registry, task tracking, notifications and
//! department-scoped chat, with the rules that the web service applies.

pub mod chat;
pub mod documents;
pub mod employees;
pub mod events;
pub mod notifications;
pub mod order;
pub mod reports;
pub mod service;
pub mod tasks;
pub mod text;
