//! Topic dispatch for the publish path of a messaging server.
//!
//! An application registers handler factories under topic patterns, compiles
//! the registrations into a shared descriptor, and binds one dispatch service
//! to each session. The service aggregates the readiness of its handlers and
//! selects, for each message, the handler registered first under the
//! message's topic, or the default handler where no pattern matches.
//!
//! Work that needs a task context (constructing a handler, polling it,
//! running it on a message) is performed by the caller; this crate decides
//! what is to be polled next, which handler receives a message, and when a
//! session's service is complete.

pub mod pattern;
pub mod matcher;
pub mod poll;
pub mod ready;
pub mod app;
pub mod service;
