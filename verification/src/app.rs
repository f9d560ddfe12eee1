//! Registration of handler factories, and the descriptor compiled from it.

use vstd::prelude::*;
use actix_router::{Router, RouterBuilder};
use std::rc::Rc;
use crate::matcher::{
    all_admitted, builder_finish, builder_new, builder_path, builder_table, indexed,
    router_table, share, Entry,
};
use crate::pattern::admitted_pattern;
use crate::service::{nothing_built, AppFactoryFut};

verus! {

/// The registrations of an application: patterns with one handler factory
/// each, in the order in which they were made, and the default handler.
pub struct App<F, D> {
    router: RouterBuilder<usize, ()>,
    handlers: Vec<F>,
    not_found: Rc<D>,
}

impl<F, D> App<F, D> {
    /// The pattern table, oldest registration first.
    pub closed spec fn table(&self) -> Seq<Entry> {
        builder_table(self.router)
    }

    /// The handler factories, oldest registration first.
    pub closed spec fn factories(&self) -> Seq<F> {
        self.handlers@
    }

    /// The handler of messages that no pattern matches.
    pub closed spec fn default_handler(&self) -> D {
        *self.not_found
    }

    /// Each pattern is one that is registered and stands at the index of its
    /// factory.
    pub open spec fn wf(&self) -> bool {
        &&& self.table().len() == self.factories().len()
        &&& indexed(self.table())
        &&& all_admitted(self.table())
    }

    /// An application without registrations, whose default handler is
    /// `not_found`.
    pub fn new(not_found: D) -> (app: Self)
        ensures
            app.wf(),
            app.table() == Seq::<Entry>::empty(),
            app.factories() == Seq::<F>::empty(),
            app.default_handler() == not_found,
    {
        App { router: builder_new(), handlers: Vec::new(), not_found: Rc::new(not_found) }
    }

    /// Registers `factory` under the pattern `address`, after the
    /// registrations made so far; the index of the registration is the
    /// number of factories registered before it.
    ///
    /// The router aborts on a pattern that it cannot compile, so the pattern
    /// is one of which it is known that it compiles: a literal one, which a
    /// topic matches by being equal to it, or one with named capture
    /// segments (see
    /// [`is_admitted_pattern`](crate::pattern::is_admitted_pattern)).
    pub fn resource(self, address: &str, factory: F) -> (app: Self)
        requires
            self.wf(),
            admitted_pattern(address@),
        ensures
            app.wf(),
            app.table() == self.table().push((address@, self.factories().len() as usize)),
            app.factories() == self.factories().push(factory),
            app.default_handler() == self.default_handler(),
    {
        let mut app = self;
        builder_path(&mut app.router, address, app.handlers.len());
        app.handlers.push(factory);
        app
    }

    /// Compiles the registrations into the descriptor that sessions share.
    pub fn into_new_service(self) -> (factory: AppFactory<F, D>)
        requires
            self.wf(),
        ensures
            factory.wf(),
            factory.table() == self.table(),
            factory.factories() == self.factories(),
            factory.default_handler() == self.default_handler(),
    {
        AppFactory {
            router: Rc::new(builder_finish(self.router)),
            handlers: self.handlers,
            not_found: self.not_found,
        }
    }
}

/// The compiled registrations: never changed again, and shared by the
/// services of all sessions.
pub struct AppFactory<F, D> {
    router: Rc<Router<usize, ()>>,
    handlers: Vec<F>,
    not_found: Rc<D>,
}

impl<F, D> AppFactory<F, D> {
    /// The pattern table, oldest registration first.
    pub closed spec fn table(&self) -> Seq<Entry> {
        router_table(*self.router)
    }

    /// The handler factories, oldest registration first.
    pub closed spec fn factories(&self) -> Seq<F> {
        self.handlers@
    }

    /// The handler of messages that no pattern matches.
    pub closed spec fn default_handler(&self) -> D {
        *self.not_found
    }

    /// Each pattern is one that is registered and stands at the index of its
    /// factory.
    pub open spec fn wf(&self) -> bool {
        &&& self.table().len() == self.factories().len()
        &&& indexed(self.table())
        &&& all_admitted(self.table())
    }

    /// The handler factories, for the caller to start one construction with
    /// each.
    pub fn handlers(&self) -> (factories: &Vec<F>)
        ensures
            factories@ == self.factories(),
    {
        &self.handlers
    }

    /// Begins the construction of one session's service: every handler is
    /// still awaited.
    pub fn new_service<H>(&self) -> (fut: AppFactoryFut<H, D>)
        requires
            self.wf(),
        ensures
            fut.wf(),
            fut.table() == self.table(),
            fut.default_handler() == self.default_handler(),
            fut.slots() == nothing_built::<H>(self.factories().len()),
            !fut.failed(),
    {
        AppFactoryFut::pending(share(&self.router), self.handlers.len(), share(&self.not_found))
    }
}

} // verus!
