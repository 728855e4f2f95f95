//! The shape of a command of the application: what it reads and how it runs, and
//! how subcommands are attached to it.
use vstd::prelude::*;

verus! {

/// A command: it reads its own data, then runs in a context.
pub trait AppTrait<Context = (), Output = ()>: Sized {
    /// What the command reads before it runs.
    type OwnedData;

    fn run(&self, context: &Context, owned_data: Self::OwnedData) -> Output;

    /// Attaches the subcommand `MetaApp`, made from this command.
    fn meta_app<MetaApp>(self) -> (r: Self)
        where
            MetaApp: ConstructFromTrait<Self, Context, Output> + MetaAppTrait<Self, Context, Output>,
        ensures
            exists|m: MetaApp|
                call_ensures(MetaApp::construct_from, (&self,), m) && call_ensures(MetaApp::register, (m, self), r),
    {
        let meta_app = MetaApp::construct_from(&self);
        meta_app.register(self)
    }

    /// Attaches the subcommand `meta_app`.
    fn register_meta_app<MetaApp>(self, meta_app: MetaApp) -> (r: Self)
        where
            MetaApp: MetaAppTrait<Self, Context, Output>,
        ensures
            call_ensures(MetaApp::register, (meta_app, self), r),
    {
        meta_app.register(self)
    }
}

/// A subcommand: it attaches itself to a command.
pub trait MetaAppTrait<App, Context = (), Output = ()>: Sized {
    fn register(self, app: App) -> App;
}

/// A subcommand that can be made from the command it is attached to.
pub trait ConstructFromTrait<App, Context = (), Output = ()>: Sized {
    fn construct_from(app: &App) -> Self;
}

impl<A: AppTrait<C, O>, C, O, T: AppTrait<C, O> + Default> ConstructFromTrait<A, C, O> for T {
    /// A command with a default value is made as that value.
    fn construct_from(app: &A) -> (r: Self)
        ensures
            call_ensures(T::default, (), r),
    {
        T::default()
    }
}

} // verus!
