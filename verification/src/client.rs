//! The scope within which platform-managed resources may be touched.

use std::marker::PhantomData;
use std::rc::Rc;
use vstd::prelude::*;

verus! {

/// Evidence that a client scope is open on the current thread.
///
/// Only [`with_client`] makes one, and it lends it out for the length of a call.
/// The value can be neither sent to nor shared with another thread.
#[derive(Debug)]
pub struct ActiveClient {
    _marker: PhantomData<Rc<()>>,
}

/// Opens a client scope, runs `f` inside it and closes the scope again.
pub fn with_client<F: FnOnce(&ActiveClient) -> R, R>(f: F) -> (r: R)
    requires
        forall|client: &ActiveClient| f.requires((client,)),
    ensures
        exists|client: &ActiveClient| f.ensures((client,), r),
{
    let active_client = ActiveClient { _marker: PhantomData };
    f(&active_client)
}

/// A function that borrows its first argument for `'a` and returns a future.
pub trait WithClientAsyncClosure<'a, Argument, MoreArgs, Return> {
    type Fut: std::future::Future<Output = Return> + 'a;

    /// Whether the function may be called on these arguments.
    spec fn accepts(self, arg: &'a Argument, more_args: MoreArgs) -> bool;

    /// Whether `fut` is a future the function may return for these arguments.
    spec fn returns_for(self, arg: &'a Argument, more_args: MoreArgs, fut: Self::Fut) -> bool;

    /// Calls the function.
    fn call(self, arg: &'a Argument, more_args: MoreArgs) -> (fut: Self::Fut)
        requires
            self.accepts(arg, more_args),
        ensures
            self.returns_for(arg, more_args, fut),
    ;
}

impl<'a, Argument, MoreArgs, Return, Fu, F> WithClientAsyncClosure<'a, Argument, MoreArgs, Return> for F
where
    F: FnOnce(&'a Argument, MoreArgs) -> Fu,
    Fu: std::future::Future<Output = Return> + 'a,
    Argument: 'a,
{
    type Fut = Fu;

    open spec fn accepts(self, arg: &'a Argument, more_args: MoreArgs) -> bool {
        self.requires((arg, more_args))
    }

    open spec fn returns_for(self, arg: &'a Argument, more_args: MoreArgs, fut: Fu) -> bool {
        self.ensures((arg, more_args), fut)
    }

    fn call(self, arg: &'a Argument, more_args: MoreArgs) -> (fut: Fu) {
        self(arg, more_args)
    }
}

} // verus!
