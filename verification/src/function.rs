//! Native functions: what the host contributes to a world.
//!
//! A function package is a set of named callables. The linker places each
//! under the path of its package, where patterns refer to it by name.

use crate::runtime::{
    result_model, ContextModel, EnvironmentModel, Environment, EvalContext, RuntimeError,
    RuntimeErrorModel,
};
use crate::table::find;
use crate::value::{Output, OutputModel, RuntimeValue, ValueModel};
use vstd::prelude::*;

verus! {

/// A callable of the host. Evaluation hands it the input, the bindings in
/// force and the context, and forwards what it hands back.
///
/// What a callable returns must depend on the callable and on these three
/// alone: `outcome` names it. Whoever implements the trait answers for that.
pub trait Function: Sized {
    /// What the callable returns for an input. Unless an implementation says
    /// more, nothing is known of it but that it is a function of the
    /// callable and of its arguments.
    open spec fn outcome(
        &self,
        input: ValueModel,
        bindings: EnvironmentModel,
        context: ContextModel,
    ) -> Result<OutputModel, RuntimeErrorModel> {
        some_outcome::<Self>()(*self, input, bindings, context)
    }

    /// Calls the callable.
    fn call(&self, input: &RuntimeValue, bindings: &Environment, context: &EvalContext) -> (r:
        Result<Output, RuntimeError>)
        ensures
            result_model(r) == self.outcome(input@, bindings@, context@),
    ;
}

/// A function from a callable and its arguments to an outcome, of which
/// nothing more is known.
pub open spec fn some_outcome<F>() -> spec_fn(F, ValueModel, EnvironmentModel, ContextModel) -> Result<
    OutputModel,
    RuntimeErrorModel,
> {
    arbitrary()
}

/// A set of named callables.
pub struct FunctionPackage<F> {
    pub functions: Vec<(String, F)>,
}

/// What each entry of a list of named callables holds.
pub open spec fn functions_view<F>(functions: Seq<(String, F)>) -> Seq<(Seq<char>, F)> {
    Seq::new(functions.len(), |i: int| (functions[i].0@, functions[i].1))
}

impl<F> View for FunctionPackage<F> {
    type V = Seq<(Seq<char>, F)>;

    open spec fn view(&self) -> Seq<(Seq<char>, F)> {
        functions_view(self.functions@)
    }
}

impl<F> FunctionPackage<F> {
    /// The package that holds no callable.
    pub fn new() -> (r: Self)
        ensures
            r@ == Seq::<(Seq<char>, F)>::empty(),
    {
        let r = FunctionPackage { functions: Vec::new() };
        assert(r@ =~= Seq::<(Seq<char>, F)>::empty());
        r
    }

    /// Adds `function` under `name`, unless the package holds that name
    /// already. Tells whether it was added.
    pub fn register(&mut self, name: String, function: F) -> (r: bool)
        ensures
            r == (crate::table::index_of(crate::table::keys(old(self)@), name@) is None),
            r ==> final(self)@ == old(self)@.push((name@, function)),
            !r ==> final(self)@ == old(self)@,
    {
        proof {
            assert(crate::table::keys(self@) =~= crate::table::names(self.functions@));
        }
        match find(&self.functions, &name) {
            Some(_) => false,
            None => {
                self.functions.push((name, function));
                assert(self@ =~= old(self)@.push((name@, function)));
                true
            },
        }
    }

    /// The names of the callables, in the order in which they were added.
    pub fn function_names(&self) -> (r: Vec<String>)
        ensures
            crate::text::texts(r@) == crate::table::keys(self@),
    {
        let mut out: Vec<String> = Vec::new();
        let mut i: usize = 0;
        while i < self.functions.len()
            invariant
                i <= self.functions.len(),
                out@.len() == i,
                forall|k: int| 0 <= k < i ==> out@[k]@ == self.functions@[k].0@,
            decreases self.functions.len() - i,
        {
            out.push(self.functions[i].0.clone());
            i += 1;
        }
        assert(crate::text::texts(out@) =~= crate::table::keys(self@));
        out
    }
}

} // verus!
