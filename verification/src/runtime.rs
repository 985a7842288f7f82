//! The world: every named type and every native function, each under the
//! text of its name. A world is made by the linker and read by evaluations.

use crate::names::{NameModel, TypeName};
use crate::table::{find, index_of, keys, names};
use crate::types::{bindings_view, PrimordialModel, PrimordialType, Type, TypeModel};
use crate::value::{Output, OutputModel};
use crate::function::functions_view;
use vstd::prelude::*;
use vstd::string::*;

verus! {

/// What a runtime error holds.
pub enum RuntimeErrorModel {
    NoSuchType(Seq<char>),
    UnboundArgument(Seq<char>),
    NativeFunctionError(Seq<char>, Box<RuntimeErrorModel>),
    Cancelled,
    CyclicSelfReference(Seq<char>),
    ExpressionEvaluation(Seq<char>),
}

/// Why an evaluation came to no result.
#[derive(Debug, PartialEq, Eq)]
pub enum RuntimeError {
    /// The world holds nothing under this name.
    NoSuchType(String),
    /// No binding in force gives this argument a type.
    UnboundArgument(String),
    /// The native function of this name failed, with the error that it gave.
    NativeFunctionError(String, Box<RuntimeError>),
    /// The evaluation was cancelled, or its deadline was used up.
    Cancelled,
    /// The named type was reached again, with the same input, while it was
    /// being evaluated.
    CyclicSelfReference(String),
    /// An expression could not be evaluated.
    ExpressionEvaluation(String),
}

/// What a runtime error holds.
pub open spec fn error_model(error: RuntimeError) -> RuntimeErrorModel
    decreases error,
{
    match error {
        RuntimeError::NoSuchType(name) => RuntimeErrorModel::NoSuchType(name@),
        RuntimeError::UnboundArgument(name) => RuntimeErrorModel::UnboundArgument(name@),
        RuntimeError::NativeFunctionError(name, inner) => RuntimeErrorModel::NativeFunctionError(
            name@,
            Box::new(error_model(*inner)),
        ),
        RuntimeError::Cancelled => RuntimeErrorModel::Cancelled,
        RuntimeError::CyclicSelfReference(name) => RuntimeErrorModel::CyclicSelfReference(name@),
        RuntimeError::ExpressionEvaluation(detail) => RuntimeErrorModel::ExpressionEvaluation(
            detail@,
        ),
    }
}

impl View for RuntimeError {
    type V = RuntimeErrorModel;

    open spec fn view(&self) -> RuntimeErrorModel {
        error_model(*self)
    }
}

impl Clone for RuntimeError {
    fn clone(&self) -> (r: Self)
        ensures
            r@ == self@,
        decreases self,
    {
        match self {
            RuntimeError::NoSuchType(name) => RuntimeError::NoSuchType(name.clone()),
            RuntimeError::UnboundArgument(name) => RuntimeError::UnboundArgument(name.clone()),
            RuntimeError::NativeFunctionError(name, inner) => RuntimeError::NativeFunctionError(
                name.clone(),
                Box::new((**inner).clone()),
            ),
            RuntimeError::Cancelled => RuntimeError::Cancelled,
            RuntimeError::CyclicSelfReference(name) => RuntimeError::CyclicSelfReference(
                name.clone(),
            ),
            RuntimeError::ExpressionEvaluation(detail) => RuntimeError::ExpressionEvaluation(
                detail.clone(),
            ),
        }
    }
}

/// What a call of a native function handed back.
pub open spec fn result_model(result: Result<Output, RuntimeError>) -> Result<
    OutputModel,
    RuntimeErrorModel,
> {
    match result {
        Ok(output) => Ok(output@),
        Err(error) => Err(error@),
    }
}

/// The bindings in force, innermost frame first. In each frame and across
/// frames the first binding of a name is the one that counts.
pub type EnvironmentModel = Seq<Seq<(Seq<char>, TypeModel)>>;

/// The type that the bindings in force give to the argument `name`.
pub open spec fn bound_type(environment: EnvironmentModel, name: Seq<char>) -> Option<TypeModel>
    decreases environment.len(),
{
    if environment.len() == 0 {
        None
    } else {
        match index_of(keys(environment[0]), name) {
            Some(i) => Some(environment[0][i].1),
            None => bound_type(environment.skip(1), name),
        }
    }
}

/// The bindings in force during an evaluation: a stack of frames, one for
/// each bound type that the evaluation is inside of.
pub enum Environment<'a> {
    /// No binding.
    Empty,
    /// The bindings of one bound type, on top of those around it.
    Frame(&'a Vec<(String, Type)>, &'a Environment<'a>),
}

/// What an environment holds.
pub open spec fn environment_model(environment: Environment<'_>) -> EnvironmentModel
    decreases environment,
{
    match environment {
        Environment::Empty => Seq::empty(),
        Environment::Frame(bindings, rest) => seq![bindings_view(bindings@)] + environment_model(
            *rest,
        ),
    }
}

impl<'a> View for Environment<'a> {
    type V = EnvironmentModel;

    open spec fn view(&self) -> EnvironmentModel {
        environment_model(*self)
    }
}

impl<'a> Environment<'a> {
    /// The type that the bindings in force give to the argument `name`.
    pub fn get(&self, name: &String) -> (r: Option<&'a Type>)
        ensures
            match r {
                Some(ty) => bound_type(self@, name@) == Some(ty@),
                None => bound_type(self@, name@) is None,
            },
        decreases self,
    {
        match self {
            Environment::Empty => None,
            Environment::Frame(bindings, rest) => {
                proof {
                    assert(keys(bindings_view(bindings@)) =~= names(bindings@));
                    assert(self@[0] == bindings_view(bindings@));
                    assert(self@.skip(1) =~= rest@);
                }
                match find(bindings, name) {
                    Some(i) => Some(&bindings[i].1),
                    None => rest.get(name),
                }
            },
        }
    }
}

/// What an evaluation context holds.
pub struct ContextModel {
    pub tracing: bool,
    pub deadline: Option<u64>,
    pub cancelled: bool,
    pub bindings: Seq<(Seq<char>, TypeModel)>,
}

/// The options of one evaluation.
#[derive(Debug, PartialEq)]
pub struct EvalContext {
    /// Whether the result is to hold a trace.
    pub tracing: bool,
    /// How many steps deep the evaluation may go before it is cancelled,
    /// where entering a named type, resolving an argument and calling a
    /// native function is a step each; without a deadline, as deep as the
    /// machine counts.
    pub deadline: Option<u64>,
    /// The cancellation signal: once it is set, evaluation is cancelled.
    pub cancelled: bool,
    /// The bindings that the evaluation starts with.
    pub bindings: Vec<(String, Type)>,
}

impl View for EvalContext {
    type V = ContextModel;

    open spec fn view(&self) -> ContextModel {
        ContextModel {
            tracing: self.tracing,
            deadline: self.deadline,
            cancelled: self.cancelled,
            bindings: bindings_view(self.bindings@),
        }
    }
}

impl Default for EvalContext {
    fn default() -> (r: Self)
        ensures
            r@ == (ContextModel {
                tracing: false,
                deadline: None,
                cancelled: false,
                bindings: Seq::empty(),
            }),
    {
        let r = EvalContext { tracing: false, deadline: None, cancelled: false, bindings: Vec::new() };
        assert(bindings_view(r.bindings@) =~= Seq::empty());
        r
    }
}

/// What a world holds: its named types and its native functions, each list
/// in the order in which the entries were defined.
pub struct WorldModel<F> {
    pub types: Seq<(Seq<char>, TypeModel)>,
    pub functions: Seq<(Seq<char>, F)>,
}

impl<F> WorldModel<F> {
    /// The type held under `key`.
    pub open spec fn type_of(self, key: Seq<char>) -> Option<TypeModel> {
        match index_of(keys(self.types), key) {
            Some(i) => Some(self.types[i].1),
            None => None,
        }
    }

    /// The native function held under `key`.
    pub open spec fn function_of(self, key: Seq<char>) -> Option<F> {
        match index_of(keys(self.functions), key) {
            Some(i) => Some(self.functions[i].1),
            None => None,
        }
    }

    /// Whether anything is held under `key`.
    pub open spec fn defines(self, key: Seq<char>) -> bool {
        self.type_of(key) is Some || self.function_of(key) is Some
    }
}

/// The name of a built-in type, which lives in the root package.
pub open spec fn primordial_name(leaf: Seq<char>) -> NameModel {
    NameModel { package: Some(Seq::empty()), name: leaf }
}

/// The built-in types that every world holds from the start.
pub open spec fn primordial_types() -> Seq<(Seq<char>, TypeModel)> {
    seq![
        ("int"@, TypeModel::Primordial(PrimordialModel::Integer)),
        ("decimal"@, TypeModel::Primordial(PrimordialModel::Decimal)),
        ("string"@, TypeModel::Primordial(PrimordialModel::String)),
        ("boolean"@, TypeModel::Primordial(PrimordialModel::Boolean)),
    ]
}

/// What each entry of a list of named types holds.
pub open spec fn types_view(types: Seq<(String, Type)>) -> Seq<(Seq<char>, TypeModel)> {
    Seq::new(types.len(), |i: int| (types[i].0@, types[i].1@))
}

/// Why a definition was not taken into a world.
#[derive(Debug, Clone, Copy, PartialEq, Eq, Structural)]
pub enum DefineError {
    /// The name does not say which package it lives in.
    NotQualified,
    /// The world holds something under the name already.
    AlreadyDefined,
}

/// The linked artifact: named types and native functions.
pub struct World<F> {
    types: Vec<(String, Type)>,
    functions: Vec<(String, F)>,
}

impl<F> View for World<F> {
    type V = WorldModel<F>;

    closed spec fn view(&self) -> WorldModel<F> {
        WorldModel { types: types_view(self.types@), functions: functions_view(self.functions@) }
    }
}

impl<F> World<F> {
    /// The world that holds the built-in types and nothing else.
    pub fn new() -> (r: Self)
        ensures
            r@ == (WorldModel::<F> { types: primordial_types(), functions: Seq::empty() }),
    {
        let mut types: Vec<(String, Type)> = Vec::new();
        types.push((String::from_str("int"), Type::Primordial(PrimordialType::Integer)));
        types.push((String::from_str("decimal"), Type::Primordial(PrimordialType::Decimal)));
        types.push((String::from_str("string"), Type::Primordial(PrimordialType::String)));
        types.push((String::from_str("boolean"), Type::Primordial(PrimordialType::Boolean)));
        let r = World { types, functions: Vec::new() };
        assert(types_view(r.types@) =~= primordial_types());
        assert(functions_view(r.functions@) =~= Seq::empty());
        r
    }

    /// Tells whether the world holds a type or a function under `key`.
    pub fn is_defined(&self, key: &String) -> (r: bool)
        ensures
            r == self@.defines(key@),
    {
        proof {
            assert(keys(self@.types) =~= names(self.types@));
            assert(keys(self@.functions) =~= names(self.functions@));
        }
        find(&self.types, key).is_some() || find(&self.functions, key).is_some()
    }

    /// Puts `ty` under `key`, behind the types that are there.
    pub(crate) fn insert_type(&mut self, key: String, ty: Type)
        ensures
            final(self)@ == (WorldModel {
                types: old(self)@.types.push((key@, ty@)),
                ..old(self)@
            }),
    {
        self.types.push((key, ty));
        assert(types_view(self.types@) =~= types_view(old(self).types@).push((key@, ty@)));
    }

    /// Puts `function` under `key`, behind the functions that are there.
    pub(crate) fn insert_function(&mut self, key: String, function: F)
        ensures
            final(self)@ == (WorldModel {
                functions: old(self)@.functions.push((key@, function)),
                ..old(self)@
            }),
    {
        self.functions.push((key, function));
        assert(functions_view(self.functions@) =~= functions_view(old(self).functions@).push(
            (key@, function),
        ));
    }

    /// Defines the type `name` as `ty`. The name must be qualified, and the
    /// world must hold nothing under it yet; otherwise the world stays as it
    /// is.
    pub fn define(&mut self, name: &TypeName, ty: Type) -> (r: Result<(), DefineError>)
        ensures
            match r {
                Ok(_) => name@.is_qualified() && !old(self)@.defines(name@.type_str())
                    && final(self)@ == (WorldModel {
                    types: old(self)@.types.push((name@.type_str(), ty@)),
                    ..old(self)@
                }),
                Err(DefineError::NotQualified) => !name@.is_qualified() && final(self)@ == old(
                    self,
                )@,
                Err(DefineError::AlreadyDefined) => name@.is_qualified() && old(self)@.defines(
                    name@.type_str(),
                ) && final(self)@ == old(self)@,
            },
    {
        if !name.is_qualified() {
            return Err(DefineError::NotQualified);
        }
        let key = name.as_type_str();
        if self.is_defined(&key) {
            return Err(DefineError::AlreadyDefined);
        }
        self.insert_type(key, ty);
        Ok(())
    }

    /// Defines the native function `name` as `function`, under the same
    /// conditions as a type.
    pub fn define_function(&mut self, name: &TypeName, function: F) -> (r: Result<
        (),
        DefineError,
    >)
        ensures
            match r {
                Ok(_) => name@.is_qualified() && !old(self)@.defines(name@.type_str())
                    && final(self)@ == (WorldModel {
                    functions: old(self)@.functions.push((name@.type_str(), function)),
                    ..old(self)@
                }),
                Err(DefineError::NotQualified) => !name@.is_qualified() && final(self)@ == old(
                    self,
                )@,
                Err(DefineError::AlreadyDefined) => name@.is_qualified() && old(self)@.defines(
                    name@.type_str(),
                ) && final(self)@ == old(self)@,
            },
    {
        if !name.is_qualified() {
            return Err(DefineError::NotQualified);
        }
        let key = name.as_type_str();
        if self.is_defined(&key) {
            return Err(DefineError::AlreadyDefined);
        }
        self.insert_function(key, function);
        Ok(())
    }

    /// The type held under `key`.
    pub fn get(&self, key: &String) -> (r: Option<&Type>)
        ensures
            match r {
                Some(ty) => self@.type_of(key@) == Some(ty@),
                None => self@.type_of(key@) is None,
            },
    {
        proof {
            assert(keys(self@.types) =~= names(self.types@));
        }
        match find(&self.types, key) {
            Some(i) => Some(&self.types[i].1),
            None => None,
        }
    }

    /// The native function held under `key`.
    pub fn get_function(&self, key: &String) -> (r: Option<&F>)
        ensures
            match r {
                Some(function) => self@.function_of(key@) == Some(*function),
                None => self@.function_of(key@) is None,
            },
    {
        proof {
            assert(keys(self@.functions) =~= names(self.functions@));
        }
        match find(&self.functions, key) {
            Some(i) => Some(&self.functions[i].1),
            None => None,
        }
    }
}

} // verus!
