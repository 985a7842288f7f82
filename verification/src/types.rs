//! The types of the policy language.
//!
//! A type is a tree. Where it speaks of a named type it holds the name, not
//! the type: the world owns every named type, so types that refer to each
//! other, or to themselves, need no cycle in memory.

use crate::names::{NameModel, TypeName};
use crate::table::{find, index_of, keys, names};
use crate::value::{RuntimeValue, ValueModel};
use vstd::prelude::*;

verus! {

/// An operator of two operands in an expression.
#[derive(Debug, Clone, Copy, PartialEq, Eq, Structural)]
pub enum Operator {
    LogicalAnd,
    LogicalOr,
    LessThan,
    LessThanEqual,
    GreaterThan,
    GreaterThanEqual,
    Equal,
    NotEqual,
}

/// What an expression holds.
pub enum ExprModel {
    SelfLiteral,
    Value(ValueModel),
    Not(Box<ExprModel>),
    Binary(Operator, Box<ExprModel>, Box<ExprModel>),
}

/// A constraint on the input, written as an expression: the input itself, a
/// constant, or an operator applied to expressions.
#[derive(Debug, PartialEq)]
pub enum Expr {
    /// The input of the evaluation.
    SelfLiteral,
    /// A constant.
    Value(RuntimeValue),
    /// The negation of a truth value.
    Not(Box<Expr>),
    /// An operator applied to two operands.
    Binary(Operator, Box<Expr>, Box<Expr>),
}

/// What an expression holds.
pub open spec fn expr_model(expr: Expr) -> ExprModel
    decreases expr,
{
    match expr {
        Expr::SelfLiteral => ExprModel::SelfLiteral,
        Expr::Value(value) => ExprModel::Value(value@),
        Expr::Not(inner) => ExprModel::Not(Box::new(expr_model(*inner))),
        Expr::Binary(op, left, right) => ExprModel::Binary(
            op,
            Box::new(expr_model(*left)),
            Box::new(expr_model(*right)),
        ),
    }
}

impl View for Expr {
    type V = ExprModel;

    open spec fn view(&self) -> ExprModel {
        expr_model(*self)
    }
}

/// What a primordial type holds.
pub enum PrimordialModel {
    Integer,
    Decimal,
    Boolean,
    String,
    Function(NameModel),
}

/// A built-in atom: a kind of value, or a native function of the world,
/// which is held by its name.
#[derive(Debug, PartialEq)]
pub enum PrimordialType {
    Integer,
    Decimal,
    Boolean,
    String,
    Function(TypeName),
}

impl View for PrimordialType {
    type V = PrimordialModel;

    open spec fn view(&self) -> PrimordialModel {
        match self {
            PrimordialType::Integer => PrimordialModel::Integer,
            PrimordialType::Decimal => PrimordialModel::Decimal,
            PrimordialType::Boolean => PrimordialModel::Boolean,
            PrimordialType::String => PrimordialModel::String,
            PrimordialType::Function(name) => PrimordialModel::Function(name@),
        }
    }
}

/// What a field of an object type holds.
pub struct FieldModel {
    pub name: Seq<char>,
    pub ty: TypeModel,
    pub optional: bool,
}

/// What a type holds.
pub enum TypeModel {
    Anything,
    Nothing,
    Primordial(PrimordialModel),
    Const(ValueModel),
    Object(Seq<FieldModel>),
    List(Box<TypeModel>),
    Join(Box<TypeModel>, Box<TypeModel>),
    Meet(Box<TypeModel>, Box<TypeModel>),
    Refinement(Box<TypeModel>, Box<TypeModel>),
    Bound(Box<TypeModel>, Seq<(Seq<char>, TypeModel)>),
    Argument(Seq<char>),
    Expr(ExprModel),
    Ref(NameModel),
}

/// A field that an object type declares.
#[derive(Debug, PartialEq)]
pub struct Field {
    pub name: String,
    pub ty: Type,
    pub optional: bool,
}

/// A type of the policy language.
#[derive(Debug, PartialEq)]
pub enum Type {
    /// Every value.
    Anything,
    /// No value.
    Nothing,
    /// A built-in atom.
    Primordial(PrimordialType),
    /// The values equal to one value.
    Const(RuntimeValue),
    /// Objects, by the fields that they must or may have.
    Object(Vec<Field>),
    /// Lists, by the type of their items.
    List(Box<Type>),
    /// The values of either type.
    Join(Box<Type>, Box<Type>),
    /// The values of both types.
    Meet(Box<Type>, Box<Type>),
    /// The values of the first type whose outcome there is of the second.
    Refinement(Box<Type>, Box<Type>),
    /// A generic type, with the types that its arguments stand for.
    Bound(Box<Type>, Vec<(String, Type)>),
    /// An argument of the generic type that is being applied.
    Argument(String),
    /// The values that meet a constraint.
    Expr(Expr),
    /// The type that the world holds under a name.
    Ref(TypeName),
}

/// What each field of `fields` holds.
pub open spec fn fields_view(fields: Seq<Field>) -> Seq<FieldModel>
    decreases fields,
{
    Seq::new(
        fields.len(),
        |i: int|
            if 0 <= i < fields.len() {
                FieldModel {
                    name: fields[i].name@,
                    ty: type_model(fields[i].ty),
                    optional: fields[i].optional,
                }
            } else {
                FieldModel { name: Seq::empty(), ty: TypeModel::Anything, optional: false }
            },
    )
}

/// What each binding of `bindings` holds.
pub open spec fn bindings_view(bindings: Seq<(String, Type)>) -> Seq<(Seq<char>, TypeModel)>
    decreases bindings,
{
    Seq::new(
        bindings.len(),
        |i: int|
            if 0 <= i < bindings.len() {
                (bindings[i].0@, type_model(bindings[i].1))
            } else {
                (Seq::empty(), TypeModel::Anything)
            },
    )
}

/// What a type holds.
pub open spec fn type_model(ty: Type) -> TypeModel
    decreases ty,
{
    match ty {
        Type::Anything => TypeModel::Anything,
        Type::Nothing => TypeModel::Nothing,
        Type::Primordial(kind) => TypeModel::Primordial(kind@),
        Type::Const(value) => TypeModel::Const(value@),
        Type::Object(fields) => TypeModel::Object(fields_view(fields@)),
        Type::List(item) => TypeModel::List(Box::new(type_model(*item))),
        Type::Join(left, right) => TypeModel::Join(
            Box::new(type_model(*left)),
            Box::new(type_model(*right)),
        ),
        Type::Meet(left, right) => TypeModel::Meet(
            Box::new(type_model(*left)),
            Box::new(type_model(*right)),
        ),
        Type::Refinement(base, predicate) => TypeModel::Refinement(
            Box::new(type_model(*base)),
            Box::new(type_model(*predicate)),
        ),
        Type::Bound(generic, bindings) => TypeModel::Bound(
            Box::new(type_model(*generic)),
            bindings_view(bindings@),
        ),
        Type::Argument(name) => TypeModel::Argument(name@),
        Type::Expr(expr) => TypeModel::Expr(expr@),
        Type::Ref(name) => TypeModel::Ref(name@),
    }
}

impl View for Type {
    type V = TypeModel;

    open spec fn view(&self) -> TypeModel {
        type_model(*self)
    }
}

impl Clone for Expr {
    fn clone(&self) -> (r: Self)
        ensures
            r@ == self@,
        decreases self,
    {
        match self {
            Expr::SelfLiteral => Expr::SelfLiteral,
            Expr::Value(value) => Expr::Value(value.clone()),
            Expr::Not(inner) => Expr::Not(Box::new((**inner).clone())),
            Expr::Binary(op, left, right) => Expr::Binary(
                *op,
                Box::new((**left).clone()),
                Box::new((**right).clone()),
            ),
        }
    }
}

impl Clone for PrimordialType {
    fn clone(&self) -> (r: Self)
        ensures
            r@ == self@,
    {
        match self {
            PrimordialType::Integer => PrimordialType::Integer,
            PrimordialType::Decimal => PrimordialType::Decimal,
            PrimordialType::Boolean => PrimordialType::Boolean,
            PrimordialType::String => PrimordialType::String,
            PrimordialType::Function(name) => PrimordialType::Function(name.clone()),
        }
    }
}

/// Resolving by a table that knows no name changes nothing.
pub proof fn lemma_qualified_by_nothing(ty: TypeModel)
    ensures
        qualified(ty, Seq::empty()) == ty,
    decreases ty,
{
    let nothing = Seq::<(Seq<char>, NameModel)>::empty();
    assert(keys(nothing) =~= Seq::<Seq<char>>::empty());
    match ty {
        TypeModel::Object(fields) => {
            assert forall|i: int| 0 <= i < fields.len() implies qualified_fields(
                fields,
                nothing,
            )[i] == fields[i] by {
                lemma_qualified_by_nothing(fields[i].ty);
            }
            assert(qualified_fields(fields, nothing) =~= fields);
        },
        TypeModel::List(item) => lemma_qualified_by_nothing(*item),
        TypeModel::Join(left, right) => {
            lemma_qualified_by_nothing(*left);
            lemma_qualified_by_nothing(*right);
        },
        TypeModel::Meet(left, right) => {
            lemma_qualified_by_nothing(*left);
            lemma_qualified_by_nothing(*right);
        },
        TypeModel::Refinement(base, predicate) => {
            lemma_qualified_by_nothing(*base);
            lemma_qualified_by_nothing(*predicate);
        },
        TypeModel::Bound(generic, bindings) => {
            lemma_qualified_by_nothing(*generic);
            assert forall|i: int| 0 <= i < bindings.len() implies qualified_bindings(
                bindings,
                nothing,
            )[i] == bindings[i] by {
                lemma_qualified_by_nothing(bindings[i].1);
            }
            assert(qualified_bindings(bindings, nothing) =~= bindings);
        },
        _ => {},
    }
}

impl Clone for Type {
    fn clone(&self) -> (r: Self)
        ensures
            r@ == self@,
    {
        let nothing: Vec<(String, TypeName)> = Vec::new();
        proof {
            lemma_qualified_by_nothing(self@);
            assert(visible_view(nothing@) =~= Seq::empty());
        }
        self.qualified(&nothing)
    }
}

/// `names` with `name` added at its end, unless it is there already.
pub open spec fn with_name(names: Seq<NameModel>, name: NameModel) -> Seq<NameModel> {
    if names.contains(name) {
        names
    } else {
        names.push(name)
    }
}

/// `found`, followed by the names that `ty` refers to and that are not yet
/// in it, in the order in which `ty` first mentions them.
pub open spec fn references(ty: TypeModel, found: Seq<NameModel>) -> Seq<NameModel>
    decreases ty, 0int,
{
    match ty {
        TypeModel::Ref(name) => with_name(found, name),
        TypeModel::Object(fields) => field_references(fields, fields.len() as int, found),
        TypeModel::List(item) => references(*item, found),
        TypeModel::Join(left, right) => references(*right, references(*left, found)),
        TypeModel::Meet(left, right) => references(*right, references(*left, found)),
        TypeModel::Refinement(base, predicate) => references(
            *predicate,
            references(*base, found),
        ),
        TypeModel::Bound(generic, bindings) => binding_references(
            bindings,
            bindings.len() as int,
            references(*generic, found),
        ),
        _ => found,
    }
}

/// `references`, over the first `k` fields of an object type.
pub open spec fn field_references(fields: Seq<FieldModel>, k: int, found: Seq<NameModel>) -> Seq<
    NameModel,
>
    decreases fields, k,
{
    if 0 < k <= fields.len() {
        references(fields[k - 1].ty, field_references(fields, k - 1, found))
    } else {
        found
    }
}

/// `references`, over the first `k` bindings of a bound type.
pub open spec fn binding_references(
    bindings: Seq<(Seq<char>, TypeModel)>,
    k: int,
    found: Seq<NameModel>,
) -> Seq<NameModel>
    decreases bindings, k,
{
    if 0 < k <= bindings.len() {
        references(bindings[k - 1].1, binding_references(bindings, k - 1, found))
    } else {
        found
    }
}

/// What each entry of a table of visible names holds.
pub open spec fn visible_view(visible: Seq<(String, TypeName)>) -> Seq<(Seq<char>, NameModel)> {
    Seq::new(visible.len(), |i: int| (visible[i].0@, visible[i].1@))
}

/// The name that a reference stands for where `visible` is in force: a bare
/// name that `visible` knows becomes the name given there; every other name
/// stays.
pub open spec fn resolved(name: NameModel, visible: Seq<(Seq<char>, NameModel)>) -> NameModel {
    if name.package is None {
        match index_of(keys(visible), name.name) {
            Some(i) => visible[i].1,
            None => name,
        }
    } else {
        name
    }
}

/// `ty` with every reference resolved by `visible`.
pub open spec fn qualified(ty: TypeModel, visible: Seq<(Seq<char>, NameModel)>) -> TypeModel
    decreases ty,
{
    match ty {
        TypeModel::Ref(name) => TypeModel::Ref(resolved(name, visible)),
        TypeModel::Object(fields) => TypeModel::Object(qualified_fields(fields, visible)),
        TypeModel::List(item) => TypeModel::List(Box::new(qualified(*item, visible))),
        TypeModel::Join(left, right) => TypeModel::Join(
            Box::new(qualified(*left, visible)),
            Box::new(qualified(*right, visible)),
        ),
        TypeModel::Meet(left, right) => TypeModel::Meet(
            Box::new(qualified(*left, visible)),
            Box::new(qualified(*right, visible)),
        ),
        TypeModel::Refinement(base, predicate) => TypeModel::Refinement(
            Box::new(qualified(*base, visible)),
            Box::new(qualified(*predicate, visible)),
        ),
        TypeModel::Bound(generic, bindings) => TypeModel::Bound(
            Box::new(qualified(*generic, visible)),
            qualified_bindings(bindings, visible),
        ),
        _ => ty,
    }
}

/// The fields of an object type, the type of each resolved by `visible`.
pub open spec fn qualified_fields(
    fields: Seq<FieldModel>,
    visible: Seq<(Seq<char>, NameModel)>,
) -> Seq<FieldModel>
    decreases fields,
{
    Seq::new(
        fields.len(),
        |i: int|
            if 0 <= i < fields.len() {
                FieldModel {
                    name: fields[i].name,
                    ty: qualified(fields[i].ty, visible),
                    optional: fields[i].optional,
                }
            } else {
                arbitrary()
            },
    )
}

/// The bindings of a bound type, the type of each resolved by `visible`.
pub open spec fn qualified_bindings(
    bindings: Seq<(Seq<char>, TypeModel)>,
    visible: Seq<(Seq<char>, NameModel)>,
) -> Seq<(Seq<char>, TypeModel)>
    decreases bindings,
{
    Seq::new(
        bindings.len(),
        |i: int|
            if 0 <= i < bindings.len() {
                (bindings[i].0, qualified(bindings[i].1, visible))
            } else {
                arbitrary()
            },
    )
}

/// What each name of `names` holds.
pub open spec fn names_view(names: Seq<TypeName>) -> Seq<NameModel> {
    Seq::new(names.len(), |i: int| names[i]@)
}

/// Adds `name` to `found` unless it is there already.
fn add_name(found: &mut Vec<TypeName>, name: &TypeName)
    ensures
        names_view(final(found)@) == with_name(names_view(old(found)@), name@),
{
    let mut i: usize = 0;
    while i < found.len()
        invariant
            i <= found.len(),
            *found == *old(found),
            forall|j: int| 0 <= j < i ==> names_view(found@)[j] != name@,
        decreases found.len() - i,
    {
        if found[i].same(name) {
            assert(names_view(found@)[i as int] == name@);
            return ;
        }
        i += 1;
    }
    found.push(name.clone());
    assert(names_view(found@) =~= names_view(old(found)@).push(name@));
}

impl Field {
    /// The name of the field.
    pub fn name(&self) -> (r: String)
        ensures
            r@ == self.name@,
    {
        self.name.clone()
    }

    /// The type of the field.
    pub fn ty(&self) -> (r: &Type)
        ensures
            r == &self.ty,
    {
        &self.ty
    }
}

impl Type {
    /// The name under which the world holds this type, where the type is a
    /// reference to a named type.
    pub fn name(&self) -> (r: Option<TypeName>)
        ensures
            match r {
                Some(name) => self@ == TypeModel::Ref(name@),
                None => !(self@ is Ref),
            },
    {
        match self {
            Type::Ref(name) => Some(name.clone()),
            _ => None,
        }
    }

    /// The names that the type refers to, each once, in the order in which
    /// the type first mentions them. Nothing is resolved: a bare name comes
    /// out bare.
    pub fn referenced_types(&self) -> (r: Vec<TypeName>)
        ensures
            names_view(r@) == references(self@, Seq::empty()),
    {
        let mut found: Vec<TypeName> = Vec::new();
        assert(names_view(found@) =~= Seq::<NameModel>::empty());
        self.collect_references(&mut found);
        found
    }

    /// Adds to `found` the names that the type refers to.
    #[verifier::loop_isolation(false)]
    fn collect_references(&self, found: &mut Vec<TypeName>)
        ensures
            names_view(final(found)@) == references(self@, names_view(old(found)@)),
        decreases self,
    {
        match self {
            Type::Ref(name) => add_name(found, name),
            Type::Object(fields) => {
                let mut i: usize = 0;
                while i < fields.len()
                    invariant
                        i <= fields.len(),
                        names_view(found@) == field_references(
                            fields_view(fields@),
                            i as int,
                            names_view(old(found)@),
                        ),
                    decreases fields.len() - i,
                {
                    assert(fields_view(fields@)[i as int].ty == fields@[i as int].ty@);
                    fields[i].ty.collect_references(found);
                    i += 1;
                }
            },
            Type::List(item) => item.collect_references(found),
            Type::Join(left, right) => {
                left.collect_references(found);
                right.collect_references(found);
            },
            Type::Meet(left, right) => {
                left.collect_references(found);
                right.collect_references(found);
            },
            Type::Refinement(base, predicate) => {
                base.collect_references(found);
                predicate.collect_references(found);
            },
            Type::Bound(generic, bindings) => {
                generic.collect_references(found);
                let ghost start = names_view(found@);
                let mut i: usize = 0;
                while i < bindings.len()
                    invariant
                        i <= bindings.len(),
                        names_view(found@) == binding_references(
                            bindings_view(bindings@),
                            i as int,
                            start,
                        ),
                    decreases bindings.len() - i,
                {
                    assert(bindings_view(bindings@)[i as int].1 == bindings@[i as int].1@);
                    bindings[i].1.collect_references(found);
                    i += 1;
                }
            },
            _ => {},
        }
    }

    /// A copy of the type in which every reference is resolved by `visible`:
    /// a bare name that `visible` knows is replaced by the name given there,
    /// and every other name stays as it is.
    #[verifier::loop_isolation(false)]
    pub fn qualified(&self, visible: &Vec<(String, TypeName)>) -> (r: Type)
        ensures
            r@ == qualified(self@, visible_view(visible@)),
        decreases self,
    {
        proof {
            assert(keys(visible_view(visible@)) =~= names(visible@));
        }
        match self {
            Type::Anything => Type::Anything,
            Type::Nothing => Type::Nothing,
            Type::Primordial(kind) => Type::Primordial(kind.clone()),
            Type::Const(value) => Type::Const(value.clone()),
            Type::Object(fields) => {
                let mut out: Vec<Field> = Vec::new();
                let mut i: usize = 0;
                while i < fields.len()
                    invariant
                        i <= fields.len(),
                        out@.len() == i,
                        forall|k: int|
                            0 <= k < i ==> out@[k].name@ == fields@[k].name@ && out@[k].optional
                                == fields@[k].optional && out@[k].ty@ == qualified(
                                fields@[k].ty@,
                                visible_view(visible@),
                            ),
                    decreases fields.len() - i,
                {
                    let field = &fields[i];
                    out.push(
                        Field {
                            name: field.name.clone(),
                            ty: field.ty.qualified(visible),
                            optional: field.optional,
                        },
                    );
                    i += 1;
                }
                assert(fields_view(out@) =~= qualified_fields(
                    fields_view(fields@),
                    visible_view(visible@),
                ));
                Type::Object(out)
            },
            Type::List(item) => Type::List(Box::new(item.qualified(visible))),
            Type::Join(left, right) => Type::Join(
                Box::new(left.qualified(visible)),
                Box::new(right.qualified(visible)),
            ),
            Type::Meet(left, right) => Type::Meet(
                Box::new(left.qualified(visible)),
                Box::new(right.qualified(visible)),
            ),
            Type::Refinement(base, predicate) => Type::Refinement(
                Box::new(base.qualified(visible)),
                Box::new(predicate.qualified(visible)),
            ),
            Type::Bound(generic, bindings) => {
                let head = generic.qualified(visible);
                let mut out: Vec<(String, Type)> = Vec::new();
                let mut i: usize = 0;
                while i < bindings.len()
                    invariant
                        i <= bindings.len(),
                        out@.len() == i,
                        forall|k: int|
                            0 <= k < i ==> out@[k].0@ == bindings@[k].0@ && out@[k].1@ == qualified(
                                bindings@[k].1@,
                                visible_view(visible@),
                            ),
                    decreases bindings.len() - i,
                {
                    out.push((bindings[i].0.clone(), bindings[i].1.qualified(visible)));
                    i += 1;
                }
                assert(bindings_view(out@) =~= qualified_bindings(
                    bindings_view(bindings@),
                    visible_view(visible@),
                ));
                Type::Bound(Box::new(head), out)
            },
            Type::Argument(name) => Type::Argument(name.clone()),
            Type::Expr(expr) => Type::Expr(expr.clone()),
            Type::Ref(name) => {
                if !name.is_qualified() {
                    match find(visible, &name.name) {
                        Some(i) => Type::Ref(visible[i].1.clone()),
                        None => Type::Ref(name.clone()),
                    }
                } else {
                    Type::Ref(name.clone())
                }
            },
        }
    }

    /// Resolves every reference of the type by `visible`, in place.
    pub fn qualify_types(&mut self, visible: &Vec<(String, TypeName)>)
        ensures
            final(self)@ == qualified(old(self)@, visible_view(visible@)),
    {
        let resolved = self.qualified(visible);
        *self = resolved;
    }
}

} // verus!
