use seedwing_policy::function::{Function, FunctionPackage};
use seedwing_policy::lang::{CompilationUnit, Located, Location, TypeDefinition, Use};
use seedwing_policy::linker::{BuildError, Linker};
use seedwing_policy::names::{PackagePath, TypeName};
use seedwing_policy::runtime::{DefineError, Environment, EvalContext, RuntimeError, World};
use seedwing_policy::types::{Field, PrimordialType, Type};
use seedwing_policy::value::{Output, RuntimeValue};
use std::sync::Arc;

struct Echo;

impl Function for Echo {
    fn call(
        &self,
        input: &RuntimeValue,
        _bindings: &Environment,
        _context: &EvalContext,
    ) -> Result<Output, RuntimeError> {
        Ok(Output::Transform(input.clone()))
    }
}

fn text(s: &str) -> String {
    s.to_string()
}

fn at(line: usize) -> Location {
    Location { file: text("policy.dog"), start: line, end: line + 1 }
}

fn bare(name: &str) -> Type {
    Type::Ref(TypeName::new(None, text(name)))
}

fn field(name: &str, ty: Type) -> Field {
    Field { name: text(name), ty, optional: false }
}

fn unit(source: &str, types: Vec<(&str, usize, Type)>) -> CompilationUnit {
    let mut unit = CompilationUnit::new(text(source));
    for (name, line, ty) in types {
        unit.add_type(TypeDefinition::new(text(name), at(line), ty));
    }
    unit
}

fn import(alias: &str, line: usize, target: &str, leaf: &str) -> Use {
    Use::new(text(alias), at(line), PackagePath::from(target), text(leaf))
}

fn link(
    units: Vec<CompilationUnit>,
    packages: Vec<(PackagePath, FunctionPackage<Echo>)>,
) -> Result<Arc<World<Echo>>, Vec<BuildError>> {
    Linker::new(units, packages).link()
}

fn errors_of(result: Result<Arc<World<Echo>>, Vec<BuildError>>) -> Vec<BuildError> {
    match result {
        Ok(_) => panic!("the link made a world"),
        Err(errors) => errors,
    }
}

fn world_of(result: Result<Arc<World<Echo>>, Vec<BuildError>>) -> Arc<World<Echo>> {
    match result {
        Ok(world) => world,
        Err(errors) => panic!("the link failed: {:?}", errors),
    }
}

fn net() -> (PackagePath, FunctionPackage<Echo>) {
    let mut package = FunctionPackage::new();
    assert!(package.register(text("reachable"), Echo));
    (PackagePath::from("net"), package)
}

#[test]
fn unresolved_reference_at_link_time() {
    let a = unit("foo", vec![("A", 3, Type::Object(vec![field("x", bare("Bogus"))]))]);
    let errors = errors_of(link(vec![a], Vec::new()));
    assert_eq!(errors, vec![BuildError::UnresolvedNameInUnit(text("Bogus"), at(3))]);
}

#[test]
fn an_unresolved_name_is_reported_once_for_each_definition() {
    let a = unit(
        "foo",
        vec![
            ("A", 1, Type::Join(Box::new(bare("Bogus")), Box::new(bare("Bogus")))),
            ("B", 2, Type::List(Box::new(bare("Bogus")))),
        ],
    );
    let errors = errors_of(link(vec![a], Vec::new()));
    assert_eq!(
        errors,
        vec![
            BuildError::UnresolvedNameInUnit(text("Bogus"), at(1)),
            BuildError::UnresolvedNameInUnit(text("Bogus"), at(2)),
        ]
    );
}

#[test]
fn linking_nothing_gives_the_built_in_types() {
    let world = world_of(link(Vec::new(), Vec::new()));
    assert_eq!(world.get(&text("int")), Some(&Type::Primordial(PrimordialType::Integer)));
    assert_eq!(world.get(&text("decimal")), Some(&Type::Primordial(PrimordialType::Decimal)));
    assert_eq!(world.get(&text("string")), Some(&Type::Primordial(PrimordialType::String)));
    assert_eq!(world.get(&text("boolean")), Some(&Type::Primordial(PrimordialType::Boolean)));
    assert_eq!(world.get(&text("foo::A")), None);
    assert!(!world.is_defined(&text("foo::A")));
}

#[test]
fn a_link_qualifies_every_reference() {
    let a = unit(
        "foo::bar",
        vec![
            ("Person", 1, Type::Object(vec![field("name", bare("string")), field("pet", bare("Pet"))])),
            ("Pet", 2, Type::Join(Box::new(bare("int")), Box::new(bare("Person")))),
        ],
    );
    let world = world_of(link(vec![a], Vec::new()));
    let string = PackagePath::root().name_for(text("string"));
    let int = PackagePath::root().name_for(text("int"));
    let person = PackagePath::from("foo::bar").name_for(text("Person"));
    let pet = PackagePath::from("foo::bar").name_for(text("Pet"));
    assert_eq!(
        world.get(&text("foo::bar::Person")),
        Some(&Type::Object(vec![
            field("name", Type::Ref(string)),
            field("pet", Type::Ref(pet.clone())),
        ]))
    );
    assert_eq!(
        world.get(&text("foo::bar::Pet")),
        Some(&Type::Join(Box::new(Type::Ref(int)), Box::new(Type::Ref(person))))
    );
    for key in ["foo::bar::Person", "foo::bar::Pet"] {
        let ty = world.get(&text(key)).expect("defined");
        for name in ty.referenced_types() {
            assert!(name.is_qualified());
            assert!(world.is_defined(&name.as_type_str()));
        }
    }
}

#[test]
fn a_link_resolves_imports_and_references_across_units() {
    let mut a = unit("app", vec![("Entry", 1, Type::List(Box::new(bare("Host"))))]);
    a.add_use(import("Host", 5, "net::types", "Host"));
    let b = unit("net::types", vec![("Host", 2, bare("string"))]);
    let world = world_of(link(vec![a, b], Vec::new()));
    assert_eq!(
        world.get(&text("app::Entry")),
        Some(&Type::List(Box::new(Type::Ref(PackagePath::from("net::types").name_for(text("Host"))))))
    );
}

#[test]
fn a_definition_of_the_unit_shadows_an_import_and_a_built_in_type() {
    let mut a = unit(
        "app",
        vec![("Host", 1, Type::Anything), ("int", 2, Type::Nothing), ("Use", 3, Type::Join(Box::new(bare("Host")), Box::new(bare("int"))))],
    );
    a.add_use(import("Host", 5, "net", "Host"));
    let b = unit("net", vec![("Host", 2, Type::Anything)]);
    let world = world_of(link(vec![a, b], Vec::new()));
    assert_eq!(
        world.get(&text("app::Use")),
        Some(&Type::Join(
            Box::new(Type::Ref(PackagePath::from("app").name_for(text("Host")))),
            Box::new(Type::Ref(PackagePath::from("app").name_for(text("int")))),
        ))
    );
}

#[test]
fn a_qualified_reference_that_names_nothing_is_an_error() {
    let mut a = unit("app", vec![("Entry", 7, bare("Host"))]);
    a.add_use(import("Host", 5, "net", "Host"));
    let errors = errors_of(link(vec![a], Vec::new()));
    assert_eq!(errors, vec![BuildError::UnresolvedNameInWorld(text("net::Host"), at(7))]);
}

#[test]
fn two_imports_of_one_alias_are_an_error() {
    let mut a = unit("app", Vec::new());
    a.add_use(import("Host", 5, "net", "Host"));
    a.add_use(import("Host", 6, "dns", "Host"));
    let errors = errors_of(link(vec![a], Vec::new()));
    assert_eq!(errors, vec![BuildError::DuplicateImport(text("Host"), at(6))]);
}

#[test]
fn two_definitions_of_one_name_are_an_error() {
    let a = unit("app", vec![("T", 1, Type::Anything)]);
    let b = unit("app", vec![("T", 9, Type::Nothing)]);
    let errors = errors_of(link(vec![a, b], Vec::new()));
    assert_eq!(errors, vec![BuildError::DuplicateDefinition(text("app::T"), at(1), at(9))]);
}

#[test]
fn a_definition_named_like_a_function_is_an_error() {
    let a = unit("net", vec![("reachable", 1, Type::Anything)]);
    let errors = errors_of(link(vec![a], vec![net()]));
    assert_eq!(errors, vec![BuildError::FunctionTypeCollision(text("net::reachable"))]);
}

#[test]
fn a_root_definition_named_like_a_built_in_type_is_an_error() {
    let a = unit("", vec![("int", 1, Type::Anything)]);
    let errors = errors_of(link(vec![a], Vec::new()));
    assert_eq!(errors, vec![BuildError::FunctionTypeCollision(text("int"))]);
}

#[test]
fn every_error_is_collected_in_the_order_of_the_phases() {
    let mut a = unit("app", vec![("T", 1, bare("Bogus")), ("U", 2, bare("Gone"))]);
    a.add_use(import("Gone", 5, "far", "Away"));
    a.add_use(import("Gone", 6, "far", "Away"));
    let b = unit("app", vec![("T", 9, Type::Nothing)]);
    let errors = errors_of(link(vec![a, b], Vec::new()));
    assert_eq!(
        errors,
        vec![
            BuildError::DuplicateImport(text("Gone"), at(6)),
            BuildError::UnresolvedNameInUnit(text("Bogus"), at(1)),
            BuildError::DuplicateDefinition(text("app::T"), at(1), at(9)),
            BuildError::UnresolvedNameInWorld(text("far::Away"), at(2)),
        ]
    );
}

#[test]
fn a_link_takes_the_functions_of_the_packages() {
    let a = unit("app", vec![("Up", 1, Type::Ref(PackagePath::from("net").name_for(text("reachable"))))]);
    let world = world_of(link(vec![a], vec![net()]));
    assert!(world.is_defined(&text("net::reachable")));
    assert!(world.get_function(&text("net::reachable")).is_some());
    assert!(world.get(&text("net::reachable")).is_none());
    assert!(world.get_function(&text("app::Up")).is_none());
}

#[test]
fn types_may_refer_to_themselves_and_to_each_other() {
    let a = unit(
        "pkg",
        vec![
            ("List", 1, Type::Join(
                Box::new(Type::Const(RuntimeValue::Null)),
                Box::new(Type::Object(vec![field("head", bare("int")), field("tail", bare("List"))])),
            )),
            ("Even", 2, Type::List(Box::new(bare("Odd")))),
            ("Odd", 3, Type::List(Box::new(bare("Even")))),
        ],
    );
    let world = world_of(link(vec![a], Vec::new()));
    assert!(world.is_defined(&text("pkg::List")));
    assert!(world.is_defined(&text("pkg::Even")));
    assert!(world.is_defined(&text("pkg::Odd")));
}

#[test]
fn linking_the_same_twice_gives_the_same_world() {
    let make = || {
        let mut a = unit("app", vec![("Entry", 1, Type::List(Box::new(bare("Host")))), ("N", 2, bare("int"))]);
        a.add_use(import("Host", 5, "net::types", "Host"));
        let b = unit("net::types", vec![("Host", 2, bare("string"))]);
        world_of(link(vec![a, b], vec![net()]))
    };
    let first = make();
    let second = make();
    for key in ["int", "decimal", "string", "boolean", "app::Entry", "app::N", "net::types::Host", "net::reachable", "nowhere"] {
        assert_eq!(first.get(&text(key)), second.get(&text(key)));
        assert_eq!(first.get_function(&text(key)).is_some(), second.get_function(&text(key)).is_some());
    }
}

#[test]
fn define_takes_a_qualified_name_once() {
    let mut world: World<Echo> = World::new();
    let name = PackagePath::from("foo").name_for(text("T"));
    assert_eq!(world.define(&name, Type::Anything), Ok(()));
    assert_eq!(world.get(&text("foo::T")), Some(&Type::Anything));
    assert_eq!(world.define(&name, Type::Nothing), Err(DefineError::AlreadyDefined));
    assert_eq!(world.get(&text("foo::T")), Some(&Type::Anything));
    assert_eq!(world.define_function(&name, Echo), Err(DefineError::AlreadyDefined));
    assert_eq!(
        world.define(&TypeName::new(None, text("U")), Type::Anything),
        Err(DefineError::NotQualified)
    );
    assert!(!world.is_defined(&text("U")));
    assert_eq!(
        world.define(&PackagePath::root().name_for(text("int")), Type::Anything),
        Err(DefineError::AlreadyDefined)
    );
}

#[test]
fn define_function_takes_a_qualified_name_once() {
    let mut world: World<Echo> = World::new();
    let name = PackagePath::from("net").name_for(text("reachable"));
    assert_eq!(world.define_function(&name, Echo), Ok(()));
    assert!(world.get_function(&text("net::reachable")).is_some());
    assert_eq!(world.define_function(&name, Echo), Err(DefineError::AlreadyDefined));
    assert_eq!(world.define(&name, Type::Anything), Err(DefineError::AlreadyDefined));
    assert_eq!(
        world.define_function(&TypeName::new(None, text("f")), Echo),
        Err(DefineError::NotQualified)
    );
}

#[test]
fn a_package_takes_each_name_once() {
    let mut package: FunctionPackage<Echo> = FunctionPackage::new();
    assert!(package.register(text("a"), Echo));
    assert!(package.register(text("b"), Echo));
    assert!(!package.register(text("a"), Echo));
    assert_eq!(package.function_names(), vec![text("a"), text("b")]);
}

#[test]
fn referenced_types_gives_each_name_once_in_order() {
    let ty = Type::Object(vec![
        field("a", bare("X")),
        field("b", Type::Join(Box::new(bare("Y")), Box::new(bare("X")))),
        field("c", Type::Bound(Box::new(bare("G")), vec![(text("T"), bare("Z"))])),
        field("d", Type::Refinement(Box::new(bare("int")), Box::new(Type::Meet(Box::new(bare("Y")), Box::new(Type::Anything))))),
    ]);
    let names: Vec<String> = ty.referenced_types().iter().map(|n| n.as_type_str()).collect();
    assert_eq!(names, vec![text("X"), text("Y"), text("G"), text("Z"), text("int")]);
    assert!(Type::Anything.referenced_types().is_empty());
}

#[test]
fn qualify_types_leaves_what_it_does_not_know() {
    let visible = vec![(text("X"), PackagePath::from("p").name_for(text("X")))];
    let mut ty = Type::Join(Box::new(bare("X")), Box::new(bare("Y")));
    ty.qualify_types(&visible);
    assert_eq!(
        ty,
        Type::Join(
            Box::new(Type::Ref(PackagePath::from("p").name_for(text("X")))),
            Box::new(bare("Y")),
        )
    );
    let mut full = Type::Ref(PackagePath::from("q").name_for(text("X")));
    full.qualify_types(&visible);
    assert_eq!(full, Type::Ref(PackagePath::from("q").name_for(text("X"))));
    let mut definition = TypeDefinition::new(text("D"), at(1), Type::List(Box::new(bare("X"))));
    definition.qualify_types(&visible);
    assert_eq!(
        definition.ty(),
        &Type::List(Box::new(Type::Ref(PackagePath::from("p").name_for(text("X")))))
    );
    assert_eq!(definition.name(), "D");
    assert_eq!(definition.location(), at(1));
}

#[test]
fn a_unit_hands_out_what_it_holds() {
    let mut a = unit("foo::bar", vec![("A", 1, Type::Anything)]);
    a.add_use(import("Host", 5, "net", "Host"));
    assert_eq!(a.source(), "foo::bar");
    assert_eq!(a.uses().len(), 1);
    assert_eq!(a.uses()[0].as_name(), "Host");
    assert_eq!(a.uses()[0].imported().as_type_str(), "net::Host");
    assert_eq!(a.types().len(), 1);
    a.types_mut().push(TypeDefinition::new(text("B"), at(2), Type::Nothing));
    let names: Vec<String> = a.types().iter().map(|d| d.name()).collect();
    assert_eq!(names, vec![text("A"), text("B")]);
    assert_eq!(a.source(), "foo::bar");
    assert_eq!(a.uses().len(), 1);
    let located = Located::new(7, at(3));
    assert_eq!(located.location(), at(3));
    assert_eq!(located.into_inner(), 7);
}

#[test]
fn in_a_linked_world_no_name_is_held_twice() {
    let a = unit("net", vec![("Host", 1, bare("string")), ("Port", 2, bare("int"))]);
    let world = world_of(link(vec![a], vec![net()]));
    for key in ["int", "decimal", "string", "boolean", "net::Host", "net::Port", "net::reachable"] {
        let as_type = world.get(&text(key)).is_some();
        let as_function = world.get_function(&text(key)).is_some();
        assert!(as_type != as_function);
    }
}

#[test]
fn two_definitions_of_one_name_in_one_unit_are_a_duplicate() {
    let a = unit("p", vec![("A", 1, Type::Anything), ("A", 2, Type::Nothing)]);
    let errors = errors_of(link(vec![a], Vec::new()));
    assert_eq!(errors, vec![BuildError::DuplicateDefinition(text("p::A"), at(1), at(2))]);
}

#[test]
fn every_later_definition_is_a_duplicate_of_the_first() {
    let a = unit("p", vec![("A", 1, Type::Anything), ("A", 2, Type::Nothing)]);
    let b = unit("p", vec![("A", 3, Type::Nothing)]);
    let errors = errors_of(link(vec![a, b], Vec::new()));
    assert_eq!(
        errors,
        vec![
            BuildError::DuplicateDefinition(text("p::A"), at(1), at(2)),
            BuildError::DuplicateDefinition(text("p::A"), at(1), at(3)),
        ]
    );
}

#[test]
fn two_definitions_named_like_a_built_in_type_collide_and_are_a_duplicate() {
    let a = unit("", vec![("int", 1, Type::Anything), ("int", 2, Type::Nothing)]);
    let errors = errors_of(link(vec![a], Vec::new()));
    assert_eq!(
        errors,
        vec![
            BuildError::FunctionTypeCollision(text("int")),
            BuildError::FunctionTypeCollision(text("int")),
            BuildError::DuplicateDefinition(text("int"), at(1), at(2)),
        ]
    );
}

#[test]
fn two_definitions_named_like_a_function_collide_and_are_a_duplicate() {
    let a = unit("net", vec![("reachable", 4, Type::Anything), ("reachable", 8, Type::Nothing)]);
    let errors = errors_of(link(vec![a], vec![net()]));
    assert_eq!(
        errors,
        vec![
            BuildError::FunctionTypeCollision(text("net::reachable")),
            BuildError::FunctionTypeCollision(text("net::reachable")),
            BuildError::DuplicateDefinition(text("net::reachable"), at(4), at(8)),
        ]
    );
}

#[test]
fn two_functions_of_one_name_collide() {
    let errors = errors_of(link(Vec::new(), vec![net(), net()]));
    assert_eq!(errors, vec![BuildError::FunctionTypeCollision(text("net::reachable"))]);
    let mut root = FunctionPackage::new();
    assert!(root.register(text("string"), Echo));
    let errors = errors_of(link(Vec::new(), vec![(PackagePath::root(), root)]));
    assert_eq!(errors, vec![BuildError::FunctionTypeCollision(text("string"))]);
}

#[test]
fn an_import_names_a_qualified_type() {
    let import = import("Host", 5, "", "Host");
    assert!(import.imported().is_qualified());
    assert_eq!(import.imported().as_type_str(), "Host");
    let mut a = unit("app", vec![("Entry", 7, bare("Host"))]);
    a.add_use(import);
    let errors = errors_of(link(vec![a], Vec::new()));
    assert_eq!(errors, vec![BuildError::UnresolvedNameInWorld(text("Host"), at(7))]);
}
