//! What a parser hands to the linker: compilation units, the names that they
//! import and the types that they define, each with its place in the source.

use crate::names::{NameModel, PackagePath, TypeName};
use crate::types::{names_view, qualified, references, visible_view, Type, TypeModel};
use vstd::prelude::*;

verus! {

/// What a location holds.
pub struct LocationModel {
    pub file: Seq<char>,
    pub start: int,
    pub end: int,
}

/// A place in a source file: the file, and where the span begins and ends.
#[derive(Debug, PartialEq, Eq)]
pub struct Location {
    pub file: String,
    pub start: usize,
    pub end: usize,
}

impl View for Location {
    type V = LocationModel;

    open spec fn view(&self) -> LocationModel {
        LocationModel { file: self.file@, start: self.start as int, end: self.end as int }
    }
}

impl Clone for Location {
    fn clone(&self) -> (r: Self)
        ensures
            r@ == self@,
    {
        Location { file: self.file.clone(), start: self.start, end: self.end }
    }
}

/// A value together with the place in the source that it came from. The
/// place serves diagnostics only.
#[derive(Debug, PartialEq, Eq)]
pub struct Located<T> {
    pub inner: T,
    pub location: Location,
}

impl<T> Located<T> {
    /// `inner`, found at `location`.
    pub fn new(inner: T, location: Location) -> (r: Self)
        ensures
            r.inner == inner,
            r.location == location,
    {
        Located { inner, location }
    }

    /// The place in the source.
    pub fn location(&self) -> (r: Location)
        ensures
            r@ == self.location@,
    {
        self.location.clone()
    }

    /// The value, without its place.
    pub fn into_inner(self) -> (r: T)
        ensures
            r == self.inner,
    {
        self.inner
    }
}

/// What an import holds: the alias, where the import stands, and the package
/// and leaf of the type that is imported.
pub struct UseModel {
    pub alias: Seq<char>,
    pub location: LocationModel,
    pub package: Seq<Seq<char>>,
    pub name: Seq<char>,
}

impl UseModel {
    /// The name that the alias stands for. It is qualified.
    pub open spec fn target(self) -> NameModel {
        NameModel { package: Some(self.package), name: self.name }
    }
}

/// An import: inside the unit, the bare name `alias` stands for the type
/// `name` of the package `package`.
#[derive(Debug, PartialEq, Eq)]
pub struct Use {
    pub alias: Located<String>,
    pub package: PackagePath,
    pub name: String,
}

impl View for Use {
    type V = UseModel;

    open spec fn view(&self) -> UseModel {
        UseModel {
            alias: self.alias.inner@,
            location: self.alias.location@,
            package: self.package@,
            name: self.name@,
        }
    }
}

impl Use {
    /// The import, found at `location`, of the type `name` of `package`
    /// under the bare name `alias`.
    pub fn new(alias: String, location: Location, package: PackagePath, name: String) -> (r: Self)
        ensures
            r@ == (UseModel { alias: alias@, location: location@, package: package@, name: name@ }),
    {
        Use { alias: Located::new(alias, location), package, name }
    }

    /// The bare name that the import brings in.
    pub fn as_name(&self) -> (r: String)
        ensures
            r@ == self@.alias,
    {
        self.alias.inner.clone()
    }

    /// The name that the alias stands for.
    pub fn imported(&self) -> (r: TypeName)
        ensures
            r@ == self@.target(),
    {
        self.package.name_for(self.name.clone())
    }
}

/// What a type definition holds.
pub struct DefinitionModel {
    pub name: Seq<char>,
    pub location: LocationModel,
    pub ty: TypeModel,
}

/// A type definition of a unit: a bare name, and the type that it names.
#[derive(Debug, PartialEq)]
pub struct TypeDefinition {
    pub name: Located<String>,
    pub ty: Type,
}

impl View for TypeDefinition {
    type V = DefinitionModel;

    open spec fn view(&self) -> DefinitionModel {
        DefinitionModel { name: self.name.inner@, location: self.name.location@, ty: self.ty@ }
    }
}

impl TypeDefinition {
    /// The definition of `name`, found at `location`, as `ty`.
    pub fn new(name: String, location: Location, ty: Type) -> (r: Self)
        ensures
            r@ == (DefinitionModel { name: name@, location: location@, ty: ty@ }),
    {
        TypeDefinition { name: Located::new(name, location), ty }
    }

    /// The bare name that is defined.
    pub fn name(&self) -> (r: String)
        ensures
            r@ == self@.name,
    {
        self.name.inner.clone()
    }

    /// The place of the definition in the source.
    pub fn location(&self) -> (r: Location)
        ensures
            r@ == self@.location,
    {
        self.name.location()
    }

    /// The type that the name is defined as.
    pub fn ty(&self) -> (r: &Type)
        ensures
            r@ == self@.ty,
    {
        &self.ty
    }

    /// The names that the definition refers to, each once, in the order in
    /// which the type first mentions them.
    pub fn referenced_types(&self) -> (r: Vec<TypeName>)
        ensures
            names_view(r@) == references(self@.ty, Seq::empty()),
    {
        self.ty.referenced_types()
    }

    /// Resolves every reference of the definition by `visible`.
    pub fn qualify_types(&mut self, visible: &Vec<(String, TypeName)>)
        ensures
            final(self)@ == (DefinitionModel {
                ty: qualified(old(self)@.ty, visible_view(visible@)),
                ..old(self)@
            }),
    {
        let resolved = self.ty.qualified(visible);
        self.ty = resolved;
    }
}

/// What each import of `uses` holds.
pub open spec fn uses_view(uses: Seq<Use>) -> Seq<UseModel> {
    Seq::new(uses.len(), |i: int| uses[i]@)
}

/// What each definition of `types` holds.
pub open spec fn definitions_view(types: Seq<TypeDefinition>) -> Seq<DefinitionModel> {
    Seq::new(types.len(), |i: int| types[i]@)
}

/// What a compilation unit holds.
pub struct UnitModel {
    pub source: Seq<char>,
    pub uses: Seq<UseModel>,
    pub types: Seq<DefinitionModel>,
}

/// One parsed source file: the path declaration of its package, its imports
/// and its type definitions.
#[derive(Debug, PartialEq)]
pub struct CompilationUnit {
    pub source: String,
    pub uses: Vec<Use>,
    pub types: Vec<TypeDefinition>,
}

impl View for CompilationUnit {
    type V = UnitModel;

    open spec fn view(&self) -> UnitModel {
        UnitModel {
            source: self.source@,
            uses: uses_view(self.uses@),
            types: definitions_view(self.types@),
        }
    }
}

impl CompilationUnit {
    /// A unit of the package that `source` declares, with no import and no
    /// definition yet.
    pub fn new(source: String) -> (r: Self)
        ensures
            r@ == (UnitModel { source: source@, uses: Seq::empty(), types: Seq::empty() }),
    {
        let r = CompilationUnit { source, uses: Vec::new(), types: Vec::new() };
        assert(uses_view(r.uses@) =~= Seq::empty());
        assert(definitions_view(r.types@) =~= Seq::empty());
        r
    }

    /// Adds an import.
    pub fn add_use(&mut self, import: Use)
        ensures
            final(self)@ == (UnitModel { uses: old(self)@.uses.push(import@), ..old(self)@ }),
    {
        self.uses.push(import);
        assert(uses_view(self.uses@) =~= uses_view(old(self).uses@).push(import@));
    }

    /// Adds a type definition.
    pub fn add_type(&mut self, definition: TypeDefinition)
        ensures
            final(self)@ == (UnitModel {
                types: old(self)@.types.push(definition@),
                ..old(self)@
            }),
    {
        self.types.push(definition);
        assert(definitions_view(self.types@) =~= definitions_view(old(self).types@).push(
            definition@,
        ));
    }

    /// The path declaration of the unit's package.
    pub fn source(&self) -> (r: &String)
        ensures
            r@ == self@.source,
    {
        &self.source
    }

    /// The imports of the unit.
    pub fn uses(&self) -> (r: &Vec<Use>)
        ensures
            uses_view(r@) == self@.uses,
    {
        &self.uses
    }

    /// The type definitions of the unit.
    pub fn types(&self) -> (r: &Vec<TypeDefinition>)
        ensures
            definitions_view(r@) == self@.types,
    {
        &self.types
    }

    /// The type definitions of the unit, to be changed in place. Nothing
    /// else of the unit changes.
    pub fn types_mut(&mut self) -> (r: &mut Vec<TypeDefinition>)
        ensures
            *r == old(self).types,
            final(self).types == *final(r),
            final(self).source == old(self).source,
            final(self).uses == old(self).uses,
    {
        &mut self.types
    }
}

} // verus!
