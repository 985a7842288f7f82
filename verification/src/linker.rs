//! The linker: from compilation units and function packages to a world.
//!
//! Linking qualifies every reference of every unit, takes a census of the
//! names that the world will hold, requires every reference to name one of
//! them, and builds the world. Whatever goes wrong on the way is collected,
//! and a world is made only where nothing went wrong.

use crate::function::{functions_view, FunctionPackage};
use crate::lang::{
    uses_view, CompilationUnit, DefinitionModel, Location, LocationModel, Use,
    UnitModel, UseModel,
};
use crate::names::{segments_of, NameModel, PackagePath, TypeName};
use crate::runtime::{primordial_name, primordial_types, World, WorldModel};
use crate::table::{find, index_of, keys, names};
use crate::types::{names_view, qualified, references, visible_view, Type, TypeModel};
use std::sync::Arc;
use vstd::prelude::*;
use vstd::string::*;

verus! {

/// What a build error holds.
pub enum BuildErrorModel {
    UnresolvedNameInUnit(Seq<char>, LocationModel),
    UnresolvedNameInWorld(Seq<char>, LocationModel),
    DuplicateDefinition(Seq<char>, LocationModel, LocationModel),
    DuplicateImport(Seq<char>, LocationModel),
    FunctionTypeCollision(Seq<char>),
}

/// What went wrong while linking.
#[derive(Debug, PartialEq, Eq)]
pub enum BuildError {
    /// A definition, at this location, refers to a bare name that is neither
    /// defined nor imported in its unit, nor built in.
    UnresolvedNameInUnit(String, Location),
    /// A definition, at this location, refers to a qualified name that the
    /// world will not hold.
    UnresolvedNameInWorld(String, Location),
    /// Two definitions, at these locations, have the same qualified name.
    DuplicateDefinition(String, Location, Location),
    /// An import, at this location, brings in an alias that an earlier import
    /// of the unit brought in already.
    DuplicateImport(String, Location),
    /// A name is taken twice, and one of the two is a native function or a
    /// built-in type.
    FunctionTypeCollision(String),
}

impl View for BuildError {
    type V = BuildErrorModel;

    open spec fn view(&self) -> BuildErrorModel {
        match self {
            BuildError::UnresolvedNameInUnit(name, at) => BuildErrorModel::UnresolvedNameInUnit(
                name@,
                at@,
            ),
            BuildError::UnresolvedNameInWorld(name, at) => BuildErrorModel::UnresolvedNameInWorld(
                name@,
                at@,
            ),
            BuildError::DuplicateDefinition(name, first, second) => {
                BuildErrorModel::DuplicateDefinition(name@, first@, second@)
            },
            BuildError::DuplicateImport(alias, at) => BuildErrorModel::DuplicateImport(alias@, at@),
            BuildError::FunctionTypeCollision(name) => BuildErrorModel::FunctionTypeCollision(
                name@,
            ),
        }
    }
}

/// What each error of `errors` holds.
pub open spec fn errors_view(errors: Seq<BuildError>) -> Seq<BuildErrorModel> {
    Seq::new(errors.len(), |i: int| errors[i]@)
}

/// The bare names that the first `k` definitions of a unit make visible,
/// each standing for the definition's name in the package of the unit.
pub open spec fn visible_locals(
    package: Seq<Seq<char>>,
    types: Seq<DefinitionModel>,
    k: int,
    visible: Seq<(Seq<char>, NameModel)>,
) -> Seq<(Seq<char>, NameModel)>
    decreases k,
{
    if 0 < k <= types.len() {
        visible_locals(package, types, k - 1, visible).push(
            (types[k - 1].name, NameModel { package: Some(package), name: types[k - 1].name }),
        )
    } else {
        visible
    }
}

/// The aliases that the first `k` imports of a unit make visible.
pub open spec fn visible_uses(
    uses: Seq<UseModel>,
    k: int,
    visible: Seq<(Seq<char>, NameModel)>,
) -> Seq<(Seq<char>, NameModel)>
    decreases k,
{
    if 0 < k <= uses.len() {
        visible_uses(uses, k - 1, visible).push((uses[k - 1].alias, uses[k - 1].target()))
    } else {
        visible
    }
}

/// The names of the built-in types, which are visible everywhere.
pub open spec fn visible_primordials(visible: Seq<(Seq<char>, NameModel)>) -> Seq<
    (Seq<char>, NameModel),
> {
    visible.push(("int"@, primordial_name("int"@))).push(
        ("decimal"@, primordial_name("decimal"@)),
    ).push(("string"@, primordial_name("string"@))).push(
        ("boolean"@, primordial_name("boolean"@)),
    )
}

/// The bare names that are visible in a unit, and what each stands for. The
/// first entry of a name is the one that counts: a definition of the unit
/// shadows an import, and an import shadows a built-in type.
pub open spec fn visible_in(unit: UnitModel) -> Seq<(Seq<char>, NameModel)> {
    visible_primordials(
        visible_uses(
            unit.uses,
            unit.uses.len() as int,
            visible_locals(
                segments_of(unit.source),
                unit.types,
                unit.types.len() as int,
                Seq::empty(),
            ),
        ),
    )
}

/// The aliases of the imports of a unit, in order.
pub open spec fn aliases(uses: Seq<UseModel>) -> Seq<Seq<char>> {
    Seq::new(uses.len(), |i: int| uses[i].alias)
}

/// `errors`, and one duplicate-import error for each of the first `k`
/// imports whose alias an earlier import of the unit has.
pub open spec fn import_errors(uses: Seq<UseModel>, k: int, errors: Seq<BuildErrorModel>) -> Seq<
    BuildErrorModel,
>
    decreases k,
{
    if 0 < k <= uses.len() {
        let before = import_errors(uses, k - 1, errors);
        if aliases(uses).take(k - 1).contains(uses[k - 1].alias) {
            before.push(BuildErrorModel::DuplicateImport(uses[k - 1].alias, uses[k - 1].location))
        } else {
            before
        }
    } else {
        errors
    }
}

/// `errors`, and one unresolved-name error for each of the first `k`
/// references that is a bare name that `visible` does not know.
pub open spec fn unknown_names(
    refs: Seq<NameModel>,
    k: int,
    visible: Seq<(Seq<char>, NameModel)>,
    at: LocationModel,
    errors: Seq<BuildErrorModel>,
) -> Seq<BuildErrorModel>
    decreases k,
{
    if 0 < k <= refs.len() {
        let before = unknown_names(refs, k - 1, visible, at, errors);
        if refs[k - 1].package is None && index_of(keys(visible), refs[k - 1].name) is None {
            before.push(BuildErrorModel::UnresolvedNameInUnit(refs[k - 1].name, at))
        } else {
            before
        }
    } else {
        errors
    }
}

/// `errors`, and the unresolved-name errors of the first `k` definitions of
/// a unit.
pub open spec fn definition_errors(
    types: Seq<DefinitionModel>,
    k: int,
    visible: Seq<(Seq<char>, NameModel)>,
    errors: Seq<BuildErrorModel>,
) -> Seq<BuildErrorModel>
    decreases k,
{
    if 0 < k <= types.len() {
        let refs = references(types[k - 1].ty, Seq::empty());
        unknown_names(
            refs,
            refs.len() as int,
            visible,
            types[k - 1].location,
            definition_errors(types, k - 1, visible, errors),
        )
    } else {
        errors
    }
}

/// `errors`, and what is wrong inside one unit: first its duplicate imports,
/// then its unresolved bare names, definition by definition.
pub open spec fn unit_errors(unit: UnitModel, errors: Seq<BuildErrorModel>) -> Seq<
    BuildErrorModel,
> {
    definition_errors(
        unit.types,
        unit.types.len() as int,
        visible_in(unit),
        import_errors(unit.uses, unit.uses.len() as int, errors),
    )
}

/// `errors`, and what is wrong inside each of the first `k` units.
pub open spec fn qualification_errors(
    units: Seq<UnitModel>,
    k: int,
    errors: Seq<BuildErrorModel>,
) -> Seq<BuildErrorModel>
    decreases k,
{
    if 0 < k <= units.len() {
        unit_errors(units[k - 1], qualification_errors(units, k - 1, errors))
    } else {
        errors
    }
}

/// A definition as the world will hold it: the text of its qualified name,
/// its place in the source, and its type with every reference resolved.
pub struct ResolvedModel {
    pub key: Seq<char>,
    pub location: LocationModel,
    pub ty: TypeModel,
}

/// The key of the definition `name` of the package that `source` declares.
pub open spec fn definition_key(source: Seq<char>, name: Seq<char>) -> Seq<char> {
    (NameModel { package: Some(segments_of(source)), name }).type_str()
}

/// `resolved`, and the first `k` definitions of a unit as the world will
/// hold them.
pub open spec fn resolved_definitions(unit: UnitModel, k: int, resolved: Seq<ResolvedModel>) -> Seq<
    ResolvedModel,
>
    decreases k,
{
    if 0 < k <= unit.types.len() {
        resolved_definitions(unit, k - 1, resolved).push(
            ResolvedModel {
                key: definition_key(unit.source, unit.types[k - 1].name),
                location: unit.types[k - 1].location,
                ty: qualified(unit.types[k - 1].ty, visible_in(unit)),
            },
        )
    } else {
        resolved
    }
}

/// `resolved`, and the definitions of the first `k` units as the world will
/// hold them.
pub open spec fn resolved_units(units: Seq<UnitModel>, k: int, resolved: Seq<ResolvedModel>) -> Seq<
    ResolvedModel,
>
    decreases k,
{
    if 0 < k <= units.len() {
        resolved_definitions(
            units[k - 1],
            units[k - 1].types.len() as int,
            resolved_units(units, k - 1, resolved),
        )
    } else {
        resolved
    }
}

/// Who holds a name of the census.
pub enum HolderModel {
    /// A built-in type or a native function.
    Other,
    /// A definition, the first of them at this location.
    Definition(LocationModel),
    /// A built-in type or a native function, and a definition as well, the
    /// first of them at this location.
    Both(LocationModel),
}

/// The census of the world's names: each name that was taken, with who
/// holds it, and the collisions found so far.
pub struct Census {
    pub entries: Seq<(Seq<char>, HolderModel)>,
    pub errors: Seq<BuildErrorModel>,
}

/// The census after a built-in type or a native function was counted under
/// `key`. The name is taken if it was free; if it was not, that is a
/// collision.
pub open spec fn counted_other(census: Census, key: Seq<char>) -> Census {
    match index_of(keys(census.entries), key) {
        None => Census {
            entries: census.entries.push((key, HolderModel::Other)),
            errors: census.errors,
        },
        Some(i) => Census {
            entries: match census.entries[i].1 {
                HolderModel::Definition(first) => census.entries.update(
                    i,
                    (key, HolderModel::Both(first)),
                ),
                _ => census.entries,
            },
            errors: census.errors.push(BuildErrorModel::FunctionTypeCollision(key)),
        },
    }
}

/// The census after the definition at `at` was counted under `key`. The name
/// is taken if it was free. If a built-in type or a native function holds
/// it, that is a collision; if an earlier definition holds it, that is a
/// duplicate of the first of them; where both hold it, it is both, in this
/// order.
pub open spec fn counted_definition(census: Census, key: Seq<char>, at: LocationModel) -> Census {
    match index_of(keys(census.entries), key) {
        None => Census {
            entries: census.entries.push((key, HolderModel::Definition(at))),
            errors: census.errors,
        },
        Some(i) => match census.entries[i].1 {
            HolderModel::Other => Census {
                entries: census.entries.update(i, (key, HolderModel::Both(at))),
                errors: census.errors.push(BuildErrorModel::FunctionTypeCollision(key)),
            },
            HolderModel::Definition(first) => Census {
                entries: census.entries,
                errors: census.errors.push(BuildErrorModel::DuplicateDefinition(key, first, at)),
            },
            HolderModel::Both(first) => Census {
                entries: census.entries,
                errors: census.errors.push(BuildErrorModel::FunctionTypeCollision(key)).push(
                    BuildErrorModel::DuplicateDefinition(key, first, at),
                ),
            },
        },
    }
}

/// The census that holds the built-in types and the errors found before.
pub open spec fn primordial_census(errors: Seq<BuildErrorModel>) -> Census {
    Census {
        entries: seq![
            ("int"@, HolderModel::Other),
            ("decimal"@, HolderModel::Other),
            ("string"@, HolderModel::Other),
            ("boolean"@, HolderModel::Other),
        ],
        errors,
    }
}

/// The key of the function `name` of the package `package`.
pub open spec fn function_key(package: Seq<Seq<char>>, name: Seq<char>) -> Seq<char> {
    (NameModel { package: Some(package), name }).type_str()
}

/// The census after the first `k` functions of a package were counted.
pub open spec fn function_census<F>(
    package: Seq<Seq<char>>,
    functions: Seq<(Seq<char>, F)>,
    k: int,
    census: Census,
) -> Census
    decreases k,
{
    if 0 < k <= functions.len() {
        counted_other(
            function_census(package, functions, k - 1, census),
            function_key(package, functions[k - 1].0),
        )
    } else {
        census
    }
}

/// The census after the functions of the first `k` packages were counted.
pub open spec fn package_census<F>(
    packages: Seq<(Seq<Seq<char>>, Seq<(Seq<char>, F)>)>,
    k: int,
    census: Census,
) -> Census
    decreases k,
{
    if 0 < k <= packages.len() {
        function_census(
            packages[k - 1].0,
            packages[k - 1].1,
            packages[k - 1].1.len() as int,
            package_census(packages, k - 1, census),
        )
    } else {
        census
    }
}

/// The census after the first `k` definitions were counted.
pub open spec fn definition_census(resolved: Seq<ResolvedModel>, k: int, census: Census) -> Census
    decreases k,
{
    if 0 < k <= resolved.len() {
        counted_definition(
            definition_census(resolved, k - 1, census),
            resolved[k - 1].key,
            resolved[k - 1].location,
        )
    } else {
        census
    }
}

/// `errors`, and one unresolved-name error for each of the first `k`
/// references that is a qualified name which is not among `world_names`.
pub open spec fn missing_names(
    refs: Seq<NameModel>,
    k: int,
    world_names: Seq<Seq<char>>,
    at: LocationModel,
    errors: Seq<BuildErrorModel>,
) -> Seq<BuildErrorModel>
    decreases k,
{
    if 0 < k <= refs.len() {
        let before = missing_names(refs, k - 1, world_names, at, errors);
        if refs[k - 1].package is Some && index_of(world_names, refs[k - 1].type_str()) is None {
            before.push(BuildErrorModel::UnresolvedNameInWorld(refs[k - 1].type_str(), at))
        } else {
            before
        }
    } else {
        errors
    }
}

/// `errors`, and the unresolved-name errors of the first `k` resolved
/// definitions.
pub open spec fn resolution_errors(
    resolved: Seq<ResolvedModel>,
    k: int,
    world_names: Seq<Seq<char>>,
    errors: Seq<BuildErrorModel>,
) -> Seq<BuildErrorModel>
    decreases k,
{
    if 0 < k <= resolved.len() {
        let refs = references(resolved[k - 1].ty, Seq::empty());
        missing_names(
            refs,
            refs.len() as int,
            world_names,
            resolved[k - 1].location,
            resolution_errors(resolved, k - 1, world_names, errors),
        )
    } else {
        errors
    }
}

/// What a package registry holds: each package path with its functions.
pub open spec fn packages_view<F>(packages: Seq<(PackagePath, FunctionPackage<F>)>) -> Seq<
    (Seq<Seq<char>>, Seq<(Seq<char>, F)>),
> {
    Seq::new(packages.len(), |i: int| (packages[i].0@, packages[i].1@))
}

/// What each unit of `units` holds.
pub open spec fn units_view(units: Seq<CompilationUnit>) -> Seq<UnitModel> {
    Seq::new(units.len(), |i: int| units[i]@)
}

/// The census of everything that the world is to hold: the built-in types,
/// the functions of the packages, the definitions of the units, in this
/// order.
pub open spec fn census_of<F>(
    units: Seq<UnitModel>,
    packages: Seq<(Seq<Seq<char>>, Seq<(Seq<char>, F)>)>,
) -> Census {
    let resolved = resolved_units(units, units.len() as int, Seq::empty());
    definition_census(
        resolved,
        resolved.len() as int,
        package_census(
            packages,
            packages.len() as int,
            primordial_census(qualification_errors(units, units.len() as int, Seq::empty())),
        ),
    )
}

/// Every error of a link, in the order in which linking finds them: what is
/// wrong inside the units, then the collisions of names, then the qualified
/// references that name nothing.
pub open spec fn link_errors<F>(
    units: Seq<UnitModel>,
    packages: Seq<(Seq<Seq<char>>, Seq<(Seq<char>, F)>)>,
) -> Seq<BuildErrorModel> {
    let resolved = resolved_units(units, units.len() as int, Seq::empty());
    let census = census_of(units, packages);
    resolution_errors(resolved, resolved.len() as int, keys(census.entries), census.errors)
}

/// `types`, and the first `k` resolved definitions, each under its key.
pub open spec fn defined_types(
    resolved: Seq<ResolvedModel>,
    k: int,
    types: Seq<(Seq<char>, TypeModel)>,
) -> Seq<(Seq<char>, TypeModel)>
    decreases k,
{
    if 0 < k <= resolved.len() {
        defined_types(resolved, k - 1, types).push((resolved[k - 1].key, resolved[k - 1].ty))
    } else {
        types
    }
}

/// `functions`, and the first `k` functions of a package, each under its key.
pub open spec fn named_functions<F>(
    package: Seq<Seq<char>>,
    entries: Seq<(Seq<char>, F)>,
    k: int,
    functions: Seq<(Seq<char>, F)>,
) -> Seq<(Seq<char>, F)>
    decreases k,
{
    if 0 < k <= entries.len() {
        named_functions(package, entries, k - 1, functions).push(
            (function_key(package, entries[k - 1].0), entries[k - 1].1),
        )
    } else {
        functions
    }
}

/// `functions`, and the functions of the first `k` packages.
pub open spec fn package_functions<F>(
    packages: Seq<(Seq<Seq<char>>, Seq<(Seq<char>, F)>)>,
    k: int,
    functions: Seq<(Seq<char>, F)>,
) -> Seq<(Seq<char>, F)>
    decreases k,
{
    if 0 < k <= packages.len() {
        named_functions(
            packages[k - 1].0,
            packages[k - 1].1,
            packages[k - 1].1.len() as int,
            package_functions(packages, k - 1, functions),
        )
    } else {
        functions
    }
}

/// The world of a link without errors: the built-in types and the
/// definitions of the units, each resolved; and the functions of the
/// packages.
pub open spec fn linked_world<F>(
    units: Seq<UnitModel>,
    packages: Seq<(Seq<Seq<char>>, Seq<(Seq<char>, F)>)>,
) -> WorldModel<F> {
    let resolved = resolved_units(units, units.len() as int, Seq::empty());
    WorldModel {
        types: defined_types(resolved, resolved.len() as int, primordial_types()),
        functions: package_functions(packages, packages.len() as int, Seq::empty()),
    }
}

/// A definition as the world will hold it.
struct Resolved {
    key: String,
    location: Location,
    ty: Type,
}

/// What each resolved definition holds.
spec fn resolved_view(resolved: Seq<Resolved>) -> Seq<ResolvedModel> {
    Seq::new(
        resolved.len(),
        |i: int|
            ResolvedModel {
                key: resolved[i].key@,
                location: resolved[i].location@,
                ty: resolved[i].ty@,
            },
    )
}

/// Who holds a name of the census.
enum Holder {
    Other,
    Definition(Location),
    Both(Location),
}

impl View for Holder {
    type V = HolderModel;

    closed spec fn view(&self) -> HolderModel {
        match self {
            Holder::Other => HolderModel::Other,
            Holder::Definition(first) => HolderModel::Definition(first@),
            Holder::Both(first) => HolderModel::Both(first@),
        }
    }
}

/// What each entry of a census holds.
spec fn census_view(census: Seq<(String, Holder)>) -> Seq<(Seq<char>, HolderModel)> {
    Seq::new(census.len(), |i: int| (census[i].0@, census[i].1@))
}

/// The bare names that are visible in `unit`, whose package is `path`.
fn unit_visible(unit: &CompilationUnit, path: &PackagePath) -> (r: Vec<(String, TypeName)>)
    requires
        path@ == segments_of(unit@.source),
    ensures
        visible_view(r@) == visible_in(unit@),
{
    let mut visible: Vec<(String, TypeName)> = Vec::new();
    assert(visible_view(visible@) =~= Seq::empty());
    let mut i: usize = 0;
    while i < unit.types.len()
        invariant
            i <= unit.types.len(),
            path@ == segments_of(unit@.source),
            visible_view(visible@) == visible_locals(
                path@,
                unit@.types,
                i as int,
                Seq::empty(),
            ),
        decreases unit.types.len() - i,
    {
        let ghost before = visible_view(visible@);
        let name = unit.types[i].name();
        let full = path.name_for(unit.types[i].name());
        visible.push((name, full));
        assert(unit@.types[i as int] == unit.types@[i as int]@);
        assert(visible_view(visible@) =~= before.push(
            (
                unit@.types[i as int].name,
                NameModel { package: Some(path@), name: unit@.types[i as int].name },
            ),
        ));
        i += 1;
    }
    let ghost locals = visible_view(visible@);
    let mut j: usize = 0;
    while j < unit.uses.len()
        invariant
            j <= unit.uses.len(),
            visible_view(visible@) == visible_uses(unit@.uses, j as int, locals),
        decreases unit.uses.len() - j,
    {
        let ghost before = visible_view(visible@);
        visible.push((unit.uses[j].as_name(), unit.uses[j].imported()));
        assert(unit@.uses[j as int] == unit.uses@[j as int]@);
        assert(visible_view(visible@) =~= before.push(
            (unit@.uses[j as int].alias, unit@.uses[j as int].target()),
        ));
        j += 1;
    }
    let ghost imported = visible_view(visible@);
    visible.push(
        (
            String::from_str("int"),
            TypeName { package: Some(PackagePath::root()), name: String::from_str("int") },
        ),
    );
    visible.push(
        (
            String::from_str("decimal"),
            TypeName { package: Some(PackagePath::root()), name: String::from_str("decimal") },
        ),
    );
    visible.push(
        (
            String::from_str("string"),
            TypeName { package: Some(PackagePath::root()), name: String::from_str("string") },
        ),
    );
    visible.push(
        (
            String::from_str("boolean"),
            TypeName { package: Some(PackagePath::root()), name: String::from_str("boolean") },
        ),
    );
    assert(visible_view(visible@) =~= visible_primordials(imported));
    visible
}

/// Tells whether an import before the one at `j` has the same alias.
fn alias_seen(uses: &Vec<Use>, j: usize) -> (r: bool)
    requires
        j < uses@.len(),
    ensures
        r == aliases(uses_view(uses@)).take(j as int).contains(uses_view(uses@)[j as int].alias),
{
    let ghost earlier = aliases(uses_view(uses@)).take(j as int);
    let mut i: usize = 0;
    while i < j
        invariant
            i <= j < uses@.len(),
            earlier == aliases(uses_view(uses@)).take(j as int),
            forall|k: int| 0 <= k < i ==> earlier[k] != uses@[j as int].alias.inner@,
        decreases j - i,
    {
        if uses[i].alias.inner == uses[j].alias.inner {
            assert(earlier[i as int] == uses@[j as int].alias.inner@);
            return true;
        }
        i += 1;
    }
    false
}

/// Adds to `errors` the duplicate imports of `unit`.
fn check_imports(unit: &CompilationUnit, errors: &mut Vec<BuildError>)
    ensures
        errors_view(final(errors)@) == import_errors(
            unit@.uses,
            unit@.uses.len() as int,
            errors_view(old(errors)@),
        ),
{
    let mut j: usize = 0;
    while j < unit.uses.len()
        invariant
            j <= unit.uses.len(),
            errors_view(errors@) == import_errors(unit@.uses, j as int, errors_view(old(errors)@)),
        decreases unit.uses.len() - j,
    {
        let ghost before = errors_view(errors@);
        assert(unit@.uses[j as int] == unit.uses@[j as int]@);
        if alias_seen(&unit.uses, j) {
            let error = BuildError::DuplicateImport(
                unit.uses[j].as_name(),
                unit.uses[j].alias.location(),
            );
            errors.push(error);
            assert(errors_view(errors@) =~= before.push(error@));
        }
        j += 1;
    }
}

/// Adds to `errors` the bare names among `refs` that `visible` does not
/// know.
fn check_names(
    refs: &Vec<TypeName>,
    visible: &Vec<(String, TypeName)>,
    at: &Location,
    errors: &mut Vec<BuildError>,
)
    ensures
        errors_view(final(errors)@) == unknown_names(
            names_view(refs@),
            refs@.len() as int,
            visible_view(visible@),
            at@,
            errors_view(old(errors)@),
        ),
{
    proof {
        assert(keys(visible_view(visible@)) =~= names(visible@));
    }
    let mut k: usize = 0;
    while k < refs.len()
        invariant
            k <= refs.len(),
            keys(visible_view(visible@)) == names(visible@),
            errors_view(errors@) == unknown_names(
                names_view(refs@),
                k as int,
                visible_view(visible@),
                at@,
                errors_view(old(errors)@),
            ),
        decreases refs.len() - k,
    {
        let ghost before = errors_view(errors@);
        assert(names_view(refs@)[k as int] == refs@[k as int]@);
        if !refs[k].is_qualified() && find(visible, &refs[k].name).is_none() {
            let error = BuildError::UnresolvedNameInUnit(refs[k].name(), at.clone());
            errors.push(error);
            assert(errors_view(errors@) =~= before.push(error@));
        }
        k += 1;
    }
}

/// Adds to `errors` the unresolved bare names of the definitions of `unit`.
fn check_definitions(
    unit: &CompilationUnit,
    visible: &Vec<(String, TypeName)>,
    errors: &mut Vec<BuildError>,
)
    ensures
        errors_view(final(errors)@) == definition_errors(
            unit@.types,
            unit@.types.len() as int,
            visible_view(visible@),
            errors_view(old(errors)@),
        ),
{
    let mut i: usize = 0;
    while i < unit.types.len()
        invariant
            i <= unit.types.len(),
            errors_view(errors@) == definition_errors(
                unit@.types,
                i as int,
                visible_view(visible@),
                errors_view(old(errors)@),
            ),
        decreases unit.types.len() - i,
    {
        assert(unit@.types[i as int] == unit.types@[i as int]@);
        let refs = unit.types[i].referenced_types();
        let at = unit.types[i].location();
        check_names(&refs, visible, &at, errors);
        i += 1;
    }
}

/// Adds to `resolved` the definitions of `unit` as the world will hold them.
fn resolve_definitions(
    unit: &CompilationUnit,
    path: &PackagePath,
    visible: &Vec<(String, TypeName)>,
    resolved: &mut Vec<Resolved>,
)
    requires
        path@ == segments_of(unit@.source),
        visible_view(visible@) == visible_in(unit@),
    ensures
        resolved_view(final(resolved)@) == resolved_definitions(
            unit@,
            unit@.types.len() as int,
            resolved_view(old(resolved)@),
        ),
{
    let mut i: usize = 0;
    while i < unit.types.len()
        invariant
            i <= unit.types.len(),
            path@ == segments_of(unit@.source),
            visible_view(visible@) == visible_in(unit@),
            resolved_view(resolved@) == resolved_definitions(
                unit@,
                i as int,
                resolved_view(old(resolved)@),
            ),
        decreases unit.types.len() - i,
    {
        let ghost before = resolved_view(resolved@);
        assert(unit@.types[i as int] == unit.types@[i as int]@);
        let entry = Resolved {
            key: path.name_for(unit.types[i].name()).as_type_str(),
            location: unit.types[i].location(),
            ty: unit.types[i].ty.qualified(visible),
        };
        resolved.push(entry);
        assert(resolved_view(resolved@) =~= before.push(
            ResolvedModel {
                key: definition_key(unit@.source, unit@.types[i as int].name),
                location: unit@.types[i as int].location,
                ty: qualified(unit@.types[i as int].ty, visible_in(unit@)),
            },
        ));
        i += 1;
    }
}

/// Counts a built-in type or a native function under `key`.
fn count_other(census: &mut Vec<(String, Holder)>, errors: &mut Vec<BuildError>, key: String)
    ensures
        (Census { entries: census_view(final(census)@), errors: errors_view(final(errors)@) })
            == counted_other(
            Census { entries: census_view(old(census)@), errors: errors_view(old(errors)@) },
            key@,
        ),
{
    proof {
        assert(keys(census_view(census@)) =~= names(census@));
    }
    let ghost entries = census_view(census@);
    let ghost before = errors_view(errors@);
    match find(census, &key) {
        None => {
            census.push((key, Holder::Other));
            assert(census_view(census@) =~= entries.push((key@, HolderModel::Other)));
        },
        Some(i) => {
            assert(entries[i as int].1 == census@[i as int].1@);
            let earlier = match &census[i].1 {
                Holder::Definition(first) => Some(first.clone()),
                _ => None,
            };
            match earlier {
                Some(first) => {
                    census.set(i, (key.clone(), Holder::Both(first)));
                    assert(census_view(census@) =~= entries.update(
                        i as int,
                        (key@, HolderModel::Both(first@)),
                    ));
                },
                None => {},
            }
            let error = BuildError::FunctionTypeCollision(key);
            errors.push(error);
            assert(errors_view(errors@) =~= before.push(error@));
        },
    }
}

/// Counts the definition at `at` under `key`.
fn count_definition(
    census: &mut Vec<(String, Holder)>,
    errors: &mut Vec<BuildError>,
    key: String,
    at: Location,
)
    ensures
        (Census { entries: census_view(final(census)@), errors: errors_view(final(errors)@) })
            == counted_definition(
            Census { entries: census_view(old(census)@), errors: errors_view(old(errors)@) },
            key@,
            at@,
        ),
{
    proof {
        assert(keys(census_view(census@)) =~= names(census@));
    }
    let ghost entries = census_view(census@);
    let ghost before = errors_view(errors@);
    match find(census, &key) {
        None => {
            census.push((key, Holder::Definition(at)));
            assert(census_view(census@) =~= entries.push((key@, HolderModel::Definition(at@))));
        },
        Some(i) => {
            assert(entries[i as int].1 == census@[i as int].1@);
            let (held, earlier) = match &census[i].1 {
                Holder::Other => (true, None),
                Holder::Definition(first) => (false, Some(first.clone())),
                Holder::Both(first) => (true, Some(first.clone())),
            };
            if held {
                let error = BuildError::FunctionTypeCollision(key.clone());
                errors.push(error);
                assert(errors_view(errors@) =~= before.push(error@));
            }
            let ghost collided = errors_view(errors@);
            match earlier {
                Some(first) => {
                    let error = BuildError::DuplicateDefinition(key, first, at);
                    errors.push(error);
                    assert(errors_view(errors@) =~= collided.push(error@));
                },
                None => {
                    census.set(i, (key, Holder::Both(at)));
                    assert(census_view(census@) =~= entries.update(
                        i as int,
                        (key@, HolderModel::Both(at@)),
                    ));
                },
            }
        },
    }
}

/// Counts the functions of every package in the census.
fn count_functions<F>(
    packages: &Vec<(PackagePath, FunctionPackage<F>)>,
    census: &mut Vec<(String, Holder)>,
    errors: &mut Vec<BuildError>,
)
    ensures
        (Census { entries: census_view(final(census)@), errors: errors_view(final(errors)@) })
            == package_census(
            packages_view(packages@),
            packages@.len() as int,
            Census { entries: census_view(old(census)@), errors: errors_view(old(errors)@) },
        ),
{
    let ghost start = Census {
        entries: census_view(census@),
        errors: errors_view(errors@),
    };
    let ghost all = packages_view(packages@);
    let mut p: usize = 0;
    while p < packages.len()
        invariant
            p <= packages.len(),
            all == packages_view(packages@),
            (Census { entries: census_view(census@), errors: errors_view(errors@) })
                == package_census(all, p as int, start),
        decreases packages.len() - p,
    {
        let path = &packages[p].0;
        let functions = &packages[p].1.functions;
        let ghost outer = Census { entries: census_view(census@), errors: errors_view(errors@) };
        assert(all[p as int] == (path@, functions_view(functions@)));
        let mut k: usize = 0;
        while k < functions.len()
            invariant
                k <= functions.len(),
                (Census { entries: census_view(census@), errors: errors_view(errors@) })
                    == function_census(path@, functions_view(functions@), k as int, outer),
            decreases functions.len() - k,
        {
            let key = path.name_for(functions[k].0.clone()).as_type_str();
            count_other(census, errors, key);
            k += 1;
        }
        p += 1;
    }
}

/// Counts every resolved definition in the census.
fn count_definitions(
    resolved: &Vec<Resolved>,
    census: &mut Vec<(String, Holder)>,
    errors: &mut Vec<BuildError>,
)
    ensures
        (Census { entries: census_view(final(census)@), errors: errors_view(final(errors)@) })
            == definition_census(
            resolved_view(resolved@),
            resolved@.len() as int,
            Census { entries: census_view(old(census)@), errors: errors_view(old(errors)@) },
        ),
{
    let ghost start = Census {
        entries: census_view(census@),
        errors: errors_view(errors@),
    };
    let mut i: usize = 0;
    while i < resolved.len()
        invariant
            i <= resolved.len(),
            (Census { entries: census_view(census@), errors: errors_view(errors@) })
                == definition_census(resolved_view(resolved@), i as int, start),
        decreases resolved.len() - i,
    {
        count_definition(census, errors, resolved[i].key.clone(), resolved[i].location.clone());
        i += 1;
    }
}

/// Adds to `errors` the qualified names among `refs` that the census does
/// not hold.
fn check_world_names(
    refs: &Vec<TypeName>,
    census: &Vec<(String, Holder)>,
    at: &Location,
    errors: &mut Vec<BuildError>,
)
    ensures
        errors_view(final(errors)@) == missing_names(
            names_view(refs@),
            refs@.len() as int,
            keys(census_view(census@)),
            at@,
            errors_view(old(errors)@),
        ),
{
    proof {
        assert(keys(census_view(census@)) =~= names(census@));
    }
    let mut k: usize = 0;
    while k < refs.len()
        invariant
            k <= refs.len(),
            keys(census_view(census@)) == names(census@),
            errors_view(errors@) == missing_names(
                names_view(refs@),
                k as int,
                keys(census_view(census@)),
                at@,
                errors_view(old(errors)@),
            ),
        decreases refs.len() - k,
    {
        let ghost before = errors_view(errors@);
        assert(names_view(refs@)[k as int] == refs@[k as int]@);
        if refs[k].is_qualified() {
            let key = refs[k].as_type_str();
            if find(census, &key).is_none() {
                let error = BuildError::UnresolvedNameInWorld(key, at.clone());
                errors.push(error);
                assert(errors_view(errors@) =~= before.push(error@));
            }
        }
        k += 1;
    }
}

/// Adds to `errors` the qualified references of the resolved definitions
/// that name nothing in the census.
fn check_resolution(
    resolved: &Vec<Resolved>,
    census: &Vec<(String, Holder)>,
    errors: &mut Vec<BuildError>,
)
    ensures
        errors_view(final(errors)@) == resolution_errors(
            resolved_view(resolved@),
            resolved@.len() as int,
            keys(census_view(census@)),
            errors_view(old(errors)@),
        ),
{
    let mut i: usize = 0;
    while i < resolved.len()
        invariant
            i <= resolved.len(),
            errors_view(errors@) == resolution_errors(
                resolved_view(resolved@),
                i as int,
                keys(census_view(census@)),
                errors_view(old(errors)@),
            ),
        decreases resolved.len() - i,
    {
        let refs = resolved[i].ty.referenced_types();
        check_world_names(&refs, census, &resolved[i].location, errors);
        i += 1;
    }
}

/// The world that holds the resolved definitions and the functions of the
/// packages.
fn build_world<F>(resolved: &Vec<Resolved>, packages: Vec<(PackagePath, FunctionPackage<F>)>) -> (r:
    World<F>)
    ensures
        r@ == (WorldModel {
            types: defined_types(
                resolved_view(resolved@),
                resolved@.len() as int,
                primordial_types(),
            ),
            functions: package_functions(
                packages_view(packages@),
                packages@.len() as int,
                Seq::empty(),
            ),
        }),
{
    let mut world: World<F> = World::new();
    let mut i: usize = 0;
    while i < resolved.len()
        invariant
            i <= resolved.len(),
            world@ == (WorldModel::<F> {
                types: defined_types(resolved_view(resolved@), i as int, primordial_types()),
                functions: Seq::empty(),
            }),
        decreases resolved.len() - i,
    {
        world.insert_type(resolved[i].key.clone(), resolved[i].ty.clone());
        i += 1;
    }
    let ghost types = world@.types;
    let ghost all = packages@;
    for package in it: packages.into_iter()
        invariant
            it.seq() == all,
            world@ == (WorldModel {
                types,
                functions: package_functions(packages_view(all), it.index() as int, Seq::empty()),
            }),
    {
        let ghost outer = world@.functions;
        assert(package == all[it.index() as int]);
        assert(packages_view(all)[it.index() as int] == (package.0@, package.1@));
        let (path, entries) = package;
        let ghost fs = entries.functions@;
        for entry in jt: entries.functions.into_iter()
            invariant
                jt.seq() == fs,
                world@ == (WorldModel {
                    types,
                    functions: named_functions(
                        path@,
                        functions_view(fs),
                        jt.index() as int,
                        outer,
                    ),
                }),
        {
            assert(entry == fs[jt.index() as int]);
            let (name, function) = entry;
            let key = path.name_for(name).as_type_str();
            world.insert_function(key, function);
        }
    }
    world
}

/// Links compilation units and function packages into a world.
pub struct Linker<F> {
    units: Vec<CompilationUnit>,
    packages: Vec<(PackagePath, FunctionPackage<F>)>,
}

impl<F> Linker<F> {
    /// What the units to be linked hold.
    pub closed spec fn units(&self) -> Seq<UnitModel> {
        units_view(self.units@)
    }

    /// What the packages to be linked hold.
    pub closed spec fn packages(&self) -> Seq<(Seq<Seq<char>>, Seq<(Seq<char>, F)>)> {
        packages_view(self.packages@)
    }

    /// A linker for `units` and `packages`. Each package comes with its
    /// path; packages that come with the same path are linked as one.
    pub fn new(units: Vec<CompilationUnit>, packages: Vec<(PackagePath, FunctionPackage<F>)>) -> (r:
        Self)
        ensures
            r.units() == units_view(units@),
            r.packages() == packages_view(packages@),
    {
        Self { units, packages }
    }

    /// Whether `result` is what linking comes to: where nothing is wrong,
    /// the world of the units and packages; otherwise every error.
    pub open spec fn links_to(self, result: Result<Arc<World<F>>, Vec<BuildError>>) -> bool {
        match result {
            Ok(world) => link_errors(self.units(), self.packages()).len() == 0 && world@
                == linked_world(self.units(), self.packages()),
            Err(errors) => errors@.len() > 0 && errors_view(errors@) == link_errors(
                self.units(),
                self.packages(),
            ),
        }
    }

    /// Links. Where nothing is wrong the result is the world of the units
    /// and packages; otherwise it is every error, and no world.
    pub fn link(self) -> (r: Result<Arc<World<F>>, Vec<BuildError>>)
        ensures
            self.links_to(r),
    {
        let Linker { units, packages } = self;
        let mut errors: Vec<BuildError> = Vec::new();
        let mut resolved: Vec<Resolved> = Vec::new();
        assert(errors_view(errors@) =~= Seq::empty());
        assert(resolved_view(resolved@) =~= Seq::empty());
        let mut u: usize = 0;
        while u < units.len()
            invariant
                u <= units.len(),
                errors_view(errors@) == qualification_errors(
                    units_view(units@),
                    u as int,
                    Seq::empty(),
                ),
                resolved_view(resolved@) == resolved_units(
                    units_view(units@),
                    u as int,
                    Seq::empty(),
                ),
            decreases units.len() - u,
        {
            let unit = &units[u];
            assert(units_view(units@)[u as int] == unit@);
            let path = PackagePath::from(unit.source.as_str());
            let visible = unit_visible(unit, &path);
            check_imports(unit, &mut errors);
            check_definitions(unit, &visible, &mut errors);
            resolve_definitions(unit, &path, &visible, &mut resolved);
            u += 1;
        }
        let mut census: Vec<(String, Holder)> = Vec::new();
        census.push((String::from_str("int"), Holder::Other));
        census.push((String::from_str("decimal"), Holder::Other));
        census.push((String::from_str("string"), Holder::Other));
        census.push((String::from_str("boolean"), Holder::Other));
        assert(census_view(census@) =~= primordial_census(errors_view(errors@)).entries);
        count_functions(&packages, &mut census, &mut errors);
        count_definitions(&resolved, &mut census, &mut errors);
        check_resolution(&resolved, &census, &mut errors);
        assert(resolved_view(resolved@).len() == resolved@.len());
        if errors.len() > 0 {
            Err(errors)
        } else {
            Ok(Arc::new(build_world(&resolved, packages)))
        }
    }
}

/// Linking the same twice comes to the same: two linkers that hold the same
/// units and packages both make a world, and the worlds hold the same, or
/// both fail with the same errors.
pub proof fn law_link_repeats<F>(
    one: Linker<F>,
    other: Linker<F>,
    first: Result<Arc<World<F>>, Vec<BuildError>>,
    second: Result<Arc<World<F>>, Vec<BuildError>>,
)
    requires
        one.units() == other.units(),
        one.packages() == other.packages(),
        one.links_to(first),
        other.links_to(second),
    ensures
        first is Ok <==> second is Ok,
        first is Ok ==> first->Ok_0@ == second->Ok_0@,
        first is Err ==> errors_view(first->Err_0@) == errors_view(second->Err_0@),
{
}

} // verus!
