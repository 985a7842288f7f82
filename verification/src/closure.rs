//! What holds of every world that a link makes: each reference in it is
//! qualified, and names something that the world holds.

use crate::lang::{DefinitionModel, LocationModel, UnitModel, UseModel};
use crate::linker::{
    census_of, counted_definition, counted_other, defined_types, definition_census, definition_errors, function_census,
    function_key, import_errors, link_errors, linked_world, missing_names, named_functions,
    package_census, package_functions, primordial_census, HolderModel, qualification_errors, resolution_errors,
    resolved_definitions, resolved_units, unknown_names, visible_in, visible_locals,
    visible_uses, BuildErrorModel, Census, ResolvedModel,
};
use crate::names::NameModel;
use crate::runtime::primordial_types;
use crate::table::{index_of, keys, lemma_index_of};
use crate::types::{
    binding_references, field_references, qualified, qualified_bindings, qualified_fields,
    references, resolved, with_name, FieldModel, TypeModel,
};
use vstd::prelude::*;

verus! {

/// Whether `ty` holds a reference to `name`.
pub open spec fn mentions(ty: TypeModel, name: NameModel) -> bool
    decreases ty,
{
    match ty {
        TypeModel::Ref(n) => n == name,
        TypeModel::Object(fields) => exists|i: int|
            #![trigger fields[i]]
            0 <= i < fields.len() && mentions(fields[i].ty, name),
        TypeModel::List(item) => mentions(*item, name),
        TypeModel::Join(left, right) => mentions(*left, name) || mentions(*right, name),
        TypeModel::Meet(left, right) => mentions(*left, name) || mentions(*right, name),
        TypeModel::Refinement(base, predicate) => mentions(*base, name) || mentions(
            *predicate,
            name,
        ),
        TypeModel::Bound(generic, bindings) => mentions(*generic, name) || exists|i: int|
            #![trigger bindings[i]]
            0 <= i < bindings.len() && mentions(bindings[i].1, name),
        _ => false,
    }
}

/// A sequence with one more item holds what it held, and that item.
proof fn lemma_with_name(names: Seq<NameModel>, name: NameModel, other: NameModel)
    ensures
        with_name(names, name).contains(other) <==> (names.contains(other) || name == other),
{
    if !names.contains(name) {
        let more = names.push(name);
        if names.contains(other) {
            let i = choose|i: int| 0 <= i < names.len() && names[i] == other;
            assert(more[i] == other);
        }
        if name == other {
            assert(more[names.len() as int] == other);
        }
        if more.contains(other) {
            let i = choose|i: int| 0 <= i < more.len() && more[i] == other;
            if i < names.len() {
                assert(names[i] == other);
            }
        }
    }
}

/// The references of a type are the names that it mentions.
pub proof fn lemma_references(ty: TypeModel, found: Seq<NameModel>, name: NameModel)
    ensures
        references(ty, found).contains(name) <==> (found.contains(name) || mentions(ty, name)),
    decreases ty, 0nat,
{
    match ty {
        TypeModel::Ref(n) => lemma_with_name(found, n, name),
        TypeModel::Object(fields) => lemma_field_references(
            fields,
            fields.len() as int,
            found,
            name,
        ),
        TypeModel::List(item) => lemma_references(*item, found, name),
        TypeModel::Join(left, right) => {
            lemma_references(*left, found, name);
            lemma_references(*right, references(*left, found), name);
        },
        TypeModel::Meet(left, right) => {
            lemma_references(*left, found, name);
            lemma_references(*right, references(*left, found), name);
        },
        TypeModel::Refinement(base, predicate) => {
            lemma_references(*base, found, name);
            lemma_references(*predicate, references(*base, found), name);
        },
        TypeModel::Bound(generic, bindings) => {
            lemma_references(*generic, found, name);
            lemma_binding_references(
                bindings,
                bindings.len() as int,
                references(*generic, found),
                name,
            );
        },
        _ => {},
    }
}

/// The references of the first `k` fields are the names that they mention.
proof fn lemma_field_references(
    fields: Seq<FieldModel>,
    k: int,
    found: Seq<NameModel>,
    name: NameModel,
)
    requires
        0 <= k <= fields.len(),
    ensures
        field_references(fields, k, found).contains(name) <==> (found.contains(name) || exists|
            i: int,
        |
            #![trigger fields[i]]
            0 <= i < k && mentions(fields[i].ty, name)),
    decreases fields, k,
{
    if k > 0 {
        lemma_field_references(fields, k - 1, found, name);
        lemma_references(fields[k - 1].ty, field_references(fields, k - 1, found), name);
        if mentions(fields[k - 1].ty, name) {
            assert(0 <= k - 1 < k && mentions(fields[k - 1].ty, name));
        }
    }
}

/// The references of the first `k` bindings are the names that they
/// mention.
proof fn lemma_binding_references(
    bindings: Seq<(Seq<char>, TypeModel)>,
    k: int,
    found: Seq<NameModel>,
    name: NameModel,
)
    requires
        0 <= k <= bindings.len(),
    ensures
        binding_references(bindings, k, found).contains(name) <==> (found.contains(name)
            || exists|i: int|
            #![trigger bindings[i]]
            0 <= i < k && mentions(bindings[i].1, name)),
    decreases bindings, k,
{
    if k > 0 {
        lemma_binding_references(bindings, k - 1, found, name);
        lemma_references(bindings[k - 1].1, binding_references(bindings, k - 1, found), name);
        if mentions(bindings[k - 1].1, name) {
            assert(0 <= k - 1 < k && mentions(bindings[k - 1].1, name));
        }
    }
}

/// A name that needs no table, or that the table knows.
pub open spec fn known(name: NameModel, visible: Seq<(Seq<char>, NameModel)>) -> bool {
    name.package is Some || index_of(keys(visible), name.name) is Some
}

/// Every name that `ty` mentions is known.
pub open spec fn all_known(ty: TypeModel, visible: Seq<(Seq<char>, NameModel)>) -> bool {
    forall|n: NameModel| #[trigger] mentions(ty, n) ==> known(n, visible)
}

/// Every name that `ty` mentions is qualified.
pub open spec fn all_qualified(ty: TypeModel) -> bool {
    forall|n: NameModel| #[trigger] mentions(ty, n) ==> n.package is Some
}

/// Every qualified name that `ty` mentions is among `world_names`.
pub open spec fn all_found(ty: TypeModel, world_names: Seq<Seq<char>>) -> bool {
    forall|n: NameModel|
        #[trigger] mentions(ty, n) && n.package is Some ==> index_of(world_names, n.type_str())
            is Some
}

/// Every name that the table gives is qualified.
pub open spec fn targets_qualified(visible: Seq<(Seq<char>, NameModel)>) -> bool {
    forall|i: int| 0 <= i < visible.len() ==> (#[trigger] visible[i]).1.package is Some
}

/// Where every name of a type is known and the table gives qualified names,
/// every name of the resolved type is qualified.
proof fn lemma_qualified_mentions(
    ty: TypeModel,
    visible: Seq<(Seq<char>, NameModel)>,
    name: NameModel,
)
    requires
        all_known(ty, visible),
        targets_qualified(visible),
        mentions(qualified(ty, visible), name),
    ensures
        name.package is Some,
    decreases ty,
{
    match ty {
        TypeModel::Ref(n) => {
            assert(mentions(ty, n));
            assert(known(n, visible));
            if n.package is None {
                lemma_index_of(keys(visible), n.name);
                let i = index_of(keys(visible), n.name)->Some_0;
                assert(visible[i].1.package is Some);
            }
        },
        TypeModel::Object(fields) => {
            let out = qualified_fields(fields, visible);
            let i = choose|i: int|
                #![trigger out[i]]
                0 <= i < out.len() && mentions(out[i].ty, name);
            assert forall|n: NameModel| #[trigger]
                mentions(fields[i].ty, n) implies known(n, visible) by {
                assert(mentions(ty, n));
            }
            lemma_qualified_mentions(fields[i].ty, visible, name);
        },
        TypeModel::List(item) => {
            assert forall|n: NameModel| #[trigger] mentions(*item, n) implies known(n, visible) by {
                assert(mentions(ty, n));
            }
            lemma_qualified_mentions(*item, visible, name);
        },
        TypeModel::Join(left, right) => {
            lemma_qualified_pair(ty, *left, *right, visible, name);
        },
        TypeModel::Meet(left, right) => {
            lemma_qualified_pair(ty, *left, *right, visible, name);
        },
        TypeModel::Refinement(base, predicate) => {
            lemma_qualified_pair(ty, *base, *predicate, visible, name);
        },
        TypeModel::Bound(generic, bindings) => {
            if mentions(qualified(*generic, visible), name) {
                assert forall|n: NameModel| #[trigger]
                    mentions(*generic, n) implies known(n, visible) by {
                    assert(mentions(ty, n));
                }
                lemma_qualified_mentions(*generic, visible, name);
            } else {
                let out = qualified_bindings(bindings, visible);
                let i = choose|i: int|
                    #![trigger out[i]]
                    0 <= i < out.len() && mentions(out[i].1, name);
                assert forall|n: NameModel| #[trigger]
                    mentions(bindings[i].1, n) implies known(n, visible) by {
                    assert(mentions(ty, n));
                }
                lemma_qualified_mentions(bindings[i].1, visible, name);
            }
        },
        _ => {},
    }
}

/// The step of `lemma_qualified_mentions` for a type of two parts.
proof fn lemma_qualified_pair(
    ty: TypeModel,
    left: TypeModel,
    right: TypeModel,
    visible: Seq<(Seq<char>, NameModel)>,
    name: NameModel,
)
    requires
        all_known(ty, visible),
        targets_qualified(visible),
        forall|n: NameModel| mentions(left, n) || mentions(right, n) ==> mentions(ty, n),
        mentions(qualified(left, visible), name) || mentions(qualified(right, visible), name),
        decreases_to!(ty => left),
        decreases_to!(ty => right),
    ensures
        name.package is Some,
    decreases ty, 0nat,
{
    if mentions(qualified(left, visible), name) {
        assert forall|n: NameModel| #[trigger] mentions(left, n) implies known(n, visible) by {
            assert(mentions(ty, n));
        }
        lemma_qualified_mentions(left, visible, name);
    } else {
        assert forall|n: NameModel| #[trigger] mentions(right, n) implies known(n, visible) by {
            assert(mentions(ty, n));
        }
        lemma_qualified_mentions(right, visible, name);
    }
}

/// The table of a unit gives qualified names only.
proof fn lemma_visible_targets(unit: UnitModel)
    ensures
        targets_qualified(visible_in(unit)),
{
    let package = crate::names::segments_of(unit.source);
    lemma_visible_locals(package, unit.types, unit.types.len() as int);
    let locals = visible_locals(package, unit.types, unit.types.len() as int, Seq::empty());
    lemma_visible_uses(unit, unit.uses.len() as int, locals);
}

/// The names that the definitions of a unit make visible are qualified.
proof fn lemma_visible_locals(package: Seq<Seq<char>>, types: Seq<DefinitionModel>, k: int)
    requires
        0 <= k <= types.len(),
    ensures
        targets_qualified(visible_locals(package, types, k, Seq::empty())),
    decreases k,
{
    if k > 0 {
        lemma_visible_locals(package, types, k - 1);
    }
}

/// The names that the imports of a unit make visible are qualified.
proof fn lemma_visible_uses(unit: UnitModel, k: int, visible: Seq<(Seq<char>, NameModel)>)
    requires
        0 <= k <= unit.uses.len(),
        targets_qualified(visible),
    ensures
        targets_qualified(visible_uses(unit.uses, k, visible)),
    decreases k,
{
    if k > 0 {
        lemma_visible_uses(unit, k - 1, visible);
        assert(unit.uses[k - 1].target().package is Some);
    }
}

/// Checking imports takes no error away.
proof fn lemma_import_errors(uses: Seq<UseModel>, k: int, errors: Seq<BuildErrorModel>)
    requires
        0 <= k <= uses.len(),
    ensures
        import_errors(uses, k, errors).len() >= errors.len(),
    decreases k,
{
    if k > 0 {
        lemma_import_errors(uses, k - 1, errors);
    }
}

/// Where checking the first `k` references adds no error, each of them is
/// known, and there was no error before.
proof fn lemma_unknown_names(
    refs: Seq<NameModel>,
    k: int,
    visible: Seq<(Seq<char>, NameModel)>,
    at: LocationModel,
    errors: Seq<BuildErrorModel>,
)
    requires
        0 <= k <= refs.len(),
    ensures
        unknown_names(refs, k, visible, at, errors).len() >= errors.len(),
        unknown_names(refs, k, visible, at, errors).len() == 0 ==> forall|j: int|
            0 <= j < k ==> known(#[trigger] refs[j], visible),
    decreases k,
{
    if k > 0 {
        lemma_unknown_names(refs, k - 1, visible, at, errors);
    }
}

/// Where checking the first `k` definitions of a unit adds no error, every
/// name that they mention is known, and there was no error before.
proof fn lemma_definition_errors(
    types: Seq<DefinitionModel>,
    k: int,
    visible: Seq<(Seq<char>, NameModel)>,
    errors: Seq<BuildErrorModel>,
)
    requires
        0 <= k <= types.len(),
    ensures
        definition_errors(types, k, visible, errors).len() >= errors.len(),
        definition_errors(types, k, visible, errors).len() == 0 ==> forall|d: int|
            0 <= d < k ==> all_known((#[trigger] types[d]).ty, visible),
    decreases k,
{
    if k > 0 {
        lemma_definition_errors(types, k - 1, visible, errors);
        let refs = references(types[k - 1].ty, Seq::empty());
        let before = definition_errors(types, k - 1, visible, errors);
        lemma_unknown_names(refs, refs.len() as int, visible, types[k - 1].location, before);
        if definition_errors(types, k, visible, errors).len() == 0 {
            assert forall|n: NameModel| #[trigger]
                mentions(types[k - 1].ty, n) implies known(n, visible) by {
                lemma_references(types[k - 1].ty, Seq::empty(), n);
                let j = choose|j: int| 0 <= j < refs.len() && refs[j] == n;
                assert(known(refs[j], visible));
            }
        }
    }
}

/// Every name that a definition of the unit mentions is known in the unit.
pub open spec fn unit_known(unit: UnitModel) -> bool {
    forall|d: int|
        0 <= d < unit.types.len() ==> all_known((#[trigger] unit.types[d]).ty, visible_in(unit))
}

/// Where checking the first `k` units adds no error, every name that they
/// mention is known in its unit, and there was no error before.
proof fn lemma_qualification_errors(units: Seq<UnitModel>, k: int, errors: Seq<BuildErrorModel>)
    requires
        0 <= k <= units.len(),
    ensures
        qualification_errors(units, k, errors).len() >= errors.len(),
        qualification_errors(units, k, errors).len() == 0 ==> forall|u: int|
            0 <= u < k ==> unit_known(#[trigger] units[u]),
    decreases k,
{
    if k > 0 {
        lemma_qualification_errors(units, k - 1, errors);
        let unit = units[k - 1];
        let before = qualification_errors(units, k - 1, errors);
        lemma_import_errors(unit.uses, unit.uses.len() as int, before);
        lemma_definition_errors(
            unit.types,
            unit.types.len() as int,
            visible_in(unit),
            import_errors(unit.uses, unit.uses.len() as int, before),
        );
    }
}

/// Every entry holds a type whose names are all qualified.
pub open spec fn entries_qualified(resolved: Seq<ResolvedModel>) -> bool {
    forall|i: int| 0 <= i < resolved.len() ==> all_qualified((#[trigger] resolved[i]).ty)
}

/// The resolved definitions of a unit mention qualified names only, where
/// every name of the unit is known.
proof fn lemma_resolved_definitions(unit: UnitModel, k: int, resolved: Seq<ResolvedModel>)
    requires
        0 <= k <= unit.types.len(),
        unit_known(unit),
        entries_qualified(resolved),
    ensures
        entries_qualified(resolved_definitions(unit, k, resolved)),
        resolved_definitions(unit, k, resolved).len() == resolved.len() + k,
    decreases k,
{
    if k > 0 {
        lemma_resolved_definitions(unit, k - 1, resolved);
        lemma_visible_targets(unit);
        let ty = unit.types[k - 1].ty;
        assert(all_known(unit.types[k - 1].ty, visible_in(unit)));
        assert forall|n: NameModel| #[trigger]
            mentions(qualified(ty, visible_in(unit)), n) implies n.package is Some by {
            lemma_qualified_mentions(ty, visible_in(unit), n);
        }
    }
}

/// The resolved definitions of units mention qualified names only, where
/// every name of each unit is known.
proof fn lemma_resolved_units(units: Seq<UnitModel>, k: int)
    requires
        0 <= k <= units.len(),
        forall|u: int| 0 <= u < k ==> unit_known(#[trigger] units[u]),
    ensures
        entries_qualified(resolved_units(units, k, Seq::empty())),
    decreases k,
{
    if k > 0 {
        lemma_resolved_units(units, k - 1);
        assert(unit_known(units[k - 1]));
        lemma_resolved_definitions(
            units[k - 1],
            units[k - 1].types.len() as int,
            resolved_units(units, k - 1, Seq::empty()),
        );
    }
}

/// Where checking the first `k` references adds no error, each of them
/// that is qualified is among the names, and there was no error before.
proof fn lemma_missing_names(
    refs: Seq<NameModel>,
    k: int,
    world_names: Seq<Seq<char>>,
    at: LocationModel,
    errors: Seq<BuildErrorModel>,
)
    requires
        0 <= k <= refs.len(),
    ensures
        missing_names(refs, k, world_names, at, errors).len() >= errors.len(),
        missing_names(refs, k, world_names, at, errors).len() == 0 ==> forall|j: int|
            0 <= j < k && (#[trigger] refs[j]).package is Some ==> index_of(
                world_names,
                refs[j].type_str(),
            ) is Some,
    decreases k,
{
    if k > 0 {
        lemma_missing_names(refs, k - 1, world_names, at, errors);
    }
}

/// Where checking the first `k` resolved definitions adds no error, every
/// qualified name that they mention is among the names, and there was no
/// error before.
proof fn lemma_resolution_errors(
    resolved: Seq<ResolvedModel>,
    k: int,
    world_names: Seq<Seq<char>>,
    errors: Seq<BuildErrorModel>,
)
    requires
        0 <= k <= resolved.len(),
    ensures
        resolution_errors(resolved, k, world_names, errors).len() >= errors.len(),
        resolution_errors(resolved, k, world_names, errors).len() == 0 ==> forall|i: int|
            0 <= i < k ==> all_found((#[trigger] resolved[i]).ty, world_names),
    decreases k,
{
    if k > 0 {
        lemma_resolution_errors(resolved, k - 1, world_names, errors);
        let refs = references(resolved[k - 1].ty, Seq::empty());
        let before = resolution_errors(resolved, k - 1, world_names, errors);
        lemma_missing_names(refs, refs.len() as int, world_names, resolved[k - 1].location, before);
        if resolution_errors(resolved, k, world_names, errors).len() == 0 {
            assert forall|n: NameModel| #[trigger]
                mentions(resolved[k - 1].ty, n) && n.package is Some implies index_of(
                world_names,
                n.type_str(),
            ) is Some by {
                lemma_references(resolved[k - 1].ty, Seq::empty(), n);
                let j = choose|j: int| 0 <= j < refs.len() && refs[j] == n;
                assert(refs[j].package is Some);
            }
        }
    }
}

/// The names of a census with one more entry are those before and the new
/// one.
proof fn lemma_census_push<T>(entries: Seq<(Seq<char>, T)>, key: Seq<char>, holder: T, other: Seq<char>)
    ensures
        keys(entries.push((key, holder))) == keys(entries).push(key),
        keys(entries.push((key, holder))).contains(other) <==> (keys(entries).contains(other)
            || other == key),
{
    let names = keys(entries);
    let more = keys(entries.push((key, holder)));
    assert(more =~= names.push(key));
    if names.contains(other) {
        let i = choose|i: int| 0 <= i < names.len() && names[i] == other;
        assert(more[i] == other);
    }
    if other == key {
        assert(more[names.len() as int] == other);
    }
    if more.contains(other) {
        let i = choose|i: int| 0 <= i < more.len() && more[i] == other;
        if i < names.len() {
            assert(names[i] == other);
        }
    }
}

/// Putting another holder under a name of the census leaves its names.
proof fn lemma_census_update<T>(entries: Seq<(Seq<char>, T)>, i: int, holder: T)
    requires
        0 <= i < entries.len(),
    ensures
        keys(entries.update(i, (entries[i].0, holder))) == keys(entries),
{
    assert(keys(entries.update(i, (entries[i].0, holder))) =~= keys(entries));
}

/// Counting a built-in type or a function takes no error away, and the
/// names of the census afterwards are those before and the one counted.
proof fn lemma_counted_other(census: Census, key: Seq<char>, other: Seq<char>)
    ensures
        counted_other(census, key).errors.len() >= census.errors.len(),
        keys(counted_other(census, key).entries).contains(other) <==> (keys(
            census.entries,
        ).contains(other) || other == key),
        counted_other(census, key).errors.len() == census.errors.len() ==> keys(
            counted_other(census, key).entries,
        ) == keys(census.entries).push(key) && !keys(census.entries).contains(key),
{
    let names = keys(census.entries);
    lemma_index_of(names, key);
    match index_of(names, key) {
        None => {
            lemma_census_push(census.entries, key, HolderModel::Other, other);
        },
        Some(i) => {
            assert(names[i] == key);
            assert(census.entries[i].0 == key);
            match census.entries[i].1 {
                HolderModel::Definition(first) => {
                    lemma_census_update(census.entries, i, HolderModel::Both(first));
                },
                _ => {},
            }
        },
    }
}

/// Counting a definition takes no error away, and the names of the census
/// afterwards are those before and the one counted.
proof fn lemma_counted_definition(
    census: Census,
    key: Seq<char>,
    at: LocationModel,
    other: Seq<char>,
)
    ensures
        counted_definition(census, key, at).errors.len() >= census.errors.len(),
        keys(counted_definition(census, key, at).entries).contains(other) <==> (keys(
            census.entries,
        ).contains(other) || other == key),
        counted_definition(census, key, at).errors.len() == census.errors.len() ==> keys(
            counted_definition(census, key, at).entries,
        ) == keys(census.entries).push(key) && !keys(census.entries).contains(key),
{
    let names = keys(census.entries);
    lemma_index_of(names, key);
    match index_of(names, key) {
        None => {
            lemma_census_push(census.entries, key, HolderModel::Definition(at), other);
        },
        Some(i) => {
            assert(names[i] == key);
            assert(census.entries[i].0 == key);
            lemma_census_update(census.entries, i, HolderModel::Both(at));
        },
    }
}

/// Whether one of the first `k` functions of a package has the key `key`.
pub open spec fn function_named<F>(
    package: Seq<Seq<char>>,
    functions: Seq<(Seq<char>, F)>,
    k: int,
    key: Seq<char>,
) -> bool {
    exists|j: int| #![trigger functions[j]] 0 <= j < k && function_key(package, functions[j].0) == key
}

/// Whether a function of one of the first `k` packages has the key `key`.
pub open spec fn package_named<F>(
    packages: Seq<(Seq<Seq<char>>, Seq<(Seq<char>, F)>)>,
    k: int,
    key: Seq<char>,
) -> bool {
    exists|p: int|
        #![trigger packages[p]]
        0 <= p < k && function_named(packages[p].0, packages[p].1, packages[p].1.len() as int, key)
}

/// Whether one of the first `k` resolved definitions has the key `key`.
pub open spec fn definition_named(resolved: Seq<ResolvedModel>, k: int, key: Seq<char>) -> bool {
    exists|i: int| #![trigger resolved[i]] 0 <= i < k && resolved[i].key == key
}

/// The names of the census after the functions of a package were counted.
proof fn lemma_function_census<F>(
    package: Seq<Seq<char>>,
    functions: Seq<(Seq<char>, F)>,
    k: int,
    census: Census,
    key: Seq<char>,
)
    requires
        0 <= k <= functions.len(),
    ensures
        function_census(package, functions, k, census).errors.len() >= census.errors.len(),
        keys(function_census(package, functions, k, census).entries).contains(key) <==> (keys(
            census.entries,
        ).contains(key) || function_named(package, functions, k, key)),
    decreases k,
{
    if k > 0 {
        lemma_function_census(package, functions, k - 1, census, key);
        lemma_counted_other(
            function_census(package, functions, k - 1, census),
            function_key(package, functions[k - 1].0),
            key,
        );
        if function_key(package, functions[k - 1].0) == key {
            assert(0 <= k - 1 < k && function_key(package, functions[k - 1].0) == key);
        }
    }
}

/// The names of the census after the functions of packages were counted.
proof fn lemma_package_census<F>(
    packages: Seq<(Seq<Seq<char>>, Seq<(Seq<char>, F)>)>,
    k: int,
    census: Census,
    key: Seq<char>,
)
    requires
        0 <= k <= packages.len(),
    ensures
        package_census(packages, k, census).errors.len() >= census.errors.len(),
        keys(package_census(packages, k, census).entries).contains(key) <==> (keys(
            census.entries,
        ).contains(key) || package_named(packages, k, key)),
    decreases k,
{
    if k > 0 {
        lemma_package_census(packages, k - 1, census, key);
        lemma_function_census(
            packages[k - 1].0,
            packages[k - 1].1,
            packages[k - 1].1.len() as int,
            package_census(packages, k - 1, census),
            key,
        );
        if function_named(packages[k - 1].0, packages[k - 1].1, packages[k - 1].1.len() as int, key) {
            assert(0 <= k - 1 < k && function_named(
                packages[k - 1].0,
                packages[k - 1].1,
                packages[k - 1].1.len() as int,
                key,
            ));
        }
    }
}

/// The names of the census after resolved definitions were counted.
proof fn lemma_definition_census(
    resolved: Seq<ResolvedModel>,
    k: int,
    census: Census,
    key: Seq<char>,
)
    requires
        0 <= k <= resolved.len(),
    ensures
        definition_census(resolved, k, census).errors.len() >= census.errors.len(),
        keys(definition_census(resolved, k, census).entries).contains(key) <==> (keys(
            census.entries,
        ).contains(key) || definition_named(resolved, k, key)),
    decreases k,
{
    if k > 0 {
        lemma_definition_census(resolved, k - 1, census, key);
        lemma_counted_definition(
            definition_census(resolved, k - 1, census),
            resolved[k - 1].key,
            resolved[k - 1].location,
            key,
        );
        if resolved[k - 1].key == key {
            assert(0 <= k - 1 < k && resolved[k - 1].key == key);
        }
    }
}

/// The types of a world: those that were there, then the resolved
/// definitions in order.
proof fn lemma_defined_types(
    resolved: Seq<ResolvedModel>,
    k: int,
    types: Seq<(Seq<char>, TypeModel)>,
)
    requires
        0 <= k <= resolved.len(),
    ensures
        defined_types(resolved, k, types).len() == types.len() + k,
        forall|i: int| 0 <= i < types.len() ==> defined_types(resolved, k, types)[i] == types[i],
        forall|i: int|
            0 <= i < k ==> defined_types(resolved, k, types)[types.len() + i] == (
                (#[trigger] resolved[i]).key,
                resolved[i].ty,
            ),
    decreases k,
{
    if k > 0 {
        lemma_defined_types(resolved, k - 1, types);
    }
}

/// The functions of a world hold those that were there, and the functions
/// of the package.
proof fn lemma_named_functions<F>(
    package: Seq<Seq<char>>,
    entries: Seq<(Seq<char>, F)>,
    k: int,
    functions: Seq<(Seq<char>, F)>,
    key: Seq<char>,
)
    requires
        0 <= k <= entries.len(),
    ensures
        keys(functions).contains(key) || function_named(package, entries, k, key) ==> keys(
            named_functions(package, entries, k, functions),
        ).contains(key),
    decreases k,
{
    if k > 0 {
        lemma_named_functions(package, entries, k - 1, functions, key);
        let before = named_functions(package, entries, k - 1, functions);
        let after = named_functions(package, entries, k, functions);
        assert(keys(after) =~= keys(before).push(function_key(package, entries[k - 1].0)));
        if keys(before).contains(key) {
            let i = choose|i: int| 0 <= i < keys(before).len() && keys(before)[i] == key;
            assert(keys(after)[i] == key);
        }
        if function_named(package, entries, k, key) && !function_named(
            package,
            entries,
            k - 1,
            key,
        ) {
            let j = choose|j: int|
                #![trigger entries[j]]
                0 <= j < k && function_key(package, entries[j].0) == key;
            assert(j == k - 1);
            assert(keys(after)[keys(before).len() as int] == key);
        }
    } else {
        assert(!function_named(package, entries, k, key));
    }
}

/// The functions of a world hold the functions of the packages.
proof fn lemma_package_functions<F>(
    packages: Seq<(Seq<Seq<char>>, Seq<(Seq<char>, F)>)>,
    k: int,
    key: Seq<char>,
)
    requires
        0 <= k <= packages.len(),
        package_named(packages, k, key),
    ensures
        keys(package_functions(packages, k, Seq::empty())).contains(key),
    decreases k,
{
    if k > 0 {
        let before = package_functions(packages, k - 1, Seq::empty());
        if package_named(packages, k - 1, key) {
            lemma_package_functions(packages, k - 1, key);
        } else {
            let p = choose|p: int|
                #![trigger packages[p]]
                0 <= p < k && function_named(
                    packages[p].0,
                    packages[p].1,
                    packages[p].1.len() as int,
                    key,
                );
            assert(p == k - 1);
        }
        lemma_named_functions(
            packages[k - 1].0,
            packages[k - 1].1,
            packages[k - 1].1.len() as int,
            before,
            key,
        );
    }
}

/// In the world of a link without errors, every name that a type refers to
/// is qualified, and the world holds a type or a function under it.
pub proof fn law_link_closure<F>(
    units: Seq<UnitModel>,
    packages: Seq<(Seq<Seq<char>>, Seq<(Seq<char>, F)>)>,
    i: int,
    name: NameModel,
)
    requires
        link_errors(units, packages).len() == 0,
        0 <= i < linked_world(units, packages).types.len(),
        references(linked_world(units, packages).types[i].1, Seq::empty()).contains(name),
    ensures
        name.is_qualified(),
        linked_world(units, packages).defines(name.type_str()),
{
    let world = linked_world(units, packages);
    let resolved = resolved_units(units, units.len() as int, Seq::empty());
    let n = resolved.len() as int;
    let first = qualification_errors(units, units.len() as int, Seq::empty());
    let start = primordial_census(first);
    let counted_functions = package_census(packages, packages.len() as int, start);
    let census = census_of(units, packages);
    let world_names = keys(census.entries);
    let key = name.type_str();
    lemma_references(world.types[i].1, Seq::empty(), name);
    assert(mentions(world.types[i].1, name));
    lemma_defined_types(resolved, n, primordial_types());
    assert(i >= 4);
    let d = i - 4;
    assert(world.types[i] == (resolved[d].key, resolved[d].ty));
    lemma_resolution_errors(resolved, n, world_names, census.errors);
    lemma_definition_census(resolved, n, counted_functions, key);
    lemma_package_census(packages, packages.len() as int, start, key);
    lemma_qualification_errors(units, units.len() as int, Seq::empty());
    lemma_resolved_units(units, units.len() as int);
    assert(all_qualified(resolved[d].ty));
    assert(name.package is Some);
    assert(all_found(resolved[d].ty, world_names));
    lemma_index_of(world_names, key);
    assert(world_names.contains(key));
    lemma_index_of(keys(world.types), key);
    lemma_index_of(keys(world.functions), key);
    if keys(start.entries).contains(key) {
        let j = choose|j: int| 0 <= j < 4 && keys(start.entries)[j] == key;
        assert(keys(world.types)[j] == key);
    } else if package_named(packages, packages.len() as int, key) {
        lemma_package_functions(packages, packages.len() as int, key);
    } else {
        let j = choose|j: int| #![trigger resolved[j]] 0 <= j < n && resolved[j].key == key;
        assert(keys(world.types)[4 + j] == key);
    }
}

/// The keys of the first `k` resolved definitions, in order.
pub open spec fn definition_keys(resolved: Seq<ResolvedModel>, k: int) -> Seq<Seq<char>> {
    Seq::new(k as nat, |i: int| resolved[i].key)
}

/// Names without duplicates stay so when a new name is put behind them.
proof fn lemma_no_duplicates_push(names: Seq<Seq<char>>, key: Seq<char>)
    requires
        names.no_duplicates(),
        !names.contains(key),
    ensures
        names.push(key).no_duplicates(),
{
    let more = names.push(key);
    assert forall|i: int, j: int| 0 <= i < more.len() && 0 <= j < more.len() && i != j implies more[i]
        != more[j] by {
        if i < names.len() && j < names.len() {
            assert(names[i] != names[j]);
        } else if i < names.len() {
            assert(names[i] != key);
        } else {
            assert(names[j] != key);
        }
    }
}

/// Where counting definitions finds no collision, the names of the census
/// are those before, then the keys of the definitions.
proof fn lemma_definition_census_clean(resolved: Seq<ResolvedModel>, k: int, census: Census)
    requires
        0 <= k <= resolved.len(),
        keys(census.entries).no_duplicates(),
        definition_census(resolved, k, census).errors.len() == census.errors.len(),
    ensures
        keys(definition_census(resolved, k, census).entries) == keys(census.entries)
            + definition_keys(resolved, k),
        keys(definition_census(resolved, k, census).entries).no_duplicates(),
    decreases k,
{
    if k > 0 {
        let before = definition_census(resolved, k - 1, census);
        lemma_definition_census(resolved, k - 1, census, resolved[k - 1].key);
        lemma_counted_definition(
            before,
            resolved[k - 1].key,
            resolved[k - 1].location,
            resolved[k - 1].key,
        );
        lemma_definition_census_clean(resolved, k - 1, census);
        lemma_no_duplicates_push(keys(before.entries), resolved[k - 1].key);
        assert(keys(census.entries) + definition_keys(resolved, k) =~= (keys(census.entries)
            + definition_keys(resolved, k - 1)).push(resolved[k - 1].key));
    } else {
        assert(keys(census.entries) + definition_keys(resolved, k) =~= keys(census.entries));
    }
}

/// The keys of the functions of a package lie behind the keys that were
/// there.
proof fn lemma_named_function_keys<F>(
    package: Seq<Seq<char>>,
    entries: Seq<(Seq<char>, F)>,
    k: int,
    functions: Seq<(Seq<char>, F)>,
)
    requires
        0 <= k <= entries.len(),
    ensures
        keys(named_functions(package, entries, k, functions)) == keys(functions) + keys(
            named_functions(package, entries, k, Seq::empty()),
        ),
    decreases k,
{
    if k > 0 {
        lemma_named_function_keys(package, entries, k - 1, functions);
        let key = function_key(package, entries[k - 1].0);
        assert(keys(named_functions(package, entries, k, functions)) =~= keys(
            named_functions(package, entries, k - 1, functions),
        ).push(key));
        assert(keys(named_functions(package, entries, k, Seq::empty())) =~= keys(
            named_functions(package, entries, k - 1, Seq::empty()),
        ).push(key));
        assert(keys(functions) + keys(named_functions(package, entries, k, Seq::empty()))
            =~= (keys(functions) + keys(
            named_functions(package, entries, k - 1, Seq::empty()),
        )).push(key));
    } else {
        assert(keys(functions) + keys(named_functions(package, entries, k, Seq::empty()))
            =~= keys(functions));
    }
}

/// Where counting the functions of a package finds no collision, the names
/// of the census are those before, then the keys of the functions.
proof fn lemma_function_census_clean<F>(
    package: Seq<Seq<char>>,
    functions: Seq<(Seq<char>, F)>,
    k: int,
    census: Census,
)
    requires
        0 <= k <= functions.len(),
        keys(census.entries).no_duplicates(),
        function_census(package, functions, k, census).errors.len() == census.errors.len(),
    ensures
        keys(function_census(package, functions, k, census).entries) == keys(census.entries)
            + keys(named_functions(package, functions, k, Seq::empty())),
        keys(function_census(package, functions, k, census).entries).no_duplicates(),
    decreases k,
{
    if k > 0 {
        let before = function_census(package, functions, k - 1, census);
        let key = function_key(package, functions[k - 1].0);
        lemma_function_census(package, functions, k - 1, census, key);
        lemma_counted_other(before, key, key);
        lemma_function_census_clean(package, functions, k - 1, census);
        lemma_no_duplicates_push(keys(before.entries), key);
        assert(keys(named_functions(package, functions, k, Seq::empty())) =~= keys(
            named_functions(package, functions, k - 1, Seq::empty()),
        ).push(key));
        assert(keys(census.entries) + keys(named_functions(package, functions, k, Seq::empty()))
            =~= (keys(census.entries) + keys(
            named_functions(package, functions, k - 1, Seq::empty()),
        )).push(key));
    } else {
        assert(keys(census.entries) + keys(named_functions(package, functions, k, Seq::empty()))
            =~= keys(census.entries));
    }
}

/// Where counting the functions of packages finds no collision, the names
/// of the census are those before, then the keys of the functions.
proof fn lemma_package_census_clean<F>(
    packages: Seq<(Seq<Seq<char>>, Seq<(Seq<char>, F)>)>,
    k: int,
    census: Census,
)
    requires
        0 <= k <= packages.len(),
        keys(census.entries).no_duplicates(),
        package_census(packages, k, census).errors.len() == census.errors.len(),
    ensures
        keys(package_census(packages, k, census).entries) == keys(census.entries) + keys(
            package_functions(packages, k, Seq::empty()),
        ),
        keys(package_census(packages, k, census).entries).no_duplicates(),
    decreases k,
{
    if k > 0 {
        let before = package_census(packages, k - 1, census);
        let path = packages[k - 1].0;
        let entries = packages[k - 1].1;
        let m = entries.len() as int;
        lemma_package_census(packages, k - 1, census, Seq::empty());
        lemma_function_census(path, entries, m, before, Seq::empty());
        lemma_package_census_clean(packages, k - 1, census);
        lemma_function_census_clean(path, entries, m, before);
        let earlier = package_functions(packages, k - 1, Seq::empty());
        lemma_named_function_keys(path, entries, m, earlier);
        assert(keys(census.entries) + keys(package_functions(packages, k, Seq::empty()))
            =~= (keys(census.entries) + keys(earlier)) + keys(
            named_functions(path, entries, m, Seq::empty()),
        ));
    } else {
        assert(keys(census.entries) + keys(package_functions(packages, k, Seq::empty()))
            =~= keys(census.entries));
    }
}

/// In the world of a link without errors no name is held twice: not by two
/// types, not by two functions, and not by a type and a function.
pub proof fn law_link_names_are_unique<F>(
    units: Seq<UnitModel>,
    packages: Seq<(Seq<Seq<char>>, Seq<(Seq<char>, F)>)>,
)
    requires
        link_errors(units, packages).len() == 0,
    ensures
        keys(linked_world(units, packages).types).no_duplicates(),
        keys(linked_world(units, packages).functions).no_duplicates(),
        forall|key: Seq<char>|
            !(keys(linked_world(units, packages).types).contains(key) && keys(
                linked_world(units, packages).functions,
            ).contains(key)),
{
    let world = linked_world(units, packages);
    let resolved = resolved_units(units, units.len() as int, Seq::empty());
    let n = resolved.len() as int;
    let first = qualification_errors(units, units.len() as int, Seq::empty());
    let start = primordial_census(first);
    let after_functions = package_census(packages, packages.len() as int, start);
    let census = census_of(units, packages);
    lemma_resolution_errors(resolved, n, keys(census.entries), census.errors);
    lemma_definition_census(resolved, n, after_functions, Seq::empty());
    lemma_package_census(packages, packages.len() as int, start, Seq::empty());
    lemma_qualification_errors(units, units.len() as int, Seq::empty());
    let built_in = keys(start.entries);
    assert(built_in.no_duplicates()) by {
        reveal_strlit("int");
        reveal_strlit("decimal");
        reveal_strlit("string");
        reveal_strlit("boolean");
        assert(built_in[0] == "int"@ && built_in[1] == "decimal"@ && built_in[2] == "string"@
            && built_in[3] == "boolean"@);
        assert("int"@.len() == 3 && "decimal"@.len() == 7 && "string"@.len() == 6);
        assert("boolean"@[0] == 'b' && "decimal"@[0] == 'd');
    }
    lemma_package_census_clean(packages, packages.len() as int, start);
    lemma_definition_census_clean(resolved, n, after_functions);
    let functions = keys(world.functions);
    let definitions = definition_keys(resolved, n);
    let all = keys(census.entries);
    assert(all == built_in + functions + definitions);
    lemma_defined_types(resolved, n, primordial_types());
    let types = keys(world.types);
    assert(types =~= built_in + definitions);
    let shift = functions.len() as int;
    assert forall|i: int, j: int| 0 <= i < types.len() && 0 <= j < types.len() && i != j implies types[i]
        != types[j] by {
        let a = if i < 4 { i } else { i + shift };
        let b = if j < 4 { j } else { j + shift };
        assert(all[a] == types[i] && all[b] == types[j]);
    }
    assert forall|i: int, j: int|
        0 <= i < functions.len() && 0 <= j < functions.len() && i != j implies functions[i]
        != functions[j] by {
        assert(all[4 + i] == functions[i] && all[4 + j] == functions[j]);
    }
    assert forall|key: Seq<char>| !(types.contains(key) && functions.contains(key)) by {
        if types.contains(key) && functions.contains(key) {
            let i = choose|i: int| 0 <= i < types.len() && types[i] == key;
            let j = choose|j: int| 0 <= j < functions.len() && functions[j] == key;
            let a = if i < 4 { i } else { i + shift };
            assert(all[a] == key && all[4 + j] == key);
        }
    }
}

/// The location of the first definition that the census holds under `key`.
pub open spec fn first_definition(census: Census, key: Seq<char>) -> Option<LocationModel> {
    match index_of(keys(census.entries), key) {
        Some(i) => match census.entries[i].1 {
            HolderModel::Other => None,
            HolderModel::Definition(first) => Some(first),
            HolderModel::Both(first) => Some(first),
        },
        None => None,
    }
}

/// Where a name is found among names with one more behind them.
proof fn lemma_index_of_push(names: Seq<Seq<char>>, key: Seq<char>, other: Seq<char>)
    ensures
        index_of(names.push(key), other) == (match index_of(names, other) {
            Some(i) => Some(i),
            None => if key == other {
                Some(names.len() as int)
            } else {
                None
            },
        }),
{
    let more = names.push(key);
    lemma_index_of(names, other);
    lemma_index_of(more, other);
    match index_of(names, other) {
        Some(i) => {
            assert(more[i] == other);
            assert forall|j: int| 0 <= j < i implies more[j] != other by {
                assert(names[j] != other);
            }
            crate::table::lemma_index_of_first(more, other, i);
        },
        None => {
            assert forall|j: int| 0 <= j < names.len() implies more[j] != other by {
                assert(names[j] != other);
            }
            if key == other {
                assert(more[names.len() as int] == other);
                crate::table::lemma_index_of_first(more, other, names.len() as int);
            } else {
                crate::table::lemma_index_of_first(more, other, more.len() as int);
            }
        },
    }
}

/// Counting a built-in type or a function changes the first definition of
/// no name, and keeps every error.
proof fn lemma_counted_other_keeps(census: Census, key: Seq<char>, other: Seq<char>)
    ensures
        first_definition(counted_other(census, key), other) == first_definition(census, other),
        forall|e: BuildErrorModel|
            census.errors.contains(e) ==> counted_other(census, key).errors.contains(e),
{
    let names = keys(census.entries);
    lemma_index_of(names, key);
    lemma_index_of(names, other);
    let after = counted_other(census, key);
    match index_of(names, key) {
        None => {
            assert(keys(after.entries) =~= names.push(key));
            lemma_index_of_push(names, key, other);
        },
        Some(i) => {
            assert(census.entries[i].0 == key);
            assert(keys(after.entries) =~= names);
        },
    }
    assert forall|e: BuildErrorModel| census.errors.contains(e) implies after.errors.contains(
        e,
    ) by {
        let at = choose|at: int| 0 <= at < census.errors.len() && census.errors[at] == e;
        assert(after.errors[at] == e);
    }
}

/// Counting a definition gives its name a first definition if it had none,
/// changes the first definition of no other name, keeps every error, and
/// reports a duplicate of the first definition where the name had one.
proof fn lemma_counted_definition_keeps(
    census: Census,
    key: Seq<char>,
    at: LocationModel,
    other: Seq<char>,
)
    ensures
        first_definition(counted_definition(census, key, at), other) == (if other == key
            && first_definition(census, key) is None {
            Some(at)
        } else {
            first_definition(census, other)
        }),
        forall|e: BuildErrorModel|
            census.errors.contains(e) ==> counted_definition(census, key, at).errors.contains(e),
        first_definition(census, key) is Some ==> counted_definition(
            census,
            key,
            at,
        ).errors.contains(
            BuildErrorModel::DuplicateDefinition(key, first_definition(census, key)->Some_0, at),
        ),
{
    let names = keys(census.entries);
    lemma_index_of(names, key);
    lemma_index_of(names, other);
    let after = counted_definition(census, key, at);
    match index_of(names, key) {
        None => {
            assert(keys(after.entries) =~= names.push(key));
            lemma_index_of_push(names, key, other);
        },
        Some(i) => {
            assert(census.entries[i].0 == key);
            assert(keys(after.entries) =~= names);
        },
    }
    assert forall|e: BuildErrorModel| census.errors.contains(e) implies after.errors.contains(
        e,
    ) by {
        let n = choose|n: int| 0 <= n < census.errors.len() && census.errors[n] == e;
        assert(after.errors[n] == e);
    }
    if first_definition(census, key) is Some {
        let duplicate = BuildErrorModel::DuplicateDefinition(
            key,
            first_definition(census, key)->Some_0,
            at,
        );
        assert(after.errors[after.errors.len() - 1] == duplicate);
    }
}

/// Counting the functions of packages changes the first definition of no
/// name.
proof fn lemma_package_census_keeps<F>(
    packages: Seq<(Seq<Seq<char>>, Seq<(Seq<char>, F)>)>,
    k: int,
    census: Census,
    key: Seq<char>,
)
    requires
        0 <= k <= packages.len(),
    ensures
        first_definition(package_census(packages, k, census), key) == first_definition(
            census,
            key,
        ),
    decreases k,
{
    if k > 0 {
        lemma_package_census_keeps(packages, k - 1, census, key);
        lemma_function_census_keeps(
            packages[k - 1].0,
            packages[k - 1].1,
            packages[k - 1].1.len() as int,
            package_census(packages, k - 1, census),
            key,
        );
    }
}

/// Counting the functions of a package changes the first definition of no
/// name.
proof fn lemma_function_census_keeps<F>(
    package: Seq<Seq<char>>,
    functions: Seq<(Seq<char>, F)>,
    k: int,
    census: Census,
    key: Seq<char>,
)
    requires
        0 <= k <= functions.len(),
    ensures
        first_definition(function_census(package, functions, k, census), key)
            == first_definition(census, key),
    decreases k,
{
    if k > 0 {
        lemma_function_census_keeps(package, functions, k - 1, census, key);
        lemma_counted_other_keeps(
            function_census(package, functions, k - 1, census),
            function_key(package, functions[k - 1].0),
            key,
        );
    }
}

/// After the definitions up to the first one of a name were counted, the
/// census holds that one as the first definition of the name; and every
/// later definition of the name is reported as a duplicate of it.
proof fn lemma_definition_census_duplicates(
    resolved: Seq<ResolvedModel>,
    k: int,
    census: Census,
    i: int,
    j: int,
)
    requires
        0 <= i < resolved.len(),
        0 <= k <= resolved.len(),
        first_definition(census, resolved[i].key) is None,
        forall|m: int| 0 <= m < i ==> (#[trigger] resolved[m]).key != resolved[i].key,
        i < j < resolved.len() && resolved[j].key == resolved[i].key,
    ensures
        first_definition(definition_census(resolved, k, census), resolved[i].key) == (if k
            <= i {
            None
        } else {
            Some(resolved[i].location)
        }),
        k > j ==> definition_census(resolved, k, census).errors.contains(
            BuildErrorModel::DuplicateDefinition(
                resolved[i].key,
                resolved[i].location,
                resolved[j].location,
            ),
        ),
    decreases k,
{
    if k > 0 {
        lemma_definition_census_duplicates(resolved, k - 1, census, i, j);
        lemma_counted_definition_keeps(
            definition_census(resolved, k - 1, census),
            resolved[k - 1].key,
            resolved[k - 1].location,
            resolved[i].key,
        );
        if k - 1 < i {
            assert(resolved[k - 1].key != resolved[i].key);
        }
    }
}

/// Checking references keeps every error.
proof fn lemma_missing_names_keep(
    refs: Seq<NameModel>,
    k: int,
    world_names: Seq<Seq<char>>,
    at: LocationModel,
    errors: Seq<BuildErrorModel>,
    e: BuildErrorModel,
)
    requires
        0 <= k <= refs.len(),
        errors.contains(e),
    ensures
        missing_names(refs, k, world_names, at, errors).contains(e),
    decreases k,
{
    if k > 0 {
        lemma_missing_names_keep(refs, k - 1, world_names, at, errors, e);
        let before = missing_names(refs, k - 1, world_names, at, errors);
        let n = choose|n: int| 0 <= n < before.len() && before[n] == e;
        let after = missing_names(refs, k, world_names, at, errors);
        assert(after[n] == e);
    }
}

/// Checking resolved definitions keeps every error.
proof fn lemma_resolution_errors_keep(
    resolved: Seq<ResolvedModel>,
    k: int,
    world_names: Seq<Seq<char>>,
    errors: Seq<BuildErrorModel>,
    e: BuildErrorModel,
)
    requires
        0 <= k <= resolved.len(),
        errors.contains(e),
    ensures
        resolution_errors(resolved, k, world_names, errors).contains(e),
    decreases k,
{
    if k > 0 {
        lemma_resolution_errors_keep(resolved, k - 1, world_names, errors, e);
        let refs = references(resolved[k - 1].ty, Seq::empty());
        lemma_missing_names_keep(
            refs,
            refs.len() as int,
            world_names,
            resolved[k - 1].location,
            resolution_errors(resolved, k - 1, world_names, errors),
            e,
        );
    }
}

/// Two definitions of one name are reported: where the definitions at `i`
/// and at `j`, counted in the order of the units, have the same key, and
/// the one at `i` is the first of that key, the errors of the link hold a
/// duplicate definition of the key with the locations of the two.
pub proof fn law_duplicate_definitions_are_reported<F>(
    units: Seq<UnitModel>,
    packages: Seq<(Seq<Seq<char>>, Seq<(Seq<char>, F)>)>,
    i: int,
    j: int,
)
    requires
        0 <= i < j < resolved_units(units, units.len() as int, Seq::empty()).len(),
        resolved_units(units, units.len() as int, Seq::empty())[i].key == resolved_units(
            units,
            units.len() as int,
            Seq::empty(),
        )[j].key,
        forall|m: int|
            0 <= m < i ==> (#[trigger] resolved_units(units, units.len() as int, Seq::empty())[m]).key
                != resolved_units(units, units.len() as int, Seq::empty())[i].key,
    ensures
        link_errors(units, packages).contains(
            BuildErrorModel::DuplicateDefinition(
                resolved_units(units, units.len() as int, Seq::empty())[i].key,
                resolved_units(units, units.len() as int, Seq::empty())[i].location,
                resolved_units(units, units.len() as int, Seq::empty())[j].location,
            ),
        ),
        link_errors(units, packages).len() > 0,
{
    let resolved = resolved_units(units, units.len() as int, Seq::empty());
    let n = resolved.len() as int;
    let key = resolved[i].key;
    let first = qualification_errors(units, units.len() as int, Seq::empty());
    let start = primordial_census(first);
    let after_functions = package_census(packages, packages.len() as int, start);
    let census = census_of(units, packages);
    let duplicate = BuildErrorModel::DuplicateDefinition(
        key,
        resolved[i].location,
        resolved[j].location,
    );
    assert(first_definition(start, key) is None) by {
        lemma_index_of(keys(start.entries), key);
    }
    lemma_package_census_keeps(packages, packages.len() as int, start, key);
    lemma_definition_census_duplicates(resolved, n, after_functions, i, j);
    lemma_resolution_errors_keep(resolved, n, keys(census.entries), census.errors, duplicate);
}

} // verus!
