use vstd::prelude::*;

use crate::cfg::{
    append_cfgs, cfg_texts, cfgs_decidable, cfgs_enabled, cfgs_hold, cfgs_known, copy_cfgs, dedup_append,
    evaluate_cfgs, texts,
    CfgLookup, ParseAttributeCfg,
};
use crate::data::{
    binds_many, binds_none, binds_one, bound_to, component_bind_result, same_name, spec_matches, BindError, DataArchetype,
    DataWorld, ParseComponentName,
};
use crate::data::enabled_positions;

verus! {

/// How a query reaches component data: through `&mut` access to the world,
/// or through runtime borrows of a shared world.
#[derive(Clone, Copy, Debug, PartialEq, Eq, Structural)]
pub enum FetchMode {
    Mut,
    Borrow,
}

/// The declared type of a query closure parameter.
#[derive(Clone, Debug)]
pub enum ParseQueryParamType {
    /// `CompFoo` or `CompFoo<T>`.
    Component(ParseComponentName),
    /// `Entity<A>`.
    Entity(String),
    /// `Entity<_>`.
    EntityWild,
    /// `EntityAny`.
    EntityAny,
    /// `EntityDirect<A>`.
    EntityDirect(String),
    /// `EntityDirect<_>`.
    EntityDirectWild,
    /// `EntityDirectAny`.
    EntityDirectAny,
    /// `OneOf<CompFoo, CompBar<T>>`.
    OneOf(Vec<ParseComponentName>),
    /// `Option<CompFoo>` (reserved).
    Option(String),
    /// `With<CompFoo>` (reserved).
    With(String),
    /// `Without<CompFoo>` (reserved).
    Without(String),
}

/// A query closure parameter.
#[derive(Clone, Debug)]
pub struct ParseQueryParam {
    pub cfgs: Vec<ParseAttributeCfg>,
    pub name: String,
    pub is_mut: bool,
    pub param_type: ParseQueryParamType,
    /// Set during generation from the `#[cfg]` state of `cfgs`.
    pub is_cfg_enabled: bool,
}

/// A binding failure, with the parameter it happened at and, for a `OneOf`,
/// the alternative.
#[derive(Clone, Debug)]
pub struct QueryBindError {
    pub param: usize,
    pub arg: Option<usize>,
    pub error: BindError,
}

/// Whether the parameter type is one of the reserved, not yet supported ones.
pub open spec fn is_reserved(t: ParseQueryParamType) -> bool {
    t is Option || t is With || t is Without
}

/// Whether a `#[cfg]`-disabled parameter is left out of binding: component,
/// typed entity and `OneOf` parameters are; wildcard entity parameters are not.
pub open spec fn skipped(p: ParseQueryParam) -> bool {
    &&& !p.is_cfg_enabled
    &&& (p.param_type is Component || p.param_type is Entity || p.param_type is EntityDirect
        || p.param_type is OneOf)
}

/// Alternative `i` of a `OneOf` is where binding it first goes wrong: it is
/// ambiguous itself, or it is the second alternative that binds.
pub open spec fn one_of_event(a: DataArchetype, args: Seq<ParseComponentName>, i: int) -> bool {
    ||| binds_many(a, args[i])
    ||| (binds_one(a, args[i]) && exists|j: int| 0 <= j < i && binds_one(a, args[j]))
}

/// Binding the `OneOf` in the archetype fails.
pub open spec fn one_of_error(a: DataArchetype, args: Seq<ParseComponentName>) -> bool {
    exists|i: int| 0 <= i < args.len() && one_of_event(a, args, i)
}

/// Binding the `OneOf` in the archetype finds exactly one alternative.
pub open spec fn one_of_binds(a: DataArchetype, args: Seq<ParseComponentName>) -> bool {
    &&& !one_of_error(a, args)
    &&& exists|i: int| 0 <= i < args.len() && binds_one(a, args[i])
}

/// The `OneOf` binds to the component `p`, which one of its alternatives matches.
pub open spec fn one_of_bound_to(a: DataArchetype, args: Seq<ParseComponentName>, p: ParseComponentName) -> bool {
    exists|i: int| 0 <= i < args.len() && binds_one(a, args[i]) && bound_to(a, args[i], p)
}


/// The error of binding a `OneOf` is reported at the first alternative where
/// binding goes wrong: as that alternative's own ambiguity, or as a second
/// binding alternative, naming the first.
pub open spec fn one_of_error_detail(a: DataArchetype, args: Seq<ParseComponentName>, i: int, e: BindError) -> bool {
    &&& 0 <= i < args.len()
    &&& one_of_event(a, args, i)
    &&& forall|k: int| 0 <= k < i ==> !one_of_event(a, args, k)
    &&& binds_many(a, args[i]) ==> component_bind_result(a, args[i], Err(e))
    &&& !binds_many(a, args[i]) ==> (e matches BindError::AmbiguousOneOf { archetype: an, name, found }
        && an == a.name && name == args[i] && exists|j: int| 0 <= j < i && binds_one(a, args[j]) && bound_to(a, args[j], found))
}

/// Finds the one alternative of a `OneOf` that the archetype has. Fails when
/// an alternative is ambiguous, or when two alternatives bind.
pub fn bind_one_of(archetype: &DataArchetype, one_of_args: &Vec<ParseComponentName>) -> (r: Result<
    Option<ParseQueryParamType>,
    (usize, BindError),
>)
    requires
        archetype.no_placeholders(),
    ensures
        r is Err <==> one_of_error(*archetype, one_of_args@),
        r matches Ok(None) <==> forall|i: int| 0 <= i < one_of_args@.len() ==> binds_none(*archetype, #[trigger] one_of_args@[i]),
        r matches Ok(Some(t)) ==> one_of_binds(*archetype, one_of_args@) && (t matches ParseQueryParamType::Component(p) && one_of_bound_to(*archetype, one_of_args@, p)),
        r matches Err(e) ==> one_of_error_detail(*archetype, one_of_args@, e.0 as int, e.1),
{
    let mut found: Option<ParseComponentName> = None;
    let ghost mut found_at: int = 0;
    let n = one_of_args.len();
    let mut i: usize = 0;
    while i < n
        invariant
            n == one_of_args@.len(),
            i <= n,
            archetype.no_placeholders(),
            forall|k: int| 0 <= k < i ==> !one_of_event(*archetype, one_of_args@, k),
            found is None ==> forall|k: int| 0 <= k < i ==> binds_none(*archetype, #[trigger] one_of_args@[k]),
            found matches Some(p) ==> 0 <= found_at < i && binds_one(*archetype, one_of_args@[found_at]) && bound_to(*archetype, one_of_args@[found_at], p)
                && forall|k: int| 0 <= k < i && k != found_at ==> binds_none(*archetype, #[trigger] one_of_args@[k]),
        decreases n - i,
    {
        let name = &one_of_args[i];
        match archetype.try_bind_component(name) {
            Err(e) => {
                proof {
                    assert(binds_many(*archetype, one_of_args@[i as int]));
                    assert(one_of_event(*archetype, one_of_args@, i as int));
                    let (j, k) = choose|j: int, k: int| 0 <= j < k < archetype.components@.len() && archetype.matches_at(one_of_args@[i as int], j) && archetype.matches_at(one_of_args@[i as int], k);
                    assert(!binds_none(*archetype, one_of_args@[i as int]));
                }
                return Err((i, e));
            },
            Ok(Some(bound)) => {
                if let Some(first) = found {
                    proof {
                        assert(binds_one(*archetype, one_of_args@[found_at]));
                        assert(binds_one(*archetype, one_of_args@[i as int]));
                        assert(one_of_event(*archetype, one_of_args@, i as int));
                        assert(!binds_many(*archetype, one_of_args@[i as int]));
                    }
                    return Err(
                        (
                            i,
                            BindError::AmbiguousOneOf {
                                archetype: archetype.name.clone(),
                                name: name.copied(),
                                found: first,
                            },
                        ),
                    );
                }
                found = Some(bound);
                proof {
                    found_at = i as int;
                    assert forall|k: int| 0 <= k < i implies !one_of_event(*archetype, one_of_args@, k) by {}
                }
            },
            Ok(None) => {},
        }
        proof {
            assert(!one_of_event(*archetype, one_of_args@, i as int));
        }
        i = i + 1;
    }
    proof {
        assert(!one_of_error(*archetype, one_of_args@));
    }
    match found {
        Some(p) => Ok(Some(ParseQueryParamType::Component(p))),
        None => Ok(None),
    }
}


/// A copy of a list of component names.
fn copy_names(names: &Vec<ParseComponentName>) -> (r: Vec<ParseComponentName>)
    ensures
        r@ == names@,
{
    let mut r: Vec<ParseComponentName> = Vec::new();
    let n = names.len();
    let mut i: usize = 0;
    while i < n
        invariant
            n == names@.len(),
            i <= n,
            r@ == names@.take(i as int),
        decreases n - i,
    {
        r.push(names[i].copied());
        proof {
            assert(names@.take(i + 1) =~= names@.take(i as int).push(names@[i as int]));
        }
        i = i + 1;
    }
    proof {
        assert(names@.take(n as int) =~= names@);
    }
    r
}

/// A parameter type as a value, with the `OneOf` alternatives as a sequence.
pub enum ParamTypeModel {
    Component(ParseComponentName),
    Entity(String),
    EntityWild,
    EntityAny,
    EntityDirect(String),
    EntityDirectWild,
    EntityDirectAny,
    OneOf(Seq<ParseComponentName>),
    Option(String),
    With(String),
    Without(String),
}

impl ParseQueryParamType {
    /// This type as a value.
    pub open spec fn model(&self) -> ParamTypeModel {
        match self {
            ParseQueryParamType::Component(n) => ParamTypeModel::Component(*n),
            ParseQueryParamType::Entity(a) => ParamTypeModel::Entity(*a),
            ParseQueryParamType::EntityWild => ParamTypeModel::EntityWild,
            ParseQueryParamType::EntityAny => ParamTypeModel::EntityAny,
            ParseQueryParamType::EntityDirect(a) => ParamTypeModel::EntityDirect(*a),
            ParseQueryParamType::EntityDirectWild => ParamTypeModel::EntityDirectWild,
            ParseQueryParamType::EntityDirectAny => ParamTypeModel::EntityDirectAny,
            ParseQueryParamType::OneOf(args) => ParamTypeModel::OneOf(args@),
            ParseQueryParamType::Option(a) => ParamTypeModel::Option(*a),
            ParseQueryParamType::With(a) => ParamTypeModel::With(*a),
            ParseQueryParamType::Without(a) => ParamTypeModel::Without(*a),
        }
    }

    /// A copy of this parameter type.
    pub fn copied(&self) -> (r: Self)
        ensures
            r.model() == self.model(),
    {
        match self {
            ParseQueryParamType::Component(n) => ParseQueryParamType::Component(n.copied()),
            ParseQueryParamType::Entity(a) => ParseQueryParamType::Entity(a.clone()),
            ParseQueryParamType::EntityWild => ParseQueryParamType::EntityWild,
            ParseQueryParamType::EntityAny => ParseQueryParamType::EntityAny,
            ParseQueryParamType::EntityDirect(a) => ParseQueryParamType::EntityDirect(a.clone()),
            ParseQueryParamType::EntityDirectWild => ParseQueryParamType::EntityDirectWild,
            ParseQueryParamType::EntityDirectAny => ParseQueryParamType::EntityDirectAny,
            ParseQueryParamType::OneOf(args) => {
                let copied = copy_names(args);
                proof {
                    assert(copied@ =~= args@);
                }
                ParseQueryParamType::OneOf(copied)
            },
            ParseQueryParamType::Option(a) => ParseQueryParamType::Option(a.clone()),
            ParseQueryParamType::With(a) => ParseQueryParamType::With(a.clone()),
            ParseQueryParamType::Without(a) => ParseQueryParamType::Without(a.clone()),
        }
    }
}

impl ParseQueryParam {
    /// Two parameters agree in every part.
    pub open spec fn same_as(&self, other: ParseQueryParam) -> bool {
        &&& self.cfgs@ == other.cfgs@
        &&& self.name == other.name
        &&& self.is_mut == other.is_mut
        &&& self.param_type.model() == other.param_type.model()
        &&& self.is_cfg_enabled == other.is_cfg_enabled
    }

    /// A copy of this parameter.
    pub fn copied(&self) -> (r: Self)
        ensures
            r.same_as(*self),
    {
        let cfgs = copy_cfgs(&self.cfgs);
        ParseQueryParam {
            cfgs,
            name: self.name.clone(),
            is_mut: self.is_mut,
            param_type: self.param_type.copied(),
            is_cfg_enabled: self.is_cfg_enabled,
        }
    }
}


/// Binding the parameter in the archetype fails.
pub open spec fn param_error(a: DataArchetype, p: ParseQueryParam) -> bool {
    &&& !skipped(p)
    &&& match p.param_type {
        ParseQueryParamType::Component(n) => binds_many(a, n),
        ParseQueryParamType::OneOf(args) => one_of_error(a, args@),
        _ => false,
    }
}

/// The parameter fits the archetype.
pub open spec fn param_matches(a: DataArchetype, p: ParseQueryParam) -> bool {
    match p.param_type {
        ParseQueryParamType::Component(n) => binds_one(a, n),
        ParseQueryParamType::Entity(n) => a.name@ == n@,
        ParseQueryParamType::EntityDirect(n) => a.name@ == n@,
        ParseQueryParamType::EntityWild => true,
        ParseQueryParamType::EntityAny => true,
        ParseQueryParamType::EntityDirectWild => true,
        ParseQueryParamType::EntityDirectAny => true,
        ParseQueryParamType::OneOf(args) => one_of_binds(a, args@),
        _ => false,
    }
}

/// The parameter is skipped or fits the archetype.
pub open spec fn param_passes(a: DataArchetype, p: ParseQueryParam) -> bool {
    skipped(p) || param_matches(a, p)
}

/// Binding reaches a failing parameter in the archetype: every parameter
/// before it passes.
pub open spec fn reached_error(a: DataArchetype, params: Seq<ParseQueryParam>) -> bool {
    exists|i: int| 0 <= i < params.len() && #[trigger] param_error(a, params[i]) && forall|j: int| 0 <= j < i ==> param_passes(a, params[j])
}

/// The query matches the archetype: every parameter passes.
pub open spec fn archetype_matches(a: DataArchetype, params: Seq<ParseQueryParam>) -> bool {
    forall|i: int| 0 <= i < params.len() ==> #[trigger] param_passes(a, params[i])
}

/// `b` is the parameter `p` bound in the archetype: component and `OneOf`
/// types become the matching component, everything else is kept.
pub open spec fn binds_param(a: DataArchetype, p: ParseQueryParam, b: ParseQueryParam) -> bool {
    &&& b.cfgs@ == p.cfgs@
    &&& b.name == p.name
    &&& b.is_mut == p.is_mut
    &&& b.is_cfg_enabled == p.is_cfg_enabled
    &&& match p.param_type {
        ParseQueryParamType::Component(n) => b.param_type matches ParseQueryParamType::Component(q) && bound_to(a, n, q),
        ParseQueryParamType::OneOf(args) => b.param_type matches ParseQueryParamType::Component(q) && one_of_bound_to(a, args@, q),
        _ => b.param_type.model() == p.param_type.model(),
    }
}

/// Which parameters take part in binding.
pub open spec fn kept_flags(params: Seq<ParseQueryParam>) -> Seq<bool> {
    params.map_values(|p: ParseQueryParam| !skipped(p))
}

/// `b` binds the parameters that are not skipped, in order.
pub open spec fn binding_of(a: DataArchetype, params: Seq<ParseQueryParam>, b: Seq<ParseQueryParam>) -> bool {
    let pos = enabled_positions(kept_flags(params));
    &&& b.len() == pos.len()
    &&& forall|k: int| 0 <= k < b.len() ==> binds_param(a, params[pos[k]], #[trigger] b[k])
}

/// The error reported for the failing parameter `p` at position `i`.
pub open spec fn param_error_detail(a: DataArchetype, p: ParseQueryParam, e: QueryBindError) -> bool {
    match p.param_type {
        ParseQueryParamType::Component(n) => e.arg is None && component_bind_result(a, n, Err(e.error)),
        ParseQueryParamType::OneOf(args) => e.arg matches Some(j) && one_of_error_detail(a, args@, j as int, e.error),
        _ => false,
    }
}

/// The failure of binding `params` in the archetype is reported as `e`: at
/// the first failing parameter, every parameter before it passing.
pub open spec fn archetype_error(a: DataArchetype, params: Seq<ParseQueryParam>, e: QueryBindError) -> bool {
    &&& 0 <= e.param < params.len()
    &&& param_error(a, params[e.param as int])
    &&& forall|j: int| 0 <= j < e.param ==> param_passes(a, params[j])
    &&& param_error_detail(a, params[e.param as int], e)
}

/// A parameter that names an archetype, `Entity<A>` or `EntityDirect<A>`,
/// and is not `#[cfg]`-disabled, lets the query match only the archetype
/// named `A`.
pub proof fn lemma_named_handle_matches_only_its_archetype(a: DataArchetype, params: Seq<ParseQueryParam>, i: int)
    requires
        0 <= i < params.len(),
        params[i].is_cfg_enabled,
        (params[i].param_type matches ParseQueryParamType::Entity(n) && a.name@ != n@) || (
        params[i].param_type matches ParseQueryParamType::EntityDirect(n) && a.name@ != n@),
    ensures
        !archetype_matches(a, params),
{
    assert(!param_passes(a, params[i]));
}

/// Wildcard and untyped handle parameters (`Entity<_>`, `EntityAny`,
/// `EntityDirect<_>`, `EntityDirectAny`) and `#[cfg]`-disabled parameters
/// never decide whether the query matches an archetype: leaving one out
/// changes nothing.
pub proof fn lemma_unconstrained_params_ignored(a: DataArchetype, params: Seq<ParseQueryParam>, i: int)
    requires
        0 <= i < params.len(),
        !is_reserved(params[i].param_type),
        !params[i].is_cfg_enabled || params[i].param_type is EntityWild || params[i].param_type is EntityAny
            || params[i].param_type is EntityDirectWild || params[i].param_type is EntityDirectAny,
    ensures
        archetype_matches(a, params) == archetype_matches(a, params.remove(i)),
{
    let rest = params.remove(i);
    assert(param_passes(a, params[i]));
    if archetype_matches(a, rest) {
        assert forall|j: int| 0 <= j < params.len() implies #[trigger] param_passes(a, params[j]) by {
            if j < i {
                assert(params[j] == rest[j]);
            } else if j > i {
                assert(params[j] == rest[j - 1]);
            }
        }
    }
    if archetype_matches(a, params) {
        assert forall|j: int| 0 <= j < rest.len() implies #[trigger] param_passes(a, rest[j]) by {
            if j < i {
                assert(params[j] == rest[j]);
            } else {
                assert(params[j + 1] == rest[j]);
            }
        }
    }
}

/// A component parameter that is not `#[cfg]`-disabled lets the query match
/// only an archetype in which exactly one component matches its name.
pub proof fn lemma_component_param_needs_one_match(a: DataArchetype, params: Seq<ParseQueryParam>, i: int)
    requires
        0 <= i < params.len(),
        params[i].is_cfg_enabled,
        params[i].param_type is Component,
        archetype_matches(a, params),
    ensures
        exists|k: int|
            0 <= k < a.components@.len() && spec_matches(a.components@[k].name, params[i].param_type->Component_0)
                && forall|j: int|
                0 <= j < a.components@.len() && j != k ==> !spec_matches(
                    a.components@[j].name,
                    params[i].param_type->Component_0,
                ),
{
    let n = params[i].param_type->Component_0;
    assert(param_passes(a, params[i]));
    assert(binds_one(a, n));
    let k = choose|k: int| 0 <= k < a.components@.len() && a.matches_at(n, k);
    assert forall|j: int| 0 <= j < a.components@.len() && j != k implies !spec_matches(a.components@[j].name, n) by {
        if spec_matches(a.components@[j].name, n) {
            assert(a.matches_at(n, j));
            if j < k {
                assert(binds_many(a, n));
            } else {
                assert(binds_many(a, n));
            }
        }
    }
}

/// A `OneOf` parameter that is not `#[cfg]`-disabled lets the query match
/// only an archetype in which exactly one of its alternatives is present,
/// as exactly one component, and no other alternative matches any
/// component.
pub proof fn lemma_one_of_param_needs_one_alternative(a: DataArchetype, params: Seq<ParseQueryParam>, i: int)
    requires
        0 <= i < params.len(),
        params[i].is_cfg_enabled,
        params[i].param_type is OneOf,
        archetype_matches(a, params),
    ensures
        ({
            let args = params[i].param_type->OneOf_0@;
            exists|x: int|
                #![trigger args[x]]
                0 <= x < args.len() && (exists|k: int|
                    0 <= k < a.components@.len() && spec_matches(a.components@[k].name, args[x]) && forall|j: int|
                        0 <= j < a.components@.len() && j != k ==> !spec_matches(a.components@[j].name, args[x]))
                    && forall|y: int, j: int|
                    0 <= y < args.len() && y != x && 0 <= j < a.components@.len() ==> !spec_matches(
                        a.components@[j].name,
                        args[y],
                    )
        }),
{
    let args = params[i].param_type->OneOf_0@;
    assert(param_passes(a, params[i]));
    assert(one_of_binds(a, args));
    let x = choose|x: int| 0 <= x < args.len() && binds_one(a, args[x]);
    let k = choose|k: int| 0 <= k < a.components@.len() && a.matches_at(args[x], k);
    assert forall|j: int| 0 <= j < a.components@.len() && j != k implies !spec_matches(a.components@[j].name, args[x]) by {
        if spec_matches(a.components@[j].name, args[x]) {
            assert(a.matches_at(args[x], j));
            if j < k {
                assert(binds_many(a, args[x]));
            } else {
                assert(binds_many(a, args[x]));
            }
        }
    }
    assert forall|y: int, j: int|
        0 <= y < args.len() && y != x && 0 <= j < a.components@.len() implies !spec_matches(
        a.components@[j].name,
        args[y],
    ) by {
        if spec_matches(a.components@[j].name, args[y]) {
            assert(a.matches_at(args[y], j));
            assert(!binds_none(a, args[y]));
            if binds_many(a, args[y]) {
                assert(one_of_event(a, args, y));
            } else {
                assert(binds_one(a, args[y]));
                if y < x {
                    assert(one_of_event(a, args, x));
                } else {
                    assert(one_of_event(a, args, y));
                }
            }
            assert(one_of_error(a, args));
        }
    }
}

/// In the binding of a matching archetype, each parameter that takes part
/// keeps its name, mutability and `#[cfg]`s; a component parameter is bound
/// to the archetype's own component that its name matches (that
/// component's name and generic argument, with no placeholder left); a
/// handle parameter keeps its type.
pub proof fn lemma_binding_names_the_component(
    a: DataArchetype,
    params: Seq<ParseQueryParam>,
    b: Seq<ParseQueryParam>,
    k: int,
)
    requires
        binding_of(a, params, b),
        0 <= k < b.len(),
    ensures
        ({
            let p = params[enabled_positions(kept_flags(params))[k]];
            &&& b[k].name == p.name
            &&& b[k].is_mut == p.is_mut
            &&& b[k].cfgs@ == p.cfgs@
            &&& (p.param_type matches ParseQueryParamType::Component(n) ==> (b[k].param_type matches ParseQueryParamType::Component(q)
                && exists|j: int|
                0 <= j < a.components@.len() && spec_matches(a.components@[j].name, n) && q.name@
                    == a.components@[j].name.name@ && q.generic_model() == a.components@[j].name.generic_model()))
            &&& (p.param_type matches ParseQueryParamType::OneOf(args) ==> (b[k].param_type matches ParseQueryParamType::Component(q)
                && exists|x: int, j: int|
                0 <= x < args@.len() && 0 <= j < a.components@.len() && spec_matches(a.components@[j].name, args@[x])
                    && q.name@ == a.components@[j].name.name@ && q.generic_model()
                    == a.components@[j].name.generic_model()))
            &&& (!(p.param_type is Component) && !(p.param_type is OneOf) ==> b[k].param_type.model()
                == p.param_type.model())
        }),
{
    let p = params[enabled_positions(kept_flags(params))[k]];
    assert(binds_param(a, p, b[k]));
    if let ParseQueryParamType::OneOf(args) = p.param_type {
        let q = b[k].param_type->Component_0;
        let x = choose|x: int| 0 <= x < args@.len() && binds_one(a, args@[x]) && bound_to(a, args@[x], q);
        let j = choose|j: int| 0 <= j < a.components@.len() && a.matches_at(args@[x], j) && same_name(a.components@[j].name, q);
        assert(spec_matches(a.components@[j].name, args@[x]));
    }
}

/// Whether no parameter uses a reserved type.
pub open spec fn none_reserved(params: Seq<ParseQueryParam>) -> bool {
    forall|i: int| 0 <= i < params.len() ==> !is_reserved(#[trigger] params[i].param_type)
}

/// Binds the query parameters to one archetype: `None` when the query does
/// not match it, otherwise each kept parameter with its component bound.
fn bind_archetype(archetype: &DataArchetype, params: &Vec<ParseQueryParam>) -> (r: Result<
    Option<Vec<ParseQueryParam>>,
    QueryBindError,
>)
    requires
        archetype.no_placeholders(),
        none_reserved(params@),
    ensures
        r is Err <==> reached_error(*archetype, params@),
        r matches Ok(None) <==> !reached_error(*archetype, params@) && !archetype_matches(*archetype, params@),
        r matches Ok(Some(b)) ==> archetype_matches(*archetype, params@) && binding_of(*archetype, params@, b@),
        r matches Err(e) ==> archetype_error(*archetype, params@, e),
{
    let mut binding: Vec<ParseQueryParam> = Vec::new();
    let n = params.len();
    let mut i: usize = 0;
    while i < n
        invariant
            n == params@.len(),
            i <= n,
            archetype.no_placeholders(),
            none_reserved(params@),
            forall|j: int| 0 <= j < i ==> param_passes(*archetype, #[trigger] params@[j]),
            binding_of(*archetype, params@.take(i as int), binding@),
        decreases n - i,
    {
        let p = &params[i];
        let ghost pre = params@.take(i as int);
        let ghost pre1 = params@.take(i + 1);
        let ghost old_binding = binding@;
        proof {
            assert(pre1.drop_last() =~= pre);
            assert(kept_flags(pre1).drop_last() =~= kept_flags(pre));
            assert(kept_flags(pre1).last() == !skipped(*p));
            crate::data::lemma_enabled_positions(kept_flags(pre));
            assert forall|k: int| 0 <= k < enabled_positions(kept_flags(pre)).len() implies #[trigger] pre1[enabled_positions(kept_flags(pre))[k]] == pre[enabled_positions(kept_flags(pre))[k]] by {}
            assert(!is_reserved(params@[i as int].param_type));
        }
        let mut no_match = false;
        let mut pushed = false;
        match &p.param_type {
            ParseQueryParamType::Component(name) => {
                if p.is_cfg_enabled {
                    match archetype.try_bind_component(name) {
                        Err(e) => {
                            let err = QueryBindError { param: i, arg: None, error: e };
                            proof {
                                assert(param_error(*archetype, params@[i as int]));
                                assert(archetype_error(*archetype, params@, err));
                            }
                            return Err(err);
                        },
                        Ok(Some(bound)) => {
                            binding.push(ParseQueryParam {
                                cfgs: copy_cfgs(&p.cfgs),
                                name: p.name.clone(),
                                is_mut: p.is_mut,
                                param_type: ParseQueryParamType::Component(bound),
                                is_cfg_enabled: p.is_cfg_enabled,
                            });
                            pushed = true;
                        },
                        Ok(None) => {
                            no_match = true;
                        },
                    }
                }
            },
            ParseQueryParamType::Entity(name) => {
                if p.is_cfg_enabled {
                    if archetype.name == *name {
                        binding.push(p.copied());
                        pushed = true;
                    } else {
                        no_match = true;
                    }
                }
            },
            ParseQueryParamType::EntityDirect(name) => {
                if p.is_cfg_enabled {
                    if archetype.name == *name {
                        binding.push(p.copied());
                        pushed = true;
                    } else {
                        no_match = true;
                    }
                }
            },
            ParseQueryParamType::OneOf(args) => {
                if p.is_cfg_enabled {
                    match bind_one_of(archetype, args) {
                        Err((j, e)) => {
                            let err = QueryBindError { param: i, arg: Some(j), error: e };
                            proof {
                                assert(param_error(*archetype, params@[i as int]));
                                assert(archetype_error(*archetype, params@, err));
                            }
                            return Err(err);
                        },
                        Ok(Some(found)) => {
                            binding.push(ParseQueryParam {
                                cfgs: copy_cfgs(&p.cfgs),
                                name: p.name.clone(),
                                is_mut: p.is_mut,
                                param_type: found,
                                is_cfg_enabled: p.is_cfg_enabled,
                            });
                            pushed = true;
                        },
                        Ok(None) => {
                            no_match = true;
                        },
                    }
                }
            },
            _ => {
                // Wildcard and untyped entity parameters always match.
                binding.push(p.copied());
                pushed = true;
            },
        }
        if no_match {
            proof {
                assert(!param_passes(*archetype, params@[i as int]));
                assert(!param_error(*archetype, params@[i as int]));
                assert(!reached_error(*archetype, params@)) by {
                    if reached_error(*archetype, params@) {
                        let w = choose|w: int| 0 <= w < params@.len() && #[trigger] param_error(*archetype, params@[w]) && forall|j: int| 0 <= j < w ==> param_passes(*archetype, params@[j]);
                        if w > i {
                            assert(param_passes(*archetype, params@[i as int]));
                        }
                    }
                }
            }
            return Ok(None);
        }
        proof {
            assert(param_passes(*archetype, params@[i as int]));
            let pos = enabled_positions(kept_flags(pre));
            let pos1 = enabled_positions(kept_flags(pre1));
            if pushed {
                assert(pos1 == pos.push(i as int));
                assert forall|k: int| 0 <= k < binding@.len() implies binds_param(*archetype, pre1[pos1[k]], #[trigger] binding@[k]) by {
                    if k < old_binding.len() {
                        assert(binding@[k] == old_binding[k]);
                    }
                }
            } else {
                assert(pos1 == pos);
                assert forall|k: int| 0 <= k < binding@.len() implies binds_param(*archetype, pre1[pos1[k]], #[trigger] binding@[k]) by {
                    assert(binding@[k] == old_binding[k]);
                }
            }
        }
        i = i + 1;
    }
    proof {
        assert(params@.take(n as int) =~= params@);
        assert(!reached_error(*archetype, params@)) by {
            if reached_error(*archetype, params@) {
                let w = choose|w: int| 0 <= w < params@.len() && #[trigger] param_error(*archetype, params@[w]) && forall|j: int| 0 <= j < w ==> param_passes(*archetype, params@[j]);
                assert(param_passes(*archetype, params@[w]));
            }
        }
    }
    Ok(Some(binding))
}


/// Whether no archetype of the world records a placeholder component name.
pub open spec fn world_no_placeholders(w: DataWorld) -> bool {
    forall|k: int| 0 <= k < w.archetypes@.len() ==> (#[trigger] w.archetypes@[k]).no_placeholders()
}

/// Binds the query parameters to every archetype of the world, in order:
/// entry `k` is `None` when the query does not match archetype `k`, and
/// otherwise holds the bound parameters. Stops at the first archetype where
/// binding fails.
pub fn bind_query_params(world_data: &DataWorld, params: &Vec<ParseQueryParam>) -> (r: Result<
    Vec<Option<Vec<ParseQueryParam>>>,
    QueryBindError,
>)
    requires
        world_no_placeholders(*world_data),
        none_reserved(params@),
    ensures
        r is Ok <==> forall|k: int|
            0 <= k < world_data.archetypes@.len() ==> !reached_error(#[trigger] world_data.archetypes@[k], params@),
        r matches Ok(v) ==> {
            &&& v@.len() == world_data.archetypes@.len()
            &&& forall|k: int|
                0 <= k < v@.len() ==> {
                    &&& ((#[trigger] v@[k]) is Some <==> archetype_matches(world_data.archetypes@[k], params@))
                    &&& (v@[k] matches Some(b) ==> binding_of(world_data.archetypes@[k], params@, b@))
                }
        },
        r matches Err(e) ==> exists|k: int|
            0 <= k < world_data.archetypes@.len() && archetype_error(world_data.archetypes@[k], params@, e)
                && forall|j: int| 0 <= j < k ==> !reached_error(#[trigger] world_data.archetypes@[j], params@),
        r matches Ok(v) ==> forall|k: int, i: int|
            #![trigger v@[k], params@[i]]
            0 <= k < v@.len() && 0 <= i < params@.len() && params@[i].is_cfg_enabled && ((
            params@[i].param_type matches ParseQueryParamType::Entity(n) && world_data.archetypes@[k].name@ != n@) || (
            params@[i].param_type matches ParseQueryParamType::EntityDirect(n) && world_data.archetypes@[k].name@
                != n@)) ==> v@[k] is None,
{
    let mut result: Vec<Option<Vec<ParseQueryParam>>> = Vec::new();
    let n = world_data.archetypes.len();
    let mut k: usize = 0;
    while k < n
        invariant
            n == world_data.archetypes@.len(),
            k <= n,
            world_no_placeholders(*world_data),
            none_reserved(params@),
            result@.len() == k,
            forall|j: int| 0 <= j < k ==> !reached_error(#[trigger] world_data.archetypes@[j], params@),
            forall|j: int|
                0 <= j < k ==> {
                    &&& ((#[trigger] result@[j]) is Some <==> archetype_matches(world_data.archetypes@[j], params@))
                    &&& (result@[j] matches Some(b) ==> binding_of(world_data.archetypes@[j], params@, b@))
                },
        decreases n - k,
    {
        proof {
            assert(world_data.archetypes@[k as int].no_placeholders());
        }
        match bind_archetype(&world_data.archetypes[k], params) {
            Err(e) => {
                return Err(e);
            },
            Ok(b) => {
                result.push(b);
            },
        }
        k = k + 1;
    }
    proof {
        assert forall|k: int, i: int|
            #![trigger result@[k], params@[i]]
            0 <= k < result@.len() && 0 <= i < params@.len() && params@[i].is_cfg_enabled && ((
            params@[i].param_type matches ParseQueryParamType::Entity(n) && world_data.archetypes@[k].name@ != n@) || (
            params@[i].param_type matches ParseQueryParamType::EntityDirect(n) && world_data.archetypes@[k].name@
                != n@)) implies result@[k] is None by {
            lemma_named_handle_matches_only_its_archetype(world_data.archetypes@[k], params@, i);
        }
    }
    Ok(result)
}


/// Whether every `#[cfg]` predicate on the parameter is enabled. Every
/// predicate it looks up must be known.
pub fn is_cfg_enabled(param: &ParseQueryParam, cfg_lookup: &CfgLookup) -> (r: bool)
    requires
        cfg_lookup.wf(),
        cfgs_decidable(cfg_lookup@, param.cfgs@),
    ensures
        r == cfgs_hold(cfg_lookup@, param.cfgs@),
        cfgs_known(cfg_lookup@, param.cfgs@) ==> r == cfgs_enabled(cfg_lookup@, param.cfgs@),
{
    evaluate_cfgs(cfg_lookup, &param.cfgs)
}

/// Records on every parameter whether its `#[cfg]` predicates are enabled.
pub fn apply_cfg_states(params: &mut Vec<ParseQueryParam>, cfg_lookup: &CfgLookup)
    requires
        cfg_lookup.wf(),
        forall|i: int| 0 <= i < old(params)@.len() ==> cfgs_decidable(cfg_lookup@, #[trigger] old(params)@[i].cfgs@),
    ensures
        final(params)@.len() == old(params)@.len(),
        forall|i: int|
            0 <= i < final(params)@.len() ==> {
                let p = #[trigger] final(params)@[i];
                let o = old(params)@[i];
                &&& p.cfgs@ == o.cfgs@
                &&& p.name == o.name
                &&& p.is_mut == o.is_mut
                &&& p.param_type.model() == o.param_type.model()
                &&& p.is_cfg_enabled == cfgs_hold(cfg_lookup@, o.cfgs@)
            },
{
    let n = params.len();
    let mut i: usize = 0;
    while i < n
        invariant
            n == params@.len(),
            n == old(params)@.len(),
            i <= n,
            cfg_lookup.wf(),
            forall|j: int| 0 <= j < n ==> cfgs_decidable(cfg_lookup@, #[trigger] old(params)@[j].cfgs@),
            forall|j: int| i <= j < n ==> #[trigger] params@[j] == old(params)@[j],
            forall|j: int|
                0 <= j < i ==> {
                    let p = #[trigger] params@[j];
                    let o = old(params)@[j];
                    &&& p.cfgs@ == o.cfgs@
                    &&& p.name == o.name
                    &&& p.is_mut == o.is_mut
                    &&& p.param_type.model() == o.param_type.model()
                    &&& p.is_cfg_enabled == cfgs_hold(cfg_lookup@, o.cfgs@)
                },
        decreases n - i,
    {
        let mut param = params[i].copied();
        proof {
            assert(params@[i as int] == old(params)@[i as int]);
        }
        param.is_cfg_enabled = is_cfg_enabled(&param, cfg_lookup);
        params.set(i, param);
        i = i + 1;
    }
}

/// Whether the query matched at least one archetype.
pub fn matched_any(bound: &Vec<Option<Vec<ParseQueryParam>>>) -> (r: bool)
    ensures
        r == exists|k: int| 0 <= k < bound@.len() && (#[trigger] bound@[k]) is Some,
{
    let n = bound.len();
    let mut k: usize = 0;
    while k < n
        invariant
            n == bound@.len(),
            k <= n,
            forall|j: int| 0 <= j < k ==> (#[trigger] bound@[j]) is None,
        decreases n - k,
    {
        if bound[k].is_some() {
            return true;
        }
        k = k + 1;
    }
    false
}


/// The `#[cfg]` predicate texts of the parameters, in order.
pub open spec fn param_cfg_texts(params: Seq<ParseQueryParam>) -> Seq<Seq<char>>
    decreases params.len(),
{
    if params.len() == 0 {
        Seq::empty()
    } else {
        param_cfg_texts(params.drop_last()) + cfg_texts(params.last().cfgs@)
    }
}

/// Every distinct `#[cfg]` predicate of the parameters, in order of first
/// occurrence.
pub fn get_cfg_predicates(params: &Vec<ParseQueryParam>) -> (r: Vec<String>)
    ensures
        texts(r@) == dedup_append(Seq::empty(), param_cfg_texts(params@)),
{
    let mut result: Vec<String> = Vec::new();
    let n = params.len();
    let mut i: usize = 0;
    proof {
        assert(texts(result@) =~= Seq::<Seq<char>>::empty());
    }
    while i < n
        invariant
            n == params@.len(),
            i <= n,
            texts(result@) == dedup_append(Seq::empty(), param_cfg_texts(params@.take(i as int))),
        decreases n - i,
    {
        proof {
            assert(params@.take(i + 1).drop_last() =~= params@.take(i as int));
            crate::cfg::lemma_dedup_append_concat(
                Seq::empty(),
                param_cfg_texts(params@.take(i as int)),
                cfg_texts(params@[i as int].cfgs@),
            );
        }
        append_cfgs(&mut result, &params[i].cfgs);
        i = i + 1;
    }
    proof {
        assert(params@.take(n as int) =~= params@);
    }
    result
}

} // verus!
