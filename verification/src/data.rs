use vstd::prelude::*;

use std::collections::HashMap;

use crate::cfg::{
    append_cfgs, cfg_texts, cfgs_decidable, cfgs_hold, dedup_append, evaluate_cfgs, lemma_dedup_append_concat,
    texts, CfgLookup, ParseAttributeCfg, ParseCfgDecorated,
};
use crate::ids::{
    advance_attribute_id, assigned_ids, id_error_matches, id_ok, ids_ok, lemma_assigned_len,
    lemma_assigned_prefix, lemma_assigned_push, lemma_ids_ok_prefix, spec_next_id, IdError,
};
use crate::names::{spec_pascal_to_snake, strip_brackets, to_snake};

verus! {

/// The generic argument of a component name as written in a query or world.
#[derive(Clone, Debug)]
pub enum ParseComponentGeneric {
    /// `Component<_>`: matches any generic argument.
    Placeholder,
    /// `Component<T>`.
    Ident(String),
    /// `Component<3>`.
    LitInt(String),
}

/// A component type name, possibly with one generic argument.
#[derive(Clone, Debug)]
pub struct ParseComponentName {
    pub name: String,
    pub generic: Option<ParseComponentGeneric>,
}

/// The generic argument of a component name as recorded in world data.
#[derive(Clone, Debug)]
pub enum DataComponentGeneric {
    Placeholder,
    Ident(String),
    LitInt(String),
}

/// A component name as recorded in world data.
#[derive(Clone, Debug)]
pub struct DataComponentName {
    pub name: String,
    pub generic: Option<DataComponentGeneric>,
}

/// A component of an archetype, with its compile-time component ID.
#[derive(Clone, Debug)]
pub struct DataComponent {
    pub id: u8,
    pub name: DataComponentName,
}

/// An archetype of a world, with its archetype ID and components.
#[derive(Clone, Debug)]
pub struct DataArchetype {
    pub id: u8,
    pub name: String,
    pub components: Vec<DataComponent>,
}

/// The full structure of an ECS world, after `#[cfg]` evaluation and ID
/// assignment. Queries read it back to know which archetypes they match.
#[derive(Clone, Debug)]
pub struct DataWorld {
    pub name: String,
    pub archetypes: Vec<DataArchetype>,
}

/// The generic argument of a name, as plain text: which kind it is and what it holds.
pub enum GenericModel {
    Placeholder,
    Ident(Seq<char>),
    LitInt(Seq<char>),
}

/// The model of a parsed generic argument.
pub open spec fn parse_generic_model(g: Option<ParseComponentGeneric>) -> Option<GenericModel> {
    match g {
        None => None,
        Some(ParseComponentGeneric::Placeholder) => Some(GenericModel::Placeholder),
        Some(ParseComponentGeneric::Ident(s)) => Some(GenericModel::Ident(s@)),
        Some(ParseComponentGeneric::LitInt(s)) => Some(GenericModel::LitInt(s@)),
    }
}

/// The model of a recorded generic argument.
pub open spec fn data_generic_model(g: Option<DataComponentGeneric>) -> Option<GenericModel> {
    match g {
        None => None,
        Some(DataComponentGeneric::Placeholder) => Some(GenericModel::Placeholder),
        Some(DataComponentGeneric::Ident(s)) => Some(GenericModel::Ident(s@)),
        Some(DataComponentGeneric::LitInt(s)) => Some(GenericModel::LitInt(s@)),
    }
}

/// The snake_case name of a component with the given base name and
/// generic argument: the two parts joined by `_`.
pub open spec fn spec_snake_name(name: Seq<char>, generic: Option<GenericModel>) -> Seq<char> {
    match generic {
        Some(GenericModel::Ident(g)) => spec_pascal_to_snake(strip_brackets(name)) + "_"@
            + spec_pascal_to_snake(strip_brackets(g)),
        Some(GenericModel::LitInt(g)) => spec_pascal_to_snake(strip_brackets(name)) + "_"@
            + spec_pascal_to_snake(strip_brackets(g)),
        _ => spec_pascal_to_snake(strip_brackets(name)),
    }
}

/// How a component name is displayed: `Name` or `Name<Arg>` (`Name<_>` for a placeholder).
pub open spec fn spec_display_name(name: Seq<char>, generic: Option<GenericModel>) -> Seq<char> {
    match generic {
        None => name,
        Some(GenericModel::Placeholder) => name + "<_>"@,
        Some(GenericModel::Ident(g)) => name + "<"@ + g + ">"@,
        Some(GenericModel::LitInt(g)) => name + "<"@ + g + ">"@,
    }
}

/// Whether a query name (which may hold a placeholder) matches a recorded name.
pub open spec fn spec_matches(data: DataComponentName, query: ParseComponentName) -> bool {
    &&& query.name@ == data.name@
    &&& match (parse_generic_model(query.generic), data_generic_model(data.generic)) {
        (None, None) => true,
        (Some(GenericModel::Placeholder), Some(_)) => true,
        (Some(GenericModel::Ident(a)), Some(GenericModel::Ident(b))) => a == b,
        (Some(GenericModel::LitInt(a)), Some(GenericModel::LitInt(b))) => a == b,
        _ => false,
    }
}


/// A query name matches a recorded component name exactly when the base
/// names are equal and the generic arguments agree: neither has one, or both
/// are identifiers with the same text, or both are integer literals with the
/// same text; a placeholder in the query stands for any argument, but not for
/// none. Arguments of different kinds never match.
pub proof fn lemma_matches_generics(d: DataComponentName, q: ParseComponentName)
    ensures
        q.name@ != d.name@ ==> !spec_matches(d, q),
        q.generic is None ==> (spec_matches(d, q) <==> q.name@ == d.name@ && d.generic is None),
        q.generic matches Some(ParseComponentGeneric::Placeholder) ==> (spec_matches(d, q) <==> q.name@ == d.name@
            && d.generic is Some),
        q.generic matches Some(ParseComponentGeneric::Ident(a)) ==> (spec_matches(d, q) <==> q.name@ == d.name@
            && (d.generic matches Some(DataComponentGeneric::Ident(b)) && a@ == b@)),
        q.generic matches Some(ParseComponentGeneric::LitInt(a)) ==> (spec_matches(d, q) <==> q.name@ == d.name@
            && (d.generic matches Some(DataComponentGeneric::LitInt(b)) && a@ == b@)),
{
}

impl ParseComponentGeneric {
    /// A copy of this generic argument.
    pub fn copied(&self) -> (r: Self)
        ensures
            r == *self,
    {
        match self {
            ParseComponentGeneric::Placeholder => ParseComponentGeneric::Placeholder,
            ParseComponentGeneric::Ident(s) => ParseComponentGeneric::Ident(s.clone()),
            ParseComponentGeneric::LitInt(s) => ParseComponentGeneric::LitInt(s.clone()),
        }
    }
}

impl DataComponentGeneric {
    /// A copy of this generic argument.
    pub fn copied(&self) -> (r: Self)
        ensures
            r == *self,
    {
        match self {
            DataComponentGeneric::Placeholder => DataComponentGeneric::Placeholder,
            DataComponentGeneric::Ident(s) => DataComponentGeneric::Ident(s.clone()),
            DataComponentGeneric::LitInt(s) => DataComponentGeneric::LitInt(s.clone()),
        }
    }
}

/// Joins `first`, `_` and `second`.
fn join_snake(first: String, second: String) -> (r: String)
    ensures
        r@ == first@ + "_"@ + second@,
{
    let sep = "_";
    proof {
        reveal_strlit("_");
    }
    let joined = first.concat(sep);
    joined.concat(second.as_str())
}

/// Builds `name<arg>`.
fn bracketed(name: &String, arg: &String) -> (r: String)
    ensures
        r@ == name@ + "<"@ + arg@ + ">"@,
{
    proof {
        reveal_strlit("<");
        reveal_strlit(">");
    }
    let open_part = name.clone().concat("<");
    let with_arg = open_part.concat(arg.as_str());
    with_arg.concat(">")
}


impl ParseComponentName {
    /// The model of this name's generic argument.
    pub open spec fn generic_model(&self) -> Option<GenericModel> {
        parse_generic_model(self.generic)
    }

    /// A copy of this name.
    pub fn copied(&self) -> (r: Self)
        ensures
            r == *self,
    {
        let generic = match &self.generic {
            None => None,
            Some(g) => Some(g.copied()),
        };
        ParseComponentName { name: self.name.clone(), generic }
    }

    /// The display form: `Name`, `Name<Arg>` or `Name<_>`.
    pub fn to_display_string(&self) -> (r: String)
        ensures
            r@ == spec_display_name(self.name@, self.generic_model()),
    {
        match &self.generic {
            None => self.name.clone(),
            Some(ParseComponentGeneric::Ident(ident)) => bracketed(&self.name, ident),
            Some(ParseComponentGeneric::LitInt(lit)) => bracketed(&self.name, lit),
            Some(ParseComponentGeneric::Placeholder) => {
                proof {
                    reveal_strlit("<_>");
                }
                self.name.clone().concat("<_>")
            },
        }
    }

    /// The snake_case identifier for this component name. A placeholder
    /// generic has none, so there must be no placeholder.
    pub fn as_snake_name(&self) -> (r: String)
        requires
            !(self.generic matches Some(ParseComponentGeneric::Placeholder)),
        ensures
            r@ == spec_snake_name(self.name@, self.generic_model()),
    {
        match &self.generic {
            None => to_snake(&self.name),
            Some(ParseComponentGeneric::Ident(ident)) => join_snake(to_snake(&self.name), to_snake(ident)),
            Some(ParseComponentGeneric::LitInt(lit)) => join_snake(to_snake(&self.name), to_snake(lit)),
            Some(ParseComponentGeneric::Placeholder) => {
                proof {
                    assert(false);
                }
                String::new()
            },
        }
    }
}

impl DataComponentName {
    /// The model of this name's generic argument.
    pub open spec fn generic_model(&self) -> Option<GenericModel> {
        data_generic_model(self.generic)
    }

    /// A copy of this name.
    pub fn copied(&self) -> (r: Self)
        ensures
            r == *self,
    {
        let generic = match &self.generic {
            None => None,
            Some(g) => Some(g.copied()),
        };
        DataComponentName { name: self.name.clone(), generic }
    }

    /// Records a parsed component name.
    pub fn new(name: &ParseComponentName) -> (r: Self)
        ensures
            r.name@ == name.name@,
            r.generic_model() == name.generic_model(),
    {
        let generic = match &name.generic {
            None => None,
            Some(ParseComponentGeneric::Placeholder) => Some(DataComponentGeneric::Placeholder),
            Some(ParseComponentGeneric::Ident(ident)) => Some(DataComponentGeneric::Ident(ident.clone())),
            Some(ParseComponentGeneric::LitInt(lit)) => Some(DataComponentGeneric::LitInt(lit.clone())),
        };
        DataComponentName { name: name.name.clone(), generic }
    }

    /// Converts back to a parsed name. Recorded names never hold a
    /// placeholder, so there must be none.
    pub fn as_parse(&self) -> (r: ParseComponentName)
        requires
            !(self.generic matches Some(DataComponentGeneric::Placeholder)),
        ensures
            r.name@ == self.name@,
            r.generic_model() == self.generic_model(),
    {
        let generic = match &self.generic {
            None => None,
            Some(DataComponentGeneric::Ident(ident)) => Some(ParseComponentGeneric::Ident(ident.clone())),
            Some(DataComponentGeneric::LitInt(lit)) => Some(ParseComponentGeneric::LitInt(lit.clone())),
            Some(DataComponentGeneric::Placeholder) => {
                proof {
                    assert(false);
                }
                None
            },
        };
        ParseComponentName { name: self.name.clone(), generic }
    }

    /// The snake_case identifier for this component name. A placeholder
    /// generic has none, so there must be no placeholder.
    pub fn as_snake_name(&self) -> (r: String)
        requires
            !(self.generic matches Some(DataComponentGeneric::Placeholder)),
        ensures
            r@ == spec_snake_name(self.name@, self.generic_model()),
    {
        match &self.generic {
            None => to_snake(&self.name),
            Some(DataComponentGeneric::Ident(ident)) => join_snake(to_snake(&self.name), to_snake(ident)),
            Some(DataComponentGeneric::LitInt(lit)) => join_snake(to_snake(&self.name), to_snake(lit)),
            Some(DataComponentGeneric::Placeholder) => {
                proof {
                    assert(false);
                }
                String::new()
            },
        }
    }

    /// The display form: `Name` or `Name<Arg>`. Recorded names never hold a
    /// placeholder, so there must be none.
    pub fn to_display_string(&self) -> (r: String)
        requires
            !(self.generic matches Some(DataComponentGeneric::Placeholder)),
        ensures
            r@ == spec_display_name(self.name@, self.generic_model()),
    {
        match &self.generic {
            None => self.name.clone(),
            Some(DataComponentGeneric::Ident(ident)) => bracketed(&self.name, ident),
            Some(DataComponentGeneric::LitInt(lit)) => bracketed(&self.name, lit),
            Some(DataComponentGeneric::Placeholder) => {
                proof {
                    assert(false);
                }
                String::new()
            },
        }
    }

    /// Whether the given query name refers to this component. A placeholder
    /// generic in the query matches any generic argument.
    pub fn matches_with_placeholder(&self, name: &ParseComponentName) -> (r: bool)
        ensures
            r == spec_matches(*self, *name),
    {
        if name.name != self.name {
            return false;
        }
        match (&name.generic, &self.generic) {
            (None, None) => true,
            (Some(ParseComponentGeneric::Placeholder), Some(_)) => true,
            (Some(ParseComponentGeneric::Ident(a)), Some(DataComponentGeneric::Ident(b))) => *a == *b,
            (Some(ParseComponentGeneric::LitInt(a)), Some(DataComponentGeneric::LitInt(b))) => *a == *b,
            _ => false,
        }
    }
}


/// Why a query name could not be bound to a component of an archetype.
#[derive(Clone, Debug)]
pub enum BindError {
    /// A component parameter matches two components of the archetype.
    AmbiguousComponent {
        archetype: String,
        first: ParseComponentName,
        second: DataComponentName,
    },
    /// A `OneOf` parameter matches two of its alternatives in the archetype.
    AmbiguousOneOf {
        archetype: String,
        name: ParseComponentName,
        found: ParseComponentName,
    },
}

/// Whether the recorded name and the parsed name stand for the same component.
pub open spec fn same_name(data: DataComponentName, parse: ParseComponentName) -> bool {
    &&& data.name@ == parse.name@
    &&& data.generic_model() == parse.generic_model()
}


/// No component of the archetype matches the name.
pub open spec fn binds_none(a: DataArchetype, name: ParseComponentName) -> bool {
    forall|k: int| 0 <= k < a.components@.len() ==> !a.matches_at(name, k)
}

/// Two components of the archetype match the name.
pub open spec fn binds_many(a: DataArchetype, name: ParseComponentName) -> bool {
    exists|j: int, k: int| 0 <= j < k < a.components@.len() && a.matches_at(name, j) && a.matches_at(name, k)
}

/// Exactly one component of the archetype matches the name.
pub open spec fn binds_one(a: DataArchetype, name: ParseComponentName) -> bool {
    !binds_none(a, name) && !binds_many(a, name)
}

/// `p` stands for a component of the archetype that matches the name.
pub open spec fn bound_to(a: DataArchetype, name: ParseComponentName, p: ParseComponentName) -> bool {
    exists|k: int| 0 <= k < a.components@.len() && a.matches_at(name, k) && same_name(a.components@[k].name, p)
}

/// What binding a name to a component of the archetype gives: nothing when
/// none matches, the match when one does, and an error naming the first two
/// matches when two do.
pub open spec fn component_bind_result(
    a: DataArchetype,
    name: ParseComponentName,
    r: Result<Option<ParseComponentName>, BindError>,
) -> bool {
    &&& (r matches Ok(None) <==> binds_none(a, name))
    &&& (r is Err <==> binds_many(a, name))
    &&& (r matches Ok(Some(p)) ==> bound_to(a, name, p))
    &&& (r matches Err(e) ==> exists|j: int, k: int|
        0 <= j < k < a.components@.len() && a.matches_at(name, j) && a.matches_at(name, k) && (forall|i: int|
            0 <= i < k && i != j ==> !a.matches_at(name, i)) && e == (BindError::AmbiguousComponent {
            archetype: a.name,
            first: e->first,
            second: a.components@[k].name,
        }) && same_name(a.components@[j].name, e->first))
}

impl DataArchetype {
    /// Whether component `k` of this archetype matches the query name.
    pub open spec fn matches_at(&self, name: ParseComponentName, k: int) -> bool {
        spec_matches(self.components@[k].name, name)
    }

    /// No recorded component name holds a placeholder (the world parser
    /// refuses them).
    pub open spec fn no_placeholders(&self) -> bool {
        forall|k: int|
            0 <= k < self.components@.len() ==> !(#[trigger] self.components@[k].name.generic matches Some(
                DataComponentGeneric::Placeholder,
            ))
    }

    /// Finds the one component of this archetype that the query name refers
    /// to. `Ok(None)` when none matches; an error when two match.
    pub fn try_bind_component(&self, name: &ParseComponentName) -> (r: Result<
        Option<ParseComponentName>,
        BindError,
    >)
        requires
            self.no_placeholders(),
        ensures
            component_bind_result(*self, *name, r),
    {
        let mut found: Option<ParseComponentName> = None;
        let ghost mut found_at: int = 0;
        let n = self.components.len();
        let mut k: usize = 0;
        while k < n
            invariant
                n == self.components@.len(),
                k <= n,
                self.no_placeholders(),
                found is None ==> forall|i: int| 0 <= i < k ==> !self.matches_at(*name, i),
                found matches Some(p) ==> 0 <= found_at < k && self.matches_at(*name, found_at)
                    && same_name(self.components@[found_at].name, p) && forall|i: int|
                    0 <= i < k && i != found_at ==> !self.matches_at(*name, i),
            decreases n - k,
        {
            let component = &self.components[k];
            if component.name.matches_with_placeholder(name) {
                if let Some(first) = found {
                    proof {
                        assert(self.matches_at(*name, found_at) && self.matches_at(*name, k as int));
                    }
                    return Err(
                        BindError::AmbiguousComponent {
                            archetype: self.name.clone(),
                            first,
                            second: component.name.copied(),
                        },
                    );
                }
                found = Some(component.name.as_parse());
                proof {
                    found_at = k as int;
                }
            }
            k = k + 1;
        }
        Ok(found)
    }

    /// The position in this archetype of the first component that the query
    /// name refers to; for a bound name, the position of its component in
    /// the archetype's component tuple.
    pub fn component_position(&self, name: &ParseComponentName) -> (r: Option<usize>)
        ensures
            r is None <==> binds_none(*self, *name),
            r matches Some(k) ==> k < self.components@.len() && self.matches_at(*name, k as int)
                && forall|j: int| 0 <= j < k ==> !self.matches_at(*name, j),
    {
        let n = self.components.len();
        let mut k: usize = 0;
        while k < n
            invariant
                n == self.components@.len(),
                k <= n,
                forall|j: int| 0 <= j < k ==> !self.matches_at(*name, j),
            decreases n - k,
        {
            if self.components[k].name.matches_with_placeholder(name) {
                proof {
                    assert(self.matches_at(*name, k as int));
                }
                return Some(k);
            }
            k = k + 1;
        }
        None
    }
}


/// A component declared in an `ecs_archetype!`, with its attributes.
#[derive(Clone, Debug)]
pub struct ParseComponent {
    pub cfgs: Vec<ParseAttributeCfg>,
    pub id: Option<u8>,
    pub name: ParseComponentName,
}

/// An `ecs_archetype!` declaration, with its attributes.
#[derive(Clone, Debug)]
pub struct ParseArchetype {
    pub cfgs: Vec<ParseAttributeCfg>,
    pub id: Option<u8>,
    pub name: String,
    pub components: Vec<ParseComponent>,
}

/// An `ecs_world!` declaration: the world's name and its archetypes.
#[derive(Clone, Debug)]
pub struct ParseEcsWorld {
    pub name: String,
    pub archetypes: Vec<ParseArchetype>,
}

/// Why world data could not be built: which archetype (by its position in
/// the declaration), which of its components if any, and the ID problem.
#[derive(Clone, Debug)]
pub struct WorldError {
    pub archetype: usize,
    pub component: Option<usize>,
    pub kind: IdError,
}

/// The positions whose flag is set, in order.
pub open spec fn enabled_positions(flags: Seq<bool>) -> Seq<int>
    decreases flags.len(),
{
    if flags.len() == 0 {
        Seq::empty()
    } else {
        let p = enabled_positions(flags.drop_last());
        if flags.last() {
            p.push(flags.len() - 1)
        } else {
            p
        }
    }
}

/// Every enabled position is in range and they increase.
pub proof fn lemma_enabled_positions(flags: Seq<bool>)
    ensures
        forall|k: int|
            0 <= k < enabled_positions(flags).len() ==> 0 <= #[trigger] enabled_positions(flags)[k]
                < flags.len() && flags[enabled_positions(flags)[k]],
        enabled_positions(flags).len() <= flags.len(),
    decreases flags.len(),
{
    if flags.len() > 0 {
        lemma_enabled_positions(flags.drop_last());
    }
}


/// The enabled positions of a prefix are a prefix of the enabled positions.
pub proof fn lemma_positions_prefix(flags: Seq<bool>, m: int)
    requires
        0 <= m <= flags.len(),
    ensures
        enabled_positions(flags.take(m)) == enabled_positions(flags).take(
            enabled_positions(flags.take(m)).len() as int,
        ),
        enabled_positions(flags.take(m)).len() <= enabled_positions(flags).len(),
    decreases flags.len(),
{
    if m == flags.len() {
        assert(flags.take(m) =~= flags);
    } else {
        let d = flags.drop_last();
        assert(flags.take(m) =~= d.take(m));
        lemma_positions_prefix(d, m);
        let pd = enabled_positions(d);
        assert(enabled_positions(flags) == if flags.last() { pd.push(flags.len() - 1) } else { pd });
        let k = enabled_positions(d.take(m)).len() as int;
        assert(enabled_positions(flags).take(k) =~= pd.take(k));
    }
}


/// The IDs of the components of a prefix are a prefix of the IDs.
pub proof fn lemma_component_ids_prefix(l: Map<Seq<char>, bool>, comps: Seq<ParseComponent>, m: int)
    requires
        0 <= m <= comps.len(),
    ensures
        component_ids(l, comps.take(m)) == component_ids(l, comps).take(
            component_ids(l, comps.take(m)).len() as int,
        ),
        component_ids(l, comps.take(m)).len() <= component_ids(l, comps).len(),
{
    let f = component_flags(l, comps);
    let pre = comps.take(m);
    assert(component_flags(l, pre) =~= f.take(m));
    lemma_positions_prefix(f, m);
    let pos = enabled_positions(f);
    let pos_pre = enabled_positions(f.take(m));
    lemma_enabled_positions(f.take(m));
    let e = component_explicit(comps, pos);
    assert(component_explicit(pre, pos_pre) =~= e.take(pos_pre.len() as int));
    lemma_assigned_prefix(e, pos_pre.len() as int);
    lemma_assigned_len(e);
    lemma_assigned_len(component_explicit(pre, pos_pre));
}

/// Which components are enabled.
pub open spec fn component_flags(lookup: Map<Seq<char>, bool>, comps: Seq<ParseComponent>) -> Seq<bool> {
    comps.map_values(|c: ParseComponent| cfgs_hold(lookup, c.cfgs@))
}

/// The explicit IDs of the components at the given positions.
pub open spec fn component_explicit(comps: Seq<ParseComponent>, pos: Seq<int>) -> Seq<Option<u8>> {
    pos.map_values(|p: int| comps[p].id)
}

/// The names the components at the given positions report in errors.
pub open spec fn component_names(comps: Seq<ParseComponent>, pos: Seq<int>) -> Seq<Seq<char>> {
    pos.map_values(|p: int| spec_display_name(comps[p].name.name@, comps[p].name.generic_model()))
}

/// The IDs the enabled components get.
pub open spec fn component_ids(lookup: Map<Seq<char>, bool>, comps: Seq<ParseComponent>) -> Seq<int> {
    assigned_ids(component_explicit(comps, enabled_positions(component_flags(lookup, comps))))
}

/// Whether the recorded component is the parsed one with the given ID.
pub open spec fn records_component(d: DataComponent, c: ParseComponent, id: int) -> bool {
    &&& d.id == id
    &&& d.name.name@ == c.name.name@
    &&& d.name.generic_model() == c.name.generic_model()
}

/// Whether the recorded components are the enabled parsed ones, in order,
/// with their assigned IDs.
pub open spec fn records_components(
    lookup: Map<Seq<char>, bool>,
    data: Seq<DataComponent>,
    comps: Seq<ParseComponent>,
) -> bool {
    let pos = enabled_positions(component_flags(lookup, comps));
    let ids = component_ids(lookup, comps);
    &&& data.len() == pos.len()
    &&& forall|k: int| 0 <= k < data.len() ==> records_component(#[trigger] data[k], comps[pos[k]], ids[k])
}

/// Whether building the components looks up known `#[cfg]` predicates only:
/// those of every component that is reached, that is, every component
/// before which all enabled components got valid IDs.
pub open spec fn components_known(lookup: Map<Seq<char>, bool>, comps: Seq<ParseComponent>) -> bool {
    forall|i: int|
        0 <= i < comps.len() && ids_ok(component_ids(lookup, comps.take(i))) ==> cfgs_decidable(
            lookup,
            #[trigger] comps[i].cfgs@,
        )
}

/// The failure of component `c`: it is enabled, every earlier enabled
/// component got a valid ID, and its own ID is invalid as `e` says.
pub open spec fn component_failure(
    lookup: Map<Seq<char>, bool>,
    comps: Seq<ParseComponent>,
    c: int,
    e: IdError,
) -> bool {
    let pre = comps.take(c + 1);
    let pos = enabled_positions(component_flags(lookup, pre));
    let ids = component_ids(lookup, pre);
    &&& 0 <= c < comps.len()
    &&& pos.len() > 0 && pos.last() == c
    &&& forall|k: int| 0 <= k < ids.len() - 1 ==> #[trigger] id_ok(ids, k)
    &&& !id_ok(ids, ids.len() - 1)
    &&& id_error_matches(e, ids, component_names(pre, pos), ids.len() - 1)
}

spec fn ids1_is(l: Map<Seq<char>, bool>, pre1: Seq<ParseComponent>, ids: Seq<int>) -> bool {
    component_ids(l, pre1) == ids
}

/// Records the enabled components of an archetype with their IDs.
fn build_components(lookup: &CfgLookup, comps: &Vec<ParseComponent>) -> (r: Result<
    Vec<DataComponent>,
    (usize, IdError),
>)
    requires
        lookup.wf(),
        components_known(lookup@, comps@),
    ensures
        r is Ok <==> ids_ok(component_ids(lookup@, comps@)),
        r matches Ok(v) ==> records_components(lookup@, v@, comps@),
        r matches Err(e) ==> component_failure(lookup@, comps@, e.0 as int, e.1),
{
    let ghost l = lookup@;
    let mut component_ids_map: HashMap<u8, String> = HashMap::new();
    let mut last: Option<u8> = None;
    let mut out: Vec<DataComponent> = Vec::new();
    let n = comps.len();
    let mut i: usize = 0;
    while i < n
        invariant
            n == comps@.len(),
            i <= n,
            lookup.wf(),
            l == lookup@,
            components_known(l, comps@),
            ({
                let pre = comps@.take(i as int);
                let pos = enabled_positions(component_flags(l, pre));
                let ids = component_ids(l, pre);
                let names = component_names(pre, pos);
                &&& ids.len() == pos.len()
                &&& ids_ok(ids)
                &&& records_components(l, out@, pre)
                &&& last == (if ids.len() == 0 { None } else { Some(ids.last() as u8) })
                &&& forall|x: u8| #[trigger] component_ids_map@.contains_key(x) <==> exists|j: int| 0 <= j < ids.len() && ids[j] == x
                &&& forall|j: int| 0 <= j < ids.len() ==> component_ids_map@[#[trigger] ids[j] as u8]@ == names[j]
            }),
        decreases n - i,
    {
        let ghost pre = comps@.take(i as int);
        let ghost pre1 = comps@.take(i + 1);
        let ghost pos = enabled_positions(component_flags(l, pre));
        let ghost ids = component_ids(l, pre);
        proof {
            assert(pre1.drop_last() =~= pre);
            assert(component_flags(l, pre1).drop_last() =~= component_flags(l, pre));
            assert(component_flags(l, pre1).last() == cfgs_hold(l, comps@[i as int].cfgs@));
            lemma_enabled_positions(component_flags(l, pre));
            lemma_assigned_len(component_explicit(pre, pos));
            assert(component_explicit(pre1, pos) =~= component_explicit(pre, pos));
            assert(component_names(pre1, pos) =~= component_names(pre, pos));
            assert forall|k: int| 0 <= k < pos.len() implies #[trigger] pre1[pos[k]] == pre[pos[k]] by {}
        }
        let component = &comps[i];
        proof {
            assert(cfgs_decidable(l, comps@[i as int].cfgs@));
        }
        if !evaluate_cfgs(lookup, &component.cfgs) {
            proof {
                assert(enabled_positions(component_flags(l, pre1)) == pos);
                assert forall|k: int| 0 <= k < out@.len() implies records_component(#[trigger] out@[k], pre1[enabled_positions(component_flags(l, pre1))[k]], component_ids(l, pre1)[k]) by {
                    assert(records_component(out@[k], pre[pos[k]], ids[k]));
                }
            }
            i = i + 1;
            continue;
        }
        let ghost pos1 = pos.push(i as int);
        proof {
            assert(enabled_positions(component_flags(l, pre1)) == pos1);
            assert(component_explicit(pre1, pos1) =~= component_explicit(pre, pos).push(component.id));
            lemma_assigned_push(component_explicit(pre, pos), component.id);
            if ids.len() > 0 {
                assert(id_ok(ids, ids.len() - 1));
            }
            assert(ids1_is(l, pre1, ids.push(spec_next_id(component.id, last))));
            assert(component_names(pre1, pos1) =~= component_names(pre, pos).push(
                spec_display_name(component.name.name@, component.name.generic_model())));
        }
        let name_string = component.name.to_display_string();
        let ghost ids1 = component_ids(l, pre1);
        let ghost old_last = last;
        let ghost old_map = component_ids_map@;
        let ghost old_out = out@;
        match advance_attribute_id(&name_string, component.id, &mut component_ids_map, last) {
            Ok(next) => {
                last = next;
            },
            Err(kind) => {
                proof {
                    assert(ids1.last() == spec_next_id(component.id, last));
                    assert(ids1.len() == ids.len() + 1);
                    assert forall|k: int| 0 <= k < ids1.len() - 1 implies #[trigger] id_ok(ids1, k) by {
                        assert(id_ok(ids, k));
                    }
                    lemma_component_ids_prefix(l, comps@, i + 1);
                    if ids_ok(component_ids(l, comps@)) {
                        lemma_ids_ok_prefix(component_ids(l, comps@), ids1.len() as int);
                        assert(id_ok(ids1, ids1.len() - 1));
                    }
                    if ids1.last() <= 255 {
                        let x = ids1.last() as u8;
                        assert(old_map.contains_key(x));
                        let j = choose|j: int| 0 <= j < ids.len() && ids[j] == x;
                        assert(ids1[j] == ids1.last());
                        assert(old_map[ids[j] as u8]@ == component_names(pre, pos)[j]);
                        assert(!id_ok(ids1, ids1.len() - 1));
                    }
                }
                return Err((i, kind));
            },
        }
        out.push(DataComponent { id: last.unwrap(), name: DataComponentName::new(&component.name) });
        proof {
            let names1 = component_names(pre1, pos1);
            assert(ids1 == ids.push(spec_next_id(component.id, old_last)));
            assert(ids1.len() == pos1.len());
            assert forall|k: int| 0 <= k < ids1.len() implies #[trigger] id_ok(ids1, k) by {
                if k < ids.len() {
                    assert(id_ok(ids, k));
                } else {
                    assert forall|j: int| 0 <= j < k implies ids1[j] != ids1[k] by {
                        if ids1[j] == ids1[k] {
                            assert(old_map.contains_key(ids1[k] as u8));
                        }
                    }
                }
            }
            assert forall|k: int| 0 <= k < out@.len() implies records_component(#[trigger] out@[k], pre1[pos1[k]], ids1[k]) by {
                if k < old_out.len() {
                    assert(out@[k] == old_out[k]);
                    assert(records_component(old_out[k], pre[pos[k]], ids[k]));
                }
            }
            assert forall|x: u8| #[trigger] component_ids_map@.contains_key(x) <==> exists|j: int| 0 <= j < ids1.len() && ids1[j] == x by {
                if component_ids_map@.contains_key(x) && x != ids1.last() as u8 {
                    let j = choose|j: int| 0 <= j < ids.len() && ids[j] == x;
                    assert(ids1[j] == x);
                }
                if exists|j: int| 0 <= j < ids1.len() && ids1[j] == x {
                    let j = choose|j: int| 0 <= j < ids1.len() && ids1[j] == x;
                    if j < ids.len() {
                        assert(old_map.contains_key(x));
                    }
                }
            }
            assert forall|j: int| 0 <= j < ids1.len() implies component_ids_map@[#[trigger] ids1[j] as u8]@ == names1[j] by {
                if j < ids.len() {
                    assert(ids1[j] == ids[j]);
                    assert(id_ok(ids, j));
                    assert(ids[j] >= 0);
                    assert(old_map.contains_key(ids[j] as u8));
                    assert(ids[j] != ids1.last());
                    assert(names1[j] == component_names(pre, pos)[j]);
                }
            }
        }
        i = i + 1;
    }
    proof {
        assert(comps@.take(n as int) =~= comps@);
    }
    Ok(out)
}


/// Which archetypes are enabled.
pub open spec fn archetype_flags(lookup: Map<Seq<char>, bool>, archs: Seq<ParseArchetype>) -> Seq<bool> {
    archs.map_values(|a: ParseArchetype| cfgs_hold(lookup, a.cfgs@))
}

/// The enabled archetypes' positions in the declaration.
pub open spec fn archetype_positions(lookup: Map<Seq<char>, bool>, archs: Seq<ParseArchetype>) -> Seq<int> {
    enabled_positions(archetype_flags(lookup, archs))
}

/// The explicit IDs of the archetypes at the given positions.
pub open spec fn archetype_explicit(archs: Seq<ParseArchetype>, pos: Seq<int>) -> Seq<Option<u8>> {
    pos.map_values(|p: int| archs[p].id)
}

/// The names of the archetypes at the given positions.
pub open spec fn archetype_names(archs: Seq<ParseArchetype>, pos: Seq<int>) -> Seq<Seq<char>> {
    pos.map_values(|p: int| archs[p].name@)
}

/// The IDs the enabled archetypes get.
pub open spec fn archetype_ids(lookup: Map<Seq<char>, bool>, archs: Seq<ParseArchetype>) -> Seq<int> {
    assigned_ids(archetype_explicit(archs, archetype_positions(lookup, archs)))
}

/// Every predicate that building the world looks up is known: those of
/// every archetype that is reached (all before it are valid), each list up to
/// its first failing predicate, and those that building the components of a
/// reached, enabled archetype with a valid ID looks up.
pub open spec fn world_known(lookup: Map<Seq<char>, bool>, archs: Seq<ParseArchetype>) -> bool {
    forall|i: int|
        0 <= i < archs.len() && world_ok(lookup, archs.take(i)) ==> {
            let ids = archetype_ids(lookup, archs.take(i + 1));
            &&& cfgs_decidable(lookup, #[trigger] archs[i].cfgs@)
            &&& cfgs_hold(lookup, archs[i].cfgs@) && id_ok(ids, ids.len() - 1) ==> components_known(
                lookup,
                archs[i].components@,
            )
        }
}

/// Every ID in the world is valid: the archetype IDs, and the component IDs
/// within each enabled archetype.
pub open spec fn world_ok(lookup: Map<Seq<char>, bool>, archs: Seq<ParseArchetype>) -> bool {
    let pos = archetype_positions(lookup, archs);
    &&& ids_ok(archetype_ids(lookup, archs))
    &&& forall|k: int|
        0 <= k < pos.len() ==> ids_ok(component_ids(lookup, #[trigger] archs[pos[k]].components@))
}

/// Whether the recorded archetypes are the enabled parsed ones, in order,
/// with their assigned IDs and their recorded components.
pub open spec fn records_world(
    lookup: Map<Seq<char>, bool>,
    data: Seq<DataArchetype>,
    archs: Seq<ParseArchetype>,
) -> bool {
    let pos = archetype_positions(lookup, archs);
    let ids = archetype_ids(lookup, archs);
    &&& data.len() == pos.len()
    &&& forall|k: int|
        0 <= k < data.len() ==> {
            &&& (#[trigger] data[k]).id == ids[k]
            &&& data[k].name@ == archs[pos[k]].name@
            &&& records_components(lookup, data[k].components@, archs[pos[k]].components@)
        }
}

/// The failure reported as `e`: archetype `e.archetype` is enabled, every
/// earlier enabled archetype is valid with all its components, and either
/// its own ID is invalid, or its ID is valid and one of its components fails.
pub open spec fn world_failure(lookup: Map<Seq<char>, bool>, archs: Seq<ParseArchetype>, e: WorldError) -> bool {
    let a = e.archetype as int;
    let pre = archs.take(a + 1);
    let pos = archetype_positions(lookup, pre);
    let ids = archetype_ids(lookup, pre);
    &&& 0 <= a < archs.len()
    &&& pos.len() > 0 && pos.last() == a
    &&& forall|k: int| 0 <= k < ids.len() - 1 ==> #[trigger] id_ok(ids, k)
    &&& forall|k: int|
        0 <= k < pos.len() - 1 ==> ids_ok(component_ids(lookup, #[trigger] archs[pos[k]].components@))
    &&& match e.component {
        None => !id_ok(ids, ids.len() - 1) && id_error_matches(e.kind, ids, archetype_names(pre, pos), ids.len() - 1),
        Some(c) => id_ok(ids, ids.len() - 1) && component_failure(lookup, archs[a].components@, c as int, e.kind),
    }
}

/// The IDs of the archetypes of a prefix are a prefix of the IDs.
pub proof fn lemma_archetype_ids_prefix(l: Map<Seq<char>, bool>, archs: Seq<ParseArchetype>, m: int)
    requires
        0 <= m <= archs.len(),
    ensures
        archetype_ids(l, archs.take(m)) == archetype_ids(l, archs).take(
            archetype_ids(l, archs.take(m)).len() as int,
        ),
        archetype_ids(l, archs.take(m)).len() <= archetype_ids(l, archs).len(),
        archetype_positions(l, archs.take(m)) == archetype_positions(l, archs).take(
            archetype_positions(l, archs.take(m)).len() as int,
        ),
        archetype_positions(l, archs.take(m)).len() <= archetype_positions(l, archs).len(),
{
    let f = archetype_flags(l, archs);
    let pre = archs.take(m);
    assert(archetype_flags(l, pre) =~= f.take(m));
    lemma_positions_prefix(f, m);
    let pos = enabled_positions(f);
    let pos_pre = enabled_positions(f.take(m));
    lemma_enabled_positions(f.take(m));
    let e = archetype_explicit(archs, pos);
    assert(archetype_explicit(pre, pos_pre) =~= e.take(pos_pre.len() as int));
    lemma_assigned_prefix(e, pos_pre.len() as int);
    lemma_assigned_len(e);
    lemma_assigned_len(archetype_explicit(pre, pos_pre));
}

spec fn arch_ids_is(l: Map<Seq<char>, bool>, pre1: Seq<ParseArchetype>, ids: Seq<int>) -> bool {
    archetype_ids(l, pre1) == ids
}

impl DataWorld {
    /// Builds the world data from a parsed `ecs_world!`: archetypes and
    /// components whose `#[cfg]` predicates fail are left out, and every
    /// remaining archetype and component gets its ID.
    pub fn new(parse: ParseCfgDecorated<ParseEcsWorld>) -> (r: Result<DataWorld, WorldError>)
        requires
            parse.cfg_lookup.wf(),
            world_known(parse.cfg_lookup@, parse.inner.archetypes@),
        ensures
            r is Ok <==> world_ok(parse.cfg_lookup@, parse.inner.archetypes@),
            r matches Ok(w) ==> w.name@ == parse.inner.name@ && records_world(
                parse.cfg_lookup@,
                w.archetypes@,
                parse.inner.archetypes@,
            ),
            r matches Err(e) ==> world_failure(parse.cfg_lookup@, parse.inner.archetypes@, e),
    {
        let lookup = &parse.cfg_lookup;
        let archs = &parse.inner.archetypes;
        let ghost l = lookup@;
        let mut archetype_ids_map: HashMap<u8, String> = HashMap::new();
        let mut last: Option<u8> = None;
        let mut out: Vec<DataArchetype> = Vec::new();
        let n = archs.len();
        let mut i: usize = 0;
        while i < n
            invariant
                n == archs@.len(),
                i <= n,
                lookup.wf(),
                l == lookup@,
                l == parse.cfg_lookup@,
                archs@ == parse.inner.archetypes@,
                world_known(l, archs@),
                ({
                    let pre = archs@.take(i as int);
                    let pos = archetype_positions(l, pre);
                    let ids = archetype_ids(l, pre);
                    let names = archetype_names(pre, pos);
                    &&& ids.len() == pos.len()
                    &&& world_ok(l, pre)
                    &&& records_world(l, out@, pre)
                    &&& last == (if ids.len() == 0 { None } else { Some(ids.last() as u8) })
                    &&& forall|x: u8| #[trigger] archetype_ids_map@.contains_key(x) <==> exists|j: int| 0 <= j < ids.len() && ids[j] == x
                    &&& forall|j: int| 0 <= j < ids.len() ==> archetype_ids_map@[#[trigger] ids[j] as u8]@ == names[j]
                }),
            decreases n - i,
        {
            let ghost pre = archs@.take(i as int);
            let ghost pre1 = archs@.take(i + 1);
            let ghost pos = archetype_positions(l, pre);
            let ghost ids = archetype_ids(l, pre);
            proof {
                assert(pre1.drop_last() =~= pre);
                assert(archetype_flags(l, pre1).drop_last() =~= archetype_flags(l, pre));
                assert(archetype_flags(l, pre1).last() == cfgs_hold(l, archs@[i as int].cfgs@));
                lemma_enabled_positions(archetype_flags(l, pre));
                lemma_assigned_len(archetype_explicit(pre, pos));
                assert(archetype_explicit(pre1, pos) =~= archetype_explicit(pre, pos));
                assert(archetype_names(pre1, pos) =~= archetype_names(pre, pos));
                assert forall|k: int| 0 <= k < pos.len() implies #[trigger] pre1[pos[k]] == pre[pos[k]] by {}
            }
            let archetype = &archs[i];
            proof {
                assert(cfgs_decidable(l, archs@[i as int].cfgs@));
            }
            if !evaluate_cfgs(lookup, &archetype.cfgs) {
                proof {
                    assert(archetype_positions(l, pre1) == pos);
                    assert forall|k: int| 0 <= k < pos.len() implies ids_ok(component_ids(l, #[trigger] pre1[pos[k]].components@)) by {
                        assert(ids_ok(component_ids(l, pre[pos[k]].components@)));
                    }
                    assert forall|k: int| 0 <= k < out@.len() implies {
                        &&& (#[trigger] out@[k]).id == archetype_ids(l, pre1)[k]
                        &&& out@[k].name@ == pre1[pos[k]].name@
                        &&& records_components(l, out@[k].components@, pre1[pos[k]].components@)
                    } by {
                        assert(pre1[pos[k]] == pre[pos[k]]);
                    }
                }
                i = i + 1;
                continue;
            }
            let ghost pos1 = pos.push(i as int);
            proof {
                assert(archetype_positions(l, pre1) == pos1);
                assert(archetype_explicit(pre1, pos1) =~= archetype_explicit(pre, pos).push(archetype.id));
                lemma_assigned_push(archetype_explicit(pre, pos), archetype.id);
                if ids.len() > 0 {
                    assert(id_ok(ids, ids.len() - 1));
                }
                assert(arch_ids_is(l, pre1, ids.push(spec_next_id(archetype.id, last))));
                assert(archetype_names(pre1, pos1) =~= archetype_names(pre, pos).push(archetype.name@));
            }
            let ghost ids1 = archetype_ids(l, pre1);
            let ghost old_last = last;
            let ghost old_map = archetype_ids_map@;
            let ghost old_out = out@;
            match advance_attribute_id(&archetype.name, archetype.id, &mut archetype_ids_map, last) {
                Ok(next) => {
                    last = next;
                },
                Err(kind) => {
                    proof {
                        assert(ids1.last() == spec_next_id(archetype.id, old_last));
                        assert forall|k: int| 0 <= k < ids1.len() - 1 implies #[trigger] id_ok(ids1, k) by {
                            assert(id_ok(ids, k));
                        }
                        if ids1.last() <= 255 {
                            let x = ids1.last() as u8;
                            assert(old_map.contains_key(x));
                            let j = choose|j: int| 0 <= j < ids.len() && ids[j] == x;
                            assert(ids1[j] == ids1.last());
                            assert(old_map[ids[j] as u8]@ == archetype_names(pre, pos)[j]);
                        }
                        assert forall|k: int| 0 <= k < pos1.len() - 1 implies ids_ok(component_ids(l, #[trigger] archs@[pos1[k]].components@)) by {
                            assert(pre[pos[k]] == archs@[pos[k]]);
                            assert(ids_ok(component_ids(l, pre[pos[k]].components@)));
                        }
                        let e = WorldError { archetype: i, component: None, kind };
                        assert(world_failure(l, archs@, e));
                        lemma_archetype_ids_prefix(l, archs@, i + 1);
                        if ids_ok(archetype_ids(l, archs@)) {
                            lemma_ids_ok_prefix(archetype_ids(l, archs@), ids1.len() as int);
                            assert(id_ok(ids1, ids1.len() - 1));
                        }
                    }
                    return Err(WorldError { archetype: i, component: None, kind });
                },
            }
            proof {
                assert(id_ok(ids1, ids1.len() - 1)) by {
                    assert forall|j: int| 0 <= j < ids1.len() - 1 implies #[trigger] ids1[j] != ids1[ids1.len() - 1] by {
                        if ids1[j] == ids1.last() {
                            assert(old_map.contains_key(ids1.last() as u8));
                        }
                    }
                }
                assert(archs@[i as int].cfgs@ == archetype.cfgs@);
                assert(components_known(l, archetype.components@));
            }
            let components = match build_components(lookup, &archetype.components) {
                Ok(components) => components,
                Err((c, kind)) => {
                    proof {
                        assert forall|k: int| 0 <= k < ids1.len() - 1 implies #[trigger] id_ok(ids1, k) by {
                            assert(id_ok(ids, k));
                        }
                        assert forall|k: int| 0 <= k < pos1.len() - 1 implies ids_ok(component_ids(l, #[trigger] archs@[pos1[k]].components@)) by {
                            assert(pre[pos[k]] == archs@[pos[k]]);
                            assert(ids_ok(component_ids(l, pre[pos[k]].components@)));
                        }
                        let e = WorldError { archetype: i, component: Some(c), kind };
                        assert(world_failure(l, archs@, e));
                        lemma_archetype_ids_prefix(l, archs@, i + 1);
                        let pos_all = archetype_positions(l, archs@);
                        assert(pos1 == pos_all.take(pos1.len() as int));
                        assert(pos_all[pos1.len() - 1] == pos1[pos1.len() - 1]);
                        assert(pos_all[pos1.len() - 1] == i);
                        if world_ok(l, archs@) {
                            assert(ids_ok(component_ids(l, archs@[pos_all[pos1.len() - 1]].components@)));
                        }
                    }
                    return Err(WorldError { archetype: i, component: Some(c), kind });
                },
            };
            out.push(DataArchetype { id: last.unwrap(), name: archetype.name.clone(), components });
            proof {
                let names1 = archetype_names(pre1, pos1);
                assert(ids1 == ids.push(spec_next_id(archetype.id, old_last)));
                assert forall|k: int| 0 <= k < ids1.len() implies #[trigger] id_ok(ids1, k) by {
                    if k < ids.len() {
                        assert(id_ok(ids, k));
                    }
                }
                assert forall|k: int| 0 <= k < pos1.len() implies ids_ok(component_ids(l, #[trigger] pre1[pos1[k]].components@)) by {
                    if k < pos.len() {
                        assert(pre1[pos[k]] == pre[pos[k]]);
                        assert(ids_ok(component_ids(l, pre[pos[k]].components@)));
                    }
                }
                assert forall|k: int| 0 <= k < out@.len() implies {
                    &&& (#[trigger] out@[k]).id == ids1[k]
                    &&& out@[k].name@ == pre1[pos1[k]].name@
                    &&& records_components(l, out@[k].components@, pre1[pos1[k]].components@)
                } by {
                    if k < old_out.len() {
                        assert(out@[k] == old_out[k]);
                        assert(pre1[pos[k]] == pre[pos[k]]);
                    }
                }
                assert forall|x: u8| #[trigger] archetype_ids_map@.contains_key(x) <==> exists|j: int| 0 <= j < ids1.len() && ids1[j] == x by {
                    if archetype_ids_map@.contains_key(x) && x != ids1.last() as u8 {
                        let j = choose|j: int| 0 <= j < ids.len() && ids[j] == x;
                        assert(ids1[j] == x);
                    }
                    if exists|j: int| 0 <= j < ids1.len() && ids1[j] == x {
                        let j = choose|j: int| 0 <= j < ids1.len() && ids1[j] == x;
                        if j < ids.len() {
                            assert(old_map.contains_key(x));
                        }
                    }
                }
                assert forall|j: int| 0 <= j < ids1.len() implies archetype_ids_map@[#[trigger] ids1[j] as u8]@ == names1[j] by {
                    if j < ids.len() {
                        assert(ids1[j] == ids[j]);
                        assert(id_ok(ids, j));
                        assert(old_map.contains_key(ids[j] as u8));
                        assert(names1[j] == archetype_names(pre, pos)[j]);
                    }
                }
            }
            i = i + 1;
        }
        proof {
            assert(archs@.take(n as int) =~= archs@);
        }
        Ok(DataWorld { name: parse.inner.name.clone(), archetypes: out })
    }
}


/// World data built successfully gives every archetype a distinct ID, and
/// every component a distinct ID within its archetype.
pub proof fn lemma_world_ids_distinct(
    lookup: Map<Seq<char>, bool>,
    archs: Seq<ParseArchetype>,
    data: Seq<DataArchetype>,
)
    requires
        world_ok(lookup, archs),
        records_world(lookup, data, archs),
    ensures
        forall|i: int, j: int| 0 <= i < j < data.len() ==> #[trigger] data[i].id != #[trigger] data[j].id,
        forall|k: int, i: int, j: int|
            0 <= k < data.len() && 0 <= i < j < data[k].components@.len() ==> #[trigger] data[k].components@[i].id
                != #[trigger] data[k].components@[j].id,
{
    let ids = archetype_ids(lookup, archs);
    let pos = archetype_positions(lookup, archs);
    lemma_assigned_len(archetype_explicit(archs, pos));
    assert forall|i: int, j: int| 0 <= i < j < data.len() implies #[trigger] data[i].id != #[trigger] data[j].id by {
        assert(id_ok(ids, j));
    }
    assert forall|k: int, i: int, j: int|
        0 <= k < data.len() && 0 <= i < j < data[k].components@.len() implies #[trigger] data[k].components@[i].id
            != #[trigger] data[k].components@[j].id by {
        let comps = archs[pos[k]].components@;
        let cids = component_ids(lookup, comps);
        lemma_assigned_len(component_explicit(comps, enabled_positions(component_flags(lookup, comps))));
        assert(ids_ok(cids));
        assert(records_component(data[k].components@[i], comps[enabled_positions(component_flags(lookup, comps))[i]], cids[i]));
        assert(records_component(data[k].components@[j], comps[enabled_positions(component_flags(lookup, comps))[j]], cids[j]));
        assert(id_ok(cids, j));
    }
}


/// The `#[cfg]` predicate texts of the components, in order.
pub open spec fn component_cfg_texts(comps: Seq<ParseComponent>) -> Seq<Seq<char>>
    decreases comps.len(),
{
    if comps.len() == 0 {
        Seq::empty()
    } else {
        component_cfg_texts(comps.drop_last()) + cfg_texts(comps.last().cfgs@)
    }
}

/// The `#[cfg]` predicate texts of the archetypes, each archetype's own
/// followed by its components', in order.
pub open spec fn world_cfg_texts(archs: Seq<ParseArchetype>) -> Seq<Seq<char>>
    decreases archs.len(),
{
    if archs.len() == 0 {
        Seq::empty()
    } else {
        world_cfg_texts(archs.drop_last()) + cfg_texts(archs.last().cfgs@) + component_cfg_texts(
            archs.last().components@,
        )
    }
}

impl ParseEcsWorld {
    /// Every distinct `#[cfg]` predicate in the world, in order of first
    /// occurrence, so that the deduced states line up deterministically.
    pub fn collect_all_cfg_predicates(&self) -> (r: Vec<String>)
        ensures
            texts(r@) == dedup_append(Seq::empty(), world_cfg_texts(self.archetypes@)),
    {
        let mut result: Vec<String> = Vec::new();
        let n = self.archetypes.len();
        let mut i: usize = 0;
        proof {
            assert(texts(result@) =~= Seq::<Seq<char>>::empty());
        }
        while i < n
            invariant
                n == self.archetypes@.len(),
                i <= n,
                texts(result@) == dedup_append(Seq::empty(), world_cfg_texts(self.archetypes@.take(i as int))),
            decreases n - i,
        {
            let archetype = &self.archetypes[i];
            let ghost before = world_cfg_texts(self.archetypes@.take(i as int));
            let ghost own = cfg_texts(archetype.cfgs@);
            proof {
                assert(self.archetypes@.take(i + 1).drop_last() =~= self.archetypes@.take(i as int));
                lemma_dedup_append_concat(Seq::empty(), before, own);
            }
            append_cfgs(&mut result, &archetype.cfgs);
            let m = archetype.components.len();
            let mut j: usize = 0;
            while j < m
                invariant
                    m == archetype.components@.len(),
                    j <= m,
                    texts(result@) == dedup_append(
                        Seq::empty(),
                        before + own + component_cfg_texts(archetype.components@.take(j as int)),
                    ),
                decreases m - j,
            {
                proof {
                    assert(archetype.components@.take(j + 1).drop_last() =~= archetype.components@.take(j as int));
                    let c = component_cfg_texts(archetype.components@.take(j as int));
                    let x = cfg_texts(archetype.components@[j as int].cfgs@);
                    assert(before + own + (c + x) =~= (before + own + c) + x);
                    lemma_dedup_append_concat(Seq::empty(), before + own + c, x);
                }
                append_cfgs(&mut result, &archetype.components[j].cfgs);
                j = j + 1;
            }
            proof {
                assert(archetype.components@.take(m as int) =~= archetype.components@);
                if i == 0 {
                    assert(before + own =~= own);
                }
                assert(own + component_cfg_texts(archetype.components@.take(0)) =~= own);
            }
            i = i + 1;
        }
        proof {
            assert(self.archetypes@.take(n as int) =~= self.archetypes@);
        }
        result
    }
}

} // verus!
