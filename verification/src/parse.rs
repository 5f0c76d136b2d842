use vstd::prelude::*;

use crate::cfg::ParseAttributeCfg;
use crate::data::{enabled_positions, lemma_enabled_positions, ParseArchetype, ParseEcsWorld};

verus! {

/// The value of an `#[archetype_id(N)]` or `#[component_id(N)]` attribute.
#[derive(Clone, Copy, Debug, PartialEq, Eq, Structural)]
pub struct ParseAttributeId {
    pub value: u8,
}

/// What an attribute in a world or query declaration says.
#[derive(Clone, Debug)]
pub enum ParseAttributeData {
    Cfg(ParseAttributeCfg),
    ArchetypeId(ParseAttributeId),
    ComponentId(ParseAttributeId),
}

/// An attribute in a world or query declaration.
#[derive(Clone, Debug)]
pub struct ParseAttribute {
    pub data: ParseAttributeData,
}

/// What the parser looked for where it stopped.
#[derive(Clone, Copy, Debug, PartialEq, Eq, Structural)]
pub enum Expected {
    /// An identifier that is not a keyword.
    Ident,
    /// An integer literal.
    IntLit,
    /// A parenthesized group.
    Parens,
    /// A bracketed group.
    Brackets,
    /// `#`.
    Pound,
    /// `!`.
    Bang,
    /// `,`.
    Comma,
    /// `;`.
    Semi,
    /// `:`.
    Colon,
    /// `&`.
    Amp,
    /// `<`.
    Lt,
    /// `>`.
    Gt,
    /// The keyword that starts a world item.
    Item,
    /// The keyword that starts an attribute.
    Attribute,
    /// A component name's generic argument.
    Generic,
    /// The archetype argument of an entity handle type.
    EntityArg,
    /// The next alternative of a `OneOf`, or its end.
    OneOfItem,
    /// A query parameter type.
    ParamType,
    /// A query parameter name.
    ParamName,
    /// The next query parameter, or the end of the parameters.
    ParamStart,
}

impl Expected {
    /// Whether the expectation is a single punctuation character.
    pub open spec fn spec_is_punct(self) -> bool {
        self is Pound || self is Bang || self is Comma || self is Semi || self is Colon || self is Amp
            || self is Lt || self is Gt
    }

    /// Whether the expectation is a single punctuation character.
    pub fn is_punct(&self) -> (r: bool)
        ensures
            r == self.spec_is_punct(),
    {
        match self {
            Expected::Pound | Expected::Bang | Expected::Comma | Expected::Semi | Expected::Colon
            | Expected::Amp | Expected::Lt | Expected::Gt => true,
            _ => false,
        }
    }

    /// What the parser reports having looked for.
    pub open spec fn spec_message(self) -> Seq<char> {
        match self {
            Expected::Ident => "expected identifier"@,
            Expected::IntLit => "expected integer literal"@,
            Expected::Parens => "expected parentheses"@,
            Expected::Brackets => "expected square brackets"@,
            Expected::Pound => "expected `#`"@,
            Expected::Bang => "expected `!`"@,
            Expected::Comma => "expected `,`"@,
            Expected::Semi => "expected `;`"@,
            Expected::Colon => "expected `:`"@,
            Expected::Amp => "expected `&`"@,
            Expected::Lt => "expected `<`"@,
            Expected::Gt => "expected `>`"@,
            Expected::Item => "expected `ecs_archetype` or `ecs_name`"@,
            Expected::Attribute => "expected one of: `cfg`, `archetype_id`, `component_id`"@,
            Expected::Generic => "expected one of: `_`, identifier, integer literal"@,
            Expected::EntityArg => "expected `_` or identifier"@,
            Expected::OneOfItem => "expected identifier or `>`"@,
            Expected::ParamType => "expected one of: `Entity`, `EntityDirect`, `EntityAny`, `EntityDirectAny`, `OneOf`, `Option`, `With`, `Without`, identifier"@,
            Expected::ParamName => "expected `_` or identifier"@,
            Expected::ParamStart => "expected one of: `|`, identifier, `_`, `#`"@,
        }
    }

    /// What the parser reports having looked for.
    pub fn message(&self) -> (r: &'static str)
        ensures
            r@ == self.spec_message(),
    {
        match self {
            Expected::Ident => "expected identifier",
            Expected::IntLit => "expected integer literal",
            Expected::Parens => "expected parentheses",
            Expected::Brackets => "expected square brackets",
            Expected::Pound => "expected `#`",
            Expected::Bang => "expected `!`",
            Expected::Comma => "expected `,`",
            Expected::Semi => "expected `;`",
            Expected::Colon => "expected `:`",
            Expected::Amp => "expected `&`",
            Expected::Lt => "expected `<`",
            Expected::Gt => "expected `>`",
            Expected::Item => "expected `ecs_archetype` or `ecs_name`",
            Expected::Attribute => "expected one of: `cfg`, `archetype_id`, `component_id`",
            Expected::Generic => "expected one of: `_`, identifier, integer literal",
            Expected::EntityArg => "expected `_` or identifier",
            Expected::OneOfItem => "expected identifier or `>`",
            Expected::ParamType =>
                "expected one of: `Entity`, `EntityDirect`, `EntityAny`, `EntityDirectAny`, `OneOf`, `Option`, `With`, `Without`, identifier",
            Expected::ParamName => "expected `_` or identifier",
            Expected::ParamStart => "expected one of: `|`, identifier, `_`, `#`",
        }
    }
}

/// What is wrong with a declaration.
#[derive(Clone, Copy, Debug, PartialEq, Eq, Structural)]
pub enum ParseErrorKind {
    DuplicateComponentId,
    DuplicateArchetypeId,
    UnsupportedAttribute,
    InvalidAttributePosition,
    PlaceholderNotSupported,
    MutEntityAccess,
    NoArchetypes,
    IllegalComponentName,
    /// The parser looked for something else here.
    Expected(Expected),
    /// A parenthesized group holds more than its content.
    UnexpectedInParens,
    /// A bracketed group holds more than its content.
    UnexpectedInBrackets,
    ReservedOption,
    ReservedWith,
    ReservedWithout,
    InvalidIdValue,
}

/// A declaration error and where it is: the position of the token it
/// concerns (the input's length for its end), or zero for a world without
/// archetypes.
#[derive(Clone, Copy, Debug, PartialEq, Eq, Structural)]
pub struct ParseError {
    pub at: usize,
    pub kind: ParseErrorKind,
}

impl ParseErrorKind {
    /// The message reported for this error.
    pub open spec fn spec_message(self) -> Seq<char> {
        match self {
            ParseErrorKind::DuplicateComponentId => "duplicate component id assignments"@,
            ParseErrorKind::DuplicateArchetypeId => "duplicate archetype id assignments"@,
            ParseErrorKind::UnsupportedAttribute => "this attribute is not supported here"@,
            ParseErrorKind::InvalidAttributePosition => "invalid attribute for this position"@,
            ParseErrorKind::PlaceholderNotSupported => "placeholder not supported here"@,
            ParseErrorKind::MutEntityAccess => "mut entity access is forbidden"@,
            ParseErrorKind::NoArchetypes => "ecs world must have at least one archetype"@,
            ParseErrorKind::IllegalComponentName => "illegal component name"@,
            ParseErrorKind::Expected(x) => x.spec_message(),
            ParseErrorKind::UnexpectedInParens => "unexpected token, expected `)`"@,
            ParseErrorKind::UnexpectedInBrackets => "unexpected token, expected `]`"@,
            ParseErrorKind::ReservedOption => "reserved special 'Option' not yet implemented"@,
            ParseErrorKind::ReservedWith => "reserved special 'With' not yet implemented"@,
            ParseErrorKind::ReservedWithout => "reserved special 'Without' not yet implemented"@,
            ParseErrorKind::InvalidIdValue => "number too large to fit in target type"@,
        }
    }

    /// The message reported for this error.
    pub fn message(&self) -> (r: &'static str)
        ensures
            r@ == self.spec_message(),
            *self == ParseErrorKind::DuplicateComponentId ==> r@ == "duplicate component id assignments"@,
            *self == ParseErrorKind::DuplicateArchetypeId ==> r@ == "duplicate archetype id assignments"@,
            *self == ParseErrorKind::UnsupportedAttribute ==> r@ == "this attribute is not supported here"@,
            *self == ParseErrorKind::InvalidAttributePosition ==> r@ == "invalid attribute for this position"@,
            *self == ParseErrorKind::PlaceholderNotSupported ==> r@ == "placeholder not supported here"@,
            *self == ParseErrorKind::MutEntityAccess ==> r@ == "mut entity access is forbidden"@,
            *self == ParseErrorKind::NoArchetypes ==> r@ == "ecs world must have at least one archetype"@,
            *self == ParseErrorKind::IllegalComponentName ==> r@ == "illegal component name"@,
            *self == ParseErrorKind::UnexpectedInParens ==> r@ == "unexpected token, expected `)`"@,
            *self == ParseErrorKind::UnexpectedInBrackets ==> r@ == "unexpected token, expected `]`"@,
            *self == ParseErrorKind::ReservedOption ==> r@ == "reserved special 'Option' not yet implemented"@,
            *self == ParseErrorKind::ReservedWith ==> r@ == "reserved special 'With' not yet implemented"@,
            *self == ParseErrorKind::ReservedWithout ==> r@ == "reserved special 'Without' not yet implemented"@,
            *self == ParseErrorKind::InvalidIdValue ==> r@ == "number too large to fit in target type"@,
            *self matches ParseErrorKind::Expected(x) ==> r@ == x.spec_message(),
    {
        match self {
            ParseErrorKind::DuplicateComponentId => "duplicate component id assignments",
            ParseErrorKind::DuplicateArchetypeId => "duplicate archetype id assignments",
            ParseErrorKind::UnsupportedAttribute => "this attribute is not supported here",
            ParseErrorKind::InvalidAttributePosition => "invalid attribute for this position",
            ParseErrorKind::PlaceholderNotSupported => "placeholder not supported here",
            ParseErrorKind::MutEntityAccess => "mut entity access is forbidden",
            ParseErrorKind::NoArchetypes => "ecs world must have at least one archetype",
            ParseErrorKind::IllegalComponentName => "illegal component name",
            ParseErrorKind::Expected(x) => x.message(),
            ParseErrorKind::UnexpectedInParens => "unexpected token, expected `)`",
            ParseErrorKind::UnexpectedInBrackets => "unexpected token, expected `]`",
            ParseErrorKind::ReservedOption => "reserved special 'Option' not yet implemented",
            ParseErrorKind::ReservedWith => "reserved special 'With' not yet implemented",
            ParseErrorKind::ReservedWithout => "reserved special 'Without' not yet implemented",
            ParseErrorKind::InvalidIdValue => "number too large to fit in target type",
        }
    }
}

/// An item of an `ecs_world!` body.
#[derive(Debug)]
pub enum ParseItem {
    ParseName(String),
    ParseArchetype(ParseArchetype),
}

/// Whether the item is an `ecs_name!` giving the name `s`.
pub open spec fn item_names(item: ParseItem, s: String) -> bool {
    match item {
        ParseItem::ParseName(n) => n == s,
        _ => false,
    }
}

/// Whether the item is the archetype `a`.
pub open spec fn item_holds(item: ParseItem, a: ParseArchetype) -> bool {
    match item {
        ParseItem::ParseArchetype(b) => b == a,
        _ => false,
    }
}

/// Whether item `i` names the world.
pub open spec fn names_world(items: Seq<ParseItem>, i: int) -> bool {
    items[i] is ParseName
}

impl ParseEcsWorld {
    /// Collects the world from its items: the last `ecs_name!` names it
    /// (`EcsWorld` without one), and it must have an archetype.
    pub fn from_items(items: Vec<ParseItem>) -> (r: Result<ParseEcsWorld, ParseError>)
        ensures
            r is Err <==> forall|i: int| 0 <= i < items@.len() ==> names_world(items@, i),
            r matches Err(e) ==> e == (ParseError { at: 0, kind: ParseErrorKind::NoArchetypes }),
            r matches Ok(w) ==> {
                &&& (forall|i: int| 0 <= i < items@.len() ==> !names_world(items@, i)) ==> w.name@ == "EcsWorld"@
                &&& forall|i: int| 0 <= i < items@.len() && names_world(items@, i) && (forall|j: int| i < j < items@.len() ==> !names_world(items@, j)) ==> item_names(items@[i], w.name)
                &&& w.archetypes@.len() == enabled_positions(items@.map_values(|it: ParseItem| it is ParseArchetype)).len()
                &&& forall|k: int| 0 <= k < w.archetypes@.len() ==> item_holds(items@[enabled_positions(items@.map_values(|it: ParseItem| it is ParseArchetype))[k]], #[trigger] w.archetypes@[k])
            },
    {
        proof {
            reveal_strlit("EcsWorld");
        }
        let mut name = String::from_str("EcsWorld");
        let mut archetypes: Vec<ParseArchetype> = Vec::new();
        let ghost mut name_at: int = -1;
        let ghost all = items@;
        let mut items = items;
        let mut rest: Vec<ParseItem> = Vec::new();
        // Keep the declaration order: walk the items from the back.
        let mut n = items.len();
        while n > 0
            invariant
                items@ == all.take(n as int),
                n <= all.len(),
                rest@.len() == all.len() - n,
                forall|k: int| 0 <= k < rest@.len() ==> rest@[k] == all[all.len() - 1 - k],
            decreases n,
        {
            let item = items.pop().unwrap();
            rest.push(item);
            n = n - 1;
            proof {
                assert(items@ =~= all.take(n as int));
            }
        }
        let m = rest.len();
        let mut i: usize = 0;
        while i < m
            invariant
                m == all.len(),
                i <= m,
                rest@.len() == all.len() - i,
                forall|k: int| 0 <= k < rest@.len() ==> rest@[k] == all[all.len() - 1 - k],
                -1 <= name_at < i,
                name_at == -1 ==> name@ == "EcsWorld"@ && forall|j: int| 0 <= j < i ==> !names_world(all, j),
                name_at >= 0 ==> item_names(all[name_at], name) && names_world(all, name_at) && forall|j: int| name_at < j < i ==> !names_world(all, j),
                archetypes@.len() == enabled_positions(all.take(i as int).map_values(|it: ParseItem| it is ParseArchetype)).len(),
                forall|k: int| 0 <= k < archetypes@.len() ==> item_holds(all[enabled_positions(all.take(i as int).map_values(|it: ParseItem| it is ParseArchetype))[k]], #[trigger] archetypes@[k]),
            decreases m - i,
        {
            proof {
                assert(all.take(i + 1).drop_last() =~= all.take(i as int));
                assert(all.take(i + 1).map_values(|it: ParseItem| it is ParseArchetype).drop_last() =~= all.take(i as int).map_values(|it: ParseItem| it is ParseArchetype));
                assert(rest@.last() == all[i as int]);
            }
            let item = rest.pop().unwrap();
            let ghost f = all.take(i as int).map_values(|it: ParseItem| it is ParseArchetype);
            let ghost f1 = all.take(i + 1).map_values(|it: ParseItem| it is ParseArchetype);
            let ghost old_arch = archetypes@;
            proof {
                lemma_enabled_positions(f);
            }
            match item {
                ParseItem::ParseArchetype(archetype) => {
                    archetypes.push(archetype);
                    proof {
                        assert(enabled_positions(f1) == enabled_positions(f).push(i as int));
                        assert forall|k: int| 0 <= k < archetypes@.len() implies item_holds(all[enabled_positions(f1)[k]], #[trigger] archetypes@[k]) by {
                            if k < old_arch.len() {
                                assert(archetypes@[k] == old_arch[k]);
                            }
                        }
                    }
                },
                ParseItem::ParseName(n) => {
                    name = n;
                    proof {
                        name_at = i as int;
                    }
                },
            }
            i = i + 1;
        }
        proof {
            assert(all.take(m as int) =~= all);
        }
        if archetypes.len() == 0 {
            proof {
                assert forall|i: int| 0 <= i < all.len() implies names_world(all, i) by {
                    if !names_world(all, i) {
                        lemma_positions_cover(all.map_values(|it: ParseItem| it is ParseArchetype), i);
                    }
                }
            }
            return Err(ParseError { at: 0, kind: ParseErrorKind::NoArchetypes });
        }
        proof {
            let f = all.map_values(|it: ParseItem| it is ParseArchetype);
            lemma_enabled_positions(f);
            let p = enabled_positions(f)[0];
            assert(!names_world(all, p));
        }
        Ok(ParseEcsWorld { name, archetypes })
    }
}

/// A set flag's position is among the enabled positions.
pub proof fn lemma_positions_cover(flags: Seq<bool>, i: int)
    requires
        0 <= i < flags.len(),
        flags[i],
    ensures
        enabled_positions(flags).len() > 0,
    decreases flags.len(),
{
    if i < flags.len() - 1 {
        lemma_positions_cover(flags.drop_last(), i);
    }
}

} // verus!
