use vstd::prelude::*;

use crate::cfg::ParseAttributeCfg;
use crate::codec::{decimal, digit_char};
use crate::data::{ParseArchetype, ParseComponent, ParseComponentGeneric, ParseComponentName};
use crate::names::{is_allowed_component_name, str_equal};
use crate::parse::{Expected, ParseAttribute, ParseAttributeData, ParseAttributeId, ParseError, ParseErrorKind, ParseItem};
use crate::query::{ParamTypeModel, ParseQueryParam, ParseQueryParamType};

verus! {

/// The delimiter of a token group.
#[derive(Clone, Copy, Debug, PartialEq, Eq, Structural)]
pub enum Delim {
    Paren,
    Bracket,
    Brace,
    Invisible,
}

/// What kind of token a lexeme is.
#[derive(Clone, Debug)]
pub enum LexemeKind {
    /// An identifier that is not a keyword.
    Ident,
    /// `_`.
    Underscore,
    /// A keyword, such as `mut`.
    Keyword,
    /// A punctuation character; `joint` when it is glued to the next one.
    Punct { joint: bool },
    /// An integer literal, with its value's decimal digits.
    LitInt { digits: String },
    /// Any other literal.
    Lit,
    /// The start of a group.
    Open(Delim),
    /// The end of a group.
    Close(Delim),
}

/// One token of macro input, with each group flattened into an opening
/// mark, its tokens, and a closing mark: its kind and its source text.
#[derive(Clone, Debug)]
pub struct Lexeme {
    pub kind: LexemeKind,
    pub text: String,
}

/// An error at lexeme `i` (the end of input when `i` is the length).
pub open spec fn err_at(i: int, kind: ParseErrorKind) -> ParseError {
    ParseError { at: i as usize, kind }
}

/// A parse result with its end position as an integer.
pub open spec fn lifted<T>(r: Result<(T, usize), ParseError>) -> Result<(T, int), ParseError> {
    match r {
        Ok((v, j)) => Ok((v, j as int)),
        Err(e) => Err(e),
    }
}

/// Lexeme `i` is an identifier.
pub open spec fn is_ident(lx: Seq<Lexeme>, i: int) -> bool {
    0 <= i < lx.len() && lx[i].kind is Ident
}

/// Lexeme `i` is the identifier `w`.
pub open spec fn is_word(lx: Seq<Lexeme>, i: int, w: Seq<char>) -> bool {
    is_ident(lx, i) && lx[i].text@ == w
}

/// Lexeme `i` is the punctuation `c`.
pub open spec fn is_punct(lx: Seq<Lexeme>, i: int, c: Seq<char>) -> bool {
    0 <= i < lx.len() && lx[i].kind is Punct && lx[i].text@ == c
}

/// Lexeme `i` is `_`.
pub open spec fn is_underscore(lx: Seq<Lexeme>, i: int) -> bool {
    0 <= i < lx.len() && lx[i].kind is Underscore
}

/// Lexeme `i` is an integer literal.
pub open spec fn is_lit_int(lx: Seq<Lexeme>, i: int) -> bool {
    0 <= i < lx.len() && lx[i].kind is LitInt
}

/// Lexeme `i` opens a group with the delimiter.
pub open spec fn is_open(lx: Seq<Lexeme>, i: int, d: Delim) -> bool {
    0 <= i < lx.len() && lx[i].kind == LexemeKind::Open(d)
}

/// Lexeme `i` closes a group with the delimiter.
pub open spec fn is_close(lx: Seq<Lexeme>, i: int, d: Delim) -> bool {
    0 <= i < lx.len() && lx[i].kind == LexemeKind::Close(d)
}

/// Whether the name is one of the special query type names.
pub open spec fn reserved_name(s: Seq<char>) -> bool {
    s == "Entity"@ || s == "EntityAny"@ || s == "OneOf"@ || s == "AnyOf"@ || s == "Option"@
}

/// The generic argument at lexeme `i`: `_`, an identifier, or an integer literal.
pub open spec fn spec_generic(lx: Seq<Lexeme>, i: int) -> Option<ParseComponentGeneric> {
    if is_underscore(lx, i) {
        Some(ParseComponentGeneric::Placeholder)
    } else if is_ident(lx, i) {
        Some(ParseComponentGeneric::Ident(lx[i].text))
    } else if is_lit_int(lx, i) {
        Some(ParseComponentGeneric::LitInt(lx[i].text))
    } else {
        None
    }
}

/// The component name at lexeme `i` and the position after it: an
/// identifier that is not a special query type name, optionally followed by
/// `<`, one generic argument, an optional `,`, and `>`.
pub open spec fn spec_component_name(lx: Seq<Lexeme>, i: int) -> Result<(ParseComponentName, int), ParseError> {
    if !is_ident(lx, i) {
        Err(err_at(i, ParseErrorKind::Expected(Expected::Ident)))
    } else if reserved_name(lx[i].text@) {
        Err(err_at(i, ParseErrorKind::IllegalComponentName))
    } else if !is_punct(lx, i + 1, "<"@) {
        Ok((ParseComponentName { name: lx[i].text, generic: None }, i + 1))
    } else {
        match spec_generic(lx, i + 2) {
            None => Err(err_at(i + 2, ParseErrorKind::Expected(Expected::Generic))),
            Some(g) => {
                let after = if is_punct(lx, i + 3, ","@) {
                    i + 4
                } else {
                    i + 3
                };
                if is_punct(lx, after, ">"@) {
                    Ok((ParseComponentName { name: lx[i].text, generic: Some(g) }, after + 1))
                } else {
                    Err(err_at(after, ParseErrorKind::Expected(Expected::Gt)))
                }
            },
        }
    }
}

/// Whether lexeme `i` is the punctuation `c`.
pub fn punct_is(lx: &Vec<Lexeme>, i: usize, c: &str) -> (r: bool)
    ensures
        r == is_punct(lx@, i as int, c@),
{
    if i >= lx.len() {
        return false;
    }
    let l = &lx[i];
    match &l.kind {
        LexemeKind::Punct { .. } => str_equal(l.text.as_str(), c),
        _ => false,
    }
}

/// Whether lexeme `i` is the identifier `w`.
pub fn word_is(lx: &Vec<Lexeme>, i: usize, w: &str) -> (r: bool)
    ensures
        r == is_word(lx@, i as int, w@),
{
    if i >= lx.len() {
        return false;
    }
    let l = &lx[i];
    match &l.kind {
        LexemeKind::Ident => str_equal(l.text.as_str(), w),
        _ => false,
    }
}

/// Whether lexeme `i` opens a group with the delimiter.
pub fn open_is(lx: &Vec<Lexeme>, i: usize, d: Delim) -> (r: bool)
    ensures
        r == is_open(lx@, i as int, d),
{
    if i >= lx.len() {
        return false;
    }
    match &lx[i].kind {
        LexemeKind::Open(o) => *o == d,
        _ => false,
    }
}

/// Whether lexeme `i` closes a group with the delimiter.
pub fn close_is(lx: &Vec<Lexeme>, i: usize, d: Delim) -> (r: bool)
    ensures
        r == is_close(lx@, i as int, d),
{
    if i >= lx.len() {
        return false;
    }
    match &lx[i].kind {
        LexemeKind::Close(c) => *c == d,
        _ => false,
    }
}

/// The identifier at lexeme `i`, if it is one.
pub fn ident_at(lx: &Vec<Lexeme>, i: usize) -> (r: Option<String>)
    ensures
        r is Some <==> is_ident(lx@, i as int),
        r matches Some(s) ==> s == lx@[i as int].text,
{
    if i >= lx.len() {
        return None;
    }
    match &lx[i].kind {
        LexemeKind::Ident => Some(lx[i].text.clone()),
        _ => None,
    }
}

fn parse_generic(lx: &Vec<Lexeme>, i: usize) -> (r: Option<ParseComponentGeneric>)
    ensures
        r == spec_generic(lx@, i as int),
{
    if i >= lx.len() {
        return None;
    }
    let l = &lx[i];
    match &l.kind {
        LexemeKind::Underscore => Some(ParseComponentGeneric::Placeholder),
        LexemeKind::Ident => Some(ParseComponentGeneric::Ident(l.text.clone())),
        LexemeKind::LitInt { .. } => Some(ParseComponentGeneric::LitInt(l.text.clone())),
        _ => None,
    }
}

/// Parses the component name at lexeme `i`.
pub fn parse_component_name(lx: &Vec<Lexeme>, i: usize) -> (r: Result<(ParseComponentName, usize), ParseError>)
    requires
        i <= lx@.len(),
    ensures
        lifted(r) == spec_component_name(lx@, i as int),
{
    if i >= lx.len() {
        return Err(ParseError { at: i, kind: ParseErrorKind::Expected(Expected::Ident) });
    }
    let name = match ident_at(lx, i) {
        Some(s) => s,
        None => {
            return Err(ParseError { at: i, kind: ParseErrorKind::Expected(Expected::Ident) });
        },
    };
    if !is_allowed_component_name(name.as_str()) {
        return Err(ParseError { at: i, kind: ParseErrorKind::IllegalComponentName });
    }
    if i + 1 >= lx.len() || !punct_is(lx, i + 1, "<") {
        return Ok((ParseComponentName { name, generic: None }, i + 1));
    }
    let generic = match parse_generic(lx, i + 2) {
        Some(g) => g,
        None => {
            return Err(ParseError { at: i + 2, kind: ParseErrorKind::Expected(Expected::Generic) });
        },
    };
    let after = if punct_is(lx, i + 3, ",") {
        i + 4
    } else {
        i + 3
    };
    if punct_is(lx, after, ">") {
        Ok((ParseComponentName { name, generic: Some(generic) }, after + 1))
    } else {
        Err(ParseError { at: after, kind: ParseErrorKind::Expected(Expected::Gt) })
    }
}

/// The archetype argument of `Entity` or `EntityDirect`, starting at the
/// `<` at lexeme `i`: `_` (`None`) or an archetype name, then `>`.
pub open spec fn spec_entity_arg(lx: Seq<Lexeme>, i: int) -> Result<(Option<String>, int), ParseError> {
    if !is_punct(lx, i, "<"@) {
        Err(err_at(i, ParseErrorKind::Expected(Expected::Lt)))
    } else if is_underscore(lx, i + 1) || is_ident(lx, i + 1) {
        if is_punct(lx, i + 2, ">"@) {
            Ok(
                (
                    if is_underscore(lx, i + 1) {
                        None
                    } else {
                        Some(lx[i + 1].text)
                    },
                    i + 3,
                ),
            )
        } else {
            Err(err_at(i + 2, ParseErrorKind::Expected(Expected::Gt)))
        }
    } else {
        Err(err_at(i + 1, ParseErrorKind::Expected(Expected::EntityArg)))
    }
}

/// The alternatives of a `OneOf`, from lexeme `i` (after its `<`) on, after
/// the ones in `acc`: component names, each followed by an optional `,`,
/// up to the closing `>`.
pub open spec fn spec_one_of_items(lx: Seq<Lexeme>, i: int, acc: Seq<ParseComponentName>) -> Result<
    (Seq<ParseComponentName>, int),
    ParseError,
>
    decreases lx.len() - i,
{
    if is_ident(lx, i) {
        match spec_component_name(lx, i) {
            Err(e) => Err(e),
            Ok((n, j)) => {
                let k = if is_punct(lx, j, ","@) {
                    j + 1
                } else {
                    j
                };
                spec_one_of_items(lx, k, acc.push(n))
            },
        }
    } else if is_punct(lx, i, ">"@) {
        Ok((acc, i + 1))
    } else {
        Err(err_at(i, ParseErrorKind::Expected(Expected::OneOfItem)))
    }
}

/// The parameter type at lexeme `i` and the position after it: an entity
/// handle type, a `OneOf` of component names, or a component name. The
/// reserved special types are refused.
pub open spec fn spec_param_type(lx: Seq<Lexeme>, i: int) -> Result<(ParamTypeModel, int), ParseError> {
    if is_word(lx, i, "Entity"@) {
        match spec_entity_arg(lx, i + 1) {
            Err(e) => Err(e),
            Ok((None, j)) => Ok((ParamTypeModel::EntityWild, j)),
            Ok((Some(a), j)) => Ok((ParamTypeModel::Entity(a), j)),
        }
    } else if is_word(lx, i, "EntityDirect"@) {
        match spec_entity_arg(lx, i + 1) {
            Err(e) => Err(e),
            Ok((None, j)) => Ok((ParamTypeModel::EntityDirectWild, j)),
            Ok((Some(a), j)) => Ok((ParamTypeModel::EntityDirect(a), j)),
        }
    } else if is_word(lx, i, "EntityAny"@) {
        Ok((ParamTypeModel::EntityAny, i + 1))
    } else if is_word(lx, i, "EntityDirectAny"@) {
        Ok((ParamTypeModel::EntityDirectAny, i + 1))
    } else if is_word(lx, i, "OneOf"@) {
        if !is_punct(lx, i + 1, "<"@) {
            Err(err_at(i + 1, ParseErrorKind::Expected(Expected::Lt)))
        } else {
            match spec_one_of_items(lx, i + 2, Seq::empty()) {
                Err(e) => Err(e),
                Ok((args, j)) => Ok((ParamTypeModel::OneOf(args), j)),
            }
        }
    } else if is_word(lx, i, "Option"@) {
        Err(err_at(i, ParseErrorKind::ReservedOption))
    } else if is_word(lx, i, "With"@) {
        Err(err_at(i, ParseErrorKind::ReservedWith))
    } else if is_word(lx, i, "Without"@) {
        Err(err_at(i, ParseErrorKind::ReservedWithout))
    } else if !is_ident(lx, i) {
        Err(err_at(i, ParseErrorKind::Expected(Expected::ParamType)))
    } else {
        match spec_component_name(lx, i) {
            Err(e) => Err(e),
            Ok((n, j)) => Ok((ParamTypeModel::Component(n), j)),
        }
    }
}

/// The accepted forms of a parameter type, each stated directly: a plain
/// component name, `Entity<_>`, `Entity<A>`, `EntityAny`, and a `OneOf` of
/// two plain component names.
pub proof fn lemma_param_type_forms(lx: Seq<Lexeme>, i: int)
    requires
        0 <= i,
    ensures
        is_ident(lx, i) && !reserved_name(lx[i].text@) && !is_punct(lx, i + 1, "<"@) && lx[i].text@ != "EntityDirect"@
            && lx[i].text@ != "EntityDirectAny"@ && lx[i].text@ != "With"@ && lx[i].text@ != "Without"@
            ==> spec_param_type(lx, i) == Ok::<(ParamTypeModel, int), ParseError>(
            (ParamTypeModel::Component(ParseComponentName { name: lx[i].text, generic: None }), i + 1),
        ),
        is_word(lx, i, "Entity"@) && is_punct(lx, i + 1, "<"@) && is_underscore(lx, i + 2) && is_punct(lx, i + 3, ">"@)
            ==> spec_param_type(lx, i) == Ok::<(ParamTypeModel, int), ParseError>((ParamTypeModel::EntityWild, i + 4)),
        is_word(lx, i, "Entity"@) && is_punct(lx, i + 1, "<"@) && is_ident(lx, i + 2) && is_punct(lx, i + 3, ">"@)
            ==> spec_param_type(lx, i) == Ok::<(ParamTypeModel, int), ParseError>(
            (ParamTypeModel::Entity(lx[i + 2].text), i + 4),
        ),
        is_word(lx, i, "EntityAny"@) ==> spec_param_type(lx, i) == Ok::<(ParamTypeModel, int), ParseError>(
            (ParamTypeModel::EntityAny, i + 1),
        ),
        is_word(lx, i, "OneOf"@) && is_punct(lx, i + 1, "<"@) && is_ident(lx, i + 2) && !reserved_name(lx[i + 2].text@)
            && is_punct(lx, i + 3, ","@) && is_ident(lx, i + 4) && !reserved_name(lx[i + 4].text@) && is_punct(
            lx,
            i + 5,
            ">"@,
        ) ==> spec_param_type(lx, i) == Ok::<(ParamTypeModel, int), ParseError>(
            (
                ParamTypeModel::OneOf(
                    seq![
                        ParseComponentName { name: lx[i + 2].text, generic: None },
                        ParseComponentName { name: lx[i + 4].text, generic: None },
                    ],
                ),
                i + 6,
            ),
        ),
{
    reveal_strlit("Entity");
    reveal_strlit("EntityDirect");
    reveal_strlit("EntityAny");
    reveal_strlit("EntityDirectAny");
    reveal_strlit("OneOf");
    reveal_strlit("Option");
    reveal_strlit("With");
    reveal_strlit("Without");
    reveal_strlit("<");
    reveal_strlit(">");
    reveal_strlit(",");
    assert("EntityAny"@ != "Entity"@) by { assert("EntityAny"@.len() != "Entity"@.len()); }
    assert("EntityAny"@ != "EntityDirect"@) by { assert("EntityAny"@.len() != "EntityDirect"@.len()); }
    if is_word(lx, i, "EntityAny"@) {
        assert(!is_word(lx, i, "Entity"@));
        assert(!is_word(lx, i, "EntityDirect"@));
    }
    if is_word(lx, i, "OneOf"@) && is_punct(lx, i + 1, "<"@) && is_ident(lx, i + 2) && !reserved_name(lx[i + 2].text@)
        && is_punct(lx, i + 3, ","@) && is_ident(lx, i + 4) && !reserved_name(lx[i + 4].text@) && is_punct(lx, i + 5, ">"@) {
        let a = ParseComponentName { name: lx[i + 2].text, generic: None };
        let b = ParseComponentName { name: lx[i + 4].text, generic: None };
        assert(","@ != "<"@) by { assert(","@[0] != "<"@[0]); }
        assert(">"@ != "<"@) by { assert(">"@[0] != "<"@[0]); }
        assert(">"@ != ","@) by { assert(">"@[0] != ","@[0]); }
        assert(!is_punct(lx, i + 3, "<"@));
        assert(!is_punct(lx, i + 5, "<"@));
        assert(!is_punct(lx, i + 5, ","@));
        assert(spec_component_name(lx, i + 2) == Ok::<(ParseComponentName, int), ParseError>((a, i + 3)));
        assert(spec_component_name(lx, i + 4) == Ok::<(ParseComponentName, int), ParseError>((b, i + 5)));
        assert(spec_one_of_items(lx, i + 5, seq![a, b]) == Ok::<(Seq<ParseComponentName>, int), ParseError>((seq![a, b], i + 6)));
        assert(seq![a] == Seq::<ParseComponentName>::empty().push(a));
        assert(seq![a, b] == seq![a].push(b));
        assert(spec_one_of_items(lx, i + 4, seq![a]) == spec_one_of_items(lx, i + 5, seq![a, b]));
        assert(spec_one_of_items(lx, i + 2, Seq::empty()) == spec_one_of_items(lx, i + 4, seq![a]));
        assert("OneOf"@.len() != "Entity"@.len() && "OneOf"@.len() != "EntityDirect"@.len()
            && "OneOf"@.len() != "EntityAny"@.len() && "OneOf"@.len() != "EntityDirectAny"@.len());
        assert(!is_word(lx, i, "Entity"@) && !is_word(lx, i, "EntityDirect"@) && !is_word(lx, i, "EntityAny"@)
            && !is_word(lx, i, "EntityDirectAny"@));
    }
}

/// The direct handle forms of a parameter type, each stated directly:
/// `EntityDirect<A>` keeps the archetype name `A`, `EntityDirect<_>` stands
/// for any archetype, and `EntityDirectAny` is the untyped handle. The
/// reserved `Option`, `With` and `Without` are refused where they stand.
pub proof fn lemma_param_type_direct_forms(lx: Seq<Lexeme>, i: int)
    requires
        0 <= i,
    ensures
        is_word(lx, i, "EntityDirect"@) && is_punct(lx, i + 1, "<"@) && is_ident(lx, i + 2) && is_punct(lx, i + 3, ">"@)
            ==> spec_param_type(lx, i) == Ok::<(ParamTypeModel, int), ParseError>(
            (ParamTypeModel::EntityDirect(lx[i + 2].text), i + 4),
        ),
        is_word(lx, i, "EntityDirect"@) && is_punct(lx, i + 1, "<"@) && is_underscore(lx, i + 2) && is_punct(
            lx,
            i + 3,
            ">"@,
        ) ==> spec_param_type(lx, i) == Ok::<(ParamTypeModel, int), ParseError>((ParamTypeModel::EntityDirectWild, i + 4)),
        is_word(lx, i, "EntityDirectAny"@) ==> spec_param_type(lx, i) == Ok::<(ParamTypeModel, int), ParseError>(
            (ParamTypeModel::EntityDirectAny, i + 1),
        ),
        is_word(lx, i, "Option"@) ==> spec_param_type(lx, i) == Err::<(ParamTypeModel, int), ParseError>(
            err_at(i, ParseErrorKind::ReservedOption),
        ),
        is_word(lx, i, "With"@) ==> spec_param_type(lx, i) == Err::<(ParamTypeModel, int), ParseError>(
            err_at(i, ParseErrorKind::ReservedWith),
        ),
        is_word(lx, i, "Without"@) ==> spec_param_type(lx, i) == Err::<(ParamTypeModel, int), ParseError>(
            err_at(i, ParseErrorKind::ReservedWithout),
        ),
{
    reveal_strlit("Entity");
    reveal_strlit("EntityDirect");
    reveal_strlit("EntityAny");
    reveal_strlit("EntityDirectAny");
    reveal_strlit("OneOf");
    reveal_strlit("Option");
    reveal_strlit("With");
    reveal_strlit("Without");
    let words = seq!["Entity"@, "EntityDirect"@, "EntityAny"@, "EntityDirectAny"@, "OneOf"@, "Option"@, "With"@, "Without"@];
    assert forall|a: int, b: int| 0 <= a < 8 && 0 <= b < 8 && a != b implies words[a] != words[b] by {
        if words[a].len() == words[b].len() {
            assert(words[a][0] != words[b][0] || words[a][1] != words[b][1] || words[a][4] != words[b][4]);
        }
    }
    assert(words[0] == "Entity"@ && words[1] == "EntityDirect"@ && words[2] == "EntityAny"@ && words[3]
        == "EntityDirectAny"@ && words[4] == "OneOf"@ && words[5] == "Option"@ && words[6] == "With"@ && words[7]
        == "Without"@);
}

/// A component parameter type with a generic argument keeps the argument as
/// written: an identifier or an integer literal.
pub proof fn lemma_param_type_generic_forms(lx: Seq<Lexeme>, i: int)
    requires
        0 <= i,
        is_ident(lx, i),
        !reserved_name(lx[i].text@),
        lx[i].text@ != "EntityDirect"@,
        lx[i].text@ != "EntityDirectAny"@,
        lx[i].text@ != "With"@,
        lx[i].text@ != "Without"@,
        is_punct(lx, i + 1, "<"@),
        is_punct(lx, i + 3, ">"@),
    ensures
        is_ident(lx, i + 2) ==> spec_param_type(lx, i) == Ok::<(ParamTypeModel, int), ParseError>(
            (
                ParamTypeModel::Component(
                    ParseComponentName { name: lx[i].text, generic: Some(ParseComponentGeneric::Ident(lx[i + 2].text)) },
                ),
                i + 4,
            ),
        ),
        is_lit_int(lx, i + 2) ==> spec_param_type(lx, i) == Ok::<(ParamTypeModel, int), ParseError>(
            (
                ParamTypeModel::Component(
                    ParseComponentName { name: lx[i].text, generic: Some(ParseComponentGeneric::LitInt(lx[i + 2].text)) },
                ),
                i + 4,
            ),
        ),
{
    reveal_strlit(">");
    reveal_strlit(",");
    assert(">"@ != ","@) by {
        assert(">"@[0] != ","@[0]);
    }
    assert(!is_punct(lx, i + 3, ","@));
}

/// A parsed parameter type with its end position, as values.
pub open spec fn lifted_type(r: Result<(ParseQueryParamType, usize), ParseError>) -> Result<
    (ParamTypeModel, int),
    ParseError,
> {
    match r {
        Ok((t, j)) => Ok((t.model(), j as int)),
        Err(e) => Err(e),
    }
}

fn parse_entity_arg(lx: &Vec<Lexeme>, i: usize) -> (r: Result<(Option<String>, usize), ParseError>)
    requires
        i <= lx@.len(),
    ensures
        lifted(r) == spec_entity_arg(lx@, i as int),
{
    let n = lx.len();
    if !punct_is(lx, i, "<") {
        return Err(ParseError { at: i, kind: ParseErrorKind::Expected(Expected::Lt) });
    }
    let arg = if i + 1 < n {
        match &lx[i + 1].kind {
            LexemeKind::Underscore => Some(None),
            LexemeKind::Ident => Some(Some(lx[i + 1].text.clone())),
            _ => None,
        }
    } else {
        None
    };
    match arg {
        None => Err(ParseError { at: i + 1, kind: ParseErrorKind::Expected(Expected::EntityArg) }),
        Some(a) => {
            if punct_is(lx, i + 2, ">") {
                Ok((a, i + 3))
            } else {
                Err(ParseError { at: i + 2, kind: ParseErrorKind::Expected(Expected::Gt) })
            }
        },
    }
}

fn parse_one_of_items(lx: &Vec<Lexeme>, i: usize) -> (r: Result<(Vec<ParseComponentName>, usize), ParseError>)
    requires
        i <= lx@.len(),
    ensures
        match r {
            Ok((v, j)) => spec_one_of_items(lx@, i as int, Seq::empty()) == Ok::<_, ParseError>((v@, j as int)),
            Err(e) => spec_one_of_items(lx@, i as int, Seq::empty()) == Err::<(Seq<ParseComponentName>, int), _>(e),
        },
{
    let mut acc: Vec<ParseComponentName> = Vec::new();
    let mut pos = i;
    loop
        invariant
            pos <= lx@.len(),
            spec_one_of_items(lx@, i as int, Seq::empty()) == spec_one_of_items(lx@, pos as int, acc@),
        decreases lx@.len() - pos,
    {
        if pos < lx.len() && ident_at(lx, pos).is_some() {
            match parse_component_name(lx, pos) {
                Err(e) => {
                    return Err(e);
                },
                Ok((n, j)) => {
                    let k = if punct_is(lx, j, ",") {
                        j + 1
                    } else {
                        j
                    };
                    acc.push(n);
                    pos = k;
                },
            }
        } else if punct_is(lx, pos, ">") {
            return Ok((acc, pos + 1));
        } else {
            return Err(ParseError { at: pos, kind: ParseErrorKind::Expected(Expected::OneOfItem) });
        }
    }
}

/// Parses the parameter type at lexeme `i`.
pub fn parse_param_type(lx: &Vec<Lexeme>, i: usize) -> (r: Result<(ParseQueryParamType, usize), ParseError>)
    requires
        i <= lx@.len(),
    ensures
        lifted_type(r) == spec_param_type(lx@, i as int),
{
    let n = lx.len();
    if word_is(lx, i, "Entity") {
        match parse_entity_arg(lx, i + 1) {
            Err(e) => Err(e),
            Ok((None, j)) => Ok((ParseQueryParamType::EntityWild, j)),
            Ok((Some(a), j)) => Ok((ParseQueryParamType::Entity(a), j)),
        }
    } else if word_is(lx, i, "EntityDirect") {
        match parse_entity_arg(lx, i + 1) {
            Err(e) => Err(e),
            Ok((None, j)) => Ok((ParseQueryParamType::EntityDirectWild, j)),
            Ok((Some(a), j)) => Ok((ParseQueryParamType::EntityDirect(a), j)),
        }
    } else if word_is(lx, i, "EntityAny") {
        Ok((ParseQueryParamType::EntityAny, i + 1))
    } else if word_is(lx, i, "EntityDirectAny") {
        Ok((ParseQueryParamType::EntityDirectAny, i + 1))
    } else if word_is(lx, i, "OneOf") {
        if !punct_is(lx, i + 1, "<") {
            Err(ParseError { at: i + 1, kind: ParseErrorKind::Expected(Expected::Lt) })
        } else {
            match parse_one_of_items(lx, i + 2) {
                Err(e) => Err(e),
                Ok((args, j)) => Ok((ParseQueryParamType::OneOf(args), j)),
            }
        }
    } else if word_is(lx, i, "Option") {
        Err(ParseError { at: i, kind: ParseErrorKind::ReservedOption })
    } else if word_is(lx, i, "With") {
        Err(ParseError { at: i, kind: ParseErrorKind::ReservedWith })
    } else if word_is(lx, i, "Without") {
        Err(ParseError { at: i, kind: ParseErrorKind::ReservedWithout })
    } else if ident_at(lx, i).is_none() {
        Err(ParseError { at: i, kind: ParseErrorKind::Expected(Expected::ParamType) })
    } else {
        match parse_component_name(lx, i) {
            Err(e) => Err(e),
            Ok((n, j)) => Ok((ParseQueryParamType::Component(n), j)),
        }
    }
}

/// The position of the lexeme that closes the group whose content starts
/// at lexeme `i`, with `depth` inner groups still open.
pub open spec fn spec_group_end(lx: Seq<Lexeme>, i: int, depth: nat) -> Option<int>
    decreases lx.len() - i,
{
    if i < 0 || i >= lx.len() {
        None
    } else if lx[i].kind is Close {
        if depth == 0 {
            Some(i)
        } else {
            spec_group_end(lx, i + 1, (depth - 1) as nat)
        }
    } else if lx[i].kind is Open {
        spec_group_end(lx, i + 1, depth + 1)
    } else {
        spec_group_end(lx, i + 1, depth)
    }
}

/// A group's end lies inside the input, at or after its start.
pub proof fn lemma_group_end_bounds(lx: Seq<Lexeme>, i: int, depth: nat)
    ensures
        spec_group_end(lx, i, depth) matches Some(c) ==> i <= c < lx.len() && lx[c].kind is Close,
    decreases lx.len() - i,
{
    if 0 <= i < lx.len() {
        if lx[i].kind is Close {
            if depth > 0 {
                lemma_group_end_bounds(lx, i + 1, (depth - 1) as nat);
            }
        } else if lx[i].kind is Open {
            lemma_group_end_bounds(lx, i + 1, depth + 1);
        } else {
            lemma_group_end_bounds(lx, i + 1, depth);
        }
    }
}

/// What separates a lexeme's text from the next one's: nothing after joint
/// punctuation, a space otherwise.
pub open spec fn separator(l: Lexeme) -> Seq<char> {
    if l.kind matches LexemeKind::Punct { joint } && joint {
        Seq::empty()
    } else {
        " "@
    }
}

/// The source text of a run of lexemes.
pub open spec fn joined_text(s: Seq<Lexeme>) -> Seq<char>
    decreases s.len(),
{
    if s.len() == 0 {
        Seq::empty()
    } else if s.len() == 1 {
        s[0].text@
    } else {
        joined_text(s.drop_last()) + separator(s[s.len() - 2]) + s.last().text@
    }
}

/// The value of a run of decimal digits.
pub open spec fn digits_value(d: Seq<char>) -> int
    decreases d.len(),
{
    if d.len() == 0 {
        0
    } else {
        digits_value(d.drop_last()) * 10 + (d.last() as int - 48)
    }
}

/// The `u8` that the decimal digits spell, if they are digits and it fits.
pub open spec fn spec_u8_of(d: Seq<char>) -> Option<u8> {
    if 0 < d.len() && (forall|k: int| 0 <= k < d.len() ==> '0' <= #[trigger] d[k] <= '9') && digits_value(d)
        <= 255 {
        Some(digits_value(d) as u8)
    } else {
        None
    }
}

/// The decimal digits of a number are digits, and their value is the number.
pub proof fn lemma_decimal_value(n: nat)
    ensures
        decimal(n).len() > 0,
        forall|k: int| 0 <= k < decimal(n).len() ==> '0' <= #[trigger] decimal(n)[k] <= '9',
        digits_value(decimal(n)) == n,
    decreases n,
{
    let c = digit_char(n % 10);
    assert(c as int == n % 10 + 48);
    if n < 10 {
        assert(seq![c].drop_last() =~= Seq::<char>::empty());
        assert(digits_value(seq![c]) == digits_value(Seq::<char>::empty()) * 10 + (c as int - 48));
    } else {
        lemma_decimal_value(n / 10);
        let s = decimal(n / 10);
        let t = s.push(c);
        assert(t.drop_last() =~= s);
        assert(digits_value(t) == digits_value(s) * 10 + (c as int - 48));
        assert(n == (n / 10) * 10 + n % 10);
        assert forall|k: int| 0 <= k < t.len() implies '0' <= #[trigger] t[k] <= '9' by {
            if k < s.len() {
                assert(t[k] == s[k]);
            }
        }
    }
}

/// Zeros in front of the digits do not change their value.
pub proof fn lemma_leading_zero(d: Seq<char>)
    ensures
        digits_value(seq!['0'] + d) == digits_value(d),
    decreases d.len(),
{
    let z = seq!['0'] + d;
    if d.len() > 0 {
        lemma_leading_zero(d.drop_last());
        assert(z.drop_last() =~= seq!['0'] + d.drop_last());
        assert(z.last() == d.last());
        assert(digits_value(z) == digits_value(z.drop_last()) * 10 + (z.last() as int - 48));
    } else {
        assert(z =~= seq!['0']);
        assert(z.drop_last() =~= Seq::<char>::empty());
        assert('0' as int == 48);
        assert(digits_value(z) == digits_value(z.drop_last()) * 10 + (z.last() as int - 48));
    }
}

/// An ID written with zeros in front is the same ID.
pub proof fn lemma_id_leading_zero(d: Seq<char>)
    requires
        d.len() > 0,
    ensures
        spec_u8_of(seq!['0'] + d) == spec_u8_of(d),
{
    lemma_leading_zero(d);
    let z = seq!['0'] + d;
    assert((forall|k: int| 0 <= k < z.len() ==> '0' <= #[trigger] z[k] <= '9') <==> (forall|k: int|
        0 <= k < d.len() ==> '0' <= #[trigger] d[k] <= '9')) by {
        if forall|k: int| 0 <= k < d.len() ==> '0' <= #[trigger] d[k] <= '9' {
            assert forall|k: int| 0 <= k < z.len() implies '0' <= #[trigger] z[k] <= '9' by {
                if k > 0 {
                    assert(z[k] == d[k - 1]);
                }
            }
        }
        if forall|k: int| 0 <= k < z.len() ==> '0' <= #[trigger] z[k] <= '9' {
            assert forall|k: int| 0 <= k < d.len() implies '0' <= #[trigger] d[k] <= '9' by {
                assert(z[k + 1] == d[k]);
            }
        }
    }
}

/// An attribute as a value.
pub enum AttrModel {
    Cfg(Seq<char>),
    ArchetypeId(u8),
    ComponentId(u8),
}

/// A parsed attribute as a value.
pub open spec fn attr_model(a: ParseAttribute) -> AttrModel {
    match a.data {
        ParseAttributeData::Cfg(c) => AttrModel::Cfg(c.predicate@),
        ParseAttributeData::ArchetypeId(v) => AttrModel::ArchetypeId(v.value),
        ParseAttributeData::ComponentId(v) => AttrModel::ComponentId(v.value),
    }
}

/// The attribute whose `#` is lexeme `i`, and the position after its `]`:
/// `#[cfg(predicate)]`, `#[archetype_id(N)]` or `#[component_id(N)]`.
/// Tokens left over inside the brackets or the parentheses are no error
/// here: they are reported once the whole input has parsed (see
/// `attr_leftover`).
pub open spec fn spec_attribute(lx: Seq<Lexeme>, i: int) -> Result<(AttrModel, int), ParseError> {
    let b = i + 2;
    if !is_punct(lx, i, "#"@) {
        Err(err_at(i, ParseErrorKind::Expected(Expected::Pound)))
    } else if !is_open(lx, i + 1, Delim::Bracket) {
        Err(err_at(i + 1, ParseErrorKind::Expected(Expected::Brackets)))
    } else {
        match spec_group_end(lx, b, 0) {
            None => Err(err_at(lx.len() as int, ParseErrorKind::Expected(Expected::Brackets))),
            Some(e) => if !is_close(lx, e, Delim::Bracket) {
                Err(err_at(e, ParseErrorKind::UnexpectedInBrackets))
            } else if is_word(lx, b, "cfg"@) {
                if !is_open(lx, b + 1, Delim::Paren) {
                    Err(err_at(b + 1, ParseErrorKind::Expected(Expected::Parens)))
                } else {
                    match spec_group_end(lx, b + 2, 0) {
                        None => Err(err_at(lx.len() as int, ParseErrorKind::Expected(Expected::Parens))),
                        Some(c) => if !is_close(lx, c, Delim::Paren) {
                            Err(err_at(c, ParseErrorKind::UnexpectedInParens))
                        } else {
                            Ok((AttrModel::Cfg(joined_text(lx.subrange(b + 2, c))), e + 1))
                        },
                    }
                }
            } else if is_word(lx, b, "archetype_id"@) || is_word(lx, b, "component_id"@) {
                if !is_open(lx, b + 1, Delim::Paren) {
                    Err(err_at(b + 1, ParseErrorKind::Expected(Expected::Parens)))
                } else if !is_lit_int(lx, b + 2) {
                    Err(err_at(b + 2, ParseErrorKind::Expected(Expected::IntLit)))
                } else {
                    match spec_u8_of(lx[b + 2].kind->digits@) {
                        None => Err(err_at(b + 2, ParseErrorKind::InvalidIdValue)),
                        Some(v) => if is_word(lx, b, "archetype_id"@) {
                            Ok((AttrModel::ArchetypeId(v), e + 1))
                        } else {
                            Ok((AttrModel::ComponentId(v), e + 1))
                        },
                    }
                }
            } else {
                Err(err_at(b, ParseErrorKind::Expected(Expected::Attribute)))
            },
        }
    }
}

/// The first tokens left over inside a parsed attribute's groups: in its
/// parentheses (an ID attribute's, after the integer), else in its brackets
/// after the parenthesized group.
pub open spec fn attr_leftover(lx: Seq<Lexeme>, i: int) -> Option<ParseError> {
    let b = i + 2;
    match spec_group_end(lx, b, 0) {
        None => None,
        Some(e) => if is_word(lx, b, "cfg"@) {
            match spec_group_end(lx, b + 2, 0) {
                None => None,
                Some(c) => if c + 1 != e {
                    Some(err_at(c + 1, ParseErrorKind::UnexpectedInBrackets))
                } else {
                    None
                },
            }
        } else if !is_close(lx, b + 3, Delim::Paren) {
            Some(err_at(b + 3, ParseErrorKind::UnexpectedInParens))
        } else if b + 4 != e {
            Some(err_at(b + 4, ParseErrorKind::UnexpectedInBrackets))
        } else {
            None
        },
    }
}

/// An attribute ends after where it starts, inside the input.
pub proof fn lemma_attribute_advances(lx: Seq<Lexeme>, i: int)
    ensures
        spec_attribute(lx, i) matches Ok((_, j)) ==> i < j <= lx.len(),
{
    lemma_group_end_bounds(lx, i + 2, 0);
}

/// An `#[archetype_id(N)]` or `#[component_id(N)]` attribute whose integer
/// is written as the decimal digits of `v` gives the ID `v` when `v` fits in
/// a `u8` (at most 255), and is refused as too large otherwise.
pub proof fn lemma_id_attribute_value(lx: Seq<Lexeme>, i: int, v: nat)
    requires
        0 <= i,
        is_punct(lx, i, "#"@),
        is_open(lx, i + 1, Delim::Bracket),
        is_word(lx, i + 2, "archetype_id"@) || is_word(lx, i + 2, "component_id"@),
        is_open(lx, i + 3, Delim::Paren),
        is_lit_int(lx, i + 4),
        lx[i + 4].kind->digits@ == decimal(v),
        is_close(lx, i + 5, Delim::Paren),
        is_close(lx, i + 6, Delim::Bracket),
    ensures
        v <= 255 && is_word(lx, i + 2, "archetype_id"@) ==> spec_attribute(lx, i) == Ok::<(AttrModel, int), ParseError>(
            (AttrModel::ArchetypeId(v as u8), i + 7),
        ),
        v <= 255 && is_word(lx, i + 2, "component_id"@) ==> spec_attribute(lx, i) == Ok::<(AttrModel, int), ParseError>(
            (AttrModel::ComponentId(v as u8), i + 7),
        ),
        v > 255 ==> spec_attribute(lx, i) == Err::<(AttrModel, int), ParseError>(
            err_at(i + 4, ParseErrorKind::InvalidIdValue),
        ),
{
    reveal_strlit("cfg");
    reveal_strlit("archetype_id");
    reveal_strlit("component_id");
    lemma_decimal_value(v);
    assert(spec_group_end(lx, i + 6, 0) == Some(i + 6));
    assert(spec_group_end(lx, i + 5, 1) == Some(i + 6));
    assert(spec_group_end(lx, i + 4, 1) == Some(i + 6));
    assert(spec_group_end(lx, i + 3, 0) == Some(i + 6));
    assert(spec_group_end(lx, i + 2, 0) == Some(i + 6));
    assert(!is_word(lx, i + 2, "cfg"@)) by {
        assert("cfg"@.len() != "archetype_id"@.len() && "cfg"@.len() != "component_id"@.len());
    }
    if is_word(lx, i + 2, "component_id"@) {
        assert(!is_word(lx, i + 2, "archetype_id"@)) by {
            assert("component_id"@[0] != "archetype_id"@[0]);
        }
    }
}

/// The attributes from lexeme `i` on, after those in `acc` (found at the
/// positions `at`): every `#[...]` in a row, and the position after them.
pub open spec fn spec_attributes(lx: Seq<Lexeme>, i: int, acc: Seq<AttrModel>, at: Seq<int>) -> Result<
    (Seq<AttrModel>, Seq<int>, int),
    ParseError,
>
    decreases lx.len() - i,
{
    if is_punct(lx, i, "#"@) {
        match spec_attribute(lx, i) {
            Err(e) => Err(e),
            Ok((a, j)) => {
                proof {
                    lemma_attribute_advances(lx, i);
                }
                spec_attributes(lx, j, acc.push(a), at.push(i))
            },
        }
    } else {
        Ok((acc, at, i))
    }
}

/// The `#[cfg]` predicates of a query parameter's attributes, which may only
/// be `#[cfg]`s: the first other one (at its position in `at`) is refused.
pub open spec fn spec_param_cfgs(attrs: Seq<AttrModel>, at: Seq<int>) -> Result<Seq<Seq<char>>, ParseError>
    decreases attrs.len(),
{
    if attrs.len() == 0 {
        Ok(Seq::empty())
    } else {
        match spec_param_cfgs(attrs.drop_last(), at.drop_last()) {
            Err(e) => Err(e),
            Ok(c) => match attrs.last() {
                AttrModel::Cfg(p) => Ok(c.push(p)),
                _ => Err(err_at(at.last(), ParseErrorKind::InvalidAttributePosition)),
            },
        }
    }
}

/// A query parameter as a value.
pub struct ParamModel {
    pub cfgs: Seq<Seq<char>>,
    pub name: Seq<char>,
    pub is_mut: bool,
    pub ty: ParamTypeModel,
}

/// A parsed query parameter as a value.
pub open spec fn param_model(p: ParseQueryParam) -> ParamModel {
    ParamModel {
        cfgs: p.cfgs@.map_values(|c: ParseAttributeCfg| c.predicate@),
        name: p.name@,
        is_mut: p.is_mut,
        ty: p.param_type.model(),
    }
}

/// Whether the parameter type is an entity handle type.
pub open spec fn is_entity_model(t: ParamTypeModel) -> bool {
    t is Entity || t is EntityAny || t is EntityWild || t is EntityDirect || t is EntityDirectAny
        || t is EntityDirectWild
}

/// Lexeme `i` is the keyword `w`.
pub open spec fn is_keyword(lx: Seq<Lexeme>, i: int, w: Seq<char>) -> bool {
    0 <= i < lx.len() && lx[i].kind is Keyword && lx[i].text@ == w
}

/// The query parameter at lexeme `i` and the position after it: `#[cfg]`
/// attributes, a name (or `_`), `:`, `&`, an optional `mut`, and its type.
/// Entities can not be taken mutably.
pub open spec fn spec_param(lx: Seq<Lexeme>, i: int) -> Result<(ParamModel, int), ParseError> {
    match spec_attributes(lx, i, Seq::empty(), Seq::empty()) {
        Err(e) => Err(e),
        Ok((attrs, at, k)) => match spec_param_cfgs(attrs, at) {
            Err(e) => Err(e),
            Ok(cfgs) => if !is_underscore(lx, k) && !is_ident(lx, k) {
                Err(err_at(k, ParseErrorKind::Expected(Expected::ParamName)))
            } else if !is_punct(lx, k + 1, ":"@) {
                Err(err_at(k + 1, ParseErrorKind::Expected(Expected::Colon)))
            } else if !is_punct(lx, k + 2, "&"@) {
                Err(err_at(k + 2, ParseErrorKind::Expected(Expected::Amp)))
            } else {
                let is_mut = is_keyword(lx, k + 3, "mut"@);
                let t = if is_mut {
                    k + 4
                } else {
                    k + 3
                };
                match spec_param_type(lx, t) {
                    Err(e) => Err(e),
                    Ok((ty, j)) => if is_mut && is_entity_model(ty) {
                        Err(err_at(t, ParseErrorKind::MutEntityAccess))
                    } else {
                        Ok((ParamModel { cfgs, name: lx[k].text@, is_mut, ty }, j))
                    },
                }
            },
        },
    }
}

/// One more open group closes one group later: after the close that ends
/// the inner group, the search goes on for the outer one.
pub proof fn lemma_group_end_skips_at(lx: Seq<Lexeme>, s: int, d: nat, c: int)
    requires
        spec_group_end(lx, s, d) == Some(c),
    ensures
        spec_group_end(lx, s, d + 1) == spec_group_end(lx, c + 1, 0),
    decreases lx.len() - s,
{
    if 0 <= s < lx.len() {
        if lx[s].kind is Close {
            if d > 0 {
                lemma_group_end_skips_at(lx, s + 1, (d - 1) as nat, c);
            }
        } else if lx[s].kind is Open {
            lemma_group_end_skips_at(lx, s + 1, d + 1, c);
        } else {
            lemma_group_end_skips_at(lx, s + 1, d, c);
        }
    }
}

/// The group whose content starts at `s` closes at `c`: so the group that
/// holds it continues after `c`.
pub proof fn lemma_group_end_skips(lx: Seq<Lexeme>, s: int, c: int)
    requires
        spec_group_end(lx, s, 0) == Some(c),
    ensures
        spec_group_end(lx, s, 1) == spec_group_end(lx, c + 1, 0),
{
    lemma_group_end_skips_at(lx, s, 0, c);
}

/// A query parameter without attributes, `name: &T` or `name: &mut T`
/// (the name may be `_`), has that name and type, and is mutable exactly
/// when `mut` is written; entity handle types can not be taken mutably.
pub proof fn lemma_param_forms(lx: Seq<Lexeme>, i: int)
    requires
        0 <= i,
        is_ident(lx, i) || is_underscore(lx, i),
        is_punct(lx, i + 1, ":"@),
        is_punct(lx, i + 2, "&"@),
    ensures
        !is_keyword(lx, i + 3, "mut"@) ==> (spec_param_type(lx, i + 3) matches Ok((t, j)) ==> spec_param(lx, i) == Ok::<
            (ParamModel, int),
            ParseError,
        >((ParamModel { cfgs: Seq::empty(), name: lx[i].text@, is_mut: false, ty: t }, j))),
        is_keyword(lx, i + 3, "mut"@) ==> (spec_param_type(lx, i + 4) matches Ok((t, j)) ==> (!(t is Entity
            || t is EntityAny || t is EntityWild || t is EntityDirect || t is EntityDirectAny || t is EntityDirectWild)
            ==> spec_param(lx, i) == Ok::<(ParamModel, int), ParseError>(
            (ParamModel { cfgs: Seq::empty(), name: lx[i].text@, is_mut: true, ty: t }, j),
        ))),
        is_keyword(lx, i + 3, "mut"@) ==> (spec_param_type(lx, i + 4) matches Ok((t, j)) ==> ((t is Entity
            || t is EntityAny || t is EntityWild || t is EntityDirect || t is EntityDirectAny || t is EntityDirectWild)
            ==> spec_param(lx, i) == Err::<(ParamModel, int), ParseError>(
            err_at(i + 4, ParseErrorKind::MutEntityAccess),
        ))),
{
    assert(spec_attributes(lx, i, Seq::empty(), Seq::empty()) == Ok::<(Seq<AttrModel>, Seq<int>, int), ParseError>(
        (Seq::empty(), Seq::empty(), i),
    ));
    assert(spec_param_cfgs(Seq::empty(), Seq::empty()) == Ok::<Seq<Seq<char>>, ParseError>(Seq::empty()));
}

/// A `#[cfg(...)]` attribute holds the text of what its parentheses hold.
pub proof fn lemma_cfg_attribute(lx: Seq<Lexeme>, i: int, c: int)
    requires
        0 <= i,
        is_punct(lx, i, "#"@),
        is_open(lx, i + 1, Delim::Bracket),
        is_word(lx, i + 2, "cfg"@),
        is_open(lx, i + 3, Delim::Paren),
        spec_group_end(lx, i + 4, 0) == Some(c),
        is_close(lx, c, Delim::Paren),
        is_close(lx, c + 1, Delim::Bracket),
    ensures
        spec_attribute(lx, i) == Ok::<(AttrModel, int), ParseError>(
            (AttrModel::Cfg(joined_text(lx.subrange(i + 4, c))), c + 2),
        ),
{
    lemma_group_end_bounds(lx, i + 4, 0);
    lemma_group_end_skips(lx, i + 4, c);
    assert(spec_group_end(lx, c + 1, 0) == Some(c + 1));
    assert(spec_group_end(lx, i + 3, 0) == spec_group_end(lx, i + 4, 1));
    assert(spec_group_end(lx, i + 2, 0) == spec_group_end(lx, i + 3, 0));
    assert(spec_group_end(lx, i + 2, 0) == Some(c + 1));
}

/// A parsed attribute with its end position, as values.
pub open spec fn lifted_attr(r: Result<(ParseAttribute, usize), ParseError>) -> Result<(AttrModel, int), ParseError> {
    match r {
        Ok((a, j)) => Ok((attr_model(a), j as int)),
        Err(e) => Err(e),
    }
}

fn group_end(lx: &Vec<Lexeme>, start: usize) -> (r: Option<usize>)
    requires
        start <= lx@.len(),
    ensures
        r matches Some(c) ==> spec_group_end(lx@, start as int, 0) == Some(c as int),
        r is None ==> spec_group_end(lx@, start as int, 0) is None,
{
    let n = lx.len();
    let mut pos = start;
    let mut depth: usize = 0;
    while pos < n
        invariant
            n == lx@.len(),
            start <= pos <= n,
            depth <= pos - start,
            spec_group_end(lx@, start as int, 0) == spec_group_end(lx@, pos as int, depth as nat),
        decreases n - pos,
    {
        match &lx[pos].kind {
            LexemeKind::Close(_) => {
                if depth == 0 {
                    return Some(pos);
                }
                depth = depth - 1;
            },
            LexemeKind::Open(_) => {
                depth = depth + 1;
            },
            _ => {},
        }
        pos = pos + 1;
    }
    None
}

fn joined(lx: &Vec<Lexeme>, start: usize, end: usize) -> (r: String)
    requires
        start <= end <= lx@.len(),
    ensures
        r@ == joined_text(lx@.subrange(start as int, end as int)),
{
    let mut text = String::new();
    let mut k = start;
    proof {
        assert(lx@.subrange(start as int, start as int) =~= Seq::<Lexeme>::empty());
    }
    while k < end
        invariant
            start <= k <= end,
            end <= lx@.len(),
            text@ == joined_text(lx@.subrange(start as int, k as int)),
        decreases end - k,
    {
        let ghost sub = lx@.subrange(start as int, k + 1);
        proof {
            assert(sub.drop_last() =~= lx@.subrange(start as int, k as int));
        }
        if k > start {
            let sep = match &lx[k - 1].kind {
                LexemeKind::Punct { joint } => if *joint {
                    ""
                } else {
                    " "
                },
                _ => " ",
            };
            proof {
                reveal_strlit("");
                reveal_strlit(" ");
                assert(sub[sub.len() - 2] == lx@[k - 1]);
            }
            text = text.concat(sep);
        } else {
            proof {
                assert(sub.len() == 1);
            }
        }
        text = text.concat(lx[k].text.as_str());
        proof {
            assert(text@ =~= joined_text(sub));
        }
        k = k + 1;
    }
    text
}

fn parse_u8_digits(d: &str) -> (r: Option<u8>)
    ensures
        r == spec_u8_of(d@),
{
    let n = d.unicode_len();
    if n == 0 {
        return None;
    }
    // The value so far, capped at 256 once it no longer fits.
    let mut value: u32 = 0;
    let mut k: usize = 0;
    while k < n
        invariant
            n == d@.len(),
            k <= n,
            forall|j: int| 0 <= j < k ==> '0' <= #[trigger] d@[j] <= '9',
            digits_value(d@.take(k as int)) >= 0,
            value == if digits_value(d@.take(k as int)) > 256 {
                256
            } else {
                digits_value(d@.take(k as int))
            },
        decreases n - k,
    {
        let c = d.get_char(k);
        if c < '0' || c > '9' {
            return None;
        }
        let digit = (c as u32) - 48;
        proof {
            assert(d@.take(k + 1).drop_last() =~= d@.take(k as int));
        }
        value = if value * 10 + digit > 256 {
            256
        } else {
            value * 10 + digit
        };
        k = k + 1;
    }
    proof {
        assert(d@.take(n as int) =~= d@);
    }
    if value > 255 {
        None
    } else {
        Some(value as u8)
    }
}

/// Parses the attribute whose `#` is lexeme `i`.
pub fn parse_attribute(lx: &Vec<Lexeme>, i: usize) -> (r: Result<(ParseAttribute, usize), ParseError>)
    requires
        i <= lx@.len(),
    ensures
        lifted_attr(r) == spec_attribute(lx@, i as int),
{
    let n = lx.len();
    if !punct_is(lx, i, "#") {
        return Err(ParseError { at: i, kind: ParseErrorKind::Expected(Expected::Pound) });
    }
    if !open_is(lx, i + 1, Delim::Bracket) {
        return Err(ParseError { at: i + 1, kind: ParseErrorKind::Expected(Expected::Brackets) });
    }
    let b = i + 2;
    let e = match group_end(lx, b) {
        None => {
            return Err(ParseError { at: n, kind: ParseErrorKind::Expected(Expected::Brackets) });
        },
        Some(e) => e,
    };
    proof {
        lemma_group_end_bounds(lx@, b as int, 0);
    }
    if !close_is(lx, e, Delim::Bracket) {
        return Err(ParseError { at: e, kind: ParseErrorKind::UnexpectedInBrackets });
    }
    if word_is(lx, b, "cfg") {
        if !open_is(lx, b + 1, Delim::Paren) {
            return Err(ParseError { at: b + 1, kind: ParseErrorKind::Expected(Expected::Parens) });
        }
        match group_end(lx, b + 2) {
            None => Err(ParseError { at: n, kind: ParseErrorKind::Expected(Expected::Parens) }),
            Some(c) => {
                proof {
                    lemma_group_end_bounds(lx@, b + 2, 0);
                }
                if !close_is(lx, c, Delim::Paren) {
                    Err(ParseError { at: c, kind: ParseErrorKind::UnexpectedInParens })
                } else {
                    let predicate = joined(lx, b + 2, c);
                    Ok((ParseAttribute { data: ParseAttributeData::Cfg(ParseAttributeCfg { predicate }) }, e + 1))
                }
            },
        }
    } else if word_is(lx, b, "archetype_id") || word_is(lx, b, "component_id") {
        if !open_is(lx, b + 1, Delim::Paren) {
            return Err(ParseError { at: b + 1, kind: ParseErrorKind::Expected(Expected::Parens) });
        }
        if b + 2 >= n {
            return Err(ParseError { at: b + 2, kind: ParseErrorKind::Expected(Expected::IntLit) });
        }
        let value = match &lx[b + 2].kind {
            LexemeKind::LitInt { digits } => parse_u8_digits(digits.as_str()),
            _ => {
                return Err(ParseError { at: b + 2, kind: ParseErrorKind::Expected(Expected::IntLit) });
            },
        };
        match value {
            None => Err(ParseError { at: b + 2, kind: ParseErrorKind::InvalidIdValue }),
            Some(v) => {
                if word_is(lx, b, "archetype_id") {
                    Ok((ParseAttribute { data: ParseAttributeData::ArchetypeId(ParseAttributeId { value: v }) }, e + 1))
                } else {
                    Ok((ParseAttribute { data: ParseAttributeData::ComponentId(ParseAttributeId { value: v }) }, e + 1))
                }
            },
        }
    } else {
        Err(ParseError { at: b, kind: ParseErrorKind::Expected(Expected::Attribute) })
    }
}

/// The first tokens left over inside the groups of the attribute whose `#`
/// is lexeme `i`.
fn attribute_leftover(lx: &Vec<Lexeme>, i: usize) -> (r: Option<ParseError>)
    requires
        i <= lx@.len(),
        spec_attribute(lx@, i as int) is Ok,
    ensures
        r == attr_leftover(lx@, i as int),
{
    let n = lx.len();
    proof {
        assert(is_open(lx@, i + 1, Delim::Bracket));
    }
    let b = i + 2;
    proof {
        lemma_group_end_bounds(lx@, b as int, 0);
        lemma_group_end_bounds(lx@, b + 2, 0);
    }
    match group_end(lx, b) {
        None => None,
        Some(e) => {
            if word_is(lx, b, "cfg") {
                proof {
                    assert(is_open(lx@, b + 1, Delim::Paren));
                }
                match group_end(lx, b + 2) {
                    None => None,
                    Some(c) => if c + 1 != e {
                        Some(ParseError { at: c + 1, kind: ParseErrorKind::UnexpectedInBrackets })
                    } else {
                        None
                    },
                }
            } else if !close_is(lx, b + 3, Delim::Paren) {
                proof {
                    assert(is_lit_int(lx@, b + 2));
                }
                Some(ParseError { at: b + 3, kind: ParseErrorKind::UnexpectedInParens })
            } else if b + 4 != e {
                Some(ParseError { at: b + 4, kind: ParseErrorKind::UnexpectedInBrackets })
            } else {
                None
            }
        },
    }
}

/// The models of parsed attributes.
pub open spec fn attr_models(v: Seq<ParseAttribute>) -> Seq<AttrModel> {
    v.map_values(|a: ParseAttribute| attr_model(a))
}

/// Positions as integers.
pub open spec fn positions(v: Seq<usize>) -> Seq<int> {
    v.map_values(|p: usize| p as int)
}

/// Parses the attributes from lexeme `i` on: every `#[...]` in a row. Also
/// gives where each attribute starts, and the position after them.
pub fn parse_attributes(lx: &Vec<Lexeme>, i: usize) -> (r: Result<(Vec<ParseAttribute>, Vec<usize>, usize), ParseError>)
    requires
        i <= lx@.len(),
    ensures
        match r {
            Ok((attrs, at, k)) => spec_attributes(lx@, i as int, Seq::empty(), Seq::empty()) == Ok::<_, ParseError>(
                (attr_models(attrs@), positions(at@), k as int),
            ) && k <= lx@.len() && attrs@.len() == at@.len(),
            Err(e) => spec_attributes(lx@, i as int, Seq::empty(), Seq::empty()) == Err::<
                (Seq<AttrModel>, Seq<int>, int),
                _,
            >(e),
        },
{
    let mut attrs: Vec<ParseAttribute> = Vec::new();
    let mut at: Vec<usize> = Vec::new();
    let mut pos = i;
    proof {
        assert(attr_models(attrs@) =~= Seq::<AttrModel>::empty());
        assert(positions(at@) =~= Seq::<int>::empty());
    }
    while punct_is(lx, pos, "#")
        invariant
            pos <= lx@.len(),
            attrs@.len() == at@.len(),
            spec_attributes(lx@, i as int, Seq::empty(), Seq::empty()) == spec_attributes(
                lx@,
                pos as int,
                attr_models(attrs@),
                positions(at@),
            ),
        decreases lx@.len() - pos,
    {
        proof {
            lemma_attribute_advances(lx@, pos as int);
        }
        match parse_attribute(lx, pos) {
            Err(e) => {
                return Err(e);
            },
            Ok((a, j)) => {
                let ghost old_attrs = attrs@;
                let ghost old_at = at@;
                attrs.push(a);
                at.push(pos);
                proof {
                    assert(attr_models(attrs@) =~= attr_models(old_attrs).push(attr_model(a)));
                    assert(positions(at@) =~= positions(old_at).push(pos as int));
                }
                pos = j;
            },
        }
    }
    Ok((attrs, at, pos))
}

/// Once the attributes up to `m` are refused, so are all of them, with the
/// same error.
pub proof fn lemma_param_cfgs_err_extends(attrs: Seq<AttrModel>, at: Seq<int>, m: int)
    requires
        0 <= m <= attrs.len(),
        attrs.len() == at.len(),
        spec_param_cfgs(attrs.take(m), at.take(m)) is Err,
    ensures
        spec_param_cfgs(attrs, at) == spec_param_cfgs(attrs.take(m), at.take(m)),
    decreases attrs.len(),
{
    if attrs.len() > m {
        assert(attrs.drop_last().take(m) =~= attrs.take(m));
        assert(at.drop_last().take(m) =~= at.take(m));
        lemma_param_cfgs_err_extends(attrs.drop_last(), at.drop_last(), m);
    } else {
        assert(attrs.take(m) =~= attrs);
        assert(at.take(m) =~= at);
    }
}

/// The `#[cfg]` predicates of a query parameter's attributes; refuses the
/// first attribute of another kind, at its position.
fn param_cfgs(attrs: &Vec<ParseAttribute>, at: &Vec<usize>) -> (r: Result<Vec<ParseAttributeCfg>, ParseError>)
    requires
        attrs@.len() == at@.len(),
    ensures
        match r {
            Ok(c) => spec_param_cfgs(attr_models(attrs@), positions(at@)) == Ok::<_, ParseError>(
                c@.map_values(|p: ParseAttributeCfg| p.predicate@),
            ),
            Err(e) => spec_param_cfgs(attr_models(attrs@), positions(at@)) == Err::<Seq<Seq<char>>, _>(e),
        },
{
    let mut cfgs: Vec<ParseAttributeCfg> = Vec::new();
    let n = attrs.len();
    let mut k: usize = 0;
    proof {
        assert(attr_models(attrs@).take(0) =~= Seq::<AttrModel>::empty());
        assert(positions(at@).take(0) =~= Seq::<int>::empty());
        assert(cfgs@.map_values(|p: ParseAttributeCfg| p.predicate@) =~= Seq::<Seq<char>>::empty());
    }
    while k < n
        invariant
            n == attrs@.len(),
            n == at@.len(),
            k <= n,
            spec_param_cfgs(attr_models(attrs@).take(k as int), positions(at@).take(k as int)) == Ok::<_, ParseError>(
                cfgs@.map_values(|p: ParseAttributeCfg| p.predicate@),
            ),
        decreases n - k,
    {
        proof {
            assert(attr_models(attrs@).take(k + 1).drop_last() =~= attr_models(attrs@).take(k as int));
            assert(positions(at@).take(k + 1).drop_last() =~= positions(at@).take(k as int));
        }
        match &attrs[k].data {
            ParseAttributeData::Cfg(c) => {
                let ghost old_cfgs = cfgs@;
                cfgs.push(c.copied());
                proof {
                    assert(cfgs@.map_values(|p: ParseAttributeCfg| p.predicate@) =~= old_cfgs.map_values(
                        |p: ParseAttributeCfg| p.predicate@,
                    ).push(c.predicate@));
                }
            },
            _ => {
                proof {
                    lemma_param_cfgs_err_extends(attr_models(attrs@), positions(at@), k + 1);
                }
                return Err(ParseError { at: at[k], kind: ParseErrorKind::InvalidAttributePosition });
            },
        }
        k = k + 1;
    }
    proof {
        assert(attr_models(attrs@).take(n as int) =~= attr_models(attrs@));
        assert(positions(at@).take(n as int) =~= positions(at@));
    }
    Ok(cfgs)
}

/// A parsed query parameter with its end position, as values.
pub open spec fn lifted_param(r: Result<(ParseQueryParam, usize), ParseError>) -> Result<(ParamModel, int), ParseError> {
    match r {
        Ok((p, j)) => Ok((param_model(p), j as int)),
        Err(e) => Err(e),
    }
}

/// Parses the query parameter at lexeme `i`.
pub fn parse_param(lx: &Vec<Lexeme>, i: usize) -> (r: Result<(ParseQueryParam, usize), ParseError>)
    requires
        i <= lx@.len(),
    ensures
        lifted_param(r) == spec_param(lx@, i as int),
        r matches Ok((p, _)) ==> p.is_cfg_enabled,
{
    let n = lx.len();
    let (attrs, at, k) = parse_attributes(lx, i)?;
    let cfgs = param_cfgs(&attrs, &at)?;
    if k >= n {
        return Err(ParseError { at: k, kind: ParseErrorKind::Expected(Expected::ParamName) });
    }
    let name = match &lx[k].kind {
        LexemeKind::Underscore => lx[k].text.clone(),
        LexemeKind::Ident => lx[k].text.clone(),
        _ => {
            return Err(ParseError { at: k, kind: ParseErrorKind::Expected(Expected::ParamName) });
        },
    };
    if !punct_is(lx, k + 1, ":") {
        return Err(ParseError { at: k + 1, kind: ParseErrorKind::Expected(Expected::Colon) });
    }
    if !punct_is(lx, k + 2, "&") {
        return Err(ParseError { at: k + 2, kind: ParseErrorKind::Expected(Expected::Amp) });
    }
    let is_mut = k + 3 < n && match &lx[k + 3].kind {
        LexemeKind::Keyword => str_equal(lx[k + 3].text.as_str(), "mut"),
        _ => false,
    };
    let t = if is_mut {
        k + 4
    } else {
        k + 3
    };
    let (param_type, j) = parse_param_type(lx, t)?;
    let entity = match &param_type {
        ParseQueryParamType::Entity(_) => true,
        ParseQueryParamType::EntityAny => true,
        ParseQueryParamType::EntityWild => true,
        ParseQueryParamType::EntityDirect(_) => true,
        ParseQueryParamType::EntityDirectAny => true,
        ParseQueryParamType::EntityDirectWild => true,
        _ => false,
    };
    if is_mut && entity {
        return Err(ParseError { at: t, kind: ParseErrorKind::MutEntityAccess });
    }
    Ok((ParseQueryParam { cfgs, name, is_mut, param_type, is_cfg_enabled: true }, j))
}

/// The attributes end between where they start and the end of input.
pub proof fn lemma_attributes_bounds(lx: Seq<Lexeme>, i: int, acc: Seq<AttrModel>, at: Seq<int>)
    requires
        0 <= i <= lx.len(),
    ensures
        spec_attributes(lx, i, acc, at) matches Ok((_, _, k)) ==> i <= k <= lx.len(),
    decreases lx.len() - i,
{
    if is_punct(lx, i, "#"@) {
        lemma_attribute_advances(lx, i);
        if let Ok((a, j)) = spec_attribute(lx, i) {
            lemma_attributes_bounds(lx, j, acc.push(a), at.push(i));
        }
    }
}

/// The alternatives of a `OneOf` end after where they start, inside the input.
pub proof fn lemma_one_of_items_bounds(lx: Seq<Lexeme>, i: int, acc: Seq<ParseComponentName>)
    requires
        0 <= i <= lx.len(),
    ensures
        spec_one_of_items(lx, i, acc) matches Ok((_, j)) ==> i < j <= lx.len(),
    decreases lx.len() - i,
{
    if is_ident(lx, i) {
        if let Ok((n, j)) = spec_component_name(lx, i) {
            let k = if is_punct(lx, j, ","@) {
                j + 1
            } else {
                j
            };
            lemma_one_of_items_bounds(lx, k, acc.push(n));
        }
    }
}

/// A query parameter ends after where it starts, inside the input.
pub proof fn lemma_param_advances(lx: Seq<Lexeme>, i: int)
    requires
        0 <= i <= lx.len(),
    ensures
        spec_param(lx, i) matches Ok((_, j)) ==> i < j <= lx.len(),
{
    lemma_attributes_bounds(lx, i, Seq::empty(), Seq::empty());
    if let Ok((attrs, at, k)) = spec_attributes(lx, i, Seq::empty(), Seq::empty()) {
        let t = if is_keyword(lx, k + 3, "mut"@) {
            k + 4
        } else {
            k + 3
        };
        if is_word(lx, t, "OneOf"@) && is_punct(lx, t + 1, "<"@) {
            lemma_one_of_items_bounds(lx, t + 2, Seq::empty());
        }
    }
}

/// The query parameters from lexeme `i` on, after those in `acc`, up to the
/// closing `|` of the closure: parameters, each followed by an optional `,`.
/// Gives the position of the `|`.
pub open spec fn spec_params(lx: Seq<Lexeme>, i: int, acc: Seq<ParamModel>) -> Result<(Seq<ParamModel>, int), ParseError>
    decreases lx.len() - i,
{
    if is_punct(lx, i, "|"@) {
        Ok((acc, i))
    } else if is_ident(lx, i) || is_underscore(lx, i) || is_punct(lx, i, "#"@) {
        match spec_param(lx, i) {
            Err(e) => Err(e),
            Ok((p, j)) => {
                proof {
                    lemma_param_advances(lx, i);
                }
                let k = if is_punct(lx, j, ","@) {
                    j + 1
                } else {
                    j
                };
                spec_params(lx, k, acc.push(p))
            },
        }
    } else {
        Err(err_at(i, ParseErrorKind::Expected(Expected::ParamStart)))
    }
}

/// The models of parsed query parameters.
pub open spec fn param_models(v: Seq<ParseQueryParam>) -> Seq<ParamModel> {
    v.map_values(|p: ParseQueryParam| param_model(p))
}

/// Parses the query closure's parameters from lexeme `i` on, up to the
/// closing `|`, whose position it also gives.
pub fn parse_params(lx: &Vec<Lexeme>, i: usize) -> (r: Result<(Vec<ParseQueryParam>, usize), ParseError>)
    requires
        i <= lx@.len(),
    ensures
        match r {
            Ok((v, j)) => spec_params(lx@, i as int, Seq::empty()) == Ok::<_, ParseError>((param_models(v@), j as int)),
            Err(e) => spec_params(lx@, i as int, Seq::empty()) == Err::<(Seq<ParamModel>, int), _>(e),
        },
        r matches Ok((v, _)) ==> forall|k: int| 0 <= k < v@.len() ==> (#[trigger] v@[k]).is_cfg_enabled,
{
    let mut params: Vec<ParseQueryParam> = Vec::new();
    let mut pos = i;
    proof {
        assert(param_models(params@) =~= Seq::<ParamModel>::empty());
    }
    loop
        invariant
            pos <= lx@.len(),
            spec_params(lx@, i as int, Seq::empty()) == spec_params(lx@, pos as int, param_models(params@)),
            forall|k: int| 0 <= k < params@.len() ==> (#[trigger] params@[k]).is_cfg_enabled,
        decreases lx@.len() - pos,
    {
        if punct_is(lx, pos, "|") {
            return Ok((params, pos));
        }
        let starts = punct_is(lx, pos, "#") || (pos < lx.len() && match &lx[pos].kind {
            LexemeKind::Ident => true,
            LexemeKind::Underscore => true,
            _ => false,
        });
        if !starts {
            return Err(ParseError { at: pos, kind: ParseErrorKind::Expected(Expected::ParamStart) });
        }
        proof {
            lemma_param_advances(lx@, pos as int);
        }
        let (p, j) = parse_param(lx, pos)?;
        let n = lx.len();
        let k = if punct_is(lx, j, ",") {
            j + 1
        } else {
            j
        };
        let ghost old_params = params@;
        params.push(p);
        proof {
            assert(param_models(params@) =~= param_models(old_params).push(param_model(p)));
        }
        pos = k;
    }
}

/// The `#[cfg]` predicates and the explicit ID of a world component
/// (`component` true) or archetype, from its attributes: an ID attribute of
/// the other kind is not supported there, and the ID may be given once.
pub open spec fn spec_id_attrs(attrs: Seq<AttrModel>, at: Seq<int>, component: bool) -> Result<
    (Seq<Seq<char>>, Option<u8>),
    ParseError,
>
    decreases attrs.len(),
{
    if attrs.len() == 0 {
        Ok((Seq::empty(), None))
    } else {
        match spec_id_attrs(attrs.drop_last(), at.drop_last(), component) {
            Err(e) => Err(e),
            Ok((cfgs, id)) => match attrs.last() {
                AttrModel::Cfg(p) => Ok((cfgs.push(p), id)),
                AttrModel::ComponentId(v) => if !component {
                    Err(err_at(at.last(), ParseErrorKind::UnsupportedAttribute))
                } else if id is Some {
                    Err(err_at(at.last(), ParseErrorKind::DuplicateComponentId))
                } else {
                    Ok((cfgs, Some(v)))
                },
                AttrModel::ArchetypeId(v) => if component {
                    Err(err_at(at.last(), ParseErrorKind::UnsupportedAttribute))
                } else if id is Some {
                    Err(err_at(at.last(), ParseErrorKind::DuplicateArchetypeId))
                } else {
                    Ok((cfgs, Some(v)))
                },
            },
        }
    }
}

/// Once the attributes up to `m` are refused, so are all of them, with the
/// same error.
pub proof fn lemma_id_attrs_err_extends(attrs: Seq<AttrModel>, at: Seq<int>, component: bool, m: int)
    requires
        0 <= m <= attrs.len(),
        attrs.len() == at.len(),
        spec_id_attrs(attrs.take(m), at.take(m), component) is Err,
    ensures
        spec_id_attrs(attrs, at, component) == spec_id_attrs(attrs.take(m), at.take(m), component),
    decreases attrs.len(),
{
    if attrs.len() > m {
        assert(attrs.drop_last().take(m) =~= attrs.take(m));
        assert(at.drop_last().take(m) =~= at.take(m));
        lemma_id_attrs_err_extends(attrs.drop_last(), at.drop_last(), component, m);
    } else {
        assert(attrs.take(m) =~= attrs);
        assert(at.take(m) =~= at);
    }
}

/// The `#[cfg]` predicates of a list of attributes, as texts.
pub open spec fn cfg_texts_of(v: Seq<ParseAttributeCfg>) -> Seq<Seq<char>> {
    v.map_values(|p: ParseAttributeCfg| p.predicate@)
}

fn id_attrs(attrs: &Vec<ParseAttribute>, at: &Vec<usize>, component: bool) -> (r: Result<
    (Vec<ParseAttributeCfg>, Option<u8>),
    ParseError,
>)
    requires
        attrs@.len() == at@.len(),
    ensures
        match r {
            Ok((c, id)) => spec_id_attrs(attr_models(attrs@), positions(at@), component) == Ok::<_, ParseError>(
                (cfg_texts_of(c@), id),
            ),
            Err(e) => spec_id_attrs(attr_models(attrs@), positions(at@), component) == Err::<
                (Seq<Seq<char>>, Option<u8>),
                _,
            >(e),
        },
{
    let mut cfgs: Vec<ParseAttributeCfg> = Vec::new();
    let mut id: Option<u8> = None;
    let n = attrs.len();
    let mut k: usize = 0;
    proof {
        assert(attr_models(attrs@).take(0) =~= Seq::<AttrModel>::empty());
        assert(positions(at@).take(0) =~= Seq::<int>::empty());
        assert(cfg_texts_of(cfgs@) =~= Seq::<Seq<char>>::empty());
    }
    while k < n
        invariant
            n == attrs@.len(),
            n == at@.len(),
            k <= n,
            spec_id_attrs(attr_models(attrs@).take(k as int), positions(at@).take(k as int), component) == Ok::<
                _,
                ParseError,
            >((cfg_texts_of(cfgs@), id)),
        decreases n - k,
    {
        proof {
            assert(attr_models(attrs@).take(k + 1).drop_last() =~= attr_models(attrs@).take(k as int));
            assert(positions(at@).take(k + 1).drop_last() =~= positions(at@).take(k as int));
        }
        let bad = match &attrs[k].data {
            ParseAttributeData::Cfg(c) => {
                let ghost old_cfgs = cfgs@;
                cfgs.push(c.copied());
                proof {
                    assert(cfg_texts_of(cfgs@) =~= cfg_texts_of(old_cfgs).push(c.predicate@));
                }
                None
            },
            ParseAttributeData::ComponentId(v) => if !component {
                Some(ParseErrorKind::UnsupportedAttribute)
            } else if id.is_some() {
                Some(ParseErrorKind::DuplicateComponentId)
            } else {
                id = Some(v.value);
                None
            },
            ParseAttributeData::ArchetypeId(v) => if component {
                Some(ParseErrorKind::UnsupportedAttribute)
            } else if id.is_some() {
                Some(ParseErrorKind::DuplicateArchetypeId)
            } else {
                id = Some(v.value);
                None
            },
        };
        if let Some(kind) = bad {
            proof {
                lemma_id_attrs_err_extends(attr_models(attrs@), positions(at@), component, k + 1);
            }
            return Err(ParseError { at: at[k], kind });
        }
        k = k + 1;
    }
    proof {
        assert(attr_models(attrs@).take(n as int) =~= attr_models(attrs@));
        assert(positions(at@).take(n as int) =~= positions(at@));
    }
    Ok((cfgs, id))
}

/// A world component as a value, with where its name is.
pub struct ComponentModel {
    pub cfgs: Seq<Seq<char>>,
    pub id: Option<u8>,
    pub name: ParseComponentName,
    pub at: int,
}

/// A parsed world component, whose name is at `at`, as a value.
pub open spec fn component_model(c: ParseComponent, at: usize) -> ComponentModel {
    ComponentModel { cfgs: cfg_texts_of(c.cfgs@), id: c.id, name: c.name, at: at as int }
}

/// The world component at lexeme `i` and the position after it: its
/// attributes and its name. A placeholder generic is not supported there.
pub open spec fn spec_component(lx: Seq<Lexeme>, i: int) -> Result<(ComponentModel, int), ParseError> {
    match spec_attributes(lx, i, Seq::empty(), Seq::empty()) {
        Err(e) => Err(e),
        Ok((attrs, at, k)) => match spec_component_name(lx, k) {
            Err(e) => Err(e),
            Ok((name, j)) => if name.generic matches Some(ParseComponentGeneric::Placeholder) {
                Err(err_at(k + 2, ParseErrorKind::PlaceholderNotSupported))
            } else {
                match spec_id_attrs(attrs, at, true) {
                    Err(e) => Err(e),
                    Ok((cfgs, id)) => Ok((ComponentModel { cfgs, id, name, at: k }, j)),
                }
            },
        },
    }
}

/// A world component ends after where it starts, inside the input.
pub proof fn lemma_component_advances(lx: Seq<Lexeme>, i: int)
    requires
        0 <= i <= lx.len(),
    ensures
        spec_component(lx, i) matches Ok((_, j)) ==> i < j <= lx.len(),
{
    lemma_attributes_bounds(lx, i, Seq::empty(), Seq::empty());
}

fn parse_component(lx: &Vec<Lexeme>, i: usize) -> (r: Result<(ParseComponent, usize, usize), ParseError>)
    requires
        i <= lx@.len(),
    ensures
        match r {
            Ok((c, at, j)) => spec_component(lx@, i as int) == Ok::<_, ParseError>((component_model(c, at), j as int)),
            Err(e) => spec_component(lx@, i as int) == Err::<(ComponentModel, int), _>(e),
        },
{
    let (attrs, at, k) = parse_attributes(lx, i)?;
    let (name, j) = parse_component_name(lx, k)?;
    if let Some(ParseComponentGeneric::Placeholder) = name.generic {
        return Err(ParseError { at: k + 2, kind: ParseErrorKind::PlaceholderNotSupported });
    }
    let (cfgs, id) = id_attrs(&attrs, &at, true)?;
    Ok((ParseComponent { cfgs, id, name }, k, j))
}

/// The components of an archetype from lexeme `i` on, after those in `acc`,
/// up to `end`, where the archetype's group closes: components separated by
/// `,`, with an optional trailing `,`.
pub open spec fn spec_components(lx: Seq<Lexeme>, i: int, end: int, acc: Seq<ComponentModel>) -> Result<
    Seq<ComponentModel>,
    ParseError,
>
    decreases lx.len() - i,
{
    if i == end {
        Ok(acc)
    } else {
        match spec_component(lx, i) {
            Err(e) => Err(e),
            Ok((c, j)) => {
                proof {
                    if 0 <= i <= lx.len() {
                        lemma_component_advances(lx, i);
                    }
                }
                if j == end {
                    Ok(acc.push(c))
                } else if is_punct(lx, j, ","@) && 0 <= i < j {
                    spec_components(lx, j + 1, end, acc.push(c))
                } else {
                    Err(err_at(j, ParseErrorKind::Expected(Expected::Comma)))
                }
            },
        }
    }
}

/// Parsed world components, whose names are at `at`, as values.
pub open spec fn component_models(c: Seq<ParseComponent>, at: Seq<usize>) -> Seq<ComponentModel> {
    Seq::new(c.len(), |k: int| component_model(c[k], at[k]))
}

fn parse_components(lx: &Vec<Lexeme>, i: usize, end: usize) -> (r: Result<(Vec<ParseComponent>, Vec<usize>), ParseError>)
    requires
        i <= lx@.len(),
        end <= lx@.len(),
    ensures
        match r {
            Ok((c, at)) => c@.len() == at@.len() && spec_components(lx@, i as int, end as int, Seq::empty()) == Ok::<
                _,
                ParseError,
            >(component_models(c@, at@)),
            Err(e) => spec_components(lx@, i as int, end as int, Seq::empty()) == Err::<Seq<ComponentModel>, _>(e),
        },
{
    let n = lx.len();
    let mut comps: Vec<ParseComponent> = Vec::new();
    let mut at: Vec<usize> = Vec::new();
    let mut pos = i;
    proof {
        assert(component_models(comps@, at@) =~= Seq::<ComponentModel>::empty());
    }
    loop
        invariant
            n == lx@.len(),
            pos <= n,
            end <= n,
            comps@.len() == at@.len(),
            spec_components(lx@, i as int, end as int, Seq::empty()) == spec_components(
                lx@,
                pos as int,
                end as int,
                component_models(comps@, at@),
            ),
        decreases n - pos,
    {
        if pos == end {
            return Ok((comps, at));
        }
        proof {
            lemma_component_advances(lx@, pos as int);
        }
        let (c, c_at, j) = parse_component(lx, pos)?;
        let ghost old_models = component_models(comps@, at@);
        comps.push(c);
        at.push(c_at);
        proof {
            assert(component_models(comps@, at@) =~= old_models.push(component_model(c, c_at)));
        }
        if j == end {
            return Ok((comps, at));
        }
        if !punct_is(lx, j, ",") {
            return Err(ParseError { at: j, kind: ParseErrorKind::Expected(Expected::Comma) });
        }
        pos = j + 1;
    }
}

/// An item of a world declaration as a value: a world name, or an
/// archetype with where its name and its components' names are.
pub enum ItemModel {
    Name(String),
    Archetype { cfgs: Seq<Seq<char>>, id: Option<u8>, name: String, components: Seq<ComponentModel>, at: int },
}

/// A parsed world item, with where its parts are.
#[derive(Debug)]
pub struct ParsedItem {
    pub item: ParseItem,
    /// Where an archetype's name is.
    pub at: usize,
    /// Where each of an archetype's component names is.
    pub component_at: Vec<usize>,
}

/// A parsed world item as a value.
pub open spec fn item_model(p: ParsedItem) -> ItemModel {
    match p.item {
        ParseItem::ParseName(s) => ItemModel::Name(s),
        ParseItem::ParseArchetype(a) => ItemModel::Archetype {
            cfgs: cfg_texts_of(a.cfgs@),
            id: a.id,
            name: a.name,
            components: component_models(a.components@, p.component_at@),
            at: p.at as int,
        },
    }
}

/// The `ecs_archetype!(Name, components...)` whose keyword is lexeme `i`,
/// with the item's attributes (at the positions `at`), and the position
/// after its closing `)`.
pub open spec fn spec_archetype(lx: Seq<Lexeme>, i: int, attrs: Seq<AttrModel>, at: Seq<int>) -> Result<
    (ItemModel, int),
    ParseError,
> {
    if !is_punct(lx, i + 1, "!"@) {
        Err(err_at(i + 1, ParseErrorKind::Expected(Expected::Bang)))
    } else if !is_open(lx, i + 2, Delim::Paren) {
        Err(err_at(i + 2, ParseErrorKind::Expected(Expected::Parens)))
    } else {
        match spec_group_end(lx, i + 3, 0) {
            None => Err(err_at(lx.len() as int, ParseErrorKind::Expected(Expected::Parens))),
            Some(end) => if !is_close(lx, end, Delim::Paren) {
                Err(err_at(end, ParseErrorKind::UnexpectedInParens))
            } else if !is_ident(lx, i + 3) {
                Err(err_at(i + 3, ParseErrorKind::Expected(Expected::Ident)))
            } else if !is_punct(lx, i + 4, ","@) {
                Err(err_at(i + 4, ParseErrorKind::Expected(Expected::Comma)))
            } else {
                match spec_components(lx, i + 5, end, Seq::empty()) {
                    Err(e) => Err(e),
                    Ok(components) => match spec_id_attrs(attrs, at, false) {
                        Err(e) => Err(e),
                        Ok((cfgs, id)) => Ok(
                            (
                                ItemModel::Archetype { cfgs, id, name: lx[i + 3].text, components, at: i + 3 },
                                end + 1,
                            ),
                        ),
                    },
                }
            },
        }
    }
}

/// The `ecs_name!(Name)` whose keyword is lexeme `i`, which takes no
/// attributes, and the position after its closing `)`.
pub open spec fn spec_name_item(lx: Seq<Lexeme>, i: int, attrs: Seq<AttrModel>, at: Seq<int>) -> Result<
    (ItemModel, int),
    ParseError,
> {
    if attrs.len() > 0 {
        Err(err_at(at[0], ParseErrorKind::UnsupportedAttribute))
    } else if !is_punct(lx, i + 1, "!"@) {
        Err(err_at(i + 1, ParseErrorKind::Expected(Expected::Bang)))
    } else if !is_open(lx, i + 2, Delim::Paren) {
        Err(err_at(i + 2, ParseErrorKind::Expected(Expected::Parens)))
    } else if !is_ident(lx, i + 3) {
        Err(err_at(i + 3, ParseErrorKind::Expected(Expected::Ident)))
    } else {
        match spec_group_end(lx, i + 3, 0) {
            None => Err(err_at(lx.len() as int, ParseErrorKind::Expected(Expected::Parens))),
            Some(end) => if !is_close(lx, end, Delim::Paren) {
                Err(err_at(end, ParseErrorKind::UnexpectedInParens))
            } else {
                Ok((ItemModel::Name(lx[i + 3].text), end + 1))
            },
        }
    }
}

/// The first tokens left over inside the parentheses of the `ecs_name!`
/// whose keyword is lexeme `i`, after the name.
pub open spec fn name_leftover(lx: Seq<Lexeme>, i: int) -> Option<ParseError> {
    match spec_group_end(lx, i + 3, 0) {
        Some(end) => if end != i + 4 {
            Some(err_at(i + 4, ParseErrorKind::UnexpectedInParens))
        } else {
            None
        },
        None => None,
    }
}

/// The world item at lexeme `i` and the position after it: attributes, then
/// an `ecs_archetype!` or an `ecs_name!`.
pub open spec fn spec_item(lx: Seq<Lexeme>, i: int) -> Result<(ItemModel, int), ParseError> {
    match spec_attributes(lx, i, Seq::empty(), Seq::empty()) {
        Err(e) => Err(e),
        Ok((attrs, at, k)) => if is_word(lx, k, "ecs_archetype"@) {
            spec_archetype(lx, k, attrs, at)
        } else if is_word(lx, k, "ecs_name"@) {
            spec_name_item(lx, k, attrs, at)
        } else {
            Err(err_at(k, ParseErrorKind::Expected(Expected::Item)))
        },
    }
}

/// A world item ends after where it starts, inside the input.
pub proof fn lemma_item_advances(lx: Seq<Lexeme>, i: int)
    requires
        0 <= i <= lx.len(),
    ensures
        spec_item(lx, i) matches Ok((_, j)) ==> i < j <= lx.len(),
{
    lemma_attributes_bounds(lx, i, Seq::empty(), Seq::empty());
    if let Ok((attrs, at, k)) = spec_attributes(lx, i, Seq::empty(), Seq::empty()) {
        lemma_group_end_bounds(lx, k + 3, 0);
    }
}

/// The items of a world declaration from lexeme `i` on, after those in
/// `acc`, to the end of input: items separated by `;`, with an optional
/// trailing `;`.
pub open spec fn spec_items(lx: Seq<Lexeme>, i: int, acc: Seq<ItemModel>) -> Result<Seq<ItemModel>, ParseError>
    decreases lx.len() - i,
{
    if i >= lx.len() || i < 0 {
        Ok(acc)
    } else {
        match spec_item(lx, i) {
            Err(e) => Err(e),
            Ok((it, j)) => {
                proof {
                    lemma_item_advances(lx, i);
                }
                if j >= lx.len() {
                    Ok(acc.push(it))
                } else if is_punct(lx, j, ";"@) {
                    spec_items(lx, j + 1, acc.push(it))
                } else {
                    Err(err_at(j, ParseErrorKind::Expected(Expected::Semi)))
                }
            },
        }
    }
}

fn parse_archetype(lx: &Vec<Lexeme>, i: usize, attrs: &Vec<ParseAttribute>, at: &Vec<usize>) -> (r: Result<
    (ParsedItem, usize),
    ParseError,
>)
    requires
        i < lx@.len(),
        attrs@.len() == at@.len(),
    ensures
        match r {
            Ok((p, j)) => spec_archetype(lx@, i as int, attr_models(attrs@), positions(at@)) == Ok::<_, ParseError>(
                (item_model(p), j as int),
            ),
            Err(e) => spec_archetype(lx@, i as int, attr_models(attrs@), positions(at@)) == Err::<(ItemModel, int), _>(e),
        },
{
    let n = lx.len();
    if !punct_is(lx, i + 1, "!") {
        return Err(ParseError { at: i + 1, kind: ParseErrorKind::Expected(Expected::Bang) });
    }
    if !open_is(lx, i + 2, Delim::Paren) {
        return Err(ParseError { at: i + 2, kind: ParseErrorKind::Expected(Expected::Parens) });
    }
    let end = match group_end(lx, i + 3) {
        None => {
            return Err(ParseError { at: n, kind: ParseErrorKind::Expected(Expected::Parens) });
        },
        Some(end) => end,
    };
    proof {
        lemma_group_end_bounds(lx@, i + 3, 0);
    }
    if !close_is(lx, end, Delim::Paren) {
        return Err(ParseError { at: end, kind: ParseErrorKind::UnexpectedInParens });
    }
    let name = match ident_at(lx, i + 3) {
        Some(name) => name,
        None => {
            return Err(ParseError { at: i + 3, kind: ParseErrorKind::Expected(Expected::Ident) });
        },
    };
    if !punct_is(lx, i + 4, ",") {
        return Err(ParseError { at: i + 4, kind: ParseErrorKind::Expected(Expected::Comma) });
    }
    let (components, component_at) = parse_components(lx, i + 5, end)?;
    let (cfgs, id) = id_attrs(attrs, at, false)?;
    let item = ParsedItem {
        item: ParseItem::ParseArchetype(ParseArchetype { cfgs, id, name, components }),
        at: i + 3,
        component_at,
    };
    Ok((item, end + 1))
}

fn parse_name_item(lx: &Vec<Lexeme>, i: usize, attrs: &Vec<ParseAttribute>, at: &Vec<usize>) -> (r: Result<
    (ParsedItem, usize),
    ParseError,
>)
    requires
        i < lx@.len(),
        attrs@.len() == at@.len(),
    ensures
        match r {
            Ok((p, j)) => spec_name_item(lx@, i as int, attr_models(attrs@), positions(at@)) == Ok::<_, ParseError>(
                (item_model(p), j as int),
            ),
            Err(e) => spec_name_item(lx@, i as int, attr_models(attrs@), positions(at@)) == Err::<(ItemModel, int), _>(e),
        },
{
    let n = lx.len();
    if attrs.len() > 0 {
        return Err(ParseError { at: at[0], kind: ParseErrorKind::UnsupportedAttribute });
    }
    if !punct_is(lx, i + 1, "!") {
        return Err(ParseError { at: i + 1, kind: ParseErrorKind::Expected(Expected::Bang) });
    }
    if !open_is(lx, i + 2, Delim::Paren) {
        return Err(ParseError { at: i + 2, kind: ParseErrorKind::Expected(Expected::Parens) });
    }
    let name = match ident_at(lx, i + 3) {
        Some(name) => name,
        None => {
            return Err(ParseError { at: i + 3, kind: ParseErrorKind::Expected(Expected::Ident) });
        },
    };
    let end = match group_end(lx, i + 3) {
        None => {
            return Err(ParseError { at: n, kind: ParseErrorKind::Expected(Expected::Parens) });
        },
        Some(end) => end,
    };
    proof {
        lemma_group_end_bounds(lx@, i + 3, 0);
    }
    if !close_is(lx, end, Delim::Paren) {
        return Err(ParseError { at: end, kind: ParseErrorKind::UnexpectedInParens });
    }
    Ok((ParsedItem { item: ParseItem::ParseName(name), at: i + 3, component_at: Vec::new() }, end + 1))
}

fn parse_item(lx: &Vec<Lexeme>, i: usize) -> (r: Result<(ParsedItem, usize), ParseError>)
    requires
        i <= lx@.len(),
    ensures
        match r {
            Ok((p, j)) => spec_item(lx@, i as int) == Ok::<_, ParseError>((item_model(p), j as int)),
            Err(e) => spec_item(lx@, i as int) == Err::<(ItemModel, int), _>(e),
        },
{
    let (attrs, at, k) = parse_attributes(lx, i)?;
    if word_is(lx, k, "ecs_archetype") {
        parse_archetype(lx, k, &attrs, &at)
    } else if word_is(lx, k, "ecs_name") {
        parse_name_item(lx, k, &attrs, &at)
    } else {
        Err(ParseError { at: k, kind: ParseErrorKind::Expected(Expected::Item) })
    }
}

/// Parsed world items as values.
pub open spec fn item_models(v: Seq<ParsedItem>) -> Seq<ItemModel> {
    v.map_values(|p: ParsedItem| item_model(p))
}

/// Parses a world declaration's items: the whole input.
pub fn parse_world_items(lx: &Vec<Lexeme>) -> (r: Result<Vec<ParsedItem>, ParseError>)
    ensures
        match r {
            Ok(v) => spec_items(lx@, 0, Seq::empty()) == Ok::<_, ParseError>(item_models(v@)),
            Err(e) => spec_items(lx@, 0, Seq::empty()) == Err::<Seq<ItemModel>, _>(e),
        },
{
    let n = lx.len();
    let mut items: Vec<ParsedItem> = Vec::new();
    let mut pos: usize = 0;
    proof {
        assert(item_models(items@) =~= Seq::<ItemModel>::empty());
    }
    loop
        invariant
            n == lx@.len(),
            pos <= n,
            spec_items(lx@, 0, Seq::empty()) == spec_items(lx@, pos as int, item_models(items@)),
        decreases n - pos,
    {
        if pos >= n {
            return Ok(items);
        }
        proof {
            lemma_item_advances(lx@, pos as int);
        }
        let (item, j) = parse_item(lx, pos)?;
        let ghost old_models = item_models(items@);
        items.push(item);
        proof {
            assert(item_models(items@) =~= old_models.push(item_model(item)));
        }
        if j >= n {
            return Ok(items);
        }
        if !punct_is(lx, j, ";") {
            return Err(ParseError { at: j, kind: ParseErrorKind::Expected(Expected::Semi) });
        }
        pos = j + 1;
    }
}

/// The first of two leftovers in input order.
pub open spec fn first_leftover(a: Option<ParseError>, b: Option<ParseError>) -> Option<ParseError> {
    if a is Some {
        a
    } else {
        b
    }
}

/// The first tokens left over inside the groups of the attributes from
/// lexeme `i` on.
pub open spec fn attrs_leftover(lx: Seq<Lexeme>, i: int) -> Option<ParseError>
    decreases lx.len() - i,
{
    if is_punct(lx, i, "#"@) {
        match spec_attribute(lx, i) {
            Err(_) => None,
            Ok((_, j)) => {
                proof {
                    lemma_attribute_advances(lx, i);
                }
                first_leftover(attr_leftover(lx, i), attrs_leftover(lx, j))
            },
        }
    } else {
        None
    }
}

/// The first tokens left over inside a group of the query parameters from
/// lexeme `i` on (only their attributes have such groups).
pub open spec fn params_leftover(lx: Seq<Lexeme>, i: int) -> Option<ParseError>
    decreases lx.len() - i,
{
    if is_punct(lx, i, "|"@) {
        None
    } else if is_ident(lx, i) || is_underscore(lx, i) || is_punct(lx, i, "#"@) {
        match spec_param(lx, i) {
            Err(_) => None,
            Ok((_, j)) => {
                proof {
                    lemma_param_advances(lx, i);
                }
                let k = if is_punct(lx, j, ","@) {
                    j + 1
                } else {
                    j
                };
                first_leftover(attrs_leftover(lx, i), params_leftover(lx, k))
            },
        }
    } else {
        None
    }
}

/// The first tokens left over inside a group of the components of an
/// archetype from lexeme `i` on, up to `end`.
pub open spec fn components_leftover(lx: Seq<Lexeme>, i: int, end: int) -> Option<ParseError>
    decreases lx.len() - i,
{
    if i == end {
        None
    } else {
        match spec_component(lx, i) {
            Err(_) => None,
            Ok((_, j)) => {
                proof {
                    if 0 <= i <= lx.len() {
                        lemma_component_advances(lx, i);
                    }
                }
                if j == end {
                    attrs_leftover(lx, i)
                } else if is_punct(lx, j, ","@) && 0 <= i < j {
                    first_leftover(attrs_leftover(lx, i), components_leftover(lx, j + 1, end))
                } else {
                    attrs_leftover(lx, i)
                }
            },
        }
    }
}

/// The first tokens left over inside a group of the world item at lexeme
/// `i`: in its attributes, then in its components or its name's group.
pub open spec fn item_leftover(lx: Seq<Lexeme>, i: int) -> Option<ParseError> {
    match spec_attributes(lx, i, Seq::empty(), Seq::empty()) {
        Err(_) => None,
        Ok((_, _, k)) => first_leftover(
            attrs_leftover(lx, i),
            if is_word(lx, k, "ecs_archetype"@) {
                match spec_group_end(lx, k + 3, 0) {
                    Some(end) => components_leftover(lx, k + 5, end),
                    None => None,
                }
            } else if is_word(lx, k, "ecs_name"@) {
                name_leftover(lx, k)
            } else {
                None
            },
        ),
    }
}

/// The first tokens left over inside a group of the world items from
/// lexeme `i` on.
pub open spec fn items_leftover(lx: Seq<Lexeme>, i: int) -> Option<ParseError>
    decreases lx.len() - i,
{
    if i >= lx.len() || i < 0 {
        None
    } else {
        match spec_item(lx, i) {
            Err(_) => None,
            Ok((_, j)) => {
                proof {
                    lemma_item_advances(lx, i);
                }
                if j >= lx.len() {
                    item_leftover(lx, i)
                } else if is_punct(lx, j, ";"@) {
                    first_leftover(item_leftover(lx, i), items_leftover(lx, j + 1))
                } else {
                    item_leftover(lx, i)
                }
            },
        }
    }
}

fn attributes_leftover(lx: &Vec<Lexeme>, i: usize) -> (r: Option<ParseError>)
    requires
        i <= lx@.len(),
    ensures
        r == attrs_leftover(lx@, i as int),
{
    let mut lo: Option<ParseError> = None;
    let mut pos = i;
    while punct_is(lx, pos, "#")
        invariant
            pos <= lx@.len(),
            attrs_leftover(lx@, i as int) == first_leftover(lo, attrs_leftover(lx@, pos as int)),
        decreases lx@.len() - pos,
    {
        proof {
            lemma_attribute_advances(lx@, pos as int);
        }
        match parse_attribute(lx, pos) {
            Err(_) => {
                return lo;
            },
            Ok((_, j)) => {
                if lo.is_none() {
                    lo = attribute_leftover(lx, pos);
                }
                pos = j;
            },
        }
    }
    lo
}

/// The first tokens left over inside a group of the query parameters from
/// lexeme `i` on, up to the closing `|`. Such tokens are reported only once
/// the whole query has parsed, after every other error.
pub fn params_leftover_at(lx: &Vec<Lexeme>, i: usize) -> (r: Option<ParseError>)
    requires
        i <= lx@.len(),
    ensures
        r == params_leftover(lx@, i as int),
{
    let n = lx.len();
    let mut lo: Option<ParseError> = None;
    let mut pos = i;
    loop
        invariant
            n == lx@.len(),
            pos <= n,
            params_leftover(lx@, i as int) == first_leftover(lo, params_leftover(lx@, pos as int)),
        decreases n - pos,
    {
        if punct_is(lx, pos, "|") {
            return lo;
        }
        let starts = punct_is(lx, pos, "#") || (pos < n && match &lx[pos].kind {
            LexemeKind::Ident => true,
            LexemeKind::Underscore => true,
            _ => false,
        });
        if !starts {
            return lo;
        }
        proof {
            lemma_param_advances(lx@, pos as int);
        }
        let j = match parse_param(lx, pos) {
            Err(_) => {
                return lo;
            },
            Ok((_, j)) => j,
        };
        if lo.is_none() {
            lo = attributes_leftover(lx, pos);
        }
        pos = if punct_is(lx, j, ",") {
            j + 1
        } else {
            j
        };
    }
}

fn components_leftover_at(lx: &Vec<Lexeme>, i: usize, end: usize) -> (r: Option<ParseError>)
    requires
        i <= lx@.len(),
        end <= lx@.len(),
    ensures
        r == components_leftover(lx@, i as int, end as int),
{
    let n = lx.len();
    let mut lo: Option<ParseError> = None;
    let mut pos = i;
    loop
        invariant
            n == lx@.len(),
            pos <= n,
            end <= n,
            components_leftover(lx@, i as int, end as int) == first_leftover(
                lo,
                components_leftover(lx@, pos as int, end as int),
            ),
        decreases n - pos,
    {
        if pos == end {
            return lo;
        }
        proof {
            lemma_component_advances(lx@, pos as int);
        }
        let j = match parse_component(lx, pos) {
            Err(_) => {
                return lo;
            },
            Ok((_, _, j)) => j,
        };
        if lo.is_none() {
            lo = attributes_leftover(lx, pos);
        }
        if j == end || !punct_is(lx, j, ",") {
            return lo;
        }
        pos = j + 1;
    }
}

fn name_leftover_at(lx: &Vec<Lexeme>, i: usize) -> (r: Option<ParseError>)
    requires
        i < lx@.len(),
        is_open(lx@, i + 2, Delim::Paren),
        is_ident(lx@, i + 3),
    ensures
        r == name_leftover(lx@, i as int),
{
    let n = lx.len();
    match group_end(lx, i + 3) {
        Some(end) => if end != i + 4 {
            Some(ParseError { at: i + 4, kind: ParseErrorKind::UnexpectedInParens })
        } else {
            None
        },
        None => None,
    }
}

fn item_leftover_at(lx: &Vec<Lexeme>, i: usize) -> (r: Option<ParseError>)
    requires
        i <= lx@.len(),
        spec_item(lx@, i as int) is Ok,
    ensures
        r == item_leftover(lx@, i as int),
{
    let n = lx.len();
    let a = attributes_leftover(lx, i);
    let k = match parse_attributes(lx, i) {
        Err(_) => {
            return None;
        },
        Ok((_, _, k)) => k,
    };
    let inner = if word_is(lx, k, "ecs_archetype") {
        proof {
            assert(is_punct(lx@, k + 4, ","@));
        }
        match group_end(lx, k + 3) {
            Some(end) => {
                proof {
                    lemma_group_end_bounds(lx@, k + 3, 0);
                }
                components_leftover_at(lx, k + 5, end)
            },
            None => None,
        }
    } else if word_is(lx, k, "ecs_name") {
        name_leftover_at(lx, k)
    } else {
        None
    };
    if a.is_some() {
        a
    } else {
        inner
    }
}

/// The first tokens left over inside a group of the world items: tokens
/// after the content that a group holds. Such tokens are reported only once
/// the whole world has parsed, after every other error.
pub fn world_leftover(lx: &Vec<Lexeme>) -> (r: Option<ParseError>)
    ensures
        r == items_leftover(lx@, 0),
{
    let n = lx.len();
    let mut lo: Option<ParseError> = None;
    let mut pos: usize = 0;
    loop
        invariant
            n == lx@.len(),
            pos <= n,
            items_leftover(lx@, 0) == first_leftover(lo, items_leftover(lx@, pos as int)),
        decreases n - pos,
    {
        if pos >= n {
            return lo;
        }
        proof {
            lemma_item_advances(lx@, pos as int);
        }
        let j = match parse_item(lx, pos) {
            Err(_) => {
                return lo;
            },
            Ok((_, j)) => j,
        };
        if lo.is_none() {
            lo = item_leftover_at(lx, pos);
        }
        if j >= n || !punct_is(lx, j, ";") {
            return lo;
        }
        pos = j + 1;
    }
}

/// Whether lexeme `i` is where the enclosing group, or the input, ends.
pub open spec fn at_scope_end(lx: Seq<Lexeme>, i: int) -> bool {
    i >= lx.len() || (0 <= i && lx[i].kind is Close)
}

/// The message reported for a parse error in the input: a keyword where an
/// identifier was expected is named; where the parser looked for a token
/// or group and found the end of its scope, it says so first (a single
/// punctuation character is reported without that).
pub open spec fn spec_error_message(lx: Seq<Lexeme>, e: ParseError) -> Seq<char> {
    let i = e.at as int;
    match e.kind {
        ParseErrorKind::Expected(x) => if x == Expected::Ident && 0 <= i < lx.len() && lx[i].kind is Keyword {
            "expected identifier, found keyword `"@ + lx[i].text@ + "`"@
        } else if !x.spec_is_punct() && at_scope_end(lx, i) {
            "unexpected end of input, "@ + x.spec_message()
        } else {
            x.spec_message()
        },
        _ => e.kind.spec_message(),
    }
}

/// The message reported for a parse error in the input.
pub fn error_message(lx: &Vec<Lexeme>, e: &ParseError) -> (r: String)
    ensures
        r@ == spec_error_message(lx@, *e),
{
    let i = e.at;
    match e.kind {
        ParseErrorKind::Expected(x) => {
            let keyword = i < lx.len() && match &lx[i].kind {
                LexemeKind::Keyword => true,
                _ => false,
            };
            let scope_end = i >= lx.len() || match &lx[i].kind {
                LexemeKind::Close(_) => true,
                _ => false,
            };
            if x == Expected::Ident && keyword {
                let r = String::from_str("expected identifier, found keyword `").concat(lx[i].text.as_str()).concat("`");
                r
            } else if !x.is_punct() && scope_end {
                String::from_str("unexpected end of input, ").concat(x.message())
            } else {
                String::from_str(x.message())
            }
        },
        _ => String::from_str(e.kind.message()),
    }
}

/// The texts of the `#[cfg]` predicates among attributes, in order.
pub open spec fn cfg_attr_texts(attrs: Seq<AttrModel>) -> Seq<Seq<char>>
    decreases attrs.len(),
{
    if attrs.len() == 0 {
        Seq::empty()
    } else {
        match attrs.last() {
            AttrModel::Cfg(p) => cfg_attr_texts(attrs.drop_last()).push(p),
            _ => cfg_attr_texts(attrs.drop_last()),
        }
    }
}

/// Attributes that are all `#[cfg]`s give their predicates in order and no
/// ID, on an archetype or a component alike.
pub proof fn lemma_id_attrs_all_cfg(attrs: Seq<AttrModel>, at: Seq<int>, component: bool)
    requires
        attrs.len() == at.len(),
        forall|k: int| 0 <= k < attrs.len() ==> #[trigger] attrs[k] is Cfg,
    ensures
        spec_id_attrs(attrs, at, component) == Ok::<(Seq<Seq<char>>, Option<u8>), ParseError>(
            (cfg_attr_texts(attrs), None),
        ),
    decreases attrs.len(),
{
    if attrs.len() > 0 {
        assert forall|k: int| 0 <= k < attrs.drop_last().len() implies #[trigger] attrs.drop_last()[k] is Cfg by {
            assert(attrs.drop_last()[k] == attrs[k]);
        }
        lemma_id_attrs_all_cfg(attrs.drop_last(), at.drop_last(), component);
    }
}

/// The ID attribute of the item's own kind (`#[component_id]` on a
/// component, `#[archetype_id]` on an archetype) gives the item that ID; one
/// of the other kind is refused where it stands; a second one of the item's
/// kind is refused as a duplicate where the second stands.
pub proof fn lemma_id_attrs_ids(at: Seq<int>, component: bool, v: u8, w: u8)
    ensures
        at.len() == 1 ==> spec_id_attrs(
            seq![if component { AttrModel::ComponentId(v) } else { AttrModel::ArchetypeId(v) }],
            at,
            component,
        ) == Ok::<(Seq<Seq<char>>, Option<u8>), ParseError>((Seq::empty(), Some(v))),
        at.len() == 1 ==> spec_id_attrs(
            seq![if component { AttrModel::ArchetypeId(v) } else { AttrModel::ComponentId(v) }],
            at,
            component,
        ) == Err::<(Seq<Seq<char>>, Option<u8>), ParseError>(err_at(at[0], ParseErrorKind::UnsupportedAttribute)),
        at.len() == 2 ==> spec_id_attrs(
            seq![
                if component { AttrModel::ComponentId(v) } else { AttrModel::ArchetypeId(v) },
                if component { AttrModel::ComponentId(w) } else { AttrModel::ArchetypeId(w) },
            ],
            at,
            component,
        ) == Err::<(Seq<Seq<char>>, Option<u8>), ParseError>(
            err_at(
                at[1],
                if component {
                    ParseErrorKind::DuplicateComponentId
                } else {
                    ParseErrorKind::DuplicateArchetypeId
                },
            ),
        ),
{
    let own_v = if component { AttrModel::ComponentId(v) } else { AttrModel::ArchetypeId(v) };
    let own_w = if component { AttrModel::ComponentId(w) } else { AttrModel::ArchetypeId(w) };
    let other = if component { AttrModel::ArchetypeId(v) } else { AttrModel::ComponentId(v) };
    assert(seq![own_v].drop_last() =~= Seq::<AttrModel>::empty());
    assert(seq![other].drop_last() =~= Seq::<AttrModel>::empty());
    assert(seq![own_v, own_w].drop_last() =~= seq![own_v]);
    assert(seq![own_v].last() == own_v);
    assert(seq![other].last() == other);
    assert(seq![own_v, own_w].last() == own_w);
    assert forall|a: Seq<int>| spec_id_attrs(Seq::<AttrModel>::empty(), a, component) == Ok::<
        (Seq<Seq<char>>, Option<u8>),
        ParseError,
    >((Seq::empty(), None)) by {}
    assert forall|a: Seq<int>| spec_id_attrs(seq![own_v], a, component) == Ok::<
        (Seq<Seq<char>>, Option<u8>),
        ParseError,
    >((Seq::empty(), Some(v))) by {
        assert(spec_id_attrs(seq![own_v].drop_last(), a.drop_last(), component) == Ok::<
            (Seq<Seq<char>>, Option<u8>),
            ParseError,
        >((Seq::empty(), None)));
    }
    assert forall|a: Seq<int>| spec_id_attrs(seq![other], a, component) == Err::<
        (Seq<Seq<char>>, Option<u8>),
        ParseError,
    >(err_at(a.last(), ParseErrorKind::UnsupportedAttribute)) by {
        assert(spec_id_attrs(seq![other].drop_last(), a.drop_last(), component) == Ok::<
            (Seq<Seq<char>>, Option<u8>),
            ParseError,
        >((Seq::empty(), None)));
    }
    if at.len() == 2 {
        assert(spec_id_attrs(seq![own_v, own_w].drop_last(), at.drop_last(), component) == Ok::<
            (Seq<Seq<char>>, Option<u8>),
            ParseError,
        >((Seq::empty(), Some(v))));
    }
}

/// An `ecs_name!(W)` item without attributes names the world `W`.
pub proof fn lemma_name_item_form(lx: Seq<Lexeme>, i: int)
    requires
        0 <= i,
        is_word(lx, i, "ecs_name"@),
        is_punct(lx, i + 1, "!"@),
        is_open(lx, i + 2, Delim::Paren),
        is_ident(lx, i + 3),
        is_close(lx, i + 4, Delim::Paren),
    ensures
        spec_item(lx, i) == Ok::<(ItemModel, int), ParseError>((ItemModel::Name(lx[i + 3].text), i + 5)),
{
    reveal_strlit("ecs_name");
    reveal_strlit("ecs_archetype");
    assert("ecs_name"@.len() != "ecs_archetype"@.len());
    assert(spec_attributes(lx, i, Seq::empty(), Seq::empty()) == Ok::<(Seq<AttrModel>, Seq<int>, int), ParseError>(
        (Seq::empty(), Seq::empty(), i),
    ));
    assert(spec_group_end(lx, i + 4, 0) == Some(i + 4));
}

/// An `ecs_archetype!(A, C)` item without attributes, with one plain
/// component, is the archetype `A` holding the component `C`, with no ID
/// and no `#[cfg]`.
pub proof fn lemma_archetype_item_form(lx: Seq<Lexeme>, i: int)
    requires
        0 <= i,
        is_word(lx, i, "ecs_archetype"@),
        is_punct(lx, i + 1, "!"@),
        is_open(lx, i + 2, Delim::Paren),
        is_ident(lx, i + 3),
        is_punct(lx, i + 4, ","@),
        is_ident(lx, i + 5),
        !reserved_name(lx[i + 5].text@),
        is_close(lx, i + 6, Delim::Paren),
    ensures
        spec_item(lx, i) == Ok::<(ItemModel, int), ParseError>(
            (
                ItemModel::Archetype {
                    cfgs: Seq::empty(),
                    id: None,
                    name: lx[i + 3].text,
                    components: seq![
                        ComponentModel {
                            cfgs: Seq::empty(),
                            id: None,
                            name: ParseComponentName { name: lx[i + 5].text, generic: None },
                            at: i + 5,
                        },
                    ],
                    at: i + 3,
                },
                i + 7,
            ),
        ),
{
    reveal_strlit("<");
    reveal_strlit(",");
    assert(","@ != "<"@) by {
        assert(","@[0] != "<"@[0]);
    }
    assert(spec_attributes(lx, i, Seq::empty(), Seq::empty()) == Ok::<(Seq<AttrModel>, Seq<int>, int), ParseError>(
        (Seq::empty(), Seq::empty(), i),
    ));
    assert(spec_group_end(lx, i + 6, 0) == Some(i + 6));
    assert(spec_group_end(lx, i + 5, 0) == Some(i + 6));
    assert(spec_group_end(lx, i + 4, 0) == Some(i + 6));
    assert(spec_group_end(lx, i + 3, 0) == Some(i + 6));
    assert(spec_attributes(lx, i + 5, Seq::empty(), Seq::empty()) == Ok::<(Seq<AttrModel>, Seq<int>, int), ParseError>(
        (Seq::empty(), Seq::empty(), i + 5),
    ));
    assert(!is_punct(lx, i + 6, "<"@));
    assert(spec_component_name(lx, i + 5) == Ok::<(ParseComponentName, int), ParseError>(
        (ParseComponentName { name: lx[i + 5].text, generic: None }, i + 6),
    ));
    assert(spec_id_attrs(Seq::empty(), Seq::empty(), true) == Ok::<(Seq<Seq<char>>, Option<u8>), ParseError>(
        (Seq::empty(), None),
    ));
    let c = ComponentModel {
        cfgs: Seq::empty(),
        id: None,
        name: ParseComponentName { name: lx[i + 5].text, generic: None },
        at: i + 5,
    };
    assert(spec_component(lx, i + 5) == Ok::<(ComponentModel, int), ParseError>((c, i + 6)));
    assert(spec_components(lx, i + 5, i + 6, Seq::empty()) == Ok::<Seq<ComponentModel>, ParseError>(seq![c]));
}

} // verus!
