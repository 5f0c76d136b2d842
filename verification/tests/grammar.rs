use gecs::data::{ParseComponentGeneric, ParseEcsWorld};
use gecs::parse::{Expected, ParseError, ParseErrorKind, ParseItem};
use gecs::query::ParseQueryParamType;
use gecs::syntax::{
    error_message, params_leftover_at, parse_attribute, parse_component_name, parse_params, parse_world_items,
    world_leftover, Delim, Lexeme, LexemeKind,
};
use gecs::parse::ParseAttributeData;
use proc_macro2::{Delimiter, Spacing, TokenStream, TokenTree};
use quote::ToTokens;

fn push_tree(tree: TokenTree, out: &mut Vec<Lexeme>) {
    match tree {
        TokenTree::Group(group) => {
            let (delim, open, close) = match group.delimiter() {
                Delimiter::Parenthesis => (Delim::Paren, "(", ")"),
                Delimiter::Bracket => (Delim::Bracket, "[", "]"),
                Delimiter::Brace => (Delim::Brace, "{", "}"),
                Delimiter::None => (Delim::Invisible, "", ""),
            };
            out.push(Lexeme { kind: LexemeKind::Open(delim), text: open.to_string() });
            for inner in group.stream() {
                push_tree(inner, out);
            }
            out.push(Lexeme { kind: LexemeKind::Close(delim), text: close.to_string() });
        }
        TokenTree::Ident(ident) => {
            let text = ident.to_string();
            let kind = if text == "_" {
                LexemeKind::Underscore
            } else if syn::parse2::<syn::Ident>(ident.to_token_stream()).is_ok() {
                LexemeKind::Ident
            } else {
                LexemeKind::Keyword
            };
            out.push(Lexeme { kind, text });
        }
        TokenTree::Punct(punct) => {
            let joint = punct.spacing() == Spacing::Joint;
            out.push(Lexeme { kind: LexemeKind::Punct { joint }, text: punct.as_char().to_string() });
        }
        TokenTree::Literal(literal) => {
            let kind = match syn::Lit::new(literal.clone()) {
                syn::Lit::Int(int) => LexemeKind::LitInt { digits: int.base10_digits().to_string() },
                _ => LexemeKind::Lit,
            };
            out.push(Lexeme { kind, text: literal.to_string() });
        }
    }
}

fn lex(source: &str) -> Vec<Lexeme> {
    let tokens: TokenStream = source.parse().unwrap();
    let mut out = Vec::new();
    for tree in tokens {
        push_tree(tree, &mut out);
    }
    out
}

fn err(at: usize, kind: ParseErrorKind) -> ParseError {
    ParseError { at, kind }
}

#[test]
fn component_names() {
    let lx = lex("CompA CompB<T> CompC<3,> CompD<_> Entity");
    let (a, j) = parse_component_name(&lx, 0).unwrap();
    assert_eq!((a.name.as_str(), j), ("CompA", 1));
    assert!(a.generic.is_none());
    let (b, j) = parse_component_name(&lx, 1).unwrap();
    assert!(matches!(&b.generic, Some(ParseComponentGeneric::Ident(g)) if g == "T"));
    assert_eq!(j, 5);
    let (c, j) = parse_component_name(&lx, 5).unwrap();
    assert!(matches!(&c.generic, Some(ParseComponentGeneric::LitInt(g)) if g == "3"));
    assert_eq!(j, 10);
    let (d, _) = parse_component_name(&lx, 10).unwrap();
    assert!(matches!(d.generic, Some(ParseComponentGeneric::Placeholder)));
    assert_eq!(parse_component_name(&lx, 14).unwrap_err(), err(14, ParseErrorKind::IllegalComponentName));
    assert_eq!(parse_component_name(&lx, 15).unwrap_err(), err(15, ParseErrorKind::Expected(Expected::Ident)));
}

#[test]
fn attributes() {
    let lx = lex("#[cfg(feature = \"on\")] #[component_id(6)] #[archetype_id(300)] #[other]");
    let (a, j) = parse_attribute(&lx, 0).unwrap();
    match a.data {
        ParseAttributeData::Cfg(c) => assert_eq!(c.predicate, "feature = \"on\""),
        _ => panic!("expected a cfg"),
    }
    let (b, k) = parse_attribute(&lx, j).unwrap();
    assert!(matches!(b.data, ParseAttributeData::ComponentId(v) if v.value == 6));
    assert_eq!(parse_attribute(&lx, k).unwrap_err(), err(k + 4, ParseErrorKind::InvalidIdValue));
    let other = lex("#[other]");
    assert_eq!(parse_attribute(&other, 0).unwrap_err(), err(2, ParseErrorKind::Expected(Expected::Attribute)));
}

#[test]
fn joint_punctuation_keeps_predicates_whole() {
    let lx = lex("#[cfg(all(unix, target_pointer_width = \"64\"))]");
    let (a, _) = parse_attribute(&lx, 0).unwrap();
    match a.data {
        ParseAttributeData::Cfg(c) => {
            assert_eq!(c.predicate, "all ( unix , target_pointer_width = \"64\" )");
            let reparsed: TokenStream = c.predicate.parse().unwrap();
            assert_eq!(reparsed.to_string(), "all (unix , target_pointer_width = \"64\")");
        }
        _ => panic!("expected a cfg"),
    }
}

#[test]
fn query_params() {
    let lx = lex("a: &CompA, b: &mut CompB<u32>, #[cfg(x)] e: &Entity<ArchFoo>, _: &EntityAny, o: &OneOf<CompC, CompD<_>> | body");
    let (params, bar) = parse_params(&lx, 0).unwrap();
    assert!(matches!(&lx[bar].kind, LexemeKind::Punct { .. }) && lx[bar].text == "|");
    assert_eq!(params.len(), 5);
    assert_eq!(params[0].name, "a");
    assert!(!params[0].is_mut);
    assert!(params[1].is_mut);
    assert!(matches!(&params[1].param_type, ParseQueryParamType::Component(n) if n.name == "CompB"));
    assert_eq!(params[2].cfgs.len(), 1);
    assert_eq!(params[2].cfgs[0].predicate, "x");
    assert!(matches!(&params[2].param_type, ParseQueryParamType::Entity(a) if a == "ArchFoo"));
    assert_eq!(params[3].name, "_");
    assert!(matches!(params[3].param_type, ParseQueryParamType::EntityAny));
    match &params[4].param_type {
        ParseQueryParamType::OneOf(args) => {
            assert_eq!(args.len(), 2);
            assert!(matches!(args[1].generic, Some(ParseComponentGeneric::Placeholder)));
        }
        _ => panic!("expected a OneOf"),
    }
    assert!(params.iter().all(|p| p.is_cfg_enabled));
}

#[test]
fn query_param_errors() {
    let lx = lex("e: &mut Entity<_> |");
    assert_eq!(parse_params(&lx, 0).unwrap_err(), err(4, ParseErrorKind::MutEntityAccess));
    let lx = lex("o: &Option<CompA> |");
    assert_eq!(parse_params(&lx, 0).unwrap_err(), err(3, ParseErrorKind::ReservedOption));
    let lx = lex("w: &With<CompA> |");
    assert_eq!(parse_params(&lx, 0).unwrap_err(), err(3, ParseErrorKind::ReservedWith));
    let lx = lex("w: &Without<CompA> |");
    assert_eq!(parse_params(&lx, 0).unwrap_err(), err(3, ParseErrorKind::ReservedWithout));
    assert_eq!(ParseErrorKind::ReservedWith.message(), "reserved special 'With' not yet implemented");
    assert_eq!(ParseErrorKind::MutEntityAccess.message(), "mut entity access is forbidden");
    let lx = lex("#[component_id(1)] a: &CompA |");
    assert_eq!(parse_params(&lx, 0).unwrap_err(), err(0, ParseErrorKind::InvalidAttributePosition));
    let lx = lex("a &CompA |");
    assert_eq!(parse_params(&lx, 0).unwrap_err(), err(1, ParseErrorKind::Expected(Expected::Colon)));
    let lx = lex("a: &CompA");
    assert_eq!(parse_params(&lx, 0).unwrap_err(), err(4, ParseErrorKind::Expected(Expected::ParamStart)));
    let lx = lex("| body");
    assert_eq!(parse_params(&lx, 0).unwrap().0.len(), 0);
}

#[test]
fn world_items() {
    let lx = lex(
        "#[archetype_id(3)] ecs_archetype!(ArchFoo, CompA, #[component_id(6)] CompB<u32>,); \
         ecs_name!(MyWorld); \
         #[cfg(feature = \"bar\")] ecs_archetype!(ArchBar, CompA)",
    );
    let parsed = parse_world_items(&lx).unwrap();
    assert_eq!(parsed.len(), 3);
    match &parsed[0].item {
        ParseItem::ParseArchetype(a) => {
            assert_eq!(a.name, "ArchFoo");
            assert_eq!(a.id, Some(3));
            assert_eq!(a.components.len(), 2);
            assert_eq!(a.components[1].id, Some(6));
            assert_eq!(a.components[1].name.name, "CompB");
            assert_eq!(lx[parsed[0].at].text, "ArchFoo");
            assert_eq!(lx[parsed[0].component_at[1]].text, "CompB");
        }
        _ => panic!("expected an archetype"),
    }
    assert!(matches!(&parsed[1].item, ParseItem::ParseName(n) if n == "MyWorld"));
    match &parsed[2].item {
        ParseItem::ParseArchetype(a) => assert_eq!(a.cfgs[0].predicate, "feature = \"bar\""),
        _ => panic!("expected an archetype"),
    }
    let items: Vec<ParseItem> = parsed.into_iter().map(|p| p.item).collect();
    let world = ParseEcsWorld::from_items(items).unwrap();
    assert_eq!(world.name, "MyWorld");
    assert_eq!(world.archetypes.len(), 2);
}

#[test]
fn world_item_errors() {
    let lx = lex("ecs_archetype!(ArchFoo, CompA<_>)");
    assert_eq!(parse_world_items(&lx).unwrap_err(), err(7, ParseErrorKind::PlaceholderNotSupported));
    let lx = lex("ecs_archetype!(ArchFoo, #[component_id(1)] #[component_id(2)] CompA)");
    assert_eq!(parse_world_items(&lx).unwrap_err(), err(12, ParseErrorKind::DuplicateComponentId));
    let lx = lex("ecs_archetype!(ArchFoo, #[archetype_id(1)] CompA)");
    assert_eq!(parse_world_items(&lx).unwrap_err(), err(5, ParseErrorKind::UnsupportedAttribute));
    let lx = lex("#[archetype_id(1)] #[archetype_id(2)] ecs_archetype!(ArchFoo, CompA)");
    assert_eq!(parse_world_items(&lx).unwrap_err(), err(7, ParseErrorKind::DuplicateArchetypeId));
    let lx = lex("#[cfg(x)] ecs_name!(World)");
    assert_eq!(parse_world_items(&lx).unwrap_err(), err(0, ParseErrorKind::UnsupportedAttribute));
    let lx = lex("ecs_archetype!(ArchFoo, CompA) ecs_name!(World)");
    assert_eq!(parse_world_items(&lx).unwrap_err(), err(7, ParseErrorKind::Expected(Expected::Semi)));
    let lx = lex("ecs_archetype!(ArchFoo CompA)");
    assert_eq!(parse_world_items(&lx).unwrap_err(), err(4, ParseErrorKind::Expected(Expected::Comma)));
    let lx = lex("ecs_archetype!(ArchFoo, CompA CompB)");
    assert_eq!(parse_world_items(&lx).unwrap_err(), err(6, ParseErrorKind::Expected(Expected::Comma)));
    let lx = lex("ecs_thing!(ArchFoo)");
    assert_eq!(parse_world_items(&lx).unwrap_err(), err(0, ParseErrorKind::Expected(Expected::Item)));
    assert_eq!(parse_world_items(&lex("")).unwrap().len(), 0);
}

fn first_error_message(source: &str) -> String {
    let lx = lex(source);
    error_message(&lx, &parse_world_items(&lx).unwrap_err())
}

#[test]
fn error_messages_name_what_was_expected() {
    assert_eq!(first_error_message("ecs_archetype ArchFoo"), "expected `!`");
    assert_eq!(first_error_message("ecs_archetype!"), "unexpected end of input, expected parentheses");
    assert_eq!(first_error_message("ecs_archetype!(ArchFoo)"), "expected `,`");
    assert_eq!(first_error_message("ecs_archetype!(ArchFoo, CompA<(x)>)"), "expected one of: `_`, identifier, integer literal");
    assert_eq!(first_error_message("ecs_archetype!(ArchFoo, CompA<T)"), "expected `>`");
    assert_eq!(first_error_message("ecs_archetype!(ArchFoo, type)"), "expected identifier, found keyword `type`");
    assert_eq!(first_error_message("ecs_archetype!(ArchFoo, CompA) ecs_name!(W)"), "expected `;`");
    assert_eq!(first_error_message("#[other] ecs_name!(W)"), "expected one of: `cfg`, `archetype_id`, `component_id`");
    assert_eq!(first_error_message("#[] ecs_name!(W)"), "unexpected end of input, expected one of: `cfg`, `archetype_id`, `component_id`");
    assert_eq!(first_error_message("#[archetype_id(x)] ecs_archetype!(A, B)"), "expected integer literal");
    assert_eq!(first_error_message("#[archetype_id] ecs_archetype!(A, B)"), "unexpected end of input, expected parentheses");
    assert_eq!(first_error_message("ecs_thing!(W)"), "expected `ecs_archetype` or `ecs_name`");
    let lx = lex("a: &7 |");
    let e = parse_params(&lx, 0).unwrap_err();
    assert_eq!(
        error_message(&lx, &e),
        "expected one of: `Entity`, `EntityDirect`, `EntityAny`, `EntityDirectAny`, `OneOf`, `Option`, `With`, `Without`, identifier"
    );
    let lx = lex("e: &Entity<7> |");
    assert_eq!(error_message(&lx, &parse_params(&lx, 0).unwrap_err()), "expected `_` or identifier");
    let lx = lex("o: &OneOf<A, 7> |");
    assert_eq!(error_message(&lx, &parse_params(&lx, 0).unwrap_err()), "expected identifier or `>`");
    let lx = lex("7: &A |");
    assert_eq!(error_message(&lx, &parse_params(&lx, 0).unwrap_err()), "expected one of: `|`, identifier, `_`, `#`");
}

#[test]
fn leftover_tokens_in_groups_are_reported_after_parsing() {
    // The world parses; the tokens left in the name's group are reported afterwards.
    let lx = lex("ecs_name!(World extra); ecs_archetype!(A, B)");
    assert_eq!(parse_world_items(&lx).unwrap().len(), 2);
    let e = world_leftover(&lx).unwrap();
    assert_eq!(e, err(4, ParseErrorKind::UnexpectedInParens));
    assert_eq!(error_message(&lx, &e), "unexpected token, expected `)`");
    // A later grammar error wins over the leftover.
    let lx = lex("ecs_name!(World extra); ecs_archetype!(A B)");
    assert_eq!(parse_world_items(&lx).unwrap_err(), err(11, ParseErrorKind::Expected(Expected::Comma)));
    // Inside an attribute: the parentheses first, then the brackets.
    let lx = lex("#[archetype_id(3 4) x] ecs_archetype!(A, B)");
    let items = parse_world_items(&lx).unwrap();
    assert!(matches!(&items[0].item, ParseItem::ParseArchetype(a) if a.id == Some(3)));
    assert_eq!(world_leftover(&lx), Some(err(5, ParseErrorKind::UnexpectedInParens)));
    let lx = lex("ecs_archetype!(A, #[cfg(on) x] B)");
    assert_eq!(world_leftover(&lx), Some(err(11, ParseErrorKind::UnexpectedInBrackets)));
    let lx = lex("#[cfg(on) x] a: &A |");
    assert_eq!(parse_params(&lx, 0).unwrap().0.len(), 1);
    assert_eq!(params_leftover_at(&lx, 0), Some(err(6, ParseErrorKind::UnexpectedInBrackets)));
    let lx = lex("ecs_name!(World); ecs_archetype!(A, #[component_id(1)] B)");
    assert_eq!(world_leftover(&lx), None);
}
