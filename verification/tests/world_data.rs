use gecs::cfg::{evaluate_cfgs, CfgLookup, ParseAttributeCfg, ParseCfgDecorated};
use gecs::data::{
    DataComponentGeneric, DataComponentName, DataWorld, ParseArchetype, ParseComponent,
    ParseComponentGeneric, ParseComponentName, ParseEcsWorld,
};
use gecs::ids::IdError;
use gecs::names::{is_allowed_component_name, remove_brackets, to_snake};

fn name(n: &str) -> ParseComponentName {
    ParseComponentName { name: n.to_string(), generic: None }
}

fn comp(n: &str, id: Option<u8>) -> ParseComponent {
    ParseComponent { cfgs: Vec::new(), id, name: name(n) }
}

fn arch(n: &str, id: Option<u8>, components: Vec<ParseComponent>) -> ParseArchetype {
    ParseArchetype { cfgs: Vec::new(), id, name: n.to_string(), components }
}

fn world(archetypes: Vec<ParseArchetype>) -> ParseCfgDecorated<ParseEcsWorld> {
    ParseCfgDecorated {
        cfg_lookup: CfgLookup::new(),
        inner: ParseEcsWorld { name: "EcsWorld".to_string(), archetypes },
    }
}

fn cfg(p: &str) -> ParseAttributeCfg {
    ParseAttributeCfg { predicate: p.to_string() }
}

#[test]
pub fn test_single_test_archetype_id() {
    let data = DataWorld::new(world(vec![arch(
        "ArchFoo",
        None,
        vec![comp("CompA", None), comp("CompZ", None)],
    )]))
    .unwrap();
    assert_eq!(data.archetypes[0].id, 0); // Implicit
}

#[test]
pub fn test_multi_test_archetype_id() {
    let data = DataWorld::new(world(vec![
        arch("ArchFoo", Some(3), vec![comp("CompA", None), comp("CompB", None)]),
        arch("ArchBar", None, vec![comp("CompA", None), comp("CompC", None)]),
    ]))
    .unwrap();
    assert_eq!(data.archetypes[0].id, 3);
    assert_eq!(data.archetypes[1].id, 4); // Implicit
}

#[test]
fn test_component_id() {
    let data = DataWorld::new(world(vec![
        arch("ArchFoo", None, vec![comp("CompA", None), comp("CompC", None)]),
        arch(
            "ArchBar",
            None,
            vec![comp("CompA", Some(6)), comp("CompB", None), comp("CompC", None)],
        ),
        arch(
            "ArchBaz",
            None,
            vec![comp("CompA", None), comp("CompB", None), comp("CompC", Some(200))],
        ),
    ]))
    .unwrap();

    let ids = |k: usize| -> Vec<u8> { data.archetypes[k].components.iter().map(|c| c.id).collect() };
    assert_eq!(ids(0), vec![0, 1]);
    assert_eq!(ids(1), vec![6, 7, 8]);
    assert_eq!(ids(2), vec![0, 1, 200]);

    assert_eq!(data.archetypes[0].components[1].id, 1);
    assert_eq!(data.archetypes[1].components[2].id, 8);
    assert_eq!(data.archetypes[2].components[2].id, 200);
    assert_eq!(data.name, "EcsWorld");
}

#[test]
fn duplicate_archetype_id_is_refused() {
    let err = DataWorld::new(world(vec![
        arch("ArchFoo", Some(5), vec![comp("CompA", None)]),
        arch("ArchBar", Some(5), vec![comp("CompA", None)]),
    ]))
    .unwrap_err();
    assert_eq!(err.archetype, 1);
    assert!(err.component.is_none());
    match err.kind {
        IdError::Taken { id, owner } => {
            assert_eq!(id, 5);
            assert_eq!(owner, "ArchFoo");
        }
        IdError::Overflow => panic!("expected a taken id"),
    }
}

#[test]
fn implicit_id_past_255_overflows() {
    let err = DataWorld::new(world(vec![arch(
        "ArchFoo",
        None,
        vec![comp("CompA", Some(255)), comp("CompB", None)],
    )]))
    .unwrap_err();
    assert_eq!(err.archetype, 0);
    assert_eq!(err.component, Some(1));
    assert!(matches!(err.kind, IdError::Overflow));
}

#[test]
fn implicit_component_id_collides_with_explicit() {
    let err = DataWorld::new(world(vec![arch(
        "ArchFoo",
        None,
        vec![comp("CompA", None), comp("CompB", Some(0))],
    )]))
    .unwrap_err();
    assert_eq!(err.component, Some(1));
    match err.kind {
        IdError::Taken { id, owner } => {
            assert_eq!(id, 0);
            assert_eq!(owner, "CompA");
        }
        IdError::Overflow => panic!("expected a taken id"),
    }
}

#[test]
fn disabled_items_are_left_out() {
    let mut lookup = CfgLookup::new();
    lookup.insert("feature = \"on\"".to_string(), true);
    lookup.insert("feature = \"off\"".to_string(), false);
    let mut off_arch = arch("ArchOff", None, vec![comp("CompA", None)]);
    off_arch.cfgs.push(cfg("feature = \"off\""));
    let mut off_comp = comp("CompB", None);
    off_comp.cfgs.push(cfg("feature = \"off\""));
    let mut on_comp = comp("CompC", None);
    on_comp.cfgs.push(cfg("feature = \"on\""));
    let parse = ParseCfgDecorated {
        cfg_lookup: lookup,
        inner: ParseEcsWorld {
            name: "World".to_string(),
            archetypes: vec![
                off_arch,
                arch("ArchFoo", None, vec![comp("CompA", None), off_comp, on_comp]),
            ],
        },
    };
    let data = DataWorld::new(parse).unwrap();
    assert_eq!(data.name, "World");
    assert_eq!(data.archetypes.len(), 1);
    assert_eq!(data.archetypes[0].name, "ArchFoo");
    assert_eq!(data.archetypes[0].id, 0);
    let comps = &data.archetypes[0].components;
    assert_eq!(comps.len(), 2);
    assert_eq!(comps[0].name.name, "CompA");
    assert_eq!(comps[1].name.name, "CompC");
    assert_eq!(comps[1].id, 1);
}

#[test]
fn cfg_evaluation() {
    let mut lookup = CfgLookup::new();
    lookup.insert("a".to_string(), true);
    lookup.insert("b".to_string(), false);
    assert!(evaluate_cfgs(&lookup, &vec![]));
    assert!(evaluate_cfgs(&lookup, &vec![cfg("a")]));
    assert!(!evaluate_cfgs(&lookup, &vec![cfg("a"), cfg("b")]));
    lookup.insert("b".to_string(), true);
    assert!(evaluate_cfgs(&lookup, &vec![cfg("a"), cfg("b")]));
    assert_eq!(lookup.get(&"b".to_string()), Some(true));
    assert_eq!(lookup.get(&"c".to_string()), None);
}

#[test]
fn cfg_lookup_from_states_keeps_last() {
    let lookup = CfgLookup::from_states(
        vec!["x".to_string(), "y".to_string(), "x".to_string()],
        vec![true, false, false],
    );
    assert_eq!(lookup.get(&"x".to_string()), Some(false));
    assert_eq!(lookup.get(&"y".to_string()), Some(false));
}

#[test]
fn collects_every_cfg_predicate_once() {
    let mut a = arch("ArchFoo", None, vec![comp("CompA", None)]);
    a.cfgs.push(cfg("p"));
    a.components[0].cfgs.push(cfg("q"));
    a.components[0].cfgs.push(cfg("p"));
    let mut b = arch("ArchBar", None, vec![comp("CompB", None)]);
    b.components[0].cfgs.push(cfg("r"));
    let w = ParseEcsWorld { name: "EcsWorld".to_string(), archetypes: vec![a, b] };
    assert_eq!(w.collect_all_cfg_predicates(), vec!["p".to_string(), "q".to_string(), "r".to_string()]);
}

#[test]
fn snake_names() {
    assert_eq!(to_snake(&"CompA".to_string()), "comp_a");
    assert_eq!(to_snake(&"ArchFoo".to_string()), "arch_foo");
    assert_eq!(to_snake(&"EcsWorld".to_string()), "ecs_world");
    assert_eq!(remove_brackets("Comp<T>"), "CompT");
    assert_eq!(to_snake(&"Comp<Foo>".to_string()), "comp_foo");
}

#[test]
fn component_snake_and_display_names() {
    let plain = name("CompFoo");
    assert_eq!(plain.as_snake_name(), "comp_foo");
    assert_eq!(plain.to_display_string(), "CompFoo");

    let generic = ParseComponentName {
        name: "CompFoo".to_string(),
        generic: Some(ParseComponentGeneric::Ident("Bar".to_string())),
    };
    assert_eq!(generic.as_snake_name(), "comp_foo_bar");
    assert_eq!(generic.to_display_string(), "CompFoo<Bar>");

    let lit = ParseComponentName {
        name: "CompFoo".to_string(),
        generic: Some(ParseComponentGeneric::LitInt("3".to_string())),
    };
    assert_eq!(lit.to_display_string(), "CompFoo<3>");

    let wild = ParseComponentName {
        name: "CompFoo".to_string(),
        generic: Some(ParseComponentGeneric::Placeholder),
    };
    assert_eq!(wild.to_display_string(), "CompFoo<_>");

    let data = DataComponentName::new(&generic);
    assert_eq!(data.name, "CompFoo");
    assert!(matches!(&data.generic, Some(DataComponentGeneric::Ident(s)) if s == "Bar"));
    assert_eq!(data.as_snake_name(), "comp_foo_bar");
    assert_eq!(data.to_display_string(), "CompFoo<Bar>");
    let back = data.as_parse();
    assert_eq!(back.name, "CompFoo");
    assert!(matches!(&back.generic, Some(ParseComponentGeneric::Ident(s)) if s == "Bar"));
}

#[test]
fn placeholder_matching() {
    let data = DataComponentName {
        name: "CompFoo".to_string(),
        generic: Some(DataComponentGeneric::Ident("Bar".to_string())),
    };
    let wild = ParseComponentName {
        name: "CompFoo".to_string(),
        generic: Some(ParseComponentGeneric::Placeholder),
    };
    let exact = ParseComponentName {
        name: "CompFoo".to_string(),
        generic: Some(ParseComponentGeneric::Ident("Bar".to_string())),
    };
    let other = ParseComponentName {
        name: "CompFoo".to_string(),
        generic: Some(ParseComponentGeneric::Ident("Baz".to_string())),
    };
    assert!(data.matches_with_placeholder(&wild));
    assert!(data.matches_with_placeholder(&exact));
    assert!(!data.matches_with_placeholder(&other));
    assert!(!data.matches_with_placeholder(&name("CompFoo")));
    assert!(!data.matches_with_placeholder(&name("CompBar")));
}

#[test]
fn reserved_component_names() {
    assert!(!is_allowed_component_name("Entity"));
    assert!(!is_allowed_component_name("EntityAny"));
    assert!(!is_allowed_component_name("OneOf"));
    assert!(!is_allowed_component_name("AnyOf"));
    assert!(!is_allowed_component_name("Option"));
    assert!(is_allowed_component_name("CompA"));
}

#[test]
fn cfg_evaluation_stops_at_first_failure() {
    let mut lookup = CfgLookup::new();
    lookup.insert("no".to_string(), false);
    // The unknown predicate after a failing one is never looked up.
    assert!(!evaluate_cfgs(&lookup, &vec![cfg("no"), cfg("unknown")]));
}
