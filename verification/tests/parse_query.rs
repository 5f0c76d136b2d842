use gecs::cfg::{CfgLookup, ParseAttributeCfg};
use gecs::data::{
    BindError, DataArchetype, DataComponent, DataComponentGeneric, DataComponentName, DataWorld,
    ParseArchetype, ParseComponentGeneric, ParseComponentName,
};
use gecs::parse::{ParseError, ParseErrorKind, ParseItem};
use gecs::data::ParseEcsWorld;
use gecs::query::{
    apply_cfg_states, bind_one_of, bind_query_params, get_cfg_predicates, is_cfg_enabled,
    matched_any, ParseQueryParam, ParseQueryParamType,
};

fn pname(n: &str) -> ParseComponentName {
    ParseComponentName { name: n.to_string(), generic: None }
}

fn pname_generic(n: &str, g: ParseComponentGeneric) -> ParseComponentName {
    ParseComponentName { name: n.to_string(), generic: Some(g) }
}

fn dcomp(id: u8, n: &str, g: Option<DataComponentGeneric>) -> DataComponent {
    DataComponent { id, name: DataComponentName { name: n.to_string(), generic: g } }
}

fn param(n: &str, is_mut: bool, t: ParseQueryParamType) -> ParseQueryParam {
    ParseQueryParam { cfgs: Vec::new(), name: n.to_string(), is_mut, param_type: t, is_cfg_enabled: true }
}

fn world_data() -> DataWorld {
    DataWorld {
        name: "EcsWorld".to_string(),
        archetypes: vec![
            DataArchetype {
                id: 0,
                name: "ArchFoo".to_string(),
                components: vec![
                    dcomp(0, "CompA", None),
                    dcomp(1, "CompB", Some(DataComponentGeneric::Ident("u32".to_string()))),
                ],
            },
            DataArchetype {
                id: 1,
                name: "ArchBar".to_string(),
                components: vec![dcomp(0, "CompA", None), dcomp(1, "CompC", None)],
            },
        ],
    }
}

#[test]
fn world_items_collect_name_and_archetypes() {
    let arch = |n: &str| ParseArchetype { cfgs: vec![], id: None, name: n.to_string(), components: vec![] };
    let w = ParseEcsWorld::from_items(vec![
        ParseItem::ParseName("First".to_string()),
        ParseItem::ParseArchetype(arch("ArchFoo")),
        ParseItem::ParseName("MyWorld".to_string()),
        ParseItem::ParseArchetype(arch("ArchBar")),
    ])
    .unwrap();
    assert_eq!(w.name, "MyWorld");
    assert_eq!(w.archetypes.iter().map(|a| a.name.clone()).collect::<Vec<_>>(), vec!["ArchFoo", "ArchBar"]);

    let w = ParseEcsWorld::from_items(vec![ParseItem::ParseArchetype(arch("ArchFoo"))]).unwrap();
    assert_eq!(w.name, "EcsWorld");

    let err = ParseEcsWorld::from_items(vec![ParseItem::ParseName("Lonely".to_string())]).unwrap_err();
    assert_eq!(err, ParseError { at: 0, kind: ParseErrorKind::NoArchetypes });
    assert!(ParseEcsWorld::from_items(vec![]).is_err());
}

#[test]
fn component_binding_per_archetype() {
    let data = world_data();
    let params = vec![param("a", false, ParseQueryParamType::Component(pname("CompA")))];
    let bound = bind_query_params(&data, &params).unwrap();
    assert_eq!(bound.len(), 2);
    assert!(bound[0].is_some() && bound[1].is_some());
    assert!(matched_any(&bound));

    let params = vec![
        param("a", true, ParseQueryParamType::Component(pname("CompA"))),
        param("b", false, ParseQueryParamType::Component(pname_generic("CompB", ParseComponentGeneric::Placeholder))),
    ];
    let bound = bind_query_params(&data, &params).unwrap();
    assert!(bound[1].is_none());
    let foo = bound[0].as_ref().unwrap();
    assert_eq!(foo.len(), 2);
    match &foo[1].param_type {
        ParseQueryParamType::Component(n) => {
            assert_eq!(n.name, "CompB");
            assert!(matches!(&n.generic, Some(ParseComponentGeneric::Ident(g)) if g == "u32"));
        }
        _ => panic!("expected a bound component"),
    }

    let params = vec![param("z", false, ParseQueryParamType::Component(pname("CompZ")))];
    let bound = bind_query_params(&data, &params).unwrap();
    assert!(!matched_any(&bound));
}

#[test]
fn entity_params_bind_by_archetype_name() {
    let data = world_data();
    let params = vec![
        param("e", false, ParseQueryParamType::Entity("ArchBar".to_string())),
        param("a", false, ParseQueryParamType::Component(pname("CompA"))),
    ];
    let bound = bind_query_params(&data, &params).unwrap();
    assert!(bound[0].is_none());
    assert!(bound[1].is_some());

    let params = vec![param("e", false, ParseQueryParamType::EntityWild)];
    let bound = bind_query_params(&data, &params).unwrap();
    assert!(bound.iter().all(|b| b.is_some()));
}

#[test]
fn one_of_binds_the_one_present_component() {
    let data = world_data();
    let args = vec![pname("CompB"), pname("CompC")];
    let params = vec![param("x", false, ParseQueryParamType::OneOf(args.clone()))];
    let bound = bind_query_params(&data, &params).unwrap();
    // CompB is generic in ArchFoo, so the plain name does not match there.
    assert!(bound[0].is_none());
    match &bound[1].as_ref().unwrap()[0].param_type {
        ParseQueryParamType::Component(n) => assert_eq!(n.name, "CompC"),
        _ => panic!("expected a bound component"),
    }
    let found = bind_one_of(&data.archetypes[1], &args).unwrap();
    assert!(matches!(found, Some(ParseQueryParamType::Component(n)) if n.name == "CompC"));
    assert!(bind_one_of(&data.archetypes[0], &args).unwrap().is_none());
}

#[test]
fn ambiguous_one_of_is_refused() {
    let data = world_data();
    let args = vec![pname("CompA"), pname("CompC")];
    let params = vec![param("x", false, ParseQueryParamType::OneOf(args.clone()))];
    let err = bind_query_params(&data, &params).unwrap_err();
    assert_eq!(err.param, 0);
    assert_eq!(err.arg, Some(1));
    match err.error {
        BindError::AmbiguousOneOf { archetype, name, found } => {
            assert_eq!(archetype, "ArchBar");
            assert_eq!(name.name, "CompC");
            assert_eq!(found.name, "CompA");
        }
        _ => panic!("expected an ambiguous OneOf"),
    }
}

#[test]
fn ambiguous_component_is_refused() {
    let data = DataWorld {
        name: "EcsWorld".to_string(),
        archetypes: vec![DataArchetype {
            id: 0,
            name: "ArchGen".to_string(),
            components: vec![
                dcomp(0, "CompG", Some(DataComponentGeneric::Ident("u8".to_string()))),
                dcomp(1, "CompG", Some(DataComponentGeneric::Ident("u16".to_string()))),
            ],
        }],
    };
    let wild = pname_generic("CompG", ParseComponentGeneric::Placeholder);
    match data.archetypes[0].try_bind_component(&wild) {
        Err(BindError::AmbiguousComponent { archetype, first, second }) => {
            assert_eq!(archetype, "ArchGen");
            assert!(matches!(&first.generic, Some(ParseComponentGeneric::Ident(g)) if g == "u8"));
            assert!(matches!(&second.generic, Some(DataComponentGeneric::Ident(g)) if g == "u16"));
        }
        _ => panic!("expected an ambiguous component"),
    }
    let exact = pname_generic("CompG", ParseComponentGeneric::Ident("u16".to_string()));
    assert!(data.archetypes[0].try_bind_component(&exact).unwrap().is_some());
    let params = vec![param("g", false, ParseQueryParamType::Component(wild))];
    let err = bind_query_params(&data, &params).unwrap_err();
    assert_eq!(err.param, 0);
    assert!(err.arg.is_none());
}

#[test]
fn cfg_disabled_params_are_skipped() {
    let data = world_data();
    let mut p = param("z", false, ParseQueryParamType::Component(pname("CompZ")));
    p.cfgs.push(ParseAttributeCfg { predicate: "off".to_string() });
    let mut params = vec![param("a", false, ParseQueryParamType::Component(pname("CompA"))), p];
    let mut lookup = CfgLookup::new();
    lookup.insert("off".to_string(), false);
    assert!(!is_cfg_enabled(&params[1], &lookup));
    assert!(is_cfg_enabled(&params[0], &lookup));
    apply_cfg_states(&mut params, &lookup);
    assert!(params[0].is_cfg_enabled);
    assert!(!params[1].is_cfg_enabled);
    let bound = bind_query_params(&data, &params).unwrap();
    assert_eq!(bound[0].as_ref().unwrap().len(), 1);
    assert_eq!(bound[1].as_ref().unwrap().len(), 1);
}

#[test]
fn query_cfg_predicates_in_first_occurrence_order() {
    let mut a = param("a", false, ParseQueryParamType::EntityAny);
    a.cfgs.push(ParseAttributeCfg { predicate: "y".to_string() });
    a.cfgs.push(ParseAttributeCfg { predicate: "x".to_string() });
    let mut b = param("b", false, ParseQueryParamType::EntityAny);
    b.cfgs.push(ParseAttributeCfg { predicate: "x".to_string() });
    b.cfgs.push(ParseAttributeCfg { predicate: "z".to_string() });
    assert_eq!(get_cfg_predicates(&vec![a, b]), vec!["y".to_string(), "x".to_string(), "z".to_string()]);
}

#[test]
fn bound_components_have_tuple_positions() {
    let data = world_data();
    let foo = &data.archetypes[0];
    assert_eq!(foo.component_position(&pname("CompA")), Some(0));
    let bound_b = pname_generic("CompB", ParseComponentGeneric::Ident("u32".to_string()));
    assert_eq!(foo.component_position(&bound_b), Some(1));
    assert_eq!(foo.component_position(&pname_generic("CompB", ParseComponentGeneric::Placeholder)), Some(1));
    assert_eq!(foo.component_position(&pname("CompC")), None);
}
