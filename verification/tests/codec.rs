use gecs::codec::{hashed_macro_name, world_data_from_text, world_data_to_text, WorldDataError};

#[test]
fn world_text_is_unpadded_base64() {
    assert_eq!(world_data_to_text(b"hello"), "aGVsbG8");
    assert_eq!(world_data_to_text(b""), "");
    assert_eq!(world_data_to_text(&[0xFF, 0xEC, 0x20, 0x55, 0x00]), "/+wgVQA");
    assert_eq!(world_data_to_text(b"abc").len(), 4);
    assert_eq!(world_data_to_text(b"abcd").len(), 6);
}

#[test]
fn world_text_round_trips() {
    let bytes: Vec<u8> = (0u8..=255).collect();
    let text = world_data_to_text(&bytes);
    assert_eq!(world_data_from_text(&text), Ok(bytes));
    assert_eq!(world_data_from_text("aGVsbG8"), Ok(b"hello".to_vec()));
}

#[test]
fn malformed_world_text_is_refused() {
    assert_eq!(world_data_from_text("a"), Err(WorldDataError::MalformedText));
    assert_eq!(world_data_from_text("!!!!"), Err(WorldDataError::MalformedText));
    assert_eq!(world_data_from_text("aGVsbG8="), Err(WorldDataError::MalformedText));
}

#[test]
fn macro_names_carry_the_input_hash() {
    let input = "ecs_archetype!(ArchFoo, CompA);";
    let hash = xxhash_rust::xxh3::xxh3_128(input.as_bytes());
    assert_eq!(hashed_macro_name("__expand_ecs_find_", input), format!("__expand_ecs_find_{}", hash));
    assert_ne!(
        hashed_macro_name("__expand_ecs_find_", input),
        hashed_macro_name("__expand_ecs_find_", "ecs_archetype!(ArchBar, CompA);")
    );
    assert_eq!(hashed_macro_name("p", ""), format!("p{}", xxhash_rust::xxh3::xxh3_128(b"")));
}
