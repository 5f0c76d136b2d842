# gecs

A generated entity component system, with its core written in Verus and
proved against its contracts.

An ECS world is declared once with `ecs_world!`; its archetypes (fixed sets of
components) become dense storages, and queries (`ecs_find!`, `ecs_iter!`,
`ecs_iter_destroy!`) are bound to the archetypes that fit them when they are
expanded.

## Layout

- `src/` — the verified library:
  - `index`, `version`, `slot`, `entity`, `error`: entity handles, their
    packing into raw data, generational versions and the slot encoding.
  - `storage`: the archetype storage — a sparse array of generational slots
    with a free list over dense component data; its model is a map from live
    handles to components.
  - `traits`: the archetype and key-resolution traits the storage implements.
  - `iter`: the iteration control values of queries.
  - `syntax`: the grammar of world declarations and query parameters, over
    macro input flattened into lexemes.
  - `parse`, `data`, `cfg`, `ids`, `names`: declarations, `#[cfg]` state,
    archetype and component ID assignment, and the recorded world data.
  - `query`: binding query parameters to the archetypes of a world.
  - `codec`: the text form of serialized world data, and hashed macro names.
- `tests/` — tests of the library.
- `app/` — the macro front end: turning token streams into lexemes, world
  data serialization, and code generation.
