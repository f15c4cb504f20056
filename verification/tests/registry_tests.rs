use voxel_world::blockdefs::{
    default_false, default_texture, default_true, Admission, BlockDefinition, BlockRegistry, UvRect,
};
use voxel_world::player::{air_block_id, dirt_block_id, Inputs};
use voxel_world::{loading_step, GameState};

fn def(key: &str) -> BlockDefinition {
    BlockDefinition::with_defaults(format!("name of {}", key), key.to_string())
}

#[test]
fn definition_defaults() {
    assert_eq!(default_texture(), "textures/TestTexture.png");
    assert!(default_true());
    assert!(!default_false());
    let d = def("rg_dirt");
    assert_eq!(d.key, "rg_dirt");
    assert_eq!(d.name, "name of rg_dirt");
    assert_eq!(d.hardness, 0);
    assert!(!d.transparent && !d.empty && d.solid);
    assert_eq!(d.texture, "textures/TestTexture.png");
    assert_eq!(d.uv_rect, UvRect::zero());
}

#[test]
fn register_then_lookup() {
    let mut r = BlockRegistry::new();
    assert_eq!(r.get_id("rg_air"), None);
    assert!(r.get_def(0).is_none());
    r.register(def("rg_air"));
    r.register(def("rg_dirt"));
    assert_eq!(r.len(), 2);
    assert_eq!(r.get_id("rg_air"), Some(0));
    assert_eq!(r.get_id("rg_dirt"), Some(1));
    assert_eq!(r.get_def(1).unwrap().key, "rg_dirt");
    assert!(r.get_def(2).is_none());
    assert_eq!(air_block_id(&r), Some(0));
    assert_eq!(dirt_block_id(&r), Some(1));
}

#[test]
fn later_registration_of_a_key_wins() {
    let mut r = BlockRegistry::new();
    r.register(def("a"));
    r.register(def("b"));
    r.register(def("a"));
    assert_eq!(r.get_id("a"), Some(2));
    assert_eq!(r.get_id("b"), Some(1));
    assert_eq!(r.get_def(0).unwrap().key, "a");
}

#[test]
fn register_loaded_outcomes() {
    let mut r = BlockRegistry::new();
    let rect = UvRect { min_x: 1, min_y: 2, max_x: 3, max_y: 4 };
    assert_eq!(r.register_loaded(def("x"), false, Some(rect)), Admission::TextureMissing);
    assert_eq!(r.register_loaded(def("x"), true, None), Admission::NotInAtlas);
    assert_eq!(r.len(), 0);
    assert_eq!(r.register_loaded(def("x"), true, Some(rect)), Admission::Registered(0));
    assert_eq!(r.register_loaded(def("y"), true, Some(rect)), Admission::Registered(1));
    assert_eq!(r.get_def(0).unwrap().uv_rect, rect);
    assert_eq!(r.get_id("y"), Some(1));
}

#[test]
fn loading_waits_for_both_folders() {
    assert_eq!(GameState::default(), GameState::Loading);
    assert_eq!(loading_step(GameState::Loading, true, false), GameState::Loading);
    assert_eq!(loading_step(GameState::Loading, false, true), GameState::Loading);
    assert_eq!(loading_step(GameState::Loading, true, true), GameState::Playing);
    assert_eq!(loading_step(GameState::Playing, false, false), GameState::Playing);
}

#[test]
fn inputs_latch_until_taken() {
    let mut i = Inputs::default();
    assert!(!i.take_jump());
    i.register_jump(true);
    i.register_jump(false);
    assert!(i.take_jump());
    assert!(!i.take_jump());
    i.register_place(true);
    assert!(!i.take_breaking());
    assert!(i.take_place());
    i.register_breaking(false);
    assert!(!i.take_breaking());
    i.register_breaking(true);
    assert!(!i.take_jump());
    assert!(i.take_breaking());
}
