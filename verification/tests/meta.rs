use rust_roguelike::component::actor::Actor;
use rust_roguelike::component::velocity::Velocity;
use rust_roguelike::component::{actor, create_tables, player, transition, velocity};
use rust_roguelike::console::{ConsolePoint, VirtualKeyCode};
use rust_roguelike::entity::{self, Entity};
use rust_roguelike::error::StoreError;
use rust_roguelike::game_object::{
    background_color, enemy_color, ground_color, init_floor, init_player, menu_color_selected,
    menu_color_unselected, particle_color, player_color, stair_color, wall_color, Color, Plane,
    WorldPoint, WIN_LEVEL,
};
use rust_roguelike::meta::{
    in_game_keydown_handler, init_rng, keydown_handler, main_menu, press_key,
    won_game_keydown_handler, DrawCommand, GameMode, MenuResult, Renderer, CREATIVE_MODE,
    LOAD_GAME, NEW_GAME,
};
use rust_roguelike::rng::pcg_randint;
use rust_roguelike::world::World;

fn lines(commands: &[DrawCommand]) -> Vec<String> {
    commands.iter().map(|c| format!("{:?}", c)).collect()
}

fn selected_text(keys: &[VirtualKeyCode]) -> String {
    let mut menu = main_menu();
    let mut last = MenuResult::Nothing;
    for k in keys {
        last = keydown_handler(&vec![*k], &mut menu);
    }
    match last {
        MenuResult::Selected(text) => text,
        other => panic!("nothing was chosen: {:?}", other),
    }
}

#[test]
fn main_menu_entries() {
    assert_eq!(selected_text(&[VirtualKeyCode::Return]), CREATIVE_MODE);
    assert_eq!(selected_text(&[VirtualKeyCode::Down, VirtualKeyCode::Space]), NEW_GAME);
    assert_eq!(
        selected_text(&[VirtualKeyCode::Right, VirtualKeyCode::Right, VirtualKeyCode::NumpadEnter]),
        LOAD_GAME
    );
}

#[test]
fn menu_selection_goes_round() {
    assert_eq!(selected_text(&[VirtualKeyCode::Up, VirtualKeyCode::Return]), LOAD_GAME);
    assert_eq!(
        selected_text(&[
            VirtualKeyCode::Down,
            VirtualKeyCode::Down,
            VirtualKeyCode::Down,
            VirtualKeyCode::Return
        ]),
        CREATIVE_MODE
    );
    let mut menu = main_menu();
    menu.add(7);
    assert_eq!(menu.selected_item(), NEW_GAME);
    menu.add(-8);
    assert_eq!(menu.selected_item(), LOAD_GAME);
    menu.add(i64::MAX);
    assert_eq!(menu.selected_item(), CREATIVE_MODE);
    menu.add(i64::MIN);
    assert_eq!(menu.selected_item(), NEW_GAME);
    menu.add(0);
    assert_eq!(menu.selected_item(), NEW_GAME);
}

#[test]
fn first_meaningful_key_decides() {
    let mut menu = main_menu();
    let keys = vec![VirtualKeyCode::Other, VirtualKeyCode::Down, VirtualKeyCode::Return];
    assert!(matches!(keydown_handler(&keys, &mut menu), MenuResult::Updated));
    assert_eq!(menu.selected_item(), NEW_GAME);
    assert!(matches!(keydown_handler(&vec![VirtualKeyCode::Escape], &mut menu), MenuResult::Back));
    assert!(matches!(keydown_handler(&vec![VirtualKeyCode::Other], &mut menu), MenuResult::Nothing));
    assert!(matches!(keydown_handler(&vec![], &mut menu), MenuResult::Nothing));
    assert_eq!(menu.selected_item(), NEW_GAME);
}

#[test]
fn colours() {
    assert_eq!(Color::from_u8s((1, 2, 3)), Color { r: 1, g: 2, b: 3 });
    assert_eq!(ground_color(), Color { r: 80, g: 80, b: 80 });
    assert_eq!(particle_color(), Color { r: 200, g: 200, b: 200 });
    for c in [enemy_color(), player_color(), wall_color(), stair_color()] {
        assert_eq!(c, Color { r: 255, g: 255, b: 255 });
    }
    assert_eq!(background_color(), Color { r: 0, g: 0, b: 0 });
    assert_eq!(menu_color_selected().fg, background_color());
    assert_eq!(menu_color_selected().bg, wall_color());
    assert_eq!(menu_color_unselected().fg, wall_color());
    assert_eq!(menu_color_unselected().bg, background_color());
}

#[test]
fn planes() {
    let layers = [
        (Plane::Player, 0),
        (Plane::Enemies, 5),
        (Plane::Particles, 10),
        (Plane::Objects, 90),
        (Plane::Wall, 99),
        (Plane::Ground, 100),
    ];
    for (i, (plane, layer)) in layers.iter().enumerate() {
        assert_eq!(plane.to_sql(), *layer);
        assert_eq!(Plane::column_result(*layer), Some(*plane));
        assert_eq!(Plane::nth(i), *plane);
    }
    for other in [-1, 1, 4, 6, 50, 101, i64::MAX, i64::MIN] {
        assert_eq!(Plane::column_result(other), None);
    }
}

#[test]
fn console_points() {
    let p = ConsolePoint { x: 3, y: 4 };
    assert_eq!(p.down(2), ConsolePoint { x: 3, y: 6 });
    assert_eq!(p.down(-4), ConsolePoint { x: 3, y: 0 });
    assert_eq!(ConsolePoint::from(WorldPoint { x: 5, y: 6 }), ConsolePoint { x: 5, y: 7 });
    assert_eq!(
        ConsolePoint::try_from(WorldPoint { x: -5, y: -1 }),
        Some(ConsolePoint { x: -5, y: 0 })
    );
    assert_eq!(ConsolePoint::try_from(WorldPoint { x: 0, y: i64::MAX }), None);
    assert_eq!(
        ConsolePoint::try_from(WorldPoint { x: i64::MAX, y: i64::MAX - 1 }),
        Some(ConsolePoint { x: i64::MAX, y: i64::MAX })
    );
}

fn game() -> (World, Entity) {
    let mut world = create_tables();
    let p = init_player(&mut world, true).unwrap();
    actor::set(
        &mut world,
        Actor {
            entity: p,
            tile: "@".to_string(),
            pos: WorldPoint { x: 2, y: 2 },
            color: player_color(),
            plane: Plane::Player,
        },
    )
    .unwrap();
    (world, p)
}

#[test]
fn movement_keys_steer_and_ask_for_a_turn() {
    for (key, dx, dy) in [
        (VirtualKeyCode::Left, -1, 0),
        (VirtualKeyCode::Right, 1, 0),
        (VirtualKeyCode::Up, 0, -1),
        (VirtualKeyCode::Down, 0, 1),
    ] {
        let (mut world, p) = game();
        assert_eq!(press_key(&mut world, p, key), Ok(false));
        assert_eq!(velocity::get(&world, p), Some(Velocity { dx, dy }));
        assert_eq!(player::outstanding_turns(&world), Ok(1));
        assert_eq!(actor::get(&world, p).unwrap().pos, WorldPoint { x: 2, y: 2 });
    }
}

#[test]
fn other_keys_do_nothing() {
    let (mut world, p) = game();
    for key in [VirtualKeyCode::Escape, VirtualKeyCode::Return, VirtualKeyCode::Other] {
        assert_eq!(press_key(&mut world, p, key), Ok(false));
    }
    assert_eq!(velocity::get(&world, p), Some(Velocity { dx: 0, dy: 0 }));
    assert_eq!(player::outstanding_turns(&world), Ok(0));
}

#[test]
fn keys_are_handled_in_order() {
    let (mut world, p) = game();
    let keys = vec![VirtualKeyCode::Left, VirtualKeyCode::Other, VirtualKeyCode::Down];
    assert!(matches!(in_game_keydown_handler(&mut world, &keys, p), Ok(None)));
    assert_eq!(velocity::get(&world, p), Some(Velocity { dx: 0, dy: 1 }));
    assert_eq!(player::outstanding_turns(&world), Ok(2));
}

#[test]
fn keys_are_dropped_while_turns_are_outstanding() {
    let (mut world, p) = game();
    player::schedule_time(&mut world, 1).unwrap();
    let keys = vec![VirtualKeyCode::Left, VirtualKeyCode::Space];
    assert!(matches!(in_game_keydown_handler(&mut world, &keys, p), Ok(None)));
    assert_eq!(velocity::get(&world, p), Some(Velocity { dx: 0, dy: 0 }));
    assert_eq!(player::outstanding_turns(&world), Ok(1));
}

#[test]
fn space_follows_transitions() {
    let (mut world, p) = game();
    let s = entity::create(&mut world).unwrap();
    actor::set(
        &mut world,
        Actor {
            entity: s,
            tile: ">".to_string(),
            pos: WorldPoint { x: 2, y: 2 },
            color: stair_color(),
            plane: Plane::Objects,
        },
    )
    .unwrap();
    transition::set(&mut world, s, "cellar").unwrap();
    assert_eq!(press_key(&mut world, p, VirtualKeyCode::Space), Ok(false));
    assert_eq!(player::level(&world), Ok("cellar".to_string()));
    transition::set(&mut world, s, WIN_LEVEL).unwrap();
    let keys = vec![VirtualKeyCode::NumpadEnter, VirtualKeyCode::Left];
    let won = in_game_keydown_handler(&mut world, &keys, p);
    assert!(matches!(won, Ok(Some(GameMode::WonGame))));
    assert_eq!(player::level(&world), Ok(WIN_LEVEL.to_string()));
    assert_eq!(player::outstanding_turns(&world), Ok(0));
    assert_eq!(velocity::get(&world, p), Some(Velocity { dx: 0, dy: 0 }));
}

#[test]
fn keys_fail_for_unknown_player_or_full_queue() {
    let (mut world, p) = game();
    let ghost = Entity { id: 40 };
    assert_eq!(press_key(&mut world, ghost, VirtualKeyCode::Left), Err(StoreError::UnknownEntity));
    assert!(matches!(
        in_game_keydown_handler(&mut world, &vec![VirtualKeyCode::Up], ghost),
        Err(StoreError::UnknownEntity)
    ));
    assert!(velocity::get(&world, ghost).is_none());
    let mut empty = create_tables();
    assert!(matches!(
        in_game_keydown_handler(&mut empty, &vec![], ghost),
        Err(StoreError::NoPlayer)
    ));
    player::schedule_time(&mut world, i64::MAX).unwrap();
    assert_eq!(press_key(&mut world, p, VirtualKeyCode::Left), Err(StoreError::Overflow));
    assert_eq!(velocity::get(&world, p), Some(Velocity { dx: -1, dy: 0 }));
    assert_eq!(player::outstanding_turns(&world), Ok(i64::MAX));
}

#[test]
fn any_key_leaves_the_won_game() {
    let mut mode = GameMode::WonGame;
    won_game_keydown_handler(&vec![], &mut mode);
    assert!(matches!(mode, GameMode::WonGame));
    won_game_keydown_handler(&vec![VirtualKeyCode::Other], &mut mode);
    match mode {
        GameMode::MainMenu(menu) => assert_eq!(menu.selected_item(), CREATIVE_MODE),
        _ => panic!("back on the main menu"),
    }
}

#[test]
fn renderer_draws_only_what_changed() {
    let mut renderer = Renderer::new();
    assert!(renderer.is_dirty());
    let mode = GameMode::WonGame;
    let first = renderer.draw(&mode).unwrap();
    assert_eq!(
        lines(&first),
        vec![
            "Clear",
            "Clear",
            "Print { pos: ConsolePoint { x: 1, y: 1 }, text: \"You Win\" }",
            "Present"
        ]
    );
    assert!(!renderer.is_dirty());
    assert!(renderer.draw(&mode).unwrap().is_empty());
    renderer.mark_dirty();
    assert_eq!(renderer.draw(&mode).unwrap().len(), 4);
}

#[test]
fn renderer_draws_the_menu() {
    let mut menu = main_menu();
    menu.add(1);
    let mut renderer = Renderer::new();
    let drawn = renderer.draw(&GameMode::MainMenu(menu)).unwrap();
    let white = "Color { r: 255, g: 255, b: 255 }";
    let black = "Color { r: 0, g: 0, b: 0 }";
    let line = |y: i64, fg: &str, bg: &str, text: &str| {
        format!(
            "PrintColor {{ pos: ConsolePoint {{ x: 0, y: {} }}, fg: {}, bg: {}, text: {:?} }}",
            y, fg, bg, text
        )
    };
    assert_eq!(
        lines(&drawn),
        vec![
            "Clear".to_string(),
            line(0, white, black, CREATIVE_MODE),
            line(1, black, white, NEW_GAME),
            line(2, white, black, LOAD_GAME),
            "Present".to_string(),
        ]
    );
}

#[test]
fn renderer_draws_the_game() {
    let (mut world, p) = game();
    init_floor(&mut world, WorldPoint { x: 2, y: 2 }).unwrap();
    init_floor(&mut world, WorldPoint { x: 3, y: 2 }).unwrap();
    player::pass_time(&mut world, 7).unwrap();
    let mut renderer = Renderer::new();
    let mode = GameMode::InGame { world, player: p, is_creative: true, selected_point: None };
    let drawn = lines(&renderer.draw(&mode).unwrap());
    assert_eq!(drawn.len(), 6);
    assert_eq!(drawn[0], "Clear");
    assert_eq!(
        drawn[1],
        "PrintColor { pos: ConsolePoint { x: 2, y: 3 }, fg: Color { r: 255, g: 255, b: 255 }, \
         bg: Color { r: 0, g: 0, b: 0 }, text: \"@\" }"
    );
    assert_eq!(
        drawn[2],
        "PrintColor { pos: ConsolePoint { x: 3, y: 3 }, fg: Color { r: 80, g: 80, b: 80 }, \
         bg: Color { r: 0, g: 0, b: 0 }, text: \".\" }"
    );
    assert_eq!(drawn[3], "PrintNumber { pos: ConsolePoint { x: 0, y: 0 }, number: 7 }");
    assert_eq!(
        drawn[4],
        "Print { pos: ConsolePoint { x: 0, y: 27 }, text: \"Click something!\" }"
    );
    assert_eq!(drawn[5], "Present");

    let (world, p) = game();
    let mode = GameMode::InGame {
        world,
        player: p,
        is_creative: true,
        selected_point: Some(ConsolePoint { x: 9, y: 8 }),
    };
    renderer.mark_dirty();
    let drawn = lines(&renderer.draw(&mode).unwrap());
    assert_eq!(
        drawn[3],
        "PrintPoint { pos: ConsolePoint { x: 0, y: 27 }, point: ConsolePoint { x: 9, y: 8 } }"
    );
}

#[test]
fn renderer_fails_without_player_and_stays_due() {
    let mut renderer = Renderer::new();
    let mode = GameMode::InGame {
        world: create_tables(),
        player: Entity { id: 1 },
        is_creative: false,
        selected_point: None,
    };
    assert!(matches!(renderer.draw(&mode), Err(StoreError::NoPlayer)));
    assert!(renderer.is_dirty());
}

#[test]
fn actors_off_the_integers_are_not_drawn() {
    let far = Actor {
        entity: Entity { id: 1 },
        tile: "?".to_string(),
        pos: WorldPoint { x: 0, y: i64::MAX },
        color: wall_color(),
        plane: Plane::Objects,
    };
    let near = Actor {
        entity: Entity { id: 2 },
        tile: "!".to_string(),
        pos: WorldPoint { x: 0, y: 0 },
        color: wall_color(),
        plane: Plane::Objects,
    };
    let drawn = Renderer::draw_actors(&vec![far, near]);
    assert_eq!(drawn.len(), 1);
    assert!(format!("{:?}", drawn[0]).contains("\"!\""));
}

#[test]
fn entropy_seeded_generator_draws_in_range() {
    let mut a = init_rng();
    let mut b = init_rng();
    let mut same = true;
    for _ in 0..20 {
        let x = pcg_randint(&mut a, 0, i64::MAX);
        let y = pcg_randint(&mut b, 0, i64::MAX);
        assert!(x >= 0 && y >= 0);
        same &= x == y;
    }
    assert!(!same);
}
