use rand::SeedableRng;
use rust_roguelike::map_gen::{
    corridor_at, room_at, shuffled_directions, DefaultGenerator, Direction, Dungeon,
    EmptyGenerator, Generator, Rect, Tile,
};
use rust_roguelike::rng::GameRng;

fn rng(seed: u64) -> GameRng {
    GameRng::seed_from_u64(seed)
}

fn rows(d: &Dungeon) -> Vec<String> {
    (0..d.rows())
        .map(|y| (0..d.columns()).map(|x| d.index(x, y).to_sql()).collect())
        .collect()
}

#[test]
fn tile_glyphs() {
    let known = [
        (Tile::Unused, ' '),
        (Tile::Floor, '.'),
        (Tile::Corridor, ','),
        (Tile::Wall, '#'),
        (Tile::ClosedDoor, '+'),
        (Tile::OpenDoor, '-'),
        (Tile::UpStairs, '<'),
        (Tile::DownStairs, '>'),
    ];
    for (tile, glyph) in known {
        assert_eq!(tile.to_sql(), glyph);
        assert_eq!(Tile::from_glyph(glyph), tile);
        assert_eq!(Tile::column_result(&glyph.to_string()), tile);
    }
    assert_eq!(Tile::Unknown('q').to_sql(), 'q');
    assert_eq!(Tile::from_glyph('q'), Tile::Unknown('q'));
    assert_eq!(Tile::column_result("q"), Tile::Unknown('q'));
    assert_eq!(Tile::column_result("##"), Tile::Unknown('#'));
    assert_eq!(Tile::column_result(". "), Tile::Unknown('.'));
    assert_eq!(Tile::column_result("é"), Tile::Unknown('é'));
}

#[test]
fn dungeon_reads_and_writes() {
    let mut d = Dungeon::new(3, 2, 8);
    assert_eq!(d.columns(), 3);
    assert_eq!(d.rows(), 2);
    d.index_mut(2, 1, Tile::Floor);
    d.index_mut(0, 0, Tile::Wall);
    assert_eq!(d.index(2, 1), Tile::Floor);
    assert_eq!(d.get(2, 1, Tile::Wall), Tile::Floor);
    assert_eq!(d.get(1, 1, Tile::Wall), Tile::Unused);
    assert_eq!(d.get(3, 1, Tile::Wall), Tile::Wall);
    assert_eq!(d.get(-1, 0, Tile::Corridor), Tile::Corridor);
    assert_eq!(d.get(0, 2, Tile::Corridor), Tile::Corridor);
    assert_eq!(d.get(0, -1, Tile::Corridor), Tile::Corridor);
    let all = d.iter();
    assert_eq!(all.len(), 8);
    assert_eq!(all[0], (Tile::Wall, 0, 0));
    assert_eq!(all[1], (Tile::Unused, 1, 0));
    assert_eq!(all[5], (Tile::Floor, 2, 1));
    assert_eq!(all[6], (Tile::Unused, 0, 2));
    assert_eq!(all[7], (Tile::Unused, 1, 2));
}

#[test]
fn empty_level_is_a_walled_room() {
    let d = EmptyGenerator.generate(&mut rng(1), 6, 5);
    assert_eq!(rows(&d), vec!["#####", "#<..#", "#...#", "#####"]);
    let all = d.iter();
    assert_eq!(all.len(), 30);
    assert!(all[20..].iter().all(|t| t.0 == Tile::Unused));
}

#[test]
fn smallest_room_with_stairs_in_it() {
    let d = EmptyGenerator.generate(&mut rng(1), 4, 4);
    assert_eq!(rows(&d), vec!["###", "#<#", "###"]);
}

#[test]
fn smallest_levels_keep_their_stairs_entry() {
    let d = EmptyGenerator.generate(&mut rng(1), 2, 2);
    assert_eq!(d.columns(), 1);
    assert_eq!(d.rows(), 1);
    let all = d.iter();
    assert_eq!(
        all,
        vec![(Tile::Wall, 0, 0), (Tile::Unused, 0, 1), (Tile::UpStairs, 0, 2), (Tile::Unused, 0, 3)]
    );
    let wide = EmptyGenerator.generate(&mut rng(1), 3, 2);
    let tiles: Vec<Tile> = wide.iter().iter().map(|t| t.0).collect();
    assert_eq!(
        tiles,
        vec![Tile::Wall, Tile::Wall, Tile::Unused, Tile::UpStairs, Tile::Unused, Tile::Unused]
    );
}

#[test]
fn rooms_by_direction() {
    assert_eq!(room_at(10, 10, Direction::North, 5, 3), Rect { x: 8, y: 7, width: 5, height: 3 });
    assert_eq!(room_at(10, 10, Direction::South, 4, 3), Rect { x: 8, y: 11, width: 4, height: 3 });
    assert_eq!(room_at(10, 10, Direction::West, 4, 6), Rect { x: 6, y: 7, width: 4, height: 6 });
    assert_eq!(room_at(10, 10, Direction::East, 3, 5), Rect { x: 11, y: 8, width: 3, height: 5 });
}

#[test]
fn corridors_by_direction() {
    let h = |dir, flip| corridor_at(10, 10, dir, true, 4, flip);
    assert_eq!(h(Direction::North, false), Rect { x: 10, y: 9, width: 4, height: 1 });
    assert_eq!(h(Direction::North, true), Rect { x: 7, y: 9, width: 4, height: 1 });
    assert_eq!(h(Direction::South, false), Rect { x: 10, y: 11, width: 4, height: 1 });
    assert_eq!(h(Direction::South, true), Rect { x: 7, y: 11, width: 4, height: 1 });
    assert_eq!(h(Direction::West, true), Rect { x: 6, y: 10, width: 4, height: 1 });
    assert_eq!(h(Direction::East, true), Rect { x: 11, y: 10, width: 4, height: 1 });
    let v = |dir, flip| corridor_at(10, 10, dir, false, 5, flip);
    assert_eq!(v(Direction::North, true), Rect { x: 10, y: 5, width: 1, height: 5 });
    assert_eq!(v(Direction::South, true), Rect { x: 10, y: 11, width: 1, height: 5 });
    assert_eq!(v(Direction::West, false), Rect { x: 9, y: 10, width: 1, height: 5 });
    assert_eq!(v(Direction::West, true), Rect { x: 9, y: 6, width: 1, height: 5 });
    assert_eq!(v(Direction::East, false), Rect { x: 11, y: 10, width: 1, height: 5 });
    assert_eq!(v(Direction::East, true), Rect { x: 11, y: 6, width: 1, height: 5 });
}

#[test]
fn place_rect_lays_fill_and_walls() {
    let g = DefaultGenerator::new();
    let mut d = Dungeon::new(7, 6, 42);
    assert!(g.place_rect(Rect { x: 2, y: 1, width: 3, height: 2 }, Tile::Floor, &mut d));
    assert_eq!(
        rows(&d),
        vec![" #####", " #...#", " #...#", " #####", "       ", "       "]
            .iter()
            .map(|r| format!("{:<7}", r))
            .collect::<Vec<_>>()
    );
}

#[test]
fn place_rect_refuses_used_or_outlying_area() {
    let g = DefaultGenerator::new();
    let mut d = Dungeon::new(7, 6, 42);
    assert!(g.place_rect(Rect { x: 1, y: 1, width: 2, height: 2 }, Tile::Floor, &mut d));
    let before = rows(&d);
    for rect in [
        Rect { x: 2, y: 2, width: 2, height: 2 },
        Rect { x: 3, y: 1, width: 2, height: 2 },
        Rect { x: 0, y: 1, width: 1, height: 1 },
        Rect { x: 4, y: 0, width: 1, height: 1 },
        Rect { x: 4, y: 1, width: 3, height: 1 },
        Rect { x: 4, y: 4, width: 1, height: 2 },
    ] {
        assert!(!g.place_rect(rect, Tile::Corridor, &mut d));
        assert_eq!(rows(&d), before);
    }
    assert!(g.place_rect(Rect { x: 4, y: 1, width: 2, height: 4 }, Tile::Corridor, &mut d));
    assert_eq!(d.index(4, 1), Tile::Corridor);
    assert_eq!(d.index(5, 4), Tile::Corridor);
    assert_eq!(d.index(3, 1), Tile::Wall);
    assert_eq!(d.index(6, 5), Tile::Wall);
    assert_eq!(d.index(1, 1), Tile::Floor);
}

#[test]
fn random_rooms_and_corridors_vary_within_their_sizes() {
    let g = DefaultGenerator::new();
    let mut r = rng(9);
    let mut widths = std::collections::BTreeSet::new();
    let mut shapes = std::collections::BTreeSet::new();
    let mut xs = std::collections::BTreeSet::new();
    for _ in 0..200 {
        let room = g.random_room(&mut r, (20, 20), Direction::East);
        assert!((3..=6).contains(&room.width) && (3..=6).contains(&room.height));
        assert_eq!(room, room_at(20, 20, Direction::East, room.width, room.height));
        widths.insert(room.width);
        let c = g.random_corridor(&mut r, (20, 20), Direction::North);
        assert!(c.width == 1 || c.height == 1);
        let length = c.width.max(c.height);
        assert!((3..=6).contains(&length));
        if c.height == 1 {
            assert_eq!(c.y, 19);
            assert!(c.x == 20 || c.x == 20 - length + 1);
            xs.insert(c.x == 20);
        } else {
            assert_eq!(c, Rect { x: 20, y: 20 - length, width: 1, height: length });
        }
        shapes.insert(c.height == 1);
    }
    assert_eq!(widths.len(), 4);
    assert_eq!(shapes.len(), 2);
    assert_eq!(xs.len(), 2);
}

#[test]
fn shuffled_directions_are_the_four_in_varying_order() {
    let mut r = rng(4);
    let mut orders = std::collections::BTreeSet::new();
    for _ in 0..100 {
        let d = shuffled_directions(&mut r);
        assert_eq!(d.len(), 4);
        for dir in [Direction::North, Direction::South, Direction::East, Direction::West] {
            assert_eq!(d.iter().filter(|x| **x == dir).count(), 1);
        }
        orders.insert(format!("{:?}", d));
    }
    assert!(orders.len() > 10);
}

fn check_level(d: &Dungeon, width: i64, height: i64) {
    assert_eq!(d.columns(), width - 1);
    assert_eq!(d.rows(), height - 1);
    assert_eq!(d.iter().len() as i64, width * height);
    assert_eq!(d.index(1, 1), Tile::UpStairs);
    for y in 0..d.rows() {
        for x in 0..d.columns() {
            let t = d.index(x, y);
            assert!(!matches!(t, Tile::Unknown(_) | Tile::OpenDoor));
            let open = matches!(t, Tile::Floor | Tile::Corridor | Tile::DownStairs)
                || (t == Tile::UpStairs && (x, y) != (1, 1));
            if open {
                assert!(x >= 1 && y >= 1 && x < d.columns() - 1 && y < d.rows() - 1);
                for (dx, dy) in [(-1, 0), (1, 0), (0, -1), (0, 1), (-1, -1), (1, 1), (-1, 1), (1, -1)] {
                    if (x + dx, y + dy) != (1, 1) {
                        assert_ne!(d.index(x + dx, y + dy), Tile::Unused);
                    }
                }
            }
        }
    }
}

#[test]
fn default_levels_are_walled_in() {
    for seed in 0..20 {
        let mut g = DefaultGenerator::new();
        let d = g.generate(&mut rng(seed), 80, 25);
        check_level(&d, 80, 25);
        let floors = d.iter().iter().filter(|t| t.0 == Tile::Floor).count();
        assert!(floors >= 9);
    }
}

fn walkable(t: Tile) -> bool {
    matches!(
        t,
        Tile::Floor | Tile::Corridor | Tile::ClosedDoor | Tile::OpenDoor | Tile::UpStairs | Tile::DownStairs
    )
}

#[test]
fn roomy_levels_have_a_room_in_their_middle() {
    for (seed, width, height) in [(1, 9, 15), (2, 9, 15), (3, 80, 25), (4, 30, 40), (5, 12, 16)] {
        let d = DefaultGenerator::new().generate(&mut rng(seed), width, height);
        check_level(&d, width, height);
        let (cx, cy) = (d.columns() / 2, d.rows() / 2);
        for y in cy - 3..cy {
            for x in cx - 1..=cx + 1 {
                assert!(walkable(d.index(x, y)), "seed {} tile {} {}", seed, x, y);
            }
        }
    }
}

#[test]
fn default_levels_have_at_most_one_staircase_each_way_besides_the_start() {
    for seed in 0..20 {
        let mut g = DefaultGenerator::new();
        let d = g.generate(&mut rng(seed), 80, 25);
        let all = d.iter();
        let ups = all.iter().filter(|t| t.0 == Tile::UpStairs).count();
        let downs = all.iter().filter(|t| t.0 == Tile::DownStairs).count();
        assert!((1..=2).contains(&ups));
        assert!(downs <= 1);
    }
}

#[test]
fn same_seed_same_level() {
    let a = DefaultGenerator::new().generate(&mut rng(31), 40, 20);
    let b = DefaultGenerator::new().generate(&mut rng(31), 40, 20);
    assert_eq!(rows(&a), rows(&b));
    let c = DefaultGenerator::new().generate(&mut rng(32), 40, 20);
    assert_ne!(rows(&a), rows(&c));
}

#[test]
fn level_too_small_for_a_room_has_only_its_stairs() {
    let mut g = DefaultGenerator::new();
    let d = g.generate(&mut rng(3), 4, 4);
    assert_eq!(rows(&d), vec!["   ", " < ", "   "]);
}

#[test]
fn single_steps_of_the_generator() {
    let mut g = DefaultGenerator::new();
    let mut d = Dungeon::new(30, 20, 600);
    let mut r = rng(12);
    let count = |d: &Dungeon, tile: Tile| d.iter().iter().filter(|t| t.0 == tile).count();
    assert!(!g.place_object(&mut r, Tile::UpStairs, &mut d));
    assert!(!g.create_feature(&mut r, &mut d));
    assert!(!g.create_feature_at(&mut r, 5, 5, Direction::North, &mut d));
    assert!(rows(&d).iter().all(|row| row.trim().is_empty()));
    assert!(g.make_room(&mut r, 15, 10, Direction::North, true, &mut d));
    let floors = count(&d, Tile::Floor);
    assert!((9..=36).contains(&floors));
    assert!(g.create_feature(&mut r, &mut d));
    assert_eq!(count(&d, Tile::ClosedDoor), 1);
    assert!(count(&d, Tile::Floor) + count(&d, Tile::Corridor) > floors);
    let floors = count(&d, Tile::Floor);
    let mut placed = false;
    for _ in 0..20 {
        if g.place_object(&mut r, Tile::DownStairs, &mut d) {
            placed = true;
            break;
        }
    }
    assert!(placed);
    assert_eq!(count(&d, Tile::DownStairs), 1);
    assert_eq!(count(&d, Tile::Floor), floors - 1);
}

#[test]
fn corridor_next_to_a_room() {
    let mut g = DefaultGenerator::new();
    let mut d = Dungeon::new(30, 20, 600);
    let mut r = rng(5);
    assert!(g.make_room(&mut r, 15, 10, Direction::South, true, &mut d));
    let before = rows(&d);
    let mut built = false;
    for _ in 0..50 {
        if g.make_corridor(&mut r, 15, 1, Direction::North, &mut d) {
            built = true;
            break;
        }
        assert_eq!(rows(&d), before);
    }
    let corridor = d.iter().iter().filter(|t| t.0 == Tile::Corridor).count();
    if built {
        assert!((3..=6).contains(&corridor));
    } else {
        assert_eq!(corridor, 0);
    }
}

fn first_room(seed: u64) -> (DefaultGenerator, Dungeon, GameRng, i64) {
    let mut g = DefaultGenerator::new();
    let mut d = Dungeon::new(40, 30, 1200);
    let mut r = rng(seed);
    assert!(g.make_room(&mut r, 20, 15, Direction::North, true, &mut d));
    let top = d.iter().iter().filter(|t| t.0 == Tile::Floor).map(|t| t.2).min().unwrap();
    (g, d, r, top)
}

#[test]
fn a_corridor_is_built_where_every_corridor_is_free() {
    for seed in 0..40 {
        let mut g = DefaultGenerator::new();
        let mut d = Dungeon::new(40, 30, 1200);
        let dir = [Direction::North, Direction::South, Direction::East, Direction::West][seed % 4];
        assert!(g.make_corridor(&mut rng(seed as u64), 20, 15, dir, &mut d));
        let laid = d.iter().iter().filter(|t| t.0 == Tile::Corridor).count();
        assert!((3..=6).contains(&laid));
    }
}

#[test]
fn no_corridor_is_built_where_none_is_free() {
    for seed in 0..40 {
        let mut g = DefaultGenerator::new();
        let mut d = Dungeon::new(40, 30, 1200);
        assert!(!g.make_corridor(&mut rng(seed), 0, 0, Direction::North, &mut d));
        assert!(!g.make_corridor(&mut rng(seed), 20, 1, Direction::North, &mut d));
        assert!(rows(&d).iter().all(|row| row.trim().is_empty()));
    }
}

#[test]
fn a_feature_is_built_at_an_exit_of_the_first_room() {
    for seed in 0..40 {
        let (mut g, mut d, mut r, top) = first_room(seed);
        let floors = d.iter().iter().filter(|t| t.0 == Tile::Floor).count();
        assert_eq!(d.index(20, top - 1), Tile::Wall);
        assert!(g.create_feature_at(&mut r, 20, top - 1, Direction::North, &mut d));
        let door = d.index(20, top - 1);
        assert_eq!(door, Tile::ClosedDoor);
        let now = d.iter().iter().filter(|t| t.0 == Tile::Floor).count();
        let corridor = d.iter().iter().filter(|t| t.0 == Tile::Corridor).count();
        assert!((now > floors && corridor == 0) || (now == floors && (3..=6).contains(&corridor)));
    }
}

#[test]
fn no_feature_is_built_where_it_cannot_be_entered() {
    for seed in 0..40 {
        let (mut g, mut d, mut r, top) = first_room(seed);
        let before = rows(&d);
        assert!(!g.create_feature_at(&mut r, 20, top - 1, Direction::South, &mut d));
        assert!(!g.create_feature_at(&mut r, 20, top - 1, Direction::East, &mut d));
        assert!(!g.create_feature_at(&mut r, 3, 3, Direction::North, &mut d));
        assert_eq!(rows(&d), before);
    }
}

#[test]
fn a_second_feature_follows_the_first_room() {
    for seed in 0..40 {
        let (mut g, mut d, mut r, _) = first_room(seed);
        let before = rows(&d);
        assert!(g.create_feature(&mut r, &mut d));
        assert_ne!(rows(&d), before);
        let doors = d.iter().iter().filter(|t| t.0 == Tile::ClosedDoor).count();
        assert_eq!(doors, 1);
    }
}

#[test]
fn no_feature_without_an_exit() {
    let mut g = DefaultGenerator::new();
    let mut d = Dungeon::new(40, 30, 1200);
    assert!(!g.create_feature(&mut rng(1), &mut d));
    assert!(g.make_corridor(&mut rng(1), 20, 15, Direction::North, &mut d));
    let before = rows(&d);
    let mut fresh = DefaultGenerator::new();
    assert!(!fresh.create_feature(&mut rng(2), &mut d));
    assert_eq!(rows(&d), before);
}

#[test]
fn an_object_is_put_into_a_clear_room() {
    for seed in 0..40 {
        let (mut g, mut d, mut r, _) = first_room(seed);
        let floors = d.iter().iter().filter(|t| t.0 == Tile::Floor).count();
        assert!(g.place_object(&mut r, Tile::DownStairs, &mut d));
        assert_eq!(d.iter().iter().filter(|t| t.0 == Tile::DownStairs).count(), 1);
        assert_eq!(d.iter().iter().filter(|t| t.0 == Tile::Floor).count(), floors - 1);
        assert!(!g.place_object(&mut r, Tile::UpStairs, &mut d));
        assert_eq!(d.iter().iter().filter(|t| t.0 == Tile::UpStairs).count(), 0);
    }
}
