//! The frame around a game: sizes, the menu, the modes of play, the keys that
//! steer them, and what is drawn of them.

use crate::component::actor::{get_visible, visible, Actor};
use crate::component::player::{self, after_schedule, schedule_error};
use crate::component::velocity::{self, Velocity};
use crate::console::{ConsolePoint, VirtualKeyCode, WORLD_LEFT, WORLD_TOP};
use crate::entity::Entity;
use crate::error::StoreError;
use crate::game_object::{
    background_color, menu_color_selected, menu_color_unselected, Color, WIN_LEVEL,
};
use crate::rng::GameRng;
use crate::system::{follow_transition, followed, followed_level};
use crate::world::{World, WorldView};
use rand::SeedableRng;
use vstd::prelude::*;

verus! {

pub const SAVE_FILE_NAME: &'static str = "game.db";

pub const NEW_GAME: &'static str = "New Game";

pub const LOAD_GAME: &'static str = "Load Game";

pub const CREATIVE_MODE: &'static str = "Creative Mode";

pub const CONSOLE_WIDTH: i64 = 80;

pub const CONSOLE_HEIGHT: i64 = 30;

pub const WORLD_WIDTH: i64 = 80;

pub const WORLD_HEIGHT: i64 = 25;

/// Calls `SeedableRng::from_entropy` of `rand`: a generator seeded by the
/// operating system. Nothing is claimed of its state.
#[verifier::external_body]
pub fn init_rng() -> (rng: GameRng) {
    GameRng::from_entropy()
}

/// A list of entries, one of them selected.
#[derive(Debug)]
pub struct Menu {
    top_left: ConsolePoint,
    selected: usize,
    items: Vec<String>,
}

/// What a key press did to a menu.
#[derive(Debug)]
pub enum MenuResult {
    /// No key meant anything.
    Nothing,
    /// The selection moved.
    Updated,
    /// The entry with this text was chosen.
    Selected(String),
    /// The menu was left.
    Back,
}

/// What a key means to a menu: a step of the selection, a choice, leaving, or
/// nothing.
pub enum MenuKey {
    Step(int),
    Choose,
    Leave,
    Ignored,
}

/// What `key` means to a menu.
pub open spec fn menu_key(key: VirtualKeyCode) -> MenuKey {
    match key {
        VirtualKeyCode::Left | VirtualKeyCode::Up => MenuKey::Step(-1),
        VirtualKeyCode::Right | VirtualKeyCode::Down => MenuKey::Step(1),
        VirtualKeyCode::Space | VirtualKeyCode::NumpadEnter | VirtualKeyCode::Return => MenuKey::Choose,
        VirtualKeyCode::Escape => MenuKey::Leave,
        VirtualKeyCode::Other => MenuKey::Ignored,
    }
}

/// The place of the first key in `keys` that means something to a menu, or
/// the length of `keys` if none does.
pub open spec fn first_menu_key(keys: Seq<VirtualKeyCode>) -> int
    decreases keys.len(),
{
    if keys.len() == 0 {
        0
    } else if !(menu_key(keys[0]) is Ignored) {
        0
    } else {
        1 + first_menu_key(keys.skip(1))
    }
}

impl Menu {
    /// The console position of the first entry.
    pub closed spec fn top_left(&self) -> ConsolePoint {
        self.top_left
    }

    /// The place of the selected entry.
    pub closed spec fn selected(&self) -> int {
        self.selected as int
    }

    /// The entries.
    pub closed spec fn items(&self) -> Seq<String> {
        self.items@
    }

    /// The menu has an entry, the selected place holds one, and every entry
    /// has a console row.
    pub open spec fn wf(&self) -> bool {
        &&& 0 < self.items().len()
        &&& 0 <= self.selected() < self.items().len()
        &&& self.items().len() <= i64::MAX
        &&& self.top_left().y + self.items().len() <= i64::MAX
    }

    /// Moves the selection by `i` entries, going round at either end.
    pub fn add(&mut self, i: i64)
        requires
            old(self).wf(),
        ensures
            final(self).wf(),
            final(self).top_left() == old(self).top_left(),
            final(self).items() == old(self).items(),
            final(self).selected() == (old(self).selected() + i) % (old(self).items().len() as int),
    {
        let n = self.items.len() as i64;
        let step = match i.checked_rem_euclid(n) {
            Some(r) => r,
            None => 0,
        };
        let at = self.selected as i64;
        proof {
            let a = self.selected as int;
            let m = n as int;
            let j = i as int;
            assert((a + j) % m == (if a + (j % m) >= m {
                a + (j % m) - m
            } else {
                a + (j % m)
            })) by (nonlinear_arith)
                requires
                    0 <= a < m,
            ;
        }
        if step >= n - at {
            self.selected = (step - (n - at)) as usize;
        } else {
            self.selected = (at + step) as usize;
        }
    }

    /// The lines of the menu, one for each entry, from `top_left` down: see
    /// `menu_line`.
    pub fn draw(&self) -> (commands: Vec<DrawCommand>)
        requires
            self.wf(),
        ensures
            commands@ == Seq::new(self.items().len(), |i: int| menu_line(*self, i)),
    {
        let mut commands: Vec<DrawCommand> = Vec::new();
        let mut i: usize = 0;
        while i < self.items.len()
            invariant
                self.wf(),
                i <= self.items@.len(),
                commands@.len() == i,
                forall|j: int| 0 <= j < i ==> commands@[j] == menu_line(*self, j),
            decreases self.items@.len() - i,
        {
            let color = if i == self.selected {
                menu_color_selected()
            } else {
                menu_color_unselected()
            };
            commands.push(
                DrawCommand::PrintColor {
                    pos: self.top_left.down(i as i64),
                    fg: color.fg,
                    bg: color.bg,
                    text: self.items[i].clone(),
                },
            );
            i = i + 1;
        }
        assert(commands@ =~= Seq::new(self.items().len(), |i: int| menu_line(*self, i)));
        commands
    }

    /// The text of the selected entry.
    pub fn selected_item(&self) -> (text: String)
        requires
            self.wf(),
        ensures
            text == self.items()[self.selected()],
    {
        self.items[self.selected].clone()
    }
}

/// The main menu: creative mode, a new game, and loading a game, with the
/// first entry selected.
pub fn main_menu() -> (menu: Menu)
    ensures
        menu.wf(),
        menu.top_left() == (ConsolePoint { x: 0, y: 0 }),
        menu.selected() == 0,
        menu.items().len() == 3,
        menu.items()[0]@ == CREATIVE_MODE@,
        menu.items()[1]@ == NEW_GAME@,
        menu.items()[2]@ == LOAD_GAME@,
{
    let mut items: Vec<String> = Vec::new();
    items.push(CREATIVE_MODE.to_owned());
    items.push(NEW_GAME.to_owned());
    items.push(LOAD_GAME.to_owned());
    Menu { top_left: ConsolePoint { x: 0, y: 0 }, selected: 0, items }
}

/// Handles the keys pressed on a menu: the first key that means something to
/// the menu decides, and the keys after it are dropped. An arrow key moves the
/// selection by one; space or enter chooses the selected entry; escape leaves.
pub fn keydown_handler(keycodes: &Vec<VirtualKeyCode>, menu: &mut Menu) -> (result: MenuResult)
    requires
        old(menu).wf(),
    ensures
        final(menu).wf(),
        final(menu).top_left() == old(menu).top_left(),
        final(menu).items() == old(menu).items(),
        ({
            let at = first_menu_key(keycodes@);
            if at == keycodes@.len() {
                result is Nothing && *final(menu) == *old(menu)
            } else {
                match menu_key(keycodes@[at]) {
                    MenuKey::Step(i) => result is Updated && final(menu).selected() == (old(
                        menu,
                    ).selected() + i) % (old(menu).items().len() as int),
                    MenuKey::Choose => result == MenuResult::Selected(
                        old(menu).items()[old(menu).selected()],
                    ) && *final(menu) == *old(menu),
                    MenuKey::Leave => result is Back && *final(menu) == *old(menu),
                    MenuKey::Ignored => false,
                }
            }
        }),
{
    let mut i: usize = 0;
    assert(keycodes@.skip(0) =~= keycodes@);
    while i < keycodes.len()
        invariant
            *menu == *old(menu),
            menu.wf(),
            i <= keycodes.len(),
            first_menu_key(keycodes@) == i + first_menu_key(keycodes@.skip(i as int)),
        decreases keycodes.len() - i,
    {
        proof {
            let rest = keycodes@.skip(i as int);
            assert(rest[0] == keycodes@[i as int]);
            assert(rest.skip(1) =~= keycodes@.skip(i + 1));
        }
        match keycodes[i] {
            VirtualKeyCode::Left | VirtualKeyCode::Up => {
                menu.add(-1);
                return MenuResult::Updated;
            },
            VirtualKeyCode::Right | VirtualKeyCode::Down => {
                menu.add(1);
                return MenuResult::Updated;
            },
            VirtualKeyCode::Space | VirtualKeyCode::NumpadEnter | VirtualKeyCode::Return => {
                return MenuResult::Selected(menu.selected_item());
            },
            VirtualKeyCode::Escape => {
                return MenuResult::Back;
            },
            VirtualKeyCode::Other => {},
        }
        i = i + 1;
    }
    MenuResult::Nothing
}

/// The mode that the program is in.
pub enum GameMode {
    /// The main menu is shown.
    MainMenu(Menu),
    /// A game is played.
    InGame { world: World, player: Entity, is_creative: bool, selected_point: Option<ConsolePoint> },
    /// The game is won.
    WonGame,
}

/// The velocity that a key gives the player, if it is a movement key.
pub open spec fn steering(key: VirtualKeyCode) -> Option<Velocity> {
    match key {
        VirtualKeyCode::Left => Some(Velocity { dx: -1i64, dy: 0 }),
        VirtualKeyCode::Right => Some(Velocity { dx: 1, dy: 0 }),
        VirtualKeyCode::Up => Some(Velocity { dx: 0, dy: -1i64 }),
        VirtualKeyCode::Down => Some(Velocity { dx: 0, dy: 1 }),
        _ => None,
    }
}

/// Where a key press leaves the world.
pub enum KeyEffect {
    /// The game goes on in this world.
    Continue(WorldView),
    /// The game is won in this world.
    Won(WorldView),
    /// The key failed with this error and left this world.
    Failed(WorldView, StoreError),
}

impl KeyEffect {
    /// The world that the key press leaves.
    pub open spec fn world(self) -> WorldView {
        match self {
            KeyEffect::Continue(m) => m,
            KeyEffect::Won(m) => m,
            KeyEffect::Failed(m, _) => m,
        }
    }
}

/// What one key does in a game.
///
/// A movement key gives the player its velocity and asks for one turn; it
/// fails where the registry does not hold the player, or where the turn cannot
/// be asked for, see `schedule_error`, with the velocity given. Space and enter follow the transition that
/// the player stands on, and win the game where it leads to the win level.
/// Every other key does nothing.
pub open spec fn after_key(m: WorldView, player: i64, key: VirtualKeyCode) -> KeyEffect {
    match steering(key) {
        Some(v) => {
            if !m.entities.contains(player) {
                KeyEffect::Failed(m, StoreError::UnknownEntity)
            } else {
                let steered = m.with_velocity(player, v);
                match schedule_error(steered.player, 1) {
                    Some(e) => KeyEffect::Failed(steered, e),
                    None => KeyEffect::Continue(
                        steered.with_player(after_schedule(steered.player.unwrap(), 1)),
                    ),
                }
            }
        },
        None => if key == VirtualKeyCode::Space || key == VirtualKeyCode::NumpadEnter {
            if followed_level(m) matches Some(level) && level@ == WIN_LEVEL@ {
                KeyEffect::Won(followed(m))
            } else {
                KeyEffect::Continue(followed(m))
            }
        } else {
            KeyEffect::Continue(m)
        },
    }
}

/// What a row of keys does in a game: each key works on the world that the
/// key before it left, up to the first that wins the game or fails.
pub open spec fn after_keys(m: WorldView, player: i64, keys: Seq<VirtualKeyCode>) -> KeyEffect
    decreases keys.len(),
{
    if keys.len() == 0 {
        KeyEffect::Continue(m)
    } else {
        match after_key(m, player, keys[0]) {
            KeyEffect::Continue(next) => after_keys(next, player, keys.skip(1)),
            done => done,
        }
    }
}

/// Handles one key in a game: see `after_key`. Returns whether the game is
/// won.
pub fn press_key(world: &mut World, player: Entity, key: VirtualKeyCode) -> (r: Result<
    bool,
    StoreError,
>)
    requires
        old(world).wf(),
    ensures
        final(world).wf(),
        final(world)@ == after_key(old(world)@, player.id, key).world(),
        match after_key(old(world)@, player.id, key) {
            KeyEffect::Continue(_) => r == Ok::<bool, StoreError>(false),
            KeyEffect::Won(_) => r == Ok::<bool, StoreError>(true),
            KeyEffect::Failed(_, e) => r == Err::<bool, StoreError>(e),
        },
{
    let v = match key {
        VirtualKeyCode::Left => Velocity { dx: -1, dy: 0 },
        VirtualKeyCode::Right => Velocity { dx: 1, dy: 0 },
        VirtualKeyCode::Up => Velocity { dx: 0, dy: -1 },
        VirtualKeyCode::Down => Velocity { dx: 0, dy: 1 },
        VirtualKeyCode::Space | VirtualKeyCode::NumpadEnter => {
            let won = match follow_transition(world) {
                Some(level) => level == WIN_LEVEL.to_owned(),
                None => false,
            };
            return Ok(won);
        },
        _ => {
            return Ok(false);
        },
    };
    match velocity::set(world, player, v.dx, v.dy) {
        Ok(()) => {},
        Err(e) => {
            return Err(e);
        },
    }
    match player::schedule_time(world, 1) {
        Ok(()) => Ok(false),
        Err(e) => Err(e),
    }
}

/// Handles the keys pressed in a game.
///
/// While turns are outstanding, keys are dropped. Otherwise each key is
/// handled in turn, see `after_keys`, up to the first that wins the game, for
/// which the new mode is returned, or that fails. Fails with `NoPlayer` where
/// the world has no player.
pub fn in_game_keydown_handler(
    world: &mut World,
    keycodes: &Vec<VirtualKeyCode>,
    player: Entity,
) -> (r: Result<Option<GameMode>, StoreError>)
    requires
        old(world).wf(),
    ensures
        final(world).wf(),
        match old(world)@.player {
            None => r matches Err(e) && e == StoreError::NoPlayer && final(world)@ == old(world)@,
            Some(p) => if p.outstanding_turns > 0 {
                r matches Ok(None) && final(world)@ == old(world)@
            } else {
                let effect = after_keys(old(world)@, player.id, keycodes@);
                &&& final(world)@ == effect.world()
                &&& match effect {
                    KeyEffect::Continue(_) => r matches Ok(None),
                    KeyEffect::Won(_) => r matches Ok(Some(mode)) && mode is WonGame,
                    KeyEffect::Failed(_, e) => r matches Err(err) && err == e,
                }
            },
        },
{
    match player::outstanding_turns(world) {
        Err(e) => {
            return Err(e);
        },
        Ok(n) => {
            if n > 0 {
                return Ok(None);
            }
        },
    }
    let mut i: usize = 0;
    assert(keycodes@.skip(0) =~= keycodes@);
    while i < keycodes.len()
        invariant
            world.wf(),
            i <= keycodes.len(),
            old(world)@.player matches Some(p) && p.outstanding_turns <= 0,
            after_keys(old(world)@, player.id, keycodes@) == after_keys(
                world@,
                player.id,
                keycodes@.skip(i as int),
            ),
        decreases keycodes.len() - i,
    {
        proof {
            let rest = keycodes@.skip(i as int);
            assert(rest[0] == keycodes@[i as int]);
            assert(rest.skip(1) =~= keycodes@.skip(i + 1));
        }
        match press_key(world, player, keycodes[i]) {
            Ok(true) => {
                return Ok(Some(GameMode::WonGame));
            },
            Ok(false) => {},
            Err(e) => {
                return Err(e);
            },
        }
        i = i + 1;
    }
    Ok(None)
}

/// Handles the keys pressed after the game is won: any key leads back to the
/// main menu.
pub fn won_game_keydown_handler(keycode: &Vec<VirtualKeyCode>, mode: &mut GameMode)
    ensures
        keycode@.len() == 0 ==> *final(mode) == *old(mode),
        keycode@.len() > 0 ==> (*final(mode) matches GameMode::MainMenu(menu) && menu.wf()
            && menu.selected() == 0 && menu.items().len() == 3 && menu.items()[0]@
            == CREATIVE_MODE@ && menu.items()[1]@ == NEW_GAME@ && menu.items()[2]@ == LOAD_GAME@),
{
    if keycode.len() > 0 {
        *mode = GameMode::MainMenu(main_menu());
    }
}

/// One thing to do on the console.
#[derive(Debug)]
pub enum DrawCommand {
    /// Wipe the console.
    Clear,
    /// Write `text` at `pos`, in white.
    Print { pos: ConsolePoint, text: String },
    /// Write the number `number` at `pos`, in white.
    PrintNumber { pos: ConsolePoint, number: i64 },
    /// Write the coordinates of `point` at `pos`, in white.
    PrintPoint { pos: ConsolePoint, point: ConsolePoint },
    /// Write `text` at `pos`, in `fg` on a box of `bg`.
    PrintColor { pos: ConsolePoint, fg: Color, bg: Color, text: String },
    /// Show what was drawn.
    Present,
}

/// The console row below the world on which the clicked point is reported.
pub const STATUS_ROW: i64 = 27;

/// The line that the menu draws for its entry `i`: the text of the entry, in
/// the colours of the selection if it is the selected entry.
pub open spec fn menu_line(menu: Menu, i: int) -> DrawCommand {
    DrawCommand::PrintColor {
        pos: ConsolePoint { x: menu.top_left().x, y: (menu.top_left().y + i) as i64 },
        fg: if i == menu.selected() {
            Color { r: 0, g: 0, b: 0 }
        } else {
            Color { r: 255, g: 255, b: 255 }
        },
        bg: if i == menu.selected() {
            Color { r: 255, g: 255, b: 255 }
        } else {
            Color { r: 0, g: 0, b: 0 }
        },
        text: menu.items()[i],
    }
}

/// What is drawn of an actor: its glyph in its colour on the console position
/// of its tile, or nothing where the tile has no console position.
pub open spec fn actor_command(a: Actor) -> Option<DrawCommand> {
    if a.pos.x + WORLD_LEFT <= i64::MAX && a.pos.y + WORLD_TOP <= i64::MAX {
        Some(
            DrawCommand::PrintColor {
                pos: ConsolePoint {
                    x: (a.pos.x + WORLD_LEFT) as i64,
                    y: (a.pos.y + WORLD_TOP) as i64,
                },
                fg: a.color,
                bg: Color { r: 0, g: 0, b: 0 },
                text: a.tile,
            },
        )
    } else {
        None
    }
}

/// What is drawn of a list of actors: what is drawn of each, in order.
pub open spec fn actor_commands(actors: Seq<Actor>) -> Seq<DrawCommand>
    decreases actors.len(),
{
    if actors.len() == 0 {
        Seq::empty()
    } else {
        match actor_command(actors.last()) {
            Some(c) => actor_commands(actors.drop_last()).push(c),
            None => actor_commands(actors.drop_last()),
        }
    }
}

/// Whether `shown` is the list of the actors of `m` that show: each of them
/// once and no other, ordered by layer, lowest first.
pub open spec fn shows_all(m: WorldView, shown: Seq<Actor>) -> bool {
    &&& forall|a: int|
        0 <= a < shown.len() ==> visible(m, (#[trigger] shown[a]).entity.id) && shown[a]
            == m.actors[shown[a].entity.id]
    &&& forall|e: i64| #[trigger]
        visible(m, e) ==> exists|a: int| 0 <= a < shown.len() && (#[trigger] shown[a]).entity.id == e
    &&& forall|a: int, b: int|
        0 <= a < b < shown.len() ==> (#[trigger] shown[a]).plane.layer() <= (
        #[trigger] shown[b]).plane.layer()
    &&& forall|a: int, b: int|
        0 <= a < b < shown.len() ==> (#[trigger] shown[a]).pos != (#[trigger] shown[b]).pos
}

/// What is drawn of a game below the actors: the count of turns in the top
/// left corner, and on the status row the point that was clicked, or a hint
/// where none was.
pub open spec fn status_commands(
    turn: i64,
    selected_point: Option<ConsolePoint>,
    hint: String,
) -> Seq<DrawCommand> {
    seq![
        DrawCommand::PrintNumber { pos: ConsolePoint { x: 0, y: 0 }, number: turn },
        match selected_point {
            Some(point) => DrawCommand::PrintPoint {
                pos: ConsolePoint { x: 0, y: STATUS_ROW },
                point,
            },
            None => DrawCommand::Print { pos: ConsolePoint { x: 0, y: STATUS_ROW }, text: hint },
        },
    ]
}

/// Keeps track of whether the console shows the current state.
#[derive(Debug, Default)]
pub struct Renderer {
    dirty: bool,
}

impl Renderer {
    /// Whether something changed since the last drawing.
    pub closed spec fn dirty(&self) -> bool {
        self.dirty
    }

    /// A renderer that has not drawn yet.
    pub fn new() -> (r: Self)
        ensures
            r.dirty(),
    {
        Renderer { dirty: true }
    }

    /// Notes that something changed.
    pub fn mark_dirty(&mut self)
        ensures
            final(self).dirty(),
    {
        self.dirty = true;
    }

    /// Whether something changed since the last drawing.
    pub fn is_dirty(&self) -> (b: bool)
        ensures
            b == self.dirty(),
    {
        self.dirty
    }

    /// The lines of a menu: see `Menu::draw`.
    pub fn draw_menu(menu: &Menu) -> (commands: Vec<DrawCommand>)
        requires
            menu.wf(),
        ensures
            commands@ == Seq::new(menu.items().len(), |i: int| menu_line(*menu, i)),
    {
        menu.draw()
    }

    /// What is drawn of the actors: see `actor_commands`.
    pub fn draw_actors(actors: &Vec<Actor>) -> (commands: Vec<DrawCommand>)
        ensures
            commands@ == actor_commands(actors@),
    {
        let mut commands: Vec<DrawCommand> = Vec::new();
        let mut i: usize = 0;
        assert(actors@.take(0) =~= Seq::<Actor>::empty());
        while i < actors.len()
            invariant
                i <= actors.len(),
                commands@ == actor_commands(actors@.take(i as int)),
            decreases actors.len() - i,
        {
            proof {
                let next = actors@.take(i + 1);
                assert(next.last() == actors@[i as int]);
                assert(next.drop_last() =~= actors@.take(i as int));
            }
            let actor = &actors[i];
            match ConsolePoint::try_from(actor.pos) {
                Some(pos) => {
                    commands.push(
                        DrawCommand::PrintColor {
                            pos,
                            fg: actor.color,
                            bg: background_color(),
                            text: actor.tile.clone(),
                        },
                    );
                },
                None => {},
            }
            i = i + 1;
        }
        assert(actors@.take(actors.len() as int) =~= actors@);
        commands
    }

    /// Draws the mode, if something changed since the last drawing: the list
    /// of what is to be done on the console, from wiping it to showing it.
    ///
    /// Nothing is drawn where nothing changed. A menu is drawn by its lines. A
    /// game is drawn by the actors that show, the count of turns and the
    /// status row; this fails with `NoPlayer`, and the drawing stays due,
    /// where the world has no player. A won game is drawn by its message.
    pub fn draw(&mut self, gamemode: &GameMode) -> (r: Result<Vec<DrawCommand>, StoreError>)
        requires
            gamemode matches GameMode::MainMenu(menu) ==> menu.wf(),
            gamemode matches GameMode::InGame { world, .. } ==> world.wf(),
        ensures
            !old(self).dirty() ==> !final(self).dirty() && r.is_ok() && r.unwrap()@
                == Seq::<DrawCommand>::empty(),
            old(self).dirty() ==> match *gamemode {
                GameMode::MainMenu(menu) => !final(self).dirty() && r.is_ok() && r.unwrap()@
                    == seq![DrawCommand::Clear] + Seq::new(
                    menu.items().len(),
                    |i: int| menu_line(menu, i),
                ) + seq![DrawCommand::Present],
                GameMode::InGame { world, selected_point, .. } => match world@.player {
                    Some(p) => !final(self).dirty() && r.is_ok() && exists|
                        shown: Seq<Actor>,
                        hint: String,
                    |
                        #![trigger shows_all(world@, shown), status_commands(p.turn, selected_point, hint)]
                        shows_all(world@, shown) && hint@ == "Click something!"@ && r.unwrap()@
                            == seq![DrawCommand::Clear] + actor_commands(shown) + status_commands(
                            p.turn,
                            selected_point,
                            hint,
                        ) + seq![DrawCommand::Present],
                    None => final(self).dirty() && r.is_err() && r.unwrap_err()
                        == StoreError::NoPlayer,
                },
                GameMode::WonGame => {
                    &&& !final(self).dirty()
                    &&& r.is_ok()
                    &&& r.unwrap()@.len() == 4
                    &&& r.unwrap()@[0] is Clear
                    &&& r.unwrap()@[1] is Clear
                    &&& (r.unwrap()@[2] matches DrawCommand::Print { pos, text } && pos == (
                    ConsolePoint { x: 1, y: 1 }) && text@ == "You Win"@)
                    &&& r.unwrap()@[3] is Present
                },
            },
    {
        let mut commands: Vec<DrawCommand> = Vec::new();
        if !self.dirty {
            return Ok(commands);
        }
        commands.push(DrawCommand::Clear);
        match gamemode {
            GameMode::MainMenu(menu) => {
                let mut lines = Self::draw_menu(menu);
                commands.append(&mut lines);
            },
            GameMode::InGame { world, selected_point, .. } => {
                let visible_actors = get_visible(world);
                let mut drawn = Self::draw_actors(&visible_actors);
                commands.append(&mut drawn);
                let turn = match player::turns_passed(world) {
                    Ok(turn) => turn,
                    Err(e) => {
                        return Err(e);
                    },
                };
                commands.push(
                    DrawCommand::PrintNumber { pos: ConsolePoint { x: 0, y: 0 }, number: turn },
                );
                let hint = "Click something!".to_owned();
                match selected_point {
                    Some(point) => {
                        commands.push(
                            DrawCommand::PrintPoint {
                                pos: ConsolePoint { x: 0, y: STATUS_ROW },
                                point: *point,
                            },
                        );
                    },
                    None => {
                        commands.push(
                            DrawCommand::Print {
                                pos: ConsolePoint { x: 0, y: STATUS_ROW },
                                text: hint.clone(),
                            },
                        );
                    },
                }
                proof {
                    assert(shows_all(world@, visible_actors@));
                    assert(commands@ =~= seq![DrawCommand::Clear] + actor_commands(
                        visible_actors@,
                    ) + status_commands(turn, *selected_point, hint));
                }
            },
            GameMode::WonGame => {
                commands.push(DrawCommand::Clear);
                commands.push(
                    DrawCommand::Print {
                        pos: ConsolePoint { x: 1, y: 1 },
                        text: "You Win".to_owned(),
                    },
                );
            },
        }
        commands.push(DrawCommand::Present);
        self.dirty = false;
        Ok(commands)
    }
}

} // verus!
