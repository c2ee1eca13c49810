//! The game: what a click, the wheel and a key do to the field, the camera
//! and the state of play.

use vstd::prelude::*;
use crate::camera::{Camera, CELL_SIZE, MAX_ZOOM, MIN_ZOOM};
use crate::chunk::{CellContents, ChunkView};
use crate::field::{
    cell_at, counts_right, distinct_places, flood_in_range, grid_wf, is_updated,
    lemma_flag_same_field, lemma_mines_shown_same_field, lemma_reveal_same_field,
    lemma_same_field_counts, lemma_same_field_distinct, lemma_updated_counts,
    lemma_updated_distinct, reveal_spec, with_flag_turned, with_mines_shown, FLOOD_DEPTH,
};
use crate::grid::Grid;
use crate::vector::Vec2i;

verus! {

/// Whether the game goes on.
#[derive(Clone, Copy, Debug, PartialEq, Eq, Structural)]
pub enum State {
    Playing,
    Lost,
}

/// A button of the mouse.
#[derive(Clone, Copy, Debug, PartialEq, Eq, Structural)]
pub enum MouseButton {
    Left,
    Right,
    Other,
}

/// A key of the keyboard, by its place on it.
#[derive(Clone, Copy, Debug, PartialEq, Eq, Structural)]
pub enum Scancode {
    R,
    M,
    Other,
}

/// What the window reports.
#[derive(Clone, Copy, Debug, PartialEq, Eq, Structural)]
pub enum Event {
    /// A button went down over the pixel `(x, y)`.
    MouseButtonDown { mouse_btn: MouseButton, x: i32, y: i32 },
    /// The wheel was turned by `y` notches.
    MouseWheel { y: i32 },
    /// A key went down.
    KeyDown { scancode: Option<Scancode> },
    /// Anything else.
    Other,
}

/// The game as contracts see it.
pub ghost struct GameView {
    pub grid: Seq<ChunkView>,
    pub state: State,
    pub camera: Camera,
}

/// The zoom after the wheel was turned by `y` notches: one pixel a notch,
/// kept between `MIN_ZOOM` and `MAX_ZOOM`.
pub open spec fn zoomed(zoom: int, y: int) -> int {
    if zoom + y < MIN_ZOOM {
        MIN_ZOOM as int
    } else if zoom + y > MAX_ZOOM {
        MAX_ZOOM as int
    } else {
        zoom + y
    }
}

/// Whether the cell at `pos` can be chosen: it is there, and where the
/// flood would start from it, the flood stays in the range of the coordinates.
pub open spec fn can_reveal(grid: Seq<ChunkView>, pos: Vec2i) -> bool {
    &&& cell_at(grid, pos) is Some
    &&& cell_at(grid, pos)->0.contents == CellContents::Empty(0) ==> flood_in_range(
        pos,
        FLOOD_DEPTH as int,
    )
}

/// The game after the left button went down over the pixel `(x, y)`: the
/// cell under it is chosen, and where it held a mine the game is lost and
/// every mine is shown.
pub open spec fn after_left_click(g: GameView, x: i32, y: i32) -> GameView {
    let pos = g.camera.world_of(Vec2i { x, y });
    let (grid, mine) = reveal_spec(g.grid, pos);
    if mine {
        GameView { grid: with_mines_shown(grid), state: State::Lost, ..g }
    } else {
        GameView { grid, ..g }
    }
}

/// The game after the right button went down over the pixel `(x, y)`: the
/// flag of the cell under it is turned.
pub open spec fn after_right_click(g: GameView, x: i32, y: i32) -> GameView {
    GameView { grid: with_flag_turned(g.grid, g.camera.world_of(Vec2i { x, y })), ..g }
}

/// Whether the event can be taken in: a left click while the game goes on
/// must choose a cell that can be chosen.
pub open spec fn event_allowed(g: GameView, event: Event) -> bool {
    match event {
        Event::MouseButtonDown { mouse_btn: MouseButton::Left, x, y } => g.state is Playing
            ==> can_reveal(g.grid, g.camera.world_of(Vec2i { x, y })),
        _ => true,
    }
}

/// The game after an event.
///
/// While the game goes on, a left click chooses a cell, a right click turns
/// a flag, and the wheel zooms. At any time the key R starts a new game on
/// an empty field, and the key M shows every mine.
pub open spec fn after_event(g: GameView, event: Event) -> GameView {
    match event {
        Event::MouseButtonDown { mouse_btn, x, y } => if g.state is Playing {
            match mouse_btn {
                MouseButton::Left => after_left_click(g, x, y),
                MouseButton::Right => after_right_click(g, x, y),
                MouseButton::Other => g,
            }
        } else {
            g
        },
        Event::MouseWheel { y } => if g.state is Playing {
            GameView {
                camera: Camera { zoom: zoomed(g.camera.zoom as int, y as int) as i32, ..g.camera },
                ..g
            }
        } else {
            g
        },
        Event::KeyDown { scancode } => match scancode {
            Some(Scancode::R) => GameView { grid: Seq::empty(), state: State::Playing, ..g },
            Some(Scancode::M) => GameView { grid: with_mines_shown(g.grid), ..g },
            _ => g,
        },
        Event::Other => g,
    }
}

/// The game.
pub struct GameState {
    grid: Grid,
    state: State,
    camera: Camera,
}

impl View for GameState {
    type V = GameView;

    closed spec fn view(&self) -> GameView {
        GameView { grid: self.grid@, state: self.state, camera: self.camera }
    }
}

impl Default for GameState {
    /// A game that goes on, on an empty field, seen from the origin at the
    /// plain size of a cell.
    fn default() -> (r: GameState)
        ensures
            r@ == (GameView {
                grid: Seq::empty(),
                state: State::Playing,
                camera: Camera { position: Vec2i { x: 0, y: 0 }, zoom: CELL_SIZE },
            }),
            r.wf(),
    {
        GameState {
            grid: Grid::new(),
            state: State::Playing,
            camera: Camera { position: Vec2i::new(0, 0), zoom: CELL_SIZE },
        }
    }
}

impl GameState {
    /// The field and the camera are well formed, no two chunks of the field
    /// lie at one place, and every cell of the field without a mine counts
    /// the mines around it.
    pub open spec fn wf(&self) -> bool {
        &&& grid_wf(self@.grid)
        &&& distinct_places(self@.grid)
        &&& counts_right(self@.grid)
        &&& self@.camera.wf()
    }

    /// A new game, as `default` gives it.
    pub fn new() -> (r: GameState)
        ensures
            r@ == (GameView {
                grid: Seq::empty(),
                state: State::Playing,
                camera: Camera { position: Vec2i { x: 0, y: 0 }, zoom: CELL_SIZE },
            }),
            r.wf(),
    {
        GameState { grid: Grid::new(), ..Default::default() }
    }

    /// The field.
    pub fn grid(&self) -> (r: &Grid)
        ensures
            r@ == self@.grid,
    {
        &self.grid
    }

    /// The camera.
    pub fn camera(&self) -> (r: &Camera)
        ensures
            *r == self@.camera,
    {
        &self.camera
    }

    /// Whether the game goes on.
    pub fn state(&self) -> (r: State)
        ensures
            r == self@.state,
    {
        self.state
    }

    /// Takes in an event.
    pub fn event(&mut self, event: Event)
        requires
            old(self).wf(),
            event_allowed(old(self)@, event),
        ensures
            final(self)@ == after_event(old(self)@, event),
            final(self).wf(),
    {
        match event {
            Event::MouseButtonDown { mouse_btn, x, y } => {
                if let State::Playing = self.state {
                    match mouse_btn {
                        MouseButton::Left => self.on_left_click(x, y),
                        MouseButton::Right => self.on_right_click(x, y),
                        _ => {},
                    }
                }
            },
            Event::MouseWheel { y } => {
                if let State::Playing = self.state {
                    let mut zoom: i64 = self.camera.zoom as i64 + y as i64;
                    if zoom < MIN_ZOOM as i64 {
                        zoom = MIN_ZOOM as i64;
                    }
                    if zoom > MAX_ZOOM as i64 {
                        zoom = MAX_ZOOM as i64;
                    }
                    self.camera.zoom = zoom as i32;
                }
            },
            Event::KeyDown { scancode } => {
                if let Some(scancode) = scancode {
                    match scancode {
                        Scancode::R => {
                            self.grid = Grid::new();
                            self.state = State::Playing;
                        },
                        Scancode::M => {
                            proof {
                                lemma_mines_shown_same_field(self.grid@);
                                lemma_same_field_counts(self.grid@, with_mines_shown(self.grid@));
                                lemma_same_field_distinct(self.grid@, with_mines_shown(self.grid@));
                            }
                            self.grid.show_all_mines();
                        },
                        _ => {},
                    }
                }
            },
            _ => {},
        }
    }

    /// Moves the camera against the mouse while the middle button is held,
    /// and brings the field up to what the camera then keeps.
    pub fn update(&mut self, middle_pressed: bool, rel_x: i32, rel_y: i32)
        requires
            old(self).wf(),
            middle_pressed ==> i32::MIN <= old(self)@.camera.position.x - rel_x <= i32::MAX,
            middle_pressed ==> i32::MIN <= old(self)@.camera.position.y - rel_y <= i32::MAX,
        ensures
            final(self)@.state == old(self)@.state,
            !middle_pressed ==> final(self)@ == old(self)@,
            middle_pressed ==> final(self)@.camera == (Camera {
                position: Vec2i {
                    x: (old(self)@.camera.position.x - rel_x) as i32,
                    y: (old(self)@.camera.position.y - rel_y) as i32,
                },
                ..old(self)@.camera
            }),
            middle_pressed ==> is_updated(
                old(self)@.grid,
                final(self)@.grid,
                final(self)@.camera.min_extent(),
                final(self)@.camera.max_extent(),
            ),
            final(self).wf(),
    {
        if middle_pressed {
            self.camera.position = Vec2i {
                x: self.camera.position.x - rel_x,
                y: self.camera.position.y - rel_y,
            };
            self.grid.update_chunks(&self.camera);
            proof {
                self.camera.lemma_extent_in_range();
                lemma_updated_counts(
                    old(self).grid@,
                    self.grid@,
                    self.camera.min_extent(),
                    self.camera.max_extent(),
                );
                lemma_updated_distinct(
                    old(self).grid@,
                    self.grid@,
                    self.camera.min_extent(),
                    self.camera.max_extent(),
                );
            }
        }
    }

    /// Chooses the cell under the pixel `(x, y)`.
    pub fn on_left_click(&mut self, x: i32, y: i32)
        requires
            old(self).wf(),
            can_reveal(old(self)@.grid, old(self)@.camera.world_of(Vec2i { x, y })),
        ensures
            final(self)@ == after_left_click(old(self)@, x, y),
            final(self).wf(),
    {
        let pos = self.camera.screen_to_world(Vec2i::new(x, y));
        proof {
            lemma_reveal_same_field(self.grid@, pos);
            lemma_same_field_counts(self.grid@, reveal_spec(self.grid@, pos).0);
            lemma_same_field_distinct(self.grid@, reveal_spec(self.grid@, pos).0);
        }
        if self.grid.reveal_at(pos) {
            self.loose();
        }
    }

    /// Turns the flag of the cell under the pixel `(x, y)`.
    pub fn on_right_click(&mut self, x: i32, y: i32)
        requires
            old(self).wf(),
        ensures
            final(self)@ == after_right_click(old(self)@, x, y),
            final(self).wf(),
    {
        let pos = self.camera.screen_to_world(Vec2i::new(x, y));
        proof {
            lemma_flag_same_field(self.grid@, pos);
            lemma_same_field_counts(self.grid@, with_flag_turned(self.grid@, pos));
            lemma_same_field_distinct(self.grid@, with_flag_turned(self.grid@, pos));
        }
        self.grid.flag(pos);
    }

    /// Ends the game and shows every mine.
    pub fn loose(&mut self)
        requires
            old(self).wf(),
        ensures
            final(self)@ == (GameView {
                grid: with_mines_shown(old(self)@.grid),
                state: State::Lost,
                ..old(self)@
            }),
            final(self).wf(),
    {
        self.state = State::Lost;
        proof {
            lemma_mines_shown_same_field(self.grid@);
            lemma_same_field_counts(self.grid@, with_mines_shown(self.grid@));
            lemma_same_field_distinct(self.grid@, with_mines_shown(self.grid@));
        }
        self.grid.show_all_mines();
    }
}

} // verus!
