use minesweeper::camera::Camera;
use minesweeper::chunk::CellContents;
use minesweeper::game::{Event, GameState, MouseButton, Scancode, State};
use minesweeper::vector::Vec2i;

/// A game whose field holds the chunks about the origin.
fn started() -> GameState {
    let mut game = GameState::new();
    game.update(true, 0, 0);
    game
}

/// The first cell from (16, 16) on, row by row, that `wanted` holds of.
fn find_cell(game: &GameState, wanted: fn(CellContents) -> bool) -> Vec2i {
    for y in 16..64 {
        for x in 16..80 {
            if let Some(c) = game.grid().get_cell(Vec2i::new(x, y)) {
                if wanted(c.contents) {
                    return Vec2i::new(x, y);
                }
            }
        }
    }
    panic!("no such cell")
}

fn is_mine(c: CellContents) -> bool {
    c == CellContents::Mine
}

fn is_number(c: CellContents) -> bool {
    match c {
        CellContents::Empty(n) => n != 0,
        CellContents::Mine => false,
    }
}

fn click(button: MouseButton, cell: Vec2i) -> Event {
    // At zoom 16 the cell (x, y) lies under the pixels from (16 x, 16 y) on.
    Event::MouseButtonDown { mouse_btn: button, x: cell.x * 16 + 3, y: cell.y * 16 + 9 }
}

fn revealed_count(game: &GameState) -> usize {
    let mut n = 0;
    for x in -16..96 {
        for y in -16..80 {
            if let Some(c) = game.grid().get_cell(Vec2i::new(x, y)) {
                if c.revealed {
                    n += 1;
                }
            }
        }
    }
    n
}

#[test]
fn new_game() {
    let game = GameState::new();
    assert_eq!(game.state(), State::Playing);
    assert_eq!(*game.camera(), Camera { position: Vec2i::new(0, 0), zoom: 16 });
    assert!(game.grid().find_chunk(Vec2i::new(0, 0)).is_none());
    let game = GameState::default();
    assert_eq!(game.state(), State::Playing);
    assert_eq!(*game.camera(), Camera { position: Vec2i::new(0, 0), zoom: 16 });
    assert!(game.grid().find_chunk(Vec2i::new(0, 0)).is_none());
}

#[test]
fn update_without_the_middle_button_does_nothing() {
    let mut game = GameState::new();
    game.update(false, 5, 5);
    assert_eq!(*game.camera(), Camera { position: Vec2i::new(0, 0), zoom: 16 });
    assert!(game.grid().find_chunk(Vec2i::new(0, 0)).is_none());
}

#[test]
fn update_moves_the_camera_against_the_mouse() {
    let mut game = GameState::new();
    game.update(true, 10, -20);
    assert_eq!(*game.camera(), Camera { position: Vec2i::new(-10, 20), zoom: 16 });
    assert!(game.grid().find_chunk(Vec2i::new(-1, -1)).is_some());
    assert!(game.grid().find_chunk(Vec2i::new(5, 4)).is_some());
    assert!(game.grid().find_chunk(Vec2i::new(6, 4)).is_none());
    game.update(true, -1034, 0);
    // At x = 1024 the least column is 1024 / 256 - 1 = 3.
    assert_eq!(*game.camera(), Camera { position: Vec2i::new(1024, 20), zoom: 16 });
    assert!(game.grid().find_chunk(Vec2i::new(2, 0)).is_none());
    assert!(game.grid().find_chunk(Vec2i::new(3, 0)).is_some());
    assert!(game.grid().find_chunk(Vec2i::new(9, 0)).is_some());
    assert!(game.grid().find_chunk(Vec2i::new(10, 0)).is_none());
}

#[test]
fn wheel_zooms_within_bounds() {
    let mut game = GameState::new();
    game.event(Event::MouseWheel { y: 3 });
    assert_eq!(game.camera().zoom, 19);
    game.event(Event::MouseWheel { y: -5 });
    assert_eq!(game.camera().zoom, 14);
    game.event(Event::MouseWheel { y: 100 });
    assert_eq!(game.camera().zoom, 32);
    game.event(Event::MouseWheel { y: -29 });
    assert_eq!(game.camera().zoom, 4);
    game.event(Event::MouseWheel { y: -1 });
    assert_eq!(game.camera().zoom, 4);
    game.event(Event::MouseWheel { y: i32::MAX });
    assert_eq!(game.camera().zoom, 32);
    game.event(Event::MouseWheel { y: i32::MIN });
    assert_eq!(game.camera().zoom, 4);
    assert_eq!(game.camera().position, Vec2i::new(0, 0));
}

#[test]
fn right_click_turns_a_flag() {
    let mut game = started();
    game.event(click(MouseButton::Right, Vec2i::new(20, 30)));
    let c = game.grid().get_cell(Vec2i::new(20, 30)).copied();
    assert!(matches!(c, Some(c) if c.flag && !c.revealed));
    game.event(click(MouseButton::Right, Vec2i::new(20, 30)));
    let c = game.grid().get_cell(Vec2i::new(20, 30)).copied();
    assert!(matches!(c, Some(c) if !c.flag && !c.revealed));
    assert_eq!(game.state(), State::Playing);
}

#[test]
fn left_click_on_a_number_reveals_it() {
    let mut game = started();
    let pos = find_cell(&game, is_number);
    game.event(click(MouseButton::Left, pos));
    assert_eq!(game.state(), State::Playing);
    assert_eq!(revealed_count(&game), 1);
    assert!(matches!(game.grid().get_cell(pos), Some(c) if c.revealed));
}

#[test]
fn left_click_on_a_mine_loses_the_game() {
    let mut game = started();
    let pos = find_cell(&game, is_mine);
    game.event(click(MouseButton::Left, pos));
    assert_eq!(game.state(), State::Lost);
    // Every mine is shown, and nothing else.
    for x in -16..96 {
        for y in -16..80 {
            if let Some(c) = game.grid().get_cell(Vec2i::new(x, y)) {
                assert_eq!(c.revealed, c.contents == CellContents::Mine);
            }
        }
    }
    // Clicks and the wheel do nothing any more.
    let shown = revealed_count(&game);
    let number = find_cell(&game, is_number);
    game.event(click(MouseButton::Left, number));
    game.event(click(MouseButton::Right, number));
    game.event(Event::MouseWheel { y: 5 });
    assert_eq!(revealed_count(&game), shown);
    assert!(matches!(game.grid().get_cell(number), Some(c) if !c.flag && !c.revealed));
    assert_eq!(game.camera().zoom, 16);
    assert_eq!(game.state(), State::Lost);
}

#[test]
fn other_buttons_and_events_do_nothing() {
    let mut game = started();
    game.event(click(MouseButton::Other, Vec2i::new(20, 30)));
    game.event(Event::Other);
    game.event(Event::KeyDown { scancode: None });
    game.event(Event::KeyDown { scancode: Some(Scancode::Other) });
    assert_eq!(revealed_count(&game), 0);
    assert_eq!(game.state(), State::Playing);
    assert_eq!(*game.camera(), Camera { position: Vec2i::new(0, 0), zoom: 16 });
    assert!(matches!(game.grid().get_cell(Vec2i::new(20, 30)), Some(c) if !c.flag));
}

#[test]
fn key_m_shows_the_mines() {
    let mut game = started();
    game.event(Event::KeyDown { scancode: Some(Scancode::M) });
    assert_eq!(game.state(), State::Playing);
    for x in -16..96 {
        for y in -16..80 {
            if let Some(c) = game.grid().get_cell(Vec2i::new(x, y)) {
                assert_eq!(c.revealed, c.contents == CellContents::Mine);
            }
        }
    }
}

#[test]
fn key_r_starts_anew() {
    let mut game = started();
    game.event(Event::MouseWheel { y: 4 });
    let pos = find_cell(&game, is_mine);
    game.event(Event::MouseButtonDown {
        mouse_btn: MouseButton::Left,
        x: pos.x * 20,
        y: pos.y * 20,
    });
    assert_eq!(game.state(), State::Lost);
    game.event(Event::KeyDown { scancode: Some(Scancode::R) });
    assert_eq!(game.state(), State::Playing);
    assert!(game.grid().find_chunk(Vec2i::new(0, 0)).is_none());
    // The camera stays as it was.
    assert_eq!(*game.camera(), Camera { position: Vec2i::new(0, 0), zoom: 20 });
}

#[test]
fn loose_ends_the_game() {
    let mut game = started();
    game.loose();
    assert_eq!(game.state(), State::Lost);
    assert!(revealed_count(&game) >= 750);
}

#[test]
fn clicks_by_name() {
    let mut game = started();
    let pos = find_cell(&game, is_number);
    game.on_right_click(pos.x * 16, pos.y * 16 + 15);
    assert!(matches!(game.grid().get_cell(pos), Some(c) if c.flag));
    game.on_left_click(pos.x * 16 + 15, pos.y * 16);
    assert!(matches!(game.grid().get_cell(pos), Some(c) if c.flag && c.revealed));
    assert_eq!(game.state(), State::Playing);
}
