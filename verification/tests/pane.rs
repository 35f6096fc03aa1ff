//! The pane: what it shows, takes, plays and stores.

use rimeterm::clock::{Moment, TICK};
use rimeterm::engine::{Banner, BannerColor, Game, GhostId, GhostState, Input};
use rimeterm::maze::Pellet;
use rimeterm::pane::{GamePane, Key, KeyPress, Poll};
use rimeterm::screen::{
    banner_color, banner_text, cell_visual, ghost_color, hud_lines, Area, Board, Color, Screen,
    Tone,
};
use rimeterm::storage::{load_best, save_best};
use rimeterm::text::{digits, repeated, spaced_out};

const NOW: Moment = Moment { nanos: 1_000 };

fn plain(key: Key) -> KeyPress {
    KeyPress {
        key,
        control: false,
        alt: false,
    }
}

fn area(width: u16, height: u16) -> Area {
    Area {
        x: 0,
        y: 0,
        width,
        height,
    }
}

fn rendered_content(pane: &GamePane, width: u16, height: u16) -> String {
    let mut content = String::new();
    match pane.render(area(width, height)) {
        Screen::Nothing => {}
        Screen::Hint(hint, _) => content.push_str(&hint),
        Screen::Board(board) => {
            for glyph in board.maze.iter().flatten() {
                content.push(glyph.ch);
            }
            for line in &board.hud {
                content.push_str(&line.text);
            }
            content.push_str(&board.banner);
        }
    }
    content
}

fn board_of(pane: &GamePane, place: Area) -> Board {
    match pane.render(place) {
        Screen::Board(board) => board,
        _ => panic!("the board fits"),
    }
}

fn run_poll(pane: &mut GamePane, clock: &[u128]) -> (bool, Option<String>) {
    let mut stage = pane.poll_background();
    let mut readings = clock.iter();
    loop {
        stage = match stage {
            Poll::Done(played, text) => return (played, text),
            other => {
                let nanos = *readings.next().expect("a reading is left");
                pane.poll(other, Moment { nanos })
            }
        };
    }
}

#[test]
fn renders_maze_player_and_hud() {
    let pane = GamePane::new(None, NOW);
    let content = rendered_content(&pane, 60, 30);
    assert!(content.contains('@'), "player glyph visible");
    assert!(content.contains('·'), "pellet glyphs visible");
    assert!(content.contains("High Score"), "HUD visible");
}

#[test]
fn small_area_shows_size_hint() {
    let pane = GamePane::new(None, NOW);
    let content = rendered_content(&pane, 20, 10);
    assert!(content.contains("needs"), "size hint shown");
    assert_eq!(content, "Pac-Man needs 40×22 cells · now 18×8");
}

#[test]
fn loads_and_saves_best_score() {
    let mut pane = GamePane::new(Some("123"), NOW);
    assert_eq!(pane.game.best_score(), 123);
    pane.game.add_score(500);
    let saved = pane.save_best().expect("best score written");
    assert_eq!(saved, "500");
    assert_eq!(pane.saved_best, 500);
}

#[test]
fn key_presses_queue_engine_input() {
    let mut pane = GamePane::new(None, NOW);
    assert!(pane.on_key(plain(Key::Up)));
    assert_eq!(pane.pending, Some(Input::Up));
    assert!(!pane.on_key(plain(Key::Char('z'))));
}

#[test]
fn hidden_pane_does_not_tick() {
    let mut pane = GamePane::new(None, NOW);
    pane.set_visible(false, NOW);
    let (played, text) = run_poll(&mut pane, &[NOW.nanos + 20_000_000]);
    assert!(!played);
    assert_eq!(text, None);
    assert_eq!(pane.game.frame, 0);
}

#[test]
fn every_key_has_its_input() {
    let keys = [
        (Key::Up, Some(Input::Up)),
        (Key::Down, Some(Input::Down)),
        (Key::Left, Some(Input::Left)),
        (Key::Right, Some(Input::Right)),
        (Key::Char('r'), Some(Input::Restart)),
        (Key::Char('R'), Some(Input::Restart)),
        (Key::Char('y'), Some(Input::Yes)),
        (Key::Char('Y'), Some(Input::Yes)),
        (Key::Char('n'), Some(Input::No)),
        (Key::Char('N'), Some(Input::No)),
        (Key::Char('q'), None),
        (Key::Other, None),
    ];
    for (key, input) in keys {
        let mut pane = GamePane::new(None, NOW);
        assert_eq!(pane.on_key(plain(key)), input.is_some());
        assert_eq!(pane.pending, input);
        for (control, alt) in [(true, false), (false, true), (true, true)] {
            let mut pane = GamePane::new(None, NOW);
            assert!(!pane.on_key(KeyPress { key, control, alt }));
            assert_eq!(pane.pending, None);
        }
    }
}

#[test]
fn the_last_key_counts() {
    let mut pane = GamePane::new(None, NOW);
    pane.on_key(plain(Key::Left));
    pane.on_key(plain(Key::Down));
    pane.on_key(plain(Key::Other));
    assert_eq!(pane.pending, Some(Input::Down));
    let due = NOW.nanos + TICK;
    run_poll(&mut pane, &[due, due, due, due]);
    assert_eq!(pane.pending, None);
    assert_eq!(pane.game.frame, 1);
}

#[test]
fn early_polls_do_nothing() {
    let mut pane = GamePane::new(None, NOW);
    assert_eq!(run_poll(&mut pane, &[NOW.nanos + TICK - 1]), (false, None));
    assert_eq!(pane.game.frame, 0);
    assert_eq!(pane.next_tick.nanos, NOW.nanos + TICK);
}

#[test]
fn due_frames_are_played() {
    let mut pane = GamePane::new(None, NOW);
    let now = NOW.nanos + 3 * TICK;
    assert_eq!(run_poll(&mut pane, &[now; 6]), (true, None));
    assert_eq!(pane.game.frame, 3);
    assert_eq!(pane.next_tick.nanos, NOW.nanos + 4 * TICK);
}

#[test]
fn a_pane_far_behind_lets_frames_go() {
    let mut pane = GamePane::new(None, NOW);
    let now = NOW.nanos + 100 * TICK;
    assert_eq!(run_poll(&mut pane, &[now; 12]), (true, None));
    assert_eq!(pane.game.frame, 8);
    assert_eq!(pane.next_tick.nanos, now + TICK);
}

#[test]
fn a_new_best_score_is_stored_once() {
    let mut pane = GamePane::new(Some("40"), NOW);
    pane.game.add_score(70);
    let now = NOW.nanos + TICK;
    let (played, text) = run_poll(&mut pane, &[now; 4]);
    assert!(played);
    assert_eq!(text, Some("70".to_string()));
    assert_eq!(pane.saved_best, 70);
    let now = NOW.nanos + 2 * TICK;
    assert_eq!(run_poll(&mut pane, &[now; 4]), (true, None));
    // The next pane opens with it.
    let next = GamePane::new(Some("70"), NOW);
    assert_eq!(next.game.best_score(), 70);
}

#[test]
fn coming_into_view_starts_the_clock_anew() {
    let mut pane = GamePane::new(None, NOW);
    pane.set_visible(false, Moment { nanos: 7 });
    assert_eq!(pane.next_tick.nanos, NOW.nanos + TICK);
    pane.set_visible(true, Moment { nanos: 5_000 });
    assert_eq!(pane.next_tick.nanos, 5_000 + TICK);
    assert!(pane.visible);
    assert_eq!(pane.title(), "Pac-Man");
}

#[test]
fn stored_texts_stand_for_numbers() {
    assert_eq!(load_best(None), 0);
    for (text, best) in [
        ("0", 0),
        ("7", 7),
        (" \n\t\r42 \n", 42),
        ("4294967295", u32::MAX),
        ("4294967296", 0),
        ("99999999999999999999999", 0),
        ("012", 0),
        ("-0", 0),
        ("-5", 0),
        ("+5", 0),
        ("5.0", 0),
        ("5e1", 0),
        ("5 6", 0),
        ("\u{a0}5", 0),
        ("\"5\"", 0),
        ("", 0),
        ("null", 0),
    ] {
        assert_eq!(load_best(Some(text)), best, "{text:?}");
    }
}

#[test]
fn loading_gives_back_what_was_saved() {
    for best in [0, 1, 9, 10, 99, 100, 1234567890, u32::MAX - 1, u32::MAX] {
        let text = save_best(best).unwrap();
        assert_eq!(text, format!("{best}"));
        assert_eq!(load_best(Some(&text)), best);
    }
}

#[test]
fn numbers_and_lists_read_well() {
    for n in [0, 5, 10, 99, 4_294_967_295] {
        assert_eq!(digits(n), format!("{n}"));
    }
    assert_eq!(spaced_out(&[]), "");
    assert_eq!(spaced_out(&['%']), "%");
    assert_eq!(spaced_out(&['%', 'U', '§']), "% U §");
    assert_eq!(repeated('♥', 0), "");
    assert_eq!(repeated('♥', 3), "♥♥♥");
}

#[test]
fn banners_say_what_happened() {
    let mut game = Game::new(700);
    game.add_score(120);
    for (banner, text) in [
        (Banner::Blank, ""),
        (Banner::Countdown(3), "3"),
        (Banner::Ready, "Ready!"),
        (Banner::Power, "Power Pellet Active!"),
        (Banner::Fruit, "Fruit Collected!"),
        (Banner::GhostEaten, "Ghost eaten!"),
        (Banner::Waiting, "Ghosts retreating..."),
        (Banner::LevelClear(12), "Level Cleared! 12"),
        (Banner::Won, "You collected all the dots! · r to restart"),
        (
            Banner::Lost,
            "Game Over · score 120 · best 700 · r to restart",
        ),
        (Banner::ConfirmRestart, "Confirm restart? [Y] Yes / [N] No"),
    ] {
        assert_eq!(banner_text(&game, banner), text);
    }
    for (color, shown) in [
        (BannerColor::Yellow, Color::Yellow),
        (BannerColor::Cyan, Color::Cyan),
        (BannerColor::Magenta, Color::Magenta),
        (BannerColor::Green, Color::Green),
        (BannerColor::Red, Color::Red),
        (BannerColor::Gray, Color::DarkGray),
    ] {
        assert_eq!(banner_color(color), shown);
    }
    assert_eq!(ghost_color(GhostId::Blinky), Color::Red);
    assert_eq!(ghost_color(GhostId::Pinky), Color::Magenta);
    assert_eq!(ghost_color(GhostId::Inky), Color::Cyan);
    assert_eq!(ghost_color(GhostId::Clyde), Color::Rgb(255, 165, 0));
}

#[test]
fn cells_show_what_stands_on_them() {
    let mut game = Game::new(0);
    let look = |game: &Game, r: i32, c: i32| cell_visual(game, game.maze(), r, c);
    assert_eq!(look(&game, 9, 18), ('@', Color::LightYellow));
    assert_eq!(look(&game, 10, 12), ('&', Color::Red));
    assert_eq!(look(&game, 10, 11), ('-', Color::White));
    assert_eq!(look(&game, 0, 0), (game.maze().base[0][0], Color::Blue));
    game.maze.pellets[1][1] = Pellet::Dot;
    game.maze.pellets[1][2] = Pellet::Power;
    game.maze.pellets[1][3] = Pellet::Empty;
    assert_eq!(look(&game, 1, 1), ('·', Color::White));
    assert_eq!(look(&game, 1, 2), ('*', Color::Yellow));
    game.fruit.active = true;
    game.fruit.r = 1;
    game.fruit.c = 3;
    assert_eq!(look(&game, 1, 3), ('%', Color::Magenta));
    // Ghosts stand before the fruit, the player before the ghosts.
    game.ghosts[3].r = 1;
    game.ghosts[3].c = 3;
    game.ghosts[3].state = GhostState::Normal;
    assert_eq!(look(&game, 1, 3), ('&', Color::Rgb(255, 165, 0)));
    game.ghosts[3].state = GhostState::Frightened;
    assert_eq!(look(&game, 1, 3), ('&', Color::LightBlue));
    game.power_eaten[3] = true;
    assert_eq!(look(&game, 1, 3), ('&', Color::Rgb(255, 165, 0)));
    game.ghosts[3].state = GhostState::Eyes;
    assert_eq!(look(&game, 1, 3), ('&', Color::White));
    game.player.r = 1;
    game.player.c = 3;
    game.power_until = game.frame + 10;
    assert_eq!(look(&game, 1, 3), ('@', Color::LightCyan));
}

#[test]
fn the_board_is_laid_out_side_by_side() {
    let mut pane = GamePane::new(Some("31"), NOW);
    pane.game.add_score(20);
    let place = Area {
        x: 3,
        y: 5,
        width: 60,
        height: 30,
    };
    let board = board_of(&pane, place);
    // Inside the border: 58 by 28 cells from (4, 6).
    assert_eq!(board.maze.len(), 21);
    assert!(board.maze.iter().all(|row| row.len() == 26));
    assert_eq!((board.maze[0][0].x, board.maze[0][0].y), (4, 6));
    assert_eq!((board.maze[20][25].x, board.maze[20][25].y), (29, 26));
    assert_eq!(board.maze[9][18].ch, '@');
    assert_eq!(
        board.hud_area,
        Area {
            x: 31,
            y: 11,
            width: 31,
            height: 17
        }
    );
    assert_eq!(
        board.banner_area,
        Area {
            x: 4,
            y: 27,
            width: 58,
            height: 1
        }
    );
    assert_eq!(board.banner, "3");
    assert_eq!(board.banner_color, Color::Yellow);
    let lines: Vec<&str> = board.hud.iter().map(|l| l.text.as_str()).collect();
    assert_eq!(
        lines,
        [
            "High Score",
            "31",
            "",
            "Current Score",
            "20",
            "",
            "Game Time",
            "0s",
            "",
            "Level",
            "1",
            "",
            "Lives",
            "♥♥♥",
            "",
            "Fruit",
            "-"
        ]
    );
    assert_eq!(board.hud[0].tone, Tone::Dim);
    assert_eq!(board.hud[1].tone, Tone::Bright);
    assert_eq!(board.hud[2].tone, Tone::Plain);
}

#[test]
fn collected_fruits_are_listed() {
    let mut game = Game::new(0);
    game.collected_fruits = vec!['%', 'U'];
    assert_eq!(hud_lines(&game)[16].text, "% U");
}

#[test]
fn boards_must_lie_on_the_screen() {
    let at = |x: u16, y: u16, width: u16, height: u16| Area {
        x,
        y,
        width,
        height,
    };
    assert!(Screen::fits(at(0, 0, 60, 30)));
    assert!(Screen::fits(at(u16::MAX, u16::MAX, 20, 10)));
    assert!(Screen::fits(at(u16::MAX - 28, 0, 60, 30)));
    assert!(!Screen::fits(at(u16::MAX - 27, 0, 60, 30)));
    assert!(Screen::fits(at(0, u16::MAX - 22, 60, 30)));
    assert!(!Screen::fits(at(0, u16::MAX - 21, 60, 30)));
    assert!(!Screen::fits(at(0, u16::MAX - 100, 60, 300)));
}

#[test]
fn the_border_takes_its_room() {
    let pane = GamePane::new(None, NOW);
    for (width, height) in [(0, 0), (1, 9), (2, 9), (9, 2), (0, 30), (60, 1)] {
        assert!(matches!(pane.render(area(width, height)), Screen::Nothing));
    }
    assert!(matches!(pane.render(area(42, 24)), Screen::Board(_)));
    match pane.render(area(41, 24)) {
        Screen::Hint(hint, inner) => {
            assert_eq!(hint, "Pac-Man needs 40×22 cells · now 39×22");
            assert_eq!((inner.x, inner.y, inner.width, inner.height), (1, 1, 39, 22));
        }
        _ => panic!("too narrow"),
    }
    assert!(matches!(pane.render(area(42, 23)), Screen::Hint(_, _)));
    // At the far corner of the screen the inside stays on it.
    let far = Area {
        x: u16::MAX,
        y: u16::MAX,
        width: 5,
        height: 5,
    };
    match pane.render(far) {
        Screen::Hint(_, inner) => assert_eq!((inner.x, inner.y), (u16::MAX, u16::MAX)),
        _ => panic!("too small"),
    }
}
