//! The game, frame by frame.

use rimeterm::engine::{
    Banner, BannerColor, Dir, Game, GhostId, GhostState, Input, Mode, Phase, FPS,
    PLAYER_STEP_FRAMES,
};
use rimeterm::maze::Pellet;
use rimeterm::rules::{
    fruit_for_level, ghost_release_delay, ghost_revive_sec, power_duration_sec, scatter_schedule,
    Rng,
};

fn idle_ticks(game: &mut Game, frames: u64) {
    for _ in 0..frames {
        game.tick(Input::Idle);
    }
}

#[test]
fn new_game_is_playing_with_countdown() {
    let game = Game::new(0);
    assert_eq!(game.phase(), Phase::Playing);
    assert_eq!(game.score(), 0);
    assert_eq!(game.lives(), 3);
    assert_eq!(game.level(), 1);
    assert_eq!(game.banner(), (Banner::Countdown(3), BannerColor::Yellow));
}

#[test]
fn player_auto_moves_and_scores_after_countdown() {
    let mut game = Game::new(0);
    idle_ticks(&mut game, 3 * FPS);
    let score_before = game.score();
    idle_ticks(&mut game, 4 * FPS);
    assert!(
        game.score() > score_before,
        "player should have eaten pellets"
    );
}

#[test]
fn tunnel_wraps_player_between_mouths() {
    let mut game = Game::new(0);
    idle_ticks(&mut game, 3 * FPS + PLAYER_STEP_FRAMES);
    // Park the player at the top mouth, heading up.
    game.player.r = 0;
    game.player.c = 12;
    game.player.dir = Dir::Up;
    game.player.next_dir = Dir::Up;
    game.player.next_step_at = 0;
    for _ in 0..PLAYER_STEP_FRAMES {
        game.tick(Input::No);
    }
    assert_eq!(game.player(), (20, 12), "should wrap to bottom mouth");
}

#[test]
fn power_pellet_frightens_and_eatable_ghost_scores() {
    let mut game = Game::new(0);
    idle_ticks(&mut game, 3 * FPS);
    // Put a power pellet one step to the left and step onto it.
    let (pr, pc) = (game.player.r, game.player.c);
    game.maze.pellets[pr as usize][(pc - 1) as usize] = Pellet::Power;
    game.player.next_step_at = 0;
    game.player.dir = Dir::Left;
    game.player.next_dir = Dir::Left;
    for _ in 0..PLAYER_STEP_FRAMES + 2 {
        game.tick(Input::No);
    }
    assert!(game.power_seconds_left() > 0);

    // Force a collision with a frightened ghost.
    let (r, c) = (game.player.r, game.player.c);
    let g = game.ghosts.iter_mut().next().unwrap();
    g.r = r;
    g.c = c;
    g.state = GhostState::Frightened;
    game.check_collision_with_ghost(0);
    assert_eq!(game.ghosts()[0].state, GhostState::Eyes);
    // 50 for the power pellet, 200 for the first ghost, and the dots.
    assert_eq!(game.score() % 250, 0);
}

#[test]
fn normal_ghost_collision_costs_a_life() {
    let mut game = Game::new(0);
    idle_ticks(&mut game, 3 * FPS + 4 * FPS);
    let lives = game.lives();
    let (r, c) = (game.player.r, game.player.c);
    let g = game.ghosts.iter_mut().next().unwrap();
    g.r = r;
    g.c = c;
    g.state = GhostState::Normal;
    game.check_collision_with_ghost(0);
    assert_eq!(game.lives(), lives - 1);
    assert_eq!(game.banner().0, Banner::Waiting);
}

#[test]
fn restart_confirmation_flow_resets_run() {
    let mut game = Game::new(0);
    idle_ticks(&mut game, 3 * FPS);
    game.add_score(500);
    game.tick(Input::Restart);
    assert_eq!(game.banner().0, Banner::ConfirmRestart);
    game.tick(Input::Yes);
    assert_eq!(game.score(), 0);
    assert_eq!(game.lives(), 3);
    assert_eq!(game.banner().0, Banner::Countdown(3));
}

#[test]
fn clearing_pellets_starts_next_level() {
    let mut game = Game::new(0);
    idle_ticks(&mut game, 3 * FPS);
    // Empty the board but for the cell one step above the player.
    for row in game.maze.pellets.iter_mut() {
        for cell in row.iter_mut() {
            *cell = Pellet::Empty;
        }
    }
    game.remaining_pellets = 1;
    let (pr, pc) = (game.player.r, game.player.c);
    game.maze.pellets[(pr - 1) as usize][pc as usize] = Pellet::Dot;
    game.player.next_step_at = 0;
    game.player.dir = Dir::Up;
    game.player.next_dir = Dir::Up;
}

#[test]
fn losing_all_lives_ends_run_and_commits_best() {
    let mut game = Game::new(100);
    idle_ticks(&mut game, 3 * FPS);
    game.add_score(5000);
    for _ in 0..3 {
        game.player.next_step_at = u64::MAX;
        // Skip countdown, pause and release delays.
        idle_ticks(&mut game, 8 * FPS);
        let (r, c) = (game.player.r, game.player.c);
        let g = game.ghosts.iter_mut().next().unwrap();
        g.r = r;
        g.c = c;
        g.state = GhostState::Normal;
        game.check_collision_with_ghost(0);
        if game.phase() != Phase::Playing {
            break;
        }
    }
    game.player.next_step_at = u64::MAX;
    assert_eq!(game.phase(), Phase::Lost);
    assert_eq!(game.best_score(), game.score());
    assert!(game.best_score() >= 5000);
    game.tick(Input::Restart);
    assert_eq!(game.phase(), Phase::Playing);
    assert_eq!(game.score(), 0);
}

#[test]
fn result_screen_waits_for_restart_key() {
    let mut game = Game::new(0);
    idle_ticks(&mut game, 3 * FPS);
    game.lives = 1;
    let (pr, pc) = (game.player.r, game.player.c);
    let g = game.ghosts.iter_mut().next().unwrap();
    g.r = pr;
    g.c = pc;
    g.state = GhostState::Normal;
    game.check_collision_with_ghost(0);
    assert_eq!(game.phase(), Phase::Lost);

    // The result stays in sight while the player decides.
    idle_ticks(&mut game, 8 * FPS);
    assert_eq!(game.phase(), Phase::Lost);

    game.tick(Input::Restart);
    assert_eq!(game.phase(), Phase::Playing);
    assert_eq!(game.score(), 0);
}

#[test]
fn fruit_spawns_at_seventy_percent_and_scores_on_pickup() {
    let mut game = Game::new(0);
    idle_ticks(&mut game, 3 * FPS);
    game.remaining_pellets = game.total_pellets * 7 / 10;
    game.tick(Input::No);
    assert!(game.fruit().is_some(), "fruit should be active at 70%");
    let (fr, fc) = (game.fruit.r, game.fruit.c);
    game.player.r = fr;
    game.player.c = fc;
    game.maze.pellets[fr as usize][fc as usize] = Pellet::Empty;
    game.player.next_step_at = 0;
    game.player.dir = Dir::Left;
    let before = game.score();
    // Step into the fruit's cell from above.
    game.player.r = fr - 1;
    game.player.c = fc;
    game.player.dir = Dir::Down;
    game.player.next_dir = Dir::Down;
    game.maze.pellets[fr as usize][fc as usize] = Pellet::Empty;
    for _ in 0..PLAYER_STEP_FRAMES + 2 {
        game.tick(Input::No);
    }
    assert!(
        game.collected_fruits().len() == 1 || game.score() > before,
        "fruit should be collected when stepped on: score {} -> {}",
        before,
        game.score()
    );
}

#[test]
fn fruit_table_matches_upstream() {
    assert_eq!(fruit_for_level(1), ('%', 100));
    assert_eq!(fruit_for_level(7), ('§', 1000));
    assert_eq!(fruit_for_level(12), ('?', 3000));
    assert_eq!(fruit_for_level(13), ('!', 5000));
    assert_eq!(fruit_for_level(20), ('!', 5000));
}

#[test]
fn extra_life_at_one_hundred_thousand() {
    let mut game = Game::new(0);
    game.add_score(99_999);
    assert_eq!(game.lives(), 3);
    game.add_score(1);
    assert_eq!(game.lives(), 4);
}

#[test]
fn extra_life_is_granted_once() {
    let mut game = Game::new(0);
    game.add_score(100_000);
    game.add_score(100_000);
    assert_eq!(game.lives(), 4);
    assert_eq!(game.score(), 200_000);
}

#[test]
fn a_level_starts_in_order() {
    let game = Game::new(7);
    assert_eq!(game.player(), (9, 18));
    for (i, g) in game.ghosts().iter().enumerate() {
        assert_eq!((g.r, g.c), (10, 12));
        assert_eq!(g.state, GhostState::House);
        assert_eq!(g.id.index(), i);
    }
    assert!(game.fruit().is_none());
    assert_eq!((game.fruit.r, game.fruit.c), (10, 14));
    assert_eq!(game.maze().pellet_count(), 191);
    assert_eq!(game.best_score(), 7);
    assert_eq!(game.mode(), Mode::Scatter);
    assert_eq!(game.elapsed_seconds(), 0);
    assert!(!game.stats_committed());
}

#[test]
fn nothing_moves_during_the_countdown() {
    let mut game = Game::new(0);
    for frame in 0..3 * FPS {
        let left = 3 - frame / FPS;
        assert_eq!(game.banner(), (Banner::Countdown(left as u32), BannerColor::Yellow));
        assert_eq!(game.player(), (9, 18));
        assert!(game.ghosts().iter().all(|g| (g.r, g.c) == (10, 12)));
        assert_eq!(game.score(), 0);
        game.tick(Input::Idle);
    }
    assert_ne!(game.banner().0, Banner::Countdown(1));
}

#[test]
fn restart_asks_first_and_stops_play() {
    let mut game = Game::new(0);
    idle_ticks(&mut game, 5 * FPS);
    let score = game.score();
    let player = game.player();
    game.tick(Input::Restart);
    for _ in 0..3 * FPS {
        game.tick(Input::Left);
    }
    assert_eq!(game.banner().0, Banner::ConfirmRestart);
    assert_eq!(game.score(), score);
    assert_eq!(game.player(), player);
    // A refusal goes on with the run.
    game.tick(Input::No);
    assert_ne!(game.banner().0, Banner::ConfirmRestart);
    assert_eq!(game.phase(), Phase::Playing);
    assert!(game.score() >= score);
}

#[test]
fn yes_means_nothing_unless_asked() {
    let mut game = Game::new(0);
    idle_ticks(&mut game, 5 * FPS);
    let score = game.score();
    assert!(score > 0);
    game.tick(Input::Yes);
    assert!(game.score() >= score);
}

#[test]
fn the_last_pellet_clears_the_level() {
    let mut game = Game::new(0);
    idle_ticks(&mut game, 3 * FPS);
    for row in game.maze.pellets.iter_mut() {
        for cell in row.iter_mut() {
            *cell = Pellet::Empty;
        }
    }
    game.remaining_pellets = 1;
    let (pr, pc) = game.player();
    game.maze.pellets[pr as usize][(pc - 1) as usize] = Pellet::Dot;
    game.player.next_step_at = 0;
    game.player.dir = Dir::Left;
    game.player.next_dir = Dir::Left;
    game.tick(Input::Idle);
    assert_eq!(game.level(), 2);
    assert_eq!(game.maze().pellet_count(), 191);
    assert_eq!(game.player(), (9, 18));
    assert!(game.score() >= 10);
}

#[test]
fn the_last_pellet_of_the_last_level_wins() {
    let mut game = Game::new(3);
    idle_ticks(&mut game, 3 * FPS);
    for row in game.maze.pellets.iter_mut() {
        for cell in row.iter_mut() {
            *cell = Pellet::Empty;
        }
    }
    game.level = 20;
    game.remaining_pellets = 1;
    let (pr, pc) = game.player();
    game.maze.pellets[pr as usize][(pc - 1) as usize] = Pellet::Dot;
    game.player.next_step_at = 0;
    game.player.dir = Dir::Left;
    game.player.next_dir = Dir::Left;
    game.tick(Input::Idle);
    assert_eq!(game.phase(), Phase::Won);
    assert_eq!(game.banner().0, Banner::Won);
    assert!(game.stats_committed());
    assert_eq!(game.best_score(), game.score());
    let frame = game.frame;
    game.tick(Input::Up);
    assert_eq!(game.phase(), Phase::Won);
    assert_eq!(game.frame, frame + 1);
    // Both keys start over.
    game.tick(Input::Yes);
    assert_eq!(game.phase(), Phase::Playing);
    assert_eq!(game.level(), 1);
}

#[test]
fn no_ghost_is_eaten_twice_per_power_cycle() {
    let mut game = Game::new(0);
    idle_ticks(&mut game, 3 * FPS);
    game.power_until = game.frame + 6 * FPS;
    game.power_chain = 0;
    let (r, c) = game.player();
    let before = game.score();
    for i in 0..4 {
        game.ghosts[i].r = r;
        game.ghosts[i].c = c;
        game.ghosts[i].state = GhostState::Frightened;
        game.check_collision_with_ghost(i);
        assert_eq!(game.ghosts()[i].state, GhostState::Eyes);
        assert!(game.ghost_was_eaten(game.ghosts()[i].id));
    }
    assert_eq!(game.score(), before + 200 + 400 + 800 + 1600);
    // Eyes are no danger and worth nothing.
    game.check_collision_with_ghost(0);
    assert_eq!(game.score(), before + 3000);
    assert_eq!(game.lives(), 3);
}

#[test]
fn eyes_step_every_eight_frames() {
    for level in [1, 5, 11, 20] {
        for i in 0..4 {
            let mut game = Game::new(0);
            idle_ticks(&mut game, 3 * FPS);
            game.level = level;
            game.ghosts[i].r = 1;
            game.ghosts[i].c = 1;
            game.ghosts[i].state = GhostState::Eyes;
            game.ghosts[i].next_step_at = game.frame;
            for _ in 0..3 {
                let (frame, before) = (game.frame, game.ghosts()[i]);
                game.tick(Input::Idle);
                assert_eq!(game.ghosts[i].next_step_at, frame + 8);
                let stepped = game.ghosts()[i];
                assert_ne!((stepped.r, stepped.c), (before.r, before.c));
                idle_ticks(&mut game, 7);
                let waiting = game.ghosts()[i];
                assert_eq!((waiting.r, waiting.c), (stepped.r, stepped.c));
            }
        }
    }
}

#[test]
fn step_intervals_depend_on_level_and_mood() {
    let mut game = Game::new(0);
    let interval = |game: &Game, i: usize| game.ghost_step_interval(&game.ghosts[i]);
    for (level, base) in [(1, 8), (4, 8), (5, 7), (10, 7), (11, 6), (20, 6)] {
        game.level = level;
        for i in 0..4 {
            game.ghosts[i].state = GhostState::Normal;
            assert_eq!(interval(&game, i), base);
            game.ghosts[i].state = GhostState::Frightened;
            assert_eq!(interval(&game, i), base + 3);
            game.ghosts[i].state = GhostState::Eyes;
            assert_eq!(interval(&game, i), 8);
        }
    }
    // Few pellets are left: Blinky hurries, the others do not.
    game.level = 5;
    game.remaining_pellets = 28;
    game.ghosts[0].state = GhostState::Normal;
    game.ghosts[1].state = GhostState::Normal;
    assert_eq!(interval(&game, 0), 6);
    assert_eq!(interval(&game, 1), 7);
}

#[test]
fn distance_is_symmetric() {
    let game = Game::new(0);
    assert_eq!(game.bfs_distance(9, 18, 9, 18), 0);
    assert_eq!(game.bfs_distance(0, 12, 20, 12), 1);
    assert_eq!(game.bfs_distance(1, 1, 1, 2), 1);
    // A wall, and what lies outside, cannot be reached.
    assert_eq!(game.bfs_distance(1, 1, 0, 0), 9999);
    assert_eq!(game.bfs_distance(1, 1, -1, 12), 9999);
    assert_eq!(game.bfs_distance(-1, 12, 1, 1), 9999);
    let places = [(9, 18), (10, 12), (10, 11), (0, 12), (20, 12), (1, 1), (19, 24), (5, 5)];
    for (ar, ac) in places {
        for (br, bc) in places {
            if game.maze().is_walkable(ar, ac) && game.maze().is_walkable(br, bc) {
                assert_eq!(
                    game.bfs_distance(ar, ac, br, bc),
                    game.bfs_distance(br, bc, ar, ac)
                );
            }
        }
    }
}

#[test]
fn play_goes_on_up_to_the_highest_score() {
    let mut game = Game::new(0);
    idle_ticks(&mut game, 3 * FPS);
    game.add_score(u32::MAX - 10 - game.score());
    game.tick(Input::Idle);
    assert_eq!(game.score(), u32::MAX);
    game.tick(Input::Idle);
    assert_eq!(game.score(), u32::MAX);
    assert_eq!(game.phase(), Phase::Playing);
}

#[test]
fn waiting_needs_no_time_ahead() {
    let mut game = Game::new(0);
    game.lives = 1;
    let (r, c) = game.player();
    game.ghosts[0].r = r;
    game.ghosts[0].c = c;
    game.ghosts[0].state = GhostState::Normal;
    game.check_collision_with_ghost(0);
    assert_eq!(game.phase(), Phase::Lost);
    game.frame = u64::MAX - 2;
    game.tick(Input::Up);
    game.tick(Input::No);
    assert_eq!(game.frame, u64::MAX);
    assert_eq!(game.banner().0, Banner::Lost);
}

#[test]
fn only_frightened_ghosts_are_eaten() {
    let mut game = Game::new(0);
    for state in [GhostState::House, GhostState::Normal, GhostState::Eyes] {
        game.ghosts[1].state = state;
        game.eat_ghost(1);
        assert_eq!(game.ghosts()[1].state, state);
        assert_eq!(game.score(), 0);
    }
    game.ghosts[1].state = GhostState::Frightened;
    game.eat_ghost(1);
    assert_eq!(game.ghosts()[1].state, GhostState::Eyes);
    assert!(game.ghost_was_eaten(GhostId::Pinky));
    assert_eq!(game.score(), 200);
    game.eat_ghost(1);
    assert_eq!(game.score(), 200);
}

#[test]
fn points_and_frames_mix() {
    let mut game = Game::new(0);
    let mut given = 0;
    for frame in 0..30_000u64 {
        if frame % 7 == 0 && game.phase() == Phase::Playing {
            game.add_score(13);
            given += 13;
        }
        game.tick(if frame % 50 == 0 { Input::Left } else { Input::Up });
        assert_eq!(game.remaining_pellets, game.maze().pellet_count());
        assert_eq!(game.phase() == Phase::Lost, game.lives() == 0);
        assert!(game.score() <= 384_400 + given);
    }
}

#[test]
fn a_finished_run_keeps_its_banner() {
    let mut game = Game::new(0);
    idle_ticks(&mut game, 3 * FPS);
    game.lives = 1;
    let (r, c) = game.player();
    game.ghosts[2].r = r;
    game.ghosts[2].c = c;
    game.ghosts[2].state = GhostState::Normal;
    game.check_collision_with_ghost(2);
    let (banner, score, seconds) = (game.banner(), game.score(), game.elapsed_seconds());
    assert_eq!(banner, (Banner::Lost, BannerColor::Red));
    for key in [Input::Idle, Input::Up, Input::Down, Input::Left, Input::Right, Input::No] {
        for _ in 0..5 * FPS {
            game.tick(key);
        }
        assert_eq!(game.phase(), Phase::Lost);
        assert_eq!(game.banner(), banner);
        assert_eq!(game.score(), score);
        assert_eq!(game.elapsed_seconds(), seconds);
        assert_eq!(game.player(), (r, c));
        assert_eq!(game.lives(), 0);
        assert!(game.stats_committed());
    }
}

#[test]
fn answers_need_a_question() {
    for answer in [Input::Yes, Input::No] {
        let mut asked = Game::new(0);
        let mut idle = Game::new(0);
        for frame in 0..20 * FPS {
            asked.tick(if frame % 3 == 0 { answer } else { Input::Idle });
            idle.tick(Input::Idle);
            assert_eq!(asked.player(), idle.player());
            assert_eq!(asked.score(), idle.score());
            assert_eq!(asked.banner(), idle.banner());
            for (a, b) in asked.ghosts().iter().zip(idle.ghosts().iter()) {
                assert_eq!((a.r, a.c, a.dir, a.state), (b.r, b.c, b.dir, b.state));
            }
        }
    }
}

#[test]
fn rewards_follow_the_order_of_eating() {
    for order in [[0, 1, 2, 3], [3, 1, 0, 2], [2, 3, 1, 0]] {
        let mut game = Game::new(0);
        idle_ticks(&mut game, 3 * FPS);
        game.power_until = game.frame + 6 * FPS;
        let (r, c) = game.player();
        for g in game.ghosts.iter_mut() {
            g.r = r;
            g.c = c;
            g.state = GhostState::Frightened;
        }
        let start = game.score();
        for (k, i) in order.into_iter().enumerate() {
            let before = game.score();
            game.check_collision_with_ghost(i);
            assert_eq!(game.score() - before, [200, 400, 800, 1600][k]);
            game.check_collision_with_ghost(i);
            assert_eq!(game.score() - before, [200, 400, 800, 1600][k]);
        }
        assert_eq!(game.score() - start, 3000);
    }
}

#[test]
fn ghosts_turn_back_only_at_dead_ends() {
    let mut game = Game::new(0);
    idle_ticks(&mut game, 3 * FPS);
    for _ in 0..30 * FPS {
        let before = game.ghosts();
        game.tick(Input::Idle);
        if game.phase() != Phase::Playing || game.banner().0 == Banner::Waiting {
            break;
        }
        for (old, new) in before.iter().zip(game.ghosts().iter()) {
            let moved = (old.r, old.c) != (new.r, new.c);
            if !moved || old.state == GhostState::House || new.state == GhostState::House {
                continue;
            }
            let mut exits = 0;
            for d in [Dir::Up, Dir::Left, Dir::Down, Dir::Right] {
                let (dr, dc) = d.delta();
                if game.maze().can_move_ghost(old.r + dr, old.c + dc).is_some() {
                    exits += 1;
                }
            }
            let (dr, dc) = new.dir.delta();
            assert_eq!(
                game.maze().can_move_ghost(old.r + dr, old.c + dc),
                Some((new.r, new.c))
            );
            if exits > 1 {
                assert_ne!(new.dir, old.dir.opposite());
            }
        }
    }
}

#[test]
fn counters_agree_whatever_is_pressed() {
    let mut game = Game::new(250);
    let mut dice = Rng(12345);
    let keys = [
        Input::Idle,
        Input::Up,
        Input::Down,
        Input::Left,
        Input::Right,
        Input::Idle,
        Input::Up,
        Input::Left,
        Input::No,
    ];
    let mut best = 250;
    for frame in 0..60_000u64 {
        let was = game.phase();
        let key = if frame % 5000 == 4999 {
            Input::Restart
        } else if frame % 5000 == 0 && frame > 0 {
            Input::Yes
        } else {
            keys[dice.index(keys.len())]
        };
        game.tick(key);
        assert_eq!(game.frame, frame + 1);
        assert_eq!(game.remaining_pellets, game.maze().pellet_count());
        assert!(game.score() <= 384_400);
        assert!(game.lives() <= 4);
        assert!(game.collected_fruits().len() <= game.level() as usize);
        assert_eq!(game.stats_committed(), game.phase() != Phase::Playing);
        assert_eq!(game.phase() == Phase::Lost, game.lives() == 0);
        if was == Phase::Playing && game.phase() != Phase::Playing {
            assert_eq!(game.best_score(), best.max(game.score()));
        } else {
            assert_eq!(game.best_score(), best);
        }
        best = game.best_score();
        let (r, c) = game.player();
        assert!(game.maze().can_move_player(r, c).is_some());
        for g in game.ghosts() {
            assert!(game.maze().is_walkable(g.r, g.c));
            if game.phase() == Phase::Playing && g.state == GhostState::Frightened {
                assert!(!game.ghost_was_eaten(g.id));
            }
        }
    }
}

#[test]
fn seconds_are_rounded_up() {
    let mut game = Game::new(0);
    assert_eq!(game.power_seconds_left(), 0);
    game.power_until = game.frame + 61;
    assert_eq!(game.power_seconds_left(), 2);
    assert_eq!(game.mode(), Mode::Frightened);
    game.power_until = game.frame + 60;
    assert_eq!(game.power_seconds_left(), 1);
}

#[test]
fn elapsed_time_stops_with_the_run() {
    let mut game = Game::new(0);
    idle_ticks(&mut game, 4 * FPS);
    assert_eq!(game.elapsed_seconds(), 4);
    game.lives = 1;
    let (r, c) = game.player();
    game.ghosts[0].r = r;
    game.ghosts[0].c = c;
    game.ghosts[0].state = GhostState::Normal;
    game.check_collision_with_ghost(0);
    idle_ticks(&mut game, 10 * FPS);
    assert_eq!(game.elapsed_seconds(), 4);
    assert_eq!(game.banner().0, Banner::Lost);
}

#[test]
fn levels_get_harder() {
    assert_eq!(power_duration_sec(1), 6);
    assert_eq!(power_duration_sec(2), 5);
    assert_eq!(power_duration_sec(3), 4);
    assert_eq!(power_duration_sec(10), 4);
    assert_eq!(power_duration_sec(11), 3);
    assert_eq!(power_duration_sec(17), 2);
    assert_eq!(ghost_revive_sec(1), 3);
    assert_eq!(ghost_revive_sec(11), 5);
    assert_eq!(ghost_revive_sec(17), 3);
    assert_eq!(ghost_release_delay(1, GhostId::Clyde), 6);
    assert_eq!(ghost_release_delay(4, GhostId::Inky), 3);
    assert_eq!(ghost_release_delay(5, GhostId::Pinky), 1);
    assert_eq!(ghost_release_delay(5, GhostId::Blinky), 0);
    assert_eq!(scatter_schedule(1)[0], (Mode::Scatter, 7));
    assert_eq!(scatter_schedule(4).len(), 8);
    assert_eq!(scatter_schedule(5)[0], (Mode::Scatter, 5));
    assert_eq!(scatter_schedule(17)[0], (Mode::Scatter, 1));
}

#[test]
fn chance_follows_the_shift_register() {
    let mut dice = Rng(1);
    assert_eq!(dice.next(), 0x4082_2041);
    let mut other = Rng(2);
    assert_ne!(other.next(), 0x4082_2041);
    for n in 1..50 {
        assert!(dice.index(n) < n);
    }
}

#[test]
fn directions_come_in_pairs() {
    for d in [Dir::Up, Dir::Left, Dir::Down, Dir::Right] {
        assert_eq!(d.opposite().opposite(), d);
        let (a, b) = (d.delta(), d.opposite().delta());
        assert_eq!((a.0 + b.0, a.1 + b.1), (0, 0));
    }
    assert_eq!(Dir::Up.delta(), (-1, 0));
    assert_eq!(Dir::Right.delta(), (0, 1));
}
