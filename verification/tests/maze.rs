//! The board.

use rimeterm::maze::{parse, Pellet, NATIVE_TEMPLATE};

#[test]
fn parses_transposed_dimensions() {
    let maze = parse();
    assert_eq!(maze.rows, 21);
    assert_eq!(maze.cols, 26);
}

#[test]
fn seeds_one_hundred_ninety_one_pellets() {
    assert_eq!(parse().pellet_count(), 191);
}

#[test]
fn records_door_and_tunnels() {
    let maze = parse();
    assert_eq!(maze.door_cells, vec![(10, 11)]);
    assert_eq!(maze.tunnel_left, (0, 12));
    assert_eq!(maze.tunnel_right, (20, 12));
}

#[test]
fn tunnel_wraps_both_directions() {
    let maze = parse();
    assert_eq!(maze.apply_tunnel(-1, 12), (20, 12));
    assert_eq!(maze.apply_tunnel(21, 12), (0, 12));
    assert_eq!(maze.apply_tunnel(5, -1), (5, -1));
}

#[test]
fn players_cannot_cross_doors_but_ghosts_can() {
    let maze = parse();
    assert!(maze.can_move_ghost(10, 11).is_some());
    assert!(maze.can_move_player(10, 11).is_none());
}

#[test]
fn board_is_the_template_on_its_side() {
    let maze = parse();
    let mut dots = 0;
    let mut powers = 0;
    for (c, line) in NATIVE_TEMPLATE.iter().enumerate() {
        let line: Vec<char> = line.chars().collect();
        assert_eq!(line.len(), 21);
        for (r, ch) in line.iter().enumerate() {
            assert_eq!(maze.base[r][c], *ch);
            let pellet = match ch {
                '·' => Pellet::Dot,
                '*' => Pellet::Power,
                _ => Pellet::Empty,
            };
            assert_eq!(maze.pellets[r][c], pellet);
            match pellet {
                Pellet::Dot => dots += 1,
                Pellet::Power => powers += 1,
                Pellet::Empty => {}
            }
        }
    }
    assert_eq!((dots, powers), (187, 4));
}

#[test]
fn doors_stop_players_only() {
    let maze = parse();
    for r in -2..23 {
        for c in -2..28 {
            let player = maze.can_move_player(r, c);
            let ghost = maze.can_move_ghost(r, c);
            if player.is_some() {
                assert_eq!(player, ghost);
            } else if ghost.is_some() {
                assert!(maze.is_door(r, c));
            }
        }
    }
}

#[test]
fn outside_counts_as_wall() {
    let maze = parse();
    assert!(!maze.in_bounds(-1, 3));
    assert!(maze.is_wall(-1, 3));
    assert!(!maze.is_walkable(21, 3));
    assert!(maze.can_move_ghost(-1, 3).is_none());
    assert_eq!(maze.can_move_player(-1, 12), Some((20, 12)));
    assert!(maze.is_wall_strict(0, 0));
    assert!(!maze.is_wall_strict(10, 11));
}

#[test]
fn queries_need_only_what_they_read() {
    let mut maze = parse();
    maze.pellets.clear();
    maze.door_cells.clear();
    maze.tunnel_left = (50, 3);
    assert!(maze.is_door(10, 11));
    assert!(maze.is_wall(0, 0));
    assert!(maze.is_walkable(9, 18));
    assert_eq!(maze.apply_tunnel(21, 12), (50, 3));
    assert!(maze.can_move_player(21, 12).is_none());
    assert_eq!(maze.can_move_ghost(10, 11), Some((10, 11)));
}

#[test]
fn copies_share_nothing() {
    let maze = parse();
    let mut copy = maze.clone();
    copy.pellets[9][17] = Pellet::Power;
    copy.base[0][0] = ' ';
    assert_ne!(maze.pellets[9][17], Pellet::Power);
    assert_ne!(maze.base[0][0], ' ');
    assert_eq!(copy.door_cells, maze.door_cells);
}
