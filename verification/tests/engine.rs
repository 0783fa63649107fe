use puzznic::apply::{find_tile, handle_move_tiles};
use puzznic::collision::{check_collision_perfect, find_collision, overlaps};
use puzznic::playing_state::{LevelInfo, PlayingState};
use puzznic::sound::Sounds;
use puzznic::tile::{
    Direction, Tile, TileChange, TileKind, TileState, Vector, FADE_STEPS, SPEED, TILE_HEIGHT,
    TILE_WIDTH,
};

fn level(tiles: Vec<Tile>, width: usize, height: usize) -> PlayingState {
    let mut state = PlayingState::new();
    state.set_level(LevelInfo {
        tiles,
        blanks: vec![],
        width,
        height,
        offset_x: 0,
        offset_y: 0,
        level: 1,
        time: 60,
    });
    state
}

fn wall(id: u32, x: i32, y: i32) -> Tile {
    Tile::new(id, '-', x, y)
}

fn piece(id: u32, c: char, x: i32, y: i32) -> Tile {
    Tile::new(id, c, x, y)
}

fn platform(id: u32, c: char, x: i32, y: i32, vx: i32, vy: i32) -> Tile {
    let mut t = Tile::new(id, c, x, y);
    t.velocity = Vector::new(vx, vy);
    t.looping = true;
    t
}

fn tile_with_id(state: &PlayingState, id: u32) -> Tile {
    state.map[find_tile(&state.map, id).unwrap()]
}

#[test]
fn constants_are_those_of_the_game() {
    assert_eq!(TILE_WIDTH, 16);
    assert_eq!(TILE_HEIGHT, 16);
    assert_eq!(SPEED, 1);
    assert_eq!(FADE_STEPS, 50);
}

#[test]
fn new_tile_is_at_rest_and_platform_symbols_ride() {
    let t = Tile::new(7, 'G', 32, 48);
    assert_eq!(t.id, 7);
    assert_eq!(t.c, 'G');
    assert_eq!(t.position, Vector::new(32, 48));
    assert_eq!(t.velocity, Vector::new(0, 0));
    assert_eq!(t.fade_step, 0);
    assert!(!t.looping);
    assert!(!t.riding);
    assert_eq!(t.dragging_direction, None);
    assert!(Tile::new(1, '|', 0, 0).riding);
    assert!(Tile::new(1, '~', 0, 0).riding);
}

#[test]
fn walls_and_blanks_are_not_playable() {
    assert!(Tile::new(1, 'G', 0, 0).is_playable());
    assert!(Tile::new(1, '~', 0, 0).is_playable());
    assert!(!Tile::new(1, '-', 0, 0).is_playable());
    assert!(!Tile::new(1, ' ', 0, 0).is_playable());
}

#[test]
fn tiles_compare_by_identifier() {
    assert!(Tile::new(1, 'G', 0, 0) == Tile::new(1, 'X', 16, 16));
    assert!(Tile::new(1, 'G', 0, 0) != Tile::new(2, 'G', 0, 0));
}

#[test]
fn at_rest_means_on_a_cell_on_both_axes() {
    assert!(Tile::new(1, 'G', 32, 16).is_at_rest());
    assert!(!Tile::new(1, 'G', 33, 16).is_at_rest());
    assert!(!Tile::new(1, 'G', 32, 15).is_at_rest());
    assert!(Tile::new(1, 'G', -16, 0).is_at_rest());
}

#[test]
fn quantized_velocities_are_the_five() {
    assert!(Vector::new(0, 0).is_quantized());
    assert!(Vector::new(1, 0).is_quantized());
    assert!(Vector::new(-1, 0).is_quantized());
    assert!(Vector::new(0, 1).is_quantized());
    assert!(Vector::new(0, -1).is_quantized());
    assert!(!Vector::new(1, 1).is_quantized());
    assert!(!Vector::new(2, 0).is_quantized());
}

#[test]
fn each_change_sets_its_fields() {
    let mut t = Tile::new(1, 'G', 10, 20);
    t.apply(TileChange::VelocityUpdate(Vector::new(0, 1)));
    assert_eq!(t.velocity, Vector::new(0, 1));
    t.apply(TileChange::Move);
    assert_eq!(t.position, Vector::new(10, 21));
    t.apply(TileChange::Bounce);
    assert_eq!(t.velocity, Vector::new(0, -1));
    t.dragging_direction = Some(Direction::Left);
    t.apply(TileChange::Stop);
    assert_eq!(t.velocity, Vector::new(0, 0));
    assert_eq!(t.dragging_direction, None);
    t.apply(TileChange::StartRiding(Vector::new(1, 0)));
    assert!(t.riding);
    assert_eq!(t.velocity, Vector::new(1, 0));
    t.apply(TileChange::Fall);
    assert!(!t.riding);
    assert_eq!(t.velocity, Vector::new(0, 1));
    t.apply(TileChange::RidingFlag(true));
    assert!(t.riding);
    t.dragging_direction = Some(Direction::Right);
    t.apply(TileChange::Jump(Vector::new(48, 64)));
    assert_eq!(t.position, Vector::new(48, 64));
    assert_eq!(t.velocity, Vector::new(0, 0));
    assert_eq!(t.dragging_direction, None);
    t.apply(TileChange::FadeOut);
    assert_eq!(t.fade_step, 1);
}

#[test]
fn a_change_that_cannot_be_carried_out_is_skipped() {
    let mut t = Tile::new(1, 'G', i32::MAX, 0);
    t.velocity = Vector::new(1, 0);
    t.apply(TileChange::Move);
    assert_eq!(t.position, Vector::new(i32::MAX, 0));
    t.apply(TileChange::VelocityUpdate(Vector::new(3, 3)));
    assert_eq!(t.velocity, Vector::new(1, 0));
    t.apply(TileChange::StartRiding(Vector::new(0, 2)));
    assert_eq!(t.velocity, Vector::new(1, 0));
    assert!(!t.riding);
    t.fade_step = u32::MAX;
    t.apply(TileChange::FadeOut);
    assert_eq!(t.fade_step, u32::MAX);
}

#[test]
fn overlap_is_strict_on_both_axes() {
    let a = Tile::new(1, 'G', 0, 0);
    assert!(check_collision_perfect(&a, 15, 15));
    assert!(check_collision_perfect(&a, -15, 0));
    assert!(!check_collision_perfect(&a, 16, 0));
    assert!(!check_collision_perfect(&a, 0, 16));
    assert!(!check_collision_perfect(&a, -16, 0));
}

#[test]
fn collision_is_symmetric() {
    let a = Tile::new(1, 'G', 0, 0);
    let b = Tile::new(2, 'X', 10, 5);
    let c = Tile::new(3, 'X', 16, 0);
    assert!(overlaps(&a, &b));
    assert!(overlaps(&b, &a));
    assert_eq!(overlaps(&a, &c), overlaps(&c, &a));
    assert!(!overlaps(&a, &c));
}

#[test]
fn a_tile_never_collides_with_itself() {
    let a = Tile::new(1, 'G', 0, 0);
    assert!(!overlaps(&a, &a));
    let map = vec![a];
    assert_eq!(find_collision(&map, &a, 0, 0), None);
}

#[test]
fn find_collision_returns_the_first_tile_in_the_way() {
    let map = vec![piece(1, 'G', 0, 0), piece(2, 'X', 16, 0), piece(3, 'X', 20, 0)];
    assert_eq!(find_collision(&map, &map[0], 17, 0), Some(1));
    assert_eq!(find_collision(&map, &map[0], 40, 0), None);
    assert_eq!(find_collision(&map, &map[1], 17, 0), Some(2));
    assert_eq!(find_collision(&map, &map[1], 5, 0), Some(0));
}

#[test]
fn lookup_by_cell_finds_the_tile_and_nothing_off_the_board() {
    let state = level(vec![piece(1, 'G', 16, 32), piece(2, 'X', 23, 32)], 4, 4);
    assert_eq!(state.get_tile_at(1, 2), Some(0));
    assert_eq!(state.get_tile_at(0, 0), None);
    assert_eq!(state.get_tile_at(4, 2), None);
    assert_eq!(state.get_tile_at(1, 4), None);
    assert_eq!(state.get_tile_at(usize::MAX, usize::MAX), None);
}

#[test]
fn a_tile_left_of_the_board_belongs_to_no_cell() {
    let state = level(vec![piece(1, 'G', -5, 0)], 4, 4);
    assert_eq!(state.get_tile_at(0, 0), None);
}

#[test]
fn set_level_puts_the_cursor_left_of_the_centre() {
    let state = level(vec![], 10, 8);
    assert_eq!(state.player.position, (4, 4));
    assert_eq!(state.dimensions, (10, 8));
    let narrow = level(vec![], 1, 1);
    assert_eq!(narrow.player.position, (0, 0));
}

#[test]
fn remove_takes_the_tile_with_the_identifier() {
    let mut state = level(vec![piece(1, 'G', 0, 0), piece(2, 'X', 16, 0)], 4, 4);
    assert!(state.remove(1));
    assert_eq!(state.map.len(), 1);
    assert_eq!(state.map[0].id, 2);
    assert!(!state.remove(1));
    assert_eq!(state.map.len(), 1);
}

#[test]
fn two_adjacent_tiles_of_one_kind_fade_and_leave_after_fifty_ticks() {
    let mut state = level(
        vec![piece(1, 'G', 0, 0), piece(2, 'G', 16, 0), wall(3, 0, 16), wall(4, 16, 16)],
        2,
        2,
    );
    let changes = state.next_map(&state.map);
    assert_eq!(changes, vec![(1, TileChange::FadeOut), (2, TileChange::FadeOut)]);
    let sounds = state.apply_changes(&changes);
    assert_eq!(sounds, vec![Sounds::Collided, Sounds::Collided]);
    assert!(state.fading_out);
    assert_eq!(tile_with_id(&state, 1).fade_step, 1);
    assert_eq!(tile_with_id(&state, 2).fade_step, 1);
    for tick in 2..50u32 {
        let sounds = handle_move_tiles(&mut state);
        assert!(sounds.is_empty());
        assert_eq!(tile_with_id(&state, 1).fade_step, tick);
        assert_eq!(tile_with_id(&state, 2).fade_step, tick);
        assert!(!state.is_complete());
    }
    handle_move_tiles(&mut state);
    assert_eq!(find_tile(&state.map, 1), None);
    assert_eq!(find_tile(&state.map, 2), None);
    assert_eq!(state.map.len(), 2);
    assert!(state.is_complete());
}

#[test]
fn a_fading_tile_is_removed_at_tick_fifty_not_before() {
    let mut state = level(vec![piece(1, 'G', 0, 0), piece(2, 'G', 0, 16), wall(3, 0, 32)], 1, 3);
    for tick in 1..50u32 {
        handle_move_tiles(&mut state);
        assert_eq!(tile_with_id(&state, 1).fade_step, tick);
    }
    assert_eq!(state.map.len(), 3);
    handle_move_tiles(&mut state);
    assert_eq!(state.map.len(), 1);
}

#[test]
fn tiles_in_transit_do_not_match() {
    let state = level(vec![piece(1, 'G', 0, 3), piece(2, 'G', 16, 3)], 2, 2);
    assert_eq!(state.handle_matches(&state.map[0]), None);
    let rest = level(vec![piece(1, 'G', 0, 0), piece(2, 'G', 0, 16)], 2, 2);
    assert_eq!(rest.handle_matches(&rest.map[0]), Some(TileChange::FadeOut));
    let other = level(vec![piece(1, 'G', 0, 0), piece(2, 'X', 16, 0)], 2, 2);
    assert_eq!(other.handle_matches(&other.map[0]), None);
    let diagonal = level(vec![piece(1, 'G', 0, 0), piece(2, 'G', 16, 16)], 2, 2);
    assert_eq!(diagonal.handle_matches(&diagonal.map[0]), None);
}

#[test]
fn a_tile_with_nothing_beneath_falls_and_changes_cell_after_sixteen_pixels() {
    let mut state = level(vec![piece(1, 'G', 0, 0), wall(2, 0, 48)], 1, 4);
    let changes = state.next_map(&state.map);
    assert_eq!(changes, vec![(1, TileChange::VelocityUpdate(Vector::new(0, SPEED)))]);
    state.apply_changes(&changes);
    assert_eq!(state.map[0].velocity, Vector::new(0, 1));
    assert_eq!(state.map[0].position, Vector::new(0, 0));
    for step in 1..16 {
        handle_move_tiles(&mut state);
        assert_eq!(state.map[0].position, Vector::new(0, step));
        assert_eq!(state.get_tile_at(0, 0), Some(0));
        assert_eq!(state.get_tile_at(0, 1), None);
    }
    handle_move_tiles(&mut state);
    assert_eq!(state.map[0].position, Vector::new(0, 16));
    assert!(state.map[0].is_at_rest());
    assert_eq!(state.get_tile_at(0, 1), Some(0));
    assert_eq!(state.get_tile_at(0, 0), None);
}

#[test]
fn a_falling_tile_stops_on_the_floor() {
    let mut state = level(vec![piece(1, 'G', 0, 0), wall(2, 0, 32)], 1, 3);
    for _ in 0..17 {
        handle_move_tiles(&mut state);
    }
    assert_eq!(state.map[0].position, Vector::new(0, 16));
    assert_eq!(state.next_map(&state.map), vec![(1, TileChange::Stop)]);
    handle_move_tiles(&mut state);
    assert_eq!(state.map[0].velocity, Vector::new(0, 0));
    assert_eq!(state.map[0].position, Vector::new(0, 16));
    assert_eq!(state.next_map(&state.map), vec![]);
}

#[test]
fn dragging_into_an_occupied_cell_stops_and_into_a_free_cell_jumps() {
    let mut blocked = level(
        vec![piece(1, 'G', 16, 0), piece(2, 'X', 0, 0), wall(3, 0, 16), wall(4, 16, 16)],
        2,
        2,
    );
    blocked.player.position = (0, 0);
    blocked.map[0].dragging_direction = Some(Direction::Left);
    assert_eq!(blocked.new_handle_dragging(&blocked.map[0]), Some(TileChange::Stop));

    let mut free = level(vec![piece(1, 'G', 16, 0), wall(3, 0, 16), wall(4, 16, 16)], 2, 2);
    free.player.position = (0, 0);
    free.map[0].dragging_direction = Some(Direction::Left);
    assert_eq!(
        free.new_handle_dragging(&free.map[0]),
        Some(TileChange::Jump(Vector::new(0, 0)))
    );
    handle_move_tiles(&mut free);
    assert_eq!(free.map[0].position, Vector::new(0, 0));
    assert_eq!(free.map[0].velocity, Vector::new(0, 0));
    assert_eq!(free.map[0].dragging_direction, None);
}

#[test]
fn only_sideways_drags_of_draggable_tiles_are_resolved() {
    let mut state = level(vec![piece(1, 'G', 16, 0), platform(2, '~', 48, 0, 1, 0)], 4, 1);
    state.player.position = (0, 0);
    state.map[0].dragging_direction = Some(Direction::Down);
    assert_eq!(state.new_handle_dragging(&state.map[0]), None);
    state.map[0].dragging_direction = Some(Direction::Up);
    assert_eq!(state.new_handle_dragging(&state.map[0]), None);
    state.map[0].dragging_direction = None;
    assert_eq!(state.new_handle_dragging(&state.map[0]), None);
    state.map[1].dragging_direction = Some(Direction::Left);
    assert_eq!(state.new_handle_dragging(&state.map[1]), None);
}

#[test]
fn a_platform_bounces_off_a_wall_and_reverses_on_one_axis_only() {
    let mut state = level(vec![platform(1, '~', 0, 0, SPEED, 0), wall(2, 16, 0)], 2, 1);
    let changes = state.next_map(&state.map);
    assert_eq!(changes, vec![(1, TileChange::Bounce)]);
    state.apply_changes(&changes);
    assert_eq!(state.map[0].velocity, Vector::new(-SPEED, 0));
    assert_eq!(state.map[0].position, Vector::new(0, 0));
}

#[test]
fn a_platform_with_a_free_way_moves() {
    let mut state = level(vec![platform(1, '|', 0, 32, 0, -SPEED)], 1, 3);
    assert_eq!(state.next_map(&state.map), vec![(1, TileChange::Move)]);
    handle_move_tiles(&mut state);
    assert_eq!(state.map[0].position, Vector::new(0, 31));
}

#[test]
fn a_chain_against_a_wall_cannot_be_pushed_and_without_the_wall_it_can() {
    let toward_wall = Vector::new(SPEED, 0);
    let with_wall = level(
        vec![piece(1, 'A', 0, 0), piece(2, 'B', 16, 0), piece(3, 'C', 32, 0), wall(4, 48, 0)],
        4,
        1,
    );
    assert!(!with_wall.can_push(&with_wall.map[0], &toward_wall));
    let without_wall = level(
        vec![piece(1, 'A', 0, 0), piece(2, 'B', 16, 0), piece(3, 'C', 32, 0)],
        4,
        1,
    );
    assert!(without_wall.can_push(&without_wall.map[0], &toward_wall));
}

#[test]
fn a_wall_cannot_be_pushed_and_a_circle_of_tiles_does_not_give_way() {
    let state = level(vec![wall(1, 0, 0), piece(2, 'A', 32, 0), piece(3, 'B', 36, 0)], 4, 1);
    assert!(!state.can_push(&state.map[0], &Vector::new(1, 0)));
    assert!(!state.can_push(&state.map[1], &Vector::new(1, 0)));
}

#[test]
fn a_platform_waits_while_what_is_in_its_way_can_be_pushed() {
    let state = level(vec![platform(1, '|', 0, 16, 0, -SPEED), piece(2, 'G', 0, 0)], 1, 2);
    assert_eq!(state.new_handle_collision(&state.map[0]), None);
    let blocked = level(
        vec![platform(1, '|', 0, 32, 0, -SPEED), piece(2, 'G', 0, 16), wall(3, 0, 0)],
        1,
        3,
    );
    assert_eq!(blocked.new_handle_collision(&blocked.map[0]), Some(TileChange::Bounce));
}

#[test]
fn a_rider_moves_with_its_platform_and_turns_when_it_turns() {
    let mut rider = piece(2, 'G', 0, 0);
    rider.riding = true;
    rider.velocity = Vector::new(SPEED, 0);
    let mut state = level(vec![platform(1, '~', 0, 16, SPEED, 0), rider, wall(3, 17, 16)], 3, 2);
    handle_move_tiles(&mut state);
    assert_eq!(state.map[0].position, Vector::new(1, 16));
    assert_eq!(state.map[1].position, Vector::new(1, 0));
    assert!(state.map[1].riding);
    assert_eq!(state.map[1].velocity, state.map[0].velocity);
    let changes = state.next_map(&state.map);
    assert_eq!(
        changes,
        vec![(1, TileChange::Bounce), (2, TileChange::StartRiding(Vector::new(-SPEED, 0)))]
    );
    state.apply_changes(&changes);
    assert!(state.map[1].riding);
    assert_eq!(state.map[0].velocity, Vector::new(-SPEED, 0));
    assert_eq!(state.map[1].velocity, state.map[0].velocity);
    handle_move_tiles(&mut state);
    assert_eq!(state.map[0].position, Vector::new(0, 16));
    assert_eq!(state.map[1].position, Vector::new(0, 0));
    assert_eq!(state.map[1].velocity, state.map[0].velocity);
}

#[test]
fn a_rider_without_a_platform_beneath_falls_off() {
    let mut rider = piece(1, 'G', 0, 0);
    rider.riding = true;
    let mut state = level(vec![rider, wall(2, 0, 48)], 1, 4);
    assert_eq!(state.next_map(&state.map), vec![(1, TileChange::Fall)]);
    handle_move_tiles(&mut state);
    assert!(!state.map[0].riding);
    assert_eq!(state.map[0].velocity, Vector::new(0, SPEED));
}

#[test]
fn a_resting_tile_on_a_platform_starts_riding_with_its_velocity() {
    let mut state = level(vec![piece(1, 'G', 0, 0), platform(2, '~', 0, 16, SPEED, 0)], 3, 2);
    assert_eq!(
        state.next_map(&state.map),
        vec![(1, TileChange::StartRiding(Vector::new(SPEED, 0))), (2, TileChange::Move)]
    );
    handle_move_tiles(&mut state);
    assert!(state.map[0].riding);
    assert_eq!(state.map[0].velocity, state.map[1].velocity);
}

#[test]
fn the_velocity_of_a_platform_after_the_tick_is_reversed_only_if_it_bounces() {
    let state = level(
        vec![platform(1, '~', 0, 0, SPEED, 0), wall(2, 16, 0), platform(3, '~', 0, 32, SPEED, 0)],
        2,
        3,
    );
    assert_eq!(state.platform_velocity(&state.map[0]), Vector::new(-SPEED, 0));
    assert_eq!(state.platform_velocity(&state.map[2]), Vector::new(SPEED, 0));
}

#[test]
fn resolution_of_an_unmodified_snapshot_is_repeatable() {
    let mut dragged = piece(5, 'X', 64, 0);
    dragged.dragging_direction = Some(Direction::Left);
    let mut state = level(
        vec![
            piece(1, 'G', 0, 0),
            piece(2, 'G', 16, 0),
            platform(3, '~', 0, 32, SPEED, 0),
            wall(4, 32, 32),
            dragged,
        ],
        5,
        3,
    );
    state.player.position = (3, 0);
    let first = state.next_map(&state.map);
    let second = state.next_map(&state.map);
    assert_eq!(first, second);
    assert!(!first.is_empty());
}

#[test]
fn a_tick_keeps_tiles_on_different_cells_and_adds_none() {
    let mut state = level(
        vec![
            piece(1, 'G', 0, 0),
            piece(2, 'X', 16, 0),
            piece(3, 'G', 32, 0),
            wall(4, 0, 48),
            wall(5, 16, 48),
            wall(6, 32, 48),
        ],
        3,
        4,
    );
    let mut count = state.map.len();
    for _ in 0..120 {
        handle_move_tiles(&mut state);
        assert!(state.map.len() <= count);
        count = state.map.len();
        for i in 0..state.map.len() {
            for j in (i + 1)..state.map.len() {
                assert_ne!(state.map[i].position, state.map[j].position);
                assert_ne!(state.map[i].id, state.map[j].id);
            }
            assert!(state.map[i].velocity.is_quantized());
        }
    }
    assert_eq!(state.map.len(), 6);
    assert_eq!(tile_with_id(&state, 1).position, Vector::new(0, 32));
}

#[test]
fn only_fading_takes_playable_tiles_off_the_board() {
    let mut state = level(
        vec![piece(1, 'G', 0, 0), piece(2, 'G', 16, 0), piece(3, 'X', 32, 0), wall(4, 0, 16), wall(5, 16, 16), wall(6, 32, 16)],
        3,
        2,
    );
    for _ in 0..49 {
        handle_move_tiles(&mut state);
        assert_eq!(state.map.iter().filter(|t| t.is_playable()).count(), 3);
    }
    handle_move_tiles(&mut state);
    assert_eq!(state.map.iter().filter(|t| t.is_playable()).count(), 1);
    for _ in 0..10 {
        handle_move_tiles(&mut state);
        assert_eq!(state.map.iter().filter(|t| t.is_playable()).count(), 1);
    }
    assert!(!state.is_complete());
}

#[test]
fn while_a_fade_is_under_way_nothing_else_moves() {
    let mut state = level(
        vec![piece(1, 'G', 0, 16), piece(2, 'G', 16, 16), piece(3, 'X', 48, 0), wall(4, 0, 32), wall(5, 16, 32), wall(6, 48, 32)],
        4,
        3,
    );
    handle_move_tiles(&mut state);
    assert!(state.fading_out);
    assert_eq!(tile_with_id(&state, 3).velocity, Vector::new(0, SPEED));
    let changes = state.next_map(&state.map);
    assert_eq!(changes, vec![(1, TileChange::FadeOut), (2, TileChange::FadeOut)]);
    handle_move_tiles(&mut state);
    assert_eq!(tile_with_id(&state, 3).position, Vector::new(48, 0));
}

#[test]
fn a_change_for_a_tile_that_is_not_on_the_board_is_skipped() {
    let mut state = level(vec![piece(1, 'G', 0, 0)], 1, 1);
    let sounds = state.apply_changes(&vec![
        (9, TileChange::FadeOut),
        (9, TileChange::Jump(Vector::new(16, 16))),
    ]);
    assert!(sounds.is_empty());
    assert!(!state.fading_out);
    assert_eq!(state.map.len(), 1);
    assert_eq!(state.map[0].position, Vector::new(0, 0));
    assert_eq!(state.map[0].fade_step, 0);
}

#[test]
fn later_changes_win_for_the_fields_they_set() {
    let mut state = level(vec![piece(1, 'G', 0, 0)], 4, 4);
    state.apply_changes(&vec![
        (1, TileChange::VelocityUpdate(Vector::new(1, 0))),
        (1, TileChange::Move),
        (1, TileChange::Stop),
        (1, TileChange::Move),
        (1, TileChange::VelocityUpdate(Vector::new(0, -1))),
    ]);
    assert_eq!(state.map[0].position, Vector::new(1, 0));
    assert_eq!(state.map[0].velocity, Vector::new(0, -1));
}

#[test]
fn the_change_list_follows_the_order_of_the_given_tiles() {
    let state = level(vec![piece(1, 'G', 0, 0), piece(2, 'X', 32, 0)], 3, 1);
    let reversed = vec![state.map[1], state.map[0]];
    let fall = TileChange::VelocityUpdate(Vector::new(0, SPEED));
    assert_eq!(state.next_map(&reversed), vec![(2, fall), (1, fall)]);
    assert_eq!(state.tile_changes(&state.map[0]), vec![fall]);
    assert_eq!(state.tile_changes(&wall(9, 64, 64)), vec![]);
}

#[test]
fn every_symbol_stands_for_one_kind() {
    assert_eq!(Tile::new(1, 'G', 0, 0).kind(), TileKind::Piece('G'));
    assert_eq!(Tile::new(1, '?', 0, 0).kind(), TileKind::Piece('?'));
    assert_eq!(Tile::new(1, '~', 0, 0).kind(), TileKind::HorizontalPlatform);
    assert_eq!(Tile::new(1, '|', 0, 0).kind(), TileKind::VerticalPlatform);
    assert_eq!(Tile::new(1, ' ', 0, 0).kind(), TileKind::Blank);
    assert_eq!(Tile::new(1, '-', 0, 0).kind(), TileKind::Wall);
}

#[test]
fn a_tile_is_idle_moving_riding_or_fading() {
    let mut t = Tile::new(1, 'G', 0, 0);
    assert_eq!(t.state(), TileState::Idle);
    t.apply(TileChange::VelocityUpdate(Vector::new(0, SPEED)));
    assert_eq!(t.state(), TileState::Moving);
    t.apply(TileChange::StartRiding(Vector::new(SPEED, 0)));
    assert_eq!(t.state(), TileState::Riding);
    t.apply(TileChange::Fall);
    assert_eq!(t.state(), TileState::Moving);
    t.apply(TileChange::Stop);
    assert_eq!(t.state(), TileState::Idle);
    t.apply(TileChange::FadeOut);
    assert_eq!(t.state(), TileState::FadingOut);
    t.apply(TileChange::StartRiding(Vector::new(SPEED, 0)));
    assert_eq!(t.state(), TileState::FadingOut);
    assert_eq!(platform(2, '~', 0, 0, SPEED, 0).state(), TileState::Moving);
}

#[test]
fn tiles_are_listed_in_order_and_changed_in_place() {
    let mut state = level(vec![piece(1, 'G', 16, 0), piece(2, 'X', 32, 16)], 4, 4);
    assert_eq!(state.all_tiles().len(), 2);
    assert_eq!(state.all_tiles()[1].id, 2);
    match state.get_tile_at_mut(2, 1) {
        Some(tile) => tile.fade_step = 7,
        None => panic!("cell (2, 1) holds a tile"),
    }
    assert_eq!(state.map[1].fade_step, 7);
    assert_eq!(state.map[0].fade_step, 0);
    assert!(state.get_tile_at_mut(0, 0).is_none());
    assert!(state.get_tile_at_mut(9, 9).is_none());
}

#[test]
fn a_rider_that_runs_into_another_platform_rides_that_one() {
    let mut rider = piece(2, 'G', 0, 0);
    rider.riding = true;
    rider.velocity = Vector::new(SPEED, 0);
    let state = level(
        vec![platform(1, '~', 0, 16, SPEED, 0), rider, platform(3, '|', 16, 0, 0, SPEED)],
        3,
        4,
    );
    assert_eq!(
        state.new_handle_collision(&state.map[1]),
        Some(TileChange::StartRiding(Vector::new(0, SPEED)))
    );
}

#[test]
fn a_rider_with_a_wall_in_its_way_falls_off() {
    let mut rider = piece(2, 'G', 0, 0);
    rider.riding = true;
    rider.velocity = Vector::new(SPEED, 0);
    let state = level(vec![platform(1, '~', 0, 16, SPEED, 0), rider, wall(3, 16, 0)], 3, 2);
    assert_eq!(state.new_handle_collision(&state.map[1]), Some(TileChange::Fall));
}

#[test]
fn a_dragged_rider_takes_the_velocity_of_its_platform_again() {
    let mut rider = piece(2, 'G', 16, 0);
    rider.riding = true;
    rider.velocity = Vector::new(SPEED, 0);
    rider.dragging_direction = Some(Direction::Left);
    let mut state = level(vec![platform(1, '~', 8, 16, SPEED, 0), rider], 4, 2);
    state.player.position = (0, 0);
    assert_eq!(
        state.tile_changes(&state.map[1]),
        vec![
            TileChange::Jump(Vector::new(0, 0)),
            TileChange::StartRiding(Vector::new(SPEED, 0))
        ]
    );
    handle_move_tiles(&mut state);
    assert!(state.map[1].riding);
    assert_eq!(state.map[1].velocity, state.map[0].velocity);
    assert_eq!(state.map[1].position, Vector::new(0, 0));
}

#[test]
fn a_platform_at_rest_is_never_told_to_move() {
    let alone = level(vec![platform(1, '~', 0, 0, 0, 0)], 2, 2);
    assert_eq!(
        alone.new_handle_collision(&alone.map[0]),
        Some(TileChange::VelocityUpdate(Vector::new(0, SPEED)))
    );
    let on_a_wall = level(vec![platform(1, '~', 0, 0, 0, 0), wall(2, 0, 16)], 2, 2);
    assert_eq!(on_a_wall.new_handle_collision(&on_a_wall.map[0]), None);
    assert_eq!(on_a_wall.next_map(&on_a_wall.map), vec![]);
    let on_a_platform = level(
        vec![platform(1, '~', 0, 0, 0, 0), platform(2, '~', 0, 16, SPEED, 0)],
        3,
        2,
    );
    assert_eq!(
        on_a_platform.new_handle_collision(&on_a_platform.map[0]),
        Some(TileChange::StartRiding(Vector::new(SPEED, 0)))
    );
    let blocked = level(vec![platform(1, '~', 0, 0, 0, 0), wall(2, 4, 0)], 2, 1);
    assert_eq!(blocked.new_handle_collision(&blocked.map[0]), Some(TileChange::Bounce));
}

#[test]
fn a_rider_on_a_platform_at_rest_rests() {
    let mut rider = piece(2, 'G', 0, 0);
    rider.riding = true;
    let mut state = level(vec![platform(1, '~', 0, 16, 0, 0), rider, wall(3, 0, 32)], 1, 3);
    assert_eq!(state.new_handle_collision(&state.map[1]), None);
    assert_eq!(state.next_map(&state.map), vec![]);
    handle_move_tiles(&mut state);
    assert_eq!(state.map[1].position, Vector::new(0, 0));
    assert!(state.map[1].riding);
    assert_eq!(state.map[1].velocity, state.map[0].velocity);
}

#[test]
fn a_pile_of_platforms_at_rest_takes_the_velocity_of_the_one_that_decides() {
    let state = level(
        vec![
            platform(1, '~', 0, 0, 0, 0),
            platform(2, '~', 0, 16, 0, 0),
            platform(3, '~', 0, 32, SPEED, 0),
            wall(4, 16, 32),
        ],
        2,
        3,
    );
    assert_eq!(state.platform_velocity(&state.map[2]), Vector::new(-SPEED, 0));
    assert_eq!(state.platform_velocity(&state.map[1]), Vector::new(-SPEED, 0));
    assert_eq!(state.platform_velocity(&state.map[0]), Vector::new(-SPEED, 0));
    let resting = level(vec![platform(1, '~', 0, 0, 0, 0), platform(2, '~', 0, 16, 0, 0)], 1, 2);
    assert_eq!(resting.platform_velocity(&resting.map[0]), Vector::new(0, SPEED));
    assert_eq!(resting.platform_velocity(&resting.map[1]), Vector::new(0, SPEED));
}

#[test]
fn whatever_moves_on_has_a_velocity_and_a_free_way() {
    let mut rider = piece(5, 'X', 64, 0);
    rider.riding = true;
    let state = level(
        vec![
            piece(1, 'G', 0, 0),
            platform(2, '~', 32, 16, SPEED, 0),
            platform(3, '|', 96, 32, 0, 0),
            wall(4, 0, 16),
            rider,
            platform(6, '~', 64, 16, 0, 0),
            wall(7, 64, 32),
        ],
        8,
        4,
    );
    for tile in &state.map {
        if state.new_handle_collision(tile) == Some(TileChange::Move) {
            assert_ne!(tile.velocity, Vector::new(0, 0));
            let x = tile.position.x as i64 + tile.velocity.x as i64;
            let y = tile.position.y as i64 + tile.velocity.y as i64;
            assert_eq!(state.check_collision(tile, x, y), None);
        }
    }
    assert_eq!(state.new_handle_collision(&state.map[1]), Some(TileChange::Move));
}
