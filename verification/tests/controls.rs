use puzznic::controls::{handle_move_player, Keys};
use puzznic::hud::{count_kind, draw_score, handle_draw_map, handle_draw_player, Sprite, TextureParams};
use puzznic::menu_state::{MenuKeys, MenuState, MENU_ENTRIES};
use puzznic::playing_state::{LevelInfo, PlayingState};
use puzznic::sound::Sounds;
use puzznic::states::{GameState, Screen, StateType};
use puzznic::tile::{Direction, Tile, Vector};

fn board(tiles: Vec<Tile>, width: usize, height: usize) -> PlayingState {
    let mut state = PlayingState::new();
    state.set_level(LevelInfo {
        tiles,
        blanks: vec![],
        width,
        height,
        offset_x: 0,
        offset_y: 0,
        level: 4,
        time: 90,
    });
    state
}

fn no_keys() -> Keys {
    Keys {
        left: false,
        right: false,
        up: false,
        down: false,
        space: false,
        restart: false,
        confirm: false,
        escape: false,
        pause: false,
    }
}

fn no_menu_keys() -> MenuKeys {
    MenuKeys { down: false, up: false, enter: false, escape: false }
}

#[test]
fn a_new_state_is_empty() {
    let state = PlayingState::new();
    assert!(state.map.is_empty());
    assert!(state.blanks.is_empty());
    assert_eq!(state.dimensions, (0, 0));
    assert_eq!(state.player.position, (0, 0));
    assert!(!state.dragging);
    assert!(!state.fading_out);
    assert!(!state.paused);
    assert!(!state.exit_intent);
    assert_eq!(state.dragging_step, 0);
    assert!(state.is_complete());
}

#[test]
fn the_cursor_moves_one_cell_and_stays_on_the_board() {
    let mut state = board(vec![], 3, 2);
    state.player.position = (0, 0);
    assert_eq!(state.move_player(Direction::Left), None);
    assert_eq!(state.player.position, (0, 0));
    state.move_player(Direction::Up);
    assert_eq!(state.player.position, (0, 0));
    state.move_player(Direction::Right);
    assert_eq!(state.player.position, (1, 0));
    state.move_player(Direction::Right);
    state.move_player(Direction::Right);
    assert_eq!(state.player.position, (2, 0));
    state.move_player(Direction::Down);
    state.move_player(Direction::Down);
    assert_eq!(state.player.position, (2, 1));
    state.move_player(Direction::Stay);
    assert_eq!(state.player.position, (2, 1));
    state.move_player(Direction::Left);
    state.move_player(Direction::Up);
    assert_eq!(state.player.position, (1, 0));
}

#[test]
fn the_cursor_does_not_move_on_a_board_without_cells() {
    let mut state = PlayingState::new();
    state.move_player(Direction::Right);
    state.move_player(Direction::Down);
    assert_eq!(state.player.position, (0, 0));
}

#[test]
fn a_cursor_off_the_board_is_brought_back_to_its_edge() {
    let mut state = board(vec![], 3, 3);
    state.player.position = (10, 10);
    state.move_player(Direction::Right);
    assert_eq!(state.player.position, (2, 10));
    state.move_player(Direction::Down);
    assert_eq!(state.player.position, (2, 2));
}

#[test]
fn moving_while_dragging_tells_the_tile_under_the_cursor_to_follow() {
    let mut state = board(vec![Tile::new(1, 'G', 16, 0), Tile::new(2, 'X', 32, 0)], 4, 1);
    state.player.position = (1, 0);
    state.set_dragging(true);
    assert_eq!(state.move_player(Direction::Left), Some(Sounds::MOVE));
    assert_eq!(state.player.position, (0, 0));
    assert_eq!(state.map[0].dragging_direction, Some(Direction::Left));
    assert_eq!(state.map[1].dragging_direction, None);
}

#[test]
fn no_drag_into_an_occupied_cell_nor_of_a_wall_or_platform_nor_without_the_drag_key() {
    let mut occupied = board(vec![Tile::new(1, 'G', 16, 0), Tile::new(2, 'X', 32, 0)], 4, 1);
    occupied.player.position = (1, 0);
    occupied.set_dragging(true);
    occupied.move_player(Direction::Right);
    assert_eq!(occupied.player.position, (2, 0));
    assert_eq!(occupied.map[0].dragging_direction, None);

    let mut wall = board(vec![Tile::new(1, '-', 16, 0)], 4, 1);
    wall.player.position = (1, 0);
    wall.set_dragging(true);
    wall.move_player(Direction::Left);
    assert_eq!(wall.map[0].dragging_direction, None);

    let mut platform = Tile::new(1, '~', 16, 0);
    platform.looping = true;
    let mut carried = board(vec![platform], 4, 1);
    carried.player.position = (1, 0);
    carried.set_dragging(true);
    carried.move_player(Direction::Left);
    assert_eq!(carried.map[0].dragging_direction, None);

    let mut free = board(vec![Tile::new(1, 'G', 16, 0)], 4, 1);
    free.player.position = (1, 0);
    assert_eq!(free.move_player(Direction::Left), None);
    assert_eq!(free.map[0].dragging_direction, None);
}

#[test]
fn no_drag_when_the_cursor_cannot_move() {
    let mut state = board(vec![Tile::new(1, 'G', 0, 0)], 4, 1);
    state.player.position = (0, 0);
    state.set_dragging(true);
    state.move_player(Direction::Left);
    assert_eq!(state.player.position, (0, 0));
    assert_eq!(state.map[0].dragging_direction, None);
}

#[test]
fn releasing_the_drag_key_allows_the_next_sideways_step() {
    let mut state = board(vec![], 4, 1);
    state.dragging_step = 1;
    state.set_dragging(true);
    assert!(state.dragging);
    assert_eq!(state.dragging_step, 1);
    state.set_dragging(false);
    assert!(!state.dragging);
    assert_eq!(state.dragging_step, 0);
}

#[test]
fn one_drag_takes_one_sideways_step() {
    let mut state = board(vec![Tile::new(1, 'G', 32, 0)], 6, 1);
    state.player.position = (2, 0);
    let hold = Keys { space: true, ..no_keys() };
    assert_eq!(handle_move_player(&mut state, &hold), vec![]);
    assert!(state.dragging);
    let left = Keys { left: true, space: true, ..no_keys() };
    assert_eq!(handle_move_player(&mut state, &left), vec![Sounds::MOVE]);
    assert_eq!(state.player.position, (1, 0));
    assert_eq!(state.dragging_step, 1);
    assert_eq!(state.map[0].dragging_direction, Some(Direction::Left));
    assert_eq!(handle_move_player(&mut state, &left), vec![]);
    assert_eq!(state.player.position, (1, 0));
    assert_eq!(handle_move_player(&mut state, &no_keys()), vec![]);
    assert!(!state.dragging);
    assert_eq!(state.dragging_step, 0);
}

#[test]
fn up_is_ignored_while_dragging_and_down_is_not() {
    let mut state = board(vec![], 3, 3);
    state.player.position = (1, 1);
    state.set_dragging(true);
    let up = Keys { up: true, space: true, ..no_keys() };
    handle_move_player(&mut state, &up);
    assert_eq!(state.player.position, (1, 1));
    let down = Keys { down: true, space: true, ..no_keys() };
    assert_eq!(handle_move_player(&mut state, &down), vec![Sounds::MOVE]);
    assert_eq!(state.player.position, (1, 2));
    let free_up = Keys { up: true, ..no_keys() };
    handle_move_player(&mut state, &free_up);
    assert_eq!(state.player.position, (1, 2));
    assert!(!state.dragging);
    handle_move_player(&mut state, &free_up);
    assert_eq!(state.player.position, (1, 1));
}

#[test]
fn left_and_right_in_one_frame_cancel_out_without_the_drag_key() {
    let mut state = board(vec![], 5, 1);
    state.player.position = (2, 0);
    let both = Keys { left: true, right: true, ..no_keys() };
    handle_move_player(&mut state, &both);
    assert_eq!(state.player.position, (2, 0));
}

#[test]
fn a_frame_runs_the_keys_and_then_one_tick() {
    let mut state = board(vec![Tile::new(1, 'G', 0, 0), Tile::new(2, '-', 0, 32)], 2, 3);
    state.player.position = (0, 0);
    let right = Keys { right: true, ..no_keys() };
    let (next, sounds) = state.run(&right);
    assert_eq!(next, None);
    assert!(sounds.is_empty());
    assert_eq!(state.player.position, (1, 0));
    assert_eq!(state.map[0].velocity, Vector::new(0, 1));
}

#[test]
fn no_tick_passes_while_the_drag_key_is_held() {
    let mut state = board(vec![Tile::new(1, 'G', 0, 0), Tile::new(2, '-', 0, 32)], 2, 3);
    let hold = Keys { space: true, ..no_keys() };
    state.run(&hold);
    assert_eq!(state.map[0].velocity, Vector::new(0, 0));
    state.run(&no_keys());
    assert_eq!(state.map[0].velocity, Vector::new(0, 1));
}

#[test]
fn a_drag_is_carried_out_once_the_drag_key_is_released() {
    let mut state = board(
        vec![Tile::new(1, 'G', 16, 0), Tile::new(2, '-', 0, 16), Tile::new(3, '-', 16, 16)],
        2,
        2,
    );
    state.player.position = (1, 0);
    state.run(&Keys { space: true, ..no_keys() });
    let (_, sounds) = state.run(&Keys { left: true, space: true, ..no_keys() });
    assert_eq!(sounds, vec![Sounds::MOVE]);
    assert_eq!(state.map[0].position, Vector::new(16, 0));
    state.run(&no_keys());
    assert_eq!(state.map[0].position, Vector::new(0, 0));
    assert_eq!(state.map[0].dragging_direction, None);
}

#[test]
fn restart_and_confirmed_exit_end_the_level_at_once() {
    let mut state = board(vec![Tile::new(1, 'G', 0, 0)], 2, 2);
    let (next, _) = state.run(&Keys { restart: true, ..no_keys() });
    assert_eq!(next, Some(StateType::Playing(4)));
    assert_eq!(state.map[0].velocity, Vector::new(0, 0));
    let (next, _) = state.run(&Keys { confirm: true, ..no_keys() });
    assert_eq!(next, None);
    let (next, _) = state.run(&Keys { escape: true, ..no_keys() });
    assert_eq!(next, None);
    assert!(state.exit_intent);
    let (next, _) = state.run(&Keys { confirm: true, ..no_keys() });
    assert_eq!(next, Some(StateType::Menu));
}

#[test]
fn escape_and_pause_flip_their_flags_and_halt_the_level() {
    let mut state = board(vec![Tile::new(1, 'G', 0, 0), Tile::new(2, '-', 0, 32)], 2, 3);
    state.run(&Keys { pause: true, right: true, ..no_keys() });
    assert!(state.paused);
    assert_eq!(state.player.position, (0, 1));
    assert_eq!(state.map[0].velocity, Vector::new(0, 0));
    state.run(&Keys { pause: true, ..no_keys() });
    assert!(!state.paused);
    assert_eq!(state.map[0].velocity, Vector::new(0, 1));
    state.run(&Keys { escape: true, ..no_keys() });
    assert!(state.exit_intent);
    state.run(&Keys { escape: true, ..no_keys() });
    assert!(!state.exit_intent);
}

#[test]
fn a_complete_board_leads_to_the_next_level() {
    let mut state = board(vec![Tile::new(1, '-', 0, 0)], 1, 1);
    let (next, _) = state.run(&no_keys());
    assert_eq!(next, Some(StateType::Playing(5)));
    state.level = usize::MAX;
    let (next, _) = state.run(&no_keys());
    assert_eq!(next, Some(StateType::Playing(usize::MAX)));
    state.paused = true;
    let (next, _) = state.run(&no_keys());
    assert_eq!(next, Some(StateType::Playing(usize::MAX)));
}

#[test]
fn the_menu_selection_wraps_around() {
    assert_eq!(MENU_ENTRIES, 3);
    let mut menu = MenuState::new();
    assert_eq!(menu.selection(), 0);
    assert!(menu.is_selected(0));
    assert!(!menu.is_selected(1));
    let down = MenuKeys { down: true, ..no_menu_keys() };
    let up = MenuKeys { up: true, ..no_menu_keys() };
    assert_eq!(menu.run(down), None);
    assert_eq!(menu.selection(), 1);
    menu.run(down);
    assert_eq!(menu.selection(), 2);
    menu.run(down);
    assert_eq!(menu.selection(), 0);
    menu.run(up);
    assert_eq!(menu.selection(), 2);
    menu.run(up);
    assert_eq!(menu.selection(), 1);
    menu.run(MenuKeys { down: true, up: true, ..no_menu_keys() });
    assert_eq!(menu.selection(), 1);
}

#[test]
fn enter_takes_the_selected_entry_and_escape_starts_the_first_level() {
    let enter = MenuKeys { enter: true, ..no_menu_keys() };
    let mut menu = MenuState::new();
    assert_eq!(menu.run(enter), Some(StateType::Playing(1)));
    assert_eq!(
        menu.run(MenuKeys { down: true, enter: true, ..no_menu_keys() }),
        Some(StateType::Help)
    );
    assert_eq!(
        menu.run(MenuKeys { down: true, enter: true, ..no_menu_keys() }),
        Some(StateType::Quit)
    );
    assert_eq!(
        menu.run(MenuKeys { escape: true, ..no_menu_keys() }),
        Some(StateType::Playing(1))
    );
    assert_eq!(menu.run(no_menu_keys()), None);
}

#[test]
fn each_state_asks_for_its_screen() {
    assert_eq!(GameState::new(StateType::Menu).run(), Screen::Menu);
    assert_eq!(GameState::new(StateType::Playing(7)).run(), Screen::Level(7));
    assert_eq!(GameState::new(StateType::Help).run(), Screen::Leave);
    assert_eq!(GameState::new(StateType::ExitConfirm).run(), Screen::Leave);
    assert_eq!(GameState::new(StateType::Quit).run(), Screen::Leave);
    assert!(GameState::new(StateType::Quit).is_over());
    assert!(!GameState::new(StateType::Menu).is_over());
    assert_eq!(GameState::new(StateType::Playing(2)).state, StateType::Playing(2));
}

#[test]
fn every_kind_of_tile_has_its_place_in_the_picture() {
    let state = PlayingState::new();
    let at = |x: u32| {
        Some(TextureParams {
            source_x: x,
            source_y: 0,
            source_width: 16,
            source_height: 16,
            dest_width: 16,
            dest_height: 16,
        })
    };
    assert_eq!(state.get_tile_texture_params('G'), at(0));
    assert_eq!(state.get_tile_texture_params('X'), at(16));
    assert_eq!(state.get_tile_texture_params('E'), at(32));
    assert_eq!(state.get_tile_texture_params('B'), at(48));
    assert_eq!(state.get_tile_texture_params('P'), at(64));
    assert_eq!(state.get_tile_texture_params('C'), at(80));
    assert_eq!(state.get_tile_texture_params('D'), at(96));
    assert_eq!(state.get_tile_texture_params('?'), at(112));
    assert_eq!(state.get_tile_texture_params('~'), at(112));
    assert_eq!(state.get_tile_texture_params('|'), at(112));
    assert_eq!(state.get_tile_texture_params('-'), at(128));
    assert_eq!(state.get_tile_texture_params('z'), None);
    assert_eq!(state.get_tile_texture_params(' '), None);
}

#[test]
fn the_scene_lists_background_and_tiles_that_do_not_blink_out() {
    let mut fading = Tile::new(2, 'G', 16, 0);
    fading.fade_step = 3;
    let mut shown = Tile::new(3, 'X', 32, 16);
    shown.fade_step = 8;
    let mut state = PlayingState::new();
    state.set_level(LevelInfo {
        tiles: vec![Tile::new(1, '-', 0, 0), fading, shown],
        blanks: vec![Tile::new(2, ' ', 16, 0)],
        width: 3,
        height: 2,
        offset_x: 100,
        offset_y: -20,
        level: 1,
        time: 10,
    });
    let scene = handle_draw_map(&state);
    assert_eq!(scene.background, vec![Sprite { c: ' ', x: 116, y: -20 }]);
    assert_eq!(
        scene.sprites,
        vec![Sprite { c: '-', x: 100, y: -20 }, Sprite { c: 'X', x: 132, y: -4 }]
    );
    assert!(!scene.complete);
    state.player.position = (2, 1);
    assert_eq!(handle_draw_player(&state), (132, -4));
}

#[test]
fn the_score_board_counts_the_tiles_left_of_each_kind() {
    let state = board(
        vec![
            Tile::new(1, 'X', 0, 0),
            Tile::new(2, 'G', 16, 0),
            Tile::new(3, 'X', 32, 0),
            Tile::new(4, '-', 48, 0),
            Tile::new(5, 'B', 64, 0),
            Tile::new(6, '~', 80, 0),
        ],
        6,
        1,
    );
    let score = draw_score(&state);
    assert_eq!(score.score, 0);
    assert_eq!(score.level, 4);
    assert_eq!(score.time, 90);
    assert_eq!(score.remaining, vec![('B', 1), ('G', 1), ('X', 2)]);
    assert_eq!(count_kind(&state.map, 'X'), 2);
    assert_eq!(count_kind(&state.map, 'D'), 0);
}

#[test]
fn the_table_of_pictures_is_looked_up_by_the_code_of_the_symbol() {
    let mut state = PlayingState::new();
    assert_eq!(state.tile_info.len(), 11);
    assert_eq!(state.tile_info.get(&('G' as u32)), Some(&0));
    assert_eq!(state.get_tile_texture_params('z'), None);
    state.tile_info.insert('z' as u32, 144);
    assert_eq!(state.get_tile_texture_params('z').map(|p| p.source_x), Some(144));
    state.tile_info.remove(&('G' as u32));
    assert_eq!(state.get_tile_texture_params('G'), None);
}

#[test]
fn the_tally_holds_the_counted_kinds_only() {
    let tiles = vec![
        Tile::new(1, 'X', 0, 0),
        Tile::new(2, '-', 16, 0),
        Tile::new(3, 'X', 32, 0),
        Tile::new(4, '?', 48, 0),
        Tile::new(5, 'B', 64, 0),
    ];
    let tally = puzznic::hud::tally_of(&tiles);
    assert_eq!(tally.len(), 2);
    assert_eq!(tally.get(&('X' as u32)), Some(&('X', 2)));
    assert_eq!(tally.get(&('B' as u32)), Some(&('B', 1)));
    assert!(puzznic::hud::tally_of(&vec![]).is_empty());
}
