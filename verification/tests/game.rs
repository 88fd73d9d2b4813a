use better_explosions::explosion::{
    create_chance, diagonal_neighbour, explosion_rays, hp_index, line_cell_step, neighbour_step,
    clears_neighbour, ray_cell_step, unloaded_step, walk_start, BlastRules, CellInfo, LineCellAction, NeighbourAction, RayStep,
    UnloadedAction,
};
use better_explosions::line::{LineIter, StepCase};
use better_explosions::lua::{index_table_slot, lua_str, LuaError};
use better_explosions::new_game::{
    delay_new_game, item_pickup_allowed, new_game_pause_update, pause_extra_frame, PauseAction,
    RestartState, PAUSE_FRAME,
};
use better_explosions::search::{get_function, search, Token};
use better_explosions::text::{host_port, parse_text, port_or_default, seed_arg, TextCommand, DEFAULT_PORT};

const RULES: BlastRules = BlastRules { hole_enabled: true, max_durability_to_destroy: 12 };

fn cell(solid: bool, durability: usize, hp: usize) -> Option<CellInfo> {
    Some(CellInfo { solid, durability, hp })
}

#[test]
fn rays_formula() {
    assert_eq!(explosion_rays(0), 0);
    assert_eq!(explosion_rays(8), 8);
    assert_eq!(explosion_rays(16), 8);
    assert_eq!(explosion_rays(17), 16);
    assert_eq!(explosion_rays(64), 32);
    assert_eq!(explosion_rays(100), 56);
    assert_eq!(explosion_rays(256), 128);
}

#[test]
fn ray_cells() {
    assert_eq!(ray_cell_step(10, None, RULES), RayStep::Pass(10));
    assert_eq!(ray_cell_step(10, cell(true, 99, 5), RULES), RayStep::Pass(10));
    assert_eq!(ray_cell_step(10, cell(false, 13, 1), RULES), RayStep::Stop);
    assert_eq!(ray_cell_step(10, cell(false, 12, 4), RULES), RayStep::Pass(6));
    assert_eq!(ray_cell_step(3, cell(false, 1, 4), RULES), RayStep::Stop);
    let no_holes = BlastRules { hole_enabled: false, max_durability_to_destroy: 100 };
    assert_eq!(ray_cell_step(10, cell(false, 0, 0), no_holes), RayStep::Stop);
}

#[test]
fn line_cells() {
    assert_eq!(line_cell_step(10, Some(4), cell(false, 99, 99), RULES), LineCellAction::Recorded(6));
    assert_eq!(line_cell_step(3, Some(4), None, RULES), LineCellAction::Stop);
    assert_eq!(line_cell_step(10, None, None, RULES), LineCellAction::Clear { energy: 10, hp: 0, destroy: false });
    assert_eq!(line_cell_step(10, None, cell(true, 0, 1), RULES), LineCellAction::Skip);
    assert_eq!(line_cell_step(10, None, cell(false, 20, 1), RULES), LineCellAction::Stop);
    assert_eq!(line_cell_step(10, None, cell(false, 2, 7), RULES), LineCellAction::Clear { energy: 3, hp: 7, destroy: true });
    assert_eq!(neighbour_step(true, None, RULES), NeighbourAction::Skip);
    assert_eq!(neighbour_step(false, None, RULES), NeighbourAction::Clear { hp: 0, destroy: false });
    assert_eq!(neighbour_step(false, cell(true, 0, 3), RULES), NeighbourAction::Skip);
    assert_eq!(neighbour_step(false, cell(false, 3, 3), RULES), NeighbourAction::Clear { hp: 3, destroy: true });
}

#[test]
fn unloaded_cells() {
    assert_eq!(unloaded_step(false, 100, 50, 0), UnloadedAction::Defer);
    assert_eq!(unloaded_step(true, 100, 100, 0), UnloadedAction::Skip);
    assert_eq!(unloaded_step(true, 100, 40, 6), UnloadedAction::Pay(30));
    assert_eq!(unloaded_step(true, 100, 5, 2), UnloadedAction::Stop);
}

#[test]
fn neighbours_and_indices() {
    let shallow = LineIter::new(10, 10, 20, 14);
    assert_eq!(diagonal_neighbour(12, 11, &shallow), (11, 11));
    let steep = LineIter::new(10, 10, 6, 0);
    assert_eq!(diagonal_neighbour(9, 8, &steep), (9, 9));
    assert_eq!(hp_index(2, 3, 4), 2 * 512 * 512 + 4 * 512 + 3);
    assert_eq!(create_chance(0, 40), 0);
    assert_eq!(create_chance(3, 40), 40);
}

#[test]
fn restart_countdown() {
    let mut s = RestartState { do_restart: 0, pause_simulate: true };
    assert_eq!(new_game_pause_update(&mut s, true), PauseAction::Idle);
    assert_eq!(delay_new_game(&mut s), PauseAction::Pause);
    assert_eq!(s, RestartState { do_restart: PAUSE_FRAME, pause_simulate: false });
    for _ in 0..PAUSE_FRAME - 1 {
        assert_eq!(new_game_pause_update(&mut s, true), PauseAction::Idle);
    }
    assert_eq!(s.do_restart, 1);
    assert_eq!(new_game_pause_update(&mut s, false), PauseAction::Pause);
    assert_eq!(s.do_restart, PAUSE_FRAME);
    for _ in 0..PAUSE_FRAME - 1 {
        new_game_pause_update(&mut s, false);
    }
    assert_eq!(new_game_pause_update(&mut s, true), PauseAction::NewGame);
    assert_eq!(s.do_restart, 0);
    assert!(pause_extra_frame(true, true));
    assert!(!pause_extra_frame(false, true));
    assert!(item_pickup_allowed(false, 5, 5));
    assert!(!item_pickup_allowed(true, 5, 5));
    assert!(item_pickup_allowed(true, 4, 5));
}

#[test]
fn pattern_search() {
    let hay = [1u8, 2, 0x8b, 0x46, 0x38, 0x33, 9, 0x8b, 0x46, 0x39, 0x33];
    assert_eq!(search(&hay, &[Token::Byte(0x8b), Token::Byte(0x46)]), Some(2));
    assert_eq!(search(&hay, &[Token::Byte(0x46), Token::Byte(0x39)]), Some(8));
    assert_eq!(search(&hay, &[Token::Byte(0x46), Token::Any, Token::Byte(0x33)]), Some(3));
    assert_eq!(search(&hay, &[Token::Byte(0x47)]), None);
    assert_eq!(search(&hay[..1], &[Token::Any, Token::Any]), None);
}

#[test]
fn function_start() {
    let mut mem = vec![0x90u8; 0x40];
    // A `ret` at 0x0f and `push ebp; mov ebp, esp` at 0x10.
    mem[0x0f] = 0xc3;
    mem[0x10] = 0x55;
    mem[0x11] = 0x8b;
    mem[0x12] = 0xec;
    assert_eq!(get_function(&mem, 0x1000, 0x1035), Some(0x1010));
    assert_eq!(get_function(&mem, 0x1000, 0x1015), Some(0x1010));
    assert_eq!(get_function(&mem, 0x1000, 0x100f), None);
    assert_eq!(get_function(&mem, 0x2000, 0x1035), None);
}

#[test]
fn lua_strings() {
    assert_eq!(lua_str(None), Err(LuaError::NullStr));
    assert_eq!(lua_str(Some(b"hello")), Ok("hello"));
    assert_eq!(lua_str(Some(&[0xff, 0x41])), Err(LuaError::NotUft8Str));
    assert_eq!(index_table_slot(-1), -2);
    assert_eq!(index_table_slot(3), 3);
}

#[test]
fn chat_commands() {
    assert_eq!(parse_text("/join 127.0.0.1", false), TextCommand::Join(" 127.0.0.1"));
    assert_eq!(parse_text("/new 42", true), TextCommand::New(" 42"));
    assert_eq!(parse_text("/new 42", false), TextCommand::Ignore);
    assert_eq!(parse_text("/host", true), TextCommand::Host(""));
    assert_eq!(parse_text("/hostétoile", true), TextCommand::Host("étoile"));
    assert_eq!(parse_text("hello /join", false), TextCommand::Say);
    assert_eq!(parse_text("/quit", false), TextCommand::Ignore);
    assert_eq!(parse_text("", false), TextCommand::Say);
}

#[test]
fn line_walk_energy() {
    let mut w = walk_start(100);
    assert_eq!(w.loaded(None, cell(false, 3, 30), RULES), LineCellAction::Clear { energy: 70, hp: 30, destroy: true });
    assert_eq!(w.energy, 70);
    assert_eq!(w.loaded(Some(20), cell(false, 3, 30), RULES), LineCellAction::Recorded(50));
    assert_eq!(w.cells_done, 2);
    // First unloaded cell of chunk (4, 5): keep the rest for later.
    assert_eq!(w.unloaded(4, 5), UnloadedAction::Defer);
    // Later cells of that chunk pay the average so far: (100 - 50) / 3.
    assert_eq!(w.unloaded(4, 5), UnloadedAction::Pay(34));
    assert_eq!(w.energy, 34);
    assert_eq!(w.loaded(None, cell(false, 3, 40), RULES), LineCellAction::Stop);
    assert_eq!(w.energy, 34);
    assert!(clears_neighbour(StepCase::Both, LineCellAction::Recorded(3)));
    assert!(!clears_neighbour(StepCase::Both, LineCellAction::Skip));
    assert!(!clears_neighbour(StepCase::Dx, LineCellAction::Recorded(3)));
}

#[test]
fn command_arguments() {
    assert_eq!(host_port(" 1234 "), 1234);
    assert_eq!(host_port("1234"), 1234);
    assert_eq!(host_port(" port"), DEFAULT_PORT);
    assert_eq!(host_port("70000"), DEFAULT_PORT);
    assert_eq!(port_or_default(Some(9)), 9);
    assert_eq!(port_or_default(None), DEFAULT_PORT);
    assert_eq!(seed_arg(" 42\n"), Some(42));
    assert_eq!(seed_arg(""), None);
    assert_eq!(seed_arg("4x"), None);
    assert_eq!(host_port("+12"), 12);
    assert_eq!(host_port("\u{3000}80\u{85}"), 80);
    assert_eq!(host_port("-1"), DEFAULT_PORT);
    assert_eq!(host_port("1_000"), DEFAULT_PORT);
    assert_eq!(host_port("+"), DEFAULT_PORT);
    assert_eq!(seed_arg("\t007 "), Some(7));
    match parse_text("/host 7777", false) {
        TextCommand::Host(p) => assert_eq!(host_port(p), 7777),
        _ => panic!("not a host command"),
    }
}
