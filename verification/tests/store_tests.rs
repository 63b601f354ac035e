use minesweeper::store::artifact_path;
use minesweeper::store::attachment_size_ok;
use minesweeper::store::extension_for_content_type;
use minesweeper::store::parse_first_line_game_id;
use minesweeper::store::resolve_settings;
use minesweeper::store::GameIdParseError;
use minesweeper::store::MoveApplication;
use minesweeper::store::Session;
use minesweeper::store::SessionStore;
use minesweeper::MinesweeperCellType;
use minesweeper::MinesweeperGrid;
use minesweeper::Outcome;

const H: MinesweeperCellType = MinesweeperCellType::Hidden;
const B: MinesweeperCellType = MinesweeperCellType::Bomb;

fn session_with(cells: Vec<Vec<MinesweeperCellType>>, path: &str) -> Session {
    Session { grid: MinesweeperGrid(cells), artifact_path: path.to_string() }
}

#[test]
fn identifiers_are_monotonic_and_fresh() {
    let mut store = SessionStore::new();
    let a = store.create(session_with(vec![vec![H]], "./tmp/0.wasm"));
    let b = store.create(session_with(vec![vec![H]], "./tmp/1.wasm"));
    assert_eq!(a, 0);
    assert_eq!(b, 1);
    assert!(store.contains(a));
    assert!(store.contains(b));
    assert!(!store.contains(2));
}

#[test]
fn remove_hands_out_the_artifact_path_exactly_once() {
    let mut store = SessionStore::new();
    let id = store.create(session_with(vec![vec![H]], "./tmp/0.wasm"));
    assert_eq!(store.remove(id), Some("./tmp/0.wasm".to_string()));
    // Removing again, or removing something absent, is a silent no-op:
    // no error, and no second path to double-delete.
    assert_eq!(store.remove(id), None);
    assert_eq!(store.remove(77), None);
    assert!(!store.contains(id));
}

#[test]
fn apply_move_reports_missing_sessions() {
    let mut store = SessionStore::new();
    assert!(matches!(store.apply_move(9, 0, 0), MoveApplication::NotFound));
}

#[test]
fn apply_move_keeps_the_session_on_a_rejected_coordinate() {
    let mut store = SessionStore::new();
    let id = store.create(session_with(vec![vec![H, B], vec![H, H]], "./tmp/0.py"));
    match store.apply_move(id, 9, 9) {
        MoveApplication::Rejected(Outcome::Invalid) => {}
        other => panic!("expected an invalid-coordinate rejection, got {:?}", other),
    }
    assert!(store.contains(id));
}

#[test]
fn apply_move_plays_and_only_a_loss_removes_the_session() {
    let mut store = SessionStore::new();
    let id = store.create(session_with(vec![vec![H, B], vec![H, H]], "./tmp/0.py"));
    match store.apply_move(id, 0, 0) {
        MoveApplication::Applied(n) => assert!(n >= 1),
        other => panic!("expected an applied move, got {:?}", other),
    }
    assert!(store.contains(id));
    // A no-op move neither ends nor removes the session.
    match store.apply_move(id, 0, 0) {
        MoveApplication::Rejected(Outcome::NoOp) => {}
        other => panic!("expected a no-op rejection, got {:?}", other),
    }
    assert!(store.contains(id));
    // Hitting the bomb after the first move ends the game and hands
    // the final state back.
    match store.apply_move(id, 0, 1) {
        MoveApplication::Ended(session) => {
            assert_eq!(session.artifact_path, "./tmp/0.py");
            assert_eq!(session.grid.get_cell(0, 1), Some(MinesweeperCellType::Exploded));
        }
        other => panic!("expected the game to end, got {:?}", other),
    }
    assert!(!store.contains(id));
}

#[test]
fn game_id_is_read_from_the_first_line() {
    assert_eq!(parse_first_line_game_id("# Minesweeper 12\n🟫 🟫"), Ok(12));
    assert_eq!(parse_first_line_game_id("# Minesweeper 0"), Ok(0));
    assert_eq!(parse_first_line_game_id(""), Err(GameIdParseError::NoContent));
    assert_eq!(parse_first_line_game_id("short"), Err(GameIdParseError::TooShort));
    assert_eq!(
        parse_first_line_game_id("# Minesweeper "),
        Err(GameIdParseError::NotANumber)
    );
    assert_eq!(
        parse_first_line_game_id("# Minesweeper x1\nrest"),
        Err(GameIdParseError::NotANumber)
    );
    assert_eq!(
        parse_first_line_game_id("# Minesweeper 99999999999999999999999"),
        Err(GameIdParseError::Overflow)
    );
}

#[test]
fn settings_are_clamped_with_defaults() {
    let defaults = resolve_settings(None, None, None);
    assert_eq!((defaults.width, defaults.height, defaults.bomb_per_mille), (8, 8, 200));
    let clamped = resolve_settings(Some(1), Some(1000), Some(950));
    assert_eq!((clamped.width, clamped.height, clamped.bomb_per_mille), (2, 100, 900));
    let kept = resolve_settings(Some(12), Some(5), Some(400));
    assert_eq!((kept.width, kept.height, kept.bomb_per_mille), (12, 5, 400));
}

#[test]
fn content_types_map_to_extensions() {
    assert_eq!(extension_for_content_type("application/wasm"), Some("wasm"));
    assert_eq!(extension_for_content_type("text/x-python"), Some("py"));
    assert_eq!(extension_for_content_type("text/x-python; charset=utf-8"), Some("py"));
    assert_eq!(extension_for_content_type("text/plain"), None);
}

#[test]
fn artifact_paths_name_the_session_and_kind() {
    assert_eq!(artifact_path(12, "wasm"), "./tmp/12.wasm");
    assert_eq!(artifact_path(0, "py"), "./tmp/0.py");
    assert_eq!(artifact_path(105, "py"), "./tmp/105.py");
}

#[test]
fn attachment_size_is_bounded() {
    assert!(attachment_size_ok(0));
    assert!(attachment_size_ok(100_000_000));
    assert!(!attachment_size_ok(100_000_001));
}
