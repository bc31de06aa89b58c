use cam_studio::gcode::{parse_program, GCodeCommand};
use cam_studio::player::{GCodePlayer, PlaybackAction};

fn program(text: &str) -> Vec<GCodeCommand> {
    parse_program(text)
}

#[test]
fn new_player_defaults() {
    let p = GCodePlayer::new();
    assert!(p.commands.is_empty());
    assert_eq!(p.current_index, 0);
    assert!(!p.is_playing);
    assert!(p.is_absolute);
    assert_eq!(p.current_feedrate.parse::<f32>().unwrap(), 3000.0);
}

#[test]
fn default_player_is_relative_with_zero_feedrate() {
    let p = GCodePlayer::default();
    assert!(!p.is_absolute);
    assert!(!p.is_playing);
    assert_eq!(p.current_feedrate.parse::<f32>().unwrap(), 0.0);
}

#[test]
fn paused_player_is_idle() {
    let mut p = GCodePlayer::new();
    p.load(program("G91\n"));
    assert!(matches!(p.step(), PlaybackAction::Idle));
    assert_eq!(p.current_index, 0);
    assert!(p.is_absolute);
}

#[test]
fn modes_and_moves_play_in_order() {
    let mut p = GCodePlayer::new();
    p.load(program("G91\nG1 X1 F600\nG90\nG0 Y2\n"));
    p.is_playing = true;
    assert!(matches!(p.step(), PlaybackAction::Advanced));
    assert!(!p.is_absolute);
    assert_eq!(p.current_index, 1);

    match p.step() {
        PlaybackAction::Move { x, y, absolute, .. } => {
            assert_eq!(x.as_deref(), Some("1"));
            assert_eq!(y, None);
            assert!(!absolute);
        }
        other => panic!("expected a move, got {:?}", other),
    }
    assert_eq!(p.current_feedrate, "600");
    assert_eq!(p.current_index, 1);
    // The move is handed out again until it arrives.
    assert!(matches!(p.step(), PlaybackAction::Move { .. }));
    p.complete_move();
    assert_eq!(p.current_index, 2);

    assert!(matches!(p.step(), PlaybackAction::Advanced));
    assert!(p.is_absolute);
    match p.step() {
        PlaybackAction::Move { y, absolute, .. } => {
            assert_eq!(y.as_deref(), Some("2"));
            assert!(absolute);
        }
        other => panic!("expected a move, got {:?}", other),
    }
    assert_eq!(p.current_feedrate, "600");
    p.complete_move();
    assert!(p.is_playing);
    assert!(matches!(p.step(), PlaybackAction::Idle));
    assert!(!p.is_playing);
    assert_eq!(p.current_index, 4);
}

#[test]
fn other_commands_are_skipped() {
    let mut p = GCodePlayer::new();
    p.load(vec![GCodeCommand::Other, GCodeCommand::SetRelativePositioning]);
    p.is_playing = true;
    assert!(matches!(p.step(), PlaybackAction::Advanced));
    assert_eq!(p.current_index, 1);
    assert!(p.is_absolute);
}

#[test]
fn load_rewinds_and_keeps_mode_and_feedrate() {
    let mut p = GCodePlayer::new();
    p.load(program("G91\nG1 F1200\n"));
    p.is_playing = true;
    p.step();
    p.step();
    assert_eq!(p.current_feedrate, "1200");
    p.load(program("G1 X1\n"));
    assert_eq!(p.current_index, 0);
    assert!(!p.is_playing);
    assert!(!p.is_absolute);
    assert_eq!(p.current_feedrate, "1200");
    assert_eq!(p.commands.len(), 1);
}

#[test]
fn reset_rewinds_and_pauses() {
    let mut p = GCodePlayer::new();
    p.load(program("G91\nG90\n"));
    p.is_playing = true;
    p.step();
    p.step();
    p.reset();
    assert_eq!(p.current_index, 0);
    assert!(!p.is_playing);
    assert_eq!(p.commands.len(), 2);
}
