use cam_studio::gcode::{parse_line, parse_program, GCodeCommand};

/// The numbers of a move, in the order x, y, z, a, c, e, f.
fn move_values(cmd: &GCodeCommand) -> Option<[Option<f32>; 7]> {
    let num = |o: &Option<String>| o.as_ref().map(|s| s.parse::<f32>().unwrap());
    match cmd {
        GCodeCommand::Move { x, y, z, a, c, e, f } => {
            Some([num(x), num(y), num(z), num(a), num(c), num(e), num(f)])
        }
        _ => None,
    }
}

fn text(s: &str) -> Option<String> {
    Some(s.to_string())
}

#[test]
fn test_parse_move() {
    let cmd = parse_line("G1 X10.5 Y-5.0 Z2.2 E5.0 F3000.0 ; comment here");
    assert_eq!(
        move_values(&cmd),
        Some([Some(10.5), Some(-5.0), Some(2.2), None, None, Some(5.0), Some(3000.0)])
    );
}

#[test]
fn test_parse_g90_g91() {
    assert_eq!(parse_line("G90"), GCodeCommand::SetAbsolutePositioning);
    assert_eq!(parse_line("G91"), GCodeCommand::SetRelativePositioning);
}

#[test]
fn test_parse_other_and_empty() {
    assert_eq!(parse_line("M104 S200"), GCodeCommand::Other);
    assert_eq!(parse_line("; just a comment"), GCodeCommand::Other);
    assert_eq!(parse_line("   "), GCodeCommand::Other);
}

#[test]
fn move_keeps_number_text_upper_cased() {
    assert_eq!(
        parse_line("g0 x1e3 a-2.5 c+.5"),
        GCodeCommand::Move {
            x: text("1E3"),
            y: None,
            z: None,
            a: text("-2.5"),
            c: text("+.5"),
            e: None,
            f: None,
        }
    );
}

#[test]
fn lower_case_command_is_recognised() {
    assert_eq!(parse_line("g90"), GCodeCommand::SetAbsolutePositioning);
    assert_eq!(parse_line("g91 ; relative"), GCodeCommand::SetRelativePositioning);
    assert!(matches!(parse_line("g1 x5"), GCodeCommand::Move { .. }));
}

#[test]
fn leading_zero_code_is_other() {
    assert_eq!(parse_line("G01 X5"), GCodeCommand::Other);
    assert_eq!(parse_line("G900"), GCodeCommand::Other);
}

#[test]
fn later_word_overrides_earlier() {
    let cmd = parse_line("G1 X1 X2 Y3");
    assert_eq!(move_values(&cmd), Some([Some(2.0), Some(3.0), None, None, None, None, None]));
}

#[test]
fn invalid_numbers_and_unknown_axes_are_ignored() {
    let cmd = parse_line("G1 X5 XABC Y. Z1.2.3 B7 Q E");
    assert_eq!(move_values(&cmd), Some([Some(5.0), None, None, None, None, None, None]));
}

#[test]
fn move_without_words_has_no_axes() {
    assert_eq!(move_values(&parse_line("G0")), Some([None; 7]));
}

#[test]
fn special_float_words_are_accepted() {
    let cmd = parse_line("G1 Xinf Y-INFINITY ZNaN E1.e5 F5.");
    match cmd {
        GCodeCommand::Move { x, y, z, e, f, .. } => {
            assert_eq!(x, text("INF"));
            assert_eq!(y, text("-INFINITY"));
            assert_eq!(z, text("NAN"));
            assert_eq!(e, text("1.E5"));
            assert_eq!(f, text("5."));
        }
        other => panic!("expected a move, got {:?}", other),
    }
}

#[test]
fn exponent_needs_digits() {
    let cmd = parse_line("G1 X1e Y2e+ Z3e-2 A+ C-");
    assert_eq!(move_values(&cmd), Some([None, None, Some(0.03), None, None, None, None]));
}

#[test]
fn tabs_and_surrounding_whitespace() {
    assert_eq!(
        parse_line("\t G1\tX1  \u{3000}Y2 \r"),
        GCodeCommand::Move { x: text("1"), y: text("2"), z: None, a: None, c: None, e: None, f: None }
    );
}

#[test]
fn comment_cuts_words() {
    assert_eq!(parse_line("G1 X1;Y2"), parse_line("G1 X1"));
    assert_eq!(parse_line(";G90"), GCodeCommand::Other);
}

#[test]
fn non_ascii_first_letter_is_ignored() {
    assert_eq!(move_values(&parse_line("G1 \u{e9}5")), Some([None; 7]));
    assert_eq!(move_values(&parse_line("g1 \u{e9}5 x2")), Some([Some(2.0), None, None, None, None, None, None]));
    assert_eq!(parse_line("M3 \u{e9}5"), GCodeCommand::Other);
    assert_eq!(
        parse_line("G1 X1 ; \u{e9}5"),
        GCodeCommand::Move { x: text("1"), y: None, z: None, a: None, c: None, e: None, f: None }
    );
}

#[test]
fn case_is_ignored_on_non_ascii_lines() {
    assert_eq!(parse_line("g1 x1 \u{e9}5 b2"), parse_line("G1 X1 \u{c9}5 B2"));
    assert_eq!(parse_line("g1 \u{e9}x"), parse_line("G1 \u{e9}X"));
}

#[test]
fn program_drops_other_lines() {
    let program = "; header\r\nG90\r\nM104 S200\nG1 X1 Y2\n\nG91\nG0 Z3\n";
    let cmds = parse_program(program);
    assert_eq!(cmds.len(), 4);
    assert_eq!(cmds[0], GCodeCommand::SetAbsolutePositioning);
    assert_eq!(move_values(&cmds[1]), Some([Some(1.0), Some(2.0), None, None, None, None, None]));
    assert_eq!(cmds[2], GCodeCommand::SetRelativePositioning);
    assert_eq!(move_values(&cmds[3]), Some([None, None, Some(3.0), None, None, None, None]));
}

#[test]
fn program_without_final_newline_and_empty_program() {
    assert_eq!(parse_program("G90\nG91").len(), 2);
    assert_eq!(parse_program("").len(), 0);
    assert_eq!(parse_program("\n\n").len(), 0);
}

#[test]
fn program_with_non_ascii_argument_is_parsed() {
    let cmds = parse_program("G90\nG1 \u{e9}5\n");
    assert_eq!(cmds.len(), 2);
    assert_eq!(cmds[0], GCodeCommand::SetAbsolutePositioning);
    assert_eq!(move_values(&cmds[1]), Some([None; 7]));
}

#[test]
fn ascii_case_is_ignored_example() {
    assert_eq!(parse_line("g1 x1.5 e2e1 f600"), parse_line("G1 X1.5 E2E1 F600"));
    assert_eq!(parse_line("g91"), parse_line("G91"));
    assert_eq!(parse_line("m104 s200"), GCodeCommand::Other);
}
