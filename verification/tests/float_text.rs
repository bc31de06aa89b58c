use cam_studio::gcode::{parse_line, GCodeCommand};
use cam_studio::number::is_float_literal;

const SAMPLES: &[&str] = &[
    "", "0", "7", "-7", "+7", "12.5", "-12.5", ".5", "5.", ".", "-.", "+.5", "1e5", "1E5", "1e+5",
    "1e-5", "1e", "1e+", "e5", "E", ".e1", "1.e1", ".1e1", "1.2.3", "1..2", "--1", "+-1", "1-",
    "inf", "INF", "Inf", "-inf", "+inf", "infinity", "INFINITY", "-Infinity", "infinit", "infinityy",
    "nan", "NAN", "-nan", "+NaN", "na", "nana", "in", " 1", "1 ", "1_0", "0x10", "1f", "١", "1e١",
    "00012", "3000.0", "1e400", "1e-400", "+", "-", "ı", "inF", "9.9E9",
];

#[test]
fn float_text_agrees_with_f32_parsing() {
    for s in SAMPLES {
        let chars: Vec<char> = s.chars().collect();
        assert_eq!(is_float_literal(&chars), s.parse::<f32>().is_ok(), "sample {:?}", s);
    }
}

#[test]
fn every_parsed_number_is_an_f32() {
    for s in SAMPLES {
        let line = format!("G1 X{} Y{} F{}", s, s, s);
        if let GCodeCommand::Move { x, y, f, .. } = parse_line(&line) {
            for w in [x, y, f].iter().flatten() {
                assert!(w.parse::<f32>().is_ok(), "word {:?}", w);
            }
        } else {
            panic!("expected a move");
        }
    }
}
