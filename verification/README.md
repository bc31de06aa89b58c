# cam_studio

The verified core of a five-axis 3D-printer studio, written in Verus.

- `src/text.rs` — whitespace, comment stripping, word and line splitting over characters.
- `src/number.rs` — the textual grammar of numbers that `f32` accepts.
- `src/gcode.rs` — the G-code line and program parser, with its laws.
- `src/player.rs` — the playback sequencer (positioning mode, feedrate, command order).
- `src/kinematics.rs` — kinematics types and the model factory.
- `src/cli.rs` — launcher settings.

`app/` holds the program around it: command-line parsing, configuration files,
the floating-point kinematics and engine, and the Bevy visualisation.
