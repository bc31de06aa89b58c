//! The G-code playback sequencer: which command runs next, the positioning
//! mode and the feedrate. Moving toward a target is left to the caller,
//! which reports back once a move has arrived.

use vstd::prelude::*;
use crate::gcode::{GCodeCommand, CommandView, command_views, text_view};

verus! {

/// A stand-in for a future acceleration and motion planner.
#[derive(Debug)]
pub struct MotionPlanner {}

impl Default for MotionPlanner {
    fn default() -> (r: Self)
        ensures
            r == (MotionPlanner {}),
    {
        MotionPlanner {}
    }
}

/// The state of the G-code playback engine.
#[derive(Debug)]
pub struct GCodePlayer {
    pub commands: Vec<GCodeCommand>,
    pub current_index: usize,
    pub is_playing: bool,
    pub is_absolute: bool,
    /// The feedrate in mm/min, as the number that set it was written.
    pub current_feedrate: String,
    pub motion_planner: MotionPlanner,
}

/// What a playback step asks of the caller.
#[derive(Debug)]
pub enum PlaybackAction {
    /// Nothing is played: the player is paused or has reached the end.
    Idle,
    /// A command without motion was consumed.
    Advanced,
    /// Move toward the target these words give, each absolute or relative
    /// to the current position as `absolute` says; report arrival with
    /// `complete_move`.
    Move {
        x: Option<String>,
        y: Option<String>,
        z: Option<String>,
        a: Option<String>,
        c: Option<String>,
        e: Option<String>,
        absolute: bool,
    },
}

/// The abstract value of a `PlaybackAction`.
pub enum ActionView {
    Idle,
    Advanced,
    Move {
        x: Option<Seq<char>>,
        y: Option<Seq<char>>,
        z: Option<Seq<char>>,
        a: Option<Seq<char>>,
        c: Option<Seq<char>>,
        e: Option<Seq<char>>,
        absolute: bool,
    },
}

impl View for PlaybackAction {
    type V = ActionView;

    open spec fn view(&self) -> ActionView {
        match self {
            PlaybackAction::Idle => ActionView::Idle,
            PlaybackAction::Advanced => ActionView::Advanced,
            PlaybackAction::Move { x, y, z, a, c, e, absolute } => ActionView::Move {
                x: text_view(*x),
                y: text_view(*y),
                z: text_view(*z),
                a: text_view(*a),
                c: text_view(*c),
                e: text_view(*e),
                absolute: *absolute,
            },
        }
    }
}

/// The abstract state of a player.
pub struct PlayerView {
    pub commands: Seq<CommandView>,
    pub current_index: int,
    pub is_playing: bool,
    pub is_absolute: bool,
    pub current_feedrate: Seq<char>,
}

impl View for GCodePlayer {
    type V = PlayerView;

    open spec fn view(&self) -> PlayerView {
        PlayerView {
            commands: command_views(self.commands@),
            current_index: self.current_index as int,
            is_playing: self.is_playing,
            is_absolute: self.is_absolute,
            current_feedrate: self.current_feedrate@,
        }
    }
}

/// The state after one playback step from `s`, and what that step asks.
pub open spec fn spec_step(s: PlayerView) -> (PlayerView, ActionView) {
    if !s.is_playing || s.current_index >= s.commands.len() {
        (PlayerView { is_playing: false, ..s }, ActionView::Idle)
    } else {
        match s.commands[s.current_index] {
            CommandView::SetAbsolutePositioning => (
                PlayerView { is_absolute: true, current_index: s.current_index + 1, ..s },
                ActionView::Advanced,
            ),
            CommandView::SetRelativePositioning => (
                PlayerView { is_absolute: false, current_index: s.current_index + 1, ..s },
                ActionView::Advanced,
            ),
            CommandView::Other => (
                PlayerView { current_index: s.current_index + 1, ..s },
                ActionView::Advanced,
            ),
            CommandView::Move { x, y, z, a, c, e, f } => (
                PlayerView {
                    current_feedrate: match f {
                        Some(v) => v,
                        None => s.current_feedrate,
                    },
                    ..s
                },
                ActionView::Move { x, y, z, a, c, e, absolute: s.is_absolute },
            ),
        }
    }
}

fn clone_text(o: &Option<String>) -> (r: Option<String>)
    ensures
        r == *o,
{
    match o {
        Some(s) => Some(s.clone()),
        None => None,
    }
}

impl Default for GCodePlayer {
    /// An empty, paused player in relative mode with a feedrate of zero.
    fn default() -> (p: Self)
        ensures
            p@.commands.len() == 0,
            p.current_index == 0,
            !p.is_playing,
            !p.is_absolute,
            p.current_feedrate@ == seq!['0'],
    {
        let feed = String::from_str("0");
        proof {
            reveal_strlit("0");
        }
        GCodePlayer {
            commands: Vec::new(),
            current_index: 0,
            is_playing: false,
            is_absolute: false,
            current_feedrate: feed,
            motion_planner: MotionPlanner {},
        }
    }
}

impl GCodePlayer {
    /// An empty, paused player in absolute mode at 3000 mm/min (50 mm/s).
    pub fn new() -> (p: Self)
        ensures
            p@.commands.len() == 0,
            p.current_index == 0,
            !p.is_playing,
            p.is_absolute,
            p.current_feedrate@ == seq!['3', '0', '0', '0'],
    {
        let feed = String::from_str("3000");
        proof {
            reveal_strlit("3000");
        }
        GCodePlayer {
            commands: Vec::new(),
            current_index: 0,
            is_playing: false,
            is_absolute: true,
            current_feedrate: feed,
            motion_planner: MotionPlanner {},
        }
    }

    /// Replaces the program and rewinds to its start, paused; the
    /// positioning mode and the feedrate are kept.
    pub fn load(&mut self, commands: Vec<GCodeCommand>)
        ensures
            final(self).commands@ == commands@,
            final(self).current_index == 0,
            !final(self).is_playing,
            final(self).is_absolute == old(self).is_absolute,
            final(self).current_feedrate == old(self).current_feedrate,
    {
        self.commands = commands;
        self.current_index = 0;
        self.is_playing = false;
    }

    /// Rewinds to the start of the program, paused.
    pub fn reset(&mut self)
        ensures
            final(self).commands@ == old(self).commands@,
            final(self).current_index == 0,
            !final(self).is_playing,
            final(self).is_absolute == old(self).is_absolute,
            final(self).current_feedrate == old(self).current_feedrate,
    {
        self.current_index = 0;
        self.is_playing = false;
    }

    /// Plays one step: stops at the end of the program, consumes a command
    /// without motion, or hands a move to the caller (taking its feedrate).
    pub fn step(&mut self) -> (action: PlaybackAction)
        ensures
            (final(self)@, action@) == spec_step(old(self)@),
            final(self).commands@ == old(self).commands@,
    {
        if !self.is_playing || self.current_index >= self.commands.len() {
            self.is_playing = false;
            return PlaybackAction::Idle;
        }
        let i: usize = self.current_index;
        match &self.commands[i] {
            GCodeCommand::SetAbsolutePositioning => {
                self.is_absolute = true;
                self.current_index = i + 1;
                PlaybackAction::Advanced
            },
            GCodeCommand::SetRelativePositioning => {
                self.is_absolute = false;
                self.current_index = i + 1;
                PlaybackAction::Advanced
            },
            GCodeCommand::Other => {
                self.current_index = i + 1;
                PlaybackAction::Advanced
            },
            GCodeCommand::Move { x, y, z, a, c, e, f } => {
                let action = PlaybackAction::Move {
                    x: clone_text(x),
                    y: clone_text(y),
                    z: clone_text(z),
                    a: clone_text(a),
                    c: clone_text(c),
                    e: clone_text(e),
                    absolute: self.is_absolute,
                };
                let feed = clone_text(f);
                match feed {
                    Some(v) => {
                        self.current_feedrate = v;
                    },
                    None => {},
                }
                action
            },
        }
    }

    /// Records that the move at the current command has arrived.
    pub fn complete_move(&mut self)
        requires
            old(self).current_index < old(self).commands.len(),
        ensures
            final(self)@ == (PlayerView { current_index: old(self)@.current_index + 1, ..old(self)@ }),
            final(self).commands@ == old(self).commands@,
    {
        self.current_index = self.current_index + 1;
    }
}

/// A step keeps the program, never moves backwards and never moves past
/// the end of the program.
pub proof fn step_stays_within_program(s: PlayerView)
    requires
        0 <= s.current_index <= s.commands.len(),
    ensures
        spec_step(s).0.commands == s.commands,
        s.current_index <= spec_step(s).0.current_index <= s.commands.len(),
{
}

/// A paused player does nothing.
pub proof fn paused_player_is_idle(s: PlayerView)
    requires
        !s.is_playing,
    ensures
        spec_step(s) == (s, ActionView::Idle),
{
}

/// Playing past the last command stops playback and does nothing else.
pub proof fn playback_stops_at_end(s: PlayerView)
    requires
        s.current_index >= s.commands.len(),
    ensures
        spec_step(s) == (PlayerView { is_playing: false, ..s }, ActionView::Idle),
{
}

/// A move is handed out again until it is completed: the step that hands it
/// out leaves the player at the same command, in the same mode.
pub proof fn move_waits_for_completion(s: PlayerView)
    requires
        s.is_playing,
        0 <= s.current_index < s.commands.len(),
        s.commands[s.current_index] is Move,
    ensures
        spec_step(s).0.current_index == s.current_index,
        spec_step(s).0.is_playing,
        spec_step(s).0.is_absolute == s.is_absolute,
        spec_step(s).1 matches ActionView::Move { absolute, .. } && absolute == s.is_absolute,
        spec_step(spec_step(s).0).1 == spec_step(s).1,
{
}

/// A playing step on a move hands out that move's words, each for its own
/// axis, in the player's mode whichever mode that is, and takes the move's
/// feedrate when it gives one; the player stays at the move.
pub proof fn move_step_hands_out_its_words(
    s: PlayerView,
    x: Option<Seq<char>>,
    y: Option<Seq<char>>,
    z: Option<Seq<char>>,
    a: Option<Seq<char>>,
    c: Option<Seq<char>>,
    e: Option<Seq<char>>,
    f: Option<Seq<char>>,
)
    requires
        s.is_playing,
        0 <= s.current_index < s.commands.len(),
        s.commands[s.current_index] == (CommandView::Move { x, y, z, a, c, e, f }),
    ensures
        spec_step(s).1 == (ActionView::Move { x, y, z, a, c, e, absolute: s.is_absolute }),
        spec_step(s).0.current_feedrate == (match f {
            Some(v) => v,
            None => s.current_feedrate,
        }),
        spec_step(s).0.commands == s.commands,
        spec_step(s).0.current_index == s.current_index,
        spec_step(s).0.is_absolute == s.is_absolute,
        spec_step(s).0.is_playing,
{
}

/// A playing step on a command without motion consumes it: `G90` makes the
/// mode absolute, `G91` relative, anything else keeps it; the feedrate and
/// the program are kept.
pub proof fn non_move_step_advances(s: PlayerView)
    requires
        s.is_playing,
        0 <= s.current_index < s.commands.len(),
        !(s.commands[s.current_index] is Move),
    ensures
        spec_step(s).1 == ActionView::Advanced,
        spec_step(s).0.current_index == s.current_index + 1,
        spec_step(s).0.is_absolute == (if s.commands[s.current_index] is SetAbsolutePositioning {
            true
        } else if s.commands[s.current_index] is SetRelativePositioning {
            false
        } else {
            s.is_absolute
        }),
        spec_step(s).0.current_feedrate == s.current_feedrate,
        spec_step(s).0.commands == s.commands,
        spec_step(s).0.is_playing,
{
}

} // verus!
