//! A lightweight parser for standard G-code lines.
//!
//! Numbers are kept as the text that was written (upper-cased), once it is
//! known that `f32`'s `FromStr` accepts it; the caller turns them into values.

use vstd::prelude::*;
use crate::number::{is_float_literal, is_float_text};
use crate::text::{
    all_white_space, before_comment, is_white_space, chars_of, has_semicolon, lemma_before_comment_append,
    lemma_words_leading_space, lemma_words_nonempty, lemma_words_trailing_space, lines,
    lines_of_last_line, lines_split_at_newline, strip_cr, lemma_words_push_word, lemma_words_exist,
    lemma_words_blank, split_lines, split_words,
    strip_comment, words,
};

verus! {

/// A parsed G-code command.
#[derive(Debug, Clone, PartialEq)]
pub enum GCodeCommand {
    /// Linear movement command (G0, G1); each axis holds the number written for it.
    Move {
        x: Option<String>,
        y: Option<String>,
        z: Option<String>,
        a: Option<String>,
        c: Option<String>,
        e: Option<String>,
        f: Option<String>,
    },
    /// Set absolute positioning (G90).
    SetAbsolutePositioning,
    /// Set relative positioning (G91).
    SetRelativePositioning,
    /// Any other command or empty line.
    Other,
}

/// The abstract value of a `GCodeCommand`: numbers as character sequences.
pub enum CommandView {
    Move {
        x: Option<Seq<char>>,
        y: Option<Seq<char>>,
        z: Option<Seq<char>>,
        a: Option<Seq<char>>,
        c: Option<Seq<char>>,
        e: Option<Seq<char>>,
        f: Option<Seq<char>>,
    },
    SetAbsolutePositioning,
    SetRelativePositioning,
    Other,
}

pub open spec fn text_view(o: Option<String>) -> Option<Seq<char>> {
    match o {
        Some(s) => Some(s@),
        None => None,
    }
}

impl View for GCodeCommand {
    type V = CommandView;

    open spec fn view(&self) -> CommandView {
        match self {
            GCodeCommand::Move { x, y, z, a, c, e, f } => CommandView::Move {
                x: text_view(*x),
                y: text_view(*y),
                z: text_view(*z),
                a: text_view(*a),
                c: text_view(*c),
                e: text_view(*e),
                f: text_view(*f),
            },
            GCodeCommand::SetAbsolutePositioning => CommandView::SetAbsolutePositioning,
            GCodeCommand::SetRelativePositioning => CommandView::SetRelativePositioning,
            GCodeCommand::Other => CommandView::Other,
        }
    }
}

/// Names what `str::to_uppercase` returns for a string with these characters.
pub uninterp spec fn uppercase(s: Seq<char>) -> Seq<char>;

/// Every character is ASCII.
pub open spec fn is_ascii_text(s: Seq<char>) -> bool {
    forall|i: int| 0 <= i < s.len() ==> (#[trigger] s[i] as u32) < 128
}

/// `c` with an ASCII small letter turned into its capital.
pub open spec fn ascii_upper(c: char) -> char {
    if 97 <= (c as u32) <= 122 {
        ((c as u32) - 32) as char
    } else {
        c
    }
}

pub open spec fn ascii_upper_text(s: Seq<char>) -> Seq<char> {
    s.map_values(|c: char| ascii_upper(c))
}

/// The upper-cased form of a word: the ASCII mapping for ASCII text, and
/// otherwise what `str::to_uppercase` returns once its ASCII letters are
/// capitals (which it returns for the word itself too).
pub open spec fn upper_text(s: Seq<char>) -> Seq<char> {
    if is_ascii_text(s) {
        ascii_upper_text(s)
    } else {
        uppercase(ascii_upper_text(s))
    }
}

/// Calls `str::to_uppercase`. Its result is named `uppercase` of the input.
/// Upper-casing maps each character on its own, and an ASCII small letter
/// to its capital, which maps to itself; so the result is the same when the
/// input's ASCII letters are made capitals first, and for ASCII text it is
/// that text with each small letter made capital, one character for one.
#[verifier::external_body]
fn to_uppercase(s: &str) -> (r: String)
    ensures
        r@ == uppercase(s@),
        r@ == uppercase(ascii_upper_text(s@)),
        is_ascii_text(s@) ==> r@ == ascii_upper_text(s@),
{
    s.to_uppercase()
}

/// Collects characters into a `String` (std's `FromIterator<&char>`), which
/// holds exactly those characters.
#[verifier::external_body]
fn string_from_chars(v: &Vec<char>) -> (r: String)
    ensures
        r@ == v@,
{
    v.iter().collect()
}

pub open spec fn word_views(ws: Seq<Vec<char>>) -> Seq<Seq<char>> {
    ws.map_values(|w: Vec<char>| w@)
}

/// The upper-cased words of a line, its comment left out. (Trimming the
/// line first, as the parser does, changes no word.)
pub open spec fn command_words(line: Seq<char>) -> Seq<Seq<char>> {
    words(before_comment(line)).map_values(|w: Seq<char>| upper_text(w))
}

pub open spec fn is_move_code(w: Seq<char>) -> bool {
    w == seq!['G', '0'] || w == seq!['G', '1']
}

/// The number that an upper-cased argument word gives `axis`, if any: the
/// word starts with the axis letter and the rest is a float.
pub open spec fn word_value(w: Seq<char>, axis: char) -> Option<Seq<char>> {
    if w.len() > 0 && w[0] == axis && is_float_text(w.drop_first()) {
        Some(w.drop_first())
    } else {
        None
    }
}

/// The number given to `axis` by the last word that gives it one.
pub open spec fn last_value(ws: Seq<Seq<char>>, axis: char) -> Option<Seq<char>>
    decreases ws.len(),
{
    if ws.len() == 0 {
        None
    } else {
        match word_value(ws.last(), axis) {
            Some(v) => Some(v),
            None => last_value(ws.drop_last(), axis),
        }
    }
}

/// The command that a line's upper-cased words make.
pub open spec fn command_of_words(ws: Seq<Seq<char>>) -> CommandView {
    if ws.len() == 0 {
        CommandView::Other
    } else if is_move_code(ws[0]) {
        let args = ws.drop_first();
        CommandView::Move {
            x: last_value(args, 'X'),
            y: last_value(args, 'Y'),
            z: last_value(args, 'Z'),
            a: last_value(args, 'A'),
            c: last_value(args, 'C'),
            e: last_value(args, 'E'),
            f: last_value(args, 'F'),
        }
    } else if ws[0] == seq!['G', '9', '0'] {
        CommandView::SetAbsolutePositioning
    } else if ws[0] == seq!['G', '9', '1'] {
        CommandView::SetRelativePositioning
    } else {
        CommandView::Other
    }
}

/// The command that a line gives.
pub open spec fn spec_parse_line(line: Seq<char>) -> CommandView {
    command_of_words(command_words(line))
}

fn chars_eq(a: &Vec<char>, b: &Vec<char>) -> (r: bool)
    ensures
        r == (a@ == b@),
{
    if a.len() != b.len() {
        return false;
    }
    let mut i: usize = 0;
    while i < a.len()
        invariant
            i <= a.len() == b.len(),
            forall|j: int| 0 <= j < i ==> a@[j] == b@[j],
        decreases a.len() - i,
    {
        if a[i] != b[i] {
            return false;
        }
        i = i + 1;
    }
    assert(a@ =~= b@);
    true
}

fn copy_tail(w: &Vec<char>) -> (r: Vec<char>)
    requires
        w.len() > 0,
    ensures
        r@ == w@.drop_first(),
{
    let mut r: Vec<char> = Vec::new();
    let mut i: usize = 1;
    while i < w.len()
        invariant
            1 <= i <= w.len(),
            r@ == w@.subrange(1, i as int),
        decreases w.len() - i,
    {
        r.push(w[i]);
        i = i + 1;
        assert(r@ =~= w@.subrange(1, i as int));
    }
    r
}

fn text_of(o: Option<Vec<char>>) -> (r: Option<String>)
    ensures
        text_view(r) == (match o {
            Some(v) => Some(v@),
            None => None::<Seq<char>>,
        }),
{
    match o {
        Some(v) => Some(string_from_chars(&v)),
        None => None,
    }
}

pub open spec fn opt_view(o: Option<Vec<char>>) -> Option<Seq<char>> {
    match o {
        Some(v) => Some(v@),
        None => None,
    }
}

/// Builds the command that upper-cased words make (the first is the code).
pub fn parse_words(ws: &Vec<Vec<char>>) -> (cmd: GCodeCommand)
    ensures
        cmd@ == command_of_words(word_views(ws@)),
{
    let ghost all = word_views(ws@);
    if ws.len() == 0 {
        return GCodeCommand::Other;
    }
    assert(all[0] == ws@[0]@);
    let g0 = vec!['G', '0'];
    let g1 = vec!['G', '1'];
    let g90 = vec!['G', '9', '0'];
    let g91 = vec!['G', '9', '1'];
    assert(g0@ =~= seq!['G', '0']);
    assert(g1@ =~= seq!['G', '1']);
    assert(g90@ =~= seq!['G', '9', '0']);
    assert(g91@ =~= seq!['G', '9', '1']);
    if chars_eq(&ws[0], &g0) || chars_eq(&ws[0], &g1) {
        let ghost args = all.drop_first();
        let mut x: Option<Vec<char>> = None;
        let mut y: Option<Vec<char>> = None;
        let mut z: Option<Vec<char>> = None;
        let mut a: Option<Vec<char>> = None;
        let mut c: Option<Vec<char>> = None;
        let mut e: Option<Vec<char>> = None;
        let mut f: Option<Vec<char>> = None;
        let mut i: usize = 1;
        while i < ws.len()
            invariant
                1 <= i <= ws.len(),
                all == word_views(ws@),
                args == all.drop_first(),
                is_move_code(all[0]),
                opt_view(x) == last_value(args.take(i - 1), 'X'),
                opt_view(y) == last_value(args.take(i - 1), 'Y'),
                opt_view(z) == last_value(args.take(i - 1), 'Z'),
                opt_view(a) == last_value(args.take(i - 1), 'A'),
                opt_view(c) == last_value(args.take(i - 1), 'C'),
                opt_view(e) == last_value(args.take(i - 1), 'E'),
                opt_view(f) == last_value(args.take(i - 1), 'F'),
            decreases ws.len() - i,
        {
            let w = &ws[i];
            let ghost wv = all[i as int];
            assert(wv == w@);
            let ghost pre = args.take(i - 1);
            let ghost next = args.take(i as int);
            assert(next.drop_last() =~= pre);
            assert(next.last() == wv);
            if w.len() > 0 {
                assert(wv.len() > 0);
                let v = copy_tail(w);
                if is_float_literal(&v) {
                    let axis = w[0];
                    if axis == 'X' {
                        x = Some(v);
                    } else if axis == 'Y' {
                        y = Some(v);
                    } else if axis == 'Z' {
                        z = Some(v);
                    } else if axis == 'A' {
                        a = Some(v);
                    } else if axis == 'C' {
                        c = Some(v);
                    } else if axis == 'E' {
                        e = Some(v);
                    } else if axis == 'F' {
                        f = Some(v);
                    }
                }
            }
            i = i + 1;
        }
        assert(args.take(ws.len() - 1) =~= args);
        GCodeCommand::Move {
            x: text_of(x),
            y: text_of(y),
            z: text_of(z),
            a: text_of(a),
            c: text_of(c),
            e: text_of(e),
            f: text_of(f),
        }
    } else if chars_eq(&ws[0], &g90) {
        GCodeCommand::SetAbsolutePositioning
    } else if chars_eq(&ws[0], &g91) {
        GCodeCommand::SetRelativePositioning
    } else {
        GCodeCommand::Other
    }
}

/// The upper-cased words of a line, its comment left out.
fn upper_words(line: &Vec<char>) -> (r: Vec<Vec<char>>)
    ensures
        word_views(r@) == command_words(line@),
{
    let stripped = strip_comment(line);
    let ws = split_words(&stripped);
    let ghost wv = word_views(ws@);
    assert(wv == words(before_comment(line@)));
    let mut r: Vec<Vec<char>> = Vec::new();
    let mut i: usize = 0;
    while i < ws.len()
        invariant
            i <= ws.len(),
            wv == word_views(ws@),
            word_views(r@) == wv.take(i as int).map_values(|w: Seq<char>| upper_text(w)),
        decreases ws.len() - i,
    {
        let ghost before = word_views(r@);
        let s = string_from_chars(&ws[i]);
        let u = to_uppercase(s.as_str());
        let cs = chars_of(u.as_str());
        r.push(cs);
        assert(word_views(r@) =~= before.push(upper_text(ws@[i as int]@)));
        proof {
            assert(wv[i as int] == ws@[i as int]@);
        }
        i = i + 1;
        assert(word_views(r@) =~= wv.take(i as int).map_values(|w: Seq<char>| upper_text(w)));
    }
    assert(wv.take(ws.len() as int) =~= wv);
    r
}

fn parse_chars(line: &Vec<char>) -> (cmd: GCodeCommand)
    ensures
        cmd@ == spec_parse_line(line@),
{
    let ws = upper_words(line);
    parse_words(&ws)
}

/// Parses a single line of G-code into a `GCodeCommand`.
///
/// Everything after the first `;` is a comment. The first word, upper-cased,
/// is the command: `G0` and `G1` move, `G90` and `G91` set the positioning
/// mode, and anything else (or nothing) is `Other`. Each further word of a
/// move, upper-cased, is an axis letter followed by a number; a word whose
/// number `f32` would not accept, or whose first character is none of the
/// letters `XYZACEF`, is ignored, and a later word for an axis overrides an
/// earlier one.
pub fn parse_line(line: &str) -> (cmd: GCodeCommand)
    ensures
        cmd@ == spec_parse_line(line@),
{
    let cs = chars_of(line);
    parse_chars(&cs)
}

/// The commands of a program: its lines parsed, `Other` left out.
pub open spec fn program_commands(text: Seq<char>) -> Seq<CommandView> {
    lines(text).map_values(|l: Seq<char>| spec_parse_line(l)).filter(|c: CommandView| !(c is Other))
}

pub open spec fn command_views(cs: Seq<GCodeCommand>) -> Seq<CommandView> {
    cs.map_values(|c: GCodeCommand| c@)
}

/// Parses every line of a program and keeps the commands that are not
/// `Other`, in order.
pub fn parse_program(text: &str) -> (r: Vec<GCodeCommand>)
    ensures
        command_views(r@) == program_commands(text@),
{
    let cs = chars_of(text);
    let ls = split_lines(&cs);
    let ghost lv = word_views(ls@);
    assert(lv == lines(text@));
    let ghost parsed = lv.map_values(|l: Seq<char>| spec_parse_line(l));
    let mut out: Vec<GCodeCommand> = Vec::new();
    let mut i: usize = 0;
    while i < ls.len()
        invariant
            i <= ls.len(),
            lv == word_views(ls@),
            lv == lines(text@),
            parsed == lv.map_values(|l: Seq<char>| spec_parse_line(l)),
            command_views(out@) == parsed.take(i as int).filter(|c: CommandView| !(c is Other)),
        decreases ls.len() - i,
    {
        assert(lv[i as int] == ls@[i as int]@);
        let ghost before = command_views(out@);
        let cmd = parse_chars(&ls[i]);
        proof {
            reveal_with_fuel(Seq::<_>::filter, 1);
            assert(parsed.take(i + 1).drop_last() =~= parsed.take(i as int));
            assert(parsed.take(i + 1).last() == cmd@);
        }
        let keep = match cmd {
            GCodeCommand::Other => false,
            _ => true,
        };
        if keep {
            out.push(cmd);
            assert(command_views(out@) =~= before.push(cmd@));
        }
        i = i + 1;
        assert(command_views(out@) =~= parsed.take(i as int).filter(|c: CommandView| !(c is Other)));
    }
    assert(parsed.take(ls.len() as int) =~= parsed);
    out
}

/// Everything from the first `;` on is a comment: appending one to a line
/// that holds no `;` does not change what it parses to.
pub proof fn comment_is_ignored(line: Seq<char>, comment: Seq<char>)
    requires
        forall|i: int| 0 <= i < line.len() ==> line[i] != ';',
    ensures
        spec_parse_line(line + seq![';'] + comment) == spec_parse_line(line),
{
    let full = line + seq![';'] + comment;
    assert(full =~= line + (seq![';'] + comment));
    lemma_before_comment_append(line, seq![';'] + comment);
    lemma_before_comment_append(line, Seq::empty());
    assert((seq![';'] + comment)[0] == ';');
    assert(before_comment(seq![';'] + comment) =~= Seq::<char>::empty());
    assert(line + Seq::<char>::empty() =~= line);
}

/// Whitespace around a line does not change what it parses to.
pub proof fn surrounding_whitespace_is_ignored(lead: Seq<char>, line: Seq<char>, trail: Seq<char>)
    requires
        all_white_space(lead),
        all_white_space(trail),
    ensures
        spec_parse_line(lead + line + trail) == spec_parse_line(line),
{
    let full = lead + line + trail;
    assert(full =~= lead + (line + trail));
    assert(!has_semicolon(lead)) by {
        if has_semicolon(lead) {
            let i = choose|i: int| 0 <= i < lead.len() && lead[i] == ';';
            assert(is_white_space(lead[i]));
        }
    }
    assert(!has_semicolon(trail)) by {
        if has_semicolon(trail) {
            let i = choose|i: int| 0 <= i < trail.len() && trail[i] == ';';
            assert(is_white_space(trail[i]));
        }
    }
    lemma_before_comment_append(lead, line + trail);
    lemma_before_comment_append(line, trail);
    lemma_before_comment_append(trail, Seq::empty());
    lemma_before_comment_append(line, Seq::empty());
    assert(trail + Seq::<char>::empty() =~= trail);
    assert(line + Seq::<char>::empty() =~= line);
    lemma_words_leading_space(lead, before_comment(line + trail));
    if !has_semicolon(line) {
        lemma_words_trailing_space(line, trail);
    }
    assert(words(before_comment(full)) == words(before_comment(line)));
}

proof fn lemma_last_value_is_float(ws: Seq<Seq<char>>, axis: char)
    ensures
        last_value(ws, axis) matches Some(v) ==> is_float_text(v),
    decreases ws.len(),
{
    if ws.len() > 0 {
        lemma_last_value_is_float(ws.drop_last(), axis);
    }
}

pub open spec fn is_float_or_none(o: Option<Seq<char>>) -> bool {
    o matches Some(v) ==> is_float_text(v)
}

/// Every number that a move carries is text that `f32` accepts.
pub proof fn parsed_numbers_are_floats(line: Seq<char>)
    ensures
        spec_parse_line(line) matches CommandView::Move { x, y, z, a, c, e, f } ==> {
            &&& is_float_or_none(x)
            &&& is_float_or_none(y)
            &&& is_float_or_none(z)
            &&& is_float_or_none(a)
            &&& is_float_or_none(c)
            &&& is_float_or_none(e)
            &&& is_float_or_none(f)
        },
{
    let ws = command_words(line);
    if ws.len() > 0 {
        let args = ws.drop_first();
        lemma_last_value_is_float(args, 'X');
        lemma_last_value_is_float(args, 'Y');
        lemma_last_value_is_float(args, 'Z');
        lemma_last_value_is_float(args, 'A');
        lemma_last_value_is_float(args, 'C');
        lemma_last_value_is_float(args, 'E');
        lemma_last_value_is_float(args, 'F');
    }
}

/// A parsed program holds no `Other` command.
pub proof fn program_has_no_other(text: Seq<char>)
    ensures
        forall|i: int|
            0 <= i < program_commands(text).len() ==> !(#[trigger] program_commands(text)[i] is Other),
{
    let parsed = lines(text).map_values(|l: Seq<char>| spec_parse_line(l));
    parsed.filter_lemma(|c: CommandView| !(c is Other));
}

proof fn lemma_ascii_upper_char(c: char)
    ensures
        (c as u32) >= 128 ==> ascii_upper(c) == c,
        (ascii_upper(c) == ';') == (c == ';'),
        is_white_space(ascii_upper(c)) == is_white_space(c),
        (c as u32) < 128 ==> (ascii_upper(c) as u32) < 128,
        ascii_upper(ascii_upper(c)) == ascii_upper(c),
{
}

proof fn lemma_before_comment_upper(s: Seq<char>)
    ensures
        before_comment(ascii_upper_text(s)) == ascii_upper_text(before_comment(s)),
    decreases s.len(),
{
    if s.len() > 0 {
        let t = ascii_upper_text(s);
        assert(t.drop_first() =~= ascii_upper_text(s.drop_first()));
        lemma_before_comment_upper(s.drop_first());
        lemma_ascii_upper_char(s[0]);
        assert(t[0] == ascii_upper(s[0]));
        if s[0] != ';' {
            assert(ascii_upper_text(seq![s[0]] + before_comment(s.drop_first())) =~= seq![t[0]]
                + ascii_upper_text(before_comment(s.drop_first())));
        } else {
            assert(ascii_upper_text(Seq::<char>::empty()) =~= Seq::<char>::empty());
        }
    } else {
        assert(ascii_upper_text(s) =~= s);
    }
}

proof fn lemma_words_upper(s: Seq<char>)
    ensures
        words(ascii_upper_text(s)) == words(s).map_values(|w: Seq<char>| ascii_upper_text(w)),
    decreases s.len(),
{
    let t = ascii_upper_text(s);
    if s.len() == 0 {
        assert(words(s).map_values(|w: Seq<char>| ascii_upper_text(w)) =~= Seq::<Seq<char>>::empty());
    } else {
        assert(t.drop_last() =~= ascii_upper_text(s.drop_last()));
        lemma_words_upper(s.drop_last());
        let init = words(s.drop_last());
        let m = init.map_values(|w: Seq<char>| ascii_upper_text(w));
        lemma_ascii_upper_char(s.last());
        assert(t.last() == ascii_upper(s.last()));
        if s.len() >= 2 {
            lemma_ascii_upper_char(s[s.len() - 2]);
            assert(t[t.len() - 2] == ascii_upper(s[s.len() - 2]));
        }
        if is_white_space(s.last()) {
        } else if s.len() >= 2 && !is_white_space(s[s.len() - 2]) {
            lemma_words_nonempty(s.drop_last());
            assert(ascii_upper_text(init.last().push(s.last())) =~= m.last().push(t.last()));
            assert(init.update(init.len() - 1, init.last().push(s.last())).map_values(
                |w: Seq<char>| ascii_upper_text(w),
            ) =~= m.update(m.len() - 1, m.last().push(t.last())));
        } else {
            assert(ascii_upper_text(seq![s.last()]) =~= seq![t.last()]);
            assert(init.push(seq![s.last()]).map_values(|w: Seq<char>| ascii_upper_text(w)) =~= m.push(
                seq![t.last()],
            ));
        }
    }
}

proof fn lemma_upper_text_idempotent(w: Seq<char>)
    ensures
        upper_text(ascii_upper_text(w)) == upper_text(w),
{
    let u = ascii_upper_text(w);
    assert forall|i: int| 0 <= i < u.len() implies #[trigger] ascii_upper_text(u)[i] == u[i] by {
        lemma_ascii_upper_char(w[i]);
    }
    assert(ascii_upper_text(u) =~= u);
    if is_ascii_text(w) {
        assert forall|i: int| 0 <= i < u.len() implies (#[trigger] u[i] as u32) < 128 by {
            lemma_ascii_upper_char(w[i]);
        }
    } else {
        let k = choose|k: int| 0 <= k < w.len() && !((#[trigger] w[k] as u32) < 128);
        lemma_ascii_upper_char(w[k]);
        assert(!((u[k] as u32) < 128));
    }
}

proof fn lemma_upper_line_parses_alike(line: Seq<char>)
    ensures
        spec_parse_line(ascii_upper_text(line)) == spec_parse_line(line),
{
    let b = before_comment(line);
    lemma_before_comment_upper(line);
    lemma_words_upper(b);
    let ws = words(b);
    let up = ws.map_values(|w: Seq<char>| ascii_upper_text(w));
    assert forall|j: int| 0 <= j < ws.len() implies #[trigger] upper_text(up[j]) == upper_text(
        ws[j],
    ) by {
        lemma_upper_text_idempotent(ws[j]);
    }
    assert(command_words(ascii_upper_text(line)) =~= command_words(line));
}

/// Letter case does not matter: two lines that differ only in the case of
/// ASCII letters (`g1 x5` and `G1 X5`) parse alike.
pub proof fn ascii_case_is_ignored(line: Seq<char>, other: Seq<char>)
    requires
        ascii_upper_text(line) == ascii_upper_text(other),
    ensures
        spec_parse_line(line) == spec_parse_line(other),
{
    lemma_upper_line_parses_alike(line);
    lemma_upper_line_parses_alike(other);
}

/// The command of a line, as a program keeps it: none for `Other`.
pub open spec fn kept(c: CommandView) -> Seq<CommandView> {
    if c is Other {
        Seq::empty()
    } else {
        seq![c]
    }
}

proof fn lemma_strip_cr_parses_alike(l: Seq<char>)
    ensures
        spec_parse_line(strip_cr(l)) == spec_parse_line(l),
{
    if l.len() > 0 && l.last() == '\r' {
        let t = seq!['\r'];
        assert(is_white_space('\r'));
        assert(all_white_space(t));
        assert(all_white_space(Seq::<char>::empty()));
        surrounding_whitespace_is_ignored(Seq::empty(), l.drop_last(), t);
        assert(Seq::<char>::empty() + l.drop_last() + t =~= l);
    }
}

/// A program's commands are those of its first line (unless `Other`),
/// then those of the rest, whatever the first line holds.
pub proof fn program_splits_at_newline(first: Seq<char>, rest: Seq<char>)
    requires
        forall|i: int| 0 <= i < first.len() ==> first[i] != '\n',
    ensures
        program_commands(first + seq!['\n'] + rest) == kept(spec_parse_line(first)) + program_commands(
            rest,
        ),
{
    let pred = |c: CommandView| !(c is Other);
    let f = |l: Seq<char>| spec_parse_line(l);
    lines_split_at_newline(first, rest);
    lemma_strip_cr_parses_alike(first);
    let a = seq![strip_cr(first)];
    let b = lines(rest);
    assert((a + b).map_values(f) =~= a.map_values(f) + b.map_values(f));
    Seq::<CommandView>::filter_distributes_over_add(a.map_values(f), b.map_values(f), pred);
    assert(a.map_values(f) =~= Seq::<CommandView>::empty().push(spec_parse_line(first)));
    Seq::<CommandView>::empty().lemma_filter_push(spec_parse_line(first), pred);
    reveal_with_fuel(Seq::<_>::filter, 1);
    assert(Seq::<CommandView>::empty().filter(pred) =~= Seq::<CommandView>::empty());
    assert(a.map_values(f).filter(pred) =~= kept(spec_parse_line(first)));
}

/// A last line without `\n` gives its command (unless `Other`).
pub proof fn program_of_last_line(last: Seq<char>)
    requires
        forall|i: int| 0 <= i < last.len() ==> last[i] != '\n',
    ensures
        program_commands(last) == (if last.len() == 0 {
            Seq::<CommandView>::empty()
        } else {
            kept(spec_parse_line(last))
        }),
{
    let pred = |c: CommandView| !(c is Other);
    lines_of_last_line(last);
    reveal_with_fuel(Seq::<_>::filter, 1);
    if last.len() == 0 {
        assert(lines(last).map_values(|l: Seq<char>| spec_parse_line(l)) =~= Seq::<CommandView>::empty());
    } else {
        let m = lines(last).map_values(|l: Seq<char>| spec_parse_line(l));
        assert(m =~= Seq::<CommandView>::empty().push(spec_parse_line(last)));
        Seq::<CommandView>::empty().lemma_filter_push(spec_parse_line(last), pred);
        assert(Seq::<CommandView>::empty().filter(pred) =~= Seq::<CommandView>::empty());
    }
}

/// A word: no whitespace and no `;` in it.
pub open spec fn is_plain_word(w: Seq<char>) -> bool {
    &&& w.len() > 0
    &&& forall|i: int| 0 <= i < w.len() ==> !is_white_space(#[trigger] w[i]) && w[i] != ';'
}

pub open spec fn is_axis_letter(c: char) -> bool {
    c == 'X' || c == 'Y' || c == 'Z' || c == 'A' || c == 'C' || c == 'E' || c == 'F'
}

/// A move with the axis of `letter` set to `v`; any other command unchanged.
pub open spec fn with_axis(cmd: CommandView, letter: char, v: Seq<char>) -> CommandView {
    match cmd {
        CommandView::Move { x, y, z, a, c, e, f } => CommandView::Move {
            x: if letter == 'X' { Some(v) } else { x },
            y: if letter == 'Y' { Some(v) } else { y },
            z: if letter == 'Z' { Some(v) } else { z },
            a: if letter == 'A' { Some(v) } else { a },
            c: if letter == 'C' { Some(v) } else { c },
            e: if letter == 'E' { Some(v) } else { e },
            f: if letter == 'F' { Some(v) } else { f },
        },
        other => other,
    }
}

proof fn lemma_append_word(line: Seq<char>, w: Seq<char>)
    requires
        forall|i: int| 0 <= i < line.len() ==> line[i] != ';',
        is_plain_word(w),
    ensures
        command_words(line + seq![' '] + w) == command_words(line).push(upper_text(w)),
{
    let x = line + seq![' '];
    let full = x + w;
    assert(!has_semicolon(full)) by {
        if has_semicolon(full) {
            let i = choose|i: int| 0 <= i < full.len() && full[i] == ';';
            if i < line.len() {
                assert(full[i] == line[i]);
            } else if i > line.len() {
                assert(full[i] == w[i - line.len() - 1]);
            }
        }
    }
    assert(!has_semicolon(line)) by {
        if has_semicolon(line) {
            let i = choose|i: int| 0 <= i < line.len() && line[i] == ';';
        }
    }
    lemma_before_comment_append(full, Seq::empty());
    lemma_before_comment_append(line, Seq::empty());
    assert(full + Seq::<char>::empty() =~= full);
    assert(line + Seq::<char>::empty() =~= line);
    assert(before_comment(Seq::<char>::empty()) =~= Seq::<char>::empty());
    assert(x.last() == ' ');
    assert(is_white_space(' '));
    lemma_words_push_word(x, w);
    assert(all_white_space(seq![' ']));
    lemma_words_trailing_space(line, seq![' ']);
    assert(line + seq![' '] + w =~= full);
    assert(words(line).push(w).map_values(|v: Seq<char>| upper_text(v)) =~= words(line).map_values(
        |v: Seq<char>| upper_text(v),
    ).push(upper_text(w)));
}

/// On a move line, a further word of an axis letter and a number sets that
/// axis to the number (upper-cased), whatever it held; the other axes keep
/// their values.
pub proof fn move_takes_axis_word(line: Seq<char>, w: Seq<char>)
    requires
        forall|i: int| 0 <= i < line.len() ==> line[i] != ';',
        spec_parse_line(line) is Move,
        is_plain_word(w),
        is_ascii_text(w),
        is_axis_letter(ascii_upper_text(w)[0]),
        is_float_text(ascii_upper_text(w).drop_first()),
    ensures
        spec_parse_line(line + seq![' '] + w) == with_axis(
            spec_parse_line(line),
            ascii_upper_text(w)[0],
            ascii_upper_text(w).drop_first(),
        ),
{
    lemma_append_word(line, w);
    let cw = command_words(line);
    let u = upper_text(w);
    assert(u == ascii_upper_text(w));
    assert(cw.push(u)[0] == cw[0]);
    assert(cw.push(u).drop_first() =~= cw.drop_first().push(u));
    assert(cw.drop_first().push(u).drop_last() =~= cw.drop_first());
}

/// On a move line, a further word that does not give an axis a number (its
/// first letter is no axis letter, or the rest is not a float) changes
/// nothing.
pub proof fn move_ignores_other_word(line: Seq<char>, w: Seq<char>)
    requires
        forall|i: int| 0 <= i < line.len() ==> line[i] != ';',
        spec_parse_line(line) is Move,
        is_plain_word(w),
        is_ascii_text(w),
        !(is_axis_letter(ascii_upper_text(w)[0]) && is_float_text(ascii_upper_text(w).drop_first())),
    ensures
        spec_parse_line(line + seq![' '] + w) == spec_parse_line(line),
{
    lemma_append_word(line, w);
    let cw = command_words(line);
    let u = upper_text(w);
    assert(u == ascii_upper_text(w));
    assert(cw.push(u)[0] == cw[0]);
    assert(cw.push(u).drop_first() =~= cw.drop_first().push(u));
    assert(cw.drop_first().push(u).drop_last() =~= cw.drop_first());
}

/// A line whose first word is not a move code ignores any further word.
pub proof fn non_move_ignores_arguments(line: Seq<char>, k: int, w: Seq<char>)
    requires
        forall|i: int| 0 <= i < line.len() ==> line[i] != ';',
        0 <= k < line.len(),
        !is_white_space(line[k]),
        !(spec_parse_line(line) is Move),
        is_plain_word(w),
    ensures
        spec_parse_line(line + seq![' '] + w) == spec_parse_line(line),
{
    lemma_append_word(line, w);
    lemma_before_comment_append(line, Seq::empty());
    assert(line + Seq::<char>::empty() =~= line);
    assert(!has_semicolon(line)) by {
        if has_semicolon(line) {
            let i = choose|i: int| 0 <= i < line.len() && line[i] == ';';
        }
    }
    assert(before_comment(Seq::<char>::empty()) =~= Seq::<char>::empty());
    lemma_words_exist(line, k);
    let cw = command_words(line);
    assert(cw.push(upper_text(w))[0] == cw[0]);
}

/// A line of one ASCII word is its command: `G0`/`G1` a move with no axis
/// set, `G90` absolute and `G91` relative positioning, in either letter
/// case; any other word is `Other`.
pub proof fn single_word_command(w: Seq<char>)
    requires
        is_plain_word(w),
        is_ascii_text(w),
    ensures
        spec_parse_line(w) == ({
            let u = ascii_upper_text(w);
            if u == seq!['G', '0'] || u == seq!['G', '1'] {
                CommandView::Move { x: None, y: None, z: None, a: None, c: None, e: None, f: None }
            } else if u == seq!['G', '9', '0'] {
                CommandView::SetAbsolutePositioning
            } else if u == seq!['G', '9', '1'] {
                CommandView::SetRelativePositioning
            } else {
                CommandView::Other
            }
        }),
{
    assert(!has_semicolon(w)) by {
        if has_semicolon(w) {
            let i = choose|i: int| 0 <= i < w.len() && w[i] == ';';
        }
    }
    lemma_before_comment_append(w, Seq::empty());
    assert(w + Seq::<char>::empty() =~= w);
    assert(before_comment(Seq::<char>::empty()) =~= Seq::<char>::empty());
    lemma_words_push_word(Seq::empty(), w);
    assert(Seq::<char>::empty() + w =~= w);
    assert(words(Seq::<char>::empty()) =~= Seq::<Seq<char>>::empty());
    assert(command_words(w) =~= seq![upper_text(w)]);
    assert(seq![upper_text(w)].drop_first() =~= Seq::<Seq<char>>::empty());
}

/// A line of whitespace is `Other`.
pub proof fn blank_line_is_other(line: Seq<char>)
    requires
        all_white_space(line),
    ensures
        spec_parse_line(line) == CommandView::Other,
{
    assert(!has_semicolon(line)) by {
        if has_semicolon(line) {
            let i = choose|i: int| 0 <= i < line.len() && line[i] == ';';
            assert(is_white_space(line[i]));
        }
    }
    lemma_before_comment_append(line, Seq::empty());
    assert(line + Seq::<char>::empty() =~= line);
    assert(before_comment(Seq::<char>::empty()) =~= Seq::<char>::empty());
    lemma_words_blank(line);
}

} // verus!
