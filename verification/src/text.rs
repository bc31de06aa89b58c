//! Character-level text utilities: the whitespace class, comment stripping,
//! word splitting and line splitting, each stated over `Seq<char>`.

use vstd::prelude::*;

verus! {

/// The Unicode `White_Space` property, which `char::is_whitespace` tests.
pub open spec fn is_white_space(c: char) -> bool {
    let n: u32 = c as u32;
    ||| 0x09 <= n <= 0x0D
    ||| n == 0x20
    ||| n == 0x85
    ||| n == 0xA0
    ||| n == 0x1680
    ||| 0x2000 <= n <= 0x200A
    ||| n == 0x2028
    ||| n == 0x2029
    ||| n == 0x202F
    ||| n == 0x205F
    ||| n == 0x3000
}

/// Whether `c` has the Unicode `White_Space` property.
pub fn is_whitespace(c: char) -> (r: bool)
    ensures
        r == is_white_space(c),
{
    let n: u32 = c as u32;
    (0x09 <= n && n <= 0x0D) || n == 0x20 || n == 0x85 || n == 0xA0 || n == 0x1680 || (0x2000 <= n
        && n <= 0x200A) || n == 0x2028 || n == 0x2029 || n == 0x202F || n == 0x205F || n == 0x3000
}

/// The characters of a string, in order.
pub fn chars_of(s: &str) -> (r: Vec<char>)
    ensures
        r@ == s@,
{
    broadcast use vstd::string::group_string_axioms;

    let mut r: Vec<char> = Vec::new();
    for c in it: s.chars()
        invariant
            it.seq() == s@,
            r@ == it.seq().take(it.index()),
    {
        r.push(c);
    }
    r
}


/// The part of a line before its first `;`: the whole line when it holds none.
pub open spec fn before_comment(s: Seq<char>) -> Seq<char>
    decreases s.len(),
{
    if s.len() == 0 {
        s
    } else if s[0] == ';' {
        Seq::empty()
    } else {
        seq![s[0]] + before_comment(s.drop_first())
    }
}

proof fn lemma_before_comment_at(s: Seq<char>, i: int)
    requires
        0 <= i <= s.len(),
        forall|j: int| 0 <= j < i ==> s[j] != ';',
        i == s.len() || s[i] == ';',
    ensures
        before_comment(s) == s.take(i),
    decreases i,
{
    if i > 0 {
        lemma_before_comment_at(s.drop_first(), i - 1);
        assert(s.take(i) =~= seq![s[0]] + s.drop_first().take(i - 1));
    } else if s.len() > 0 {
        assert(s.take(0) =~= Seq::<char>::empty());
    }
}

/// The characters of `s` before its first `;`.
pub fn strip_comment(s: &Vec<char>) -> (r: Vec<char>)
    ensures
        r@ == before_comment(s@),
{
    let mut r: Vec<char> = Vec::new();
    let mut i: usize = 0;
    while i < s.len() && s[i] != ';'
        invariant
            i <= s.len(),
            r@ == s@.take(i as int),
            forall|j: int| 0 <= j < i ==> s@[j] != ';',
        decreases s.len() - i,
    {
        r.push(s[i]);
        i = i + 1;
        assert(r@ =~= s@.take(i as int));
    }
    proof {
        lemma_before_comment_at(s@, i as int);
    }
    r
}

/// The whitespace-separated words of `s`, in order: the maximal runs of
/// characters that are not whitespace.
pub open spec fn words(s: Seq<char>) -> Seq<Seq<char>>
    decreases s.len(),
{
    if s.len() == 0 {
        Seq::empty()
    } else {
        let init = words(s.drop_last());
        let c = s.last();
        if is_white_space(c) {
            init
        } else if s.len() >= 2 && !is_white_space(s[s.len() - 2]) {
            init.update(init.len() - 1, init.last().push(c))
        } else {
            init.push(seq![c])
        }
    }
}

pub proof fn lemma_words_nonempty(s: Seq<char>)
    requires
        s.len() > 0,
        !is_white_space(s.last()),
    ensures
        words(s).len() > 0,
    decreases s.len(),
{
    if s.len() >= 2 && !is_white_space(s[s.len() - 2]) {
        lemma_words_nonempty(s.drop_last());
    }
}

/// Splits `s` into its whitespace-separated words.
pub fn split_words(s: &Vec<char>) -> (r: Vec<Vec<char>>)
    ensures
        r@.map_values(|w: Vec<char>| w@) == words(s@),
{
    let mut r: Vec<Vec<char>> = Vec::new();
    let mut i: usize = 0;
    while i < s.len()
        invariant
            i <= s.len(),
            r@.map_values(|w: Vec<char>| w@) == words(s@.take(i as int)),
        decreases s.len() - i,
    {
        let c = s[i];
        let ghost pre = s@.take(i as int);
        let ghost cur = s@.take(i + 1);
        assert(cur.drop_last() =~= pre);
        if is_whitespace(c) {
        } else if i >= 1 && !is_whitespace(s[i - 1]) {
            proof {
                lemma_words_nonempty(pre);
            }
            let mut w = r.pop().unwrap();
            w.push(c);
            r.push(w);
        } else {
            let mut w: Vec<char> = Vec::new();
            w.push(c);
            r.push(w);
        }
        i = i + 1;
        assert(r@.map_values(|w: Vec<char>| w@) =~= words(cur));
    }
    assert(s@.take(s.len() as int) =~= s@);
    r
}

/// The pieces of `s` between `\n` characters: one more than the number of `\n`.
pub open spec fn newline_pieces(s: Seq<char>) -> Seq<Seq<char>>
    decreases s.len(),
{
    if s.len() == 0 {
        seq![Seq::empty()]
    } else {
        let init = newline_pieces(s.drop_last());
        if s.last() == '\n' {
            init.push(Seq::empty())
        } else {
            init.update(init.len() - 1, init.last().push(s.last()))
        }
    }
}

/// A line without the `\r` of a `\r\n` terminator.
pub open spec fn strip_cr(l: Seq<char>) -> Seq<char> {
    if l.len() > 0 && l.last() == '\r' {
        l.drop_last()
    } else {
        l
    }
}

/// The lines of `s`, as `str::lines` yields them: split at `\n`, a `\r`
/// right before a `\n` dropped, and no empty line after a final `\n`.
pub open spec fn lines(s: Seq<char>) -> Seq<Seq<char>> {
    let p = newline_pieces(s);
    let ended = p.take(p.len() - 1).map_values(|l: Seq<char>| strip_cr(l));
    if p.last().len() == 0 {
        ended
    } else {
        ended.push(p.last())
    }
}

proof fn lemma_newline_pieces_nonempty(s: Seq<char>)
    ensures
        newline_pieces(s).len() > 0,
    decreases s.len(),
{
    if s.len() > 0 {
        lemma_newline_pieces_nonempty(s.drop_last());
    }
}

/// Splits `s` into its lines, as `str::lines` does.
pub fn split_lines(s: &Vec<char>) -> (r: Vec<Vec<char>>)
    ensures
        r@.map_values(|w: Vec<char>| w@) == lines(s@),
{
    let mut done: Vec<Vec<char>> = Vec::new();
    let mut cur: Vec<char> = Vec::new();
    let mut i: usize = 0;
    proof {
        assert(s@.take(0) =~= Seq::<char>::empty());
    }
    while i < s.len()
        invariant
            i <= s.len(),
            newline_pieces(s@.take(i as int)).len() > 0,
            done@.map_values(|w: Vec<char>| w@) == ({
                let p = newline_pieces(s@.take(i as int));
                p.take(p.len() - 1).map_values(|l: Seq<char>| strip_cr(l))
            }),
            cur@ == newline_pieces(s@.take(i as int)).last(),
        decreases s.len() - i,
    {
        let c = s[i];
        let ghost pre = s@.take(i as int);
        let ghost next = s@.take(i + 1);
        assert(next.drop_last() =~= pre);
        proof {
            lemma_newline_pieces_nonempty(next);
        }
        let ghost old_done = done@.map_values(|w: Vec<char>| w@);
        let ghost old_cur = cur@;
        if c == '\n' {
            let n: usize = cur.len();
            if n > 0 && cur[n - 1] == '\r' {
                cur.pop();
            }
            assert(cur@ == strip_cr(old_cur));
            done.push(cur);
            cur = Vec::new();
            proof {
                let p = newline_pieces(pre);
                let q = newline_pieces(next);
                assert(q.take(q.len() - 1) =~= p);
                assert(done@.map_values(|w: Vec<char>| w@) =~= old_done.push(strip_cr(old_cur)));
                assert(p.map_values(|l: Seq<char>| strip_cr(l)) =~= p.take(p.len() - 1).map_values(
                    |l: Seq<char>| strip_cr(l),
                ).push(strip_cr(p.last())));
            }
        } else {
            cur.push(c);
            proof {
                let p = newline_pieces(pre);
                let q = newline_pieces(next);
                assert(q.take(q.len() - 1) =~= p.take(p.len() - 1));
                assert(done@.map_values(|w: Vec<char>| w@) == old_done);
            }
        }
        i = i + 1;
        assert(done@.map_values(|w: Vec<char>| w@) =~= ({
            let p = newline_pieces(next);
            p.take(p.len() - 1).map_values(|l: Seq<char>| strip_cr(l))
        }));
    }
    assert(s@.take(s.len() as int) =~= s@);
    if cur.len() > 0 {
        done.push(cur);
    }
    assert(done@.map_values(|w: Vec<char>| w@) =~= lines(s@));
    done
}

pub open spec fn has_semicolon(s: Seq<char>) -> bool {
    exists|i: int| 0 <= i < s.len() && s[i] == ';'
}

pub open spec fn all_white_space(s: Seq<char>) -> bool {
    forall|i: int| 0 <= i < s.len() ==> is_white_space(#[trigger] s[i])
}

/// Cutting a comment off `s + t` cuts within `s` when `s` holds a `;`,
/// and keeps all of `s` otherwise.
pub proof fn lemma_before_comment_append(s: Seq<char>, t: Seq<char>)
    ensures
        before_comment(s + t) == (if has_semicolon(s) {
            before_comment(s)
        } else {
            s + before_comment(t)
        }),
    decreases s.len(),
{
    if s.len() == 0 {
        assert(s + t =~= t);
        assert(s + before_comment(t) =~= before_comment(t));
    } else {
        let u = s + t;
        assert(u[0] == s[0]);
        if s[0] == ';' {
            assert(has_semicolon(s));
        } else {
            assert(u.drop_first() =~= s.drop_first() + t);
            lemma_before_comment_append(s.drop_first(), t);
            if has_semicolon(s) {
                let i = choose|i: int| 0 <= i < s.len() && s[i] == ';';
                assert(s.drop_first()[i - 1] == ';');
            } else {
                assert forall|i: int| 0 <= i < s.drop_first().len() implies s.drop_first()[i] != ';' by {
                    assert(s.drop_first()[i] == s[i + 1]);
                }
                assert(seq![s[0]] + (s.drop_first() + before_comment(t)) =~= s + before_comment(t));
            }
            if has_semicolon(s.drop_first()) {
                let i = choose|i: int|
                    0 <= i < s.drop_first().len() && s.drop_first()[i] == ';';
                assert(s[i + 1] == ';');
            }
        }
    }
}

/// Whitespace after the text adds no word.
pub proof fn lemma_words_trailing_space(s: Seq<char>, w: Seq<char>)
    requires
        all_white_space(w),
    ensures
        words(s + w) == words(s),
    decreases w.len(),
{
    if w.len() == 0 {
        assert(s + w =~= s);
    } else {
        let v = s + w;
        assert(v.drop_last() =~= s + w.drop_last());
        assert(v.last() == w.last());
        assert(is_white_space(w[w.len() - 1]));
        lemma_words_trailing_space(s, w.drop_last());
    }
}

/// Whitespace before the text adds no word.
pub proof fn lemma_words_leading_space(w: Seq<char>, s: Seq<char>)
    requires
        all_white_space(w),
    ensures
        words(w + s) == words(s),
    decreases s.len(),
{
    if s.len() == 0 {
        lemma_words_trailing_space(Seq::empty(), w);
        assert(Seq::<char>::empty() + w =~= w);
        assert(w + s =~= w);
    } else {
        let v = w + s;
        let s0 = s.drop_last();
        assert(v.drop_last() =~= w + s0);
        assert(v.last() == s.last());
        lemma_words_leading_space(w, s0);
        if s.len() >= 2 {
            assert(v[v.len() - 2] == s[s.len() - 2]);
        } else if w.len() > 0 {
            assert(v[v.len() - 2] == w[w.len() - 1]);
            assert(is_white_space(w[w.len() - 1]));
        }
    }
}

proof fn lemma_newline_pieces_plain(a: Seq<char>)
    requires
        forall|i: int| 0 <= i < a.len() ==> a[i] != '\n',
    ensures
        newline_pieces(a) =~= seq![a],
    decreases a.len(),
{
    if a.len() > 0 {
        assert forall|i: int| 0 <= i < a.drop_last().len() implies a.drop_last()[i] != '\n' by {
            assert(a.drop_last()[i] == a[i]);
        }
        lemma_newline_pieces_plain(a.drop_last());
        assert(a[a.len() - 1] != '\n');
        let init = newline_pieces(a.drop_last());
        assert(init[0] == a.drop_last());
        assert(a.drop_last().push(a.last()) =~= a);
        assert(init.update(0, a) =~= seq![a]);
    } else {
        assert(a =~= Seq::<char>::empty());
    }
}

proof fn lemma_newline_pieces_after_newline(p: Seq<char>, q: Seq<char>)
    requires
        p.len() > 0,
        p.last() == '\n',
    ensures
        newline_pieces(p + q) =~= newline_pieces(p).drop_last() + newline_pieces(q),
    decreases q.len(),
{
    lemma_newline_pieces_nonempty(p);
    if q.len() == 0 {
        assert(p + q =~= p);
        assert(p.drop_last().push(p.last()) =~= p);
        assert(newline_pieces(p).last() =~= Seq::<char>::empty());
    } else {
        let q0 = q.drop_last();
        assert((p + q).drop_last() =~= p + q0);
        assert((p + q).last() == q.last());
        lemma_newline_pieces_after_newline(p, q0);
        lemma_newline_pieces_nonempty(q0);
    }
}

/// The lines of a text are its first line (without the `\r` of a `\r\n`)
/// followed by the lines of the rest: whatever characters a line holds, it
/// is kept.
pub proof fn lines_split_at_newline(first: Seq<char>, rest: Seq<char>)
    requires
        forall|i: int| 0 <= i < first.len() ==> first[i] != '\n',
    ensures
        lines(first + seq!['\n'] + rest) == seq![
            if first.len() > 0 && first[first.len() - 1] == '\r' {
                first.take(first.len() - 1)
            } else {
                first
            },
        ] + lines(rest),
{
    let p = first + seq!['\n'];
    assert(p.drop_last() =~= first);
    lemma_newline_pieces_plain(first);
    lemma_newline_pieces_after_newline(p, rest);
    lemma_newline_pieces_nonempty(rest);
    assert(newline_pieces(p).drop_last() =~= seq![first]);
    assert(first + seq!['\n'] + rest =~= p + rest);
    let r = newline_pieces(rest);
    let full = seq![first] + r;
    assert(full.take(full.len() - 1) =~= seq![first] + r.take(r.len() - 1));
    assert(full.take(full.len() - 1).map_values(|l: Seq<char>| strip_cr(l)) =~= seq![strip_cr(first)]
        + r.take(r.len() - 1).map_values(|l: Seq<char>| strip_cr(l)));
    assert(full.last() == r.last());
    if r.last().len() != 0 {
        assert((seq![strip_cr(first)] + r.take(r.len() - 1).map_values(|l: Seq<char>| strip_cr(l))).push(
            r.last(),
        ) =~= seq![strip_cr(first)] + r.take(r.len() - 1).map_values(|l: Seq<char>| strip_cr(l)).push(
            r.last(),
        ));
    }
}

/// A text without `\n` is one line, unless it is empty, which has none.
pub proof fn lines_of_last_line(last: Seq<char>)
    requires
        forall|i: int| 0 <= i < last.len() ==> last[i] != '\n',
    ensures
        lines(last) == (if last.len() == 0 {
            Seq::<Seq<char>>::empty()
        } else {
            seq![last]
        }),
{
    lemma_newline_pieces_plain(last);
    assert(newline_pieces(last).take(0) =~= Seq::<Seq<char>>::empty());
    assert(Seq::<Seq<char>>::empty().map_values(|l: Seq<char>| strip_cr(l)) =~= Seq::<Seq<char>>::empty());
}

/// A word after whitespace (or at the start) is one more word.
pub proof fn lemma_words_push_word(x: Seq<char>, w: Seq<char>)
    requires
        x.len() == 0 || is_white_space(x.last()),
        w.len() > 0,
        forall|i: int| 0 <= i < w.len() ==> !is_white_space(#[trigger] w[i]),
    ensures
        words(x + w) == words(x).push(w),
    decreases w.len(),
{
    let v = x + w;
    assert(v.drop_last() =~= x + w.drop_last());
    assert(v.last() == w.last());
    assert(!is_white_space(w[w.len() - 1]));
    if w.len() == 1 {
        assert(x + w.drop_last() =~= x);
        if x.len() > 0 {
            assert(v[v.len() - 2] == x.last());
        }
        assert(seq![w.last()] =~= w);
    } else {
        let w0 = w.drop_last();
        assert forall|i: int| 0 <= i < w0.len() implies !is_white_space(#[trigger] w0[i]) by {
            assert(w0[i] == w[i]);
        }
        lemma_words_push_word(x, w0);
        assert(v[v.len() - 2] == w[w.len() - 2]);
        assert(!is_white_space(w[w.len() - 2]));
        let init = words(x).push(w0);
        assert(w0.push(w.last()) =~= w);
        assert(init.update(init.len() - 1, w) =~= words(x).push(w));
    }
}

/// A text with a character that is not whitespace has a word.
pub proof fn lemma_words_exist(s: Seq<char>, k: int)
    requires
        0 <= k < s.len(),
        !is_white_space(s[k]),
    ensures
        words(s).len() > 0,
    decreases s.len(),
{
    if is_white_space(s.last()) {
        assert(k < s.len() - 1);
        assert(s.drop_last()[k] == s[k]);
        lemma_words_exist(s.drop_last(), k);
    } else {
        lemma_words_nonempty(s);
    }
}

/// A text of whitespace has no word.
pub proof fn lemma_words_blank(s: Seq<char>)
    requires
        all_white_space(s),
    ensures
        words(s).len() == 0,
{
    lemma_words_trailing_space(Seq::empty(), s);
    assert(Seq::<char>::empty() + s =~= s);
}

} // verus!
