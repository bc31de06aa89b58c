//! The textual form of a floating-point number that `f32`'s `FromStr`
//! accepts, following the grammar that std documents for it:
//!
//! ```text
//! Float  ::= Sign? ( 'inf' | 'infinity' | 'nan' | Number )
//! Number ::= ( Digit+ | Digit+ '.' Digit* | Digit* '.' Digit+ ) Exp?
//! Exp    ::= 'e' Sign? Digit+
//! Sign   ::= [+-]
//! Digit  ::= [0-9]
//! ```
//!
//! Letters match in either case.

use vstd::prelude::*;

verus! {

pub open spec fn is_digit(c: char) -> bool {
    '0' <= c <= '9'
}

pub open spec fn is_sign(c: char) -> bool {
    c == '+' || c == '-'
}

pub open spec fn all_digits(s: Seq<char>) -> bool {
    forall|i: int| 0 <= i < s.len() ==> is_digit(#[trigger] s[i])
}

/// The code of `c` with an ASCII capital letter turned into its small letter.
pub open spec fn lower_code(c: char) -> u32 {
    if 65 <= (c as u32) <= 90 {
        ((c as u32) + 32) as u32
    } else {
        c as u32
    }
}

/// `s` equals the small-letter word `word`, letters compared in either case.
pub open spec fn eq_ignore_case(s: Seq<char>, word: Seq<char>) -> bool {
    s.len() == word.len() && forall|i: int| 0 <= i < s.len() ==> lower_code(#[trigger] s[i]) == word[i] as u32
}

/// `Digit+ | Digit+ '.' Digit* | Digit* '.' Digit+`
pub open spec fn is_mantissa(m: Seq<char>) -> bool {
    ||| m.len() > 0 && all_digits(m)
    ||| exists|k: int|
        0 <= k < m.len() && #[trigger] m[k] == '.' && all_digits(m.take(k)) && all_digits(
            m.skip(k + 1),
        ) && m.len() >= 2
}

/// `Exp ::= 'e' Sign? Digit+`
pub open spec fn is_exponent(e: Seq<char>) -> bool {
    &&& e.len() >= 2
    &&& lower_code(e[0]) == 'e' as u32
    &&& {
        let r = e.skip(1);
        ||| all_digits(r)
        ||| r.len() >= 2 && is_sign(r[0]) && all_digits(r.skip(1))
    }
}

/// `Number ::= Mantissa Exp?`
pub open spec fn is_number(s: Seq<char>) -> bool {
    ||| is_mantissa(s)
    ||| exists|k: int| 0 < k < s.len() && is_mantissa(s.take(k)) && #[trigger] is_exponent(s.skip(k))
}

/// `Float ::= Sign? ( 'inf' | 'infinity' | 'nan' | Number )`
pub open spec fn is_float_text(s: Seq<char>) -> bool {
    let body = if s.len() > 0 && is_sign(s[0]) {
        s.skip(1)
    } else {
        s
    };
    ||| eq_ignore_case(body, seq!['i', 'n', 'f'])
    ||| eq_ignore_case(body, seq!['i', 'n', 'f', 'i', 'n', 'i', 't', 'y'])
    ||| eq_ignore_case(body, seq!['n', 'a', 'n'])
    ||| is_number(body)
}

fn is_digit_char(c: char) -> (r: bool)
    ensures
        r == is_digit(c),
{
    '0' <= c && c <= '9'
}

fn is_sign_char(c: char) -> (r: bool)
    ensures
        r == is_sign(c),
{
    c == '+' || c == '-'
}

/// Whether `c` is the small letter `w` in either case.
fn letter_matches(c: char, w: char) -> (r: bool)
    requires
        97 <= (w as u32) <= 122,
    ensures
        r == (lower_code(c) == w as u32),
{
    c == w || (c as u32) + 32 == (w as u32)
}

fn copy_range(s: &Vec<char>, lo: usize, hi: usize) -> (r: Vec<char>)
    requires
        lo <= hi <= s.len(),
    ensures
        r@ == s@.subrange(lo as int, hi as int),
{
    let mut r: Vec<char> = Vec::new();
    let mut i: usize = lo;
    while i < hi
        invariant
            lo <= i <= hi <= s.len(),
            r@ == s@.subrange(lo as int, i as int),
        decreases hi - i,
    {
        r.push(s[i]);
        i = i + 1;
        assert(r@ =~= s@.subrange(lo as int, i as int));
    }
    r
}

fn digits_from(s: &Vec<char>, lo: usize) -> (r: bool)
    requires
        lo <= s.len(),
    ensures
        r == all_digits(s@.skip(lo as int)),
{
    let mut i: usize = lo;
    while i < s.len()
        invariant
            lo <= i <= s.len(),
            forall|j: int| lo <= j < i ==> is_digit(s@[j]),
        decreases s.len() - i,
    {
        if !is_digit_char(s[i]) {
            assert(s@.skip(lo as int)[i - lo] == s@[i as int]);
            return false;
        }
        i = i + 1;
    }
    assert forall|j: int| 0 <= j < s@.skip(lo as int).len() implies is_digit(
        #[trigger] s@.skip(lo as int)[j],
    ) by {
        assert(s@.skip(lo as int)[j] == s@[lo + j]);
    }
    true
}

fn eq_word(b: &Vec<char>, w: &Vec<char>) -> (r: bool)
    requires
        forall|i: int| 0 <= i < w.len() ==> 97 <= (#[trigger] w@[i] as u32) <= 122,
    ensures
        r == eq_ignore_case(b@, w@),
{
    if b.len() != w.len() {
        return false;
    }
    let mut i: usize = 0;
    while i < b.len()
        invariant
            i <= b.len() == w.len(),
            forall|i: int| 0 <= i < w.len() ==> 97 <= (#[trigger] w@[i] as u32) <= 122,
            forall|j: int| 0 <= j < i ==> lower_code(#[trigger] b@[j]) == w@[j] as u32,
        decreases b.len() - i,
    {
        if !letter_matches(b[i], w[i]) {
            return false;
        }
        i = i + 1;
    }
    true
}

proof fn lemma_mantissa_chars(m: Seq<char>, i: int)
    requires
        is_mantissa(m),
        0 <= i < m.len(),
    ensures
        is_digit(m[i]) || m[i] == '.',
{
    if !(m.len() > 0 && all_digits(m)) {
        let k = choose|k: int|
            0 <= k < m.len() && #[trigger] m[k] == '.' && all_digits(m.take(k)) && all_digits(
                m.skip(k + 1),
            ) && m.len() >= 2;
        if i < k {
            assert(m.take(k)[i] == m[i]);
        } else if i > k {
            assert(m.skip(k + 1)[i - k - 1] == m[i]);
        }
    }
}

/// Whether `m` is a `Mantissa`: digits with at most one `.`, and a digit.
pub fn is_mantissa_text(m: &Vec<char>) -> (r: bool)
    ensures
        r == is_mantissa(m@),
{
    let mut dot: Option<usize> = None;
    let mut i: usize = 0;
    while i < m.len()
        invariant
            i <= m.len(),
            dot matches None ==> forall|j: int| 0 <= j < i ==> is_digit(#[trigger] m@[j]),
            dot matches Some(k) ==> k < i && m@[k as int] == '.' && forall|j: int|
                0 <= j < i && j != k ==> is_digit(#[trigger] m@[j]),
        decreases m.len() - i,
    {
        let c = m[i];
        if c == '.' {
            match dot {
                Some(k) => {
                    proof {
                        assert forall|q: int|
                            0 <= q < m.len() && #[trigger] m@[q] == '.' && all_digits(m@.take(q))
                                && all_digits(m@.skip(q + 1)) implies false by {
                            if q < k {
                                assert(m@.skip(q + 1)[k - q - 1] == m@[k as int]);
                            } else if q == k {
                                assert(m@.skip(q + 1)[i - q - 1] == m@[i as int]);
                            } else {
                                assert(m@.take(q)[k as int] == m@[k as int]);
                            }
                        }
                        assert(!is_digit(m@[i as int]));
                    }
                    return false;
                },
                None => {
                    dot = Some(i);
                },
            }
        } else if !is_digit_char(c) {
            proof {
                assert forall|q: int|
                    0 <= q < m.len() && #[trigger] m@[q] == '.' && all_digits(m@.take(q))
                        && all_digits(m@.skip(q + 1)) implies false by {
                    if q < i {
                        assert(m@.skip(q + 1)[i - q - 1] == m@[i as int]);
                    } else {
                        assert(m@.take(q)[i as int] == m@[i as int]);
                    }
                }
            }
            return false;
        }
        i = i + 1;
    }
    match dot {
        None => {
            proof {
                if m.len() > 0 {
                    assert(all_digits(m@));
                }
                assert forall|q: int| 0 <= q < m.len() implies #[trigger] m@[q] != '.' by {
                    assert(is_digit(m@[q]));
                }
            }
            m.len() > 0
        },
        Some(k) => {
            proof {
                assert(!is_digit(m@[k as int]));
                assert(all_digits(m@.take(k as int))) by {
                    assert forall|j: int| 0 <= j < k implies is_digit(#[trigger] m@.take(k as int)[j]) by {
                        assert(m@.take(k as int)[j] == m@[j]);
                    }
                }
                assert(all_digits(m@.skip(k + 1))) by {
                    assert forall|j: int| 0 <= j < m@.skip(k + 1).len() implies is_digit(
                        #[trigger] m@.skip(k + 1)[j],
                    ) by {
                        assert(m@.skip(k + 1)[j] == m@[k + 1 + j]);
                    }
                }
            }
            m.len() >= 2
        },
    }
}

/// Whether `e` is an `Exp`: `e` or `E`, an optional sign, then digits.
pub fn is_exponent_text(e: &Vec<char>) -> (r: bool)
    ensures
        r == is_exponent(e@),
{
    let n: usize = e.len();
    if n < 2 {
        return false;
    }
    if !letter_matches(e[0], 'e') {
        return false;
    }
    let ghost r = e@.skip(1);
    if is_sign_char(e[1]) {
        proof {
            assert(r[0] == e@[1]);
        }
        if n < 3 {
            return false;
        }
        let ok = digits_from(e, 2);
        assert(r.skip(1) =~= e@.skip(2));
        ok
    } else {
        proof {
            assert(r[0] == e@[1]);
        }
        let ok = digits_from(e, 1);
        ok
    }
}

/// Whether `s` is a `Number`: a mantissa, then optionally an exponent.
pub fn is_number_text(s: &Vec<char>) -> (r: bool)
    ensures
        r == is_number(s@),
{
    let n: usize = s.len();
    let mut p: usize = 0;
    while p < n && !letter_matches(s[p], 'e')
        invariant
            p <= n == s.len(),
            forall|j: int| 0 <= j < p ==> lower_code(#[trigger] s@[j]) != 'e' as u32,
        decreases n - p,
    {
        p = p + 1;
    }
    if p == n {
        let ok = is_mantissa_text(s);
        proof {
            assert forall|k: int| 0 < k < s.len() implies !(#[trigger] is_exponent(s@.skip(k))) by {
                assert(s@.skip(k)[0] == s@[k]);
            }
        }
        return ok;
    }
    proof {
        if is_mantissa(s@) {
            lemma_mantissa_chars(s@, p as int);
        }
        assert forall|k: int|
            0 < k < s.len() && is_mantissa(s@.take(k)) && #[trigger] is_exponent(s@.skip(k)) implies k
            == p by {
            assert(s@.skip(k)[0] == s@[k]);
            if k > p {
                lemma_mantissa_chars(s@.take(k), p as int);
                assert(s@.take(k)[p as int] == s@[p as int]);
            }
        }
    }
    if p == 0 {
        return false;
    }
    let m = copy_range(s, 0, p);
    let x = copy_range(s, p, n);
    assert(m@ =~= s@.take(p as int));
    assert(x@ =~= s@.skip(p as int));
    is_mantissa_text(&m) && is_exponent_text(&x)
}

/// Whether `f32`'s `FromStr` accepts `s`.
pub fn is_float_literal(s: &Vec<char>) -> (r: bool)
    ensures
        r == is_float_text(s@),
{
    let n: usize = s.len();
    let start: usize = if n > 0 && is_sign_char(s[0]) {
        1
    } else {
        0
    };
    let body = copy_range(s, start, n);
    assert(body@ =~= (if s@.len() > 0 && is_sign(s@[0]) {
        s@.skip(1)
    } else {
        s@
    }));
    let inf = vec!['i', 'n', 'f'];
    let infinity = vec!['i', 'n', 'f', 'i', 'n', 'i', 't', 'y'];
    let nan = vec!['n', 'a', 'n'];
    assert(inf@ =~= seq!['i', 'n', 'f']);
    assert(infinity@ =~= seq!['i', 'n', 'f', 'i', 'n', 'i', 't', 'y']);
    assert(nan@ =~= seq!['n', 'a', 'n']);
    eq_word(&body, &inf) || eq_word(&body, &infinity) || eq_word(&body, &nan) || is_number_text(&body)
}

proof fn lemma_signed_number(sign: Seq<char>, m: Seq<char>)
    requires
        sign =~= seq![] || sign =~= seq!['+'] || sign =~= seq!['-'],
        m.len() > 0,
        !is_sign(m[0]),
        is_number(m),
    ensures
        is_float_text(sign + m),
{
    let s = sign + m;
    if sign.len() == 0 {
        assert(s =~= m);
    } else {
        assert(s[0] == sign[0]);
        assert(s.skip(1) =~= m);
    }
}

proof fn lemma_decimal_mantissa(whole: Seq<char>, point: bool, frac: Seq<char>)
    requires
        forall|i: int| 0 <= i < whole.len() ==> '0' <= #[trigger] whole[i] <= '9',
        forall|i: int| 0 <= i < frac.len() ==> '0' <= #[trigger] frac[i] <= '9',
        point ==> whole.len() + frac.len() > 0,
        !point ==> whole.len() > 0 && frac.len() == 0,
    ensures
        ({
            let m = if point {
                whole + seq!['.'] + frac
            } else {
                whole
            };
            &&& is_mantissa(m)
            &&& m.len() > 0
            &&& !is_sign(m[0])
            &&& forall|i: int| 0 <= i < m.len() ==> lower_code(#[trigger] m[i]) != 'e' as u32
        }),
{
    if point {
        let m = whole + seq!['.'] + frac;
        let k = whole.len() as int;
        assert(m[k] == '.');
        assert(m.take(k) =~= whole);
        assert(m.skip(k + 1) =~= frac);
        assert forall|i: int| 0 <= i < m.len() implies lower_code(#[trigger] m[i]) != 'e' as u32 by {
            if i < k {
                assert(m[i] == whole[i]);
            } else if i > k {
                assert(m[i] == frac[i - k - 1]);
            }
        }
        if k > 0 {
            assert(m[0] == whole[0]);
        }
    } else {
        assert(all_digits(whole));
    }
}

/// Every decimal number is text that `f32` accepts: an optional sign, then
/// digits, optionally a point and more digits, with a digit on at least one
/// side of the point (`5`, `-0.5`, `10.25`, `+.5`, `7.`).
pub proof fn decimal_text_is_float(sign: Seq<char>, whole: Seq<char>, point: bool, frac: Seq<char>)
    requires
        sign =~= seq![] || sign =~= seq!['+'] || sign =~= seq!['-'],
        forall|i: int| 0 <= i < whole.len() ==> '0' <= #[trigger] whole[i] <= '9',
        forall|i: int| 0 <= i < frac.len() ==> '0' <= #[trigger] frac[i] <= '9',
        point ==> whole.len() + frac.len() > 0,
        !point ==> whole.len() > 0 && frac.len() == 0,
    ensures
        is_float_text(
            sign + (if point {
                whole + seq!['.'] + frac
            } else {
                whole
            }),
        ),
{
    lemma_decimal_mantissa(whole, point, frac);
    let m = if point {
        whole + seq!['.'] + frac
    } else {
        whole
    };
    lemma_signed_number(sign, m);
}

proof fn lemma_exponent_text(e: char, exp_sign: Seq<char>, exp: Seq<char>)
    requires
        e == 'e' || e == 'E',
        exp_sign =~= seq![] || exp_sign =~= seq!['+'] || exp_sign =~= seq!['-'],
        exp.len() > 0,
        forall|i: int| 0 <= i < exp.len() ==> '0' <= #[trigger] exp[i] <= '9',
    ensures
        is_exponent(seq![e] + exp_sign + exp),
        (seq![e] + exp_sign + exp)[0] == e,
{
    let x = seq![e] + exp_sign + exp;
    let r = x.skip(1);
    assert(r =~= exp_sign + exp);
    if exp_sign.len() == 0 {
        assert(r =~= exp);
        assert(all_digits(r));
    } else {
        assert(r[0] == exp_sign[0]);
        assert(r.skip(1) =~= exp);
        assert(all_digits(r.skip(1)));
    }
}

proof fn lemma_number_with_exponent(m: Seq<char>, x: Seq<char>)
    requires
        is_mantissa(m),
        m.len() > 0,
        is_exponent(x),
    ensures
        is_number(m + x),
        (m + x)[0] == m[0],
{
    let n = m + x;
    let k = m.len() as int;
    assert(n.take(k) =~= m);
    assert(n.skip(k) =~= x);
    assert(0 < k < n.len() && is_mantissa(n.take(k)) && is_exponent(n.skip(k)));
}

/// A decimal number followed by an exponent (`e` or `E`, an optional sign
/// and digits) is text that `f32` accepts (`1e5`, `-2.5E-3`, `.5e+2`).
#[verifier::spinoff_prover]
#[verifier::rlimit(40)]
pub proof fn exponent_text_is_float(
    sign: Seq<char>,
    whole: Seq<char>,
    point: bool,
    frac: Seq<char>,
    e: char,
    exp_sign: Seq<char>,
    exp: Seq<char>,
)
    requires
        sign =~= seq![] || sign =~= seq!['+'] || sign =~= seq!['-'],
        forall|i: int| 0 <= i < whole.len() ==> '0' <= #[trigger] whole[i] <= '9',
        forall|i: int| 0 <= i < frac.len() ==> '0' <= #[trigger] frac[i] <= '9',
        point ==> whole.len() + frac.len() > 0,
        !point ==> whole.len() > 0 && frac.len() == 0,
        e == 'e' || e == 'E',
        exp_sign =~= seq![] || exp_sign =~= seq!['+'] || exp_sign =~= seq!['-'],
        exp.len() > 0,
        forall|i: int| 0 <= i < exp.len() ==> '0' <= #[trigger] exp[i] <= '9',
    ensures
        is_float_text(
            sign + (if point {
                whole + seq!['.'] + frac
            } else {
                whole
            }) + seq![e] + exp_sign + exp,
        ),
{
    lemma_decimal_mantissa(whole, point, frac);
    lemma_exponent_text(e, exp_sign, exp);
    let m = if point {
        whole + seq!['.'] + frac
    } else {
        whole
    };
    let x = seq![e] + exp_sign + exp;
    lemma_number_with_exponent(m, x);
    lemma_signed_number(sign, m + x);
    assert(sign + m + seq![e] + exp_sign + exp =~= sign + (m + x));
}

/// The special values are text that `f32` accepts, in any letter case and
/// with an optional sign: `inf`, `infinity` and `nan`.
pub proof fn special_text_is_float(sign: Seq<char>, word: Seq<char>)
    requires
        sign =~= seq![] || sign =~= seq!['+'] || sign =~= seq!['-'],
        word.len() == 3 || word.len() == 8,
        forall|i: int|
            0 <= i < word.len() ==> ({
                let lit = if word.len() == 8 {
                    seq!['i', 'n', 'f', 'i', 'n', 'i', 't', 'y']
                } else if word[0] == 'n' || word[0] == 'N' {
                    seq!['n', 'a', 'n']
                } else {
                    seq!['i', 'n', 'f']
                };
                #[trigger] word[i] == lit[i] || word[i] as u32 + 32 == lit[i] as u32
            }),
    ensures
        is_float_text(sign + word),
{
    let s = sign + word;
    let body = if s.len() > 0 && is_sign(s[0]) {
        s.skip(1)
    } else {
        s
    };
    if sign.len() == 0 {
        assert(s =~= word);
    } else {
        assert(s[0] == sign[0]);
        assert(s.skip(1) =~= word);
    }
    assert(body =~= word) by {
        if sign.len() == 0 {
            let c = word[0];
            assert(c == 'i' || c == 'n' || c as u32 + 32 == 'i' as u32 || c as u32 + 32 == 'n' as u32);
        }
    }
}

/// The shape of an exponent part: empty, or `e`/`E`, an optional sign and
/// at least one digit.
pub open spec fn exponent_shape(x: Seq<char>) -> bool {
    ||| x.len() == 0
    ||| {
        &&& x.len() >= 2
        &&& (x[0] as u32 == 'e' as u32 || x[0] as u32 == 'E' as u32)
        &&& {
            let r = x.skip(1);
            ||| forall|i: int| 0 <= i < r.len() ==> '0' <= #[trigger] r[i] <= '9'
            ||| r.len() >= 2 && (r[0] == '+' || r[0] == '-') && forall|i: int|
                1 <= i < r.len() ==> '0' <= #[trigger] r[i] <= '9'
        }
    }
}

/// The code of a letter folded to small case.
pub open spec fn folded(c: char) -> u32 {
    if 65 <= (c as u32) <= 90 {
        (c as u32 + 32) as u32
    } else {
        c as u32
    }
}

/// One of the special words, letters in either case.
pub open spec fn special_shape(w: Seq<char>) -> bool {
    ||| w.len() == 3 && folded(w[0]) == 'i' as u32 && folded(w[1]) == 'n' as u32 && folded(w[2])
        == 'f' as u32
    ||| w.len() == 3 && folded(w[0]) == 'n' as u32 && folded(w[1]) == 'a' as u32 && folded(w[2])
        == 'n' as u32
    ||| w.len() == 8 && folded(w[0]) == 'i' as u32 && folded(w[1]) == 'n' as u32 && folded(w[2])
        == 'f' as u32 && folded(w[3]) == 'i' as u32 && folded(w[4]) == 'n' as u32 && folded(w[5])
        == 'i' as u32 && folded(w[6]) == 't' as u32 && folded(w[7]) == 'y' as u32
}

proof fn lemma_mantissa_parts(m: Seq<char>) -> (parts: (Seq<char>, bool, Seq<char>))
    requires
        is_mantissa(m),
    ensures
        ({
            let (whole, point, frac) = parts;
            &&& forall|i: int| 0 <= i < whole.len() ==> '0' <= #[trigger] whole[i] <= '9'
            &&& forall|i: int| 0 <= i < frac.len() ==> '0' <= #[trigger] frac[i] <= '9'
            &&& point ==> whole.len() + frac.len() > 0
            &&& !point ==> whole.len() > 0 && frac.len() == 0
            &&& m == (if point {
                whole + seq!['.'] + frac
            } else {
                whole
            })
        }),
{
    if m.len() > 0 && all_digits(m) {
        assert(forall|i: int| 0 <= i < m.len() ==> is_digit(#[trigger] m[i]));
        (m, false, Seq::empty())
    } else {
        let k = choose|k: int|
            0 <= k < m.len() && #[trigger] m[k] == '.' && all_digits(m.take(k)) && all_digits(
                m.skip(k + 1),
            ) && m.len() >= 2;
        let whole = m.take(k);
        let frac = m.skip(k + 1);
        assert(whole + seq!['.'] + frac =~= m);
        assert(forall|i: int| 0 <= i < whole.len() ==> is_digit(#[trigger] whole[i]));
        assert(forall|i: int| 0 <= i < frac.len() ==> is_digit(#[trigger] frac[i]));
        (whole, true, frac)
    }
}

/// Only these texts are accepted: an optional sign followed either by a
/// special word (`inf`, `infinity`, `nan`, in any case) or by a decimal
/// number (digits, optionally a point and digits, a digit on at least one
/// side) with an optional exponent. The parts are returned.
pub proof fn float_text_parts(s: Seq<char>) -> (parts: (Seq<char>, bool, Seq<char>, bool, Seq<char>, Seq<char>))
    requires
        is_float_text(s),
    ensures
        ({
            let (sign, special, whole, point, frac, exp) = parts;
            &&& sign =~= seq![] || sign =~= seq!['+'] || sign =~= seq!['-']
            &&& special ==> special_shape(whole) && !point && frac.len() == 0 && exp.len() == 0
            &&& !special ==> {
                &&& forall|i: int| 0 <= i < whole.len() ==> '0' <= #[trigger] whole[i] <= '9'
                &&& forall|i: int| 0 <= i < frac.len() ==> '0' <= #[trigger] frac[i] <= '9'
                &&& point ==> whole.len() + frac.len() > 0
                &&& !point ==> whole.len() > 0 && frac.len() == 0
                &&& exponent_shape(exp)
            }
            &&& s == sign + (if point {
                whole + seq!['.'] + frac
            } else {
                whole
            }) + exp
        }),
{
    let sign: Seq<char> = if s.len() > 0 && is_sign(s[0]) {
        seq![s[0]]
    } else {
        Seq::empty()
    };
    let body = if s.len() > 0 && is_sign(s[0]) {
        s.skip(1)
    } else {
        s
    };
    assert(sign + body =~= s);
    if eq_ignore_case(body, seq!['i', 'n', 'f']) || eq_ignore_case(
        body,
        seq!['i', 'n', 'f', 'i', 'n', 'i', 't', 'y'],
    ) || eq_ignore_case(body, seq!['n', 'a', 'n']) {
        assert(special_shape(body)) by {
            if eq_ignore_case(body, seq!['i', 'n', 'f']) {
                assert(lower_code(body[0]) == 'i' as u32);
                assert(lower_code(body[1]) == 'n' as u32);
                assert(lower_code(body[2]) == 'f' as u32);
            } else if eq_ignore_case(body, seq!['n', 'a', 'n']) {
                assert(lower_code(body[0]) == 'n' as u32);
                assert(lower_code(body[1]) == 'a' as u32);
                assert(lower_code(body[2]) == 'n' as u32);
            } else {
                assert(lower_code(body[0]) == 'i' as u32);
                assert(lower_code(body[1]) == 'n' as u32);
                assert(lower_code(body[2]) == 'f' as u32);
                assert(lower_code(body[3]) == 'i' as u32);
                assert(lower_code(body[4]) == 'n' as u32);
                assert(lower_code(body[5]) == 'i' as u32);
                assert(lower_code(body[6]) == 't' as u32);
                assert(lower_code(body[7]) == 'y' as u32);
            }
        }
        assert(sign + body + Seq::<char>::empty() =~= s);
        (sign, true, body, false, Seq::empty(), Seq::empty())
    } else {
        assert(is_number(body));
        let (m, x) = if is_mantissa(body) {
            (body, Seq::<char>::empty())
        } else {
            let k = choose|k: int|
                0 < k < body.len() && is_mantissa(body.take(k)) && #[trigger] is_exponent(body.skip(k));
            assert(body.take(k) + body.skip(k) =~= body);
            (body.take(k), body.skip(k))
        };
        assert(m + x =~= body);
        assert(exponent_shape(x)) by {
            if x.len() > 0 {
                assert(is_exponent(x));
                let r = x.skip(1);
                if all_digits(r) {
                    assert(forall|i: int| 0 <= i < r.len() ==> is_digit(#[trigger] r[i]));
                } else {
                    assert forall|i: int| 1 <= i < r.len() implies '0' <= #[trigger] r[i] <= '9' by {
                        assert(r.skip(1)[i - 1] == r[i]);
                        assert(is_digit(r.skip(1)[i - 1]));
                    }
                }
            }
        }
        let (whole, point, frac) = lemma_mantissa_parts(m);
        assert(sign + m + x =~= s);
        (sign, false, whole, point, frac, x)
    }
}

} // verus!
