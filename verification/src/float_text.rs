//! The grammar of decimal floating-point text that `str::parse::<f64>`
//! accepts, and a recognizer for it.
//!
//! The standard library documents that every string that matches
//! ```text
//! Float  ::= Sign? ( 'inf' | 'infinity' | 'nan' | Number )
//! Number ::= ( Digit+ | Digit+ '.' Digit* | Digit* '.' Digit+ ) Exp?
//! Exp    ::= 'e' Sign? Digit+
//! Sign   ::= [+-]
//! Digit  ::= [0-9]
//! ```
//! once lowercased parses to an `f64`, and that no other string does.

use vstd::prelude::*;
use vstd::string::*;
use crate::decimal::{is_digit, all_digits, chars_of};

verus! {

/// ASCII lowercasing of one character.
pub open spec fn ascii_lower(c: char) -> char {
    if 'A' <= c && c <= 'Z' {
        ((c as u32) + 32) as char
    } else {
        c
    }
}

/// `s` spells the lowercase word `w`, ignoring ASCII case.
pub open spec fn matches_word(s: Seq<char>, w: Seq<char>) -> bool {
    s.len() == w.len() && forall|i: int| 0 <= i < s.len() ==> ascii_lower(#[trigger] s[i]) == w[i]
}

/// `Digit+`
pub open spec fn is_digits(s: Seq<char>) -> bool {
    s.len() > 0 && all_digits(s)
}

/// `s` without one leading `+` or `-`.
pub open spec fn strip_sign(s: Seq<char>) -> Seq<char> {
    if s.len() > 0 && (s[0] == '+' || s[0] == '-') {
        s.drop_first()
    } else {
        s
    }
}

/// `Digit+ | Digit+ '.' Digit* | Digit* '.' Digit+`
pub open spec fn is_mantissa(s: Seq<char>) -> bool {
    ||| is_digits(s)
    ||| exists|k: int|
        #![trigger s[k]]
        0 <= k < s.len() && s[k] == '.' && all_digits(s.take(k)) && all_digits(s.skip(k + 1))
            && s.len() > 1
}

/// `'e' Sign? Digit+`
pub open spec fn is_exponent(s: Seq<char>) -> bool {
    s.len() > 0 && ascii_lower(s[0]) == 'e' && is_digits(strip_sign(s.drop_first()))
}

/// `Number`
pub open spec fn is_number(s: Seq<char>) -> bool {
    ||| is_mantissa(s)
    ||| exists|k: int| 0 < k < s.len() && is_mantissa(#[trigger] s.take(k)) && is_exponent(s.skip(k))
}

/// `Float`: the text that `str::parse::<f64>` accepts.
pub open spec fn is_float_text(s: Seq<char>) -> bool {
    let u = strip_sign(s);
    ||| matches_word(u, seq!['i', 'n', 'f'])
    ||| matches_word(u, seq!['i', 'n', 'f', 'i', 'n', 'i', 't', 'y'])
    ||| matches_word(u, seq!['n', 'a', 'n'])
    ||| is_number(u)
}

/// A mantissa holds only digits and one dot.
proof fn lemma_mantissa_chars(t: Seq<char>)
    requires
        is_mantissa(t),
    ensures
        t.len() > 0,
        forall|i: int| 0 <= i < t.len() ==> is_digit(#[trigger] t[i]) || t[i] == '.',
        forall|i: int, j: int| 0 <= i < t.len() && 0 <= j < t.len() && t[i] == '.' && t[j] == '.' ==> i == j,
{
    if !is_digits(t) {
        let k = choose|k: int|
            #![trigger t[k]]
            0 <= k < t.len() && t[k] == '.' && all_digits(t.take(k)) && all_digits(t.skip(k + 1))
                && t.len() > 1;
        assert forall|i: int| 0 <= i < t.len() implies is_digit(#[trigger] t[i]) || t[i] == '.' by {
            if i < k {
                assert(t.take(k)[i] == t[i]);
            } else if i > k {
                assert(t.skip(k + 1)[i - k - 1] == t[i]);
            }
        }
        assert forall|i: int, j: int|
            0 <= i < t.len() && 0 <= j < t.len() && t[i] == '.' && t[j] == '.' implies i == j by {
            if i < k {
                assert(t.take(k)[i] == t[i]);
            } else if i > k {
                assert(t.skip(k + 1)[i - k - 1] == t[i]);
            }
            if j < k {
                assert(t.take(k)[j] == t[j]);
            } else if j > k {
                assert(t.skip(k + 1)[j - k - 1] == t[j]);
            }
        }
    }
}

/// The facts a left-to-right scan of the mantissa establishes: `a` ends the
/// leading digits, a dot follows iff `dot`, and `m` ends the mantissa.
pub open spec fn mantissa_scan(u: Seq<char>, a: int, m: int, dot: bool) -> bool {
    &&& 0 <= a <= m <= u.len()
    &&& all_digits(u.take(a))
    &&& (a == u.len() || !is_digit(u[a]))
    &&& dot == (a < u.len() && u[a] == '.')
    &&& (dot ==> all_digits(u.subrange(a + 1, m)) && a + 1 <= m && (m == u.len() || !is_digit(u[m])))
    &&& (!dot ==> m == a)
}

/// The scanned prefix is a mantissa iff it holds a digit.
proof fn lemma_scanned_mantissa(u: Seq<char>, a: int, m: int, dot: bool)
    requires
        mantissa_scan(u, a, m, dot),
    ensures
        is_mantissa(u.take(m)) == (if dot { m > 1 } else { a > 0 }),
{
    let t = u.take(m);
    if dot {
        assert(t[a] == '.');
        if m > 1 {
            assert(t.take(a) =~= u.take(a));
            assert(t.skip(a + 1) =~= u.subrange(a + 1, m));
            assert(t[a] == '.');
        }
        if is_mantissa(t) {
            lemma_mantissa_chars(t);
            assert(!is_digit(t[a]));
        }
    } else {
        assert(t =~= u.take(a));
        if is_mantissa(t) {
            lemma_mantissa_chars(t);
        }
    }
}

/// A number is the scanned mantissa, followed by nothing or by an exponent.
proof fn lemma_number_split(u: Seq<char>, a: int, m: int, dot: bool)
    requires
        mantissa_scan(u, a, m, dot),
    ensures
        is_number(u) == (is_mantissa(u.take(m)) && (m == u.len() || is_exponent(u.skip(m)))),
{
    // every position before `m` holds a digit or the one dot at `a`
    assert forall|i: int| 0 <= i < m && i != a implies is_digit(#[trigger] u[i]) by {
        if i < a {
            assert(u.take(a)[i] == u[i]);
        } else {
            assert(u.subrange(a + 1, m)[i - a - 1] == u[i]);
        }
    }
    if is_number(u) {
        if is_mantissa(u) {
            lemma_mantissa_chars(u);
            if m < u.len() {
                assert(u[m] == '.');
                if dot {
                    assert(u[a] == '.');
                } else {
                    assert(false);
                }
            }
            assert(u.take(m) =~= u);
        } else {
            let k = choose|k: int| 0 < k < u.len() && is_mantissa(#[trigger] u.take(k)) && is_exponent(u.skip(k));
            let t = u.take(k);
            assert(u.skip(k)[0] == u[k]);
            lemma_mantissa_chars(t);
            if k < m {
                if k != a {
                    assert(is_digit(u[k]));
                }
                assert(false);
            } else if k > m {
                assert(t[m] == u[m]);
                assert(u[m] == '.');
                if dot {
                    assert(t[a] == u[a]);
                } else {
                    assert(false);
                }
                assert(false);
            }
        }
    } else {
        if is_mantissa(u.take(m)) && (m == u.len() || is_exponent(u.skip(m))) {
            if m == u.len() {
                assert(u.take(m) =~= u);
            } else {
                lemma_mantissa_chars(u.take(m));
                assert(0 < m < u.len() && is_mantissa(u.take(m)) && is_exponent(u.skip(m)));
            }
        }
    }
}

/// The end of the run of digits that starts at `i`.
fn digit_run_end(v: &Vec<char>, i: usize) -> (e: usize)
    requires
        i <= v.len(),
    ensures
        i <= e <= v.len(),
        all_digits(v@.subrange(i as int, e as int)),
        e == v.len() || !is_digit(v@[e as int]),
{
    let mut e = i;
    while e < v.len() && v[e] >= '0' && v[e] <= '9'
        invariant
            i <= e <= v.len(),
            all_digits(v@.subrange(i as int, e as int)),
        decreases v.len() - e,
    {
        e = e + 1;
        assert forall|j: int| 0 <= j < v@.subrange(i as int, e as int).len()
            implies is_digit(#[trigger] v@.subrange(i as int, e as int)[j]) by {
            if j < e - 1 - i {
                assert(v@.subrange(i as int, e as int)[j] == v@.subrange(i as int, e - 1)[j]);
            }
        }
    }
    e
}

/// `c` lowercases to the lowercase letter `t`.
fn lowers_to(c: char, t: char) -> (r: bool)
    requires
        'a' <= t && t <= 'z',
    ensures
        r == (ascii_lower(c) == t),
{
    c == t || (c >= 'A' && c <= 'Z' && (c as u32) + 32 == t as u32)
}

/// `u[start..]` spells the lowercase word `w`, ignoring ASCII case.
fn matches_word_at(u: &Vec<char>, start: usize, w: &Vec<char>) -> (r: bool)
    requires
        start <= u.len(),
        forall|i: int| 0 <= i < w.len() ==> 'a' <= #[trigger] w@[i] && w@[i] <= 'z',
    ensures
        r == matches_word(u@.skip(start as int), w@),
{
    if u.len() - start != w.len() {
        return false;
    }
    let mut i: usize = 0;
    while i < w.len()
        invariant
            start <= u.len(),
            u.len() - start == w.len(),
            i <= w.len(),
            forall|j: int| 0 <= j < w.len() ==> 'a' <= #[trigger] w@[j] && w@[j] <= 'z',
            forall|j: int| 0 <= j < i ==> ascii_lower(#[trigger] u@.skip(start as int)[j]) == w@[j],
        decreases w.len() - i,
    {
        assert(u@.skip(start as int)[i as int] == u@[start + i]);
        if !lowers_to(u[start + i], w[i]) {
            return false;
        }
        i = i + 1;
    }
    true
}

/// `u[start..]` is a `Number`.
fn is_number_at(u: &Vec<char>, start: usize) -> (r: bool)
    requires
        start <= u.len(),
    ensures
        r == is_number(u@.skip(start as int)),
{
    let ghost s = u@.skip(start as int);
    let n = u.len();
    let a = digit_run_end(u, start);
    let dot = a < n && u[a] == '.';
    let m = if dot { digit_run_end(u, a + 1) } else { a };
    proof {
        let (ga, gm) = ((a - start) as int, (m - start) as int);
        assert(s.take(ga) =~= u@.subrange(start as int, a as int));
        if ga < s.len() {
            assert(s[ga] == u@[a as int]);
        }
        if dot {
            assert(s.subrange(ga + 1, gm) =~= u@.subrange(a + 1, m as int));
            if gm < s.len() {
                assert(s[gm] == u@[m as int]);
            }
        }
        assert(mantissa_scan(s, ga, gm, dot));
        lemma_scanned_mantissa(s, ga, gm, dot);
        lemma_number_split(s, ga, gm, dot);
    }
    let mantissa_ok = if dot { m - start > 1 } else { a > start };
    if !mantissa_ok {
        return false;
    }
    if m == n {
        return true;
    }
    // the exponent
    let ghost e = s.skip((m - start) as int);
    assert(e =~= u@.skip(m as int));
    if !lowers_to(u[m], 'e') {
        return false;
    }
    let sign = m + 1 < n && (u[m + 1] == '+' || u[m + 1] == '-');
    let j = if sign { m + 2 } else { m + 1 };
    let end = digit_run_end(u, j);
    proof {
        let body = strip_sign(e.drop_first());
        assert(body =~= u@.skip(j as int));
        if end == n {
            assert(u@.subrange(j as int, end as int) =~= body);
        } else {
            assert(body[end - j] == u@[end as int]);
        }
    }
    end > j && end == n
}

/// Whether `str::parse::<f64>` accepts `s`.
pub fn is_float_text_exec(s: &str) -> (r: bool)
    ensures
        r == is_float_text(s@),
{
    let cs = chars_of(s);
    let start: usize = if cs.len() > 0 && (cs[0] == '+' || cs[0] == '-') { 1 } else { 0 };
    assert(cs@.skip(start as int) =~= strip_sign(s@));
    let inf = chars_of("inf");
    let infinity = chars_of("infinity");
    let nan = chars_of("nan");
    proof {
        reveal_strlit("inf");
        reveal_strlit("infinity");
        reveal_strlit("nan");
        assert(inf@ =~= seq!['i', 'n', 'f']);
        assert(infinity@ =~= seq!['i', 'n', 'f', 'i', 'n', 'i', 't', 'y']);
        assert(nan@ =~= seq!['n', 'a', 'n']);
    }
    matches_word_at(&cs, start, &inf) || matches_word_at(&cs, start, &infinity)
        || matches_word_at(&cs, start, &nan) || is_number_at(&cs, start)
}

} // verus!
