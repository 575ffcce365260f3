//! Numeric fast-path detector.
//!
//! A buffer whose text is a single signed integer or floating-point literal is
//! never sent through translation; every character maps directly to a glyph.
//! The classification is a pure predicate over the character sequence: the
//! grammars below are the ones the standard integer and float parsers accept.
//! A digit run too long for the integer type is still accepted by the float
//! grammar, so leaving the integer range check out does not change the
//! disjunction the classifier returns.

use vstd::prelude::*;

verus! {

/// ASCII decimal digit.
pub open spec fn is_ascii_digit(c: char) -> bool {
    '0' as u32 <= c as u32 && c as u32 <= '9' as u32
}

/// Leading sign of a numeric literal.
pub open spec fn is_sign(c: char) -> bool {
    c == '+' || c == '-'
}

/// The sequence with one leading sign removed, if present.
pub open spec fn strip_sign(s: Seq<char>) -> Seq<char> {
    if s.len() > 0 && is_sign(s[0]) {
        s.subrange(1, s.len() as int)
    } else {
        s
    }
}

/// Every character of `s` is a decimal digit.
pub open spec fn all_digits(s: Seq<char>) -> bool {
    forall|i: int| 0 <= i < s.len() ==> is_ascii_digit(#[trigger] s[i])
}

/// An optional sign followed by at least one digit: the integer grammar.
pub open spec fn is_integer_literal(s: Seq<char>) -> bool {
    strip_sign(s).len() > 0 && all_digits(strip_sign(s))
}

/// Digits with at most one decimal point and at least one digit: the part of
/// a float literal before any exponent.
pub open spec fn is_mantissa(s: Seq<char>) -> bool {
    &&& forall|i: int| 0 <= i < s.len() ==> is_ascii_digit(#[trigger] s[i]) || s[i] == '.'
    &&& forall|i: int, j: int| 0 <= i < j < s.len() ==> !(#[trigger] s[i] == '.' && #[trigger] s[j] == '.')
    &&& exists|i: int| 0 <= i < s.len() && is_ascii_digit(#[trigger] s[i])
}

/// Exponent marker of a float literal.
pub open spec fn is_exp_marker(c: char) -> bool {
    c == 'e' || c == 'E'
}

/// Index of the first exponent marker in `s`, or `s.len()` if there is none.
pub open spec fn first_exp_marker(s: Seq<char>) -> int
    decreases s.len(),
{
    if s.len() == 0 {
        0
    } else if is_exp_marker(s[0]) {
        0
    } else {
        1 + first_exp_marker(s.subrange(1, s.len() as int))
    }
}

/// An optional sign followed by at least one digit: the exponent grammar.
pub open spec fn is_exponent(s: Seq<char>) -> bool {
    strip_sign(s).len() > 0 && all_digits(strip_sign(s))
}

/// The word `inf`, in any letter case.
pub open spec fn is_word_inf(s: Seq<char>) -> bool {
    s.len() == 3 && (s[0] == 'i' || s[0] == 'I') && (s[1] == 'n' || s[1] == 'N') && (s[2] == 'f'
        || s[2] == 'F')
}

/// The word `infinity`, in any letter case.
pub open spec fn is_word_infinity(s: Seq<char>) -> bool {
    s.len() == 8 && (s[0] == 'i' || s[0] == 'I') && (s[1] == 'n' || s[1] == 'N') && (s[2] == 'f'
        || s[2] == 'F') && (s[3] == 'i' || s[3] == 'I') && (s[4] == 'n' || s[4] == 'N') && (s[5]
        == 'i' || s[5] == 'I') && (s[6] == 't' || s[6] == 'T') && (s[7] == 'y' || s[7] == 'Y')
}

/// The word `nan`, in any letter case.
pub open spec fn is_word_nan(s: Seq<char>) -> bool {
    s.len() == 3 && (s[0] == 'n' || s[0] == 'N') && (s[1] == 'a' || s[1] == 'A') && (s[2] == 'n'
        || s[2] == 'N')
}

/// One of the named non-finite float spellings.
pub open spec fn is_special_word(s: Seq<char>) -> bool {
    is_word_inf(s) || is_word_infinity(s) || is_word_nan(s)
}

/// A mantissa, optionally followed by an exponent marker and an exponent;
/// the unsigned body of a float literal.
pub open spec fn is_number_body(s: Seq<char>) -> bool {
    let k = first_exp_marker(s);
    if k == s.len() {
        is_mantissa(s)
    } else {
        is_mantissa(s.subrange(0, k)) && is_exponent(s.subrange(k + 1, s.len() as int))
    }
}

/// The float grammar: an optional sign, then a special word or a number body.
pub open spec fn is_float_literal(s: Seq<char>) -> bool {
    is_special_word(strip_sign(s)) || is_number_body(strip_sign(s))
}

/// Executable digit test.
fn digit(c: char) -> (r: bool)
    ensures
        r == is_ascii_digit(c),
{
    c as u32 >= '0' as u32 && c as u32 <= '9' as u32
}

/// Every character of `s` in `[a, b)` is a decimal digit.
fn range_all_digits(s: &str, a: usize, b: usize) -> (r: bool)
    requires
        a <= b <= s@.len(),
    ensures
        r == all_digits(s@.subrange(a as int, b as int)),
{
    let mut i = a;
    let mut ok = true;
    while i < b
        invariant
            a <= i <= b <= s@.len(),
            ok == all_digits(s@.subrange(a as int, i as int)),
        decreases b - i,
    {
        let c = s.get_char(i);
        let d = digit(c);
        proof {
            let pre = s@.subrange(a as int, i as int);
            let post = s@.subrange(a as int, i + 1 as int);
            assert(post =~= pre.push(s@[i as int]));
            if ok && d {
                assert(forall|j: int| 0 <= j < post.len() ==> is_ascii_digit(#[trigger] post[j]))
                    by {
                    assert(forall|j: int| 0 <= j < pre.len() ==> is_ascii_digit(#[trigger] pre[j]));
                    assert(forall|j: int| 0 <= j < post.len() ==> post[j] == if j < pre.len() {
                        pre[j]
                    } else {
                        s@[i as int]
                    });
                }
            } else if !d {
                assert(post[i - a] == s@[i as int]);
                assert(!all_digits(post));
            } else {
                let j = choose|j: int| 0 <= j < pre.len() && !is_ascii_digit(#[trigger] pre[j]);
                assert(post[j] == pre[j]);
                assert(!all_digits(post));
            }
        }
        ok = ok && d;
        i = i + 1;
    }
    ok
}

/// The suffix of `s` from `a` is one of the special float words.
fn special_from(s: &str, a: usize) -> (r: bool)
    requires
        a <= s@.len(),
    ensures
        r == is_special_word(s@.subrange(a as int, s@.len() as int)),
{
    let n = s.unicode_len();
    let ghost t = s@.subrange(a as int, s@.len() as int);
    if n - a == 3 {
        let c0 = s.get_char(a);
        let c1 = s.get_char(a + 1);
        let c2 = s.get_char(a + 2);
        proof {
            assert(t[0] == s@[a as int] && t[1] == s@[a + 1] && t[2] == s@[a + 2]);
        }
        ((c0 == 'i' || c0 == 'I') && (c1 == 'n' || c1 == 'N') && (c2 == 'f' || c2 == 'F')) || ((c0
            == 'n' || c0 == 'N') && (c1 == 'a' || c1 == 'A') && (c2 == 'n' || c2 == 'N'))
    } else if n - a == 8 {
        let c0 = s.get_char(a);
        let c1 = s.get_char(a + 1);
        let c2 = s.get_char(a + 2);
        let c3 = s.get_char(a + 3);
        let c4 = s.get_char(a + 4);
        let c5 = s.get_char(a + 5);
        let c6 = s.get_char(a + 6);
        let c7 = s.get_char(a + 7);
        proof {
            assert(t[0] == s@[a as int] && t[1] == s@[a + 1] && t[2] == s@[a + 2] && t[3] == s@[a
                + 3] && t[4] == s@[a + 4] && t[5] == s@[a + 5] && t[6] == s@[a + 6] && t[7] == s@[a
                + 7]);
        }
        (c0 == 'i' || c0 == 'I') && (c1 == 'n' || c1 == 'N') && (c2 == 'f' || c2 == 'F') && (c3
            == 'i' || c3 == 'I') && (c4 == 'n' || c4 == 'N') && (c5 == 'i' || c5 == 'I') && (c6
            == 't' || c6 == 'T') && (c7 == 'y' || c7 == 'Y')
    } else {
        false
    }
}

/// A scan that saw no marker before `m`, and a marker (or the end) at `m`,
/// has found `first_exp_marker`.
proof fn lemma_first_exp_marker(s: Seq<char>, m: int)
    requires
        0 <= m <= s.len(),
        forall|j: int| 0 <= j < m ==> !is_exp_marker(#[trigger] s[j]),
        m < s.len() ==> is_exp_marker(s[m]),
    ensures
        first_exp_marker(s) == m,
    decreases s.len(),
{
    if s.len() == 0 {
    } else if is_exp_marker(s[0]) {
        assert(m == 0);
    } else {
        assert(m >= 1);
        let t = s.subrange(1, s.len() as int);
        assert(forall|j: int| 0 <= j < m - 1 ==> !is_exp_marker(#[trigger] t[j])) by {
            assert(forall|j: int| 0 <= j < t.len() ==> t[j] == s[j + 1]);
        }
        assert(m - 1 < t.len() ==> is_exp_marker(t[m - 1]));
        lemma_first_exp_marker(t, m - 1);
    }
}

/// Index of the first exponent marker at or after `a`, or the length.
fn find_exp(s: &str, a: usize) -> (k: usize)
    requires
        a <= s@.len(),
    ensures
        a <= k <= s@.len(),
        k - a == first_exp_marker(s@.subrange(a as int, s@.len() as int)),
        k < s@.len() ==> is_exp_marker(s@[k as int]),
{
    let n = s.unicode_len();
    let mut i = a;
    while i < n
        invariant
            a <= i <= n == s@.len(),
            forall|j: int| a <= j < i ==> !is_exp_marker(#[trigger] s@[j]),
        decreases n - i,
    {
        let c = s.get_char(i);
        if c == 'e' || c == 'E' {
            proof {
                let t = s@.subrange(a as int, s@.len() as int);
                assert(forall|j: int| 0 <= j < i - a ==> t[j] == s@[j + a]);
                assert(is_exp_marker(t[i - a]));
                lemma_first_exp_marker(t, i - a);
            }
            return i;
        }
        i = i + 1;
    }
    proof {
        let t = s@.subrange(a as int, s@.len() as int);
        assert(forall|j: int| 0 <= j < t.len() ==> t[j] == s@[j + a]);
        lemma_first_exp_marker(t, t.len() as int);
    }
    n
}

/// The characters of `s` in `[a, b)` form a mantissa.
fn range_is_mantissa(s: &str, a: usize, b: usize) -> (r: bool)
    requires
        a <= b <= s@.len(),
    ensures
        r == is_mantissa(s@.subrange(a as int, b as int)),
{
    let mut i = a;
    let mut chars_ok = true;
    let mut seen_digit = false;
    let mut dot_seen = false;
    let mut dots_ok = true;
    while i < b
        invariant
            a <= i <= b <= s@.len(),
            chars_ok == (forall|j: int|
                a <= j < i ==> is_ascii_digit(#[trigger] s@[j]) || s@[j] == '.'),
            seen_digit == (exists|j: int| a <= j < i && is_ascii_digit(#[trigger] s@[j])),
            dot_seen == (exists|j: int| a <= j < i && #[trigger] s@[j] == '.'),
            dots_ok == (forall|j: int, l: int|
                a <= j < l < i ==> !(#[trigger] s@[j] == '.' && #[trigger] s@[l] == '.')),
        decreases b - i,
    {
        let c = s.get_char(i);
        let d = digit(c);
        if d {
            seen_digit = true;
        } else if c == '.' {
            if dot_seen {
                dots_ok = false;
            }
            dot_seen = true;
        } else {
            chars_ok = false;
        }
        i = i + 1;
    }
    let ghost t = s@.subrange(a as int, b as int);
    proof {
        assert(forall|j: int| 0 <= j < t.len() ==> t[j] == s@[j + a]);
        if chars_ok {
            assert(forall|j: int| 0 <= j < t.len() ==> is_ascii_digit(#[trigger] t[j]) || t[j]
                == '.');
        } else {
            let j = choose|j: int| a <= j < b && !(is_ascii_digit(#[trigger] s@[j]) || s@[j] == '.');
            assert(!(is_ascii_digit(t[j - a]) || t[j - a] == '.'));
        }
        if seen_digit {
            let j = choose|j: int| a <= j < b && is_ascii_digit(#[trigger] s@[j]);
            assert(is_ascii_digit(t[j - a]));
        } else {
            assert(forall|j: int| 0 <= j < t.len() ==> !is_ascii_digit(#[trigger] t[j]));
        }
        if dots_ok {
            assert(forall|j: int, l: int|
                0 <= j < l < t.len() ==> !(#[trigger] t[j] == '.' && #[trigger] t[l] == '.'));
        } else {
            let (j, l) = choose|j: int, l: int|
                a <= j < l < b && #[trigger] s@[j] == '.' && #[trigger] s@[l] == '.';
            assert(t[j - a] == '.' && t[l - a] == '.');
        }
    }
    chars_ok && seen_digit && dots_ok
}

/// The suffix of `s` from `a` is a number body.
fn number_body_from(s: &str, a: usize) -> (r: bool)
    requires
        a <= s@.len(),
    ensures
        r == is_number_body(s@.subrange(a as int, s@.len() as int)),
{
    let n = s.unicode_len();
    let ghost t = s@.subrange(a as int, s@.len() as int);
    let k = find_exp(s, a);
    if k == n {
        proof {
            assert(t =~= s@.subrange(a as int, n as int));
        }
        range_is_mantissa(s, a, n)
    } else {
        let m = range_is_mantissa(s, a, k);
        proof {
            assert(t.subrange(0, k - a) =~= s@.subrange(a as int, k as int));
        }
        // exponent part: optional sign, then at least one digit
        let e0 = if k + 1 < n {
            let c = s.get_char(k + 1);
            if c == '+' || c == '-' {
                k + 2
            } else {
                k + 1
            }
        } else {
            k + 1
        };
        let exp_ok = if e0 < n {
            range_all_digits(s, e0, n)
        } else {
            false
        };
        proof {
            let ex = t.subrange(k - a + 1, t.len() as int);
            assert(ex =~= s@.subrange(k + 1, n as int));
            assert(forall|j: int| 0 <= j < ex.len() ==> ex[j] == s@[j + k + 1]);
            if ex.len() > 0 && is_sign(ex[0]) {
                assert(strip_sign(ex) =~= s@.subrange(k + 2, n as int));
            } else {
                assert(strip_sign(ex) =~= s@.subrange(k + 1, n as int));
            }
            if e0 < n {
                assert(strip_sign(ex) =~= s@.subrange(e0 as int, n as int));
            } else {
                assert(strip_sign(ex).len() == 0);
            }
        }
        m && exp_ok
    }
}

/// Classifies the buffer text as numeric: a single signed integer literal or
/// a single float literal, the integer grammar attempted first.
pub fn is_number(s: &str) -> (r: bool)
    ensures
        r == (is_integer_literal(s@) || is_float_literal(s@)),
{
    let n = s.unicode_len();
    let start: usize = if n > 0 {
        let c = s.get_char(0);
        if c == '+' || c == '-' {
            1
        } else {
            0
        }
    } else {
        0
    };
    proof {
        assert(strip_sign(s@) =~= s@.subrange(start as int, n as int));
    }
    if start < n && range_all_digits(s, start, n) {
        return true;
    }
    if special_from(s, start) {
        return true;
    }
    number_body_from(s, start)
}

} // verus!
