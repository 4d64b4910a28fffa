use crate::text::{digit, is_digit, separator, space};
use vstd::prelude::*;

verus! {

/// A plus or minus sign.
pub open spec fn sign(c: char) -> bool {
    c == '+' || c == '-'
}

/// The end of the run of digits that begins at `i`.
pub open spec fn digits_end(s: Seq<char>, i: int) -> int
    decreases s.len() - i,
{
    if 0 <= i < s.len() && digit(s[i]) {
        digits_end(s, i + 1)
    } else {
        i
    }
}

/// `s` is the word, letter by letter, each in lower or in upper case.
pub open spec fn spells(s: Seq<char>, lower: Seq<char>, upper: Seq<char>) -> bool {
    &&& s.len() == lower.len()
    &&& forall|i: int| 0 <= i < s.len() ==> s[i] == lower[i] || s[i] == upper[i]
}

/// `inf`, `infinity` or `nan`, in any mix of cases.
pub open spec fn special(s: Seq<char>) -> bool {
    ||| spells(s, seq!['i', 'n', 'f'], seq!['I', 'N', 'F'])
    ||| spells(
        s,
        seq!['i', 'n', 'f', 'i', 'n', 'i', 't', 'y'],
        seq!['I', 'N', 'F', 'I', 'N', 'I', 'T', 'Y'],
    )
    ||| spells(s, seq!['n', 'a', 'n'], seq!['N', 'A', 'N'])
}

/// From `i` to its end `s` is an exponent: `e` or `E`, a sign or none, and at
/// least one digit.
pub open spec fn exponent(s: Seq<char>, i: int) -> bool {
    let first = if i + 1 < s.len() && sign(s[i + 1]) {
        i + 2
    } else {
        i + 1
    };
    &&& 0 <= i < s.len()
    &&& (s[i] == 'e' || s[i] == 'E')
    &&& first < s.len()
    &&& digits_end(s, first) == s.len()
}

/// `s` is a decimal number: digits with at most one point among them, before
/// it, after it or both, and an exponent or none.
pub open spec fn decimal(s: Seq<char>) -> bool {
    let whole = digits_end(s, 0);
    let pointed = whole < s.len() && s[whole] == '.';
    let mantissa = if pointed {
        digits_end(s, whole + 1)
    } else {
        whole
    };
    &&& if pointed {
        mantissa >= 2
    } else {
        mantissa >= 1
    }
    &&& (mantissa == s.len() || exponent(s, mantissa))
}

/// The texts that are number literals: a sign or none, and then a decimal
/// number or one of the special words. These are the texts from which the
/// standard library reads a floating-point number.
pub open spec fn number_literal(s: Seq<char>) -> bool {
    let body = if s.len() > 0 && sign(s[0]) {
        s.subrange(1, s.len() as int)
    } else {
        s
    };
    special(body) || decimal(body)
}

proof fn lemma_digits_end(s: Seq<char>, i: int)
    requires
        0 <= i <= s.len(),
    ensures
        i <= digits_end(s, i) <= s.len(),
        forall|k: int| i <= k < digits_end(s, i) ==> digit(s[k]),
        digits_end(s, i) < s.len() ==> !digit(s[digits_end(s, i)]),
    decreases s.len() - i,
{
    if i < s.len() && digit(s[i]) {
        lemma_digits_end(s, i + 1);
    }
}

proof fn lemma_digits_run(s: Seq<char>, i: int, j: int)
    requires
        0 <= i <= j <= s.len(),
        forall|k: int| i <= k < j ==> digit(s[k]),
        j < s.len() ==> !digit(s[j]),
    ensures
        digits_end(s, i) == j,
    decreases j - i,
{
    if i < j {
        lemma_digits_run(s, i + 1, j);
    }
}

/// A number literal holds at least one character, and neither its first nor
/// its last character is a space.
pub proof fn lemma_literal_ends(s: Seq<char>)
    requires
        number_literal(s),
    ensures
        s.len() > 0,
        !space(s[0]),
        !space(s.last()),
{
    let body = if s.len() > 0 && sign(s[0]) {
        s.subrange(1, s.len() as int)
    } else {
        s
    };
    assert(body.len() > 0 ==> body.last() == s.last());
    if special(body) {
        assert(body.len() >= 3);
        assert(body[0] == 'i' || body[0] == 'I' || body[0] == 'n' || body[0] == 'N');
        let last = body.len() - 1;
        assert(body[last] == 'f' || body[last] == 'F' || body[last] == 'y' || body[last] == 'Y'
            || body[last] == 'n' || body[last] == 'N');
    } else {
        let whole = digits_end(body, 0);
        lemma_digits_end(body, 0);
        let pointed = whole < body.len() && body[whole] == '.';
        let mantissa = if pointed {
            digits_end(body, whole + 1)
        } else {
            whole
        };
        if pointed {
            lemma_digits_end(body, whole + 1);
        }
        assert(digit(body[0]) || body[0] == '.');
        if mantissa == body.len() {
            assert(digit(body.last()) || body.last() == '.');
        } else {
            let first = if mantissa + 1 < body.len() && sign(body[mantissa + 1]) {
                mantissa + 2
            } else {
                mantissa + 1
            };
            lemma_digits_end(body, first);
            assert(digit(body.last()));
        }
    }
}

/// A number literal that begins with a digit holds no separator and no
/// parenthesis.
pub proof fn lemma_literal_plain(s: Seq<char>)
    requires
        number_literal(s),
        digit(s[0]),
    ensures
        forall|i: int| 0 <= i < s.len() ==> !separator(s[i]) && s[i] != '(' && s[i] != ')',
{
    lemma_literal_ends(s);
    assert(!special(s));
    let whole = digits_end(s, 0);
    lemma_digits_end(s, 0);
    let pointed = whole < s.len() && s[whole] == '.';
    let mantissa = if pointed {
        digits_end(s, whole + 1)
    } else {
        whole
    };
    if pointed {
        lemma_digits_end(s, whole + 1);
    }
    if mantissa < s.len() {
        let first = if mantissa + 1 < s.len() && sign(s[mantissa + 1]) {
            mantissa + 2
        } else {
            mantissa + 1
        };
        lemma_digits_end(s, first);
    }
    assert forall|i: int| 0 <= i < s.len() implies digit(s[i]) || s[i] == '.' || s[i] == 'e'
        || s[i] == 'E' || sign(s[i]) by {
        if i < whole {
        } else if i < mantissa {
        } else if i == mantissa {
        } else if i == mantissa + 1 {
        } else {
        }
    }
}

/// Skips the digits of `v` from `i` on.
fn skip_digits(v: &Vec<char>, lo: usize, i: usize) -> (j: usize)
    requires
        lo <= i <= v.len(),
    ensures
        i <= j <= v.len(),
        j - lo == digits_end(v@.subrange(lo as int, v.len() as int), i - lo),
{
    let ghost s = v@.subrange(lo as int, v.len() as int);
    let mut j = i;
    while j < v.len() && is_digit(v[j])
        invariant
            lo <= i <= j <= v.len(),
            s == v@.subrange(lo as int, v.len() as int),
            forall|k: int| i - lo <= k < j - lo ==> digit(s[k]),
        decreases v.len() - j,
    {
        j += 1;
    }
    proof {
        lemma_digits_run(s, i - lo, j - lo);
    }
    j
}

/// Whether `v` from `lo` on spells the word.
fn is_spelled(v: &Vec<char>, lo: usize, lower: &Vec<char>, upper: &Vec<char>) -> (b: bool)
    requires
        lo <= v.len(),
        lower.len() == upper.len(),
    ensures
        b == spells(v@.subrange(lo as int, v.len() as int), lower@, upper@),
{
    let ghost s = v@.subrange(lo as int, v.len() as int);
    if v.len() - lo != lower.len() {
        return false;
    }
    let mut i: usize = 0;
    while i < lower.len()
        invariant
            lo <= v.len(),
            v.len() - lo == lower.len(),
            lower.len() == upper.len(),
            s == v@.subrange(lo as int, v.len() as int),
            i <= lower.len(),
            forall|k: int| 0 <= k < i ==> s[k] == lower[k] || s[k] == upper[k],
        decreases lower.len() - i,
    {
        let c = v[lo + i];
        assert(c == s[i as int]);
        if c != lower[i] && c != upper[i] {
            return false;
        }
        i += 1;
    }
    true
}

/// Whether the characters of `v` from `lo` on are one of the special words.
fn is_special(v: &Vec<char>, lo: usize) -> (b: bool)
    requires
        lo <= v.len(),
    ensures
        b == special(v@.subrange(lo as int, v.len() as int)),
{
    is_spelled(v, lo, &vec!['i', 'n', 'f'], &vec!['I', 'N', 'F']) || is_spelled(
        v,
        lo,
        &vec!['i', 'n', 'f', 'i', 'n', 'i', 't', 'y'],
        &vec!['I', 'N', 'F', 'I', 'N', 'I', 'T', 'Y'],
    ) || is_spelled(v, lo, &vec!['n', 'a', 'n'], &vec!['N', 'A', 'N'])
}

/// Whether the characters of `v` from `lo` on are a decimal number.
fn is_decimal(v: &Vec<char>, lo: usize) -> (b: bool)
    requires
        lo <= v.len(),
    ensures
        b == decimal(v@.subrange(lo as int, v.len() as int)),
{
    let ghost s = v@.subrange(lo as int, v.len() as int);
    let n = v.len();
    let whole = skip_digits(v, lo, lo);
    let pointed = whole < n && v[whole] == '.';
    let mantissa = if pointed {
        skip_digits(v, lo, whole + 1)
    } else {
        whole
    };
    assert(pointed == (whole - lo < s.len() && s[whole - lo] == '.'));
    if pointed {
        if mantissa - lo < 2 {
            return false;
        }
    } else {
        if mantissa - lo < 1 {
            return false;
        }
    }
    if mantissa == n {
        return true;
    }
    let mark = v[mantissa];
    assert(mark == s[mantissa - lo]);
    if mark != 'e' && mark != 'E' {
        return false;
    }
    let first = if mantissa + 1 < n && (v[mantissa + 1] == '+' || v[mantissa + 1] == '-') {
        mantissa + 2
    } else {
        mantissa + 1
    };
    assert(mantissa + 1 < n ==> v[mantissa + 1] == s[mantissa + 1 - lo]);
    if first >= n {
        return false;
    }
    skip_digits(v, lo, first) == n
}

/// Whether the characters are a number literal.
pub fn is_number_literal(v: &Vec<char>) -> (b: bool)
    ensures
        b == number_literal(v@),
{
    let lo: usize = if v.len() > 0 && (v[0] == '+' || v[0] == '-') {
        1
    } else {
        0
    };
    assert(lo == 0 ==> v@.subrange(0, v.len() as int) =~= v@);
    is_special(v, lo) || is_decimal(v, lo)
}

} // verus!
