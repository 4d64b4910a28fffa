use vstd::prelude::*;

verus! {

/// An ASCII decimal digit.
pub open spec fn digit(c: char) -> bool {
    '0' <= c && c <= '9'
}

/// The characters that separate tokens: space, tab, line feed, form feed and
/// carriage return.
pub open spec fn separator(c: char) -> bool {
    c == ' ' || c == '\t' || c == '\n' || c == '\x0C' || c == '\r'
}

/// The characters with the Unicode property `White_Space`; these are what is
/// trimmed from both ends of a text.
pub open spec fn space(c: char) -> bool {
    ||| ('\t' <= c && c <= '\r')
    ||| c == ' '
    ||| c == '\u{85}'
    ||| c == '\u{A0}'
    ||| c == '\u{1680}'
    ||| ('\u{2000}' <= c && c <= '\u{200A}')
    ||| c == '\u{2028}'
    ||| c == '\u{2029}'
    ||| c == '\u{202F}'
    ||| c == '\u{205F}'
    ||| c == '\u{3000}'
}

/// Whether `c` is a letter: what `char::is_alphabetic` of the standard
/// library answers for `c`. That is the Unicode property `Alphabetic`, a
/// table too long to write out, so the answer has this name and no
/// definition here.
pub uninterp spec fn letter(c: char) -> bool;

/// Whether `c` is an ASCII decimal digit.
pub fn is_digit(c: char) -> (b: bool)
    ensures
        b == digit(c),
{
    '0' <= c && c <= '9'
}

/// Whether `c` separates tokens.
pub fn is_separator(c: char) -> (b: bool)
    ensures
        b == separator(c),
{
    c == ' ' || c == '\t' || c == '\n' || c == '\x0C' || c == '\r'
}

/// Whether `c` is trimmed from the ends of a text.
pub fn is_space(c: char) -> (b: bool)
    ensures
        b == space(c),
{
    ('\t' <= c && c <= '\r') || c == ' ' || c == '\u{85}' || c == '\u{A0}' || c == '\u{1680}' || (
    '\u{2000}' <= c && c <= '\u{200A}') || c == '\u{2028}' || c == '\u{2029}' || c == '\u{202F}'
        || c == '\u{205F}' || c == '\u{3000}'
}

/// Calls `char::is_alphabetic` of the standard library. The answer depends
/// on the character alone, and [`letter`] is the name of that answer; this is
/// all that is taken on trust here, and nothing is claimed of which
/// characters are letters.
#[verifier::external_body]
pub(crate) fn is_letter(c: char) -> (b: bool)
    ensures
        b == letter(c),
{
    c.is_alphabetic()
}

/// `s` without its leading spaces.
pub open spec fn trim_start(s: Seq<char>) -> Seq<char>
    decreases s.len(),
{
    if s.len() > 0 && space(s[0]) {
        trim_start(s.drop_first())
    } else {
        s
    }
}

/// `s` without its trailing spaces.
pub open spec fn trim_end(s: Seq<char>) -> Seq<char>
    decreases s.len(),
{
    if s.len() > 0 && space(s.last()) {
        trim_end(s.drop_last())
    } else {
        s
    }
}

/// `s` without the spaces at either end.
pub open spec fn trim(s: Seq<char>) -> Seq<char> {
    trim_end(trim_start(s))
}

/// The first index at or after `i` that holds no space.
pub open spec fn skip_spaces(s: Seq<char>, i: int) -> int
    decreases s.len() - i,
{
    if 0 <= i < s.len() && space(s[i]) {
        skip_spaces(s, i + 1)
    } else {
        i
    }
}

/// The least index at or below `j` such that only spaces lie between it and
/// `j`, but no lower than `lo`.
pub open spec fn back_spaces(s: Seq<char>, lo: int, j: int) -> int
    decreases j,
{
    if 0 <= lo < j <= s.len() && space(s[j - 1]) {
        back_spaces(s, lo, j - 1)
    } else {
        j
    }
}

/// Where the trimmed text begins and ends inside `s`. Where `s` holds
/// spaces only, both are its length.
pub open spec fn trim_range(s: Seq<char>) -> (int, int) {
    let lo = skip_spaces(s, 0);
    (lo, back_spaces(s, lo, s.len() as int))
}

proof fn lemma_trim_start(s: Seq<char>, lo: int)
    requires
        0 <= lo <= s.len(),
        forall|i: int| 0 <= i < lo ==> space(s[i]),
        lo < s.len() ==> !space(s[lo]),
    ensures
        trim_start(s) == s.subrange(lo, s.len() as int),
    decreases lo,
{
    if lo == 0 {
        assert(s.subrange(0, s.len() as int) =~= s);
    } else {
        let t = s.drop_first();
        assert forall|i: int| 0 <= i < lo - 1 implies space(t[i]) by {
            assert(t[i] == s[i + 1]);
        }
        lemma_trim_start(t, lo - 1);
        assert(t.subrange(lo - 1, t.len() as int) =~= s.subrange(lo, s.len() as int));
    }
}

proof fn lemma_trim_end(s: Seq<char>, hi: int)
    requires
        0 <= hi <= s.len(),
        forall|i: int| hi <= i < s.len() ==> space(s[i]),
        0 < hi ==> !space(s[hi - 1]),
    ensures
        trim_end(s) == s.subrange(0, hi),
    decreases s.len() - hi,
{
    if hi == s.len() {
        assert(s.subrange(0, hi) =~= s);
    } else {
        let t = s.drop_last();
        lemma_trim_end(t, hi);
        assert(t.subrange(0, hi) =~= s.subrange(0, hi));
    }
}

proof fn lemma_skip_spaces(s: Seq<char>, i: int)
    requires
        0 <= i <= s.len(),
    ensures
        i <= skip_spaces(s, i) <= s.len(),
        forall|k: int| i <= k < skip_spaces(s, i) ==> space(s[k]),
        skip_spaces(s, i) < s.len() ==> !space(s[skip_spaces(s, i)]),
    decreases s.len() - i,
{
    if i < s.len() && space(s[i]) {
        lemma_skip_spaces(s, i + 1);
    }
}

proof fn lemma_back_spaces(s: Seq<char>, lo: int, j: int)
    requires
        0 <= lo <= j <= s.len(),
    ensures
        lo <= back_spaces(s, lo, j) <= j,
        forall|k: int| back_spaces(s, lo, j) <= k < j ==> space(s[k]),
        lo < back_spaces(s, lo, j) ==> !space(s[back_spaces(s, lo, j) - 1]),
    decreases j,
{
    if lo < j && space(s[j - 1]) {
        lemma_back_spaces(s, lo, j - 1);
    }
}

/// Trimming is cutting a range out of the text: where spaces alone stand
/// before `lo` and from `hi` on, and none at `lo` and before `hi`, the
/// trimmed text is what stands from `lo` to `hi`.
pub proof fn lemma_trim_range(s: Seq<char>, lo: int, hi: int)
    requires
        0 <= lo <= hi <= s.len(),
        forall|i: int| 0 <= i < lo ==> space(s[i]),
        forall|i: int| hi <= i < s.len() ==> space(s[i]),
        lo < hi ==> !space(s[lo]) && !space(s[hi - 1]),
    ensures
        trim(s) == s.subrange(lo, hi),
{
    if lo < hi {
        lemma_trim_start(s, lo);
        let t = s.subrange(lo, s.len() as int);
        assert forall|i: int| hi - lo <= i < t.len() implies space(t[i]) by {
            assert(t[i] == s[i + lo]);
        }
        lemma_trim_end(t, hi - lo);
        assert(t.subrange(0, hi - lo) =~= s.subrange(lo, hi));
    } else {
        lemma_trim_start(s, s.len() as int);
        assert(s.subrange(s.len() as int, s.len() as int) =~= Seq::<char>::empty());
        assert(s.subrange(lo, hi) =~= Seq::<char>::empty());
    }
}

/// The trimmed text stands in the text from the one bound of
/// [`trim_range`] to the other, with spaces alone around it.
pub proof fn lemma_trim_range_found(s: Seq<char>)
    ensures
        ({
            let (lo, hi) = trim_range(s);
            &&& 0 <= lo <= hi <= s.len()
            &&& forall|i: int| 0 <= i < lo ==> space(s[i])
            &&& forall|i: int| hi <= i < s.len() ==> space(s[i])
            &&& lo < hi ==> !space(s[lo]) && !space(s[hi - 1])
            &&& trim(s) == s.subrange(lo, hi)
        }),
{
    let (lo, hi) = trim_range(s);
    lemma_skip_spaces(s, 0);
    lemma_back_spaces(s, lo, s.len() as int);
    lemma_trim_range(s, lo, hi);
}

/// A trimmed text is no longer than the text it was cut from, has no space
/// at either end, and is not changed by trimming it again.
pub proof fn lemma_trim_shape(s: Seq<char>)
    ensures
        trim(s).len() <= s.len(),
        trim(s).len() > 0 ==> !space(trim(s)[0]) && !space(trim(s).last()),
        trim(trim(s)) == trim(s),
{
    lemma_trim_range_found(s);
    let t = trim(s);
    lemma_trim_range(t, 0, t.len() as int);
    assert(t.subrange(0, t.len() as int) =~= t);
}

/// Spaces before and after a text are trimmed away with its own.
pub proof fn lemma_trim_padding(before: Seq<char>, s: Seq<char>, after: Seq<char>)
    requires
        forall|i: int| 0 <= i < before.len() ==> space(before[i]),
        forall|i: int| 0 <= i < after.len() ==> space(after[i]),
    ensures
        trim(before + s + after) == trim(s),
{
    let padded = before + s + after;
    let (lo, hi) = trim_range(s);
    lemma_trim_range_found(s);
    let shift = before.len() as int;
    assert forall|i: int| 0 <= i < shift + lo implies space(padded[i]) by {
        if i >= shift {
            assert(padded[i] == s[i - shift]);
        } else {
            assert(padded[i] == before[i]);
        }
    }
    assert forall|i: int| shift + hi <= i < padded.len() implies space(padded[i]) by {
        if i < shift + s.len() {
            assert(padded[i] == s[i - shift]);
        } else {
            assert(padded[i] == after[i - shift - s.len()]);
        }
    }
    if lo < hi {
        assert(padded[shift + lo] == s[lo]);
        assert(padded[shift + hi - 1] == s[hi - 1]);
    }
    lemma_trim_range(padded, shift + lo, shift + hi);
    assert(padded.subrange(shift + lo, shift + hi) =~= s.subrange(lo, hi));
}

/// The characters of a text, one by one.
pub fn chars_of(s: &str) -> (v: Vec<char>)
    ensures
        v@ == s@,
{
    let mut v: Vec<char> = Vec::new();
    let it = s.chars();
    for c in iter: it
        invariant
            v@ == iter.seq().take(iter.index()),
    {
        v.push(c);
    }
    v
}

/// Where the trimmed text begins and ends among the characters `v`.
pub fn trim_bounds(v: &Vec<char>) -> (r: (usize, usize))
    ensures
        (r.0 as int, r.1 as int) == trim_range(v@),
        r.0 <= r.1 <= v.len(),
        trim(v@) == v@.subrange(r.0 as int, r.1 as int),
        r.0 < r.1 ==> !space(v[r.0 as int]) && !space(v[r.1 - 1]),
{
    let mut lo: usize = 0;
    while lo < v.len() && is_space(v[lo])
        invariant
            lo <= v.len(),
            skip_spaces(v@, lo as int) == skip_spaces(v@, 0),
        decreases v.len() - lo,
    {
        lo += 1;
    }
    let mut hi: usize = v.len();
    while hi > lo && is_space(v[hi - 1])
        invariant
            lo <= hi <= v.len(),
            back_spaces(v@, lo as int, hi as int) == back_spaces(v@, lo as int, v.len() as int),
        decreases hi,
    {
        hi -= 1;
    }
    proof {
        lemma_trim_range_found(v@);
    }
    (lo, hi)
}

/// The text without the spaces at either end.
pub fn trimmed(s: &str) -> (r: String)
    ensures
        r@ == trim(s@),
{
    let v = chars_of(s);
    let (lo, hi) = trim_bounds(&v);
    s.substring_char(lo, hi).to_owned()
}

} // verus!
