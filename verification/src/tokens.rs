use crate::text::{chars_of, is_separator, lemma_trim_shape, separator, trim, trimmed};
use vstd::prelude::*;

verus! {

/// `s` without its first and last character, where these are `prefix` and
/// `suffix`; nothing where they are not, or where one character would have to
/// serve as both.
pub open spec fn stripped(s: Seq<char>, prefix: char, suffix: char) -> Option<Seq<char>> {
    if s.len() >= 2 && s[0] == prefix && s.last() == suffix {
        Some(s.subrange(1, s.len() - 1))
    } else {
        None
    }
}

/// Strips the given prefix and suffix from the text. Returns `None` if either
/// is missing.
pub fn strip_ends(input: String, prefix: char, suffix: char) -> (r: Option<String>)
    ensures
        match r {
            Some(inner) => stripped(input@, prefix, suffix) == Some(inner@),
            None => stripped(input@, prefix, suffix) is None,
        },
{
    let text = input.as_str();
    let n = text.unicode_len();
    if n < 2 {
        return None;
    }
    if text.get_char(0) != prefix || text.get_char(n - 1) != suffix {
        return None;
    }
    Some(text.substring_char(1, n - 1).to_owned())
}

/// What a scan of a text knows after some of its characters.
pub struct Scan {
    /// The tokens that are complete.
    pub tokens: Seq<Seq<char>>,
    /// Where the token in progress begins.
    pub start: int,
    /// Opening parentheses seen, minus closing ones.
    pub depth: int,
    /// Whether the token in progress is a parenthesized group that is still
    /// open.
    pub grouped: bool,
    /// Whether a separator was met at a depth other than zero.
    pub failed: bool,
}

/// The scan before the first character.
pub open spec fn scan_start() -> Scan {
    Scan { tokens: Seq::empty(), start: 0, depth: 0, grouped: false, failed: false }
}

/// The scan after character `i` of `s`, from the scan before it.
pub open spec fn scan_step(st: Scan, s: Seq<char>, i: int) -> Scan {
    let c = s[i];
    if st.failed {
        st
    } else if !st.grouped && separator(c) {
        Scan {
            tokens: if st.start < i {
                st.tokens.push(s.subrange(st.start, i))
            } else {
                st.tokens
            },
            start: i + 1,
            depth: st.depth,
            grouped: false,
            failed: st.depth != 0,
        }
    } else if c == '(' {
        Scan { depth: st.depth + 1, grouped: true, ..st }
    } else if c == ')' {
        Scan { depth: st.depth - 1, grouped: st.grouped && st.depth != 1, ..st }
    } else {
        st
    }
}

/// The scan after the first `i` characters of `s`.
pub open spec fn scan(s: Seq<char>, i: int) -> Scan
    decreases i,
{
    if i <= 0 {
        scan_start()
    } else {
        scan_step(scan(s, i - 1), s, i - 1)
    }
}

/// The tokens of a text that needs no trimming: those that the scan has
/// completed, and the one in progress at the end if it holds anything. There
/// are none where the scan failed or the parentheses do not balance.
pub open spec fn scan_tokens(t: Seq<char>) -> Seq<Seq<char>> {
    let st = scan(t, t.len() as int);
    if st.failed || st.depth != 0 {
        Seq::empty()
    } else if st.start < t.len() {
        st.tokens.push(t.subrange(st.start, t.len() as int))
    } else {
        st.tokens
    }
}

/// The top-level tokens of a text: atoms, and parenthesized groups taken
/// whole, in the order in which they stand.
pub open spec fn tokens_of(s: Seq<char>) -> Seq<Seq<char>> {
    scan_tokens(trim(s))
}

/// The length of the longest of the tokens.
pub open spec fn longest(tokens: Seq<Seq<char>>) -> nat
    decreases tokens.len(),
{
    if tokens.len() == 0 {
        0
    } else {
        let rest = longest(tokens.drop_last());
        if tokens.last().len() > rest {
            tokens.last().len()
        } else {
            rest
        }
    }
}

pub proof fn lemma_longest_bounds(tokens: Seq<Seq<char>>, i: int)
    requires
        0 <= i < tokens.len(),
    ensures
        tokens[i].len() <= longest(tokens),
    decreases tokens.len(),
{
    if i < tokens.len() - 1 {
        lemma_longest_bounds(tokens.drop_last(), i);
    }
}

pub proof fn lemma_longest_least(tokens: Seq<Seq<char>>, n: nat)
    requires
        forall|i: int| 0 <= i < tokens.len() ==> tokens[i].len() <= n,
    ensures
        longest(tokens) <= n,
    decreases tokens.len(),
{
    if tokens.len() > 0 {
        lemma_longest_least(tokens.drop_last(), n);
    }
}

/// A scan that has failed stays failed.
proof fn lemma_scan_failed(s: Seq<char>, i: int, j: int)
    requires
        0 <= i <= j,
        scan(s, i).failed,
    ensures
        scan(s, j).failed,
    decreases j,
{
    if i < j {
        lemma_scan_failed(s, i, j - 1);
    }
}

/// During a scan the token in progress begins inside the part already read,
/// and every complete token is a piece of that part that holds something.
pub proof fn lemma_scan_pieces(s: Seq<char>, i: int)
    requires
        0 <= i <= s.len(),
    ensures
        0 <= scan(s, i).start <= i,
        forall|k: int|
            0 <= k < scan(s, i).tokens.len() ==> 0 < (#[trigger] scan(s, i).tokens[k]).len() <= i,
    decreases i,
{
    if i > 0 {
        lemma_scan_pieces(s, i - 1);
    }
}

/// Every token holds at least one character, and none is longer than the
/// text.
pub proof fn lemma_tokens_sizes(s: Seq<char>)
    ensures
        forall|k: int| 0 <= k < tokens_of(s).len() ==> 0 < (#[trigger] tokens_of(s)[k]).len() <= s.len(),
        longest(tokens_of(s)) <= s.len(),
{
    let t = trim(s);
    lemma_trim_shape(s);
    lemma_scan_pieces(t, t.len() as int);
    lemma_longest_least(tokens_of(s), s.len());
}

/// Splits the text into its top-level tokens: atoms, and parenthesized groups
/// taken whole. The result is empty where a separator stands at a depth other
/// than zero, or where the parentheses do not balance.
pub fn split_tokens(input: String) -> (tokens: Vec<String>)
    ensures
        tokens.deep_view() == tokens_of(input@),
{
    let text = trimmed(input.as_str());
    let v = chars_of(text.as_str());
    let mut tokens: Vec<String> = Vec::new();
    let mut start: usize = 0;
    let mut opens: usize = 0;
    let mut closes: usize = 0;
    let mut grouped = false;
    let mut i: usize = 0;
    assert(tokens.deep_view() =~= Seq::<Seq<char>>::empty());
    while i < v.len()
        invariant
            i <= v.len(),
            v@ == text@,
            text@ == trim(input@),
            start <= i,
            opens <= i,
            closes <= i,
            scan(v@, i as int) == (Scan {
                tokens: tokens.deep_view(),
                start: start as int,
                depth: opens - closes,
                grouped,
                failed: false,
            }),
        decreases v.len() - i,
    {
        let c = v[i];
        let ghost before = tokens.deep_view();
        if !grouped && is_separator(c) {
            if start < i {
                let token = text.as_str().substring_char(start, i).to_owned();
                tokens.push(token);
                assert(tokens.deep_view() =~= before.push(v@.subrange(start as int, i as int)));
            }
            if opens != closes {
                proof {
                    assert(scan(v@, i + 1).failed);
                    lemma_scan_failed(v@, i + 1, v.len() as int);
                }
                let none: Vec<String> = Vec::new();
                assert(none.deep_view() =~= Seq::<Seq<char>>::empty());
                return none;
            }
            start = i + 1;
        } else if c == '(' {
            opens += 1;
            grouped = true;
        } else if c == ')' {
            closes += 1;
            if opens == closes {
                grouped = false;
            }
        }
        i += 1;
    }
    if opens != closes {
        let none: Vec<String> = Vec::new();
        assert(none.deep_view() =~= Seq::<Seq<char>>::empty());
        return none;
    }
    if start < v.len() {
        let ghost before = tokens.deep_view();
        let token = text.as_str().substring_char(start, v.len()).to_owned();
        tokens.push(token);
        assert(tokens.deep_view() =~= before.push(v@.subrange(start as int, v.len() as int)));
    }
    tokens
}

} // verus!
