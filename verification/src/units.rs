use crate::text::{
    lemma_trim_padding, lemma_trim_range, lemma_trim_shape, separator, space, trim,
};
use crate::tokens::{
    lemma_scan_pieces, scan, scan_start, scan_tokens, stripped, tokens_of, Scan,
};
use vstd::prelude::*;

verus! {

/// The scan of the text has not failed and has met as many closing
/// parentheses as opening ones: the text has tokens to give.
pub open spec fn sound(t: Seq<char>) -> bool {
    let st = scan(t, t.len() as int);
    !st.failed && st.depth == 0
}

/// The text is sound and its scan ends outside any group, so that a
/// separator after it would end its last token.
pub open spec fn clean(t: Seq<char>) -> bool {
    sound(t) && !scan(t, t.len() as int).grouped
}

/// A text without separators or parentheses.
pub open spec fn atom(u: Seq<char>) -> bool {
    &&& u.len() > 0
    &&& forall|i: int| 0 <= i < u.len() ==> !separator(u[i]) && u[i] != '(' && u[i] != ')'
}

/// Opening parentheses minus closing ones among the first `k` characters.
pub open spec fn nesting(u: Seq<char>, k: int) -> int
    decreases k,
{
    if k <= 0 {
        0
    } else if u[k - 1] == '(' {
        nesting(u, k - 1) + 1
    } else if u[k - 1] == ')' {
        nesting(u, k - 1) - 1
    } else {
        nesting(u, k - 1)
    }
}

/// A text in parentheses: it opens with a parenthesis that only its last
/// character closes.
pub open spec fn group(u: Seq<char>) -> bool {
    &&& u.len() >= 2
    &&& u[0] == '('
    &&& nesting(u, u.len() as int) == 0
    &&& forall|k: int| 0 < k < u.len() ==> nesting(u, k) > 0
}

/// In the text and in each of its beginnings, no closing parenthesis is
/// without its opening one, and in the whole text none is left open.
pub open spec fn balanced(u: Seq<char>) -> bool {
    &&& nesting(u, u.len() as int) == 0
    &&& forall|k: int| 0 <= k <= u.len() ==> nesting(u, k) >= 0
}

/// An atom or a group with no space at either end: a text that stands as one
/// token wherever separators surround it.
pub open spec fn unit(u: Seq<char>) -> bool {
    &&& atom(u) || group(u)
    &&& !space(u[0])
    &&& !space(u.last())
}

/// The texts one after the other, with one space between each two.
pub open spec fn join(units: Seq<Seq<char>>) -> Seq<char>
    decreases units.len(),
{
    if units.len() == 0 {
        Seq::empty()
    } else if units.len() == 1 {
        units[0]
    } else {
        join(units.drop_last()) + seq![' '] + units.last()
    }
}

/// The scan of the first characters of a text does not depend on what
/// follows them.
proof fn lemma_scan_prefix(a: Seq<char>, b: Seq<char>, k: int)
    requires
        0 <= k <= a.len(),
    ensures
        scan(a + b, k) == scan(a, k),
    decreases k,
{
    if k > 0 {
        lemma_scan_prefix(a, b, k - 1);
        let st = scan(a, k - 1);
        lemma_scan_pieces(a, k - 1);
        assert((a + b)[k - 1] == a[k - 1]);
        assert((a + b).subrange(st.start, k - 1) =~= a.subrange(st.start, k - 1));
    }
}

/// After a text whose scan has ended its last token, the scan goes on as if
/// it began anew: it finds the tokens of what follows, after those of the
/// text.
proof fn lemma_scan_shift(a: Seq<char>, b: Seq<char>, j: int)
    requires
        0 <= j <= b.len(),
        clean(a),
        scan(a, a.len() as int).start == a.len(),
    ensures
        scan(a + b, a.len() + j).tokens == scan(a, a.len() as int).tokens + scan(b, j).tokens,
        scan(a + b, a.len() + j).start == a.len() + scan(b, j).start,
        scan(a + b, a.len() + j).depth == scan(b, j).depth,
        scan(a + b, a.len() + j).grouped == scan(b, j).grouped,
        scan(a + b, a.len() + j).failed == scan(b, j).failed,
    decreases j,
{
    let n = a.len() as int;
    let first = scan(a, n).tokens;
    if j == 0 {
        lemma_scan_prefix(a, b, n);
        assert(first + scan(b, 0).tokens =~= first);
    } else {
        lemma_scan_shift(a, b, j - 1);
        lemma_scan_pieces(b, j - 1);
        let sb = scan(b, j - 1);
        assert((a + b)[n + j - 1] == b[j - 1]);
        assert((a + b).subrange(n + sb.start, n + j - 1) =~= b.subrange(sb.start, j - 1));
        let piece = b.subrange(sb.start, j - 1);
        assert((first + sb.tokens).push(piece) =~= first + sb.tokens.push(piece));
    }
}

/// Separators after a clean text end its last token and begin no other.
proof fn lemma_scan_gap(a: Seq<char>, gap: Seq<char>)
    requires
        clean(a),
        gap.len() > 0,
        forall|i: int| 0 <= i < gap.len() ==> separator(gap[i]),
    ensures
        clean(a + gap),
        scan(a + gap, (a + gap).len() as int).start == (a + gap).len(),
        scan(a + gap, (a + gap).len() as int).tokens == scan_tokens(a),
    decreases gap.len(),
{
    let n = a.len() as int;
    let t = a + gap;
    if gap.len() == 1 {
        lemma_scan_prefix(a, gap, n);
        lemma_scan_pieces(a, n);
        assert(t[n] == gap[0]);
        assert(t.subrange(scan(a, n).start, n) =~= a.subrange(scan(a, n).start, n));
    } else {
        let shorter = gap.drop_last();
        lemma_scan_gap(a, shorter);
        assert(t =~= (a + shorter) + seq![gap.last()]);
        lemma_scan_prefix(a + shorter, seq![gap.last()], t.len() - 1);
        assert(t[t.len() - 1] == gap.last());
    }
}

/// The tokens of two texts with separators between them are the tokens of
/// the first and then those of the second, however many separators there
/// are. An empty text may stand on either side: separators before or after
/// a text give no token.
pub proof fn lemma_tokens_compose(a: Seq<char>, gap: Seq<char>, b: Seq<char>)
    requires
        clean(a),
        sound(b),
        gap.len() > 0,
        forall|i: int| 0 <= i < gap.len() ==> separator(gap[i]),
    ensures
        scan_tokens(a + gap + b) == scan_tokens(a) + scan_tokens(b),
        sound(a + gap + b),
        clean(b) ==> clean(a + gap + b),
{
    let head = a + gap;
    let m = b.len() as int;
    lemma_scan_gap(a, gap);
    lemma_scan_shift(head, b, m);
    lemma_scan_pieces(b, m);
    let sb = scan(b, m);
    let first = scan_tokens(a);
    assert((head + b).subrange(head.len() + sb.start, head.len() + m) =~= b.subrange(sb.start, m));
    if sb.start < m {
        let piece = b.subrange(sb.start, m);
        assert((first + sb.tokens).push(piece) =~= first + sb.tokens.push(piece));
    }
}

/// A text has no token only where nothing but spaces is in it, or where its
/// scan fails or ends with parentheses that do not match.
pub proof fn lemma_no_tokens(s: Seq<char>)
    ensures
        tokens_of(s).len() == 0 <==> trim(s).len() == 0 || !sound(trim(s)),
{
    let t = trim(s);
    lemma_trim_shape(s);
    if t.len() > 0 && sound(t) {
        lemma_scan_begun(t, t.len() as int);
    }
}

/// Once a scan has read a character that is no separator, it has a token
/// complete or one in progress from the very beginning.
proof fn lemma_scan_begun(t: Seq<char>, k: int)
    requires
        t.len() > 0,
        !separator(t[0]),
        1 <= k <= t.len(),
        !scan(t, k).failed,
    ensures
        scan(t, k).tokens.len() > 0 || scan(t, k).start == 0,
    decreases k,
{
    if k > 1 {
        if scan(t, k - 1).failed {
            assert(scan(t, k).failed);
        }
        lemma_scan_begun(t, k - 1);
    } else {
        assert(scan(t, 0) == scan_start());
    }
}

/// Spaces before and after a text do not change its tokens.
pub proof fn lemma_tokens_padding(before: Seq<char>, s: Seq<char>, after: Seq<char>)
    requires
        forall|i: int| 0 <= i < before.len() ==> space(before[i]),
        forall|i: int| 0 <= i < after.len() ==> space(after[i]),
    ensures
        tokens_of(before + s + after) == tokens_of(s),
{
    lemma_trim_padding(before, s, after);
}

/// It does not matter to the tokens how many separators stand between two
/// parts of a text, nor which.
pub proof fn lemma_tokens_gap(a: Seq<char>, first: Seq<char>, second: Seq<char>, b: Seq<char>)
    requires
        clean(a),
        sound(b),
        a.len() > 0 && !space(a[0]),
        b.len() > 0 && !space(b.last()),
        first.len() > 0,
        second.len() > 0,
        forall|i: int| 0 <= i < first.len() ==> separator(first[i]),
        forall|i: int| 0 <= i < second.len() ==> separator(second[i]),
    ensures
        tokens_of(a + first + b) == tokens_of(a + second + b),
        tokens_of(a + first + b) == scan_tokens(a) + scan_tokens(b),
{
    lemma_tokens_compose(a, first, b);
    lemma_tokens_compose(a, second, b);
    let one = a + first + b;
    let other = a + second + b;
    assert(one[0] == a[0] && one.last() == b.last());
    assert(other[0] == a[0] && other.last() == b.last());
    lemma_trim_range(one, 0, one.len() as int);
    lemma_trim_range(other, 0, other.len() as int);
    assert(one.subrange(0, one.len() as int) =~= one);
    assert(other.subrange(0, other.len() as int) =~= other);
}

/// An atom is one token.
pub proof fn lemma_atom_is_token(u: Seq<char>)
    requires
        atom(u),
    ensures
        clean(u),
        scan_tokens(u) == seq![u],
{
    lemma_atom_scan(u, u.len() as int);
    assert(u.subrange(0, u.len() as int) =~= u);
    assert(Seq::<Seq<char>>::empty().push(u) =~= seq![u]);
}

proof fn lemma_atom_scan(u: Seq<char>, k: int)
    requires
        atom(u),
        0 <= k <= u.len(),
    ensures
        scan(u, k) == scan_start(),
    decreases k,
{
    if k > 0 {
        lemma_atom_scan(u, k - 1);
    }
}

/// A group is one token, whatever separators stand inside it.
pub proof fn lemma_group_is_token(u: Seq<char>)
    requires
        group(u),
    ensures
        clean(u),
        scan_tokens(u) == seq![u],
{
    let n = u.len() as int;
    lemma_group_scan(u, n - 1);
    assert(nesting(u, n - 1) > 0);
    assert(u.subrange(0, n) =~= u);
    assert(Seq::<Seq<char>>::empty().push(u) =~= seq![u]);
}

proof fn lemma_group_scan(u: Seq<char>, k: int)
    requires
        group(u),
        0 < k < u.len(),
    ensures
        scan(u, k) == (Scan {
            tokens: Seq::empty(),
            start: 0,
            depth: nesting(u, k),
            grouped: true,
            failed: false,
        }),
    decreases k,
{
    if k > 1 {
        lemma_group_scan(u, k - 1);
        assert(nesting(u, k - 1) > 0);
        assert(nesting(u, k) > 0);
    } else {
        assert(scan(u, 0) == scan_start());
        assert(nesting(u, 0) == 0);
    }
}

proof fn lemma_nesting_prefix(a: Seq<char>, b: Seq<char>, k: int)
    requires
        0 <= k <= a.len(),
    ensures
        nesting(a + b, k) == nesting(a, k),
    decreases k,
{
    if k > 0 {
        lemma_nesting_prefix(a, b, k - 1);
        assert((a + b)[k - 1] == a[k - 1]);
    }
}

/// The nesting of a text that follows another begins where the nesting of
/// the other has ended.
pub proof fn lemma_nesting_concat(a: Seq<char>, b: Seq<char>, k: int)
    requires
        0 <= k <= b.len(),
    ensures
        nesting(a + b, a.len() + k) == nesting(a, a.len() as int) + nesting(b, k),
    decreases k,
{
    if k > 0 {
        lemma_nesting_concat(a, b, k - 1);
        assert((a + b)[a.len() + k - 1] == b[k - 1]);
    } else {
        lemma_nesting_prefix(a, b, a.len() as int);
    }
}

/// Two balanced texts one after the other are balanced.
pub proof fn lemma_balanced_concat(a: Seq<char>, b: Seq<char>)
    requires
        balanced(a),
        balanced(b),
    ensures
        balanced(a + b),
{
    lemma_nesting_concat(a, b, b.len() as int);
    assert forall|k: int| 0 <= k <= (a + b).len() implies nesting(a + b, k) >= 0 by {
        if k <= a.len() {
            lemma_nesting_prefix(a, b, k);
        } else {
            lemma_nesting_concat(a, b, k - a.len());
        }
    }
}

/// A text without parentheses is balanced.
pub proof fn lemma_plain_balanced(u: Seq<char>)
    requires
        forall|i: int| 0 <= i < u.len() ==> u[i] != '(' && u[i] != ')',
    ensures
        balanced(u),
{
    assert forall|k: int| 0 <= k <= u.len() implies nesting(u, k) == 0 by {
        lemma_plain_nesting(u, k);
    }
}

proof fn lemma_plain_nesting(u: Seq<char>, k: int)
    requires
        forall|i: int| 0 <= i < u.len() ==> u[i] != '(' && u[i] != ')',
        0 <= k <= u.len(),
    ensures
        nesting(u, k) == 0,
    decreases k,
{
    if k > 0 {
        lemma_plain_nesting(u, k - 1);
    }
}

/// A unit is balanced.
pub proof fn lemma_unit_balanced(u: Seq<char>)
    requires
        unit(u),
    ensures
        balanced(u),
{
    if atom(u) {
        lemma_plain_balanced(u);
    } else {
        assert(nesting(u, 0) == 0);
    }
}

/// A balanced text in parentheses is a group.
pub proof fn lemma_wrap_group(u: Seq<char>)
    requires
        balanced(u),
    ensures
        group(seq!['('] + u + seq![')']),
        unit(seq!['('] + u + seq![')']),
        stripped(seq!['('] + u + seq![')'], '(', ')') == Some(u),
{
    let open = seq!['('];
    let head = open + u;
    let g = head + seq![')'];
    assert(nesting(open, 1) == 1) by {
        assert(nesting(open, 0) == 0);
    }
    assert forall|k: int| 0 < k < g.len() implies nesting(g, k) > 0 by {
        lemma_nesting_prefix(head, seq![')'], k);
        lemma_nesting_concat(open, u, k - 1);
    }
    lemma_nesting_prefix(head, seq![')'], head.len() as int);
    lemma_nesting_concat(open, u, u.len() as int);
    assert(g[g.len() - 1] == ')');
    assert(g[0] == '(');
    assert(g.subrange(1, g.len() - 1) =~= u);
}

/// Units joined by single spaces are balanced.
pub proof fn lemma_join_balanced(units: Seq<Seq<char>>)
    requires
        forall|i: int| 0 <= i < units.len() ==> unit(#[trigger] units[i]),
    ensures
        balanced(join(units)),
    decreases units.len(),
{
    if units.len() == 0 {
        assert(nesting(join(units), 0) == 0);
    } else if units.len() == 1 {
        lemma_unit_balanced(units[0]);
    } else {
        let rest = units.drop_last();
        assert forall|i: int| 0 <= i < rest.len() implies unit(#[trigger] rest[i]) by {
            assert(rest[i] == units[i]);
        }
        lemma_join_balanced(rest);
        lemma_plain_balanced(seq![' ']);
        lemma_balanced_concat(join(rest), seq![' ']);
        lemma_unit_balanced(units.last());
        lemma_balanced_concat(join(rest) + seq![' '], units.last());
    }
}

/// A unit is one token.
pub proof fn lemma_unit_is_token(u: Seq<char>)
    requires
        unit(u),
    ensures
        clean(u),
        scan_tokens(u) == seq![u],
{
    if atom(u) {
        lemma_atom_is_token(u);
    } else {
        lemma_group_is_token(u);
    }
}

/// The tokens of units joined by single spaces are the units.
pub proof fn lemma_join_tokens(units: Seq<Seq<char>>)
    requires
        forall|i: int| 0 <= i < units.len() ==> unit(#[trigger] units[i]),
    ensures
        tokens_of(join(units)) == units,
        trim(join(units)) == join(units),
        units.len() > 0 ==> join(units).len() > 0 && join(units)[0] == units[0][0] && join(
            units,
        ).last() == units.last().last(),
    decreases units.len(),
{
    lemma_join_scan(units);
    let text = join(units);
    lemma_trim_range(text, 0, text.len() as int);
    assert(text.subrange(0, text.len() as int) =~= text);
    if units.len() == 0 {
        assert(scan_tokens(text) =~= units);
    }
}

proof fn lemma_join_scan(units: Seq<Seq<char>>)
    requires
        forall|i: int| 0 <= i < units.len() ==> unit(#[trigger] units[i]),
    ensures
        units.len() > 0 ==> {
            &&& clean(join(units))
            &&& scan_tokens(join(units)) == units
            &&& join(units).len() > 0
            &&& join(units)[0] == units[0][0]
            &&& join(units).last() == units.last().last()
        },
    decreases units.len(),
{
    if units.len() == 1 {
        lemma_unit_is_token(units[0]);
        assert(seq![units[0]] =~= units);
    } else if units.len() > 1 {
        let rest = units.drop_last();
        assert forall|i: int| 0 <= i < rest.len() implies unit(#[trigger] rest[i]) by {
            assert(rest[i] == units[i]);
        }
        lemma_join_scan(rest);
        lemma_unit_is_token(units.last());
        lemma_tokens_compose(join(rest), seq![' '], units.last());
        assert(rest + seq![units.last()] =~= units);
        assert(rest[0] == units[0]);
        let text = join(units);
        assert(text[0] == join(rest)[0]);
        assert(text.last() == units.last().last());
    }
}

} // verus!
