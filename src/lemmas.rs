//! What holds of the lexical grammar, and so of every scanner.
use vstd::prelude::*;
use crate::grammar::{
    comment_at, cursor_after, digit_run, is_digit, is_space, is_word_char,
    is_word_start, kinds, kinds_from, left_from, lexeme, line_col, line_rest, space_run, step,
    token_start, trivia_len, word_run,
};
use crate::tokens::{word_kind, KindView, TokenView};

verus! {

/// Token `a` does not come after token `b` in reading order.
pub open spec fn not_after(a: TokenView, b: TokenView) -> bool {
    a.line < b.line || (a.line == b.line && a.col <= b.col)
}

proof fn lemma_space_run_bound(s: Seq<char>, i: int)
    requires
        0 <= i <= s.len(),
    ensures
        i + space_run(s, i) <= s.len(),
    decreases s.len() - i,
{
    if i < s.len() {
        lemma_space_run_bound(s, i + 1);
    }
}

proof fn lemma_digit_run_bound(s: Seq<char>, i: int)
    requires
        0 <= i <= s.len(),
    ensures
        i + digit_run(s, i) <= s.len(),
    decreases s.len() - i,
{
    if i < s.len() {
        lemma_digit_run_bound(s, i + 1);
    }
}

proof fn lemma_word_run_bound(s: Seq<char>, i: int)
    requires
        0 <= i <= s.len(),
    ensures
        i + word_run(s, i) <= s.len(),
    decreases s.len() - i,
{
    if i < s.len() {
        lemma_word_run_bound(s, i + 1);
    }
}

proof fn lemma_line_rest_bound(s: Seq<char>, i: int)
    requires
        0 <= i <= s.len(),
    ensures
        i + line_rest(s, i) <= s.len(),
    decreases s.len() - i,
{
    if i < s.len() {
        lemma_line_rest_bound(s, i + 1);
    }
}

/// Whitespace and comments end within the input.
pub proof fn lemma_trivia_bound(s: Seq<char>, p: int)
    requires
        0 <= p <= s.len(),
    ensures
        p <= token_start(s, p) <= s.len(),
    decreases s.len() - p,
{
    lemma_space_run_bound(s, p);
    let q = p + space_run(s, p);
    if comment_at(s, q) {
        lemma_line_rest_bound(s, q + 2);
        lemma_trivia_bound(s, q + 2 + line_rest(s, q + 2));
    }
}

/// A lexeme ends within the input; before the end of the input it is not
/// empty and its kind is not `Eof`.
pub proof fn lemma_lexeme_bound(s: Seq<char>, q: int)
    requires
        0 <= q <= s.len(),
    ensures
        q + lexeme(s, q).1 <= s.len(),
        q < s.len() ==> lexeme(s, q).1 >= 1 && lexeme(s, q).0 != KindView::Eof,
        q == s.len() ==> lexeme(s, q) == (KindView::Eof, 0nat),
{
    if q < s.len() {
        lemma_digit_run_bound(s, q + 1);
        lemma_word_run_bound(s, q + 1);
    }
}

/// The cursor stays within the input, and each token starts at or after the
/// cursor it was read from and ends where the next read begins.
pub proof fn lemma_step_bound(s: Seq<char>, p: int)
    requires
        0 <= p <= s.len(),
    ensures
        p <= token_start(s, p) <= step(s, p).1 <= s.len(),
{
    lemma_trivia_bound(s, p);
    lemma_lexeme_bound(s, token_start(s, p));
}

/// Once the scanner has returned `Eof`, it returns the same `Eof` token, at
/// the same line and column, on every later call, and its cursor stays put.
pub proof fn lemma_eof_stable(s: Seq<char>, p: int)
    requires
        0 <= p <= s.len(),
        step(s, p).0.kind == KindView::Eof,
    ensures
        step(s, step(s, p).1) == step(s, p),
        step(s, p).1 == s.len(),
{
    lemma_step_bound(s, p);
    let q = token_start(s, p);
    lemma_lexeme_bound(s, q);
    assert(q == s.len());
    assert(space_run(s, q) == 0);
    assert(token_start(s, q) == q);
}

/// The kinds read from a cursor are those of the successive reads: the
/// kind of the token read there, then, unless it is `Eof`, the kinds read
/// from the cursor after it.
pub proof fn lemma_kinds_are_reads(s: Seq<char>, p: int)
    requires
        0 <= p <= s.len(),
    ensures
        kinds_from(s, p) == if step(s, p).0.kind == KindView::Eof {
            seq![KindView::Eof]
        } else {
            seq![step(s, p).0.kind] + kinds_from(s, step(s, p).1)
        },
{
    lemma_trivia_bound(s, p);
    lemma_lexeme_bound(s, token_start(s, p));
}

/// The line and column only move forward: a later position is on a later
/// line, or on the same line at a column no smaller.
pub proof fn lemma_line_col_monotone(s: Seq<char>, a: int, b: int)
    requires
        0 <= a <= b,
    ensures
        line_col(s, a).0 < line_col(s, b).0 || (line_col(s, a).0 == line_col(s, b).0
            && line_col(s, a).1 <= line_col(s, b).1),
    decreases b - a,
{
    if a < b {
        lemma_line_col_monotone(s, a, b - 1);
    }
}

/// Without a line feed between two positions they lie on one line, as many
/// columns apart as characters; with one, the later lies on a later line.
pub proof fn lemma_line_feeds(s: Seq<char>, a: int, b: int)
    requires
        0 <= a <= b <= s.len(),
    ensures
        (forall|j: int| a <= j < b ==> #[trigger] s[j] != '\n') ==> line_col(s, b).0 == line_col(
            s,
            a,
        ).0 && line_col(s, b).1 == line_col(s, a).1 + (b - a),
        (exists|j: int| a <= j < b && #[trigger] s[j] == '\n') ==> line_col(s, b).0 > line_col(
            s,
            a,
        ).0,
    decreases b - a,
{
    if a < b {
        lemma_line_feeds(s, a, b - 1);
        lemma_line_col_monotone(s, a, b - 1);
        if exists|j: int| a <= j < b && #[trigger] s[j] == '\n' {
            let j = choose|j: int| a <= j < b && #[trigger] s[j] == '\n';
            if j < b - 1 {
                assert(exists|k: int| a <= k < b - 1 && #[trigger] s[k] == '\n');
            }
        }
    }
}

/// The cursor only moves forward, and so do the starts of the tokens read.
pub proof fn lemma_cursor_monotone(s: Seq<char>, p: int, i: nat, j: nat)
    requires
        0 <= p <= s.len(),
        i <= j,
    ensures
        p <= cursor_after(s, p, i) <= cursor_after(s, p, j) <= s.len(),
        token_start(s, cursor_after(s, p, i)) <= token_start(s, cursor_after(s, p, j)),
    decreases j,
{
    if j > 0 {
        let k = (j - 1) as nat;
        lemma_cursor_monotone(s, p, if i < j { i } else { k }, k);
        let c = cursor_after(s, p, k);
        lemma_step_bound(s, c);
        lemma_step_bound(s, step(s, c).1);
    }
}

/// Of two tokens read from one scanner, the later one never starts before
/// the earlier one in reading order. Without a line feed between their
/// starts they lie on one line, as many columns apart as characters; with
/// one, the later token lies on a later line.
pub proof fn lemma_positions_ordered(s: Seq<char>, p: int, i: nat, j: nat)
    requires
        0 <= p <= s.len(),
        i <= j,
    ensures
        ({
            let a = token_start(s, cursor_after(s, p, i));
            let b = token_start(s, cursor_after(s, p, j));
            let t1 = step(s, cursor_after(s, p, i)).0;
            let t2 = step(s, cursor_after(s, p, j)).0;
            &&& not_after(t1, t2)
            &&& a <= b
            &&& (forall|k: int| a <= k < b ==> #[trigger] s[k] != '\n') ==> t2.line == t1.line
                && t2.col == t1.col + (b - a)
            &&& (exists|k: int| a <= k < b && #[trigger] s[k] == '\n') ==> t2.line > t1.line
        }),
{
    lemma_cursor_monotone(s, p, i, j);
    lemma_cursor_monotone(s, p, 0, i);
    lemma_cursor_monotone(s, p, 0, j);
    lemma_trivia_bound(s, cursor_after(s, p, i));
    lemma_trivia_bound(s, cursor_after(s, p, j));
    let a = token_start(s, cursor_after(s, p, i));
    let b = token_start(s, cursor_after(s, p, j));
    lemma_line_col_monotone(s, a, b);
    lemma_line_feeds(s, a, b);
}

proof fn lemma_digit_run_spans(s: Seq<char>, i: int)
    requires
        0 <= i <= s.len(),
    ensures
        forall|j: int| i <= j < i + digit_run(s, i) ==> is_digit(#[trigger] s[j]),
        i + digit_run(s, i) == s.len() || !is_digit(s[i + digit_run(s, i)]),
    decreases s.len() - i,
{
    if i < s.len() {
        lemma_digit_run_spans(s, i + 1);
    }
}

proof fn lemma_word_run_spans(s: Seq<char>, i: int)
    requires
        0 <= i <= s.len(),
    ensures
        forall|j: int| i <= j < i + word_run(s, i) ==> is_word_char(#[trigger] s[j]),
        i + word_run(s, i) == s.len() || !is_word_char(s[i + word_run(s, i)]),
    decreases s.len() - i,
{
    if i < s.len() {
        lemma_word_run_spans(s, i + 1);
    }
}

/// An integer or identifier lexeme takes every digit, or every word
/// character, that follows its first character, and stops only at the end of
/// the input or at a character that cannot continue it. So a run of digits,
/// or of word characters, is never split over two tokens.
pub proof fn lemma_maximal_munch(s: Seq<char>, q: int)
    requires
        0 <= q < s.len(),
    ensures
        is_digit(s[q]) ==> {
            let n = lexeme(s, q).1;
            &&& lexeme(s, q).0 is Int
            &&& forall|j: int| q <= j < q + n ==> is_digit(#[trigger] s[j])
            &&& q + n == s.len() || !is_digit(s[q + n])
        },
        is_word_start(s[q]) ==> {
            let n = lexeme(s, q).1;
            &&& lexeme(s, q).0 == word_kind(s.subrange(q, q + n))
            &&& forall|j: int| q <= j < q + n ==> is_word_char(#[trigger] s[j])
            &&& q + n == s.len() || !is_word_char(s[q + n])
        },
{
    lemma_digit_run_spans(s, q + 1);
    lemma_word_run_spans(s, q + 1);
}

proof fn lemma_word_run_exact(s: Seq<char>, i: int, m: nat)
    requires
        0 <= i,
        i + m <= s.len(),
        forall|j: int| i <= j < i + m ==> is_word_char(#[trigger] s[j]),
        i + m == s.len() || !is_word_char(s[i + m]),
    ensures
        word_run(s, i) == m,
    decreases m,
{
    if m > 0 {
        lemma_word_run_exact(s, i + 1, (m - 1) as nat);
    }
}

/// The words `set`, `true` and `false`.
pub open spec fn is_reserved(w: Seq<char>) -> bool {
    w == seq!['s', 'e', 't'] || w == seq!['t', 'r', 'u', 'e'] || w == seq![
        'f',
        'a',
        'l',
        's',
        'e',
    ]
}

/// Wherever a reserved word is read as a whole word, whatever comes before
/// it, it yields its reserved kind, never an identifier.
pub proof fn lemma_reserved_word(s: Seq<char>, q: int, w: Seq<char>)
    requires
        is_reserved(w),
        0 <= q,
        q + w.len() <= s.len(),
        s.subrange(q, q + w.len()) == w,
        q + w.len() == s.len() || !is_word_char(s[q + w.len()]),
    ensures
        lexeme(s, q) == (word_kind(w), w.len()),
        !(lexeme(s, q).0 is Ident),
        w == seq!['s', 'e', 't'] ==> lexeme(s, q).0 == KindView::SetKw,
        w == seq!['t', 'r', 'u', 'e'] ==> lexeme(s, q).0 == KindView::True,
        w == seq!['f', 'a', 'l', 's', 'e'] ==> lexeme(s, q).0 == KindView::False,
{
    assert forall|j: int| q + 1 <= j < q + w.len() implies is_word_char(#[trigger] s[j]) by {
        assert(s[j] == w[j - q]);
    }
    assert(s[q] == w[0]);
    lemma_word_run_exact(s, q + 1, (w.len() - 1) as nat);
}

// Lexing looks only forward: equal tails give equal results.
proof fn lemma_tail_skip(s: Seq<char>, a: int, t: Seq<char>, b: int, k: int)
    requires
        0 <= a <= s.len(),
        0 <= b <= t.len(),
        s.subrange(a, s.len() as int) == t.subrange(b, t.len() as int),
        0 <= k <= s.len() - a,
    ensures
        s.subrange(a + k, s.len() as int) == t.subrange(b + k, t.len() as int),
        s.len() - a == t.len() - b,
        k < s.len() - a ==> s[a + k] == t[b + k],
{
    let u = s.subrange(a, s.len() as int);
    assert(u.len() == s.len() - a);
    assert(t.subrange(b, t.len() as int).len() == t.len() - b);
    assert(s.subrange(a + k, s.len() as int) =~= u.subrange(k, u.len() as int));
    assert(t.subrange(b + k, t.len() as int) =~= t.subrange(b, t.len() as int).subrange(
        k,
        u.len() as int,
    ));
    if k < s.len() - a {
        assert(s[a + k] == u[k]);
        assert(t[b + k] == t.subrange(b, t.len() as int)[k]);
    }
}

proof fn lemma_tail_runs(s: Seq<char>, a: int, t: Seq<char>, b: int)
    requires
        0 <= a <= s.len(),
        0 <= b <= t.len(),
        s.subrange(a, s.len() as int) == t.subrange(b, t.len() as int),
    ensures
        space_run(s, a) == space_run(t, b),
        digit_run(s, a) == digit_run(t, b),
        word_run(s, a) == word_run(t, b),
        line_rest(s, a) == line_rest(t, b),
    decreases s.len() - a,
{
    lemma_tail_skip(s, a, t, b, 0);
    if a < s.len() {
        lemma_tail_skip(s, a, t, b, 1);
        lemma_tail_runs(s, a + 1, t, b + 1);
    }
}

proof fn lemma_tail_trivia(s: Seq<char>, a: int, t: Seq<char>, b: int)
    requires
        0 <= a <= s.len(),
        0 <= b <= t.len(),
        s.subrange(a, s.len() as int) == t.subrange(b, t.len() as int),
    ensures
        trivia_len(s, a) == trivia_len(t, b),
    decreases left_from(s, a),
{
    lemma_tail_runs(s, a, t, b);
    lemma_space_run_bound(s, a);
    let r = space_run(s, a) as int;
    lemma_tail_skip(s, a, t, b, r);
    if r + 1 < s.len() - a {
        lemma_tail_skip(s, a, t, b, r + 1);
    }
    let q = a + r;
    if comment_at(s, q) {
        lemma_tail_skip(s, a, t, b, r + 2);
        lemma_tail_runs(s, q + 2, t, b + r + 2);
        lemma_line_rest_bound(s, q + 2);
        let c = 2 + line_rest(s, q + 2);
        lemma_tail_skip(s, a, t, b, r + c);
        lemma_tail_trivia(s, q + c, t, b + r + c);
    }
}

proof fn lemma_tail_lexeme(s: Seq<char>, a: int, t: Seq<char>, b: int)
    requires
        0 <= a <= s.len(),
        0 <= b <= t.len(),
        s.subrange(a, s.len() as int) == t.subrange(b, t.len() as int),
    ensures
        lexeme(s, a) == lexeme(t, b),
{
    lemma_tail_skip(s, a, t, b, 0);
    if a < s.len() {
        lemma_tail_skip(s, a, t, b, 1);
        lemma_tail_runs(s, a + 1, t, b + 1);
        if a + 1 < s.len() {
            lemma_tail_skip(s, a, t, b, 1);
        }
        lemma_lexeme_bound(s, a);
        let n = lexeme(s, a).1 as int;
        assert(s.subrange(a, a + n) =~= s.subrange(a, s.len() as int).subrange(0, n));
        assert(t.subrange(b, b + n) =~= t.subrange(b, t.len() as int).subrange(0, n));
    }
}

proof fn lemma_tail_kinds(s: Seq<char>, a: int, t: Seq<char>, b: int)
    requires
        0 <= a <= s.len(),
        0 <= b <= t.len(),
        s.subrange(a, s.len() as int) == t.subrange(b, t.len() as int),
    ensures
        kinds_from(s, a) == kinds_from(t, b),
    decreases left_from(s, a),
{
    lemma_tail_trivia(s, a, t, b);
    lemma_trivia_bound(s, a);
    let r = trivia_len(s, a) as int;
    lemma_tail_skip(s, a, t, b, r);
    let q = a + r;
    lemma_tail_lexeme(s, q, t, b + r);
    if q < s.len() {
        lemma_lexeme_bound(s, q);
        let n = lexeme(s, q).1 as int;
        lemma_tail_skip(s, a, t, b, r + n);
        lemma_tail_kinds(s, q + n, t, b + r + n);
    }
}

// Lexing a prefix that ends before `i` sees only the characters before `i`.
pub open spec fn agree_before(s: Seq<char>, t: Seq<char>, i: int) -> bool {
    &&& 0 <= i <= s.len()
    &&& i <= t.len()
    &&& forall|j: int| 0 <= j < i ==> #[trigger] s[j] == t[j]
}

proof fn lemma_agree_space(s: Seq<char>, t: Seq<char>, i: int, p: int)
    requires
        agree_before(s, t, i),
        0 <= p,
        p + space_run(s, p) < i,
    ensures
        space_run(t, p) == space_run(s, p),
    decreases s.len() - p,
{
    if p < s.len() && is_space(s[p]) {
        lemma_agree_space(s, t, i, p + 1);
    }
}

proof fn lemma_agree_line_rest(s: Seq<char>, t: Seq<char>, i: int, p: int)
    requires
        agree_before(s, t, i),
        0 <= p,
        p + line_rest(s, p) < i,
    ensures
        line_rest(t, p) == line_rest(s, p),
    decreases s.len() - p,
{
    if p < s.len() && s[p] != '\n' {
        lemma_agree_line_rest(s, t, i, p + 1);
    }
}

proof fn lemma_agree_trivia(s: Seq<char>, t: Seq<char>, i: int, p: int)
    requires
        agree_before(s, t, i),
        0 <= p,
        p + trivia_len(s, p) < i,
        !comment_at(t, token_start(s, p)),
    ensures
        trivia_len(t, p) == trivia_len(s, p),
    decreases left_from(s, p),
{
    let r = space_run(s, p);
    let q = p + r;
    lemma_agree_space(s, t, i, p);
    if comment_at(s, q) {
        let c = 2 + line_rest(s, q + 2);
        assert(s[q] == t[q] && s[q + 1] == t[q + 1]);
        lemma_agree_line_rest(s, t, i, q + 2);
        lemma_agree_trivia(s, t, i, q + c);
    }
}

/// Whitespace and comments are skipped up to a point where neither starts.
proof fn lemma_trivia_end(s: Seq<char>, p: int)
    requires
        0 <= p,
    ensures
        !comment_at(s, token_start(s, p)),
        space_run(s, token_start(s, p)) == 0,
    decreases left_from(s, p),
{
    let r = space_run(s, p);
    let q = p + r;
    lemma_space_run_end(s, p);
    if comment_at(s, q) {
        lemma_trivia_end(s, q + 2 + line_rest(s, q + 2));
    }
}

proof fn lemma_space_run_end(s: Seq<char>, p: int)
    requires
        0 <= p,
    ensures
        space_run(s, p + space_run(s, p)) == 0,
    decreases s.len() - p,
{
    if p < s.len() && is_space(s[p]) {
        lemma_space_run_end(s, p + 1);
    }
}

/// A character that ends every lexeme it follows: it cannot continue a
/// number, a word, or a two-character operator.
pub open spec fn ends_lexeme(c: char) -> bool {
    !is_digit(c) && !is_word_char(c) && c != '='
}

proof fn lemma_agree_runs(s: Seq<char>, t: Seq<char>, i: int, p: int)
    requires
        agree_before(s, t, i),
        0 <= p,
        i < t.len(),
        ends_lexeme(t[i]),
    ensures
        p + digit_run(s, p) <= i ==> digit_run(t, p) == digit_run(s, p),
        p + word_run(s, p) <= i ==> word_run(t, p) == word_run(s, p),
    decreases s.len() - p,
{
    if p < s.len() {
        lemma_agree_runs(s, t, i, p + 1);
    }
}

proof fn lemma_agree_lexeme(s: Seq<char>, t: Seq<char>, i: int, q: int)
    requires
        agree_before(s, t, i),
        0 <= q < i,
        q + lexeme(s, q).1 <= i,
        i < t.len(),
        ends_lexeme(t[i]),
    ensures
        lexeme(t, q) == lexeme(s, q),
{
    assert(s[q] == t[q]);
    lemma_agree_runs(s, t, i, q + 1);
    if q + 1 < i {
        assert(s[q + 1] == t[q + 1]);
    }
    let n = lexeme(s, q).1 as int;
    assert(s.subrange(q, q + n) =~= t.subrange(q, q + n));
}

/// Once a read returns `Eof`, every later read does too.
proof fn lemma_eof_absorbing(s: Seq<char>, p: int, k: nat, j: nat)
    requires
        0 <= p <= s.len(),
        k <= j,
        step(s, cursor_after(s, p, k)).0.kind == KindView::Eof,
    ensures
        step(s, cursor_after(s, p, j)).0.kind == KindView::Eof,
    decreases j,
{
    if k < j {
        lemma_eof_absorbing(s, p, k, (j - 1) as nat);
        lemma_cursor_monotone(s, p, 0, (j - 1) as nat);
        lemma_eof_stable(s, cursor_after(s, p, (j - 1) as nat));
    }
}

/// A non-empty run of whitespace.
pub open spec fn is_space_run(w: Seq<char>) -> bool {
    w.len() > 0 && forall|j: int| 0 <= j < w.len() ==> is_space(#[trigger] w[j])
}

/// A line comment ended by its line feed.
pub open spec fn is_line_comment(w: Seq<char>) -> bool {
    &&& w.len() >= 3
    &&& w[0] == '/'
    &&& w[1] == '/'
    &&& w.last() == '\n'
    &&& forall|j: int| 2 <= j < w.len() - 1 ==> #[trigger] w[j] != '\n'
}

/// `w` inserted into `s` at `i`.
pub open spec fn insert_at(s: Seq<char>, i: int, w: Seq<char>) -> Seq<char> {
    s.subrange(0, i) + w + s.subrange(i, s.len() as int)
}

proof fn lemma_space_prefix(s: Seq<char>, i: int, m: int)
    requires
        0 <= i,
        0 <= m,
        i + m <= s.len(),
        forall|j: int| i <= j < i + m ==> is_space(#[trigger] s[j]),
    ensures
        space_run(s, i) == m + space_run(s, i + m),
    decreases m,
{
    if m > 0 {
        lemma_space_prefix(s, i + 1, m - 1);
    }
}

proof fn lemma_comment_prefix(s: Seq<char>, i: int, m: int)
    requires
        0 <= i,
        0 <= m,
        i + m < s.len(),
        s[i + m] == '\n',
        forall|j: int| i <= j < i + m ==> #[trigger] s[j] != '\n',
    ensures
        line_rest(s, i) == m + 1,
    decreases m,
{
    if m > 0 {
        lemma_comment_prefix(s, i + 1, m - 1);
    }
}

/// Right at the inserted piece, the scanner skips it and goes on as before.
proof fn lemma_insertion_at(s: Seq<char>, i: int, w: Seq<char>)
    requires
        0 <= i <= s.len(),
        is_space_run(w) || is_line_comment(w),
    ensures
        kinds_from(insert_at(s, i, w), i) == kinds_from(s, i),
{
    let u = insert_at(s, i, w);
    let e = i + w.len();
    assert(u.subrange(e, u.len() as int) =~= s.subrange(i, s.len() as int));
    lemma_tail_kinds(u, e, s, i);
    assert forall|j: int| i <= j < e implies #[trigger] u[j] == w[j - i] by {}
    if is_space_run(w) {
        lemma_space_prefix(u, i, w.len() as int);
    } else {
        assert(!is_space(u[i]));
        assert(space_run(u, i) == 0);
        assert(comment_at(u, i));
        lemma_comment_prefix(u, i + 2, w.len() - 3);
    }
    assert(token_start(u, i) == token_start(u, e));
}

proof fn lemma_insertion_from(s: Seq<char>, m: nat, w: Seq<char>, k: nat)
    requires
        k <= m,
        m == 0 || step(s, cursor_after(s, 0, (m - 1) as nat)).0.kind != KindView::Eof,
        is_space_run(w) || is_line_comment(w),
        is_line_comment(w) ==> cursor_after(s, 0, m) == 0 || s[cursor_after(s, 0, m) - 1] != '/',
    ensures
        kinds_from(insert_at(s, cursor_after(s, 0, m), w), cursor_after(s, 0, k)) == kinds_from(
            s,
            cursor_after(s, 0, k),
        ),
    decreases m - k,
{
    let i = cursor_after(s, 0, m);
    let u = insert_at(s, i, w);
    let c = cursor_after(s, 0, k);
    lemma_cursor_monotone(s, 0, k, m);
    lemma_cursor_monotone(s, 0, 0, k);
    if c == i {
        lemma_insertion_at(s, i, w);
    } else {
        lemma_insertion_from(s, m, w, k + 1);
        let q = token_start(s, c);
        lemma_step_bound(s, c);
        if step(s, c).0.kind == KindView::Eof {
            lemma_eof_absorbing(s, 0, k, (m - 1) as nat);
        }
        lemma_cursor_monotone(s, 0, k + 1, m);
        lemma_lexeme_bound(s, q);
        let n = lexeme(s, q).1 as int;
        assert(q < i);
        assert(agree_before(s, u, i));
        assert(u[i] == w[0]);
        assert(ends_lexeme(u[i]));
        lemma_trivia_end(s, c);
        assert(u[q] == s[q]);
        if q + 1 < i {
            assert(u[q + 1] == s[q + 1]);
        }
        if s[q] == '/' {
            assert(n == 1);
            if q + 1 == i {
                if is_space_run(w) {
                    assert(is_space(w[0]));
                }
            }
        }
        assert(!comment_at(u, q));
        lemma_agree_trivia(s, u, i, c);
        lemma_agree_lexeme(s, u, i, q);
        assert(token_start(u, c) == q);
    }
}

/// Inserting a run of whitespace, or a line comment ended by its line feed,
/// where the scanner's cursor rests between two tokens leaves the kinds of
/// all tokens unchanged; only positions shift. Read from right to left, this
/// is also removing such a run or comment. A comment is not inserted right
/// after a `/`, which it would join. The cursor is the one after `m` reads,
/// the last of which did not return `Eof`.
pub proof fn lemma_trivia_insertion(s: Seq<char>, m: nat, w: Seq<char>)
    requires
        m == 0 || step(s, cursor_after(s, 0, (m - 1) as nat)).0.kind != KindView::Eof,
        is_space_run(w) || is_line_comment(w),
        is_line_comment(w) ==> cursor_after(s, 0, m) == 0 || s[cursor_after(s, 0, m) - 1] != '/',
    ensures
        kinds(insert_at(s, cursor_after(s, 0, m), w)) == kinds(s),
{
    lemma_insertion_from(s, m, w, 0);
}

} // verus!
