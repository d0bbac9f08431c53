//! The tokenizer: a scanner that segments raw script text into
//! command-invocation and comment tokens, skipping whitespace and anything
//! the grammar does not recognize.
//!
//! The grammar, in matching priority order:
//! 1. a run of whitespace (space, tab, carriage return, newline, form feed)
//!    is discarded;
//! 2. a comment — `//` or `#` up to the end of the line — has its marker
//!    stripped and its body trimmed; it is kept or discarded depending on
//!    the tokenizer's comment policy;
//! 3. an invocation — a maximal run of words (ASCII alphanumeric, `-`, `_`)
//!    separated by single spaces — is split on its first interior space into
//!    a name and an argument remainder;
//! 4. any other character is ignorable and discarded.

use vstd::prelude::*;

verus! {

use vstd::string::StrSliceExecFns;

/// True when `c` belongs to the grammar's whitespace class: space, tab,
/// carriage return, newline, form feed.
pub open spec fn is_space_char(c: char) -> bool {
    c == ' ' || c == '\t' || c == '\r' || c == '\n' || c == '\u{000C}'
}

/// True when `c` may appear in a word of an invocation: ASCII alphanumeric,
/// `-` or `_`.
pub open spec fn is_word_char(c: char) -> bool {
    ('a' <= c && c <= 'z') || ('A' <= c && c <= 'Z') || ('0' <= c && c <= '9') || c == '-' || c
        == '_'
}

/// Runtime check for [`is_space_char`].
pub fn space_char(c: char) -> (r: bool)
    ensures
        r == is_space_char(c),
{
    c == ' ' || c == '\t' || c == '\r' || c == '\n' || c == '\u{000C}'
}

/// Runtime check for [`is_word_char`].
pub fn word_char(c: char) -> (r: bool)
    ensures
        r == is_word_char(c),
{
    let u = c as u32;
    (97 <= u && u <= 122) || (65 <= u && u <= 90) || (48 <= u && u <= 57) || u == 45 || u == 95
}

/// The position of the first newline at or after `i`, or the text's length
/// when the line is the last one.
pub open spec fn line_end(s: Seq<char>, i: int) -> int
    decreases s.len() - i,
{
    if i >= s.len() {
        s.len() as int
    } else if s[i] == '\n' {
        i
    } else {
        line_end(s, i + 1)
    }
}

/// Where the greedy invocation lexeme that is being scanned at `i` ends: word
/// characters extend it, and so does a single space that another word
/// follows; anything else stops the scan.
pub open spec fn lexeme_end(s: Seq<char>, i: int) -> int
    decreases s.len() - i,
{
    if i >= s.len() {
        i
    } else if is_word_char(s[i]) {
        lexeme_end(s, i + 1)
    } else if s[i] == ' ' && i + 1 < s.len() && is_word_char(s[i + 1]) {
        lexeme_end(s, i + 1)
    } else {
        i
    }
}

/// The position of the first space at or after `i` and before `end`, or
/// `end` when there is none.
pub open spec fn space_split(s: Seq<char>, i: int, end: int) -> int
    decreases end - i,
{
    if i >= end {
        end
    } else if s[i] == ' ' {
        i
    } else {
        space_split(s, i + 1, end)
    }
}

/// The position of the first non-whitespace character at or after `i` and
/// before `end`, or `end` when all of them are whitespace.
pub open spec fn skip_spaces(s: Seq<char>, i: int, end: int) -> int
    decreases end - i,
{
    if i >= end {
        end
    } else if is_space_char(s[i]) {
        skip_spaces(s, i + 1, end)
    } else {
        i
    }
}

/// One past the last non-whitespace character in `lo..j`, or `lo` when all
/// of them are whitespace.
pub open spec fn trim_end(s: Seq<char>, lo: int, j: int) -> int
    decreases j - lo,
{
    if j <= lo {
        lo
    } else if is_space_char(s[j - 1]) {
        trim_end(s, lo, j - 1)
    } else {
        j
    }
}

/// True when a comment begins at `i`: a `#`, or two slashes.
pub open spec fn is_comment_start(s: Seq<char>, i: int) -> bool {
    s[i] == '#' || (s[i] == '/' && i + 1 < s.len() && s[i + 1] == '/')
}

/// The length of the comment marker at `i`: one character for `#`, two for
/// `//`.
pub open spec fn comment_marker_len(s: Seq<char>, i: int) -> int {
    if s[i] == '#' {
        1
    } else {
        2
    }
}

/// The body of the comment that begins at `i`: the marker is stripped and
/// surrounding whitespace is trimmed away.
pub open spec fn comment_body(s: Seq<char>, i: int) -> Seq<char> {
    let e = line_end(s, i);
    let b = skip_spaces(s, i + comment_marker_len(s, i), e);
    s.subrange(b, trim_end(s, b, e))
}

/// The mathematical value of a token.
pub enum TokenView {
    /// A command invocation: its name and its argument remainder.
    Invocation(Seq<char>, Seq<char>),
    /// A comment body.
    Comment(Seq<char>),
    /// Whitespace or unmatched input; never emitted by the scanner.
    Ignorable,
}

/// The invocation token for the lexeme that begins at `i`: the lexeme is
/// split on its first interior space into the name and the argument
/// remainder; with no interior space the remainder is empty.
pub open spec fn invocation_at(s: Seq<char>, i: int) -> TokenView {
    let e = lexeme_end(s, i);
    let k = space_split(s, i, e);
    TokenView::Invocation(
        s.subrange(i, k),
        if k == e {
            Seq::empty()
        } else {
            s.subrange(k + 1, e)
        },
    )
}

/// The token sequence of `s` from position `i` on. With `keep_comments`,
/// comment bodies are kept as [`TokenView::Comment`] tokens; without it,
/// comments are dropped like whitespace. Ignorable input is always dropped.
pub open spec fn spec_tokens_from(s: Seq<char>, i: int, keep_comments: bool) -> Seq<TokenView>
    decreases s.len() - i,
        via spec_tokens_from_decreases
{
    if i < 0 || i >= s.len() {
        Seq::empty()
    } else if is_space_char(s[i]) {
        spec_tokens_from(s, i + 1, keep_comments)
    } else if is_comment_start(s, i) {
        let rest = spec_tokens_from(s, line_end(s, i), keep_comments);
        if keep_comments {
            seq![TokenView::Comment(comment_body(s, i))] + rest
        } else {
            rest
        }
    } else if is_word_char(s[i]) {
        seq![invocation_at(s, i)] + spec_tokens_from(s, lexeme_end(s, i), keep_comments)
    } else {
        spec_tokens_from(s, i + 1, keep_comments)
    }
}

#[via_fn]
proof fn spec_tokens_from_decreases(s: Seq<char>, i: int, keep_comments: bool) {
    if 0 <= i < s.len() && !is_space_char(s[i]) {
        if is_comment_start(s, i) {
            lemma_comment_step(s, i);
        } else if is_word_char(s[i]) {
            lemma_word_step(s, i);
        }
    }
}

/// The token sequence of the whole of `s`, under the given comment policy.
pub open spec fn spec_tokens(s: Seq<char>, keep_comments: bool) -> Seq<TokenView> {
    spec_tokens_from(s, 0, keep_comments)
}

proof fn lemma_line_end_bounds(s: Seq<char>, i: int)
    requires
        0 <= i <= s.len(),
    ensures
        i <= line_end(s, i) <= s.len(),
    decreases s.len() - i,
{
    if i < s.len() && s[i] != '\n' {
        lemma_line_end_bounds(s, i + 1);
    }
}

proof fn lemma_lexeme_end_bounds(s: Seq<char>, i: int)
    requires
        0 <= i <= s.len(),
    ensures
        i <= lexeme_end(s, i) <= s.len(),
    decreases s.len() - i,
{
    if i < s.len() && (is_word_char(s[i]) || (s[i] == ' ' && i + 1 < s.len() && is_word_char(
        s[i + 1],
    ))) {
        lemma_lexeme_end_bounds(s, i + 1);
    }
}

/// A comment's scan makes progress: its line ends after its marker and
/// within the text.
proof fn lemma_comment_step(s: Seq<char>, i: int)
    requires
        0 <= i < s.len(),
        is_comment_start(s, i),
    ensures
        i + comment_marker_len(s, i) <= line_end(s, i) <= s.len(),
{
    if s[i] == '#' {
        lemma_line_end_bounds(s, i + 1);
        assert(line_end(s, i) == line_end(s, i + 1));
    } else {
        lemma_line_end_bounds(s, i + 2);
        assert(line_end(s, i) == line_end(s, i + 1));
        assert(line_end(s, i + 1) == line_end(s, i + 2));
    }
}

/// An invocation's scan makes progress: its lexeme ends after its first
/// character and within the text.
proof fn lemma_word_step(s: Seq<char>, i: int)
    requires
        0 <= i < s.len(),
        is_word_char(s[i]),
    ensures
        i < lexeme_end(s, i) <= s.len(),
{
    lemma_lexeme_end_bounds(s, i + 1);
    assert(lexeme_end(s, i) == lexeme_end(s, i + 1));
}

/// A lexical token of script text.
#[derive(Debug, PartialEq, Eq)]
pub enum Token {
    /// A command invocation: its name and its argument remainder, the latter
    /// empty when no argument was given.
    Invocation(String, String),
    /// A comment body, marker stripped and whitespace trimmed.
    Comment(String),
    /// Whitespace or unmatched input; never emitted by the scanner.
    Ignorable,
}

impl View for Token {
    type V = TokenView;

    open spec fn view(&self) -> TokenView {
        match self {
            Token::Invocation(name, args) => TokenView::Invocation(name@, args@),
            Token::Comment(body) => TokenView::Comment(body@),
            Token::Ignorable => TokenView::Ignorable,
        }
    }
}

/// The views of a sequence of tokens, element by element.
pub open spec fn token_views(ts: Seq<Token>) -> Seq<TokenView> {
    ts.map_values(|t: Token| t@)
}

/// Runtime scan for [`line_end`].
fn find_line_end(s: &str, i: usize) -> (e: usize)
    requires
        i <= s@.len(),
    ensures
        i <= e <= s@.len(),
        e == line_end(s@, i as int),
{
    let n = s.unicode_len();
    let mut j = i;
    loop
        invariant_except_break
            i <= j <= n,
            n == s@.len(),
            line_end(s@, i as int) == line_end(s@, j as int),
        ensures
            i <= j <= n,
            n == s@.len(),
            j == line_end(s@, i as int),
        decreases n - j,
    {
        if j == n {
            break ;
        }
        if s.get_char(j) == '\n' {
            break ;
        }
        j = j + 1;
    }
    j
}

/// Runtime scan for [`lexeme_end`].
fn find_lexeme_end(s: &str, i: usize) -> (e: usize)
    requires
        i <= s@.len(),
    ensures
        i <= e <= s@.len(),
        e == lexeme_end(s@, i as int),
{
    let n = s.unicode_len();
    let mut j = i;
    loop
        invariant_except_break
            i <= j <= n,
            n == s@.len(),
            lexeme_end(s@, i as int) == lexeme_end(s@, j as int),
        ensures
            i <= j <= n,
            n == s@.len(),
            j == lexeme_end(s@, i as int),
        decreases n - j,
    {
        if j == n {
            break ;
        }
        let c = s.get_char(j);
        if word_char(c) {
            j = j + 1;
        } else if c == ' ' && j + 1 < n && word_char(s.get_char(j + 1)) {
            j = j + 1;
        } else {
            break ;
        }
    }
    j
}

/// Runtime scan for [`space_split`].
pub(crate) fn find_space(s: &str, i: usize, end: usize) -> (k: usize)
    requires
        i <= end <= s@.len(),
    ensures
        i <= k <= end,
        k == space_split(s@, i as int, end as int),
{
    let mut j = i;
    loop
        invariant_except_break
            i <= j <= end,
            end <= s@.len(),
            space_split(s@, i as int, end as int) == space_split(s@, j as int, end as int),
        ensures
            i <= j <= end,
            j == space_split(s@, i as int, end as int),
        decreases end - j,
    {
        if j == end {
            break ;
        }
        if s.get_char(j) == ' ' {
            break ;
        }
        j = j + 1;
    }
    j
}

/// Runtime scan for [`skip_spaces`].
fn find_body_start(s: &str, i: usize, end: usize) -> (b: usize)
    requires
        i <= end <= s@.len(),
    ensures
        i <= b <= end,
        b == skip_spaces(s@, i as int, end as int),
{
    let mut j = i;
    loop
        invariant_except_break
            i <= j <= end,
            end <= s@.len(),
            skip_spaces(s@, i as int, end as int) == skip_spaces(s@, j as int, end as int),
        ensures
            i <= j <= end,
            j == skip_spaces(s@, i as int, end as int),
        decreases end - j,
    {
        if j == end {
            break ;
        }
        if !space_char(s.get_char(j)) {
            break ;
        }
        j = j + 1;
    }
    j
}

/// Runtime scan for [`trim_end`].
fn find_body_end(s: &str, lo: usize, hi: usize) -> (b: usize)
    requires
        lo <= hi <= s@.len(),
    ensures
        lo <= b <= hi,
        b == trim_end(s@, lo as int, hi as int),
{
    let mut j = hi;
    loop
        invariant_except_break
            lo <= j <= hi,
            hi <= s@.len(),
            trim_end(s@, lo as int, hi as int) == trim_end(s@, lo as int, j as int),
        ensures
            lo <= j <= hi,
            j == trim_end(s@, lo as int, hi as int),
        decreases j - lo,
    {
        if j == lo {
            break ;
        }
        if !space_char(s.get_char(j - 1)) {
            break ;
        }
        j = j - 1;
    }
    j
}

/// Scans the whole of `input` and returns its tokens in order: one
/// [`Token::Invocation`] per invocation lexeme, and, when `keep_comments` is
/// set, one [`Token::Comment`] per comment. Whitespace and unmatched input
/// are discarded. The scan is a pure function of its arguments: it keeps no
/// state across calls.
pub fn tokenize(input: &str, keep_comments: bool) -> (r: Vec<Token>)
    ensures
        token_views(r@) == spec_tokens(input@, keep_comments),
{
    let n = input.unicode_len();
    let mut toks: Vec<Token> = Vec::new();
    let mut i: usize = 0;
    proof {
        assert(token_views(toks@) + spec_tokens_from(input@, 0, keep_comments) =~= spec_tokens(
            input@,
            keep_comments,
        ));
    }
    while i < n
        invariant
            i <= n,
            n == input@.len(),
            token_views(toks@) + spec_tokens_from(input@, i as int, keep_comments) == spec_tokens(
                input@,
                keep_comments,
            ),
        decreases n - i,
    {
        let ghost prev = toks@;
        let ghost gi = i as int;
        let c = input.get_char(i);
        if space_char(c) {
            i = i + 1;
            proof {
                assert(spec_tokens_from(input@, gi, keep_comments) == spec_tokens_from(
                    input@,
                    gi + 1,
                    keep_comments,
                ));
            }
        } else if c == '#' || (c == '/' && i + 1 < n && input.get_char(i + 1) == '/') {
            let e = find_line_end(input, i);
            proof {
                lemma_comment_step(input@, gi);
            }
            if keep_comments {
                let mlen: usize = if c == '#' {
                    1
                } else {
                    2
                };
                let bs = find_body_start(input, i + mlen, e);
                let be = find_body_end(input, bs, e);
                let body = input.substring_char(bs, be).to_owned();
                toks.push(Token::Comment(body));
                proof {
                    let tok = TokenView::Comment(comment_body(input@, gi));
                    assert(token_views(toks@) =~= token_views(prev).push(tok));
                    assert(token_views(prev).push(tok) + spec_tokens_from(
                        input@,
                        e as int,
                        keep_comments,
                    ) =~= token_views(prev) + (seq![tok] + spec_tokens_from(
                        input@,
                        e as int,
                        keep_comments,
                    )));
                }
            }
            i = e;
        } else if word_char(c) {
            let e = find_lexeme_end(input, i);
            proof {
                lemma_word_step(input@, gi);
            }
            let k = find_space(input, i, e);
            let name = input.substring_char(i, k).to_owned();
            let args = if k < e {
                input.substring_char(k + 1, e).to_owned()
            } else {
                String::new()
            };
            toks.push(Token::Invocation(name, args));
            proof {
                let tok = invocation_at(input@, gi);
                assert(token_views(toks@) =~= token_views(prev).push(tok));
                assert(token_views(prev).push(tok) + spec_tokens_from(
                    input@,
                    e as int,
                    keep_comments,
                ) =~= token_views(prev) + (seq![tok] + spec_tokens_from(
                    input@,
                    e as int,
                    keep_comments,
                )));
            }
            i = e;
        } else {
            i = i + 1;
            proof {
                assert(spec_tokens_from(input@, gi, keep_comments) == spec_tokens_from(
                    input@,
                    gi + 1,
                    keep_comments,
                ));
            }
        }
    }
    proof {
        assert(token_views(toks@) + spec_tokens_from(input@, n as int, keep_comments)
            =~= token_views(toks@));
    }
    toks
}

/// The invocation tokens of a token sequence, in their original order.
pub open spec fn invocations_of(ts: Seq<TokenView>) -> Seq<TokenView>
    decreases ts.len(),
{
    if ts.len() == 0 {
        Seq::empty()
    } else {
        let rest = invocations_of(ts.drop_last());
        if ts.last() is Invocation {
            rest.push(ts.last())
        } else {
            rest
        }
    }
}

proof fn lemma_invocations_of_add(a: Seq<TokenView>, b: Seq<TokenView>)
    ensures
        invocations_of(a + b) == invocations_of(a) + invocations_of(b),
    decreases b.len(),
{
    if b.len() == 0 {
        assert(a + b =~= a);
        assert(invocations_of(b) =~= Seq::<TokenView>::empty());
        assert(invocations_of(a) + invocations_of(b) =~= invocations_of(a));
    } else {
        lemma_invocations_of_add(a, b.drop_last());
        assert((a + b).drop_last() =~= a + b.drop_last());
        assert((a + b).last() == b.last());
        if b.last() is Invocation {
            assert(invocations_of(a) + invocations_of(b) =~= (invocations_of(a) + invocations_of(
                b.drop_last(),
            )).push(b.last()));
        } else {
            assert(invocations_of(a) + invocations_of(b) =~= invocations_of(a) + invocations_of(
                b.drop_last(),
            ));
        }
    }
}

/// Law: the comment policy is cosmetic for dispatch — the comment-dropping
/// scan yields exactly the invocation tokens of the comment-keeping scan,
/// in the same order.
pub proof fn lemma_comment_policy_preserves_invocations(text: Seq<char>)
    ensures
        spec_tokens(text, false) == invocations_of(spec_tokens(text, true)),
{
    lemma_policy_from(text, 0);
}

proof fn lemma_policy_from(s: Seq<char>, i: int)
    requires
        0 <= i,
    ensures
        spec_tokens_from(s, i, false) == invocations_of(spec_tokens_from(s, i, true)),
    decreases s.len() - i,
{
    if i >= s.len() {
        assert(invocations_of(spec_tokens_from(s, i, true)) =~= Seq::<TokenView>::empty());
    } else if is_space_char(s[i]) {
        lemma_policy_from(s, i + 1);
    } else if is_comment_start(s, i) {
        lemma_comment_step(s, i);
        let e = line_end(s, i);
        lemma_policy_from(s, e);
        let ct = TokenView::Comment(comment_body(s, i));
        let rest = spec_tokens_from(s, e, true);
        lemma_invocations_of_add(seq![ct], rest);
        assert(seq![ct].drop_last() =~= Seq::<TokenView>::empty());
        assert(invocations_of(Seq::<TokenView>::empty()) =~= Seq::<TokenView>::empty());
        assert(invocations_of(seq![ct]) =~= Seq::<TokenView>::empty());
        assert(invocations_of(seq![ct]) + invocations_of(rest) =~= invocations_of(rest));
    } else if is_word_char(s[i]) {
        lemma_word_step(s, i);
        let e = lexeme_end(s, i);
        lemma_policy_from(s, e);
        let tok = invocation_at(s, i);
        let rest = spec_tokens_from(s, e, true);
        lemma_invocations_of_add(seq![tok], rest);
        assert(seq![tok].drop_last() =~= Seq::<TokenView>::empty());
        assert(invocations_of(Seq::<TokenView>::empty()) =~= Seq::<TokenView>::empty());
        assert(invocations_of(seq![tok]) =~= seq![tok]);
        assert(seq![tok] + invocations_of(rest) =~= invocations_of(seq![tok]) + invocations_of(
            rest,
        ));
    } else {
        lemma_policy_from(s, i + 1);
    }
}

/// Law: the scanner never yields an ignorable token — whitespace and
/// unmatched input are always discarded, under either comment policy.
pub proof fn lemma_no_ignorable_tokens(text: Seq<char>, keep_comments: bool)
    ensures
        forall|k: int|
            0 <= k < spec_tokens(text, keep_comments).len() ==> !((#[trigger] spec_tokens(
                text,
                keep_comments,
            )[k]) is Ignorable),
{
    lemma_no_ignorable_from(text, 0, keep_comments);
}

proof fn lemma_no_ignorable_from(s: Seq<char>, i: int, keep_comments: bool)
    requires
        0 <= i,
    ensures
        forall|k: int|
            0 <= k < spec_tokens_from(s, i, keep_comments).len() ==> !((
            #[trigger] spec_tokens_from(s, i, keep_comments)[k]) is Ignorable),
    decreases s.len() - i,
{
    if i >= s.len() {
    } else if is_space_char(s[i]) {
        lemma_no_ignorable_from(s, i + 1, keep_comments);
    } else if is_comment_start(s, i) {
        lemma_comment_step(s, i);
        lemma_no_ignorable_from(s, line_end(s, i), keep_comments);
        if keep_comments {
            let ct = TokenView::Comment(comment_body(s, i));
            let rest = spec_tokens_from(s, line_end(s, i), keep_comments);
            assert forall|k: int| 0 <= k < (seq![ct] + rest).len() implies !((#[trigger] (seq![ct]
                + rest)[k]) is Ignorable) by {
                if k > 0 {
                    assert((seq![ct] + rest)[k] == rest[k - 1]);
                }
            }
        }
    } else if is_word_char(s[i]) {
        lemma_word_step(s, i);
        lemma_no_ignorable_from(s, lexeme_end(s, i), keep_comments);
        let tok = invocation_at(s, i);
        let rest = spec_tokens_from(s, lexeme_end(s, i), keep_comments);
        assert forall|k: int| 0 <= k < (seq![tok] + rest).len() implies !((#[trigger] (seq![tok]
            + rest)[k]) is Ignorable) by {
            if k > 0 {
                assert((seq![tok] + rest)[k] == rest[k - 1]);
            }
        }
    } else {
        lemma_no_ignorable_from(s, i + 1, keep_comments);
    }
}

/// Law: the tokenizer is stateless and deterministic — two scans of
/// identical text under the same comment policy yield identical token
/// sequences.
pub proof fn lemma_tokenize_deterministic(
    text: Seq<char>,
    keep_comments: bool,
    first: Seq<TokenView>,
    second: Seq<TokenView>,
)
    requires
        first == spec_tokens(text, keep_comments),
        second == spec_tokens(text, keep_comments),
    ensures
        first == second,
{
}

} // verus!
