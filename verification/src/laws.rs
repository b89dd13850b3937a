//! What holds on every input. Of the tokenizer: the tokens account for the
//! whole source, the end marker comes once and last, the token read at a
//! position is the longest that any rule allows there, and tokens written
//! out again with white space between them tokenize to themselves. Of the
//! parser: a token is consumed only where it is the one expected, the
//! arguments of a call are split outside nested parentheses only, and a call
//! has one argument more than it has commas outside nested parentheses.

use crate::grammar::{
    argument_list, arguments, expect, expect_and_consume, function_call,
    lemma_empty_span_is_no_expression, peek, span_len,
};
use crate::text::{
    in_class, is_letter, is_space, is_word, lemma_run_len, lemma_run_len_covers,
    lemma_run_len_is, run_len, CharClass,
};
use crate::token::{carries_text, plain, Lexeme, TokenKind};
use crate::tokenizer::{
    all_in_class, digraph, fixed_text, is_keyword, is_operator, is_truth_value, keyword_of,
    lemma_scan_bounds, lemma_string_end_bounds, number_len, number_shape, punctuation, rank,
    rule_matches, scan, string_end, tokenize, tokenize_from, Scan,
};
use vstd::prelude::*;

verus! {

/// How a token is written in the source.
pub open spec fn spelling(lexeme: Lexeme) -> Seq<char> {
    if carries_text(lexeme.kind) {
        lexeme.text
    } else {
        fixed_text(lexeme.kind)
    }
}

/// Whether a text holds nothing but white space.
pub open spec fn all_space(s: Seq<char>) -> bool {
    forall|i: int| 0 <= i < s.len() ==> is_space(#[trigger] s[i])
}

/// The text that has `gaps[i]` in front of the spelling of `tokens[i]`, for each `i` in turn.
pub open spec fn interleave(gaps: Seq<Seq<char>>, tokens: Seq<Lexeme>) -> Seq<char>
    decreases tokens.len(),
{
    if tokens.len() == 0 || gaps.len() == 0 {
        Seq::empty()
    } else {
        gaps[0] + spelling(tokens[0]) + interleave(gaps.skip(1), tokens.skip(1))
    }
}

/// Whether a lexeme is one the tokenizer can produce from text: its own
/// spelling, taken alone, is read as exactly this lexeme.
pub open spec fn is_lexeme(lexeme: Lexeme) -> bool {
    &&& spelling(lexeme).len() > 0
    &&& scan(spelling(lexeme), 0) == Some(Scan { lexeme, len: spelling(lexeme).len() as int })
}

/// Whether `gaps` can stand between the tokens of a sequence of `count`
/// lexemes that ends in the end marker: all of them white space, and not
/// empty where two tokens would touch.
pub open spec fn separates(gaps: Seq<Seq<char>>, count: nat) -> bool {
    &&& gaps.len() == count
    &&& forall|i: int| 0 <= i < gaps.len() ==> all_space(#[trigger] gaps[i])
    &&& forall|i: int| 0 < i < gaps.len() - 1 ==> (#[trigger] gaps[i]).len() > 0
}

/// A string literal ends where it ends whatever stands around it.
pub proof fn lemma_string_end_local(s: Seq<char>, i: int, u: Seq<char>, j: int, n: int)
    requires
        0 <= i,
        0 <= j,
        string_end(s, i) == Some(i + n),
        j + n <= u.len(),
        u.subrange(j, j + n) == s.subrange(i, i + n),
    ensures
        string_end(u, j) == Some(j + n),
    decreases s.len() - i,
{
    lemma_string_end_bounds(s, i);
    assert(u[j] == u.subrange(j, j + n)[0]);
    assert(s[i] == s.subrange(i, i + n)[0]);
    if s[i] == '"' {
    } else if s[i] == '\\' {
        lemma_string_end_bounds(s, i + 2);
        assert(u[j + 1] == u.subrange(j, j + n)[1]);
        assert(s[i + 1] == s.subrange(i, i + n)[1]);
        assert(u.subrange(j + 2, j + n) =~= u.subrange(j, j + n).subrange(2, n));
        assert(s.subrange(i + 2, i + n) =~= s.subrange(i, i + n).subrange(2, n));
        lemma_string_end_local(s, i + 2, u, j + 2, n - 2);
    } else {
        lemma_string_end_bounds(s, i + 1);
        assert(u.subrange(j + 1, j + n) =~= u.subrange(j, j + n).subrange(1, n));
        assert(s.subrange(i + 1, i + n) =~= s.subrange(i, i + n).subrange(1, n));
        lemma_string_end_local(s, i + 1, u, j + 1, n - 1);
    }
}

/// The characters of two equal stretches are equal one by one.
proof fn lemma_same_chars(s: Seq<char>, p: int, u: Seq<char>, q: int, n: int)
    requires
        0 <= p,
        0 <= q,
        0 <= n,
        p + n <= s.len(),
        q + n <= u.len(),
        u.subrange(q, q + n) == s.subrange(p, p + n),
    ensures
        forall|k: int| q <= k < q + n ==> #[trigger] u[k] == s[p + (k - q)],
{
    assert forall|k: int| q <= k < q + n implies #[trigger] u[k] == s[p + (k - q)] by {
        assert(u[k] == u.subrange(q, q + n)[k - q]);
        assert(s[p + (k - q)] == s.subrange(p, p + n)[k - q]);
    }
}

/// A token is read the same wherever its characters stand, as long as
/// white space or the end of the text follows them.
pub proof fn lemma_scan_local(s: Seq<char>, p: int, u: Seq<char>, q: int)
    requires
        0 <= p < s.len(),
        0 <= q,
        scan(s, p) is Some,
        q + scan(s, p)->0.len <= u.len(),
        u.subrange(q, q + scan(s, p)->0.len) == s.subrange(p, p + scan(s, p)->0.len),
        q + scan(s, p)->0.len < u.len() ==> is_space(u[q + scan(s, p)->0.len]),
    ensures
        scan(u, q) == scan(s, p),
{
    let found = scan(s, p)->0;
    let n = found.len;
    lemma_scan_bounds(s, p);
    lemma_same_chars(s, p, u, q, n);
    assert(u[q] == s[p]);
    if is_word(s[p]) {
        let word = run_len(s, p, CharClass::Word);
        let digits = run_len(s, p, CharClass::Digit);
        lemma_run_len(s, p, CharClass::Word);
        lemma_run_len(s, p, CharClass::Digit);
        if digits == word {
            let fraction = run_len(s, p + word + 1, CharClass::Digit);
            if p + word < s.len() {
                lemma_run_len(s, p + word + 1, CharClass::Digit);
            }
            assert forall|k: int| q <= k < q + word implies in_class(
                CharClass::Digit,
                #[trigger] u[k],
            ) by {
                assert(u[k] == s[p + (k - q)]);
            }
            assert forall|k: int| q <= k < q + word implies in_class(
                CharClass::Word,
                #[trigger] u[k],
            ) by {
                assert(u[k] == s[p + (k - q)]);
            }
            if n > word {
                assert(u[q + word] == s[p + word]);
                assert(n == word + 1 + fraction);
                assert forall|k: int| q + word + 1 <= k < q + n implies in_class(
                    CharClass::Digit,
                    #[trigger] u[k],
                ) by {
                    assert(u[k] == s[p + (k - q)]);
                }
                lemma_run_len_is(u, q, CharClass::Word, word);
                lemma_run_len_is(u, q, CharClass::Digit, word);
                lemma_run_len_is(u, q + word + 1, CharClass::Digit, fraction);
            } else {
                lemma_run_len_is(u, q, CharClass::Word, word);
                lemma_run_len_is(u, q, CharClass::Digit, word);
                if q + word < u.len() {
                    assert(u[q + word] != '.');
                }
            }
            assert(number_len(u, q) == n);
        } else {
            assert(n == word);
            assert forall|k: int| q <= k < q + word implies in_class(
                CharClass::Word,
                #[trigger] u[k],
            ) by {
                assert(u[k] == s[p + (k - q)]);
            }
            assert forall|k: int| q <= k < q + digits implies in_class(
                CharClass::Digit,
                #[trigger] u[k],
            ) by {
                assert(u[k] == s[p + (k - q)]);
            }
            assert(u[q + digits] == s[p + digits]);
            lemma_run_len_is(u, q, CharClass::Word, word);
            lemma_run_len_is(u, q, CharClass::Digit, digits);
        }
    } else if s[p] == '"' {
        assert(u.subrange(q + 1, q + n) =~= u.subrange(q, q + n).subrange(1, n));
        assert(s.subrange(p + 1, p + n) =~= s.subrange(p, p + n).subrange(1, n));
        lemma_string_end_local(s, p + 1, u, q + 1, n - 1);
    } else if s[p] == '\'' {
        assert(u[q + 1] == s[p + 1]);
        assert(u[q + 2] == s[p + 2]);
    } else {
        if n == 2 {
            assert(u[q + 1] == s[p + 1]);
        } else {
            assert(n == 1);
            if q + 1 < u.len() {
                assert(is_space(u[q + 1]));
                assert(digraph(u[q], u[q + 1]) is None);
            }
        }
    }
}

/// What the tokenizer reads is written in the source exactly where it was read.
pub proof fn lemma_scan_spelling(s: Seq<char>, p: int)
    requires
        0 <= p < s.len(),
        scan(s, p) is Some,
    ensures
        spelling(scan(s, p)->0.lexeme) == s.subrange(p, p + scan(s, p)->0.len),
        scan(s, p)->0.lexeme.kind != TokenKind::EOF,
        !is_space(s[p]),
{
    let found = scan(s, p)->0;
    lemma_scan_bounds(s, p);
    if is_word(s[p]) {
    } else if s[p] == '"' {
    } else if s[p] == '\'' {
    } else {
        if found.len == 2 {
            assert(s.subrange(p, p + 2) =~= seq![s[p], s[p + 1]]);
        } else {
            assert(s.subrange(p, p + 1) =~= seq![s[p]]);
        }
    }
}

/// Every token the tokenizer reads is a lexeme in its own right.
pub proof fn lemma_scanned_is_lexeme(s: Seq<char>, p: int)
    requires
        0 <= p < s.len(),
        scan(s, p) is Some,
    ensures
        is_lexeme(scan(s, p)->0.lexeme),
{
    let found = scan(s, p)->0;
    lemma_scan_bounds(s, p);
    lemma_scan_spelling(s, p);
    let alone = spelling(found.lexeme);
    assert(alone.subrange(0, found.len) =~= s.subrange(p, p + found.len));
    lemma_scan_local(s, p, alone, 0);
}

/// The end marker comes once, as the last token.
pub proof fn lemma_end_marker_once(s: Seq<char>, at: int)
    requires
        0 <= at <= s.len(),
        tokenize_from(s, at) is Ok,
    ensures
        tokenize_from(s, at)->Ok_0.len() > 0,
        tokenize_from(s, at)->Ok_0.last() == plain(TokenKind::EOF),
        forall|i: int|
            0 <= i < tokenize_from(s, at)->Ok_0.len() - 1 ==> (#[trigger] tokenize_from(
                s,
                at,
            )->Ok_0[i]).kind != TokenKind::EOF,
        forall|i: int|
            0 <= i < tokenize_from(s, at)->Ok_0.len() - 1 ==> is_lexeme(
                #[trigger] tokenize_from(s, at)->Ok_0[i],
            ),
    decreases s.len() - at,
{
    lemma_run_len(s, at, CharClass::Space);
    let start = at + run_len(s, at, CharClass::Space);
    if start < s.len() {
        let found = scan(s, start)->0;
        lemma_scan_bounds(s, start);
        lemma_scan_spelling(s, start);
        lemma_scanned_is_lexeme(s, start);
        lemma_end_marker_once(s, start + found.len);
    }
}

/// The tokens account for the whole text: it is their spellings in order,
/// with nothing but white space in front of each and behind the last.
pub proof fn lemma_tokens_cover_text(s: Seq<char>, at: int) -> (gaps: Seq<Seq<char>>)
    requires
        0 <= at <= s.len(),
        tokenize_from(s, at) is Ok,
    ensures
        gaps.len() == tokenize_from(s, at)->Ok_0.len(),
        forall|i: int| 0 <= i < gaps.len() ==> all_space(#[trigger] gaps[i]),
        interleave(gaps, tokenize_from(s, at)->Ok_0) == s.skip(at),
    decreases s.len() - at,
{
    lemma_run_len(s, at, CharClass::Space);
    let start = at + run_len(s, at, CharClass::Space);
    let gap = s.subrange(at, start);
    let tokens = tokenize_from(s, at)->Ok_0;
    if start >= s.len() {
        let gaps = seq![gap];
        assert(interleave(gaps.skip(1), tokens.skip(1)) =~= Seq::<char>::empty());
        assert(interleave(gaps, tokens) =~= s.skip(at));
        gaps
    } else {
        let found = scan(s, start)->0;
        lemma_scan_bounds(s, start);
        lemma_scan_spelling(s, start);
        let rest = lemma_tokens_cover_text(s, start + found.len);
        let gaps = seq![gap] + rest;
        assert(gaps.skip(1) =~= rest);
        assert(tokens.skip(1) =~= tokenize_from(s, start + found.len)->Ok_0);
        assert(interleave(gaps, tokens) =~= s.skip(at));
        gaps
    }
}

/// A lexeme written out behind white space, and followed by white space
/// or by nothing, is the next token read.
proof fn lemma_reads_first(text: Seq<char>, at: int, gap: Seq<char>, first: Lexeme, rest: Seq<char>)
    requires
        0 <= at <= text.len(),
        text.skip(at) == gap + spelling(first) + rest,
        all_space(gap),
        is_lexeme(first),
        rest.len() > 0 ==> is_space(rest[0]),
    ensures
        run_len(text, at, CharClass::Space) == gap.len(),
        at + gap.len() < text.len(),
        at + gap.len() + spelling(first).len() <= text.len(),
        scan(text, at + gap.len()) == Some(
            Scan { lexeme: first, len: spelling(first).len() as int },
        ),
        text.skip(at + gap.len() + spelling(first).len()) == rest,
{
    let word = spelling(first);
    let whole = gap + word + rest;
    let start = at + gap.len();
    let n = word.len() as int;
    assert(text.len() - at == whole.len());
    assert forall|k: int| at <= k < text.len() implies #[trigger] text[k] == whole[k - at] by {
        assert(text[k] == text.skip(at)[k - at]);
    }
    assert forall|k: int| at <= k < start implies in_class(CharClass::Space, #[trigger] text[k]) by {
        assert(is_space(gap[k - at]));
    }
    lemma_scan_bounds(word, 0);
    lemma_scan_spelling(word, 0);
    assert(text[start] == word[0]);
    lemma_run_len_is(text, at, CharClass::Space, gap.len());
    assert(text.subrange(start, start + n) =~= word.subrange(0, n));
    if start + n < text.len() {
        assert(text[start + n] == rest[0]);
    }
    lemma_scan_local(word, 0, text, start);
    assert(text.skip(start + n) =~= rest);
}

/// What is written behind the first of several tokens is empty or starts
/// with white space.
proof fn lemma_gap_follows(gaps: Seq<Seq<char>>, tokens: Seq<Lexeme>)
    requires
        tokens.len() > 1,
        tokens.last() == plain(TokenKind::EOF),
        separates(gaps, tokens.len()),
    ensures
        interleave(gaps.skip(1), tokens.skip(1)).len() > 0 ==> is_space(
            interleave(gaps.skip(1), tokens.skip(1))[0],
        ),
{
    let next_gaps = gaps.skip(1);
    let next_tokens = tokens.skip(1);
    let next_gap = next_gaps[0];
    let rest = interleave(next_gaps, next_tokens);
    assert(next_gap == gaps[1]);
    assert(all_space(next_gap));
    assert(rest == next_gap + spelling(next_tokens[0]) + interleave(
        next_gaps.skip(1),
        next_tokens.skip(1),
    ));
    if tokens.len() == 2 {
        assert(next_tokens[0] == tokens.last());
        assert(interleave(next_gaps.skip(1), next_tokens.skip(1)) =~= Seq::<char>::empty());
        assert(rest =~= next_gap);
    }
    if rest.len() > 0 {
        assert(next_gap.len() > 0);
        assert(rest[0] == next_gap[0]);
        assert(is_space(next_gap[0]));
    }
}

/// Lexemes written out with white space between them are read back as they were.
pub proof fn lemma_respelled(text: Seq<char>, at: int, gaps: Seq<Seq<char>>, tokens: Seq<Lexeme>)
    requires
        0 <= at <= text.len(),
        tokens.len() > 0,
        tokens.last() == plain(TokenKind::EOF),
        forall|i: int| 0 <= i < tokens.len() - 1 ==> is_lexeme(#[trigger] tokens[i]),
        separates(gaps, tokens.len()),
        text.skip(at) == interleave(gaps, tokens),
    ensures
        tokenize_from(text, at) == Ok::<Seq<Lexeme>, int>(tokens),
    decreases tokens.len(),
{
    let gap = gaps[0];
    let first = tokens[0];
    let next_gaps = gaps.skip(1);
    let next_tokens = tokens.skip(1);
    let rest = interleave(next_gaps, next_tokens);
    assert(all_space(gap));
    if tokens.len() == 1 {
        assert(spelling(first) =~= Seq::<char>::empty());
        assert(rest =~= Seq::<char>::empty());
        assert(text.skip(at) =~= gap);
        assert forall|k: int| at <= k < text.len() implies in_class(
            CharClass::Space,
            #[trigger] text[k],
        ) by {
            assert(text[k] == text.skip(at)[k - at]);
            assert(is_space(gap[k - at]));
        }
        lemma_run_len_is(text, at, CharClass::Space, gap.len());
        assert(tokens =~= seq![plain(TokenKind::EOF)]);
    } else {
        assert(is_lexeme(first));
        lemma_gap_follows(gaps, tokens);
        lemma_reads_first(text, at, gap, first, rest);
        assert(next_tokens.last() == tokens.last());
        assert forall|i: int| 0 <= i < next_tokens.len() - 1 implies is_lexeme(
            #[trigger] next_tokens[i],
        ) by {
            assert(next_tokens[i] == tokens[i + 1]);
        }
        assert(separates(next_gaps, next_tokens.len())) by {
            assert forall|i: int| 0 <= i < next_gaps.len() implies all_space(
                #[trigger] next_gaps[i],
            ) by {
                assert(next_gaps[i] == gaps[i + 1]);
            }
            assert forall|i: int| 0 < i < next_gaps.len() - 1 implies (#[trigger] next_gaps[i]).len()
                > 0 by {
                assert(next_gaps[i] == gaps[i + 1]);
            }
        }
        lemma_respelled(text, at + gap.len() + spelling(first).len(), next_gaps, next_tokens);
        assert(tokens =~= seq![first] + next_tokens);
    }
}

/// The tokens of a text account for all of it, in order: the text is their
/// spellings with white space around them. So no token is dropped. The end
/// marker is the last token and no other, also for an empty text.
pub proof fn lemma_tokenize_is_complete(s: Seq<char>) -> (gaps: Seq<Seq<char>>)
    requires
        tokenize(s) is Ok,
    ensures
        tokenize(s)->Ok_0.len() > 0,
        tokenize(s)->Ok_0.last() == plain(TokenKind::EOF),
        forall|i: int|
            0 <= i < tokenize(s)->Ok_0.len() - 1 ==> (#[trigger] tokenize(s)->Ok_0[i]).kind
                != TokenKind::EOF,
        gaps.len() == tokenize(s)->Ok_0.len(),
        forall|i: int| 0 <= i < gaps.len() ==> all_space(#[trigger] gaps[i]),
        interleave(gaps, tokenize(s)->Ok_0) == s,
{
    lemma_end_marker_once(s, 0);
    let gaps = lemma_tokens_cover_text(s, 0);
    assert(s.skip(0) =~= s);
    gaps
}

/// The tokens of a text, written out again with any white space between
/// them, tokenize to the same tokens.
pub proof fn lemma_round_trip(s: Seq<char>, gaps: Seq<Seq<char>>)
    requires
        tokenize(s) is Ok,
        separates(gaps, tokenize(s)->Ok_0.len()),
    ensures
        tokenize(interleave(gaps, tokenize(s)->Ok_0)) == tokenize(s),
{
    let tokens = tokenize(s)->Ok_0;
    let text = interleave(gaps, tokens);
    lemma_end_marker_once(s, 0);
    assert(text.skip(0) =~= text);
    lemma_respelled(text, 0, gaps, tokens);
}

/// The token read at a position matches the rule of its kind.
pub proof fn lemma_scan_matches_rule(s: Seq<char>, at: int)
    requires
        0 <= at < s.len(),
        scan(s, at) is Some,
    ensures
        rule_matches(s, at, scan(s, at)->0.len, scan(s, at)->0.lexeme.kind),
{
    let found = scan(s, at)->0;
    lemma_scan_bounds(s, at);
    lemma_scan_spelling(s, at);
    if is_word(s[at]) {
        let word = run_len(s, at, CharClass::Word);
        let digits = run_len(s, at, CharClass::Digit);
        lemma_run_len(s, at, CharClass::Word);
        lemma_run_len(s, at, CharClass::Digit);
        if digits == word {
            if at + word < s.len() {
                lemma_run_len(s, at + word + 1, CharClass::Digit);
            }
            assert(number_shape(s, at, word as int, found.len));
        }
    }
}

/// Maximal munch: no rule matches more characters at a position than the
/// token read there spans.
pub proof fn lemma_scan_is_longest(s: Seq<char>, at: int, n: int, kind: TokenKind)
    requires
        0 <= at < s.len(),
        scan(s, at) is Some,
        rule_matches(s, at, n, kind),
    ensures
        n <= scan(s, at)->0.len,
        n == scan(s, at)->0.len ==> rank(kind) <= rank(scan(s, at)->0.lexeme.kind),
{
    let found = scan(s, at)->0;
    lemma_scan_bounds(s, at);
    lemma_rule_start(s, at, n, kind);
    let word = run_len(s, at, CharClass::Word);
    let digits = run_len(s, at, CharClass::Digit);
    lemma_run_len(s, at, CharClass::Word);
    lemma_run_len(s, at, CharClass::Digit);
    if is_word(s[at]) {
        if kind == TokenKind::Number {
            lemma_number_rule(s, at, n);
        } else {
            lemma_word_rule(s, at, n, kind);
            lemma_run_len_covers(s, at, CharClass::Word, n);
            if n == found.len && digits != word && kind != TokenKind::Identifier {
                // A keyword or a truth value of the length of the whole word is that word.
                assert(s.subrange(at, at + n) == s.subrange(at, at + word));
            }
        }
    } else if s[at] == '"' {
    } else if s[at] == '\'' {
    } else {
        if n >= 2 {
            assert(s.subrange(at, at + n)[0] == s[at]);
            assert(s.subrange(at, at + n)[1] == s[at + 1]);
        }
    }
}

/// Where no token is read, no rule matches.
pub proof fn lemma_scan_is_complete(s: Seq<char>, at: int, n: int, kind: TokenKind)
    requires
        0 <= at < s.len(),
        scan(s, at) is None,
    ensures
        !rule_matches(s, at, n, kind),
{
    if rule_matches(s, at, n, kind) {
        lemma_rule_start(s, at, n, kind);
        if n >= 2 {
            assert(s.subrange(at, at + n)[0] == s[at]);
            assert(s.subrange(at, at + n)[1] == s[at + 1]);
        }
    }
}

/// A keyword is written in letters, and is read as that keyword.
proof fn lemma_keyword_text(kind: TokenKind)
    requires
        is_keyword(kind),
    ensures
        0 < fixed_text(kind).len() <= 6,
        forall|j: int|
            0 <= j < fixed_text(kind).len() ==> is_letter(#[trigger] fixed_text(kind)[j]),
        keyword_of(fixed_text(kind)) == Some(kind),
        !is_truth_value(fixed_text(kind)),
{
    let text = fixed_text(kind);
    assert forall|j: int| 0 <= j < text.len() implies is_letter(#[trigger] text[j]) by {
        if j == 0 {
        } else if j == 1 {
        } else if j == 2 {
        } else if j == 3 {
        } else if j == 4 {
        } else {
        }
    }
    assert(text[0] == text[0]);
    assert(text[1] == text[1]);
    assert(text.len() >= 3 ==> text[2] == text[2]);
    assert(!(text =~= seq!['t', 'r', 'u', 'e']));
    assert(!(text =~= seq!['f', 'a', 'l', 's', 'e']));
    lemma_keywords_differ(kind);
}

proof fn lemma_keywords_differ(kind: TokenKind)
    requires
        is_keyword(kind),
    ensures
        keyword_of(fixed_text(kind)) == Some(kind),
{
    let text = fixed_text(kind);
    let r = fixed_text(TokenKind::Return);
    let m = fixed_text(TokenKind::Mut);
    let l = fixed_text(TokenKind::Let);
    let f = fixed_text(TokenKind::For);
    let d = fixed_text(TokenKind::Module);
    let i = fixed_text(TokenKind::If);
    let n = fixed_text(TokenKind::Function);
    let e = fixed_text(TokenKind::Else);
    let u = fixed_text(TokenKind::Enum);
    assert(l[0] == 'l' && m[0] == 'm' && r[0] == 'r' && f[0] == 'f' && d[0] == 'm');
    assert(m[1] == 'u' && d[1] == 'o');
    assert(i[0] == 'i' && n[0] == 'f');
    assert(e[1] == 'l' && u[1] == 'n');
}

/// Which rules can match at a character: those for words where it is a
/// letter, a digit or an underscore, and so on for each kind of token.
proof fn lemma_rule_start(s: Seq<char>, at: int, n: int, kind: TokenKind)
    requires
        rule_matches(s, at, n, kind),
    ensures
        kind == TokenKind::StringLiteral <==> s[at] == '"',
        kind == TokenKind::CharLiteral <==> s[at] == '\'',
        is_word(s[at]) <==> kind == TokenKind::Identifier || kind == TokenKind::Number || kind
            == TokenKind::BoolLiteral || is_keyword(kind),
        !is_word(s[at]) && s[at] != '"' && s[at] != '\'' ==> n <= 2 && (n == 2 ==> digraph(
            s[at],
            s[at + 1],
        ) == Some(kind)) && (n == 1 ==> punctuation(s[at]) == Some(kind) || (kind
            == TokenKind::Operator && is_operator(s[at]))),
{
    let span = s.subrange(at, at + n);
    assert(span.len() == n);
    assert(span[0] == s[at]);
    if kind == TokenKind::Number {
        let whole = choose|whole: int| #[trigger] number_shape(s, at, whole, n);
        assert(in_class(CharClass::Digit, s[at]));
    } else if kind == TokenKind::Identifier {
        assert(in_class(CharClass::Word, s[at]));
    } else if kind == TokenKind::BoolLiteral {
        assert(seq!['t', 'r', 'u', 'e'][0] == 't');
        assert(seq!['f', 'a', 'l', 's', 'e'][0] == 'f');
    } else if is_keyword(kind) {
        lemma_keyword_text(kind);
        assert(is_letter(fixed_text(kind)[0]));
    } else if kind == TokenKind::StringLiteral || kind == TokenKind::CharLiteral || kind
        == TokenKind::Operator {
    } else {
        let text = fixed_text(kind);
        assert(span == text);
        assert(text[0] == s[at]);
        if n >= 2 {
            assert(span[1] == s[at + 1]);
            assert(text[1] == s[at + 1]);
        }
    }
}

/// A number rule matches no more than the number read at its start.
proof fn lemma_number_rule(s: Seq<char>, at: int, n: int)
    requires
        rule_matches(s, at, n, TokenKind::Number),
    ensures
        run_len(s, at, CharClass::Digit) == run_len(s, at, CharClass::Word) ==> n <= number_len(
            s,
            at,
        ),
        run_len(s, at, CharClass::Digit) < run_len(s, at, CharClass::Word) ==> n < run_len(
            s,
            at,
            CharClass::Word,
        ),
{
    let whole = choose|whole: int| #[trigger] number_shape(s, at, whole, n);
    let digits = run_len(s, at, CharClass::Digit);
    let word = run_len(s, at, CharClass::Word);
    lemma_run_len(s, at, CharClass::Digit);
    lemma_run_len(s, at, CharClass::Word);
    lemma_run_len_covers(s, at, CharClass::Digit, whole);
    if whole < n {
        // A point follows the digits, so they are the whole run.
        assert(!in_class(CharClass::Digit, s[at + whole]));
        assert(!in_class(CharClass::Word, s[at + whole]));
        if whole < digits {
            assert(in_class(CharClass::Digit, s[at + whole]));
        }
        if digits < word {
            assert(in_class(CharClass::Word, s[at + digits]));
        }
        lemma_run_len_covers(s, at + whole + 1, CharClass::Digit, n - whole - 1);
    }
}

/// A keyword or a truth value, where its rule matches, lies within the word
/// that starts there and is no number.
proof fn lemma_word_rule(s: Seq<char>, at: int, n: int, kind: TokenKind)
    requires
        rule_matches(s, at, n, kind),
        is_word(s[at]),
        kind != TokenKind::Number,
    ensures
        all_in_class(s, at, at + n, CharClass::Word),
        kind != TokenKind::Identifier ==> !in_class(CharClass::Digit, s[at]),
        kind != TokenKind::Identifier && kind != TokenKind::BoolLiteral ==> keyword_of(
            s.subrange(at, at + n),
        ) == Some(kind),
        kind == TokenKind::BoolLiteral ==> keyword_of(s.subrange(at, at + n)) is None
            && is_truth_value(s.subrange(at, at + n)),
{
    lemma_rule_start(s, at, n, kind);
    let span = s.subrange(at, at + n);
    assert(span[0] == s[at]);
    if kind == TokenKind::BoolLiteral {
        let yes = seq!['t', 'r', 'u', 'e'];
        let no = seq!['f', 'a', 'l', 's', 'e'];
        assert(span.len() == n);
        assert(yes.len() == 4 && no.len() == 5);
        assert forall|i: int| at <= i < at + n implies in_class(CharClass::Word, #[trigger] s[i]) by {
            assert(s[i] == span[i - at]);
            let j = i - at;
            if span == yes {
                assert(is_letter(yes[0]) && is_letter(yes[1]) && is_letter(yes[2]) && is_letter(
                    yes[3],
                ));
                assert(span[j] == yes[j]);
            } else {
                assert(span == no);
                assert(is_letter(no[0]) && is_letter(no[1]) && is_letter(no[2]) && is_letter(no[3])
                    && is_letter(no[4]));
                assert(span[j] == no[j]);
            }
        }
        assert(yes[0] == 't' && no[0] == 'f' && no[1] == 'a');
        assert(span[1] == span[1]);
        assert(fixed_text(TokenKind::For)[1] == 'o');
        assert(fixed_text(TokenKind::Function)[1] == 'n');
    } else if kind != TokenKind::Identifier {
        lemma_keyword_text(kind);
        let text = fixed_text(kind);
        assert(span == text);
        assert(text.len() == n);
        assert forall|i: int| at <= i < at + n implies in_class(CharClass::Word, #[trigger] s[i]) by {
            assert(s[i] == span[i - at]);
            assert(is_letter(text[i - at]));
        }
    }
}

/// What a token does to the depth of nesting: an opening parenthesis adds
/// one, a closing one takes one away.
pub open spec fn paren_step(token: Lexeme) -> int {
    if token.kind == TokenKind::LParen {
        1
    } else if token.kind == TokenKind::RParen {
        -1
    } else {
        0
    }
}

/// The number of parentheses that the tokens from `from` up to `to` open
/// and do not close again.
pub open spec fn nesting(tokens: Seq<Lexeme>, from: int, to: int) -> int
    decreases to - from,
{
    if to <= from {
        0
    } else {
        nesting(tokens, from, to - 1) + paren_step(tokens[to - 1])
    }
}

/// Whether a token ends an argument when it stands outside nested parentheses.
pub open spec fn closes_argument(token: Lexeme) -> bool {
    token.kind == TokenKind::RParen || token.kind == TokenKind::ArgumentSeparator
}

proof fn lemma_nesting_front(tokens: Seq<Lexeme>, from: int, to: int)
    requires
        from < to,
    ensures
        nesting(tokens, from, to) == paren_step(tokens[from]) + nesting(tokens, from + 1, to),
    decreases to - from,
{
    if to > from + 1 {
        lemma_nesting_front(tokens, from, to - 1);
    } else {
        assert(nesting(tokens, from, from) == 0);
        assert(nesting(tokens, from + 1, to) == 0);
    }
}

/// An argument of a call ends at the first comma or closing parenthesis
/// that stands outside nested parentheses, and nowhere before: inside the
/// argument no parenthesis closes that was not opened in it, and no comma
/// or closing parenthesis stands at the depth at which the argument began.
/// Where the tokens do not run out, the argument is followed by such a
/// token, and every parenthesis opened in the argument is closed in it.
pub proof fn lemma_argument_span(tokens: Seq<Lexeme>, at: int, depth: nat)
    requires
        0 <= at <= tokens.len(),
    ensures
        at + span_len(tokens, at, depth) <= tokens.len(),
        forall|i: int|
            at <= i < at + span_len(tokens, at, depth) ==> depth + #[trigger] nesting(
                tokens,
                at,
                i,
            ) >= 0 && !(closes_argument(tokens[i]) && depth + nesting(tokens, at, i) == 0),
        at + span_len(tokens, at, depth) < tokens.len() ==> closes_argument(
            tokens[at + span_len(tokens, at, depth)],
        ) && depth + nesting(tokens, at, at + span_len(tokens, at, depth)) == 0,
    decreases tokens.len() - at,
{
    if at < tokens.len() {
        let step = paren_step(tokens[at]);
        let stops = closes_argument(tokens[at]) && depth == 0;
        if !stops {
            let inner = (depth + step) as nat;
            lemma_argument_span(tokens, at + 1, inner);
            let rest = span_len(tokens, at + 1, inner);
            assert(span_len(tokens, at, depth) == 1 + rest);
            assert forall|i: int| at <= i < at + 1 + rest implies depth + #[trigger] nesting(
                tokens,
                at,
                i,
            ) >= 0 && !(closes_argument(tokens[i]) && depth + nesting(tokens, at, i) == 0) by {
                if i > at {
                    lemma_nesting_front(tokens, at, i);
                    assert(inner + nesting(tokens, at + 1, i) >= 0);
                }
            }
            if at + 1 + rest < tokens.len() {
                lemma_nesting_front(tokens, at, at + 1 + rest);
            }
        }
    }
}

/// Consuming a token makes the same check as expecting it, and moves the
/// cursor on success only: by one token where the token is the wanted one,
/// not at all where another token or none stands there.
pub proof fn lemma_consumes_on_success_only(tokens: Seq<Lexeme>, at: int, wanted: Lexeme)
    ensures
        expect_and_consume(tokens, at, wanted).value == expect(tokens, at, wanted),
        expect(tokens, at, wanted) is Ok <==> peek(tokens, at) == Some(wanted),
        expect(tokens, at, wanted) is Ok ==> expect_and_consume(tokens, at, wanted).taken == 1,
        expect(tokens, at, wanted) is Err ==> expect_and_consume(tokens, at, wanted).taken == 0,
{
}

/// The number of commas, among the tokens from `from` up to `to`, that
/// stand outside the parentheses opened since `from`.
pub open spec fn top_level_commas(tokens: Seq<Lexeme>, from: int, to: int) -> nat
    decreases to - from,
{
    if to <= from {
        0
    } else if tokens[to - 1].kind == TokenKind::ArgumentSeparator && nesting(tokens, from, to - 1)
        == 0 {
        top_level_commas(tokens, from, to - 1) + 1
    } else {
        top_level_commas(tokens, from, to - 1)
    }
}

proof fn lemma_nesting_split(tokens: Seq<Lexeme>, from: int, mid: int, to: int)
    requires
        from <= mid <= to,
    ensures
        nesting(tokens, from, to) == nesting(tokens, from, mid) + nesting(tokens, mid, to),
    decreases to - mid,
{
    if mid < to {
        lemma_nesting_split(tokens, from, mid, to - 1);
    }
}

proof fn lemma_commas_split(tokens: Seq<Lexeme>, from: int, mid: int, to: int)
    requires
        from <= mid <= to,
        nesting(tokens, from, mid) == 0,
    ensures
        top_level_commas(tokens, from, to) == top_level_commas(tokens, from, mid)
            + top_level_commas(tokens, mid, to),
    decreases to - mid,
{
    if mid < to {
        lemma_commas_split(tokens, from, mid, to - 1);
        lemma_nesting_split(tokens, from, mid, to - 1);
    }
}

proof fn lemma_no_commas(tokens: Seq<Lexeme>, from: int, to: int)
    requires
        from <= to,
        forall|i: int|
            from <= i < to ==> !(closes_argument(tokens[i]) && #[trigger] nesting(tokens, from, i)
                == 0),
    ensures
        top_level_commas(tokens, from, to) == 0,
    decreases to - from,
{
    if from < to {
        lemma_no_commas(tokens, from, to - 1);
        assert(!(closes_argument(tokens[to - 1]) && nesting(tokens, from, to - 1) == 0));
    }
}

/// Where one or more arguments are read, they end at the first closing
/// parenthesis outside nested parentheses, and they are one more than the
/// commas that stand outside nested parentheses before it.
proof fn lemma_arguments_count(tokens: Seq<Lexeme>, at: int)
    requires
        0 <= at <= tokens.len(),
        arguments(tokens, at).value is Ok,
    ensures
        arguments(tokens, at).taken >= 1,
        at + arguments(tokens, at).taken <= tokens.len(),
        tokens[at + arguments(tokens, at).taken - 1].kind == TokenKind::RParen,
        nesting(tokens, at, at + arguments(tokens, at).taken - 1) == 0,
        forall|i: int|
            at <= i < at + arguments(tokens, at).taken - 1 ==> #[trigger] nesting(tokens, at, i)
                >= 0 && !(tokens[i].kind == TokenKind::RParen && nesting(tokens, at, i) == 0),
        arguments(tokens, at).value->Ok_0.len() == top_level_commas(
            tokens,
            at,
            at + arguments(tokens, at).taken - 1,
        ) + 1,
    decreases tokens.len() - at,
{
    let end = at + span_len(tokens, at, 0);
    lemma_argument_span(tokens, at, 0);
    assert forall|i: int| at <= i < end implies !(closes_argument(tokens[i]) && #[trigger] nesting(
        tokens,
        at,
        i,
    ) == 0) by {
        assert(0 + nesting(tokens, at, i) >= 0);
    }
    lemma_no_commas(tokens, at, end);
    if tokens[end].kind == TokenKind::RParen {
        assert forall|i: int| at <= i < end implies #[trigger] nesting(tokens, at, i) >= 0 && !(
        tokens[i].kind == TokenKind::RParen && nesting(tokens, at, i) == 0) by {
            assert(0 + nesting(tokens, at, i) >= 0);
        }
    } else {
        let rest = arguments(tokens, end + 1);
        lemma_arguments_count(tokens, end + 1);
        let close = end + 1 + rest.taken - 1;
        assert(at + arguments(tokens, at).taken - 1 == close);
        assert(nesting(tokens, at, end + 1) == 0);
        assert(top_level_commas(tokens, at, end + 1) == 1);
        lemma_nesting_split(tokens, at, end + 1, close);
        lemma_commas_split(tokens, at, end + 1, close);
        assert forall|i: int| at <= i < close implies #[trigger] nesting(tokens, at, i) >= 0 && !(
        tokens[i].kind == TokenKind::RParen && nesting(tokens, at, i) == 0) by {
            if i < end {
                assert(0 + nesting(tokens, at, i) >= 0);
            } else if i > end {
                lemma_nesting_split(tokens, at, end + 1, i);
                assert(nesting(tokens, end + 1, i) >= 0);
            }
        }
    }
}

/// A call that is read ends at the first closing parenthesis that stands
/// outside the parentheses opened behind its own opening one, which stands
/// at `at`; the cursor moves just past it. The call has no argument where
/// that parenthesis follows at once, and otherwise one argument more than
/// there are commas outside nested parentheses before it.
pub proof fn lemma_call_arguments(tokens: Seq<Lexeme>, at: int, name: Seq<char>)
    requires
        0 <= at,
        function_call(tokens, at, name).value is Ok,
    ensures
        function_call(tokens, at, name).value->Ok_0 is FunctionCall,
        function_call(tokens, at, name).value->Ok_0->FunctionCall_name == name,
        function_call(tokens, at, name).taken >= 2,
        at + function_call(tokens, at, name).taken <= tokens.len(),
        tokens[at].kind == TokenKind::LParen,
        tokens[at + function_call(tokens, at, name).taken - 1].kind == TokenKind::RParen,
        nesting(tokens, at + 1, at + function_call(tokens, at, name).taken - 1) == 0,
        forall|i: int|
            at + 1 <= i < at + function_call(tokens, at, name).taken - 1 ==> #[trigger] nesting(
                tokens,
                at + 1,
                i,
            ) >= 0 && !(tokens[i].kind == TokenKind::RParen && nesting(tokens, at + 1, i) == 0),
        function_call(tokens, at, name).value->Ok_0->FunctionCall_args.len() == if function_call(
            tokens,
            at,
            name,
        ).taken == 2 {
            0
        } else {
            top_level_commas(tokens, at + 1, at + function_call(tokens, at, name).taken - 1) + 1
        },
{
    let list = argument_list(tokens, at + 1);
    if tokens[at + 1].kind == TokenKind::RParen && at + 1 < tokens.len() {
        assert(nesting(tokens, at + 1, at + 1) == 0);
    } else {
        lemma_arguments_count(tokens, at + 1);
        assert(list.taken >= 2) by {
            // The first argument is not empty, so its closing token is not the first.
            let end = at + 1 + span_len(tokens, at + 1, 0);
            lemma_argument_span(tokens, at + 1, 0);
            if end == at + 1 {
                lemma_empty_span_is_no_expression(tokens, at + 1);
            }
        }
    }
}

} // verus!
