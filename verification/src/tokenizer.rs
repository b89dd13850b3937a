//! The tokenizer: source text to tokens.
//!
//! The token rules are: the keywords and punctuation marks, each written in
//! one fixed way; identifiers, one or more letters, digits and underscores;
//! numbers, digits with an optional point and more digits; string literals
//! in double quotes, where a backslash takes the next character along; char
//! literals, one character in single quotes; the truth values; and the
//! operators `+ - * / %`. Letters and digits are those of ASCII.
//!
//! At each position the longest token wins. Where a keyword, a truth value
//! or a number is exactly as long as the identifier that could be read in
//! its place, the identifier loses.

use crate::error::LexError;
use crate::text::{
    char_in_class, chars_of, in_class, is_word, lemma_run_len, run_end, run_len, CharClass,
};
use crate::token::{lexemes, plain, with_text, Lexeme, Token, TokenKind};
use vstd::prelude::*;

verus! {

/// How the tokens that carry no text are written.
pub open spec fn fixed_text(kind: TokenKind) -> Seq<char> {
    match kind {
        TokenKind::Let => seq!['l', 'e', 't'],
        TokenKind::Mut => seq!['m', 'u', 't'],
        TokenKind::Return => seq!['r', 'e', 't'],
        TokenKind::FnArrow => seq!['=', '>'],
        TokenKind::If => seq!['i', 'f'],
        TokenKind::Else => seq!['e', 'l', 's', 'e'],
        TokenKind::While => seq!['w', 'h', 'i', 'l', 'e'],
        TokenKind::For => seq!['f', 'o', 'r'],
        TokenKind::Function => seq!['f', 'n'],
        TokenKind::Module => seq!['m', 'o', 'd'],
        TokenKind::Struct => seq!['s', 't', 'r', 'u', 'c', 't'],
        TokenKind::Enum => seq!['e', 'n', 'u', 'm'],
        TokenKind::Assign => seq!['<', '-'],
        TokenKind::FnPipe => seq!['|', '>'],
        TokenKind::TypeDecl => seq!['|'],
        TokenKind::RetType => seq!['-', '>'],
        TokenKind::PatternMatch => seq!['@'],
        TokenKind::Wildcard => seq!['~'],
        TokenKind::LParen => seq!['('],
        TokenKind::RParen => seq![')'],
        TokenKind::LBrace => seq!['{'],
        TokenKind::RBrace => seq!['}'],
        TokenKind::LBracket => seq!['['],
        TokenKind::RBracket => seq![']'],
        TokenKind::ArgumentSeparator => seq![','],
        TokenKind::StatementEnd => seq![';'],
        TokenKind::FieldAccessor => seq!['.'],
        _ => Seq::empty(),
    }
}

/// Whether tokens of this kind are keywords.
pub open spec fn is_keyword(kind: TokenKind) -> bool {
    kind == TokenKind::Let || kind == TokenKind::Mut || kind == TokenKind::Return || kind
        == TokenKind::If || kind == TokenKind::Else || kind == TokenKind::While || kind
        == TokenKind::For || kind == TokenKind::Function || kind == TokenKind::Module || kind
        == TokenKind::Struct || kind == TokenKind::Enum
}

/// The keyword that `word` is, if it is one.
pub open spec fn keyword_of(word: Seq<char>) -> Option<TokenKind> {
    if word == fixed_text(TokenKind::Let) {
        Some(TokenKind::Let)
    } else if word == fixed_text(TokenKind::Mut) {
        Some(TokenKind::Mut)
    } else if word == fixed_text(TokenKind::Return) {
        Some(TokenKind::Return)
    } else if word == fixed_text(TokenKind::If) {
        Some(TokenKind::If)
    } else if word == fixed_text(TokenKind::Else) {
        Some(TokenKind::Else)
    } else if word == fixed_text(TokenKind::While) {
        Some(TokenKind::While)
    } else if word == fixed_text(TokenKind::For) {
        Some(TokenKind::For)
    } else if word == fixed_text(TokenKind::Function) {
        Some(TokenKind::Function)
    } else if word == fixed_text(TokenKind::Module) {
        Some(TokenKind::Module)
    } else if word == fixed_text(TokenKind::Struct) {
        Some(TokenKind::Struct)
    } else if word == fixed_text(TokenKind::Enum) {
        Some(TokenKind::Enum)
    } else {
        None
    }
}

/// Whether `word` is `true` or `false`.
pub open spec fn is_truth_value(word: Seq<char>) -> bool {
    word == seq!['t', 'r', 'u', 'e'] || word == seq!['f', 'a', 'l', 's', 'e']
}

/// The lexeme of a word that is not a number: a keyword, a truth value, or an identifier.
pub open spec fn word_lexeme(word: Seq<char>) -> Lexeme {
    match keyword_of(word) {
        Some(kind) => plain(kind),
        None => if is_truth_value(word) {
            with_text(TokenKind::BoolLiteral, word)
        } else {
            with_text(TokenKind::Identifier, word)
        },
    }
}

/// Length of the number that starts at `at`: digits, and a point with more
/// digits where they follow.
pub open spec fn number_len(s: Seq<char>, at: int) -> nat {
    let whole = run_len(s, at, CharClass::Digit);
    let fraction = run_len(s, at + whole + 1, CharClass::Digit);
    if at + whole < s.len() && s[at + whole] == '.' && fraction > 0 {
        whole + 1 + fraction
    } else {
        whole
    }
}

/// Where the string literal ends whose opening quote stands just before
/// `at`: the index past its closing quote. A backslash takes the character
/// after it along, whatever it is, except a line feed.
pub open spec fn string_end(s: Seq<char>, at: int) -> Option<int>
    decreases s.len() - at,
{
    if at < 0 || at >= s.len() {
        None
    } else if s[at] == '"' {
        Some(at + 1)
    } else if s[at] == '\\' {
        if at + 1 < s.len() && s[at + 1] != '\n' {
            string_end(s, at + 2)
        } else {
            None
        }
    } else {
        string_end(s, at + 1)
    }
}

/// The kind of the token that a single punctuation character is by itself.
pub open spec fn punctuation(c: char) -> Option<TokenKind> {
    if c == '|' {
        Some(TokenKind::TypeDecl)
    } else if c == '@' {
        Some(TokenKind::PatternMatch)
    } else if c == '~' {
        Some(TokenKind::Wildcard)
    } else if c == '(' {
        Some(TokenKind::LParen)
    } else if c == ')' {
        Some(TokenKind::RParen)
    } else if c == '{' {
        Some(TokenKind::LBrace)
    } else if c == '}' {
        Some(TokenKind::RBrace)
    } else if c == '[' {
        Some(TokenKind::LBracket)
    } else if c == ']' {
        Some(TokenKind::RBracket)
    } else if c == ',' {
        Some(TokenKind::ArgumentSeparator)
    } else if c == ';' {
        Some(TokenKind::StatementEnd)
    } else if c == '.' {
        Some(TokenKind::FieldAccessor)
    } else {
        None
    }
}

/// The kind of the token that two punctuation characters are together.
pub open spec fn digraph(first: char, second: char) -> Option<TokenKind> {
    if first == '<' && second == '-' {
        Some(TokenKind::Assign)
    } else if first == '=' && second == '>' {
        Some(TokenKind::FnArrow)
    } else if first == '|' && second == '>' {
        Some(TokenKind::FnPipe)
    } else if first == '-' && second == '>' {
        Some(TokenKind::RetType)
    } else {
        None
    }
}

pub open spec fn is_operator(c: char) -> bool {
    c == '+' || c == '-' || c == '*' || c == '/' || c == '%'
}

/// A token read from the text: its lexeme and how many characters it spans.
pub struct Scan {
    pub lexeme: Lexeme,
    pub len: int,
}

/// The token made of punctuation that starts at `at`, if there is one.
pub open spec fn scan_symbol(s: Seq<char>, at: int) -> Option<Scan> {
    if at + 1 < s.len() && digraph(s[at], s[at + 1]) is Some {
        Some(Scan { lexeme: plain(digraph(s[at], s[at + 1])->0), len: 2 })
    } else if punctuation(s[at]) is Some {
        Some(Scan { lexeme: plain(punctuation(s[at])->0), len: 1 })
    } else if is_operator(s[at]) {
        Some(Scan { lexeme: with_text(TokenKind::Operator, s.subrange(at, at + 1)), len: 1 })
    } else {
        None
    }
}

/// The token that starts at `at`, if any token rule matches there.
pub open spec fn scan(s: Seq<char>, at: int) -> Option<Scan> {
    if is_word(s[at]) {
        let word = run_len(s, at, CharClass::Word);
        if run_len(s, at, CharClass::Digit) == word {
            let len = number_len(s, at);
            Some(
                Scan {
                    lexeme: with_text(TokenKind::Number, s.subrange(at, at + len)),
                    len: len as int,
                },
            )
        } else {
            Some(Scan { lexeme: word_lexeme(s.subrange(at, at + word)), len: word as int })
        }
    } else if s[at] == '"' {
        match string_end(s, at + 1) {
            Some(end) => Some(
                Scan {
                    lexeme: with_text(TokenKind::StringLiteral, s.subrange(at, end)),
                    len: end - at,
                },
            ),
            None => None,
        }
    } else if s[at] == '\'' {
        if at + 2 < s.len() && s[at + 1] != '\n' && s[at + 2] == '\'' {
            Some(Scan { lexeme: with_text(TokenKind::CharLiteral, s.subrange(at, at + 3)), len: 3 })
        } else {
            None
        }
    } else {
        scan_symbol(s, at)
    }
}

/// Whether the characters from `from` up to `to` are all of `class`.
pub open spec fn all_in_class(s: Seq<char>, from: int, to: int, class: CharClass) -> bool {
    forall|i: int| from <= i < to ==> in_class(class, #[trigger] s[i])
}

/// Whether the `n` characters from `at` are `whole` digits, alone or
/// followed by a point and one or more digits.
pub open spec fn number_shape(s: Seq<char>, at: int, whole: int, n: int) -> bool {
    &&& 1 <= whole <= n
    &&& all_in_class(s, at, at + whole, CharClass::Digit)
    &&& (whole == n || (whole + 2 <= n && s[at + whole] == '.' && all_in_class(
        s,
        at + whole + 1,
        at + n,
        CharClass::Digit,
    )))
}

/// The token rules, one by one: whether the `n` characters from `at` can be
/// read as a token of `kind`, whatever stands around them.
pub open spec fn rule_matches(s: Seq<char>, at: int, n: int, kind: TokenKind) -> bool {
    &&& 0 <= at
    &&& 0 < n
    &&& at + n <= s.len()
    &&& match kind {
        TokenKind::EOF => false,
        TokenKind::Identifier => all_in_class(s, at, at + n, CharClass::Word),
        TokenKind::Number => exists|whole: int| #[trigger] number_shape(s, at, whole, n),
        TokenKind::StringLiteral => s[at] == '"' && string_end(s, at + 1) == Some(at + n),
        TokenKind::CharLiteral => n == 3 && s[at] == '\'' && s[at + 1] != '\n' && s[at + 2]
            == '\'',
        TokenKind::BoolLiteral => is_truth_value(s.subrange(at, at + n)),
        TokenKind::Operator => n == 1 && is_operator(s[at]),
        _ => s.subrange(at, at + n) == fixed_text(kind),
    }
}

/// Which of two rules wins where both match the same characters: a keyword
/// or a truth value beats a number, and a number beats an identifier.
pub open spec fn rank(kind: TokenKind) -> nat {
    match kind {
        TokenKind::Identifier => 0,
        TokenKind::Number => 1,
        _ => 2,
    }
}

/// A token spans at least one character and ends inside the text.
pub proof fn lemma_scan_bounds(s: Seq<char>, at: int)
    requires
        0 <= at < s.len(),
    ensures
        scan(s, at) matches Some(found) ==> 0 < found.len && at + found.len <= s.len(),
{
    lemma_run_len(s, at, CharClass::Word);
    lemma_run_len(s, at, CharClass::Digit);
    let whole = run_len(s, at, CharClass::Digit);
    if at + whole < s.len() {
        lemma_run_len(s, at + whole + 1, CharClass::Digit);
    }
    if s[at] == '"' {
        lemma_string_end_bounds(s, at + 1);
    }
}

pub proof fn lemma_string_end_bounds(s: Seq<char>, at: int)
    requires
        0 <= at,
    ensures
        string_end(s, at) matches Some(end) ==> at < end <= s.len(),
    decreases s.len() - at,
{
    if at < s.len() && s[at] != '"' {
        if s[at] == '\\' {
            if at + 1 < s.len() && s[at + 1] != '\n' {
                lemma_string_end_bounds(s, at + 2);
            }
        } else {
            lemma_string_end_bounds(s, at + 1);
        }
    }
}

/// The tokens of the text from `at` on, closed by the end marker; or the
/// position of the first character, outside white space, at which no token
/// rule matches.
pub open spec fn tokenize_from(s: Seq<char>, at: int) -> Result<Seq<Lexeme>, int>
    decreases s.len() - at,
{
    let start = at + run_len(s, at, CharClass::Space);
    if at < 0 || start >= s.len() {
        Ok(seq![plain(TokenKind::EOF)])
    } else {
        match scan(s, start) {
            None => Err(start),
            Some(found) => {
                proof {
                    lemma_scan_bounds(s, start);
                }
                match tokenize_from(s, start + found.len) {
                    Ok(rest) => Ok(seq![found.lexeme] + rest),
                    Err(position) => Err(position),
                }
            },
        }
    }
}

/// The tokens of a whole text.
pub open spec fn tokenize(s: Seq<char>) -> Result<Seq<Lexeme>, int> {
    tokenize_from(s, 0)
}

/// Whether the characters from `from` to `to` spell `word`.
fn range_is(chars: &Vec<char>, from: usize, to: usize, word: &[char]) -> (b: bool)
    requires
        from <= to <= chars.len(),
    ensures
        b == (chars@.subrange(from as int, to as int) == word@),
{
    let ghost sub = chars@.subrange(from as int, to as int);
    if to - from != word.len() {
        return false;
    }
    let mut i: usize = 0;
    while i < word.len()
        invariant
            i <= word.len(),
            from <= to <= chars.len(),
            to - from == word.len(),
            sub == chars@.subrange(from as int, to as int),
            forall|j: int| 0 <= j < i ==> sub[j] == word@[j],
        decreases word.len() - i,
    {
        if chars[from + i] != word[i] {
            assert(sub[i as int] != word@[i as int]);
            return false;
        }
        i += 1;
    }
    assert(sub =~= word@);
    true
}

/// The token for the word between `from` and `to`, which is not a number.
fn word_token<'a>(input: &'a str, chars: &Vec<char>, from: usize, to: usize) -> (token: Token<'a>)
    requires
        chars@ == input@,
        from <= to <= chars.len(),
    ensures
        token@ == word_lexeme(chars@.subrange(from as int, to as int)),
{
    if range_is(chars, from, to, &['l', 'e', 't']) {
        Token::Let
    } else if range_is(chars, from, to, &['m', 'u', 't']) {
        Token::Mut
    } else if range_is(chars, from, to, &['r', 'e', 't']) {
        Token::Return
    } else if range_is(chars, from, to, &['i', 'f']) {
        Token::If
    } else if range_is(chars, from, to, &['e', 'l', 's', 'e']) {
        Token::Else
    } else if range_is(chars, from, to, &['w', 'h', 'i', 'l', 'e']) {
        Token::While
    } else if range_is(chars, from, to, &['f', 'o', 'r']) {
        Token::For
    } else if range_is(chars, from, to, &['f', 'n']) {
        Token::Function
    } else if range_is(chars, from, to, &['m', 'o', 'd']) {
        Token::Module
    } else if range_is(chars, from, to, &['s', 't', 'r', 'u', 'c', 't']) {
        Token::Struct
    } else if range_is(chars, from, to, &['e', 'n', 'u', 'm']) {
        Token::Enum
    } else if range_is(chars, from, to, &['t', 'r', 'u', 'e']) || range_is(
        chars,
        from,
        to,
        &['f', 'a', 'l', 's', 'e'],
    ) {
        Token::BoolLiteral(input.substring_char(from, to))
    } else {
        Token::Identifier(input.substring_char(from, to))
    }
}

/// What it means for the scanner's answer at `at` to be the expected one:
/// the same token, and the index just past it.
pub open spec fn reads<'a>(answer: Option<(Token<'a>, usize)>, at: int, expected: Option<Scan>) -> bool {
    match expected {
        Some(found) => answer matches Some((token, end)) && token@ == found.lexeme && end == at
            + found.len,
        None => answer is None,
    }
}

/// Index just past the number whose leading digits run from `from` to `whole_end`.
fn number_end(chars: &Vec<char>, from: usize, whole_end: usize) -> (end: usize)
    requires
        from <= chars.len(),
        whole_end == from + run_len(chars@, from as int, CharClass::Digit),
        whole_end <= chars.len(),
    ensures
        end == from + number_len(chars@, from as int),
        whole_end <= end <= chars.len(),
{
    if whole_end < chars.len() && chars[whole_end] == '.' {
        let fraction_end: usize = run_end(chars, whole_end + 1, CharClass::Digit);
        if fraction_end > whole_end + 1 {
            return fraction_end;
        }
    }
    whole_end
}

/// Index just past the closing quote of the string literal that opened before `from`.
fn find_string_end(chars: &Vec<char>, from: usize) -> (end: Option<usize>)
    requires
        from <= chars.len(),
    ensures
        match string_end(chars@, from as int) {
            Some(e) => end == Some(e as usize) && from < e <= chars.len(),
            None => end is None,
        },
{
    let n: usize = chars.len();
    let mut i: usize = from;
    while i < n
        invariant
            from <= i <= n,
            n == chars.len(),
            string_end(chars@, from as int) == string_end(chars@, i as int),
        decreases n - i,
    {
        let c: char = chars[i];
        if c == '"' {
            return Some(i + 1);
        }
        if c == '\\' {
            if n - i > 1 && chars[i + 1] != '\n' {
                i += 2;
            } else {
                return None;
            }
        } else {
            i += 1;
        }
    }
    None
}

/// The token made of punctuation that starts at `at`.
fn symbol_token<'a>(input: &'a str, chars: &Vec<char>, at: usize) -> (answer: Option<
    (Token<'a>, usize),
>)
    requires
        chars@ == input@,
        at < chars.len(),
    ensures
        reads(answer, at as int, scan_symbol(chars@, at as int)),
{
    let c: char = chars[at];
    if chars.len() - at > 1 {
        let d: char = chars[at + 1];
        if c == '<' && d == '-' {
            return Some((Token::Assign, at + 2));
        } else if c == '=' && d == '>' {
            return Some((Token::FnArrow, at + 2));
        } else if c == '|' && d == '>' {
            return Some((Token::FnPipe, at + 2));
        } else if c == '-' && d == '>' {
            return Some((Token::RetType, at + 2));
        }
    }
    if c == '|' {
        Some((Token::TypeDecl, at + 1))
    } else if c == '@' {
        Some((Token::PatternMatch, at + 1))
    } else if c == '~' {
        Some((Token::Wildcard, at + 1))
    } else if c == '(' {
        Some((Token::LParen, at + 1))
    } else if c == ')' {
        Some((Token::RParen, at + 1))
    } else if c == '{' {
        Some((Token::LBrace, at + 1))
    } else if c == '}' {
        Some((Token::RBrace, at + 1))
    } else if c == '[' {
        Some((Token::LBracket, at + 1))
    } else if c == ']' {
        Some((Token::RBracket, at + 1))
    } else if c == ',' {
        Some((Token::ArgumentSeparator, at + 1))
    } else if c == ';' {
        Some((Token::StatementEnd, at + 1))
    } else if c == '.' {
        Some((Token::FieldAccessor, at + 1))
    } else if c == '+' || c == '-' || c == '*' || c == '/' || c == '%' {
        Some((Token::Operator(input.substring_char(at, at + 1)), at + 1))
    } else {
        None
    }
}

/// The token that starts at `at`, with the index just past it.
fn scan_token<'a>(input: &'a str, chars: &Vec<char>, at: usize) -> (answer: Option<
    (Token<'a>, usize),
>)
    requires
        chars@ == input@,
        at < chars.len(),
    ensures
        reads(answer, at as int, scan(chars@, at as int)),
        answer matches Some((_, end)) ==> at < end <= chars.len(),
{
    proof {
        lemma_scan_bounds(chars@, at as int);
    }
    let c: char = chars[at];
    if char_in_class(CharClass::Word, c) {
        let word_end: usize = run_end(chars, at, CharClass::Word);
        let digits_end: usize = run_end(chars, at, CharClass::Digit);
        if digits_end == word_end {
            let end: usize = number_end(chars, at, digits_end);
            Some((Token::Number(input.substring_char(at, end)), end))
        } else {
            Some((word_token(input, chars, at, word_end), word_end))
        }
    } else if c == '"' {
        match find_string_end(chars, at + 1) {
            Some(end) => Some((Token::StringLiteral(input.substring_char(at, end)), end)),
            None => None,
        }
    } else if c == '\'' {
        if chars.len() - at > 2 && chars[at + 1] != '\n' && chars[at + 2] == '\'' {
            Some((Token::CharLiteral(input.substring_char(at, at + 3)), at + 3))
        } else {
            None
        }
    } else {
        symbol_token(input, chars, at)
    }
}

/// `tokens`, then what `rest` holds; or the error in `rest`.
pub open spec fn after(tokens: Seq<Lexeme>, rest: Result<Seq<Lexeme>, int>) -> Result<
    Seq<Lexeme>,
    int,
> {
    match rest {
        Ok(more) => Ok(tokens + more),
        Err(position) => Err(position),
    }
}

/// Splits source text into tokens. White space between tokens is skipped.
/// The sequence ends with the end marker, also for an empty text. Where no
/// token rule matches, nothing is returned but the position of the failure.
pub fn parse<'a>(input: &'a str) -> (r: Result<Vec<Token<'a>>, LexError>)
    ensures
        match tokenize(input@) {
            Ok(expected) => r matches Ok(tokens) && lexemes(tokens@) == expected,
            Err(position) => r == Err::<Vec<Token<'a>>, LexError>(
                LexError { position: position as usize },
            ) && 0 <= position < input@.len(),
        },
        r matches Ok(tokens) ==> tokens@.len() > 0 && tokens@.last() == Token::EOF,
{
    let chars = chars_of(input);
    let n: usize = chars.len();
    let mut tokens: Vec<Token<'a>> = Vec::new();
    let mut at: usize = 0;
    assert(lexemes(tokens@) =~= Seq::<Lexeme>::empty());
    assert(after(lexemes(tokens@), tokenize_from(input@, 0)) == tokenize(input@)) by {
        match tokenize_from(input@, 0) {
            Ok(more) => {
                assert(lexemes(tokens@) + more =~= more);
            },
            Err(_) => {},
        }
    }
    loop
        invariant
            at <= n,
            n == chars.len(),
            chars@ == input@,
            tokenize(input@) == after(lexemes(tokens@), tokenize_from(input@, at as int)),
        ensures
            tokenize(input@) == Ok::<Seq<Lexeme>, int>(
                lexemes(tokens@) + seq![plain(TokenKind::EOF)],
            ),
        decreases n - at,
    {
        let start: usize = run_end(&chars, at, CharClass::Space);
        if start >= n {
            break ;
        }
        match scan_token(input, &chars, start) {
            None => {
                return Err(LexError { position: start });
            },
            Some((token, end)) => {
                let ghost before = lexemes(tokens@);
                tokens.push(token);
                proof {
                    assert(lexemes(tokens@) =~= before + seq![token@]);
                    match tokenize_from(input@, end as int) {
                        Ok(more) => {
                            assert(before + (seq![token@] + more) =~= (before + seq![token@])
                                + more);
                        },
                        Err(_) => {},
                    }
                }
                at = end;
            },
        }
    }
    let ghost before = lexemes(tokens@);
    tokens.push(Token::EOF);
    assert(lexemes(tokens@) =~= before + seq![plain(TokenKind::EOF)]);
    Ok(tokens)
}

} // verus!
