//! Character classes and small helpers on text.

use vstd::prelude::*;
use vstd::std_specs::iter::IteratorSpec;

verus! {

/// The character classes the scanner distinguishes.
#[derive(Clone, Copy, Debug, PartialEq, Eq, Structural)]
pub enum CharClass {
    /// Space, tab, line feed, form feed.
    Space,
    /// `0` to `9`.
    Digit,
    /// Letters of the basic Latin alphabet, digits and the underscore.
    Word,
}

pub open spec fn is_space(c: char) -> bool {
    c == ' ' || c == '\t' || c == '\n' || c == '\x0c'
}

pub open spec fn is_digit(c: char) -> bool {
    '0' <= c && c <= '9'
}

pub open spec fn is_letter(c: char) -> bool {
    ('a' <= c && c <= 'z') || ('A' <= c && c <= 'Z')
}

pub open spec fn is_word(c: char) -> bool {
    is_letter(c) || is_digit(c) || c == '_'
}

pub open spec fn in_class(class: CharClass, c: char) -> bool {
    match class {
        CharClass::Space => is_space(c),
        CharClass::Digit => is_digit(c),
        CharClass::Word => is_word(c),
    }
}

/// Length of the longest run of characters of `class` that starts at `from`.
pub open spec fn run_len(s: Seq<char>, from: int, class: CharClass) -> nat
    decreases s.len() - from,
{
    if 0 <= from < s.len() && in_class(class, s[from]) {
        1 + run_len(s, from + 1, class)
    } else {
        0
    }
}

/// A run stays inside the text, holds only characters of its class, and
/// cannot be extended to the right.
pub proof fn lemma_run_len(s: Seq<char>, from: int, class: CharClass)
    requires
        0 <= from <= s.len(),
    ensures
        from + run_len(s, from, class) <= s.len(),
        forall|i: int| from <= i < from + run_len(s, from, class) ==> in_class(class, #[trigger] s[i]),
        from + run_len(s, from, class) < s.len() ==> !in_class(
            class,
            s[from + run_len(s, from, class)],
        ),
    decreases s.len() - from,
{
    if from < s.len() && in_class(class, s[from]) {
        lemma_run_len(s, from + 1, class);
    }
}

/// A stretch of `n` characters of one class, followed by the end of the text
/// or by a character outside the class, is the run that starts there.
pub proof fn lemma_run_len_is(s: Seq<char>, from: int, class: CharClass, n: nat)
    requires
        0 <= from,
        from + n <= s.len(),
        forall|i: int| from <= i < from + n ==> in_class(class, #[trigger] s[i]),
        from + n < s.len() ==> !in_class(class, s[from + n]),
    ensures
        run_len(s, from, class) == n,
    decreases n,
{
    if n > 0 {
        lemma_run_len_is(s, from + 1, class, (n - 1) as nat);
    }
}

/// A stretch of characters of one class is no longer than the run that starts with it.
pub proof fn lemma_run_len_covers(s: Seq<char>, from: int, class: CharClass, n: int)
    requires
        0 <= from,
        0 <= n,
        from + n <= s.len(),
        forall|i: int| from <= i < from + n ==> in_class(class, #[trigger] s[i]),
    ensures
        n <= run_len(s, from, class),
    decreases n,
{
    if n > 0 {
        lemma_run_len_covers(s, from + 1, class, n - 1);
    }
}

pub fn char_in_class(class: CharClass, c: char) -> (b: bool)
    ensures
        b == in_class(class, c),
{
    match class {
        CharClass::Space => c == ' ' || c == '\t' || c == '\n' || c == '\x0c',
        CharClass::Digit => '0' <= c && c <= '9',
        CharClass::Word => ('a' <= c && c <= 'z') || ('A' <= c && c <= 'Z') || ('0' <= c && c
            <= '9') || c == '_',
    }
}

/// Index just past the run of `class` that starts at `from`.
pub fn run_end(chars: &Vec<char>, from: usize, class: CharClass) -> (end: usize)
    requires
        from <= chars.len(),
    ensures
        end == from + run_len(chars@, from as int, class),
        end <= chars.len(),
{
    let mut end: usize = from;
    while end < chars.len() && char_in_class(class, chars[end])
        invariant
            from <= end <= chars.len(),
            run_len(chars@, from as int, class) == (end - from) + run_len(
                chars@,
                end as int,
                class,
            ),
        decreases chars.len() - end,
    {
        end += 1;
    }
    end
}

/// The characters of a string slice, in order.
pub fn chars_of(s: &str) -> (v: Vec<char>)
    ensures
        v@ == s@,
{
    let mut v: Vec<char> = Vec::new();
    for c in it: s.chars()
        invariant
            v@ == it.seq().take(it.index()),
            it.seq() == s@,
    {
        v.push(c);
    }
    v
}

/// Whether two string slices hold the same characters.
pub fn same_text(a: &str, b: &str) -> (same: bool)
    ensures
        same == (a@ == b@),
{
    broadcast use vstd::string::group_string_axioms;

    let mut left = a.chars();
    let mut right = b.chars();
    let ghost mut read: Seq<char> = Seq::empty();
    assert(a@ =~= read + left.remaining());
    assert(b@ =~= read + right.remaining());
    loop
        invariant
            left.obeys_prophetic_iter_laws(),
            right.obeys_prophetic_iter_laws(),
            left.decrease() is Some,
            a@ == read + left.remaining(),
            b@ == read + right.remaining(),
        decreases left.decrease()->0,
    {
        let ghost left_before = left.remaining();
        let ghost right_before = right.remaining();
        let x = left.next();
        let y = right.next();
        match (x, y) {
            (None, None) => {
                assert(a@ =~= b@);
                return true;
            },
            (Some(c), Some(d)) => {
                if c != d {
                    assert(a@[read.len() as int] == c);
                    assert(b@[read.len() as int] == d);
                    return false;
                }
                proof {
                    let longer = read.push(c);
                    assert(a@ =~= longer + left.remaining());
                    assert(b@ =~= longer + right.remaining());
                    read = longer;
                }
            },
            _ => {
                assert(a@.len() != b@.len());
                return false;
            },
        }
    }
}

} // verus!
