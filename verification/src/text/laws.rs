//! What the operations on texts give, character by character.

use vstd::prelude::*;

use crate::text::{
    ascii_lower, ascii_lower_char, ascii_upper, cut_once, decimal, first_at, is_ascii_text,
    is_space, join, lemma_first_at_is, lemma_join_first, lemma_one_word, lemma_split_some,
    lemma_words_some, lower, same_ignoring_case, split_on, strip_char, trim, trim_end, trim_start,
    unescape, words,
};

verus! {

// ---- spaces ----

/// Blanks, tabs and line ends are spaces; no visible ASCII character is one.
pub proof fn blanks_are_spaces(c: char)
    ensures
        c == ' ' || c == '\t' || c == '\n' || c == '\r' ==> is_space(c),
        '!' <= c && c <= '~' ==> !is_space(c),
{
}

proof fn lemma_trim_start_cuts(s: Seq<char>) -> (n: int)
    ensures
        0 <= n <= s.len(),
        trim_start(s) == s.skip(n),
        forall|i: int| 0 <= i < n ==> is_space(s[i]),
        n < s.len() ==> !is_space(s[n]),
    decreases s.len(),
{
    if s.len() > 0 && is_space(s[0]) {
        let rest = s.drop_first();
        let m = lemma_trim_start_cuts(rest);
        assert(rest.skip(m) =~= s.skip(m + 1));
        assert forall|i: int| 0 <= i < m + 1 implies is_space(s[i]) by {
            if i > 0 {
                assert(rest[i - 1] == s[i]);
            }
        }
        m + 1
    } else {
        assert(s.skip(0) =~= s);
        0
    }
}

proof fn lemma_trim_end_cuts(s: Seq<char>) -> (n: int)
    ensures
        0 <= n <= s.len(),
        trim_end(s) == s.take(n),
        forall|i: int| n <= i < s.len() ==> is_space(s[i]),
        n > 0 ==> !is_space(s[n - 1]),
    decreases s.len(),
{
    if s.len() > 0 && is_space(s.last()) {
        let rest = s.drop_last();
        let m = lemma_trim_end_cuts(rest);
        assert(rest.take(m) =~= s.take(m));
        assert forall|i: int| m <= i < s.len() implies is_space(s[i]) by {
            if i < rest.len() {
                assert(rest[i] == s[i]);
            }
        }
        m
    } else {
        assert(s.take(s.len() as int) =~= s);
        s.len() as int
    }
}

/// Trimming takes the spaces at both ends away and nothing else.
pub proof fn trimming_takes_outer_spaces(s: Seq<char>)
    ensures
        exists|a: int, b: int|
            #![trigger s.subrange(a, b)]
            0 <= a <= b <= s.len() && trim(s) == s.subrange(a, b) && (forall|i: int|
                0 <= i < a || b <= i < s.len() ==> is_space(#[trigger] s[i])) && (a < b ==> !is_space(
                s[a],
            ) && !is_space(s[b - 1])),
{
    let a = lemma_trim_start_cuts(s);
    let rest = s.skip(a);
    let m = lemma_trim_end_cuts(rest);
    let b = a + m;
    assert(rest.take(m) =~= s.subrange(a, b));
    assert forall|i: int| 0 <= i < a || b <= i < s.len() implies is_space(#[trigger] s[i]) by {
        if b <= i {
            assert(rest[i - a] == s[i]);
        }
    }
    if a < b {
        assert(rest[m - 1] == s[b - 1]);
    }
}

// ---- words ----

/// Words are split at every space: those of two texts with a space between them
/// are those of the one and then those of the other.
pub proof fn words_are_split_at_spaces(a: Seq<char>, c: char, b: Seq<char>)
    requires
        is_space(c),
    ensures
        words(a + seq![c] + b) == words(a) + words(b),
    decreases b.len(),
{
    let s = a + seq![c] + b;
    if b.len() == 0 {
        assert(s.drop_last() =~= a);
        assert(s.last() == c);
        assert(words(b) =~= Seq::<Seq<char>>::empty());
        assert(words(s) =~= words(a) + words(b));
    } else {
        let rest = b.drop_last();
        words_are_split_at_spaces(a, c, rest);
        assert(s.drop_last() =~= a + seq![c] + rest);
        assert(s.last() == b.last());
        if b.len() > 1 {
            assert(s[s.len() - 2] == b[b.len() - 2]);
            if !is_space(b[b.len() - 2]) {
                lemma_words_some(rest);
                let before = words(a) + words(rest);
                assert(before.last() == words(rest).last());
                assert(before.drop_last() =~= words(a) + words(rest).drop_last());
            }
        } else {
            assert(s[s.len() - 2] == c);
        }
        assert(words(s) =~= words(a) + words(b));
    }
}

/// A text without spaces is one word, and no text is no word.
pub proof fn unbroken_text_is_one_word(s: Seq<char>)
    requires
        forall|i: int| 0 <= i < s.len() ==> !is_space(#[trigger] s[i]),
    ensures
        s.len() > 0 ==> words(s) == seq![s],
        s.len() == 0 ==> words(s).len() == 0,
{
    if s.len() > 0 {
        lemma_one_word(s);
    }
}

// ---- pieces ----

/// A text is cut at the first of the characters asked for, which belongs to
/// neither part; without one it is not cut.
pub proof fn cutting_finds_the_first(s: Seq<char>, c: char)
    ensures
        cut_once(s, c) is None <==> !s.contains(c),
        cut_once(s, c) is Some ==> {
            let (a, b) = cut_once(s, c)->0;
            s == a + seq![c] + b && !a.contains(c)
        },
{
    lemma_first_at_is(s, c);
    let n = first_at(s, c);
    if n < s.len() {
        let a = s.take(n);
        assert(s =~= a + seq![c] + s.skip(n + 1));
        assert(s.contains(c)) by {
            assert(s[n] == c);
        }
        assert forall|i: int| 0 <= i < a.len() implies a[i] != c by {}
    }
}

/// Joining puts the parts one behind the other, with the separator between two
/// of them.
pub proof fn joining_keeps_the_parts(parts: Seq<Seq<char>>, sep: Seq<char>)
    ensures
        parts.len() == 0 ==> join(parts, sep).len() == 0,
        parts.len() == 1 ==> join(parts, sep) == parts[0],
        parts.len() > 1 ==> join(parts, sep) == parts[0] + sep + join(parts.drop_first(), sep),
{
    if parts.len() > 1 {
        lemma_join_first(parts, sep);
    }
}

/// No piece of a text holds the character at which it was split.
pub proof fn pieces_hold_no_separator(s: Seq<char>, c: char)
    ensures
        forall|i: int| 0 <= i < split_on(s, c).len() ==> !(#[trigger] split_on(s, c)[i]).contains(c),
        !s.contains(c) ==> split_on(s, c).len() == 1,
    decreases s.len(),
{
    if s.len() > 0 {
        let rest = s.drop_last();
        pieces_hold_no_separator(rest, c);
        lemma_split_some(rest, c);
        let before = split_on(rest, c);
        let after = split_on(s, c);
        assert forall|i: int| 0 <= i < after.len() implies !(#[trigger] after[i]).contains(c) by {
            if i < after.len() - 1 {
                assert(after[i] == before[i]);
            } else if s.last() != c {
                assert(!before[before.len() - 1].contains(c));
                let piece = before.last();
                assert forall|k: int| 0 <= k < after[i].len() implies after[i][k] != c by {
                    if k < piece.len() {
                        assert(piece[k] == after[i][k]);
                    }
                }
            }
        }
        if !s.contains(c) {
            assert(s[s.len() - 1] != c);
            assert forall|k: int| 0 <= k < rest.len() implies rest[k] != c by {
                assert(rest[k] == s[k]);
            }
        }
    }
}

/// What is stripped is the run of the character at the start, all of it.
pub proof fn stripping_takes_the_whole_run(s: Seq<char>, c: char)
    ensures
        s.len() > 0 && s[0] == c ==> strip_char(s, c) == strip_char(s.drop_first(), c),
        s.len() == 0 || s[0] != c ==> strip_char(s, c) == s,
{
}

// ---- case and characters ----

/// Whether two characters are the same but for the case of an ASCII letter.
pub open spec fn alike(x: char, y: char) -> bool {
    ||| x == y
    ||| 'A' <= x && x <= 'Z' && y as u32 == x as u32 + 32
    ||| 'A' <= y && y <= 'Z' && x as u32 == y as u32 + 32
}

/// Texts are the same but for their case where their characters are, one by one.
pub proof fn case_is_ignored_letter_by_letter(a: Seq<char>, b: Seq<char>)
    ensures
        same_ignoring_case(a, b) <==> a.len() == b.len() && forall|i: int|
            0 <= i < a.len() ==> alike(#[trigger] a[i], b[i]),
{
    let la = ascii_lower(a);
    let lb = ascii_lower(b);
    if same_ignoring_case(a, b) {
        assert(la.len() == lb.len());
        assert forall|i: int| 0 <= i < a.len() implies alike(#[trigger] a[i], b[i]) by {
            assert(la[i] == ascii_lower_char(a[i]));
            assert(lb[i] == ascii_lower_char(b[i]));
        }
    }
    if a.len() == b.len() && forall|i: int| 0 <= i < a.len() ==> alike(#[trigger] a[i], b[i]) {
        assert(la =~= lb) by {
            assert forall|i: int| 0 <= i < la.len() implies la[i] == lb[i] by {
                assert(alike(a[i], b[i]));
            }
        }
    }
}

/// Capitals are made of small letters, and small letters of capitals, in ASCII
/// alone; every other character is kept.
pub proof fn letters_change_their_case(s: Seq<char>)
    ensures
        ascii_upper(s).len() == s.len(),
        forall|i: int|
            0 <= i < s.len() ==> #[trigger] ascii_upper(s)[i] as u32 == if 'a' <= s[i] && s[i]
                <= 'z' {
                (s[i] as u32 - 32) as u32
            } else {
                s[i] as u32
            },
        is_ascii_text(s) ==> lower(s).len() == s.len(),
        is_ascii_text(s) ==> forall|i: int|
            0 <= i < s.len() ==> #[trigger] lower(s)[i] as u32 == if 'A' <= s[i] && s[i] <= 'Z' {
                (s[i] as u32 + 32) as u32
            } else {
                s[i] as u32
            },
{
}

/// Underscores become spaces, and every other character is kept.
pub proof fn underscores_become_spaces(s: Seq<char>)
    ensures
        unescape(s).len() == s.len(),
        forall|i: int|
            0 <= i < s.len() ==> #[trigger] unescape(s)[i] == if s[i] == '_' {
                ' '
            } else {
                s[i]
            },
{
}

/// A number is written by its digits, the highest first.
pub proof fn numbers_are_written_in_decimal(n: nat, d: nat)
    requires
        d < 10,
    ensures
        decimal(d) == seq![('0' as u32 + d) as char],
        n > 0 ==> decimal(10 * n + d) == decimal(n).push(('0' as u32 + d) as char),
{
    if n > 0 {
        assert((10 * n + d) / 10 == n);
        assert((10 * n + d) % 10 == d);
    }
}

} // verus!
