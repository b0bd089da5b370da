//! Texts: trimming, splitting, joining, and changing case.

use vstd::prelude::*;
use vstd::string::*;

use crate::collections::texts;

pub mod laws;

verus! {

/// `String::push` puts one character at the end of the string.
pub assume_specification[ String::push ](string: &mut String, ch: char)
    ensures
        final(string)@ == old(string)@.push(ch),
;

/// The characters with the Unicode property `White_Space`.
pub open spec fn is_space(c: char) -> bool {
    let n = c as u32;
    ||| 0x09 <= n <= 0x0d
    ||| n == 0x20
    ||| n == 0x85
    ||| n == 0xa0
    ||| n == 0x1680
    ||| 0x2000 <= n <= 0x200a
    ||| n == 0x2028
    ||| n == 0x2029
    ||| n == 0x202f
    ||| n == 0x205f
    ||| n == 0x3000
}

pub fn char_is_space(c: char) -> (r: bool)
    ensures
        r == is_space(c),
{
    let n: u32 = c as u32;
    (0x09 <= n && n <= 0x0d) || n == 0x20 || n == 0x85 || n == 0xa0 || n == 0x1680 || (0x2000 <= n
        && n <= 0x200a) || n == 0x2028 || n == 0x2029 || n == 0x202f || n == 0x205f || n == 0x3000
}

/// `c` with an ASCII capital turned into the small letter.
pub open spec fn ascii_lower_char(c: char) -> char {
    if 'A' <= c && c <= 'Z' {
        ((c as u8) + 32u8) as char
    } else {
        c
    }
}

pub fn char_to_lower(c: char) -> (r: char)
    ensures
        r == ascii_lower_char(c),
{
    if 'A' <= c && c <= 'Z' {
        ((c as u8) + 32u8) as char
    } else {
        c
    }
}

/// Whether two texts hold the same characters.
pub fn same_text(a: &str, b: &str) -> (r: bool)
    ensures
        r == (a@ == b@),
{
    a.to_owned() == b.to_owned()
}

/// The text without characters.
pub fn no_text() -> (r: &'static str)
    ensures
        r@ == Seq::<char>::empty(),
{
    proof {
        reveal_strlit("");
    }
    ""
}

/// The characters of `text`, one by one.
pub fn chars_of(text: &str) -> (r: Vec<char>)
    ensures
        r@ == text@,
{
    let mut out: Vec<char> = Vec::new();
    for c in it: text.chars()
        invariant
            out@ == it.seq().take(it.index()),
    {
        out.push(c);
    }
    out
}

/// A text of the given characters.
pub fn text_of(chars: &Vec<char>) -> (r: String)
    ensures
        r@ == chars@,
{
    let mut out = String::new();
    let mut i: usize = 0;
    while i < chars.len()
        invariant
            i <= chars@.len(),
            out@ == chars@.take(i as int),
        decreases chars@.len() - i,
    {
        out.push(chars[i]);
        i += 1;
    }
    out
}

// ---- trimming ----

/// `s` without the whitespace at its start.
pub open spec fn trim_start(s: Seq<char>) -> Seq<char>
    decreases s.len(),
{
    if s.len() > 0 && is_space(s[0]) {
        trim_start(s.drop_first())
    } else {
        s
    }
}

/// `s` without the whitespace at its end.
pub open spec fn trim_end(s: Seq<char>) -> Seq<char>
    decreases s.len(),
{
    if s.len() > 0 && is_space(s.last()) {
        trim_end(s.drop_last())
    } else {
        s
    }
}

/// `s` without the whitespace at either end.
pub open spec fn trim(s: Seq<char>) -> Seq<char> {
    trim_end(trim_start(s))
}

pub proof fn lemma_trim_start(s: Seq<char>, n: int)
    requires
        0 <= n <= s.len(),
        forall|i: int| 0 <= i < n ==> is_space(s[i]),
        n < s.len() ==> !is_space(s[n]),
    ensures
        trim_start(s) == s.skip(n),
    decreases n,
{
    if n > 0 {
        assert(s.drop_first().skip(n - 1) =~= s.skip(n));
        lemma_trim_start(s.drop_first(), n - 1);
    } else {
        assert(s.skip(0) =~= s);
    }
}

pub proof fn lemma_trim_end(s: Seq<char>, n: int)
    requires
        0 <= n <= s.len(),
        forall|i: int| n <= i < s.len() ==> is_space(s[i]),
        n > 0 ==> !is_space(s[n - 1]),
    ensures
        trim_end(s) == s.take(n),
    decreases s.len() - n,
{
    if n < s.len() {
        assert(s.drop_last().take(n) =~= s.take(n));
        lemma_trim_end(s.drop_last(), n);
    } else {
        assert(s.take(n) =~= s);
    }
}

/// `text` without the whitespace at either end.
pub fn trimmed<'a>(text: &'a str) -> (r: &'a str)
    ensures
        r@ == trim(text@),
{
    let chars = chars_of(text);
    let n = chars.len();
    let mut from: usize = 0;
    while from < n && char_is_space(chars[from])
        invariant
            n == chars@.len(),
            from <= n,
            forall|i: int| 0 <= i < from ==> is_space(chars@[i]),
        decreases n - from,
    {
        from += 1;
    }
    let mut to: usize = n;
    while to > from && char_is_space(chars[to - 1])
        invariant
            n == chars@.len(),
            from <= to <= n,
            from < n ==> !is_space(chars@[from as int]),
            forall|i: int| to <= i < n ==> is_space(chars@[i]),
        decreases to,
    {
        to -= 1;
    }
    proof {
        lemma_trim_start(text@, from as int);
        let rest = text@.skip(from as int);
        lemma_trim_end(rest, to - from);
        assert(rest.take(to - from) =~= text@.subrange(from as int, to as int));
    }
    text.substring_char(from, to)
}

/// `s` without the leading run of characters that `drop` picks.
pub open spec fn strip_leading(s: Seq<char>, drop: spec_fn(char) -> bool) -> Seq<char>
    decreases s.len(),
{
    if s.len() > 0 && drop(s[0]) {
        strip_leading(s.drop_first(), drop)
    } else {
        s
    }
}

pub proof fn lemma_strip_leading(s: Seq<char>, drop: spec_fn(char) -> bool, n: int)
    requires
        0 <= n <= s.len(),
        forall|i: int| 0 <= i < n ==> drop(s[i]),
        n < s.len() ==> !drop(s[n]),
    ensures
        strip_leading(s, drop) == s.skip(n),
    decreases n,
{
    if n > 0 {
        assert(s.drop_first().skip(n - 1) =~= s.skip(n));
        lemma_strip_leading(s.drop_first(), drop, n - 1);
    } else {
        assert(s.skip(0) =~= s);
    }
}

/// Picks the character `c` alone.
pub open spec fn just(c: char) -> spec_fn(char) -> bool {
    |x: char| x == c
}

/// `s` without leading `c`s.
pub open spec fn strip_char(s: Seq<char>, c: char) -> Seq<char> {
    strip_leading(s, just(c))
}

/// `text` without leading `c`s.
pub fn without_leading<'a>(text: &'a str, c: char) -> (r: &'a str)
    ensures
        r@ == strip_char(text@, c),
{
    let chars = chars_of(text);
    let n = chars.len();
    let mut from: usize = 0;
    while from < n && chars[from] == c
        invariant
            n == chars@.len(),
            from <= n,
            forall|i: int| 0 <= i < from ==> chars@[i] == c,
        decreases n - from,
    {
        from += 1;
    }
    proof {
        lemma_strip_leading(text@, just(c), from as int);
        assert(text@.skip(from as int) =~= text@.subrange(from as int, n as int));
    }
    text.substring_char(from, n)
}

/// The marks that a channel listing puts in front of a nick.
pub open spec fn is_nick_mark(c: char) -> bool {
    c == '@' || c == '+' || c == '%' || c == '~' || c == '&'
}

/// `text` without leading nick marks.
pub fn without_nick_marks<'a>(text: &'a str) -> (r: &'a str)
    ensures
        r@ == strip_leading(text@, |x: char| is_nick_mark(x)),
{
    let chars = chars_of(text);
    let n = chars.len();
    let mut from: usize = 0;
    while from < n && (chars[from] == '@' || chars[from] == '+' || chars[from] == '%' || chars[from]
        == '~' || chars[from] == '&')
        invariant
            n == chars@.len(),
            from <= n,
            forall|i: int| 0 <= i < from ==> is_nick_mark(chars@[i]),
        decreases n - from,
    {
        from += 1;
    }
    proof {
        lemma_strip_leading(text@, |x: char| is_nick_mark(x), from as int);
        assert(text@.skip(from as int) =~= text@.subrange(from as int, n as int));
    }
    text.substring_char(from, n)
}

// ---- prefixes and suffixes ----

/// Whether `text` begins with `prefix`.
pub fn starts_with(text: &str, prefix: &str) -> (r: bool)
    ensures
        r == prefix@.is_prefix_of(text@),
{
    let n = prefix.unicode_len();
    if n > text.unicode_len() {
        false
    } else {
        same_text(text.substring_char(0, n), prefix)
    }
}

/// Whether `text` ends with `suffix`.
pub fn ends_with(text: &str, suffix: &str) -> (r: bool)
    ensures
        r == suffix@.is_suffix_of(text@),
{
    let n = suffix.unicode_len();
    let m = text.unicode_len();
    if n > m {
        false
    } else {
        same_text(text.substring_char(m - n, m), suffix)
    }
}

/// What follows `prefix` in `text`, if `text` begins with it.
pub fn after_prefix<'a>(text: &'a str, prefix: &str) -> (r: Option<&'a str>)
    ensures
        match r {
            Some(rest) => prefix@.is_prefix_of(text@) && rest@ == text@.skip(prefix@.len() as int),
            None => !prefix@.is_prefix_of(text@),
        },
{
    if starts_with(text, prefix) {
        let n = prefix.unicode_len();
        let m = text.unicode_len();
        assert(text@.skip(n as int) =~= text@.subrange(n as int, m as int));
        Some(text.substring_char(n, m))
    } else {
        None
    }
}

/// What precedes `suffix` in `text`, if `text` ends with it.
pub fn before_suffix<'a>(text: &'a str, suffix: &str) -> (r: Option<&'a str>)
    ensures
        match r {
            Some(rest) => suffix@.is_suffix_of(text@) && rest@ == text@.take(
                text@.len() - suffix@.len(),
            ),
            None => !suffix@.is_suffix_of(text@),
        },
{
    if ends_with(text, suffix) {
        let n = suffix.unicode_len();
        let m = text.unicode_len();
        assert(text@.take(m - n) =~= text@.subrange(0, m - n));
        Some(text.substring_char(0, m - n))
    } else {
        None
    }
}

/// Whether the first character of `s` is `c`.
pub open spec fn begins_with(s: Seq<char>, c: char) -> bool {
    s.len() > 0 && s[0] == c
}

/// Whether the first character of `text` is `c`.
pub fn starts_with_char(text: &str, c: char) -> (r: bool)
    ensures
        r == begins_with(text@, c),
{
    text.unicode_len() > 0 && text.get_char(0) == c
}

// ---- taking texts apart ----

/// The words of `s`: its longest runs of characters that are no whitespace, in
/// order.
pub open spec fn words(s: Seq<char>) -> Seq<Seq<char>>
    decreases s.len(),
{
    if s.len() == 0 {
        Seq::empty()
    } else {
        let before = words(s.drop_last());
        let c = s.last();
        if is_space(c) {
            before
        } else if s.len() > 1 && !is_space(s[s.len() - 2]) {
            before.drop_last().push(before.last().push(c))
        } else {
            before.push(seq![c])
        }
    }
}

pub proof fn lemma_words_some(s: Seq<char>)
    requires
        s.len() > 0,
        !is_space(s.last()),
    ensures
        words(s).len() > 0,
    decreases s.len(),
{
    if s.len() > 1 && !is_space(s[s.len() - 2]) {
        lemma_words_some(s.drop_last());
    }
}

/// A text without spaces is one word.
pub proof fn lemma_one_word(s: Seq<char>)
    requires
        s.len() > 0,
        forall|i: int| 0 <= i < s.len() ==> !is_space(#[trigger] s[i]),
    ensures
        words(s) == seq![s],
    decreases s.len(),
{
    if s.len() == 1 {
        assert(words(s.drop_last()) =~= Seq::<Seq<char>>::empty());
        assert(s =~= seq![s.last()]);
        assert(words(s) =~= seq![s]);
    } else {
        let before = s.drop_last();
        assert forall|i: int| 0 <= i < before.len() implies !is_space(#[trigger] before[i]) by {
            assert(before[i] == s[i]);
        }
        lemma_one_word(before);
        assert(before.push(s.last()) =~= s);
        assert(words(s) =~= seq![s]);
    }
}

/// The words of two texts with a space between them are those of each.
pub proof fn lemma_words_apart(a: Seq<char>, b: Seq<char>)
    ensures
        words(a + seq![' '] + b) == words(a) + words(b),
    decreases b.len(),
{
    let s = a + seq![' '] + b;
    if b.len() == 0 {
        assert(s.drop_last() =~= a);
        assert(s.last() == ' ');
        assert(words(b) =~= Seq::<Seq<char>>::empty());
        assert(words(s) =~= words(a) + words(b));
    } else {
        let rest = b.drop_last();
        lemma_words_apart(a, rest);
        assert(s.drop_last() =~= a + seq![' '] + rest);
        assert(s.last() == b.last());
        if b.len() > 1 {
            assert(s[s.len() - 2] == b[b.len() - 2]);
            if !is_space(b[b.len() - 2]) {
                lemma_words_some(rest);
                let before = words(a) + words(rest);
                assert(before.last() == words(rest).last());
                assert(before.drop_last() =~= words(a) + words(rest).drop_last());
            }
        } else {
            assert(s[s.len() - 2] == ' ');
        }
        assert(words(s) =~= words(a) + words(b));
    }
}

pub fn split_words(text: &str) -> (r: Vec<String>)
    ensures
        texts(r@) == words(text@),
{
    let chars = chars_of(text);
    let mut out: Vec<String> = Vec::new();
    let mut word = String::new();
    let mut inside = false;
    let mut i: usize = 0;
    while i < chars.len()
        invariant
            i <= chars@.len(),
            chars@ == text@,
            inside == (i > 0 && !is_space(chars@[i - 1])),
            inside ==> words(chars@.take(i as int)) == texts(out@).push(word@),
            !inside ==> words(chars@.take(i as int)) == texts(out@) && word@.len() == 0,
        decreases chars@.len() - i,
    {
        let c = chars[i];
        let ghost now = chars@.take(i + 1);
        let ghost done = texts(out@);
        proof {
            assert(now.drop_last() =~= chars@.take(i as int));
            assert(now.last() == c);
        }
        if char_is_space(c) {
            if inside {
                out.push(word);
                word = String::new();
                assert(texts(out@) =~= words(chars@.take(i as int)));
            }
            inside = false;
        } else {
            let ghost before = word@;
            word.push(c);
            proof {
                if inside {
                    assert(done.push(before).drop_last() =~= done);
                } else {
                    assert(word@ =~= seq![c]);
                }
            }
            inside = true;
        }
        i += 1;
    }
    proof {
        assert(chars@.take(i as int) =~= text@);
    }
    if inside {
        let ghost done = texts(out@);
        out.push(word);
        assert(texts(out@) =~= done.push(word@));
    }
    out
}

/// The pieces of `s` between the `c`s; one more than there are `c`s.
pub open spec fn split_on(s: Seq<char>, c: char) -> Seq<Seq<char>>
    decreases s.len(),
{
    if s.len() == 0 {
        seq![Seq::<char>::empty()]
    } else {
        let before = split_on(s.drop_last(), c);
        if s.last() == c {
            before.push(Seq::empty())
        } else {
            before.drop_last().push(before.last().push(s.last()))
        }
    }
}

pub fn split_at_each(text: &str, c: char) -> (r: Vec<String>)
    ensures
        texts(r@) == split_on(text@, c),
        r@.len() > 0,
{
    let chars = chars_of(text);
    let mut out: Vec<String> = Vec::new();
    let mut piece = String::new();
    let mut i: usize = 0;
    proof {
        assert(chars@.take(0) =~= Seq::<char>::empty());
        assert(texts(out@).push(piece@) =~= seq![Seq::<char>::empty()]);
    }
    while i < chars.len()
        invariant
            i <= chars@.len(),
            chars@ == text@,
            split_on(chars@.take(i as int), c) == texts(out@).push(piece@),
        decreases chars@.len() - i,
    {
        let ghost now = chars@.take(i + 1);
        let ghost done = texts(out@);
        let ghost before = piece@;
        proof {
            assert(now.drop_last() =~= chars@.take(i as int));
            assert(done.push(before).drop_last() =~= done);
        }
        if chars[i] == c {
            out.push(piece);
            piece = String::new();
            assert(texts(out@) =~= done.push(before));
            assert(piece@ =~= Seq::<char>::empty());
        } else {
            piece.push(chars[i]);
        }
        i += 1;
    }
    proof {
        assert(chars@.take(i as int) =~= text@);
    }
    let ghost done = texts(out@);
    out.push(piece);
    assert(texts(out@) =~= done.push(piece@));
    out
}

/// A text without `c` is a single piece.
pub proof fn lemma_split_whole(s: Seq<char>, c: char)
    requires
        !s.contains(c),
    ensures
        split_on(s, c) == seq![s],
    decreases s.len(),
{
    if s.len() > 0 {
        assert(s[s.len() - 1] == s.last());
        assert(!s.drop_last().contains(c)) by {
            if s.drop_last().contains(c) {
                assert(s[s.drop_last().index_of(c)] == c);
            }
        }
        lemma_split_whole(s.drop_last(), c);
        assert(s.drop_last().push(s.last()) =~= s);
        assert(split_on(s, c) =~= seq![s]);
    } else {
        assert(s =~= Seq::<char>::empty());
    }
}

/// What stands before the first `c` is the first piece.
pub proof fn lemma_split_first(a: Seq<char>, b: Seq<char>, c: char)
    requires
        !a.contains(c),
    ensures
        split_on(a + seq![c] + b, c) == seq![a] + split_on(b, c),
    decreases b.len(),
{
    let s = a + seq![c] + b;
    if b.len() == 0 {
        assert(s.drop_last() =~= a);
        lemma_split_whole(a, c);
        assert(split_on(s, c) =~= seq![a] + split_on(b, c));
    } else {
        lemma_split_first(a, b.drop_last(), c);
        lemma_split_some(b.drop_last(), c);
        assert(s.drop_last() =~= a + seq![c] + b.drop_last());
        assert(s.last() == b.last());
        let p = split_on(b.drop_last(), c);
        if b.last() == c {
            assert((seq![a] + p).push(Seq::empty()) =~= seq![a] + p.push(Seq::empty()));
        } else {
            let whole = seq![a] + p;
            assert(whole.last() == p.last());
            assert(whole.drop_last() =~= seq![a] + p.drop_last());
            assert(whole.drop_last().push(whole.last().push(b.last())) =~= seq![a]
                + p.drop_last().push(p.last().push(b.last())));
        }
    }
}

pub proof fn lemma_split_some(s: Seq<char>, c: char)
    ensures
        split_on(s, c).len() > 0,
    decreases s.len(),
{
    if s.len() > 0 {
        lemma_split_some(s.drop_last(), c);
    }
}

/// The index of the first `c` in `s`, or the length of `s` if there is none.
pub open spec fn first_at(s: Seq<char>, c: char) -> int
    decreases s.len(),
{
    if s.len() == 0 || s[0] == c {
        0
    } else {
        1 + first_at(s.drop_first(), c)
    }
}

proof fn lemma_first_at(s: Seq<char>, c: char, n: int)
    requires
        0 <= n <= s.len(),
        forall|i: int| 0 <= i < n ==> s[i] != c,
        n < s.len() ==> s[n] == c,
    ensures
        first_at(s, c) == n,
    decreases n,
{
    if n > 0 {
        lemma_first_at(s.drop_first(), c, n - 1);
    }
}

/// What `first_at` says of the characters: none before it is `c`, and the one
/// at it is.
pub proof fn lemma_first_at_is(s: Seq<char>, c: char)
    ensures
        0 <= first_at(s, c) <= s.len(),
        forall|i: int| 0 <= i < first_at(s, c) ==> s[i] != c,
        first_at(s, c) < s.len() ==> s[first_at(s, c)] == c,
    decreases s.len(),
{
    if s.len() > 0 && s[0] != c {
        lemma_first_at_is(s.drop_first(), c);
        assert forall|i: int| 0 <= i < first_at(s, c) implies s[i] != c by {
            if i > 0 {
                assert(s.drop_first()[i - 1] == s[i]);
            }
        }
    }
}

pub fn index_of_char(text: &str, c: char) -> (r: usize)
    ensures
        r == first_at(text@, c),
        r <= text@.len(),
{
    let chars = chars_of(text);
    let mut n: usize = 0;
    while n < chars.len() && chars[n] != c
        invariant
            n <= chars@.len(),
            forall|i: int| 0 <= i < n ==> chars@[i] != c,
        decreases chars@.len() - n,
    {
        n += 1;
    }
    proof {
        lemma_first_at(text@, c, n as int);
    }
    n
}

/// `s` cut at its first `c`, which belongs to neither part.
pub open spec fn cut_once(s: Seq<char>, c: char) -> Option<(Seq<char>, Seq<char>)> {
    let n = first_at(s, c);
    if n < s.len() {
        Some((s.take(n), s.skip(n + 1)))
    } else {
        None
    }
}

pub fn split_once<'a>(text: &'a str, c: char) -> (r: Option<(&'a str, &'a str)>)
    ensures
        match r {
            Some((head, rest)) => cut_once(text@, c) == Some((head@, rest@)),
            None => cut_once(text@, c) is None,
        },
{
    let n = index_of_char(text, c);
    let m = text.unicode_len();
    if n < m {
        assert(text@.take(n as int) =~= text@.subrange(0, n as int));
        assert(text@.skip(n + 1) =~= text@.subrange(n + 1, m as int));
        Some((text.substring_char(0, n), text.substring_char(n + 1, m)))
    } else {
        None
    }
}

/// Whether one of the characters of `text` is `c`.
pub fn contains_char(text: &str, c: char) -> (r: bool)
    ensures
        r == text@.contains(c),
{
    let n = index_of_char(text, c);
    proof {
        lemma_first_at_is(text@, c);
        if n < text@.len() {
            assert(text@[n as int] == c);
        }
    }
    n < text.unicode_len()
}

/// Whether one of the characters of `text` is whitespace.
pub fn contains_space(text: &str) -> (r: bool)
    ensures
        r == exists|i: int| 0 <= i < text@.len() && is_space(#[trigger] text@[i]),
{
    let chars = chars_of(text);
    let mut n: usize = 0;
    while n < chars.len()
        invariant
            n <= chars@.len(),
            chars@ == text@,
            forall|i: int| 0 <= i < n ==> !is_space(chars@[i]),
        decreases chars@.len() - n,
    {
        if char_is_space(chars[n]) {
            assert(is_space(text@[n as int]));
            return true;
        }
        n += 1;
    }
    false
}

// ---- putting texts together ----

/// The parts one after the other, with `sep` between two of them.
pub open spec fn join(parts: Seq<Seq<char>>, sep: Seq<char>) -> Seq<char>
    decreases parts.len(),
{
    if parts.len() == 0 {
        Seq::empty()
    } else if parts.len() == 1 {
        parts[0]
    } else {
        join(parts.drop_last(), sep) + sep + parts.last()
    }
}

/// Joining the pieces of a text gives the text.
pub proof fn lemma_join_split(s: Seq<char>, c: char)
    ensures
        join(split_on(s, c), seq![c]) == s,
    decreases s.len(),
{
    if s.len() > 0 {
        let rest = s.drop_last();
        let p = split_on(rest, c);
        lemma_join_split(rest, c);
        lemma_split_some(rest, c);
        assert(rest.push(s.last()) =~= s);
        if s.last() == c {
            let q = p.push(Seq::empty());
            assert(q.drop_last() =~= p);
            assert(join(q, seq![c]) =~= s);
        } else {
            let q = p.drop_last().push(p.last().push(s.last()));
            assert(q.drop_last() =~= p.drop_last());
            if p.len() == 1 {
                assert(join(q, seq![c]) =~= s);
            } else {
                assert(join(q, seq![c]) =~= join(p, seq![c]).push(s.last()));
            }
        }
    }
}

/// Joining begins with the first part.
pub proof fn lemma_join_first(parts: Seq<Seq<char>>, sep: Seq<char>)
    requires
        parts.len() > 1,
    ensures
        join(parts, sep) == parts[0] + sep + join(parts.drop_first(), sep),
    decreases parts.len(),
{
    let rest = parts.drop_first();
    if parts.len() == 2 {
        assert(parts.drop_last().len() == 1);
        assert(parts.drop_last()[0] == parts[0]);
        assert(join(parts.drop_last(), sep) == parts[0]);
        assert(rest.len() == 1);
        assert(join(rest, sep) == parts.last());
    } else {
        lemma_join_first(parts.drop_last(), sep);
        assert(parts.drop_last().drop_first() =~= rest.drop_last());
        assert(rest.last() == parts.last());
        assert(parts.drop_last()[0] == parts[0]);
        assert(join(parts, sep) =~= parts[0] + sep + join(rest, sep));
    }
}

/// Joins the parts from index `from` on.
pub fn join_from(parts: &Vec<String>, from: usize, sep: &str) -> (r: String)
    requires
        from <= parts@.len(),
    ensures
        r@ == join(texts(parts@).skip(from as int), sep@),
{
    let mut out = String::new();
    let mut i: usize = from;
    let ghost all = texts(parts@).skip(from as int);
    assert(all.take(0) =~= Seq::<Seq<char>>::empty());
    while i < parts.len()
        invariant
            from <= i <= parts@.len(),
            all == texts(parts@).skip(from as int),
            out@ == join(all.take(i - from), sep@),
        decreases parts@.len() - i,
    {
        proof {
            let next = all.take(i + 1 - from);
            assert(next.drop_last() =~= all.take(i - from));
            assert(next.last() == parts@[i as int]@);
        }
        if i > from {
            out.append(sep);
            out.append(parts[i].as_str());
        } else {
            out.append(parts[i].as_str());
            assert(out@ =~= parts@[i as int]@);
        }
        i += 1;
    }
    assert(all.take(i - from) =~= all);
    out
}

pub fn join_all(parts: &Vec<String>, sep: &str) -> (r: String)
    ensures
        r@ == join(texts(parts@), sep@),
{
    assert(texts(parts@).skip(0) =~= texts(parts@));
    join_from(parts, 0, sep)
}

/// A copy of `parts` from index `from` on.
pub fn copy_from(parts: &Vec<String>, from: usize) -> (r: Vec<String>)
    requires
        from <= parts@.len(),
    ensures
        texts(r@) == texts(parts@).skip(from as int),
{
    let mut out: Vec<String> = Vec::new();
    let mut i: usize = from;
    while i < parts.len()
        invariant
            from <= i <= parts@.len(),
            texts(out@) =~= texts(parts@).subrange(from as int, i as int),
        decreases parts@.len() - i,
    {
        let ghost before = texts(out@);
        out.push(parts[i].clone());
        assert(texts(out@) =~= before.push(parts@[i as int]@));
        i += 1;
    }
    out
}

/// `n` in decimal digits.
pub open spec fn decimal(n: nat) -> Seq<char>
    decreases n,
{
    if n < 10 {
        seq![(48 + n) as char]
    } else {
        decimal(n / 10).push((48 + n % 10) as char)
    }
}

pub fn decimal_text(n: u64) -> (r: String)
    ensures
        r@ == decimal(n as nat),
    decreases n,
{
    if n < 10 {
        let mut out = String::new();
        out.push((48u8 + n as u8) as char);
        assert(out@ =~= seq![(48 + n) as char]);
        out
    } else {
        let mut out = decimal_text(n / 10);
        out.push((48u8 + (n % 10) as u8) as char);
        out
    }
}

// ---- changing characters ----

/// `s` with its ASCII capitals turned into small letters.
pub open spec fn ascii_lower(s: Seq<char>) -> Seq<char> {
    s.map_values(|c: char| ascii_lower_char(c))
}

pub fn to_ascii_lower(text: &str) -> (r: String)
    ensures
        r@ == ascii_lower(text@),
{
    let chars = chars_of(text);
    let mut out = String::new();
    let mut i: usize = 0;
    while i < chars.len()
        invariant
            i <= chars@.len(),
            chars@ == text@,
            out@ =~= ascii_lower(text@).take(i as int),
        decreases chars@.len() - i,
    {
        out.push(char_to_lower(chars[i]));
        i += 1;
    }
    out
}

/// `c` with an ASCII small letter turned into the capital.
pub open spec fn ascii_upper_char(c: char) -> char {
    if 'a' <= c && c <= 'z' {
        ((c as u8) - 32u8) as char
    } else {
        c
    }
}

/// `s` with its ASCII small letters turned into capitals.
pub open spec fn ascii_upper(s: Seq<char>) -> Seq<char> {
    s.map_values(|c: char| ascii_upper_char(c))
}

pub fn to_ascii_upper(text: &str) -> (r: String)
    ensures
        r@ == ascii_upper(text@),
{
    let chars = chars_of(text);
    let mut out = String::new();
    let mut i: usize = 0;
    while i < chars.len()
        invariant
            i <= chars@.len(),
            chars@ == text@,
            out@ =~= ascii_upper(text@).take(i as int),
        decreases chars@.len() - i,
    {
        let c = chars[i];
        if 'a' <= c && c <= 'z' {
            out.push(((c as u8) - 32u8) as char);
        } else {
            out.push(c);
        }
        i += 1;
    }
    out
}

/// Whether two texts differ at most in the case of ASCII letters.
pub open spec fn same_ignoring_case(a: Seq<char>, b: Seq<char>) -> bool {
    ascii_lower(a) == ascii_lower(b)
}

pub fn eq_ignoring_case(a: &str, b: &str) -> (r: bool)
    ensures
        r == same_ignoring_case(a@, b@),
{
    to_ascii_lower(a) == to_ascii_lower(b)
}

/// `s` with a space for every `_`.
pub open spec fn unescape(s: Seq<char>) -> Seq<char> {
    s.map_values(|c: char| if c == '_' { ' ' } else { c })
}

pub fn underscores_to_spaces(text: &str) -> (r: String)
    ensures
        r@ == unescape(text@),
{
    let chars = chars_of(text);
    let mut out = String::new();
    let mut i: usize = 0;
    while i < chars.len()
        invariant
            i <= chars@.len(),
            chars@ == text@,
            out@ =~= unescape(text@).take(i as int),
        decreases chars@.len() - i,
    {
        let c = chars[i];
        if c == '_' {
            out.push(' ');
        } else {
            out.push(c);
        }
        i += 1;
    }
    out
}

/// Whether every character of a text is ASCII.
pub open spec fn is_ascii_text(s: Seq<char>) -> bool {
    forall|i: int| 0 <= i < s.len() ==> (#[trigger] s[i] as u32) < 128
}

/// Whether a text holds no ASCII capital.
pub open spec fn no_capitals(s: Seq<char>) -> bool {
    forall|i: int| 0 <= i < s.len() ==> !('A' <= #[trigger] s[i] && s[i] <= 'Z')
}

/// What `str::to_lowercase` gives for a text of these characters.
pub uninterp spec fn lowercase(s: Seq<char>) -> Seq<char>;

/// `str::to_lowercase`: the lowercase equivalent by Unicode, which depends on
/// the text alone. ASCII capitals become small letters and count as those, so
/// none is left; in ASCII text nothing else changes.
#[verifier::external_body]
fn to_lowercase(text: &str) -> (r: String)
    ensures
        r@ == lowercase(text@),
        r@ == lowercase(ascii_lower(text@)),
        no_capitals(r@),
        is_ascii_text(text@) ==> r@ == ascii_lower(text@),
{
    text.to_lowercase()
}

/// The lowercase equivalent of a text: letter by letter where it is ASCII, and
/// by Unicode elsewhere.
pub open spec fn lower(s: Seq<char>) -> Seq<char> {
    if is_ascii_text(s) {
        ascii_lower(s)
    } else {
        lowercase(ascii_lower(s))
    }
}

/// The lowercase equivalent of a text.
pub fn lowered(text: &str) -> (r: String)
    ensures
        r@ == lower(text@),
        no_capitals(r@),
{
    to_lowercase(text)
}

/// Texts that differ in the case of ASCII letters alone have one lowercase
/// equivalent.
pub proof fn lower_ignores_ascii_case(a: Seq<char>, b: Seq<char>)
    requires
        same_ignoring_case(a, b),
    ensures
        lower(a) == lower(b),
{
    assert(a.len() == ascii_lower(a).len());
    assert(b.len() == ascii_lower(b).len());
    assert forall|i: int| 0 <= i < a.len() implies ((#[trigger] a[i] as u32) < 128) == ((b[i]
        as u32) < 128) by {
        assert(ascii_lower(a)[i] == ascii_lower_char(a[i]));
        assert(ascii_lower(b)[i] == ascii_lower_char(b[i]));
    }
    if is_ascii_text(a) {
        assert forall|i: int| 0 <= i < b.len() implies (#[trigger] b[i] as u32) < 128 by {
            assert((a[i] as u32) < 128);
        }
    } else {
        let i = choose|i: int| 0 <= i < a.len() && !((#[trigger] a[i] as u32) < 128);
        assert(!((b[i] as u32) < 128));
    }
}

} // verus!
