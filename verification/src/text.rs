//! Texts as sequences of characters: comparison, search, the ordered-subsequence
//! test, trimming, splitting and joining. The contracts speak of `Seq<char>`;
//! what `std` knows of single characters and of lowercasing comes in through
//! three named results at the top of the file.

use vstd::prelude::*;

verus! {

/// The text that `str::to_lowercase` returns for a text.
pub uninterp spec fn lowercase(s: Seq<char>) -> Seq<char>;

/// Whether `char::is_uppercase` holds of a character.
pub uninterp spec fn char_is_uppercase(c: char) -> bool;

/// Whether `char::is_whitespace` holds of a character.
pub uninterp spec fn char_is_whitespace(c: char) -> bool;

/// `str::to_lowercase`: the lowercase equivalent of the text as a new `String`.
/// The result is a function of the text alone; the contract names it.
#[verifier::external_body]
pub(crate) fn to_lowercase(s: &str) -> (r: String)
    ensures
        r@ == lowercase(s@),
{
    s.to_lowercase()
}

/// `char::is_uppercase`: whether the character has the Unicode `Uppercase` property.
#[verifier::external_body]
pub(crate) fn is_uppercase(c: char) -> (r: bool)
    ensures
        r == char_is_uppercase(c),
{
    c.is_uppercase()
}

/// `char::is_whitespace`: whether the character has the Unicode `White_Space` property.
#[verifier::external_body]
pub(crate) fn is_whitespace(c: char) -> (r: bool)
    ensures
        r == char_is_whitespace(c),
{
    c.is_whitespace()
}

/// `String::push`: appends one character to the end of the string.
#[verifier::external_body]
pub(crate) fn push_char(s: &mut String, c: char)
    ensures
        final(s)@ == old(s)@.push(c),
{
    s.push(c)
}

/// The characters of a text, in order.
pub fn chars_of(s: &str) -> (v: Vec<char>)
    ensures
        v@ == s@,
{
    let mut v: Vec<char> = Vec::new();
    for c in it: s.chars()
        invariant
            v@ == it.seq().take(it.index() as int),
            it.seq() == s@,
    {
        v.push(c);
    }
    v
}

/// The text made of the characters `v[from..to]`.
pub(crate) fn text_of(v: &Vec<char>, from: usize, to: usize) -> (s: String)
    requires
        from <= to <= v.len(),
    ensures
        s@ == v@.subrange(from as int, to as int),
{
    let mut s = String::new();
    let mut i: usize = from;
    while i < to
        invariant
            from <= i <= to <= v.len(),
            s@ == v@.subrange(from as int, i as int),
        decreases to - i,
    {
        push_char(&mut s, v[i]);
        i += 1;
    }
    s
}

/// Whether two texts hold the same characters.
pub fn same_text(a: &str, b: &str) -> (r: bool)
    ensures
        r == (a@ == b@),
{
    let x = chars_of(a);
    let y = chars_of(b);
    same_chars(&x, &y)
}

/// Whether two character vectors are equal.
pub fn same_chars(x: &Vec<char>, y: &Vec<char>) -> (r: bool)
    ensures
        r == (x@ == y@),
{
    if x.len() != y.len() {
        return false;
    }
    let mut i: usize = 0;
    while i < x.len()
        invariant
            i <= x.len(),
            x.len() == y.len(),
            x@.take(i as int) == y@.take(i as int),
        decreases x.len() - i,
    {
        if x[i] != y[i] {
            return false;
        }
        i += 1;
    }
    assert(x@.take(i as int) == x@);
    assert(y@.take(i as int) == y@);
    true
}

/// Whether `needle` stands in `hay` at position `at`.
pub(crate) fn occurs_at(hay: &Vec<char>, needle: &Vec<char>, at: usize) -> (r: bool)
    requires
        at + needle.len() <= hay.len(),
    ensures
        r == (hay@.subrange(at as int, at + needle.len()) == needle@),
{
    let mut i: usize = 0;
    while i < needle.len()
        invariant
            i <= needle.len(),
            at + needle.len() <= hay.len(),
            hay@.subrange(at as int, at + i) == needle@.take(i as int),
        decreases needle.len() - i,
    {
        if hay[at + i] != needle[i] {
            return false;
        }
        i += 1;
    }
    assert(needle@.take(i as int) == needle@);
    true
}

/// Whether `s` begins with `prefix`.
pub fn starts_with(s: &str, prefix: &str) -> (r: bool)
    ensures
        r == prefix@.is_prefix_of(s@),
{
    let hay = chars_of(s);
    let needle = chars_of(prefix);
    if needle.len() > hay.len() {
        return false;
    }
    occurs_at(&hay, &needle, 0)
}

/// Whether `s` ends with `suffix`.
pub fn ends_with(s: &str, suffix: &str) -> (r: bool)
    ensures
        r == suffix@.is_suffix_of(s@),
{
    let hay = chars_of(s);
    let needle = chars_of(suffix);
    if needle.len() > hay.len() {
        return false;
    }
    occurs_at(&hay, &needle, hay.len() - needle.len())
}

/// `needle` occurs somewhere in `hay` as a contiguous run.
pub open spec fn contains_text(hay: Seq<char>, needle: Seq<char>) -> bool {
    exists|at: int|
        0 <= at && at + needle.len() <= hay.len() && #[trigger] hay.subrange(
            at,
            at + needle.len(),
        ) == needle
}

/// A text that occurs in `middle` occurs in every text around `middle`.
pub proof fn lemma_contains_in_context(
    before: Seq<char>,
    middle: Seq<char>,
    after: Seq<char>,
    needle: Seq<char>,
)
    requires
        contains_text(middle, needle),
    ensures
        contains_text(before + middle + after, needle),
{
    let at = choose|at: int|
        0 <= at && at + needle.len() <= middle.len() && #[trigger] middle.subrange(
            at,
            at + needle.len(),
        ) == needle;
    let whole = before + middle + after;
    let shifted = before.len() + at;
    assert(whole.subrange(shifted, shifted + needle.len()) == needle);
}

/// Whether `needle` occurs somewhere in `hay`.
pub fn contains(hay: &str, needle: &str) -> (r: bool)
    ensures
        r == contains_text(hay@, needle@),
{
    let h = chars_of(hay);
    let n = chars_of(needle);
    if n.len() > h.len() {
        return false;
    }
    let last: usize = h.len() - n.len();
    let mut at: usize = 0;
    loop
        invariant
            at <= last,
            last + n.len() == h.len(),
            h@ == hay@,
            n@ == needle@,
            forall|k: int| 0 <= k < at ==> #[trigger] h@.subrange(k, k + n.len()) != n@,
        decreases last - at,
    {
        if occurs_at(&h, &n, at) {
            return true;
        }
        if at == last {
            return false;
        }
        at += 1;
    }
}

/// `at` gives, for each character of `pattern`, a position in `text` that holds it,
/// the positions strictly increasing.
pub open spec fn is_embedding(at: Seq<int>, pattern: Seq<char>, text: Seq<char>) -> bool {
    &&& at.len() == pattern.len()
    &&& forall|i: int|
        0 <= i < at.len() ==> 0 <= #[trigger] at[i] < text.len() && text[at[i]] == pattern[i]
    &&& forall|i: int, j: int| 0 <= i < j < at.len() ==> #[trigger] at[i] < #[trigger] at[j]
}

/// The characters of `pattern` appear in `text` in the same relative order,
/// not necessarily next to each other.
pub open spec fn is_subsequence(pattern: Seq<char>, text: Seq<char>) -> bool {
    exists|at: Seq<int>| is_embedding(at, pattern, text)
}

/// How many characters of `pattern` a left-to-right scan of `text` consumes
/// when it takes the next unmatched character whenever it sees it.
pub open spec fn greedy_matched(pattern: Seq<char>, text: Seq<char>) -> nat
    decreases text.len(),
{
    if text.len() == 0 {
        0
    } else {
        let k = greedy_matched(pattern, text.drop_last());
        if k < pattern.len() && pattern[k as int] == text.last() {
            k + 1
        } else {
            k
        }
    }
}

proof fn lemma_greedy_bounded(pattern: Seq<char>, text: Seq<char>)
    ensures
        greedy_matched(pattern, text) <= pattern.len(),
    decreases text.len(),
{
    if text.len() > 0 {
        lemma_greedy_bounded(pattern, text.drop_last());
    }
}

proof fn lemma_greedy_embeds(pattern: Seq<char>, text: Seq<char>)
    ensures
        is_subsequence(pattern.take(greedy_matched(pattern, text) as int), text),
    decreases text.len(),
{
    lemma_greedy_bounded(pattern, text);
    if text.len() == 0 {
        assert(is_embedding(Seq::<int>::empty(), pattern.take(0), text));
    } else {
        let shorter = text.drop_last();
        let k = greedy_matched(pattern, shorter);
        lemma_greedy_bounded(pattern, shorter);
        lemma_greedy_embeds(pattern, shorter);
        let at = choose|at: Seq<int>| is_embedding(at, pattern.take(k as int), shorter);
        if k < pattern.len() && pattern[k as int] == text.last() {
            let longer = at.push(text.len() - 1);
            assert(is_embedding(longer, pattern.take(k as int + 1), text));
        } else {
            assert(is_embedding(at, pattern.take(k as int), text));
        }
    }
}

proof fn lemma_greedy_is_longest(pattern: Seq<char>, text: Seq<char>, j: int)
    requires
        0 <= j <= pattern.len(),
        is_subsequence(pattern.take(j), text),
    ensures
        j <= greedy_matched(pattern, text),
    decreases text.len(),
{
    let at = choose|at: Seq<int>| is_embedding(at, pattern.take(j), text);
    if j > 0 && text.len() == 0 {
        assert(0 <= at[0] < text.len());
    } else if j > 0 {
        let shorter = text.drop_last();
        let last = at[j - 1];
        if last < text.len() - 1 {
            assert forall|i: int| 0 <= i < at.len() implies #[trigger] at[i] < shorter.len() by {
                if i < j - 1 {
                    assert(at[i] < at[j - 1]);
                }
            }
            assert(is_embedding(at, pattern.take(j), shorter));
            lemma_greedy_is_longest(pattern, shorter, j);
        } else {
            let front = at.drop_last();
            assert forall|i: int| 0 <= i < front.len() implies #[trigger] front[i]
                < shorter.len() by {
                assert(at[i] < at[j - 1]);
            }
            assert(is_embedding(front, pattern.take(j - 1), shorter));
            lemma_greedy_is_longest(pattern, shorter, j - 1);
        }
    }
}

/// The greedy scan decides the subsequence question: it consumes the whole pattern
/// exactly when the pattern is a subsequence of the text.
pub proof fn lemma_greedy_decides(pattern: Seq<char>, text: Seq<char>)
    ensures
        is_subsequence(pattern, text) <==> greedy_matched(pattern, text) == pattern.len(),
{
    lemma_greedy_bounded(pattern, text);
    assert(pattern.take(pattern.len() as int) == pattern);
    if is_subsequence(pattern, text) {
        lemma_greedy_is_longest(pattern, text, pattern.len() as int);
    }
    if greedy_matched(pattern, text) == pattern.len() {
        lemma_greedy_embeds(pattern, text);
    }
}

/// Whether the characters of `pattern` appear in `text` in order.
pub fn contains_in_order(text: &str, pattern: &str) -> (r: bool)
    ensures
        r == is_subsequence(pattern@, text@),
{
    let t = chars_of(text);
    let p = chars_of(pattern);
    let mut k: usize = 0;
    let mut i: usize = 0;
    while i < t.len()
        invariant
            i <= t.len(),
            k <= p.len(),
            k == greedy_matched(p@, t@.take(i as int)),
        decreases t.len() - i,
    {
        assert(t@.take(i + 1).drop_last() == t@.take(i as int));
        if k < p.len() && p[k] == t[i] {
            k += 1;
        }
        i += 1;
    }
    proof {
        assert(t@.take(i as int) == t@);
        lemma_greedy_decides(p@, t@);
    }
    k == p.len()
}

/// Some character of the text is uppercase.
pub open spec fn has_uppercase(s: Seq<char>) -> bool {
    exists|i: int| 0 <= i < s.len() && char_is_uppercase(#[trigger] s[i])
}

/// Whether some character of the text is uppercase.
pub fn contains_uppercase(s: &str) -> (r: bool)
    ensures
        r == has_uppercase(s@),
{
    let v = chars_of(s);
    let mut i: usize = 0;
    while i < v.len()
        invariant
            i <= v.len(),
            v@ == s@,
            forall|j: int| 0 <= j < i ==> !char_is_uppercase(#[trigger] v@[j]),
        decreases v.len() - i,
    {
        if is_uppercase(v[i]) {
            return true;
        }
        i += 1;
    }
    false
}

/// The text without its leading whitespace.
pub open spec fn trim_start(s: Seq<char>) -> Seq<char>
    decreases s.len(),
{
    if s.len() > 0 && char_is_whitespace(s[0]) {
        trim_start(s.drop_first())
    } else {
        s
    }
}

/// The text without its trailing whitespace.
pub open spec fn trim_end(s: Seq<char>) -> Seq<char>
    decreases s.len(),
{
    if s.len() > 0 && char_is_whitespace(s.last()) {
        trim_end(s.drop_last())
    } else {
        s
    }
}

/// The text without its leading and trailing whitespace.
pub open spec fn trimmed(s: Seq<char>) -> Seq<char> {
    trim_end(trim_start(s))
}

/// The text without its leading and trailing whitespace.
pub fn trim(s: &str) -> (r: String)
    ensures
        r@ == trimmed(s@),
{
    let v = chars_of(s);
    let mut a: usize = 0;
    assert(v@.skip(0) == v@);
    while a < v.len() && is_whitespace(v[a])
        invariant
            a <= v.len(),
            trim_start(v@) == trim_start(v@.skip(a as int)),
        decreases v.len() - a,
    {
        assert(v@.skip(a as int).drop_first() == v@.skip(a + 1));
        a += 1;
    }
    let mut b: usize = v.len();
    while b > a && is_whitespace(v[b - 1])
        invariant
            a <= b <= v.len(),
            trimmed(v@) == trim_end(v@.subrange(a as int, b as int)),
        decreases b,
    {
        assert(v@.subrange(a as int, b as int).drop_last() == v@.subrange(a as int, b - 1));
        b -= 1;
    }
    text_of(&v, a, b)
}

/// The views of a sequence of strings.
pub open spec fn texts(parts: Seq<String>) -> Seq<Seq<char>> {
    parts.map_values(|s: String| s@)
}

/// The parts written one after another with `sep` between neighbours.
pub open spec fn joined(parts: Seq<Seq<char>>, sep: Seq<char>) -> Seq<char>
    decreases parts.len(),
{
    if parts.len() == 0 {
        Seq::empty()
    } else if parts.len() == 1 {
        parts[0]
    } else {
        joined(parts.drop_last(), sep) + sep + parts.last()
    }
}

/// The parts written one after another with `sep` between neighbours.
pub fn join(parts: &[String], sep: &str) -> (r: String)
    ensures
        r@ == joined(texts(parts@), sep@),
{
    let mut r = String::new();
    let mut i: usize = 0;
    while i < parts.len()
        invariant
            i <= parts.len(),
            r@ == joined(texts(parts@.take(i as int)), sep@),
        decreases parts.len() - i,
    {
        proof {
            let before = texts(parts@.take(i as int));
            let after = texts(parts@.take(i + 1));
            assert(after.drop_last() == before);
            if i == 0 {
                assert(Seq::<char>::empty() + parts@[0]@ == parts@[0]@);
            }
        }
        if i > 0 {
            r.append(sep);
        }
        r.append(parts[i].as_str());
        i += 1;
    }
    assert(parts@.take(i as int) == parts@);
    r
}

/// A copy of each string, in order.
pub fn copy_texts(items: &[String]) -> (r: Vec<String>)
    ensures
        texts(r@) == texts(items@),
{
    let mut r: Vec<String> = Vec::new();
    let mut i: usize = 0;
    while i < items.len()
        invariant
            i <= items.len(),
            texts(r@) == texts(items@.take(i as int)),
        decreases items.len() - i,
    {
        let item = items[i].clone();
        proof {
            assert(texts(r@.push(item)) == texts(r@).push(item@));
        }
        r.push(item);
        i += 1;
    }
    r
}

/// The pieces of `s` that lie between occurrences of `sep`, in order.
/// A text without `sep` is one piece; `n` occurrences give `n + 1` pieces.
pub open spec fn split_text(s: Seq<char>, sep: char) -> Seq<Seq<char>>
    decreases s.len(),
{
    if s.len() == 0 {
        seq![Seq::<char>::empty()]
    } else {
        let before = split_text(s.drop_last(), sep);
        if s.last() == sep {
            before.push(Seq::<char>::empty())
        } else {
            before.drop_last().push(before.last().push(s.last()))
        }
    }
}

/// Splitting is undone by joining: the pieces of a text, written one after
/// another with the separator between them, are the text. No piece holds the
/// separator, and there is one piece more than the text has separators.
pub proof fn lemma_split_text(s: Seq<char>, sep: char)
    ensures
        split_text(s, sep).len() >= 1,
        joined(split_text(s, sep), seq![sep]) == s,
        forall|i: int|
            0 <= i < split_text(s, sep).len() ==> !(#[trigger] split_text(s, sep)[i]).contains(sep),
        split_text(s, sep).len() == s.filter(|c: char| c == sep).len() + 1,
    decreases s.len(),
{
    reveal(Seq::filter);
    let pieces = split_text(s, sep);
    if s.len() == 0 {
        assert(pieces[0].len() == 0);
    } else {
        let before = split_text(s.drop_last(), sep);
        lemma_split_text(s.drop_last(), sep);
        if s.last() == sep {
            assert(pieces.drop_last() == before);
        } else {
            let grown = before.last().push(s.last());
            assert(pieces.drop_last() == before.drop_last());
            if before.len() == 1 {
                assert(grown == s);
            } else {
                assert(s.drop_last().push(s.last()) == s);
            }
            assert forall|i: int| 0 <= i < pieces.len() implies !(#[trigger] pieces[i]).contains(
                sep,
            ) by {
                if i < pieces.len() - 1 {
                    assert(pieces[i] == before[i]);
                } else if grown.contains(sep) {
                    let k = choose|k: int| 0 <= k < grown.len() && grown[k] == sep;
                    assert(before.last()[k] == sep);
                }
            }
        }
    }
}

/// Trimming cuts a text at both ends and takes nothing but whitespace away:
/// what is left neither begins nor ends with whitespace.
pub proof fn lemma_trimmed(s: Seq<char>)
    ensures
        exists|a: int, b: int|
            0 <= a <= b <= s.len() && #[trigger] s.subrange(a, b) == trimmed(s) && (forall|i: int|
                0 <= i < a || b <= i < s.len() ==> char_is_whitespace(#[trigger] s[i])),
        trimmed(s).len() > 0 ==> !char_is_whitespace(trimmed(s).first()) && !char_is_whitespace(
            trimmed(s).last(),
        ),
{
    lemma_trim_start(s);
    let a = choose|a: int|
        0 <= a <= s.len() && trim_start(s) == #[trigger] s.skip(a) && (forall|i: int|
            0 <= i < a ==> char_is_whitespace(#[trigger] s[i]));
    let rest = s.skip(a);
    lemma_trim_end(rest);
    let n = choose|n: int|
        0 <= n <= rest.len() && trim_end(rest) == #[trigger] rest.take(n) && (forall|i: int|
            n <= i < rest.len() ==> char_is_whitespace(#[trigger] rest[i]));
    assert(rest.take(n) == s.subrange(a, a + n));
    assert forall|i: int| 0 <= i < a || a + n <= i < s.len() implies char_is_whitespace(
        #[trigger] s[i],
    ) by {
        if i >= a + n {
            assert(rest[i - a] == s[i]);
        }
    }
    if trimmed(s).len() > 0 {
        assert(trimmed(s).first() == rest[0]);
    }
}

proof fn lemma_trim_start(s: Seq<char>)
    ensures
        exists|a: int|
            0 <= a <= s.len() && trim_start(s) == #[trigger] s.skip(a) && (forall|i: int|
                0 <= i < a ==> char_is_whitespace(#[trigger] s[i])),
        trim_start(s).len() > 0 ==> !char_is_whitespace(trim_start(s).first()),
    decreases s.len(),
{
    if s.len() > 0 && char_is_whitespace(s[0]) {
        let rest = s.drop_first();
        lemma_trim_start(rest);
        let a = choose|a: int|
            0 <= a <= rest.len() && trim_start(rest) == #[trigger] rest.skip(a) && (forall|i: int|
                0 <= i < a ==> char_is_whitespace(#[trigger] rest[i]));
        assert(rest.skip(a) == s.skip(a + 1));
        assert forall|i: int| 0 <= i < a + 1 implies char_is_whitespace(#[trigger] s[i]) by {
            if i > 0 {
                assert(rest[i - 1] == s[i]);
            }
        }
    } else {
        assert(s.skip(0) == s);
    }
}

proof fn lemma_trim_end(s: Seq<char>)
    ensures
        exists|n: int|
            0 <= n <= s.len() && trim_end(s) == #[trigger] s.take(n) && (forall|i: int|
                n <= i < s.len() ==> char_is_whitespace(#[trigger] s[i])),
        trim_end(s).len() > 0 ==> !char_is_whitespace(trim_end(s).last()),
        trim_end(s).len() > 0 ==> trim_end(s).first() == s.first(),
    decreases s.len(),
{
    if s.len() > 0 && char_is_whitespace(s.last()) {
        let rest = s.drop_last();
        lemma_trim_end(rest);
        let n = choose|n: int|
            0 <= n <= rest.len() && trim_end(rest) == #[trigger] rest.take(n) && (forall|i: int|
                n <= i < rest.len() ==> char_is_whitespace(#[trigger] rest[i]));
        assert(rest.take(n) == s.take(n));
        assert forall|i: int| n <= i < s.len() implies char_is_whitespace(#[trigger] s[i]) by {
            if i < rest.len() {
                assert(rest[i] == s[i]);
            }
        }
    } else {
        assert(s.take(s.len() as int) == s);
    }
}

/// The pieces of `s` that lie between occurrences of `sep`, in order.
pub fn split(s: &str, sep: char) -> (pieces: Vec<String>)
    ensures
        texts(pieces@) == split_text(s@, sep),
{
    let v = chars_of(s);
    let mut pieces: Vec<String> = Vec::new();
    let mut start: usize = 0;
    let mut i: usize = 0;
    proof {
        assert(v@.subrange(0, 0) == Seq::<char>::empty());
    }
    while i < v.len()
        invariant
            start <= i <= v.len(),
            texts(pieces@).push(v@.subrange(start as int, i as int)) == split_text(
                v@.take(i as int),
                sep,
            ),
        decreases v.len() - i,
    {
        proof {
            assert(v@.take(i + 1).drop_last() == v@.take(i as int));
        }
        if v[i] == sep {
            let piece = text_of(&v, start, i);
            proof {
                assert(v@.subrange(i + 1, i + 1) == Seq::<char>::empty());
            }
            pieces.push(piece);
            start = i + 1;
        } else {
            assert(v@.subrange(start as int, i + 1) == v@.subrange(start as int, i as int).push(
                v@[i as int],
            ));
        }
        i += 1;
    }
    let piece = text_of(&v, start, i);
    proof {
        assert(v@.take(i as int) == v@);
    }
    pieces.push(piece);
    pieces
}

/// A run of `n` spaces.
pub open spec fn spaces(n: nat) -> Seq<char> {
    Seq::new(n, |i: int| ' ')
}

/// The text, followed by as many spaces as it takes to make it `width` characters long.
pub open spec fn padded(s: Seq<char>, width: nat) -> Seq<char> {
    if s.len() >= width {
        s
    } else {
        s + spaces((width - s.len()) as nat)
    }
}

/// The text, left-aligned in a field of `width` characters.
pub fn pad_right(s: &str, width: usize) -> (r: String)
    ensures
        r@ == padded(s@, width as nat),
{
    let mut r = s.to_owned();
    let mut n: usize = s.unicode_len();
    while n < width
        invariant
            n >= s@.len(),
            n <= width || n == s@.len(),
            r@ == s@ + spaces((n - s@.len()) as nat),
        decreases width - n,
    {
        push_char(&mut r, ' ');
        n += 1;
    }
    r
}

/// `a` comes before `b` in dictionary order by character code: at the first
/// position where they differ `a` has the smaller character, or `a` ends there
/// and `b` goes on.
pub open spec fn text_less(a: Seq<char>, b: Seq<char>) -> bool {
    exists|k: int|
        0 <= k <= a.len() && k <= b.len() && #[trigger] a.take(k) == b.take(k) && k < b.len() && (k
            < a.len() ==> (a[k] as int) < (b[k] as int))
}

/// Dictionary order is a strict total order on texts.
pub proof fn lemma_text_order(a: Seq<char>, b: Seq<char>, c: Seq<char>)
    ensures
        !text_less(a, a),
        text_less(a, b) ==> !text_less(b, a),
        text_less(a, b) || a == b || text_less(b, a),
        text_less(a, b) && text_less(b, c) ==> text_less(a, c),
{
    assert forall|x: Seq<char>, y: Seq<char>, k: int, m: int|
        0 <= k <= x.len() && k <= y.len() && x.take(k) == y.take(k) && 0 <= m < k implies x[m]
        == y[m] by {
        assert(x.take(k)[m] == y.take(k)[m]);
    }
    if text_less(a, b) && text_less(b, a) {
        let k = choose|k: int|
            0 <= k <= a.len() && k <= b.len() && #[trigger] a.take(k) == b.take(k) && k < b.len()
                && (k < a.len() ==> (a[k] as int) < (b[k] as int));
        let m = choose|m: int|
            0 <= m <= b.len() && m <= a.len() && #[trigger] b.take(m) == a.take(m) && m < a.len()
                && (m < b.len() ==> (b[m] as int) < (a[m] as int));
        if k < m {
            assert(b.take(m)[k] == a.take(m)[k]);
        } else if m < k {
            assert(a.take(k)[m] == b.take(k)[m]);
        }
    }
    if text_less(a, b) && text_less(b, c) {
        let k = choose|k: int|
            0 <= k <= a.len() && k <= b.len() && #[trigger] a.take(k) == b.take(k) && k < b.len()
                && (k < a.len() ==> (a[k] as int) < (b[k] as int));
        let m = choose|m: int|
            0 <= m <= b.len() && m <= c.len() && #[trigger] b.take(m) == c.take(m) && m < c.len()
                && (m < b.len() ==> (b[m] as int) < (c[m] as int));
        let n = if k <= m { k } else { m };
        assert(a.take(n) == c.take(n)) by {
            assert forall|i: int| 0 <= i < n implies a[i] == c[i] by {
                assert(b.take(m)[i] == c.take(m)[i]);
            }
        }
        if m < k {
            assert(a.take(k)[m] == b.take(k)[m]);
        } else if k < m {
            assert(b.take(m)[k] == c.take(m)[k]);
        }
    }
    if !text_less(a, b) && a != b && !text_less(b, a) {
        assert(a.take(0) =~= b.take(0));
        lemma_first_difference(a, b, 0);
    }
}

proof fn lemma_first_difference(a: Seq<char>, b: Seq<char>, k: int)
    requires
        0 <= k <= a.len(),
        k <= b.len(),
        a.take(k) == b.take(k),
        a != b,
    ensures
        text_less(a, b) || text_less(b, a),
    decreases a.len() - k,
{
    if k == a.len() && k == b.len() {
        // Both texts end here, so they are the same: this cannot be.
        assert(a.take(k) == a);
        assert(b.take(k) == b);
    } else if k < a.len() && k < b.len() {
        if a[k] == b[k] {
            assert(a.take(k + 1) == a.take(k).push(a[k]));
            assert(b.take(k + 1) == b.take(k).push(b[k]));
            lemma_first_difference(a, b, k + 1);
        } else if (a[k] as int) > (b[k] as int) {
            assert(text_less(b, a));
        }
    }
}

/// Whether `a` comes before `b` in dictionary order by character code.
pub fn text_before(a: &str, b: &str) -> (r: bool)
    ensures
        r == text_less(a@, b@),
{
    let x = chars_of(a);
    let y = chars_of(b);
    let mut k: usize = 0;
    while k < x.len() && k < y.len() && x[k] == y[k]
        invariant
            k <= x.len(),
            k <= y.len(),
            x@.take(k as int) == y@.take(k as int),
        decreases x.len() - k,
    {
        k += 1;
    }
    let r = k < y.len() && (k == x.len() || x[k] < y[k]);
    proof {
        if !r && text_less(x@, y@) {
            let m = choose|m: int|
                0 <= m <= x@.len() && m <= y@.len() && #[trigger] x@.take(m) == y@.take(m) && m
                    < y@.len() && (m < x@.len() ==> (x@[m] as int) < (y@[m] as int));
            if m < k {
                assert(x@.take(k as int)[m] == y@.take(k as int)[m]);
            } else if k < m {
                assert(x@.take(m)[k as int] == y@.take(m)[k as int]);
            }
        }
    }
    r
}

} // verus!
