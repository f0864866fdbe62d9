//! Character classes and the operations on text that everything else is written in.
//!
//! Text is a sequence of characters. ASCII and white space are spelled out here; what else Unicode
//! says of the remaining characters comes from the standard library and only has a name.

use vstd::prelude::*;

verus! {

// ---------------------------------------------------------------------------
// Character classes
// ---------------------------------------------------------------------------

/// What `char::is_alphanumeric` says of a character outside ASCII.
pub uninterp spec fn unicode_alphanumeric(c: char) -> bool;

/// What `char::to_lowercase` yields for a character outside ASCII.
pub uninterp spec fn unicode_lowercase(c: char) -> Seq<char>;

/// What `str::to_lowercase` yields for text that is not all ASCII.
pub uninterp spec fn unicode_text_lowercase(s: Seq<char>) -> Seq<char>;

/// What the `{:?}` format of a `str` yields.
pub uninterp spec fn debug_text(s: Seq<char>) -> Seq<char>;

/// What the `{:?}` format of a `char` yields.
pub uninterp spec fn debug_char_text(c: char) -> Seq<char>;

pub open spec fn is_ascii(c: char) -> bool {
    (c as u32) < 128
}

pub open spec fn all_ascii(s: Seq<char>) -> bool {
    forall|i: int| 0 <= i < s.len() ==> is_ascii(#[trigger] s[i])
}

pub open spec fn ascii_digit(c: char) -> bool {
    '0' <= c <= '9'
}

pub open spec fn ascii_upper(c: char) -> bool {
    'A' <= c <= 'Z'
}

pub open spec fn ascii_lower(c: char) -> bool {
    'a' <= c <= 'z'
}

pub open spec fn ascii_alphanumeric(c: char) -> bool {
    ascii_digit(c) || ascii_upper(c) || ascii_lower(c)
}

pub open spec fn ascii_whitespace(c: char) -> bool {
    c == ' ' || '\x09' <= c <= '\x0d'
}

/// The small letter of an ASCII capital; anything else is itself.
pub open spec fn lowered(c: char) -> char {
    if ascii_upper(c) {
        (c as u32 + 32) as char
    } else {
        c
    }
}

/// The capital of a small ASCII letter; anything else is itself.
pub open spec fn raised(c: char) -> char {
    if ascii_lower(c) {
        (c as u32 - 32) as char
    } else {
        c
    }
}

pub open spec fn ascii_lowercased(s: Seq<char>) -> Seq<char> {
    s.map_values(|c: char| lowered(c))
}

pub open spec fn ascii_uppercased(s: Seq<char>) -> Seq<char> {
    s.map_values(|c: char| raised(c))
}

pub open spec fn alphanumeric(c: char) -> bool {
    if is_ascii(c) {
        ascii_alphanumeric(c)
    } else {
        unicode_alphanumeric(c)
    }
}

/// The characters with Unicode's White_Space property.
pub open spec fn whitespace(c: char) -> bool {
    ||| ascii_whitespace(c)
    ||| c == '\u{85}'
    ||| c == '\u{a0}'
    ||| c == '\u{1680}'
    ||| '\u{2000}' <= c <= '\u{200a}'
    ||| c == '\u{2028}'
    ||| c == '\u{2029}'
    ||| c == '\u{202f}'
    ||| c == '\u{205f}'
    ||| c == '\u{3000}'
}

pub open spec fn lowercase(c: char) -> Seq<char> {
    if is_ascii(c) {
        seq![lowered(c)]
    } else {
        unicode_lowercase(c)
    }
}

pub open spec fn lowercased(s: Seq<char>) -> Seq<char> {
    if all_ascii(s) {
        ascii_lowercased(s)
    } else {
        unicode_text_lowercase(s)
    }
}

/// `String::push`: the string grows by the one character.
pub assume_specification[ String::push ](s: &mut String, c: char)
    ensures
        final(s)@ == old(s)@.push(c),
;

/// `char::is_alphanumeric`: in ASCII the letters and digits and nothing else; elsewhere the
/// answer is only named.
#[verifier::external_body]
pub(crate) fn is_alphanumeric(c: char) -> (r: bool)
    ensures
        is_ascii(c) ==> r == ascii_alphanumeric(c),
        !is_ascii(c) ==> r == unicode_alphanumeric(c),
{
    c.is_alphanumeric()
}

/// `char::is_whitespace`: the characters with Unicode's White_Space property, a closed list, and no
/// others.
#[verifier::external_body]
pub(crate) fn is_whitespace(c: char) -> (r: bool)
    ensures
        r == whitespace(c),
{
    c.is_whitespace()
}

/// `char::to_lowercase`: in ASCII one character, the small letter of a capital and otherwise the
/// character itself; elsewhere the characters that come out are only named.
#[verifier::external_body]
pub(crate) fn to_lowercase(c: char) -> (r: Vec<char>)
    ensures
        is_ascii(c) ==> r@ == seq![lowered(c)],
        !is_ascii(c) ==> r@ == unicode_lowercase(c),
{
    c.to_lowercase().collect()
}

/// `str::to_lowercase`: text that is all ASCII has its capitals made small, one for one; for
/// other text the result is only named.
#[verifier::external_body]
pub(crate) fn text_to_lowercase(s: &str) -> (r: String)
    ensures
        all_ascii(s@) ==> r@ == ascii_lowercased(s@),
        !all_ascii(s@) ==> r@ == unicode_text_lowercase(s@),
{
    s.to_lowercase()
}

/// The `{:?}` format of a `str`, whose text is only named.
#[verifier::external_body]
pub(crate) fn debug_quote(s: &str) -> (r: String)
    ensures
        r@ == debug_text(s@),
{
    format!("{s:?}")
}

/// The `{:?}` format of a `char`, whose text is only named.
#[verifier::external_body]
pub(crate) fn debug_char(c: char) -> (r: String)
    ensures
        r@ == debug_char_text(c),
{
    format!("{c:?}")
}

pub fn to_ascii_lower(c: char) -> (r: char)
    ensures
        r == lowered(c),
{
    if 'A' <= c && c <= 'Z' {
        (c as u8 + 32) as char
    } else {
        c
    }
}

pub fn to_ascii_upper(c: char) -> (r: char)
    ensures
        r == raised(c),
{
    if 'a' <= c && c <= 'z' {
        (c as u8 - 32) as char
    } else {
        c
    }
}

// ---------------------------------------------------------------------------
// Strings and character vectors
// ---------------------------------------------------------------------------

pub fn to_chars(s: &str) -> (r: Vec<char>)
    ensures
        r@ == s@,
{
    let mut v: Vec<char> = Vec::new();
    for c in it: s.chars()
        invariant
            v@ == it.seq().take(it.index()),
            it.seq() == s@,
    {
        v.push(c);
    }
    v
}

pub fn from_chars(v: &[char]) -> (r: String)
    ensures
        r@ == v@,
{
    let mut s = String::new();
    let mut i: usize = 0;
    while i < v.len()
        invariant
            i <= v.len(),
            s@ == v@.take(i as int),
        decreases v.len() - i,
    {
        s.push(v[i]);
        i += 1;
    }
    s
}

/// Adds a text to the end of another.
pub fn append(s: &mut String, t: &str)
    ensures
        final(s)@ == old(s)@ + t@,
{
    let chars = to_chars(t);
    let ghost before = s@;
    let mut i: usize = 0;
    assert(before + chars@.take(0) =~= before);
    while i < chars.len()
        invariant
            i <= chars.len(),
            s@ == before + chars@.take(i as int),
        decreases chars.len() - i,
    {
        s.push(chars[i]);
        assert(before + chars@.take(i + 1) =~= (before + chars@.take(i as int)).push(
            chars@[i as int],
        ));
        i += 1;
    }
    assert(chars@.take(i as int) =~= chars@);
}

/// Two texts end to end.
pub fn concat(a: &str, b: &str) -> (r: String)
    ensures
        r@ == a@ + b@,
{
    let mut out = a.to_owned();
    append(&mut out, b);
    out
}

/// Three texts end to end.
pub fn concat3(a: &str, b: &str, c: &str) -> (r: String)
    ensures
        r@ == a@ + b@ + c@,
{
    let mut out = a.to_owned();
    append(&mut out, b);
    append(&mut out, c);
    out
}

pub fn same_chars(a: &[char], b: &[char]) -> (r: bool)
    ensures
        r == (a@ == b@),
{
    if a.len() != b.len() {
        return false;
    }
    let mut i: usize = 0;
    while i < a.len()
        invariant
            i <= a.len(),
            a.len() == b.len(),
            forall|j: int| 0 <= j < i ==> a@[j] == b@[j],
        decreases a.len() - i,
    {
        if a[i] != b[i] {
            assert(a@[i as int] != b@[i as int]);
            return false;
        }
        i += 1;
    }
    assert(a@ =~= b@);
    true
}

pub fn same_text(a: &str, b: &str) -> (r: bool)
    ensures
        r == (a@ == b@),
{
    a.to_owned() == b.to_owned()
}

/// `v` grows by the characters of `s`.
pub fn extend_chars(v: &mut Vec<char>, s: &[char])
    ensures
        final(v)@ == old(v)@ + s@,
{
    let mut i: usize = 0;
    while i < s.len()
        invariant
            i <= s.len(),
            v@ == old(v)@ + s@.take(i as int),
        decreases s.len() - i,
    {
        v.push(s[i]);
        i += 1;
    }
    assert(s@.take(s@.len() as int) =~= s@);
}

pub fn copy_chars(s: &[char], from: usize, to: usize) -> (r: Vec<char>)
    requires
        from <= to <= s.len(),
    ensures
        r@ == s@.subrange(from as int, to as int),
{
    let mut v: Vec<char> = Vec::new();
    let mut i: usize = from;
    while i < to
        invariant
            from <= i <= to <= s.len(),
            v@ == s@.subrange(from as int, i as int),
        decreases to - i,
    {
        v.push(s[i]);
        i += 1;
    }
    v
}

pub fn starts_with(s: &[char], prefix: &[char]) -> (r: bool)
    ensures
        r == prefix@.is_prefix_of(s@),
{
    if prefix.len() > s.len() {
        return false;
    }
    let mut i: usize = 0;
    while i < prefix.len()
        invariant
            i <= prefix.len() <= s.len(),
            forall|j: int| 0 <= j < i ==> prefix@[j] == s@[j],
        decreases prefix.len() - i,
    {
        if s[i] != prefix[i] {
            assert(prefix@[i as int] != s@.subrange(0, prefix@.len() as int)[i as int]);
            return false;
        }
        i += 1;
    }
    assert(prefix@ =~= s@.subrange(0, prefix@.len() as int));
    true
}

pub fn ends_with(s: &[char], suffix: &[char]) -> (r: bool)
    ensures
        r == suffix@.is_suffix_of(s@),
{
    if suffix.len() > s.len() {
        return false;
    }
    let tail = copy_chars(s, s.len() - suffix.len(), s.len());
    same_chars(suffix, &tail)
}

/// `needle` stands at position `i` of `s`.
pub open spec fn occurs_at(s: Seq<char>, needle: Seq<char>, i: int) -> bool {
    0 <= i && i + needle.len() <= s.len() && s.subrange(i, i + needle.len()) == needle
}

pub open spec fn contains(s: Seq<char>, needle: Seq<char>) -> bool {
    exists|i: int| occurs_at(s, needle, i)
}

pub fn has_text(s: &[char], needle: &[char]) -> (r: bool)
    ensures
        r == contains(s@, needle@),
{
    if needle.len() > s.len() {
        return false;
    }
    let mut i: usize = 0;
    while i <= s.len() - needle.len()
        invariant
            needle.len() <= s.len(),
            i <= s.len() - needle.len() + 1,
            forall|j: int| 0 <= j < i ==> !occurs_at(s@, needle@, j),
        decreases s.len() - needle.len() + 1 - i,
    {
        let here = copy_chars(s, i, i + needle.len());
        if same_chars(&here, needle) {
            assert(occurs_at(s@, needle@, i as int));
            return true;
        }
        if i == s.len() - needle.len() {
            assert forall|j: int| !occurs_at(s@, needle@, j) by {}
            return false;
        }
        i += 1;
    }
    false
}

// ---------------------------------------------------------------------------
// Trimming
// ---------------------------------------------------------------------------

/// `s` without the white space at its end.
pub open spec fn trim_end(s: Seq<char>) -> Seq<char>
    decreases s.len(),
{
    if s.len() > 0 && whitespace(s.last()) {
        trim_end(s.drop_last())
    } else {
        s
    }
}

/// `s` without the white space at its start.
pub open spec fn trim_start(s: Seq<char>) -> Seq<char>
    decreases s.len(),
{
    if s.len() > 0 && whitespace(s[0]) {
        trim_start(s.drop_first())
    } else {
        s
    }
}

pub open spec fn trim(s: Seq<char>) -> Seq<char> {
    trim_start(trim_end(s))
}

pub fn trimmed_end(s: &[char]) -> (r: Vec<char>)
    ensures
        r@ == trim_end(s@),
{
    let mut n: usize = s.len();
    assert(s@.take(n as int) =~= s@);
    while n > 0 && is_whitespace(s[n - 1])
        invariant
            n <= s.len(),
            trim_end(s@.take(n as int)) == trim_end(s@),
        decreases n,
    {
        assert(s@.take(n as int).drop_last() =~= s@.take(n - 1));
        n -= 1;
    }
    assert(s@.take(n as int) =~= s@.subrange(0, n as int));
    copy_chars(s, 0, n)
}

pub fn trimmed_start(s: &[char]) -> (r: Vec<char>)
    ensures
        r@ == trim_start(s@),
{
    let mut n: usize = 0;
    assert(s@.skip(0) =~= s@);
    while n < s.len() && is_whitespace(s[n])
        invariant
            n <= s.len(),
            trim_start(s@.skip(n as int)) == trim_start(s@),
        decreases s.len() - n,
    {
        assert(s@.skip(n as int).drop_first() =~= s@.skip(n + 1));
        n += 1;
    }
    assert(s@.skip(n as int) =~= s@.subrange(n as int, s@.len() as int));
    copy_chars(s, n, s.len())
}

pub fn trimmed(s: &[char]) -> (r: Vec<char>)
    ensures
        r@ == trim(s@),
{
    let t = trimmed_end(s);
    trimmed_start(&t)
}

proof fn lemma_trim_end_is_trimmed(s: Seq<char>)
    ensures
        trim_end(s).len() == 0 || !whitespace(trim_end(s).last()),
        trim_end(trim_end(s)) == trim_end(s),
    decreases s.len(),
{
    if s.len() > 0 && whitespace(s.last()) {
        lemma_trim_end_is_trimmed(s.drop_last());
    }
}

/// White space at the start of a text goes, whether that at its end has gone before or not.
proof fn lemma_trim_end_after_start(s: Seq<char>)
    ensures
        trim_end(trim_start(s)) == trim_start(trim_end(s)),
    decreases s.len(),
{
    if s.len() > 0 {
        let front = s.drop_last();
        lemma_trim_end_after_start(front);
        lemma_trim_start_push(front, s.last());
        assert(front.push(s.last()) =~= s);
        assert(trim_start(front).push(s.last()).drop_last() =~= trim_start(front));
        assert(trim_start(front).len() == 0 ==> trim_start(front) =~= Seq::empty());
    }
}

proof fn lemma_trim_start_push(s: Seq<char>, c: char)
    ensures
        trim_start(s.push(c)) == if trim_start(s).len() == 0 && whitespace(c) {
            Seq::empty()
        } else {
            trim_start(s).push(c)
        },
    decreases s.len(),
{
    if s.len() > 0 && whitespace(s[0]) {
        lemma_trim_start_push(s.drop_first(), c);
        assert(s.push(c).drop_first() =~= s.drop_first().push(c));
    } else if s.len() == 0 {
        reveal_with_fuel(trim_start, 2);
        assert(s.push(c).drop_first() =~= Seq::empty());
    }
}

/// White space at either end of a text makes no difference once it is trimmed.
pub proof fn lemma_trim_ends(s: Seq<char>, c: char)
    requires
        whitespace(c),
    ensures
        trim(s.push(c)) == trim(s),
        trim(seq![c] + s) == trim(s),
{
    assert(s.push(c).drop_last() =~= s);
    assert((seq![c] + s).drop_first() =~= s);
    lemma_trim_end_after_start(seq![c] + s);
    lemma_trim_end_after_start(s);
}

/// Trimming twice changes nothing more.
pub proof fn lemma_trim_twice(s: Seq<char>)
    ensures
        trim(trim(s)) == trim(s),
{
    lemma_trim_end_is_trimmed(s);
    lemma_trim_end_after_start(trim_end(s));
    lemma_trim_start_is_trimmed(trim_end(s));
}

proof fn lemma_trim_start_is_trimmed(s: Seq<char>)
    ensures
        trim_start(trim_start(s)) == trim_start(s),
    decreases s.len(),
{
    if s.len() > 0 && whitespace(s[0]) {
        lemma_trim_start_is_trimmed(s.drop_first());
    }
}

// ---------------------------------------------------------------------------
// Words
// ---------------------------------------------------------------------------

/// A word holds at least one character and no white space.
pub open spec fn is_word(w: Seq<char>) -> bool {
    w.len() > 0 && forall|i: int| 0 <= i < w.len() ==> !whitespace(#[trigger] w[i])
}

pub open spec fn all_words(ws: Seq<Seq<char>>) -> bool {
    forall|i: int| 0 <= i < ws.len() ==> is_word(#[trigger] ws[i])
}

/// The maximal runs of characters that are not white space, in order.
pub open spec fn words(s: Seq<char>) -> Seq<Seq<char>>
    decreases s.len(),
{
    if s.len() == 0 {
        Seq::empty()
    } else {
        let before = words(s.drop_last());
        if whitespace(s.last()) {
            before
        } else if s.len() > 1 && !whitespace(s[s.len() - 2]) {
            before.drop_last().push(before.last().push(s.last()))
        } else {
            before.push(seq![s.last()])
        }
    }
}

/// The parts with one space between each two.
pub open spec fn joined(parts: Seq<Seq<char>>) -> Seq<char>
    decreases parts.len(),
{
    if parts.len() == 0 {
        Seq::empty()
    } else if parts.len() == 1 {
        parts[0]
    } else {
        joined(parts.drop_last()).push(' ') + parts.last()
    }
}

/// What a vector of character vectors holds.
pub open spec fn texts(v: Seq<Vec<char>>) -> Seq<Seq<char>> {
    v.map_values(|w: Vec<char>| w@)
}

/// A text that ends in a character of a word has a last word.
pub proof fn lemma_last_word(s: Seq<char>)
    requires
        s.len() > 0,
        !whitespace(s.last()),
    ensures
        words(s).len() > 0,
{
}

pub proof fn lemma_words_are_words(s: Seq<char>)
    ensures
        all_words(words(s)),
    decreases s.len(),
{
    if s.len() > 0 {
        lemma_words_are_words(s.drop_last());
        let before = words(s.drop_last());
        if !whitespace(s.last()) && s.len() > 1 && !whitespace(s[s.len() - 2]) {
            lemma_last_word(s.drop_last());
            assert(is_word(before[before.len() - 1]));
        }
    }
}

/// White space at the end adds no word.
proof fn lemma_words_trim_end(s: Seq<char>)
    ensures
        words(trim_end(s)) == words(s),
    decreases s.len(),
{
    if s.len() > 0 && whitespace(s.last()) {
        lemma_words_trim_end(s.drop_last());
    }
}

proof fn lemma_words_skip_one(s: Seq<char>)
    requires
        s.len() > 0,
        whitespace(s[0]),
    ensures
        words(s.drop_first()) == words(s),
    decreases s.len(),
{
    if s.len() == 1 {
        assert(s.drop_first() =~= Seq::empty());
        assert(s.drop_last() =~= Seq::empty());
    } else {
        lemma_words_skip_one(s.drop_last());
        assert(s.drop_first().drop_last() =~= s.drop_last().drop_first());
    }
}

proof fn lemma_words_trim_start(s: Seq<char>)
    ensures
        words(trim_start(s)) == words(s),
    decreases s.len(),
{
    if s.len() > 0 && whitespace(s[0]) {
        lemma_words_skip_one(s);
        lemma_words_trim_start(s.drop_first());
    }
}

/// The words of a text are those of the text between its first and last word.
pub proof fn lemma_words_trim(s: Seq<char>)
    ensures
        words(trim(s)) == words(s),
{
    lemma_words_trim_end(s);
    lemma_words_trim_start(trim_end(s));
}

proof fn lemma_words_append(s: Seq<char>, w: Seq<char>)
    requires
        is_word(w),
        s.len() == 0 || whitespace(s.last()),
    ensures
        words(s + w) == words(s).push(w),
    decreases w.len(),
{
    let t = s + w;
    assert(t.drop_last() =~= s + w.drop_last());
    if w.len() == 1 {
        assert(w.drop_last() =~= Seq::empty());
        assert(s + w.drop_last() =~= s);
        assert(w =~= seq![w.last()]);
    } else {
        assert(is_word(w.drop_last()));
        lemma_words_append(s, w.drop_last());
        assert(w.drop_last().push(w.last()) =~= w);
        assert(words(s).push(w.drop_last()).drop_last() =~= words(s));
    }
}

/// Joining words and splitting the result gives the words back.
pub proof fn lemma_words_of_joined(ws: Seq<Seq<char>>)
    requires
        all_words(ws),
    ensures
        words(joined(ws)) == ws,
    decreases ws.len(),
{
    if ws.len() == 0 {
    } else if ws.len() == 1 {
        lemma_words_append(Seq::empty(), ws[0]);
        assert(Seq::<char>::empty() + ws[0] =~= ws[0]);
        assert(ws =~= seq![ws[0]]);
    } else {
        lemma_words_of_joined(ws.drop_last());
        let head = joined(ws.drop_last()).push(' ');
        assert(head.drop_last() =~= joined(ws.drop_last()));
        assert(words(head) == words(head.drop_last()));
        lemma_words_append(head, ws.last());
        assert(ws.drop_last().push(ws.last()) =~= ws);
    }
}

/// Splits `s` at white space.
pub fn split_words(s: &[char]) -> (r: Vec<Vec<char>>)
    ensures
        texts(r@) == words(s@),
{
    let mut out: Vec<Vec<char>> = Vec::new();
    let mut i: usize = 0;
    while i < s.len()
        invariant
            i <= s.len(),
            texts(out@) == words(s@.take(i as int)),
        decreases s.len() - i,
    {
        let ghost was = s@.take(i as int);
        let ghost now = s@.take(i + 1);
        assert(now.drop_last() =~= was);
        let white = is_whitespace(s[i]);
        let inside = i > 0 && !is_whitespace(s[i - 1]);
        let ghost before = out@;
        if !white {
            if inside {
                proof {
                    lemma_last_word(was);
                    assert(texts(before).len() > 0);
                }
                let mut last = out.pop().unwrap();
                let ghost shorter = last@;
                last.push(s[i]);
                out.push(last);
                assert(texts(out@) =~= texts(before).drop_last().push(shorter.push(s@[i as int])));
            } else {
                let mut w: Vec<char> = Vec::new();
                w.push(s[i]);
                assert(w@ =~= seq![s@[i as int]]);
                out.push(w);
                assert(texts(out@) =~= texts(before).push(seq![s@[i as int]]));
            }
        }
        i += 1;
    }
    assert(s@.take(s@.len() as int) =~= s@);
    out
}

/// Joins the parts with single spaces.
pub fn join_words(parts: &[Vec<char>]) -> (r: Vec<char>)
    ensures
        r@ == joined(texts(parts@)),
{
    let mut out: Vec<char> = Vec::new();
    let mut i: usize = 0;
    assert(texts(parts@).take(0) =~= Seq::empty());
    while i < parts.len()
        invariant
            i <= parts.len(),
            out@ == joined(texts(parts@).take(i as int)),
        decreases parts.len() - i,
    {
        let ghost now = texts(parts@).take(i + 1);
        assert(now.drop_last() =~= texts(parts@).take(i as int));
        if i > 0 {
            out.push(' ');
        }
        extend_chars(&mut out, &parts[i]);
        assert(out@ =~= joined(now));
        i += 1;
    }
    assert(texts(parts@).take(parts@.len() as int) =~= texts(parts@));
    out
}

// ---------------------------------------------------------------------------
// Splitting at a character
// ---------------------------------------------------------------------------

/// The parts of a text between the occurrences of a character; a text without it is one part.
pub open spec fn split_at(s: Seq<char>, at: char) -> Seq<Seq<char>>
    decreases s.len(),
{
    if s.len() == 0 {
        seq![Seq::empty()]
    } else {
        let before = split_at(s.drop_last(), at);
        if s.last() == at {
            before.push(Seq::empty())
        } else {
            before.drop_last().push(before.last().push(s.last()))
        }
    }
}

/// A text has at least one part.
pub proof fn lemma_split_some(s: Seq<char>, at: char)
    ensures
        split_at(s, at).len() > 0,
    decreases s.len(),
{
    if s.len() > 0 {
        lemma_split_some(s.drop_last(), at);
    }
}

/// The first part grows with the text at its start.
proof fn lemma_split_first(s: Seq<char>, at: char, c: char)
    requires
        c != at,
    ensures
        split_at(seq![c] + s, at) == split_at(s, at).update(0, seq![c] + split_at(s, at)[0]),
    decreases s.len(),
{
    let longer = seq![c] + s;
    lemma_split_some(s, at);
    if s.len() == 0 {
        assert(longer.drop_last() =~= Seq::empty());
        assert(longer.last() == c);
        reveal_with_fuel(split_at, 2);
        assert(split_at(longer, at) =~= split_at(s, at).update(0, seq![c] + split_at(s, at)[0]))
            by {
            assert(Seq::<char>::empty().push(c) =~= seq![c] + Seq::<char>::empty());
        }
    } else {
        lemma_split_first(s.drop_last(), at, c);
        lemma_split_some(s.drop_last(), at);
        assert(longer.drop_last() =~= seq![c] + s.drop_last());
        assert(longer.last() == s.last());
        let before = split_at(s.drop_last(), at);
        let grown = before.update(0, seq![c] + before[0]);
        if s.last() == at {
            assert(grown.push(Seq::empty()) =~= before.push(Seq::empty()).update(
                0,
                seq![c] + before[0],
            ));
        } else {
            let all = before.drop_last().push(before.last().push(s.last()));
            assert((seq![c] + before[0]).push(s.last()) =~= seq![c] + before[0].push(s.last()));
            assert(grown.drop_last().push(grown.last().push(s.last())) =~= all.update(
                0,
                seq![c] + all[0],
            ));
        }
    }
}

/// The parts of a text without the white space around them.
pub open spec fn trimmed_parts(s: Seq<char>, at: char) -> Seq<Seq<char>> {
    split_at(s, at).map_values(|p: Seq<char>| trim(p))
}

/// White space around a text is white space around its first and its last part.
pub proof fn lemma_trimmed_parts(s: Seq<char>, at: char)
    requires
        !whitespace(at),
    ensures
        trimmed_parts(trim(s), at) == trimmed_parts(s, at),
{
    lemma_parts_trim_end(s, at);
    lemma_parts_trim_start(trim_end(s), at);
}

proof fn lemma_parts_trim_end(s: Seq<char>, at: char)
    requires
        !whitespace(at),
    ensures
        trimmed_parts(trim_end(s), at) == trimmed_parts(s, at),
    decreases s.len(),
{
    if s.len() > 0 && whitespace(s.last()) {
        lemma_parts_trim_end(s.drop_last(), at);
        lemma_split_some(s.drop_last(), at);
        let before = split_at(s.drop_last(), at);
        lemma_trim_ends(before.last(), s.last());
        assert(trimmed_parts(s.drop_last(), at) =~= trimmed_parts(s, at));
    }
}

proof fn lemma_parts_trim_start(s: Seq<char>, at: char)
    requires
        !whitespace(at),
    ensures
        trimmed_parts(trim_start(s), at) == trimmed_parts(s, at),
    decreases s.len(),
{
    if s.len() > 0 && whitespace(s[0]) {
        let rest = s.drop_first();
        lemma_parts_trim_start(rest, at);
        lemma_split_some(rest, at);
        lemma_split_first(rest, at, s[0]);
        lemma_trim_ends(split_at(rest, at)[0], s[0]);
        assert(seq![s[0]] + rest =~= s);
        assert(trimmed_parts(rest, at) =~= trimmed_parts(s, at));
    }
}

/// Splits `s` at every `at`.
pub fn split_chars(s: &[char], at: char) -> (r: Vec<Vec<char>>)
    ensures
        texts(r@) == split_at(s@, at),
        r@.len() > 0,
{
    let mut out: Vec<Vec<char>> = Vec::new();
    let first: Vec<char> = Vec::new();
    out.push(first);
    let mut i: usize = 0;
    assert(first@ =~= Seq::empty());
    assert(texts(out@) =~= seq![Seq::<char>::empty()]);
    while i < s.len()
        invariant
            i <= s.len(),
            texts(out@) == split_at(s@.take(i as int), at),
            out@.len() > 0,
        decreases s.len() - i,
    {
        assert(s@.take(i + 1).drop_last() =~= s@.take(i as int));
        let ghost before = out@;
        if s[i] == at {
            let part: Vec<char> = Vec::new();
            assert(part@ =~= Seq::empty());
            out.push(part);
            assert(texts(out@) =~= texts(before).push(Seq::empty()));
        } else {
            let mut last = out.pop().unwrap();
            let ghost shorter = last@;
            last.push(s[i]);
            out.push(last);
            assert(texts(before).last() == shorter);
            assert(texts(out@) =~= texts(before).drop_last().push(shorter.push(s@[i as int])));
        }
        i += 1;
    }
    assert(s@.take(i as int) =~= s@);
    out
}

// ---------------------------------------------------------------------------
// Folding words for comparison
// ---------------------------------------------------------------------------

/// `w` in small letters, with only its letters and digits kept.
pub open spec fn folded(w: Seq<char>) -> Seq<char>
    decreases w.len(),
{
    if w.len() == 0 {
        Seq::empty()
    } else {
        let c = w.last();
        let before = folded(w.drop_last());
        if alphanumeric(c) {
            before + lowercase(c)
        } else {
            before
        }
    }
}

pub fn fold_word(w: &[char]) -> (r: Vec<char>)
    ensures
        r@ == folded(w@),
{
    let mut out: Vec<char> = Vec::new();
    let mut i: usize = 0;
    while i < w.len()
        invariant
            i <= w.len(),
            out@ == folded(w@.take(i as int)),
        decreases w.len() - i,
    {
        assert(w@.take(i + 1).drop_last() =~= w@.take(i as int));
        let c = w[i];
        if is_alphanumeric(c) {
            let low = to_lowercase(c);
            extend_chars(&mut out, &low);
        }
        i += 1;
    }
    assert(w@.take(w@.len() as int) =~= w@);
    out
}

pub fn ascii_lower_chars(s: &[char]) -> (r: Vec<char>)
    ensures
        r@ == ascii_lowercased(s@),
{
    let mut out: Vec<char> = Vec::new();
    let mut i: usize = 0;
    while i < s.len()
        invariant
            i <= s.len(),
            out@ == ascii_lowercased(s@.take(i as int)),
        decreases s.len() - i,
    {
        out.push(to_ascii_lower(s[i]));
        i += 1;
        assert(out@ =~= ascii_lowercased(s@.take(i as int)));
    }
    assert(s@.take(s@.len() as int) =~= s@);
    out
}

pub fn ascii_upper_chars(s: &[char]) -> (r: Vec<char>)
    ensures
        r@ == ascii_uppercased(s@),
{
    let mut out: Vec<char> = Vec::new();
    let mut i: usize = 0;
    while i < s.len()
        invariant
            i <= s.len(),
            out@ == ascii_uppercased(s@.take(i as int)),
        decreases s.len() - i,
    {
        out.push(to_ascii_upper(s[i]));
        i += 1;
        assert(out@ =~= ascii_uppercased(s@.take(i as int)));
    }
    assert(s@.take(s@.len() as int) =~= s@);
    out
}

// ---------------------------------------------------------------------------
// Numbers
// ---------------------------------------------------------------------------

/// The digit of a value below sixteen.
pub open spec fn digit(d: nat) -> char {
    if d < 10 {
        (d + 48) as char
    } else {
        (d + 87) as char
    }
}

/// `n` written to `base` without leading zeros.
pub open spec fn numeral(n: nat, base: nat) -> Seq<char>
    decreases n,
{
    if base < 2 || n < base {
        seq![digit(n)]
    } else {
        proof {
            assert(n / base < n) by (nonlinear_arith)
                requires
                    n >= base,
                    base >= 2,
            ;
        }
        numeral(n / base, base).push(digit(n % base))
    }
}

pub open spec fn decimal(n: nat) -> Seq<char> {
    numeral(n, 10)
}

pub open spec fn hexadecimal(n: nat) -> Seq<char> {
    numeral(n, 16)
}

fn digit_char(d: u64) -> (r: char)
    requires
        d < 16,
    ensures
        r == digit(d as nat),
{
    if d < 10 {
        (d as u8 + 48) as char
    } else {
        (d as u8 + 87) as char
    }
}

/// Writes `n` to the given base, from two to sixteen.
pub fn numeral_chars(n: u64, base: u64) -> (r: Vec<char>)
    requires
        2 <= base <= 16,
    ensures
        r@ == numeral(n as nat, base as nat),
    decreases n,
{
    if n < base {
        let mut v: Vec<char> = Vec::new();
        v.push(digit_char(n));
        assert(v@ =~= seq![digit(n as nat)]);
        v
    } else {
        assert(n / base < n) by (nonlinear_arith)
            requires
                n >= base,
                base >= 2,
        ;
        let mut v = numeral_chars(n / base, base);
        v.push(digit_char(n % base));
        v
    }
}

// ---------------------------------------------------------------------------
// Laws
// ---------------------------------------------------------------------------

/// White space is what Unicode lists as such, by code point.
pub proof fn law_white_space_is_listed(c: char)
    ensures
        ({
            let n = c as u32;
            whitespace(c) <==> (n == 32 || 9 <= n <= 13 || n == 133 || n == 160 || n == 5760 || 8192
                <= n <= 8202 || n == 8232 || n == 8233 || n == 8239 || n == 8287 || n == 12288)
        }),
{
}

/// In ASCII the letters and digits are those of the alphabet, and a capital has its small letter.
pub proof fn law_ascii_letters_and_digits(c: char)
    requires
        (c as u32) < 128,
    ensures
        ({
            let n = c as u32;
            &&& alphanumeric(c) <==> (48 <= n <= 57 || 65 <= n <= 90 || 97 <= n <= 122)
            &&& 65 <= n <= 90 ==> lowercase(c).len() == 1 && lowercase(c)[0] as u32 == n + 32
            &&& !(65 <= n <= 90) ==> lowercase(c) == seq![c]
        }),
{
}

/// Letter case apart, a text of ASCII characters is kept character by character.
pub proof fn law_lowercased_keeps_the_letters(s: Seq<char>, i: int)
    requires
        0 <= i < s.len(),
    ensures
        ascii_lowercased(s).len() == s.len(),
        ascii_uppercased(s).len() == s.len(),
        65 <= s[i] as u32 <= 90 ==> ascii_lowercased(s)[i] as u32 == s[i] as u32 + 32,
        !(65 <= s[i] as u32 <= 90) ==> ascii_lowercased(s)[i] == s[i],
        97 <= s[i] as u32 <= 122 ==> ascii_uppercased(s)[i] as u32 == s[i] as u32 - 32,
        !(97 <= s[i] as u32 <= 122) ==> ascii_uppercased(s)[i] == s[i],
        (forall|k: int| 0 <= k < s.len() ==> (#[trigger] s[k] as u32) < 128) ==> lowercased(s)
            == ascii_lowercased(s),
{
}

/// A text falls apart into words at every white space and nowhere else.
pub proof fn law_words_end_at_white_space(a: Seq<char>, c: char, b: Seq<char>)
    ensures
        words(Seq::empty()).len() == 0,
        whitespace(c) ==> words(a.push(c) + b) == words(a) + words(b),
        a.len() > 0 && (forall|i: int| 0 <= i < a.len() ==> !whitespace(#[trigger] a[i]))
            ==> words(a) == seq![a],
{
    if whitespace(c) {
        lemma_words_after_space(a, c, b);
    }
    if a.len() > 0 && (forall|i: int| 0 <= i < a.len() ==> !whitespace(#[trigger] a[i])) {
        lemma_words_append(Seq::empty(), a);
        assert(Seq::<char>::empty() + a =~= a);
        assert(words(Seq::empty()).push(a) =~= seq![a]);
    }
}

proof fn lemma_words_after_space(a: Seq<char>, c: char, b: Seq<char>)
    requires
        whitespace(c),
    ensures
        words(a.push(c) + b) == words(a) + words(b),
    decreases b.len(),
{
    let t = a.push(c) + b;
    if b.len() == 0 {
        assert(t =~= a.push(c));
        assert(t.drop_last() =~= a);
        assert(words(a) + words(b) =~= words(a));
    } else {
        let d = b.drop_last();
        lemma_words_after_space(a, c, d);
        assert(t.drop_last() =~= a.push(c) + d);
        if b.len() > 1 {
            assert(t[t.len() - 2] == b[b.len() - 2]);
            if !whitespace(b[b.len() - 2]) {
                lemma_last_word(d);
            }
        } else {
            assert(t[t.len() - 2] == c);
        }
        assert(words(t) =~= words(a) + words(b));
    }
}

/// Parts are joined with one space between each two and nothing else.
pub proof fn law_joined_with_single_spaces(a: Seq<Seq<char>>, b: Seq<Seq<char>>, w: Seq<char>)
    ensures
        joined(Seq::empty()).len() == 0,
        joined(seq![w]) == w,
        a.len() > 0 && b.len() > 0 ==> joined(a + b) == joined(a) + seq![' '] + joined(b),
    decreases b.len(),
{
    if a.len() > 0 && b.len() > 0 {
        assert((a + b).drop_last() =~= a + b.drop_last());
        if b.len() == 1 {
            assert(a + b.drop_last() =~= a);
            assert(joined(a + b) =~= joined(a) + seq![' '] + joined(b));
        } else {
            law_joined_with_single_spaces(a, b.drop_last(), w);
            assert(joined(a + b) =~= joined(a) + seq![' '] + joined(b));
        }
    }
}

/// Trimming takes off all of the white space at both ends and nothing else.
pub proof fn law_trimming_takes_white_space_only(s: Seq<char>)
    ensures
        exists|i: int, j: int|
            {
                &&& 0 <= i <= j <= s.len()
                &&& trim(s) == #[trigger] s.subrange(i, j)
                &&& forall|k: int| 0 <= k < i || j <= k < s.len() ==> whitespace(#[trigger] s[k])
            },
        trim(s).len() > 0 ==> !whitespace(trim(s)[0]) && !whitespace(trim(s).last()),
{
    let e = trim_end(s);
    lemma_trim_end_is_trimmed(s);
    let j = lemma_trim_end_cuts(s);
    let i = lemma_trim_start_cuts(e);
    assert(trim(s) =~= s.subrange(i, j));
    assert forall|k: int| 0 <= k < i || j <= k < s.len() implies whitespace(#[trigger] s[k]) by {
        if k < i {
            assert(e[k] == s[k]);
        }
    }
    if trim(s).len() > 0 {
        assert(trim(s).last() == e.last());
    }
}

proof fn lemma_trim_end_cuts(s: Seq<char>) -> (j: int)
    ensures
        0 <= j <= s.len(),
        trim_end(s) == s.subrange(0, j),
        forall|k: int| j <= k < s.len() ==> whitespace(#[trigger] s[k]),
    decreases s.len(),
{
    if s.len() > 0 && whitespace(s.last()) {
        let j = lemma_trim_end_cuts(s.drop_last());
        assert(s.drop_last().subrange(0, j) =~= s.subrange(0, j));
        assert forall|k: int| j <= k < s.len() implies whitespace(#[trigger] s[k]) by {
            if k < s.len() - 1 {
                assert(s.drop_last()[k] == s[k]);
            }
        }
        j
    } else {
        assert(s.subrange(0, s.len() as int) =~= s);
        s.len() as int
    }
}

proof fn lemma_trim_start_cuts(s: Seq<char>) -> (i: int)
    ensures
        0 <= i <= s.len(),
        trim_start(s) == s.subrange(i, s.len() as int),
        forall|k: int| 0 <= k < i ==> whitespace(#[trigger] s[k]),
        i < s.len() ==> !whitespace(s[i]),
    decreases s.len(),
{
    if s.len() > 0 && whitespace(s[0]) {
        let i = lemma_trim_start_cuts(s.drop_first());
        assert(s.drop_first().subrange(i, s.len() - 1) =~= s.subrange(i + 1, s.len() as int));
        assert forall|k: int| 0 <= k < i + 1 implies whitespace(#[trigger] s[k]) by {
            if k > 0 {
                assert(s.drop_first()[k - 1] == s[k]);
            }
        }
        assert(i < s.len() - 1 ==> s.drop_first()[i] == s[i + 1]);
        i + 1
    } else {
        assert(s.subrange(0, s.len() as int) =~= s);
        0
    }
}

/// A text is split at every occurrence of the character and nowhere else.
pub proof fn law_split_at_every_occurrence(a: Seq<char>, at: char, b: Seq<char>)
    ensures
        split_at(a.push(at) + b, at) == split_at(a, at) + split_at(b, at),
        !a.contains(at) ==> split_at(a, at) == seq![a],
    decreases b.len(),
{
    let t = a.push(at) + b;
    lemma_split_some(b, at);
    if b.len() == 0 {
        assert(t =~= a.push(at));
        assert(t.drop_last() =~= a);
        assert(split_at(t, at) =~= split_at(a, at) + split_at(b, at));
    } else {
        law_split_at_every_occurrence(a, at, b.drop_last());
        lemma_split_some(b.drop_last(), at);
        assert(t.drop_last() =~= a.push(at) + b.drop_last());
        assert(split_at(t, at) =~= split_at(a, at) + split_at(b, at));
    }
    if !a.contains(at) {
        lemma_unsplit(a, at);
    }
}

proof fn lemma_unsplit(a: Seq<char>, at: char)
    requires
        !a.contains(at),
    ensures
        split_at(a, at) == seq![a],
    decreases a.len(),
{
    if a.len() > 0 {
        assert(a.contains(a[a.len() - 1]));
        assert(!a.drop_last().contains(at)) by {
            if a.drop_last().contains(at) {
                let i = a.drop_last().index_of(at);
                assert(a[i] == at);
            }
        }
        lemma_unsplit(a.drop_last(), at);
        assert(a.drop_last().push(a.last()) =~= a);
        assert(split_at(a, at) =~= seq![a]);
    } else {
        assert(a =~= Seq::empty());
        assert(split_at(a, at) =~= seq![a]);
    }
}

/// A text contains another exactly when it is some text, the other, and some text after it.
pub proof fn law_contained_texts_stand_between_others(
    s: Seq<char>,
    a: Seq<char>,
    n: Seq<char>,
    b: Seq<char>,
)
    ensures
        contains(a + n + b, n),
        contains(s, n) ==> exists|i: int|
            0 <= i <= s.len() - n.len() && s == s.take(i) + n + #[trigger] s.skip(i + n.len()),
{
    let t = a + n + b;
    assert(t.subrange(a.len() as int, (a.len() + n.len()) as int) =~= n);
    assert(occurs_at(t, n, a.len() as int));
    if contains(s, n) {
        let i = choose|i: int| occurs_at(s, n, i);
        assert(s =~= s.take(i) + n + s.skip(i + n.len()));
    }
}

/// Folding goes character by character: a letter or digit leaves its small letter, anything else
/// nothing.
pub proof fn law_folding_is_by_character(a: Seq<char>, c: char)
    ensures
        folded(Seq::empty()).len() == 0,
        alphanumeric(c) ==> folded(a.push(c)) == folded(a) + lowercase(c),
        !alphanumeric(c) ==> folded(a.push(c)) == folded(a),
{
    assert(a.push(c).drop_last() =~= a);
}

/// What the digits of a numeral come to.
pub open spec fn value_of(digits: Seq<char>, base: nat) -> nat
    decreases digits.len(),
{
    if digits.len() == 0 {
        0
    } else {
        let c = digits.last() as u32;
        value_of(digits.drop_last(), base) * base + (if 48 <= c <= 57 {
            (c - 48) as nat
        } else {
            (c - 87) as nat
        })
    }
}

/// A numeral comes to its number, has digits only, and no zero stands before it.
pub proof fn law_numerals_come_to_their_number(n: nat, base: nat)
    requires
        2 <= base <= 16,
    ensures
        numeral(n, base).len() > 0,
        value_of(numeral(n, base), base) == n,
        n > 0 ==> numeral(n, base)[0] != '0',
        n < base ==> numeral(n, base).len() == 1,
        forall|i: int|
            0 <= i < numeral(n, base).len() ==> {
                let c = #[trigger] numeral(n, base)[i] as u32;
                48 <= c <= 57 || 97 <= c <= 102
            },
    decreases n,
{
    reveal_with_fuel(value_of, 2);
    let d = numeral(n, base);
    if n < base {
        assert(d.drop_last() =~= Seq::empty());
        assert(0 * base == 0) by (nonlinear_arith);
    } else {
        assert(n / base < n && n / base > 0 && n == (n / base) * base + n % base && n % base < base)
            by (nonlinear_arith)
            requires
                n >= base,
                base >= 2,
        ;
        law_numerals_come_to_their_number(n / base, base);
        let front = numeral(n / base, base);
        assert(d.drop_last() =~= front);
        assert forall|i: int| 0 <= i < d.len() implies ({
            let c = #[trigger] d[i] as u32;
            48 <= c <= 57 || 97 <= c <= 102
        }) by {
            if i < front.len() {
                assert(d[i] == front[i]);
            }
        }
        assert(d[0] == front[0]);
    }
}

/// Nothing is left of a text by trimming exactly when it is all white space.
pub proof fn law_blank_texts_trim_to_nothing(s: Seq<char>)
    ensures
        trim(s).len() == 0 <==> forall|k: int| 0 <= k < s.len() ==> whitespace(#[trigger] s[k]),
{
    law_trimming_takes_white_space_only(s);
    let (i, j) = choose|i: int, j: int|
        {
            &&& 0 <= i <= j <= s.len()
            &&& trim(s) == #[trigger] s.subrange(i, j)
            &&& forall|k: int| 0 <= k < i || j <= k < s.len() ==> whitespace(#[trigger] s[k])
        };
    if trim(s).len() > 0 {
        assert(trim(s)[0] == s[i]);
    }
}

/// Decimal numbers are in base ten and hexadecimal ones in base sixteen.
pub proof fn law_numbers_are_written_in_their_base(n: nat)
    ensures
        value_of(decimal(n), 10) == n,
        value_of(hexadecimal(n), 16) == n,
        n < 10 ==> decimal(n).len() == 1,
        n >= 10 ==> decimal(n).len() > 1,
        n > 0 ==> decimal(n)[0] != '0' && hexadecimal(n)[0] != '0',
        forall|i: int| 0 <= i < decimal(n).len() ==> '0' <= #[trigger] decimal(n)[i] <= '9',
    decreases n,
{
    law_numerals_come_to_their_number(n, 10);
    law_numerals_come_to_their_number(n, 16);
    if n >= 10 {
        law_numbers_are_written_in_their_base(n / 10);
        assert(decimal(n) == decimal(n / 10).push(digit(n % 10)));
        assert forall|i: int| 0 <= i < decimal(n).len() implies '0' <= #[trigger] decimal(n)[i]
            <= '9' by {
            if i < decimal(n / 10).len() {
                assert(decimal(n)[i] == decimal(n / 10)[i]);
            }
        }
    }
}

/// ASCII ends at the delete character.
pub proof fn law_ascii_ends_at_delete(c: char)
    ensures
        is_ascii(c) <==> c <= '\x7f',
{
}

} // verus!
