//! Text: searching, replacing, and rendering HTML as plain text.
use vstd::prelude::*;

verus! {

/// Appends a character to a string, with `String::push` of std: the string's characters
/// are then those it had, followed by the one given.
pub assume_specification[ String::push ](s: &mut String, c: char)
    ensures
        final(s)@ == old(s)@.push(c),
;

/// The characters of a string.
pub fn to_chars(s: &str) -> (chars: Vec<char>)
    ensures
        chars@ == s@,
{
    let mut chars: Vec<char> = Vec::new();
    for c in it: s.chars()
        invariant
            chars@ =~= s@.take(it.index()),
            it.seq() == s@,
    {
        chars.push(c);
    }
    assert(s@.take(s@.len() as int) =~= s@);
    chars
}

/// The string of the given characters.
pub fn from_chars(chars: &Vec<char>) -> (s: String)
    ensures
        s@ == chars@,
{
    let mut s: String = String::new();
    let mut i: usize = 0;
    while i < chars.len()
        invariant
            i <= chars@.len(),
            s@ == chars@.take(i as int),
        decreases chars@.len() - i,
    {
        s.push(chars[i]);
        assert(chars@.take(i + 1) =~= chars@.take(i as int).push(chars@[i as int]));
        i += 1;
    }
    assert(chars@.take(i as int) =~= chars@);
    s
}

/// Whether two strings have the same characters.
pub fn same_text(a: &str, b: &str) -> (r: bool)
    ensures
        r == (a@ == b@),
{
    a.to_owned() == b.to_owned()
}

/// Whether `pattern` stands in `s` at position `i`.
pub open spec fn matches_at<T>(s: Seq<T>, i: int, pattern: Seq<T>) -> bool {
    &&& 0 <= i
    &&& i + pattern.len() <= s.len()
    &&& s.subrange(i, i + pattern.len()) == pattern
}

/// Whether `pattern` stands somewhere in `s`.
pub open spec fn contains<T>(s: Seq<T>, pattern: Seq<T>) -> bool {
    exists|i: int| matches_at(s, i, pattern)
}

/// Whether `pattern` stands in `s` at position `i`, computed.
fn chars_match_at(s: &Vec<char>, i: usize, pattern: &Vec<char>) -> (b: bool)
    requires
        i <= s@.len(),
    ensures
        b == matches_at(s@, i as int, pattern@),
{
    let len: usize = s.len();
    if len - i < pattern.len() {
        return false;
    }
    let mut k: usize = 0;
    while k < pattern.len()
        invariant
            len == s@.len(),
            i + pattern@.len() <= len,
            k <= pattern@.len(),
            forall|j: int| 0 <= j < k ==> s@[i + j] == pattern@[j],
        decreases pattern@.len() - k,
    {
        if s[i + k] != pattern[k] {
            assert(s@.subrange(i as int, i + pattern@.len())[k as int] != pattern@[k as int]);
            return false;
        }
        k += 1;
    }
    assert(s@.subrange(i as int, i + pattern@.len()) =~= pattern@);
    true
}

/// Whether `pattern` stands somewhere in `s`.
pub fn contains_chars(s: &str, pattern: &str) -> (b: bool)
    ensures
        b == contains(s@, pattern@),
{
    let chars: Vec<char> = to_chars(s);
    let wanted: Vec<char> = to_chars(pattern);
    let mut i: usize = 0;
    loop
        invariant
            chars@ == s@,
            wanted@ == pattern@,
            i <= s@.len(),
            forall|j: int| 0 <= j < i ==> !matches_at(s@, j, pattern@),
        decreases s@.len() - i,
    {
        if chars_match_at(&chars, i, &wanted) {
            return true;
        }
        if i == chars.len() {
            return false;
        }
        i += 1;
    }
}

/// The characters with the Unicode property `White_Space`.
pub open spec fn white_space(c: char) -> bool {
    ||| '\u{9}' <= c <= '\u{d}'
    ||| c == ' '
    ||| c == '\u{85}'
    ||| c == '\u{a0}'
    ||| c == '\u{1680}'
    ||| '\u{2000}' <= c <= '\u{200a}'
    ||| c == '\u{2028}'
    ||| c == '\u{2029}'
    ||| c == '\u{202f}'
    ||| c == '\u{205f}'
    ||| c == '\u{3000}'
}

/// Whether a character has the Unicode property `White_Space`.
pub fn is_white_space(c: char) -> (b: bool)
    ensures
        b == white_space(c),
{
    ('\u{9}' <= c && c <= '\u{d}') || c == ' ' || c == '\u{85}' || c == '\u{a0}' || c == '\u{1680}'
        || ('\u{2000}' <= c && c <= '\u{200a}') || c == '\u{2028}' || c == '\u{2029}' || c
        == '\u{202f}' || c == '\u{205f}' || c == '\u{3000}'
}

/// The words of a text: its longest runs of characters that are no white space, in order.
pub open spec fn words(s: Seq<char>) -> Seq<Seq<char>>
    decreases s.len(),
{
    if s.len() == 0 {
        seq![]
    } else {
        let before = words(s.drop_last());
        if white_space(s.last()) {
            before
        } else if s.len() >= 2 && !white_space(s[s.len() - 2]) {
            before.update(before.len() - 1, before.last().push(s.last()))
        } else {
            before.push(seq![s.last()])
        }
    }
}

/// Words put together with one space between each two.
pub open spec fn joined(words: Seq<Seq<char>>) -> Seq<char>
    decreases words.len(),
{
    if words.len() == 0 {
        seq![]
    } else if words.len() == 1 {
        words[0]
    } else {
        joined(words.drop_last()).push(' ') + words.last()
    }
}

/// A text that does not end in white space has a word, which ends in its last character.
proof fn lemma_last_word(s: Seq<char>)
    requires
        s.len() > 0,
        !white_space(s.last()),
    ensures
        words(s).len() > 0,
    decreases s.len(),
{
    if s.len() >= 2 && !white_space(s[s.len() - 2]) {
        lemma_last_word(s.drop_last());
    }
}

/// Putting words together, one more character on the last word is one more character.
proof fn lemma_joined_extend(words: Seq<Seq<char>>, c: char)
    requires
        words.len() > 0,
    ensures
        joined(words.update(words.len() - 1, words.last().push(c))) == joined(words).push(c),
{
    let longer = words.update(words.len() - 1, words.last().push(c));
    assert(longer.drop_last() =~= words.drop_last());
    if words.len() > 1 {
        assert(joined(longer) =~= joined(words).push(c));
    }
}

/// Collapses every run of white space to one space and drops it at both ends.
fn collapse_white_space(s: &Vec<char>) -> (r: Vec<char>)
    ensures
        r@ == joined(words(s@)),
{
    let mut r: Vec<char> = Vec::new();
    let mut i: usize = 0;
    let mut any_word: bool = false;
    let mut in_word: bool = false;
    while i < s.len()
        invariant
            i <= s@.len(),
            r@ == joined(words(s@.take(i as int))),
            any_word == (words(s@.take(i as int)).len() > 0),
            in_word == (i > 0 && !white_space(s@[i - 1])),
        decreases s@.len() - i,
    {
        let c: char = s[i];
        let ghost before = words(s@.take(i as int));
        let ghost now = s@.take(i + 1);
        assert(now.drop_last() =~= s@.take(i as int));
        if is_white_space(c) {
            in_word = false;
        } else {
            if in_word {
                proof {
                    lemma_last_word(s@.take(i as int));
                    lemma_joined_extend(before, c);
                }
                r.push(c);
            } else {
                assert(before.push(seq![c]).drop_last() =~= before);
                if any_word {
                    r.push(' ');
                }
                r.push(c);
                assert(r@ =~= joined(before.push(seq![c])));
            }
            in_word = true;
            any_word = true;
        }
        i += 1;
    }
    assert(s@.take(i as int) =~= s@);
    r
}

/// Whether a tag is open at the end of `s`: the last angle bracket in it opens one.
pub open spec fn in_tag(s: Seq<char>) -> bool
    decreases s.len(),
{
    if s.len() == 0 || s.last() == '>' {
        false
    } else if s.last() == '<' {
        true
    } else {
        in_tag(s.drop_last())
    }
}

/// `s` without its angle brackets and without what stands inside tags.
pub open spec fn untagged(s: Seq<char>) -> Seq<char>
    decreases s.len(),
{
    if s.len() == 0 {
        seq![]
    } else if s.last() == '<' || s.last() == '>' || in_tag(s.drop_last()) {
        untagged(s.drop_last())
    } else {
        untagged(s.drop_last()).push(s.last())
    }
}

/// Drops tags.
fn drop_tags(s: &Vec<char>) -> (r: Vec<char>)
    ensures
        r@ == untagged(s@),
{
    let mut r: Vec<char> = Vec::new();
    let mut inside: bool = false;
    let mut i: usize = 0;
    while i < s.len()
        invariant
            i <= s@.len(),
            r@ == untagged(s@.take(i as int)),
            inside == in_tag(s@.take(i as int)),
        decreases s@.len() - i,
    {
        let c: char = s[i];
        assert(s@.take(i + 1).drop_last() =~= s@.take(i as int));
        if c == '<' {
            inside = true;
        } else if c == '>' {
            inside = false;
        } else if !inside {
            r.push(c);
        }
        i += 1;
    }
    assert(s@.take(i as int) =~= s@);
    r
}

/// Whether `s` starts with `pattern`.
pub open spec fn starts_with(s: Seq<char>, pattern: Seq<char>) -> bool {
    matches_at(s, 0, pattern)
}

/// The entity at the start of `s`: how long it is, and the character that it stands for.
pub open spec fn entity(s: Seq<char>) -> Option<(int, char)> {
    if starts_with(s, "&amp;"@) {
        Some((5, '&'))
    } else if starts_with(s, "&lt;"@) {
        Some((4, '<'))
    } else if starts_with(s, "&gt;"@) {
        Some((4, '>'))
    } else if starts_with(s, "&quot;"@) {
        Some((6, '"'))
    } else if starts_with(s, "&apos;"@) {
        Some((6, '\''))
    } else if starts_with(s, "&#39;"@) {
        Some((5, '\''))
    } else if starts_with(s, "&nbsp;"@) {
        Some((6, ' '))
    } else {
        None
    }
}

/// `s` with each of its entities decoded once, from left to right.
pub open spec fn decoded(s: Seq<char>) -> Seq<char>
    decreases s.len(),
{
    if s.len() == 0 {
        seq![]
    } else {
        proof {
            lemma_entity_start(s);
        }
        match entity(s) {
            Some((len, c)) => seq![c] + decoded(s.skip(len)),
            None => seq![s[0]] + decoded(s.skip(1)),
        }
    }
}

/// Whether `pattern` stands in `s` at position `i`, and whether the rest of `s` from there
/// starts with it, is the same.
proof fn lemma_starts_with(s: Seq<char>, i: int, pattern: Seq<char>)
    requires
        0 <= i <= s.len(),
    ensures
        matches_at(s, i, pattern) == starts_with(s.skip(i), pattern),
{
    if i + pattern.len() <= s.len() {
        assert(s.subrange(i, i + pattern.len()) =~= s.skip(i).subrange(0, pattern.len() as int));
    }
}

/// Whether `pattern` stands in `s` at position `i`, computed.
fn text_at(s: &Vec<char>, i: usize, pattern: &str) -> (b: bool)
    requires
        i <= s@.len(),
    ensures
        b == starts_with(s@.skip(i as int), pattern@),
{
    proof {
        lemma_starts_with(s@, i as int, pattern@);
    }
    let pattern: Vec<char> = to_chars(pattern);
    chars_match_at(s, i, &pattern)
}

/// The entity at position `i` of `s`, computed.
fn entity_at(s: &Vec<char>, i: usize) -> (found: Option<(usize, char)>)
    requires
        i < s@.len(),
    ensures
        match found {
            Some((len, c)) => entity(s@.skip(i as int)) == Some((len as int, c)) && 0 < len <= s@.len()
                - i,
            None => entity(s@.skip(i as int)) is None,
        },
{
    proof {
        reveal_strlit("&amp;");
        reveal_strlit("&lt;");
        reveal_strlit("&gt;");
        reveal_strlit("&quot;");
        reveal_strlit("&apos;");
        reveal_strlit("&#39;");
        reveal_strlit("&nbsp;");
    }
    if text_at(s, i, "&amp;") {
        Some((5, '&'))
    } else if text_at(s, i, "&lt;") {
        Some((4, '<'))
    } else if text_at(s, i, "&gt;") {
        Some((4, '>'))
    } else if text_at(s, i, "&quot;") {
        Some((6, '"'))
    } else if text_at(s, i, "&apos;") {
        Some((6, '\''))
    } else if text_at(s, i, "&#39;") {
        Some((5, '\''))
    } else if text_at(s, i, "&nbsp;") {
        Some((6, ' '))
    } else {
        None
    }
}

/// Decodes entities.
fn decode_entities(s: &Vec<char>) -> (r: Vec<char>)
    ensures
        r@ == decoded(s@),
{
    let mut r: Vec<char> = Vec::new();
    let mut i: usize = 0;
    assert(s@.skip(0) =~= s@);
    while i < s.len()
        invariant
            i <= s@.len(),
            decoded(s@) == r@ + decoded(s@.skip(i as int)),
        decreases s@.len() - i,
    {
        let ghost rest = s@.skip(i as int);
        let ghost before = r@;
        let (len, c) = match entity_at(s, i) {
            Some((len, c)) => (len, c),
            None => (1, s[i]),
        };
        r.push(c);
        assert(rest.skip(len as int) =~= s@.skip(i + len));
        i += len;
        assert(r@ + decoded(s@.skip(i as int)) =~= before + (seq![c] + decoded(s@.skip(i as int))));
    }
    assert(s@.skip(i as int) =~= Seq::<char>::empty());
    assert(r@ + Seq::<char>::empty() =~= r@);
    r
}

/// A character as it is written in XML.
pub open spec fn escaped_char(c: char) -> Seq<char> {
    if c == '&' {
        "&amp;"@
    } else if c == '<' {
        "&lt;"@
    } else if c == '>' {
        "&gt;"@
    } else if c == '"' {
        "&quot;"@
    } else if c == '\'' {
        "&apos;"@
    } else {
        seq![c]
    }
}

/// A text as it is written in XML.
pub open spec fn escaped(s: Seq<char>) -> Seq<char>
    decreases s.len(),
{
    if s.len() == 0 {
        seq![]
    } else {
        escaped_char(s[0]) + escaped(s.skip(1))
    }
}

/// A text that was written in XML is decoded to what it was, whatever it holds.
pub proof fn escaped_text_is_decoded(s: Seq<char>)
    ensures
        decoded(escaped(s)) == s,
    decreases s.len(),
{
    if s.len() > 0 {
        reveal_strlit("&amp;");
        reveal_strlit("&lt;");
        reveal_strlit("&gt;");
        reveal_strlit("&quot;");
        reveal_strlit("&apos;");
        reveal_strlit("&#39;");
        reveal_strlit("&nbsp;");
        let first = escaped_char(s[0]);
        let rest = escaped(s.skip(1));
        let all = first + rest;
        escaped_text_is_decoded(s.skip(1));
        assert(all.subrange(0, first.len() as int) =~= first);
        assert(all.skip(first.len() as int) =~= rest);
        assert(entity(all) == (if first.len() == 1 {
            None
        } else {
            Some((first.len() as int, s[0]))
        })) by {
            lemma_entity_start(all);
        }
        assert(seq![s[0]] + s.skip(1) =~= s);
    }
}

/// An entity is told by its second character, and for two of them by the third.
pub proof fn lemma_entity_start(s: Seq<char>)
    ensures
        starts_with(s, "&amp;"@) ==> s.len() >= 5 && s[0] == '&' && s[1] == 'a' && s[2] == 'm',
        starts_with(s, "&lt;"@) ==> s.len() >= 4 && s[0] == '&' && s[1] == 'l',
        starts_with(s, "&gt;"@) ==> s.len() >= 4 && s[0] == '&' && s[1] == 'g',
        starts_with(s, "&quot;"@) ==> s.len() >= 6 && s[0] == '&' && s[1] == 'q',
        starts_with(s, "&apos;"@) ==> s.len() >= 6 && s[0] == '&' && s[1] == 'a' && s[2] == 'p',
        starts_with(s, "&#39;"@) ==> s.len() >= 5 && s[0] == '&' && s[1] == '#',
        starts_with(s, "&nbsp;"@) ==> s.len() >= 6 && s[0] == '&' && s[1] == 'n',
{
    reveal_strlit("&amp;");
    reveal_strlit("&lt;");
    reveal_strlit("&gt;");
    reveal_strlit("&quot;");
    reveal_strlit("&apos;");
    reveal_strlit("&#39;");
    reveal_strlit("&nbsp;");
    lemma_first_chars(s, "&amp;"@);
    lemma_first_chars(s, "&lt;"@);
    lemma_first_chars(s, "&gt;"@);
    lemma_first_chars(s, "&quot;"@);
    lemma_first_chars(s, "&apos;"@);
    lemma_first_chars(s, "&#39;"@);
    lemma_first_chars(s, "&nbsp;"@);
}

proof fn lemma_first_chars(s: Seq<char>, pattern: Seq<char>)
    requires
        pattern.len() >= 3,
    ensures
        starts_with(s, pattern) ==> s.len() >= pattern.len() && s[0] == pattern[0] && s[1]
            == pattern[1] && s[2] == pattern[2],
{
    if starts_with(s, pattern) {
        let start = s.subrange(0, pattern.len() as int);
        assert(start[0] == s[0] && start[1] == s[1] && start[2] == s[2]);
    }
}

/// The plain text of an HTML fragment.
pub open spec fn plain_text(html: Seq<char>) -> Seq<char> {
    joined(words(decoded(untagged(html))))
}

/// Strips HTML tags, decodes entities and collapses white space: a best-effort plain-text
/// rendering of an HTML fragment, and deliberately no HTML parser.
pub fn strip_html_tags(html: &str) -> (text: String)
    ensures
        text@ == plain_text(html@),
{
    let chars: Vec<char> = to_chars(html);
    let chars: Vec<char> = drop_tags(&chars);
    let chars: Vec<char> = decode_entities(&chars);
    let chars: Vec<char> = collapse_white_space(&chars);
    from_chars(&chars)
}

/// Whether the only white space in a text is single spaces between other characters.
pub open spec fn single_spaced(s: Seq<char>) -> bool {
    forall|i: int|
        0 <= i < s.len() && white_space(#[trigger] s[i]) ==> {
            &&& s[i] == ' '
            &&& 0 < i < s.len() - 1
            &&& !white_space(s[i - 1])
            &&& !white_space(s[i + 1])
        }
}

/// Every word has characters, and none of them is white space.
pub open spec fn are_words(words: Seq<Seq<char>>) -> bool {
    forall|i: int|
        0 <= i < words.len() ==> (#[trigger] words[i]).len() > 0 && forall|k: int|
            0 <= k < words[i].len() ==> !white_space(#[trigger] words[i][k])
}

proof fn lemma_words_are_words(s: Seq<char>)
    ensures
        are_words(words(s)),
    decreases s.len(),
{
    if s.len() > 0 {
        let rest = s.drop_last();
        lemma_words_are_words(rest);
        let before = words(rest);
        if !white_space(s.last()) && s.len() >= 2 && !white_space(s[s.len() - 2]) {
            lemma_last_word(rest);
            assert forall|i: int| 0 <= i < words(s).len() implies (#[trigger] words(s)[i]).len() > 0
                && forall|k: int|
                0 <= k < words(s)[i].len() ==> !white_space(#[trigger] words(s)[i][k]) by {
                assert(before[i].len() > 0);
            }
        }
    }
}

proof fn lemma_joined_single_spaced(words: Seq<Seq<char>>)
    requires
        are_words(words),
    ensures
        single_spaced(joined(words)),
        words.len() > 0 ==> joined(words).len() > 0 && !white_space(joined(words).last())
            && !white_space(joined(words)[0]),
    decreases words.len(),
{
    if words.len() == 1 {
        assert(words[0].len() > 0);
    } else if words.len() > 1 {
        let front = words.drop_last();
        assert(are_words(front)) by {
            assert forall|i: int| 0 <= i < front.len() implies (#[trigger] front[i]).len() > 0
                && forall|k: int|
                0 <= k < front[i].len() ==> !white_space(#[trigger] front[i][k]) by {
                assert(words[i].len() > 0);
            }
        }
        lemma_joined_single_spaced(front);
        let start = joined(front);
        let last = words[words.len() - 1];
        let all = joined(words);
        assert(last.len() > 0);
        assert(all =~= start.push(' ') + last);
        assert forall|i: int| 0 <= i < all.len() && white_space(#[trigger] all[i]) implies {
            &&& all[i] == ' '
            &&& 0 < i < all.len() - 1
            &&& !white_space(all[i - 1])
            &&& !white_space(all[i + 1])
        } by {
            if i < start.len() {
                assert(all[i] == start[i]);
                assert(all[i - 1] == start[i - 1] && all[i + 1] == start[i + 1]);
            } else if i == start.len() {
                assert(all[i - 1] == start.last());
                assert(all[i + 1] == last[0]);
            } else {
                assert(all[i] == last[i - start.len() - 1]);
            }
        }
        assert(all.last() == last.last());
        assert(all[0] == start[0]);
    }
}

/// Plain text has no white space but single spaces between other characters.
pub proof fn plain_text_is_single_spaced(html: Seq<char>)
    ensures
        single_spaced(plain_text(html)),
{
    let s = decoded(untagged(html));
    lemma_words_are_words(s);
    lemma_joined_single_spaced(words(s));
}

/// Once tags are dropped no angle bracket is left.
pub proof fn untagged_has_no_angle_brackets(s: Seq<char>)
    ensures
        !untagged(s).contains('<'),
        !untagged(s).contains('>'),
    decreases s.len(),
{
    if s.len() > 0 {
        let rest = s.drop_last();
        untagged_has_no_angle_brackets(rest);
        assert forall|i: int| 0 <= i < untagged(s).len() implies untagged(s)[i] != '<'
            && untagged(s)[i] != '>' by {
            if i < untagged(rest).len() {
                assert(untagged(s)[i] == untagged(rest)[i]);
                assert(untagged(rest).contains(untagged(rest)[i]));
            }
        }
    }
}

/// A part stands at a position if the characters from there on are its own; and it stands
/// somewhere in a text exactly if the text is some text, the part, and some text.
pub proof fn a_part_is_found_where_it_stands<T>(s: Seq<T>, i: int, part: Seq<T>, after: Seq<T>)
    requires
        0 <= i <= s.len(),
    ensures
        contains(s + part + after, part),
        contains(s, part) ==> exists|before: Seq<T>, rest: Seq<T>| s == #[trigger] (before + part
            + rest),
        matches_at(s, i, part) <==> i + part.len() <= s.len() && forall|k: int|
            0 <= k < part.len() ==> s[i + k] == #[trigger] part[k],
{
    let all = s + part + after;
    assert(all.subrange(s.len() as int, s.len() as int + part.len()) =~= part);
    assert(matches_at(all, s.len() as int, part));
    if contains(s, part) {
        let at = choose|at: int| matches_at(s, at, part);
        let before = s.take(at);
        let rest = s.skip(at + part.len());
        assert(s =~= (before + part) + rest);
    }
    if i + part.len() <= s.len() {
        let here = s.subrange(i, i + part.len());
        if matches_at(s, i, part) {
            assert forall|k: int| 0 <= k < part.len() implies s[i + k] == #[trigger] part[k] by {
                assert(here[k] == s[i + k]);
            }
        }
        if forall|k: int| 0 <= k < part.len() ==> s[i + k] == #[trigger] part[k] {
            assert(here =~= part);
        }
    }
}

/// White space parts words, and nothing else does: the words on both sides of it are those of
/// the two sides, and a run of other characters is one word.
pub proof fn words_are_parted_by_white_space(a: Seq<char>, c: char, b: Seq<char>)
    requires
        white_space(c),
    ensures
        words(a.push(c) + b) == words(a) + words(b),
    decreases b.len(),
{
    let all = a.push(c) + b;
    if b.len() == 0 {
        assert(all =~= a.push(c));
        assert(a.push(c).drop_last() =~= a);
        assert(words(a) + words(b) =~= words(a));
    } else {
        let rest = b.drop_last();
        assert(all.drop_last() =~= a.push(c) + rest);
        assert(all.last() == b.last());
        words_are_parted_by_white_space(a, c, rest);
        if !white_space(b.last()) && b.len() >= 2 && !white_space(b[b.len() - 2]) {
            lemma_last_word(rest);
            assert(all[all.len() - 2] == b[b.len() - 2]);
        } else if b.len() >= 2 {
            assert(all[all.len() - 2] == b[b.len() - 2]);
        } else {
            assert(all[all.len() - 2] == c);
        }
        assert(words(all) =~= words(a) + words(b));
    }
}

/// A run of characters that are no white space is one word.
pub proof fn a_run_is_one_word(s: Seq<char>)
    requires
        s.len() > 0,
        forall|i: int| 0 <= i < s.len() ==> !white_space(#[trigger] s[i]),
    ensures
        words(s) == seq![s],
    decreases s.len(),
{
    let rest = s.drop_last();
    assert(!white_space(s[s.len() - 1]));
    if rest.len() > 0 {
        a_run_is_one_word(rest);
        assert(seq![rest].update(0, seq![rest].last().push(s.last())) =~= seq![rest.push(s.last())]);
        assert(rest.push(s.last()) =~= s);
        assert(!white_space(s[s.len() - 2]));
        assert(words(s) =~= seq![s]);
    } else {
        assert(words(rest) =~= Seq::<Seq<char>>::empty());
        assert(seq![s.last()] =~= s);
        assert(words(s) =~= seq![s]);
    }
}

/// Words are put together as they are, with one space between them.
pub proof fn words_are_joined_by_spaces(a: Seq<Seq<char>>, b: Seq<Seq<char>>, word: Seq<char>)
    requires
        a.len() > 0,
        b.len() > 0,
    ensures
        joined(Seq::empty()) == Seq::<char>::empty(),
        joined(seq![word]) == word,
        joined(a + b) == joined(a) + seq![' '] + joined(b),
    decreases b.len(),
{
    let all = a + b;
    if b.len() == 1 {
        assert(all.drop_last() =~= a);
        assert(joined(all) =~= joined(a) + seq![' '] + joined(b));
    } else {
        let rest = b.drop_last();
        words_are_joined_by_spaces(a, rest, word);
        assert(all.drop_last() =~= a + rest);
        assert(joined(all) =~= joined(a) + seq![' '] + joined(b));
    }
}

proof fn lemma_no_brackets(s: Seq<char>)
    requires
        !s.contains('<'),
        !s.contains('>'),
    ensures
        untagged(s) == s,
        !in_tag(s),
    decreases s.len(),
{
    if s.len() > 0 {
        let rest = s.drop_last();
        assert(s.contains(s[s.len() - 1]));
        assert forall|c: char| rest.contains(c) implies s.contains(c) by {
            let k = choose|k: int| 0 <= k < rest.len() && rest[k] == c;
            assert(s[k] == c);
        }
        lemma_no_brackets(rest);
        assert(untagged(s) =~= s);
    } else {
        assert(untagged(s) =~= s);
    }
}

proof fn lemma_open_tag(a: Seq<char>, tag: Seq<char>)
    requires
        !tag.contains('>'),
    ensures
        in_tag(a.push('<') + tag),
        untagged(a.push('<') + tag) == untagged(a),
    decreases tag.len(),
{
    let all = a.push('<') + tag;
    if tag.len() == 0 {
        assert(all =~= a.push('<'));
        assert(a.push('<').drop_last() =~= a);
    } else {
        let rest = tag.drop_last();
        assert(tag.contains(tag[tag.len() - 1]));
        assert forall|c: char| rest.contains(c) implies tag.contains(c) by {
            let k = choose|k: int| 0 <= k < rest.len() && rest[k] == c;
            assert(tag[k] == c);
        }
        lemma_open_tag(a, rest);
        assert(all.drop_last() =~= a.push('<') + rest);
    }
}

proof fn lemma_behind_tag(a: Seq<char>, b: Seq<char>)
    ensures
        in_tag(a.push('>') + b) == in_tag(b),
        untagged(a.push('>') + b) == untagged(a) + untagged(b),
    decreases b.len(),
{
    let all = a.push('>') + b;
    if b.len() == 0 {
        assert(all =~= a.push('>'));
        assert(a.push('>').drop_last() =~= a);
        assert(untagged(a) + untagged(b) =~= untagged(a));
    } else {
        lemma_behind_tag(a, b.drop_last());
        assert(all.drop_last() =~= a.push('>') + b.drop_last());
        assert(untagged(all) =~= untagged(a) + untagged(b));
    }
}

/// A tag is dropped with all that stands in it, and what stands before and behind it is kept.
/// Text without angle brackets is kept as it is, and a tag that is not closed swallows the
/// rest.
pub proof fn tags_are_dropped(before: Seq<char>, tag: Seq<char>, after: Seq<char>, text: Seq<char>)
    requires
        !tag.contains('>'),
        !text.contains('<'),
        !text.contains('>'),
    ensures
        untagged(before + seq!['<'] + tag + seq!['>'] + after) == untagged(before) + untagged(
            after,
        ),
        untagged(before + seq!['<'] + tag) == untagged(before),
        untagged(before + seq!['>'] + after) == untagged(before) + untagged(after),
        untagged(text) == text,
{
    lemma_open_tag(before, tag);
    assert(before + seq!['<'] + tag =~= before.push('<') + tag);
    let open = before + seq!['<'] + tag;
    lemma_behind_tag(open, after);
    assert(open + seq!['>'] + after =~= open.push('>') + after);
    lemma_behind_tag(before, after);
    assert(before + seq!['>'] + after =~= before.push('>') + after);
    lemma_no_brackets(text);
}

/// Each entity stands for its character, wherever it stands, and what follows it is read for
/// itself; every other character stands for itself.
pub proof fn entities_stand_for_their_characters(rest: Seq<char>, c: char)
    requires
        c != '&',
    ensures
        decoded("&amp;"@ + rest) == seq!['&'] + decoded(rest),
        decoded("&lt;"@ + rest) == seq!['<'] + decoded(rest),
        decoded("&gt;"@ + rest) == seq!['>'] + decoded(rest),
        decoded("&quot;"@ + rest) == seq!['"'] + decoded(rest),
        decoded("&apos;"@ + rest) == seq!['\''] + decoded(rest),
        decoded("&#39;"@ + rest) == seq!['\''] + decoded(rest),
        decoded("&nbsp;"@ + rest) == seq![' '] + decoded(rest),
        decoded(seq![c] + rest) == seq![c] + decoded(rest),
        decoded(Seq::empty()) == Seq::<char>::empty(),
{
    reveal_strlit("&amp;");
    reveal_strlit("&lt;");
    reveal_strlit("&gt;");
    reveal_strlit("&quot;");
    reveal_strlit("&apos;");
    reveal_strlit("&#39;");
    reveal_strlit("&nbsp;");
    lemma_decode_entity("&amp;"@, rest);
    lemma_decode_entity("&lt;"@, rest);
    lemma_decode_entity("&gt;"@, rest);
    lemma_decode_entity("&quot;"@, rest);
    lemma_decode_entity("&apos;"@, rest);
    lemma_decode_entity("&#39;"@, rest);
    lemma_decode_entity("&nbsp;"@, rest);
    lemma_entity_start(seq![c] + rest);
    assert((seq![c] + rest).skip(1) =~= rest);
}

/// What `s` starts with, if it starts with a given text.
proof fn lemma_decode_entity(name: Seq<char>, rest: Seq<char>)
    ensures
        starts_with(name + rest, name),
        (name + rest).skip(name.len() as int) == rest,
        (name + rest).len() > 0 ==> {
            let s = name + rest;
            &&& starts_with(s, "&amp;"@) ==> s[1] == 'a' && s[2] == 'm'
            &&& starts_with(s, "&lt;"@) ==> s[1] == 'l'
            &&& starts_with(s, "&gt;"@) ==> s[1] == 'g'
            &&& starts_with(s, "&quot;"@) ==> s[1] == 'q'
            &&& starts_with(s, "&apos;"@) ==> s[1] == 'a' && s[2] == 'p'
            &&& starts_with(s, "&#39;"@) ==> s[1] == '#'
            &&& starts_with(s, "&nbsp;"@) ==> s[1] == 'n'
        },
{
    lemma_entity_start(name + rest);
    assert((name + rest).subrange(0, name.len() as int) =~= name);
    assert((name + rest).skip(name.len() as int) =~= rest);
}

/// An ampersand that begins none of the entities stands for itself.
pub proof fn other_ampersands_stand_for_themselves(s: Seq<char>)
    requires
        s.len() > 0,
        forall|name: Seq<char>|
            #![trigger matches_at(s, 0, name)]
            name == "&amp;"@ || name == "&lt;"@ || name == "&gt;"@ || name == "&quot;"@ || name
                == "&apos;"@ || name == "&#39;"@ || name == "&nbsp;"@ ==> !matches_at(s, 0, name),
    ensures
        decoded(s) == seq![s[0]] + decoded(s.skip(1)),
{
    assert(!matches_at(s, 0, "&amp;"@));
    assert(!matches_at(s, 0, "&lt;"@));
    assert(!matches_at(s, 0, "&gt;"@));
    assert(!matches_at(s, 0, "&quot;"@));
    assert(!matches_at(s, 0, "&apos;"@));
    assert(!matches_at(s, 0, "&#39;"@));
    assert(!matches_at(s, 0, "&nbsp;"@));
}

proof fn lemma_escaped_has_no_brackets(s: Seq<char>)
    ensures
        !escaped(s).contains('<'),
        !escaped(s).contains('>'),
    decreases s.len(),
{
    if s.len() > 0 {
        reveal_strlit("&amp;");
        reveal_strlit("&lt;");
        reveal_strlit("&gt;");
        reveal_strlit("&quot;");
        reveal_strlit("&apos;");
        lemma_escaped_has_no_brackets(s.skip(1));
        let first = escaped_char(s[0]);
        let rest = escaped(s.skip(1));
        assert forall|k: int| 0 <= k < escaped(s).len() implies escaped(s)[k] != '<' && escaped(
            s,
        )[k] != '>' by {
            if k >= first.len() {
                assert(rest.contains(rest[k - first.len()]));
            }
        }
    }
}

/// The words of a text that was written in XML come out as they were, whatever they hold: no
/// angle bracket of the text is taken for a tag, and no entity of it is read twice.
pub proof fn escaped_words_come_out(text: Seq<char>)
    ensures
        plain_text(escaped(text)) == joined(words(text)),
{
    lemma_escaped_has_no_brackets(text);
    lemma_no_brackets(escaped(text));
    escaped_text_is_decoded(text);
}

/// Plain text depends on what is left of the tags alone; of text without angle brackets it is
/// the words of the decoded text.
pub proof fn tags_leave_no_trace(html: Seq<char>, text: Seq<char>)
    requires
        !text.contains('<'),
        !text.contains('>'),
    ensures
        plain_text(html) == plain_text(untagged(html)),
        plain_text(text) == joined(words(decoded(text))),
{
    untagged_has_no_angle_brackets(html);
    lemma_no_brackets(untagged(html));
    lemma_no_brackets(text);
}

/// White space are the control characters from tab to carriage return and the next line, and the
/// spaces and separators of Unicode; a zero width space is none.
pub proof fn white_space_is_these(c: char)
    ensures
        (c as int) < 0x80 ==> (white_space(c) <==> c as int == 0x20 || 9 <= c as int <= 13),
        0x80 <= (c as int) < 0x2000 ==> (white_space(c) <==> c as int == 0x85 || c as int == 0xA0
            || c as int == 0x1680),
        0x2000 <= (c as int) ==> (white_space(c) <==> c as int <= 0x200A || c as int == 0x2028
            || c as int == 0x2029 || c as int == 0x202F || c as int == 0x205F || c as int
            == 0x3000),
{
}

} // verus!
