//! Text as sequences of characters: searching, splitting, trimming.

use vstd::prelude::*;
use vstd::slice::slice_subrange;

verus! {

/// `String::push` puts the character behind the text that is there.
pub assume_specification[ String::push ](s: &mut String, c: char)
    ensures
        final(s)@ == old(s)@.push(c),
;

/// The characters of a text, in order.
pub fn chars_of(s: &str) -> (r: Vec<char>)
    ensures
        r@ == s@,
{
    let mut out: Vec<char> = Vec::new();
    for c in it: s.chars()
        invariant
            it.seq() == s@,
            out@ == it.seq().take(it.index()),
    {
        proof {
            assert(it.seq().take(it.index() + 1) =~= it.seq().take(it.index()).push(c));
        }
        out.push(c);
    }
    proof {
        assert(s@.take(s@.len() as int) =~= s@);
    }
    out
}

/// The text that the characters spell.
pub fn text_of(chars: &[char]) -> (r: String)
    ensures
        r@ == chars@,
{
    let mut out = String::new();
    let mut i: usize = 0;
    while i < chars.len()
        invariant
            i <= chars@.len(),
            out@ == chars@.take(i as int),
        decreases chars@.len() - i,
    {
        proof {
            assert(chars@.take(i + 1) =~= chars@.take(i as int).push(chars@[i as int]));
        }
        out.push(chars[i]);
        i += 1;
    }
    proof {
        assert(chars@.take(chars@.len() as int) =~= chars@);
    }
    out
}

/// The texts of a list of strings.
pub open spec fn texts(list: Seq<String>) -> Seq<Seq<char>> {
    list.map_values(|s: String| s@)
}

/// The text of an optional string.
pub open spec fn text_option(s: Option<String>) -> Option<Seq<char>> {
    match s {
        Some(s) => Some(s@),
        None => None,
    }
}

/// The text of a result, whichever it is.
pub open spec fn text_result(r: Result<String, String>) -> Result<Seq<char>, Seq<char>> {
    match r {
        Ok(s) => Ok(s@),
        Err(s) => Err(s@),
    }
}

/// The texts of an optional pair of strings.
pub open spec fn pair_option(p: Option<(String, String)>) -> Option<(Seq<char>, Seq<char>)> {
    match p {
        Some((a, b)) => Some((a@, b@)),
        None => None,
    }
}

/// Adding a string to a list adds its text.
pub broadcast proof fn lemma_texts_push(list: Seq<String>, s: String)
    ensures
        #[trigger] texts(list.push(s)) == texts(list).push(s@),
{
    assert(texts(list.push(s)) =~= texts(list).push(s@));
}

/// Where `c` first stands in `s`, at `from` or later.
pub open spec fn find_char(s: Seq<char>, c: char, from: int) -> Option<int>
    decreases s.len() - from,
{
    if from < 0 || from >= s.len() {
        None
    } else if s[from] == c {
        Some(from)
    } else {
        find_char(s, c, from + 1)
    }
}

/// Where `c` last stands in the first `end` characters of `s`.
pub open spec fn rfind_char(s: Seq<char>, c: char, end: int) -> Option<int>
    decreases end,
{
    if end <= 0 || end > s.len() {
        None
    } else if s[end - 1] == c {
        Some(end - 1)
    } else {
        rfind_char(s, c, end - 1)
    }
}

/// `pat` stands in `s` at position `i`.
pub open spec fn occurs_at(s: Seq<char>, pat: Seq<char>, i: int) -> bool {
    &&& 0 <= i
    &&& i + pat.len() <= s.len()
    &&& s.subrange(i, i + pat.len()) == pat
}

/// Where `pat` first stands in `s`, at `from` or later.
pub open spec fn find_text(s: Seq<char>, pat: Seq<char>, from: int) -> Option<int>
    decreases s.len() - from,
{
    if from < 0 || from + pat.len() > s.len() {
        None
    } else if occurs_at(s, pat, from) {
        Some(from)
    } else if from >= s.len() {
        None
    } else {
        find_text(s, pat, from + 1)
    }
}

/// What stands before and behind the first `pat` in `s`.
pub open spec fn split_text(s: Seq<char>, pat: Seq<char>) -> Option<(Seq<char>, Seq<char>)> {
    match find_text(s, pat, 0) {
        Some(i) => Some((s.take(i), s.skip(i + pat.len()))),
        None => None,
    }
}

/// What a found position means.
pub proof fn lemma_find_char(s: Seq<char>, c: char, from: int)
    requires
        0 <= from,
    ensures
        match find_char(s, c, from) {
            Some(i) => from <= i < s.len() && s[i] == c && forall|j: int|
                from <= j < i ==> #[trigger] s[j] != c,
            None => forall|j: int| from <= j < s.len() ==> #[trigger] s[j] != c,
        },
    decreases s.len() - from,
{
    if from < s.len() && s[from] != c {
        lemma_find_char(s, c, from + 1);
    }
}

/// The position is the only one with that meaning.
pub proof fn lemma_find_char_at(s: Seq<char>, c: char, from: int, i: int)
    requires
        0 <= from <= i < s.len(),
        s[i] == c,
        forall|j: int| from <= j < i ==> #[trigger] s[j] != c,
    ensures
        find_char(s, c, from) == Some(i),
{
    lemma_find_char(s, c, from);
}

/// Searching a rest of the text finds what searching on from there finds.
pub proof fn lemma_find_char_skip(s: Seq<char>, c: char, start: int)
    requires
        0 <= start <= s.len(),
    ensures
        find_char(s.skip(start), c, 0) == match find_char(s, c, start) {
            Some(i) => Some(i - start),
            None => None,
        },
{
    lemma_find_char(s, c, start);
    lemma_find_char(s.skip(start), c, 0);
    match find_char(s.skip(start), c, 0) {
        Some(i) => {
            assert(s.skip(start)[i] == s[i + start]);
            assert forall|j: int| start <= j < i + start implies #[trigger] s[j] != c by {
                assert(s.skip(start)[j - start] == s[j]);
            }
            lemma_find_char_at(s, c, start, i + start);
        },
        None => {
            if find_char(s, c, start) is Some {
                let i = find_char(s, c, start)->0;
                assert(s.skip(start)[i - start] == s[i]);
            }
        },
    }
}

/// What the last position means.
pub proof fn lemma_rfind_char(s: Seq<char>, c: char, end: int)
    requires
        0 <= end <= s.len(),
    ensures
        match rfind_char(s, c, end) {
            Some(i) => 0 <= i < end && s[i] == c && forall|j: int|
                i < j < end ==> #[trigger] s[j] != c,
            None => forall|j: int| 0 <= j < end ==> #[trigger] s[j] != c,
        },
    decreases end,
{
    if end > 0 && s[end - 1] != c {
        lemma_rfind_char(s, c, end - 1);
    }
}

/// What a found pattern position means.
pub proof fn lemma_find_text(s: Seq<char>, pat: Seq<char>, from: int)
    requires
        0 <= from,
    ensures
        match find_text(s, pat, from) {
            Some(i) => from <= i && occurs_at(s, pat, i) && forall|j: int|
                from <= j < i ==> !#[trigger] occurs_at(s, pat, j),
            None => forall|j: int| from <= j ==> !#[trigger] occurs_at(s, pat, j),
        },
    decreases s.len() - from,
{
    if from + pat.len() <= s.len() && !occurs_at(s, pat, from) && from < s.len() {
        lemma_find_text(s, pat, from + 1);
    }
}

/// The pattern position is the only one with that meaning.
pub proof fn lemma_find_text_at(s: Seq<char>, pat: Seq<char>, from: int, i: int)
    requires
        0 <= from <= i,
        occurs_at(s, pat, i),
        forall|j: int| from <= j < i ==> !#[trigger] occurs_at(s, pat, j),
    ensures
        find_text(s, pat, from) == Some(i),
{
    lemma_find_text(s, pat, from);
}

/// A pattern between two texts splits them, where it does not stand earlier.
pub proof fn lemma_split_text(left: Seq<char>, pat: Seq<char>, right: Seq<char>)
    requires
        forall|j: int| 0 <= j < left.len() ==> !#[trigger] occurs_at(left + pat + right, pat, j),
    ensures
        split_text(left + pat + right, pat) == Some((left, right)),
{
    let s = left + pat + right;
    let at = left.len() as int;
    assert(s.subrange(at, at + pat.len()) =~= pat);
    assert(occurs_at(s, pat, at));
    lemma_find_text_at(s, pat, 0, at);
    assert(s.take(at) =~= left);
    assert(s.skip(at + pat.len()) =~= right);
}

/// The first position of a character.
pub fn find(s: &[char], c: char, from: usize) -> (r: Option<usize>)
    ensures
        match r {
            Some(i) => find_char(s@, c, from as int) == Some(i as int),
            None => find_char(s@, c, from as int) == None::<int>,
        },
{
    let mut i: usize = from;
    while i < s.len()
        invariant
            from <= i,
            find_char(s@, c, from as int) == find_char(s@, c, i as int),
        decreases s@.len() - i,
    {
        if s[i] == c {
            return Some(i);
        }
        i += 1;
    }
    None
}

/// The last position of a character.
pub fn rfind(s: &[char], c: char) -> (r: Option<usize>)
    ensures
        match r {
            Some(i) => rfind_char(s@, c, s@.len() as int) == Some(i as int),
            None => rfind_char(s@, c, s@.len() as int) == None::<int>,
        },
{
    let mut end: usize = s.len();
    while end > 0
        invariant
            end <= s@.len(),
            rfind_char(s@, c, s@.len() as int) == rfind_char(s@, c, end as int),
        decreases end,
    {
        if s[end - 1] == c {
            return Some(end - 1);
        }
        end -= 1;
    }
    None
}

/// Whether the pattern stands at the position.
pub fn stands_at(s: &[char], pat: &[char], at: usize) -> (r: bool)
    ensures
        r == occurs_at(s@, pat@, at as int),
{
    if pat.len() > s.len() || at > s.len() - pat.len() {
        return false;
    }
    let mut i: usize = 0;
    while i < pat.len()
        invariant
            i <= pat@.len(),
            at + pat@.len() <= s@.len() <= usize::MAX,
            forall|j: int| 0 <= j < i ==> #[trigger] pat@[j] == s@[at + j],
        decreases pat@.len() - i,
    {
        if s[at + i] != pat[i] {
            proof {
                assert(s@.subrange(at as int, at + pat@.len())[i as int] == s@[at + i]);
            }
            return false;
        }
        i += 1;
    }
    proof {
        assert(s@.subrange(at as int, at + pat@.len()) =~= pat@);
    }
    true
}

/// The first position of a pattern.
pub fn find_pattern(s: &[char], pat: &[char]) -> (r: Option<usize>)
    ensures
        match r {
            Some(i) => find_text(s@, pat@, 0) == Some(i as int) && i + pat@.len() <= s@.len(),
            None => find_text(s@, pat@, 0) == None::<int>,
        },
{
    let mut i: usize = 0;
    while i < s.len()
        invariant
            i <= s@.len(),
            find_text(s@, pat@, 0) == find_text(s@, pat@, i as int),
        decreases s@.len() - i,
    {
        if stands_at(s, pat, i) {
            return Some(i);
        }
        i += 1;
    }
    if stands_at(s, pat, i) {
        return Some(i);
    }
    None
}

/// Splits at the first occurrence of a pattern.
pub fn split_once(s: &str, pat: &str) -> (r: Option<(String, String)>)
    ensures
        pair_option(r) == split_text(s@, pat@),
{
    let chars = chars_of(s);
    let pattern = chars_of(pat);
    match find_pattern(chars.as_slice(), pattern.as_slice()) {
        Some(i) => {
            let end: usize = chars.len();
            let before = text_of(slice_subrange(chars.as_slice(), 0, i));
            let behind = text_of(slice_subrange(chars.as_slice(), i + pattern.len(), end));
            proof {
                assert(before@ =~= s@.take(i as int));
                assert(behind@ =~= s@.skip(i + pat@.len()));
            }
            Some((before, behind))
        },
        None => None,
    }
}

/// Whether two texts are the same.
pub fn same_text(a: &str, b: &str) -> (r: bool)
    ensures
        r == (a@ == b@),
{
    a.to_owned() == b.to_owned()
}

/// Whether the text begins with the character.
pub fn starts_with_char(s: &str, c: char) -> (r: bool)
    ensures
        r == (s@.len() > 0 && s@[0] == c),
{
    if s.is_empty() {
        false
    } else {
        s.get_char(0) == c
    }
}

/// What stands behind a pattern that the text begins with.
pub fn strip_prefix(s: &str, pat: &str) -> (r: Option<String>)
    ensures
        text_option(r) == if occurs_at(s@, pat@, 0) {
            Some(s@.skip(pat@.len() as int))
        } else {
            None
        },
{
    let chars = chars_of(s);
    let pattern = chars_of(pat);
    if stands_at(chars.as_slice(), pattern.as_slice(), 0) {
        let rest = text_of(slice_subrange(chars.as_slice(), pattern.len(), chars.len()));
        proof {
            assert(rest@ =~= s@.skip(pat@.len() as int));
        }
        Some(rest)
    } else {
        None
    }
}

/// The characters with Unicode's White_Space property.
pub open spec fn is_whitespace(c: char) -> bool {
    ||| '\u{9}' <= c <= '\u{d}'
    ||| c == ' '
    ||| c == '\u{85}'
    ||| c == '\u{a0}'
    ||| c == '\u{1680}'
    ||| '\u{2000}' <= c <= '\u{200a}'
    ||| c == '\u{2028}'
    ||| c == '\u{2029}'
    ||| c == '\u{202f}'
    ||| c == '\u{205f}'
    ||| c == '\u{3000}'
}

/// The text without the whitespace it begins with.
pub open spec fn trimmed_start(s: Seq<char>) -> Seq<char>
    decreases s.len(),
{
    if s.len() > 0 && is_whitespace(s[0]) {
        trimmed_start(s.skip(1))
    } else {
        s
    }
}

/// The text without the whitespace it ends in.
pub open spec fn trimmed_end(s: Seq<char>) -> Seq<char>
    decreases s.len(),
{
    if s.len() > 0 && is_whitespace(s.last()) {
        trimmed_end(s.drop_last())
    } else {
        s
    }
}

/// The text without whitespace at either end.
pub open spec fn trimmed(s: Seq<char>) -> Seq<char> {
    trimmed_end(trimmed_start(s))
}

/// Whether a character is whitespace.
pub fn whitespace(c: char) -> (r: bool)
    ensures
        r == is_whitespace(c),
{
    ('\u{9}' <= c && c <= '\u{d}') || c == ' ' || c == '\u{85}' || c == '\u{a0}' || c == '\u{1680}'
        || ('\u{2000}' <= c && c <= '\u{200a}') || c == '\u{2028}' || c == '\u{2029}' || c
        == '\u{202f}' || c == '\u{205f}' || c == '\u{3000}'
}

/// Takes the whitespace off both ends.
pub fn trim(s: &str) -> (r: String)
    ensures
        r@ == trimmed(s@),
{
    let chars = chars_of(s);
    let mut start: usize = 0;
    proof {
        assert(s@.skip(0) =~= s@);
    }
    while start < chars.len() && whitespace(chars[start])
        invariant
            start <= chars@.len(),
            chars@ == s@,
            trimmed_start(s@) == trimmed_start(s@.skip(start as int)),
        decreases chars@.len() - start,
    {
        proof {
            assert(s@.skip(start as int).skip(1) =~= s@.skip(start + 1));
        }
        start += 1;
    }
    let ghost rest = s@.skip(start as int);
    let mut end: usize = chars.len();
    proof {
        assert(s@.subrange(start as int, end as int) =~= rest);
    }
    while end > start && whitespace(chars[end - 1])
        invariant
            start <= end <= chars@.len(),
            chars@ == s@,
            trimmed_end(rest) == trimmed_end(s@.subrange(start as int, end as int)),
        decreases end,
    {
        proof {
            let part = s@.subrange(start as int, end as int);
            assert(part.last() == s@[end - 1]);
            assert(part.drop_last() =~= s@.subrange(start as int, end - 1));
        }
        end -= 1;
    }
    proof {
        let part = s@.subrange(start as int, end as int);
        if part.len() > 0 {
            assert(part.last() == s@[end - 1]);
        }
    }
    text_of(slice_subrange(chars.as_slice(), start, end))
}

/// The line without the carriage return it ends in, if it does.
pub open spec fn without_cr(line: Seq<char>) -> Seq<char> {
    if line.len() > 0 && line.last() == '\r' {
        line.drop_last()
    } else {
        line
    }
}

/// The lines of a text: each ends in a line feed, or a carriage return and a line
/// feed, neither of which belongs to it; behind the last line they may be missing.
pub open spec fn lines_of(s: Seq<char>) -> Seq<Seq<char>>
    decreases s.len(),
{
    if s.len() == 0 {
        Seq::empty()
    } else {
        proof {
            lemma_find_char(s, '\n', 0);
        }
        match find_char(s, '\n', 0) {
            Some(i) => seq![without_cr(s.take(i))] + lines_of(s.skip(i + 1)),
            None => seq![s],
        }
    }
}

/// The pieces of a text between the separators.
pub open spec fn fields_of(s: Seq<char>, sep: char) -> Seq<Seq<char>>
    decreases s.len(),
{
    proof {
        lemma_find_char(s, sep, 0);
    }
    match find_char(s, sep, 0) {
        Some(i) => seq![s.take(i)] + fields_of(s.skip(i + 1), sep),
        None => seq![s],
    }
}

/// Splits a text into its lines.
pub fn lines(s: &str) -> (r: Vec<String>)
    ensures
        texts(r@) == lines_of(s@),
{
    broadcast use lemma_texts_push;

    let chars = chars_of(s);
    let mut out: Vec<String> = Vec::new();
    let mut start: usize = 0;
    let len: usize = chars.len();
    proof {
        assert(s@.skip(0) =~= s@);
        assert(texts(out@) + lines_of(s@) =~= lines_of(s@));
    }
    while start < len
        invariant
            start <= len,
            len == chars@.len(),
            chars@ == s@,
            lines_of(s@) == texts(out@) + lines_of(s@.skip(start as int)),
        decreases len - start,
    {
        let ghost rest = s@.skip(start as int);
        proof {
            lemma_find_char_skip(s@, '\n', start as int);
            lemma_find_char(s@, '\n', start as int);
        }
        match find(chars.as_slice(), '\n', start) {
            Some(i) => {
                let end: usize = if i > start && chars[i - 1] == '\r' {
                    i - 1
                } else {
                    i
                };
                let line = text_of(slice_subrange(chars.as_slice(), start, end));
                proof {
                    assert(rest.take(i - start) =~= s@.subrange(start as int, i as int));
                    assert(line@ =~= without_cr(rest.take(i - start)));
                    assert(rest.skip(i - start + 1) =~= s@.skip(i + 1));
                    assert(texts(out@) + (seq![line@] + lines_of(s@.skip(i + 1))) =~= texts(
                        out@,
                    ).push(line@) + lines_of(s@.skip(i + 1)));
                }
                out.push(line);
                start = i + 1;
            },
            None => {
                let line = text_of(slice_subrange(chars.as_slice(), start, len));
                proof {
                    assert(line@ =~= rest);
                    assert(texts(out@) + seq![line@] =~= texts(out@).push(line@) + lines_of(
                        s@.skip(len as int),
                    ));
                }
                out.push(line);
                start = len;
            },
        }
    }
    proof {
        assert(texts(out@) + lines_of(s@.skip(start as int)) =~= texts(out@));
    }
    out
}

/// Splits a text at every separator.
pub fn fields(s: &str, sep: char) -> (r: Vec<String>)
    ensures
        texts(r@) == fields_of(s@, sep),
{
    broadcast use lemma_texts_push;

    let chars = chars_of(s);
    let mut out: Vec<String> = Vec::new();
    let mut start: usize = 0;
    let len: usize = chars.len();
    proof {
        assert(s@.skip(0) =~= s@);
        assert(texts(out@) + fields_of(s@, sep) =~= fields_of(s@, sep));
    }
    loop
        invariant
            start <= len,
            len == chars@.len(),
            chars@ == s@,
            fields_of(s@, sep) == texts(out@) + fields_of(s@.skip(start as int), sep),
        decreases len - start,
    {
        let ghost rest = s@.skip(start as int);
        proof {
            lemma_find_char_skip(s@, sep, start as int);
            lemma_find_char(s@, sep, start as int);
        }
        match find(chars.as_slice(), sep, start) {
            Some(i) => {
                let field = text_of(slice_subrange(chars.as_slice(), start, i));
                proof {
                    assert(field@ =~= rest.take(i - start));
                    assert(rest.skip(i - start + 1) =~= s@.skip(i + 1));
                    assert(texts(out@) + (seq![field@] + fields_of(s@.skip(i + 1), sep)) =~= texts(
                        out@,
                    ).push(field@) + fields_of(s@.skip(i + 1), sep));
                }
                out.push(field);
                start = i + 1;
            },
            None => {
                let field = text_of(slice_subrange(chars.as_slice(), start, len));
                proof {
                    assert(field@ =~= rest);
                    assert(texts(out@) + seq![field@] =~= texts(out@).push(field@));
                }
                out.push(field);
                return out;
            },
        }
    }
}

/// The texts one behind the other, with the separator between them.
pub open spec fn joined(parts: Seq<Seq<char>>, sep: Seq<char>) -> Seq<char>
    decreases parts.len(),
{
    if parts.len() == 0 {
        Seq::empty()
    } else if parts.len() == 1 {
        parts[0]
    } else {
        joined(parts.drop_last(), sep) + sep + parts.last()
    }
}

/// Joins texts by a separator.
pub fn join(parts: &Vec<String>, sep: &str) -> (r: String)
    ensures
        r@ == joined(texts(parts@), sep@),
{
    let ghost all = texts(parts@);
    if parts.len() == 0 {
        return String::new();
    }
    let mut out = parts[0].clone();
    let mut i: usize = 1;
    while i < parts.len()
        invariant
            1 <= i <= parts@.len(),
            all == texts(parts@),
            out@ == joined(all.take(i as int), sep@),
        decreases parts@.len() - i,
    {
        proof {
            assert(all.take(i + 1).drop_last() =~= all.take(i as int));
            assert(all.take(i + 1).last() == parts@[i as int]@);
        }
        out.append(sep);
        out.append(parts[i].as_str());
        i += 1;
    }
    proof {
        assert(all.take(all.len() as int) =~= all);
    }
    out
}

/// A text with no separator in it is one field.
pub proof fn lemma_single_field(s: Seq<char>, sep: char)
    requires
        !s.contains(sep),
    ensures
        fields_of(s, sep) == seq![s],
{
    lemma_find_char(s, sep, 0);
    if find_char(s, sep, 0) is Some {
        let i = find_char(s, sep, 0)->0;
        assert(s.contains(s[i]));
    }
}

/// A field in front.
pub proof fn lemma_first_field(head: Seq<char>, sep: char, tail: Seq<char>)
    requires
        !head.contains(sep),
    ensures
        fields_of(head + seq![sep] + tail, sep) == seq![head] + fields_of(tail, sep),
{
    let s = head + seq![sep] + tail;
    let at = head.len() as int;
    assert(s[at] == sep);
    assert forall|j: int| 0 <= j < at implies #[trigger] s[j] != sep by {
        assert(s[j] == head[j]);
        assert(head.contains(head[j]));
    }
    lemma_find_char_at(s, sep, 0, at);
    assert(s.take(at) =~= head);
    assert(s.skip(at + 1) =~= tail);
}

/// A text that neither begins nor ends in whitespace is kept.
pub proof fn lemma_trimmed_keeps(s: Seq<char>)
    requires
        s.len() > 0 ==> !is_whitespace(s[0]) && !is_whitespace(s.last()),
    ensures
        trimmed(s) == s,
{
}

/// The characters with Unicode's White_Space property, by their numbers.
pub open spec fn whitespace_numbers() -> Seq<int> {
    seq![
        0x9,
        0xa,
        0xb,
        0xc,
        0xd,
        0x20,
        0x85,
        0xa0,
        0x1680,
        0x2000,
        0x2001,
        0x2002,
        0x2003,
        0x2004,
        0x2005,
        0x2006,
        0x2007,
        0x2008,
        0x2009,
        0x200a,
        0x2028,
        0x2029,
        0x202f,
        0x205f,
        0x3000,
    ]
}

/// Whitespace is exactly the twenty-five characters with the White_Space property.
pub proof fn law_whitespace_is_a_list(c: char)
    ensures
        is_whitespace(c) <==> whitespace_numbers().contains(c as int),
{
    let n = c as int;
    let all = whitespace_numbers();
    if is_whitespace(c) {
        let at: int = if n <= 0xd {
            n - 9
        } else if n == 0x20 {
            5
        } else if n == 0x85 {
            6
        } else if n == 0xa0 {
            7
        } else if n == 0x1680 {
            8
        } else if n <= 0x200a {
            n - 0x2000 + 9
        } else if n == 0x2028 {
            20
        } else if n == 0x2029 {
            21
        } else if n == 0x202f {
            22
        } else if n == 0x205f {
            23
        } else {
            24
        };
        assert(all[at] == n);
    }
    if all.contains(n) {
        let at = choose|at: int| 0 <= at < all.len() && all[at] == n;
        assert(all.len() == 25);
    }
}

proof fn lemma_trimmed_start_part(s: Seq<char>) -> (from: int)
    ensures
        0 <= from <= s.len(),
        trimmed_start(s) == s.skip(from),
        forall|i: int| 0 <= i < from ==> is_whitespace(#[trigger] s[i]),
        from < s.len() ==> !is_whitespace(s[from]),
    decreases s.len(),
{
    if s.len() > 0 && is_whitespace(s[0]) {
        let rest = lemma_trimmed_start_part(s.skip(1));
        assert(s.skip(1).skip(rest) =~= s.skip(rest + 1));
        assert forall|i: int| 0 <= i < rest + 1 implies is_whitespace(#[trigger] s[i]) by {
            if i > 0 {
                assert(s.skip(1)[i - 1] == s[i]);
            }
        }
        if rest + 1 < s.len() {
            assert(s.skip(1)[rest] == s[rest + 1]);
        }
        rest + 1
    } else {
        assert(s.skip(0) =~= s);
        0
    }
}

proof fn lemma_trimmed_end_part(s: Seq<char>) -> (to: int)
    ensures
        0 <= to <= s.len(),
        trimmed_end(s) == s.take(to),
        forall|i: int| to <= i < s.len() ==> is_whitespace(#[trigger] s[i]),
        to > 0 ==> !is_whitespace(s[to - 1]),
    decreases s.len(),
{
    if s.len() > 0 && is_whitespace(s.last()) {
        let to = lemma_trimmed_end_part(s.drop_last());
        assert(s.drop_last().take(to) =~= s.take(to));
        assert forall|i: int| to <= i < s.len() implies is_whitespace(#[trigger] s[i]) by {
            if i < s.len() - 1 {
                assert(s.drop_last()[i] == s[i]);
            }
        }
        if to > 0 {
            assert(s.drop_last()[to - 1] == s[to - 1]);
        }
        to
    } else {
        assert(s.take(s.len() as int) =~= s);
        s.len() as int
    }
}

/// Trimming takes off whitespace and nothing else: what is left is a part of the text,
/// all around it is whitespace, and it neither begins nor ends in any.
pub proof fn law_trimming_takes_off_whitespace(s: Seq<char>) -> (ends: (int, int))
    ensures
        0 <= ends.0 <= ends.1 <= s.len(),
        trimmed(s) == s.subrange(ends.0, ends.1),
        forall|i: int|
            0 <= i < ends.0 || ends.1 <= i < s.len() ==> is_whitespace(#[trigger] s[i]),
        ends.0 < ends.1 ==> !is_whitespace(s[ends.0]) && !is_whitespace(s[ends.1 - 1]),
{
    let from = lemma_trimmed_start_part(s);
    let rest = s.skip(from);
    let to = lemma_trimmed_end_part(rest);
    assert(rest.take(to) =~= s.subrange(from, from + to));
    assert forall|i: int| 0 <= i < from || from + to <= i < s.len() implies is_whitespace(
        #[trigger] s[i],
    ) by {
        if i >= from + to {
            assert(rest[i - from] == s[i]);
        }
    }
    if to > 0 {
        assert(rest[to - 1] == s[from + to - 1]);
        assert(rest[0] == s[from]);
    }
    (from, from + to)
}

/// Splitting loses nothing but the pattern: the two parts with the pattern between them
/// are the text, and the pattern stands nowhere before. A text is not split exactly
/// where the pattern stands nowhere in it.
pub proof fn law_split_at_the_first_pattern(s: Seq<char>, pat: Seq<char>)
    ensures
        match split_text(s, pat) {
            Some((left, right)) => left + pat + right == s && forall|j: int|
                0 <= j < left.len() ==> #[trigger] s.subrange(j, j + pat.len()) != pat,
            None => forall|j: int|
                0 <= j && j + pat.len() <= s.len() ==> #[trigger] s.subrange(j, j + pat.len())
                    != pat,
        },
{
    lemma_find_text(s, pat, 0);
    match find_text(s, pat, 0) {
        Some(i) => {
            assert(s.take(i) + pat + s.skip(i + pat.len()) =~= s) by {
                assert(s.subrange(i, i + pat.len()) =~= pat);
                assert forall|k: int| i <= k < i + pat.len() implies s[k] == pat[k - i] by {
                    assert(s.subrange(i, i + pat.len())[k - i] == s[k]);
                }
            }
            assert forall|j: int| 0 <= j < s.take(i).len() implies #[trigger] s.subrange(
                j,
                j + pat.len(),
            ) != pat by {
                assert(!occurs_at(s, pat, j));
            }
        },
        None => {
            assert forall|j: int| 0 <= j && j + pat.len() <= s.len() implies #[trigger] s.subrange(
                j,
                j + pat.len(),
            ) != pat by {
                assert(!occurs_at(s, pat, j));
            }
        },
    }
}

/// A field in front, and the texts joined behind it.
proof fn lemma_joined_front(first: Seq<char>, rest: Seq<Seq<char>>, sep: Seq<char>)
    requires
        rest.len() > 0,
    ensures
        joined(seq![first] + rest, sep) == first + sep + joined(rest, sep),
    decreases rest.len(),
{
    let all = seq![first] + rest;
    assert(all.last() == rest.last());
    assert(all.drop_last() =~= seq![first] + rest.drop_last());
    if rest.len() > 1 {
        lemma_joined_front(first, rest.drop_last(), sep);
        assert(first + sep + joined(rest.drop_last(), sep) + sep + rest.last() =~= first + sep + (
        joined(rest.drop_last(), sep) + sep + rest.last()));
    } else {
        assert(rest.drop_last() =~= Seq::<Seq<char>>::empty());
        assert(all.drop_last() =~= seq![first]);
        assert(joined(seq![first], sep) == first);
        assert(joined(rest, sep) == rest.last());
    }
}

/// Joining puts the separator between texts, and nothing else.
pub proof fn law_joining_puts_separators_between(
    parts: Seq<Seq<char>>,
    last: Seq<char>,
    sep: Seq<char>,
)
    ensures
        joined(Seq::empty(), sep) == Seq::<char>::empty(),
        joined(seq![last], sep) == last,
        parts.len() > 0 ==> joined(parts.push(last), sep) == joined(parts, sep) + sep + last,
{
    assert(parts.push(last).drop_last() =~= parts);
}

/// Splitting into fields loses nothing but the separators: no field holds one, and the
/// fields with one between each two are the text.
pub proof fn law_fields_join_again(s: Seq<char>, sep: char)
    ensures
        fields_of(s, sep).len() > 0,
        joined(fields_of(s, sep), seq![sep]) == s,
        forall|i: int|
            0 <= i < fields_of(s, sep).len() ==> !(#[trigger] fields_of(s, sep)[i]).contains(sep),
    decreases s.len(),
{
    lemma_find_char(s, sep, 0);
    match find_char(s, sep, 0) {
        Some(at) => {
            let first = s.take(at);
            let rest = s.skip(at + 1);
            law_fields_join_again(rest, sep);
            lemma_joined_front(first, fields_of(rest, sep), seq![sep]);
            assert(first + seq![sep] + rest =~= s);
            assert(!first.contains(sep)) by {
                assert forall|j: int| 0 <= j < first.len() implies first[j] != sep by {
                    assert(first[j] == s[j]);
                }
            }
            assert forall|i: int| 0 <= i < fields_of(s, sep).len() implies !(
            #[trigger] fields_of(s, sep)[i]).contains(sep) by {
                if i > 0 {
                    assert(fields_of(s, sep)[i] == fields_of(rest, sep)[i - 1]);
                }
            }
        },
        None => {},
    }
}

/// Texts that do not hold the separator are the fields of what joining them by it gives.
pub proof fn law_joined_fields_split_again(parts: Seq<Seq<char>>, sep: char)
    requires
        parts.len() > 0,
        forall|i: int| 0 <= i < parts.len() ==> !(#[trigger] parts[i]).contains(sep),
    ensures
        fields_of(joined(parts, seq![sep]), sep) == parts,
    decreases parts.len(),
{
    let first = parts[0];
    let rest = parts.skip(1);
    assert(parts =~= seq![first] + rest);
    assert(!first.contains(sep));
    if rest.len() > 0 {
        assert forall|i: int| 0 <= i < rest.len() implies !(#[trigger] rest[i]).contains(sep) by {
            assert(rest[i] == parts[i + 1]);
        }
        law_joined_fields_split_again(rest, sep);
        lemma_joined_front(first, rest, seq![sep]);
        lemma_first_field(first, sep, joined(rest, seq![sep]));
    } else {
        assert(rest =~= Seq::<Seq<char>>::empty());
        assert(parts =~= seq![first]);
        lemma_single_field(first, sep);
    }
}

/// The fields of two texts with a separator between them are those of the one and then
/// those of the other.
pub proof fn lemma_fields_concat(a: Seq<char>, sep: char, b: Seq<char>)
    ensures
        fields_of(a + seq![sep] + b, sep) == fields_of(a, sep) + fields_of(b, sep),
    decreases a.len(),
{
    lemma_find_char(a, sep, 0);
    match find_char(a, sep, 0) {
        Some(at) => {
            let first = a.take(at);
            let rest = a.skip(at + 1);
            assert(!first.contains(sep)) by {
                assert forall|j: int| 0 <= j < first.len() implies first[j] != sep by {
                    assert(first[j] == a[j]);
                }
            }
            lemma_fields_concat(rest, sep, b);
            lemma_first_field(first, sep, rest + seq![sep] + b);
            assert(a + seq![sep] + b =~= first + seq![sep] + (rest + seq![sep] + b));
            assert(seq![first] + (fields_of(rest, sep) + fields_of(b, sep)) =~= fields_of(a, sep)
                + fields_of(b, sep));
        },
        None => {
            assert(!a.contains(sep));
            lemma_first_field(a, sep, b);
        },
    }
}

/// The texts of a list are those of its strings, one for one.
pub proof fn law_texts_are_one_for_one(list: Seq<String>)
    ensures
        texts(list).len() == list.len(),
        forall|i: int| 0 <= i < list.len() ==> #[trigger] texts(list)[i] == list[i]@,
{
}

/// The first place of a character from a place on, and the last one before a place.
pub proof fn law_characters_are_found(s: Seq<char>, c: char, at: int)
    requires
        0 <= at <= s.len(),
    ensures
        match find_char(s, c, at) {
            Some(i) => at <= i < s.len() && s[i] == c && forall|j: int|
                at <= j < i ==> #[trigger] s[j] != c,
            None => forall|j: int| at <= j < s.len() ==> #[trigger] s[j] != c,
        },
        match rfind_char(s, c, at) {
            Some(i) => 0 <= i < at && s[i] == c && forall|j: int|
                i < j < at ==> #[trigger] s[j] != c,
            None => forall|j: int| 0 <= j < at ==> #[trigger] s[j] != c,
        },
{
    lemma_find_char(s, c, at);
    lemma_rfind_char(s, c, at);
}

/// A text stands at a place exactly where it is what follows there, and it is found at the
/// first such place.
pub proof fn law_texts_are_found(s: Seq<char>, pat: Seq<char>, front: Seq<char>, rest: Seq<char>)
    ensures
        s == front + pat + rest ==> occurs_at(s, pat, front.len() as int),
        s == front + pat + rest && (forall|j: int|
            0 <= j < front.len() ==> #[trigger] s.subrange(j, j + pat.len()) != pat) ==> find_text(
            s,
            pat,
            0,
        ) == Some(front.len() as int),
{
    if s == front + pat + rest {
        let at = front.len() as int;
        assert(s.subrange(at, at + pat.len()) =~= pat);
        if forall|j: int|
            0 <= j < front.len() ==> #[trigger] s.subrange(j, j + pat.len()) != pat {
            lemma_find_text(s, pat, 0);
            match find_text(s, pat, 0) {
                Some(i) => {
                    if i < at {
                        assert(s.subrange(i, i + pat.len()) == pat);
                    }
                    if i > at {
                        assert(!occurs_at(s, pat, at));
                    }
                },
                None => {
                    assert(!occurs_at(s, pat, at));
                },
            }
        }
    }
}

/// Texts that may be missing, that come in pairs, or that tell of a success or a failure
/// are viewed as they are.
pub proof fn law_texts_are_viewed_as_they_are(
    one: Option<String>,
    pair: Option<(String, String)>,
    result: Result<String, String>,
)
    ensures
        one is None <==> text_option(one) is None,
        one is Some ==> text_option(one) == Some(one->0@),
        pair is None <==> pair_option(pair) is None,
        pair is Some ==> pair_option(pair) == Some(((pair->0).0@, (pair->0).1@)),
        result is Ok ==> text_result(result) == Ok::<Seq<char>, Seq<char>>(result->Ok_0@),
        result is Err ==> text_result(result) == Err::<Seq<char>, Seq<char>>(result->Err_0@),
{
}

/// The lines of two texts, one behind the other, are the lines of both, where a line ends
/// between them.
pub proof fn law_lines_follow_lines(s: Seq<char>, t: Seq<char>)
    requires
        s.len() == 0 || s.last() == '\n',
    ensures
        lines_of(s + t) == lines_of(s) + lines_of(t),
    decreases s.len(),
{
    if s.len() == 0 {
        assert(s + t =~= t);
        assert(lines_of(s) + lines_of(t) =~= lines_of(t));
    } else {
        lemma_find_char(s, '\n', 0);
        assert(s[s.len() - 1] == '\n');
        let i = find_char(s, '\n', 0)->0;
        let whole = s + t;
        assert forall|j: int| 0 <= j < i implies #[trigger] whole[j] != '\n' by {
            assert(whole[j] == s[j]);
        }
        lemma_find_char_at(whole, '\n', 0, i);
        let rest = s.skip(i + 1);
        assert(whole.take(i) =~= s.take(i));
        assert(whole.skip(i + 1) =~= rest + t);
        assert(rest.len() > 0 ==> rest.last() == s.last());
        law_lines_follow_lines(rest, t);
        let first = seq![without_cr(s.take(i))];
        assert(first + (lines_of(rest) + lines_of(t)) =~= first + lines_of(rest) + lines_of(t));
    }
}

} // verus!
