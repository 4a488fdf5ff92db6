//! The content of files, line by line.

use vstd::prelude::*;

use crate::text::{
    find_char, law_lines_follow_lines, lemma_find_char, lemma_find_char_at, lines, lines_of,
    text_option, texts, without_cr,
};

verus! {

/// The lines of a content; none where there is no content.
pub open spec fn content_lines(content: Option<Seq<char>>) -> Seq<Seq<char>> {
    match content {
        Some(content) => lines_of(content),
        None => Seq::empty(),
    }
}

/// Splits file content into its lines.
pub fn into_lines(content: Option<String>) -> (r: Vec<String>)
    ensures
        texts(r@) == content_lines(text_option(content)),
{
    match content {
        Some(content) => lines(content.as_str()),
        None => {
            let none: Vec<String> = Vec::new();
            proof {
                assert(texts(none@) =~= Seq::<Seq<char>>::empty());
            }
            none
        },
    }
}

/// The lines, each with its end behind it: a line feed, or a carriage return and a line
/// feed.
pub open spec fn terminated(lines: Seq<Seq<char>>, carriage_return: bool) -> Seq<char>
    decreases lines.len(),
{
    let end = if carriage_return {
        seq!['\r', '\n']
    } else {
        seq!['\n']
    };
    if lines.len() == 0 {
        Seq::empty()
    } else {
        lines[0] + end + terminated(lines.skip(1), carriage_return)
    }
}

/// A text that can be told from its end: it holds no line feed, nor ends in a carriage
/// return where that is no part of the end.
pub open spec fn is_line(line: Seq<char>, carriage_return: bool) -> bool {
    &&& !line.contains('\n')
    &&& !carriage_return && line.len() > 0 ==> line.last() != '\r'
}

proof fn lemma_first_line(line: Seq<char>, carriage_return: bool, rest: Seq<char>)
    requires
        is_line(line, carriage_return),
    ensures
        lines_of(
            line + (if carriage_return {
                seq!['\r', '\n']
            } else {
                seq!['\n']
            }) + rest,
        ) == seq![line] + lines_of(rest),
{
    let end = if carriage_return {
        seq!['\r', '\n']
    } else {
        seq!['\n']
    };
    let s = line + end + rest;
    let at = line.len() + end.len() - 1;
    assert(s[at] == '\n');
    assert forall|j: int| 0 <= j < at implies #[trigger] s[j] != '\n' by {
        if j < line.len() {
            assert(s[j] == line[j]);
            assert(line.contains(line[j]));
        }
    }
    lemma_find_char_at(s, '\n', 0, at);
    assert(s.skip(at + 1) =~= rest);
    if carriage_return {
        assert(s.take(at) =~= line.push('\r'));
        assert(line.push('\r').drop_last() =~= line);
    } else {
        assert(s.take(at) =~= line);
    }
}

/// Lines are read back from a text that holds each with its end, whichever the end is,
/// and the last one also without it, where it is not empty.
pub proof fn law_lines_read_back(lines: Seq<Seq<char>>, carriage_return: bool, last: Seq<char>)
    requires
        forall|i: int| 0 <= i < lines.len() ==> is_line(#[trigger] lines[i], carriage_return),
        !last.contains('\n'),
    ensures
        content_lines(Some(terminated(lines, carriage_return))) == lines,
        last.len() > 0 ==> content_lines(Some(terminated(lines, carriage_return) + last))
            == lines.push(last),
    decreases lines.len(),
{
    if lines.len() == 0 {
        assert(Seq::<char>::empty() + last =~= last);
        lemma_find_char(last, '\n', 0);
        if find_char(last, '\n', 0) is Some {
            assert(last.contains(last[find_char(last, '\n', 0)->0]));
        }
        assert(lines =~= Seq::<Seq<char>>::empty());
        assert(lines.push(last) =~= seq![last]);
    } else {
        let rest = lines.skip(1);
        let tail = terminated(rest, carriage_return);
        assert forall|i: int| 0 <= i < rest.len() implies is_line(
            #[trigger] rest[i],
            carriage_return,
        ) by {
            assert(rest[i] == lines[i + 1]);
        }
        law_lines_read_back(rest, carriage_return, last);
        assert(is_line(lines[0], carriage_return));
        lemma_first_line(lines[0], carriage_return, tail);
        assert(seq![lines[0]] + rest =~= lines);
        lemma_first_line(lines[0], carriage_return, tail + last);
        let end = if carriage_return {
            seq!['\r', '\n']
        } else {
            seq!['\n']
        };
        assert(lines[0] + end + tail + last =~= lines[0] + end + (tail + last));
        assert(seq![lines[0]] + rest.push(last) =~= lines.push(last));
    }
}

/// No line holds a line feed.
pub proof fn law_lines_hold_no_line_feed(content: Seq<char>, i: int)
    requires
        0 <= i < content_lines(Some(content)).len(),
    ensures
        !content_lines(Some(content))[i].contains('\n'),
    decreases content.len(),
{
    lemma_find_char(content, '\n', 0);
    match find_char(content, '\n', 0) {
        Some(at) => {
            let line = content.take(at);
            assert(!without_cr(line).contains('\n')) by {
                assert forall|j: int| 0 <= j < line.len() implies line[j] != '\n' by {
                    assert(line[j] == content[j]);
                }
            }
            if i > 0 {
                law_lines_hold_no_line_feed(content.skip(at + 1), i - 1);
            }
        },
        None => {},
    }
}

/// Where there is no content there are no lines, and an empty content has none.
pub proof fn law_no_content_has_no_lines()
    ensures
        content_lines(None).len() == 0,
        content_lines(Some(Seq::empty())).len() == 0,
{
}

/// The first line is what stands before its end, and the other lines are those of what
/// stands behind it, whichever ends they have.
pub proof fn law_first_line_stands_before_its_end(line: Seq<char>, rest: Seq<char>)
    requires
        !line.contains('\n'),
    ensures
        content_lines(Some(line + seq!['\r', '\n'] + rest)) == seq![line] + content_lines(
            Some(rest),
        ),
        line.len() > 0 && line.last() == '\r' || content_lines(Some(line + seq!['\n'] + rest))
            == seq![line] + content_lines(Some(rest)),
{
    lemma_first_line(line, true, rest);
    if line.len() == 0 || line.last() != '\r' {
        lemma_first_line(line, false, rest);
    }
}

/// A line that is printed behind others comes last.
pub proof fn law_printed_lines_come_last(output: Seq<char>, line: Seq<char>)
    requires
        output.len() == 0 || output.last() == '\n',
        is_line(line, false),
    ensures
        lines_of(output + line + seq!['\n']) == lines_of(output).push(line),
{
    let more = line + seq!['\n'];
    assert(output + line + seq!['\n'] =~= output + more);
    law_lines_follow_lines(output, more);
    assert(more + Seq::<char>::empty() =~= more);
    law_first_line_stands_before_its_end(line, Seq::empty());
    assert(lines_of(more) =~= seq![line]);
    assert(lines_of(output) + seq![line] =~= lines_of(output).push(line));
}

} // verus!
