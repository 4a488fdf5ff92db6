//! Deep comparison of two reports on one file.

use vstd::prelude::*;

use crate::difft::{status_name, status_text, Change, DiffLine, DifftFile, Side};
use crate::number::{decimal, write_decimal};
use crate::text::{same_text, text_option};

verus! {

/// The text in quotes, with what cannot be printed escaped.
pub uninterp spec fn quoted(s: Seq<char>) -> Seq<char>;

/// Formats a text by `str`'s `Debug`. Which characters it escapes, and how, follows
/// Unicode's tables and is not stated; the result is named as a function of the text.
#[verifier::external_body]
fn quote(s: &str) -> (r: String)
    ensures
        r@ == quoted(s@),
{
    format!("{:?}", s)
}

/// An optional number, as `Some(n)` or `None`.
pub open spec fn option_text(n: Option<u32>) -> Seq<char> {
    match n {
        Some(n) => "Some("@ + decimal(n as nat) + ")"@,
        None => "None"@,
    }
}

/// Writes an optional number.
fn write_option(n: Option<u32>) -> (r: String)
    ensures
        r@ == option_text(n),
{
    match n {
        Some(n) => "Some(".to_owned().concat(write_decimal(n as u64).as_str()).concat(")"),
        None => "None".to_owned(),
    }
}

/// Two differing values, behind what they are values of.
pub open spec fn versus(what: Seq<char>, left: Seq<char>, right: Seq<char>) -> Seq<char> {
    what + left + " vs "@ + right
}

/// Writes two differing values.
fn write_versus(what: String, left: String, right: String) -> (r: String)
    ensures
        r@ == versus(what@, left@, right@),
{
    what.concat(left.as_str()).concat(" vs ").concat(right.as_str())
}

/// Writes two differing numbers.
fn write_versus_numbers(what: String, left: u64, right: u64) -> (r: String)
    ensures
        r@ == versus(what@, decimal(left as nat), decimal(right as nat)),
{
    write_versus(what, write_decimal(left), write_decimal(right))
}

/// One side of a line of a chunk.
pub open spec fn side_place(chunk: nat, line: nat, side: Seq<char>) -> Seq<char> {
    "chunk["@ + decimal(chunk) + "].line["@ + decimal(line) + "]."@ + side
}

/// Writes where a side stands.
fn write_side_place(chunk: usize, line: usize, side: &str) -> (r: String)
    ensures
        r@ == side_place(chunk as nat, line as nat, side@),
{
    "chunk[".to_owned().concat(write_decimal(chunk as u64).as_str()).concat("].line[").concat(
        write_decimal(line as u64).as_str(),
    ).concat("].").concat(side)
}

/// One change of a side.
pub open spec fn change_place(place: Seq<char>, i: nat) -> Seq<char> {
    place + ".changes["@ + decimal(i) + "]"@
}

/// Writes where a change stands.
fn write_change_place(place: String, i: usize) -> (r: String)
    ensures
        r@ == change_place(place@, i as nat),
{
    place.concat(".changes[").concat(write_decimal(i as u64).as_str()).concat("]")
}

/// What first tells two changes apart.
pub open spec fn change_difference(c: Change, p: Change, place: Seq<char>) -> Option<Seq<char>> {
    if c.start != p.start {
        Some(versus(place + ".start: "@, decimal(c.start as nat), decimal(p.start as nat)))
    } else if c.end != p.end {
        Some(versus(place + ".end: "@, decimal(c.end as nat), decimal(p.end as nat)))
    } else if c.content@ != p.content@ {
        Some(versus(place + ".content: "@, quoted(c.content@), quoted(p.content@)))
    } else if c.highlight@ != p.highlight@ {
        Some(versus(place + ".highlight: "@, quoted(c.highlight@), quoted(p.highlight@)))
    } else {
        None
    }
}

/// What first tells two rows of changes apart, from the `i`th on.
pub open spec fn changes_difference(
    c: Seq<Change>,
    p: Seq<Change>,
    place: Seq<char>,
    i: int,
) -> Option<Seq<char>>
    decreases c.len() - i,
{
    if i < 0 || i >= c.len() {
        None
    } else {
        match change_difference(c[i], p[i], change_place(place, i as nat)) {
            Some(d) => Some(d),
            None => changes_difference(c, p, place, i + 1),
        }
    }
}

/// What first tells two sides apart.
pub open spec fn side_difference(c: Side, p: Side, place: Seq<char>) -> Option<Seq<char>> {
    if c.line_number != p.line_number {
        Some(
            versus(
                place + ".line_number: "@,
                decimal(c.line_number as nat),
                decimal(p.line_number as nat),
            ),
        )
    } else if c.changes@.len() != p.changes@.len() {
        Some(
            versus(
                place + ".changes count: "@,
                decimal(c.changes@.len()),
                decimal(p.changes@.len()),
            ),
        )
    } else {
        changes_difference(c.changes@, p.changes@, place, 0)
    }
}

/// What first tells two sides apart, each of which may be missing.
pub open spec fn optional_side_difference(
    c: Option<Side>,
    p: Option<Side>,
    place: Seq<char>,
) -> Option<Seq<char>> {
    match (c, p) {
        (None, None) => None,
        (Some(_), None) => Some(place + ": present vs absent"@),
        (None, Some(_)) => Some(place + ": absent vs present"@),
        (Some(c), Some(p)) => side_difference(c, p, place),
    }
}

/// What first tells two lines of a chunk apart: the left side before the right.
pub open spec fn line_difference(c: DiffLine, p: DiffLine, chunk: nat, line: nat) -> Option<
    Seq<char>,
> {
    match optional_side_difference(c.lhs, p.lhs, side_place(chunk, line, "lhs"@)) {
        Some(d) => Some(d),
        None => optional_side_difference(c.rhs, p.rhs, side_place(chunk, line, "rhs"@)),
    }
}

/// What first tells the lines of two chunks apart, from the `line`th on.
pub open spec fn lines_difference(
    c: Seq<DiffLine>,
    p: Seq<DiffLine>,
    chunk: nat,
    line: int,
) -> Option<Seq<char>>
    decreases c.len() - line,
{
    if line < 0 || line >= c.len() {
        None
    } else {
        match line_difference(c[line], p[line], chunk, line as nat) {
            Some(d) => Some(d),
            None => lines_difference(c, p, chunk, line + 1),
        }
    }
}

/// What first tells two chunks apart.
pub open spec fn chunk_difference(c: Seq<DiffLine>, p: Seq<DiffLine>, chunk: nat) -> Option<
    Seq<char>,
> {
    if c.len() != p.len() {
        Some(
            versus(
                "chunk["@ + decimal(chunk) + "] line count: "@,
                decimal(c.len()),
                decimal(p.len()),
            ),
        )
    } else {
        lines_difference(c, p, chunk, 0)
    }
}

/// What first tells two lists of chunks apart, from the `chunk`th on.
pub open spec fn chunks_difference(
    c: Seq<Vec<DiffLine>>,
    p: Seq<Vec<DiffLine>>,
    chunk: int,
) -> Option<Seq<char>>
    decreases c.len() - chunk,
{
    if chunk < 0 || chunk >= c.len() {
        None
    } else {
        match chunk_difference(c[chunk]@, p[chunk]@, chunk as nat) {
            Some(d) => Some(d),
            None => chunks_difference(c, p, chunk + 1),
        }
    }
}

/// A pair of aligned lines.
pub open spec fn pair_text(pair: (Option<u32>, Option<u32>)) -> Seq<char> {
    "("@ + option_text(pair.0) + ","@ + option_text(pair.1) + ")"@
}

/// Writes a pair of aligned lines.
fn write_pair(pair: (Option<u32>, Option<u32>)) -> (r: String)
    ensures
        r@ == pair_text(pair),
{
    "(".to_owned().concat(write_option(pair.0).as_str()).concat(",").concat(
        write_option(pair.1).as_str(),
    ).concat(")")
}

/// What first tells two alignments apart, from the `i`th pair on.
pub open spec fn aligned_difference(
    c: Seq<(Option<u32>, Option<u32>)>,
    p: Seq<(Option<u32>, Option<u32>)>,
    i: int,
) -> Option<Seq<char>>
    decreases c.len() - i,
{
    if i < 0 || i >= c.len() {
        None
    } else if c[i] != p[i] {
        Some(
            versus(
                "aligned_lines["@ + decimal(i as nat) + "]: "@,
                pair_text(c[i]),
                pair_text(p[i]),
            ),
        )
    } else {
        aligned_difference(c, p, i + 1)
    }
}

/// What first tells two reports on a file apart. The path is not compared.
pub open spec fn file_difference(c: DifftFile, p: DifftFile) -> Option<Seq<char>> {
    if c.status != p.status {
        Some(versus("status: "@, status_text(c.status), status_text(p.status)))
    } else if c.language@ != p.language@ {
        Some(versus("language: "@, quoted(c.language@), quoted(p.language@)))
    } else if c.aligned_lines@.len() != p.aligned_lines@.len() {
        Some(
            versus(
                "aligned_lines count: "@,
                decimal(c.aligned_lines@.len()),
                decimal(p.aligned_lines@.len()),
            ),
        )
    } else if aligned_difference(c.aligned_lines@, p.aligned_lines@, 0) is Some {
        aligned_difference(c.aligned_lines@, p.aligned_lines@, 0)
    } else if c.chunks@.len() != p.chunks@.len() {
        Some(versus("chunk count: "@, decimal(c.chunks@.len()), decimal(p.chunks@.len())))
    } else {
        chunks_difference(c.chunks@, p.chunks@, 0)
    }
}

/// Compares two changes.
fn compare_changes(c: &Change, p: &Change, place: &str, i: usize) -> (r: Option<String>)
    ensures
        text_option(r) == change_difference(*c, *p, change_place(place@, i as nat)),
{
    if c.start != p.start {
        let what = write_change_place(place.to_owned(), i).concat(".start: ");
        return Some(write_versus_numbers(what, c.start as u64, p.start as u64));
    }
    if c.end != p.end {
        let what = write_change_place(place.to_owned(), i).concat(".end: ");
        return Some(write_versus_numbers(what, c.end as u64, p.end as u64));
    }
    if !same_text(c.content.as_str(), p.content.as_str()) {
        let what = write_change_place(place.to_owned(), i).concat(".content: ");
        return Some(write_versus(what, quote(c.content.as_str()), quote(p.content.as_str())));
    }
    if !same_text(c.highlight.as_str(), p.highlight.as_str()) {
        let what = write_change_place(place.to_owned(), i).concat(".highlight: ");
        return Some(write_versus(what, quote(c.highlight.as_str()), quote(p.highlight.as_str())));
    }
    None
}

/// Compares two sides of a line, and describes the first difference.
pub fn deep_compare_sides(
    cs: &Side,
    ps: &Side,
    chunk_idx: usize,
    line_idx: usize,
    side_name: &str,
) -> (r: Option<String>)
    ensures
        text_option(r) == side_difference(
            *cs,
            *ps,
            side_place(chunk_idx as nat, line_idx as nat, side_name@),
        ),
{
    let place = write_side_place(chunk_idx, line_idx, side_name);
    if cs.line_number != ps.line_number {
        return Some(
            write_versus_numbers(
                place.concat(".line_number: "),
                cs.line_number as u64,
                ps.line_number as u64,
            ),
        );
    }
    if cs.changes.len() != ps.changes.len() {
        return Some(
            write_versus_numbers(
                place.concat(".changes count: "),
                cs.changes.len() as u64,
                ps.changes.len() as u64,
            ),
        );
    }
    let mut i: usize = 0;
    while i < cs.changes.len()
        invariant
            i <= cs.changes@.len(),
            cs.changes@.len() == ps.changes@.len(),
            place@ == side_place(chunk_idx as nat, line_idx as nat, side_name@),
            side_difference(*cs, *ps, place@) == changes_difference(
                cs.changes@,
                ps.changes@,
                place@,
                i as int,
            ),
        decreases cs.changes@.len() - i,
    {
        let found = compare_changes(&cs.changes[i], &ps.changes[i], place.as_str(), i);
        if found.is_some() {
            return found;
        }
        i += 1;
    }
    None
}

/// Compares two sides that may be missing.
fn compare_optional_sides(
    c: &Option<Side>,
    p: &Option<Side>,
    chunk: usize,
    line: usize,
    side: &str,
) -> (r: Option<String>)
    ensures
        text_option(r) == optional_side_difference(
            *c,
            *p,
            side_place(chunk as nat, line as nat, side@),
        ),
{
    match (c, p) {
        (None, None) => None,
        (Some(_), None) => Some(write_side_place(chunk, line, side).concat(": present vs absent")),
        (None, Some(_)) => Some(write_side_place(chunk, line, side).concat(": absent vs present")),
        (Some(c), Some(p)) => deep_compare_sides(c, p, chunk, line, side),
    }
}

/// Compares two chunks.
fn compare_chunks(c: &Vec<DiffLine>, p: &Vec<DiffLine>, chunk: usize) -> (r: Option<String>)
    ensures
        text_option(r) == chunk_difference(c@, p@, chunk as nat),
{
    if c.len() != p.len() {
        let what = "chunk[".to_owned().concat(write_decimal(chunk as u64).as_str()).concat(
            "] line count: ",
        );
        return Some(write_versus_numbers(what, c.len() as u64, p.len() as u64));
    }
    let mut i: usize = 0;
    while i < c.len()
        invariant
            i <= c@.len(),
            c@.len() == p@.len(),
            chunk_difference(c@, p@, chunk as nat) == lines_difference(
                c@,
                p@,
                chunk as nat,
                i as int,
            ),
        decreases c@.len() - i,
    {
        let left = compare_optional_sides(&c[i].lhs, &p[i].lhs, chunk, i, "lhs");
        if left.is_some() {
            return left;
        }
        let right = compare_optional_sides(&c[i].rhs, &p[i].rhs, chunk, i, "rhs");
        if right.is_some() {
            return right;
        }
        i += 1;
    }
    None
}

/// Whether two pairs of aligned lines are the same.
fn same_pair(a: (Option<u32>, Option<u32>), b: (Option<u32>, Option<u32>)) -> (r: bool)
    ensures
        r == (a == b),
{
    let left = match (a.0, b.0) {
        (Some(x), Some(y)) => x == y,
        (None, None) => true,
        _ => false,
    };
    let right = match (a.1, b.1) {
        (Some(x), Some(y)) => x == y,
        (None, None) => true,
        _ => false,
    };
    left && right
}

/// Compares two reports on a file in every field but the path, and describes the first
/// difference.
pub fn deep_compare_files(c: &DifftFile, p: &DifftFile) -> (r: Option<String>)
    ensures
        text_option(r) == file_difference(*c, *p),
{
    if c.status != p.status {
        return Some(
            write_versus("status: ".to_owned(), status_name(c.status), status_name(p.status)),
        );
    }
    if !same_text(c.language.as_str(), p.language.as_str()) {
        return Some(
            write_versus(
                "language: ".to_owned(),
                quote(c.language.as_str()),
                quote(p.language.as_str()),
            ),
        );
    }
    if c.aligned_lines.len() != p.aligned_lines.len() {
        return Some(
            write_versus_numbers(
                "aligned_lines count: ".to_owned(),
                c.aligned_lines.len() as u64,
                p.aligned_lines.len() as u64,
            ),
        );
    }
    let ghost aligned = aligned_difference(c.aligned_lines@, p.aligned_lines@, 0);
    let mut i: usize = 0;
    while i < c.aligned_lines.len()
        invariant
            i <= c.aligned_lines@.len(),
            c.aligned_lines@.len() == p.aligned_lines@.len(),
            c.status == p.status,
            c.language@ == p.language@,
            aligned == aligned_difference(c.aligned_lines@, p.aligned_lines@, 0),
            aligned == aligned_difference(c.aligned_lines@, p.aligned_lines@, i as int),
        decreases c.aligned_lines@.len() - i,
    {
        let left = c.aligned_lines[i];
        let right = p.aligned_lines[i];
        if !same_pair(left, right) {
            let what = "aligned_lines[".to_owned().concat(write_decimal(i as u64).as_str()).concat(
                "]: ",
            );
            return Some(write_versus(what, write_pair(left), write_pair(right)));
        }
        i += 1;
    }
    if c.chunks.len() != p.chunks.len() {
        return Some(
            write_versus_numbers(
                "chunk count: ".to_owned(),
                c.chunks.len() as u64,
                p.chunks.len() as u64,
            ),
        );
    }
    let mut k: usize = 0;
    while k < c.chunks.len()
        invariant
            k <= c.chunks@.len(),
            c.chunks@.len() == p.chunks@.len(),
            file_difference(*c, *p) == chunks_difference(c.chunks@, p.chunks@, k as int),
        decreases c.chunks@.len() - k,
    {
        let found = compare_chunks(&c.chunks[k], &p.chunks[k], k);
        if found.is_some() {
            return found;
        }
        k += 1;
    }
    None
}

/// Two changes hold the same.
pub open spec fn same_change(a: Change, b: Change) -> bool {
    &&& a.start == b.start
    &&& a.end == b.end
    &&& a.content@ == b.content@
    &&& a.highlight@ == b.highlight@
}

/// Two sides hold the same.
pub open spec fn same_side(a: Side, b: Side) -> bool {
    &&& a.line_number == b.line_number
    &&& a.changes@.len() == b.changes@.len()
    &&& forall|i: int|
        0 <= i < a.changes@.len() ==> #[trigger] same_change(a.changes@[i], b.changes@[i])
}

/// Two sides are both missing, or hold the same.
pub open spec fn same_optional_side(a: Option<Side>, b: Option<Side>) -> bool {
    match (a, b) {
        (Some(a), Some(b)) => same_side(a, b),
        (None, None) => true,
        _ => false,
    }
}

/// Two lines hold the same.
pub open spec fn same_line(a: DiffLine, b: DiffLine) -> bool {
    same_optional_side(a.lhs, b.lhs) && same_optional_side(a.rhs, b.rhs)
}

/// Two chunks hold the same.
pub open spec fn same_chunk(a: Seq<DiffLine>, b: Seq<DiffLine>) -> bool {
    &&& a.len() == b.len()
    &&& forall|i: int| 0 <= i < a.len() ==> #[trigger] same_line(a[i], b[i])
}

/// Two reports hold the same in every field but the path.
pub open spec fn same_report(a: DifftFile, b: DifftFile) -> bool {
    &&& a.status == b.status
    &&& a.language@ == b.language@
    &&& a.aligned_lines@ == b.aligned_lines@
    &&& a.chunks@.len() == b.chunks@.len()
    &&& forall|i: int|
        0 <= i < a.chunks@.len() ==> #[trigger] same_chunk(a.chunks@[i]@, b.chunks@[i]@)
}

proof fn lemma_changes_same(c: Seq<Change>, p: Seq<Change>, place: Seq<char>, i: int)
    requires
        0 <= i,
    ensures
        changes_difference(c, p, place, i) is None <==> (forall|j: int|
            i <= j < c.len() ==> #[trigger] same_change(c[j], p[j])),
    decreases c.len() - i,
{
    if i < c.len() {
        lemma_changes_same(c, p, place, i + 1);
        assert(change_difference(c[i], p[i], change_place(place, i as nat)) is None
            <==> same_change(c[i], p[i]));
    }
}

proof fn lemma_side_same(c: Option<Side>, p: Option<Side>, place: Seq<char>)
    ensures
        optional_side_difference(c, p, place) is None <==> same_optional_side(c, p),
{
    match (c, p) {
        (Some(a), Some(b)) => {
            lemma_changes_same(a.changes@, b.changes@, place, 0);
        },
        _ => {},
    }
}

proof fn lemma_lines_same(c: Seq<DiffLine>, p: Seq<DiffLine>, chunk: nat, line: int)
    requires
        0 <= line,
    ensures
        lines_difference(c, p, chunk, line) is None <==> (forall|j: int|
            line <= j < c.len() ==> #[trigger] same_line(c[j], p[j])),
    decreases c.len() - line,
{
    if line < c.len() {
        lemma_lines_same(c, p, chunk, line + 1);
        lemma_side_same(c[line].lhs, p[line].lhs, side_place(chunk, line as nat, "lhs"@));
        lemma_side_same(c[line].rhs, p[line].rhs, side_place(chunk, line as nat, "rhs"@));
        assert(line_difference(c[line], p[line], chunk, line as nat) is None <==> same_line(
            c[line],
            p[line],
        ));
    }
}

proof fn lemma_chunks_same(c: Seq<Vec<DiffLine>>, p: Seq<Vec<DiffLine>>, chunk: int)
    requires
        0 <= chunk,
    ensures
        chunks_difference(c, p, chunk) is None <==> (forall|j: int|
            chunk <= j < c.len() ==> #[trigger] same_chunk(c[j]@, p[j]@)),
    decreases c.len() - chunk,
{
    if chunk < c.len() {
        lemma_chunks_same(c, p, chunk + 1);
        lemma_lines_same(c[chunk]@, p[chunk]@, chunk as nat, 0);
        assert(chunk_difference(c[chunk]@, p[chunk]@, chunk as nat) is None <==> same_chunk(
            c[chunk]@,
            p[chunk]@,
        ));
    }
}

proof fn lemma_aligned_same(
    c: Seq<(Option<u32>, Option<u32>)>,
    p: Seq<(Option<u32>, Option<u32>)>,
    i: int,
)
    requires
        0 <= i,
        c.len() == p.len(),
    ensures
        aligned_difference(c, p, i) is None <==> (forall|j: int| i <= j < c.len() ==> c[j] == p[j]),
    decreases c.len() - i,
{
    if i < c.len() {
        lemma_aligned_same(c, p, i + 1);
    }
}

/// The deep comparison finds no difference exactly where two reports hold the same in
/// every field but the path.
pub proof fn law_no_difference_means_same(a: DifftFile, b: DifftFile)
    ensures
        file_difference(a, b) is None <==> same_report(a, b),
{
    if a.aligned_lines@.len() == b.aligned_lines@.len() {
        lemma_aligned_same(a.aligned_lines@, b.aligned_lines@, 0);
        if aligned_difference(a.aligned_lines@, b.aligned_lines@, 0) is None {
            assert(a.aligned_lines@ =~= b.aligned_lines@);
        }
    }
    if a.chunks@.len() == b.chunks@.len() {
        lemma_chunks_same(a.chunks@, b.chunks@, 0);
    }
}

/// A report does not differ from itself, nor from itself under another path.
pub proof fn law_comparison_ignores_the_path(a: DifftFile, path: String)
    ensures
        file_difference(a, DifftFile { path, ..a }) is None,
{
    law_no_difference_means_same(a, DifftFile { path, ..a });
}

/// Whether two reports differ does not depend on which of them comes first.
pub proof fn law_difference_is_symmetric(a: DifftFile, b: DifftFile)
    ensures
        file_difference(a, b) is None <==> file_difference(b, a) is None,
{
    law_no_difference_means_same(a, b);
    law_no_difference_means_same(b, a);
    lemma_same_report_symmetric(a, b);
    lemma_same_report_symmetric(b, a);
}

proof fn lemma_same_side_symmetric(a: Option<Side>, b: Option<Side>)
    requires
        same_optional_side(a, b),
    ensures
        same_optional_side(b, a),
{
    match (a, b) {
        (Some(x), Some(y)) => {
            assert forall|i: int| 0 <= i < y.changes@.len() implies #[trigger] same_change(
                y.changes@[i],
                x.changes@[i],
            ) by {
                assert(same_change(x.changes@[i], y.changes@[i]));
            }
        },
        _ => {},
    }
}

proof fn lemma_same_report_symmetric(a: DifftFile, b: DifftFile)
    ensures
        same_report(a, b) ==> same_report(b, a),
{
    if same_report(a, b) {
        assert forall|i: int| 0 <= i < b.chunks@.len() implies #[trigger] same_chunk(
            b.chunks@[i]@,
            a.chunks@[i]@,
        ) by {
            let x = a.chunks@[i]@;
            let y = b.chunks@[i]@;
            assert(same_chunk(x, y));
            assert forall|j: int| 0 <= j < y.len() implies #[trigger] same_line(y[j], x[j]) by {
                assert(same_line(x[j], y[j]));
                lemma_same_side_symmetric(x[j].lhs, y[j].lhs);
                lemma_same_side_symmetric(x[j].rhs, y[j].rhs);
            }
        }
    }
}

/// The two sides are both there or both missing, and where they are there, they have the
/// same line number, as many changes, and the same change at the place.
pub open spec fn sides_match_at(a: Option<Side>, b: Option<Side>, m: int) -> bool {
    match (a, b) {
        (Some(x), Some(y)) => {
            &&& x.line_number == y.line_number
            &&& x.changes@.len() == y.changes@.len()
            &&& 0 <= m < x.changes@.len() ==> {
                &&& x.changes@[m].start == y.changes@[m].start
                &&& x.changes@[m].end == y.changes@[m].end
                &&& x.changes@[m].content@ == y.changes@[m].content@
                &&& x.changes@[m].highlight@ == y.changes@[m].highlight@
            }
        },
        (None, None) => true,
        _ => false,
    }
}

proof fn lemma_sides_match(a: Option<Side>, b: Option<Side>, m: int)
    requires
        same_optional_side(a, b),
    ensures
        sides_match_at(a, b, m),
{
    if let (Some(x), Some(y)) = (a, b) {
        if 0 <= m < x.changes@.len() {
            assert(same_change(x.changes@[m], y.changes@[m]));
        }
    }
}

/// Where no difference is found, there is none in any field of any change of either side
/// of any line of any chunk, nor in status, language or alignment.
pub proof fn law_every_field_is_compared(a: DifftFile, b: DifftFile, i: int, j: int, m: int)
    requires
        file_difference(a, b) is None,
    ensures
        a.status == b.status,
        a.language@ == b.language@,
        a.aligned_lines@ == b.aligned_lines@,
        a.chunks@.len() == b.chunks@.len(),
        0 <= i < a.chunks@.len() ==> a.chunks@[i]@.len() == b.chunks@[i]@.len(),
        0 <= i < a.chunks@.len() && 0 <= j < a.chunks@[i]@.len() ==> sides_match_at(
            a.chunks@[i]@[j].lhs,
            b.chunks@[i]@[j].lhs,
            m,
        ) && sides_match_at(a.chunks@[i]@[j].rhs, b.chunks@[i]@[j].rhs, m),
{
    law_no_difference_means_same(a, b);
    if 0 <= i < a.chunks@.len() {
        assert(same_chunk(a.chunks@[i]@, b.chunks@[i]@));
        if 0 <= j < a.chunks@[i]@.len() {
            assert(same_line(a.chunks@[i]@[j], b.chunks@[i]@[j]));
            lemma_sides_match(a.chunks@[i]@[j].lhs, b.chunks@[i]@[j].lhs, m);
            lemma_sides_match(a.chunks@[i]@[j].rhs, b.chunks@[i]@[j].rhs, m);
        }
    }
}

/// Where a difference is found, there is one: no two reports that are alike in every
/// field but the path are told apart.
pub proof fn law_alike_reports_are_not_told_apart(a: DifftFile, b: DifftFile)
    requires
        a.status == b.status,
        a.language@ == b.language@,
        a.aligned_lines@ == b.aligned_lines@,
        a.chunks@.len() == b.chunks@.len(),
        forall|i: int|
            0 <= i < a.chunks@.len() ==> (#[trigger] a.chunks@[i])@.len() == b.chunks@[i]@.len(),
        forall|i: int, j: int, m: int|
            #![trigger sides_match_at(a.chunks@[i]@[j].lhs, b.chunks@[i]@[j].lhs, m)]
            0 <= i < a.chunks@.len() && 0 <= j < a.chunks@[i]@.len() ==> sides_match_at(
                a.chunks@[i]@[j].lhs,
                b.chunks@[i]@[j].lhs,
                m,
            ) && sides_match_at(a.chunks@[i]@[j].rhs, b.chunks@[i]@[j].rhs, m),
    ensures
        file_difference(a, b) is None,
{
    law_no_difference_means_same(a, b);
    assert forall|i: int| 0 <= i < a.chunks@.len() implies #[trigger] same_chunk(
        a.chunks@[i]@,
        b.chunks@[i]@,
    ) by {
        assert(a.chunks@[i]@.len() == b.chunks@[i]@.len());
        assert forall|j: int| 0 <= j < a.chunks@[i]@.len() implies #[trigger] same_line(
            a.chunks@[i]@[j],
            b.chunks@[i]@[j],
        ) by {
            let x = a.chunks@[i]@[j];
            let y = b.chunks@[i]@[j];
            assert(sides_match_at(a.chunks@[i]@[j].lhs, b.chunks@[i]@[j].lhs, 0));
            assert(sides_match_at(x.rhs, y.rhs, 0));
            if let (Some(p), Some(q)) = (x.lhs, y.lhs) {
                assert forall|m: int| 0 <= m < p.changes@.len() implies #[trigger] same_change(
                    p.changes@[m],
                    q.changes@[m],
                ) by {
                    assert(sides_match_at(x.lhs, y.lhs, m));
                }
            }
            if let (Some(p), Some(q)) = (x.rhs, y.rhs) {
                assert forall|m: int| 0 <= m < p.changes@.len() implies #[trigger] same_change(
                    p.changes@[m],
                    q.changes@[m],
                ) by {
                    assert(sides_match_at(x.lhs, y.lhs, m));
                }
            }
        }
    }
}

/// What differs, and the two values that it has.
pub open spec fn told(what: Seq<char>, left: Seq<char>, right: Seq<char>) -> Seq<char> {
    what + left + " vs "@ + right
}

/// Two sides are told apart by their line numbers first, and then by how many changes
/// they have.
pub proof fn law_sides_are_told_apart_by_line_and_count(c: Side, p: Side, place: Seq<char>)
    ensures
        c.line_number != p.line_number ==> side_difference(c, p, place) == Some(
            told(
                place + ".line_number: "@,
                decimal(c.line_number as nat),
                decimal(p.line_number as nat),
            ),
        ),
        c.line_number == p.line_number && c.changes@.len() != p.changes@.len() ==> side_difference(
            c,
            p,
            place,
        ) == Some(
            told(
                place + ".changes count: "@,
                decimal(c.changes@.len()),
                decimal(p.changes@.len()),
            ),
        ),
{
}

proof fn lemma_change_at(c: Seq<Change>, p: Seq<Change>, place: Seq<char>, from: int, m: int)
    requires
        0 <= from <= m < c.len(),
        !same_change(c[m], p[m]),
        forall|k: int| from <= k < m ==> same_change(#[trigger] c[k], p[k]),
    ensures
        changes_difference(c, p, place, from) == change_difference(
            c[m],
            p[m],
            change_place(place, m as nat),
        ),
    decreases m - from,
{
    if from < m {
        assert(same_change(c[from], p[from]));
        lemma_change_at(c, p, place, from + 1, m);
    }
}

/// Sides with the same line number and as many changes are told apart by the first change
/// that differs, and that by its start, its end, its content and its highlight, in that
/// order.
pub proof fn law_sides_are_told_apart_by_the_first_change(
    c: Side,
    p: Side,
    place: Seq<char>,
    m: int,
)
    requires
        c.line_number == p.line_number,
        c.changes@.len() == p.changes@.len(),
        0 <= m < c.changes@.len(),
        !same_change(c.changes@[m], p.changes@[m]),
        forall|k: int| 0 <= k < m ==> same_change(#[trigger] c.changes@[k], p.changes@[k]),
    ensures
        ({
            let x = c.changes@[m];
            let y = p.changes@[m];
            let at = place + ".changes["@ + decimal(m as nat) + "]"@;
            side_difference(c, p, place) == Some(
                if x.start != y.start {
                    told(at + ".start: "@, decimal(x.start as nat), decimal(y.start as nat))
                } else if x.end != y.end {
                    told(at + ".end: "@, decimal(x.end as nat), decimal(y.end as nat))
                } else if x.content@ != y.content@ {
                    told(at + ".content: "@, quoted(x.content@), quoted(y.content@))
                } else {
                    told(at + ".highlight: "@, quoted(x.highlight@), quoted(y.highlight@))
                },
            )
        }),
{
    lemma_change_at(c.changes@, p.changes@, place, 0, m);
}

/// The place of a side is told by its chunk, its line and its name.
pub proof fn law_places_are_counted_from_zero(chunk: nat, line: nat, side: Seq<char>)
    ensures
        side_place(chunk, line, side) == "chunk["@ + decimal(chunk) + "].line["@ + decimal(line)
            + "]."@ + side,
{
}

/// Reports are told apart by their status first, then by their language, and then by how
/// many pairs of lines are aligned.
pub proof fn law_reports_are_told_apart_by_status_first(c: DifftFile, p: DifftFile)
    ensures
        c.status != p.status ==> file_difference(c, p) == Some(
            told("status: "@, status_text(c.status), status_text(p.status)),
        ),
        c.status == p.status && c.language@ != p.language@ ==> file_difference(c, p) == Some(
            told("language: "@, quoted(c.language@), quoted(p.language@)),
        ),
        c.status == p.status && c.language@ == p.language@ && c.aligned_lines@.len()
            != p.aligned_lines@.len() ==> file_difference(c, p) == Some(
            told(
                "aligned_lines count: "@,
                decimal(c.aligned_lines@.len()),
                decimal(p.aligned_lines@.len()),
            ),
        ),
        c.status == p.status && c.language@ == p.language@ && c.aligned_lines@ == p.aligned_lines@
            && c.chunks@.len() != p.chunks@.len() ==> file_difference(c, p) == Some(
            told("chunk count: "@, decimal(c.chunks@.len()), decimal(p.chunks@.len())),
        ),
{
    if c.aligned_lines@ == p.aligned_lines@ {
        lemma_aligned_same(c.aligned_lines@, p.aligned_lines@, 0);
    }
}

/// A line number as it is told, where it may be missing.
pub open spec fn told_number(n: Option<u32>) -> Seq<char> {
    match n {
        Some(n) => "Some("@ + decimal(n as nat) + ")"@,
        None => "None"@,
    }
}

proof fn lemma_aligned_at(
    c: Seq<(Option<u32>, Option<u32>)>,
    p: Seq<(Option<u32>, Option<u32>)>,
    from: int,
    i: int,
)
    requires
        0 <= from <= i < c.len(),
        c[i] != p[i],
        forall|k: int| from <= k < i ==> #[trigger] c[k] == p[k],
    ensures
        aligned_difference(c, p, from) == Some(
            told(
                "aligned_lines["@ + decimal(i as nat) + "]: "@,
                "("@ + told_number(c[i].0) + ","@ + told_number(c[i].1) + ")"@,
                "("@ + told_number(p[i].0) + ","@ + told_number(p[i].1) + ")"@,
            ),
        ),
    decreases i - from,
{
    if from < i {
        assert(c[from] == p[from]);
        lemma_aligned_at(c, p, from + 1, i);
    }
}

/// Reports of one status and language with as many aligned pairs are told apart by the
/// first pair that differs.
pub proof fn law_reports_are_told_apart_by_the_first_pair(c: DifftFile, p: DifftFile, i: int)
    requires
        c.status == p.status,
        c.language@ == p.language@,
        c.aligned_lines@.len() == p.aligned_lines@.len(),
        0 <= i < c.aligned_lines@.len(),
        c.aligned_lines@[i] != p.aligned_lines@[i],
        forall|k: int| 0 <= k < i ==> #[trigger] c.aligned_lines@[k] == p.aligned_lines@[k],
    ensures
        file_difference(c, p) == Some(
            told(
                "aligned_lines["@ + decimal(i as nat) + "]: "@,
                "("@ + told_number(c.aligned_lines@[i].0) + ","@ + told_number(
                    c.aligned_lines@[i].1,
                ) + ")"@,
                "("@ + told_number(p.aligned_lines@[i].0) + ","@ + told_number(
                    p.aligned_lines@[i].1,
                ) + ")"@,
            ),
        ),
{
    lemma_aligned_at(c.aligned_lines@, p.aligned_lines@, 0, i);
}

proof fn lemma_chunk_at(c: Seq<Vec<DiffLine>>, p: Seq<Vec<DiffLine>>, from: int, i: int)
    requires
        0 <= from <= i < c.len(),
        !same_chunk(c[i]@, p[i]@),
        forall|k: int| from <= k < i ==> same_chunk((#[trigger] c[k])@, p[k]@),
    ensures
        chunks_difference(c, p, from) == chunk_difference(c[i]@, p[i]@, i as nat),
    decreases i - from,
{
    lemma_chunks_same(c, p, from);
    lemma_lines_same(c[from]@, p[from]@, from as nat, 0);
    if from < i {
        assert(same_chunk(c[from]@, p[from]@));
        lemma_chunk_at(c, p, from + 1, i);
    }
}

proof fn lemma_line_at(c: Seq<DiffLine>, p: Seq<DiffLine>, chunk: nat, from: int, j: int)
    requires
        0 <= from <= j < c.len(),
        !same_line(c[j], p[j]),
        forall|k: int| from <= k < j ==> same_line(#[trigger] c[k], p[k]),
    ensures
        lines_difference(c, p, chunk, from) == line_difference(c[j], p[j], chunk, j as nat),
    decreases j - from,
{
    lemma_side_same(c[from].lhs, p[from].lhs, side_place(chunk, from as nat, "lhs"@));
    lemma_side_same(c[from].rhs, p[from].rhs, side_place(chunk, from as nat, "rhs"@));
    if from < j {
        assert(same_line(c[from], p[from]));
        lemma_line_at(c, p, chunk, from + 1, j);
    }
}

/// Two sides of which one is missing are told apart by that, and two that are there by
/// what tells sides apart.
pub open spec fn told_of_sides(c: Option<Side>, p: Option<Side>, place: Seq<char>) -> Option<
    Seq<char>,
> {
    if c is Some && p is None {
        Some(place + ": present vs absent"@)
    } else if c is None && p is Some {
        Some(place + ": absent vs present"@)
    } else if c is Some {
        side_difference(c->0, p->0, place)
    } else {
        None
    }
}

/// Reports that are alike up to a chunk are told apart in that chunk: by how many lines it
/// has, and then by the first line that differs, its left side before its right one.
pub proof fn law_reports_are_told_apart_by_the_first_line(
    c: DifftFile,
    p: DifftFile,
    i: int,
    j: int,
)
    requires
        c.status == p.status,
        c.language@ == p.language@,
        c.aligned_lines@ == p.aligned_lines@,
        c.chunks@.len() == p.chunks@.len(),
        0 <= i < c.chunks@.len(),
        forall|k: int| 0 <= k < i ==> same_chunk((#[trigger] c.chunks@[k])@, p.chunks@[k]@),
    ensures
        c.chunks@[i]@.len() != p.chunks@[i]@.len() ==> file_difference(c, p) == Some(
            told(
                "chunk["@ + decimal(i as nat) + "] line count: "@,
                decimal(c.chunks@[i]@.len()),
                decimal(p.chunks@[i]@.len()),
            ),
        ),
        c.chunks@[i]@.len() == p.chunks@[i]@.len() && 0 <= j < c.chunks@[i]@.len() && (forall|
            k: int,
        | 0 <= k < j ==> same_line(#[trigger] c.chunks@[i]@[k], p.chunks@[i]@[k])) ==> {
            let x = c.chunks@[i]@[j];
            let y = p.chunks@[i]@[j];
            let left = told_of_sides(x.lhs, y.lhs, side_place(i as nat, j as nat, "lhs"@));
            let right = told_of_sides(x.rhs, y.rhs, side_place(i as nat, j as nat, "rhs"@));
            &&& left is Some ==> file_difference(c, p) == left
            &&& left is None && right is Some ==> file_difference(c, p) == right
        },
{
    lemma_aligned_same(c.aligned_lines@, p.aligned_lines@, 0);
    let a = c.chunks@[i]@;
    let b = p.chunks@[i]@;
    if a.len() != b.len() {
        lemma_chunk_at(c.chunks@, p.chunks@, 0, i);
    } else if 0 <= j < a.len() && forall|k: int| 0 <= k < j ==> same_line(#[trigger] a[k], b[k]) {
        let left = side_place(i as nat, j as nat, "lhs"@);
        let right = side_place(i as nat, j as nat, "rhs"@);
        lemma_side_same(a[j].lhs, b[j].lhs, left);
        lemma_side_same(a[j].rhs, b[j].rhs, right);
        if told_of_sides(a[j].lhs, b[j].lhs, left) is Some || told_of_sides(
            a[j].rhs,
            b[j].rhs,
            right,
        ) is Some {
            assert(!same_line(a[j], b[j]));
            assert(!same_chunk(a, b));
            lemma_chunk_at(c.chunks@, p.chunks@, 0, i);
            lemma_line_at(a, b, i as nat, 0, j);
        }
    }
}

} // verus!
