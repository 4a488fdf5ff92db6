//! Paths with `/` between their names, as on Unix, compared by their components.

use vstd::prelude::*;
use vstd::slice::slice_subrange;

use crate::list::{
    filter_mapped, lemma_filter_mapped_all, lemma_filter_mapped_concat, lemma_filter_mapped_step,
};
use crate::text::{
    chars_of, fields, fields_of, joined, law_joined_fields_split_again, lemma_fields_concat,
    lemma_find_char, lemma_rfind_char, lemma_single_field, lemma_texts_push, rfind, rfind_char,
    same_text, starts_with_char, text_of, text_option, texts,
};

verus! {

/// The component that stands for the root directory.
pub open spec fn root_component() -> Seq<char> {
    seq!['/']
}

/// The component that stands for the current directory.
pub open spec fn current_component() -> Seq<char> {
    seq!['.']
}

/// The component that stands for the parent directory.
pub open spec fn parent_component() -> Seq<char> {
    seq!['.', '.']
}

/// A piece of a path that counts: neither empty nor the current directory.
pub open spec fn counted(piece: Seq<char>) -> Option<Seq<char>> {
    if piece.len() > 0 && piece != current_component() {
        Some(piece)
    } else {
        None
    }
}

/// The pieces that count.
pub open spec fn counted_pieces(pieces: Seq<Seq<char>>) -> Seq<Seq<char>> {
    filter_mapped(pieces, |p: Seq<char>| counted(p))
}

/// What a path leads off with: the root, or the current directory.
pub open spec fn leading(path: Seq<char>) -> Seq<Seq<char>> {
    if path.len() > 0 && path[0] == '/' {
        seq![root_component()]
    } else if fields_of(path, '/')[0] == current_component() {
        seq![current_component()]
    } else {
        Seq::empty()
    }
}

/// The components of a path. Repeated and trailing separators do not count, nor does
/// the current directory other than at the front.
pub open spec fn components_of(path: Seq<char>) -> Seq<Seq<char>> {
    leading(path) + counted_pieces(fields_of(path, '/'))
}

/// Two paths are the same: their components are.
pub open spec fn same_path(a: Seq<char>, b: Seq<char>) -> bool {
    components_of(a) == components_of(b)
}

/// The name that a path ends in, where that is a name of its own.
pub open spec fn file_name_of(path: Seq<char>) -> Option<Seq<char>> {
    let components = components_of(path);
    if components.len() > 0 && components.last() != root_component() && components.last()
        != current_component() && components.last() != parent_component() {
        Some(components.last())
    } else {
        None
    }
}

/// What stands behind the last dot of a name that does not begin with it.
pub open spec fn name_extension(name: Seq<char>) -> Option<Seq<char>> {
    match rfind_char(name, '.', name.len() as int) {
        Some(i) => if i > 0 {
            Some(name.skip(i + 1))
        } else {
            None
        },
        None => None,
    }
}

/// The extension of the name that a path ends in.
pub open spec fn extension_of(path: Seq<char>) -> Option<Seq<char>> {
    match file_name_of(path) {
        Some(name) => name_extension(name),
        None => None,
    }
}

/// A text is split into at least one field.
pub proof fn lemma_fields_nonempty(s: Seq<char>, sep: char)
    ensures
        fields_of(s, sep).len() > 0,
{
    lemma_find_char(s, sep, 0);
}

/// The components of a path, as texts.
pub fn components(path: &str) -> (r: Vec<String>)
    ensures
        texts(r@) == components_of(path@),
{
    broadcast use lemma_texts_push;

    let pieces = fields(path, '/');
    let ghost all = fields_of(path@, '/');
    let ghost f = |p: Seq<char>| counted(p);
    proof {
        lemma_fields_nonempty(path@, '/');
        assert(pieces@.len() == texts(pieces@).len());
        reveal_strlit(".");
        reveal_strlit("/");
        assert("."@ =~= current_component());
        assert("/"@ =~= root_component());
        assert(texts(pieces@)[0] == pieces@[0]@);
    }
    let mut out: Vec<String> = Vec::new();
    if starts_with_char(path, '/') {
        out.push("/".to_owned());
    } else if same_text(pieces[0].as_str(), ".") {
        out.push(".".to_owned());
    }
    proof {
        assert(texts(Seq::<String>::empty()) =~= Seq::<Seq<char>>::empty());
        assert(texts(out@) =~= leading(path@));
        assert(all.take(0) =~= Seq::<Seq<char>>::empty());
        assert(texts(out@) =~= leading(path@) + counted_pieces(all.take(0)));
    }
    let mut i: usize = 0;
    while i < pieces.len()
        invariant
            i <= pieces@.len(),
            all == texts(pieces@),
            "."@ == current_component(),
            texts(out@) == leading(path@) + counted_pieces(all.take(i as int)),
        decreases pieces@.len() - i,
    {
        proof {
            lemma_filter_mapped_step(all, |p: Seq<char>| counted(p), i as int);
            assert(all[i as int] == pieces@[i as int]@);
        }
        let ghost before = texts(out@);
        if !pieces[i].as_str().is_empty() && !same_text(pieces[i].as_str(), ".") {
            out.push(pieces[i].clone());
            proof {
                assert(texts(out@) =~= before.push(all[i as int]));
                assert(before.push(all[i as int]) =~= leading(path@) + counted_pieces(
                    all.take(i as int),
                ).push(all[i as int]));
            }
        }
        i += 1;
    }
    proof {
        assert(all.take(all.len() as int) =~= all);
    }
    out
}

/// Whether two paths are the same.
pub fn paths_equal(a: &str, b: &str) -> (r: bool)
    ensures
        r == same_path(a@, b@),
{
    let left = components(a);
    let right = components(b);
    proof {
        assert(texts(left@).len() == left@.len());
        assert(texts(right@).len() == right@.len());
    }
    if left.len() != right.len() {
        return false;
    }
    let mut i: usize = 0;
    while i < left.len()
        invariant
            i <= left@.len(),
            left@.len() == right@.len(),
            texts(left@) == components_of(a@),
            texts(right@) == components_of(b@),
            forall|j: int| 0 <= j < i ==> #[trigger] left@[j]@ == right@[j]@,
        decreases left@.len() - i,
    {
        if !same_text(left[i].as_str(), right[i].as_str()) {
            proof {
                assert(texts(left@)[i as int] != texts(right@)[i as int]);
            }
            return false;
        }
        i += 1;
    }
    proof {
        assert(texts(left@) =~= texts(right@));
    }
    true
}

/// The name that a path ends in.
pub fn file_name(path: &str) -> (r: Option<String>)
    ensures
        text_option(r) == file_name_of(path@),
{
    proof {
        reveal_strlit(".");
        reveal_strlit("..");
        reveal_strlit("/");
        assert("."@ =~= current_component());
        assert(".."@ =~= parent_component());
        assert("/"@ =~= root_component());
    }
    let parts = components(path);
    proof {
        assert(texts(parts@).len() == parts@.len());
    }
    if parts.len() == 0 {
        return None;
    }
    let last = &parts[parts.len() - 1];
    proof {
        assert(components_of(path@).last() == last@);
    }
    if same_text(last.as_str(), "/") || same_text(last.as_str(), ".") || same_text(
        last.as_str(),
        "..",
    ) {
        None
    } else {
        Some(last.clone())
    }
}

/// The extension of the name that a path ends in.
pub fn extension(path: &str) -> (r: Option<String>)
    ensures
        text_option(r) == extension_of(path@),
{
    match file_name(path) {
        Some(name) => {
            let chars = chars_of(name.as_str());
            proof {
                lemma_rfind_char(name@, '.', name@.len() as int);
            }
            match rfind(chars.as_slice(), '.') {
                Some(i) => if i > 0 {
                    let end: usize = chars.len();
                    let behind = text_of(slice_subrange(chars.as_slice(), i + 1, end));
                    proof {
                        assert(behind@ =~= name@.skip(i + 1));
                    }
                    Some(behind)
                } else {
                    None
                },
                None => None,
            }
        },
        None => None,
    }
}

/// A name that a path can hold between its separators and that counts: not empty, without
/// a separator, and not the current directory.
pub open spec fn is_name(name: Seq<char>) -> bool {
    name.len() > 0 && !name.contains('/') && name != seq!['.']
}

proof fn lemma_names_count(names: Seq<Seq<char>>)
    requires
        forall|i: int| 0 <= i < names.len() ==> is_name(#[trigger] names[i]),
    ensures
        counted_pieces(names) == names,
{
    let f = |p: Seq<char>| counted(p);
    assert forall|i: int| 0 <= i < names.len() implies f(#[trigger] names[i]) == Some(
        names[i],
    ) by {
        assert(is_name(names[i]));
    }
    lemma_filter_mapped_all(names, f);
    assert forall|i: int| 0 <= i < names.len() implies counted_pieces(names)[i]
        == #[trigger] names[i] by {
        assert(f(names[i]) is Some);
    }
    assert(counted_pieces(names) =~= names);
}

proof fn lemma_first_piece(path: Seq<char>)
    ensures
        path.len() > 0 && path[0] == '/' ==> fields_of(path, '/')[0].len() == 0,
{
    lemma_find_char(path, '/', 0);
}

proof fn lemma_below(a: Seq<char>, b: Seq<char>)
    requires
        a.len() > 0,
    ensures
        components_of(a + seq!['/'] + b) == components_of(a) + counted_pieces(fields_of(b, '/')),
{
    let f = |p: Seq<char>| counted(p);
    let whole = a + seq!['/'] + b;
    lemma_fields_concat(a, '/', b);
    lemma_fields_nonempty(a, '/');
    lemma_filter_mapped_concat(fields_of(a, '/'), fields_of(b, '/'), f);
    assert(whole[0] == a[0]);
    assert(fields_of(whole, '/')[0] == fields_of(a, '/')[0]);
    assert(leading(a) + (counted_pieces(fields_of(a, '/')) + counted_pieces(fields_of(b, '/')))
        =~= components_of(a) + counted_pieces(fields_of(b, '/')));
}

/// A path of names with a separator between each two has these names as its components.
/// With a separator in front it has the root before them, and with the current directory
/// in front that.
pub proof fn law_components_are_the_names(names: Seq<Seq<char>>)
    requires
        names.len() > 0,
        forall|i: int| 0 <= i < names.len() ==> is_name(#[trigger] names[i]),
    ensures
        ({
            let path = joined(names, seq!['/']);
            &&& components_of(path) == names
            &&& components_of(seq!['/'] + path) == seq![seq!['/']] + names
            &&& components_of(seq!['.', '/'] + path) == seq![seq!['.']] + names
        }),
        components_of(Seq::empty()).len() == 0,
        components_of(seq!['/']) == seq![seq!['/']],
        components_of(seq!['.']) == seq![seq!['.']],
{
    let path = joined(names, seq!['/']);
    let f = |p: Seq<char>| counted(p);
    assert forall|i: int| 0 <= i < names.len() implies !(#[trigger] names[i]).contains('/') by {
        assert(is_name(names[i]));
    }
    law_joined_fields_split_again(names, '/');
    lemma_names_count(names);
    lemma_first_piece(path);
    assert(is_name(names[0]));
    assert(leading(path) =~= Seq::<Seq<char>>::empty());
    assert(components_of(path) =~= names);

    let none = Seq::<char>::empty();
    let nothing = Seq::<Seq<char>>::empty();
    lemma_single_field(none, '/');
    lemma_fields_concat(none, '/', path);
    assert(none + seq!['/'] + path =~= seq!['/'] + path);
    lemma_filter_mapped_concat(seq![none], names, f);
    assert(seq![none].drop_last() =~= nothing);
    assert(filter_mapped(nothing, f) =~= nothing);
    assert(filter_mapped(seq![none], f) =~= nothing);
    assert(counted_pieces(seq![none] + names) =~= names);

    let dot = seq!['.'];
    assert(!dot.contains('/'));
    lemma_single_field(dot, '/');
    lemma_below(dot, path);
    assert(dot + seq!['/'] + path =~= seq!['.', '/'] + path);
    assert(seq![dot].drop_last() =~= nothing);
    assert(filter_mapped(seq![dot], f) =~= nothing);
    assert(components_of(dot) =~= seq![dot]);

    assert(components_of(none) =~= nothing);
    lemma_fields_concat(none, '/', none);
    assert(none + seq!['/'] + none =~= seq!['/']);
    lemma_filter_mapped_concat(seq![none], seq![none], f);
    assert(components_of(seq!['/']) =~= seq![seq!['/']]);
}

/// A separator behind a path, a second one beside another, and the current directory
/// between two change nothing.
pub proof fn law_separators_do_not_count(a: Seq<char>, b: Seq<char>)
    requires
        a.len() > 0,
    ensures
        components_of(a + seq!['/']) == components_of(a),
        components_of(a + seq!['/', '/'] + b) == components_of(a + seq!['/'] + b),
        components_of(a + seq!['/', '.', '/'] + b) == components_of(a + seq!['/'] + b),
{
    let f = |p: Seq<char>| counted(p);
    let none = Seq::<char>::empty();
    let dot = seq!['.'];
    let nothing = Seq::<Seq<char>>::empty();
    assert(filter_mapped(nothing, f) =~= nothing);
    lemma_below(a, b);

    lemma_single_field(none, '/');
    assert(seq![none].drop_last() =~= nothing);
    assert(counted_pieces(seq![none]) =~= nothing);
    lemma_below(a, none);
    assert(a + seq!['/'] + none =~= a + seq!['/']);
    assert(components_of(a) + nothing =~= components_of(a));

    lemma_below(a, seq!['/'] + b);
    lemma_fields_concat(none, '/', b);
    assert(none + seq!['/'] + b =~= seq!['/'] + b);
    lemma_filter_mapped_concat(seq![none], fields_of(b, '/'), f);
    assert(a + seq!['/'] + (seq!['/'] + b) =~= a + seq!['/', '/'] + b);
    assert(nothing + counted_pieces(fields_of(b, '/')) =~= counted_pieces(fields_of(b, '/')));

    assert(!dot.contains('/'));
    lemma_single_field(dot, '/');
    assert(seq![dot].drop_last() =~= nothing);
    assert(counted_pieces(seq![dot]) =~= nothing);
    lemma_below(a, dot + seq!['/'] + b);
    lemma_fields_concat(dot, '/', b);
    lemma_filter_mapped_concat(seq![dot], fields_of(b, '/'), f);
    assert(a + seq!['/'] + (dot + seq!['/'] + b) =~= a + seq!['/', '.', '/'] + b);
}

/// Two paths are the same exactly where their components are.
pub proof fn law_same_paths_have_the_same_components(a: Seq<char>, b: Seq<char>)
    ensures
        same_path(a, b) <==> components_of(a) == components_of(b),
        same_path(a, b) ==> file_name_of(a) == file_name_of(b) && extension_of(a) == extension_of(
            b,
        ),
{
}

/// The file name of a path is the last of its names, unless that is the parent directory.
/// The root and the current directory have none.
pub proof fn law_file_name_is_the_last_name(names: Seq<Seq<char>>)
    requires
        names.len() > 0,
        forall|i: int| 0 <= i < names.len() ==> is_name(#[trigger] names[i]),
    ensures
        ({
            let path = joined(names, seq!['/']);
            let found = if names.last() == seq!['.', '.'] {
                None
            } else {
                Some(names.last())
            };
            &&& file_name_of(path) == found
            &&& file_name_of(seq!['/'] + path) == found
            &&& file_name_of(seq!['.', '/'] + path) == found
        }),
        file_name_of(seq!['/']) is None,
        file_name_of(Seq::empty()) is None,
{
    law_components_are_the_names(names);
    let last = names[names.len() - 1];
    assert(is_name(last));
    if last == seq!['/'] {
        assert(last[0] == '/');
        assert(last.contains('/'));
    }
    assert((seq![seq!['/']] + names).last() == last);
    assert((seq![seq!['.']] + names).last() == last);
}

/// The extension of a name is what stands behind its last dot. A name without a dot has
/// none, nor has one that begins with its only dot.
pub proof fn law_extension_stands_behind_the_last_dot(stem: Seq<char>, ext: Seq<char>)
    requires
        !ext.contains('.'),
    ensures
        stem.len() > 0 ==> name_extension(stem + seq!['.'] + ext) == Some(ext),
        name_extension(ext) is None,
        name_extension(seq!['.'] + ext) is None,
{
    let name = stem + seq!['.'] + ext;
    lemma_rfind_char(name, '.', name.len() as int);
    let at = stem.len() as int;
    assert(name[at] == '.');
    assert forall|j: int| at < j < name.len() implies #[trigger] name[j] != '.' by {
        assert(name[j] == ext[j - at - 1]);
        assert(ext.contains(ext[j - at - 1]));
    }
    assert(name.skip(at + 1) =~= ext);
    lemma_rfind_char(ext, '.', ext.len() as int);
    if rfind_char(ext, '.', ext.len() as int) is Some {
        let i = rfind_char(ext, '.', ext.len() as int)->0;
        assert(ext.contains(ext[i]));
    }
    let hidden = seq!['.'] + ext;
    lemma_rfind_char(hidden, '.', hidden.len() as int);
    if let Some(i) = rfind_char(hidden, '.', hidden.len() as int) {
        if i > 0 {
            assert(hidden[i] == ext[i - 1]);
            assert(ext.contains(ext[i - 1]));
        }
    }
}

/// The extension of a path is that of its file name.
pub proof fn law_extension_is_that_of_the_file_name(path: Seq<char>)
    ensures
        extension_of(path) == match file_name_of(path) {
            Some(name) => name_extension(name),
            None => None,
        },
{
}

/// Behind the root, separators and single dots do not count either.
pub proof fn law_separators_behind_the_root_do_not_count(b: Seq<char>)
    ensures
        components_of(seq!['/', '/'] + b) == components_of(seq!['/'] + b),
        components_of(seq!['/', '.', '/'] + b) == components_of(seq!['/'] + b),
{
    let f = |p: Seq<char>| counted(p);
    let none = Seq::<char>::empty();
    let nothing = Seq::<Seq<char>>::empty();
    let dot = seq!['.'];
    assert(!dot.contains('/'));
    lemma_single_field(none, '/');
    lemma_single_field(dot, '/');
    assert(filter_mapped(nothing, f) =~= nothing);
    assert(seq![none].drop_last() =~= nothing);
    assert(seq![dot].drop_last() =~= nothing);
    assert(filter_mapped(seq![none], f) =~= nothing);
    assert(filter_mapped(seq![dot], f) =~= nothing);
    let below = fields_of(b, '/');
    lemma_fields_concat(none, '/', b);
    assert(none + seq!['/'] + b =~= seq!['/'] + b);
    lemma_filter_mapped_concat(seq![none], below, f);
    lemma_fields_concat(none, '/', seq!['/'] + b);
    assert(none + seq!['/'] + (seq!['/'] + b) =~= seq!['/', '/'] + b);
    lemma_filter_mapped_concat(seq![none], fields_of(seq!['/'] + b, '/'), f);
    lemma_fields_concat(dot, '/', b);
    assert(dot + seq!['/'] + b =~= seq!['.', '/'] + b);
    lemma_filter_mapped_concat(seq![dot], below, f);
    lemma_fields_concat(none, '/', seq!['.', '/'] + b);
    assert(none + seq!['/'] + (seq!['.', '/'] + b) =~= seq!['/', '.', '/'] + b);
    lemma_filter_mapped_concat(seq![none], fields_of(seq!['.', '/'] + b, '/'), f);
    assert(counted_pieces(fields_of(seq!['/', '/'] + b, '/')) =~= counted_pieces(below));
    assert(counted_pieces(fields_of(seq!['/', '.', '/'] + b, '/')) =~= counted_pieces(below));
    assert(counted_pieces(fields_of(seq!['/'] + b, '/')) =~= counted_pieces(below));
}

} // verus!
