//! Object paths.
//!
//! [`object_store::path::Path`] is opaque here. Contracts speak of its text
//! through [`path_raw`].

use object_store::path::Path;
use vstd::prelude::*;

verus! {

/// The outside type `object_store::path::Path`, carried as an opaque value.
#[verifier::external_type_specification]
#[verifier::external_body]
pub struct ExPath(Path);

/// The text of a path: its segments, separated by slashes.
pub uninterp spec fn path_raw(path: Path) -> Seq<char>;

/// The text of the path that `Path::from` makes of a string: it splits at
/// slashes, drops empty segments, and percent-encodes what a segment must not
/// hold.
pub uninterp spec fn path_from_text(text: Seq<char>) -> Seq<char>;

/// The text of the segment that `PathPart::from` makes of a string:
/// percent-encoded where the string holds what a segment must not.
pub uninterp spec fn encoded_part(part: Seq<char>) -> Seq<char>;

/// A character that no segment has to encode.
pub open spec fn is_plain_char(c: char) -> bool {
    ('0' <= c <= '9') || ('a' <= c <= 'z') || ('A' <= c <= 'Z') || c == '-' || c == '_' || c == '.'
}

/// A segment that stands in a path as it is: not empty, plain characters, and
/// neither of the relative segments.
pub open spec fn is_plain_part(part: Seq<char>) -> bool {
    &&& part.len() > 0
    &&& forall|i: int| 0 <= i < part.len() ==> is_plain_char(#[trigger] part[i])
    &&& part != seq!['.']
    &&& part != seq!['.', '.']
}

/// The pieces of a text between slashes.
pub open spec fn split_slashes(text: Seq<char>) -> Seq<Seq<char>>
    decreases text.len(),
{
    if text.len() == 0 {
        seq![Seq::empty()]
    } else {
        let rest = split_slashes(text.drop_last());
        if text.last() == '/' {
            rest.push(Seq::empty())
        } else {
            rest.drop_last().push(rest.last().push(text.last()))
        }
    }
}

/// The segments of a path's text: the pieces between slashes, without an empty
/// last piece.
pub open spec fn segments(text: Seq<char>) -> Seq<Seq<char>> {
    let pieces = split_slashes(text);
    if pieces.last().len() == 0 {
        pieces.drop_last()
    } else {
        pieces
    }
}

/// A path's text with one more segment.
pub open spec fn joined(text: Seq<char>, segment: Seq<char>) -> Seq<char> {
    if text.len() == 0 {
        segment
    } else {
        text.push('/') + segment
    }
}

/// The contents of a list of strings.
pub open spec fn texts(list: Seq<String>) -> Seq<Seq<char>> {
    list.map_values(|s: String| s@)
}

/// `<Path as AsRef<str>>::as_ref`: the path's text.
#[verifier::external_body]
pub(crate) fn path_text(path: &Path) -> (text: &str)
    ensures
        text@ == path_raw(*path),
{
    path.as_ref()
}

/// `<Path as From<&str>>::from`. A text of plain segments is the path's text
/// as it stands; what encoding makes of any other is left to its name.
#[verifier::external_body]
pub(crate) fn path_from(text: &str) -> (path: Path)
    ensures
        path_raw(path) == path_from_text(text@),
        (forall|i: int|
            0 <= i < split_slashes(text@).len() ==> is_plain_part(
                #[trigger] split_slashes(text@)[i],
            )) ==> path_raw(path) == text@,
{
    Path::from(text)
}

/// `Path::parts`: the path's segments in order.
#[verifier::external_body]
pub(crate) fn path_parts(path: &Path) -> (parts: Vec<String>)
    ensures
        texts(parts@) == segments(path_raw(*path)),
{
    path.parts().map(|part| part.as_ref().to_string()).collect()
}

/// `Path::join` with a string: one more segment, encoded where need be. A
/// plain segment stands as it is.
#[verifier::external_body]
pub(crate) fn path_join(path: Path, part: &str) -> (longer: Path)
    ensures
        path_raw(longer) == joined(path_raw(path), encoded_part(part@)),
        is_plain_part(part@) ==> path_raw(longer) == joined(path_raw(path), part@),
{
    path.join(part)
}

/// `Path::filename`: the piece after the last slash; none for the root.
#[verifier::external_body]
pub(crate) fn path_filename(path: &Path) -> (name: Option<&str>)
    ensures
        match name {
            Some(n) => path_raw(*path).len() > 0 && n@ == split_slashes(path_raw(*path)).last(),
            None => path_raw(*path).len() == 0,
        },
{
    path.filename()
}

/// What is left of a path's text after the path `prefix`. `None` where the path
/// does not lie under it.
pub open spec fn text_after(text: Seq<char>, prefix: Seq<char>) -> Option<Seq<char>> {
    if !prefix.is_prefix_of(text) {
        None
    } else {
        let rest = text.skip(prefix.len() as int);
        if rest.len() == 0 || prefix.len() == 0 {
            Some(rest)
        } else if rest[0] == '/' {
            Some(rest.drop_first())
        } else {
            None
        }
    }
}

/// The segments of a path's text, without empty ones.
pub open spec fn named_segments(text: Seq<char>) -> Seq<Seq<char>> {
    segments(text).filter(|segment: Seq<char>| segment.len() > 0)
}

/// A path's text with more segments.
pub open spec fn under(prefix: Seq<char>, parts: Seq<Seq<char>>) -> Seq<char>
    decreases parts.len(),
{
    if parts.len() == 0 {
        prefix
    } else {
        joined(under(prefix, parts.drop_last()), parts.last())
    }
}

/// `<Path as Extend>::extend` with the segments of another path, which are
/// taken as they are; empty ones are left out.
#[verifier::external_body]
pub(crate) fn path_extend(path: Path, tail: &Path) -> (longer: Path)
    ensures
        path_raw(longer) == under(path_raw(path), named_segments(path_raw(*tail))),
{
    let mut longer = path;
    longer.extend(tail.parts());
    longer
}

/// `Path::prefix_match`: the segments after `prefix`, collected into a path,
/// which leaves out empty ones; none where the path does not lie under
/// `prefix`.
#[verifier::external_body]
pub(crate) fn path_after(path: &Path, prefix: &Path) -> (rest: Option<Path>)
    ensures
        match rest {
            Some(r) => text_after(path_raw(*path), path_raw(*prefix)) is Some && path_raw(r)
                == join_slashes(
                named_segments(text_after(path_raw(*path), path_raw(*prefix))->0),
            ),
            None => text_after(path_raw(*path), path_raw(*prefix)) is None,
        },
{
    match path.prefix_match(prefix) {
        Some(parts) => Some(parts.collect()),
        None => None,
    }
}

/// `<Path as Clone>::clone`: the same path again.
pub assume_specification[ <Path as Clone>::clone ](path: &Path) -> (copy: Path)
    ensures
        path_raw(copy) == path_raw(*path),
;

/// A text begins with a split of at least one piece.
pub proof fn lemma_split_nonempty(text: Seq<char>)
    ensures
        split_slashes(text).len() > 0,
    decreases text.len(),
{
    if text.len() > 0 {
        lemma_split_nonempty(text.drop_last());
    }
}

/// Pieces put back together with slashes are the text.
pub open spec fn join_slashes(pieces: Seq<Seq<char>>) -> Seq<char>
    decreases pieces.len(),
{
    if pieces.len() == 0 {
        Seq::empty()
    } else if pieces.len() == 1 {
        pieces[0]
    } else {
        join_slashes(pieces.drop_last()).push('/') + pieces.last()
    }
}

/// Splitting loses nothing.
pub proof fn lemma_split_join(text: Seq<char>)
    ensures
        join_slashes(split_slashes(text)) == text,
    decreases text.len(),
{
    lemma_split_nonempty(text);
    if text.len() == 0 {
        assert(split_slashes(text)[0] =~= text);
    } else {
        let init = text.drop_last();
        let rest = split_slashes(init);
        lemma_split_join(init);
        lemma_split_nonempty(init);
        if text.last() == '/' {
            let pieces = rest.push(Seq::<char>::empty());
            assert(pieces.drop_last() =~= rest);
            assert(init.push('/') + Seq::<char>::empty() =~= text);
        } else {
            let pieces = rest.drop_last().push(rest.last().push(text.last()));
            assert(pieces.drop_last() =~= rest.drop_last());
            if rest.len() == 1 {
                assert(join_slashes(rest) == rest[0]);
                assert(rest[0].push(text.last()) =~= text);
            } else {
                let head = join_slashes(rest.drop_last()).push('/');
                assert(join_slashes(rest) == head + rest.last());
                assert(join_slashes(pieces) == head + rest.last().push(text.last()));
                assert(head + rest.last().push(text.last()) =~= (head + rest.last()).push(
                    text.last(),
                ));
                assert(init.push(text.last()) =~= text);
            }
        }
    }
}

} // verus!
