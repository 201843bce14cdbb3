//! Relative paths: `/`-separated, inside the repository, ordered component by component.

use crate::error::VcsError;
use crate::text::{characters, find_char, lemma_first_position};
use vstd::prelude::*;

verus! {

/// The components of a path: what stands between its separators.
pub open spec fn components(path: Seq<char>) -> Seq<Seq<char>>
    decreases path.len(),
{
    match path.index_of_first('/') {
        Some(i) => if 0 <= i < path.len() {
            seq![path.take(i)] + components(path.skip(i + 1))
        } else {
            seq![path]
        },
        None => seq![path],
    }
}

/// A component that names something below the directory it stands in.
pub open spec fn names_entry(component: Seq<char>) -> bool {
    component.len() > 0 && component != "."@ && component != ".."@
}

/// A path that holds no backslash, colon or NUL, and is not empty.
pub open spec fn plain_path(path: Seq<char>) -> bool {
    path.len() > 0 && !path.contains('\\') && !path.contains('\0') && !path.contains(':')
}

/// A path that stays below the directory it is relative to.
pub open spec fn scoped_path(path: Seq<char>) -> bool {
    forall|i: int| 0 <= i < components(path).len() ==> names_entry(#[trigger] components(path)[i])
}

/// A path that the protocol allows.
pub open spec fn valid_path(path: Seq<char>) -> bool {
    plain_path(path) && scoped_path(path)
}

/// What is wrong with a path, if anything is.
pub open spec fn path_problem(path: Seq<char>) -> Option<VcsError> {
    if !plain_path(path) {
        Some(VcsError::InvalidPath)
    } else if !scoped_path(path) {
        Some(VcsError::PathEscapes)
    } else {
        None
    }
}

/// The components of a path whose first separator stands at `i`.
proof fn lemma_split(path: Seq<char>, i: int)
    requires
        0 <= i < path.len(),
        path[i] == '/',
        forall|j: int| 0 <= j < i ==> path[j] != '/',
    ensures
        components(path) == seq![path.take(i)] + components(path.skip(i + 1)),
{
    lemma_first_position(path, '/', i);
}

/// A path without a separator is its only component.
proof fn lemma_single(path: Seq<char>)
    requires
        forall|j: int| 0 <= j < path.len() ==> path[j] != '/',
    ensures
        components(path) == seq![path],
{
    path.index_of_first_ensures('/');
}

/// What the parts of a split path hold.
pub open spec fn contents(parts: Seq<Vec<char>>) -> Seq<Seq<char>> {
    parts.map_values(|part: Vec<char>| part@)
}

/// Splits a path into its components.
pub fn split(path: &str) -> (parts: Vec<Vec<char>>)
    ensures
        contents(parts@) == components(path@),
{
    let chars: Vec<char> = characters(path);
    let mut parts: Vec<Vec<char>> = Vec::new();
    let mut part: Vec<char> = Vec::new();
    let mut i: usize = 0;
    assert(path@.skip(0) == path@);
    while i < chars.len()
        invariant
            i <= chars@.len(),
            chars@ == path@,
            part@.len() <= i,
            part@ == path@.subrange(i - part@.len(), i as int),
            forall|j: int| 0 <= j < part@.len() ==> part@[j] != '/',
            components(path@) == contents(parts@) + components(path@.skip(i - part@.len())),
        decreases chars@.len() - i,
    {
        let ghost start = i - part@.len();
        if chars[i] == '/' {
            proof {
                let rest = path@.skip(start);
                assert forall|j: int| 0 <= j < i - start implies rest[j] != '/' by {
                    assert(rest[j] == part@[j]);
                }
                lemma_split(rest, i - start);
                assert(rest.take(i - start) == part@);
                assert(rest.skip(i - start + 1) == path@.skip(i + 1));
            }
            let ghost before = contents(parts@);
            parts.push(part);
            assert(contents(parts@) == before.push(part@));
            assert(before + seq![part@] == before.push(part@));
            part = Vec::new();
        } else {
            part.push(chars[i]);
        }
        i += 1;
    }
    proof {
        let start = i - part@.len();
        let rest = path@.skip(start);
        assert(rest == part@);
        lemma_single(rest);
    }
    let ghost before = contents(parts@);
    parts.push(part);
    assert(contents(parts@) == before + seq![part@]);
    parts
}

fn names_entry_chars(component: &[char]) -> (named: bool)
    ensures
        named == names_entry(component@),
{
    proof {
        reveal_strlit(".");
        reveal_strlit("..");
    }
    let length: usize = component.len();
    let dot: bool = length == 1 && component[0] == '.';
    let dots: bool = length == 2 && component[0] == '.' && component[1] == '.';
    proof {
        if dot {
            assert(component@ == "."@);
        }
        if dots {
            assert(component@ == ".."@);
        }
    }
    length > 0 && !dot && !dots
}

/// Checks a path that a provider or a caller names.
pub fn validate_path(path: &str) -> (checked: Result<(), VcsError>)
    ensures
        checked == match path_problem(path@) {
            None => Ok(()),
            Some(problem) => Err(problem),
        },
{
    let chars: Vec<char> = characters(path);
    if chars.len() == 0 || find_char(&chars, '\\').is_some() || find_char(&chars, '\0').is_some()
        || find_char(&chars, ':').is_some() {
        return Err(VcsError::InvalidPath);
    }
    let parts: Vec<Vec<char>> = split(path);
    let mut i: usize = 0;
    while i < parts.len()
        invariant
            i <= parts@.len(),
            contents(parts@) == components(path@),
            plain_path(path@),
            forall|j: int| 0 <= j < i ==> names_entry(#[trigger] components(path@)[j]),
        decreases parts@.len() - i,
    {
        assert(parts@[i as int]@ == contents(parts@)[i as int]);
        if !names_entry_chars(&parts[i]) {
            assert(!names_entry(components(path@)[i as int]));
            return Err(VcsError::PathEscapes);
        }
        i += 1;
    }
    Ok(())
}

/// The components of two paths with a separator between them are those of the one and then those of
/// the other, and a path without a separator is its only component.
pub proof fn law_components_stand_between_separators(left: Seq<char>, right: Seq<char>)
    ensures
        components(left + seq!['/'] + right) == components(left) + components(right),
        !left.contains('/') ==> components(left) == seq![left],
    decreases left.len(),
{
    let path = left + seq!['/'] + right;
    left.index_of_first_ensures('/');
    match left.index_of_first('/') {
        Some(i) => {
            let rest = left.skip(i + 1);
            law_components_stand_between_separators(rest, right);
            assert(path.skip(i + 1) =~= rest + seq!['/'] + right);
            assert(path.take(i) =~= left.take(i));
            lemma_split(path, i);
            lemma_split(left, i);
            assert(seq![left.take(i)] + (components(rest) + components(right)) =~= (seq![
                left.take(i),
            ] + components(rest)) + components(right));
        },
        None => {
            assert forall|j: int| 0 <= j < left.len() implies left[j] != '/' by {
                if left[j] == '/' {
                    assert(left.contains('/'));
                }
            }
            lemma_single(left);
            assert(path.take(left.len() as int) =~= left);
            assert(path.skip(left.len() as int + 1) =~= right);
            lemma_split(path, left.len() as int);
        },
    }
}

/// A path is valid exactly where what stands before and after a separator of it is; one without a
/// separator is where it is not empty, holds no backslash, colon or NUL, and is neither a dot nor
/// two.
pub proof fn law_valid_paths_are_made_of_names(left: Seq<char>, right: Seq<char>)
    ensures
        valid_path(left + seq!['/'] + right) <==> valid_path(left) && valid_path(right),
        !left.contains('/') ==> (valid_path(left) <==> left.len() > 0 && !left.contains('\\')
            && !left.contains(':') && !left.contains('\0') && left != seq!['.'] && left
            != seq!['.', '.']),
{
    reveal_strlit(".");
    reveal_strlit("..");
    assert("."@ =~= seq!['.']);
    assert(".."@ =~= seq!['.', '.']);
    law_components_stand_between_separators(left, right);
    let path = left + seq!['/'] + right;
    let l = components(left);
    let r = components(right);
    lemma_contained(left, right, '\\');
    lemma_contained(left, right, ':');
    lemma_contained(left, right, '\0');
    lemma_nonempty(left);
    lemma_nonempty(right);
    if scoped_path(path) {
        assert forall|i: int| 0 <= i < l.len() implies names_entry(#[trigger] l[i]) by {
            assert(components(path)[i] == l[i]);
        }
        assert forall|i: int| 0 <= i < r.len() implies names_entry(#[trigger] r[i]) by {
            assert(components(path)[l.len() + i] == r[i]);
        }
    }
    if scoped_path(left) && scoped_path(right) {
        assert forall|i: int| 0 <= i < components(path).len() implies names_entry(
            #[trigger] components(path)[i],
        ) by {
            if i < l.len() {
                assert(components(path)[i] == l[i]);
            } else {
                assert(components(path)[i] == r[i - l.len()]);
            }
        }
    }
    if !left.contains('/') {
        assert(components(left)[0] == left);
    }
}

/// A character stands in two paths with a separator between them where it stands in either.
proof fn lemma_contained(left: Seq<char>, right: Seq<char>, c: char)
    requires
        c != '/',
    ensures
        (left + seq!['/'] + right).contains(c) <==> left.contains(c) || right.contains(c),
{
    let path = left + seq!['/'] + right;
    if path.contains(c) {
        let i = choose|i: int| 0 <= i < path.len() && path[i] == c;
        if i < left.len() {
            assert(left[i] == c);
        } else {
            assert(right[i - left.len() - 1] == c);
        }
    }
    if left.contains(c) {
        let i = choose|i: int| 0 <= i < left.len() && left[i] == c;
        assert(path[i] == c);
    }
    if right.contains(c) {
        let i = choose|i: int| 0 <= i < right.len() && right[i] == c;
        assert(path[left.len() + 1 + i] == c);
    }
}

/// An empty path has an empty component.
proof fn lemma_nonempty(path: Seq<char>)
    ensures
        scoped_path(path) ==> path.len() > 0,
{
    if path.len() == 0 {
        lemma_single(path);
        assert(components(path)[0] == path);
    }
}

/// A path that is not valid is refused for the characters in it first, and else for its components.
pub proof fn law_invalid_paths_are_refused(path: Seq<char>)
    ensures
        path_problem(path) is None <==> valid_path(path),
        path_problem(path) == Some(VcsError::InvalidPath) <==> path.len() == 0 || path.contains(
            '\\',
        ) || path.contains(':') || path.contains('\0'),
        path_problem(path) is Some ==> path_problem(path) == Some(VcsError::InvalidPath)
            || path_problem(path) == Some(VcsError::PathEscapes),
{
}

} // verus!
