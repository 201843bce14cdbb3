//! Order: that of paths, component by component, each by its characters, and its reverse.

use crate::path::{components, contents, law_components_stand_between_separators};
use vstd::prelude::*;

verus! {

/// Whether `left` comes before `right`, by characters.
pub open spec fn text_before(left: Seq<char>, right: Seq<char>) -> bool
    decreases left.len(),
{
    if right.len() == 0 {
        false
    } else if left.len() == 0 {
        true
    } else if left[0] == right[0] {
        text_before(left.skip(1), right.skip(1))
    } else {
        left[0] < right[0]
    }
}

/// Whether `left` comes before `right`, by components.
pub open spec fn parts_before(left: Seq<Seq<char>>, right: Seq<Seq<char>>) -> bool
    decreases left.len(),
{
    if right.len() == 0 {
        false
    } else if left.len() == 0 {
        true
    } else if left[0] == right[0] {
        parts_before(left.skip(1), right.skip(1))
    } else {
        text_before(left[0], right[0])
    }
}

/// Whether the path `left` comes before the path `right`.
pub open spec fn path_before(left: Seq<char>, right: Seq<char>) -> bool {
    parts_before(components(left), components(right))
}

/// Whether `path` is `directory` or lies below it; everything lies below the empty path.
pub open spec fn lies_within(path: Seq<char>, directory: Seq<char>) -> bool {
    directory.len() == 0 || components(directory).is_prefix_of(components(path))
}

/// Of two texts, one comes first unless they are the same, and then neither does.
proof fn lemma_text_total(left: Seq<char>, right: Seq<char>)
    ensures
        left == right ==> !text_before(left, right),
        left != right ==> text_before(left, right) != text_before(right, left),
    decreases left.len(),
{
    if left.len() > 0 && right.len() > 0 && left[0] == right[0] {
        lemma_text_total(left.skip(1), right.skip(1));
        if left.skip(1) == right.skip(1) {
            assert(left == seq![left[0]] + left.skip(1));
            assert(right == seq![right[0]] + right.skip(1));
        }
    } else if left.len() == 0 && right.len() == 0 {
        assert(left == right);
    }
}

proof fn lemma_text_transitive(a: Seq<char>, b: Seq<char>, c: Seq<char>)
    requires
        text_before(a, b),
        text_before(b, c),
    ensures
        text_before(a, c),
    decreases a.len(),
{
    if a.len() > 0 && a[0] == b[0] && b[0] == c[0] {
        lemma_text_transitive(a.skip(1), b.skip(1), c.skip(1));
    }
}

/// Of two lists of components, one comes first unless they are the same, and then neither does.
proof fn lemma_parts_total(left: Seq<Seq<char>>, right: Seq<Seq<char>>)
    ensures
        left == right ==> !parts_before(left, right),
        left != right ==> parts_before(left, right) != parts_before(right, left),
    decreases left.len(),
{
    if left.len() > 0 && right.len() > 0 {
        if left[0] == right[0] {
            lemma_parts_total(left.skip(1), right.skip(1));
            if left.skip(1) == right.skip(1) {
                assert(left == seq![left[0]] + left.skip(1));
                assert(right == seq![right[0]] + right.skip(1));
            }
        } else {
            lemma_text_total(left[0], right[0]);
        }
    } else if left.len() == 0 && right.len() == 0 {
        assert(left == right);
    }
}

proof fn lemma_parts_transitive(a: Seq<Seq<char>>, b: Seq<Seq<char>>, c: Seq<Seq<char>>)
    requires
        parts_before(a, b),
        parts_before(b, c),
    ensures
        parts_before(a, c),
    decreases a.len(),
{
    if a.len() > 0 {
        if a[0] == b[0] && b[0] == c[0] {
            lemma_parts_transitive(a.skip(1), b.skip(1), c.skip(1));
        } else if a[0] != b[0] && b[0] != c[0] {
            lemma_text_transitive(a[0], b[0], c[0]);
            lemma_text_total(a[0], c[0]);
        }
    }
}

/// What some components spell, with separators between them.
spec fn joined(parts: Seq<Seq<char>>) -> Seq<char>
    decreases parts.len(),
{
    if parts.len() == 0 {
        Seq::empty()
    } else if parts.len() == 1 {
        parts[0]
    } else {
        parts[0] + seq!['/'] + joined(parts.skip(1))
    }
}

/// A path is spelled by its components.
proof fn lemma_joined(path: Seq<char>)
    ensures
        joined(components(path)) == path,
        components(path).len() > 0,
    decreases path.len(),
{
    path.index_of_first_ensures('/');
    match path.index_of_first('/') {
        Some(i) => {
            let rest = path.skip(i + 1);
            lemma_joined(rest);
            let parts = components(path);
            assert(parts.skip(1) == components(rest));
            assert(parts[0] == path.take(i));
            assert(path.take(i) + seq!['/'] + rest == path);
        },
        None => {},
    }
}

/// The order of paths is total: of two paths, exactly one comes first unless they are the same.
pub proof fn law_path_order_is_total(left: Seq<char>, right: Seq<char>)
    ensures
        left == right ==> !path_before(left, right),
        left != right ==> path_before(left, right) != path_before(right, left),
{
    lemma_parts_total(components(left), components(right));
    lemma_joined(left);
    lemma_joined(right);
}

/// The order of paths is transitive.
pub proof fn law_path_order_is_transitive(a: Seq<char>, b: Seq<char>, c: Seq<char>)
    requires
        path_before(a, b),
        path_before(b, c),
    ensures
        path_before(a, c),
{
    lemma_parts_transitive(components(a), components(b), components(c));
}

/// Compares two texts by their characters.
fn is_text_before(left: &[char], right: &[char]) -> (before: bool)
    ensures
        before == text_before(left@, right@),
{
    let mut i: usize = 0;
    assert(left@.skip(0) == left@ && right@.skip(0) == right@);
    while i < left.len() && i < right.len() && left[i] == right[i]
        invariant
            i <= left@.len(),
            i <= right@.len(),
            text_before(left@, right@) == text_before(
                left@.skip(i as int),
                right@.skip(i as int),
            ),
        decreases left@.len() - i,
    {
        assert(left@.skip(i as int).skip(1) == left@.skip(i + 1));
        assert(right@.skip(i as int).skip(1) == right@.skip(i + 1));
        i += 1;
    }
    if i == right.len() {
        false
    } else if i == left.len() {
        true
    } else {
        left[i] < right[i]
    }
}

/// Whether two texts are the same.
fn same_chars(left: &[char], right: &[char]) -> (same: bool)
    ensures
        same == (left@ == right@),
{
    if left.len() != right.len() {
        return false;
    }
    let mut i: usize = 0;
    while i < left.len()
        invariant
            i <= left@.len() == right@.len(),
            forall|j: int| 0 <= j < i ==> left@[j] == right@[j],
        decreases left@.len() - i,
    {
        if left[i] != right[i] {
            return false;
        }
        i += 1;
    }
    assert(left@ == right@);
    true
}

/// Compares two lists of components.
pub fn is_before(left: &Vec<Vec<char>>, right: &Vec<Vec<char>>) -> (before: bool)
    ensures
        before == parts_before(contents(left@), contents(right@)),
{
    let ghost l = contents(left@);
    let ghost r = contents(right@);
    let mut i: usize = 0;
    assert(l.skip(0) == l && r.skip(0) == r);
    while i < left.len() && i < right.len() && same_chars(&left[i], &right[i])
        invariant
            i <= left@.len(),
            i <= right@.len(),
            l == contents(left@),
            r == contents(right@),
            parts_before(l, r) == parts_before(l.skip(i as int), r.skip(i as int)),
        decreases left@.len() - i,
    {
        assert(l.skip(i as int)[0] == left@[i as int]@);
        assert(r.skip(i as int)[0] == right@[i as int]@);
        assert(l.skip(i as int).skip(1) == l.skip(i + 1));
        assert(r.skip(i as int).skip(1) == r.skip(i + 1));
        i += 1;
    }
    if i == right.len() {
        false
    } else if i == left.len() {
        true
    } else {
        assert(l.skip(i as int)[0] == left@[i as int]@);
        assert(r.skip(i as int)[0] == right@[i as int]@);
        is_text_before(&left[i], &right[i])
    }
}

/// Whether the components of `directory` begin those of `path`.
pub fn begins_with(path: &Vec<Vec<char>>, directory: &Vec<Vec<char>>) -> (begins: bool)
    ensures
        begins == contents(directory@).is_prefix_of(contents(path@)),
{
    if directory.len() > path.len() {
        return false;
    }
    let ghost p = contents(path@);
    let ghost d = contents(directory@);
    let mut i: usize = 0;
    while i < directory.len()
        invariant
            i <= directory@.len() <= path@.len(),
            p == contents(path@),
            d == contents(directory@),
            forall|j: int| 0 <= j < i ==> d[j] == p[j],
        decreases directory@.len() - i,
    {
        if !same_chars(&path[i], &directory[i]) {
            assert(p.subrange(0, d.len() as int)[i as int] != d[i as int]);
            return false;
        }
        i += 1;
    }
    assert(d =~= p.subrange(0, d.len() as int));
    true
}

/// Whether positions are in the order of the keys they stand for.
pub open spec fn in_order(keys: Seq<Vec<Vec<char>>>, positions: Seq<usize>) -> bool {
    forall|i: int, j: int|
        0 <= i < j < positions.len() ==> key_before(
            keys,
            #[trigger] positions[i],
            #[trigger] positions[j],
        )
}

/// Whether the key at `left` comes before the key at `right`.
pub open spec fn key_before(keys: Seq<Vec<Vec<char>>>, left: usize, right: usize) -> bool {
    parts_before(contents(keys[left as int]@), contents(keys[right as int]@))
}

/// Whether no two keys are the same.
pub open spec fn distinct(keys: Seq<Vec<Vec<char>>>) -> bool {
    forall|i: int, j: int|
        0 <= i < j < keys.len() ==> contents(#[trigger] keys[i]@) != contents(#[trigger] keys[j]@)
}

/// Whether `positions` are those from `from` up to `to`.
pub open spec fn covers(positions: Seq<usize>, from: int, to: int) -> bool {
    &&& forall|i: int| 0 <= i < positions.len() ==> from <= #[trigger] positions[i] < to
    &&& forall|p: usize| from <= p < to ==> #[trigger] positions.contains(p)
}

/// Merges two runs, the left one of lower positions, in the order of their keys.
fn merge(
    keys: &Vec<Vec<Vec<char>>>,
    left: &Vec<usize>,
    right: &Vec<usize>,
    Ghost(from): Ghost<int>,
    Ghost(middle): Ghost<int>,
    Ghost(to): Ghost<int>,
) -> (merged: Vec<usize>)
    requires
        0 <= from <= middle <= to <= keys@.len(),
        distinct(keys@),
        in_order(keys@, left@),
        in_order(keys@, right@),
        covers(left@, from, middle),
        covers(right@, middle, to),
    ensures
        in_order(keys@, merged@),
        covers(merged@, from, to),
{
    let mut merged: Vec<usize> = Vec::new();
    let mut i: usize = 0;
    let mut j: usize = 0;
    while i < left.len() || j < right.len()
        invariant
            0 <= from <= middle <= to <= keys@.len(),
            distinct(keys@),
            in_order(keys@, left@),
            in_order(keys@, right@),
            covers(left@, from, middle),
            covers(right@, middle, to),
            i <= left@.len(),
            j <= right@.len(),
            in_order(keys@, merged@),
            forall|k: int| 0 <= k < merged@.len() ==> from <= #[trigger] merged@[k] < to,
            forall|k: int, m: int|
                0 <= k < merged@.len() && i <= m < left@.len() ==> key_before(
                    keys@,
                    #[trigger] merged@[k],
                    #[trigger] left@[m],
                ),
            forall|k: int, m: int|
                0 <= k < merged@.len() && j <= m < right@.len() ==> key_before(
                    keys@,
                    #[trigger] merged@[k],
                    #[trigger] right@[m],
                ),
            forall|m: int| 0 <= m < i ==> merged@.contains(#[trigger] left@[m]),
            forall|m: int| 0 <= m < j ==> merged@.contains(#[trigger] right@[m]),
        decreases left@.len() - i + right@.len() - j,
    {
        let ghost before = merged@;
        let take_left: bool = if i == left.len() {
            false
        } else if j == right.len() {
            true
        } else {
            assert(from <= left@[i as int] < middle <= right@[j as int] < to);
            is_before(&keys[left[i]], &keys[right[j]])
        };
        proof {
            if i < left@.len() && j < right@.len() {
                let a = contents(keys@[left@[i as int] as int]@);
                let b = contents(keys@[right@[j as int] as int]@);
                assert(from <= left@[i as int] < middle <= right@[j as int] < to);
                lemma_parts_total(a, b);
                if take_left {
                    assert forall|m: int| j <= m < right@.len() implies key_before(
                        keys@,
                        left@[i as int],
                        #[trigger] right@[m],
                    ) by {
                        if m > j {
                            lemma_parts_transitive(a, b, contents(keys@[right@[m] as int]@));
                        }
                    }
                } else {
                    assert forall|m: int| i <= m < left@.len() implies key_before(
                        keys@,
                        right@[j as int],
                        #[trigger] left@[m],
                    ) by {
                        if m > i {
                            lemma_parts_transitive(b, a, contents(keys@[left@[m] as int]@));
                        }
                    }
                }
            }
        }
        if take_left {
            merged.push(left[i]);
            i += 1;
            assert(merged@[before.len() as int] == left@[i - 1]);
        } else {
            merged.push(right[j]);
            j += 1;
            assert(merged@[before.len() as int] == right@[j - 1]);
        }
        proof {
            assert(merged@.drop_last() == before);
            assert forall|m: int| 0 <= m < i implies merged@.contains(#[trigger] left@[m]) by {
                lemma_kept(before, merged@, left@[m]);
            }
            assert forall|m: int| 0 <= m < j implies merged@.contains(#[trigger] right@[m]) by {
                lemma_kept(before, merged@, right@[m]);
            }
        }
    }
    proof {
        assert forall|p: usize| from <= p < to implies #[trigger] merged@.contains(p) by {
            if p < middle {
                assert(left@.contains(p));
                let m = choose|m: int| 0 <= m < left@.len() && left@[m] == p;
                assert(merged@.contains(left@[m]));
            } else {
                assert(right@.contains(p));
                let m = choose|m: int| 0 <= m < right@.len() && right@[m] == p;
                assert(merged@.contains(right@[m]));
            }
        }
    }
    merged
}

/// What a list held, or was given last, it holds.
proof fn lemma_kept(before: Seq<usize>, after: Seq<usize>, p: usize)
    requires
        after.len() == before.len() + 1,
        after.drop_last() == before,
        before.contains(p) || after.last() == p,
    ensures
        after.contains(p),
{
    if before.contains(p) {
        let k = choose|k: int| 0 <= k < before.len() && before[k] == p;
        assert(after[k] == after.drop_last()[k]);
    }
}

/// The positions from `from` up to `to`, in the order of their keys.
pub fn sort_positions(keys: &Vec<Vec<Vec<char>>>, from: usize, to: usize) -> (sorted: Vec<usize>)
    requires
        from <= to <= keys@.len(),
        distinct(keys@),
    ensures
        in_order(keys@, sorted@),
        covers(sorted@, from as int, to as int),
    decreases to - from,
{
    let mut sorted: Vec<usize> = Vec::new();
    if to - from == 0 {
        return sorted;
    }
    if to - from == 1 {
        sorted.push(from);
        assert(sorted@[0] == from);
        return sorted;
    }
    let middle: usize = from + (to - from) / 2;
    let left: Vec<usize> = sort_positions(keys, from, middle);
    let right: Vec<usize> = sort_positions(keys, middle, to);
    merge(keys, &left, &right, Ghost(from as int), Ghost(middle as int), Ghost(to as int))
}

/// The same things, the last first.
pub fn reversed<T>(things: Vec<T>) -> (backwards: Vec<T>)
    ensures
        backwards@ == things@.reverse(),
{
    let mut things: Vec<T> = things;
    let ghost all = things@;
    let mut backwards: Vec<T> = Vec::new();
    while things.len() > 0
        invariant
            things@.len() + backwards@.len() == all.len(),
            things@ == all.take(things@.len() as int),
            backwards@ == all.skip(things@.len() as int).reverse(),
        decreases things@.len(),
    {
        let ghost n = things@.len() as int;
        match things.pop() {
            Some(thing) => {
                assert(thing == all[n - 1]);
                backwards.push(thing);
                assert(things@ =~= all.take(n - 1));
                assert(backwards@ =~= all.skip(n - 1).reverse());
            },
            None => {},
        }
    }
    assert(all.skip(0) =~= all);
    backwards
}

/// Of two texts the one comes first that ends first, or that has the lower character at the first
/// place where they differ.
pub proof fn law_texts_differ_at_one_place(left: Seq<char>, right: Seq<char>, n: int)
    requires
        0 <= n <= left.len(),
        n <= right.len(),
        left.take(n) == right.take(n),
        n < left.len() && n < right.len() ==> left[n] != right[n],
    ensures
        text_before(left, right) <==> n < right.len() && (n == left.len() || left[n] < right[n]),
    decreases left.len(),
{
    if n > 0 {
        assert(left.take(n)[0] == left[0] && right.take(n)[0] == right[0]);
        assert(left.skip(1).take(n - 1) =~= left.take(n).skip(1));
        assert(right.skip(1).take(n - 1) =~= right.take(n).skip(1));
        law_texts_differ_at_one_place(left.skip(1), right.skip(1), n - 1);
    }
}

/// Names in one directory come in the order of the names, a directory comes before what lies in it,
/// and where directories side by side have different names, so do all things in them.
pub proof fn law_paths_are_ordered_by_directory(
    directory: Seq<char>,
    left: Seq<char>,
    right: Seq<char>,
    below_left: Seq<char>,
    below_right: Seq<char>,
)
    ensures
        path_before(directory + seq!['/'] + left, directory + seq!['/'] + right) == path_before(
            left,
            right,
        ),
        path_before(directory, directory + seq!['/'] + left),
        !left.contains('/') && !right.contains('/') ==> path_before(left, right) == text_before(
            left,
            right,
        ),
        !left.contains('/') && !right.contains('/') && left != right ==> path_before(
            left + seq!['/'] + below_left,
            right + seq!['/'] + below_right,
        ) == text_before(left, right) && path_before(left, right + seq!['/'] + below_right)
            == text_before(left, right) && path_before(left + seq!['/'] + below_left, right)
            == text_before(left, right),
{
    law_components_stand_between_separators(directory, left);
    law_components_stand_between_separators(directory, right);
    law_components_stand_between_separators(left, below_left);
    law_components_stand_between_separators(right, below_right);
    let d = components(directory);
    lemma_joined(left);
    lemma_joined(right);
    lemma_joined(directory);
    lemma_same_start(d, components(left), components(right));
    lemma_same_start(d, Seq::empty(), components(left));
    assert(d + Seq::<Seq<char>>::empty() =~= d);
    if !left.contains('/') && !right.contains('/') {
        lemma_text_total(left, right);
        assert(components(left)[0] == left && components(right)[0] == right);
        assert(components(left).skip(1) =~= Seq::<Seq<char>>::empty());
        assert(components(right).skip(1) =~= Seq::<Seq<char>>::empty());
        reveal_with_fuel(parts_before, 2);
    }
}

/// What components begin with in common makes no difference to their order.
proof fn lemma_same_start(
    start: Seq<Seq<char>>,
    left: Seq<Seq<char>>,
    right: Seq<Seq<char>>,
)
    ensures
        parts_before(start + left, start + right) == parts_before(left, right),
    decreases start.len(),
{
    if start.len() > 0 {
        lemma_same_start(start.skip(1), left, right);
        assert((start + left).skip(1) =~= start.skip(1) + left);
        assert((start + right).skip(1) =~= start.skip(1) + right);
    } else {
        assert(start + left =~= left);
        assert(start + right =~= right);
    }
}

/// A path lies within a directory exactly where it is the directory, or goes on after it with a
/// separator; everything lies within the empty path.
pub proof fn law_what_lies_within_goes_on_after_a_separator(
    path: Seq<char>,
    directory: Seq<char>,
)
    ensures
        lies_within(path, directory) <==> directory.len() == 0 || path == directory || exists|
            rest: Seq<char>,
        |
            path == #[trigger] (directory + seq!['/'] + rest),
{
    let p = components(path);
    let d = components(directory);
    if directory.len() > 0 && d.is_prefix_of(p) {
        lemma_joined(path);
        lemma_joined(directory);
        let rest = p.skip(d.len() as int);
        assert(p =~= d + rest);
        if rest.len() == 0 {
            assert(p =~= d);
        } else {
            lemma_joined_parts(d, rest);
            assert(path == directory + seq!['/'] + joined(rest));
        }
    }
    if path == directory {
        assert(d =~= p.subrange(0, d.len() as int));
    }
    if exists|rest: Seq<char>| path == #[trigger] (directory + seq!['/'] + rest) {
        let rest = choose|rest: Seq<char>| path == #[trigger] (directory + seq!['/'] + rest);
        law_components_stand_between_separators(directory, rest);
        assert(d =~= p.subrange(0, d.len() as int));
    }
}

proof fn lemma_joined_parts(left: Seq<Seq<char>>, right: Seq<Seq<char>>)
    requires
        left.len() > 0,
        right.len() > 0,
    ensures
        joined(left + right) == joined(left) + seq!['/'] + joined(right),
    decreases left.len(),
{
    let whole = left + right;
    assert(whole.skip(1) =~= left.skip(1) + right);
    if left.len() > 1 {
        lemma_joined_parts(left.skip(1), right);
        assert(left[0] + seq!['/'] + (joined(left.skip(1)) + seq!['/'] + joined(right)) =~= left[0]
            + seq!['/'] + joined(left.skip(1)) + seq!['/'] + joined(right));
    } else {
        assert(left.skip(1) + right =~= right);
    }
}

} // verus!
