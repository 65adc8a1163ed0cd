//! Unix paths as text.
use crate::text::{
    chars_of, chars_view, interleaved, law_pieces_make_the_text, law_texts_are_the_pieces,
    lemma_interleaved_last, pieces, split,
};
use vstd::prelude::*;
use vstd::string::*;

verus! {

/// One component of a path.
#[verifier::ext_equal]
pub enum PathPart {
    /// The leading `/`.
    Root,
    /// A leading `.`.
    Current,
    /// A `..`.
    Parent,
    /// A file or directory name.
    Normal(Seq<char>),
}

/// The component that the piece at position `at` stands for, if any.
pub open spec fn part_of_piece(piece: Seq<char>, at: int, rooted: bool) -> Option<PathPart> {
    if piece.len() == 0 {
        None
    } else if piece == seq!['.'] {
        if at == 0 && !rooted {
            Some(PathPart::Current)
        } else {
            None
        }
    } else if piece == seq!['.', '.'] {
        Some(PathPart::Parent)
    } else {
        Some(PathPart::Normal(piece))
    }
}

/// The components that the pieces between slashes stand for.
pub open spec fn parts_of_pieces(pieces: Seq<Seq<char>>, rooted: bool) -> Seq<PathPart>
    decreases pieces.len(),
{
    if pieces.len() == 0 {
        Seq::empty()
    } else {
        let before = parts_of_pieces(pieces.drop_last(), rooted);
        match part_of_piece(pieces.last(), pieces.len() - 1, rooted) {
            Some(part) => before.push(part),
            None => before,
        }
    }
}

/// Whether the path starts at the root directory.
pub open spec fn is_rooted(path: Seq<char>) -> bool {
    path.len() > 0 && path[0] == '/'
}

/// The components of a path. Repeated and trailing slashes count for nothing,
/// nor does a `.` anywhere but at the start.
pub open spec fn path_parts(path: Seq<char>) -> Seq<PathPart> {
    let rest = parts_of_pieces(pieces(path, '/'), is_rooted(path));
    if is_rooted(path) {
        seq![PathPart::Root] + rest
    } else {
        rest
    }
}

/// The name of the file or directory that the path leads to.
pub open spec fn file_name_of(path: Seq<char>) -> Option<Seq<char>> {
    let parts = path_parts(path);
    if parts.len() == 0 {
        None
    } else {
        match parts.last() {
            PathPart::Normal(name) => Some(name),
            _ => None,
        }
    }
}

/// A component at run time.
enum Part {
    Root,
    Current,
    Parent,
    Normal(Vec<char>),
}

impl Part {
    spec fn part(self) -> PathPart {
        match self {
            Part::Root => PathPart::Root,
            Part::Current => PathPart::Current,
            Part::Parent => PathPart::Parent,
            Part::Normal(name) => PathPart::Normal(name@),
        }
    }
}

spec fn parts_view(parts: Seq<Part>) -> Seq<PathPart> {
    parts.map_values(|part: Part| part.part())
}

/// Splits a path into its components.
fn components(path: &str) -> (parts: Vec<Part>)
    ensures
        parts_view(parts@) == path_parts(path@),
{
    let chars = chars_of(path);
    let rooted = chars.len() > 0 && chars[0] == '/';
    let names = split(chars.as_slice(), '/');
    let mut parts: Vec<Part> = Vec::new();
    let ghost prefix: Seq<PathPart> = if rooted { seq![PathPart::Root] } else { Seq::empty() };
    if rooted {
        parts.push(Part::Root);
    }
    assert(parts_view(parts@) =~= prefix);
    let ghost all = pieces(path@, '/');
    let mut i: usize = 0;
    assert(prefix + parts_of_pieces(all.take(0), rooted) =~= prefix);
    while i < names.len()
        invariant
            i <= names@.len(),
            chars_view(names@) == all,
            parts_view(parts@) == prefix + parts_of_pieces(all.take(i as int), rooted),
        decreases names@.len() - i,
    {
        let name = &names[i];
        let ghost before = parts_view(parts@);
        assert(all.take(i + 1).drop_last() =~= all.take(i as int));
        assert(all.take(i + 1).last() == name@);
        let part = if name.len() == 0 {
            None
        } else if name.len() == 1 && name[0] == '.' {
            assert(name@ =~= seq!['.']);
            if i == 0 && !rooted {
                Some(Part::Current)
            } else {
                None
            }
        } else if name.len() == 2 && name[0] == '.' && name[1] == '.' {
            assert(name@ =~= seq!['.', '.']);
            Some(Part::Parent)
        } else {
            let copy = name.clone();
            assert(copy@ =~= name@);
            Some(Part::Normal(copy))
        };
        match part {
            Some(part) => {
                assert(part_of_piece(name@, i as int, rooted) == Some(part.part()));
                parts.push(part);
                assert(parts_view(parts@) =~= before.push(part.part()));
                assert(before.push(part.part()) =~= prefix + parts_of_pieces(
                    all.take(i + 1),
                    rooted,
                ));
            },
            None => {},
        }
        i += 1;
    }
    assert(all.take(i as int) =~= all);
    assert(prefix + parts_of_pieces(all, rooted) =~= path_parts(path@));
    parts
}

/// The name of the file or directory that `path` leads to.
pub fn file_name(path: &str) -> (name: Option<Vec<char>>)
    ensures
        match name {
            Some(name) => file_name_of(path@) == Some(name@),
            None => file_name_of(path@) is None,
        },
{
    let mut parts = components(path);
    let ghost all = path_parts(path@);
    match parts.pop() {
        Some(part) => {
            assert(part.part() == all.last());
            match part {
                Part::Normal(name) => Some(name),
                _ => None,
            }
        },
        None => None,
    }
}

// ---------------------------------------------------------------------------
// Order
// ---------------------------------------------------------------------------

/// Whether `a` comes before `b` in the lexicographic order of texts.
pub open spec fn text_before(a: Seq<char>, b: Seq<char>) -> bool
    decreases a.len(),
{
    if b.len() == 0 {
        false
    } else if a.len() == 0 {
        true
    } else if a.first() == b.first() {
        text_before(a.drop_first(), b.drop_first())
    } else {
        a.first() < b.first()
    }
}

/// Where a component's kind stands in the order of components.
pub open spec fn part_rank(part: PathPart) -> int {
    match part {
        PathPart::Root => 0,
        PathPart::Current => 1,
        PathPart::Parent => 2,
        PathPart::Normal(_) => 3,
    }
}

/// Whether component `a` comes before `b`: by kind, names lexicographically.
pub open spec fn part_before(a: PathPart, b: PathPart) -> bool {
    match (a, b) {
        (PathPart::Normal(x), PathPart::Normal(y)) => text_before(x, y),
        _ => part_rank(a) < part_rank(b),
    }
}

/// Whether `a` comes before `b` in the lexicographic order of components.
pub open spec fn parts_before(a: Seq<PathPart>, b: Seq<PathPart>) -> bool
    decreases a.len(),
{
    if b.len() == 0 {
        false
    } else if a.len() == 0 {
        true
    } else if part_before(a.first(), b.first()) {
        true
    } else if part_before(b.first(), a.first()) {
        false
    } else {
        parts_before(a.drop_first(), b.drop_first())
    }
}

/// Whether path `a` comes before path `b`, component by component.
pub open spec fn path_before(a: Seq<char>, b: Seq<char>) -> bool {
    parts_before(path_parts(a), path_parts(b))
}

/// Of two texts at most one comes before the other.
pub proof fn lemma_text_asymmetric(a: Seq<char>, b: Seq<char>)
    ensures
        !(text_before(a, b) && text_before(b, a)),
    decreases a.len(),
{
    if a.len() > 0 && b.len() > 0 {
        lemma_text_asymmetric(a.drop_first(), b.drop_first());
    }
}

/// A text between two others in order comes after the first or before the
/// second.
pub proof fn lemma_text_between(a: Seq<char>, b: Seq<char>, c: Seq<char>)
    requires
        text_before(a, c),
    ensures
        text_before(a, b) || text_before(b, c),
    decreases a.len(),
{
    if a.len() > 0 && b.len() > 0 && c.len() > 0 && a.first() == c.first() {
        lemma_text_between(a.drop_first(), b.drop_first(), c.drop_first());
    }
}

/// Of two components at most one comes before the other.
proof fn lemma_part_asymmetric(a: PathPart, b: PathPart)
    ensures
        !(part_before(a, b) && part_before(b, a)),
{
    match (a, b) {
        (PathPart::Normal(x), PathPart::Normal(y)) => lemma_text_asymmetric(x, y),
        _ => {},
    }
}

/// A component between two others in order comes after the first or before
/// the second.
proof fn lemma_part_between(a: PathPart, b: PathPart, c: PathPart)
    requires
        part_before(a, c),
    ensures
        part_before(a, b) || part_before(b, c),
{
    match (a, b, c) {
        (
            PathPart::Normal(x),
            PathPart::Normal(y),
            PathPart::Normal(z),
        ) => lemma_text_between(x, y, z),
        _ => {},
    }
}

/// Of two sequences of components at most one comes before the other.
pub proof fn lemma_parts_asymmetric(a: Seq<PathPart>, b: Seq<PathPart>)
    ensures
        !(parts_before(a, b) && parts_before(b, a)),
    decreases a.len(),
{
    if a.len() > 0 && b.len() > 0 {
        lemma_part_asymmetric(a.first(), b.first());
        lemma_parts_asymmetric(a.drop_first(), b.drop_first());
    }
}

/// A sequence of components between two others in order comes after the first
/// or before the second.
pub proof fn lemma_parts_between(a: Seq<PathPart>, b: Seq<PathPart>, c: Seq<PathPart>)
    requires
        parts_before(a, c),
    ensures
        parts_before(a, b) || parts_before(b, c),
    decreases a.len(),
{
    if a.len() > 0 && b.len() > 0 && c.len() > 0 {
        let (x, y, z) = (a.first(), b.first(), c.first());
        lemma_part_asymmetric(x, y);
        lemma_part_asymmetric(y, z);
        lemma_part_asymmetric(x, z);
        if part_before(x, z) {
            lemma_part_between(x, y, z);
        }
        if part_before(y, x) {
            lemma_part_between(y, z, x);
        }
        if part_before(z, y) {
            lemma_part_between(z, x, y);
        }
        if !part_before(x, z) {
            lemma_parts_between(a.drop_first(), b.drop_first(), c.drop_first());
        }
    }
}

/// Whether `a` comes before `b`.
pub fn is_text_before(a: &[char], b: &[char]) -> (before: bool)
    ensures
        before == text_before(a@, b@),
{
    let mut i: usize = 0;
    assert(a@.skip(0) =~= a@);
    assert(b@.skip(0) =~= b@);
    while i < a.len() && i < b.len()
        invariant
            i <= a@.len(),
            i <= b@.len(),
            text_before(a@, b@) == text_before(a@.skip(i as int), b@.skip(i as int)),
        decreases a@.len() - i,
    {
        assert(a@.skip(i as int).drop_first() =~= a@.skip(i + 1));
        assert(b@.skip(i as int).drop_first() =~= b@.skip(i + 1));
        if a[i] != b[i] {
            return a[i] < b[i];
        }
        i += 1;
    }
    i < b.len()
}

/// Where a component's kind stands in the order of components.
fn rank(part: &Part) -> (rank: u8)
    ensures
        rank == part_rank(part.part()),
{
    match part {
        Part::Root => 0,
        Part::Current => 1,
        Part::Parent => 2,
        Part::Normal(_) => 3,
    }
}

/// Whether component `a` comes before `b`.
fn is_part_before(a: &Part, b: &Part) -> (before: bool)
    ensures
        before == part_before(a.part(), b.part()),
{
    match (a, b) {
        (Part::Normal(x), Part::Normal(y)) => is_text_before(x.as_slice(), y.as_slice()),
        _ => rank(a) < rank(b),
    }
}

/// Whether path `a` comes before path `b`.
pub fn is_path_before(a: &str, b: &str) -> (before: bool)
    ensures
        before == path_before(a@, b@),
{
    let left = components(a);
    let right = components(b);
    let ghost x = path_parts(a@);
    let ghost y = path_parts(b@);
    let mut i: usize = 0;
    assert(x.skip(0) =~= x);
    assert(y.skip(0) =~= y);
    while i < left.len() && i < right.len()
        invariant
            i <= left@.len(),
            i <= right@.len(),
            parts_view(left@) == x,
            parts_view(right@) == y,
            x == path_parts(a@),
            y == path_parts(b@),
            parts_before(x, y) == parts_before(x.skip(i as int), y.skip(i as int)),
        decreases left@.len() - i,
    {
        assert(x.skip(i as int).drop_first() =~= x.skip(i + 1));
        assert(y.skip(i as int).drop_first() =~= y.skip(i + 1));
        assert(x[i as int] == left@[i as int].part());
        assert(y[i as int] == right@[i as int].part());
        if is_part_before(&left[i], &right[i]) {
            return true;
        }
        if is_part_before(&right[i], &left[i]) {
            return false;
        }
        i += 1;
    }
    assert(x.len() == left@.len());
    assert(y.len() == right@.len());
    i < right.len()
}

// ---------------------------------------------------------------------------
// Joining
// ---------------------------------------------------------------------------

/// `tail` seen from the directory `base`: `tail` itself where it starts at the
/// root, else both with one separator between them.
pub open spec fn joined<T>(base: Seq<T>, tail: Seq<T>, separator: T) -> Seq<T> {
    if tail.len() > 0 && tail[0] == separator {
        tail
    } else if base.len() == 0 || base.last() == separator {
        base + tail
    } else {
        base.push(separator) + tail
    }
}

/// Joins two paths.
pub fn join(base: &str, tail: &str) -> (path: String)
    ensures
        path@ == joined(base@, tail@, '/'),
{
    let last = chars_of(base);
    let first = chars_of(tail);
    if first.len() > 0 && first[0] == '/' {
        return tail.to_owned();
    }
    let mut path = base.to_owned();
    if last.len() > 0 && last[last.len() - 1] != '/' {
        path.push('/');
    }
    path.append(tail);
    path
}

/// Joins two paths given as bytes.
pub fn join_bytes(base: &[u8], tail: &[u8]) -> (path: Vec<u8>)
    ensures
        path@ == joined(base@, tail@, 0x2f),
{
    let mut path: Vec<u8> = Vec::new();
    if tail.len() > 0 && tail[0] == 0x2f {
        path.extend_from_slice(tail);
        assert(path@ =~= tail@);
        return path;
    }
    path.extend_from_slice(base);
    assert(path@ =~= base@);
    if base.len() > 0 && base[base.len() - 1] != 0x2f {
        path.push(0x2f);
    }
    let ghost head = path@;
    path.extend_from_slice(tail);
    assert(path@ =~= head + tail@);
    path
}

// ---------------------------------------------------------------------------
// Laws
// ---------------------------------------------------------------------------

/// A text without a separator is its only piece.
proof fn lemma_one_piece(name: Seq<char>, separator: char)
    requires
        !name.contains(separator),
    ensures
        pieces(name, separator) == seq![name],
{
    let texts = seq![name];
    law_texts_are_the_pieces(texts, separator);
    assert(Seq::new(0, |i: int| seq![separator]) =~= Seq::<Seq<char>>::empty());
    assert(interleaved(texts, Seq::new((texts.len() - 1) as nat, |i: int| seq![separator]))
        == name);
}

/// A separator and a text without one add that text to the pieces.
pub proof fn lemma_last_piece(before: Seq<char>, name: Seq<char>, separator: char)
    requires
        !name.contains(separator),
    ensures
        pieces(before + seq![separator] + name, separator) == pieces(before, separator).push(name),
{
    let some = pieces(before, separator);
    let all = some.push(name);
    law_pieces_make_the_text(before, separator);
    assert forall|i: int| 0 <= i < all.len() implies !(#[trigger] all[i]).contains(separator) by {
        if i < some.len() {
            assert(all[i] == some[i]);
        }
    }
    law_texts_are_the_pieces(all, separator);
    let gaps = Seq::new((all.len() - 1) as nat, |i: int| seq![separator]);
    lemma_interleaved_last(all, gaps);
    assert(all.drop_last() =~= some);
    assert(gaps.drop_last() =~= Seq::new((some.len() - 1) as nat, |i: int| seq![separator]));
    assert(interleaved(all, gaps) == before + seq![separator] + name);
}

/// A path leads to the file or directory that its last part names, whatever
/// directory it goes through.
pub proof fn law_paths_end_with_their_name(dir: Seq<char>, name: Seq<char>)
    requires
        name.len() > 0,
        !name.contains('/'),
        name != seq!['.'],
        name != seq!['.', '.'],
    ensures
        file_name_of(name) == Some(name),
        file_name_of(dir + seq!['/'] + name) == Some(name),
        path_parts(dir + seq!['/'] + name).last() == PathPart::Normal(name),
{
    lemma_one_piece(name, '/');
    assert(name.contains(name[0]));
    assert(seq![name].drop_last() =~= Seq::empty());
    assert(parts_of_pieces(seq![name].drop_last(), false) =~= Seq::empty());
    assert(parts_of_pieces(seq![name], false) =~= seq![PathPart::Normal(name)]);
    let path = dir + seq!['/'] + name;
    lemma_last_piece(dir, name, '/');
    let some = pieces(dir, '/');
    assert(some.push(name).drop_last() =~= some);
    assert(parts_of_pieces(some.push(name), is_rooted(path)).last() == PathPart::Normal(name));
}

/// A trailing slash and a trailing `.` behind one make no difference to where a
/// path leads; a trailing `..` names no file.
pub proof fn law_trailing_slashes_and_dots(path: Seq<char>)
    requires
        path.len() > 0,
    ensures
        file_name_of(path + seq!['/']) == file_name_of(path),
        file_name_of(path + seq!['/', '.']) == file_name_of(path),
        file_name_of(path + seq!['/', '.', '.']) is None,
{
    let rooted = is_rooted(path);
    let some = pieces(path, '/');
    law_pieces_make_the_text(path, '/');
    let nothing = Seq::<char>::empty();
    let dot = seq!['.'];
    let dots = seq!['.', '.'];
    lemma_last_piece(path, nothing, '/');
    lemma_last_piece(path, dot, '/');
    lemma_last_piece(path, dots, '/');
    assert(path + seq!['/'] + nothing =~= path + seq!['/']);
    assert(path + seq!['/'] + dot =~= path + seq!['/', '.']);
    assert(path + seq!['/'] + dots =~= path + seq!['/', '.', '.']);
    assert(some.push(nothing).drop_last() =~= some);
    assert(some.push(dot).drop_last() =~= some);
    assert(some.push(dots).drop_last() =~= some);
    assert(path_parts(path + seq!['/']) == path_parts(path));
    assert(path_parts(path + seq!['/', '.']) == path_parts(path));
    let parts = path_parts(path + seq!['/', '.', '.']);
    assert(parts.last() == PathPart::Parent);
}

/// A text comes before those that go on where it ends, and of two that differ
/// the one with the lower character where they first differ comes first. No
/// text comes before itself.
pub proof fn law_texts_are_in_character_order(
    start: Seq<char>,
    a: char,
    b: char,
    x: Seq<char>,
    y: Seq<char>,
)
    ensures
        !text_before(start, start),
        text_before(start, start + seq![a] + x),
        !text_before(start + seq![a] + x, start),
        a < b ==> text_before(start + seq![a] + x, start + seq![b] + y),
        a < b ==> !text_before(start + seq![b] + y, start + seq![a] + x),
    decreases start.len(),
{
    let longer = start + seq![a] + x;
    let other = start + seq![b] + y;
    if start.len() > 0 {
        let rest = start.drop_first();
        law_texts_are_in_character_order(rest, a, b, x, y);
        assert(longer.drop_first() =~= rest + seq![a] + x);
        assert(other.drop_first() =~= rest + seq![b] + y);
    }
}

/// Paths in one directory come in the order of their names.
pub proof fn law_names_in_a_directory_are_in_order(dir: Seq<char>, x: Seq<char>, y: Seq<char>)
    requires
        x.len() > 0,
        y.len() > 0,
        !x.contains('/'),
        !y.contains('/'),
        x != seq!['.'] && x != seq!['.', '.'],
        y != seq!['.'] && y != seq!['.', '.'],
    ensures
        path_before(dir + seq!['/'] + x, dir + seq!['/'] + y) == text_before(x, y),
{
    lemma_last_piece(dir, x, '/');
    lemma_last_piece(dir, y, '/');
    let some = pieces(dir, '/');
    assert(some.push(x).drop_last() =~= some);
    assert(some.push(y).drop_last() =~= some);
    let a = dir + seq!['/'] + x;
    let b = dir + seq!['/'] + y;
    assert(is_rooted(a) == is_rooted(b));
    let common = if is_rooted(a) {
        seq![PathPart::Root] + parts_of_pieces(some, true)
    } else {
        parts_of_pieces(some, false)
    };
    law_pieces_make_the_text(dir, '/');
    assert(path_parts(a) =~= common.push(PathPart::Normal(x)));
    assert(path_parts(b) =~= common.push(PathPart::Normal(y)));
    lemma_common_parts(common, PathPart::Normal(x), PathPart::Normal(y));
}

/// What two paths have in common at their start does not matter to their order.
proof fn lemma_common_parts(common: Seq<PathPart>, a: PathPart, b: PathPart)
    ensures
        parts_before(common.push(a), common.push(b)) == part_before(a, b),
    decreases common.len(),
{
    let (x, y) = (common.push(a), common.push(b));
    reveal_with_fuel(parts_before, 2);
    if common.len() == 0 {
        lemma_part_asymmetric(a, b);
        assert(x.drop_first() =~= Seq::empty());
        assert(y.drop_first() =~= Seq::empty());
    } else {
        lemma_part_asymmetric(common.first(), common.first());
        assert(x.drop_first() =~= common.drop_first().push(a));
        assert(y.drop_first() =~= common.drop_first().push(b));
        lemma_common_parts(common.drop_first(), a, b);
    }
}

/// A path that starts at the root stands for itself in any directory; another
/// one follows the directory behind one separator.
pub proof fn law_joining<T>(base: Seq<T>, tail: Seq<T>, separator: T)
    ensures
        joined(base, seq![separator] + tail, separator) == seq![separator] + tail,
        base.len() > 0 && base.last() != separator && (tail.len() == 0 || tail[0] != separator)
            ==> joined(base, tail, separator) == base + seq![separator] + tail,
        tail.len() == 0 || tail[0] != separator ==> joined(base + seq![separator], tail, separator)
            == base + seq![separator] + tail,
{
    assert(base.push(separator) =~= base + seq![separator]);
}

} // verus!
