//! Paths as bytes, and when two of them are the same.

use vstd::prelude::*;

verus! {

/// How many bytes stand before the first slash.
pub open spec fn piece_len(path: Seq<u8>) -> nat
    decreases path.len(),
{
    if path.len() == 0 || path[0] == 47 {
        0
    } else {
        1 + piece_len(path.skip(1))
    }
}

/// A piece between slashes names nothing: it is empty, or a single dot.
pub open spec fn names_nothing(piece: Seq<u8>) -> bool {
    piece.len() == 0 || piece == seq![46u8]
}

/// The parts of a path: what stands between its slashes, without what names nothing.
pub open spec fn path_parts(path: Seq<u8>) -> Seq<Seq<u8>>
    decreases path.len(),
{
    if path.len() == 0 {
        Seq::empty()
    } else {
        let len = piece_len(path) as int;
        let piece = path.take(len);
        let rest = if 0 <= len < path.len() {
            path_parts(path.skip(len + 1))
        } else {
            Seq::empty()
        };
        if names_nothing(piece) {
            rest
        } else {
            seq![piece] + rest
        }
    }
}

/// The path begins at the root.
pub open spec fn is_rooted(path: Seq<u8>) -> bool {
    path.len() > 0 && path[0] == 47
}

/// The path begins with a single dot, which counts there and nowhere else.
pub open spec fn begins_with_dot(path: Seq<u8>) -> bool {
    path.take(piece_len(path) as int) == seq![46u8]
}

/// Two paths are the same: repeated and trailing slashes, and dots but for one at the beginning,
/// make no difference.
pub open spec fn same_path(one: Seq<u8>, other: Seq<u8>) -> bool {
    &&& is_rooted(one) == is_rooted(other)
    &&& begins_with_dot(one) == begins_with_dot(other)
    &&& path_parts(one) == path_parts(other)
}

/// Parts as sequences of bytes.
pub open spec fn parts_view(parts: Seq<Vec<u8>>) -> Seq<Seq<u8>> {
    Seq::new(parts.len(), |i: int| parts[i]@)
}

/// Reads the piece that begins at `from`.
fn piece_at(path: &[u8], from: usize) -> (piece: Vec<u8>)
    requires
        from <= path@.len(),
    ensures
        ({
            let rest = path@.skip(from as int);
            &&& piece@ == rest.take(piece_len(rest) as int)
            &&& piece@.len() == piece_len(rest) <= rest.len()
        }),
{
    let ghost rest = path@.skip(from as int);
    let mut piece: Vec<u8> = Vec::new();
    let mut i: usize = from;
    while i < path.len() && path[i] != 47
        invariant
            from <= i <= path@.len(),
            rest == path@.skip(from as int),
            piece@ == rest.take(i - from),
            piece_len(rest) == i - from + piece_len(path@.skip(i as int)),
        decreases path@.len() - i,
    {
        assert(path@.skip(i as int).skip(1) =~= path@.skip(i + 1));
        piece.push(path[i]);
        i += 1;
        assert(piece@ =~= rest.take(i - from));
    }
    assert(piece_len(path@.skip(i as int)) == 0);
    piece
}

fn is_dot(piece: &Vec<u8>) -> (yes: bool)
    ensures
        yes == (piece@ == seq![46u8]),
{
    let yes: bool = piece.len() == 1 && piece[0] == 46;
    assert(yes ==> piece@ =~= seq![46u8]);
    yes
}

fn read_parts(path: &[u8]) -> (parts: Vec<Vec<u8>>)
    ensures
        parts_view(parts@) == path_parts(path@),
{
    let mut parts: Vec<Vec<u8>> = Vec::new();
    let size: usize = path.len();
    let mut from: usize = 0;
    proof {
        assert(path@.skip(0) =~= path@);
        assert(parts_view(parts@) + path_parts(path@) =~= path_parts(path@));
    }
    while from < size
        invariant
            from <= size == path@.len(),
            parts_view(parts@) + path_parts(path@.skip(from as int)) == path_parts(path@),
        decreases size - from,
    {
        let ghost rest = path@.skip(from as int);
        let ghost before = parts_view(parts@);
        let piece: Vec<u8> = piece_at(path, from);
        let len: usize = piece.len();
        let ghost read = piece@;
        let next: usize = if len < size - from {
            from + len + 1
        } else {
            size
        };
        assert(path_parts(path@.skip(next as int)) == (if len < rest.len() {
            path_parts(rest.skip(len + 1))
        } else {
            Seq::empty()
        })) by {
            if len < rest.len() {
                assert(rest.skip(len + 1) =~= path@.skip(next as int));
            } else {
                assert(path@.skip(next as int).len() == 0);
            }
        }
        if len > 0 && !is_dot(&piece) {
            parts.push(piece);
            assert(parts_view(parts@) =~= before.push(read));
            assert(before.push(read) + path_parts(path@.skip(next as int)) =~= before + path_parts(
                rest,
            ));
        } else {
            assert(names_nothing(read));
        }
        from = next;
    }
    assert(path@.skip(from as int).len() == 0);
    assert(parts_view(parts@) + Seq::<Seq<u8>>::empty() =~= parts_view(parts@));
    parts
}

fn same_bytes(one: &Vec<u8>, other: &Vec<u8>) -> (yes: bool)
    ensures
        yes == (one@ == other@),
{
    if one.len() != other.len() {
        return false;
    }
    let mut i: usize = 0;
    while i < one.len()
        invariant
            i <= one@.len() == other@.len(),
            forall|j: int| 0 <= j < i ==> one@[j] == other@[j],
        decreases one@.len() - i,
    {
        if one[i] != other[i] {
            return false;
        }
        i += 1;
    }
    assert(one@ =~= other@);
    true
}

/// Whether two paths are the same.
pub fn is_same_path(one: &[u8], other: &[u8]) -> (yes: bool)
    ensures
        yes == same_path(one@, other@),
{
    assert(one@.skip(0) =~= one@ && other@.skip(0) =~= other@);
    let one_rooted: bool = one.len() > 0 && one[0] == 47;
    let other_rooted: bool = other.len() > 0 && other[0] == 47;
    let one_dot: bool = is_dot(&piece_at(one, 0));
    let other_dot: bool = is_dot(&piece_at(other, 0));
    if one_rooted != other_rooted || one_dot != other_dot {
        return false;
    }
    let mine: Vec<Vec<u8>> = read_parts(one);
    let theirs: Vec<Vec<u8>> = read_parts(other);
    if mine.len() != theirs.len() {
        assert(parts_view(mine@).len() != parts_view(theirs@).len());
        return false;
    }
    let mut i: usize = 0;
    while i < mine.len()
        invariant
            i <= mine@.len() == theirs@.len(),
            parts_view(mine@) == path_parts(one@),
            parts_view(theirs@) == path_parts(other@),
            forall|j: int| 0 <= j < i ==> mine@[j]@ == theirs@[j]@,
        decreases mine@.len() - i,
    {
        if !same_bytes(&mine[i], &theirs[i]) {
            assert(parts_view(mine@)[i as int] != parts_view(theirs@)[i as int]);
            return false;
        }
        i += 1;
    }
    assert(parts_view(mine@) =~= parts_view(theirs@));
    true
}

/// The first slash ends the first piece.
proof fn lemma_piece_len(path: Seq<u8>)
    ensures
        piece_len(path) <= path.len(),
        forall|i: int| 0 <= i < piece_len(path) ==> #[trigger] path[i] != 47,
        piece_len(path) < path.len() ==> path[piece_len(path) as int] == 47,
    decreases path.len(),
{
    if path.len() > 0 && path[0] != 47 {
        let rest = path.skip(1);
        lemma_piece_len(rest);
        assert forall|i: int| 0 <= i < piece_len(path) implies #[trigger] path[i] != 47 by {
            if i > 0 {
                assert(path[i] == rest[i - 1]);
            }
        }
    }
}

proof fn lemma_piece_before_slash(one: Seq<u8>, two: Seq<u8>)
    ensures
        piece_len(one.push(47) + two) == piece_len(one),
{
    let whole = one.push(47) + two;
    lemma_piece_len(one);
    lemma_piece_len(whole);
    let len = piece_len(one) as int;
    assert(whole[len] == 47) by {
        if len < one.len() {
            assert(whole[len] == one[len]);
        }
    }
    if piece_len(whole) < len {
        assert(whole[piece_len(whole) as int] == one[piece_len(whole) as int]);
    }
    if piece_len(whole) > len {
        assert(whole[len] != 47);
    }
}

/// The parts of a path stand between its slashes: those before a slash and then those after it. A
/// piece without a slash is one part, unless it is empty or a single dot.
pub proof fn law_parts_stand_between_slashes(one: Seq<u8>, two: Seq<u8>)
    ensures
        path_parts(one.push(47) + two) == path_parts(one) + path_parts(two),
        (forall|i: int| 0 <= i < one.len() ==> #[trigger] one[i] != 47) ==> path_parts(one) == (
        if one.len() == 0 || one == seq![46u8] {
            Seq::empty()
        } else {
            seq![one]
        }),
    decreases one.len(),
{
    let whole = one.push(47) + two;
    lemma_piece_len(one);
    lemma_piece_before_slash(one, two);
    let len = piece_len(one) as int;
    assert(whole.take(len) =~= one.take(len));
    if len < one.len() {
        let rest = one.skip(len + 1);
        law_parts_stand_between_slashes(rest, two);
        assert(whole.skip(len + 1) =~= rest.push(47) + two);
        assert(path_parts(whole) =~= path_parts(one) + path_parts(two));
    } else {
        assert(one.take(len) =~= one);
        assert(whole.skip(len + 1) =~= two);
        assert(path_parts(whole) =~= path_parts(one) + path_parts(two));
        if one.len() > 0 && one != seq![46u8] {
            assert(path_parts(one) =~= seq![one]);
        }
    }
}

/// Paths are the same by what they name: every path is the same as itself, whichever way round they
/// are held against each other, and two that are the same as a third are the same. A slash at the
/// end makes no difference; whether a path begins at the root does, and so does any of its parts.
pub proof fn law_paths_are_the_same_by_their_parts(one: Seq<u8>, two: Seq<u8>, three: Seq<u8>)
    ensures
        same_path(one, one),
        same_path(one, two) ==> same_path(two, one),
        same_path(one, two) && same_path(two, three) ==> same_path(one, three),
        one.len() > 0 ==> same_path(one, one.push(47)),
        one.len() > 0 && one[0] == 47 && (two.len() == 0 || two[0] != 47) ==> !same_path(one, two),
        path_parts(one) != path_parts(two) ==> !same_path(one, two),
{
    if one.len() > 0 {
        let none: Seq<u8> = Seq::empty();
        law_parts_stand_between_slashes(one, none);
        lemma_piece_before_slash(one, none);
        lemma_piece_len(one);
        assert(one.push(47) + none =~= one.push(47));
        assert(path_parts(one) + path_parts(none) =~= path_parts(one));
        assert(one.push(47).take(piece_len(one) as int) =~= one.take(piece_len(one) as int));
    }
}

} // verus!
