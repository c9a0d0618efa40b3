use vstd::prelude::*;

use crate::text::{
    chars_eq, chars_lt, find_first, first_index, lemma_lex_asymmetric, lemma_lex_irreflexive,
    lemma_lex_total, lemma_lex_transitive, lex_lt, slice_chars,
};

verus! {

/// A component of a Unix path, as `std::path::Component` names them.
pub enum PathPart {
    Root,
    Current,
    Parent,
    Normal(Seq<char>),
}

/// A component of a Unix path.
pub enum PathComponent {
    RootDir,
    CurDir,
    ParentDir,
    Normal(Vec<char>),
}

impl View for PathComponent {
    type V = PathPart;

    open spec fn view(&self) -> PathPart {
        match self {
            PathComponent::RootDir => PathPart::Root,
            PathComponent::CurDir => PathPart::Current,
            PathComponent::ParentDir => PathPart::Parent,
            PathComponent::Normal(n) => PathPart::Normal(n@),
        }
    }
}

/// The components of a sequence of path components.
pub open spec fn parts_view(v: Seq<PathComponent>) -> Seq<PathPart> {
    v.map_values(|c: PathComponent| c@)
}

/// The component named by one `/`-separated piece of a path: none for an empty
/// piece or `.`, the parent for `..`, otherwise a name.
pub open spec fn piece_parts(piece: Seq<char>) -> Seq<PathPart> {
    if piece.len() == 0 || piece == seq!['.'] {
        Seq::empty()
    } else if piece == seq!['.', '.'] {
        seq![PathPart::Parent]
    } else {
        seq![PathPart::Normal(piece)]
    }
}

/// The components named by the `/`-separated pieces of `s`.
pub open spec fn body_parts(s: Seq<char>) -> Seq<PathPart>
    decreases s.len(),
{
    let p = first_index(s, '/');
    let rest = if 0 <= p < s.len() {
        body_parts(s.skip(p + 1))
    } else {
        Seq::empty()
    };
    piece_parts(s.take(p)) + rest
}

/// Whether the path starts at the root.
pub open spec fn has_root(s: Seq<char>) -> bool {
    s.len() > 0 && s[0] == '/'
}

/// Whether a relative path starts with the piece `.`.
pub open spec fn starts_at_current(s: Seq<char>) -> bool {
    !has_root(s) && s.len() > 0 && s[0] == '.' && (s.len() == 1 || s[1] == '/')
}

/// The components of a Unix path, as `Path::components` gives them: the root,
/// a leading `.` of a relative path, then one component a piece, where empty
/// pieces and `.` are left out and `..` is the parent.
pub open spec fn path_parts(s: Seq<char>) -> Seq<PathPart> {
    let root = if has_root(s) {
        seq![PathPart::Root]
    } else {
        Seq::empty()
    };
    let current = if starts_at_current(s) {
        seq![PathPart::Current]
    } else {
        Seq::empty()
    };
    root + current + body_parts(s)
}

/// Rank of a component kind in the order of `Component`.
pub open spec fn part_rank(p: PathPart) -> int {
    match p {
        PathPart::Root => 1,
        PathPart::Current => 2,
        PathPart::Parent => 3,
        PathPart::Normal(_) => 4,
    }
}

/// The order of components: by kind, names by their characters.
pub open spec fn part_lt(a: PathPart, b: PathPart) -> bool {
    match (a, b) {
        (PathPart::Normal(x), PathPart::Normal(y)) => lex_lt(x, y),
        _ => part_rank(a) < part_rank(b),
    }
}

/// The order of paths: lexicographic on their components, as `Path`'s `<`.
pub open spec fn parts_lt(a: Seq<PathPart>, b: Seq<PathPart>) -> bool
    decreases a.len(),
{
    if a.len() == 0 {
        b.len() > 0
    } else if b.len() == 0 {
        false
    } else if a[0] != b[0] {
        part_lt(a[0], b[0])
    } else {
        parts_lt(a.drop_first(), b.drop_first())
    }
}

proof fn lemma_part_order(a: PathPart, b: PathPart, c: PathPart)
    ensures
        !part_lt(a, a),
        !(part_lt(a, b) && part_lt(b, a)),
        a == b || part_lt(a, b) || part_lt(b, a),
        part_lt(a, b) && part_lt(b, c) ==> part_lt(a, c),
{
    match (a, b, c) {
        (PathPart::Normal(x), PathPart::Normal(y), PathPart::Normal(z)) => {
            lemma_lex_irreflexive(x);
            lemma_lex_asymmetric(x, y);
            lemma_lex_total(x, y);
            if lex_lt(x, y) && lex_lt(y, z) {
                lemma_lex_transitive(x, y, z);
            }
        },
        (PathPart::Normal(x), PathPart::Normal(y), _) => {
            lemma_lex_irreflexive(x);
            lemma_lex_asymmetric(x, y);
            lemma_lex_total(x, y);
        },
        (PathPart::Normal(x), _, _) => {
            lemma_lex_irreflexive(x);
        },
        _ => {},
    }
}

/// No path comes before itself.
pub proof fn lemma_parts_irreflexive(a: Seq<PathPart>)
    ensures
        !parts_lt(a, a),
    decreases a.len(),
{
    if a.len() > 0 {
        lemma_parts_irreflexive(a.drop_first());
    }
}

/// Of two different paths one comes before the other.
pub proof fn lemma_parts_total(a: Seq<PathPart>, b: Seq<PathPart>)
    ensures
        a == b || parts_lt(a, b) || parts_lt(b, a),
    decreases a.len(),
{
    if a.len() > 0 && b.len() > 0 {
        if a[0] == b[0] {
            lemma_parts_total(a.drop_first(), b.drop_first());
            if a.drop_first() == b.drop_first() {
                assert(a == seq![a[0]] + a.drop_first());
                assert(b == seq![b[0]] + b.drop_first());
            }
        } else {
            lemma_part_order(a[0], b[0], b[0]);
        }
    } else if a.len() == 0 && b.len() == 0 {
        assert(a == b);
    }
}

/// The order of paths is transitive.
pub proof fn lemma_parts_transitive(a: Seq<PathPart>, b: Seq<PathPart>, c: Seq<PathPart>)
    requires
        parts_lt(a, b),
        parts_lt(b, c),
    ensures
        parts_lt(a, c),
    decreases a.len(),
{
    if a.len() > 0 && b.len() > 0 && c.len() > 0 {
        lemma_part_order(a[0], b[0], c[0]);
        lemma_part_order(a[0], c[0], b[0]);
        lemma_part_order(b[0], c[0], a[0]);
        if a[0] == b[0] && b[0] == c[0] {
            lemma_parts_transitive(a.drop_first(), b.drop_first(), c.drop_first());
        }
    }
}

} // verus!

verus! {

proof fn lemma_parts_view_push(v: Seq<PathComponent>, c: PathComponent)
    ensures
        parts_view(v.push(c)) == parts_view(v).push(c@),
{
    assert(parts_view(v.push(c)) =~= parts_view(v).push(c@));
}

fn push_part(out: &mut Vec<PathComponent>, c: PathComponent)
    ensures
        parts_view(final(out)@) == parts_view(old(out)@).push(c@),
{
    let ghost before = out@;
    out.push(c);
    proof {
        lemma_parts_view_push(before, c);
    }
}

/// Appends the component a `/`-separated piece names, if any.
fn push_piece(out: &mut Vec<PathComponent>, piece: Vec<char>)
    ensures
        parts_view(final(out)@) == parts_view(old(out)@) + piece_parts(piece@),
{
    let n = piece.len();
    if n == 0 {
        assert(parts_view(out@) =~= parts_view(out@) + piece_parts(piece@));
    } else if n == 1 && piece[0] == '.' {
        assert(piece@ =~= seq!['.']);
        assert(parts_view(out@) =~= parts_view(out@) + piece_parts(piece@));
    } else if n == 2 && piece[0] == '.' && piece[1] == '.' {
        assert(piece@ =~= seq!['.', '.']);
        push_part(out, PathComponent::ParentDir);
        assert(parts_view(out@) =~= parts_view(old(out)@) + piece_parts(piece@));
    } else {
        assert(piece@ != seq!['.']) by {
            if n == 1 {
                assert(piece@[0] != seq!['.'][0]);
            }
        }
        assert(piece@ != seq!['.', '.']) by {
            if n == 2 {
                assert(piece@[0] != '.' || piece@[1] != '.');
            }
        }
        let ghost pv = piece@;
        push_part(out, PathComponent::Normal(piece));
        assert(parts_view(out@) =~= parts_view(old(out)@) + piece_parts(pv));
    }
}

/// The components of a Unix path, as `Path::components` gives them.
pub fn path_components(cs: &[char]) -> (parts: Vec<PathComponent>)
    ensures
        parts_view(parts@) == path_parts(cs@),
{
    let n = cs.len();
    let mut out: Vec<PathComponent> = Vec::new();
    let root = n > 0 && cs[0] == '/';
    if root {
        push_part(&mut out, PathComponent::RootDir);
    }
    if !root && n > 0 && cs[0] == '.' && (n == 1 || cs[1] == '/') {
        push_part(&mut out, PathComponent::CurDir);
    }
    assert(parts_view(out@) =~= (if has_root(cs@) {
        seq![PathPart::Root]
    } else {
        Seq::empty()
    }) + (if starts_at_current(cs@) {
        seq![PathPart::Current]
    } else {
        Seq::empty()
    }));
    let ghost head = parts_view(out@);
    let mut start: usize = 0;
    let mut done = false;
    assert(cs@.skip(0) == cs@);
    while !done
        invariant
            n == cs@.len(),
            start <= n,
            head + body_parts(cs@) == path_parts(cs@),
            done ==> parts_view(out@) == path_parts(cs@),
            !done ==> parts_view(out@) + body_parts(cs@.skip(start as int)) == path_parts(cs@),
        decreases n - start + (if done { 0int } else { 1int }),
    {
        let rest = slice_chars(cs, start, n);
        assert(rest@ =~= cs@.skip(start as int));
        let p = find_first(rest.as_slice(), '/');
        let piece = slice_chars(rest.as_slice(), 0, p);
        assert(piece@ == rest@.take(p as int));
        let ghost before = parts_view(out@);
        push_piece(&mut out, piece);
        if p < rest.len() {
            assert(rest@.skip(p + 1) == cs@.skip(start + p + 1));
            start = start + p + 1;
            assert(parts_view(out@) + body_parts(cs@.skip(start as int)) =~= before
                + body_parts(rest@));
        } else {
            assert(parts_view(out@) =~= before + body_parts(rest@));
            done = true;
        }
    }
    out
}

/// Whether two components are the same.
pub fn same_component(a: &PathComponent, b: &PathComponent) -> (r: bool)
    ensures
        r == (a@ == b@),
{
    match (a, b) {
        (PathComponent::RootDir, PathComponent::RootDir) => true,
        (PathComponent::CurDir, PathComponent::CurDir) => true,
        (PathComponent::ParentDir, PathComponent::ParentDir) => true,
        (PathComponent::Normal(x), PathComponent::Normal(y)) => chars_eq(x.as_slice(), y.as_slice()),
        _ => false,
    }
}

fn rank(a: &PathComponent) -> (r: u8)
    ensures
        r == part_rank(a@),
{
    match a {
        PathComponent::RootDir => 1,
        PathComponent::CurDir => 2,
        PathComponent::ParentDir => 3,
        PathComponent::Normal(_) => 4,
    }
}

/// Whether component `a` comes before component `b`.
pub fn component_lt(a: &PathComponent, b: &PathComponent) -> (r: bool)
    ensures
        r == part_lt(a@, b@),
{
    match (a, b) {
        (PathComponent::Normal(x), PathComponent::Normal(y)) => chars_lt(x.as_slice(), y.as_slice()),
        _ => rank(a) < rank(b),
    }
}

/// Whether path `a` comes before path `b`, by components.
pub fn components_lt(a: &[PathComponent], b: &[PathComponent]) -> (r: bool)
    ensures
        r == parts_lt(parts_view(a@), parts_view(b@)),
{
    let ghost av = parts_view(a@);
    let ghost bv = parts_view(b@);
    let mut i: usize = 0;
    assert(av.skip(0) == av && bv.skip(0) == bv);
    while i < a.len() && i < b.len() && same_component(&a[i], &b[i])
        invariant
            i <= a@.len(),
            i <= b@.len(),
            av == parts_view(a@),
            bv == parts_view(b@),
            parts_lt(av, bv) == parts_lt(av.skip(i as int), bv.skip(i as int)),
        decreases a@.len() - i,
    {
        assert(av.skip(i as int).drop_first() == av.skip(i + 1));
        assert(bv.skip(i as int).drop_first() == bv.skip(i + 1));
        i = i + 1;
    }
    if i == a.len() {
        assert(av.skip(i as int).len() == 0);
        i < b.len()
    } else if i == b.len() {
        assert(bv.skip(i as int).len() == 0);
        false
    } else {
        assert(av.skip(i as int)[0] == a@[i as int]@);
        assert(bv.skip(i as int)[0] == b@[i as int]@);
        component_lt(&a[i], &b[i])
    }
}

/// Whether two paths have the same components.
pub fn same_components(a: &[PathComponent], b: &[PathComponent]) -> (r: bool)
    ensures
        r == (parts_view(a@) == parts_view(b@)),
{
    if a.len() != b.len() {
        assert(parts_view(a@).len() != parts_view(b@).len());
        return false;
    }
    let n = a.len();
    for i in 0..n
        invariant
            n == a@.len() == b@.len(),
            forall|k: int| 0 <= k < i ==> a@[k]@ == b@[k]@,
    {
        if !same_component(&a[i], &b[i]) {
            assert(parts_view(a@)[i as int] != parts_view(b@)[i as int]);
            return false;
        }
    }
    assert(parts_view(a@) =~= parts_view(b@));
    true
}

} // verus!

verus! {

/// The name of the last component of a path, where that component is a name
/// (as `Path::file_name` gives it).
pub open spec fn file_name(s: Seq<char>) -> Option<Seq<char>> {
    let parts = path_parts(s);
    if parts.len() > 0 && parts.last() is Normal {
        Some(parts.last()->Normal_0)
    } else {
        None
    }
}

/// The name shown for a card whose device could not be read: the file name of
/// its path, or `unknown` where the path has none.
pub open spec fn card_label_text(card_path: Seq<char>) -> Seq<char> {
    match file_name(card_path) {
        Some(n) => n,
        None => "unknown"@,
    }
}

/// The name shown for a card whose device could not be read.
pub fn card_label(card_path: &str) -> (s: String)
    ensures
        s@ == card_label_text(card_path@),
{
    let cs = crate::text::chars_of(card_path);
    let parts = path_components(cs.as_slice());
    let n = parts.len();
    if n > 0 {
        match &parts[n - 1] {
            PathComponent::Normal(x) => {
                assert(parts_view(parts@).last() == parts@[n - 1]@);
                return crate::text::string_of(x.as_slice());
            },
            _ => {
                assert(parts_view(parts@).last() == parts@[n - 1]@);
            },
        }
    }
    String::from_str("unknown")
}

} // verus!
