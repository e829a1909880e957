//! Paths as text: their components, how they are joined, and how they are
//! ordered (`std::path` on Unix, where `/` separates components).

use vstd::prelude::*;

use crate::text::{
    chars_eq, chars_of, extend_chars, extend_str, join, join_chars, lemma_split_on_nonempty,
    lemma_text_order_props, lemma_text_order_transitive, split_chars, split_on, string_of,
    text_compare, text_order,
};

verus! {

/// A piece between separators that names something: not empty and not `.`.
pub open spec fn is_named_piece(p: Seq<char>) -> bool {
    p.len() > 0 && p != "."@
}

/// The pieces of `ps` that name something, in order.
pub open spec fn named_pieces(ps: Seq<Seq<char>>) -> Seq<Seq<char>>
    decreases ps.len(),
{
    if ps.len() == 0 {
        Seq::empty()
    } else if is_named_piece(ps.last()) {
        named_pieces(ps.drop_last()).push(ps.last())
    } else {
        named_pieces(ps.drop_last())
    }
}

/// The components of a path (`Path::components`): the root directory,
/// written `/`, when the path starts with `/`; otherwise the current
/// directory, written `.`, when its first piece is `.`; then every piece
/// that names something (`..` is the parent directory).
pub open spec fn path_components(s: Seq<char>) -> Seq<Seq<char>> {
    let ps = split_on(s, '/');
    if s.len() > 0 && s[0] == '/' {
        seq!["/"@] + named_pieces(ps)
    } else if ps.len() > 0 && ps[0] == "."@ {
        seq!["."@] + named_pieces(ps.skip(1))
    } else {
        named_pieces(ps)
    }
}

/// `piece` appended to `base` as `PathBuf::push` does: an absolute `piece`
/// replaces `base`; otherwise a `/` separates them unless `base` is empty
/// or already ends with one.
pub open spec fn path_join(base: Seq<char>, piece: Seq<char>) -> Seq<char> {
    if piece.len() > 0 && piece[0] == '/' {
        piece
    } else if base.len() == 0 || base.last() == '/' {
        base + piece
    } else {
        base + "/"@ + piece
    }
}

fn named_pieces_of(ps: &Vec<Vec<char>>, from: usize) -> (r: Vec<Vec<char>>)
    requires
        from <= ps.len(),
    ensures
        r@.map_values(|p: Vec<char>| p@) == named_pieces(
            ps@.map_values(|p: Vec<char>| p@).skip(from as int),
        ),
{
    let ghost pv = ps@.map_values(|p: Vec<char>| p@).skip(from as int);
    let dot = chars_of(".");
    let mut out: Vec<Vec<char>> = Vec::new();
    let mut i: usize = from;
    assert(pv.take(0) =~= Seq::<Seq<char>>::empty());
    while i < ps.len()
        invariant
            from <= i <= ps.len(),
            dot@ == "."@,
            pv == ps@.map_values(|p: Vec<char>| p@).skip(from as int),
            out@.map_values(|p: Vec<char>| p@) == named_pieces(pv.take(i - from)),
        decreases ps.len() - i,
    {
        let ghost before = out@.map_values(|p: Vec<char>| p@);
        proof {
            let t = pv.take(i - from + 1);
            assert(t.drop_last() =~= pv.take(i - from));
            assert(t.last() == ps@[i as int]@);
        }
        if ps[i].len() > 0 && !chars_eq(&ps[i], &dot) {
            out.push(ps[i].clone());
            assert(out@.map_values(|p: Vec<char>| p@) =~= before.push(ps@[i as int]@));
        }
        i = i + 1;
    }
    assert(pv.take(ps.len() - from) =~= pv);
    out
}

/// The components of `s` (see [`path_components`]).
pub fn path_components_of(s: &Vec<char>) -> (r: Vec<Vec<char>>)
    ensures
        r@.map_values(|p: Vec<char>| p@) == path_components(s@),
{
    proof {
        reveal_strlit(".");
        reveal_strlit("/");
        lemma_split_on_nonempty(s@, '/');
    }
    let ps = split_chars(s, '/');
    let ghost pv = ps@.map_values(|p: Vec<char>| p@);
    assert(pv.skip(0) =~= pv);
    if s.len() > 0 && s[0] == '/' {
        let rest = named_pieces_of(&ps, 0);
        prepend_piece(chars_of("/"), rest)
    } else {
        let dot = chars_of(".");
        if ps.len() > 0 && chars_eq(&ps[0], &dot) {
            let rest = named_pieces_of(&ps, 1);
            prepend_piece(dot, rest)
        } else {
            named_pieces_of(&ps, 0)
        }
    }
}

fn prepend_piece(first: Vec<char>, rest: Vec<Vec<char>>) -> (r: Vec<Vec<char>>)
    ensures
        r@.map_values(|p: Vec<char>| p@) == seq![first@] + rest@.map_values(|p: Vec<char>| p@),
{
    let mut all: Vec<Vec<char>> = Vec::new();
    all.push(first);
    let mut rest = rest;
    let ghost r0 = rest@;
    all.append(&mut rest);
    assert(all@.map_values(|p: Vec<char>| p@) =~= seq![first@] + r0.map_values(|p: Vec<char>| p@));
    all
}

/// Executable [`path_join`].
pub fn path_join_str(base: &str, piece: &str) -> (r: String)
    ensures
        r@ == path_join(base@, piece@),
{
    let b = chars_of(base);
    let p = chars_of(piece);
    if p.len() > 0 && p[0] == '/' {
        return piece.to_owned();
    }
    let mut out = b;
    if out.len() > 0 && out[out.len() - 1] != '/' {
        extend_str(&mut out, "/");
    }
    extend_chars(&mut out, &p);
    string_of(&out)
}

// ---------------------------------------------------------------------------
// Ordering of paths
// ---------------------------------------------------------------------------

/// The rank of a component's kind in the order of `std::path::Component`:
/// root directory, current directory, parent directory, then names.
pub open spec fn component_rank(c: Seq<char>) -> int {
    if c == "/"@ {
        1
    } else if c == "."@ {
        2
    } else if c == ".."@ {
        3
    } else {
        4
    }
}

/// Three-way comparison of components: by kind, then names by text.
pub open spec fn component_order(a: Seq<char>, b: Seq<char>) -> int {
    if component_rank(a) < component_rank(b) {
        -1
    } else if component_rank(a) > component_rank(b) {
        1
    } else {
        text_order(a, b)
    }
}

/// Lexicographic comparison of component sequences (the order of `Path`).
pub open spec fn path_order(a: Seq<Seq<char>>, b: Seq<Seq<char>>) -> int
    decreases a.len(),
{
    if a.len() == 0 && b.len() == 0 {
        0
    } else if a.len() == 0 {
        -1
    } else if b.len() == 0 {
        1
    } else if a[0] != b[0] {
        component_order(a[0], b[0])
    } else {
        path_order(a.drop_first(), b.drop_first())
    }
}

pub proof fn lemma_component_order_props(a: Seq<char>, b: Seq<char>)
    ensures
        component_order(a, b) == -component_order(b, a),
        component_order(a, b) == 0 <==> a == b,
        -1 <= component_order(a, b) <= 1,
{
    lemma_text_order_props(a, b);
}

pub proof fn lemma_component_order_transitive(a: Seq<char>, b: Seq<char>, c: Seq<char>)
    requires
        component_order(a, b) <= 0,
        component_order(b, c) <= 0,
    ensures
        component_order(a, c) <= 0,
        (component_order(a, b) < 0 || component_order(b, c) < 0) ==> component_order(a, c) < 0,
{
    lemma_component_order_props(a, b);
    lemma_component_order_props(b, c);
    lemma_component_order_props(a, c);
    if component_rank(a) == component_rank(b) && component_rank(b) == component_rank(c) {
        lemma_text_order_transitive(a, b, c);
    }
}

pub proof fn lemma_path_order_props(a: Seq<Seq<char>>, b: Seq<Seq<char>>)
    ensures
        path_order(a, b) == -path_order(b, a),
        path_order(a, b) == 0 <==> a == b,
        -1 <= path_order(a, b) <= 1,
    decreases a.len(),
{
    if a.len() > 0 && b.len() > 0 && a[0] == b[0] {
        lemma_path_order_props(a.drop_first(), b.drop_first());
        if a.drop_first() == b.drop_first() {
            assert(a =~= seq![a[0]] + a.drop_first());
            assert(b =~= seq![b[0]] + b.drop_first());
        }
    } else if a.len() == 0 && b.len() == 0 {
        assert(a =~= b);
    } else if a.len() > 0 && b.len() > 0 {
        lemma_component_order_props(a[0], b[0]);
        assert(a != b);
    } else {
        assert(a.len() != b.len());
    }
}

pub proof fn lemma_path_order_transitive(a: Seq<Seq<char>>, b: Seq<Seq<char>>, c: Seq<Seq<char>>)
    requires
        path_order(a, b) <= 0,
        path_order(b, c) <= 0,
    ensures
        path_order(a, c) <= 0,
        (path_order(a, b) < 0 || path_order(b, c) < 0) ==> path_order(a, c) < 0,
    decreases a.len(),
{
    lemma_path_order_props(a, b);
    lemma_path_order_props(b, c);
    lemma_path_order_props(a, c);
    if a.len() > 0 && b.len() > 0 && c.len() > 0 {
        if a[0] == b[0] && b[0] == c[0] {
            lemma_path_order_transitive(a.drop_first(), b.drop_first(), c.drop_first());
        } else {
            lemma_component_order_props(a[0], b[0]);
            lemma_component_order_props(b[0], c[0]);
            lemma_component_order_props(a[0], c[0]);
            if a[0] != b[0] && b[0] != c[0] {
                lemma_component_order_transitive(a[0], b[0], c[0]);
            }
        }
    }
}

pub fn component_rank_of(c: &Vec<char>) -> (r: u8)
    ensures
        r as int == component_rank(c@),
{
    proof {
        reveal_strlit("/");
        reveal_strlit(".");
        reveal_strlit("..");
    }
    let root = chars_of("/");
    let cur = chars_of(".");
    let parent = chars_of("..");
    if chars_eq(c, &root) {
        1
    } else if chars_eq(c, &cur) {
        2
    } else if chars_eq(c, &parent) {
        3
    } else {
        4
    }
}

fn component_compare(a: &Vec<char>, b: &Vec<char>) -> (r: i8)
    ensures
        r as int == component_order(a@, b@),
{
    let ra = component_rank_of(a);
    let rb = component_rank_of(b);
    if ra < rb {
        -1
    } else if ra > rb {
        1
    } else {
        text_compare(a, b)
    }
}

proof fn lemma_path_order_step(a: Seq<Seq<char>>, b: Seq<Seq<char>>, i: int)
    requires
        0 <= i < a.len(),
        i < b.len(),
        a[i] == b[i],
    ensures
        path_order(a.skip(i), b.skip(i)) == path_order(a.skip(i + 1), b.skip(i + 1)),
{
    assert(a.skip(i).drop_first() =~= a.skip(i + 1));
    assert(b.skip(i).drop_first() =~= b.skip(i + 1));
}

/// Executable [`path_order`].
pub fn path_compare(a: &Vec<Vec<char>>, b: &Vec<Vec<char>>) -> (r: i8)
    ensures
        r as int == path_order(a@.map_values(|p: Vec<char>| p@), b@.map_values(|p: Vec<char>| p@)),
{
    let ghost av = a@.map_values(|p: Vec<char>| p@);
    let ghost bv = b@.map_values(|p: Vec<char>| p@);
    let mut i: usize = 0;
    assert(av.skip(0) =~= av);
    assert(bv.skip(0) =~= bv);
    while i < a.len() && i < b.len() && chars_eq(&a[i], &b[i])
        invariant
            i <= a.len(),
            i <= b.len(),
            av == a@.map_values(|p: Vec<char>| p@),
            bv == b@.map_values(|p: Vec<char>| p@),
            path_order(av, bv) == path_order(av.skip(i as int), bv.skip(i as int)),
        decreases a.len() - i,
    {
        proof {
            lemma_path_order_step(av, bv, i as int);
        }
        i = i + 1;
    }
    let ghost sa = av.skip(i as int);
    let ghost sb = bv.skip(i as int);
    if i == a.len() && i == b.len() {
        0
    } else if i == a.len() {
        -1
    } else if i == b.len() {
        1
    } else {
        assert(sa[0] == a@[i as int]@);
        assert(sb[0] == b@[i as int]@);
        component_compare(&a[i], &b[i])
    }
}

/// The components of `cs` that are names, in order.
pub open spec fn names_only(cs: Seq<Seq<char>>) -> Seq<Seq<char>>
    decreases cs.len(),
{
    if cs.len() == 0 {
        Seq::empty()
    } else if component_rank(cs.last()) == 4 {
        names_only(cs.drop_last()).push(cs.last())
    } else {
        names_only(cs.drop_last())
    }
}

/// A path written with its names only, joined by `/`.
pub open spec fn normalized_relative(s: Seq<char>) -> Seq<char> {
    join(names_only(path_components(s)), "/"@)
}

/// A path written with its names only, joined by `/` (see
/// [`normalized_relative`]): how paths relative to a source are matched.
pub fn normalize_relative(s: &str) -> (r: String)
    ensures
        r@ == normalized_relative(s@),
{
    let cs = chars_of(s);
    let comps = path_components_of(&cs);
    let ghost cv = comps@.map_values(|p: Vec<char>| p@);
    let mut names: Vec<Vec<char>> = Vec::new();
    let mut i: usize = 0;
    assert(cv.take(0) =~= Seq::<Seq<char>>::empty());
    while i < comps.len()
        invariant
            i <= comps.len(),
            cv == comps@.map_values(|p: Vec<char>| p@),
            names@.map_values(|p: Vec<char>| p@) == names_only(cv.take(i as int)),
        decreases comps.len() - i,
    {
        let ghost before = names@.map_values(|p: Vec<char>| p@);
        proof {
            let t = cv.take(i + 1);
            assert(t.drop_last() =~= cv.take(i as int));
            assert(t.last() == comps@[i as int]@);
        }
        if component_rank_of(&comps[i]) == 4 {
            names.push(comps[i].clone());
            assert(names@.map_values(|p: Vec<char>| p@) =~= before.push(comps@[i as int]@));
        }
        i = i + 1;
    }
    assert(cv.take(comps.len() as int) =~= cv);
    let sep = chars_of("/");
    let joined = join_chars(&names, &sep);
    string_of(&joined)
}

} // verus!
