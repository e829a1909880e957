//! The walk of a publish source: what it does with each directory entry,
//! which of the files it found it keeps, and in what order.
//!
//! Reading directories is the caller's part: it reports each entry to
//! [`walk_entry`] and acts on the [`WalkStep`] it gets back, and hands the
//! relative paths of the files it collected to [`collect_source_files`].

use vstd::prelude::*;

use crate::changelog::is_permutation;
use crate::error::EngitError;
use crate::glob::{any_matches, glob_set_patterns};
use crate::path::{
    component_rank_of, lemma_path_order_props, lemma_path_order_transitive, names_only,
    normalize_relative, normalized_relative, path_compare, path_components, path_components_of,
    path_order,
};
use crate::publish::{
    law_selected_files_are_included_and_not_excluded, pair_texts, select_source_files,
    selected_entries, selection_of, texts_of, SourcePatterns, SourceSelection,
};
use crate::text::{chars_of, join, join_chars, lemma_filter_empty, lemma_filter_step, slice_lines, string_of};

verus! {

// ---------------------------------------------------------------------------
// One entry of the walk
// ---------------------------------------------------------------------------

/// What the walk does next with a directory entry.
#[derive(Debug, PartialEq, Eq, Structural)]
pub enum WalkStep {
    /// Leave the entry out.
    Skip,
    /// Read what kind of entry it is, without following a link, and report
    /// it with `WalkFact::Kind`.
    Inspect,
    /// Resolve the link and report with `WalkFact::Resolved` whether its
    /// target lies in the source, and what the target is.
    ResolveLink,
    /// Walk into the directory.
    Descend,
    /// Collect the file.
    Collect,
}

/// What the caller learnt of an entry.
pub enum WalkFact {
    /// The entry was listed.
    Listed,
    /// What the entry is, its links not followed.
    Kind { link: bool, dir: bool, file: bool },
    /// Where a link leads: inside the source or not, and what it is.
    Resolved { inside: bool, dir: bool, file: bool },
}

/// The walk's rule for an entry at a relative path whose normalized form an
/// exclude pattern does (`excluded`) or does not match: an excluded entry
/// is left out before anything else is read; a link is resolved and left
/// out when its target leaves the source; a directory is walked into and a
/// file collected; anything else is left out.
pub open spec fn walk_rule(excluded: bool, fact: WalkFact) -> WalkStep {
    match fact {
        WalkFact::Listed => if excluded { WalkStep::Skip } else { WalkStep::Inspect },
        WalkFact::Kind { link, dir, file } => if link {
            WalkStep::ResolveLink
        } else if dir {
            WalkStep::Descend
        } else if file {
            WalkStep::Collect
        } else {
            WalkStep::Skip
        },
        WalkFact::Resolved { inside, dir, file } => if !inside {
            WalkStep::Skip
        } else if dir {
            WalkStep::Descend
        } else if file {
            WalkStep::Collect
        } else {
            WalkStep::Skip
        },
    }
}

/// What the walk does next with the entry at `path` (relative to the
/// source) once the caller learnt `fact` (see [`walk_rule`]).
pub fn walk_entry(p: &SourcePatterns, path: &str, fact: WalkFact) -> (r: WalkStep)
    ensures
        r == walk_rule(any_matches(glob_set_patterns(p.exclude_set), normalized_relative(path@)), fact),
{
    match fact {
        WalkFact::Listed => {
            let n = normalize_relative(path);
            if p.is_excluded(n.as_str()) {
                WalkStep::Skip
            } else {
                WalkStep::Inspect
            }
        },
        WalkFact::Kind { link, dir, file } => if link {
            WalkStep::ResolveLink
        } else if dir {
            WalkStep::Descend
        } else if file {
            WalkStep::Collect
        } else {
            WalkStep::Skip
        },
        WalkFact::Resolved { inside, dir, file } => if !inside {
            WalkStep::Skip
        } else if dir {
            WalkStep::Descend
        } else if file {
            WalkStep::Collect
        } else {
            WalkStep::Skip
        },
    }
}

/// Whether the walk reads a directory it reached: only when the directory
/// lies in the source and is not already being walked (a link back to it
/// would loop).
pub fn walk_enters(inside_source: bool, being_walked: bool) -> (r: bool)
    ensures
        r == (inside_source && !being_walked),
{
    inside_source && !being_walked
}

// ---------------------------------------------------------------------------
// The files the walk keeps
// ---------------------------------------------------------------------------

/// The names of a relative path, in order.
pub open spec fn path_names(f: Seq<char>) -> Seq<Seq<char>> {
    names_only(path_components(f))
}

/// The first `k` names of `f` joined by `/`: the path of a directory `f`
/// lies in, or `f` itself when `k` is its number of names.
pub open spec fn leading_path(f: Seq<char>, k: int) -> Seq<char> {
    join(path_names(f).take(k), "/"@)
}

/// The walk leaves `f` out: an exclude pattern matches it or a directory it
/// lies in.
pub open spec fn walk_leaves_out(p: SourcePatterns, f: Seq<char>) -> bool {
    exists|k: int|
        1 <= k <= path_names(f).len() && any_matches(
            glob_set_patterns(p.exclude_set),
            #[trigger] leading_path(f, k),
        )
}

/// The files the walk keeps.
pub open spec fn kept_by_walk(p: SourcePatterns) -> spec_fn(Seq<char>) -> bool {
    |f: Seq<char>| !walk_leaves_out(p, f)
}

/// `out` holds the paths of `input` in path order (by components, as
/// `Path` orders), paths of equal order in their input order.
pub open spec fn is_path_sorted(input: Seq<Seq<char>>, out: Seq<Seq<char>>) -> bool {
    exists|perm: Seq<int>|
        {
            &&& is_permutation(perm, input.len())
            &&& out.len() == input.len()
            &&& forall|i: int| 0 <= i < out.len() ==> out[i] == input[#[trigger] perm[i]]
            &&& forall|i: int, j: int|
                0 <= i < j < out.len() ==> path_order(
                    path_components(#[trigger] out[i]),
                    path_components(#[trigger] out[j]),
                ) <= 0
            &&& forall|i: int, j: int|
                0 <= i < j < out.len() && path_order(
                    path_components(out[i]),
                    path_components(out[j]),
                ) == 0 ==> #[trigger] perm[i] < #[trigger] perm[j]
        }
}

/// The names of a path's components.
fn names_of(comps: &Vec<Vec<char>>) -> (names: Vec<Vec<char>>)
    ensures
        names@.map_values(|p: Vec<char>| p@) == names_only(comps@.map_values(|p: Vec<char>| p@)),
{
    let ghost cv = comps@.map_values(|p: Vec<char>| p@);
    let mut names: Vec<Vec<char>> = Vec::new();
    let mut i: usize = 0;
    assert(cv.take(0) =~= Seq::<Seq<char>>::empty());
    while i < comps.len()
        invariant
            i <= comps.len(),
            cv == comps@.map_values(|p: Vec<char>| p@),
            names@.map_values(|p: Vec<char>| p@) == names_only(cv.take(i as int)),
        decreases comps.len() - i,
    {
        let ghost before = names@.map_values(|p: Vec<char>| p@);
        proof {
            let t = cv.take(i + 1);
            assert(t.drop_last() =~= cv.take(i as int));
            assert(t.last() == comps@[i as int]@);
        }
        if component_rank_of(&comps[i]) == 4 {
            names.push(comps[i].clone());
            assert(names@.map_values(|p: Vec<char>| p@) =~= before.push(comps@[i as int]@));
        }
        i = i + 1;
    }
    assert(cv.take(comps.len() as int) =~= cv);
    names
}

/// Whether the walk leaves `f` out (see [`walk_leaves_out`]).
pub fn is_left_out(p: &SourcePatterns, f: &str) -> (r: bool)
    ensures
        r == walk_leaves_out(*p, f@),
{
    let comps = path_components_of(&chars_of(f));
    let names = names_of(&comps);
    let ghost nv = names@.map_values(|x: Vec<char>| x@);
    assert(nv == path_names(f@));
    let sep = chars_of("/");
    let mut k: usize = 0;
    while k < names.len()
        invariant
            k <= names.len(),
            nv == names@.map_values(|x: Vec<char>| x@),
            nv == path_names(f@),
            sep@ == "/"@,
            forall|j: int| 1 <= j <= k ==> !any_matches(glob_set_patterns(p.exclude_set), #[trigger] leading_path(f@, j)),
        decreases names.len() - k,
    {
        let head = slice_lines(&names, 0, k + 1);
        assert(nv.subrange(0, k + 1) =~= nv.take(k + 1));
        let joined = string_of(&join_chars(&head, &sep));
        assert(joined@ == leading_path(f@, k + 1));
        if p.is_excluded(joined.as_str()) {
            return true;
        }
        k = k + 1;
    }
    false
}

fn comps_view(v: Vec<Vec<char>>) -> (r: Vec<Vec<char>>)
    ensures
        r@.map_values(|x: Vec<char>| x@) == v@.map_values(|x: Vec<char>| x@),
{
    v
}

/// The files the walk keeps, in path order.
#[verifier::rlimit(60)]
pub fn walk_order(p: &SourcePatterns, found: &Vec<String>) -> (r: Vec<String>)
    ensures
        is_path_sorted(texts_of(found@).filter(kept_by_walk(*p)), texts_of(r@)),
{
    let ghost fv = texts_of(found@);
    let ghost pred = kept_by_walk(*p);
    let mut kept: Vec<String> = Vec::new();
    let mut i: usize = 0;
    proof {
        lemma_filter_empty(fv, pred);
    }
    while i < found.len()
        invariant
            i <= found.len(),
            fv == texts_of(found@),
            pred == kept_by_walk(*p),
            texts_of(kept@) == fv.take(i as int).filter(pred),
        decreases found.len() - i,
    {
        proof {
            lemma_filter_step(fv, pred, i as int);
        }
        assert(fv[i as int] == found@[i as int]@);
        if !is_left_out(p, found[i].as_str()) {
            let ghost before = texts_of(kept@);
            kept.push(found[i].clone());
            assert(texts_of(kept@) =~= before.push(fv[i as int]));
        }
        i = i + 1;
    }
    assert(fv.take(found.len() as int) =~= fv);
    sort_by_path(kept)
}

/// Paths in path order, paths of equal order kept in their order.
#[verifier::rlimit(60)]
fn sort_by_path(paths: Vec<String>) -> (r: Vec<String>)
    ensures
        is_path_sorted(texts_of(paths@), texts_of(r@)),
{
    let ghost input = texts_of(paths@);
    let mut rest = paths;
    let mut out: Vec<String> = Vec::new();
    let mut keys: Vec<Vec<Vec<char>>> = Vec::new();
    let ghost mut perm: Seq<int> = Seq::empty();
    let ghost mut i: int = 0;
    proof {
        assert(texts_of(rest@) =~= input.skip(0));
    }
    while rest.len() > 0
        invariant
            0 <= i <= input.len(),
            texts_of(rest@) == input.skip(i),
            keys@.len() == out@.len(),
            forall|k: int| 0 <= k < out@.len() ==> (#[trigger] keys@[k])@.map_values(|x: Vec<char>| x@) == path_components(out@[k]@),
            is_permutation(perm, i as nat),
            out@.len() == i,
            forall|k: int| 0 <= k < out@.len() ==> out@[k]@ == input[#[trigger] perm[k]],
            forall|a: int, b: int| 0 <= a < b < out@.len() ==> path_order(path_components(#[trigger] out@[a]@), path_components(#[trigger] out@[b]@)) <= 0,
            forall|a: int, b: int| 0 <= a < b < out@.len() && path_order(path_components(out@[a]@), path_components(out@[b]@)) == 0 ==> #[trigger] perm[a] < #[trigger] perm[b],
        decreases rest.len(),
    {
        let ghost rest_before = rest@;
        let item = rest.remove(0);
        proof {
            assert(item == rest_before[0]);
            assert(input.skip(i).len() == texts_of(rest_before).len());
            assert(i < input.len());
            assert(input.skip(i)[0] == input[i]);
            assert(item@ == input[i]);
            assert(rest@ =~= rest_before.drop_first());
            assert(texts_of(rest@) =~= texts_of(rest_before).drop_first());
            assert(input.skip(i).drop_first() =~= input.skip(i + 1));
        }
        let ic = path_components_of(&chars_of(item.as_str()));
        let ghost iv = path_components(item@);
        let m = out.len();
        let mut k: usize = 0;
        while k < m && path_compare(&keys[k], &ic) <= 0
            invariant
                k <= m,
                m == keys@.len(),
                m == out@.len(),
                ic@.map_values(|x: Vec<char>| x@) == iv,
                forall|c: int| 0 <= c < out@.len() ==> (#[trigger] keys@[c])@.map_values(|x: Vec<char>| x@) == path_components(out@[c]@),
                forall|a: int| 0 <= a < k ==> path_order(path_components(#[trigger] out@[a]@), iv) <= 0,
            decreases m - k,
        {
            k = k + 1;
        }
        let ghost old_out = out@;
        let ghost old_keys = keys@;
        let ghost old_perm = perm;
        let ghost n = i;
        proof {
            if k < m {
                assert(path_order(path_components(old_out[k as int]@), iv) > 0);
                assert forall|c: int| k <= c < m implies path_order(iv, path_components(#[trigger] old_out[c]@)) < 0 by {
                    lemma_path_order_props(path_components(old_out[k as int]@), iv);
                    if c > k {
                        lemma_path_order_transitive(iv, path_components(old_out[k as int]@), path_components(old_out[c]@));
                    }
                }
            }
        }
        out.insert(k, item);
        keys.insert(k, comps_view(ic));
        proof {
            perm = old_perm.insert(k as int, n);
            assert forall|a: int| 0 <= a < out@.len() implies out@[a]@ == input[#[trigger] perm[a]] by {
                if a < k {
                    assert(out@[a] == old_out[a]);
                } else if a > k {
                    assert(out@[a] == old_out[a - 1]);
                    assert(perm[a] == old_perm[a - 1]);
                }
            }
            assert forall|a: int| 0 <= a < out@.len() implies (#[trigger] keys@[a])@.map_values(|x: Vec<char>| x@) == path_components(out@[a]@) by {
                if a < k {
                    assert(out@[a] == old_out[a]);
                    assert(keys@[a] == old_keys[a]);
                } else if a > k {
                    assert(out@[a] == old_out[a - 1]);
                    assert(keys@[a] == old_keys[a - 1]);
                }
            }
            assert forall|a: int, b: int| 0 <= a < b < out@.len() implies path_order(path_components(#[trigger] out@[a]@), path_components(#[trigger] out@[b]@)) <= 0 by {
                if b < k {
                    assert(out@[a] == old_out[a] && out@[b] == old_out[b]);
                } else if b == k {
                    assert(out@[a] == old_out[a]);
                } else if a < k {
                    assert(out@[a] == old_out[a] && out@[b] == old_out[b - 1]);
                    lemma_path_order_props(path_components(old_out[a]@), iv);
                    lemma_path_order_transitive(path_components(old_out[a]@), iv, path_components(old_out[b - 1]@));
                } else if a == k {
                    assert(out@[b] == old_out[b - 1]);
                } else {
                    assert(out@[a] == old_out[a - 1] && out@[b] == old_out[b - 1]);
                }
            }
            assert forall|a: int, b: int| 0 <= a < b < out@.len() && path_order(path_components(out@[a]@), path_components(out@[b]@)) == 0 implies #[trigger] perm[a] < #[trigger] perm[b] by {
                if b < k {
                    assert(out@[a] == old_out[a] && out@[b] == old_out[b]);
                } else if b == k {
                    assert(old_perm[a] < n);
                } else if a < k {
                    assert(out@[a] == old_out[a] && out@[b] == old_out[b - 1]);
                } else if a == k {
                    assert(out@[b] == old_out[b - 1]);
                } else {
                    assert(out@[a] == old_out[a - 1] && out@[b] == old_out[b - 1]);
                }
            }
            assert forall|a: int, b: int| 0 <= a < b < perm.len() implies perm[a] != perm[b] by {
                if a < k && b > k {
                    assert(perm[b] == old_perm[b - 1]);
                } else if a > k {
                    assert(perm[a] == old_perm[a - 1] && perm[b] == old_perm[b - 1]);
                } else if a == k {
                    assert(perm[b] == old_perm[b - 1]);
                    assert(old_perm[b - 1] < n);
                } else if b == k {
                    assert(old_perm[a] < n);
                }
            }
            assert forall|a: int| 0 <= a < perm.len() implies 0 <= #[trigger] perm[a] < n + 1 by {
                if a < k {
                } else if a > k {
                    assert(perm[a] == old_perm[a - 1]);
                }
            }
            i = i + 1;
        }
    }
    proof {
        assert(i == input.len()) by {
            if i < input.len() {
                assert(input.skip(i).len() > 0);
            }
        }
        let ov = texts_of(out@);
        assert(forall|k: int| 0 <= k < ov.len() ==> ov[k] == input[#[trigger] perm[k]]);
        assert forall|a: int, b: int| 0 <= a < b < ov.len() implies path_order(path_components(#[trigger] ov[a]), path_components(#[trigger] ov[b])) <= 0 by {
            assert(ov[a] == out@[a]@ && ov[b] == out@[b]@);
        }
        assert forall|a: int, b: int| 0 <= a < b < ov.len() && path_order(path_components(ov[a]), path_components(ov[b])) == 0 implies #[trigger] perm[a] < #[trigger] perm[b] by {
            assert(ov[a] == out@[a]@ && ov[b] == out@[b]@);
        }
        assert(is_permutation(perm, input.len()));
    }
    out
}

/// The published entries of a source in walk order, given walked files in
/// path order, are in path order too.
proof fn lemma_selected_in_path_order(p: SourcePatterns, source: Seq<char>, w: Seq<Seq<char>>)
    requires
        forall|i: int, j: int|
            0 <= i < j < w.len() ==> path_order(path_components(#[trigger] w[i]), path_components(#[trigger] w[j])) <= 0,
    ensures
        forall|i: int, j: int|
            0 <= i < j < selected_entries(p, source, w).len() ==> path_order(
                path_components((#[trigger] selected_entries(p, source, w)[i]).1),
                path_components((#[trigger] selected_entries(p, source, w)[j]).1),
            ) <= 0,
    decreases w.len(),
{
    if w.len() > 0 {
        let d = w.drop_last();
        lemma_selected_in_path_order(p, source, d);
        law_selected_files_are_included_and_not_excluded(p, source, d);
        let rest = selected_entries(p, source, d);
        let all = selected_entries(p, source, w);
        assert forall|i: int, j: int| 0 <= i < j < all.len() implies path_order(
            path_components((#[trigger] all[i]).1),
            path_components((#[trigger] all[j]).1),
        ) <= 0 by {
            assert(all[i] == rest[i]);
            if j < rest.len() {
                assert(all[j] == rest[j]);
            } else {
                assert(all[j].1 == w.last());
                let e = rest[i];
                assert(d.contains(e.1));
                let k = choose|k: int| 0 <= k < d.len() && d[k] == e.1;
                assert(w[k] == e.1);
                assert(w[w.len() - 1] == w.last());
            }
        }
    }
}

/// What a source publishes never lies under an excluded directory (nor is
/// excluded itself), and comes in path order: for the files its walk found
/// in path order, once the walk's exclusions are applied.
pub proof fn law_collected_files_sorted_and_outside_excluded(
    p: SourcePatterns,
    found: Seq<Seq<char>>,
    w: Seq<Seq<char>>,
    source: Seq<char>,
)
    requires
        is_path_sorted(found.filter(kept_by_walk(p)), w),
    ensures
        forall|i: int|
            0 <= i < selected_entries(p, source, w).len() ==> !walk_leaves_out(
                p,
                (#[trigger] selected_entries(p, source, w)[i]).1,
            ),
        forall|i: int, j: int|
            0 <= i < j < selected_entries(p, source, w).len() ==> path_order(
                path_components((#[trigger] selected_entries(p, source, w)[i]).1),
                path_components((#[trigger] selected_entries(p, source, w)[j]).1),
            ) <= 0,
{
    let kept = found.filter(kept_by_walk(p));
    let perm = choose|perm: Seq<int>|
        {
            &&& is_permutation(perm, kept.len())
            &&& w.len() == kept.len()
            &&& forall|i: int| 0 <= i < w.len() ==> w[i] == kept[#[trigger] perm[i]]
            &&& forall|i: int, j: int|
                0 <= i < j < w.len() ==> path_order(
                    path_components(#[trigger] w[i]),
                    path_components(#[trigger] w[j]),
                ) <= 0
            &&& forall|i: int, j: int|
                0 <= i < j < w.len() && path_order(
                    path_components(w[i]),
                    path_components(w[j]),
                ) == 0 ==> #[trigger] perm[i] < #[trigger] perm[j]
        };
    law_selected_files_are_included_and_not_excluded(p, source, w);
    let all = selected_entries(p, source, w);
    assert forall|i: int| 0 <= i < all.len() implies !walk_leaves_out(p, (#[trigger] all[i]).1) by {
        assert(w.contains(all[i].1));
        let k = choose|k: int| 0 <= k < w.len() && w[k] == all[i].1;
        assert(w[k] == kept[perm[k]]);
        found.lemma_filter_pred(kept_by_walk(p), perm[k]);
    }
    lemma_selected_in_path_order(p, source, w);
}

/// Select the published files of one source from the files its walk
/// collected (`/`-separated paths relative to the source): the walk keeps
/// no file that is excluded or lies under an excluded directory, the files
/// are taken in path order, and the selection follows
/// [`select_source_files`].
pub fn collect_source_files(p: &SourcePatterns, found: &Vec<String>, source: &str) -> (r: Result<
    SourceSelection,
    EngitError,
>)
    requires
        p.wf(),
    ensures
        exists|w: Seq<Seq<char>>|
            is_path_sorted(texts_of(found@).filter(kept_by_walk(*p)), w) && selection_of(
                *p,
                w,
                source@,
                r,
            ),
        r matches Ok(sel) ==> forall|i: int|
            0 <= i < sel.files.len() ==> !walk_leaves_out(*p, (#[trigger] sel.files@[i]).1@),
        r matches Ok(sel) ==> forall|i: int, j: int|
            0 <= i < j < sel.files.len() ==> path_order(
                path_components((#[trigger] sel.files@[i]).1@),
                path_components((#[trigger] sel.files@[j]).1@),
            ) <= 0,
{
    let ordered = walk_order(p, found);
    let r = select_source_files(p, &ordered, source);
    proof {
        let w = texts_of(ordered@);
        law_collected_files_sorted_and_outside_excluded(*p, texts_of(found@), w, source@);
        if r is Ok {
            let sel = r->Ok_0;
            let all = selected_entries(*p, source@, w);
            assert(pair_texts(sel.files@) == all);
            assert forall|i: int| 0 <= i < sel.files.len() implies !walk_leaves_out(*p, (#[trigger] sel.files@[i]).1@) by {
                assert(all[i].1 == sel.files@[i].1@);
            }
            assert forall|i: int, j: int| 0 <= i < j < sel.files.len() implies path_order(
                path_components((#[trigger] sel.files@[i]).1@),
                path_components((#[trigger] sel.files@[j]).1@),
            ) <= 0 by {
                assert(all[i].1 == sel.files@[i].1@);
                assert(all[j].1 == sel.files@[j].1@);
            }
        }
    }
    r
}

} // verus!
