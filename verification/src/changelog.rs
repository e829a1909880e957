//! Ordering and rendering of release notes for a changelog.

use vstd::prelude::*;

use crate::semver::{
    law_order_antisymmetric, law_order_transitive, lemma_fields_order, parse_is_undefined,
    tag_order, version_fields, version_of_fields, version_order, SemVer,
};
use crate::text::{chars_of, extend_str, string_of, trim, trim_chars, extend_chars};

verus! {

/// A published release: its tag, title and notes.
#[derive(Clone, Debug)]
pub struct ReleaseDetail {
    /// The tag the release was made from.
    pub tag_name: String,
    /// The release title.
    pub name: Option<String>,
    /// The release notes.
    pub body: Option<String>,
}

/// A release whose tag is a semantic version.
pub open spec fn has_version_tag() -> spec_fn(ReleaseDetail) -> bool {
    |r: ReleaseDetail| version_fields(trim(r.tag_name@)) is Some
}

/// `perm` lists each of `0..n` exactly once.
pub open spec fn is_permutation(perm: Seq<int>, n: nat) -> bool {
    &&& perm.len() == n
    &&& forall|i: int| 0 <= i < n ==> 0 <= #[trigger] perm[i] < n
    &&& forall|i: int, j: int| 0 <= i < j < n ==> perm[i] != perm[j]
}

/// `out` holds the releases of `input` newest first, releases with equal
/// versions in their input order.
pub open spec fn is_stable_newest_first(input: Seq<ReleaseDetail>, out: Seq<ReleaseDetail>) -> bool {
    exists|perm: Seq<int>|
        {
            &&& is_permutation(perm, input.len())
            &&& out.len() == input.len()
            &&& forall|i: int| 0 <= i < out.len() ==> out[i] == input[#[trigger] perm[i]]
            &&& forall|i: int, j: int|
                0 <= i < j < out.len() ==> tag_order(
                    #[trigger] out[i].tag_name@,
                    #[trigger] out[j].tag_name@,
                ) >= 0
            &&& forall|i: int, j: int|
                0 <= i < j < out.len() && tag_order(out[i].tag_name@, out[j].tag_name@) == 0
                    ==> #[trigger] perm[i] < #[trigger] perm[j]
        }
}

/// Keep the releases whose tag is a semantic version and order them newest
/// first; releases of equal version keep their order.
pub fn sort_releases(releases: Vec<ReleaseDetail>) -> (r: Vec<ReleaseDetail>)
    requires
        forall|i: int| 0 <= i < releases@.len() ==> !parse_is_undefined(#[trigger] releases@[i].tag_name@),
    ensures
        is_stable_newest_first(releases@.filter(has_version_tag()), r@),
{
    let ghost input = releases@;
    let ghost p = has_version_tag();
    let mut rest = releases;
    let mut out: Vec<ReleaseDetail> = Vec::new();
    let mut keys: Vec<SemVer> = Vec::new();
    let ghost mut perm: Seq<int> = Seq::empty();
    let ghost mut i: int = 0;
    proof {
        crate::text::lemma_filter_empty(input, p);
        assert(rest@ =~= input.skip(0));
    }
    while rest.len() > 0
        invariant
            0 <= i <= input.len(),
            rest@ == input.skip(i),
            p == has_version_tag(),
            forall|k: int| 0 <= k < input.len() ==> !parse_is_undefined(#[trigger] input[k].tag_name@),
            keys@.len() == out@.len(),
            forall|k: int| 0 <= k < out@.len() ==> (version_fields(trim(#[trigger] out@[k].tag_name@)) matches Some(f) && version_of_fields(f, keys@[k])),
            is_permutation(perm, input.take(i).filter(p).len()),
            out@.len() == input.take(i).filter(p).len(),
            forall|k: int| 0 <= k < out@.len() ==> out@[k] == input.take(i).filter(p)[#[trigger] perm[k]],
            forall|a: int, b: int| 0 <= a < b < out@.len() ==> version_order(#[trigger] keys@[a], #[trigger] keys@[b]) >= 0,
            forall|a: int, b: int| 0 <= a < b < out@.len() && version_order(keys@[a], keys@[b]) == 0 ==> #[trigger] perm[a] < #[trigger] perm[b],
        decreases rest.len(),
    {
        let ghost f_before = input.take(i).filter(p);
        let item = rest.remove(0);
        proof {
            assert(item == input[i]);
            crate::text::lemma_filter_step(input, p, i);
            assert(input.skip(i).drop_first() =~= input.skip(i + 1));
        }
        let parsed = SemVer::parse(item.tag_name.as_str());
        match parsed {
            Ok(v) => {
                assert(p(item));
                let m = out.len();
                let mut k: usize = 0;
                while k < m && !v.is_newer_than(&keys[k])
                    invariant
                        k <= m,
                        m == keys@.len(),
                        forall|a: int| 0 <= a < k ==> version_order(v, #[trigger] keys@[a]) <= 0,
                    decreases m - k,
                {
                    k = k + 1;
                }
                let ghost old_keys = keys@;
                let ghost old_out = out@;
                let ghost old_perm = perm;
                let ghost n = f_before.len() as int;
                proof {
                    assert forall|a: int| 0 <= a < k implies version_order(#[trigger] old_keys[a], v) >= 0 by {
                        law_order_antisymmetric(v, old_keys[a]);
                    }
                    if k < m {
                        assert(version_order(v, old_keys[k as int]) > 0);
                        assert forall|c: int| k <= c < m implies version_order(v, #[trigger] old_keys[c]) > 0 by {
                            if c > k {
                                law_order_antisymmetric(v, old_keys[k as int]);
                                law_order_antisymmetric(old_keys[k as int], old_keys[c]);
                                law_order_antisymmetric(v, old_keys[c]);
                                law_order_transitive(old_keys[c], old_keys[k as int], v);
                            }
                        }
                    }
                }
                out.insert(k, item);
                keys.insert(k, v);
                proof {
                    perm = old_perm.insert(k as int, n);
                    let f_after = input.take(i + 1).filter(p);
                    assert(f_after == f_before.push(input[i]));
                    assert forall|a: int| 0 <= a < out@.len() implies out@[a] == f_after[#[trigger] perm[a]] by {
                        if a < k {
                            assert(out@[a] == old_out[a]);
                        } else if a > k {
                            assert(out@[a] == old_out[a - 1]);
                            assert(perm[a] == old_perm[a - 1]);
                        }
                    }
                    assert forall|a: int| 0 <= a < out@.len() implies (version_fields(trim(#[trigger] out@[a].tag_name@)) matches Some(f) && version_of_fields(f, keys@[a])) by {
                        if a < k {
                            assert(out@[a] == old_out[a]);
                            assert(keys@[a] == old_keys[a]);
                        } else if a > k {
                            assert(out@[a] == old_out[a - 1]);
                            assert(keys@[a] == old_keys[a - 1]);
                        }
                    }
                    assert forall|a: int, b: int| 0 <= a < b < out@.len() implies version_order(#[trigger] keys@[a], #[trigger] keys@[b]) >= 0 by {
                        if b < k {
                            assert(keys@[a] == old_keys[a] && keys@[b] == old_keys[b]);
                        } else if b == k {
                            assert(keys@[a] == old_keys[a]);
                        } else if a < k {
                            assert(keys@[a] == old_keys[a] && keys@[b] == old_keys[b - 1]);
                        } else if a == k {
                            assert(keys@[b] == old_keys[b - 1]);
                            law_order_antisymmetric(v, old_keys[b - 1]);
                        } else {
                            assert(keys@[a] == old_keys[a - 1] && keys@[b] == old_keys[b - 1]);
                        }
                    }
                    assert forall|a: int, b: int| 0 <= a < b < out@.len() && version_order(keys@[a], keys@[b]) == 0 implies #[trigger] perm[a] < #[trigger] perm[b] by {
                        if b < k {
                        } else if b == k {
                            assert(old_perm[a] < n);
                        } else if a < k {
                        } else if a == k {
                            assert(keys@[b] == old_keys[b - 1]);
                        } else {
                        }
                    }
                    assert forall|a: int, b: int| 0 <= a < b < perm.len() implies perm[a] != perm[b] by {
                        if a < k && b > k {
                            assert(perm[b] == old_perm[b - 1]);
                        } else if a > k {
                            assert(perm[a] == old_perm[a - 1] && perm[b] == old_perm[b - 1]);
                        } else if a == k {
                            assert(perm[b] == old_perm[b - 1]);
                            assert(old_perm[b - 1] < n);
                        } else if b == k {
                            assert(old_perm[a] < n);
                        }
                    }
                    assert forall|a: int| 0 <= a < perm.len() implies 0 <= #[trigger] perm[a] < f_after.len() by {
                        if a < k {
                        } else if a > k {
                            assert(perm[a] == old_perm[a - 1]);
                        }
                    }
                }
            },
            Err(_) => {
                proof {
                    assert(!p(item));
                    assert(input.take(i + 1).filter(p) == f_before);
                }
            },
        }
        proof {
            i = i + 1;
        }
    }
    proof {
        assert(i == input.len());
        assert(input.take(i) =~= input);
        let fin = input.filter(p);
        assert forall|a: int, b: int| 0 <= a < b < out@.len() implies tag_order(#[trigger] out@[a].tag_name@, #[trigger] out@[b].tag_name@) >= 0
            && (tag_order(out@[a].tag_name@, out@[b].tag_name@) == 0 ==> perm[a] < perm[b]) by {
            let fa = version_fields(trim(out@[a].tag_name@))->0;
            let fb = version_fields(trim(out@[b].tag_name@))->0;
            lemma_fields_order(fa, keys@[a], fb, keys@[b]);
        }
        assert(is_permutation(perm, fin.len()));
        assert(forall|k: int| 0 <= k < out@.len() ==> out@[k] == fin[#[trigger] perm[k]]);
    }
    out
}

/// The changelog section printed for a release: a `## <title>` heading
/// (the name, or the tag), the trimmed notes when not empty, and a blank
/// line, each line ending with `\n`.
pub fn release_section(release: &ReleaseDetail) -> (r: String)
    ensures
        r@ == "## "@ + match release.name {
            Some(n) => n@,
            None => release.tag_name@,
        } + "\n"@ + (if trim(match release.body { Some(b) => b@, None => Seq::empty() }).len() > 0 {
            "\n"@ + trim(match release.body { Some(b) => b@, None => Seq::empty() }) + "\n"@
        } else {
            Seq::empty()
        }) + "\n"@,
{
    let mut v = chars_of("## ");
    match &release.name {
        Some(n) => extend_str(&mut v, n.as_str()),
        None => extend_str(&mut v, release.tag_name.as_str()),
    }
    extend_str(&mut v, "\n");
    let body = match &release.body {
        Some(b) => chars_of(b.as_str()),
        None => Vec::new(),
    };
    let t = trim_chars(&body);
    if t.len() > 0 {
        extend_str(&mut v, "\n");
        extend_chars(&mut v, &t);
        extend_str(&mut v, "\n");
    }
    extend_str(&mut v, "\n");
    string_of(&v)
}

} // verus!
