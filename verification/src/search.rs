//! Organisations and scope of a GitHub repository search.

use vstd::prelude::*;

use crate::git::is_nonblank;
use crate::text::{
    chars_of, join, join_strings, lemma_filter_empty, lemma_filter_step, replace_char,
    replace_chars, split_chars, split_on, string_of, trim, trim_chars,
};

verus! {

/// Environment variable containing the default GitHub organisations.
pub const ORGS_ENV_VAR: &'static str = "ENVOY_GITHUB_ORGS";

/// The organisations listed in `raw`, separated by `;` or `,`, trimmed,
/// empty entries dropped.
pub open spec fn org_list(raw: Seq<char>) -> Seq<Seq<char>> {
    split_on(replace_char(raw, ',', ';'), ';').map_values(|o: Seq<char>| trim(o)).filter(
        is_nonblank(),
    )
}

/// Parse a `;`- or `,`-separated organisation list (see [`org_list`]).
pub fn parse_orgs(raw: &str) -> (r: Vec<String>)
    ensures
        r@.map_values(|o: String| o@) == org_list(raw@),
{
    let cs = chars_of(raw);
    let replaced = replace_chars(&cs, ',', ';');
    let pieces = split_chars(&replaced, ';');
    let ghost ts = split_on(replace_char(raw@, ',', ';'), ';').map_values(|o: Seq<char>| trim(o));
    let mut out: Vec<String> = Vec::new();
    let mut i: usize = 0;
    proof {
        lemma_filter_empty(ts, is_nonblank());
    }
    assert(pieces@.len() == ts.len());
    while i < pieces.len()
        invariant
            i <= pieces.len(),
            pieces@.len() == ts.len(),
            ts == split_on(replace_char(raw@, ',', ';'), ';').map_values(|o: Seq<char>| trim(o)),
            pieces@.map_values(|p: Vec<char>| p@) == split_on(replace_char(raw@, ',', ';'), ';'),
            out@.map_values(|o: String| o@) == ts.take(i as int).filter(is_nonblank()),
        decreases pieces.len() - i,
    {
        let t = trim_chars(&pieces[i]);
        proof {
            lemma_filter_step(ts, is_nonblank(), i as int);
            assert(pieces@[i as int]@ == split_on(replace_char(raw@, ',', ';'), ';')[i as int]);
            assert(ts[i as int] == t@);
        }
        if t.len() > 0 {
            let ghost before = out@.map_values(|o: String| o@);
            out.push(string_of(&t));
            assert(out@.map_values(|o: String| o@) =~= before.push(t@));
        }
        i = i + 1;
    }
    assert(ts.take(pieces.len() as int) =~= ts);
    out
}

/// The organisations a search covers: the explicit ones, else those of the
/// environment variable when it lists any, else the current repository's
/// owner when known, else none (a global search).
pub fn effective_orgs(explicit: Option<&Vec<String>>, env_value: Option<&str>, current_org: Option<
    String,
>) -> (r: Option<Vec<String>>)
    ensures
        match explicit {
            Some(o) => r matches Some(v) && v@ == o@,
            None => match env_value {
                Some(raw) => if org_list(raw@).len() > 0 {
                    r matches Some(v) && v@.map_values(|o: String| o@) == org_list(raw@)
                } else {
                    r is None
                },
                None => match current_org {
                    Some(org) => r matches Some(v) && v@ == seq![org],
                    None => r is None,
                },
            },
        },
{
    if let Some(o) = explicit {
        return Some(o.clone());
    }
    if let Some(raw) = env_value {
        let parsed = parse_orgs(raw);
        assert(parsed@.map_values(|o: String| o@).len() == parsed.len());
        if parsed.len() == 0 {
            return None;
        }
        return Some(parsed);
    }
    match current_org {
        Some(org) => {
            let mut v: Vec<String> = Vec::new();
            v.push(org);
            assert(v@ =~= seq![v@[0]]);
            Some(v)
        },
        None => None,
    }
}

/// The scope shown for a search: the organisations joined with `, `, or
/// `GitHub (global)` when there are none.
pub fn search_scope(orgs: Option<&Vec<String>>) -> (r: String)
    ensures
        r@ == match orgs {
            Some(o) => if join(o@.map_values(|x: String| x@), ", "@).len() > 0 {
                join(o@.map_values(|x: String| x@), ", "@)
            } else {
                "GitHub (global)"@
            },
            None => "GitHub (global)"@,
        },
{
    if let Some(o) = orgs {
        let joined = join_strings(o, ", ");
        let c = chars_of(joined.as_str());
        if c.len() > 0 {
            return joined;
        }
    }
    string_of(&chars_of("GitHub (global)"))
}

} // verus!
