//! Pulling bundle checkouts: the text shown while pulling one or several
//! bundles and the summary at the end.

use vstd::prelude::*;

use crate::error::{error_text, EngitError};
use crate::publish::{pair_texts, texts_of};
use crate::status::{pad_right, padded};
use crate::text::{
    chars_of, decimal, extend_chars, extend_str, lines, lines_of, push_decimal, string_of, trim,
    trim_chars, utf8_len, utf8_width,
};

verus! {

/// The git command a pull runs, as shown: `git pull [--rebase] <remote>`.
pub open spec fn pull_action_text(remote: Seq<char>, rebase: bool) -> Seq<char> {
    "git pull"@ + (if rebase {
        " --rebase"@
    } else {
        ""@
    }) + " "@ + remote
}

/// The git command a pull runs, as shown.
pub fn pull_action(remote: &str, rebase: bool) -> (r: String)
    ensures
        r@ == pull_action_text(remote@, rebase),
{
    proof {
        reveal_strlit("");
    }
    let mut v = chars_of("git pull");
    if rebase {
        extend_str(&mut v, " --rebase");
    }
    extend_str(&mut v, " ");
    extend_str(&mut v, remote);
    string_of(&v)
}

/// What a dry run of a pull prints for the resolved `(bundle ID, path)`
/// pairs.
pub open spec fn pull_dry_run_text(bundles: Seq<(Seq<char>, Seq<char>)>, action: Seq<char>) -> Seq<
    Seq<char>,
> {
    if bundles.len() > 1 {
        seq!["Would pull "@ + decimal(bundles.len()) + " bundle(s) ["@ + action + "]:"@]
            + bundles.map_values(|b: (Seq<char>, Seq<char>)| "  "@ + pad_right(b.0, 20) + "  "@ + b.1)
    } else if bundles.len() == 1 {
        seq![
            "Would pull "@ + bundles[0].0 + "  ("@ + bundles[0].1 + ")"@,
            "  Command: "@ + action,
        ]
    } else {
        Seq::empty()
    }
}

/// The lines of a dry run (see [`pull_dry_run_text`]).
pub fn pull_dry_run_lines(bundles: &Vec<(String, String)>, action: &str) -> (r: Vec<String>)
    ensures
        texts_of(r@) == pull_dry_run_text(pair_texts(bundles@), action@),
{
    let ghost bv = pair_texts(bundles@);
    let mut out: Vec<String> = Vec::new();
    if bundles.len() > 1 {
        let mut h = chars_of("Would pull ");
        push_decimal(&mut h, bundles.len() as u64);
        extend_str(&mut h, " bundle(s) [");
        extend_str(&mut h, action);
        extend_str(&mut h, "]:");
        out.push(string_of(&h));
        let ghost head = seq!["Would pull "@ + decimal(bv.len()) + " bundle(s) ["@ + action@ + "]:"@];
        let ghost body = bv.map_values(|b: (Seq<char>, Seq<char>)| "  "@ + pad_right(b.0, 20) + "  "@ + b.1);
        assert(texts_of(out@) =~= head + body.take(0));
        let mut i: usize = 0;
        while i < bundles.len()
            invariant
                i <= bundles.len(),
                bv == pair_texts(bundles@),
                body == bv.map_values(|b: (Seq<char>, Seq<char>)| "  "@ + pad_right(b.0, 20) + "  "@ + b.1),
                texts_of(out@) == head + body.take(i as int),
            decreases bundles.len() - i,
        {
            let ghost before = texts_of(out@);
            let mut l = chars_of("  ");
            let p = padded(bundles[i].0.as_str(), 20);
            extend_chars(&mut l, &p);
            extend_str(&mut l, "  ");
            extend_str(&mut l, bundles[i].1.as_str());
            out.push(string_of(&l));
            assert(texts_of(out@) =~= before.push(body[i as int]));
            assert(body.take(i + 1) =~= body.take(i as int).push(body[i as int]));
            i = i + 1;
        }
        assert(body.take(bundles.len() as int) =~= body);
    } else if bundles.len() == 1 {
        let mut a = chars_of("Would pull ");
        extend_str(&mut a, bundles[0].0.as_str());
        extend_str(&mut a, "  (");
        extend_str(&mut a, bundles[0].1.as_str());
        extend_str(&mut a, ")");
        out.push(string_of(&a));
        let mut b = chars_of("  Command: ");
        extend_str(&mut b, action);
        out.push(string_of(&b));
        assert(texts_of(out@) =~= pull_dry_run_text(bv, action@));
    } else {
        assert(texts_of(out@) =~= Seq::<Seq<char>>::empty());
    }
    out
}

/// The widest bundle ID, in bytes, plus two: the column the progress
/// lines pad IDs to.
pub open spec fn name_width_of(bundles: Seq<(Seq<char>, Seq<char>)>) -> nat
    decreases bundles.len(),
{
    if bundles.len() == 0 {
        2
    } else {
        let w = name_width_of(bundles.drop_last());
        let n = utf8_len(bundles.last().0) + 2;
        if n > w {
            n
        } else {
            w
        }
    }
}

fn utf8_len_of(s: &str) -> (r: u64)
    requires
        utf8_len(s@) <= u64::MAX,
    ensures
        r == utf8_len(s@),
{
    let cs = chars_of(s);
    let mut n: u64 = 0;
    let mut i: usize = 0;
    assert(cs@.take(0) =~= Seq::<char>::empty());
    while i < cs.len()
        invariant
            i <= cs.len(),
            cs@ == s@,
            utf8_len(s@) <= u64::MAX,
            n == utf8_len(cs@.take(i as int)),
        decreases cs.len() - i,
    {
        proof {
            let t = cs@.take(i + 1);
            assert(t.drop_last() =~= cs@.take(i as int));
            lemma_utf8_len_prefix(cs@, i + 1);
        }
        let c = cs[i];
        let v: u32 = c as u32;
        let w: u64 = if v < 0x80 {
            1
        } else if v < 0x800 {
            2
        } else if v < 0x10000 {
            3
        } else {
            4
        };
        n = n + w;
        i = i + 1;
    }
    assert(cs@.take(cs.len() as int) =~= cs@);
    n
}

proof fn lemma_utf8_len_prefix(s: Seq<char>, k: int)
    requires
        0 <= k <= s.len(),
    ensures
        utf8_len(s.take(k)) <= utf8_len(s),
    decreases s.len() - k,
{
    if k < s.len() {
        lemma_utf8_len_prefix(s, k + 1);
        let t = s.take(k + 1);
        assert(t.drop_last() =~= s.take(k));
    } else {
        assert(s.take(k) =~= s);
    }
}

/// The column the progress lines pad bundle IDs to.
pub fn name_width(bundles: &Vec<(String, String)>) -> (r: usize)
    requires
        name_width_of(pair_texts(bundles@)) <= usize::MAX,
    ensures
        r == name_width_of(pair_texts(bundles@)),
{
    let ghost bv = pair_texts(bundles@);
    let mut w: usize = 2;
    let mut i: usize = 0;
    assert(bv.take(0) =~= Seq::<(Seq<char>, Seq<char>)>::empty());
    while i < bundles.len()
        invariant
            i <= bundles.len(),
            bv == pair_texts(bundles@),
            name_width_of(bv) <= usize::MAX,
            w == name_width_of(bv.take(i as int)),
        decreases bundles.len() - i,
    {
        proof {
            let t = bv.take(i + 1);
            assert(t.drop_last() =~= bv.take(i as int));
            assert(t.last() == bv[i as int]);
            lemma_width_prefix(bv, i + 1);
        }
        let n = utf8_len_of(bundles[i].0.as_str());
        if n + 2 > w as u64 {
            w = (n + 2) as usize;
        }
        i = i + 1;
    }
    assert(bv.take(bundles.len() as int) =~= bv);
    w
}

proof fn lemma_width_prefix(bs: Seq<(Seq<char>, Seq<char>)>, k: int)
    requires
        0 <= k <= bs.len(),
    ensures
        name_width_of(bs.take(k)) <= name_width_of(bs),
        k > 0 ==> utf8_len(bs[k - 1].0) + 2 <= name_width_of(bs),
    decreases bs.len() - k,
{
    if k < bs.len() {
        lemma_width_prefix(bs, k + 1);
        let t = bs.take(k + 1);
        assert(t.drop_last() =~= bs.take(k));
        if k > 0 {
            assert(t.drop_last().last() == bs[k - 1]);
            lemma_width_prefix_last(t.drop_last());
        }
    } else {
        assert(bs.take(k) =~= bs);
        if k > 0 {
            lemma_width_prefix_last(bs);
        }
    }
}

proof fn lemma_width_prefix_last(bs: Seq<(Seq<char>, Seq<char>)>)
    requires
        bs.len() > 0,
    ensures
        utf8_len(bs.last().0) + 2 <= name_width_of(bs),
{
}

/// The line for a bundle that is not a git checkout: on the progress line
/// when several bundles are pulled, else as an error line of its own.
pub open spec fn skip_text(multi: bool, bndlid: Seq<char>, width: nat) -> Seq<char> {
    if multi {
        "  "@ + pad_right(bndlid, width) + " \u{26a0}  skipped (not a git repo)"@
    } else {
        bndlid + ": skipped (not a git repo)"@
    }
}

/// The line for a bundle that is not a git checkout (see [`skip_text`]).
pub fn pull_skip_line(multi: bool, bndlid: &str, width: usize) -> (r: String)
    ensures
        r@ == skip_text(multi, bndlid@, width as nat),
{
    if multi {
        let mut l = chars_of("  ");
        let p = padded(bndlid, width);
        extend_chars(&mut l, &p);
        extend_str(&mut l, " \u{26a0}  skipped (not a git repo)");
        string_of(&l)
    } else {
        let mut l = chars_of(bndlid);
        extend_str(&mut l, ": skipped (not a git repo)");
        string_of(&l)
    }
}

/// What is shown as a bundle's pull starts: the padded ID (the progress
/// line goes on) when several are pulled, else a line of its own.
pub open spec fn start_text(multi: bool, bndlid: Seq<char>, path: Seq<char>, width: nat) -> Seq<char> {
    if multi {
        "  "@ + pad_right(bndlid, width)
    } else {
        "Pulling "@ + bndlid + "  ("@ + path + ")"@
    }
}

/// What is shown as a bundle's pull starts (see [`start_text`]).
pub fn pull_start_text(multi: bool, bndlid: &str, path: &str, width: usize) -> (r: String)
    ensures
        r@ == start_text(multi, bndlid@, path@, width as nat),
{
    if multi {
        let mut l = chars_of("  ");
        let p = padded(bndlid, width);
        extend_chars(&mut l, &p);
        string_of(&l)
    } else {
        let mut l = chars_of("Pulling ");
        extend_str(&mut l, bndlid);
        extend_str(&mut l, "  (");
        extend_str(&mut l, path);
        extend_str(&mut l, ")");
        string_of(&l)
    }
}

/// The first line of a text, if it has one (`str::lines().next()`).
pub open spec fn first_line(s: Seq<char>) -> Option<Seq<char>> {
    if lines(s).len() > 0 {
        Some(lines(s)[0])
    } else {
        None
    }
}

fn first_line_of(s: &str) -> (r: Option<Vec<char>>)
    ensures
        match first_line(s@) {
            Some(l) => r matches Some(x) && x@ == l,
            None => r is None,
        },
{
    let cs = chars_of(s);
    let ls = lines_of(&cs);
    if ls.len() > 0 {
        assert(ls@.map_values(|p: Vec<char>| p@)[0] == ls@[0]@);
        Some(ls[0].clone())
    } else {
        None
    }
}

/// What is shown when a bundle's pull succeeded with `output`: after the
/// progress line, its first line (or `Done.` when it is blank) when
/// several are pulled; else the whole output, or `Already up to date.`
/// when there is none.
pub open spec fn success_text(multi: bool, output: Seq<char>) -> Seq<char> {
    if multi {
        " \u{2713}  "@ + match first_line(output) {
            Some(l) => if trim(l).len() > 0 {
                l
            } else {
                "Done."@
            },
            None => "Done."@,
        }
    } else if trim(output).len() == 0 {
        "Already up to date."@
    } else {
        output
    }
}

/// What is shown when a bundle's pull succeeded (see [`success_text`]).
pub fn pull_success_text(multi: bool, output: &str) -> (r: String)
    ensures
        r@ == success_text(multi, output@),
{
    if multi {
        let mut l = chars_of(" \u{2713}  ");
        match first_line_of(output) {
            Some(f) => {
                let t = trim_chars(&f);
                if t.len() > 0 {
                    extend_chars(&mut l, &f);
                } else {
                    extend_str(&mut l, "Done.");
                }
            },
            None => extend_str(&mut l, "Done."),
        }
        string_of(&l)
    } else {
        let cs = chars_of(output);
        let t = trim_chars(&cs);
        if t.len() == 0 {
            "Already up to date.".to_owned()
        } else {
            output.to_owned()
        }
    }
}

/// The first line of an error's text, or nothing.
pub open spec fn error_first_line(message: Seq<char>) -> Seq<char> {
    match first_line(message) {
        Some(l) => l,
        None => Seq::empty(),
    }
}

/// What the progress line shows when a bundle's pull failed.
pub fn pull_failure_text(message: &str) -> (r: String)
    ensures
        r@ == " \u{2717}  "@ + error_first_line(message@),
{
    let mut l = chars_of(" \u{2717}  ");
    if let Some(f) = first_line_of(message) {
        extend_chars(&mut l, &f);
    }
    assert(l@ =~= " \u{2717}  "@ + error_first_line(message@));
    string_of(&l)
}

/// The error a single-bundle pull fails with.
pub fn pull_error(error: &EngitError) -> (r: EngitError)
    ensures
        r matches EngitError::Engit(m) && m@ == error_text(*error),
{
    EngitError::Engit(error.describe())
}

/// The summary after pulling several bundles: how many succeeded and
/// failed, then each failure's first line.
pub open spec fn summary_text(total: nat, failures: Seq<(Seq<char>, Seq<char>)>) -> Seq<Seq<char>> {
    let succeeded: nat = if total >= failures.len() {
        (total - failures.len()) as nat
    } else {
        0
    };
    seq!["\nDone. "@ + decimal(succeeded) + " succeeded, "@ + decimal(failures.len()) + " failed."@]
        + if failures.len() > 0 {
        seq!["  FAILED:"@] + failures.map_values(
            |f: (Seq<char>, Seq<char>)| "    "@ + f.0 + ": "@ + error_first_line(f.1),
        )
    } else {
        Seq::empty()
    }
}

/// The summary after pulling several bundles (see [`summary_text`]).
pub fn pull_summary_lines(total: usize, failures: &Vec<(String, String)>) -> (r: Vec<String>)
    ensures
        texts_of(r@) == summary_text(total as nat, pair_texts(failures@)),
{
    let ghost fv = pair_texts(failures@);
    let succeeded = total.saturating_sub(failures.len());
    let mut h = chars_of("\nDone. ");
    push_decimal(&mut h, succeeded as u64);
    extend_str(&mut h, " succeeded, ");
    push_decimal(&mut h, failures.len() as u64);
    extend_str(&mut h, " failed.");
    let mut out: Vec<String> = Vec::new();
    out.push(string_of(&h));
    let ghost succ: nat = if total >= fv.len() {
        (total - fv.len()) as nat
    } else {
        0
    };
    let ghost head = seq!["\nDone. "@ + decimal(succ) + " succeeded, "@ + decimal(fv.len()) + " failed."@];
    assert(texts_of(out@) =~= head);
    if failures.len() == 0 {
        assert(texts_of(out@) =~= head + Seq::<Seq<char>>::empty());
        return out;
    }
    out.push("  FAILED:".to_owned());
    let ghost body = fv.map_values(|f: (Seq<char>, Seq<char>)| "    "@ + f.0 + ": "@ + error_first_line(f.1));
    let ghost head2 = head + seq!["  FAILED:"@];
    assert(texts_of(out@) =~= head2 + body.take(0));
    let mut i: usize = 0;
    while i < failures.len()
        invariant
            i <= failures.len(),
            fv == pair_texts(failures@),
            body == fv.map_values(|f: (Seq<char>, Seq<char>)| "    "@ + f.0 + ": "@ + error_first_line(f.1)),
            texts_of(out@) == head2 + body.take(i as int),
        decreases failures.len() - i,
    {
        let ghost before = texts_of(out@);
        let mut l = chars_of("    ");
        extend_str(&mut l, failures[i].0.as_str());
        extend_str(&mut l, ": ");
        if let Some(f) = first_line_of(failures[i].1.as_str()) {
            extend_chars(&mut l, &f);
        }
        assert(l@ =~= body[i as int]);
        out.push(string_of(&l));
        assert(texts_of(out@) =~= before.push(body[i as int]));
        assert(body.take(i + 1) =~= body.take(i as int).push(body[i as int]));
        i = i + 1;
    }
    assert(body.take(failures.len() as int) =~= body);
    assert(head2 + body =~= head + (seq!["  FAILED:"@] + body));
    out
}

/// The error when `*` finds no bundle.
pub fn no_bundles_error() -> (r: EngitError)
    ensures
        r matches EngitError::Engit(m) && m@
            == "No bundles discovered. Is ENVOY_BNDL_ROOTS set and pointing to bundle checkouts?"@,
{
    EngitError::Engit(
        "No bundles discovered. Is ENVOY_BNDL_ROOTS set and pointing to bundle checkouts?".to_owned(),
    )
}

/// Whether the specs ask for every discovered bundle: a single `*`.
pub fn is_wildcard(specs: &Vec<String>) -> (r: bool)
    ensures
        r == (specs.len() == 1 && specs@[0]@ == "*"@),
{
    if specs.len() != 1 {
        return false;
    }
    let a = chars_of(specs[0].as_str());
    let b = chars_of("*");
    crate::text::chars_eq(&a, &b)
}

// ---------------------------------------------------------------------------
// The steps of a pull
// ---------------------------------------------------------------------------

/// What the caller of a pull does next.
pub enum PullAction {
    /// Check whether the bundle at `path` is a git repository and report it
    /// with `IsRepo`.
    CheckRepo { bndlid: String, path: String },
    /// Run the pull in `path` and report `Pulled` or `Failed`.
    Pull { bndlid: String, path: String },
    /// The pull is over; it ends with `error` when one is set.
    Finished,
}

/// What came of the caller's action.
pub enum PullEvent {
    /// Whether the path is a git repository.
    IsRepo(bool),
    /// The pull succeeded with this output.
    Pulled(String),
    /// The pull failed.
    Failed(EngitError),
}

/// The state of a pull.
pub struct PullState {
    /// The `(bundle ID, path)` pairs to pull, in order.
    pub bundles: Vec<(String, String)>,
    /// The column bundle IDs are padded to.
    pub width: usize,
    /// The next bundle to consider.
    pub index: usize,
    /// What the caller does next.
    pub action: PullAction,
    /// Lines to print before doing it.
    pub lines: Vec<String>,
    /// Text to print after them without ending the line.
    pub partial: Option<String>,
    /// A line to print on standard error.
    pub warning: Option<String>,
    /// The bundles whose pull failed, with the error text.
    pub failures: Vec<(String, String)>,
    /// The error the pull ends with.
    pub error: Option<EngitError>,
}

/// `t` has `s`'s bundles and column.
pub open spec fn pull_same(s: PullState, t: PullState) -> bool {
    &&& pair_texts(t.bundles@) == pair_texts(s.bundles@)
    &&& t.width == s.width
}

/// `t` goes on with bundle `i`: it checks it, or, past the last one,
/// finishes with the summary when several bundles were pulled; `lines`
/// are printed first.
pub open spec fn pull_positioned(t: PullState, i: int, lines: Seq<Seq<char>>) -> bool {
    let bs = pair_texts(t.bundles@);
    &&& t.partial is None
    &&& t.warning is None
    &&& t.error is None
    &&& if i < bs.len() {
        &&& t.action matches PullAction::CheckRepo { bndlid, path } && bndlid@ == bs[i].0 && path@ == bs[i].1
        &&& t.index == i + 1
        &&& texts_of(t.lines@) == lines
    } else {
        &&& t.action is Finished
        &&& t.index == i
        &&& texts_of(t.lines@) == lines + if bs.len() > 1 {
            summary_text(bs.len(), pair_texts(t.failures@))
        } else {
            Seq::empty()
        }
    }
}

/// One step of a pull: the state `t` that follows `s` when its action had
/// outcome `e`. A bundle that is not a repository is skipped; several
/// bundles go on past a failed pull and summarise; one bundle fails.
pub open spec fn pull_transition(s: PullState, e: PullEvent, t: PullState) -> bool {
    let multi = s.bundles@.len() > 1;
    &&& pull_same(s, t)
    &&& match s.action {
        PullAction::CheckRepo { bndlid, path } => if e matches PullEvent::IsRepo(false) {
            &&& pair_texts(t.failures@) == pair_texts(s.failures@)
            &&& if multi {
                pull_positioned(t, s.index as int, seq![skip_text(true, bndlid@, s.width as nat)])
            } else {
                &&& pull_positioned(t.clear_warning(), s.index as int, seq![])
                &&& t.warning matches Some(w) && w@ == skip_text(false, bndlid@, s.width as nat)
            }
        } else {
            &&& t.action matches PullAction::Pull { bndlid: b, path: p } && b@ == bndlid@ && p@ == path@
            &&& t.index == s.index
            &&& pair_texts(t.failures@) == pair_texts(s.failures@)
            &&& t.warning is None
            &&& t.error is None
            &&& if multi {
                &&& texts_of(t.lines@) == Seq::<Seq<char>>::empty()
                &&& t.partial matches Some(x) && x@ == start_text(true, bndlid@, path@, s.width as nat)
            } else {
                &&& texts_of(t.lines@) == seq![start_text(false, bndlid@, path@, s.width as nat)]
                &&& t.partial is None
            }
        },
        PullAction::Pull { bndlid, path: _ } => match e {
            PullEvent::Failed(err) => if multi {
                &&& pair_texts(t.failures@) == pair_texts(s.failures@).push((bndlid@, error_text(err)))
                &&& pull_positioned(t, s.index as int, seq![" \u{2717}  "@ + error_first_line(error_text(err))])
            } else {
                &&& t.action is Finished
                &&& t.error matches Some(EngitError::Engit(m)) && m@ == error_text(err)
                &&& texts_of(t.lines@) == Seq::<Seq<char>>::empty()
                &&& t.partial is None
                &&& t.warning is None
            },
            PullEvent::Pulled(o) => pair_texts(t.failures@) == pair_texts(s.failures@)
                && pull_positioned(t, s.index as int, seq![success_text(multi, o@)]),
            PullEvent::IsRepo(_) => pair_texts(t.failures@) == pair_texts(s.failures@)
                && pull_positioned(t, s.index as int, seq![success_text(multi, Seq::empty())]),
        },
        PullAction::Finished => {
            &&& t.action is Finished
            &&& texts_of(t.lines@) == Seq::<Seq<char>>::empty()
            &&& t.partial is None
            &&& t.warning is None
            &&& t.error == s.error
        },
    }
}

impl PullState {
    /// The same state without its standard-error line.
    pub open spec fn clear_warning(self) -> PullState {
        PullState { warning: None, ..self }
    }
}

fn string_list(line: String) -> (r: Vec<String>)
    ensures
        texts_of(r@) == seq![line@],
{
    let mut v: Vec<String> = Vec::new();
    v.push(line);
    assert(texts_of(v@) =~= seq![line@]);
    v
}

/// Positions a pull at bundle `i` (see [`pull_positioned`]).
fn positioned(
    bundles: Vec<(String, String)>,
    width: usize,
    i: usize,
    lines: Vec<String>,
    failures: Vec<(String, String)>,
) -> (t: PullState)
    requires
        i <= bundles.len(),
    ensures
        pull_positioned(t, i as int, texts_of(lines@)),
        pair_texts(t.bundles@) == pair_texts(bundles@),
        t.width == width,
        pair_texts(t.failures@) == pair_texts(failures@),
{
    let mut lines = lines;
    let ghost first = texts_of(lines@);
    let ghost bs = pair_texts(bundles@);
    if i < bundles.len() {
        let bndlid = bundles[i].0.clone();
        let path = bundles[i].1.clone();
        assert(bs[i as int] == (bundles@[i as int].0@, bundles@[i as int].1@));
        PullState {
            bundles,
            width,
            index: i + 1,
            action: PullAction::CheckRepo { bndlid, path },
            lines,
            partial: None,
            warning: None,
            failures,
            error: None,
        }
    } else {
        if bundles.len() > 1 {
            let summary = pull_summary_lines(bundles.len(), &failures);
            let mut k: usize = 0;
            while k < summary.len()
                invariant
                    k <= summary.len(),
                    texts_of(lines@) == first + texts_of(summary@).take(k as int),
                decreases summary.len() - k,
            {
                let ghost before = texts_of(lines@);
                lines.push(summary[k].clone());
                assert(texts_of(lines@) =~= before.push(summary@[k as int]@));
                assert(texts_of(summary@).take(k + 1) =~= texts_of(summary@).take(k as int).push(summary@[k as int]@));
                k = k + 1;
            }
            assert(texts_of(summary@).take(summary.len() as int) =~= texts_of(summary@));
        } else {
            assert(texts_of(lines@) =~= first + Seq::<Seq<char>>::empty());
        }
        PullState {
            bundles,
            width,
            index: i,
            action: PullAction::Finished,
            lines,
            partial: None,
            warning: None,
            failures,
            error: None,
        }
    }
}

/// How a pull starts: a dry run only shows what would be pulled; a pull of
/// several bundles announces them, then checks the first bundle.
pub fn pull_start(bundles: Vec<(String, String)>, remote: &str, rebase: bool, dry_run: bool) -> (t:
    PullState)
    requires
        name_width_of(pair_texts(bundles@)) <= usize::MAX,
    ensures
        pair_texts(t.bundles@) == pair_texts(bundles@),
        t.width == name_width_of(pair_texts(bundles@)),
        pair_texts(t.failures@) == Seq::<(Seq<char>, Seq<char>)>::empty(),
        dry_run ==> t.action is Finished && t.error is None && t.partial is None && t.warning is None
            && texts_of(t.lines@) == pull_dry_run_text(
            pair_texts(bundles@),
            pull_action_text(remote@, rebase),
        ),
        !dry_run ==> pull_positioned(
            t,
            0,
            if bundles@.len() > 1 {
                seq!["Pulling "@ + decimal(bundles@.len()) + " bundle(s)..."@]
            } else {
                Seq::empty()
            },
        ),
{
    let width = name_width(&bundles);
    let failures: Vec<(String, String)> = Vec::new();
    assert(pair_texts(failures@) =~= Seq::<(Seq<char>, Seq<char>)>::empty());
    if dry_run {
        let action = pull_action(remote, rebase);
        let lines = pull_dry_run_lines(&bundles, action.as_str());
        return PullState {
            bundles,
            width,
            index: 0,
            action: PullAction::Finished,
            lines,
            partial: None,
            warning: None,
            failures,
            error: None,
        };
    }
    let lines = if bundles.len() > 1 {
        let mut h = chars_of("Pulling ");
        push_decimal(&mut h, bundles.len() as u64);
        extend_str(&mut h, " bundle(s)...");
        string_list(string_of(&h))
    } else {
        let v: Vec<String> = Vec::new();
        assert(texts_of(v@) =~= Seq::<Seq<char>>::empty());
        v
    };
    positioned(bundles, width, 0, lines, failures)
}

/// The next state of a pull, once the caller has done `s.action` and seen
/// `e` (see [`pull_transition`]).
pub fn pull_next(s: PullState, e: PullEvent) -> (t: PullState)
    requires
        s.index <= s.bundles.len(),
    ensures
        pull_transition(s, e, t),
        t.index <= t.bundles.len(),
{
    let multi = s.bundles.len() > 1;
    let PullState { bundles, width, index, action, lines: _, partial: _, warning: _, mut failures, error } = s;
    match action {
        PullAction::CheckRepo { bndlid, path } => {
            let skipped = match &e {
                PullEvent::IsRepo(false) => true,
                _ => false,
            };
            if skipped {
                let line = pull_skip_line(multi, bndlid.as_str(), width);
                if multi {
                    positioned(bundles, width, index, string_list(line), failures)
                } else {
                    let v: Vec<String> = Vec::new();
                    assert(texts_of(v@) =~= Seq::<Seq<char>>::empty());
                    let t = positioned(bundles, width, index, v, failures);
                    PullState { warning: Some(line), ..t }
                }
            } else {
                let start = pull_start_text(multi, bndlid.as_str(), path.as_str(), width);
                let (lines, partial) = if multi {
                    let v: Vec<String> = Vec::new();
                    assert(texts_of(v@) =~= Seq::<Seq<char>>::empty());
                    (v, Some(start))
                } else {
                    (string_list(start), None)
                };
                PullState {
                    bundles,
                    width,
                    index,
                    action: PullAction::Pull { bndlid, path },
                    lines,
                    partial,
                    warning: None,
                    failures,
                    error: None,
                }
            }
        },
        PullAction::Pull { bndlid, path: _ } => match e {
            PullEvent::Failed(err) => {
                let message = err.describe();
                if multi {
                    let line = pull_failure_text(message.as_str());
                    let ghost before = pair_texts(failures@);
                    failures.push((bndlid, message));
                    assert(pair_texts(failures@) =~= before.push((bndlid@, error_text(err))));
                    positioned(bundles, width, index, string_list(line), failures)
                } else {
                    let v: Vec<String> = Vec::new();
                    assert(texts_of(v@) =~= Seq::<Seq<char>>::empty());
                    PullState {
                        bundles,
                        width,
                        index,
                        action: PullAction::Finished,
                        lines: v,
                        partial: None,
                        warning: None,
                        failures,
                        error: Some(pull_error(&err)),
                    }
                }
            },
            PullEvent::Pulled(o) => {
                let line = pull_success_text(multi, o.as_str());
                positioned(bundles, width, index, string_list(line), failures)
            },
            PullEvent::IsRepo(_) => {
                let line = pull_success_text(multi, "");
                proof {
                    assert(""@ =~= Seq::<char>::empty()) by {
                        reveal_strlit("");
                    }
                }
                positioned(bundles, width, index, string_list(line), failures)
            },
        },
        PullAction::Finished => {
            let v: Vec<String> = Vec::new();
            assert(texts_of(v@) =~= Seq::<Seq<char>>::empty());
            PullState {
                bundles,
                width,
                index,
                action: PullAction::Finished,
                lines: v,
                partial: None,
                warning: None,
                failures,
                error,
            }
        },
    }
}

} // verus!
