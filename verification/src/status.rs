//! Repository status summary lines.

use vstd::prelude::*;

use crate::text::{chars_of, extend_str, string_of};

verus! {

/// `s` followed by spaces up to `width` characters (`{:<width}`).
pub open spec fn pad_right(s: Seq<char>, width: nat) -> Seq<char> {
    if s.len() >= width {
        s
    } else {
        s + Seq::new((width - s.len()) as nat, |i: int| ' ')
    }
}

pub fn padded(label: &str, width: usize) -> (r: Vec<char>)
    ensures
        r@ == pad_right(label@, width as nat),
{
    let mut v = chars_of(label);
    let n = v.len();
    if n >= width {
        return v;
    }
    let ghost spaces = Seq::new((width - n) as nat, |i: int| ' ');
    let mut k: usize = n;
    while k < width
        invariant
            n <= k <= width,
            n == label@.len(),
            spaces == Seq::new((width - n) as nat, |i: int| ' '),
            v@ == label@ + spaces.take(k - n),
        decreases width - k,
    {
        v.push(' ');
        k = k + 1;
        assert(v@ =~= label@ + spaces.take(k - n));
    }
    assert(spaces.take(width - n) =~= spaces);
    v
}

/// The branch shown in the status: `branch [comparison]`, or the branch
/// alone when there is no comparison.
pub open spec fn branch_line(branch: Seq<char>, comparison: Seq<char>) -> Seq<char> {
    if comparison.len() == 0 {
        branch
    } else {
        branch + " ["@ + comparison + "]"@
    }
}

/// The three status lines, each with its label padded to 16 characters.
pub fn format_status_lines(branch: &str, comparison: &str, latest_tag: &str, last_commit: &str) -> (r:
    [String; 3])
    ensures
        r[0]@ == pad_right("Branch:"@, 16) + branch_line(branch@, comparison@),
        r[1]@ == pad_right("Last tag:"@, 16) + latest_tag@,
        r[2]@ == pad_right("Last commit:"@, 16) + last_commit@,
{
    let width: usize = 16;
    let c = chars_of(comparison);
    let mut first = padded("Branch:", width);
    extend_str(&mut first, branch);
    if c.len() > 0 {
        extend_str(&mut first, " [");
        extend_str(&mut first, comparison);
        extend_str(&mut first, "]");
    }
    assert(first@ =~= pad_right("Branch:"@, 16) + branch_line(branch@, comparison@));
    let mut second = padded("Last tag:", width);
    extend_str(&mut second, latest_tag);
    let mut third = padded("Last commit:", width);
    extend_str(&mut third, last_commit);
    [string_of(&first), string_of(&second), string_of(&third)]
}

/// The values shown when the repository lacks them: the branch is
/// `(detached HEAD)`, the tag `(none)`, the last commit `(no commits)`.
pub fn status_values(branch: Option<String>, latest_tag: Option<String>, last_commit: &str) -> (r: (
    String,
    String,
    String,
))
    ensures
        r.0@ == match branch { Some(b) => b@, None => "(detached HEAD)"@ },
        r.1@ == match latest_tag { Some(t) => t@, None => "(none)"@ },
        r.2@ == if last_commit@.len() == 0 { "(no commits)"@ } else { last_commit@ },
{
    let b = match branch {
        Some(b) => b,
        None => string_of(&chars_of("(detached HEAD)")),
    };
    let t = match latest_tag {
        Some(t) => t,
        None => string_of(&chars_of("(none)")),
    };
    let lc = chars_of(last_commit);
    let c = if lc.len() == 0 {
        string_of(&chars_of("(no commits)"))
    } else {
        string_of(&lc)
    };
    (b, t, c)
}

} // verus!
