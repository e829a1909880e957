//! Character-level text primitives shared by the rest of the library.
//!
//! Text is modelled as `Seq<char>`. Executable helpers work on `Vec<char>`
//! and convert to and from `String` at the edges of the public API.

use vstd::prelude::*;

verus! {

// ---------------------------------------------------------------------------
// Conversions between `str` / `String` and `Vec<char>`
// ---------------------------------------------------------------------------

/// Appends one character to a `String` (`String::push`).
#[verifier::external_body]
pub(crate) fn push_char(s: &mut String, c: char)
    ensures
        final(s)@ == old(s)@.push(c),
{
    s.push(c);
}

/// The characters of `s`, in order.
pub fn chars_of(s: &str) -> (out: Vec<char>)
    ensures
        out@ == s@,
{
    let mut out: Vec<char> = Vec::new();
    for c in it: s.chars()
        invariant
            out@ == it.seq().take(it.index() as int),
            it.seq() == s@,
    {
        out.push(c);
    }
    out
}

/// A `String` holding exactly the characters of `v`.
pub fn string_of(v: &Vec<char>) -> (out: String)
    ensures
        out@ == v@,
{
    let mut out = String::new();
    let mut i: usize = 0;
    while i < v.len()
        invariant
            i <= v.len(),
            out@ == v@.take(i as int),
        decreases v.len() - i,
    {
        push_char(&mut out, v[i]);
        i = i + 1;
        assert(out@ =~= v@.take(i as int));
    }
    assert(v@.take(v.len() as int) =~= v@);
    out
}

/// Appends the characters of `s` to `out`.
pub fn extend_chars(out: &mut Vec<char>, s: &Vec<char>)
    ensures
        final(out)@ == old(out)@ + s@,
{
    let mut i: usize = 0;
    while i < s.len()
        invariant
            i <= s.len(),
            out@ == old(out)@ + s@.take(i as int),
        decreases s.len() - i,
    {
        out.push(s[i]);
        i = i + 1;
        assert(out@ =~= old(out)@ + s@.take(i as int));
    }
    assert(s@.take(s.len() as int) =~= s@);
}

/// Appends the characters of the string slice `s` to `out`.
pub fn extend_str(out: &mut Vec<char>, s: &str)
    ensures
        final(out)@ == old(out)@ + s@,
{
    let cs = chars_of(s);
    extend_chars(out, &cs);
}

/// A copy of the characters `v[from..to]`.
pub fn slice_chars(v: &Vec<char>, from: usize, to: usize) -> (out: Vec<char>)
    requires
        from <= to <= v.len(),
    ensures
        out@ == v@.subrange(from as int, to as int),
{
    let mut out: Vec<char> = Vec::new();
    let mut i: usize = from;
    while i < to
        invariant
            from <= i <= to,
            to <= v.len(),
            out@ == v@.subrange(from as int, i as int),
        decreases to - i,
    {
        out.push(v[i]);
        i = i + 1;
        assert(out@ =~= v@.subrange(from as int, i as int));
    }
    out
}

/// Whether two character vectors hold the same text.
pub fn chars_eq(a: &Vec<char>, b: &Vec<char>) -> (r: bool)
    ensures
        r == (a@ == b@),
{
    if a.len() != b.len() {
        return false;
    }
    let mut i: usize = 0;
    while i < a.len()
        invariant
            i <= a.len(),
            a.len() == b.len(),
            forall|k: int| 0 <= k < i ==> a@[k] == b@[k],
        decreases a.len() - i,
    {
        if a[i] != b[i] {
            return false;
        }
        i = i + 1;
    }
    assert(a@ =~= b@);
    true
}

// ---------------------------------------------------------------------------
// Whitespace and trimming (Unicode `White_Space`, as `char::is_whitespace`)
// ---------------------------------------------------------------------------

/// The Unicode `White_Space` property, which `char::is_whitespace` and
/// `str::trim` use.
pub open spec fn is_ws(c: char) -> bool {
    ||| '\u{9}' <= c <= '\u{d}'
    ||| c == ' '
    ||| c == '\u{85}'
    ||| c == '\u{a0}'
    ||| c == '\u{1680}'
    ||| '\u{2000}' <= c <= '\u{200a}'
    ||| c == '\u{2028}'
    ||| c == '\u{2029}'
    ||| c == '\u{202f}'
    ||| c == '\u{205f}'
    ||| c == '\u{3000}'
}

/// Executable form of [`is_ws`].
pub fn is_whitespace(c: char) -> (r: bool)
    ensures
        r == is_ws(c),
{
    ('\u{9}' <= c && c <= '\u{d}') || c == ' ' || c == '\u{85}' || c == '\u{a0}' || c == '\u{1680}'
        || ('\u{2000}' <= c && c <= '\u{200a}') || c == '\u{2028}' || c == '\u{2029}' || c
        == '\u{202f}' || c == '\u{205f}' || c == '\u{3000}'
}

/// `s` without its leading whitespace.
pub open spec fn trim_start(s: Seq<char>) -> Seq<char>
    decreases s.len(),
{
    if s.len() > 0 && is_ws(s[0]) {
        trim_start(s.drop_first())
    } else {
        s
    }
}

/// `s` without its trailing whitespace.
pub open spec fn trim_end(s: Seq<char>) -> Seq<char>
    decreases s.len(),
{
    if s.len() > 0 && is_ws(s.last()) {
        trim_end(s.drop_last())
    } else {
        s
    }
}

/// `s` without leading and trailing whitespace (`str::trim`).
pub open spec fn trim(s: Seq<char>) -> Seq<char> {
    trim_end(trim_start(s))
}

pub proof fn lemma_trim_start_skip(s: Seq<char>, k: int)
    requires
        0 <= k <= s.len(),
        forall|i: int| 0 <= i < k ==> is_ws(s[i]),
        k == s.len() || !is_ws(s[k]),
    ensures
        trim_start(s) == s.skip(k),
    decreases k,
{
    if k == 0 {
        assert(s.skip(0) =~= s);
    } else {
        lemma_trim_start_skip(s.drop_first(), k - 1);
        assert(s.drop_first().skip(k - 1) =~= s.skip(k));
    }
}

pub proof fn lemma_trim_end_take(s: Seq<char>, j: int)
    requires
        0 <= j <= s.len(),
        forall|i: int| j <= i < s.len() ==> is_ws(s[i]),
        j == 0 || !is_ws(s[j - 1]),
    ensures
        trim_end(s) == s.take(j),
    decreases s.len() - j,
{
    if j == s.len() {
        assert(s.take(j) =~= s);
    } else {
        lemma_trim_end_take(s.drop_last(), j);
        assert(s.drop_last().take(j) =~= s.take(j));
    }
}

/// Trimming twice is the same as trimming once.
pub proof fn lemma_trim_idempotent(s: Seq<char>)
    ensures
        trim(trim(s)) == trim(s),
{
    let t = trim(s);
    lemma_trim_shape(s);
    if t.len() > 0 {
        lemma_trim_start_skip(t, 0);
        lemma_trim_end_take(t, t.len() as int);
        assert(t.skip(0) =~= t);
        assert(t.take(t.len() as int) =~= t);
    }
}

/// The trimmed text is empty or starts and ends with non-whitespace, and is
/// a contiguous piece of `s`.
pub proof fn lemma_trim_shape(s: Seq<char>)
    ensures
        trim(s).len() > 0 ==> !is_ws(trim(s)[0]) && !is_ws(trim(s).last()),
        trim(s).len() == 0 ==> trim_start(trim(s)) == trim(s),
    decreases s.len(),
{
    lemma_trim_start_shape(s);
    lemma_trim_end_shape(trim_start(s));
    let a = trim_start(s);
    let t = trim_end(a);
    if t.len() > 0 {
        lemma_trim_end_prefix(a);
        assert(t[0] == a[0]);
    } else {
        assert(t =~= Seq::<char>::empty());
    }
}

proof fn lemma_trim_start_shape(s: Seq<char>)
    ensures
        trim_start(s).len() > 0 ==> !is_ws(trim_start(s)[0]),
    decreases s.len(),
{
    if s.len() > 0 && is_ws(s[0]) {
        lemma_trim_start_shape(s.drop_first());
    }
}

proof fn lemma_trim_end_shape(s: Seq<char>)
    ensures
        trim_end(s).len() > 0 ==> !is_ws(trim_end(s).last()),
    decreases s.len(),
{
    if s.len() > 0 && is_ws(s.last()) {
        lemma_trim_end_shape(s.drop_last());
    }
}

proof fn lemma_trim_end_prefix(s: Seq<char>)
    ensures
        trim_end(s).len() <= s.len(),
        trim_end(s) == s.take(trim_end(s).len() as int),
    decreases s.len(),
{
    if s.len() > 0 && is_ws(s.last()) {
        lemma_trim_end_prefix(s.drop_last());
        assert(s.drop_last().take(trim_end(s).len() as int) =~= s.take(trim_end(s).len() as int));
    } else {
        assert(s.take(s.len() as int) =~= s);
    }
}

/// Executable `str::trim` on characters.
pub fn trim_chars(s: &Vec<char>) -> (out: Vec<char>)
    ensures
        out@ == trim(s@),
{
    let n = s.len();
    let mut i: usize = 0;
    while i < n && is_whitespace(s[i])
        invariant
            i <= n,
            n == s.len(),
            forall|k: int| 0 <= k < i ==> is_ws(s@[k]),
        decreases n - i,
    {
        i = i + 1;
    }
    proof {
        lemma_trim_start_skip(s@, i as int);
    }
    let mut j: usize = n;
    while j > i && is_whitespace(s[j - 1])
        invariant
            i <= j <= n,
            n == s.len(),
            forall|k: int| j <= k < n ==> is_ws(s@[k]),
        decreases j,
    {
        j = j - 1;
    }
    let ghost t = s@.skip(i as int);
    proof {
        assert forall|k: int| (j - i) <= k < t.len() implies is_ws(t[k]) by {
            assert(t[k] == s@[k + i]);
        }
        if j > i {
            assert(t[j - i - 1] == s@[j - 1]);
        }
        lemma_trim_end_take(t, j - i);
        assert(t.take(j - i) =~= s@.subrange(i as int, j as int));
    }
    slice_chars(s, i, j)
}

/// `str::trim` on a string slice, as an owned `String`.
pub fn trim_str(s: &str) -> (out: String)
    ensures
        out@ == trim(s@),
{
    let cs = chars_of(s);
    let t = trim_chars(&cs);
    string_of(&t)
}


// ---------------------------------------------------------------------------
// Splitting, lines and joining
// ---------------------------------------------------------------------------

/// The pieces of `s` between occurrences of `sep` (`str::split` on a
/// character): always at least one piece, possibly empty ones.
pub open spec fn split_on(s: Seq<char>, sep: char) -> Seq<Seq<char>>
    decreases s.len(),
{
    if s.len() == 0 {
        seq![Seq::empty()]
    } else {
        let rest = split_on(s.drop_first(), sep);
        if s[0] == sep {
            seq![Seq::empty()] + rest
        } else {
            rest.update(0, seq![s[0]] + rest[0])
        }
    }
}

/// `r` with `prefix` put in front of its first piece.
pub open spec fn prepend_first(prefix: Seq<char>, r: Seq<Seq<char>>) -> Seq<Seq<char>> {
    r.update(0, prefix + r[0])
}

pub proof fn lemma_split_on_nonempty(s: Seq<char>, sep: char)
    ensures
        split_on(s, sep).len() >= 1,
    decreases s.len(),
{
    if s.len() > 0 {
        lemma_split_on_nonempty(s.drop_first(), sep);
    }
}

/// A text without `sep` is a single piece.
pub proof fn lemma_split_on_absent(s: Seq<char>, sep: char)
    requires
        !s.contains(sep),
    ensures
        split_on(s, sep) == seq![s],
    decreases s.len(),
{
    if s.len() > 0 {
        assert(!s.drop_first().contains(sep)) by {
            if s.drop_first().contains(sep) {
                let k = choose|k: int| 0 <= k < s.drop_first().len() && s.drop_first()[k] == sep;
                assert(s[k + 1] == sep);
            }
        }
        lemma_split_on_absent(s.drop_first(), sep);
        assert(s[0] != sep);
        assert(seq![s[0]] + s.drop_first() =~= s);
        assert(split_on(s, sep) =~= seq![s]);
    } else {
        assert(s =~= Seq::<char>::empty());
    }
}

/// No piece of a split contains the separator.
pub proof fn lemma_split_on_pieces(s: Seq<char>, sep: char)
    ensures
        forall|i: int| 0 <= i < split_on(s, sep).len() ==> !(#[trigger] split_on(s, sep)[i]).contains(sep),
    decreases s.len(),
{
    lemma_split_on_nonempty(s, sep);
    if s.len() > 0 {
        lemma_split_on_pieces(s.drop_first(), sep);
        lemma_split_on_nonempty(s.drop_first(), sep);
        let rest = split_on(s.drop_first(), sep);
        if s[0] != sep {
            let p = seq![s[0]] + rest[0];
            assert(!p.contains(sep)) by {
                if p.contains(sep) {
                    let k = choose|k: int| 0 <= k < p.len() && p[k] == sep;
                    if k > 0 {
                        assert(rest[0][k - 1] == sep);
                        assert(rest[0].contains(sep));
                    }
                }
            }
            assert forall|i: int| 0 <= i < split_on(s, sep).len() implies !(#[trigger] split_on(s, sep)[i]).contains(sep) by {
                if i > 0 {
                    assert(split_on(s, sep)[i] == rest[i]);
                }
            }
        } else {
            assert forall|i: int| 0 <= i < split_on(s, sep).len() implies !(#[trigger] split_on(s, sep)[i]).contains(sep) by {
                if i > 0 {
                    assert(split_on(s, sep)[i] == rest[i - 1]);
                }
            }
        }
    }
}

proof fn lemma_split_step(s: Seq<char>, sep: char, i: int)
    requires
        0 <= i < s.len(),
    ensures
        s[i] == sep ==> split_on(s.skip(i), sep) == seq![Seq::<char>::empty()] + split_on(s.skip(i + 1), sep),
        s[i] != sep ==> split_on(s.skip(i), sep) == prepend_first(seq![s[i]], split_on(s.skip(i + 1), sep)),
{
    assert(s.skip(i).drop_first() =~= s.skip(i + 1));
    assert(s.skip(i)[0] == s[i]);
}

/// Executable `str::split` on a character.
pub fn split_chars(s: &Vec<char>, sep: char) -> (out: Vec<Vec<char>>)
    ensures
        out@.map_values(|p: Vec<char>| p@) == split_on(s@, sep),
{
    let mut out: Vec<Vec<char>> = Vec::new();
    let mut cur: Vec<char> = Vec::new();
    let mut i: usize = 0;
    proof {
        lemma_split_on_nonempty(s@, sep);
        assert(s@.skip(0) =~= s@);
        let r = split_on(s@, sep);
        assert(cur@ + r[0] =~= r[0]);
        assert(prepend_first(cur@, r) =~= r);
        assert(out@.map_values(|p: Vec<char>| p@) + r =~= r);
    }
    while i < s.len()
        invariant
            i <= s.len(),
            split_on(s@, sep) == out@.map_values(|p: Vec<char>| p@) + prepend_first(cur@, split_on(s@.skip(i as int), sep)),
        decreases s.len() - i,
    {
        proof {
            lemma_split_step(s@, sep, i as int);
            lemma_split_on_nonempty(s@.skip(i + 1), sep);
        }
        let ghost before = out@.map_values(|p: Vec<char>| p@);
        let ghost r = split_on(s@.skip(i + 1), sep);
        if s[i] == sep {
            let piece = cur;
            cur = Vec::new();
            out.push(piece);
            proof {
                assert(out@.map_values(|p: Vec<char>| p@) =~= before.push(piece@));
                assert(prepend_first(piece@, seq![Seq::<char>::empty()] + r) =~= seq![piece@] + r);
                assert(prepend_first(cur@, r) =~= r) by {
                    assert(cur@ + r[0] =~= r[0]);
                }
                assert(before + (seq![piece@] + r) =~= before.push(piece@) + r);
            }
        } else {
            let ghost old_cur = cur@;
            cur.push(s[i]);
            proof {
                assert(prepend_first(old_cur, prepend_first(seq![s@[i as int]], r)) =~= prepend_first(cur@, r)) by {
                    assert(old_cur + (seq![s@[i as int]] + r[0]) =~= cur@ + r[0]);
                }
            }
        }
        i = i + 1;
    }
    proof {
        assert(s@.skip(s.len() as int) =~= Seq::<char>::empty());
        assert(prepend_first(cur@, seq![Seq::<char>::empty()]) =~= seq![cur@]) by {
            assert(cur@ + Seq::<char>::empty() =~= cur@);
        }
    }
    let ghost before = out@.map_values(|p: Vec<char>| p@);
    out.push(cur);
    assert(out@.map_values(|p: Vec<char>| p@) =~= before + seq![cur@]);
    out
}

/// A line without the `\r` of a `\r\n` terminator.
pub open spec fn strip_cr(l: Seq<char>) -> Seq<char> {
    if l.len() > 0 && l.last() == '\r' {
        l.drop_last()
    } else {
        l
    }
}

/// The lines of `s` (`str::lines`): split at `\n`; a piece followed by `\n`
/// loses a trailing `\r`; an empty final piece is not a line.
pub open spec fn lines(s: Seq<char>) -> Seq<Seq<char>> {
    let parts = split_on(s, '\n');
    let terminated = parts.drop_last().map_values(|l: Seq<char>| strip_cr(l));
    if parts.last().len() == 0 {
        terminated
    } else {
        terminated.push(parts.last())
    }
}

/// Executable `str::lines`.
pub fn lines_of(s: &Vec<char>) -> (out: Vec<Vec<char>>)
    ensures
        out@.map_values(|p: Vec<char>| p@) == lines(s@),
{
    let parts = split_chars(s, '\n');
    proof {
        lemma_split_on_nonempty(s@, '\n');
    }
    let ghost pv = parts@.map_values(|p: Vec<char>| p@);
    let mut out: Vec<Vec<char>> = Vec::new();
    let n = parts.len();
    let mut i: usize = 0;
    while i + 1 < n
        invariant
            n == parts.len(),
            n >= 1,
            i <= n - 1,
            pv == parts@.map_values(|p: Vec<char>| p@),
            out@.map_values(|p: Vec<char>| p@) == pv.take(i as int).map_values(|l: Seq<char>| strip_cr(l)),
        decreases n - i,
    {
        let piece = &parts[i];
        let m = piece.len();
        let line = if m > 0 && piece[m - 1] == '\r' {
            slice_chars(piece, 0, m - 1)
        } else {
            slice_chars(piece, 0, m)
        };
        let ghost before = out@.map_values(|p: Vec<char>| p@);
        out.push(line);
        proof {
            assert(piece@.subrange(0, m as int) =~= piece@);
            assert(piece@.subrange(0, m - 1) =~= piece@.drop_last());
            assert(out@.map_values(|p: Vec<char>| p@) =~= before.push(strip_cr(pv[i as int])));
            assert(pv.take(i + 1).map_values(|l: Seq<char>| strip_cr(l)) =~= pv.take(i as int).map_values(|l: Seq<char>| strip_cr(l)).push(strip_cr(pv[i as int])));
        }
        i = i + 1;
    }
    assert(pv.take(i as int) =~= pv.drop_last());
    let last = &parts[n - 1];
    if last.len() > 0 {
        let ghost before = out@.map_values(|p: Vec<char>| p@);
        let copy = slice_chars(last, 0, last.len());
        out.push(copy);
        proof {
            assert(last@.subrange(0, last.len() as int) =~= last@);
            assert(out@.map_values(|p: Vec<char>| p@) =~= before.push(pv.last()));
        }
    }
    out
}

/// The pieces joined with `sep` between consecutive ones (`[T]::join`).
pub open spec fn join(parts: Seq<Seq<char>>, sep: Seq<char>) -> Seq<char>
    decreases parts.len(),
{
    if parts.len() == 0 {
        Seq::empty()
    } else if parts.len() == 1 {
        parts[0]
    } else {
        join(parts.drop_last(), sep) + sep + parts.last()
    }
}

/// Executable `join` over character vectors.
pub fn join_chars(parts: &Vec<Vec<char>>, sep: &Vec<char>) -> (out: Vec<char>)
    ensures
        out@ == join(parts@.map_values(|p: Vec<char>| p@), sep@),
{
    let ghost pv = parts@.map_values(|p: Vec<char>| p@);
    let mut out: Vec<char> = Vec::new();
    let mut i: usize = 0;
    while i < parts.len()
        invariant
            i <= parts.len(),
            pv == parts@.map_values(|p: Vec<char>| p@),
            out@ == join(pv.take(i as int), sep@),
        decreases parts.len() - i,
    {
        if i > 0 {
            extend_chars(&mut out, sep);
        }
        extend_chars(&mut out, &parts[i]);
        proof {
            let t = pv.take(i + 1);
            assert(t.drop_last() =~= pv.take(i as int));
            if i == 0 {
                assert(Seq::<char>::empty() + parts@[0]@ =~= t[0]);
            }
        }
        i = i + 1;
    }
    assert(pv.take(parts.len() as int) =~= pv);
    out
}

/// Executable `join` over strings.
pub fn join_strings(parts: &Vec<String>, sep: &str) -> (out: String)
    ensures
        out@ == join(parts@.map_values(|p: String| p@), sep@),
{
    let mut cs: Vec<Vec<char>> = Vec::new();
    let mut i: usize = 0;
    while i < parts.len()
        invariant
            i <= parts.len(),
            cs@.map_values(|p: Vec<char>| p@) == parts@.take(i as int).map_values(|p: String| p@),
        decreases parts.len() - i,
    {
        let c = chars_of(parts[i].as_str());
        let ghost before = cs@.map_values(|p: Vec<char>| p@);
        cs.push(c);
        proof {
            assert(cs@.map_values(|p: Vec<char>| p@) =~= before.push(parts@[i as int]@));
            assert(parts@.take(i + 1).map_values(|p: String| p@) =~= parts@.take(i as int).map_values(|p: String| p@).push(parts@[i as int]@));
        }
        i = i + 1;
    }
    assert(parts@.take(parts.len() as int) =~= parts@);
    let sepc = chars_of(sep);
    let joined = join_chars(&cs, &sepc);
    string_of(&joined)
}

// ---------------------------------------------------------------------------
// Prefixes and suffixes
// ---------------------------------------------------------------------------

/// Whether `s` starts with `p`.
pub open spec fn has_prefix(s: Seq<char>, p: Seq<char>) -> bool {
    p.len() <= s.len() && s.take(p.len() as int) == p
}

/// Whether `s` ends with `p`.
pub open spec fn has_suffix(s: Seq<char>, p: Seq<char>) -> bool {
    p.len() <= s.len() && s.skip(s.len() - p.len()) == p
}

/// Executable [`has_prefix`].
pub fn starts_with(s: &Vec<char>, p: &Vec<char>) -> (r: bool)
    ensures
        r == has_prefix(s@, p@),
{
    if p.len() > s.len() {
        return false;
    }
    let mut i: usize = 0;
    while i < p.len()
        invariant
            i <= p.len() <= s.len(),
            forall|k: int| 0 <= k < i ==> s@[k] == p@[k],
        decreases p.len() - i,
    {
        if s[i] != p[i] {
            assert(s@.take(p.len() as int)[i as int] != p@[i as int]);
            return false;
        }
        i = i + 1;
    }
    assert(s@.take(p.len() as int) =~= p@);
    true
}

/// Executable [`has_suffix`].
pub fn ends_with(s: &Vec<char>, p: &Vec<char>) -> (r: bool)
    ensures
        r == has_suffix(s@, p@),
{
    if p.len() > s.len() {
        return false;
    }
    let off = s.len() - p.len();
    let mut i: usize = 0;
    while i < p.len()
        invariant
            i <= p.len() <= s.len(),
            off == s.len() - p.len(),
            forall|k: int| 0 <= k < i ==> s@[off + k] == p@[k],
        decreases p.len() - i,
    {
        if s[off + i] != p[i] {
            assert(s@.skip(off as int)[i as int] != p@[i as int]);
            return false;
        }
        i = i + 1;
    }
    assert(s@.skip(off as int) =~= p@);
    true
}

/// Whether `c` occurs in `s`.
pub fn contains_char(s: &Vec<char>, c: char) -> (r: bool)
    ensures
        r == s@.contains(c),
{
    let mut i: usize = 0;
    while i < s.len()
        invariant
            i <= s.len(),
            forall|k: int| 0 <= k < i ==> s@[k] != c,
        decreases s.len() - i,
    {
        if s[i] == c {
            return true;
        }
        i = i + 1;
    }
    false
}

/// Every occurrence of `from` in `s` replaced by `to`.
pub open spec fn replace_char(s: Seq<char>, from: char, to: char) -> Seq<char> {
    s.map_values(|c: char| if c == from { to } else { c })
}

/// Executable [`replace_char`].
pub fn replace_chars(s: &Vec<char>, from: char, to: char) -> (out: Vec<char>)
    ensures
        out@ == replace_char(s@, from, to),
{
    let mut out: Vec<char> = Vec::new();
    let mut i: usize = 0;
    while i < s.len()
        invariant
            i <= s.len(),
            out@ == replace_char(s@.take(i as int), from, to),
        decreases s.len() - i,
    {
        let c = s[i];
        out.push(if c == from { to } else { c });
        i = i + 1;
        assert(out@ =~= replace_char(s@.take(i as int), from, to));
    }
    assert(s@.take(s.len() as int) =~= s@);
    out
}


// ---------------------------------------------------------------------------
// Numbers
// ---------------------------------------------------------------------------

/// An ASCII digit `0`..`9`.
pub open spec fn is_ascii_digit(c: char) -> bool {
    '0' <= c <= '9'
}

/// A character of the Unicode general category `Decimal_Number` (`Nd`),
/// the class that `\d` denotes in a Unicode-aware pattern.
pub open spec fn is_decimal_number(c: char) -> bool {
    ||| '\u{30}' <= c <= '\u{39}'
    ||| '\u{660}' <= c <= '\u{669}'
    ||| '\u{6f0}' <= c <= '\u{6f9}'
    ||| '\u{7c0}' <= c <= '\u{7c9}'
    ||| '\u{966}' <= c <= '\u{96f}'
    ||| '\u{9e6}' <= c <= '\u{9ef}'
    ||| '\u{a66}' <= c <= '\u{a6f}'
    ||| '\u{ae6}' <= c <= '\u{aef}'
    ||| '\u{b66}' <= c <= '\u{b6f}'
    ||| '\u{be6}' <= c <= '\u{bef}'
    ||| '\u{c66}' <= c <= '\u{c6f}'
    ||| '\u{ce6}' <= c <= '\u{cef}'
    ||| '\u{d66}' <= c <= '\u{d6f}'
    ||| '\u{de6}' <= c <= '\u{def}'
    ||| '\u{e50}' <= c <= '\u{e59}'
    ||| '\u{ed0}' <= c <= '\u{ed9}'
    ||| '\u{f20}' <= c <= '\u{f29}'
    ||| '\u{1040}' <= c <= '\u{1049}'
    ||| '\u{1090}' <= c <= '\u{1099}'
    ||| '\u{17e0}' <= c <= '\u{17e9}'
    ||| '\u{1810}' <= c <= '\u{1819}'
    ||| '\u{1946}' <= c <= '\u{194f}'
    ||| '\u{19d0}' <= c <= '\u{19d9}'
    ||| '\u{1a80}' <= c <= '\u{1a89}'
    ||| '\u{1a90}' <= c <= '\u{1a99}'
    ||| '\u{1b50}' <= c <= '\u{1b59}'
    ||| '\u{1bb0}' <= c <= '\u{1bb9}'
    ||| '\u{1c40}' <= c <= '\u{1c49}'
    ||| '\u{1c50}' <= c <= '\u{1c59}'
    ||| '\u{a620}' <= c <= '\u{a629}'
    ||| '\u{a8d0}' <= c <= '\u{a8d9}'
    ||| '\u{a900}' <= c <= '\u{a909}'
    ||| '\u{a9d0}' <= c <= '\u{a9d9}'
    ||| '\u{a9f0}' <= c <= '\u{a9f9}'
    ||| '\u{aa50}' <= c <= '\u{aa59}'
    ||| '\u{abf0}' <= c <= '\u{abf9}'
    ||| '\u{ff10}' <= c <= '\u{ff19}'
    ||| '\u{104a0}' <= c <= '\u{104a9}'
    ||| '\u{10d30}' <= c <= '\u{10d39}'
    ||| '\u{10d40}' <= c <= '\u{10d49}'
    ||| '\u{11066}' <= c <= '\u{1106f}'
    ||| '\u{110f0}' <= c <= '\u{110f9}'
    ||| '\u{11136}' <= c <= '\u{1113f}'
    ||| '\u{111d0}' <= c <= '\u{111d9}'
    ||| '\u{112f0}' <= c <= '\u{112f9}'
    ||| '\u{11450}' <= c <= '\u{11459}'
    ||| '\u{114d0}' <= c <= '\u{114d9}'
    ||| '\u{11650}' <= c <= '\u{11659}'
    ||| '\u{116c0}' <= c <= '\u{116c9}'
    ||| '\u{116d0}' <= c <= '\u{116e3}'
    ||| '\u{11730}' <= c <= '\u{11739}'
    ||| '\u{118e0}' <= c <= '\u{118e9}'
    ||| '\u{11950}' <= c <= '\u{11959}'
    ||| '\u{11bf0}' <= c <= '\u{11bf9}'
    ||| '\u{11c50}' <= c <= '\u{11c59}'
    ||| '\u{11d50}' <= c <= '\u{11d59}'
    ||| '\u{11da0}' <= c <= '\u{11da9}'
    ||| '\u{11f50}' <= c <= '\u{11f59}'
    ||| '\u{16130}' <= c <= '\u{16139}'
    ||| '\u{16a60}' <= c <= '\u{16a69}'
    ||| '\u{16ac0}' <= c <= '\u{16ac9}'
    ||| '\u{16b50}' <= c <= '\u{16b59}'
    ||| '\u{16d70}' <= c <= '\u{16d79}'
    ||| '\u{1ccf0}' <= c <= '\u{1ccf9}'
    ||| '\u{1d7ce}' <= c <= '\u{1d7ff}'
    ||| '\u{1e140}' <= c <= '\u{1e149}'
    ||| '\u{1e2f0}' <= c <= '\u{1e2f9}'
    ||| '\u{1e4f0}' <= c <= '\u{1e4f9}'
    ||| '\u{1e5f1}' <= c <= '\u{1e5fa}'
    ||| '\u{1e950}' <= c <= '\u{1e959}'
    ||| '\u{1fbf0}' <= c <= '\u{1fbf9}'
}

/// Executable [`is_decimal_number`].
pub fn decimal_number(c: char) -> (r: bool)
    ensures
        r == is_decimal_number(c),
{
    ('\u{30}' <= c && c <= '\u{39}') || ('\u{660}' <= c && c <= '\u{669}') || ('\u{6f0}' <= c && c <= '\u{6f9}') || ('\u{7c0}' <= c && c <= '\u{7c9}') || ('\u{966}' <= c && c <= '\u{96f}') || ('\u{9e6}' <= c && c <= '\u{9ef}') || ('\u{a66}' <= c && c <= '\u{a6f}') || ('\u{ae6}' <= c && c <= '\u{aef}') || ('\u{b66}' <= c && c <= '\u{b6f}') || ('\u{be6}' <= c && c <= '\u{bef}') || ('\u{c66}' <= c && c <= '\u{c6f}') || ('\u{ce6}' <= c && c <= '\u{cef}') || ('\u{d66}' <= c && c <= '\u{d6f}') || ('\u{de6}' <= c && c <= '\u{def}') || ('\u{e50}' <= c && c <= '\u{e59}') || ('\u{ed0}' <= c && c <= '\u{ed9}') || ('\u{f20}' <= c && c <= '\u{f29}') || ('\u{1040}' <= c && c <= '\u{1049}') || ('\u{1090}' <= c && c <= '\u{1099}') || ('\u{17e0}' <= c && c <= '\u{17e9}') || ('\u{1810}' <= c && c <= '\u{1819}') || ('\u{1946}' <= c && c <= '\u{194f}') || ('\u{19d0}' <= c && c <= '\u{19d9}') || ('\u{1a80}' <= c && c <= '\u{1a89}') || ('\u{1a90}' <= c && c <= '\u{1a99}') || ('\u{1b50}' <= c && c <= '\u{1b59}') || ('\u{1bb0}' <= c && c <= '\u{1bb9}') || ('\u{1c40}' <= c && c <= '\u{1c49}') || ('\u{1c50}' <= c && c <= '\u{1c59}') || ('\u{a620}' <= c && c <= '\u{a629}') || ('\u{a8d0}' <= c && c <= '\u{a8d9}') || ('\u{a900}' <= c && c <= '\u{a909}') || ('\u{a9d0}' <= c && c <= '\u{a9d9}') || ('\u{a9f0}' <= c && c <= '\u{a9f9}') || ('\u{aa50}' <= c && c <= '\u{aa59}') || ('\u{abf0}' <= c && c <= '\u{abf9}') || ('\u{ff10}' <= c && c <= '\u{ff19}') || ('\u{104a0}' <= c && c <= '\u{104a9}') || ('\u{10d30}' <= c && c <= '\u{10d39}') || ('\u{10d40}' <= c && c <= '\u{10d49}') || ('\u{11066}' <= c && c <= '\u{1106f}') || ('\u{110f0}' <= c && c <= '\u{110f9}') || ('\u{11136}' <= c && c <= '\u{1113f}') || ('\u{111d0}' <= c && c <= '\u{111d9}') || ('\u{112f0}' <= c && c <= '\u{112f9}') || ('\u{11450}' <= c && c <= '\u{11459}') || ('\u{114d0}' <= c && c <= '\u{114d9}') || ('\u{11650}' <= c && c <= '\u{11659}') || ('\u{116c0}' <= c && c <= '\u{116c9}') || ('\u{116d0}' <= c && c <= '\u{116e3}') || ('\u{11730}' <= c && c <= '\u{11739}') || ('\u{118e0}' <= c && c <= '\u{118e9}') || ('\u{11950}' <= c && c <= '\u{11959}') || ('\u{11bf0}' <= c && c <= '\u{11bf9}') || ('\u{11c50}' <= c && c <= '\u{11c59}') || ('\u{11d50}' <= c && c <= '\u{11d59}') || ('\u{11da0}' <= c && c <= '\u{11da9}') || ('\u{11f50}' <= c && c <= '\u{11f59}') || ('\u{16130}' <= c && c <= '\u{16139}') || ('\u{16a60}' <= c && c <= '\u{16a69}') || ('\u{16ac0}' <= c && c <= '\u{16ac9}') || ('\u{16b50}' <= c && c <= '\u{16b59}') || ('\u{16d70}' <= c && c <= '\u{16d79}') || ('\u{1ccf0}' <= c && c <= '\u{1ccf9}') || ('\u{1d7ce}' <= c && c <= '\u{1d7ff}') || ('\u{1e140}' <= c && c <= '\u{1e149}') || ('\u{1e2f0}' <= c && c <= '\u{1e2f9}') || ('\u{1e4f0}' <= c && c <= '\u{1e4f9}') || ('\u{1e5f1}' <= c && c <= '\u{1e5fa}') || ('\u{1e950}' <= c && c <= '\u{1e959}') || ('\u{1fbf0}' <= c && c <= '\u{1fbf9}')
}

/// Every character of `s` is an ASCII digit.
pub open spec fn all_ascii_digits(s: Seq<char>) -> bool {
    forall|i: int| 0 <= i < s.len() ==> is_ascii_digit(#[trigger] s[i])
}

/// The value of an ASCII digit.
pub open spec fn digit_value(c: char) -> nat {
    (c as int - '0' as int) as nat
}

/// The value of a string of ASCII digits, read in base ten.
pub open spec fn digits_value(s: Seq<char>) -> nat
    decreases s.len(),
{
    if s.len() == 0 {
        0
    } else {
        digits_value(s.drop_last()) * 10 + digit_value(s.last())
    }
}

/// What `u64::from_str` returns: an optional `+` followed by at least one
/// ASCII digit, with a value that fits in `u64`.
pub open spec fn parsed_u64(s: Seq<char>) -> Option<u64> {
    let d = if s.len() > 0 && s[0] == '+' { s.drop_first() } else { s };
    if d.len() > 0 && all_ascii_digits(d) && digits_value(d) <= u64::MAX {
        Some(digits_value(d) as u64)
    } else {
        None
    }
}

/// The ASCII digit for `d < 10`.
pub open spec fn digit_char(d: nat) -> char {
    (d + '0' as nat) as char
}

/// The base-ten rendering of `n`, without leading zeros (`u64` `Display`).
pub open spec fn decimal(n: nat) -> Seq<char>
    decreases n,
{
    if n < 10 {
        seq![digit_char(n)]
    } else {
        decimal(n / 10).push(digit_char(n % 10))
    }
}

/// Executable `u64::from_str`.
pub fn parse_u64(s: &Vec<char>) -> (r: Option<u64>)
    ensures
        r == parsed_u64(s@),
{
    let start: usize = if s.len() > 0 && s[0] == '+' { 1 } else { 0 };
    let ghost d = if s@.len() > 0 && s@[0] == '+' { s@.drop_first() } else { s@ };
    assert(d =~= s@.skip(start as int));
    if start >= s.len() {
        return None;
    }
    let mut value: u64 = 0;
    let mut i: usize = start;
    while i < s.len()
        invariant
            start <= i <= s.len(),
            d == s@.skip(start as int),
            d == (if s@.len() > 0 && s@[0] == '+' { s@.drop_first() } else { s@ }),
            all_ascii_digits(s@.subrange(start as int, i as int)),
            value as nat == digits_value(s@.subrange(start as int, i as int)),
        decreases s.len() - i,
    {
        let c = s[i];
        let ghost pre = s@.subrange(start as int, i as int);
        let ghost next = s@.subrange(start as int, i + 1);
        assert(next.drop_last() =~= pre);
        if !('0' <= c && c <= '9') {
            proof {
                assert(d[i - start] == c);
                assert(!is_ascii_digit(d[i - start]));
                assert(!all_ascii_digits(d));
            }
            return None;
        }
        let digit: u64 = (c as u64) - ('0' as u64);
        assert(digit as nat == digit_value(c));
        assert(next.last() == c);
        if value > (u64::MAX - digit) / 10 {
            proof {
                let m = u64::MAX - digit;
                assert(value * 10 + digit > u64::MAX) by (nonlinear_arith)
                    requires value > m / 10, m == u64::MAX - digit, digit <= 9;
                lemma_digits_value_prefix_monotone(d, i - start + 1);
                assert(d.take(i - start + 1) =~= next);
                assert(digits_value(next) == digits_value(pre) * 10 + digit_value(c));
                assert(digits_value(d) > u64::MAX);
            }
            return None;
        }
        assert(value * 10 + digit <= u64::MAX) by (nonlinear_arith)
            requires value <= (u64::MAX - digit) / 10, digit <= 9;
        value = value * 10 + digit;
        assert forall|k: int| 0 <= k < next.len() implies is_ascii_digit(#[trigger] next[k]) by {
            if k < pre.len() {
                assert(next[k] == pre[k]);
            }
        }
        i = i + 1;
    }
    assert(s@.subrange(start as int, s.len() as int) =~= d);
    Some(value)
}

/// A longer prefix of a digit string never has a smaller value, so a prefix
/// that overflows means the whole string overflows.
pub proof fn lemma_digits_value_prefix_monotone(d: Seq<char>, k: int)
    requires
        0 <= k <= d.len(),
    ensures
        digits_value(d.take(k)) <= digits_value(d),
    decreases d.len() - k,
{
    if k < d.len() {
        lemma_digits_value_prefix_monotone(d, k + 1);
        assert(d.take(k + 1).drop_last() =~= d.take(k));
    } else {
        assert(d.take(k) =~= d);
    }
}

/// Appends the base-ten rendering of `n` to `out`.
pub fn push_decimal(out: &mut Vec<char>, n: u64)
    ensures
        final(out)@ == old(out)@ + decimal(n as nat),
    decreases n,
{
    if n >= 10 {
        push_decimal(out, n / 10);
    }
    let d: u32 = (n % 10) as u32;
    let c: char = if d == 0 { '0' } else if d == 1 { '1' } else if d == 2 { '2' } else if d == 3 { '3' } else if d == 4 { '4' } else if d == 5 { '5' } else if d == 6 { '6' } else if d == 7 { '7' } else if d == 8 { '8' } else { '9' };
    let ghost before = out@;
    out.push(c);
    proof {
        assert(c == digit_char((n % 10) as nat));
        if n >= 10 {
            assert(before + decimal(n as nat) =~= before.push(c)
                || decimal(n as nat) == decimal((n / 10) as nat).push(c));
        }
    }
}

/// The rendering of a number consists of ASCII digits, has no leading zero
/// unless the number is zero, and reads back as the number.
pub proof fn lemma_decimal_roundtrip(n: nat)
    ensures
        decimal(n).len() > 0,
        all_ascii_digits(decimal(n)),
        digits_value(decimal(n)) == n,
        decimal(n)[0] == '0' ==> n == 0,
        n <= u64::MAX ==> parsed_u64(decimal(n)) == Some(n as u64),
    decreases n,
{
    let d = n % 10;
    assert(d < 10);
    assert(digit_value(digit_char(d)) == d);
    assert(is_ascii_digit(digit_char(d)));
    if n >= 10 {
        lemma_decimal_roundtrip(n / 10);
        let p = decimal(n / 10);
        assert(decimal(n).drop_last() =~= p);
        assert(decimal(n)[0] == p[0]);
        assert(decimal(n).last() == digit_char(d));
        assert(digits_value(decimal(n)) == digits_value(p) * 10 + digit_value(digit_char(d)));
        assert(n == (n / 10) * 10 + n % 10) by (nonlinear_arith);
        assert forall|k: int| 0 <= k < decimal(n).len() implies is_ascii_digit(#[trigger] decimal(n)[k]) by {
            if k < p.len() {
                assert(decimal(n)[k] == p[k]);
            }
        }
    } else {
        assert(decimal(n) =~= seq![digit_char(n)]);
        assert(decimal(n).drop_last() =~= Seq::<char>::empty());
        assert(digits_value(Seq::<char>::empty()) == 0);
        assert(digits_value(decimal(n)) == digits_value(Seq::<char>::empty()) * 10 + digit_value(digit_char(d)));
    }
    let dd = decimal(n);
    assert(dd[0] != '+');
    assert(!(dd.len() > 0 && dd[0] == '+'));
}


// ---------------------------------------------------------------------------
// Searching for a character
// ---------------------------------------------------------------------------

/// The index of the first occurrence of `c` in `s`.
pub open spec fn find_char(s: Seq<char>, c: char) -> Option<int>
    decreases s.len(),
{
    if s.len() == 0 {
        None
    } else if s[0] == c {
        Some(0)
    } else {
        match find_char(s.drop_first(), c) {
            Some(i) => Some(i + 1),
            None => None,
        }
    }
}

/// `s` split around the first occurrence of `c` (`str::split_once`).
pub open spec fn split_once(s: Seq<char>, c: char) -> Option<(Seq<char>, Seq<char>)> {
    match find_char(s, c) {
        Some(k) => Some((s.take(k), s.skip(k + 1))),
        None => None,
    }
}

/// What [`find_char`] returns, stated by position.
pub proof fn lemma_find_char(s: Seq<char>, c: char)
    ensures
        match find_char(s, c) {
            Some(k) => 0 <= k < s.len() && s[k] == c && forall|j: int| 0 <= j < k ==> s[j] != c,
            None => !s.contains(c),
        },
    decreases s.len(),
{
    if s.len() > 0 {
        lemma_find_char(s.drop_first(), c);
        if s[0] != c {
            match find_char(s.drop_first(), c) {
                Some(k) => {
                    assert forall|j: int| 0 <= j < k + 1 implies s[j] != c by {
                        if j > 0 {
                            assert(s[j] == s.drop_first()[j - 1]);
                        }
                    }
                },
                None => {
                    assert(!s.contains(c)) by {
                        if s.contains(c) {
                            let j = choose|j: int| 0 <= j < s.len() && s[j] == c;
                            assert(s.drop_first()[j - 1] == c);
                        }
                    }
                },
            }
        }
    }
}

/// The first occurrence of `c` is at `k` when `s[k] == c` and no earlier
/// character is `c`.
pub proof fn lemma_find_char_at(s: Seq<char>, c: char, k: int)
    requires
        0 <= k < s.len(),
        s[k] == c,
        forall|j: int| 0 <= j < k ==> s[j] != c,
    ensures
        find_char(s, c) == Some(k),
    decreases k,
{
    if k > 0 {
        lemma_find_char_at(s.drop_first(), c, k - 1);
    }
}

/// No occurrence of `c` at all.
pub proof fn lemma_find_char_none(s: Seq<char>, c: char)
    requires
        forall|j: int| 0 <= j < s.len() ==> s[j] != c,
    ensures
        find_char(s, c) is None,
{
    lemma_find_char(s, c);
    if let Some(k) = find_char(s, c) {
        assert(s[k] == c);
    }
}

/// Executable [`find_char`].
pub fn find_char_index(s: &Vec<char>, c: char) -> (r: Option<usize>)
    ensures
        match r {
            Some(k) => find_char(s@, c) == Some(k as int),
            None => find_char(s@, c) is None,
        },
{
    let mut i: usize = 0;
    while i < s.len()
        invariant
            i <= s.len(),
            forall|j: int| 0 <= j < i ==> s@[j] != c,
        decreases s.len() - i,
    {
        if s[i] == c {
            proof {
                lemma_find_char_at(s@, c, i as int);
            }
            return Some(i);
        }
        i = i + 1;
    }
    proof {
        lemma_find_char_none(s@, c);
    }
    None
}

/// The first piece of a split is the text before the first separator, and
/// the remaining pieces are the split of the text after it.
pub proof fn lemma_split_on_find(s: Seq<char>, c: char)
    ensures
        match find_char(s, c) {
            Some(k) => split_on(s, c) == seq![s.take(k)] + split_on(s.skip(k + 1), c),
            None => split_on(s, c) == seq![s],
        },
    decreases s.len(),
{
    lemma_find_char(s, c);
    match find_char(s, c) {
        None => {
            lemma_split_on_absent(s, c);
        },
        Some(k) => {
            if k == 0 {
                assert(s.drop_first() =~= s.skip(1));
                assert(s.take(0) =~= Seq::<char>::empty());
            } else {
                lemma_split_on_find(s.drop_first(), c);
                lemma_split_on_nonempty(s.drop_first(), c);
                assert(find_char(s.drop_first(), c) == Some(k - 1));
                assert(s.drop_first().skip(k) =~= s.skip(k + 1));
                assert(seq![s[0]] + s.drop_first().take(k - 1) =~= s.take(k));
                assert(split_on(s, c) =~= seq![s.take(k)] + split_on(s.skip(k + 1), c));
            }
        },
    }
}

/// Splitting `a`, a separator, then `b`, where `a` holds no separator.
pub proof fn lemma_split_on_concat(a: Seq<char>, c: char, b: Seq<char>)
    requires
        !a.contains(c),
    ensures
        split_on(a + seq![c] + b, c) == seq![a] + split_on(b, c),
{
    let s = a + seq![c] + b;
    assert forall|j: int| 0 <= j < a.len() implies s[j] != c by {
        assert(s[j] == a[j]);
        if a[j] == c {
            assert(a.contains(c));
        }
    }
    lemma_find_char_at(s, c, a.len() as int);
    lemma_split_on_find(s, c);
    assert(s.take(a.len() as int) =~= a);
    assert(s.skip(a.len() as int + 1) =~= b);
}


// ---------------------------------------------------------------------------
// Filtering sequences
// ---------------------------------------------------------------------------

/// One more element of a prefix: kept when the predicate holds.
pub proof fn lemma_filter_step<A>(s: Seq<A>, p: spec_fn(A) -> bool, i: int)
    requires
        0 <= i < s.len(),
    ensures
        s.take(i + 1).filter(p) == if p(s[i]) {
            s.take(i).filter(p).push(s[i])
        } else {
            s.take(i).filter(p)
        },
{
    reveal(Seq::filter);
    assert(s.take(i + 1).drop_last() =~= s.take(i));
    assert(s.take(i + 1).last() == s[i]);
}

/// The empty prefix filters to nothing.
pub proof fn lemma_filter_empty<A>(s: Seq<A>, p: spec_fn(A) -> bool)
    ensures
        s.take(0).filter(p) == Seq::<A>::empty(),
{
    reveal(Seq::filter);
    assert(s.take(0) =~= Seq::<A>::empty());
}


// ---------------------------------------------------------------------------
// Comment lines and blank edges
// ---------------------------------------------------------------------------

/// A line with only whitespace.
pub open spec fn is_blank_line(l: Seq<char>) -> bool {
    trim(l).len() == 0
}

/// A line that is not a `#` comment (after leading whitespace).
pub open spec fn is_not_comment() -> spec_fn(Seq<char>) -> bool {
    |l: Seq<char>| !has_prefix(trim_start(l), seq!['#'])
}

/// The lines of `s` that are not `#` comments.
pub open spec fn uncommented_lines(s: Seq<char>) -> Seq<Seq<char>> {
    lines(s).filter(is_not_comment())
}

/// `ls` without its leading blank lines.
pub open spec fn drop_leading_blank(ls: Seq<Seq<char>>) -> Seq<Seq<char>>
    decreases ls.len(),
{
    if ls.len() > 0 && is_blank_line(ls[0]) {
        drop_leading_blank(ls.drop_first())
    } else {
        ls
    }
}

/// `ls` without its trailing blank lines.
pub open spec fn drop_trailing_blank(ls: Seq<Seq<char>>) -> Seq<Seq<char>>
    decreases ls.len(),
{
    if ls.len() > 0 && is_blank_line(ls.last()) {
        drop_trailing_blank(ls.drop_last())
    } else {
        ls
    }
}

pub proof fn lemma_drop_leading_blank_skip(ls: Seq<Seq<char>>, k: int)
    requires
        0 <= k <= ls.len(),
        forall|i: int| 0 <= i < k ==> is_blank_line(#[trigger] ls[i]),
        k == ls.len() || !is_blank_line(ls[k]),
    ensures
        drop_leading_blank(ls) == ls.skip(k),
    decreases k,
{
    if k == 0 {
        assert(ls.skip(0) =~= ls);
    } else {
        assert(is_blank_line(ls[0]));
        assert forall|i: int| 0 <= i < k - 1 implies is_blank_line(#[trigger] ls.drop_first()[i]) by {
            assert(ls.drop_first()[i] == ls[i + 1]);
        }
        lemma_drop_leading_blank_skip(ls.drop_first(), k - 1);
        assert(ls.drop_first().skip(k - 1) =~= ls.skip(k));
    }
}

pub proof fn lemma_drop_trailing_blank_take(ls: Seq<Seq<char>>, j: int)
    requires
        0 <= j <= ls.len(),
        forall|i: int| j <= i < ls.len() ==> is_blank_line(#[trigger] ls[i]),
        j == 0 || !is_blank_line(ls[j - 1]),
    ensures
        drop_trailing_blank(ls) == ls.take(j),
    decreases ls.len() - j,
{
    if j == ls.len() {
        assert(ls.take(j) =~= ls);
    } else {
        assert(is_blank_line(ls[ls.len() - 1]));
        assert forall|i: int| j <= i < ls.drop_last().len() implies is_blank_line(#[trigger] ls.drop_last()[i]) by {
            assert(ls.drop_last()[i] == ls[i]);
        }
        lemma_drop_trailing_blank_take(ls.drop_last(), j);
        assert(ls.drop_last().take(j) =~= ls.take(j));
    }
}

/// Whether a line is blank.
pub fn blank_line(l: &Vec<char>) -> (r: bool)
    ensures
        r == is_blank_line(l@),
{
    let t = trim_chars(l);
    t.len() == 0
}

/// Copies of the character vectors `v[from..to]`.
pub fn slice_lines(v: &Vec<Vec<char>>, from: usize, to: usize) -> (out: Vec<Vec<char>>)
    requires
        from <= to <= v.len(),
    ensures
        out@.map_values(|p: Vec<char>| p@) == v@.map_values(|p: Vec<char>| p@).subrange(from as int, to as int),
{
    let ghost vv = v@.map_values(|p: Vec<char>| p@);
    let mut out: Vec<Vec<char>> = Vec::new();
    let mut i: usize = from;
    while i < to
        invariant
            from <= i <= to,
            to <= v.len(),
            vv == v@.map_values(|p: Vec<char>| p@),
            out@.map_values(|p: Vec<char>| p@) == vv.subrange(from as int, i as int),
        decreases to - i,
    {
        let line = slice_chars(&v[i], 0, v[i].len());
        assert(v@[i as int]@.subrange(0, v@[i as int]@.len() as int) =~= v@[i as int]@);
        let ghost before = out@.map_values(|p: Vec<char>| p@);
        out.push(line);
        assert(vv[i as int] == v@[i as int]@);
        assert(out@.map_values(|p: Vec<char>| p@) =~= before.push(vv[i as int]));
        assert(vv.subrange(from as int, i + 1) =~= vv.subrange(from as int, i as int).push(vv[i as int]));
        i = i + 1;
    }
    out
}

/// The lines without their leading and trailing blank lines.
pub fn trim_blank_lines(ls: &Vec<Vec<char>>) -> (out: Vec<Vec<char>>)
    ensures
        out@.map_values(|p: Vec<char>| p@) == drop_trailing_blank(drop_leading_blank(ls@.map_values(|p: Vec<char>| p@))),
{
    let ghost lv = ls@.map_values(|p: Vec<char>| p@);
    let n = ls.len();
    let mut i: usize = 0;
    while i < n && blank_line(&ls[i])
        invariant
            i <= n,
            n == ls.len(),
            lv == ls@.map_values(|p: Vec<char>| p@),
            forall|k: int| 0 <= k < i ==> is_blank_line(#[trigger] lv[k]),
        decreases n - i,
    {
        i = i + 1;
    }
    proof {
        lemma_drop_leading_blank_skip(lv, i as int);
    }
    let mut j: usize = n;
    while j > i && blank_line(&ls[j - 1])
        invariant
            i <= j <= n,
            n == ls.len(),
            lv == ls@.map_values(|p: Vec<char>| p@),
            forall|k: int| j <= k < n ==> is_blank_line(#[trigger] lv[k]),
        decreases j,
    {
        j = j - 1;
    }
    let ghost t = lv.skip(i as int);
    proof {
        assert forall|k: int| (j - i) <= k < t.len() implies is_blank_line(#[trigger] t[k]) by {
            assert(t[k] == lv[k + i]);
        }
        if j > i {
            assert(t[j - i - 1] == lv[j - 1]);
        }
        lemma_drop_trailing_blank_take(t, j - i);
        assert(t.take(j - i) =~= lv.subrange(i as int, j as int));
    }
    slice_lines(ls, i, j)
}

/// The lines of `s` that are not `#` comments.
pub fn uncommented_lines_of(s: &Vec<char>) -> (out: Vec<Vec<char>>)
    ensures
        out@.map_values(|p: Vec<char>| p@) == uncommented_lines(s@),
{
    let ls = lines_of(s);
    let ghost lv = lines(s@);
    let hash: Vec<char> = vec!['#'];
    let mut out: Vec<Vec<char>> = Vec::new();
    let mut i: usize = 0;
    proof {
        lemma_filter_empty(lv, is_not_comment());
    }
    assert(ls@.len() == lv.len());
    while i < ls.len()
        invariant
            i <= ls.len(),
            ls@.len() == lv.len(),
            lv == lines(s@),
            hash@ == seq!['#'],
            ls@.map_values(|p: Vec<char>| p@) == lv,
            out@.map_values(|p: Vec<char>| p@) == lv.take(i as int).filter(is_not_comment()),
        decreases ls.len() - i,
    {
        let ts = trim_start_chars(&ls[i]);
        proof {
            lemma_filter_step(lv, is_not_comment(), i as int);
            assert(ls@[i as int]@ == lv[i as int]);
        }
        if !starts_with(&ts, &hash) {
            let line = slice_chars(&ls[i], 0, ls[i].len());
            assert(ls@[i as int]@.subrange(0, ls@[i as int]@.len() as int) =~= ls@[i as int]@);
            let ghost before = out@.map_values(|p: Vec<char>| p@);
            out.push(line);
            assert(out@.map_values(|p: Vec<char>| p@) =~= before.push(lv[i as int]));
        }
        i = i + 1;
    }
    assert(lv.take(ls.len() as int) =~= lv);
    out
}

/// Executable [`trim_start`].
pub fn trim_start_chars(s: &Vec<char>) -> (out: Vec<char>)
    ensures
        out@ == trim_start(s@),
{
    let n = s.len();
    let mut i: usize = 0;
    while i < n && is_whitespace(s[i])
        invariant
            i <= n,
            n == s.len(),
            forall|k: int| 0 <= k < i ==> is_ws(s@[k]),
        decreases n - i,
    {
        i = i + 1;
    }
    proof {
        lemma_trim_start_skip(s@, i as int);
        assert(s@.subrange(i as int, n as int) =~= s@.skip(i as int));
    }
    slice_chars(s, i, n)
}


// ---------------------------------------------------------------------------
// Rendering for messages
// ---------------------------------------------------------------------------

/// The `Debug` rendering of a string (quoted and escaped).
pub uninterp spec fn debug_text(s: Seq<char>) -> Seq<char>;

/// Renders a string with `{:?}` (`<str as Debug>::fmt`); the result is a
/// function of the string alone.
#[verifier::external_body]
pub(crate) fn debug_quoted(s: &str) -> (r: String)
    ensures
        r@ == debug_text(s@),
{
    format!("{:?}", s)
}

/// The number of bytes of a character in UTF-8 (`char::len_utf8`).
pub open spec fn utf8_width(c: char) -> nat {
    if (c as u32) < 0x80 {
        1
    } else if (c as u32) < 0x800 {
        2
    } else if (c as u32) < 0x10000 {
        3
    } else {
        4
    }
}

/// The number of bytes of a text in UTF-8.
pub open spec fn utf8_len(s: Seq<char>) -> nat
    decreases s.len(),
{
    if s.len() == 0 {
        0
    } else {
        utf8_len(s.drop_last()) + utf8_width(s.last())
    }
}


// ---------------------------------------------------------------------------
// Lexicographic order of texts
// ---------------------------------------------------------------------------

/// Three-way comparison of integers: -1, 0 or 1.
pub open spec fn sign_of_difference(a: int, b: int) -> int {
    if a < b {
        -1
    } else if a > b {
        1
    } else {
        0
    }
}

/// Lexicographic order of texts by code point (the order of `str`).
pub open spec fn text_order(a: Seq<char>, b: Seq<char>) -> int
    decreases a.len(),
{
    if a.len() == 0 && b.len() == 0 {
        0
    } else if a.len() == 0 {
        -1
    } else if b.len() == 0 {
        1
    } else if a[0] != b[0] {
        sign_of_difference(a[0] as int, b[0] as int)
    } else {
        text_order(a.drop_first(), b.drop_first())
    }
}

pub proof fn lemma_text_order_step(a: Seq<char>, b: Seq<char>, i: int)
    requires
        0 <= i < a.len(),
        i < b.len(),
        a[i] == b[i],
    ensures
        text_order(a.skip(i), b.skip(i)) == text_order(a.skip(i + 1), b.skip(i + 1)),
{
    assert(a.skip(i).drop_first() =~= a.skip(i + 1));
    assert(b.skip(i).drop_first() =~= b.skip(i + 1));
}

pub fn text_compare(a: &Vec<char>, b: &Vec<char>) -> (r: i8)
    ensures
        r as int == text_order(a@, b@),
{
    let mut i: usize = 0;
    assert(a@.skip(0) =~= a@);
    assert(b@.skip(0) =~= b@);
    while i < a.len() && i < b.len() && a[i] == b[i]
        invariant
            i <= a.len(),
            i <= b.len(),
            text_order(a@, b@) == text_order(a@.skip(i as int), b@.skip(i as int)),
        decreases a.len() - i,
    {
        proof {
            lemma_text_order_step(a@, b@, i as int);
        }
        i = i + 1;
    }
    let ghost sa = a@.skip(i as int);
    let ghost sb = b@.skip(i as int);
    if i == a.len() && i == b.len() {
        0
    } else if i == a.len() {
        -1
    } else if i == b.len() {
        1
    } else {
        assert(sa[0] == a@[i as int]);
        assert(sb[0] == b@[i as int]);
        if a[i] < b[i] {
            -1
        } else {
            1
        }
    }
}

pub proof fn lemma_text_order_props(a: Seq<char>, b: Seq<char>)
    ensures
        text_order(a, b) == -text_order(b, a),
        text_order(a, b) == 0 <==> a == b,
        -1 <= text_order(a, b) <= 1,
    decreases a.len(),
{
    if a.len() > 0 && b.len() > 0 && a[0] == b[0] {
        lemma_text_order_props(a.drop_first(), b.drop_first());
        if a.drop_first() == b.drop_first() {
            assert(a =~= seq![a[0]] + a.drop_first());
            assert(b =~= seq![b[0]] + b.drop_first());
        }
    } else if a.len() == 0 && b.len() == 0 {
        assert(a =~= b);
    } else if a.len() > 0 && b.len() > 0 {
        assert(a[0] != b[0]);
        assert(a != b);
    } else {
        assert(a.len() != b.len());
    }
}

pub proof fn lemma_text_order_transitive(a: Seq<char>, b: Seq<char>, c: Seq<char>)
    requires
        text_order(a, b) <= 0,
        text_order(b, c) <= 0,
    ensures
        text_order(a, c) <= 0,
        (text_order(a, b) < 0 || text_order(b, c) < 0) ==> text_order(a, c) < 0,
    decreases a.len(),
{
    lemma_text_order_props(a, b);
    lemma_text_order_props(b, c);
    lemma_text_order_props(a, c);
    if a.len() > 0 && b.len() > 0 && c.len() > 0 && a[0] == b[0] && b[0] == c[0] {
        lemma_text_order_transitive(a.drop_first(), b.drop_first(), c.drop_first());
    }
}


} // verus!
