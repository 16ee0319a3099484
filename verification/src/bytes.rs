//! Byte constants and byte-string helpers shared by the parsers,
//! extractors and the report ordering.

use vstd::prelude::*;

verus! {

/// `0`
pub const DIGIT_0: u8 = 48;

/// `9`
pub const DIGIT_9: u8 = 57;

/// `.`
pub const DOT: u8 = 46;

/// `^`
pub const CARET: u8 = 94;

/// `~`
pub const TILDE: u8 = 126;

/// `@`
pub const AT: u8 = 64;

/// `/`
pub const SLASH: u8 = 47;

/// `"`
pub const QUOTE: u8 = 34;

/// `:`
pub const COLON: u8 = 58;

/// Line feed
pub const LF: u8 = 10;

/// Carriage return
pub const CR: u8 = 13;

/// Space
pub const SPACE: u8 = 32;

/// Horizontal tab
pub const TAB: u8 = 9;

/// Form feed
pub const FF: u8 = 12;

/// Vertical tab
pub const VT: u8 = 11;

/// An ASCII whitespace byte.
pub open spec fn is_ws(b: u8) -> bool {
    b == SPACE || b == TAB || b == CR || b == LF || b == FF || b == VT
}

/// Decides whether `b` is an ASCII whitespace byte.
pub fn is_ws_byte(b: u8) -> (r: bool)
    ensures
        r == is_ws(b),
{
    b == SPACE || b == TAB || b == CR || b == LF || b == FF || b == VT
}

/// The pattern `pat` occurs in `s` at position `p`.
pub open spec fn matches_at(s: Seq<u8>, p: int, pat: Seq<u8>) -> bool {
    &&& 0 <= p
    &&& p + pat.len() <= s.len()
    &&& forall|k: int| 0 <= k < pat.len() ==> s[p + k] == #[trigger] pat[k]
}

/// The pattern `pat` occurs somewhere in `s`.
pub open spec fn contains_seq(s: Seq<u8>, pat: Seq<u8>) -> bool {
    exists|p: int| matches_at(s, p, pat)
}

/// Decides whether `pat` occurs in `s` at position `p`.
pub fn matches_at_exec(s: &Vec<u8>, p: usize, pat: &Vec<u8>) -> (r: bool)
    ensures
        r == matches_at(s@, p as int, pat@),
{
    if p > s.len() || pat.len() > s.len() - p {
        return false;
    }
    let mut k: usize = 0;
    while k < pat.len()
        invariant
            0 <= k <= pat.len(),
            p + pat.len() <= s.len(),
            forall|j: int| 0 <= j < k ==> s@[p + j] == #[trigger] pat@[j],
        decreases pat.len() - k,
    {
        if s[p + k] != pat[k] {
            return false;
        }
        k = k + 1;
    }
    true
}

/// Decides whether `pat` occurs somewhere in `s`.
pub fn contains_sub(s: &Vec<u8>, pat: &Vec<u8>) -> (r: bool)
    ensures
        r == contains_seq(s@, pat@),
{
    if pat.len() > s.len() {
        return false;
    }
    let mut p: usize = 0;
    while p <= s.len() - pat.len()
        invariant
            pat.len() <= s.len(),
            0 <= p <= s.len() - pat.len() + 1,
            forall|q: int| 0 <= q < p ==> !matches_at(s@, q, pat@),
        decreases s.len() - pat.len() + 1 - p,
    {
        if matches_at_exec(s, p, pat) {
            return true;
        }
        p = p + 1;
    }
    false
}

/// Decides whether two byte strings hold the same bytes.
pub fn bytes_eq(a: &Vec<u8>, b: &Vec<u8>) -> (r: bool)
    ensures
        r == (a@ == b@),
{
    if a.len() != b.len() {
        return false;
    }
    let mut k: usize = 0;
    while k < a.len()
        invariant
            0 <= k <= a.len(),
            a.len() == b.len(),
            forall|j: int| 0 <= j < k ==> a@[j] == b@[j],
        decreases a.len() - k,
    {
        if a[k] != b[k] {
            return false;
        }
        k = k + 1;
    }
    proof {
        assert(a@ =~= b@);
    }
    true
}

/// First position of `b` in `s` at or after `p`; `s.len()` when absent.
pub open spec fn find_byte_from(s: Seq<u8>, b: u8, p: int) -> int
    decreases s.len() - p when 0 <= p <= s.len()
{
    if p < 0 || p >= s.len() {
        s.len() as int
    } else if s[p] == b {
        p
    } else {
        find_byte_from(s, b, p + 1)
    }
}

/// `find_byte_from` lands on the first occurrence at or after `p`.
pub proof fn lemma_find_byte_from(s: Seq<u8>, b: u8, p: int)
    requires
        0 <= p <= s.len(),
    ensures
        p <= find_byte_from(s, b, p) <= s.len(),
        forall|k: int| p <= k < find_byte_from(s, b, p) ==> s[k] != b,
        find_byte_from(s, b, p) < s.len() ==> s[find_byte_from(s, b, p)] == b,
    decreases s.len() - p,
{
    if p < s.len() && s[p] != b {
        lemma_find_byte_from(s, b, p + 1);
    }
}

/// Finds the first occurrence of `b` in `s` at or after `p`.
pub fn find_byte(s: &Vec<u8>, b: u8, p: usize) -> (r: usize)
    requires
        p <= s.len(),
    ensures
        r == find_byte_from(s@, b, p as int),
        p <= r <= s.len(),
        r < s.len() ==> s@[r as int] == b,
{
    let mut i: usize = p;
    while i < s.len() && s[i] != b
        invariant
            p <= i <= s.len(),
            find_byte_from(s@, b, p as int) == find_byte_from(s@, b, i as int),
        decreases s.len() - i,
    {
        i = i + 1;
    }
    i
}

/// First position at or after `p` whose byte is not ASCII whitespace;
/// `s.len()` when the rest of `s` is whitespace.
pub open spec fn ws_run_end(s: Seq<u8>, p: int) -> int
    decreases s.len() - p when 0 <= p <= s.len()
{
    if p < 0 || p >= s.len() {
        s.len() as int
    } else if !is_ws(s[p]) {
        p
    } else {
        ws_run_end(s, p + 1)
    }
}

/// `ws_run_end` skips exactly the whitespace run that starts at `p`.
pub proof fn lemma_ws_run_end(s: Seq<u8>, p: int)
    requires
        0 <= p <= s.len(),
    ensures
        p <= ws_run_end(s, p) <= s.len(),
        forall|k: int| p <= k < ws_run_end(s, p) ==> is_ws(#[trigger] s[k]),
        ws_run_end(s, p) < s.len() ==> !is_ws(s[ws_run_end(s, p)]),
    decreases s.len() - p,
{
    if p < s.len() && is_ws(s[p]) {
        lemma_ws_run_end(s, p + 1);
    }
}

/// Skips the ASCII whitespace run that starts at `p`.
pub fn skip_ws(s: &Vec<u8>, p: usize) -> (r: usize)
    requires
        p <= s.len(),
    ensures
        r == ws_run_end(s@, p as int),
        p <= r <= s.len(),
{
    let mut i: usize = p;
    while i < s.len() && is_ws_byte(s[i])
        invariant
            p <= i <= s.len(),
            ws_run_end(s@, p as int) == ws_run_end(s@, i as int),
        decreases s.len() - i,
    {
        i = i + 1;
    }
    i
}

/// Finding a byte in a suffix of `s` is finding it in `s` past the cut.
pub proof fn lemma_find_byte_shift(s: Seq<u8>, b: u8, start: int)
    requires
        0 <= start <= s.len(),
    ensures
        find_byte_from(s.skip(start), b, 0) + start == find_byte_from(s, b, start),
{
    let t = s.skip(start);
    lemma_find_byte_from(t, b, 0);
    lemma_find_byte_from(s, b, start);
    let r1 = find_byte_from(t, b, 0);
    let r2 = find_byte_from(s, b, start);
    if r1 + start < r2 {
        assert(t[r1] == b);
        assert(t[r1] == s[start + r1]);
        assert(false);
    }
    if r1 + start > r2 {
        assert(r2 < s.len());
        assert(s[r2] == b);
        assert(t[r2 - start] == s[r2]);
        assert(false);
    }
}

/// The lines of `s`: the segments between line feeds, the last one
/// unterminated. An empty `s` is one empty line.
pub open spec fn lines_of(s: Seq<u8>) -> Seq<Seq<u8>>
    decreases s.len(),
{
    let e = find_byte_from(s, LF, 0);
    if 0 <= e < s.len() {
        seq![s.take(e)] + lines_of(s.skip(e + 1))
    } else {
        seq![s]
    }
}

/// The views of a vector of byte strings.
pub open spec fn views_of(s: Seq<Vec<u8>>) -> Seq<Seq<u8>> {
    s.map_values(|v: Vec<u8>| v@)
}

/// Splits `s` into its lines.
pub fn split_lines(s: &Vec<u8>) -> (r: Vec<Vec<u8>>)
    ensures
        views_of(r@) == lines_of(s@),
{
    let mut out: Vec<Vec<u8>> = Vec::new();
    let mut start: usize = 0;
    proof {
        assert(s@.skip(0) =~= s@);
        assert(views_of(out@) + lines_of(s@.skip(0)) =~= lines_of(s@));
    }
    loop
        invariant_except_break
            views_of(out@) + lines_of(s@.skip(start as int)) =~= lines_of(s@),
        invariant
            0 <= start <= s.len(),
        ensures
            views_of(out@) =~= lines_of(s@),
        decreases s.len() - start,
    {
        let ghost suffix = s@.skip(start as int);
        let e = find_byte(s, LF, start);
        proof {
            lemma_find_byte_shift(s@, LF, start as int);
            lemma_find_byte_from(s@, LF, start as int);
            assert(find_byte_from(suffix, LF, 0) == e - start);
        }
        let line = copy_range(s, start, e);
        proof {
            assert(line@ =~= suffix.take(e - start));
            assert(views_of(out@.push(line)) =~= views_of(out@).push(line@));
        }
        out.push(line);
        if e == s.len() {
            proof {
                assert(suffix.take(e - start) =~= suffix);
                assert(lines_of(suffix) =~= seq![suffix]);
                assert(views_of(out@) =~= lines_of(s@));
            }
            break ;
        }
        proof {
            assert(suffix.skip(e - start + 1) =~= s@.skip(e + 1 as int));
            assert(lines_of(suffix) =~= seq![suffix.take(e - start)] + lines_of(
                s@.skip(e + 1 as int),
            ));
        }
        start = e + 1;
    }
    proof {
        assert(views_of(out@) == lines_of(s@));
    }
    out
}

/// Copies `s[a..b]` into a fresh byte string.
pub fn copy_range(s: &Vec<u8>, a: usize, b: usize) -> (r: Vec<u8>)
    requires
        a <= b <= s.len(),
    ensures
        r@ == s@.subrange(a as int, b as int),
{
    let mut out: Vec<u8> = Vec::new();
    let mut i: usize = a;
    while i < b
        invariant
            a <= i <= b <= s.len(),
            out@ =~= s@.subrange(a as int, i as int),
        decreases b - i,
    {
        out.push(s[i]);
        proof {
            assert(out@ =~= s@.subrange(a as int, i + 1 as int));
        }
        i = i + 1;
    }
    proof {
        assert(out@ =~= s@.subrange(a as int, b as int));
    }
    out
}

/// Copies a whole byte string.
pub fn clone_bytes(v: &Vec<u8>) -> (r: Vec<u8>)
    ensures
        r@ == v@,
{
    let r = copy_range(v, 0, v.len());
    proof {
        assert(r@ =~= v@);
    }
    r
}

/// Appends `b` to `a`, yielding a fresh byte string.
pub fn concat_bytes(a: &Vec<u8>, b: &Vec<u8>) -> (r: Vec<u8>)
    ensures
        r@ == a@ + b@,
{
    let mut out = copy_range(a, 0, a.len());
    let mut i: usize = 0;
    proof {
        assert(out@ =~= a@);
    }
    while i < b.len()
        invariant
            0 <= i <= b.len(),
            out@ =~= a@ + b@.subrange(0, i as int),
        decreases b.len() - i,
    {
        out.push(b[i]);
        proof {
            assert(out@ =~= a@ + b@.subrange(0, i + 1 as int));
        }
        i = i + 1;
    }
    proof {
        assert(b@.subrange(0, b.len() as int) =~= b@);
    }
    out
}

/// Builds the byte string `pre`, then `mid`, then `post`.
pub fn surround(pre: u8, mid: &Vec<u8>, post: u8) -> (r: Vec<u8>)
    ensures
        r@ == seq![pre] + mid@ + seq![post],
{
    let mut out: Vec<u8> = Vec::new();
    out.push(pre);
    let mut i: usize = 0;
    proof {
        assert(out@ =~= seq![pre] + mid@.subrange(0, 0));
    }
    while i < mid.len()
        invariant
            0 <= i <= mid.len(),
            out@ =~= seq![pre] + mid@.subrange(0, i as int),
        decreases mid.len() - i,
    {
        out.push(mid[i]);
        proof {
            assert(out@ =~= seq![pre] + mid@.subrange(0, i + 1 as int));
        }
        i = i + 1;
    }
    out.push(post);
    proof {
        assert(mid@.subrange(0, mid.len() as int) =~= mid@);
        assert(out@ =~= seq![pre] + mid@ + seq![post]);
    }
    out
}

/// The set of byte strings (as sequences) held by a vector of byte vectors.
pub open spec fn view_set(s: Seq<Vec<u8>>) -> Set<Seq<u8>> {
    Set::new(|v: Seq<u8>| exists|i: int| 0 <= i < s.len() && s[i]@ == v)
}

pub proof fn lemma_view_set_push(s: Seq<Vec<u8>>, x: Vec<u8>)
    ensures
        view_set(s.push(x)) =~= view_set(s).insert(x@),
{
    assert forall|v: Seq<u8>| view_set(s.push(x)).contains(v) implies view_set(s).insert(
        x@,
    ).contains(v) by {
        let i = choose|i: int| 0 <= i < s.push(x).len() && s.push(x)[i]@ == v;
        if i < s.len() {
            assert(s[i]@ == v);
        } else {
            assert(v == x@);
        }
    }
    assert forall|v: Seq<u8>| view_set(s).insert(x@).contains(v) implies view_set(
        s.push(x),
    ).contains(v) by {
        if view_set(s).contains(v) {
            let i = choose|i: int| 0 <= i < s.len() && s[i]@ == v;
            assert(s.push(x)[i]@ == v);
        } else {
            assert(s.push(x)[s.len() as int]@ == v);
        }
    }
}

pub proof fn lemma_view_set_empty(s: Seq<Vec<u8>>)
    requires
        s.len() == 0,
    ensures
        view_set(s) =~= Set::<Seq<u8>>::empty(),
{
}

/// Lexicographic byte-string order: the order of the final report.
pub open spec fn lex_le(a: Seq<u8>, b: Seq<u8>) -> bool
    decreases a.len(),
{
    if a.len() == 0 {
        true
    } else if b.len() == 0 {
        false
    } else if a[0] < b[0] {
        true
    } else if a[0] > b[0] {
        false
    } else {
        lex_le(a.drop_first(), b.drop_first())
    }
}

pub proof fn lemma_lex_le_refl(a: Seq<u8>)
    ensures
        lex_le(a, a),
    decreases a.len(),
{
    if a.len() > 0 {
        lemma_lex_le_refl(a.drop_first());
    }
}

pub proof fn lemma_lex_le_total(a: Seq<u8>, b: Seq<u8>)
    ensures
        lex_le(a, b) || lex_le(b, a),
    decreases a.len(),
{
    if a.len() > 0 && b.len() > 0 && a[0] == b[0] {
        lemma_lex_le_total(a.drop_first(), b.drop_first());
    }
}

pub proof fn lemma_lex_le_antisym(a: Seq<u8>, b: Seq<u8>)
    requires
        lex_le(a, b),
        lex_le(b, a),
    ensures
        a == b,
    decreases a.len(),
{
    if a.len() > 0 && b.len() > 0 && a[0] == b[0] {
        lemma_lex_le_antisym(a.drop_first(), b.drop_first());
        assert forall|k: int| 0 <= k < a.len() implies a[k] == b[k] by {
            if k > 0 {
                assert(a[k] == a.drop_first()[k - 1]);
                assert(b[k] == b.drop_first()[k - 1]);
            }
        }
        assert(a =~= b);
    } else {
        assert(a.len() == 0 && b.len() == 0);
        assert(a =~= b);
    }
}

pub proof fn lemma_lex_le_trans(a: Seq<u8>, b: Seq<u8>, c: Seq<u8>)
    requires
        lex_le(a, b),
        lex_le(b, c),
    ensures
        lex_le(a, c),
    decreases a.len(),
{
    if a.len() > 0 && b.len() > 0 && c.len() > 0 && a[0] == b[0] && b[0] == c[0] {
        lemma_lex_le_trans(a.drop_first(), b.drop_first(), c.drop_first());
    }
}

/// Decides the lexicographic order on byte strings.
pub fn lex_le_exec(a: &Vec<u8>, b: &Vec<u8>) -> (r: bool)
    ensures
        r == lex_le(a@, b@),
{
    let mut i: usize = 0;
    proof {
        assert(a@.skip(0) =~= a@);
        assert(b@.skip(0) =~= b@);
    }
    while i < a.len() && i < b.len()
        invariant
            0 <= i <= a.len(),
            0 <= i <= b.len(),
            lex_le(a@, b@) == lex_le(a@.skip(i as int), b@.skip(i as int)),
        decreases a.len() - i,
    {
        let ghost sa = a@.skip(i as int);
        let ghost sb = b@.skip(i as int);
        proof {
            assert(sa[0] == a@[i as int]);
            assert(sb[0] == b@[i as int]);
        }
        if a[i] < b[i] {
            return true;
        }
        if a[i] > b[i] {
            return false;
        }
        proof {
            assert(sa.drop_first() =~= a@.skip(i + 1 as int));
            assert(sb.drop_first() =~= b@.skip(i + 1 as int));
        }
        i = i + 1;
    }
    proof {
        if a.len() <= b.len() {
            assert(a@.skip(i as int).len() == 0);
        } else {
            assert(a@.skip(i as int).len() > 0);
            assert(b@.skip(i as int).len() == 0);
        }
    }
    a.len() <= b.len()
}

} // verus!
