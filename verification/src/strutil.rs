//! Verified helpers on strings: object-id validation, prefix and suffix
//! tests, and path-string decomposition shared by the tree lister, the
//! correlator and the transport parser.

use vstd::prelude::*;

verus! {

/// A lower-case or upper-case hexadecimal digit.
pub open spec fn is_hex_digit(c: char) -> bool {
    ('0' <= c && c <= '9') || ('a' <= c && c <= 'f') || ('A' <= c && c <= 'F')
}

/// A well-formed object-id string: exactly forty hexadecimal digits.
pub open spec fn spec_is_oid(s: Seq<char>) -> bool {
    s.len() == 40 && forall|i: int| 0 <= i < s.len() ==> is_hex_digit(#[trigger] s[i])
}

/// Checks that a string is a well-formed forty-digit hexadecimal object id.
pub fn is_oid(s: &str) -> (r: bool)
    ensures
        r == spec_is_oid(s@),
{
    let n = s.unicode_len();
    if n != 40 {
        return false;
    }
    let mut i: usize = 0;
    while i < n
        invariant
            n == s@.len(),
            i <= n,
            forall|j: int| 0 <= j < i ==> is_hex_digit(#[trigger] s@[j]),
        decreases n - i,
    {
        let c = s.get_char(i);
        let ok = ('0' <= c && c <= '9') || ('a' <= c && c <= 'f') || ('A' <= c && c <= 'F');
        if !ok {
            return false;
        }
        i = i + 1;
    }
    true
}

/// A lower-case hexadecimal digit.
pub open spec fn is_lower_hex_digit(c: char) -> bool {
    ('0' <= c && c <= '9') || ('a' <= c && c <= 'f')
}

/// A canonical object-id string: exactly forty lower-case hexadecimal
/// digits, the form git2 prints object ids in.
pub open spec fn spec_is_loid(s: Seq<char>) -> bool {
    s.len() == 40 && forall|i: int| 0 <= i < s.len() ==> is_lower_hex_digit(#[trigger] s[i])
}

/// Lower-cases one hexadecimal digit; other characters are unchanged.
pub open spec fn lower_hex_char(c: char) -> char {
    if c == 'A' {
        'a'
    } else if c == 'B' {
        'b'
    } else if c == 'C' {
        'c'
    } else if c == 'D' {
        'd'
    } else if c == 'E' {
        'e'
    } else if c == 'F' {
        'f'
    } else {
        c
    }
}

/// The canonical lower-case form of a hexadecimal string.
pub open spec fn spec_lower_hex(s: Seq<char>) -> Seq<char> {
    Seq::new(s.len(), |i: int| lower_hex_char(s[i]))
}

/// Canonicalizes a well-formed object id to its lower-case form.
pub fn lower_hex(s: &str) -> (r: String)
    requires
        spec_is_oid(s@),
    ensures
        r@ == spec_lower_hex(s@),
        spec_is_loid(r@),
{
    proof {
        reveal_strlit("a");
        reveal_strlit("b");
        reveal_strlit("c");
        reveal_strlit("d");
        reveal_strlit("e");
        reveal_strlit("f");
    }
    let n = s.unicode_len();
    let mut out = String::new();
    let mut i: usize = 0;
    while i < n
        invariant
            n == s@.len(),
            spec_is_oid(s@),
            i <= n,
            out@ =~= spec_lower_hex(s@).subrange(0, i as int),
            "a"@ =~= seq!['a'],
            "b"@ =~= seq!['b'],
            "c"@ =~= seq!['c'],
            "d"@ =~= seq!['d'],
            "e"@ =~= seq!['e'],
            "f"@ =~= seq!['f'],
        decreases n - i,
    {
        let c = s.get_char(i);
        if c == 'A' {
            out.append("a");
        } else if c == 'B' {
            out.append("b");
        } else if c == 'C' {
            out.append("c");
        } else if c == 'D' {
            out.append("d");
        } else if c == 'E' {
            out.append("e");
        } else if c == 'F' {
            out.append("f");
        } else {
            out.append(s.substring_char(i, i + 1));
        }
        proof {
            assert(out@ =~= spec_lower_hex(s@).subrange(0, i as int + 1));
        }
        i = i + 1;
    }
    proof {
        assert(out@ =~= spec_lower_hex(s@));
    }
    out
}

/// Character-for-character equality of two string slices.
pub fn str_eq(a: &str, b: &str) -> (r: bool)
    ensures
        r == (a@ == b@),
{
    let n = a.unicode_len();
    if n != b.unicode_len() {
        return false;
    }
    let mut i: usize = 0;
    while i < n
        invariant
            n == a@.len(),
            n == b@.len(),
            i <= n,
            forall|j: int| 0 <= j < i ==> a@[j] == b@[j],
        decreases n - i,
    {
        if a.get_char(i) != b.get_char(i) {
            return false;
        }
        i = i + 1;
    }
    proof {
        assert(a@ =~= b@);
    }
    true
}

/// `p` is a prefix of `s`.
pub open spec fn spec_starts_with(s: Seq<char>, p: Seq<char>) -> bool {
    p.len() <= s.len() && s.subrange(0, p.len() as int) == p
}

/// Checks whether `s` starts with `p`.
pub fn starts_with(s: &str, p: &str) -> (r: bool)
    ensures
        r == spec_starts_with(s@, p@),
{
    let np = p.unicode_len();
    if np > s.unicode_len() {
        return false;
    }
    let mut i: usize = 0;
    while i < np
        invariant
            np == p@.len(),
            np <= s@.len(),
            i <= np,
            forall|j: int| 0 <= j < i ==> s@[j] == p@[j],
        decreases np - i,
    {
        if s.get_char(i) != p.get_char(i) {
            proof {
                assert(s@.subrange(0, p@.len() as int)[i as int] == s@[i as int]);
            }
            return false;
        }
        i = i + 1;
    }
    proof {
        assert(s@.subrange(0, p@.len() as int) =~= p@);
    }
    true
}

/// `p` is a suffix of `s`.
pub open spec fn spec_ends_with(s: Seq<char>, p: Seq<char>) -> bool {
    p.len() <= s.len() && s.subrange(s.len() - p.len(), s.len() as int) == p
}

/// Checks whether `s` ends with `p`.
pub fn ends_with(s: &str, p: &str) -> (r: bool)
    ensures
        r == spec_ends_with(s@, p@),
{
    let np = p.unicode_len();
    let ns = s.unicode_len();
    if np > ns {
        return false;
    }
    let off = ns - np;
    let mut i: usize = 0;
    while i < np
        invariant
            np == p@.len(),
            ns == s@.len(),
            np <= ns,
            off == ns - np,
            i <= np,
            forall|j: int| 0 <= j < i ==> s@[off + j] == p@[j],
        decreases np - i,
    {
        if s.get_char(off + i) != p.get_char(i) {
            proof {
                assert(s@.subrange(s@.len() - p@.len(), s@.len() as int)[i as int] == s@[off as int
                    + i as int]);
            }
            return false;
        }
        i = i + 1;
    }
    proof {
        assert(s@.subrange(s@.len() - p@.len(), s@.len() as int) =~= p@);
    }
    true
}

/// Index of the last `/` in `s`, or `-1` when none occurs.
pub open spec fn last_slash(s: Seq<char>) -> int
    decreases s.len(),
{
    if s.len() == 0 {
        -1
    } else if s[s.len() - 1] == '/' {
        s.len() - 1
    } else {
        last_slash(s.drop_last())
    }
}

proof fn lemma_last_slash_suffix(s: Seq<char>, k: int)
    requires
        0 <= k < s.len(),
        s[k] == '/',
        forall|j: int| k < j < s.len() ==> s[j] != '/',
    ensures
        last_slash(s) == k,
    decreases s.len(),
{
    if k == s.len() - 1 {
    } else {
        assert(s[s.len() - 1] != '/');
        lemma_last_slash_suffix(s.drop_last(), k);
    }
}

proof fn lemma_last_slash_none(s: Seq<char>)
    requires
        forall|j: int| 0 <= j < s.len() ==> s[j] != '/',
    ensures
        last_slash(s) == -1,
    decreases s.len(),
{
    if s.len() > 0 {
        lemma_last_slash_none(s.drop_last());
    }
}

/// The final path segment: everything after the last `/`, the whole string
/// when it has no `/`.
pub open spec fn spec_last_segment(s: Seq<char>) -> Seq<char> {
    s.subrange(last_slash(s) + 1, s.len() as int)
}

/// Returns the final segment of a slash-separated path.
pub fn last_segment(s: &str) -> (r: String)
    ensures
        r@ == spec_last_segment(s@),
{
    let n = s.unicode_len();
    let mut i: usize = n;
    while i > 0
        invariant
            n == s@.len(),
            i <= n,
            forall|j: int| i <= j < n ==> s@[j] != '/',
        decreases i,
    {
        if s.get_char(i - 1) == '/' {
            proof {
                lemma_last_slash_suffix(s@, i as int - 1);
            }
            return s.substring_char(i, n).to_owned();
        }
        i = i - 1;
    }
    proof {
        lemma_last_slash_none(s@);
        assert(s@.subrange(0, n as int) =~= s@);
    }
    s.substring_char(0, n).to_owned()
}

/// The first index of `c` in `s` at or after `from`, or `s.len()` when `c`
/// does not occur there.
pub open spec fn find_char(s: Seq<char>, c: char, from: int) -> int
    decreases s.len() - from,
{
    if from < 0 || from >= s.len() {
        s.len() as int
    } else if s[from] == c {
        from
    } else {
        find_char(s, c, from + 1)
    }
}

/// Bounds and characterization of `find_char`.
pub proof fn lemma_find_char(s: Seq<char>, c: char, from: int)
    requires
        0 <= from <= s.len(),
    ensures
        from <= find_char(s, c, from) <= s.len(),
        find_char(s, c, from) < s.len() ==> s[find_char(s, c, from)] == c,
        forall|j: int| from <= j < find_char(s, c, from) ==> s[j] != c,
    decreases s.len() - from,
{
    if from < s.len() && s[from] != c {
        lemma_find_char(s, c, from + 1);
    }
}

/// Scans for the first occurrence of `c` at or after `from`.
pub fn find_char_at(s: &str, c: char, from: usize) -> (r: usize)
    requires
        from <= s@.len(),
    ensures
        r == find_char(s@, c, from as int),
        from <= r <= s@.len(),
        r < s@.len() ==> s@[r as int] == c,
{
    let n = s.unicode_len();
    let mut i: usize = from;
    while i < n
        invariant
            n == s@.len(),
            from <= i <= n,
            find_char(s@, c, from as int) == find_char(s@, c, i as int),
        decreases n - i,
    {
        if s.get_char(i) == c {
            return i;
        }
        i = i + 1;
    }
    n
}

/// A NUL character occurs in the string (the C layer underneath the object
/// store cannot carry one).
pub open spec fn has_nul(s: Seq<char>) -> bool {
    exists|i: int| 0 <= i < s.len() && s[i] == '\0'
}

/// Checks whether a string contains a NUL character.
pub fn contains_nul(s: &str) -> (r: bool)
    ensures
        r == has_nul(s@),
{
    let n = s.unicode_len();
    let mut i: usize = 0;
    while i < n
        invariant
            n == s@.len(),
            i <= n,
            forall|j: int| 0 <= j < i ==> s@[j] != '\0',
        decreases n - i,
    {
        if s.get_char(i) == '\0' {
            return true;
        }
        i = i + 1;
    }
    false
}

/// Whitespace, as the Unicode White_Space set that the standard trim
/// removes.
pub open spec fn is_space_char(c: char) -> bool {
    ('\u{9}' <= c && c <= '\u{d}') || c == ' ' || c == '\u{85}' || c == '\u{a0}' || c
        == '\u{1680}' || ('\u{2000}' <= c && c <= '\u{200a}') || c == '\u{2028}' || c
        == '\u{2029}' || c == '\u{202f}' || c == '\u{205f}' || c == '\u{3000}'
}

/// Tests a character for whitespace.
pub fn is_space(c: char) -> (r: bool)
    ensures
        r == is_space_char(c),
{
    ('\u{9}' <= c && c <= '\u{d}') || c == ' ' || c == '\u{85}' || c == '\u{a0}' || c
        == '\u{1680}' || ('\u{2000}' <= c && c <= '\u{200a}') || c == '\u{2028}' || c
        == '\u{2029}' || c == '\u{202f}' || c == '\u{205f}' || c == '\u{3000}'
}

/// The sequence with leading whitespace removed.
pub open spec fn trim_start(s: Seq<char>) -> Seq<char>
    decreases s.len(),
{
    if s.len() > 0 && is_space_char(s.first()) {
        trim_start(s.drop_first())
    } else {
        s
    }
}

/// The sequence with trailing whitespace removed.
pub open spec fn trim_end(s: Seq<char>) -> Seq<char>
    decreases s.len(),
{
    if s.len() > 0 && is_space_char(s.last()) {
        trim_end(s.drop_last())
    } else {
        s
    }
}

/// The sequence with whitespace removed from both ends.
pub open spec fn spec_trim(s: Seq<char>) -> Seq<char> {
    trim_end(trim_start(s))
}

proof fn lemma_trim_start_at(s: Seq<char>, a: int)
    requires
        0 <= a <= s.len(),
        forall|j: int| 0 <= j < a ==> is_space_char(#[trigger] s[j]),
        a < s.len() ==> !is_space_char(s[a]),
    ensures
        trim_start(s) == s.subrange(a, s.len() as int),
    decreases a,
{
    if a == 0 {
        assert(s =~= s.subrange(0, s.len() as int));
    } else {
        let d = s.drop_first();
        assert(forall|j: int| 0 <= j < d.len() ==> #[trigger] d[j] == s[j + 1]);
        lemma_trim_start_at(d, a - 1);
        assert(d.subrange(a - 1, d.len() as int) =~= s.subrange(a, s.len() as int));
    }
}

proof fn lemma_trim_end_at(s: Seq<char>, b: int)
    requires
        0 <= b <= s.len(),
        forall|j: int| b <= j < s.len() ==> is_space_char(#[trigger] s[j]),
        b > 0 ==> !is_space_char(s[b - 1]),
    ensures
        trim_end(s) == s.subrange(0, b),
    decreases s.len() - b,
{
    if b == s.len() {
        assert(s =~= s.subrange(0, s.len() as int));
    } else {
        let d = s.drop_last();
        assert(forall|j: int| 0 <= j < d.len() ==> #[trigger] d[j] == s[j]);
        lemma_trim_end_at(d, b);
        assert(d.subrange(0, b) =~= s.subrange(0, b));
    }
}

/// Trimming is cutting at the first and last non-whitespace characters.
proof fn lemma_trim_at(s: Seq<char>, a: int, b: int)
    requires
        0 <= a <= b <= s.len(),
        forall|j: int| 0 <= j < a ==> is_space_char(#[trigger] s[j]),
        forall|j: int| b <= j < s.len() ==> is_space_char(#[trigger] s[j]),
        a < b ==> !is_space_char(s[a]) && !is_space_char(s[b - 1]),
        a == b ==> a == s.len(),
    ensures
        spec_trim(s) == s.subrange(a, b),
{
    lemma_trim_start_at(s, a);
    let t = s.subrange(a, s.len() as int);
    assert(forall|j: int| 0 <= j < t.len() ==> #[trigger] t[j] == s[a + j]);
    lemma_trim_end_at(t, b - a);
    assert(t.subrange(0, b - a) =~= s.subrange(a, b));
}

/// State of directory-path normalization: the normalized output so far and
/// the characters of the segment currently being read.
pub ghost struct NormState {
    pub out: Seq<char>,
    pub cur: Seq<char>,
}

/// Reads one character: a separator closes a segment, whose trimmed form is
/// kept unless it is empty; any other character extends the open segment.
pub open spec fn norm_step(st: NormState, c: char) -> NormState {
    if c == '/' {
        if spec_trim(st.cur).len() == 0 {
            NormState { out: st.out, cur: Seq::empty() }
        } else {
            NormState { out: st.out + spec_trim(st.cur).push('/'), cur: Seq::empty() }
        }
    } else {
        NormState { out: st.out, cur: st.cur.push(c) }
    }
}

/// The normalization state after reading all of `s`.
pub open spec fn norm_fold(s: Seq<char>) -> NormState
    decreases s.len(),
{
    if s.len() == 0 {
        NormState { out: Seq::empty(), cur: Seq::empty() }
    } else {
        norm_step(norm_fold(s.drop_last()), s.last())
    }
}

/// A directory path in normal form: each `/`-separated segment trimmed of
/// surrounding whitespace, empty segments dropped, the rest joined with `/`
/// and ending in one trailing `/` unless no segment remains.
pub open spec fn spec_normalize(s: Seq<char>) -> Seq<char> {
    let st = norm_fold(s);
    if spec_trim(st.cur).len() == 0 {
        st.out
    } else {
        st.out + spec_trim(st.cur).push('/')
    }
}

/// Appends one segment of `s`, trimmed, with a closing separator — or
/// nothing, when the segment trims to nothing.
fn push_trimmed_segment(out: &mut String, s: &str, from: usize, to: usize)
    requires
        from <= to <= s@.len(),
    ensures
        spec_trim(s@.subrange(from as int, to as int)).len() == 0 ==> final(out)@ == old(out)@,
        spec_trim(s@.subrange(from as int, to as int)).len() > 0 ==> final(out)@ == old(out)@
            + spec_trim(s@.subrange(from as int, to as int)).push('/'),
{
    let mut a = from;
    while a < to && is_space(s.get_char(a))
        invariant
            from <= a <= to,
            to <= s@.len(),
            forall|j: int| from <= j < a ==> is_space_char(#[trigger] s@[j]),
        decreases to - a,
    {
        a = a + 1;
    }
    let mut b = to;
    while b > a && is_space(s.get_char(b - 1))
        invariant
            a <= b <= to,
            to <= s@.len(),
            forall|j: int| b <= j < to ==> is_space_char(#[trigger] s@[j]),
        decreases b,
    {
        b = b - 1;
    }
    let ghost seg = s@.subrange(from as int, to as int);
    proof {
        assert(forall|j: int| 0 <= j < seg.len() ==> #[trigger] seg[j] == s@[from + j]);
        if a == to && b == to {
            // the whole segment is whitespace
            lemma_trim_at(seg, seg.len() as int, seg.len() as int);
        } else {
            lemma_trim_at(seg, a - from, b - from);
        }
    }
    if a < b {
        out.append(s.substring_char(a, b));
        out.append("/");
        proof {
            reveal_strlit("/");
            assert(s@.subrange(a as int, b as int) =~= seg.subrange(
                a - from,
                b - from,
            ));
            assert(final(out)@ =~= old(out)@ + spec_trim(seg).push('/'));
        }
    } else {
        proof {
            assert(seg.subrange(a - from, b - from).len() == 0);
        }
    }
}

/// Normalizes a directory path: trims the whitespace around each segment,
/// drops segments that are empty (or become empty), and leaves the result
/// ending in a separator unless nothing remains.
pub fn normalize_dir(s: &str) -> (r: String)
    ensures
        r@ == spec_normalize(s@),
{
    let n = s.unicode_len();
    let mut out = String::new();
    let mut seg_start: usize = 0;
    let mut i: usize = 0;
    while i < n
        invariant
            n == s@.len(),
            seg_start <= i <= n,
            norm_fold(s@.subrange(0, i as int)).out == out@,
            norm_fold(s@.subrange(0, i as int)).cur == s@.subrange(seg_start as int, i as int),
        decreases n - i,
    {
        proof {
            assert(s@.subrange(0, i as int + 1).drop_last() =~= s@.subrange(0, i as int));
            assert(s@.subrange(0, i as int + 1).last() == s@[i as int]);
        }
        let c = s.get_char(i);
        if c == '/' {
            push_trimmed_segment(&mut out, s, seg_start, i);
            seg_start = i + 1;
        }
        i = i + 1;
        proof {
            assert(norm_fold(s@.subrange(0, i as int)).cur =~= s@.subrange(
                seg_start as int,
                i as int,
            ));
        }
    }
    proof {
        assert(s@.subrange(0, n as int) =~= s@);
    }
    push_trimmed_segment(&mut out, s, seg_start, n);
    out
}

/// Whether a sequence of strings contains `x`, compared by content.
pub open spec fn seq_contains_str(v: Seq<String>, x: Seq<char>) -> bool {
    exists|i: int| 0 <= i < v.len() && #[trigger] v[i]@ == x
}

/// Checks whether a vector of strings contains `x`, compared by content.
pub fn vec_contains_str(v: &Vec<String>, x: &str) -> (r: bool)
    ensures
        r == seq_contains_str(v@, x@),
{
    let n = v.len();
    let mut i: usize = 0;
    while i < n
        invariant
            n == v@.len(),
            i <= n,
            forall|j: int| 0 <= j < i ==> #[trigger] v@[j]@ != x@,
        decreases n - i,
    {
        if str_eq(v[i].as_str(), x) {
            return true;
        }
        i = i + 1;
    }
    false
}

} // verus!
