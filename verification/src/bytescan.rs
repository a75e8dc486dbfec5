//! Verified byte-string scanning: searching, trimming, line and token
//! splitting, as the printer-listing parsers read process output.

use vstd::prelude::*;

verus! {

/// ASCII whitespace, the characters the scans treat as separators.
pub open spec fn is_ws(b: u8) -> bool {
    b == 32 || b == 9 || b == 10 || b == 11 || b == 12 || b == 13
}

fn is_ws_byte(b: u8) -> (r: bool)
    ensures
        r == is_ws(b),
{
    b == 32 || b == 9 || b == 10 || b == 11 || b == 12 || b == 13
}

/// Index of the first occurrence of `c` in `s`, or `-1` when absent.
pub open spec fn first_index_of(s: Seq<u8>, c: u8) -> int
    decreases s.len(),
{
    if s.len() == 0 {
        -1
    } else if s[0] == c {
        0
    } else {
        let r = first_index_of(s.drop_first(), c);
        if r < 0 {
            -1
        } else {
            r + 1
        }
    }
}

proof fn lemma_first_index_of_scan(s: Seq<u8>, c: u8, m: int)
    requires
        0 <= m <= s.len(),
        forall|k: int| 0 <= k < m ==> s[k] != c,
        m < s.len() ==> s[m] == c,
    ensures
        first_index_of(s, c) == if m < s.len() {
            m
        } else {
            -1
        },
    decreases s.len(),
{
    if s.len() > 0 && m > 0 {
        lemma_first_index_of_scan(s.drop_first(), c, m - 1);
    }
}

/// Index of the first ASCII whitespace byte in `s`, or `-1` when absent.
pub open spec fn first_ws_of(s: Seq<u8>) -> int
    decreases s.len(),
{
    if s.len() == 0 {
        -1
    } else if is_ws(s[0]) {
        0
    } else {
        let r = first_ws_of(s.drop_first());
        if r < 0 {
            -1
        } else {
            r + 1
        }
    }
}

proof fn lemma_first_ws_of_scan(s: Seq<u8>, m: int)
    requires
        0 <= m <= s.len(),
        forall|k: int| 0 <= k < m ==> !is_ws(s[k]),
        m < s.len() ==> is_ws(s[m]),
    ensures
        first_ws_of(s) == if m < s.len() {
            m
        } else {
            -1
        },
    decreases s.len(),
{
    if s.len() > 0 && m > 0 {
        lemma_first_ws_of_scan(s.drop_first(), m - 1);
    }
}

/// Copy `s[a..b]` into a fresh vector.
pub fn copy_range(s: &[u8], a: usize, b: usize) -> (r: Vec<u8>)
    requires
        a <= b <= s@.len(),
    ensures
        r@ == s@.subrange(a as int, b as int),
{
    let mut r: Vec<u8> = Vec::new();
    assert(r@ =~= s@.subrange(a as int, a as int));
    let mut k: usize = a;
    while k < b
        invariant
            a <= k <= b <= s@.len(),
            r@ == s@.subrange(a as int, k as int),
        decreases b - k,
    {
        r.push(s[k]);
        assert(r@ =~= s@.subrange(a as int, k + 1));
        k = k + 1;
    }
    r
}

/// Byte-wise equality of two slices.
pub fn bytes_equal(a: &[u8], b: &[u8]) -> (r: bool)
    ensures
        r == (a@ == b@),
{
    if a.len() != b.len() {
        return false;
    }
    let mut i: usize = 0;
    while i < a.len()
        invariant
            a@.len() == b@.len(),
            i <= a@.len(),
            forall|j: int| 0 <= j < i ==> a@[j] == b@[j],
        decreases a@.len() - i,
    {
        if a[i] != b[i] {
            return false;
        }
        i = i + 1;
    }
    proof {
        assert(a@ =~= b@);
    }
    true
}

/// First index `j >= from` with `s[j] == c`, or `None`.
pub fn find_byte(s: &[u8], from: usize, c: u8) -> (r: Option<usize>)
    requires
        from <= s@.len(),
    ensures
        match r {
            Some(j) => from <= j < s@.len() && s@[j as int] == c && (forall|k: int|
                from <= k < j ==> s@[k] != c),
            None => forall|k: int| from <= k < s@.len() ==> s@[k] != c,
        },
{
    let mut j = from;
    while j < s.len()
        invariant
            from <= j <= s@.len(),
            forall|k: int| from <= k < j ==> s@[k] != c,
        decreases s@.len() - j,
    {
        if s[j] == c {
            return Some(j);
        }
        j = j + 1;
    }
    None
}

fn find_ws(s: &[u8], from: usize) -> (r: Option<usize>)
    requires
        from <= s@.len(),
    ensures
        match r {
            Some(j) => from <= j < s@.len() && is_ws(s@[j as int]) && (forall|k: int|
                from <= k < j ==> !is_ws(s@[k])),
            None => forall|k: int| from <= k < s@.len() ==> !is_ws(s@[k]),
        },
{
    let mut j = from;
    while j < s.len()
        invariant
            from <= j <= s@.len(),
            forall|k: int| from <= k < j ==> !is_ws(s@[k]),
        decreases s@.len() - j,
    {
        if is_ws_byte(s[j]) {
            return Some(j);
        }
        j = j + 1;
    }
    None
}

fn find_non_ws(s: &[u8], from: usize) -> (r: Option<usize>)
    requires
        from <= s@.len(),
    ensures
        match r {
            Some(j) => from <= j < s@.len() && !is_ws(s@[j as int]) && (forall|k: int|
                from <= k < j ==> is_ws(s@[k])),
            None => forall|k: int| from <= k < s@.len() ==> is_ws(s@[k]),
        },
{
    let mut j = from;
    while j < s.len()
        invariant
            from <= j <= s@.len(),
            forall|k: int| from <= k < j ==> is_ws(s@[k]),
        decreases s@.len() - j,
    {
        if !is_ws_byte(s[j]) {
            return Some(j);
        }
        j = j + 1;
    }
    None
}

/// `s` begins with `prefix`.
pub open spec fn starts_with_bytes(s: Seq<u8>, prefix: Seq<u8>) -> bool {
    prefix.len() <= s.len() && s.take(prefix.len() as int) == prefix
}

pub fn slice_starts_with(s: &[u8], prefix: &[u8]) -> (r: bool)
    ensures
        r == starts_with_bytes(s@, prefix@),
{
    if prefix.len() > s.len() {
        return false;
    }
    let mut k: usize = 0;
    while k < prefix.len()
        invariant
            prefix@.len() <= s@.len(),
            k <= prefix@.len(),
            forall|j: int| 0 <= j < k ==> s@[j] == prefix@[j],
        decreases prefix@.len() - k,
    {
        if s[k] != prefix[k] {
            proof {
                assert(s@.take(prefix@.len() as int)[k as int] == s@[k as int]);
            }
            return false;
        }
        k = k + 1;
    }
    proof {
        assert(s@.take(prefix@.len() as int) =~= prefix@);
    }
    true
}

/// `sub` occurs somewhere in `s`.
pub open spec fn contains_bytes(s: Seq<u8>, sub: Seq<u8>) -> bool {
    exists|i: int|
        0 <= i && i + sub.len() <= s.len() && #[trigger] s.subrange(i, i + sub.len()) == sub
}

fn matches_at(s: &[u8], i: usize, sub: &[u8]) -> (r: bool)
    requires
        i + sub@.len() <= s@.len(),
    ensures
        r == (s@.subrange(i as int, i + sub@.len()) == sub@),
{
    let _slen = s.len();
    let mut k: usize = 0;
    while k < sub.len()
        invariant
            s@.len() <= usize::MAX,
            i + sub@.len() <= s@.len(),
            k <= sub@.len(),
            forall|j: int| 0 <= j < k ==> s@[i + j] == sub@[j],
        decreases sub@.len() - k,
    {
        if s[i + k] != sub[k] {
            proof {
                assert(s@.subrange(i as int, i + sub@.len())[k as int] == s@[i + k]);
            }
            return false;
        }
        k = k + 1;
    }
    proof {
        assert(s@.subrange(i as int, i + sub@.len()) =~= sub@);
    }
    true
}

pub fn slice_contains(s: &[u8], sub: &[u8]) -> (r: bool)
    ensures
        r == contains_bytes(s@, sub@),
{
    if sub.len() > s.len() {
        return false;
    }
    if sub.len() == 0 {
        proof {
            assert(s@.subrange(0, 0 + sub@.len() as int) =~= sub@);
        }
        return true;
    }
    let last = s.len() - sub.len();
    let mut i: usize = 0;
    while i <= last
        invariant
            s@.len() <= usize::MAX,
            0 < sub@.len() <= s@.len(),
            last == s@.len() - sub@.len(),
            i <= last + 1,
            forall|j: int| 0 <= j < i ==> #[trigger] s@.subrange(j, j + sub@.len()) != sub@,
        decreases last + 1 - i,
    {
        if matches_at(s, i, sub) {
            return true;
        }
        i = i + 1;
    }
    false
}

/// The text between the first and the second occurrence of `c`, as
/// `split(c).nth(1)` reads it: empty when `c` does not occur, the rest of
/// the text when it occurs once.
pub open spec fn second_segment(s: Seq<u8>, c: u8) -> Seq<u8> {
    let i = first_index_of(s, c);
    if i < 0 {
        Seq::empty()
    } else {
        let rest = s.skip(i + 1);
        let j = first_index_of(rest, c);
        if j < 0 {
            rest
        } else {
            rest.take(j)
        }
    }
}

pub fn second_segment_of(s: &[u8], c: u8) -> (r: Vec<u8>)
    ensures
        r@ == second_segment(s@, c),
{
    let _slen = s.len();
    match find_byte(s, 0, c) {
        None => {
            proof {
                lemma_first_index_of_scan(s@, c, s@.len() as int);
            }
            Vec::new()
        },
        Some(i) => {
            proof {
                lemma_first_index_of_scan(s@, c, i as int);
            }
            let ghost rest = s@.skip(i + 1);
            match find_byte(s, i + 1, c) {
                None => {
                    proof {
                        assert forall|k: int| 0 <= k < rest.len() implies rest[k] != c by {
                            assert(rest[k] == s@[i + 1 + k]);
                        }
                        lemma_first_index_of_scan(rest, c, rest.len() as int);
                        assert(rest =~= s@.subrange(i + 1, s@.len() as int));
                    }
                    copy_range(s, i + 1, s.len())
                },
                Some(j) => {
                    proof {
                        assert forall|k: int| 0 <= k < j - i - 1 implies rest[k] != c by {
                            assert(rest[k] == s@[i + 1 + k]);
                        }
                        assert(rest[j - i - 1] == s@[j as int]);
                        lemma_first_index_of_scan(rest, c, j - i - 1);
                        assert(rest.take(j - i - 1) =~= s@.subrange(i + 1, j as int));
                    }
                    copy_range(s, i + 1, j)
                },
            }
        },
    }
}

/// `s` with leading and trailing ASCII whitespace removed.
pub open spec fn trim_bytes(s: Seq<u8>) -> Seq<u8>
    decreases s.len(),
{
    if s.len() == 0 {
        s
    } else if is_ws(s[0]) {
        trim_bytes(s.drop_first())
    } else if is_ws(s.last()) {
        trim_bytes(s.drop_last())
    } else {
        s
    }
}

proof fn lemma_trim_all_ws(s: Seq<u8>)
    requires
        forall|k: int| 0 <= k < s.len() ==> is_ws(s[k]),
    ensures
        trim_bytes(s) == Seq::<u8>::empty(),
    decreases s.len(),
{
    if s.len() == 0 {
        assert(s =~= Seq::<u8>::empty());
    } else {
        lemma_trim_all_ws(s.drop_first());
    }
}

proof fn lemma_trim_range(s: Seq<u8>, a: int, b: int)
    requires
        0 <= a < b <= s.len(),
        forall|k: int| 0 <= k < a ==> is_ws(s[k]),
        forall|k: int| b <= k < s.len() ==> is_ws(s[k]),
        !is_ws(s[a]),
        !is_ws(s[b - 1]),
    ensures
        trim_bytes(s) == s.subrange(a, b),
    decreases s.len(),
{
    if a > 0 {
        lemma_trim_range(s.drop_first(), a - 1, b - 1);
        assert(s.drop_first().subrange(a - 1, b - 1) =~= s.subrange(a, b));
    } else if b < s.len() {
        assert(is_ws(s.last()));
        lemma_trim_range(s.drop_last(), a, b);
        assert(s.drop_last().subrange(a, b) =~= s.subrange(a, b));
    } else {
        assert(s.subrange(0, s.len() as int) =~= s);
    }
}

/// Copy of `s` with leading and trailing ASCII whitespace removed.
pub fn trim_slice(s: &[u8]) -> (r: Vec<u8>)
    ensures
        r@ == trim_bytes(s@),
{
    let a = match find_non_ws(s, 0) {
        Some(a) => a,
        None => {
            proof {
                lemma_trim_all_ws(s@);
            }
            return Vec::new();
        },
    };
    let mut b: usize = s.len();
    while b > a && is_ws_byte(s[b - 1])
        invariant
            a < s@.len(),
            !is_ws(s@[a as int]),
            a <= b <= s@.len(),
            forall|k: int| b <= k < s@.len() ==> is_ws(s@[k]),
        decreases b,
    {
        b = b - 1;
    }
    proof {
        if b == a {
            assert(is_ws(s@[a as int]));
        }
        lemma_trim_range(s@, a as int, b as int);
    }
    copy_range(s, a, b)
}

/// One line with its trailing carriage return removed, as a line read up
/// to a newline keeps none.
pub open spec fn strip_cr(line: Seq<u8>) -> Seq<u8> {
    if line.len() > 0 && line.last() == 13 {
        line.drop_last()
    } else {
        line
    }
}

/// The lines of `s`: pieces between newlines, each stripped of one
/// carriage return before the newline; a final piece without a newline is
/// kept as it stands, and a trailing newline adds no empty line.
pub open spec fn lines_of(s: Seq<u8>) -> Seq<Seq<u8>>
    decreases s.len(),
{
    if s.len() == 0 {
        Seq::empty()
    } else {
        let i = first_index_of(s, 10);
        if i < 0 || i >= s.len() {
            seq![s]
        } else {
            seq![strip_cr(s.take(i))] + lines_of(s.skip(i + 1))
        }
    }
}

/// Split `s` into its lines.
pub fn split_lines(s: &[u8]) -> (r: Vec<Vec<u8>>)
    ensures
        r.deep_view() == lines_of(s@),
{
    let mut r: Vec<Vec<u8>> = Vec::new();
    assert(r.deep_view() =~~= Seq::<Seq<u8>>::empty());
    assert(s@.skip(0) =~= s@);
    let mut pos: usize = 0;
    while pos < s.len()
        invariant
            pos <= s@.len(),
            r.deep_view() + lines_of(s@.skip(pos as int)) == lines_of(s@),
        decreases s@.len() - pos,
    {
        let ghost old_dv = r.deep_view();
        let ghost t = s@.skip(pos as int);
        match find_byte(s, pos, 10) {
            Some(j) => {
                let mut end = j;
                if end > pos && s[end - 1] == 13 {
                    end = end - 1;
                }
                let line = copy_range(s, pos, end);
                r.push(line);
                proof {
                    assert forall|k: int| 0 <= k < j - pos implies t[k] != 10 by {
                        assert(t[k] == s@[pos + k]);
                    }
                    assert(t[j - pos] == s@[j as int]);
                    lemma_first_index_of_scan(t, 10, j - pos);
                    assert(t.take(j - pos) =~= s@.subrange(pos as int, j as int));
                    assert(strip_cr(t.take(j - pos)) =~= s@.subrange(pos as int, end as int));
                    assert(t.skip(j - pos + 1) =~= s@.skip(j + 1));
                    assert(lines_of(t) == seq![strip_cr(t.take(j - pos))] + lines_of(
                        s@.skip(j + 1),
                    ));
                    assert(r.deep_view() =~~= old_dv.push(line@));
                    assert(r.deep_view() + lines_of(s@.skip(j + 1)) =~~= lines_of(s@));
                }
                pos = j + 1;
            },
            None => {
                let line = copy_range(s, pos, s.len());
                r.push(line);
                proof {
                    assert forall|k: int| 0 <= k < t.len() implies t[k] != 10 by {
                        assert(t[k] == s@[pos + k]);
                    }
                    lemma_first_index_of_scan(t, 10, t.len() as int);
                    assert(t =~= s@.subrange(pos as int, s@.len() as int));
                    assert(lines_of(t) == seq![t]);
                    assert(r.deep_view() =~~= old_dv.push(line@));
                    assert(s@.skip(s@.len() as int) =~= Seq::<u8>::empty());
                    assert(r.deep_view() + lines_of(s@.skip(s@.len() as int)) =~~= lines_of(s@));
                }
                pos = s.len();
            },
        }
    }
    proof {
        assert(s@.skip(pos as int) =~= Seq::<u8>::empty());
        assert(r.deep_view() + lines_of(Seq::<u8>::empty()) =~~= r.deep_view());
    }
    r
}

/// The pieces of `s` between occurrences of `c`, as `split(c)` yields
/// them: a text without `c` is one piece, and a trailing `c` yields a
/// final empty piece.
pub open spec fn segments_of(s: Seq<u8>, c: u8) -> Seq<Seq<u8>>
    decreases s.len(),
{
    let i = first_index_of(s, c);
    if i < 0 || i >= s.len() {
        seq![s]
    } else {
        seq![s.take(i)] + segments_of(s.skip(i + 1), c)
    }
}

/// Split `s` at every occurrence of `c`.
pub fn split_segments(s: &[u8], c: u8) -> (r: Vec<Vec<u8>>)
    ensures
        r.deep_view() == segments_of(s@, c),
{
    let n = s.len();
    let mut r: Vec<Vec<u8>> = Vec::new();
    assert(r.deep_view() =~~= Seq::<Seq<u8>>::empty());
    assert(s@.skip(0) =~= s@);
    let mut pos: usize = 0;
    let mut done = false;
    while !done
        invariant
            pos <= s@.len(),
            n == s@.len(),
            !done ==> r.deep_view() + segments_of(s@.skip(pos as int), c) == segments_of(s@, c),
            done ==> r.deep_view() == segments_of(s@, c),
        decreases s@.len() - pos, (if done {
            0int
        } else {
            1int
        }),
    {
        let ghost old_dv = r.deep_view();
        let ghost t = s@.skip(pos as int);
        match find_byte(s, pos, c) {
            Some(j) => {
                let piece = copy_range(s, pos, j);
                r.push(piece);
                proof {
                    assert forall|k: int| 0 <= k < j - pos implies t[k] != c by {
                        assert(t[k] == s@[pos + k]);
                    }
                    assert(t[j - pos] == s@[j as int]);
                    lemma_first_index_of_scan(t, c, j - pos);
                    assert(t.take(j - pos) =~= s@.subrange(pos as int, j as int));
                    assert(t.skip(j - pos + 1) =~= s@.skip(j + 1));
                    assert(segments_of(t, c) == seq![t.take(j - pos)] + segments_of(
                        s@.skip(j + 1),
                        c,
                    ));
                    assert(r.deep_view() =~~= old_dv.push(piece@));
                    assert(r.deep_view() + segments_of(s@.skip(j + 1), c) =~~= segments_of(
                        s@,
                        c,
                    ));
                }
                pos = j + 1;
            },
            None => {
                let piece = copy_range(s, pos, s.len());
                r.push(piece);
                proof {
                    assert forall|k: int| 0 <= k < t.len() implies t[k] != c by {
                        assert(t[k] == s@[pos + k]);
                    }
                    lemma_first_index_of_scan(t, c, t.len() as int);
                    assert(t =~= s@.subrange(pos as int, s@.len() as int));
                    assert(segments_of(t, c) == seq![t]);
                    assert(r.deep_view() =~~= old_dv.push(piece@));
                    assert(r.deep_view() =~~= segments_of(s@, c));
                }
                done = true;
            },
        }
    }
    r
}

/// ASCII lowercasing of one byte.
pub open spec fn ascii_lower(b: u8) -> u8 {
    if 65 <= b <= 90 {
        (b + 32) as u8
    } else {
        b
    }
}

/// ASCII case-insensitive equality of two byte strings.
pub open spec fn eq_ignore_case_bytes(a: Seq<u8>, b: Seq<u8>) -> bool {
    a.len() == b.len() && forall|i: int|
        0 <= i < a.len() ==> ascii_lower(a[i]) == ascii_lower(b[i])
}

fn lower_byte(b: u8) -> (r: u8)
    ensures
        r == ascii_lower(b),
{
    if 65 <= b && b <= 90 {
        b + 32
    } else {
        b
    }
}

pub fn slice_eq_ignore_case(a: &[u8], b: &[u8]) -> (r: bool)
    ensures
        r == eq_ignore_case_bytes(a@, b@),
{
    if a.len() != b.len() {
        return false;
    }
    let mut i: usize = 0;
    while i < a.len()
        invariant
            a@.len() == b@.len(),
            i <= a@.len(),
            forall|j: int| 0 <= j < i ==> ascii_lower(a@[j]) == ascii_lower(b@[j]),
        decreases a@.len() - i,
    {
        if lower_byte(a[i]) != lower_byte(b[i]) {
            return false;
        }
        i = i + 1;
    }
    true
}

/// The ASCII-whitespace-separated tokens of `s`, in order.
pub open spec fn tokens_of(s: Seq<u8>) -> Seq<Seq<u8>>
    decreases s.len(),
{
    if s.len() == 0 {
        Seq::empty()
    } else if is_ws(s[0]) {
        tokens_of(s.drop_first())
    } else {
        let j = first_ws_of(s);
        if j <= 0 || j >= s.len() {
            seq![s]
        } else {
            seq![s.take(j)] + tokens_of(s.skip(j))
        }
    }
}

proof fn lemma_tokens_skip_ws(s: Seq<u8>, w: int, a: int)
    requires
        0 <= w <= a <= s.len(),
        forall|k: int| w <= k < a ==> is_ws(s[k]),
    ensures
        tokens_of(s.skip(w)) == tokens_of(s.skip(a)),
    decreases a - w,
{
    if w < a {
        let t = s.skip(w);
        assert(is_ws(t[0]));
        assert(t.drop_first() =~= s.skip(w + 1));
        lemma_tokens_skip_ws(s, w + 1, a);
    }
}

proof fn lemma_tokens_of_split(s: Seq<u8>, w: int, a: int, b: int)
    requires
        0 <= w <= a < b <= s.len(),
        forall|k: int| w <= k < a ==> is_ws(s[k]),
        forall|k: int| a <= k < b ==> !is_ws(s[k]),
        b < s.len() ==> is_ws(s[b]),
    ensures
        tokens_of(s.skip(w)) == seq![s.subrange(a, b)] + tokens_of(s.skip(b)),
{
    lemma_tokens_skip_ws(s, w, a);
    let t = s.skip(a);
    assert forall|k: int| 0 <= k < b - a implies !is_ws(t[k]) by {
        assert(t[k] == s[a + k]);
    }
    if b < s.len() {
        assert(t[b - a] == s[b]);
        lemma_first_ws_of_scan(t, b - a);
        assert(t.take(b - a) =~= s.subrange(a, b));
        assert(t.skip(b - a) =~= s.skip(b));
    } else {
        lemma_first_ws_of_scan(t, t.len() as int);
        assert(t =~= s.subrange(a, b));
        assert(s.skip(b) =~= Seq::<u8>::empty());
        assert(seq![s.subrange(a, b)] + tokens_of(s.skip(b)) =~= seq![s.subrange(a, b)]);
    }
}

proof fn lemma_tokens_all_ws(s: Seq<u8>, w: int)
    requires
        0 <= w <= s.len(),
        forall|k: int| w <= k < s.len() ==> is_ws(s[k]),
    ensures
        tokens_of(s.skip(w)) == Seq::<Seq<u8>>::empty(),
{
    lemma_tokens_skip_ws(s, w, s.len() as int);
    assert(s.skip(s.len() as int) =~= Seq::<u8>::empty());
}

/// The second whitespace-separated token of `s`, when `s` has two.
pub fn second_token(s: &[u8]) -> (r: Option<Vec<u8>>)
    ensures
        match r {
            Some(v) => tokens_of(s@).len() >= 2 && v@ == tokens_of(s@)[1],
            None => tokens_of(s@).len() < 2,
        },
{
    assert(s@.skip(0) =~= s@);
    let a0 = match find_non_ws(s, 0) {
        Some(a) => a,
        None => {
            proof {
                lemma_tokens_all_ws(s@, 0);
            }
            return None;
        },
    };
    let b0 = match find_ws(s, a0) {
        Some(b) => b,
        None => s.len(),
    };
    proof {
        lemma_tokens_of_split(s@, 0, a0 as int, b0 as int);
    }
    let a1 = match find_non_ws(s, b0) {
        Some(a) => a,
        None => {
            proof {
                lemma_tokens_all_ws(s@, b0 as int);
            }
            return None;
        },
    };
    let b1 = match find_ws(s, a1) {
        Some(b) => b,
        None => s.len(),
    };
    proof {
        lemma_tokens_of_split(s@, b0 as int, a1 as int, b1 as int);
        assert(tokens_of(s@)[1] == s@.subrange(a1 as int, b1 as int));
    }
    Some(copy_range(s, a1, b1))
}

} // verus!
