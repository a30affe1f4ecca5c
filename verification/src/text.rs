use vstd::prelude::*;

verus! {

/// Whether `c` is white space: the code points that Unicode classes as
/// `White_Space`.
pub open spec fn is_space(c: char) -> bool {
    let u = c as u32;
    ||| 0x09 <= u <= 0x0D
    ||| u == 0x20
    ||| u == 0x85
    ||| u == 0xA0
    ||| u == 0x1680
    ||| 0x2000 <= u <= 0x200A
    ||| u == 0x2028
    ||| u == 0x2029
    ||| u == 0x202F
    ||| u == 0x205F
    ||| u == 0x3000
}

/// Whether `c` is white space.
pub fn is_whitespace(c: char) -> (r: bool)
    ensures
        r == is_space(c),
{
    let u: u32 = c as u32;
    (0x09 <= u && u <= 0x0D) || u == 0x20 || u == 0x85 || u == 0xA0 || u == 0x1680 || (0x2000 <= u
        && u <= 0x200A) || u == 0x2028 || u == 0x2029 || u == 0x202F || u == 0x205F || u == 0x3000
}

/// The characters of `s`, in order.
pub fn to_chars(s: &str) -> (r: Vec<char>)
    ensures
        r@ == s@,
{
    let mut out: Vec<char> = Vec::new();
    for c in it: s.chars()
        invariant
            out@ == it.seq().take(it.index() as int),
            it.seq() == s@,
    {
        out.push(c);
    }
    out
}

/// The texts that a sequence of owned texts holds.
pub open spec fn texts(v: Seq<Vec<char>>) -> Seq<Seq<char>> {
    v.map_values(|t: Vec<char>| t@)
}

/// A copy of `s[lo..hi]`.
pub fn copy_range(s: &[char], lo: usize, hi: usize) -> (r: Vec<char>)
    requires
        lo <= hi <= s@.len(),
    ensures
        r@ == s@.subrange(lo as int, hi as int),
{
    vstd::slice::slice_to_vec(vstd::slice::slice_subrange(s, lo, hi))
}

/// Whether `sep` stands in `s` at position `i`.
pub open spec fn occurs_at(s: Seq<char>, sep: Seq<char>, i: int) -> bool {
    0 <= i && i + sep.len() <= s.len() && s.subrange(i, i + sep.len()) == sep
}

/// Position of the leftmost occurrence of `sep` in `s`, if there is one.
pub open spec fn find(s: Seq<char>, sep: Seq<char>) -> Option<int>
    decreases s.len(),
{
    if occurs_at(s, sep, 0) {
        Some(0)
    } else if s.len() == 0 {
        None
    } else {
        match find(s.skip(1), sep) {
            Some(k) => Some(k + 1),
            None => None,
        }
    }
}

/// `find` gives an occurrence with none before it, or `None` where there is
/// no occurrence at all.
pub proof fn lemma_find(s: Seq<char>, sep: Seq<char>)
    ensures
        match find(s, sep) {
            Some(k) => occurs_at(s, sep, k) && forall|j: int| 0 <= j < k ==> !occurs_at(s, sep, j),
            None => forall|j: int| !occurs_at(s, sep, j),
        },
    decreases s.len(),
{
    if occurs_at(s, sep, 0) {
    } else if s.len() == 0 {
        assert forall|j: int| !occurs_at(s, sep, j) by {
            if occurs_at(s, sep, j) {
                assert(j == 0);
            }
        }
    } else {
        let t = s.skip(1);
        lemma_find(t, sep);
        assert forall|j: int| occurs_at(t, sep, j) == occurs_at(s, sep, j + 1) by {
            if 0 <= j && j + sep.len() <= t.len() {
                assert(t.subrange(j, j + sep.len()) =~= s.subrange(j + 1, j + 1 + sep.len()));
            }
        }
        match find(t, sep) {
            Some(k) => {
                assert forall|j: int| 0 <= j < k + 1 implies !occurs_at(s, sep, j) by {
                    if j > 0 {
                        assert(occurs_at(t, sep, j - 1) == occurs_at(s, sep, j));
                    }
                }
            },
            None => {
                assert forall|j: int| !occurs_at(s, sep, j) by {
                    if j != 0 {
                        assert(occurs_at(t, sep, j - 1) == occurs_at(s, sep, j));
                    }
                }
            },
        }
    }
}

/// The pieces of `s` between the occurrences of `sep`, the occurrences taken
/// from left to right and never overlapping. There is always at least one
/// piece; a piece may be empty.
pub open spec fn split(s: Seq<char>, sep: Seq<char>) -> Seq<Seq<char>>
    recommends
        sep.len() > 0,
    decreases s.len(),
    when sep.len() > 0
    via split_decreases
{
    match find(s, sep) {
        Some(k) => seq![s.take(k)] + split(s.skip(k + sep.len()), sep),
        None => seq![s],
    }
}

#[via_fn]
proof fn split_decreases(s: Seq<char>, sep: Seq<char>) {
    lemma_find(s, sep);
}

/// A text always has a first piece.
pub proof fn lemma_split_nonempty(s: Seq<char>, sep: Seq<char>)
    requires
        sep.len() > 0,
    ensures
        split(s, sep).len() >= 1,
{
}

/// Whether `sep` stands in `s` at position `at`.
pub fn matches_at(s: &[char], sep: &[char], at: usize) -> (r: bool)
    ensures
        r == occurs_at(s@, sep@, at as int),
{
    let n = s.len();
    let m = sep.len();
    if at > n || n - at < m {
        return false;
    }
    let mut k: usize = 0;
    while k < m
        invariant
            k <= m,
            at + m <= n,
            n == s@.len(),
            m == sep@.len(),
            forall|j: int| 0 <= j < k ==> s@[at + j] == sep@[j],
        decreases m - k,
    {
        if s[at + k] != sep[k] {
            proof {
                let w = s@.subrange(at as int, at + m);
                assert(w[k as int] == s@[at + k]);
            }
            return false;
        }
        k += 1;
    }
    assert(s@.subrange(at as int, at + m) =~= sep@);
    true
}

/// Cuts `s` at every occurrence of `sep`.
pub fn split_on(s: &[char], sep: &[char]) -> (r: Vec<Vec<char>>)
    requires
        sep@.len() > 0,
    ensures
        texts(r@) == split(s@, sep@),
{
    let n = s.len();
    let m = sep.len();
    let mut out: Vec<Vec<char>> = Vec::new();
    let mut from: usize = 0;
    let mut at: usize = 0;
    assert(s@.skip(0) =~= s@);
    assert(texts(out@) =~= Seq::<Seq<char>>::empty());
    while at < n && n - at >= m
        invariant
            from <= at <= n,
            n == s@.len(),
            m == sep@.len(),
            m > 0,
            split(s@, sep@) == texts(out@) + split(s@.skip(from as int), sep@),
            forall|j: int| from <= j < at ==> !occurs_at(s@, sep@, j),
        decreases n - at,
    {
        if matches_at(s, sep, at) {
            let piece = copy_range(s, from, at);
            proof {
                lemma_find_at(s@, sep@, from as int, at as int);
                let t = s@.skip(from as int);
                assert(t.take(at - from) =~= s@.subrange(from as int, at as int));
                assert(t.skip(at - from + m) =~= s@.skip(at + m));
                assert(texts(out@.push(piece)) =~= texts(out@) + seq![piece@]);
            }
            out.push(piece);
            from = at + m;
            at = from;
        } else {
            at += 1;
        }
    }
    let piece = copy_range(s, from, n);
    proof {
        lemma_find_none(s@, sep@, from as int, at as int);
        assert(s@.skip(from as int) =~= s@.subrange(from as int, n as int));
        assert(texts(out@.push(piece)) =~= texts(out@) + seq![piece@]);
    }
    out.push(piece);
    out
}

/// Where `s` has its first occurrence of `sep` from `from` on at `at`, that
/// is the one `find` gives for the rest of `s` after `from`.
proof fn lemma_find_at(s: Seq<char>, sep: Seq<char>, from: int, at: int)
    requires
        0 <= from <= at,
        occurs_at(s, sep, at),
        forall|j: int| from <= j < at ==> !occurs_at(s, sep, j),
    ensures
        find(s.skip(from), sep) == Some(at - from),
{
    let t = s.skip(from);
    lemma_find(t, sep);
    lemma_occurs_skip(s, sep, from);
    assert(occurs_at(t, sep, at - from) == occurs_at(s, sep, at - from + from));
    match find(t, sep) {
        Some(k) => {
            assert(occurs_at(t, sep, k) == occurs_at(s, sep, k + from));
        },
        None => {},
    }
}

/// Where no occurrence of `sep` begins at or after `from`, `find` gives none
/// for the rest of `s` after `from`.
proof fn lemma_find_none(s: Seq<char>, sep: Seq<char>, from: int, at: int)
    requires
        0 <= from <= at <= s.len(),
        sep.len() > 0,
        at == s.len() || s.len() - at < sep.len(),
        forall|j: int| from <= j < at ==> !occurs_at(s, sep, j),
    ensures
        find(s.skip(from), sep) is None,
{
    let t = s.skip(from);
    lemma_find(t, sep);
    lemma_occurs_skip(s, sep, from);
    match find(t, sep) {
        Some(k) => {
            assert(occurs_at(t, sep, k) == occurs_at(s, sep, k + from));
        },
        None => {},
    }
}

/// Occurrences in the rest of `s` after `from` are those of `s`, shifted.
proof fn lemma_occurs_skip(s: Seq<char>, sep: Seq<char>, from: int)
    requires
        0 <= from <= s.len(),
    ensures
        forall|j: int| 0 <= j ==> occurs_at(s.skip(from), sep, j) == #[trigger] occurs_at(s, sep, j + from),
{
    let t = s.skip(from);
    assert forall|j: int| 0 <= j implies occurs_at(t, sep, j) == #[trigger] occurs_at(
        s,
        sep,
        j + from,
    ) by {
        if j + sep.len() <= t.len() {
            assert(t.subrange(j, j + sep.len()) =~= s.subrange(j + from, j + from + sep.len()));
        }
    }
}

/// `s` without the white space at its start.
pub open spec fn trim_start(s: Seq<char>) -> Seq<char>
    decreases s.len(),
{
    if s.len() > 0 && is_space(s[0]) {
        trim_start(s.skip(1))
    } else {
        s
    }
}

/// `s` without the white space at its end.
pub open spec fn trim_end(s: Seq<char>) -> Seq<char>
    decreases s.len(),
{
    if s.len() > 0 && is_space(s.last()) {
        trim_end(s.drop_last())
    } else {
        s
    }
}

/// `s` without the white space at its start and at its end.
pub open spec fn trim(s: Seq<char>) -> Seq<char> {
    trim_end(trim_start(s))
}

/// The bounds of `s` without the white space around it.
pub fn trim_span(s: &[char]) -> (r: (usize, usize))
    ensures
        r.0 <= r.1 <= s@.len(),
        s@.subrange(r.0 as int, r.1 as int) == trim(s@),
{
    let n = s.len();
    let mut lo: usize = 0;
    assert(s@.skip(0) =~= s@);
    while lo < n && is_whitespace(s[lo])
        invariant
            lo <= n,
            n == s@.len(),
            trim_start(s@) == trim_start(s@.skip(lo as int)),
        decreases n - lo,
    {
        assert(s@.skip(lo as int).skip(1) =~= s@.skip(lo + 1));
        lo += 1;
    }
    let mut hi: usize = n;
    assert(s@.skip(lo as int) =~= s@.subrange(lo as int, n as int));
    while hi > lo && is_whitespace(s[hi - 1])
        invariant
            lo <= hi <= n,
            n == s@.len(),
            trim(s@) == trim_end(s@.subrange(lo as int, hi as int)),
        decreases hi - lo,
    {
        assert(s@.subrange(lo as int, hi as int).drop_last() =~= s@.subrange(
            lo as int,
            hi - 1,
        ));
        hi -= 1;
    }
    (lo, hi)
}

/// Number of characters at the start of `s` that are not white space.
pub open spec fn word_len(s: Seq<char>) -> nat
    decreases s.len(),
{
    if s.len() > 0 && !is_space(s[0]) {
        1 + word_len(s.skip(1))
    } else {
        0
    }
}

/// A word is no longer than the text it starts.
pub proof fn lemma_word_len_bound(s: Seq<char>)
    ensures
        word_len(s) <= s.len(),
    decreases s.len(),
{
    if s.len() > 0 && !is_space(s[0]) {
        lemma_word_len_bound(s.skip(1));
    }
}

/// The words of `s`: its maximal runs of characters that are not white
/// space, in order.
pub open spec fn words(s: Seq<char>) -> Seq<Seq<char>>
    decreases s.len(),
    via words_decreases
{
    if s.len() == 0 {
        seq![]
    } else if is_space(s[0]) {
        words(s.skip(1))
    } else {
        seq![s.take(word_len(s) as int)] + words(s.skip(word_len(s) as int))
    }
}

#[via_fn]
proof fn words_decreases(s: Seq<char>) {
    lemma_word_len_bound(s);
}

/// A run of `k` characters that are not white space, with white space or the
/// end of the text after it, is a word of length `k`.
proof fn lemma_word_len_is(s: Seq<char>, k: int)
    requires
        0 <= k <= s.len(),
        forall|j: int| 0 <= j < k ==> !is_space(s[j]),
        k == s.len() || is_space(s[k]),
    ensures
        word_len(s) == k,
    decreases k,
{
    if k > 0 {
        let t = s.skip(1);
        assert forall|j: int| 0 <= j < k - 1 implies !is_space(t[j]) by {
            assert(t[j] == s[j + 1]);
        }
        lemma_word_len_is(t, k - 1);
    }
}

/// The words of `s`.
pub fn split_words(s: &[char]) -> (r: Vec<Vec<char>>)
    ensures
        texts(r@) == words(s@),
{
    let n = s.len();
    let mut out: Vec<Vec<char>> = Vec::new();
    let mut i: usize = 0;
    assert(s@.skip(0) =~= s@);
    assert(texts(out@) =~= Seq::<Seq<char>>::empty());
    while i < n
        invariant
            i <= n,
            n == s@.len(),
            words(s@) == texts(out@) + words(s@.skip(i as int)),
        decreases n - i,
    {
        if is_whitespace(s[i]) {
            assert(s@.skip(i as int).skip(1) =~= s@.skip(i + 1));
            i += 1;
        } else {
            let mut j: usize = i + 1;
            while j < n && !is_whitespace(s[j])
                invariant
                    i < j <= n,
                    n == s@.len(),
                    forall|k: int| i <= k < j ==> !is_space(s@[k]),
                decreases n - j,
            {
                j += 1;
            }
            let word = copy_range(s, i, j);
            proof {
                let t = s@.skip(i as int);
                lemma_word_len_is(t, j - i);
                assert(t.take(j - i) =~= s@.subrange(i as int, j as int));
                assert(t.skip(j - i) =~= s@.skip(j as int));
                assert(texts(out@.push(word)) =~= texts(out@) + seq![word@]);
            }
            out.push(word);
            i = j;
        }
    }
    out
}

} // verus!
