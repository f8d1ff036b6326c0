//! Character and string helpers shared by the parsers and builders.
//!
//! Text is modelled as `Seq<char>`.  The spec functions here say what
//! `str::lines`, `str::trim`, `str::split_whitespace` and decimal printing
//! compute; the executable functions are proved against them.
use vstd::prelude::*;

verus! {

// ---------------------------------------------------------------------------
// Specifications
// ---------------------------------------------------------------------------

/// `char::is_whitespace`: the Unicode `White_Space` property.
pub open spec fn is_ws(c: char) -> bool {
    ||| c == '\t' || c == '\n' || c == '\u{0B}' || c == '\u{0C}' || c == '\r' || c == ' '
    ||| c == '\u{85}' || c == '\u{A0}' || c == '\u{1680}'
    ||| ('\u{2000}' <= c && c <= '\u{200A}')
    ||| c == '\u{2028}' || c == '\u{2029}' || c == '\u{202F}' || c == '\u{205F}' || c == '\u{3000}'
}

/// The text with its leading whitespace removed.
pub open spec fn trim_start(s: Seq<char>) -> Seq<char>
    decreases s.len(),
{
    if s.len() > 0 && is_ws(s[0]) {
        trim_start(s.drop_first())
    } else {
        s
    }
}

/// The text with its trailing whitespace removed.
pub open spec fn trim_end(s: Seq<char>) -> Seq<char>
    decreases s.len(),
{
    if s.len() > 0 && is_ws(s.last()) {
        trim_end(s.drop_last())
    } else {
        s
    }
}

/// `str::trim`: leading and trailing whitespace removed.
pub open spec fn trim(s: Seq<char>) -> Seq<char> {
    trim_end(trim_start(s))
}

/// Position of the first occurrence of `c` in `s`.
pub open spec fn index_of(s: Seq<char>, c: char) -> Option<int>
    decreases s.len(),
{
    if s.len() == 0 {
        None
    } else if s[0] == c {
        Some(0)
    } else {
        match index_of(s.drop_first(), c) {
            Some(k) => Some(k + 1),
            None => None,
        }
    }
}

/// A line as `str::lines` yields it: the text before a `'\n'`, with one
/// `'\r'` just before that `'\n'` removed.
pub open spec fn strip_cr(line: Seq<char>) -> Seq<char> {
    if line.len() > 0 && line.last() == '\r' {
        line.drop_last()
    } else {
        line
    }
}

/// `str::lines`: the lines of a text; a final line ending is optional.
pub open spec fn lines(s: Seq<char>) -> Seq<Seq<char>>
    decreases s.len(),
{
    if s.len() == 0 {
        seq![]
    } else {
        match index_of(s, '\n') {
            Some(i) => {
                proof {
                    lemma_index_of(s, '\n');
                }
                seq![strip_cr(s.take(i))] + lines(s.skip(i + 1))
            },
            None => seq![s],
        }
    }
}

/// Number of leading non-whitespace characters.
pub open spec fn word_len(s: Seq<char>) -> nat
    decreases s.len(),
{
    if s.len() == 0 || is_ws(s[0]) {
        0
    } else {
        1 + word_len(s.drop_first())
    }
}

/// `str::split_whitespace`: the maximal runs of non-whitespace characters.
pub open spec fn words(s: Seq<char>) -> Seq<Seq<char>>
    decreases s.len(),
{
    let t = trim_start(s);
    if t.len() == 0 {
        seq![]
    } else {
        proof {
            lemma_trim_start_suffix(s);
            lemma_word_len(t);
        }
        seq![t.take(word_len(t) as int)] + words(t.skip(word_len(t) as int))
    }
}

/// The ASCII digit for `d < 10`.
pub open spec fn digit_char(d: nat) -> char {
    ((d + 48) as u8) as char
}

/// Decimal representation of `n`, without leading zeros.
pub open spec fn decimal(n: nat) -> Seq<char>
    decreases n,
{
    if n < 10 {
        seq![digit_char(n)]
    } else {
        decimal(n / 10).push(digit_char(n % 10))
    }
}

/// `strs` joined with `sep` between consecutive elements.
pub open spec fn join(strs: Seq<Seq<char>>, sep: Seq<char>) -> Seq<char>
    decreases strs.len(),
{
    if strs.len() == 0 {
        seq![]
    } else if strs.len() == 1 {
        strs[0]
    } else {
        join(strs.drop_last(), sep) + sep + strs.last()
    }
}

/// The views of a vector of character vectors.
pub open spec fn views(v: Seq<Vec<char>>) -> Seq<Seq<char>> {
    v.map_values(|x: Vec<char>| x@)
}

// ---------------------------------------------------------------------------
// Lemmas
// ---------------------------------------------------------------------------

/// What `index_of` finds: the first position holding `c`.
pub proof fn lemma_index_of(s: Seq<char>, c: char)
    ensures
        match index_of(s, c) {
            Some(i) => 0 <= i < s.len() && s[i] == c && forall|k: int| 0 <= k < i ==> s[k] != c,
            None => forall|k: int| 0 <= k < s.len() ==> s[k] != c,
        },
    decreases s.len(),
{
    if s.len() > 0 && s[0] != c {
        lemma_index_of(s.drop_first(), c);
        assert forall|k: int| 1 <= k < s.len() implies s[k] == s.drop_first()[k - 1] by {}
    }
}

/// `index_of` is determined by the first position holding `c`.
pub proof fn lemma_index_of_at(s: Seq<char>, c: char, i: int)
    requires
        0 <= i <= s.len(),
        forall|k: int| 0 <= k < i ==> s[k] != c,
        i < s.len() ==> s[i] == c,
    ensures
        i < s.len() ==> index_of(s, c) == Some(i),
        i == s.len() ==> index_of(s, c) is None,
{
    lemma_index_of(s, c);
}

/// `trim_start` removes a prefix made of whitespace.
pub proof fn lemma_trim_start_suffix(s: Seq<char>)
    ensures
        trim_start(s).len() <= s.len(),
        trim_start(s) == s.skip(s.len() - trim_start(s).len()),
        forall|k: int| 0 <= k < s.len() - trim_start(s).len() ==> is_ws(#[trigger] s[k]),
        trim_start(s).len() > 0 ==> !is_ws(trim_start(s)[0]),
    decreases s.len(),
{
    if s.len() > 0 && is_ws(s[0]) {
        lemma_trim_start_suffix(s.drop_first());
        let t = trim_start(s.drop_first());
        assert(s.drop_first().skip(s.drop_first().len() - t.len()) =~= s.skip(s.len() - t.len()));
        assert forall|k: int| 1 <= k < s.len() - t.len() implies is_ws(#[trigger] s[k]) by {
            assert(s[k] == s.drop_first()[k - 1]);
        }
    } else {
        assert(s.skip(0) =~= s);
    }
}

/// `trim_end` removes a suffix made of whitespace.
pub proof fn lemma_trim_end_prefix(s: Seq<char>)
    ensures
        trim_end(s).len() <= s.len(),
        trim_end(s) == s.take(trim_end(s).len() as int),
        forall|k: int| trim_end(s).len() <= k < s.len() ==> is_ws(#[trigger] s[k]),
        trim_end(s).len() > 0 ==> !is_ws(trim_end(s).last()),
    decreases s.len(),
{
    if s.len() > 0 && is_ws(s.last()) {
        lemma_trim_end_prefix(s.drop_last());
        let t = trim_end(s.drop_last());
        assert(s.drop_last().take(t.len() as int) =~= s.take(t.len() as int));
        assert forall|k: int| t.len() <= k < s.len() implies is_ws(#[trigger] s[k]) by {
            if k < s.len() - 1 {
                assert(s[k] == s.drop_last()[k]);
            }
        }
    } else {
        assert(s.take(s.len() as int) =~= s);
    }
}

/// A run of whitespace at the front is skipped by `trim_start`.
pub proof fn lemma_trim_start_skip(s: Seq<char>, i: int)
    requires
        0 <= i <= s.len(),
        forall|k: int| 0 <= k < i ==> is_ws(#[trigger] s[k]),
    ensures
        trim_start(s) == trim_start(s.skip(i)),
    decreases i,
{
    if i > 0 {
        assert(s.drop_first().skip(i - 1) =~= s.skip(i));
        assert forall|k: int| 0 <= k < i - 1 implies is_ws(#[trigger] s.drop_first()[k]) by {
            assert(s.drop_first()[k] == s[k + 1]);
        }
        lemma_trim_start_skip(s.drop_first(), i - 1);
    } else {
        assert(s.skip(0) =~= s);
    }
}

/// A run of whitespace at the back is dropped by `trim_end`.
pub proof fn lemma_trim_end_take(s: Seq<char>, j: int)
    requires
        0 <= j <= s.len(),
        forall|k: int| j <= k < s.len() ==> is_ws(#[trigger] s[k]),
    ensures
        trim_end(s) == trim_end(s.take(j)),
    decreases s.len() - j,
{
    if j < s.len() {
        assert(s.drop_last().take(j) =~= s.take(j));
        assert forall|k: int| j <= k < s.len() - 1 implies is_ws(#[trigger] s.drop_last()[k]) by {
            assert(s.drop_last()[k] == s[k]);
        }
        lemma_trim_end_take(s.drop_last(), j);
    } else {
        assert(s.take(j) =~= s);
    }
}

/// Characterization of `word_len`.
pub proof fn lemma_word_len(s: Seq<char>)
    ensures
        word_len(s) <= s.len(),
        forall|k: int| 0 <= k < word_len(s) ==> !is_ws(#[trigger] s[k]),
        word_len(s) < s.len() ==> is_ws(s[word_len(s) as int]),
        s.len() > 0 && !is_ws(s[0]) ==> word_len(s) > 0,
    decreases s.len(),
{
    if s.len() > 0 && !is_ws(s[0]) {
        lemma_word_len(s.drop_first());
        assert forall|k: int| 0 <= k < word_len(s) implies !is_ws(#[trigger] s[k]) by {
            if k > 0 {
                assert(s[k] == s.drop_first()[k - 1]);
            }
        }
    }
}

/// `word_len` is determined by the first whitespace position.
pub proof fn lemma_word_len_at(s: Seq<char>, w: int)
    requires
        0 <= w <= s.len(),
        forall|k: int| 0 <= k < w ==> !is_ws(#[trigger] s[k]),
        w < s.len() ==> is_ws(s[w]),
    ensures
        word_len(s) == w,
    decreases w,
{
    if w > 0 {
        assert forall|k: int| 0 <= k < w - 1 implies !is_ws(#[trigger] s.drop_first()[k]) by {
            assert(s.drop_first()[k] == s[k + 1]);
        }
        lemma_word_len_at(s.drop_first(), w - 1);
    }
}

/// The characters of a decimal numeral are ASCII digits.
pub proof fn lemma_decimal_len(n: nat)
    ensures
        decimal(n).len() >= 1,
    decreases n,
{
    if n >= 10 {
        lemma_decimal_len(n / 10);
    }
}

// ---------------------------------------------------------------------------
// Executable helpers
// ---------------------------------------------------------------------------

/// Appends one character to a string (`String::push`).
#[verifier::external_body]
pub(crate) fn push_char(s: &mut String, c: char)
    ensures
        final(s)@ == old(s)@.push(c),
{
    s.push(c);
}

/// The characters of a string slice, in order.
pub fn chars_of(s: &str) -> (res: Vec<char>)
    ensures
        res@ == s@,
{
    let mut res: Vec<char> = Vec::new();
    for c in it: s.chars()
        invariant
            res@ == it.seq().take(it.index() as int),
            it.seq() == s@,
    {
        res.push(c);
    }
    res
}

/// Appends the characters `s[lo..hi]` to `out`.
pub fn push_range(out: &mut String, s: &[char], lo: usize, hi: usize)
    requires
        lo <= hi <= s@.len(),
    ensures
        final(out)@ == old(out)@ + s@.subrange(lo as int, hi as int),
{
    let mut i: usize = lo;
    while i < hi
        invariant
            lo <= i <= hi <= s@.len(),
            out@ == old(out)@ + s@.subrange(lo as int, i as int),
        decreases hi - i,
    {
        push_char(out, s[i]);
        i = i + 1;
        assert(s@.subrange(lo as int, i as int) =~= s@.subrange(lo as int, i - 1).push(s@[i - 1]));
    }
}

/// The characters `s[lo..hi]` as a vector.
pub fn copy_range<T: Copy>(s: &[T], lo: usize, hi: usize) -> (res: Vec<T>)
    requires
        lo <= hi <= s@.len(),
    ensures
        res@ == s@.subrange(lo as int, hi as int),
{
    let mut res: Vec<T> = Vec::new();
    let mut i: usize = lo;
    while i < hi
        invariant
            lo <= i <= hi <= s@.len(),
            res@ == s@.subrange(lo as int, i as int),
        decreases hi - i,
    {
        res.push(s[i]);
        i = i + 1;
        assert(res@ =~= s@.subrange(lo as int, i as int));
    }
    res
}

/// Appends the elements `s[lo..hi]` to `v`.
pub fn extend_range<T: Copy>(v: &mut Vec<T>, s: &[T], lo: usize, hi: usize)
    requires
        lo <= hi <= s@.len(),
    ensures
        final(v)@ == old(v)@ + s@.subrange(lo as int, hi as int),
{
    let mut i: usize = lo;
    while i < hi
        invariant
            lo <= i <= hi <= s@.len(),
            v@ == old(v)@ + s@.subrange(lo as int, i as int),
        decreases hi - i,
    {
        v.push(s[i]);
        i = i + 1;
        assert(v@ =~= old(v)@ + s@.subrange(lo as int, i as int));
    }
}

/// Appends all characters of `s` to `out`.
pub fn push_str(out: &mut String, s: &str)
    ensures
        final(out)@ == old(out)@ + s@,
{
    let cs = chars_of(s);
    push_range(out, cs.as_slice(), 0, cs.len());
    assert(cs@.subrange(0, cs@.len() as int) =~= s@);
}

/// The string made of the characters `s[lo..hi]`.
pub fn string_of(s: &[char], lo: usize, hi: usize) -> (res: String)
    requires
        lo <= hi <= s@.len(),
    ensures
        res@ == s@.subrange(lo as int, hi as int),
{
    let mut out = String::new();
    push_range(&mut out, s, lo, hi);
    out
}

/// Whether a character is whitespace (`char::is_whitespace`).
pub fn is_whitespace(c: char) -> (res: bool)
    ensures
        res == is_ws(c),
{
    c == '\t' || c == '\n' || c == '\u{0B}' || c == '\u{0C}' || c == '\r' || c == ' ' || c
        == '\u{85}' || c == '\u{A0}' || c == '\u{1680}' || ('\u{2000}' <= c && c <= '\u{200A}')
        || c == '\u{2028}' || c == '\u{2029}' || c == '\u{202F}' || c == '\u{205F}' || c
        == '\u{3000}'
}

/// Bounds of `trim(s[lo..hi])` inside `s`.
pub fn trim_bounds(s: &[char], lo: usize, hi: usize) -> (res: (usize, usize))
    requires
        lo <= hi <= s@.len(),
    ensures
        lo <= res.0 <= res.1 <= hi,
        s@.subrange(res.0 as int, res.1 as int) == trim(s@.subrange(lo as int, hi as int)),
{
    let ghost sub = s@.subrange(lo as int, hi as int);
    let mut i: usize = lo;
    while i < hi && is_whitespace(s[i])
        invariant
            lo <= i <= hi <= s@.len(),
            sub == s@.subrange(lo as int, hi as int),
            forall|k: int| 0 <= k < i - lo ==> is_ws(#[trigger] sub[k]),
        decreases hi - i,
    {
        i = i + 1;
    }
    proof {
        lemma_trim_start_skip(sub, i - lo);
        assert(sub.skip(i - lo) =~= s@.subrange(i as int, hi as int));
        let rest = s@.subrange(i as int, hi as int);
        if rest.len() > 0 {
            assert(!is_ws(rest[0]));
        }
        assert(trim_start(rest) == rest);
    }
    let ghost rest = s@.subrange(i as int, hi as int);
    let mut j: usize = hi;
    while j > i && is_whitespace(s[j - 1])
        invariant
            lo <= i <= j <= hi <= s@.len(),
            rest == s@.subrange(i as int, hi as int),
            forall|k: int| j - i <= k < rest.len() ==> is_ws(#[trigger] rest[k]),
        decreases j - i,
    {
        j = j - 1;
    }
    proof {
        lemma_trim_end_take(rest, j - i);
        let r2 = rest.take(j - i);
        assert(r2 =~= s@.subrange(i as int, j as int));
        if r2.len() > 0 {
            assert(!is_ws(r2.last()));
        }
    }
    (i, j)
}

/// First position at or after `from` (and before `hi`) holding `c`.
pub fn find_char(s: &[char], c: char, from: usize, hi: usize) -> (res: Option<usize>)
    requires
        from <= hi <= s@.len(),
    ensures
        match res {
            Some(i) => from <= i < hi && index_of(s@.subrange(from as int, hi as int), c) == Some(
                i - from,
            ),
            None => index_of(s@.subrange(from as int, hi as int), c) is None,
        },
{
    let ghost sub = s@.subrange(from as int, hi as int);
    let mut i: usize = from;
    while i < hi
        invariant
            from <= i <= hi <= s@.len(),
            sub == s@.subrange(from as int, hi as int),
            forall|k: int| 0 <= k < i - from ==> sub[k] != c,
        decreases hi - i,
    {
        if s[i] == c {
            proof {
                lemma_index_of_at(sub, c, i - from);
            }
            return Some(i);
        }
        i = i + 1;
    }
    proof {
        lemma_index_of_at(sub, c, i - from);
    }
    None
}

/// Whether `s[lo..hi]` begins with the characters of `prefix`.
pub fn starts_with_at(s: &[char], lo: usize, hi: usize, prefix: &str) -> (res: bool)
    requires
        lo <= hi <= s@.len(),
    ensures
        res == (prefix@.len() <= hi - lo && s@.subrange(lo as int, lo + prefix@.len())
            == prefix@),
{
    let p = chars_of(prefix);
    if p.len() > hi - lo {
        return false;
    }
    let mut k: usize = 0;
    while k < p.len()
        invariant
            p@ == prefix@,
            p@.len() <= hi - lo,
            lo <= hi <= s@.len(),
            0 <= k <= p@.len(),
            forall|m: int| 0 <= m < k ==> s@[lo + m] == p@[m],
        decreases p.len() - k,
    {
        if s[lo + k] != p[k] {
            assert(s@.subrange(lo as int, lo + prefix@.len())[k as int] != prefix@[k as int]);
            return false;
        }
        k = k + 1;
    }
    assert(s@.subrange(lo as int, lo + prefix@.len()) =~= prefix@);
    true
}

/// Whether the characters of `s` equal those of `t`.
pub fn chars_equal(s: &[char], lo: usize, hi: usize, t: &str) -> (res: bool)
    requires
        lo <= hi <= s@.len(),
    ensures
        res == (s@.subrange(lo as int, hi as int) == t@),
{
    let tc = chars_of(t);
    if tc.len() != hi - lo {
        return false;
    }
    let r = starts_with_at(s, lo, hi, t);
    assert(lo + t@.len() == hi);
    r
}

/// Appends the decimal representation of `n`.
pub fn push_decimal(out: &mut String, n: u64)
    ensures
        final(out)@ == old(out)@ + decimal(n as nat),
    decreases n,
{
    if n < 10 {
        push_char(out, ((n as u8) + 48) as char);
        assert(digit_char(n as nat) == ((n as u8) + 48) as char);
    } else {
        push_decimal(out, n / 10);
        let d: u64 = n % 10;
        push_char(out, ((d as u8) + 48) as char);
        assert(digit_char((n % 10) as nat) == ((d as u8) + 48) as char);
        assert(decimal(n as nat) == decimal((n / 10) as nat).push(digit_char((n % 10) as nat)));
    }
}

/// The lines of `s`, as `str::lines` yields them.
pub fn split_lines(s: &[char]) -> (res: Vec<Vec<char>>)
    ensures
        views(res@) == lines(s@),
{
    let n: usize = s.len();
    let mut res: Vec<Vec<char>> = Vec::new();
    let mut i: usize = 0;
    assert(s@.skip(0) =~= s@);
    assert(views(res@) + lines(s@) =~= lines(s@));
    while i < n
        invariant
            n == s@.len(),
            0 <= i <= n,
            lines(s@) == views(res@) + lines(s@.skip(i as int)),
        decreases n - i,
    {
        let ghost rest = s@.skip(i as int);
        assert(rest =~= s@.subrange(i as int, n as int));
        let found = find_char(s, '\n', i, n);
        match found {
            Some(j) => {
                proof {
                    lemma_index_of(rest, '\n');
                }
                let mut end: usize = j;
                if end > i && s[end - 1] == '\r' {
                    end = end - 1;
                }
                let line = copy_range(s, i, end);
                proof {
                    assert(rest.take(j - i) =~= s@.subrange(i as int, j as int));
                    assert(line@ =~= strip_cr(rest.take(j - i)));
                    assert(rest.skip(j - i + 1) =~= s@.skip(j + 1));
                }
                let ghost old_res = res@;
                res.push(line);
                proof {
                    assert(views(res@) =~= views(old_res).push(line@));
                    assert(lines(s@) =~= views(res@) + lines(s@.skip(j + 1)));
                }
                i = j + 1;
            },
            None => {
                let line = copy_range(s, i, n);
                let ghost old_res = res@;
                res.push(line);
                proof {
                    assert(line@ =~= rest);
                    assert(views(res@) =~= views(old_res).push(line@));
                    assert(s@.skip(n as int) =~= Seq::<char>::empty());
                    assert(lines(s@.skip(n as int)) =~= Seq::<Seq<char>>::empty());
                    assert(lines(s@) =~= views(res@) + lines(s@.skip(n as int)));
                }
                i = n;
            },
        }
    }
    proof {
        assert(s@.skip(n as int) =~= Seq::<char>::empty());
        assert(views(res@) + lines(s@.skip(n as int)) =~= views(res@));
    }
    res
}

/// The whitespace-separated words of `s[lo..hi]`.
pub fn split_words(s: &[char], lo: usize, hi: usize) -> (res: Vec<Vec<char>>)
    requires
        lo <= hi <= s@.len(),
    ensures
        views(res@) == words(s@.subrange(lo as int, hi as int)),
{
    let mut res: Vec<Vec<char>> = Vec::new();
    let mut i: usize = lo;
    assert(views(res@) + words(s@.subrange(lo as int, hi as int)) =~= words(s@.subrange(lo as int, hi as int)));
    while i < hi
        invariant
            lo <= i <= hi <= s@.len(),
            words(s@.subrange(lo as int, hi as int)) == views(res@) + words(
                s@.subrange(i as int, hi as int),
            ),
        decreases hi - i,
    {
        let ghost rest = s@.subrange(i as int, hi as int);
        let mut j: usize = i;
        while j < hi && is_whitespace(s[j])
            invariant
                i <= j <= hi <= s@.len(),
                rest == s@.subrange(i as int, hi as int),
                forall|k: int| 0 <= k < j - i ==> is_ws(#[trigger] rest[k]),
            decreases hi - j,
        {
            j = j + 1;
        }
        proof {
            lemma_trim_start_skip(rest, j - i);
            assert(rest.skip(j - i) =~= s@.subrange(j as int, hi as int));
        }
        let ghost t = s@.subrange(j as int, hi as int);
        if j == hi {
            proof {
                assert(t.len() == 0);
                assert(trim_start(t) == t);
                assert(words(rest) =~= Seq::<Seq<char>>::empty());
                assert(views(res@) + words(rest) =~= views(res@));
                assert(s@.subrange(hi as int, hi as int) =~= Seq::<char>::empty());
                assert(words(s@.subrange(hi as int, hi as int)) =~= Seq::<Seq<char>>::empty());
                assert(views(res@) + words(s@.subrange(hi as int, hi as int)) =~= views(res@));
            }
            i = hi;
        } else {
            proof {
                assert(!is_ws(t[0]));
                assert(trim_start(t) == t);
            }
            let mut k: usize = j;
            while k < hi && !is_whitespace(s[k])
                invariant
                    j <= k <= hi <= s@.len(),
                    t == s@.subrange(j as int, hi as int),
                    forall|m: int| 0 <= m < k - j ==> !is_ws(#[trigger] t[m]),
                decreases hi - k,
            {
                k = k + 1;
            }
            proof {
                lemma_word_len_at(t, k - j);
                lemma_trim_start_suffix(rest);
                lemma_word_len(t);
                assert(trim_start(rest) == t);
                assert(t.take(k - j) =~= s@.subrange(j as int, k as int));
                assert(t.skip(k - j) =~= s@.subrange(k as int, hi as int));
            }
            let w = copy_range(s, j, k);
            let ghost old_res = res@;
            res.push(w);
            proof {
                assert(w@ =~= t.take(k - j));
                assert(views(res@) =~= views(old_res).push(w@));
                assert(words(rest) == seq![t.take(k - j)] + words(t.skip(k - j)));
                assert(views(res@) + words(s@.subrange(k as int, hi as int)) =~= views(old_res)
                    + words(rest));
            }
            i = k;
        }
    }
    proof {
        assert(s@.subrange(hi as int, hi as int) =~= Seq::<char>::empty());
        assert(trim_start(Seq::<char>::empty()) == Seq::<char>::empty());
        assert(words(Seq::<char>::empty()) =~= Seq::<Seq<char>>::empty());
        assert(views(res@) + words(s@.subrange(i as int, hi as int)) =~= views(res@));
    }
    res
}

/// `strs[from..]` joined with `sep` between consecutive elements.
pub fn join_from(strs: &[Vec<char>], from: usize, sep: char) -> (res: String)
    requires
        from <= strs@.len(),
    ensures
        res@ == join(views(strs@.skip(from as int)), seq![sep]),
{
    let mut out = String::new();
    let mut i: usize = from;
    while i < strs.len()
        invariant
            from <= i <= strs@.len(),
            out@ == join(views(strs@.subrange(from as int, i as int)), seq![sep]),
        decreases strs.len() - i,
    {
        let ghost prev = views(strs@.subrange(from as int, i as int));
        if i > from {
            push_char(&mut out, sep);
        }
        let w = &strs[i];
        push_range(&mut out, w.as_slice(), 0, w.len());
        proof {
            let nxt = views(strs@.subrange(from as int, i + 1));
            assert(nxt.drop_last() =~= prev);
            assert(nxt.last() == strs@[i as int]@);
            assert(w@.subrange(0, w@.len() as int) =~= w@);
            if i == from {
                assert(nxt.len() == 1);
                assert(out@ =~= join(nxt, seq![sep]));
            } else {
                assert(out@ =~= join(nxt, seq![sep]));
            }
        }
        i = i + 1;
    }
    assert(strs@.subrange(from as int, strs@.len() as int) =~= strs@.skip(from as int));
    out
}

/// `str::split` on one character: the pieces between occurrences of `c`,
/// empty pieces included.
pub open spec fn split_on(s: Seq<char>, c: char) -> Seq<Seq<char>>
    decreases s.len(),
{
    match index_of(s, c) {
        Some(i) => {
            proof {
                lemma_index_of(s, c);
            }
            seq![s.take(i)] + split_on(s.skip(i + 1), c)
        },
        None => seq![s],
    }
}

/// Bounds of the pieces of `s[lo..hi]` between occurrences of `c`.
pub fn split_bounds(s: &[char], lo: usize, hi: usize, c: char) -> (res: Vec<(usize, usize)>)
    requires
        lo <= hi <= s@.len(),
    ensures
        res@.len() == split_on(s@.subrange(lo as int, hi as int), c).len(),
        forall|k: int|
            0 <= k < res@.len() ==> lo <= (#[trigger] res@[k]).0 <= res@[k].1 <= hi
                && s@.subrange(res@[k].0 as int, res@[k].1 as int) == split_on(
                s@.subrange(lo as int, hi as int),
                c,
            )[k],
{
    let mut res: Vec<(usize, usize)> = Vec::new();
    let mut i: usize = lo;
    let ghost whole = split_on(s@.subrange(lo as int, hi as int), c);
    let ghost done: Seq<Seq<char>> = seq![];
    assert(whole =~= done + split_on(s@.subrange(i as int, hi as int), c));
    loop
        invariant
            lo <= i <= hi <= s@.len(),
            whole == split_on(s@.subrange(lo as int, hi as int), c),
            whole == done + split_on(s@.subrange(i as int, hi as int), c),
            res@.len() == done.len(),
            forall|k: int|
                0 <= k < res@.len() ==> lo <= (#[trigger] res@[k]).0 <= res@[k].1 <= hi
                    && s@.subrange(res@[k].0 as int, res@[k].1 as int) == done[k],
        decreases hi - i,
    {
        let ghost rest = s@.subrange(i as int, hi as int);
        match find_char(s, c, i, hi) {
            Some(j) => {
                proof {
                    lemma_index_of(rest, c);
                    assert(rest.take(j - i) =~= s@.subrange(i as int, j as int));
                    assert(rest.skip(j - i + 1) =~= s@.subrange(j + 1, hi as int));
                    done = done.push(rest.take(j - i));
                    assert(whole =~= done + split_on(s@.subrange(j + 1, hi as int), c));
                }
                res.push((i, j));
                i = j + 1;
            },
            None => {
                proof {
                    done = done.push(rest);
                    assert(whole =~= done);
                }
                res.push((i, hi));
                return res;
            },
        }
    }
}

} // verus!
