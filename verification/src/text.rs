//! Character-level text utilities with specifications: whitespace,
//! trimming, word splitting, line splitting, decimal rendering.
use vstd::prelude::*;

verus! {

/// Appends one character to a `String` (`String::push`).
#[verifier::external_body]
pub(crate) fn push_char(s: &mut String, c: char)
    ensures
        final(s)@ == old(s)@.push(c),
{
    s.push(c);
}

/// The characters of `s`, in order.
pub fn to_chars(s: &str) -> (v: Vec<char>)
    ensures
        v@ == s@,
{
    let mut v: Vec<char> = Vec::new();
    for c in it: s.chars()
        invariant
            v@ == it.seq().take(it.index() as int),
            it.seq() == s@,
    {
        v.push(c);
    }
    v
}

/// A `String` holding the characters `v[lo..hi]`.
pub fn string_of(v: &[char], lo: usize, hi: usize) -> (s: String)
    requires
        lo <= hi <= v@.len(),
    ensures
        s@ == v@.subrange(lo as int, hi as int),
{
    let mut s = String::new();
    let mut i = lo;
    while i < hi
        invariant
            lo <= i <= hi <= v@.len(),
            s@ == v@.subrange(lo as int, i as int),
        decreases hi - i,
    {
        push_char(&mut s, v[i]);
        i = i + 1;
    }
    s
}

} // verus!

verus! {

/// Unicode `White_Space` (the set that `char::is_whitespace` recognises).
pub open spec fn is_ws(c: char) -> bool {
    ||| ('\u{9}' <= c && c <= '\u{d}')
    ||| c == ' '
    ||| c == '\u{85}'
    ||| c == '\u{a0}'
    ||| c == '\u{1680}'
    ||| ('\u{2000}' <= c && c <= '\u{200a}')
    ||| c == '\u{2028}'
    ||| c == '\u{2029}'
    ||| c == '\u{202f}'
    ||| c == '\u{205f}'
    ||| c == '\u{3000}'
}

/// Executable whitespace test.
pub fn is_whitespace(c: char) -> (b: bool)
    ensures
        b == is_ws(c),
{
    ('\u{9}' <= c && c <= '\u{d}') || c == ' ' || c == '\u{85}' || c == '\u{a0}' || c
        == '\u{1680}' || ('\u{2000}' <= c && c <= '\u{200a}') || c == '\u{2028}' || c
        == '\u{2029}' || c == '\u{202f}' || c == '\u{205f}' || c == '\u{3000}'
}

/// Number of leading whitespace characters.
pub open spec fn lead_ws(s: Seq<char>) -> nat
    decreases s.len(),
{
    if s.len() > 0 && is_ws(s[0]) {
        1 + lead_ws(s.drop_first())
    } else {
        0
    }
}

/// Number of trailing whitespace characters.
pub open spec fn trail_ws(s: Seq<char>) -> nat
    decreases s.len(),
{
    if s.len() > 0 && is_ws(s.last()) {
        1 + trail_ws(s.drop_last())
    } else {
        0
    }
}

/// Length of the leading run of non-whitespace characters.
pub open spec fn word_len(s: Seq<char>) -> nat
    decreases s.len(),
{
    if s.len() > 0 && !is_ws(s[0]) {
        1 + word_len(s.drop_first())
    } else {
        0
    }
}

/// Length of the leading run of characters different from `c`: the index of
/// the first `c`, or the length when there is none.
pub open spec fn until(s: Seq<char>, c: char) -> nat
    decreases s.len(),
{
    if s.len() > 0 && s[0] != c {
        1 + until(s.drop_first(), c)
    } else {
        0
    }
}

/// `str::trim_start`.
pub open spec fn trim_start(s: Seq<char>) -> Seq<char> {
    s.skip(lead_ws(s) as int)
}

/// `str::trim_end`.
pub open spec fn trim_end(s: Seq<char>) -> Seq<char> {
    s.take(s.len() - trail_ws(s))
}

/// `str::trim`.
pub open spec fn trim(s: Seq<char>) -> Seq<char> {
    trim_end(trim_start(s))
}

pub proof fn lemma_lead_ws(s: Seq<char>, k: int)
    requires
        0 <= k <= s.len(),
        forall|j: int| 0 <= j < k ==> is_ws(#[trigger] s[j]),
        k == s.len() || !is_ws(s[k]),
    ensures
        lead_ws(s) == k,
    decreases s.len(),
{
    if k > 0 {
        let t = s.drop_first();
        assert forall|j: int| 0 <= j < k - 1 implies is_ws(#[trigger] t[j]) by {
            assert(t[j] == s[j + 1]);
        }
        if k < s.len() {
            assert(t[k - 1] == s[k]);
        }
        lemma_lead_ws(t, k - 1);
    }
}

pub proof fn lemma_trail_ws(s: Seq<char>, k: int)
    requires
        0 <= k <= s.len(),
        forall|j: int| s.len() - k <= j < s.len() ==> is_ws(#[trigger] s[j]),
        k == s.len() || !is_ws(s[s.len() - k - 1]),
    ensures
        trail_ws(s) == k,
    decreases s.len(),
{
    if k > 0 {
        let t = s.drop_last();
        assert(is_ws(s[s.len() - 1]));
        assert forall|j: int| t.len() - (k - 1) <= j < t.len() implies is_ws(#[trigger] t[j]) by {
            assert(t[j] == s[j]);
        }
        if k < s.len() {
            assert(t[t.len() - (k - 1) - 1] == s[s.len() - k - 1]);
        }
        lemma_trail_ws(t, k - 1);
    }
}

pub proof fn lemma_word_len(s: Seq<char>, k: int)
    requires
        0 <= k <= s.len(),
        forall|j: int| 0 <= j < k ==> !is_ws(#[trigger] s[j]),
        k == s.len() || is_ws(s[k]),
    ensures
        word_len(s) == k,
    decreases s.len(),
{
    if k > 0 {
        let t = s.drop_first();
        assert forall|j: int| 0 <= j < k - 1 implies !is_ws(#[trigger] t[j]) by {
            assert(t[j] == s[j + 1]);
        }
        if k < s.len() {
            assert(t[k - 1] == s[k]);
        }
        lemma_word_len(t, k - 1);
    }
}

pub proof fn lemma_until(s: Seq<char>, c: char, k: int)
    requires
        0 <= k <= s.len(),
        forall|j: int| 0 <= j < k ==> #[trigger] s[j] != c,
        k == s.len() || s[k] == c,
    ensures
        until(s, c) == k,
    decreases s.len(),
{
    if k > 0 {
        let t = s.drop_first();
        assert forall|j: int| 0 <= j < k - 1 implies #[trigger] t[j] != c by {
            assert(t[j] == s[j + 1]);
        }
        if k < s.len() {
            assert(t[k - 1] == s[k]);
        }
        lemma_until(t, c, k - 1);
    }
}

pub proof fn lemma_lead_ws_bound(s: Seq<char>)
    ensures
        lead_ws(s) <= s.len(),
        forall|j: int| 0 <= j < lead_ws(s) ==> is_ws(#[trigger] s[j]),
        lead_ws(s) == s.len() || !is_ws(s[lead_ws(s) as int]),
    decreases s.len(),
{
    if s.len() > 0 && is_ws(s[0]) {
        let t = s.drop_first();
        lemma_lead_ws_bound(t);
        assert forall|j: int| 0 <= j < lead_ws(s) implies is_ws(#[trigger] s[j]) by {
            if j > 0 {
                assert(s[j] == t[j - 1]);
            }
        }
        if lead_ws(s) < s.len() {
            assert(s[lead_ws(s) as int] == t[lead_ws(t) as int]);
        }
    }
}

pub proof fn lemma_trail_ws_bound(s: Seq<char>)
    ensures
        trail_ws(s) <= s.len(),
        forall|j: int| s.len() - trail_ws(s) <= j < s.len() ==> is_ws(#[trigger] s[j]),
        trail_ws(s) == s.len() || !is_ws(s[s.len() - trail_ws(s) - 1]),
    decreases s.len(),
{
    if s.len() > 0 && is_ws(s.last()) {
        let t = s.drop_last();
        lemma_trail_ws_bound(t);
        assert forall|j: int| s.len() - trail_ws(s) <= j < s.len() implies is_ws(
            #[trigger] s[j],
        ) by {
            if j < s.len() - 1 {
                assert(s[j] == t[j]);
            }
        }
        if trail_ws(s) < s.len() {
            assert(s[s.len() - trail_ws(s) - 1] == t[t.len() - trail_ws(t) - 1]);
        }
    }
}

pub proof fn lemma_word_len_bound(s: Seq<char>)
    ensures
        word_len(s) <= s.len(),
        forall|j: int| 0 <= j < word_len(s) ==> !is_ws(#[trigger] s[j]),
        word_len(s) == s.len() || is_ws(s[word_len(s) as int]),
    decreases s.len(),
{
    if s.len() > 0 && !is_ws(s[0]) {
        let t = s.drop_first();
        lemma_word_len_bound(t);
        assert forall|j: int| 0 <= j < word_len(s) implies !is_ws(#[trigger] s[j]) by {
            if j > 0 {
                assert(s[j] == t[j - 1]);
            }
        }
        if word_len(s) < s.len() {
            assert(s[word_len(s) as int] == t[word_len(t) as int]);
        }
    }
}

pub proof fn lemma_until_bound(s: Seq<char>, c: char)
    ensures
        until(s, c) <= s.len(),
        forall|j: int| 0 <= j < until(s, c) ==> #[trigger] s[j] != c,
        until(s, c) == s.len() || s[until(s, c) as int] == c,
    decreases s.len(),
{
    if s.len() > 0 && s[0] != c {
        let t = s.drop_first();
        lemma_until_bound(t, c);
        assert forall|j: int| 0 <= j < until(s, c) implies #[trigger] s[j] != c by {
            if j > 0 {
                assert(s[j] == t[j - 1]);
            }
        }
        if until(s, c) < s.len() {
            assert(s[until(s, c) as int] == t[until(t, c) as int]);
        }
    }
}

/// Index of the first non-whitespace character of `v[lo..hi]`, or `hi`.
pub fn skip_ws(v: &[char], lo: usize, hi: usize) -> (r: usize)
    requires
        lo <= hi <= v@.len(),
    ensures
        r == lo + lead_ws(v@.subrange(lo as int, hi as int)),
        lo <= r <= hi,
{
    let mut i = lo;
    while i < hi && is_whitespace(v[i])
        invariant
            lo <= i <= hi <= v@.len(),
            forall|j: int| lo <= j < i ==> is_ws(#[trigger] v@[j]),
        decreases hi - i,
    {
        i = i + 1;
    }
    proof {
        let s = v@.subrange(lo as int, hi as int);
        assert forall|j: int| 0 <= j < i - lo implies is_ws(#[trigger] s[j]) by {
            assert(s[j] == v@[lo + j]);
        }
        lemma_lead_ws(s, i - lo);
    }
    i
}

/// End of `v[lo..hi]` once its trailing whitespace is dropped.
pub fn skip_ws_back(v: &[char], lo: usize, hi: usize) -> (r: usize)
    requires
        lo <= hi <= v@.len(),
    ensures
        r == hi - trail_ws(v@.subrange(lo as int, hi as int)),
        lo <= r <= hi,
{
    let mut i = hi;
    while i > lo && is_whitespace(v[i - 1])
        invariant
            lo <= i <= hi <= v@.len(),
            forall|j: int| i <= j < hi ==> is_ws(#[trigger] v@[j]),
        decreases i - lo,
    {
        i = i - 1;
    }
    proof {
        let s = v@.subrange(lo as int, hi as int);
        assert forall|j: int| s.len() - (hi - i) <= j < s.len() implies is_ws(#[trigger] s[j]) by {
            assert(s[j] == v@[lo + j]);
        }
        if i > lo {
            assert(s[s.len() - (hi - i) - 1] == v@[i - 1]);
        }
        lemma_trail_ws(s, hi - i);
    }
    i
}

/// End of the run of non-whitespace characters that starts at `lo`.
pub fn skip_word(v: &[char], lo: usize, hi: usize) -> (r: usize)
    requires
        lo <= hi <= v@.len(),
    ensures
        r == lo + word_len(v@.subrange(lo as int, hi as int)),
        lo <= r <= hi,
{
    let mut i = lo;
    while i < hi && !is_whitespace(v[i])
        invariant
            lo <= i <= hi <= v@.len(),
            forall|j: int| lo <= j < i ==> !is_ws(#[trigger] v@[j]),
        decreases hi - i,
    {
        i = i + 1;
    }
    proof {
        let s = v@.subrange(lo as int, hi as int);
        assert forall|j: int| 0 <= j < i - lo implies !is_ws(#[trigger] s[j]) by {
            assert(s[j] == v@[lo + j]);
        }
        lemma_word_len(s, i - lo);
    }
    i
}

/// Index of the first `c` in `v[lo..hi]`, or `hi`.
pub fn find_char(v: &[char], lo: usize, hi: usize, c: char) -> (r: usize)
    requires
        lo <= hi <= v@.len(),
    ensures
        r == lo + until(v@.subrange(lo as int, hi as int), c),
        lo <= r <= hi,
{
    let mut i = lo;
    while i < hi && v[i] != c
        invariant
            lo <= i <= hi <= v@.len(),
            forall|j: int| lo <= j < i ==> #[trigger] v@[j] != c,
        decreases hi - i,
    {
        i = i + 1;
    }
    proof {
        let s = v@.subrange(lo as int, hi as int);
        assert forall|j: int| 0 <= j < i - lo implies #[trigger] s[j] != c by {
            assert(s[j] == v@[lo + j]);
        }
        lemma_until(s, c, i - lo);
    }
    i
}

} // verus!

verus! {

/// `str::split_whitespace`: the maximal runs of non-whitespace characters.
pub open spec fn words(s: Seq<char>) -> Seq<Seq<char>>
    decreases s.len(),
{
    if s.len() == 0 {
        seq![]
    } else if is_ws(s[0]) {
        words(s.drop_first())
    } else {
        proof {
            lemma_word_len_bound(s);
        }
        seq![s.take(word_len(s) as int)] + words(s.skip(word_len(s) as int))
    }
}

/// Strings joined with a single space between consecutive ones.
pub open spec fn join(ws: Seq<Seq<char>>) -> Seq<char>
    decreases ws.len(),
{
    if ws.len() == 0 {
        seq![]
    } else if ws.len() == 1 {
        ws[0]
    } else {
        ws[0] + seq![' '] + join(ws.drop_first())
    }
}

/// Drops one trailing carriage return.
pub open spec fn strip_cr(l: Seq<char>) -> Seq<char> {
    if l.len() > 0 && l.last() == '\r' {
        l.drop_last()
    } else {
        l
    }
}

/// `str::lines`: split at `\n`, drop a `\r` just before each `\n`; a final
/// line ending is optional and yields no empty last line.
pub open spec fn lines(s: Seq<char>) -> Seq<Seq<char>>
    decreases s.len(),
{
    if s.len() == 0 {
        seq![]
    } else {
        proof {
            lemma_until_bound(s, '\n');
        }
        if until(s, '\n') < s.len() {
            seq![strip_cr(s.take(until(s, '\n') as int))] + lines(
                s.skip(until(s, '\n') + 1int),
            )
        } else {
            seq![s]
        }
    }
}

/// The texts that `spans` select from `v`.
pub open spec fn spans_text(v: Seq<char>, spans: Seq<(usize, usize)>) -> Seq<Seq<char>> {
    Seq::new(spans.len(), |k: int| v.subrange(spans[k].0 as int, spans[k].1 as int))
}

/// Every span lies inside `lo..hi`, in order.
pub open spec fn spans_within(spans: Seq<(usize, usize)>, lo: int, hi: int) -> bool {
    forall|k: int|
        0 <= k < spans.len() ==> lo <= (#[trigger] spans[k]).0 <= spans[k].1 <= hi
}

pub proof fn lemma_join_push(ws: Seq<Seq<char>>, w: Seq<char>)
    ensures
        join(ws.push(w)) == (if ws.len() == 0 {
            w
        } else {
            join(ws) + seq![' '] + w
        }),
    decreases ws.len(),
{
    let p = ws.push(w);
    if ws.len() == 0 {
        assert(p =~= seq![w]);
    } else if ws.len() == 1 {
        assert(p.drop_first() =~= seq![w]);
        assert(join(p.drop_first()) == w);
        assert(p[0] == ws[0]);
        assert(join(p) == ws[0] + seq![' '] + w);
    } else {
        lemma_join_push(ws.drop_first(), w);
        assert(p.drop_first() =~= ws.drop_first().push(w));
        assert(p[0] == ws[0]);
        assert(join(p) == ws[0] + seq![' '] + join(ws.drop_first().push(w)));
        assert(join(p) =~= join(ws) + seq![' '] + w);
    }
}

/// The words of `v[lo..hi]`, as spans.
pub fn split_words(v: &[char], lo: usize, hi: usize) -> (r: Vec<(usize, usize)>)
    requires
        lo <= hi <= v@.len(),
    ensures
        spans_text(v@, r@) == words(v@.subrange(lo as int, hi as int)),
        spans_within(r@, lo as int, hi as int),
{
    let mut out: Vec<(usize, usize)> = Vec::new();
    let mut i = lo;
    while i < hi
        invariant
            lo <= i <= hi <= v@.len(),
            words(v@.subrange(lo as int, hi as int)) == spans_text(v@, out@) + words(
                v@.subrange(i as int, hi as int),
            ),
            spans_within(out@, lo as int, i as int),
        decreases hi - i,
    {
        let ghost s = v@.subrange(i as int, hi as int);
        if is_whitespace(v[i]) {
            proof {
                assert(s.drop_first() =~= v@.subrange(i + 1, hi as int));
            }
            i = i + 1;
        } else {
            let j = skip_word(v, i, hi);
            proof {
                lemma_word_len_bound(s);
                assert(s.take(j - i) =~= v@.subrange(i as int, j as int));
                assert(s.skip(j - i) =~= v@.subrange(j as int, hi as int));
            }
            let ghost before = out@;
            out.push((i, j));
            proof {
                assert(spans_text(v@, out@) =~= spans_text(v@, before).push(
                    v@.subrange(i as int, j as int),
                ));
                assert(spans_text(v@, out@) + words(v@.subrange(j as int, hi as int))
                    =~= spans_text(v@, before) + words(s));
            }
            i = j;
        }
    }
    proof {
        assert(words(v@.subrange(i as int, hi as int)) =~= Seq::<Seq<char>>::empty());
        assert(spans_text(v@, out@) + Seq::<Seq<char>>::empty() =~= spans_text(v@, out@));
    }
    out
}

/// The lines of `v[lo..hi]`, as spans.
pub fn split_lines(v: &[char], lo: usize, hi: usize) -> (r: Vec<(usize, usize)>)
    requires
        lo <= hi <= v@.len(),
    ensures
        spans_text(v@, r@) == lines(v@.subrange(lo as int, hi as int)),
        spans_within(r@, lo as int, hi as int),
{
    let mut out: Vec<(usize, usize)> = Vec::new();
    let mut i = lo;
    while i < hi
        invariant
            lo <= i <= hi <= v@.len(),
            lines(v@.subrange(lo as int, hi as int)) == spans_text(v@, out@) + lines(
                v@.subrange(i as int, hi as int),
            ),
            spans_within(out@, lo as int, i as int),
        decreases hi - i,
    {
        let ghost s = v@.subrange(i as int, hi as int);
        let j = find_char(v, i, hi, '\n');
        let ghost before = out@;
        if j < hi {
            let end = if j > i && v[j - 1] == '\r' {
                j - 1
            } else {
                j
            };
            proof {
                lemma_until_bound(s, '\n');
                assert(s.take(j - i) =~= v@.subrange(i as int, j as int));
                assert(strip_cr(s.take(j - i)) =~= v@.subrange(i as int, end as int));
                assert(s.skip(j - i + 1) =~= v@.subrange(j + 1, hi as int));
            }
            out.push((i, end));
            proof {
                assert(spans_text(v@, out@) =~= spans_text(v@, before).push(
                    v@.subrange(i as int, end as int),
                ));
                assert(spans_text(v@, out@) + lines(v@.subrange(j + 1, hi as int))
                    =~= spans_text(v@, before) + lines(s));
            }
            i = j + 1;
        } else {
            out.push((i, hi));
            proof {
                lemma_until_bound(s, '\n');
                assert(spans_text(v@, out@) =~= spans_text(v@, before).push(s));
                assert(v@.subrange(hi as int, hi as int) =~= Seq::<char>::empty());
                assert(spans_text(v@, out@) + lines(v@.subrange(hi as int, hi as int))
                    =~= spans_text(v@, before) + lines(s));
            }
            i = hi;
        }
    }
    proof {
        assert(lines(v@.subrange(i as int, hi as int)) =~= Seq::<Seq<char>>::empty());
        assert(spans_text(v@, out@) + Seq::<Seq<char>>::empty() =~= spans_text(v@, out@));
    }
    out
}

/// Appends `v[lo..hi]` to `s`.
pub fn push_span(s: &mut String, v: &[char], lo: usize, hi: usize)
    requires
        lo <= hi <= v@.len(),
    ensures
        final(s)@ == old(s)@ + v@.subrange(lo as int, hi as int),
{
    let ghost start = s@;
    let mut i = lo;
    while i < hi
        invariant
            lo <= i <= hi <= v@.len(),
            s@ == start + v@.subrange(lo as int, i as int),
        decreases hi - i,
    {
        push_char(s, v[i]);
        i = i + 1;
        proof {
            assert(v@.subrange(lo as int, i as int) =~= v@.subrange(lo as int, i - 1).push(
                v@[i - 1],
            ));
        }
    }
}

/// Appends the texts of `spans[from..to]`, joined with single spaces.
pub fn push_joined(s: &mut String, v: &[char], spans: &[(usize, usize)], from: usize, to: usize)
    requires
        from <= to <= spans@.len(),
        spans_within(spans@, 0, v@.len() as int),
    ensures
        final(s)@ == old(s)@ + join(spans_text(v@, spans@).subrange(from as int, to as int)),
{
    let ghost start = s@;
    let ghost all = spans_text(v@, spans@);
    let mut k = from;
    while k < to
        invariant
            from <= k <= to <= spans@.len(),
            spans_within(spans@, 0, v@.len() as int),
            all == spans_text(v@, spans@),
            s@ == start + join(all.subrange(from as int, k as int)),
        decreases to - k,
    {
        let ghost prev = all.subrange(from as int, k as int);
        if k > from {
            push_char(s, ' ');
        }
        let (a, b) = spans[k];
        push_span(s, v, a, b);
        proof {
            assert(all.subrange(from as int, k + 1) =~= prev.push(all[k as int]));
            lemma_join_push(prev, all[k as int]);
        }
        k = k + 1;
    }
}

} // verus!

verus! {

/// The ASCII digit for `d`.
pub open spec fn digit_char(d: nat) -> char {
    if d == 0 {
        '0'
    } else if d == 1 {
        '1'
    } else if d == 2 {
        '2'
    } else if d == 3 {
        '3'
    } else if d == 4 {
        '4'
    } else if d == 5 {
        '5'
    } else if d == 6 {
        '6'
    } else if d == 7 {
        '7'
    } else if d == 8 {
        '8'
    } else {
        '9'
    }
}

/// Decimal notation of `n`, as `Display` writes it for unsigned integers.
pub open spec fn decimal(n: nat) -> Seq<char>
    decreases n,
{
    if n < 10 {
        seq![digit_char(n)]
    } else {
        decimal(n / 10).push(digit_char(n % 10))
    }
}

/// Decimal notation of a signed integer, with a leading `-` when negative.
pub open spec fn signed_decimal(n: int) -> Seq<char> {
    if n < 0 {
        seq!['-'] + decimal((-n) as nat)
    } else {
        decimal(n as nat)
    }
}

fn digit(d: u64) -> (c: char)
    requires
        d < 10,
    ensures
        c == digit_char(d as nat),
{
    if d == 0 {
        '0'
    } else if d == 1 {
        '1'
    } else if d == 2 {
        '2'
    } else if d == 3 {
        '3'
    } else if d == 4 {
        '4'
    } else if d == 5 {
        '5'
    } else if d == 6 {
        '6'
    } else if d == 7 {
        '7'
    } else if d == 8 {
        '8'
    } else {
        '9'
    }
}

/// Appends the decimal notation of `n`.
pub fn push_decimal(s: &mut String, n: u64)
    ensures
        final(s)@ == old(s)@ + decimal(n as nat),
    decreases n,
{
    if n < 10 {
        push_char(s, digit(n));
    } else {
        push_decimal(s, n / 10);
        push_char(s, digit(n % 10));
    }
}

/// Appends the decimal notation of a signed `n`.
pub fn push_signed_decimal(s: &mut String, n: i32)
    ensures
        final(s)@ == old(s)@ + signed_decimal(n as int),
{
    if n < 0 {
        push_char(s, '-');
        let m: i64 = n as i64;
        let a: u64 = (-m) as u64;
        push_decimal(s, a);
        assert(final(s)@ =~= old(s)@ + signed_decimal(n as int));
    } else {
        push_decimal(s, n as u64);
    }
}

/// Appends a string slice.
pub fn push_str(s: &mut String, t: &str)
    ensures
        final(s)@ == old(s)@ + t@,
{
    s.append(t);
}

/// `p` occurs in `s` starting at index `i`.
pub open spec fn occurs_at(s: Seq<char>, p: Seq<char>, i: int) -> bool {
    0 <= i && i + p.len() <= s.len() && s.subrange(i, i + p.len()) == p
}

/// `str::contains` with a string pattern.
pub open spec fn contains(s: Seq<char>, p: Seq<char>) -> bool {
    exists|i: int| occurs_at(s, p, i)
}

/// `str::starts_with` with a string pattern.
pub open spec fn starts_with(s: Seq<char>, p: Seq<char>) -> bool {
    p.len() <= s.len() && s.take(p.len() as int) == p
}

/// Whether `p` matches `v` at index `i`.
pub fn matches_at(v: &[char], i: usize, p: &[char]) -> (b: bool)
    ensures
        b == occurs_at(v@, p@, i as int),
{
    if i > v.len() || p.len() > v.len() - i {
        return false;
    }
    let mut j: usize = 0;
    while j < p.len()
        invariant
            i + p@.len() <= v@.len(),
            i + p@.len() <= v.len(),
            j <= p@.len(),
            forall|k: int| 0 <= k < j ==> v@[i + k] == p@[k],
        decreases p@.len() - j,
    {
        if v[i + j] != p[j] {
            proof {
                assert(v@.subrange(i as int, i + p@.len())[j as int] != p@[j as int]);
            }
            return false;
        }
        j = j + 1;
    }
    proof {
        assert(v@.subrange(i as int, i + p@.len()) =~= p@);
    }
    true
}

/// Whether `p` occurs anywhere in `v`.
pub fn has_substring(v: &[char], p: &[char]) -> (b: bool)
    ensures
        b == contains(v@, p@),
{
    if p.len() > v.len() {
        return false;
    }
    let last = v.len() - p.len();
    let mut i: usize = 0;
    loop
        invariant
            last == v@.len() - p@.len(),
            i <= last,
            forall|k: int| 0 <= k < i ==> !occurs_at(v@, p@, k),
        decreases last - i,
    {
        if matches_at(v, i, p) {
            return true;
        }
        if i == last {
            return false;
        }
        i = i + 1;
    }
}

/// Whether `v[lo..hi]` starts with `p`.
pub fn starts_with_at(v: &[char], lo: usize, hi: usize, p: &[char]) -> (b: bool)
    requires
        lo <= hi <= v@.len(),
    ensures
        b == starts_with(v@.subrange(lo as int, hi as int), p@),
{
    if p.len() > hi - lo {
        return false;
    }
    let b = matches_at(v, lo, p);
    proof {
        let s = v@.subrange(lo as int, hi as int);
        assert(s.take(p@.len() as int) =~= v@.subrange(lo as int, lo + p@.len()));
    }
    b
}

/// ASCII letter.
pub open spec fn is_ascii_alpha(c: char) -> bool {
    ('a' <= c && c <= 'z') || ('A' <= c && c <= 'Z')
}

/// ASCII letter or digit.
pub open spec fn is_ascii_alnum(c: char) -> bool {
    is_ascii_alpha(c) || ('0' <= c && c <= '9')
}

pub fn ascii_alpha(c: char) -> (b: bool)
    ensures
        b == is_ascii_alpha(c),
{
    ('a' <= c && c <= 'z') || ('A' <= c && c <= 'Z')
}

pub fn ascii_alnum(c: char) -> (b: bool)
    ensures
        b == is_ascii_alnum(c),
{
    ('a' <= c && c <= 'z') || ('A' <= c && c <= 'Z') || ('0' <= c && c <= '9')
}

/// `char::to_ascii_lowercase`.
pub open spec fn ascii_lower(c: char) -> char {
    if 'A' <= c && c <= 'Z' {
        ((c as u32) + 32) as char
    } else {
        c
    }
}

/// `str::to_ascii_lowercase`, character by character.
pub open spec fn lower(s: Seq<char>) -> Seq<char> {
    s.map_values(|c: char| ascii_lower(c))
}

/// `str::eq_ignore_ascii_case`.
pub open spec fn eq_ignore_case(a: Seq<char>, b: Seq<char>) -> bool {
    lower(a) == lower(b)
}

/// `char::to_ascii_lowercase`: ASCII upper-case letters map to their
/// lower-case letter, every other character is unchanged.
fn char_to_lower(c: char) -> (r: char)
    ensures
        r == ascii_lower(c),
{
    if 'A' <= c && c <= 'Z' {
        let b: u8 = c as u8;
        assert(b == c as u32);
        (b + 32) as char
    } else {
        c
    }
}

/// The ASCII lower-case form of `v[lo..hi]`.
pub fn lower_chars(v: &[char], lo: usize, hi: usize) -> (r: Vec<char>)
    requires
        lo <= hi <= v@.len(),
    ensures
        r@ == lower(v@.subrange(lo as int, hi as int)),
{
    let mut out: Vec<char> = Vec::new();
    let mut i = lo;
    while i < hi
        invariant
            lo <= i <= hi <= v@.len(),
            out@ == lower(v@.subrange(lo as int, i as int)),
        decreases hi - i,
    {
        out.push(char_to_lower(v[i]));
        i = i + 1;
        proof {
            assert(out@ =~= lower(v@.subrange(lo as int, i as int)));
        }
    }
    out
}

/// Whether `v[lo..hi]` equals `p` up to ASCII case.
pub fn eq_ignore_case_at(v: &[char], lo: usize, hi: usize, p: &[char]) -> (b: bool)
    requires
        lo <= hi <= v@.len(),
    ensures
        b == eq_ignore_case(v@.subrange(lo as int, hi as int), p@),
{
    let a = lower_chars(v, lo, hi);
    let c = lower_chars(p, 0, p.len());
    proof {
        assert(p@.subrange(0, p@.len() as int) =~= p@);
    }
    if a.len() != c.len() {
        return false;
    }
    let ok = matches_at(&a, 0, &c);
    proof {
        assert(a@.subrange(0, c@.len() as int) =~= a@);
    }
    ok
}

/// Whether `v[lo..hi]` equals `p`.
pub fn eq_at(v: &[char], lo: usize, hi: usize, p: &[char]) -> (b: bool)
    requires
        lo <= hi <= v@.len(),
    ensures
        b == (v@.subrange(lo as int, hi as int) == p@),
{
    if hi - lo != p.len() {
        return false;
    }
    matches_at(v, lo, p)
}

} // verus!

verus! {

/// An owned copy of a string slice.
pub fn owned(s: &str) -> (r: String)
    ensures
        r@ == s@,
{
    let mut r = String::new();
    push_str(&mut r, s);
    r
}

pub proof fn lemma_lines_len(s: Seq<char>)
    ensures
        lines(s).len() <= s.len(),
    decreases s.len(),
{
    if s.len() > 0 {
        lemma_until_bound(s, '\n');
        if until(s, '\n') < s.len() {
            lemma_lines_len(s.skip(until(s, '\n') + 1int));
        }
    }
}

} // verus!

verus! {

/// A non-empty run of non-whitespace characters.
pub open spec fn is_token(w: Seq<char>) -> bool {
    w.len() > 0 && forall|j: int| 0 <= j < w.len() ==> !is_ws(#[trigger] w[j])
}

/// Every element is a token.
pub open spec fn all_tokens(ws: Seq<Seq<char>>) -> bool {
    forall|i: int| 0 <= i < ws.len() ==> is_token(#[trigger] ws[i])
}

/// No newline character.
pub open spec fn no_nl(s: Seq<char>) -> bool {
    forall|j: int| 0 <= j < s.len() ==> #[trigger] s[j] != '\n'
}

/// Ends with a carriage return.
pub open spec fn ends_cr(s: Seq<char>) -> bool {
    s.len() > 0 && s.last() == '\r'
}

/// Lines, each followed by a newline.
pub open spec fn concat_lines(rs: Seq<Seq<char>>) -> Seq<char>
    decreases rs.len(),
{
    if rs.len() == 0 {
        seq![]
    } else {
        rs[0] + seq!['\n'] + concat_lines(rs.drop_first())
    }
}

pub proof fn lemma_words_tokens(s: Seq<char>)
    ensures
        all_tokens(words(s)),
    decreases s.len(),
{
    if s.len() == 0 {
    } else if is_ws(s[0]) {
        lemma_words_tokens(s.drop_first());
    } else {
        lemma_word_len_bound(s);
        let n = word_len(s) as int;
        lemma_words_tokens(s.skip(n));
        let w = s.take(n);
        assert(is_token(w));
        let ws = words(s);
        assert(ws == seq![w] + words(s.skip(n)));
        assert forall|i: int| 0 <= i < ws.len() implies is_token(#[trigger] ws[i]) by {
            if i > 0 {
                assert(ws[i] == words(s.skip(n))[i - 1]);
            }
        }
    }
}

pub proof fn lemma_words_join(ws: Seq<Seq<char>>)
    requires
        all_tokens(ws),
    ensures
        words(join(ws)) == ws,
    decreases ws.len(),
{
    if ws.len() == 0 {
    } else {
        let w = ws[0];
        assert(is_token(w));
        let rest = ws.drop_first();
        let j = join(ws);
        if ws.len() == 1 {
            assert(j == w);
            lemma_word_len(j, w.len() as int);
            assert(j.take(w.len() as int) =~= w);
            assert(j.skip(w.len() as int) =~= Seq::<char>::empty());
            assert(words(j) =~= seq![w] + words(Seq::<char>::empty()));
            assert(words(j) =~= ws);
        } else {
            assert forall|i: int| 0 <= i < rest.len() implies is_token(#[trigger] rest[i]) by {
                assert(rest[i] == ws[i + 1]);
            }
            lemma_words_join(rest);
            let jr = join(rest);
            assert(j == w + seq![' '] + jr);
            assert forall|k: int| 0 <= k < w.len() implies !is_ws(#[trigger] j[k]) by {
                assert(j[k] == w[k]);
            }
            assert(j[w.len() as int] == ' ');
            lemma_word_len(j, w.len() as int);
            assert(j.take(w.len() as int) =~= w);
            let after = j.skip(w.len() as int);
            assert(after =~= seq![' '] + jr);
            assert(after.drop_first() =~= jr);
            assert(words(after) == words(jr));
            assert(!is_ws(j[0]));
            assert(words(j) == seq![w] + words(after));
            assert(words(j) =~= ws);
        }
    }
}

pub proof fn lemma_join_split(ws: Seq<Seq<char>>, k: int)
    requires
        0 < k < ws.len(),
    ensures
        join(ws.take(k)) + seq![' '] + join(ws.skip(k)) == join(ws),
    decreases k,
{
    let rest = ws.drop_first();
    if k == 1 {
        assert(ws.take(1) =~= seq![ws[0]]);
        assert(ws.skip(1) =~= rest);
    } else {
        lemma_join_split(rest, k - 1);
        assert(rest.take(k - 1) =~= ws.take(k).drop_first());
        assert(rest.skip(k - 1) =~= ws.skip(k));
        assert(ws.take(k)[0] == ws[0]);
        assert(join(ws.take(k)) == ws[0] + seq![' '] + join(rest.take(k - 1)));
        assert(join(ws.take(k)) + seq![' '] + join(ws.skip(k)) =~= join(ws));
    }
}

pub proof fn lemma_join_shape(ws: Seq<Seq<char>>)
    requires
        all_tokens(ws),
        ws.len() > 0,
    ensures
        join(ws).len() > 0,
        join(ws)[0] == ws[0][0],
        !is_ws(join(ws).last()),
        forall|j: int| 0 <= j < join(ws).len() ==> #[trigger] join(ws)[j] == ' ' || !is_ws(join(ws)[j]),
    decreases ws.len(),
{
    let w = ws[0];
    assert(is_token(w));
    if ws.len() == 1 {
        assert(!is_ws(w[w.len() - 1]));
    } else {
        let rest = ws.drop_first();
        assert forall|i: int| 0 <= i < rest.len() implies is_token(#[trigger] rest[i]) by {
            assert(rest[i] == ws[i + 1]);
        }
        lemma_join_shape(rest);
        let j = join(ws);
        let jr = join(rest);
        assert(j == w + seq![' '] + jr);
        assert(j.last() == jr.last());
        assert forall|k: int| 0 <= k < j.len() implies #[trigger] j[k] == ' ' || !is_ws(j[k]) by {
            if k < w.len() {
                assert(j[k] == w[k]);
            } else if k > w.len() {
                assert(j[k] == jr[k - w.len() - 1]);
            }
        }
    }
}

pub proof fn lemma_trim_fixed(t: Seq<char>)
    requires
        t.len() == 0 || (!is_ws(t[0]) && !is_ws(t.last())),
    ensures
        trim_start(t) == t,
        trim(t) == t,
{
    if t.len() == 0 {
        assert(trim_start(t) =~= t);
        assert(trim(t) =~= t);
    } else {
        assert(lead_ws(t) == 0);
        assert(trim_start(t) =~= t);
        assert(trail_ws(t) == 0);
        assert(trim(t) =~= t);
    }
}

pub proof fn lemma_trim_shape(x: Seq<char>)
    ensures
        trim(x).len() > 0 ==> !is_ws(trim(x)[0]) && !is_ws(trim(x).last()),
        no_nl(x) ==> no_nl(trim(x)),
        no_nl(x) ==> no_nl(trim_start(x)),
{
    lemma_lead_ws_bound(x);
    let s = trim_start(x);
    lemma_trail_ws_bound(s);
    let t = trim(x);
    if t.len() > 0 {
        assert(t[0] == s[0]);
        assert(t.last() == s[s.len() - trail_ws(s) - 1]);
    }
    if no_nl(x) {
        assert forall|j: int| 0 <= j < s.len() implies #[trigger] s[j] != '\n' by {
            assert(s[j] == x[j + lead_ws(x)]);
        }
        assert forall|j: int| 0 <= j < t.len() implies #[trigger] t[j] != '\n' by {
            assert(t[j] == s[j]);
        }
    }
}

pub proof fn lemma_lines_no_nl(s: Seq<char>)
    ensures
        forall|i: int| 0 <= i < lines(s).len() ==> no_nl(#[trigger] lines(s)[i]),
    decreases s.len(),
{
    if s.len() > 0 {
        lemma_until_bound(s, '\n');
        let k = until(s, '\n') as int;
        let ls = lines(s);
        if k < s.len() {
            let rest = s.skip(k + 1);
            lemma_lines_no_nl(rest);
            let first = strip_cr(s.take(k));
            assert(no_nl(first)) by {
                assert forall|j: int| 0 <= j < first.len() implies #[trigger] first[j] != '\n' by {
                    assert(first[j] == s[j]);
                }
            }
            assert(ls == seq![first] + lines(rest));
            assert forall|i: int| 0 <= i < ls.len() implies no_nl(#[trigger] ls[i]) by {
                if i > 0 {
                    assert(ls[i] == lines(rest)[i - 1]);
                }
            }
        } else {
            assert(ls == seq![s]);
        }
    }
}

pub proof fn lemma_lines_concat(rs: Seq<Seq<char>>)
    requires
        forall|i: int| 0 <= i < rs.len() ==> no_nl(#[trigger] rs[i]) && !ends_cr(rs[i]),
    ensures
        lines(concat_lines(rs)) == rs,
    decreases rs.len(),
{
    if rs.len() > 0 {
        let r = rs[0];
        assert(no_nl(r) && !ends_cr(r));
        let rest = rs.drop_first();
        assert forall|i: int| 0 <= i < rest.len() implies no_nl(#[trigger] rest[i]) && !ends_cr(
            rest[i],
        ) by {
            assert(rest[i] == rs[i + 1]);
        }
        lemma_lines_concat(rest);
        let s = concat_lines(rs);
        let cr = concat_lines(rest);
        assert(s == r + seq!['\n'] + cr);
        assert forall|j: int| 0 <= j < r.len() implies #[trigger] s[j] != '\n' by {
            assert(s[j] == r[j]);
        }
        assert(s[r.len() as int] == '\n');
        lemma_until(s, '\n', r.len() as int);
        assert(s.take(r.len() as int) =~= r);
        assert(strip_cr(r) == r);
        assert(s.skip(r.len() + 1int) =~= cr);
        assert(lines(s) == seq![r] + lines(cr));
        assert(lines(s) =~= rs);
    }
}

} // verus!

verus! {

pub proof fn lemma_lines_concat_cr(rs: Seq<Seq<char>>)
    requires
        forall|i: int| 0 <= i < rs.len() ==> no_nl(#[trigger] rs[i]),
    ensures
        lines(concat_lines(rs)) == rs.map_values(|r: Seq<char>| strip_cr(r)),
    decreases rs.len(),
{
    if rs.len() == 0 {
        assert(rs.map_values(|r: Seq<char>| strip_cr(r)) =~= Seq::<Seq<char>>::empty());
    } else {
        let r = rs[0];
        assert(no_nl(r));
        let rest = rs.drop_first();
        assert forall|i: int| 0 <= i < rest.len() implies no_nl(#[trigger] rest[i]) by {
            assert(rest[i] == rs[i + 1]);
        }
        lemma_lines_concat_cr(rest);
        let s = concat_lines(rs);
        let cr = concat_lines(rest);
        assert(s == r + seq!['\n'] + cr);
        assert forall|j: int| 0 <= j < r.len() implies #[trigger] s[j] != '\n' by {
            assert(s[j] == r[j]);
        }
        assert(s[r.len() as int] == '\n');
        lemma_until(s, '\n', r.len() as int);
        assert(s.take(r.len() as int) =~= r);
        assert(s.skip(r.len() + 1int) =~= cr);
        assert(lines(s) == seq![strip_cr(r)] + lines(cr));
        assert(lines(s) =~= rs.map_values(|r: Seq<char>| strip_cr(r)));
    }
}

/// `trim(x)` is `x[a..b]` when `a..b` is the span between the leading and
/// the trailing whitespace.
pub proof fn lemma_trim_is(x: Seq<char>, a: int, b: int)
    requires
        0 <= a <= b <= x.len(),
        forall|j: int| 0 <= j < a ==> is_ws(#[trigger] x[j]),
        forall|j: int| b <= j < x.len() ==> is_ws(#[trigger] x[j]),
        a == b || (!is_ws(x[a]) && !is_ws(x[b - 1])),
    ensures
        trim(x) == x.subrange(a, b),
{
    if a == b {
        assert forall|j: int| 0 <= j < x.len() implies is_ws(#[trigger] x[j]) by {
            if j >= a {
                assert(j >= b);
            }
        }
        lemma_lead_ws(x, x.len() as int);
        assert(trim_start(x) =~= Seq::<char>::empty());
        assert(trail_ws(Seq::<char>::empty()) == 0);
        assert(trim(x) =~= x.subrange(a, b));
    } else {
        lemma_lead_ws(x, a);
        let s = x.skip(a);
        assert(trim_start(x) == s);
        let k = x.len() - b;
        assert forall|j: int| s.len() - k <= j < s.len() implies is_ws(#[trigger] s[j]) by {
            assert(s[j] == x[j + a]);
        }
        assert(s[s.len() - k - 1] == x[b - 1]);
        lemma_trail_ws(s, k);
        assert(trim(x) =~= x.subrange(a, b));
    }
}

/// Dropping a final carriage return does not change the trimmed text.
pub proof fn lemma_trim_strip_cr(x: Seq<char>)
    ensures
        trim(strip_cr(x)) == trim(x),
{
    if x.len() > 0 && x.last() == '\r' {
        let y = x.drop_last();
        lemma_lead_ws_bound(y);
        let a = lead_ws(y) as int;
        if a == y.len() {
            lemma_trim_is(y, a, a);
            assert forall|j: int| a <= j < x.len() implies is_ws(#[trigger] x[j]) by {
                assert(j == x.len() - 1);
            }
            assert forall|j: int| 0 <= j < a implies is_ws(#[trigger] x[j]) by {
                assert(x[j] == y[j]);
            }
            lemma_trim_is(x, a, a);
        } else {
            lemma_trail_ws_bound(y);
            let b = y.len() - trail_ws(y);
            assert(b > a) by {
                if b <= a {
                    assert(is_ws(y[a]));
                }
            }
            lemma_trim_is(y, a, b);
            assert forall|j: int| b <= j < x.len() implies is_ws(#[trigger] x[j]) by {
                if j < y.len() {
                    assert(x[j] == y[j]);
                }
            }
            assert forall|j: int| 0 <= j < a implies is_ws(#[trigger] x[j]) by {
                assert(x[j] == y[j]);
            }
            assert(x[a] == y[a]);
            assert(x[b - 1] == y[b - 1]);
            lemma_trim_is(x, a, b);
            assert(x.subrange(a, b) =~= y.subrange(a, b));
        }
    }
}

pub proof fn lemma_strip_cr_append(p: Seq<char>, v: Seq<char>)
    requires
        p.len() > 0,
        p.last() != '\r',
    ensures
        strip_cr(p + v) == p + strip_cr(v),
{
    if v.len() == 0 {
        assert(p + v =~= p);
        assert(p + strip_cr(v) =~= p);
    } else {
        assert((p + v).last() == v.last());
        if v.last() == '\r' {
            assert((p + v).drop_last() =~= p + v.drop_last());
        }
    }
}

/// No carriage return anywhere in the text.
pub open spec fn no_cr(s: Seq<char>) -> bool {
    forall|j: int| 0 <= j < s.len() ==> #[trigger] s[j] != '\r'
}

/// A text without carriage returns that is empty or ends with a newline is
/// its lines, each followed by a newline.
pub proof fn lemma_concat_lines_of_lines(s: Seq<char>)
    requires
        no_cr(s),
        s.len() == 0 || s.last() == '\n',
    ensures
        concat_lines(lines(s)) == s,
    decreases s.len(),
{
    if s.len() > 0 {
        lemma_until_bound(s, '\n');
        let k = until(s, '\n') as int;
        assert(k < s.len());
        let first = s.take(k);
        let rest = s.skip(k + 1);
        if k > 0 {
            assert(first.last() == s[k - 1]);
        }
        assert(strip_cr(first) == first);
        assert forall|j: int| 0 <= j < rest.len() implies #[trigger] rest[j] != '\r' by {
            assert(rest[j] == s[j + k + 1]);
        }
        if rest.len() > 0 {
            assert(rest.last() == s.last());
        }
        lemma_concat_lines_of_lines(rest);
        let ls = lines(s);
        assert(ls == seq![first] + lines(rest));
        assert(ls[0] == first);
        assert(ls.drop_first() =~= lines(rest));
        assert(concat_lines(ls) == first + seq!['\n'] + concat_lines(lines(rest)));
        assert(first + seq!['\n'] + rest =~= s);
    } else {
        assert(lines(s) =~= Seq::<Seq<char>>::empty());
    }
}

/// `concat_lines` from the `i`-th line on: that line, a newline, and the
/// lines after it.
pub proof fn lemma_concat_lines_skip(rs: Seq<Seq<char>>, i: int)
    requires
        0 <= i < rs.len(),
    ensures
        concat_lines(rs.skip(i)) == rs[i] + seq!['\n'] + concat_lines(rs.skip(i + 1)),
{
    let t = rs.skip(i);
    assert(t[0] == rs[i]);
    assert(t.drop_first() =~= rs.skip(i + 1));
}

/// The text of two runs of lines is the text of the first, then of the
/// second.
pub proof fn lemma_concat_lines_add(a: Seq<Seq<char>>, b: Seq<Seq<char>>)
    ensures
        concat_lines(a + b) == concat_lines(a) + concat_lines(b),
    decreases a.len(),
{
    if a.len() == 0 {
        assert(a + b =~= b);
        assert(concat_lines(a) + concat_lines(b) =~= concat_lines(b));
    } else {
        lemma_concat_lines_add(a.drop_first(), b);
        assert((a + b).drop_first() =~= a.drop_first() + b);
        assert((a + b)[0] == a[0]);
        assert(concat_lines(a + b) =~= concat_lines(a) + concat_lines(b));
    }
}

/// Leading whitespace does not change the words of a text.
pub proof fn lemma_words_trim_start(s: Seq<char>)
    ensures
        words(s) == words(trim_start(s)),
    decreases s.len(),
{
    if s.len() > 0 && is_ws(s[0]) {
        let d = s.drop_first();
        lemma_words_trim_start(d);
        lemma_lead_ws_bound(d);
        assert(s.skip(lead_ws(s) as int) =~= d.skip(lead_ws(d) as int));
    } else {
        assert(s.skip(0) =~= s);
    }
}

/// A leading whitespace character does not change `trim`.
pub proof fn lemma_trim_ws_cons(c: char, x: Seq<char>)
    requires
        is_ws(c),
    ensures
        trim_start(seq![c] + x) == trim_start(x),
        trim(seq![c] + x) == trim(x),
{
    let s = seq![c] + x;
    assert(s.drop_first() =~= x);
    lemma_lead_ws_bound(x);
    assert(s.skip(lead_ws(s) as int) =~= x.skip(lead_ws(x) as int));
}

} // verus!
