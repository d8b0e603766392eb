//! Character-level helpers for the header's line grammar: whitespace,
//! trimming, splitting into words, joining, and decimal numbers.
use vstd::prelude::*;

verus! {

/// `char::is_whitespace`: the code points with the Unicode `White_Space` property.
pub open spec fn is_ws(c: char) -> bool {
    ||| c == '\t'
    ||| c == '\n'
    ||| c == '\u{0B}'
    ||| c == '\u{0C}'
    ||| c == '\r'
    ||| c == ' '
    ||| c == '\u{85}'
    ||| c == '\u{A0}'
    ||| c == '\u{1680}'
    ||| ('\u{2000}' <= c && c <= '\u{200A}')
    ||| c == '\u{2028}'
    ||| c == '\u{2029}'
    ||| c == '\u{202F}'
    ||| c == '\u{205F}'
    ||| c == '\u{3000}'
}

/// Whether `c` is a whitespace character, as `char::is_whitespace` decides.
pub fn is_whitespace(c: char) -> (r: bool)
    ensures
        r == is_ws(c),
{
    c == '\t' || c == '\n' || c == '\u{0B}' || c == '\u{0C}' || c == '\r' || c == ' ' || c
        == '\u{85}' || c == '\u{A0}' || c == '\u{1680}' || ('\u{2000}' <= c && c <= '\u{200A}')
        || c == '\u{2028}' || c == '\u{2029}' || c == '\u{202F}' || c == '\u{205F}' || c
        == '\u{3000}'
}

/// The string without its leading whitespace.
pub open spec fn trim_start(s: Seq<char>) -> Seq<char>
    decreases s.len(),
{
    if s.len() > 0 && is_ws(s[0]) {
        trim_start(s.drop_first())
    } else {
        s
    }
}

/// The string without its trailing whitespace.
pub open spec fn trim_end(s: Seq<char>) -> Seq<char>
    decreases s.len(),
{
    if s.len() > 0 && is_ws(s.last()) {
        trim_end(s.drop_last())
    } else {
        s
    }
}

/// `str::trim`: the string without leading and trailing whitespace.
pub open spec fn trim(s: Seq<char>) -> Seq<char> {
    trim_end(trim_start(s))
}

/// `str::split_whitespace`: the maximal runs of non-whitespace characters, in order.
pub open spec fn split_ws(s: Seq<char>) -> Seq<Seq<char>>
    decreases s.len(),
{
    if s.len() == 0 {
        Seq::empty()
    } else {
        let t = split_ws(s.drop_last());
        let c = s.last();
        if is_ws(c) {
            t
        } else if s.len() >= 2 && !is_ws(s[s.len() - 2]) && t.len() > 0 {
            t.update(t.len() - 1, t.last().push(c))
        } else {
            t.push(seq![c])
        }
    }
}

/// The words joined by single spaces, as `[&str]::join(" ")` does.
pub open spec fn join_words(parts: Seq<Seq<char>>) -> Seq<char>
    decreases parts.len(),
{
    if parts.len() == 0 {
        Seq::empty()
    } else if parts.len() == 1 {
        parts[0]
    } else {
        join_words(parts.drop_last()) + seq![' '] + parts.last()
    }
}

pub open spec fn is_digit(c: char) -> bool {
    '0' <= c && c <= '9'
}

pub open spec fn digit_value(c: char) -> nat {
    if is_digit(c) {
        (c as int - '0' as int) as nat
    } else {
        0
    }
}

pub open spec fn all_digits(s: Seq<char>) -> bool {
    forall|i: int| 0 <= i < s.len() ==> #[trigger] is_digit(s[i])
}

/// The number that a string of decimal digits denotes.
pub open spec fn digits_value(s: Seq<char>) -> nat
    decreases s.len(),
{
    if s.len() == 0 {
        0
    } else {
        digits_value(s.drop_last()) * 10 + digit_value(s.last())
    }
}

/// `str::parse::<usize>`: an optional `+`, then one or more decimal digits,
/// denoting a value that fits in `usize`.
pub open spec fn spec_parse_usize(s: Seq<char>) -> Option<usize> {
    let d = if s.len() >= 2 && s[0] == '+' {
        s.drop_first()
    } else {
        s
    };
    if d.len() > 0 && all_digits(d) && digits_value(d) <= usize::MAX {
        Some(digits_value(d) as usize)
    } else {
        None
    }
}

/// Bounds of a word of `s`, by position in `split_ws(s)`.
pub open spec fn ranges_spell(s: Seq<char>, r: Seq<(usize, usize)>, words: Seq<Seq<char>>) -> bool {
    &&& r.len() == words.len()
    &&& forall|k: int|
        0 <= k < r.len() ==> {
            &&& (#[trigger] r[k]).0 <= r[k].1 <= s.len()
            &&& s.subrange(r[k].0 as int, r[k].1 as int) == words[k]
        }
}

/// A non-empty run of non-whitespace characters.
pub open spec fn is_word(w: Seq<char>) -> bool {
    w.len() > 0 && forall|i: int| 0 <= i < w.len() ==> !is_ws(#[trigger] w[i])
}

/// Text that reads back as itself once split into words and joined again:
/// no leading, trailing or doubled whitespace, and only spaces between words.
pub open spec fn is_canonical_text(s: Seq<char>) -> bool {
    join_words(split_ws(s)) == s
}

/// Splitting distributes over a concatenation whose left part is empty or
/// ends in whitespace.
pub proof fn lemma_split_concat(a: Seq<char>, b: Seq<char>)
    requires
        a.len() == 0 || is_ws(a.last()),
    ensures
        split_ws(a + b) == split_ws(a) + split_ws(b),
    decreases b.len(),
{
    if b.len() == 0 {
        assert(a + b =~= a);
        assert(split_ws(a) + split_ws(b) =~= split_ws(a));
    } else {
        let b2 = b.drop_last();
        let ab = a + b;
        lemma_split_concat(a, b2);
        assert(ab.drop_last() =~= a + b2);
        assert(ab.last() == b.last());
        let c = b.last();
        let t = split_ws(a + b2);
        let x = split_ws(a);
        let y = split_ws(b2);
        if is_ws(c) {
        } else {
            if b2.len() > 0 {
                assert(ab[ab.len() - 2] == b[b.len() - 2]);
            } else if a.len() > 0 {
                assert(ab[ab.len() - 2] == a.last());
            }
            if b.len() >= 2 && !is_ws(b[b.len() - 2]) && y.len() > 0 {
                assert(t.len() > 0);
                assert((x + y).update(t.len() - 1, t.last().push(c)) =~= x + y.update(
                    y.len() - 1,
                    y.last().push(c),
                ));
            } else {
                if ab.len() >= 2 && !is_ws(ab[ab.len() - 2]) {
                    assert(b2.len() > 0);
                    assert(b2.last() == b[b.len() - 2]);
                    assert(y.len() > 0);
                }
                assert((x + y).push(seq![c]) =~= x + y.push(seq![c]));
            }
        }
    }
}

/// A word splits into itself.
pub proof fn lemma_split_word(w: Seq<char>)
    requires
        is_word(w),
    ensures
        split_ws(w) == seq![w],
    decreases w.len(),
{
    let c = w.last();
    let w2 = w.drop_last();
    assert(!is_ws(w[w.len() - 1]));
    if w.len() == 1 {
        assert(w2 =~= Seq::<char>::empty());
        assert(split_ws(w2) =~= Seq::<Seq<char>>::empty());
        assert(seq![c] =~= w);
    } else {
        assert forall|i: int| 0 <= i < w2.len() implies !is_ws(#[trigger] w2[i]) by {
            assert(w2[i] == w[i]);
        }
        lemma_split_word(w2);
        assert(!is_ws(w[w.len() - 2]));
        assert(w2.push(c) =~= w);
    }
}

/// Trailing whitespace adds no word.
pub proof fn lemma_split_ws_tail(s: Seq<char>, c: char)
    requires
        is_ws(c),
    ensures
        split_ws(s.push(c)) == split_ws(s),
{
    assert(s.push(c).drop_last() =~= s);
}

/// Words joined by single spaces split back into the same words.
pub proof fn lemma_split_join(ws: Seq<Seq<char>>)
    requires
        forall|k: int| 0 <= k < ws.len() ==> is_word(#[trigger] ws[k]),
    ensures
        split_ws(join_words(ws)) == ws,
    decreases ws.len(),
{
    if ws.len() == 0 {
        assert(split_ws(Seq::<char>::empty()) =~= ws);
    } else if ws.len() == 1 {
        lemma_split_word(ws[0]);
        assert(seq![ws[0]] =~= ws);
    } else {
        let init = ws.drop_last();
        assert forall|k: int| 0 <= k < init.len() implies is_word(#[trigger] init[k]) by {
            assert(init[k] == ws[k]);
        }
        lemma_split_join(init);
        let a = join_words(init) + seq![' '];
        lemma_split_ws_tail(join_words(init), ' ');
        assert(join_words(init).push(' ') =~= a);
        lemma_split_concat(a, ws.last());
        assert(is_word(ws[ws.len() - 1]));
        lemma_split_word(ws.last());
        assert(init + seq![ws.last()] =~= ws);
    }
}

/// The text is what it starts with when it starts with a non-whitespace character.
pub proof fn lemma_trim_end_prefix(s: Seq<char>)
    ensures
        trim_end(s) == s.take(trim_end(s).len() as int),
        trim_end(s).len() <= s.len(),
    decreases s.len(),
{
    if s.len() > 0 && is_ws(s.last()) {
        lemma_trim_end_prefix(s.drop_last());
        let t = trim_end(s.drop_last());
        assert(s.drop_last().take(t.len() as int) =~= s.take(t.len() as int));
    } else {
        assert(s.take(s.len() as int) =~= s);
    }
}

/// A text that starts with a non-whitespace character trims to a prefix of itself.
pub proof fn lemma_trim_starts_like(s: Seq<char>, w: Seq<char>)
    requires
        s.len() > 0,
        !is_ws(s[0]),
        trim(s) == w,
    ensures
        w.len() <= s.len(),
        forall|i: int| 0 <= i < w.len() ==> w[i] == #[trigger] s[i],
{
    assert(trim_start(s) == s);
    lemma_trim_end_prefix(s);
    assert forall|i: int| 0 <= i < w.len() implies w[i] == #[trigger] s[i] by {
        assert(s.take(w.len() as int)[i] == s[i]);
    }
}

/// The chars of a string slice, in order.
pub fn chars_of(s: &str) -> (res: Vec<char>)
    ensures
        res@ == s@,
{
    let mut res: Vec<char> = Vec::new();
    for c in it: s.chars()
        invariant
            res@ == it.seq().take(it.index() as int),
            it.seq() == s@,
    {
        res.push(c);
    }
    res
}

/// Whether `s[a..b]` spells `lit`.
pub fn range_eq(s: &Vec<char>, a: usize, b: usize, lit: &[char]) -> (r: bool)
    requires
        a <= b <= s.len(),
    ensures
        r == (s@.subrange(a as int, b as int) == lit@),
{
    if b - a != lit.len() {
        return false;
    }
    let mut i: usize = 0;
    while i < lit.len()
        invariant
            a <= b <= s.len(),
            b - a == lit@.len(),
            i <= lit.len(),
            forall|k: int| 0 <= k < i ==> s@[a + k] == lit@[k],
        decreases lit.len() - i,
    {
        if s[a + i] != lit[i] {
            assert(s@.subrange(a as int, b as int)[i as int] != lit@[i as int]);
            return false;
        }
        i = i + 1;
    }
    assert(s@.subrange(a as int, b as int) =~= lit@);
    true
}

/// Bounds `(a, b)` such that `s[a..b]` is `s` trimmed.
pub fn trim_bounds(s: &Vec<char>) -> (r: (usize, usize))
    ensures
        r.0 <= r.1 <= s.len(),
        s@.subrange(r.0 as int, r.1 as int) == trim(s@),
{
    let n = s.len();
    let mut i: usize = 0;
    assert(s@.subrange(0, n as int) =~= s@);
    while i < n && is_whitespace(s[i])
        invariant
            n == s.len(),
            i <= n,
            trim_start(s@) == trim_start(s@.subrange(i as int, n as int)),
        decreases n - i,
    {
        assert(s@.subrange(i as int, n as int).drop_first() =~= s@.subrange(i + 1, n as int));
        i = i + 1;
    }
    let mut j: usize = n;
    while j > i && is_whitespace(s[j - 1])
        invariant
            n == s.len(),
            i <= j <= n,
            trim_start(s@) == s@.subrange(i as int, n as int),
            trim_end(s@.subrange(i as int, n as int)) == trim_end(s@.subrange(i as int, j as int)),
        decreases j - i,
    {
        assert(s@.subrange(i as int, j as int).drop_last() =~= s@.subrange(i as int, j - 1));
        j = j - 1;
    }
    (i, j)
}

/// The bounds of the words of `s`, as `str::split_whitespace` finds them.
pub fn word_ranges(s: &Vec<char>) -> (r: Vec<(usize, usize)>)
    ensures
        ranges_spell(s@, r@, split_ws(s@)),
{
    let n = s.len();
    let mut r: Vec<(usize, usize)> = Vec::new();
    let mut in_word = false;
    let mut i: usize = 0;
    assert(s@.take(0) =~= Seq::<char>::empty());
    while i < n
        invariant
            n == s.len(),
            i <= n,
            ranges_spell(s@, r@, split_ws(s@.take(i as int))),
            in_word == (i > 0 && !is_ws(s@[i - 1])),
            in_word ==> r@.len() > 0 && r@.last().1 == i,
        decreases n - i,
    {
        let c = s[i];
        let ghost pre = s@.take(i as int);
        let ghost cur = s@.take(i + 1);
        assert(cur.drop_last() =~= pre);
        assert(cur.last() == c);
        let ghost t = split_ws(pre);
        if is_whitespace(c) {
            assert(split_ws(cur) == t);
            in_word = false;
        } else if in_word {
            let last = r.len() - 1;
            let start = r[last].0;
            assert(cur[cur.len() - 2] == s@[i - 1]);
            assert(t.len() > 0);
            assert(split_ws(cur) == t.update(t.len() - 1, t.last().push(c)));
            r.set(last, (start, i + 1));
            assert(s@.subrange(start as int, i + 1) =~= s@.subrange(start as int, i as int).push(
                c,
            ));
            assert forall|k: int| 0 <= k < r@.len() implies {
                &&& (#[trigger] r@[k]).0 <= r@[k].1 <= s@.len()
                &&& s@.subrange(r@[k].0 as int, r@[k].1 as int) == split_ws(cur)[k]
            } by {
                if k < last {
                } else {
                }
            }
        } else {
            if i >= 1 {
                assert(cur[cur.len() - 2] == s@[i - 1]);
            }
            assert(split_ws(cur) == t.push(seq![c]));
            r.push((i, i + 1));
            assert(s@.subrange(i as int, i + 1) =~= seq![c]);
            in_word = true;
        }
        i = i + 1;
    }
    assert(s@.take(n as int) =~= s@);
    r
}

proof fn lemma_digits_value_prefix(s: Seq<char>, k: int)
    requires
        0 <= k <= s.len(),
    ensures
        digits_value(s.take(k)) <= digits_value(s),
    decreases s.len() - k,
{
    if k < s.len() {
        lemma_digits_value_prefix(s, k + 1);
        assert(s.take(k + 1).drop_last() =~= s.take(k));
    } else {
        assert(s.take(k) =~= s);
    }
}

/// The value of the decimal number `s[a..b]` (with an optional leading `+`),
/// as `str::parse::<usize>` reads it.
pub fn parse_usize(s: &Vec<char>, a: usize, b: usize) -> (r: Option<usize>)
    requires
        a <= b <= s.len(),
    ensures
        r == spec_parse_usize(s@.subrange(a as int, b as int)),
{
    let ghost w = s@.subrange(a as int, b as int);
    let mut start = a;
    if b - a >= 2 && s[a] == '+' {
        start = a + 1;
    }
    let ghost d = s@.subrange(start as int, b as int);
    assert(d =~= (if w.len() >= 2 && w[0] == '+' {
        w.drop_first()
    } else {
        w
    }));
    if start == b {
        return None;
    }
    let mut acc: usize = 0;
    let mut i: usize = start;
    assert(d.take(0) =~= Seq::<char>::empty());
    while i < b
        invariant
            a <= start <= i <= b <= s.len(),
            d == s@.subrange(start as int, b as int),
            w == s@.subrange(a as int, b as int),
            d == (if w.len() >= 2 && w[0] == '+' {
                w.drop_first()
            } else {
                w
            }),
            all_digits(d.take(i - start)),
            acc == digits_value(d.take(i - start)),
        decreases b - i,
    {
        let c = s[i];
        assert(d.take(i - start + 1).drop_last() =~= d.take(i - start));
        assert(d.take(i - start + 1).last() == c);
        if !('0' <= c && c <= '9') {
            assert(!is_digit(d[i - start]));
            return None;
        }
        let dig = (c as u32 - '0' as u32) as usize;
        assert(dig == digit_value(c));
        if acc > (usize::MAX - dig) / 10 {
            assert(digits_value(d.take(i - start + 1)) > usize::MAX) by (nonlinear_arith)
                requires
                    acc > (usize::MAX - dig) / 10,
                    digits_value(d.take(i - start + 1)) == acc * 10 + dig,
                    dig <= 9,
            ;
            proof {
                lemma_digits_value_prefix(d, i - start + 1);
            }
            return None;
        }
        acc = acc * 10 + dig;
        i = i + 1;
        assert forall|k: int| 0 <= k < d.take(i - start).len() implies #[trigger] is_digit(
            d.take(i - start)[k],
        ) by {
            if k < i - start - 1 {
                assert(d.take(i - start)[k] == d.take(i - start - 1)[k]);
            }
        }
    }
    assert(d.take(b - start) =~= d);
    Some(acc)
}

/// Header words are split at ASCII whitespace, as `str::split_whitespace`
/// splits them, and at no other ASCII character: between two words of
/// printable, non-space ASCII characters, a character `c` below U+0080
/// separates them exactly when it is a space, a tab, a line feed, a vertical
/// tab, a form feed or a carriage return; any other keeps one word.
pub proof fn lemma_ascii_word_separators(w1: Seq<char>, c: char, w2: Seq<char>)
    requires
        w1.len() > 0,
        w2.len() > 0,
        forall|i: int| 0 <= i < w1.len() ==> '!' <= #[trigger] w1[i] <= '~',
        forall|i: int| 0 <= i < w2.len() ==> '!' <= #[trigger] w2[i] <= '~',
        c < '\u{80}',
    ensures
        split_ws(w1 + seq![c] + w2) == (if c == ' ' || ('\t' <= c && c <= '\r') {
            seq![w1, w2]
        } else {
            seq![w1 + seq![c] + w2]
        }),
{
    assert(is_word(w1));
    assert(is_word(w2));
    lemma_split_word(w1);
    lemma_split_word(w2);
    if c == ' ' || ('\t' <= c && c <= '\r') {
        assert(is_ws(c));
        let a = w1.push(c);
        assert(w1 + seq![c] + w2 =~= a + w2);
        lemma_split_concat(a, w2);
        lemma_split_ws_tail(w1, c);
        assert(seq![w1] + seq![w2] =~= seq![w1, w2]);
    } else {
        assert(!is_ws(c));
        let w = w1 + seq![c] + w2;
        assert forall|i: int| 0 <= i < w.len() implies !is_ws(#[trigger] w[i]) by {
            if i < w1.len() {
                assert(w[i] == w1[i]);
            } else if i > w1.len() {
                assert(w[i] == w2[i - w1.len() - 1]);
            }
        }
        lemma_split_word(w);
    }
}

/// Whitespace around a line is trimmed as `str::trim` trims it: leading and
/// trailing runs of ASCII whitespace (space, tab, line feed, vertical tab,
/// form feed, carriage return) go, and a word of printable ASCII stays whole.
pub proof fn lemma_trim_ascii(p: Seq<char>, w: Seq<char>, q: Seq<char>)
    requires
        w.len() > 0,
        forall|i: int| 0 <= i < w.len() ==> '!' <= #[trigger] w[i] <= '~',
        forall|i: int| 0 <= i < p.len() ==> #[trigger] p[i] == ' ' || ('\t' <= p[i] && p[i] <= '\r'),
        forall|i: int| 0 <= i < q.len() ==> #[trigger] q[i] == ' ' || ('\t' <= q[i] && q[i] <= '\r'),
    ensures
        trim(p + w + q) == w,
    decreases p.len() + q.len(),
{
    if p.len() > 0 {
        let p2 = p.drop_first();
        assert(is_ws(p[0]));
        assert((p + w + q).drop_first() =~= p2 + w + q);
        assert((p + w + q)[0] == p[0]);
        assert forall|i: int| 0 <= i < p2.len() implies #[trigger] p2[i] == ' ' || ('\t' <= p2[i] && p2[i] <= '\r') by {
            assert(p2[i] == p[i + 1]);
        }
        lemma_trim_ascii(p2, w, q);
        assert(trim_start(p + w + q) == trim_start(p2 + w + q));
    } else if q.len() > 0 {
        let q2 = q.drop_last();
        assert(is_ws(q.last()));
        assert(p + w + q =~= w + q);
        assert((w + q).drop_last() =~= w + q2);
        assert forall|i: int| 0 <= i < q2.len() implies #[trigger] q2[i] == ' ' || ('\t' <= q2[i] && q2[i] <= '\r') by {
            assert(q2[i] == q[i]);
        }
        lemma_trim_ascii(p, w, q2);
        assert(p + w + q2 =~= w + q2);
        assert(!is_ws(w[0]));
        assert((w + q)[0] == w[0]);
        assert(trim_start(w + q) == w + q);
        assert(trim_start(w + q2) == w + q2);
        assert(trim_end(w + q) == trim_end(w + q2));
    } else {
        assert(p + w + q =~= w);
        assert(!is_ws(w[0]));
        assert(!is_ws(w.last()));
    }
}

} // verus!
