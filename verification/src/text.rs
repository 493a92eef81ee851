//! Character-level text handling: the pieces of `str`'s API that the
//! nmcli/iw/ip readers need, each stated over `Seq<char>`.

use vstd::prelude::*;

verus! {

/// `char::is_whitespace`: the Unicode `White_Space` property.
pub open spec fn whitespace(c: char) -> bool {
    ||| ('\u{9}' <= c && c <= '\u{d}')
    ||| c == ' '
    ||| c == '\u{85}'
    ||| c == '\u{a0}'
    ||| c == '\u{1680}'
    ||| ('\u{2000}' <= c && c <= '\u{200a}')
    ||| c == '\u{2028}'
    ||| c == '\u{2029}'
    ||| c == '\u{202f}'
    ||| c == '\u{205f}'
    ||| c == '\u{3000}'
}

pub fn is_whitespace(c: char) -> (r: bool)
    ensures
        r == whitespace(c),
{
    ('\u{9}' <= c && c <= '\u{d}') || c == ' ' || c == '\u{85}' || c == '\u{a0}' || c
        == '\u{1680}' || ('\u{2000}' <= c && c <= '\u{200a}') || c == '\u{2028}' || c
        == '\u{2029}' || c == '\u{202f}' || c == '\u{205f}' || c == '\u{3000}'
}

/// `s` with its leading whitespace removed.
pub open spec fn trim_start(s: Seq<char>) -> Seq<char>
    decreases s.len(),
{
    if s.len() > 0 && whitespace(s[0]) {
        trim_start(s.drop_first())
    } else {
        s
    }
}

/// `s` with its trailing whitespace removed.
pub open spec fn trim_end(s: Seq<char>) -> Seq<char>
    decreases s.len(),
{
    if s.len() > 0 && whitespace(s.last()) {
        trim_end(s.drop_last())
    } else {
        s
    }
}

/// `str::trim`.
pub open spec fn trim(s: Seq<char>) -> Seq<char> {
    trim_end(trim_start(s))
}

/// Length of the leading run of characters before the first `'\n'`.
pub open spec fn line_len(s: Seq<char>) -> nat
    decreases s.len(),
{
    if s.len() == 0 || s[0] == '\n' {
        0
    } else {
        1 + line_len(s.drop_first())
    }
}

/// A line's text without the `'\r'` of a `"\r\n"` ending.
pub open spec fn strip_cr(s: Seq<char>) -> Seq<char> {
    if s.len() > 0 && s.last() == '\r' {
        s.drop_last()
    } else {
        s
    }
}

pub proof fn lemma_line_len_bound(s: Seq<char>)
    ensures
        line_len(s) <= s.len(),
        line_len(s) < s.len() ==> s[line_len(s) as int] == '\n',
        forall|j: int| 0 <= j < line_len(s) ==> #[trigger] s[j] != '\n',
    decreases s.len(),
{
    if s.len() > 0 && s[0] != '\n' {
        lemma_line_len_bound(s.drop_first());
        assert forall|j: int| 0 <= j < line_len(s) implies #[trigger] s[j] != '\n' by {
            if j > 0 {
                assert(s[j] == s.drop_first()[j - 1]);
            }
        }
    }
}

pub proof fn lemma_word_len_bound(s: Seq<char>)
    ensures
        word_len(s) <= s.len(),
        word_len(s) < s.len() ==> whitespace(s[word_len(s) as int]),
        forall|j: int| 0 <= j < word_len(s) ==> !whitespace(#[trigger] s[j]),
    decreases s.len(),
{
    if s.len() > 0 && !whitespace(s[0]) {
        lemma_word_len_bound(s.drop_first());
        assert forall|j: int| 0 <= j < word_len(s) implies !whitespace(#[trigger] s[j]) by {
            if j > 0 {
                assert(s[j] == s.drop_first()[j - 1]);
            }
        }
    }
}

pub proof fn lemma_trim_start_shape(s: Seq<char>)
    ensures
        trim_start(s).len() <= s.len(),
        trim_start(s).len() > 0 ==> !whitespace(trim_start(s)[0]),
        trim_start(s).len() > 0 ==> word_len(trim_start(s)) > 0,
        trim_start(s) == s.skip(s.len() - trim_start(s).len()),
    decreases s.len(),
{
    if s.len() > 0 && whitespace(s[0]) {
        lemma_trim_start_shape(s.drop_first());
        assert(s.drop_first().skip(s.drop_first().len() - trim_start(s).len()) =~= s.skip(
            s.len() - trim_start(s).len(),
        ));
    } else {
        assert(s.skip(0) =~= s);
    }
}

/// `str::lines`: split at `"\n"` or `"\r\n"`; a final line ending is optional.
pub open spec fn lines(s: Seq<char>) -> Seq<Seq<char>>
    decreases s.len(),
{
    if s.len() == 0 {
        seq![]
    } else {
        let k = line_len(s);
        proof {
            lemma_line_len_bound(s);
        }
        if k == s.len() {
            seq![s]
        } else {
            seq![strip_cr(s.take(k as int))] + lines(s.skip(k + 1int))
        }
    }
}

/// Length of the leading run of non-whitespace characters.
pub open spec fn word_len(s: Seq<char>) -> nat
    decreases s.len(),
{
    if s.len() == 0 || whitespace(s[0]) {
        0
    } else {
        1 + word_len(s.drop_first())
    }
}

/// `str::split_whitespace`: the maximal runs of non-whitespace characters.
pub open spec fn words(s: Seq<char>) -> Seq<Seq<char>>
    decreases s.len(),
{
    let t = trim_start(s);
    if t.len() == 0 {
        seq![]
    } else {
        let k = word_len(t);
        proof {
            lemma_trim_start_shape(s);
            lemma_word_len_bound(t);
        }
        seq![t.take(k as int)] + words(t.skip(k as int))
    }
}

/// `split_whitespace().next()`.
pub open spec fn first_word(s: Seq<char>) -> Option<Seq<char>> {
    if words(s).len() > 0 {
        Some(words(s)[0])
    } else {
        None
    }
}

/// `str::contains` with a string pattern.
pub open spec fn contains(s: Seq<char>, pat: Seq<char>) -> bool {
    exists|i: int| 0 <= i && i + pat.len() <= s.len() && #[trigger] s.subrange(i, i + pat.len()) == pat
}

/// `str::starts_with` with a string pattern.
pub open spec fn starts_with(s: Seq<char>, pat: Seq<char>) -> bool {
    pat.len() <= s.len() && s.take(pat.len() as int) == pat
}

/// `str::strip_prefix` with a string pattern.
pub open spec fn strip_prefix(s: Seq<char>, pat: Seq<char>) -> Option<Seq<char>> {
    if starts_with(s, pat) {
        Some(s.skip(pat.len() as int))
    } else {
        None
    }
}

/// `[..].join(sep)` for a one-character separator.
pub open spec fn join(parts: Seq<Seq<char>>, sep: char) -> Seq<char>
    decreases parts.len(),
{
    if parts.len() == 0 {
        seq![]
    } else if parts.len() == 1 {
        parts[0]
    } else {
        join(parts.drop_last(), sep) + seq![sep] + parts.last()
    }
}

/// The views of a sequence of strings.
pub open spec fn string_views(v: Seq<String>) -> Seq<Seq<char>> {
    v.map_values(|s: String| s@)
}

/// The views of a sequence of character vectors.
pub open spec fn views(v: Seq<Vec<char>>) -> Seq<Seq<char>> {
    v.map_values(|x: Vec<char>| x@)
}

/// The characters of a string slice, in order.
pub fn chars_of(s: &str) -> (v: Vec<char>)
    ensures
        v@ == s@,
{
    let mut v: Vec<char> = Vec::new();
    for c in it: s.chars()
        invariant
            v@ == it.seq().take(it.index() as int),
            it.seq() == s@,
    {
        v.push(c);
    }
    v
}

/// Every character is ASCII.
pub open spec fn is_ascii_text(s: Seq<char>) -> bool {
    forall|i: int| 0 <= i < s.len() ==> (#[trigger] s[i] as int) < 128
}

/// ASCII text with the letters a-z raised to A-Z and everything else kept.
pub open spec fn ascii_upper(s: Seq<char>) -> Seq<char> {
    s.map_values(|c: char| if 'a' <= c && c <= 'z' { ((c as int) - 32) as char } else { c })
}

/// What `str::to_uppercase` gives for `s`: Unicode's uppercase mapping.
pub uninterp spec fn uppercase_of(s: Seq<char>) -> Seq<char>;

/// `str::to_uppercase`. Claimed of it: its result is `uppercase_of` of the
/// argument, and on ASCII text (where Unicode's mapping is the ASCII one) it
/// raises the letters a-z and keeps every other character.
#[verifier::external_body]
pub(crate) fn uppercase(s: &str) -> (r: String)
    ensures
        r@ == uppercase_of(s@),
        is_ascii_text(s@) ==> r@ == ascii_upper(s@),
{
    s.to_uppercase()
}

/// `String: FromIterator<char>`.
#[verifier::external_body]
pub(crate) fn string_from_chars(v: &[char]) -> (s: String)
    ensures
        s@ == v@,
{
    v.iter().collect()
}

/// The characters of `s` from `start` up to `end`.
pub fn copy_range(s: &[char], start: usize, end: usize) -> (r: Vec<char>)
    requires
        start <= end <= s@.len(),
    ensures
        r@ == s@.subrange(start as int, end as int),
{
    let mut r: Vec<char> = Vec::new();
    let mut i = start;
    while i < end
        invariant
            start <= i <= end <= s@.len(),
            r@ == s@.subrange(start as int, i as int),
        decreases end - i,
    {
        r.push(s[i]);
        i = i + 1;
    }
    r
}

/// Character-by-character equality.
pub fn same(a: &[char], b: &[char]) -> (r: bool)
    ensures
        r == (a@ == b@),
{
    if a.len() != b.len() {
        return false;
    }
    let mut i: usize = 0;
    while i < a.len()
        invariant
            a@.len() == b@.len(),
            i <= a@.len(),
            forall|j: int| 0 <= j < i ==> a@[j] == b@[j],
        decreases a@.len() - i,
    {
        if a[i] != b[i] {
            return false;
        }
        i = i + 1;
    }
    assert(a@ =~= b@);
    true
}

/// Equality with a string literal.
pub fn is(a: &[char], lit: &str) -> (r: bool)
    ensures
        r == (a@ == lit@),
{
    let l = chars_of(lit);
    same(a, l.as_slice())
}

proof fn lemma_trim_start(s: Seq<char>, a: int)
    requires
        0 <= a <= s.len(),
        forall|j: int| 0 <= j < a ==> whitespace(#[trigger] s[j]),
        a == s.len() || !whitespace(s[a]),
    ensures
        trim_start(s) == s.skip(a),
    decreases a,
{
    if a == 0 {
        assert(s.skip(0) =~= s);
    } else {
        assert(whitespace(s[0]));
        lemma_trim_start(s.drop_first(), a - 1);
        assert(s.drop_first().skip(a - 1) =~= s.skip(a));
    }
}

proof fn lemma_trim_end(s: Seq<char>, b: int)
    requires
        0 <= b <= s.len(),
        forall|j: int| b <= j < s.len() ==> whitespace(#[trigger] s[j]),
        b == 0 || !whitespace(s[b - 1]),
    ensures
        trim_end(s) == s.take(b),
    decreases s.len() - b,
{
    if b == s.len() {
        assert(s.take(b) =~= s);
    } else {
        assert(whitespace(s.last()));
        lemma_trim_end(s.drop_last(), b);
        assert(s.drop_last().take(b) =~= s.take(b));
    }
}

/// Number of leading whitespace characters.
fn leading_space(s: &[char]) -> (a: usize)
    ensures
        a <= s@.len(),
        trim_start(s@) == s@.skip(a as int),
{
    let mut a: usize = 0;
    while a < s.len() && is_whitespace(s[a])
        invariant
            a <= s@.len(),
            forall|j: int| 0 <= j < a ==> whitespace(#[trigger] s@[j]),
        decreases s@.len() - a,
    {
        a = a + 1;
    }
    proof {
        lemma_trim_start(s@, a as int);
    }
    a
}

/// `str::trim`.
pub fn trim_chars(s: &[char]) -> (r: Vec<char>)
    ensures
        r@ == trim(s@),
{
    let a = leading_space(s);
    let mut b: usize = s.len();
    while b > a && is_whitespace(s[b - 1])
        invariant
            a <= b <= s@.len(),
            forall|j: int| b <= j < s@.len() ==> whitespace(#[trigger] s@[j]),
        decreases b,
    {
        b = b - 1;
    }
    proof {
        let t = s@.skip(a as int);
        assert forall|j: int| b - a <= j < t.len() implies whitespace(#[trigger] t[j]) by {
            assert(t[j] == s@[j + a]);
        }
        if b > a {
            assert(t[b - a - 1] == s@[b - 1]);
        }
        lemma_trim_end(t, b - a);
        assert(t.take(b - a) =~= s@.subrange(a as int, b as int));
    }
    copy_range(s, a, b)
}

proof fn lemma_line_len(s: Seq<char>, k: int)
    requires
        0 <= k <= s.len(),
        forall|j: int| 0 <= j < k ==> #[trigger] s[j] != '\n',
        k == s.len() || s[k] == '\n',
    ensures
        line_len(s) == k,
    decreases k,
{
    if k > 0 {
        lemma_line_len(s.drop_first(), k - 1);
    }
}

/// `str::lines`.
pub fn split_lines(s: &[char]) -> (r: Vec<Vec<char>>)
    ensures
        views(r@) == lines(s@),
{
    let mut r: Vec<Vec<char>> = Vec::new();
    let mut start: usize = 0;
    let mut i: usize = 0;
    assert(s@.skip(0) =~= s@);
    while i < s.len()
        invariant
            start <= i <= s@.len(),
            forall|j: int| start <= j < i ==> #[trigger] s@[j] != '\n',
            views(r@) + lines(s@.skip(start as int)) == lines(s@),
        decreases s@.len() - i,
    {
        if s[i] == '\n' {
            let line = copy_range(s, start, i);
            let mut piece = line;
            if piece.len() > 0 && piece[piece.len() - 1] == '\r' {
                piece.pop();
            }
            proof {
                let t = s@.skip(start as int);
                assert forall|j: int| 0 <= j < i - start implies #[trigger] t[j] != '\n' by {
                    assert(t[j] == s@[j + start]);
                }
                assert(t[i - start] == s@[i as int]);
                lemma_line_len(t, i - start);
                assert(t.take(i - start) =~= s@.subrange(start as int, i as int));
                assert(t.skip(i - start + 1) =~= s@.skip(i + 1));
                assert(piece@ == strip_cr(t.take(i - start)));
                assert(views(r@.push(piece)) =~= views(r@).push(piece@));
            }
            r.push(piece);
            start = i + 1;
        }
        i = i + 1;
    }
    if start < s.len() {
        let last = copy_range(s, start, s.len());
        proof {
            let t = s@.skip(start as int);
            assert forall|j: int| 0 <= j < t.len() implies #[trigger] t[j] != '\n' by {
                assert(t[j] == s@[j + start]);
            }
            lemma_line_len(t, t.len() as int);
            assert(last@ =~= t);
            assert(views(r@.push(last)) =~= views(r@).push(last@));
        }
        r.push(last);
    } else {
        proof {
            assert(s@.skip(start as int).len() == 0);
            assert(views(r@) + lines(s@.skip(start as int)) =~= views(r@));
        }
    }
    r
}

proof fn lemma_word_len(s: Seq<char>, k: int)
    requires
        0 <= k <= s.len(),
        forall|j: int| 0 <= j < k ==> !whitespace(#[trigger] s[j]),
        k == s.len() || whitespace(s[k]),
    ensures
        word_len(s) == k,
    decreases k,
{
    if k > 0 {
        lemma_word_len(s.drop_first(), k - 1);
    }
}

/// `str::split_whitespace`.
pub fn split_words(s: &[char]) -> (r: Vec<Vec<char>>)
    ensures
        views(r@) == words(s@),
{
    let mut r: Vec<Vec<char>> = Vec::new();
    let mut i: usize = 0;
    assert(s@.skip(0) =~= s@);
    while i < s.len()
        invariant
            i <= s@.len(),
            views(r@) + words(s@.skip(i as int)) == words(s@),
        decreases s@.len() - i,
    {
        let mut a = i;
        while a < s.len() && is_whitespace(s[a])
            invariant
                i <= a <= s@.len(),
                forall|j: int| i <= j < a ==> whitespace(#[trigger] s@[j]),
            decreases s@.len() - a,
        {
            a = a + 1;
        }
        let mut b = a;
        while b < s.len() && !is_whitespace(s[b])
            invariant
                a <= b <= s@.len(),
                forall|j: int| a <= j < b ==> !whitespace(#[trigger] s@[j]),
            decreases s@.len() - b,
        {
            b = b + 1;
        }
        proof {
            let u = s@.skip(i as int);
            assert forall|j: int| 0 <= j < a - i implies whitespace(#[trigger] u[j]) by {
                assert(u[j] == s@[j + i]);
            }
            if a < s.len() {
                assert(u[a - i] == s@[a as int]);
            }
            lemma_trim_start(u, a - i);
            assert(u.skip(a - i) =~= s@.skip(a as int));
        }
        if a == s.len() {
            proof {
                assert(words(s@.skip(i as int)) =~= Seq::<Seq<char>>::empty());
                assert(views(r@) + words(s@.skip(i as int)) =~= views(r@));
                assert(words(s@.skip(a as int)) =~= Seq::<Seq<char>>::empty());
            }
            i = a;
        } else {
            let w = copy_range(s, a, b);
            proof {
                let t = s@.skip(a as int);
                assert forall|j: int| 0 <= j < b - a implies !whitespace(#[trigger] t[j]) by {
                    assert(t[j] == s@[j + a]);
                }
                if b < s.len() {
                    assert(t[b - a] == s@[b as int]);
                }
                lemma_word_len(t, b - a);
                assert(t.take(b - a) =~= w@);
                assert(t.skip(b - a) =~= s@.skip(b as int));
                assert(views(r@.push(w)) =~= views(r@).push(w@));
            }
            r.push(w);
            i = b;
        }
    }
    proof {
        assert(words(s@.skip(i as int)) =~= Seq::<Seq<char>>::empty());
        assert(views(r@) + words(s@.skip(i as int)) =~= views(r@));
    }
    r
}

/// `split_whitespace().next()`.
pub fn first_word_of(s: &[char]) -> (r: Option<Vec<char>>)
    ensures
        match r {
            Some(w) => first_word(s@) == Some(w@),
            None => first_word(s@) is None,
        },
{
    let ws = split_words(s);
    if ws.len() == 0 {
        None
    } else {
        let w = copy_range(ws[0].as_slice(), 0, ws[0].len());
        assert(w@ =~= views(ws@)[0]);
        Some(w)
    }
}

/// Whether `pat` occurs in `s` at position `i`.
fn occurs_at(s: &[char], pat: &[char], i: usize) -> (r: bool)
    requires
        i + pat@.len() <= s@.len(),
    ensures
        r == (s@.subrange(i as int, i + pat@.len()) == pat@),
{
    let n = s.len();
    assert(n == s@.len());
    let mut k: usize = 0;
    while k < pat.len()
        invariant
            i + pat@.len() <= s@.len(),
            s@.len() <= usize::MAX,
            k <= pat@.len(),
            forall|j: int| 0 <= j < k ==> s@[i + j] == pat@[j],
        decreases pat@.len() - k,
    {
        if s[i + k] != pat[k] {
            assert(s@.subrange(i as int, i + pat@.len())[k as int] != pat@[k as int]);
            return false;
        }
        k = k + 1;
    }
    assert(s@.subrange(i as int, i + pat@.len()) =~= pat@);
    true
}

/// The first position at or after `k` where `pat` occurs in `s`.
pub open spec fn search(s: Seq<char>, pat: Seq<char>, k: int) -> Option<int>
    decreases s.len() - k,
{
    if k < 0 || k + pat.len() > s.len() {
        None
    } else if pat.len() == 0 || s.subrange(k, k + pat.len()) == pat {
        Some(k)
    } else {
        search(s, pat, k + 1)
    }
}

proof fn lemma_search_bounds(s: Seq<char>, pat: Seq<char>, k: int)
    ensures
        search(s, pat, k) matches Some(i) ==> k <= i && i + pat.len() <= s.len(),
    decreases s.len() - k,
{
    if k >= 0 && k + pat.len() <= s.len() && !(pat.len() == 0 || s.subrange(k, k + pat.len()) == pat) {
        lemma_search_bounds(s, pat, k + 1);
    }
}

/// `s.split(pat).nth(1)`: the text after the first occurrence of `pat`, up
/// to the next one or to the end.
pub open spec fn second_piece(s: Seq<char>, pat: Seq<char>) -> Option<Seq<char>> {
    match search(s, pat, 0) {
        None => None,
        Some(i) => {
            let rest = s.skip(i + pat.len());
            Some(
                match search(rest, pat, 0) {
                    Some(j) => rest.take(j),
                    None => rest,
                },
            )
        },
    }
}

/// The first position at or after `k` where `pat` occurs in `s`.
pub fn find_from(s: &[char], pat: &[char], k: usize) -> (r: Option<usize>)
    ensures
        match r {
            Some(i) => search(s@, pat@, k as int) == Some(i as int),
            None => search(s@, pat@, k as int) is None,
        },
{
    if pat.len() > s.len() {
        return None;
    }
    let n = s.len();
    let limit = n - pat.len();
    let mut i = k;
    while i <= limit
        invariant
            n == s@.len(),
            limit == s@.len() - pat@.len(),
            k <= i,
            search(s@, pat@, k as int) == search(s@, pat@, i as int),
        decreases limit + 1 - i,
    {
        if pat.len() == 0 || occurs_at(s, pat, i) {
            return Some(i);
        }
        i = i + 1;
    }
    None
}

/// `s.split(lit).nth(1)` for a non-empty literal.
pub fn second_piece_of(s: &[char], lit: &str) -> (r: Option<Vec<char>>)
    requires
        lit@.len() > 0,
    ensures
        match r {
            Some(p) => second_piece(s@, lit@) == Some(p@),
            None => second_piece(s@, lit@) is None,
        },
{
    let pat = chars_of(lit);
    let n = s.len();
    let i = match find_from(s, pat.as_slice(), 0) {
        Some(i) => i,
        None => return None,
    };
    proof {
        lemma_search_bounds(s@, pat@, 0);
    }
    let rest = copy_range(s, i + pat.len(), s.len());
    assert(rest@ =~= s@.skip(i + pat@.len()));
    match find_from(rest.as_slice(), pat.as_slice(), 0) {
        Some(j) => {
            proof {
                lemma_search_bounds(rest@, pat@, 0);
            }
            let piece = copy_range(rest.as_slice(), 0, j);
            assert(piece@ =~= rest@.take(j as int));
            Some(piece)
        },
        None => Some(rest),
    }
}

/// `str::contains` with a string pattern.
pub fn contains_chars(s: &[char], pat: &[char]) -> (r: bool)
    ensures
        r == contains(s@, pat@),
{
    if pat.len() > s.len() {
        return false;
    }
    let limit = s.len() - pat.len();
    let mut i: usize = 0;
    loop
        invariant
            limit == s@.len() - pat@.len(),
            i <= limit,
            forall|k: int| 0 <= k < i ==> #[trigger] s@.subrange(k, k + pat@.len()) != pat@,
        decreases limit - i,
    {
        if occurs_at(s, pat, i) {
            return true;
        }
        if i == limit {
            return false;
        }
        i = i + 1;
    }
}

/// `str::contains` with a string literal.
pub fn contains_lit(s: &[char], lit: &str) -> (r: bool)
    ensures
        r == contains(s@, lit@),
{
    let p = chars_of(lit);
    contains_chars(s, p.as_slice())
}

/// `str::starts_with` with a string pattern.
pub fn starts_with_chars(s: &[char], pat: &[char]) -> (r: bool)
    ensures
        r == starts_with(s@, pat@),
{
    if pat.len() > s.len() {
        return false;
    }
    let r = occurs_at(s, pat, 0);
    assert(s@.subrange(0, pat@.len() as int) =~= s@.take(pat@.len() as int));
    r
}

/// `str::strip_prefix` with a string literal.
pub fn strip_prefix_lit(s: &[char], lit: &str) -> (r: Option<Vec<char>>)
    ensures
        match r {
            Some(rest) => strip_prefix(s@, lit@) == Some(rest@),
            None => strip_prefix(s@, lit@) is None,
        },
{
    let p = chars_of(lit);
    if starts_with_chars(s, p.as_slice()) {
        let rest = copy_range(s, p.len(), s.len());
        assert(rest@ =~= s@.skip(p@.len() as int));
        Some(rest)
    } else {
        None
    }
}

/// Appends the characters of `s`.
pub fn push_all(r: &mut Vec<char>, s: &[char])
    ensures
        final(r)@ == old(r)@ + s@,
{
    let ghost start = r@;
    let mut i: usize = 0;
    while i < s.len()
        invariant
            i <= s@.len(),
            r@ == start + s@.take(i as int),
        decreases s@.len() - i,
    {
        r.push(s[i]);
        i = i + 1;
        assert(r@ =~= start + s@.take(i as int));
    }
    assert(s@.take(s@.len() as int) =~= s@);
}

/// Appends the characters of a string literal.
pub fn push_lit(r: &mut Vec<char>, lit: &str)
    ensures
        final(r)@ == old(r)@ + lit@,
{
    let l = chars_of(lit);
    push_all(r, l.as_slice());
}

/// `parts[start..end].join(sep)`.
pub fn join_range(parts: &[Vec<char>], start: usize, end: usize, sep: char) -> (r: Vec<char>)
    requires
        start <= end <= parts@.len(),
    ensures
        r@ == join(views(parts@).subrange(start as int, end as int), sep),
{
    let ghost all = views(parts@).subrange(start as int, end as int);
    let mut r: Vec<char> = Vec::new();
    let mut i = start;
    assert(all.take(0) =~= Seq::<Seq<char>>::empty());
    while i < end
        invariant
            start <= i <= end <= parts@.len(),
            all == views(parts@).subrange(start as int, end as int),
            r@ == join(all.take(i - start), sep),
        decreases end - i,
    {
        if i > start {
            r.push(sep);
        }
        push_all(&mut r, parts[i].as_slice());
        proof {
            let t = all.take(i + 1 - start);
            assert(t.drop_last() =~= all.take(i - start));
            assert(t.last() == parts@[i as int]@);
        }
        i = i + 1;
    }
    assert(all.take(end - start) =~= all);
    r
}

} // verus!
