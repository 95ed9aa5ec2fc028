//! Character-level text utilities: search, trimming and prefix/suffix
//! stripping over `Seq<char>`, with executable versions working on `Vec<char>`.
use vstd::prelude::*;

verus! {

broadcast use vstd::string::axiom_spec_iter;

// ---------------------------------------------------------------------------
// Specifications
// ---------------------------------------------------------------------------

/// `pat` occurs in `text` starting at index `i`.
pub open spec fn occurs_at(text: Seq<char>, pat: Seq<char>, i: int) -> bool {
    &&& 0 <= i
    &&& i + pat.len() <= text.len()
    &&& text.subrange(i, i + pat.len()) == pat
}

/// `pat` occurs somewhere in `text` (the empty pattern occurs everywhere).
pub open spec fn contains_seq(text: Seq<char>, pat: Seq<char>) -> bool {
    exists|i: int| occurs_at(text, pat, i)
}

/// Unicode `White_Space` characters, as `char::is_whitespace` classifies them.
pub open spec fn is_ws(c: char) -> bool {
    let u = c as u32;
    ||| 0x09 <= u <= 0x0d
    ||| u == 0x20
    ||| u == 0x85
    ||| u == 0xa0
    ||| u == 0x1680
    ||| 0x2000 <= u <= 0x200a
    ||| u == 0x2028
    ||| u == 0x2029
    ||| u == 0x202f
    ||| u == 0x205f
    ||| u == 0x3000
}

/// What a trimming operation removes: whitespace, or one given character.
#[derive(Clone, Copy, Debug, PartialEq, Eq)]
pub enum TrimSet {
    Whitespace,
    Only(char),
}

/// Whether `c` belongs to the set `t`.
pub open spec fn in_set(t: TrimSet, c: char) -> bool {
    match t {
        TrimSet::Whitespace => is_ws(c),
        TrimSet::Only(q) => c == q,
    }
}

/// `s` with every leading character of `t` removed.
pub open spec fn trim_start_set(s: Seq<char>, t: TrimSet) -> Seq<char>
    decreases s.len(),
{
    if s.len() > 0 && in_set(t, s[0]) {
        trim_start_set(s.drop_first(), t)
    } else {
        s
    }
}

/// `s` with every trailing character of `t` removed.
pub open spec fn trim_end_set(s: Seq<char>, t: TrimSet) -> Seq<char>
    decreases s.len(),
{
    if s.len() > 0 && in_set(t, s.last()) {
        trim_end_set(s.drop_last(), t)
    } else {
        s
    }
}

/// `s` with every leading and trailing character of `t` removed.
pub open spec fn trim_set(s: Seq<char>, t: TrimSet) -> Seq<char> {
    trim_end_set(trim_start_set(s, t), t)
}

/// Trimming the start of `x + y` trims `x`, and then `y` where `x` was all
/// trimmed away.
pub proof fn lemma_trim_start_concat(x: Seq<char>, y: Seq<char>, t: TrimSet)
    ensures
        trim_start_set(x, t).len() > 0 ==> trim_start_set(x + y, t) == trim_start_set(x, t) + y,
        trim_start_set(x, t).len() == 0 ==> trim_start_set(x + y, t) == trim_start_set(y, t),
    decreases x.len(),
{
    if x.len() > 0 {
        assert((x + y)[0] == x[0]);
        if in_set(t, x[0]) {
            assert((x + y).drop_first() =~= x.drop_first() + y);
            lemma_trim_start_concat(x.drop_first(), y, t);
        }
    } else {
        assert(x + y =~= y);
    }
}

/// What trimming leaves: a part of the text that neither starts nor ends
/// with a trimmed character.
pub proof fn lemma_trim_bounds(s: Seq<char>, t: TrimSet)
    ensures
        trim_start_set(s, t).len() > 0 ==> !in_set(t, trim_start_set(s, t)[0]),
        trim_end_set(s, t).len() > 0 ==> !in_set(t, trim_end_set(s, t).last()),
        trim_end_set(s, t) == s.take(trim_end_set(s, t).len() as int),
        trim_end_set(s, t).len() <= s.len(),
    decreases s.len(),
{
    if s.len() > 0 {
        if in_set(t, s[0]) {
            lemma_trim_bounds(s.drop_first(), t);
        }
        if in_set(t, s.last()) {
            lemma_trim_bounds(s.drop_last(), t);
            let r = trim_end_set(s.drop_last(), t);
            assert(s.take(r.len() as int) =~= s.drop_last().take(r.len() as int));
        } else {
            assert(s.take(s.len() as int) =~= s);
        }
    } else {
        assert(s.take(0) =~= s);
    }
}

/// Trimming twice is trimming once.
pub proof fn lemma_trim_idempotent(s: Seq<char>, t: TrimSet)
    ensures
        trim_set(trim_set(s, t), t) == trim_set(s, t),
{
    let a = trim_start_set(s, t);
    let y = trim_end_set(a, t);
    lemma_trim_bounds(s, t);
    lemma_trim_bounds(a, t);
    lemma_trim_bounds(y, t);
    if y.len() > 0 {
        assert(y[0] == a[0]);
        assert(trim_start_set(y, t) == y);
        assert(trim_end_set(y, t) == y);
    }
}

/// Leading and trailing whitespace removed (`str::trim`).
pub open spec fn trim(s: Seq<char>) -> Seq<char> {
    trim_set(s, TrimSet::Whitespace)
}

/// Trailing whitespace removed (`str::trim_end`).
pub open spec fn trim_end(s: Seq<char>) -> Seq<char> {
    trim_end_set(s, TrimSet::Whitespace)
}

/// `s` with every prefix equal to the non-empty `p` removed, repeatedly
/// (`str::trim_start_matches` with a string pattern).
pub open spec fn strip_prefixes(s: Seq<char>, p: Seq<char>) -> Seq<char>
    decreases s.len(),
{
    if p.len() > 0 && p.len() <= s.len() && s.take(p.len() as int) == p {
        strip_prefixes(s.skip(p.len() as int), p)
    } else {
        s
    }
}

/// `s` with every suffix equal to the non-empty `p` removed, repeatedly
/// (`str::trim_end_matches` with a string pattern).
pub open spec fn strip_suffixes(s: Seq<char>, p: Seq<char>) -> Seq<char>
    decreases s.len(),
{
    if p.len() > 0 && p.len() <= s.len() && s.skip(s.len() - p.len()) == p {
        strip_suffixes(s.take(s.len() - p.len()), p)
    } else {
        s
    }
}

/// The ASCII digit for `d < 10`.
pub open spec fn digit_char(d: nat) -> char {
    (48 + d) as char
}

/// The decimal rendering of `n`, without leading zeros.
pub open spec fn decimal(n: nat) -> Seq<char>
    decreases n,
{
    if n < 10 {
        seq![digit_char(n)]
    } else {
        decimal(n / 10).push(digit_char(n % 10))
    }
}

// ---------------------------------------------------------------------------
// Lemmas
// ---------------------------------------------------------------------------

proof fn lemma_trim_start_set(s: Seq<char>, t: TrimSet, k: int)
    requires
        0 <= k <= s.len(),
        forall|i: int| 0 <= i < k ==> in_set(t, #[trigger] s[i]),
        k < s.len() ==> !in_set(t, s[k]),
    ensures
        trim_start_set(s, t) == s.skip(k),
    decreases k,
{
    if k == 0 {
        assert(s.skip(0) =~= s);
    } else {
        assert(in_set(t, s[0]));
        let d = s.drop_first();
        assert forall|i: int| 0 <= i < k - 1 implies in_set(t, #[trigger] d[i]) by {
            assert(d[i] == s[i + 1]);
        }
        lemma_trim_start_set(d, t, k - 1);
        assert(d.skip(k - 1) =~= s.skip(k));
    }
}

proof fn lemma_trim_end_set(s: Seq<char>, t: TrimSet, k: int)
    requires
        0 <= k <= s.len(),
        forall|i: int| k <= i < s.len() ==> in_set(t, #[trigger] s[i]),
        k > 0 ==> !in_set(t, s[k - 1]),
    ensures
        trim_end_set(s, t) == s.take(k),
    decreases s.len() - k,
{
    if k == s.len() {
        assert(s.take(k) =~= s);
    } else {
        assert(in_set(t, s.last()));
        let d = s.drop_last();
        assert forall|i: int| k <= i < d.len() implies in_set(t, #[trigger] d[i]) by {
            assert(d[i] == s[i]);
        }
        lemma_trim_end_set(d, t, k);
        assert(d.take(k) =~= s.take(k));
    }
}

// ---------------------------------------------------------------------------
// Executable functions
// ---------------------------------------------------------------------------

/// Appends one character to a string (`String::push`).
#[verifier::external_body]
pub(crate) fn push_char(s: &mut String, c: char)
    ensures
        final(s)@ == old(s)@.push(c),
{
    s.push(c);
}

/// The characters of `s`, in order.
pub fn chars_of(s: &str) -> (v: Vec<char>)
    ensures
        v@ == s@,
{
    let mut v: Vec<char> = Vec::new();
    for c in it: s.chars()
        invariant
            v@ == it.seq().take(it.index() as int),
    {
        v.push(c);
    }
    v
}

/// Appends all characters of `v` to `s`.
pub fn push_chars(s: &mut String, v: &Vec<char>)
    ensures
        final(s)@ == old(s)@ + v@,
{
    let ghost start = s@;
    for i in 0..v.len()
        invariant
            s@ == start + v@.take(i as int),
    {
        push_char(s, v[i]);
        assert(v@.take(i + 1) =~= v@.take(i as int).push(v@[i as int]));
    }
    assert(v@.take(v.len() as int) =~= v@);
}

/// Appends all characters of `t` to `s`.
pub fn push_str(s: &mut String, t: &str)
    ensures
        final(s)@ == old(s)@ + t@,
{
    let v = chars_of(t);
    push_chars(s, &v);
}

/// A string holding exactly the characters of `v`.
pub fn string_of(v: &Vec<char>) -> (s: String)
    ensures
        s@ == v@,
{
    let mut s = String::new();
    push_chars(&mut s, v);
    assert(Seq::<char>::empty() + v@ =~= v@);
    s
}

/// A copy of `v[lo..hi]`.
pub fn slice_chars(v: &Vec<char>, lo: usize, hi: usize) -> (r: Vec<char>)
    requires
        lo <= hi <= v.len(),
    ensures
        r@ == v@.subrange(lo as int, hi as int),
{
    let mut r: Vec<char> = Vec::new();
    let mut i = lo;
    while i < hi
        invariant
            lo <= i <= hi <= v.len(),
            r@ == v@.subrange(lo as int, i as int),
        decreases hi - i,
    {
        r.push(v[i]);
        assert(v@.subrange(lo as int, i + 1) =~= v@.subrange(lo as int, i as int).push(v@[i as int]));
        i += 1;
    }
    r
}

/// Whether `c` is a Unicode whitespace character (`char::is_whitespace`).
pub fn is_whitespace(c: char) -> (b: bool)
    ensures
        b == is_ws(c),
{
    let u = c as u32;
    (0x09 <= u && u <= 0x0d) || u == 0x20 || u == 0x85 || u == 0xa0 || u == 0x1680 || (0x2000
        <= u && u <= 0x200a) || u == 0x2028 || u == 0x2029 || u == 0x202f || u == 0x205f || u
        == 0x3000
}

fn in_trim_set(t: TrimSet, c: char) -> (b: bool)
    ensures
        b == in_set(t, c),
{
    match t {
        TrimSet::Whitespace => is_whitespace(c),
        TrimSet::Only(q) => c == q,
    }
}

/// `v` with leading and trailing characters of `t` removed.
pub fn trim_chars(v: &Vec<char>, t: TrimSet) -> (r: Vec<char>)
    ensures
        r@ == trim_set(v@, t),
{
    let mut lo: usize = 0;
    while lo < v.len() && in_trim_set(t, v[lo])
        invariant
            lo <= v.len(),
            forall|i: int| 0 <= i < lo ==> in_set(t, #[trigger] v@[i]),
        decreases v.len() - lo,
    {
        lo += 1;
    }
    proof {
        lemma_trim_start_set(v@, t, lo as int);
    }
    let mut hi: usize = v.len();
    while hi > lo && in_trim_set(t, v[hi - 1])
        invariant
            lo <= hi <= v.len(),
            forall|i: int| hi <= i < v.len() ==> in_set(t, #[trigger] v@[i]),
        decreases hi,
    {
        hi -= 1;
    }
    let ghost s = v@.skip(lo as int);
    proof {
        assert forall|i: int| hi - lo <= i < s.len() implies in_set(t, #[trigger] s[i]) by {
            assert(s[i] == v@[lo + i]);
        }
        if hi > lo {
            assert(s[hi - lo - 1] == v@[hi - 1]);
        }
        lemma_trim_end_set(s, t, hi - lo);
        assert(s.take(hi - lo) =~= v@.subrange(lo as int, hi as int));
    }
    slice_chars(v, lo, hi)
}

/// `v` with trailing characters of `t` removed.
pub fn trim_end_chars(v: &Vec<char>, t: TrimSet) -> (r: Vec<char>)
    ensures
        r@ == trim_end_set(v@, t),
{
    let mut hi: usize = v.len();
    while hi > 0 && in_trim_set(t, v[hi - 1])
        invariant
            hi <= v.len(),
            forall|i: int| hi <= i < v.len() ==> in_set(t, #[trigger] v@[i]),
        decreases hi,
    {
        hi -= 1;
    }
    proof {
        lemma_trim_end_set(v@, t, hi as int);
        assert(v@.take(hi as int) =~= v@.subrange(0, hi as int));
    }
    slice_chars(v, 0, hi)
}

/// Whether `pat` occurs in `text` at index `i`.
pub fn matches_at(text: &Vec<char>, pat: &Vec<char>, i: usize) -> (b: bool)
    ensures
        b == occurs_at(text@, pat@, i as int),
{
    if pat.len() > text.len() || i > text.len() - pat.len() {
        return false;
    }
    let mut j: usize = 0;
    while j < pat.len()
        invariant
            j <= pat.len(),
            i + pat.len() <= text.len(),
            forall|k: int| 0 <= k < j ==> text@[i + k] == pat@[k],
        decreases pat.len() - j,
    {
        if text[i + j] != pat[j] {
            assert(text@.subrange(i as int, i + pat.len())[j as int] == text@[i + j]);
            return false;
        }
        j += 1;
    }
    assert(text@.subrange(i as int, i + pat.len()) =~= pat@);
    true
}

/// Whether `pat` occurs anywhere in `text` (`str::contains`).
pub fn contains_chars(text: &Vec<char>, pat: &Vec<char>) -> (b: bool)
    ensures
        b == contains_seq(text@, pat@),
{
    if pat.len() > text.len() {
        return false;
    }
    let last = text.len() - pat.len();
    let mut i: usize = 0;
    loop
        invariant
            i <= last,
            last == text.len() - pat.len(),
            forall|k: int| 0 <= k < i ==> !occurs_at(text@, pat@, k),
        decreases last - i,
    {
        if matches_at(text, pat, i) {
            return true;
        }
        if i == last {
            assert forall|k: int| !occurs_at(text@, pat@, k) by {
                if 0 <= k && k < i {
                }
            }
            return false;
        }
        i += 1;
    }
}

/// `v` with every prefix equal to the non-empty `p` removed, repeatedly.
pub fn strip_prefixes_chars(v: &Vec<char>, p: &Vec<char>) -> (r: Vec<char>)
    ensures
        r@ == strip_prefixes(v@, p@),
{
    if p.len() == 0 {
        return slice_chars(v, 0, v.len());
    }
    let mut k: usize = 0;
    proof {
        assert(v@.skip(0) =~= v@);
    }
    while matches_at(v, p, k)
        invariant
            k <= v.len(),
            p.len() > 0,
            strip_prefixes(v@, p@) == strip_prefixes(v@.skip(k as int), p@),
        decreases v.len() - k,
    {
        let ghost s = v@.skip(k as int);
        assert(s.take(p.len() as int) =~= v@.subrange(k as int, k + p.len()));
        assert(s.skip(p.len() as int) =~= v@.skip(k + p.len()));
        k += p.len();
    }
    proof {
        let s = v@.skip(k as int);
        if p.len() <= s.len() && s.take(p.len() as int) == p@ {
            assert(s.take(p.len() as int) =~= v@.subrange(k as int, k + p.len()));
        }
        assert(s =~= v@.subrange(k as int, v.len() as int));
    }
    slice_chars(v, k, v.len())
}

/// `v` with every suffix equal to the non-empty `p` removed, repeatedly.
pub fn strip_suffixes_chars(v: &Vec<char>, p: &Vec<char>) -> (r: Vec<char>)
    ensures
        r@ == strip_suffixes(v@, p@),
{
    if p.len() == 0 {
        return slice_chars(v, 0, v.len());
    }
    let mut h: usize = v.len();
    proof {
        assert(v@.take(v.len() as int) =~= v@);
    }
    while h >= p.len() && matches_at(v, p, h - p.len())
        invariant
            h <= v.len(),
            p.len() > 0,
            strip_suffixes(v@, p@) == strip_suffixes(v@.take(h as int), p@),
        decreases h,
    {
        let ghost s = v@.take(h as int);
        assert(s.skip(s.len() - p.len()) =~= v@.subrange(h - p.len(), h as int));
        assert(s.take(s.len() - p.len()) =~= v@.take(h - p.len()));
        h -= p.len();
    }
    proof {
        let s = v@.take(h as int);
        if p.len() <= s.len() && s.skip(s.len() - p.len()) == p@ {
            assert(s.skip(s.len() - p.len()) =~= v@.subrange(h - p.len(), h as int));
        }
        assert(s =~= v@.subrange(0, h as int));
    }
    slice_chars(v, 0, h)
}

/// The ASCII digit for `d`.
fn digit(d: u64) -> (c: char)
    requires
        d < 10,
    ensures
        c == digit_char(d as nat),
{
    let b: u8 = 48u8 + (d as u8);
    b as char
}

/// Appends the decimal rendering of `n` to `s`.
pub fn push_decimal(s: &mut String, n: u64)
    ensures
        final(s)@ == old(s)@ + decimal(n as nat),
    decreases n,
{
    let ghost start = s@;
    if n >= 10 {
        push_decimal(s, n / 10);
    }
    push_char(s, digit(n % 10));
    proof {
        if n >= 10 {
            assert(decimal(n as nat) == decimal((n / 10) as nat).push(digit_char((n % 10) as nat)));
        }
        assert(s@ =~= start + decimal(n as nat));
    }
}

// ---------------------------------------------------------------------------
// First occurring pattern of a table
// ---------------------------------------------------------------------------

/// The index of the first pattern of `pats`, at or after `k`, that occurs in `text`.
pub open spec fn first_hit_from(text: Seq<char>, pats: Seq<Seq<char>>, k: int) -> Option<int>
    decreases pats.len() - k,
{
    if k < 0 || k >= pats.len() {
        None
    } else if contains_seq(text, pats[k]) {
        Some(k)
    } else {
        first_hit_from(text, pats, k + 1)
    }
}

/// The index of the first pattern of `pats` that occurs in `text`.
pub open spec fn first_hit(text: Seq<char>, pats: Seq<Seq<char>>) -> Option<int> {
    first_hit_from(text, pats, 0)
}

/// `first_hit_from` finds exactly the first pattern, at or after `k`, that occurs.
pub proof fn lemma_first_hit(text: Seq<char>, pats: Seq<Seq<char>>, k: int)
    requires
        0 <= k,
    ensures
        match first_hit_from(text, pats, k) {
            Some(j) => k <= j < pats.len() && contains_seq(text, pats[j]) && forall|x: int|
                k <= x < j ==> !contains_seq(text, #[trigger] pats[x]),
            None => forall|x: int| k <= x < pats.len() ==> !contains_seq(text, #[trigger] pats[x]),
        },
    decreases pats.len() - k,
{
    if k < pats.len() && !contains_seq(text, pats[k]) {
        lemma_first_hit(text, pats, k + 1);
    }
}

/// The character sequences held by a table of patterns.
pub open spec fn views(t: Seq<Vec<char>>) -> Seq<Seq<char>> {
    t.map_values(|v: Vec<char>| v@)
}

/// `Some(i)` as a mathematical index.
pub open spec fn as_index(r: Option<usize>) -> Option<int> {
    match r {
        Some(i) => Some(i as int),
        None => None,
    }
}

/// The first pattern of `table` that occurs in `text`, by position in the table.
pub fn first_hit_index(text: &Vec<char>, table: &Vec<Vec<char>>) -> (r: Option<usize>)
    ensures
        as_index(r) == first_hit(text@, views(table@)),
        r matches Some(i) ==> i < table.len(),
{
    let ghost pats = views(table@);
    let mut k: usize = 0;
    while k < table.len()
        invariant
            k <= table.len(),
            pats == views(table@),
            first_hit(text@, pats) == first_hit_from(text@, pats, k as int),
        decreases table.len() - k,
    {
        assert(pats[k as int] == table@[k as int]@);
        if contains_chars(text, &table[k]) {
            return Some(k);
        }
        k += 1;
    }
    None
}

// ---------------------------------------------------------------------------
// Finding a character
// ---------------------------------------------------------------------------

/// The first index at or after `i` that holds `c`, or `s.len()` when there is none.
pub open spec fn find_char_from(s: Seq<char>, c: char, i: int) -> int
    decreases s.len() - i,
{
    if i < 0 || i >= s.len() {
        s.len() as int
    } else if s[i] == c {
        i
    } else {
        find_char_from(s, c, i + 1)
    }
}

/// `find_char_from` lies between its start and the end of the text, and is
/// characterised by the characters it passes over.
pub proof fn lemma_find_char_from(s: Seq<char>, c: char, i: int, j: int)
    requires
        0 <= i <= j <= s.len(),
        forall|x: int| i <= x < j ==> s[x] != c,
        j == s.len() || s[j] == c,
    ensures
        find_char_from(s, c, i) == j,
    decreases j - i,
{
    if i < j {
        lemma_find_char_from(s, c, i + 1, j);
    }
}

/// `find_char_from` never goes back before its start.
pub proof fn lemma_find_char_bounds(s: Seq<char>, c: char, i: int)
    requires
        0 <= i <= s.len(),
    ensures
        i <= find_char_from(s, c, i) <= s.len(),
    decreases s.len() - i,
{
    if i < s.len() && s[i] != c {
        lemma_find_char_bounds(s, c, i + 1);
    }
}

/// The first index at or after `from` that holds `c`, or `v.len()`.
pub fn find_char(v: &Vec<char>, c: char, from: usize) -> (j: usize)
    requires
        from <= v.len(),
    ensures
        from <= j <= v.len(),
        j == find_char_from(v@, c, from as int),
        forall|x: int| from <= x < j ==> v@[x] != c,
        j < v.len() ==> v@[j as int] == c,
{
    let mut j = from;
    while j < v.len() && v[j] != c
        invariant
            from <= j <= v.len(),
            forall|x: int| from <= x < j ==> v@[x] != c,
        decreases v.len() - j,
    {
        j += 1;
    }
    proof {
        lemma_find_char_from(v@, c, from as int, j as int);
    }
    j
}

/// Whether two character sequences are equal.
pub fn chars_eq(a: &Vec<char>, b: &Vec<char>) -> (r: bool)
    ensures
        r == (a@ == b@),
{
    if a.len() != b.len() {
        return false;
    }
    let mut i: usize = 0;
    while i < a.len()
        invariant
            i <= a.len(),
            a.len() == b.len(),
            forall|k: int| 0 <= k < i ==> a@[k] == b@[k],
        decreases a.len() - i,
    {
        if a[i] != b[i] {
            return false;
        }
        i += 1;
    }
    assert(a@ =~= b@);
    true
}

/// Whether two strings are equal.
pub fn str_eq(a: &str, b: &str) -> (r: bool)
    ensures
        r == (a@ == b@),
{
    chars_eq(&chars_of(a), &chars_of(b))
}

// ---------------------------------------------------------------------------
// Replacing
// ---------------------------------------------------------------------------

/// `s` with every occurrence of the non-empty `from` replaced by `to`, scanning
/// left to right without overlap (`str::replace`).
pub open spec fn replace_all(s: Seq<char>, from: Seq<char>, to: Seq<char>) -> Seq<char>
    decreases s.len(),
{
    if s.len() == 0 {
        seq![]
    } else if from.len() > 0 && from.len() <= s.len() && s.take(from.len() as int) == from {
        to + replace_all(s.skip(from.len() as int), from, to)
    } else {
        seq![s[0]] + replace_all(s.drop_first(), from, to)
    }
}

/// `v` with every occurrence of the non-empty `from` replaced by `to`.
pub fn replace_chars(v: &Vec<char>, from: &Vec<char>, to: &Vec<char>) -> (r: Vec<char>)
    requires
        from.len() > 0,
    ensures
        r@ == replace_all(v@, from@, to@),
{
    let mut out: Vec<char> = Vec::new();
    let mut i: usize = 0;
    proof {
        assert(v@.skip(0) =~= v@);
    }
    while i < v.len()
        invariant
            i <= v.len(),
            from.len() > 0,
            out@ + replace_all(v@.skip(i as int), from@, to@) == replace_all(v@, from@, to@),
        decreases v.len() - i,
    {
        let ghost rest = v@.skip(i as int);
        let ghost before = out@;
        if matches_at(v, from, i) {
            proof {
                assert(rest.take(from.len() as int) =~= v@.subrange(i as int, i + from.len()));
                assert(rest.skip(from.len() as int) =~= v@.skip(i + from.len()));
            }
            let mut j: usize = 0;
            while j < to.len()
                invariant
                    j <= to.len(),
                    out@ == before + to@.take(j as int),
                decreases to.len() - j,
            {
                out.push(to[j]);
                assert(to@.take(j + 1) =~= to@.take(j as int).push(to@[j as int]));
                j += 1;
            }
            proof {
                assert(to@.take(to.len() as int) =~= to@);
                assert(before + (to@ + replace_all(v@.skip(i + from.len()), from@, to@)) =~= out@
                    + replace_all(v@.skip(i + from.len()), from@, to@));
            }
            i += from.len();
        } else {
            proof {
                if from.len() <= rest.len() && rest.take(from.len() as int) == from@ {
                    assert(rest.take(from.len() as int) =~= v@.subrange(i as int, i + from.len()));
                }
                assert(rest.drop_first() =~= v@.skip(i + 1));
                assert(before + (seq![v@[i as int]] + replace_all(v@.skip(i + 1), from@, to@))
                    =~= before.push(v@[i as int]) + replace_all(v@.skip(i + 1), from@, to@));
            }
            out.push(v[i]);
            i += 1;
        }
    }
    proof {
        assert(out@ + replace_all(v@.skip(i as int), from@, to@) =~= out@);
    }
    out
}

/// Replacing a pattern that does not occur leaves the text unchanged.
pub proof fn law_replace_absent(s: Seq<char>, from: Seq<char>, to: Seq<char>)
    requires
        from.len() > 0,
        !contains_seq(s, from),
    ensures
        replace_all(s, from, to) == s,
    decreases s.len(),
{
    if s.len() > 0 {
        if from.len() <= s.len() && s.take(from.len() as int) == from {
            assert(occurs_at(s, from, 0));
        }
        assert forall|i: int| !occurs_at(s.drop_first(), from, i) by {
            if occurs_at(s.drop_first(), from, i) {
                assert(s.subrange(i + 1, i + 1 + from.len()) =~= s.drop_first().subrange(
                    i,
                    i + from.len(),
                ));
                assert(occurs_at(s, from, i + 1));
            }
        }
        law_replace_absent(s.drop_first(), from, to);
        assert(seq![s[0]] + s.drop_first() =~= s);
    }
}

} // verus!
