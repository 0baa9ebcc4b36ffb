//! Character-level text handling: the pieces of `str`'s behaviour that the
//! library's parsers and path arithmetic rely on, each stated over `Seq<char>`.
use vstd::prelude::*;
use vstd::relations::sorted_by;
use vstd::string::StringExecFns;

verus! {

broadcast use vstd::seq_lib::group_to_multiset_ensures;

// ---------------------------------------------------------------------------
// Building strings
// ---------------------------------------------------------------------------

/// Calls `String::push`, which appends the character `c`; the contract says
/// just that.
#[verifier::external_body]
pub(crate) fn push_char(s: &mut String, c: char)
    ensures
        final(s)@ == old(s)@.push(c),
{
    s.push(c);
}

/// The characters of a string, in order.
pub fn chars_of(s: &str) -> (v: Vec<char>)
    ensures
        v@ == s@,
{
    let mut v: Vec<char> = Vec::new();
    for c in it: s.chars()
        invariant
            v@ == it.history(),
    {
        v.push(c);
    }
    proof {
        broadcast use vstd::string::group_string_axioms;
    }
    assert(v@ =~= s@);
    v
}

/// A string holding the given characters.
pub fn string_of(v: &Vec<char>) -> (s: String)
    ensures
        s@ == v@,
{
    let mut s = String::new();
    let n = v.len();
    for i in 0..n
        invariant
            n == v.len(),
            s@ == v@.take(i as int),
    {
        push_char(&mut s, v[i]);
        assert(v@.take(i + 1) =~= v@.take(i as int).push(v@[i as int]));
    }
    assert(v@.take(n as int) =~= v@);
    s
}

/// `a` followed by `b`.
pub fn concat(a: &str, b: &str) -> (s: String)
    ensures
        s@ == a@ + b@,
{
    let s = String::from_str(a);
    s.concat(b)
}

/// `a`, `b` and `c` in turn.
pub fn concat3(a: &str, b: &str, c: &str) -> (s: String)
    ensures
        s@ == a@ + b@ + c@,
{
    let s = String::from_str(a);
    let s = s.concat(b);
    s.concat(c)
}

/// The views of a sequence of strings.
pub open spec fn views(v: Seq<String>) -> Seq<Seq<char>> {
    v.map_values(|s: String| s@)
}

/// The view of an optional string.
pub open spec fn opt_view(o: Option<String>) -> Option<Seq<char>> {
    match o {
        Some(s) => Some(s@),
        None => None,
    }
}

/// The views of a sequence of string slices.
pub open spec fn str_views(v: Seq<&str>) -> Seq<Seq<char>> {
    v.map_values(|s: &str| s@)
}

/// Whether two strings hold the same text.
pub fn str_eq(a: &str, b: &str) -> (r: bool)
    ensures
        r == (a@ == b@),
{
    String::from_str(a) == String::from_str(b)
}

/// Copies a list of strings.
pub fn clone_strings(v: &Vec<String>) -> (r: Vec<String>)
    ensures
        views(r@) == views(v@),
{
    let mut r: Vec<String> = Vec::new();
    let n = v.len();
    for i in 0..n
        invariant
            n == v.len(),
            views(r@) =~= views(v@).take(i as int),
    {
        r.push(v[i].clone());
        assert(views(v@).take(i + 1) =~= views(v@).take(i as int).push(v@[i as int]@));
    }
    assert(views(v@).take(n as int) =~= views(v@));
    r
}

// ---------------------------------------------------------------------------
// Prefixes, suffixes, searching
// ---------------------------------------------------------------------------

/// `p` is a prefix of `s` (`str::starts_with`).
pub open spec fn has_prefix(s: Seq<char>, p: Seq<char>) -> bool {
    p.len() <= s.len() && s.take(p.len() as int) == p
}

/// `p` is a suffix of `s` (`str::ends_with`).
pub open spec fn has_suffix(s: Seq<char>, p: Seq<char>) -> bool {
    p.len() <= s.len() && s.skip(s.len() - p.len()) == p
}

/// `p` occurs in `s` at index `i`.
pub open spec fn occurs_at(s: Seq<char>, p: Seq<char>, i: int) -> bool {
    0 <= i && i + p.len() <= s.len() && s.subrange(i, i + p.len()) == p
}

/// `p` occurs somewhere in `s` (`str::contains`).
pub open spec fn has_infix(s: Seq<char>, p: Seq<char>) -> bool {
    exists|i: int| occurs_at(s, p, i)
}

/// The first index at or after `from` where `p` occurs in `s`.
pub open spec fn find_from(s: Seq<char>, p: Seq<char>, from: int) -> Option<int>
    decreases s.len() + 1 - from,
{
    if from < 0 || from + p.len() > s.len() {
        None
    } else if s.subrange(from, from + p.len()) == p {
        Some(from)
    } else {
        find_from(s, p, from + 1)
    }
}

/// The first index where `p` occurs in `s`.
pub open spec fn find(s: Seq<char>, p: Seq<char>) -> Option<int> {
    find_from(s, p, 0)
}

/// The first index where the character `c` occurs in `s`.
pub open spec fn find_char(s: Seq<char>, c: char) -> Option<int> {
    find(s, seq![c])
}

/// The text before the first `c`, or all of `s` (`s.split(c).next()`).
pub open spec fn before_char(s: Seq<char>, c: char) -> Seq<char> {
    match find_char(s, c) {
        Some(k) => s.take(k),
        None => s,
    }
}

/// The text after the last `c`, or all of `s` (`s.rsplit(c).next()`).
pub open spec fn after_last_char(s: Seq<char>, c: char) -> Seq<char>
    decreases s.len(),
{
    if s.len() == 0 {
        s
    } else if s.last() == c {
        seq![]
    } else {
        after_last_char(s.drop_last(), c).push(s.last())
    }
}

pub proof fn lemma_find_from_bounds(s: Seq<char>, p: Seq<char>, from: int)
    requires
        0 <= from,
    ensures
        find_from(s, p, from) matches Some(k) ==> from <= k && occurs_at(s, p, k) && (forall|j: int|
            from <= j < k ==> !occurs_at(s, p, j)),
        find_from(s, p, from) is None ==> (forall|j: int| from <= j ==> !occurs_at(s, p, j)),
    decreases s.len() + 1 - from,
{
    if from + p.len() > s.len() {
    } else if s.subrange(from, from + p.len()) == p {
    } else {
        lemma_find_from_bounds(s, p, from + 1);
    }
}

/// `s.starts_with(p)`.
pub fn starts_with(s: &Vec<char>, p: &Vec<char>) -> (r: bool)
    ensures
        r == has_prefix(s@, p@),
{
    if p.len() > s.len() {
        return false;
    }
    let n = p.len();
    for i in 0..n
        invariant
            n == p.len(),
            n <= s.len(),
            forall|j: int| 0 <= j < i ==> s@[j] == p@[j],
    {
        if s[i] != p[i] {
            assert(s@.take(n as int)[i as int] != p@[i as int]);
            return false;
        }
    }
    assert(s@.take(n as int) =~= p@);
    true
}

/// `s.ends_with(p)`.
pub fn ends_with(s: &Vec<char>, p: &Vec<char>) -> (r: bool)
    ensures
        r == has_suffix(s@, p@),
{
    if p.len() > s.len() {
        return false;
    }
    let n = p.len();
    let off = s.len() - n;
    for i in 0..n
        invariant
            n == p.len(),
            off + n == s.len(),
            forall|j: int| 0 <= j < i ==> s@[off + j] == p@[j],
    {
        if s[off + i] != p[i] {
            assert(s@.skip(off as int)[i as int] != p@[i as int]);
            return false;
        }
    }
    assert(s@.skip(off as int) =~= p@);
    true
}

/// Whether `p` occurs in `s` at `i`.
fn matches_at(s: &Vec<char>, p: &Vec<char>, i: usize) -> (r: bool)
    requires
        i + p.len() <= s.len(),
    ensures
        r == (s@.subrange(i as int, i + p.len()) == p@),
{
    let n = p.len();
    for j in 0..n
        invariant
            n == p.len(),
            i + n <= s.len(),
            forall|k: int| 0 <= k < j ==> s@[i + k] == p@[k],
    {
        if s[i + j] != p[j] {
            assert(s@.subrange(i as int, i + n)[j as int] != p@[j as int]);
            return false;
        }
    }
    assert(s@.subrange(i as int, i + n) =~= p@);
    true
}

/// The first index where `p` occurs in `s`, or `None`.
pub fn find_exec(s: &Vec<char>, p: &Vec<char>) -> (r: Option<usize>)
    ensures
        r matches Some(k) ==> find(s@, p@) == Some(k as int),
        r is None ==> find(s@, p@) is None,
{
    if p.len() > s.len() {
        return None;
    }
    let last = s.len() - p.len();
    let mut i: usize = 0;
    while i <= last
        invariant
            last + p.len() == s.len(),
            i <= last + 1,
            find(s@, p@) == find_from(s@, p@, i as int),
        decreases last + 1 - i,
    {
        if matches_at(s, p, i) {
            return Some(i);
        }
        if i == last {
            return None;
        }
        i = i + 1;
    }
    None
}

/// `s` contains `p` (`str::contains`).
pub fn contains_exec(s: &Vec<char>, p: &Vec<char>) -> (r: bool)
    ensures
        r == has_infix(s@, p@),
{
    proof {
        lemma_find_from_bounds(s@, p@, 0);
    }
    match find_exec(s, p) {
        Some(_) => true,
        None => {
            assert(!has_infix(s@, p@));
            false
        },
    }
}

/// The characters of `s` before the first `c` (`s.split(c).next()`).
pub fn take_before_char(s: &Vec<char>, c: char) -> (r: Vec<char>)
    ensures
        r@ == before_char(s@, c),
{
    let pat = vec![c];
    assert(pat@ =~= seq![c]);
    let end = match find_exec(s, &pat) {
        Some(k) => k,
        None => s.len(),
    };
    proof {
        lemma_find_from_bounds(s@, pat@, 0);
    }
    let r = slice_of(s, 0, end);
    assert(r@ =~= before_char(s@, c));
    r
}

/// `s[from..to]`.
pub fn slice_of(s: &Vec<char>, from: usize, to: usize) -> (r: Vec<char>)
    requires
        from <= to <= s.len(),
    ensures
        r@ == s@.subrange(from as int, to as int),
{
    let mut r: Vec<char> = Vec::new();
    for i in from..to
        invariant
            to <= s.len(),
            r@ == s@.subrange(from as int, i as int),
    {
        r.push(s[i]);
        assert(s@.subrange(from as int, i + 1) =~= s@.subrange(from as int, i as int).push(
            s@[i as int],
        ));
    }
    r
}

// ---------------------------------------------------------------------------
// Whitespace and trimming
// ---------------------------------------------------------------------------

/// `char::is_whitespace`: the characters with the Unicode `White_Space` property.
pub open spec fn is_whitespace(c: char) -> bool {
    ||| '\t' <= c <= '\r'
    ||| c == ' '
    ||| c == '\u{85}'
    ||| c == '\u{a0}'
    ||| c == '\u{1680}'
    ||| '\u{2000}' <= c <= '\u{200a}'
    ||| c == '\u{2028}'
    ||| c == '\u{2029}'
    ||| c == '\u{202f}'
    ||| c == '\u{205f}'
    ||| c == '\u{3000}'
}

/// `char::is_whitespace`.
pub fn is_whitespace_exec(c: char) -> (r: bool)
    ensures
        r == is_whitespace(c),
{
    ('\t' <= c && c <= '\r') || c == ' ' || c == '\u{85}' || c == '\u{a0}' || c == '\u{1680}' || (
    '\u{2000}' <= c && c <= '\u{200a}') || c == '\u{2028}' || c == '\u{2029}' || c == '\u{202f}'
        || c == '\u{205f}' || c == '\u{3000}'
}

/// `str::trim_start`.
pub open spec fn trim_start(s: Seq<char>) -> Seq<char>
    decreases s.len(),
{
    if s.len() > 0 && is_whitespace(s[0]) {
        trim_start(s.drop_first())
    } else {
        s
    }
}

/// `str::trim_end`.
pub open spec fn trim_end(s: Seq<char>) -> Seq<char>
    decreases s.len(),
{
    if s.len() > 0 && is_whitespace(s.last()) {
        trim_end(s.drop_last())
    } else {
        s
    }
}

/// `str::trim`: without the leading and the trailing whitespace.
pub open spec fn trim(s: Seq<char>) -> Seq<char> {
    trim_end(trim_start(s))
}

proof fn lemma_trim_start_skip(s: Seq<char>, i: int)
    requires
        0 <= i <= s.len(),
        forall|j: int| 0 <= j < i ==> is_whitespace(s[j]),
    ensures
        trim_start(s) == trim_start(s.skip(i)),
    decreases i,
{
    if i > 0 {
        assert(s.drop_first().skip(i - 1) =~= s.skip(i));
        lemma_trim_start_skip(s.drop_first(), i - 1);
    } else {
        assert(s.skip(0) =~= s);
    }
}

proof fn lemma_trim_end_take(s: Seq<char>, k: int)
    requires
        0 <= k <= s.len(),
        forall|j: int| k <= j < s.len() ==> is_whitespace(s[j]),
    ensures
        trim_end(s) == trim_end(s.take(k)),
    decreases s.len() - k,
{
    if k < s.len() {
        assert(s.drop_last().take(k) =~= s.take(k));
        lemma_trim_end_take(s.drop_last(), k);
    } else {
        assert(s.take(k) =~= s);
    }
}

/// `str::trim`.
pub fn trim_exec(s: &Vec<char>) -> (r: Vec<char>)
    ensures
        r@ == trim(s@),
{
    let n = s.len();
    let mut start: usize = 0;
    while start < n && is_whitespace_exec(s[start])
        invariant
            n == s.len(),
            start <= n,
            forall|j: int| 0 <= j < start ==> is_whitespace(s@[j]),
        decreases n - start,
    {
        start = start + 1;
    }
    proof {
        lemma_trim_start_skip(s@, start as int);
    }
    let mut end: usize = n;
    while end > start && is_whitespace_exec(s[end - 1])
        invariant
            n == s.len(),
            start <= end <= n,
            forall|j: int| end <= j < n ==> is_whitespace(s@[j]),
        decreases end - start,
    {
        end = end - 1;
    }
    let ghost rest = s@.skip(start as int);
    proof {
        assert forall|j: int| (end - start) <= j < rest.len() implies is_whitespace(rest[j]) by {}
        lemma_trim_end_take(rest, end - start);
        assert(rest.take(end - start) =~= s@.subrange(start as int, end as int));
        let t = s@.subrange(start as int, end as int);
        assert(t.len() == 0 || !is_whitespace(t[0]));
        assert(trim_start(t) == t);
        assert(t.len() == 0 || !is_whitespace(t.last()));
        assert(trim_end(t) == t);
    }
    slice_of(s, start, end)
}

// ---------------------------------------------------------------------------
// Lines
// ---------------------------------------------------------------------------

/// A line without the `'\r'` that ends it, if any.
pub open spec fn strip_cr(l: Seq<char>) -> Seq<char> {
    if l.len() > 0 && l.last() == '\r' {
        l.drop_last()
    } else {
        l
    }
}

/// `str::lines`: the text split at each `'\n'`, a `'\r'` before the `'\n'`
/// dropped, and no empty last line after a final `'\n'`.
pub open spec fn lines(s: Seq<char>) -> Seq<Seq<char>>
    decreases s.len(),
{
    if s.len() == 0 {
        seq![]
    } else {
        match find_char(s, '\n') {
            Some(k) => if 0 <= k < s.len() {
                seq![strip_cr(s.take(k))] + lines(s.skip(k + 1))
            } else {
                seq![]
            },
            None => seq![s],
        }
    }
}

proof fn lemma_find_char_after_plain(cur: Seq<char>, rest: Seq<char>)
    requires
        forall|j: int| 0 <= j < cur.len() ==> cur[j] != '\n',
    ensures
        find_char(cur + seq!['\n'] + rest, '\n') == Some(cur.len() as int),
{
    let s = cur + seq!['\n'] + rest;
    lemma_find_from_bounds(s, seq!['\n'], 0);
    assert(occurs_at(s, seq!['\n'], cur.len() as int)) by {
        assert(s.subrange(cur.len() as int, cur.len() + 1 as int) =~= seq!['\n']);
    }
    match find_char(s, '\n') {
        Some(k) => {
            if k < cur.len() {
                assert(s.subrange(k, k + 1)[0] == s[k]);
            }
        },
        None => {},
    }
}

proof fn lemma_find_char_none(cur: Seq<char>)
    requires
        forall|j: int| 0 <= j < cur.len() ==> cur[j] != '\n',
    ensures
        find_char(cur, '\n') is None,
{
    lemma_find_from_bounds(cur, seq!['\n'], 0);
    match find_char(cur, '\n') {
        Some(k) => {
            assert(cur.subrange(k, k + 1)[0] == cur[k]);
        },
        None => {},
    }
}

/// `str::lines`.
pub fn lines_exec(s: &Vec<char>) -> (r: Vec<Vec<char>>)
    ensures
        r@.map_values(|l: Vec<char>| l@) == lines(s@),
{
    let mut out: Vec<Vec<char>> = Vec::new();
    let mut cur: Vec<char> = Vec::new();
    let n = s.len();
    assert(out@.map_values(|l: Vec<char>| l@) + lines(cur@ + s@.skip(0)) =~= lines(s@)) by {
        assert(cur@ + s@.skip(0) =~= s@);
    }
    for i in 0..n
        invariant
            n == s.len(),
            forall|j: int| 0 <= j < cur@.len() ==> cur@[j] != '\n',
            lines(s@) == out@.map_values(|l: Vec<char>| l@) + lines(cur@ + s@.skip(i as int)),
    {
        let c = s[i];
        let ghost rest = s@.skip(i + 1);
        assert(s@.skip(i as int) =~= seq![c] + rest);
        if c == '\n' {
            proof {
                lemma_find_char_after_plain(cur@, rest);
                let t = cur@ + seq!['\n'] + rest;
                assert(cur@ + s@.skip(i as int) =~= t);
                assert(t.take(cur@.len() as int) =~= cur@);
                assert(t.skip(cur@.len() + 1 as int) =~= rest);
                assert(Seq::<char>::empty() + rest =~= rest);
            }
            let ghost old_cur = cur@;
            let line = if cur.len() > 0 && cur[cur.len() - 1] == '\r' {
                let l = slice_of(&cur, 0, cur.len() - 1);
                assert(l@ =~= cur@.drop_last());
                l
            } else {
                cur
            };
            let ghost before = out@.map_values(|l: Vec<char>| l@);
            out.push(line);
            assert(out@.map_values(|l: Vec<char>| l@) =~= before.push(strip_cr(old_cur)));
            cur = Vec::new();
            assert(cur@ + rest =~= rest);
            assert(before + (seq![strip_cr(old_cur)] + lines(rest)) =~= before.push(strip_cr(
                old_cur,
            )) + lines(rest));
        } else {
            let ghost old_cur = cur@;
            cur.push(c);
            assert(old_cur + s@.skip(i as int) =~= cur@ + rest);
        }
    }
    proof {
        assert(s@.skip(n as int) =~= Seq::<char>::empty());
        assert(cur@ + s@.skip(n as int) =~= cur@);
        lemma_find_char_none(cur@);
    }
    if cur.len() > 0 {
        let ghost before = out@.map_values(|l: Vec<char>| l@);
        out.push(cur);
        assert(out@.map_values(|l: Vec<char>| l@) =~= before + seq![cur@]);
    } else {
        assert(out@.map_values(|l: Vec<char>| l@) =~= out@.map_values(|l: Vec<char>| l@) + lines(
            cur@,
        ));
    }
    out
}

// ---------------------------------------------------------------------------
// Prefix removal
// ---------------------------------------------------------------------------

/// `str::strip_prefix`.
pub open spec fn strip_prefix(s: Seq<char>, p: Seq<char>) -> Option<Seq<char>> {
    if has_prefix(s, p) {
        Some(s.skip(p.len() as int))
    } else {
        None
    }
}

/// `str::strip_prefix`.
pub fn strip_prefix_exec(s: &Vec<char>, p: &Vec<char>) -> (r: Option<Vec<char>>)
    ensures
        r matches Some(v) ==> strip_prefix(s@, p@) == Some(v@),
        r is None ==> strip_prefix(s@, p@) is None,
{
    if starts_with(s, p) {
        let v = slice_of(s, p.len(), s.len());
        assert(v@ =~= s@.skip(p@.len() as int));
        Some(v)
    } else {
        None
    }
}

// ---------------------------------------------------------------------------
// Decimal numbers
// ---------------------------------------------------------------------------

/// An ASCII decimal digit.
pub open spec fn is_digit(c: char) -> bool {
    '0' <= c <= '9'
}

/// Every character is a decimal digit.
pub open spec fn all_digits(d: Seq<char>) -> bool {
    forall|i: int| 0 <= i < d.len() ==> is_digit(#[trigger] d[i])
}

/// The value of a run of decimal digits.
pub open spec fn digits_value(d: Seq<char>) -> nat
    decreases d.len(),
{
    if d.len() == 0 {
        0
    } else {
        digits_value(d.drop_last()) * 10 + ((d.last() as int) - ('0' as int)) as nat
    }
}

/// `str::parse::<u32>`: an optional `'+'`, then at least one decimal digit,
/// with a value that fits in a `u32`.
pub open spec fn parse_u32(s: Seq<char>) -> Option<u32> {
    let d = if s.len() > 0 && s[0] == '+' {
        s.drop_first()
    } else {
        s
    };
    if d.len() > 0 && all_digits(d) && digits_value(d) <= u32::MAX {
        Some(digits_value(d) as u32)
    } else {
        None
    }
}

proof fn lemma_digits_value_grows(d: Seq<char>, k: int)
    requires
        0 <= k <= d.len(),
    ensures
        digits_value(d.take(k)) <= digits_value(d),
    decreases d.len(),
{
    if k < d.len() {
        assert(d.drop_last().take(k) =~= d.take(k));
        lemma_digits_value_grows(d.drop_last(), k);
    } else {
        assert(d.take(k) =~= d);
    }
}

/// `str::parse::<u32>`.
pub fn parse_u32_exec(s: &Vec<char>) -> (r: Option<u32>)
    ensures
        r == parse_u32(s@),
{
    let n = s.len();
    let start: usize = if n > 0 && s[0] == '+' {
        1
    } else {
        0
    };
    let ghost d = s@.skip(start as int);
    assert(d =~= (if s@.len() > 0 && s@[0] == '+' {
        s@.drop_first()
    } else {
        s@
    }));
    if start == n {
        return None;
    }
    let mut value: u64 = 0;
    for i in start..n
        invariant
            n == s.len(),
            start < n,
            d == s@.skip(start as int),
            d == (if s@.len() > 0 && s@[0] == '+' {
                s@.drop_first()
            } else {
                s@
            }),
            value <= u32::MAX,
            value == digits_value(d.take(i - start)),
            forall|j: int| 0 <= j < i - start ==> is_digit(d[j]),
    {
        let c = s[i];
        assert(d[i - start] == c);
        if !('0' <= c && c <= '9') {
            assert(!is_digit(d[i - start]));
            assert(!all_digits(d));
            return None;
        }
        let digit = (c as u32 - '0' as u32) as u64;
        assert(d.take(i - start + 1).drop_last() =~= d.take(i - start));
        assert(d.take(i - start + 1).last() == c);
        value = value * 10 + digit;
        assert(value == digits_value(d.take(i - start + 1)));
        if value > u32::MAX as u64 {
            proof {
                lemma_digits_value_grows(d, i - start + 1);
            }
            return None;
        }
    }
    assert(d.take(n - start) =~= d);
    Some(value as u32)
}

// ---------------------------------------------------------------------------
// Lexicographic order
// ---------------------------------------------------------------------------

/// Lexicographic order by code point, which is also the order of the UTF-8
/// bytes (the order of `str` and `String`).
pub open spec fn lex_le(a: Seq<char>, b: Seq<char>) -> bool
    decreases a.len(),
{
    if a.len() == 0 {
        true
    } else if b.len() == 0 {
        false
    } else if a[0] != b[0] {
        a[0] < b[0]
    } else {
        lex_le(a.drop_first(), b.drop_first())
    }
}

/// `lex_le` as a relation.
pub open spec fn lex_order() -> spec_fn(Seq<char>, Seq<char>) -> bool {
    |a: Seq<char>, b: Seq<char>| lex_le(a, b)
}

pub proof fn lemma_lex_reflexive(a: Seq<char>)
    ensures
        lex_le(a, a),
    decreases a.len(),
{
    if a.len() > 0 {
        lemma_lex_reflexive(a.drop_first());
    }
}

/// Texts that share a prefix are ordered as what follows it.
pub proof fn lemma_lex_common_prefix(p: Seq<char>, a: Seq<char>, b: Seq<char>)
    ensures
        lex_le(p + a, p + b) == lex_le(a, b),
    decreases p.len(),
{
    if p.len() == 0 {
        assert(p + a =~= a);
        assert(p + b =~= b);
    } else {
        assert((p + a).drop_first() =~= p.drop_first() + a);
        assert((p + b).drop_first() =~= p.drop_first() + b);
        lemma_lex_common_prefix(p.drop_first(), a, b);
    }
}

proof fn lemma_lex_antisymmetric(a: Seq<char>, b: Seq<char>)
    requires
        lex_le(a, b),
        lex_le(b, a),
    ensures
        a == b,
    decreases a.len(),
{
    if a.len() > 0 && b.len() > 0 {
        lemma_lex_antisymmetric(a.drop_first(), b.drop_first());
        assert(a =~= seq![a[0]] + a.drop_first());
        assert(b =~= seq![b[0]] + b.drop_first());
    }
}

pub proof fn lemma_lex_transitive(a: Seq<char>, b: Seq<char>, c: Seq<char>)
    requires
        lex_le(a, b),
        lex_le(b, c),
    ensures
        lex_le(a, c),
    decreases a.len(),
{
    if a.len() > 0 && b.len() > 0 && c.len() > 0 {
        if a[0] == b[0] && b[0] == c[0] {
            lemma_lex_transitive(a.drop_first(), b.drop_first(), c.drop_first());
        }
    }
}

pub proof fn lemma_lex_total(a: Seq<char>, b: Seq<char>)
    ensures
        lex_le(a, b) || lex_le(b, a),
    decreases a.len(),
{
    if a.len() > 0 && b.len() > 0 && a[0] == b[0] {
        lemma_lex_total(a.drop_first(), b.drop_first());
    }
}

/// `lex_le` is a total order.
pub proof fn lemma_lex_total_ordering()
    ensures
        vstd::relations::total_ordering(lex_order()),
{
    assert forall|a: Seq<char>| #[trigger] lex_order()(a, a) by {
        lemma_lex_reflexive(a);
    }
    assert forall|a: Seq<char>, b: Seq<char>| #[trigger]
        lex_order()(a, b) && #[trigger] lex_order()(b, a) implies a == b by {
        lemma_lex_antisymmetric(a, b);
    }
    assert forall|a: Seq<char>, b: Seq<char>, c: Seq<char>| #[trigger]
        lex_order()(a, b) && #[trigger] lex_order()(b, c) implies lex_order()(a, c) by {
        lemma_lex_transitive(a, b, c);
    }
    assert forall|a: Seq<char>, b: Seq<char>| #[trigger]
        lex_order()(a, b) || #[trigger] lex_order()(b, a) by {
        lemma_lex_total(a, b);
    }
}

/// `a <= b` for strings.
pub fn lex_le_exec(a: &Vec<char>, b: &Vec<char>) -> (r: bool)
    ensures
        r == lex_le(a@, b@),
{
    let mut i: usize = 0;
    assert(a@.skip(0) =~= a@);
    assert(b@.skip(0) =~= b@);
    while i < a.len() && i < b.len() && a[i] == b[i]
        invariant
            i <= a.len(),
            i <= b.len(),
            lex_le(a@, b@) == lex_le(a@.skip(i as int), b@.skip(i as int)),
        decreases a.len() - i,
    {
        assert(a@.skip(i as int).drop_first() =~= a@.skip(i + 1));
        assert(b@.skip(i as int).drop_first() =~= b@.skip(i + 1));
        i = i + 1;
    }
    if i == a.len() {
        true
    } else if i == b.len() {
        false
    } else {
        a[i] < b[i]
    }
}

/// The strings of `v`, sorted (`slice::sort` on `String`s).
pub fn sort_strings(v: &Vec<String>) -> (r: Vec<String>)
    ensures
        views(r@) == views(v@).sort_by(lex_order()),
{
    let mut out: Vec<String> = Vec::new();
    let n = v.len();
    for i in 0..n
        invariant
            n == v.len(),
            sorted_by(views(out@), lex_order()),
            views(out@).to_multiset() == views(v@).take(i as int).to_multiset(),
    {
        let x = v[i].clone();
        let xc = chars_of(x.as_str());
        let mut p: usize = 0;
        while p < out.len()
            invariant
                p <= out.len(),
                xc@ == x@,
                forall|j: int| 0 <= j < p ==> lex_le(#[trigger] views(out@)[j], x@),
            ensures
                p <= out.len(),
                forall|j: int| 0 <= j < p ==> lex_le(#[trigger] views(out@)[j], x@),
                p < out.len() ==> !lex_le(views(out@)[p as int], x@),
            decreases out.len() - p,
        {
            let oc = chars_of(out[p].as_str());
            assert(oc@ == views(out@)[p as int]);
            if !lex_le_exec(&oc, &xc) {
                break;
            }
            p = p + 1;
        }
        let ghost before = views(out@);
        proof {
            lemma_lex_total_ordering();
            if p < out.len() {
                lemma_lex_total(views(out@)[p as int], x@);
            }
        }
        out.insert(p, x);
        proof {
            lemma_lex_total_ordering();
            assert(views(out@) =~= before.insert(p as int, x@));
            assert(views(v@).take(i + 1) =~= views(v@).take(i as int).push(x@));
            assert forall|a: int, b: int| 0 <= a < b < views(out@).len() implies #[trigger]
                lex_order()(views(out@)[a], views(out@)[b]) by {
                let o = views(out@);
                if b < p {
                } else if a < p && b == p {
                } else if a < p {
                    assert(lex_order()(before[a], before[b - 1]));
                } else if a == p {
                    lemma_lex_total(before[p as int], x@);
                    if p < before.len() {
                        assert(lex_le(x@, before[p as int]));
                        assert(lex_order()(before[p as int], before[b - 1]) || b - 1 == p);
                        if b - 1 > p {
                            lemma_lex_transitive(x@, before[p as int], before[b - 1]);
                        }
                    }
                } else {
                    assert(lex_order()(before[a - 1], before[b - 1]));
                }
            }
        }
    }
    proof {
        assert(views(v@).take(n as int) =~= views(v@));
        lemma_lex_total_ordering();
        views(v@).lemma_sort_by_ensures(lex_order());
        vstd::seq_lib::lemma_sorted_unique(views(out@), views(v@).sort_by(lex_order()), lex_order());
    }
    out
}

// ---------------------------------------------------------------------------
// Splitting at a separator
// ---------------------------------------------------------------------------

/// `s.split(c)`: the pieces between occurrences of `c`; always at least one.
pub open spec fn split_on(s: Seq<char>, c: char) -> Seq<Seq<char>>
    decreases s.len(),
{
    match find_char(s, c) {
        Some(k) => if 0 <= k < s.len() {
            seq![s.take(k)] + split_on(s.skip(k + 1), c)
        } else {
            seq![s]
        },
        None => seq![s],
    }
}

proof fn lemma_find_char_after(cur: Seq<char>, c: char, rest: Seq<char>)
    requires
        forall|j: int| 0 <= j < cur.len() ==> cur[j] != c,
    ensures
        find_char(cur + seq![c] + rest, c) == Some(cur.len() as int),
{
    let s = cur + seq![c] + rest;
    lemma_find_from_bounds(s, seq![c], 0);
    assert(occurs_at(s, seq![c], cur.len() as int)) by {
        assert(s.subrange(cur.len() as int, cur.len() + 1 as int) =~= seq![c]);
    }
    match find_char(s, c) {
        Some(k) => {
            if k < cur.len() {
                assert(s.subrange(k, k + 1)[0] == s[k]);
            }
        },
        None => {},
    }
}

proof fn lemma_find_char_absent(cur: Seq<char>, c: char)
    requires
        forall|j: int| 0 <= j < cur.len() ==> cur[j] != c,
    ensures
        find_char(cur, c) is None,
{
    lemma_find_from_bounds(cur, seq![c], 0);
    match find_char(cur, c) {
        Some(k) => {
            assert(cur.subrange(k, k + 1)[0] == cur[k]);
        },
        None => {},
    }
}

/// `s.split(c)`.
pub fn split_exec(s: &Vec<char>, c: char) -> (r: Vec<Vec<char>>)
    ensures
        r@.map_values(|l: Vec<char>| l@) == split_on(s@, c),
{
    let mut out: Vec<Vec<char>> = Vec::new();
    let mut cur: Vec<char> = Vec::new();
    let n = s.len();
    assert(out@.map_values(|l: Vec<char>| l@) + split_on(cur@ + s@.skip(0), c) =~= split_on(s@, c)) by {
        assert(cur@ + s@.skip(0) =~= s@);
    }
    for i in 0..n
        invariant
            n == s.len(),
            forall|j: int| 0 <= j < cur@.len() ==> cur@[j] != c,
            split_on(s@, c) == out@.map_values(|l: Vec<char>| l@) + split_on(cur@ + s@.skip(i as int), c),
    {
        let x = s[i];
        let ghost rest = s@.skip(i + 1);
        assert(s@.skip(i as int) =~= seq![x] + rest);
        if x == c {
            let ghost old_cur = cur@;
            proof {
                lemma_find_char_after(cur@, c, rest);
                let t = cur@ + seq![c] + rest;
                assert(cur@ + s@.skip(i as int) =~= t);
                assert(t.take(cur@.len() as int) =~= cur@);
                assert(t.skip(cur@.len() + 1 as int) =~= rest);
            }
            let ghost before = out@.map_values(|l: Vec<char>| l@);
            out.push(cur);
            assert(out@.map_values(|l: Vec<char>| l@) =~= before.push(old_cur));
            cur = Vec::new();
            assert(cur@ + rest =~= rest);
            assert(before + (seq![old_cur] + split_on(rest, c)) =~= before.push(old_cur) + split_on(rest, c));
        } else {
            let ghost old_cur = cur@;
            cur.push(x);
            assert(old_cur + s@.skip(i as int) =~= cur@ + rest);
        }
    }
    proof {
        assert(cur@ + s@.skip(n as int) =~= cur@);
        lemma_find_char_absent(cur@, c);
    }
    let ghost before = out@.map_values(|l: Vec<char>| l@);
    out.push(cur);
    assert(out@.map_values(|l: Vec<char>| l@) =~= before + seq![cur@]);
    out
}

// ---------------------------------------------------------------------------
// The last piece after a separator
// ---------------------------------------------------------------------------

proof fn lemma_after_last_char(s: Seq<char>, c: char, k: int)
    requires
        0 <= k <= s.len(),
        k == 0 || s[k - 1] == c,
        forall|j: int| k <= j < s.len() ==> s[j] != c,
    ensures
        after_last_char(s, c) == s.skip(k),
    decreases s.len(),
{
    if s.len() > k {
        lemma_after_last_char(s.drop_last(), c, k);
        assert(s.drop_last().skip(k).push(s.last()) =~= s.skip(k));
    } else {
        assert(s.skip(k) =~= Seq::<char>::empty());
    }
}

/// The text after the last `c` (`s.rsplit(c).next()`).
pub fn take_after_last_char(s: &Vec<char>, c: char) -> (r: Vec<char>)
    ensures
        r@ == after_last_char(s@, c),
{
    let n = s.len();
    let mut k: usize = 0;
    for i in 0..n
        invariant
            n == s.len(),
            k <= i,
            k == 0 || s@[k - 1] == c,
            forall|j: int| k <= j < i ==> s@[j] != c,
    {
        if s[i] == c {
            k = i + 1;
        }
    }
    proof {
        lemma_after_last_char(s@, c, k as int);
    }
    let r = slice_of(s, k, n);
    assert(r@ =~= s@.skip(k as int));
    r
}

/// The pieces of `parts`, with `sep` between each two (`[..].join(sep)`).
pub open spec fn join_with(parts: Seq<Seq<char>>, sep: Seq<char>) -> Seq<char>
    decreases parts.len(),
{
    if parts.len() == 0 {
        seq![]
    } else if parts.len() == 1 {
        parts[0]
    } else {
        join_with(parts.drop_last(), sep) + sep + parts.last()
    }
}

/// `parts.join(sep)`.
pub fn join_strings(parts: &Vec<String>, sep: &str) -> (r: String)
    ensures
        r@ == join_with(views(parts@), sep@),
{
    let mut r = String::new();
    let n = parts.len();
    for i in 0..n
        invariant
            n == parts.len(),
            r@ == join_with(views(parts@).take(i as int), sep@),
    {
        let ghost t = views(parts@).take(i + 1);
        assert(t.drop_last() =~= views(parts@).take(i as int));
        assert(t.last() == parts@[i as int]@);
        if i > 0 {
            r.append(sep);
        } else {
            assert(r@ =~= Seq::<char>::empty());
        }
        r.append(parts[i].as_str());
        assert(i == 0 ==> r@ =~= t[0]);
    }
    assert(views(parts@).take(n as int) =~= views(parts@));
    r
}

// ---------------------------------------------------------------------------
// Decimal numbers, written
// ---------------------------------------------------------------------------

/// The decimal digit for `d`.
pub open spec fn digit_char(d: nat) -> char {
    if d == 0 {
        '0'
    } else if d == 1 {
        '1'
    } else if d == 2 {
        '2'
    } else if d == 3 {
        '3'
    } else if d == 4 {
        '4'
    } else if d == 5 {
        '5'
    } else if d == 6 {
        '6'
    } else if d == 7 {
        '7'
    } else if d == 8 {
        '8'
    } else {
        '9'
    }
}

/// `n` written in decimal, without leading zeros (`Display` for integers).
pub open spec fn decimal(n: nat) -> Seq<char>
    decreases n,
{
    if n < 10 {
        seq![digit_char(n)]
    } else {
        decimal(n / 10).push(digit_char(n % 10))
    }
}

fn digit(d: usize) -> (c: char)
    requires
        d < 10,
    ensures
        c == digit_char(d as nat),
{
    if d == 0 {
        '0'
    } else if d == 1 {
        '1'
    } else if d == 2 {
        '2'
    } else if d == 3 {
        '3'
    } else if d == 4 {
        '4'
    } else if d == 5 {
        '5'
    } else if d == 6 {
        '6'
    } else if d == 7 {
        '7'
    } else if d == 8 {
        '8'
    } else {
        '9'
    }
}

/// Appends `n` written in decimal.
pub fn push_decimal(s: &mut String, n: usize)
    ensures
        final(s)@ == old(s)@ + decimal(n as nat),
    decreases n,
{
    if n >= 10 {
        push_decimal(s, n / 10);
    }
    let ghost before = s@;
    push_char(s, digit(n % 10));
    assert(s@ =~= old(s)@ + decimal(n as nat));
}

// ---------------------------------------------------------------------------
// Joining what was split
// ---------------------------------------------------------------------------

/// Joining `first` and more pieces puts `first` and a separator before the
/// rest joined.
pub proof fn lemma_join_cons(first: Seq<char>, pieces: Seq<Seq<char>>)
    requires
        pieces.len() >= 1,
    ensures
        forall|sep: Seq<char>|
            #[trigger] join_with(seq![first] + pieces, sep) == first + sep + join_with(pieces, sep),
    decreases pieces.len(),
{
    assert forall|sep: Seq<char>|
        #[trigger] join_with(seq![first] + pieces, sep) == first + sep + join_with(pieces, sep) by {
        let all = seq![first] + pieces;
        assert(all.last() == pieces.last());
        assert(join_with(all, sep) == join_with(all.drop_last(), sep) + sep + all.last());
        if pieces.len() == 1 {
            assert(all.drop_last() =~= seq![first]);
            assert(join_with(all.drop_last(), sep) == first);
            assert(join_with(pieces, sep) == pieces[0]);
        } else {
            lemma_join_cons(first, pieces.drop_last());
            assert(all.drop_last() =~= seq![first] + pieces.drop_last());
            assert(join_with(all.drop_last(), sep) == first + sep + join_with(pieces.drop_last(), sep));
            assert(join_with(pieces, sep) == join_with(pieces.drop_last(), sep) + sep + pieces.last());
            assert(first + sep + join_with(pieces.drop_last(), sep) + sep + pieces.last() =~= first
                + sep + join_with(pieces, sep));
        }
    }
}

proof fn lemma_split_nonempty(s: Seq<char>, c: char)
    ensures
        split_on(s, c).len() >= 1,
    decreases s.len(),
{
    match find_char(s, c) {
        Some(k) => if 0 <= k < s.len() {
            lemma_split_nonempty(s.skip(k + 1), c);
        },
        None => {},
    }
}

/// Joining with `:` what was split at `:` gives the text back.
pub proof fn lemma_join_split(s: Seq<char>)
    ensures
        join_with(split_on(s, ':'), ":"@) == s,
    decreases s.len(),
{
    lemma_find_from_bounds(s, seq![':'], 0);
    match find_char(s, ':') {
        Some(k) => {
            assert(occurs_at(s, seq![':'], k));
            assert(s.subrange(k, k + 1)[0] == s[k]);
            let rest = s.skip(k + 1);
            lemma_join_split(rest);
            lemma_split_nonempty(rest, ':');
            lemma_join_cons(s.take(k), split_on(rest, ':'));
            reveal_strlit(":");
            assert(s.take(k) + ":"@ + rest =~= s);
        },
        None => {},
    }
}

} // verus!
