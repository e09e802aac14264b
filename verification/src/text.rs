//! Character-sequence helpers shared by the document tooling.
//!
//! Text is modelled as `Seq<char>`, the view of `String` and `&str`.

use vstd::prelude::*;

verus! {

// ─────────────────────────────────────────────────────────────────────────
// Character classes
// ─────────────────────────────────────────────────────────────────────────

/// Unicode `White_Space` property, as `char::is_whitespace` defines it.
pub open spec fn spec_is_whitespace(c: char) -> bool {
    let n = c as u32;
    (9 <= n <= 13) || n == 32 || n == 0x85 || n == 0xA0 || n == 0x1680
        || (0x2000 <= n <= 0x200A) || n == 0x2028 || n == 0x2029 || n == 0x202F
        || n == 0x205F || n == 0x3000
}

/// Executable form of [`spec_is_whitespace`].
pub fn is_whitespace(c: char) -> (r: bool)
    ensures
        r == spec_is_whitespace(c),
{
    let n = c as u32;
    (9 <= n && n <= 13) || n == 32 || n == 0x85 || n == 0xA0 || n == 0x1680
        || (0x2000 <= n && n <= 0x200A) || n == 0x2028 || n == 0x2029 || n == 0x202F
        || n == 0x205F || n == 0x3000
}

/// ASCII decimal digit.
pub open spec fn spec_is_digit(c: char) -> bool {
    '0' <= c && c <= '9'
}

// ─────────────────────────────────────────────────────────────────────────
// Conversions between strings and character vectors
// ─────────────────────────────────────────────────────────────────────────

/// The characters of a string slice, in order.
pub fn chars_of(s: &str) -> (v: Vec<char>)
    ensures
        v@ == s@,
{
    let n = s.unicode_len();
    let mut v: Vec<char> = Vec::new();
    let mut i: usize = 0;
    while i < n
        invariant
            n == s@.len(),
            i <= n,
            v@ == s@.subrange(0, i as int),
        decreases n - i,
    {
        let c = s.get_char(i);
        v.push(c);
        i = i + 1;
    }
    v
}

/// Appends one character to a string (`String::push`).
#[verifier::external_body]
pub fn push_char(s: &mut String, c: char)
    ensures
        final(s)@ == old(s)@.push(c),
{
    s.push(c);
}

/// Appends a string slice to a string.
pub fn push_str(s: &mut String, t: &str)
    ensures
        final(s)@ == old(s)@ + t@,
{
    s.append(t);
}

/// A string holding exactly the given characters.
pub fn string_of(v: &[char]) -> (s: String)
    ensures
        s@ == v@,
{
    let mut s = String::new();
    let mut i: usize = 0;
    while i < v.len()
        invariant
            i <= v@.len(),
            s@ == v@.subrange(0, i as int),
        decreases v@.len() - i,
    {
        push_char(&mut s, v[i]);
        i = i + 1;
    }
    s
}

/// An owned copy of a string slice.
pub fn owned(t: &str) -> (s: String)
    ensures
        s@ == t@,
{
    let mut s = String::new();
    s.append(t);
    s
}

/// The concatenation of two string slices.
pub fn concat2(a: &str, b: &str) -> (s: String)
    ensures
        s@ == a@ + b@,
{
    let mut s = owned(a);
    s.append(b);
    s
}

/// The concatenation of three string slices.
pub fn concat3(a: &str, b: &str, c: &str) -> (s: String)
    ensures
        s@ == a@ + b@ + c@,
{
    let mut s = owned(a);
    s.append(b);
    s.append(c);
    s
}

/// Character-wise equality of two string slices.
pub fn str_eq(a: &str, b: &str) -> (r: bool)
    ensures
        r == (a@ == b@),
{
    let x = chars_of(a);
    let y = chars_of(b);
    seq_eq(&x, &y)
}

/// Element-wise equality of two character slices.
pub fn seq_eq(x: &[char], y: &[char]) -> (r: bool)
    ensures
        r == (x@ == y@),
{
    if x.len() != y.len() {
        return false;
    }
    let mut i: usize = 0;
    while i < x.len()
        invariant
            x@.len() == y@.len(),
            i <= x@.len(),
            forall|j: int| 0 <= j < i ==> x@[j] == y@[j],
        decreases x@.len() - i,
    {
        if x[i] != y[i] {
            return false;
        }
        i = i + 1;
    }
    assert(x@ =~= y@);
    true
}

// ─────────────────────────────────────────────────────────────────────────
// Prefixes, suffixes and search
// ─────────────────────────────────────────────────────────────────────────

/// `p` occurs in `s` starting at index `i`.
pub open spec fn occurs_at(s: Seq<char>, p: Seq<char>, i: int) -> bool {
    0 <= i && i + p.len() <= s.len() && s.subrange(i, i + p.len()) == p
}

/// `s` starts with `p`.
pub open spec fn spec_starts_with(s: Seq<char>, p: Seq<char>) -> bool {
    occurs_at(s, p, 0)
}

/// `s` ends with `p`.
pub open spec fn spec_ends_with(s: Seq<char>, p: Seq<char>) -> bool {
    p.len() <= s.len() && occurs_at(s, p, s.len() - p.len())
}

/// Index of the first occurrence of `p` in `s` at or after `i`.
pub open spec fn spec_find_from(s: Seq<char>, p: Seq<char>, i: int) -> Option<int>
    decreases s.len() + 1 - i,
{
    if i < 0 || i + p.len() > s.len() {
        None
    } else if occurs_at(s, p, i) {
        Some(i)
    } else {
        spec_find_from(s, p, i + 1)
    }
}

/// Index of the first occurrence of `p` in `s` (`str::find`).
pub open spec fn spec_find(s: Seq<char>, p: Seq<char>) -> Option<int> {
    spec_find_from(s, p, 0)
}

/// `p` occurs somewhere in `s`.
pub open spec fn spec_contains(s: Seq<char>, p: Seq<char>) -> bool {
    spec_find(s, p) is Some
}

/// Whether `p` occurs in `s` at index `i`.
pub fn matches_at(s: &[char], p: &[char], i: usize) -> (r: bool)
    ensures
        r == occurs_at(s@, p@, i as int),
{
    if i > s.len() || p.len() > s.len() - i {
        return false;
    }
    let mut k: usize = 0;
    while k < p.len()
        invariant
            i + p@.len() <= s@.len(),
            s@.len() == s.len(),
            k <= p@.len(),
            forall|j: int| 0 <= j < k ==> s@[i + j] == p@[j],
        decreases p@.len() - k,
    {
        if s[i + k] != p[k] {
            assert(s@.subrange(i as int, i + p@.len())[k as int] != p@[k as int]);
            return false;
        }
        k = k + 1;
    }
    assert(s@.subrange(i as int, i + p@.len()) =~= p@);
    true
}

/// Facts about [`spec_find_from`]: its result is an occurrence, and no
/// earlier one exists from `i` on.
pub proof fn lemma_find_from(s: Seq<char>, p: Seq<char>, i: int)
    requires
        0 <= i,
    ensures
        spec_find_from(s, p, i) matches Some(k) ==> i <= k && occurs_at(s, p, k)
            && forall|j: int| i <= j < k ==> !occurs_at(s, p, j),
        spec_find_from(s, p, i) is None ==> forall|j: int| i <= j ==> !occurs_at(s, p, j),
    decreases s.len() + 1 - i,
{
    if i + p.len() > s.len() {
    } else if occurs_at(s, p, i) {
    } else {
        lemma_find_from(s, p, i + 1);
    }
}

/// First index at or after `from` where `p` occurs in `s`.
pub fn find_from(s: &[char], p: &[char], from: usize) -> (r: Option<usize>)
    ensures
        r matches Some(k) ==> spec_find_from(s@, p@, from as int) == Some(k as int),
        r is None ==> spec_find_from(s@, p@, from as int) is None,
{
    let mut i = from;
    while i <= s.len() && p.len() <= s.len() - i
        invariant
            from <= i,
            spec_find_from(s@, p@, from as int) == spec_find_from(s@, p@, i as int),
        decreases s@.len() + 1 - i,
    {
        if matches_at(s, p, i) {
            return Some(i);
        }
        assert(i < s.len()) by {
            if i == s.len() {
                assert(s@.subrange(i as int, i as int) =~= p@);
            }
        }
        i = i + 1;
    }
    None
}

/// First index where `p` occurs in `s`.
pub fn find(s: &[char], p: &[char]) -> (r: Option<usize>)
    ensures
        r matches Some(k) ==> spec_find(s@, p@) == Some(k as int),
        r is None ==> spec_find(s@, p@) is None,
{
    find_from(s, p, 0)
}

/// Whether `s` starts with `p`.
pub fn starts_with(s: &[char], p: &[char]) -> (r: bool)
    ensures
        r == spec_starts_with(s@, p@),
{
    matches_at(s, p, 0)
}

/// Whether `s` ends with `p`.
pub fn ends_with(s: &[char], p: &[char]) -> (r: bool)
    ensures
        r == spec_ends_with(s@, p@),
{
    if p.len() > s.len() {
        false
    } else {
        matches_at(s, p, s.len() - p.len())
    }
}

/// Whether the character `c` occurs in `s`.
pub fn contains_char(s: &[char], c: char) -> (r: bool)
    ensures
        r == s@.contains(c),
{
    let mut i: usize = 0;
    while i < s.len()
        invariant
            i <= s@.len(),
            forall|j: int| 0 <= j < i ==> s@[j] != c,
        decreases s@.len() - i,
    {
        if s[i] == c {
            return true;
        }
        i = i + 1;
    }
    false
}

// ─────────────────────────────────────────────────────────────────────────
// Trimming
// ─────────────────────────────────────────────────────────────────────────

/// `s` without its leading whitespace (`str::trim_start`).
pub open spec fn spec_trim_start(s: Seq<char>) -> Seq<char>
    decreases s.len(),
{
    if s.len() > 0 && spec_is_whitespace(s[0]) {
        spec_trim_start(s.drop_first())
    } else {
        s
    }
}

/// `s` without its trailing whitespace (`str::trim_end`).
pub open spec fn spec_trim_end(s: Seq<char>) -> Seq<char>
    decreases s.len(),
{
    if s.len() > 0 && spec_is_whitespace(s.last()) {
        spec_trim_end(s.drop_last())
    } else {
        s
    }
}

/// `s` without leading and trailing whitespace (`str::trim`).
pub open spec fn spec_trim(s: Seq<char>) -> Seq<char> {
    spec_trim_end(spec_trim_start(s))
}

/// Number of leading whitespace characters of `s`.
pub open spec fn spec_leading_ws(s: Seq<char>) -> nat
    decreases s.len(),
{
    if s.len() > 0 && spec_is_whitespace(s[0]) {
        1 + spec_leading_ws(s.drop_first())
    } else {
        0
    }
}

proof fn lemma_trim_start_skip(s: Seq<char>, i: int)
    requires
        0 <= i <= s.len(),
        forall|j: int| 0 <= j < i ==> spec_is_whitespace(s[j]),
    ensures
        spec_trim_start(s) == spec_trim_start(s.subrange(i, s.len() as int)),
    decreases i,
{
    if i > 0 {
        lemma_trim_start_skip(s.drop_first(), i - 1);
        assert(s.drop_first().subrange(i - 1, s.len() - 1) =~= s.subrange(i, s.len() as int));
    } else {
        assert(s.subrange(0, s.len() as int) =~= s);
    }
}

proof fn lemma_trim_end_cut(s: Seq<char>, i: int)
    requires
        0 <= i <= s.len(),
        forall|j: int| i <= j < s.len() ==> spec_is_whitespace(s[j]),
    ensures
        spec_trim_end(s) == spec_trim_end(s.subrange(0, i)),
    decreases s.len() - i,
{
    if i < s.len() {
        lemma_trim_end_cut(s.drop_last(), i);
        assert(s.drop_last().subrange(0, i) =~= s.subrange(0, i));
    } else {
        assert(s.subrange(0, i) =~= s);
    }
}

/// `s` without leading whitespace.
pub fn trim_start(s: &[char]) -> (r: Vec<char>)
    ensures
        r@ == spec_trim_start(s@),
{
    let mut i: usize = 0;
    while i < s.len() && is_whitespace(s[i])
        invariant
            i <= s@.len(),
            forall|j: int| 0 <= j < i ==> spec_is_whitespace(s@[j]),
        decreases s@.len() - i,
    {
        i = i + 1;
    }
    proof {
        lemma_trim_start_skip(s@, i as int);
    }
    let r = slice_to_vec(s, i, s.len());
    r
}

/// `s` without trailing whitespace.
pub fn trim_end(s: &[char]) -> (r: Vec<char>)
    ensures
        r@ == spec_trim_end(s@),
{
    let mut i: usize = s.len();
    while i > 0 && is_whitespace(s[i - 1])
        invariant
            i <= s@.len(),
            forall|j: int| i <= j < s@.len() ==> spec_is_whitespace(s@[j]),
        decreases i,
    {
        i = i - 1;
    }
    proof {
        lemma_trim_end_cut(s@, i as int);
    }
    slice_to_vec(s, 0, i)
}

/// `s` without leading and trailing whitespace.
pub fn trim(s: &[char]) -> (r: Vec<char>)
    ensures
        r@ == spec_trim(s@),
{
    let a = trim_start(s);
    trim_end(&a)
}

/// The characters `s[from..to]` as a new vector.
pub fn slice_to_vec(s: &[char], from: usize, to: usize) -> (r: Vec<char>)
    requires
        from <= to <= s@.len(),
    ensures
        r@ == s@.subrange(from as int, to as int),
{
    let mut r: Vec<char> = Vec::new();
    let mut i = from;
    while i < to
        invariant
            from <= i <= to <= s@.len(),
            r@ == s@.subrange(from as int, i as int),
        decreases to - i,
    {
        r.push(s[i]);
        i = i + 1;
    }
    r
}

// ─────────────────────────────────────────────────────────────────────────
// Words
// ─────────────────────────────────────────────────────────────────────────

/// Separator class for word counting: whitespace, plus the Markdown
/// emphasis/heading marks `#`, `*`, `_` and a backtick when `markdown` holds.
pub open spec fn spec_is_sep(c: char, markdown: bool) -> bool {
    spec_is_whitespace(c) || (markdown && (c == '#' || c == '*' || c == '_' || c == '`'))
}

/// Number of maximal runs of non-separator characters in `s`.
pub open spec fn spec_word_count(s: Seq<char>, markdown: bool) -> nat
    decreases s.len(),
{
    if s.len() == 0 {
        0
    } else {
        let n = s.len() as int;
        let starts = !spec_is_sep(s[n - 1], markdown) && (n == 1 || spec_is_sep(s[n - 2], markdown));
        spec_word_count(s.drop_last(), markdown) + (if starts { 1nat } else { 0nat })
    }
}

/// Word count of `s` (`split_whitespace().count()` for `markdown == false`).
pub fn word_count(s: &[char], markdown: bool) -> (r: usize)
    ensures
        r == spec_word_count(s@, markdown),
{
    let mut count: usize = 0;
    let mut i: usize = 0;
    while i < s.len()
        invariant
            i <= s@.len(),
            count == spec_word_count(s@.subrange(0, i as int), markdown),
            count <= i,
        decreases s@.len() - i,
    {
        let c = s[i];
        let sep = is_whitespace(c) || (markdown && (c == '#' || c == '*' || c == '_' || c == '`'));
        let starts = !sep && (i == 0 || {
            let d = s[i - 1];
            is_whitespace(d) || (markdown && (d == '#' || d == '*' || d == '_' || d == '`'))
        });
        proof {
            let t = s@.subrange(0, i + 1);
            assert(t.drop_last() =~= s@.subrange(0, i as int));
        }
        if starts {
            count = count + 1;
        }
        i = i + 1;
    }
    assert(s@.subrange(0, s@.len() as int) =~= s@);
    count
}

// ─────────────────────────────────────────────────────────────────────────
// Lines
// ─────────────────────────────────────────────────────────────────────────

/// The views of a sequence of character vectors.
pub open spec fn views(v: Seq<Vec<char>>) -> Seq<Seq<char>> {
    v.map_values(|x: Vec<char>| x@)
}

/// `s` split at every occurrence of `sep` (there is always at least one piece).
pub open spec fn spec_split(s: Seq<char>, sep: char) -> Seq<Seq<char>>
    decreases s.len(),
{
    match spec_find(s, seq![sep]) {
        Some(i) => if 0 <= i < s.len() {
            seq![s.subrange(0, i)] + spec_split(s.subrange(i + 1, s.len() as int), sep)
        } else {
            seq![s]
        },
        None => seq![s],
    }
}

/// `s` split at every occurrence of `sep` (`str::split` with a char pattern).
pub fn split(s: &[char], sep: char) -> (r: Vec<Vec<char>>)
    ensures
        views(r@) == spec_split(s@, sep),
    decreases s@.len(),
{
    let pat = [sep];
    proof {
        assert(pat@ == seq![sep]);
    }
    match find(s, &pat) {
        Some(i) => {
            proof {
                lemma_find_from(s@, seq![sep], 0);
            }
            if i < s.len() {
                let head = slice_to_vec(s, 0, i);
                let tail = slice_to_vec(s, i + 1, s.len());
                let mut rest = split(&tail, sep);
                let ghost old_rest = rest@;
                let mut r: Vec<Vec<char>> = Vec::new();
                r.push(head);
                r.append(&mut rest);
                assert(views(r@) =~= seq![s@.subrange(0, i as int)] + views(old_rest));
                r
            } else {
                let mut r: Vec<Vec<char>> = Vec::new();
                r.push(slice_to_vec(s, 0, s.len()));
                assert(s@.subrange(0, s@.len() as int) =~= s@);
                assert(views(r@) =~= seq![s@]);
                r
            }
        },
        None => {
            let mut r: Vec<Vec<char>> = Vec::new();
            r.push(slice_to_vec(s, 0, s.len()));
            assert(s@.subrange(0, s@.len() as int) =~= s@);
            assert(views(r@) =~= seq![s@]);
            r
        },
    }
}

/// `l` without one trailing `'\r'`.
pub open spec fn spec_strip_cr(l: Seq<char>) -> Seq<char> {
    if l.len() > 0 && l.last() == '\r' {
        l.drop_last()
    } else {
        l
    }
}

/// The lines of `s`, as `str::lines` yields them: split at `'\n'`, without
/// a final empty piece, each without a trailing `'\r'`.
pub open spec fn spec_lines(s: Seq<char>) -> Seq<Seq<char>> {
    let parts = spec_split(s, '\n');
    let kept = if parts.last().len() == 0 { parts.drop_last() } else { parts };
    kept.map_values(|l: Seq<char>| spec_strip_cr(l))
}


/// `split` always yields at least one piece.
pub proof fn lemma_split_nonempty(s: Seq<char>, sep: char)
    ensures
        spec_split(s, sep).len() >= 1,
{
}

/// Strips one trailing `'\r'`.
pub fn strip_cr(l: Vec<char>) -> (r: Vec<char>)
    ensures
        r@ == spec_strip_cr(l@),
{
    let mut l = l;
    if l.len() > 0 && l[l.len() - 1] == '\r' {
        l.pop();
    }
    l
}

/// The lines of `s` (`str::lines`).
pub fn lines(s: &[char]) -> (r: Vec<Vec<char>>)
    ensures
        views(r@) == spec_lines(s@),
{
    let mut parts = split(s, '\n');
    proof {
        lemma_split_nonempty(s@, '\n');
    }
    let ghost parts0 = views(parts@);
    let n = parts.len();
    if parts[n - 1].len() == 0 {
        parts.pop();
    }
    let ghost kept = views(parts@);
    assert(kept == (if parts0.last().len() == 0 { parts0.drop_last() } else { parts0 }));
    let mut r: Vec<Vec<char>> = Vec::new();
    let mut rev: Vec<Vec<char>> = Vec::new();
    // take pieces from the back, then restore their order
    while parts.len() > 0
        invariant
            views(parts@) + views(rev@).reverse() == kept,
        decreases parts@.len(),
    {
        let x = parts.pop().unwrap();
        rev.push(x);
        assert(views(parts@) + views(rev@).reverse() =~= kept);
    }
    assert(views(rev@).reverse() =~= kept);
    while rev.len() > 0
        invariant
            views(r@) + views(rev@).reverse().map_values(|l: Seq<char>| spec_strip_cr(l))
                == kept.map_values(|l: Seq<char>| spec_strip_cr(l)),
        decreases rev@.len(),
    {
        let x = rev.pop().unwrap();
        let y = strip_cr(x);
        r.push(y);
        assert(views(r@) + views(rev@).reverse().map_values(|l: Seq<char>| spec_strip_cr(l))
            =~= kept.map_values(|l: Seq<char>| spec_strip_cr(l)));
    }
    assert(views(r@) =~= kept.map_values(|l: Seq<char>| spec_strip_cr(l)));
    r
}

// ─────────────────────────────────────────────────────────────────────────
// Decimal numbers
// ─────────────────────────────────────────────────────────────────────────

/// The decimal digit character for `d < 10`.
pub open spec fn spec_digit_char(d: nat) -> char {
    ((d + 48) as u32) as char
}

/// Decimal representation of `n` without leading zeros (`to_string`).
pub open spec fn spec_decimal(n: nat) -> Seq<char>
    decreases n,
{
    if n < 10 {
        seq![spec_digit_char(n)]
    } else {
        spec_decimal(n / 10).push(spec_digit_char(n % 10))
    }
}

fn digit_char(d: usize) -> (c: char)
    requires
        d < 10,
    ensures
        c == spec_digit_char(d as nat),
{
    if d == 0 { '0' } else if d == 1 { '1' } else if d == 2 { '2' } else if d == 3 { '3' }
    else if d == 4 { '4' } else if d == 5 { '5' } else if d == 6 { '6' } else if d == 7 { '7' }
    else if d == 8 { '8' } else { '9' }
}

/// Decimal representation of `n` (`usize::to_string`).
pub fn decimal(n: usize) -> (s: String)
    ensures
        s@ == spec_decimal(n as nat),
    decreases n,
{
    if n < 10 {
        let mut s = String::new();
        push_char(&mut s, digit_char(n));
        assert(s@ =~= seq![spec_digit_char(n as nat)]);
        s
    } else {
        let mut s = decimal(n / 10);
        push_char(&mut s, digit_char(n % 10));
        s
    }
}

/// Value of a string of decimal digits.
pub open spec fn spec_digits_value(s: Seq<char>) -> nat
    decreases s.len(),
{
    if s.len() == 0 {
        0
    } else {
        spec_digits_value(s.drop_last()) * 10 + ((s.last() as u32) - 48) as nat
    }
}

/// `s` is a non-empty string of ASCII digits.
pub open spec fn spec_all_digits(s: Seq<char>) -> bool {
    s.len() > 0 && forall|i: int| 0 <= i < s.len() ==> spec_is_digit(#[trigger] s[i])
}

/// Parses a non-empty run of ASCII digits whose value fits in `u32`.
pub fn parse_u32_digits(s: &[char]) -> (r: Option<u32>)
    ensures
        r matches Some(v) ==> spec_all_digits(s@) && v as nat == spec_digits_value(s@),
        r is None ==> !spec_all_digits(s@) || spec_digits_value(s@) > u32::MAX,
{
    if s.len() == 0 {
        return None;
    }
    let mut v: u64 = 0;
    let mut i: usize = 0;
    while i < s.len()
        invariant
            i <= s@.len(),
            v as nat == spec_digits_value(s@.subrange(0, i as int)),
            v <= u32::MAX,
            forall|j: int| 0 <= j < i ==> spec_is_digit(s@[j]),
        decreases s@.len() - i,
    {
        let c = s[i];
        if !('0' <= c && c <= '9') {
            return None;
        }
        proof {
            assert(s@.subrange(0, i + 1).drop_last() =~= s@.subrange(0, i as int));
        }
        let d = (c as u32 - 48) as u64;
        let nv = v * 10 + d;
        if nv > 0xFFFF_FFFF {
            proof {
                if spec_all_digits(s@) {
                    lemma_digits_value_monotone(s@, i as int + 1);
                }
            }
            return None;
        }
        v = nv;
        i = i + 1;
    }
    assert(s@.subrange(0, s@.len() as int) =~= s@);
    Some(v as u32)
}

/// A digit string's value is at least the value of any of its prefixes.
pub proof fn lemma_digits_value_monotone(s: Seq<char>, k: int)
    requires
        0 <= k <= s.len(),
        forall|j: int| 0 <= j < s.len() ==> spec_is_digit(#[trigger] s[j]),
    ensures
        spec_digits_value(s) >= spec_digits_value(s.subrange(0, k)),
    decreases s.len() - k,
{
    if k == s.len() {
        assert(s.subrange(0, k) =~= s);
    } else {
        lemma_digits_value_monotone(s, k + 1);
        assert(s.subrange(0, k + 1).drop_last() =~= s.subrange(0, k));
    }
}


// ─────────────────────────────────────────────────────────────────────────
// Length bounds
// ─────────────────────────────────────────────────────────────────────────

/// Sum of the lengths of the pieces.
pub open spec fn spec_total_len(ls: Seq<Seq<char>>) -> nat
    decreases ls.len(),
{
    if ls.len() == 0 { 0 } else { ls[0].len() + spec_total_len(ls.drop_first()) }
}

proof fn lemma_total_len_cons(a: Seq<char>, b: Seq<Seq<char>>)
    ensures
        spec_total_len(seq![a] + b) == a.len() + spec_total_len(b),
{
    assert((seq![a] + b).drop_first() =~= b);
}

proof fn lemma_total_len_drop_last(ls: Seq<Seq<char>>)
    requires
        ls.len() > 0,
    ensures
        spec_total_len(ls.drop_last()) <= spec_total_len(ls),
    decreases ls.len(),
{
    if ls.len() > 1 {
        lemma_total_len_drop_last(ls.drop_first());
        assert(ls.drop_last().drop_first() =~= ls.drop_first().drop_last());
    }
}

proof fn lemma_total_len_strip(ls: Seq<Seq<char>>)
    ensures
        spec_total_len(ls.map_values(|l: Seq<char>| spec_strip_cr(l))) <= spec_total_len(ls),
    decreases ls.len(),
{
    if ls.len() > 0 {
        lemma_total_len_strip(ls.drop_first());
        assert(ls.map_values(|l: Seq<char>| spec_strip_cr(l)).drop_first()
            =~= ls.drop_first().map_values(|l: Seq<char>| spec_strip_cr(l)));
    }
}

/// The pieces of a split are no longer, together, than the text.
pub proof fn lemma_split_total_len(s: Seq<char>, sep: char)
    ensures
        spec_total_len(spec_split(s, sep)) <= s.len(),
    decreases s.len(),
{
    match spec_find(s, seq![sep]) {
        Some(i) => if 0 <= i < s.len() {
            let rest = s.subrange(i + 1, s.len() as int);
            lemma_split_total_len(rest, sep);
            lemma_total_len_cons(s.subrange(0, i), spec_split(rest, sep));
        } else {
            lemma_total_len_cons(s, Seq::empty());
        },
        None => {
            lemma_total_len_cons(s, Seq::empty());
        },
    }
}

/// The lines of a text are no longer, together, than the text.
pub proof fn lemma_lines_total_len(s: Seq<char>)
    ensures
        spec_total_len(spec_lines(s)) <= s.len(),
{
    let parts = spec_split(s, '\n');
    lemma_split_total_len(s, '\n');
    lemma_split_nonempty(s, '\n');
    let kept = if parts.last().len() == 0 { parts.drop_last() } else { parts };
    if parts.last().len() == 0 {
        lemma_total_len_drop_last(parts);
    }
    lemma_total_len_strip(kept);
}

/// A text holds no more words than characters.
pub proof fn lemma_word_count_le_len(s: Seq<char>, markdown: bool)
    ensures
        spec_word_count(s, markdown) <= s.len(),
    decreases s.len(),
{
    if s.len() > 0 {
        lemma_word_count_le_len(s.drop_last(), markdown);
    }
}

/// Trimming never lengthens a text.
pub proof fn lemma_trim_len(s: Seq<char>)
    ensures
        spec_trim_start(s).len() <= s.len(),
        spec_trim_end(s).len() <= s.len(),
        spec_trim(s).len() <= s.len(),
    decreases s.len(),
{
    if s.len() > 0 {
        lemma_trim_len(s.drop_first());
        lemma_trim_len(s.drop_last());
    }
    lemma_trim_end_le(spec_trim_start(s));
}

proof fn lemma_trim_end_le(s: Seq<char>)
    ensures
        spec_trim_end(s).len() <= s.len(),
    decreases s.len(),
{
    if s.len() > 0 {
        lemma_trim_end_le(s.drop_last());
    }
}


// ─────────────────────────────────────────────────────────────────────────
// Lists of strings
// ─────────────────────────────────────────────────────────────────────────

/// The texts of a sequence of strings.
pub open spec fn strs(v: Seq<String>) -> Seq<Seq<char>> {
    v.map_values(|s: String| s@)
}

/// The pieces joined with `sep` between consecutive ones (`[T]::join`).
pub open spec fn spec_join(ls: Seq<Seq<char>>, sep: Seq<char>) -> Seq<char>
    decreases ls.len(),
{
    if ls.len() == 0 {
        Seq::empty()
    } else if ls.len() == 1 {
        ls[0]
    } else {
        spec_join(ls.drop_last(), sep) + sep + ls.last()
    }
}

/// The strings joined with `sep`.
pub fn join(v: &Vec<String>, sep: &str) -> (r: String)
    ensures
        r@ == spec_join(strs(v@), sep@),
{
    let mut r = String::new();
    let mut i: usize = 0;
    while i < v.len()
        invariant
            i <= v@.len(),
            r@ == spec_join(strs(v@).subrange(0, i as int), sep@),
        decreases v@.len() - i,
    {
        if i > 0 {
            push_str(&mut r, sep);
        }
        push_str(&mut r, v[i].as_str());
        proof {
            let sub = strs(v@).subrange(0, i + 1);
            assert(sub.drop_last() =~= strs(v@).subrange(0, i as int));
            if i == 0 {
                assert(r@ =~= sub[0]);
            }
        }
        i = i + 1;
    }
    assert(strs(v@).subrange(0, v@.len() as int) =~= strs(v@));
    r
}

/// Copies of the strings of `v`.
pub fn clone_strings(v: &Vec<String>) -> (r: Vec<String>)
    ensures
        r@ == v@,
{
    let mut r: Vec<String> = Vec::new();
    let mut i: usize = 0;
    while i < v.len()
        invariant
            i <= v@.len(),
            r@ == v@.subrange(0, i as int),
        decreases v@.len() - i,
    {
        r.push(v[i].clone());
        i = i + 1;
    }
    assert(v@.subrange(0, v@.len() as int) =~= v@);
    r
}

/// `c` repeated `n` times.
pub open spec fn spec_repeat(c: char, n: nat) -> Seq<char>
    decreases n,
{
    if n == 0 { Seq::empty() } else { spec_repeat(c, (n - 1) as nat).push(c) }
}

/// `c` repeated `n` times.
pub fn repeat_char(c: char, n: usize) -> (s: String)
    ensures
        s@ == spec_repeat(c, n as nat),
{
    let mut s = String::new();
    let mut i: usize = 0;
    while i < n
        invariant
            i <= n,
            s@ == spec_repeat(c, i as nat),
        decreases n - i,
    {
        push_char(&mut s, c);
        i = i + 1;
    }
    s
}

/// Whether some element of `v` equals `t`.
pub fn contains_str(v: &Vec<String>, t: &str) -> (r: bool)
    ensures
        r == strs(v@).contains(t@),
{
    let mut i: usize = 0;
    while i < v.len()
        invariant
            i <= v@.len(),
            forall|j: int| 0 <= j < i ==> v@[j]@ != t@,
        decreases v@.len() - i,
    {
        if str_eq(v[i].as_str(), t) {
            assert(strs(v@)[i as int] == t@);
            return true;
        }
        i = i + 1;
    }
    assert(!strs(v@).contains(t@)) by {
        if strs(v@).contains(t@) {
            let k = choose|k: int| 0 <= k < strs(v@).len() && strs(v@)[k] == t@;
            assert(v@[k]@ == t@);
        }
    }
    false
}


// ─────────────────────────────────────────────────────────────────────────
// Parsing of numbers and booleans (`str::parse`)
// ─────────────────────────────────────────────────────────────────────────

/// `s` parsed as an unsigned number (`str::parse::<usize>`): an optional `+`
/// and at least one digit; `None` otherwise or when the value exceeds `max`.
pub open spec fn spec_parse_unsigned(s: Seq<char>, max: nat) -> Option<nat> {
    let d = if s.len() > 0 && s[0] == '+' { s.drop_first() } else { s };
    if spec_all_digits(d) && spec_digits_value(d) <= max {
        Some(spec_digits_value(d))
    } else {
        None
    }
}

/// Value of a digit string, or `None` once it exceeds `max`.
pub fn digits_value_upto(s: &[char], max: u64) -> (r: Option<u64>)
    ensures
        r matches Some(v) ==> spec_all_digits(s@) && v as nat == spec_digits_value(s@) && v <= max,
        r is None ==> !spec_all_digits(s@) || spec_digits_value(s@) > max,
{
    if s.len() == 0 {
        return None;
    }
    let mut v: u64 = 0;
    let mut i: usize = 0;
    while i < s.len()
        invariant
            i <= s@.len(),
            v as nat == spec_digits_value(s@.subrange(0, i as int)),
            v <= max,
            forall|j: int| 0 <= j < i ==> spec_is_digit(s@[j]),
        decreases s@.len() - i,
    {
        let c = s[i];
        if !('0' <= c && c <= '9') {
            return None;
        }
        proof {
            assert(s@.subrange(0, i + 1).drop_last() =~= s@.subrange(0, i as int));
        }
        let d = (c as u32 - 48) as u64;
        let over = match v.checked_mul(10) {
            Some(t) => match t.checked_add(d) {
                Some(nv) => if nv > max { None } else { Some(nv) },
                None => None,
            },
            None => None,
        };
        match over {
            Some(nv) => {
                v = nv;
            },
            None => {
                proof {
                    if spec_all_digits(s@) {
                        lemma_digits_value_monotone(s@, i as int + 1);
                    }
                }
                return None;
            },
        }
        i = i + 1;
    }
    assert(s@.subrange(0, s@.len() as int) =~= s@);
    Some(v)
}

/// `s` parsed as a `usize` (`str::parse::<usize>`).
pub fn parse_usize(s: &str) -> (r: Option<usize>)
    ensures
        match spec_parse_unsigned(s@, usize::MAX as nat) {
            Some(v) => r == Some(v as usize),
            None => r is None,
        },
{
    let c = chars_of(s);
    let d = if c.len() > 0 && c[0] == '+' { slice_to_vec(&c, 1, c.len()) } else { slice_to_vec(&c, 0, c.len()) };
    assert(c@.subrange(0, c@.len() as int) =~= c@);
    assert(c@.len() > 0 ==> c@.subrange(1, c@.len() as int) =~= c@.drop_first());
    match digits_value_upto(&d, usize::MAX as u64) {
        Some(v) => Some(v as usize),
        None => None,
    }
}

/// `s` parsed as a `bool` (`str::parse::<bool>`): exactly `true` or `false`.
pub open spec fn spec_parse_bool(s: Seq<char>) -> Option<bool> {
    if s == seq!['t', 'r', 'u', 'e'] {
        Some(true)
    } else if s == seq!['f', 'a', 'l', 's', 'e'] {
        Some(false)
    } else {
        None
    }
}

/// `s` parsed as a `bool`.
pub fn parse_bool(s: &str) -> (r: Option<bool>)
    ensures
        r == spec_parse_bool(s@),
{
    let c = chars_of(s);
    let t = ['t', 'r', 'u', 'e'];
    let f = ['f', 'a', 'l', 's', 'e'];
    assert(t@ =~= seq!['t', 'r', 'u', 'e']);
    assert(f@ =~= seq!['f', 'a', 'l', 's', 'e']);
    if seq_eq(&c, &t) {
        Some(true)
    } else if seq_eq(&c, &f) {
        Some(false)
    } else {
        None
    }
}

/// `s` is accepted by `str::parse::<i64>`: an optional sign and at least
/// one digit, with the value in the `i64` range.
pub open spec fn spec_is_i64(s: Seq<char>) -> bool {
    if s.len() > 0 && s[0] == '-' {
        let d = s.drop_first();
        spec_all_digits(d) && spec_digits_value(d) <= 9223372036854775808
    } else {
        spec_parse_unsigned(s, 9223372036854775807) is Some
    }
}

/// Whether `s` parses as an `i64`.
pub fn is_i64(s: &str) -> (r: bool)
    ensures
        r == spec_is_i64(s@),
{
    let c = chars_of(s);
    if c.len() > 0 && c[0] == '-' {
        let d = slice_to_vec(&c, 1, c.len());
        assert(d@ =~= c@.drop_first());
        digits_value_upto(&d, 9223372036854775808u64).is_some()
    } else {
        let d = if c.len() > 0 && c[0] == '+' { slice_to_vec(&c, 1, c.len()) } else { slice_to_vec(&c, 0, c.len()) };
        assert(c@.subrange(0, c@.len() as int) =~= c@);
        assert(c@.len() > 0 ==> c@.subrange(1, c@.len() as int) =~= c@.drop_first());
        digits_value_upto(&d, 9223372036854775807u64).is_some()
    }
}

/// Number of UTF-8 bytes of a character.
pub open spec fn spec_utf8_width(c: char) -> nat {
    let n = c as u32;
    if n < 0x80 { 1 } else if n < 0x800 { 2 } else if n < 0x10000 { 3 } else { 4 }
}

/// Number of UTF-8 bytes of a text (`str::len`).
pub open spec fn spec_utf8_len(s: Seq<char>) -> nat
    decreases s.len(),
{
    if s.len() == 0 { 0 } else { spec_utf8_len(s.drop_last()) + spec_utf8_width(s.last()) }
}

/// Number of UTF-8 bytes of a text, saturating at `usize::MAX`.
pub fn utf8_len(s: &[char]) -> (n: usize)
    ensures
        n == if spec_utf8_len(s@) > usize::MAX { usize::MAX as nat } else { spec_utf8_len(s@) },
{
    let mut total: usize = 0;
    let mut sat = false;
    let mut i: usize = 0;
    while i < s.len()
        invariant
            i <= s@.len(),
            !sat ==> total == spec_utf8_len(s@.subrange(0, i as int)),
            sat ==> spec_utf8_len(s@.subrange(0, i as int)) > usize::MAX && total == usize::MAX,
        decreases s@.len() - i,
    {
        let c = s[i];
        let n = c as u32;
        let w: usize = if n < 0x80 { 1 } else if n < 0x800 { 2 } else if n < 0x10000 { 3 } else { 4 };
        proof {
            assert(s@.subrange(0, i + 1).drop_last() =~= s@.subrange(0, i as int));
        }
        if !sat {
            match total.checked_add(w) {
                Some(t) => { total = t; },
                None => { sat = true; total = usize::MAX; },
            }
        }
        i = i + 1;
    }
    assert(s@.subrange(0, s@.len() as int) =~= s@);
    total
}

// ─────────────────────────────────────────────────────────────────────────
// Replacement and case
// ─────────────────────────────────────────────────────────────────────────

/// `s[i..]` with every non-overlapping occurrence of `p`, taken from the
/// left, replaced by `r` (`str::replace`).
pub open spec fn spec_replace_from(s: Seq<char>, p: Seq<char>, r: Seq<char>, i: int) -> Seq<char>
    decreases s.len() + 1 - i,
{
    if i < 0 || i > s.len() || p.len() == 0 {
        Seq::empty()
    } else {
        match spec_find_from(s, p, i) {
            Some(j) => {
                proof {
                    lemma_find_from(s, p, i);
                }
                s.subrange(i, j) + r + spec_replace_from(s, p, r, j + p.len())
            },
            None => s.subrange(i, s.len() as int),
        }
    }
}

/// `s` with every occurrence of `p` replaced by `r`.
pub open spec fn spec_replace(s: Seq<char>, p: Seq<char>, r: Seq<char>) -> Seq<char> {
    spec_replace_from(s, p, r, 0)
}

/// Appends `s[from..to]` to `out`.
fn extend_range(out: &mut Vec<char>, s: &[char], from: usize, to: usize)
    requires
        from <= to <= s@.len(),
    ensures
        final(out)@ == old(out)@ + s@.subrange(from as int, to as int),
{
    let mut i = from;
    while i < to
        invariant
            from <= i <= to,
            to <= s@.len(),
            out@ == old(out)@ + s@.subrange(from as int, i as int),
        decreases to - i,
    {
        out.push(s[i]);
        assert(s@.subrange(from as int, i + 1) =~= s@.subrange(from as int, i as int).push(s@[i as int]));
        i = i + 1;
    }
}

/// Every occurrence of the non-empty pattern `p` in `s` replaced by `r`.
pub fn replace_all(s: &[char], p: &[char], r: &[char]) -> (out: Vec<char>)
    requires
        p@.len() > 0,
    ensures
        out@ == spec_replace(s@, p@, r@),
{
    let mut out: Vec<char> = Vec::new();
    let mut pos: usize = 0;
    let mut done = false;
    while !done
        invariant
            p@.len() > 0,
            pos <= s@.len(),
            !done ==> out@ + spec_replace_from(s@, p@, r@, pos as int) == spec_replace(s@, p@, r@),
            done ==> out@ == spec_replace(s@, p@, r@),
        decreases s@.len() + 1 - pos, (if done { 0int } else { 1int }),
    {
        match find_from(s, p, pos) {
            Some(j) => {
                proof {
                    lemma_find_from(s@, p@, pos as int);
                    assert(occurs_at(s@, p@, j as int));
                }
                assert(j + p@.len() <= s@.len());
                assert(s@.len() == s.len() && p@.len() == p.len());
                let ghost before = out@;
                extend_range(&mut out, s, pos, j);
                extend_range(&mut out, r, 0, r.len());
                assert(r@.subrange(0, r@.len() as int) =~= r@);
                assert(out@ + spec_replace_from(s@, p@, r@, j + p@.len())
                    =~= before + spec_replace_from(s@, p@, r@, pos as int));
                pos = j + p.len();
            },
            None => {
                let ghost before = out@;
                extend_range(&mut out, s, pos, s.len());
                assert(out@ =~= before + spec_replace_from(s@, p@, r@, pos as int));
                done = true;
            },
        }
    }
    out
}

/// `s` with every occurrence of the non-empty `p` replaced by `r`.
pub fn replace_str(s: &str, p: &str, r: &str) -> (out: String)
    requires
        p@.len() > 0,
    ensures
        out@ == spec_replace(s@, p@, r@),
{
    let sv = chars_of(s);
    let pv = chars_of(p);
    let rv = chars_of(r);
    let v = replace_all(&sv, &pv, &rv);
    string_of(&v)
}

/// Unicode lower-case mapping of a text, as `str::to_lowercase` computes it.
pub uninterp spec fn spec_to_lowercase(s: Seq<char>) -> Seq<char>;

/// Every character of `s` is ASCII.
pub open spec fn all_ascii(s: Seq<char>) -> bool {
    forall|i: int| 0 <= i < s.len() ==> (#[trigger] s[i]) < '\u{80}'
}

/// The ASCII lower case of a character (other characters unchanged).
pub open spec fn ascii_lower(c: char) -> char {
    if 'A' <= c && c <= 'Z' { ((c as u32) + 32) as char } else { c }
}

/// `str::to_lowercase`: on ASCII text, each letter `A`-`Z` becomes its
/// lower case and every other character stays, as the documentation of
/// `str::to_lowercase` and `char::to_lowercase` gives for ASCII.
#[verifier::external_body]
pub fn to_lowercase(s: &str) -> (r: String)
    ensures
        r@ == spec_to_lowercase(s@),
        all_ascii(s@) ==> r@ == s@.map_values(|c: char| ascii_lower(c)),
{
    s.to_lowercase()
}

/// The whitespace-separated words of `s` (`str::split_whitespace`).
pub open spec fn spec_words(s: Seq<char>) -> Seq<Seq<char>>
    decreases s.len(),
{
    if s.len() == 0 {
        Seq::empty()
    } else if spec_is_whitespace(s.last()) {
        spec_words(s.drop_last())
    } else if s.len() >= 2 && !spec_is_whitespace(s[s.len() - 2]) && spec_words(s.drop_last()).len() > 0 {
        let w = spec_words(s.drop_last());
        w.update(w.len() - 1, w.last().push(s.last()))
    } else {
        spec_words(s.drop_last()).push(seq![s.last()])
    }
}

proof fn lemma_words_nonempty(s: Seq<char>)
    requires
        s.len() > 0,
        !spec_is_whitespace(s.last()),
    ensures
        spec_words(s).len() > 0,
        spec_words(s).last().len() > 0,
    decreases s.len(),
{
    if s.len() >= 2 && !spec_is_whitespace(s[s.len() - 2]) {
        lemma_words_nonempty(s.drop_last());
    }
}

/// The whitespace-separated words of `s`.
pub fn words(s: &[char]) -> (r: Vec<String>)
    ensures
        strs(r@) == spec_words(s@),
{
    let mut r: Vec<String> = Vec::new();
    let mut cur: Vec<char> = Vec::new();
    let mut i: usize = 0;
    while i < s.len()
        invariant
            i <= s@.len(),
            cur@.len() > 0 ==> i > 0 && !spec_is_whitespace(s@[i - 1]),
            i > 0 && !spec_is_whitespace(s@[i - 1]) ==> cur@.len() > 0,
            spec_words(s@.subrange(0, i as int)) == (if cur@.len() > 0 { strs(r@).push(cur@) } else { strs(r@) }),
        decreases s@.len() - i,
    {
        let c = s[i];
        let ghost pre = s@.subrange(0, i as int);
        let ghost now = s@.subrange(0, i + 1);
        assert(now.drop_last() =~= pre);
        assert(now.last() == c);
        if is_whitespace(c) {
            if cur.len() > 0 {
                let ghost before = r@;
                r.push(string_of(&cur));
                assert(strs(r@) =~= strs(before).push(cur@));
                cur = Vec::new();
            }
        } else {
            if cur.len() > 0 {
                proof {
                    assert(now[now.len() - 2] == s@[i - 1]);
                    lemma_words_nonempty(pre);
                }
                let ghost cb = cur@;
                cur.push(c);
                assert(strs(r@).push(cb).update(strs(r@).len() as int, cb.push(c)) =~= strs(r@).push(cur@));
            } else {
                cur.push(c);
                assert(cur@ =~= seq![c]);
                proof {
                    if i > 0 {
                        assert(now[now.len() - 2] == s@[i - 1]);
                    }
                }
            }
        }
        i = i + 1;
    }
    if cur.len() > 0 {
        let ghost before = r@;
        r.push(string_of(&cur));
        assert(strs(r@) =~= strs(before).push(cur@));
    }
    assert(s@.subrange(0, s@.len() as int) =~= s@);
    r
}

/// `s` centred in a field of `w` characters filled with `fill` (the `{:^w$}`
/// format): the smaller half of the padding goes left.
pub open spec fn spec_pad_center(s: Seq<char>, w: nat, fill: char) -> Seq<char> {
    if s.len() >= w {
        s
    } else {
        let pad = (w - s.len()) as nat;
        spec_repeat(fill, pad / 2) + s + spec_repeat(fill, (pad - pad / 2) as nat)
    }
}

/// `s` left-aligned in a field of `w` characters filled with `fill` (the
/// `{:w$}` format for text).
pub open spec fn spec_pad_right(s: Seq<char>, w: nat, fill: char) -> Seq<char> {
    if s.len() >= w { s } else { s + spec_repeat(fill, (w - s.len()) as nat) }
}

/// `s` right-aligned in a field of `w` characters filled with `fill`.
pub open spec fn spec_pad_left(s: Seq<char>, w: nat, fill: char) -> Seq<char> {
    if s.len() >= w { s } else { spec_repeat(fill, (w - s.len()) as nat) + s }
}

/// The first `n` characters of `s` (`chars().take(n)`).
pub open spec fn spec_take(s: Seq<char>, n: nat) -> Seq<char> {
    if s.len() <= n { s } else { s.subrange(0, n as int) }
}

/// `s` centred in `w` characters.
pub fn pad_center(s: &str, w: usize, fill: char) -> (r: String)
    ensures
        r@ == spec_pad_center(s@, w as nat, fill),
{
    let n = s.unicode_len();
    if n >= w {
        owned(s)
    } else {
        let pad = w - n;
        let mut r = repeat_char(fill, pad / 2);
        push_str(&mut r, s);
        push_str(&mut r, repeat_char(fill, pad - pad / 2).as_str());
        r
    }
}

/// `s` left-aligned in `w` characters.
pub fn pad_right(s: &str, w: usize, fill: char) -> (r: String)
    ensures
        r@ == spec_pad_right(s@, w as nat, fill),
{
    let n = s.unicode_len();
    if n >= w {
        owned(s)
    } else {
        let mut r = owned(s);
        push_str(&mut r, repeat_char(fill, w - n).as_str());
        r
    }
}

/// `s` right-aligned in `w` characters.
pub fn pad_left(s: &str, w: usize, fill: char) -> (r: String)
    ensures
        r@ == spec_pad_left(s@, w as nat, fill),
{
    let n = s.unicode_len();
    if n >= w {
        owned(s)
    } else {
        let mut r = repeat_char(fill, w - n);
        push_str(&mut r, s);
        r
    }
}

/// The first `n` characters of `s`.
pub fn take_chars(s: &str, n: usize) -> (r: String)
    ensures
        r@ == spec_take(s@, n as nat),
{
    let v = chars_of(s);
    if v.len() <= n {
        owned(s)
    } else {
        string_of(&slice_to_vec(&v, 0, n))
    }
}

/// Unicode upper-case mapping of a text, as `str::to_uppercase` computes it.
pub uninterp spec fn spec_to_uppercase(s: Seq<char>) -> Seq<char>;

/// `str::to_uppercase`.
#[verifier::external_body]
pub fn to_uppercase(s: &str) -> (r: String)
    ensures
        r@ == spec_to_uppercase(s@),
{
    s.to_uppercase()
}

/// `s` split at the first occurrence of `c` (`str::split_once`).
pub open spec fn spec_split_once(s: Seq<char>, c: char) -> Option<(Seq<char>, Seq<char>)> {
    if s.contains(c) {
        let i = choose|i: int| 0 <= i < s.len() && s[i] == c && forall|j: int| 0 <= j < i ==> s[j] != c;
        Some((s.subrange(0, i), s.subrange(i + 1, s.len() as int)))
    } else {
        None
    }
}

/// `s` split at the first `c`.
pub fn split_once(s: &str, c: char) -> (r: Option<(String, String)>)
    ensures
        match r {
            Some((a, b)) => spec_split_once(s@, c) == Some((a@, b@)),
            None => spec_split_once(s@, c) is None,
        },
{
    let v = chars_of(s);
    let mut i: usize = 0;
    while i < v.len()
        invariant
            i <= v@.len(),
            v@ == s@,
            forall|j: int| 0 <= j < i ==> v@[j] != c,
        decreases v@.len() - i,
    {
        if v[i] == c {
            let a = string_of(&slice_to_vec(&v, 0, i));
            let b = string_of(&slice_to_vec(&v, i + 1, v.len()));
            proof {
                assert(s@.contains(c));
                let k = choose|k: int| 0 <= k < s@.len() && s@[k] == c && forall|j: int| 0 <= j < k ==> s@[j] != c;
                if k < i {
                } else if k > i {
                    assert(s@[i as int] == c);
                }
                assert(k == i);
            }
            return Some((a, b));
        }
        i = i + 1;
    }
    proof {
        if s@.contains(c) {
            let j = choose|j: int| 0 <= j < s@.len() && s@[j] == c;
            assert(v@[j] == c);
        }
    }
    None
}

/// Number of non-overlapping occurrences of `p` in `s[i..]`, taken from the
/// left (`str::matches(..).count()`).
pub open spec fn spec_count_from(s: Seq<char>, p: Seq<char>, i: int) -> nat
    decreases s.len() + 1 - i,
{
    if i < 0 || i > s.len() || p.len() == 0 {
        0
    } else {
        match spec_find_from(s, p, i) {
            Some(j) => {
                proof {
                    lemma_find_from(s, p, i);
                }
                1 + spec_count_from(s, p, j + p.len())
            },
            None => 0,
        }
    }
}

/// Number of non-overlapping occurrences of the non-empty `p` in `s`.
pub fn count_matches(s: &[char], p: &[char]) -> (n: usize)
    requires
        p@.len() > 0,
    ensures
        n == spec_count_from(s@, p@, 0),
{
    let mut n: usize = 0;
    let mut pos: usize = 0;
    let mut done = false;
    while !done
        invariant
            p@.len() > 0,
            pos <= s@.len(),
            n <= pos,
            !done ==> n + spec_count_from(s@, p@, pos as int) == spec_count_from(s@, p@, 0),
            done ==> n == spec_count_from(s@, p@, 0),
        decreases s@.len() + 1 - pos, (if done { 0int } else { 1int }),
    {
        match find_from(s, p, pos) {
            Some(j) => {
                proof {
                    lemma_find_from(s@, p@, pos as int);
                    assert(occurs_at(s@, p@, j as int));
                }
                assert(j + p@.len() <= s@.len());
                assert(s@.len() == s.len() && p@.len() == p.len());
                n = n + 1;
                pos = j + p.len();
            },
            None => {
                done = true;
            },
        }
    }
    n
}

/// Decimal representation of a signed number (`i64::to_string`).
pub open spec fn spec_decimal_i64(n: int) -> Seq<char> {
    if n < 0 { seq!['-'] + spec_decimal((-n) as nat) } else { spec_decimal(n as nat) }
}

/// Decimal representation of `n`.
pub fn decimal_i64(n: i64) -> (s: String)
    ensures
        s@ == spec_decimal_i64(n as int),
{
    if n < 0 {
        let m: u64 = ((-(n + 1)) as u64) + 1;
        let mut s = owned("-");
        let d = decimal_u64(m);
        push_str(&mut s, d.as_str());
        proof {
            reveal_strlit("-");
        }
        s
    } else {
        decimal_u64(n as u64)
    }
}

/// Decimal representation of `n` (`u64::to_string`).
pub fn decimal_u64(n: u64) -> (s: String)
    ensures
        s@ == spec_decimal(n as nat),
    decreases n,
{
    if n < 10 {
        let mut s = String::new();
        push_char(&mut s, digit_char(n as usize));
        assert(s@ =~= seq![spec_digit_char(n as nat)]);
        s
    } else {
        let mut s = decimal_u64(n / 10);
        push_char(&mut s, digit_char((n % 10) as usize));
        s
    }
}

} // verus!
