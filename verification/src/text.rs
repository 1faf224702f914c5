//! Character-level utilities shared by the parsing phases: character
//! classes, case folding and decimal rendering of integers.

use vstd::prelude::*;

verus! {

/// Whitespace, as the phases understand it: the ASCII blank characters.
pub open spec fn is_space_char(c: char) -> bool {
    c == ' ' || c == '\t' || c == '\n' || c == '\r' || c == '\x0b' || c == '\x0c'
}

/// Decimal digit.
pub open spec fn is_digit_char(c: char) -> bool {
    '0' <= c && c <= '9'
}

/// A character that may start a label identifier.
pub open spec fn is_ident_start_char(c: char) -> bool {
    ('a' <= c && c <= 'z') || ('A' <= c && c <= 'Z') || c == '_'
}

/// A character that may continue a label identifier.
pub open spec fn is_ident_char(c: char) -> bool {
    is_ident_start_char(c) || is_digit_char(c)
}

/// ASCII upper-casing of a single character; anything but a lower-case
/// letter is left as it is.
pub open spec fn upper_char(c: char) -> char {
    if 'a' <= c && c <= 'z' {
        (((c as u32) - 32) as u8) as char
    } else {
        c
    }
}

/// ASCII upper-casing of a character sequence.
pub open spec fn upper_seq(s: Seq<char>) -> Seq<char> {
    s.map_values(|c: char| upper_char(c))
}

/// Upper-cases one character.
pub fn upper_char_exec(c: char) -> (r: char)
    ensures
        r == upper_char(c),
{
    if 'a' <= c && c <= 'z' {
        (((c as u32) - 32) as u8) as char
    } else {
        c
    }
}

/// Tests a character for membership in the whitespace class.
pub fn is_space(c: char) -> (r: bool)
    ensures
        r == is_space_char(c),
{
    c == ' ' || c == '\t' || c == '\n' || c == '\r' || c == '\x0b' || c == '\x0c'
}

/// Tests a character for being a decimal digit.
pub fn is_digit(c: char) -> (r: bool)
    ensures
        r == is_digit_char(c),
{
    '0' <= c && c <= '9'
}

/// Tests a character for being able to start an identifier.
pub fn is_ident_start(c: char) -> (r: bool)
    ensures
        r == is_ident_start_char(c),
{
    ('a' <= c && c <= 'z') || ('A' <= c && c <= 'Z') || c == '_'
}

/// Tests a character for being able to continue an identifier.
pub fn is_ident(c: char) -> (r: bool)
    ensures
        r == is_ident_char(c),
{
    is_ident_start(c) || is_digit(c)
}

/// The digit character for a value below ten.
pub open spec fn digit_char(d: int) -> char {
    (((d + 48) as u8) as char)
}

/// The numeric value of a digit character.
pub open spec fn digit_val(c: char) -> int {
    (c as int) - 48
}

/// The canonical decimal rendering of a non-negative integer: no leading
/// zeros (except for zero itself), most significant digit first.
pub open spec fn dec_digits(n: int) -> Seq<char>
    decreases n when n >= 0
{
    if n < 10 {
        seq![digit_char(n)]
    } else {
        dec_digits(n / 10).push(digit_char(n % 10))
    }
}

/// The canonical decimal rendering of a signed integer: a leading `-` for
/// negative values, no sign otherwise.
pub open spec fn render_int(v: int) -> Seq<char> {
    if v < 0 {
        seq!['-'] + dec_digits(-v)
    } else {
        dec_digits(v)
    }
}

/// The value of a sequence of digit characters, most significant first.
pub open spec fn digits_val(s: Seq<char>) -> int
    decreases s.len()
{
    if s.len() == 0 {
        0
    } else {
        digits_val(s.drop_last()) * 10 + digit_val(s.last())
    }
}

/// Every character of a canonical rendering is a digit, and there is at
/// least one of them.
pub proof fn lemma_dec_digits_shape(n: int)
    requires
        n >= 0,
    ensures
        dec_digits(n).len() >= 1,
        forall|i: int| 0 <= i < dec_digits(n).len() ==> is_digit_char(#[trigger] dec_digits(n)[i]),
    decreases n,
{
    if n >= 10 {
        lemma_dec_digits_shape(n / 10);
    }
}

/// Reading a canonical decimal rendering back gives the rendered value.
pub proof fn lemma_digits_val_of_dec_digits(n: int)
    requires
        n >= 0,
    ensures
        digits_val(dec_digits(n)) == n,
    decreases n,
{
    assert(digits_val(dec_digits(n)) == digits_val(dec_digits(n).drop_last()) * 10 + digit_val(
        dec_digits(n).last(),
    ));
    if n < 10 {
        assert(digit_val(digit_char(n)) == n);
        assert(dec_digits(n).drop_last() =~= Seq::<char>::empty());
        assert(digits_val(Seq::<char>::empty()) == 0);
        assert(dec_digits(n).last() == digit_char(n));
    } else {
        lemma_digits_val_of_dec_digits(n / 10);
        assert(digit_val(digit_char(n % 10)) == n % 10);
        assert(dec_digits(n).drop_last() =~= dec_digits(n / 10));
        assert(dec_digits(n).last() == digit_char(n % 10));
    }
}

/// A digit sequence has a non-negative value.
pub proof fn lemma_digits_val_nonneg(s: Seq<char>)
    requires
        forall|i: int| 0 <= i < s.len() ==> is_digit_char(#[trigger] s[i]),
    ensures
        digits_val(s) >= 0,
    decreases s.len(),
{
    if s.len() > 0 {
        lemma_digits_val_nonneg(s.drop_last());
    }
}

/// The shape of a canonical signed rendering: for a non-negative value
/// the bare digits; for a negative one a minus sign, then the digits of
/// the magnitude.
pub proof fn lemma_render_int_shape(v: int)
    ensures
        render_int(v).len() >= 1,
        v >= 0 ==> render_int(v) == dec_digits(v),
        v < 0 ==> render_int(v)[0] == '-' && render_int(v).subrange(
            1,
            render_int(v).len() as int,
        ) =~= dec_digits(-v),
        forall|i: int|
            0 <= i < render_int(v).len() ==> (is_digit_char(#[trigger] render_int(v)[i]) || (v < 0
                && i == 0)),
{
    if v >= 0 {
        lemma_dec_digits_shape(v);
    } else {
        lemma_dec_digits_shape(-v);
        assert(render_int(v).subrange(1, render_int(v).len() as int) =~= dec_digits(-v));
    }
}

/// Appends the decimal digits of `n` to `out`.
fn push_digits(n: u32, out: &mut Vec<char>)
    ensures
        final(out)@ == old(out)@ + dec_digits(n as int),
    decreases n,
{
    if n < 10 {
        out.push((((n + 48) as u8) as char));
    } else {
        push_digits(n / 10, out);
        out.push((((n % 10 + 48) as u8) as char));
    }
}

/// The first position at or after `i` that holds a non-blank character
/// (or the end of the sequence).
pub open spec fn skip_ws(s: Seq<char>, i: int) -> int
    decreases s.len() - i when 0 <= i <= s.len()
{
    if i < s.len() && is_space_char(s[i]) {
        skip_ws(s, i + 1)
    } else {
        i
    }
}

/// The end of the identifier-character run that starts at `i`.
pub open spec fn scan_ident(s: Seq<char>, i: int) -> int
    decreases s.len() - i when 0 <= i <= s.len()
{
    if i < s.len() && is_ident_char(s[i]) {
        scan_ident(s, i + 1)
    } else {
        i
    }
}

/// The end of the digit run that starts at `i`.
pub open spec fn scan_digits(s: Seq<char>, i: int) -> int
    decreases s.len() - i when 0 <= i <= s.len()
{
    if i < s.len() && is_digit_char(s[i]) {
        scan_digits(s, i + 1)
    } else {
        i
    }
}

/// What `skip_ws` promises: it never moves backwards, never passes the
/// end, skips blanks only, and stops at a non-blank.
pub proof fn lemma_skip_ws(s: Seq<char>, i: int)
    requires
        0 <= i <= s.len(),
    ensures
        i <= skip_ws(s, i) <= s.len(),
        forall|k: int| i <= k < skip_ws(s, i) ==> is_space_char(#[trigger] s[k]),
        skip_ws(s, i) < s.len() ==> !is_space_char(s[skip_ws(s, i)]),
    decreases s.len() - i,
{
    if i < s.len() && is_space_char(s[i]) {
        lemma_skip_ws(s, i + 1);
    }
}

/// What `scan_digits` promises: a maximal run of digits.
pub proof fn lemma_scan_digits(s: Seq<char>, i: int)
    requires
        0 <= i <= s.len(),
    ensures
        i <= scan_digits(s, i) <= s.len(),
        forall|k: int| i <= k < scan_digits(s, i) ==> is_digit_char(#[trigger] s[k]),
        scan_digits(s, i) < s.len() ==> !is_digit_char(s[scan_digits(s, i)]),
    decreases s.len() - i,
{
    if i < s.len() && is_digit_char(s[i]) {
        lemma_scan_digits(s, i + 1);
    }
}

/// Advances past blanks.
pub fn skip_ws_exec(s: &Vec<char>, i: usize) -> (r: usize)
    requires
        i <= s.len(),
    ensures
        r == skip_ws(s@, i as int),
        i <= r <= s.len(),
    decreases s.len() - i,
{
    if i < s.len() && is_space(s[i]) {
        skip_ws_exec(s, i + 1)
    } else {
        i
    }
}

/// Advances past identifier characters.
pub fn scan_ident_exec(s: &Vec<char>, i: usize) -> (r: usize)
    requires
        i <= s.len(),
    ensures
        r == scan_ident(s@, i as int),
        i <= r <= s.len(),
    decreases s.len() - i,
{
    if i < s.len() && is_ident(s[i]) {
        scan_ident_exec(s, i + 1)
    } else {
        i
    }
}

/// Advances past digits.
pub fn scan_digits_exec(s: &Vec<char>, i: usize) -> (r: usize)
    requires
        i <= s.len(),
    ensures
        r == scan_digits(s@, i as int),
        i <= r <= s.len(),
    decreases s.len() - i,
{
    if i < s.len() && is_digit(s[i]) {
        scan_digits_exec(s, i + 1)
    } else {
        i
    }
}

/// Where the blanks from `i` are known to end, `skip_ws` lands there.
pub proof fn lemma_skip_ws_exact(s: Seq<char>, i: int, e: int)
    requires
        0 <= i <= e <= s.len(),
        forall|k: int| i <= k < e ==> is_space_char(#[trigger] s[k]),
        e < s.len() ==> !is_space_char(s[e]),
    ensures
        skip_ws(s, i) == e,
    decreases e - i,
{
    if i < e {
        lemma_skip_ws_exact(s, i + 1, e);
    }
}

/// Where the identifier run from `i` is known to end, `scan_ident` lands
/// there.
pub proof fn lemma_scan_ident_exact(s: Seq<char>, i: int, e: int)
    requires
        0 <= i <= e <= s.len(),
        forall|k: int| i <= k < e ==> is_ident_char(#[trigger] s[k]),
        e < s.len() ==> !is_ident_char(s[e]),
    ensures
        scan_ident(s, i) == e,
    decreases e - i,
{
    if i < e {
        lemma_scan_ident_exact(s, i + 1, e);
    }
}

/// Where the digit run from `i` is known to end, `scan_digits` lands
/// there.
pub proof fn lemma_scan_digits_exact(s: Seq<char>, i: int, e: int)
    requires
        0 <= i <= e <= s.len(),
        forall|k: int| i <= k < e ==> is_digit_char(#[trigger] s[k]),
        e < s.len() ==> !is_digit_char(s[e]),
    ensures
        scan_digits(s, i) == e,
    decreases e - i,
{
    if i < e {
        lemma_scan_digits_exact(s, i + 1, e);
    }
}

/// The end of the non-blank run that starts at `i`.
pub open spec fn scan_nonspace(s: Seq<char>, i: int) -> int
    decreases s.len() - i when 0 <= i <= s.len()
{
    if i < s.len() && !is_space_char(s[i]) {
        scan_nonspace(s, i + 1)
    } else {
        i
    }
}

/// What `scan_nonspace` promises: a maximal run of non-blank characters.
pub proof fn lemma_scan_nonspace(s: Seq<char>, i: int)
    requires
        0 <= i <= s.len(),
    ensures
        i <= scan_nonspace(s, i) <= s.len(),
        forall|k: int| i <= k < scan_nonspace(s, i) ==> !is_space_char(#[trigger] s[k]),
        scan_nonspace(s, i) < s.len() ==> is_space_char(s[scan_nonspace(s, i)]),
    decreases s.len() - i,
{
    if i < s.len() && !is_space_char(s[i]) {
        lemma_scan_nonspace(s, i + 1);
    }
}

/// Advances past non-blank characters.
pub fn scan_nonspace_exec(s: &Vec<char>, i: usize) -> (r: usize)
    requires
        i <= s.len(),
    ensures
        r == scan_nonspace(s@, i as int),
        i <= r <= s.len(),
    decreases s.len() - i,
{
    if i < s.len() && !is_space(s[i]) {
        scan_nonspace_exec(s, i + 1)
    } else {
        i
    }
}

/// Where the non-blank run from `i` is known to end, `scan_nonspace`
/// lands there.
pub proof fn lemma_scan_nonspace_exact(s: Seq<char>, i: int, e: int)
    requires
        0 <= i <= e <= s.len(),
        forall|k: int| i <= k < e ==> !is_space_char(#[trigger] s[k]),
        e < s.len() ==> is_space_char(s[e]),
    ensures
        scan_nonspace(s, i) == e,
    decreases e - i,
{
    if i < e {
        lemma_scan_nonspace_exact(s, i + 1, e);
    }
}

/// The first position at or after `i` where `c` stands, or the length of
/// the sequence where it does not occur.
pub open spec fn find_from(s: Seq<char>, i: int, c: char) -> int
    decreases s.len() - i when 0 <= i <= s.len()
{
    if i < s.len() && s[i] != c {
        find_from(s, i + 1, c)
    } else {
        i
    }
}

/// Finds the first occurrence of `c` at or after `i`.
pub fn find_from_exec(s: &Vec<char>, i: usize, c: char) -> (r: usize)
    requires
        i <= s.len(),
    ensures
        r == find_from(s@, i as int, c),
        i <= r <= s.len(),
    decreases s.len() - i,
{
    if i < s.len() && s[i] != c {
        find_from_exec(s, i + 1, c)
    } else {
        i
    }
}

/// Where the first occurrence of `c` is known, `find_from` lands there.
pub proof fn lemma_find_from_exact(s: Seq<char>, i: int, e: int, c: char)
    requires
        0 <= i <= e <= s.len(),
        forall|k: int| i <= k < e ==> #[trigger] s[k] != c,
        e < s.len() ==> s[e] == c,
    ensures
        find_from(s, i, c) == e,
    decreases e - i,
{
    if i < e {
        lemma_find_from_exact(s, i + 1, e, c);
    }
}

/// A sequence whose first and last characters are not blanks trims to
/// itself.
pub proof fn lemma_trim_identity(s: Seq<char>)
    requires
        s.len() > 0,
        !is_space_char(s[0]),
        !is_space_char(s.last()),
    ensures
        trim_spec(s) == s,
{
    assert(rtrim(s) == s);
    lemma_skip_ws_exact(s, 0, 0);
    assert(s.subrange(0, s.len() as int) =~= s);
}

/// The sequence with trailing blanks removed.
pub open spec fn rtrim(s: Seq<char>) -> Seq<char>
    decreases s.len(),
{
    if s.len() > 0 && is_space_char(s.last()) {
        rtrim(s.drop_last())
    } else {
        s
    }
}

/// The sequence with leading and trailing blanks removed.
pub open spec fn trim_spec(s: Seq<char>) -> Seq<char> {
    let t = rtrim(s);
    t.subrange(skip_ws(t, 0), t.len() as int)
}

/// Removes leading and trailing blanks.
pub fn trim(s: &Vec<char>) -> (r: Vec<char>)
    ensures
        r@ == trim_spec(s@),
{
    let mut e: usize = s.len();
    proof {
        assert(s@.subrange(0, e as int) =~= s@);
    }
    while e > 0 && is_space(s[e - 1])
        invariant
            e <= s.len(),
            rtrim(s@) == rtrim(s@.subrange(0, e as int)),
        decreases e,
    {
        proof {
            assert(s@.subrange(0, e as int).drop_last() =~= s@.subrange(0, e - 1));
        }
        e = e - 1;
    }
    proof {
        assert(s@.subrange(0, s@.len() as int) =~= s@);
        assert(rtrim(s@) == s@.subrange(0, e as int));
    }
    let mut b: usize = 0;
    while b < e && is_space(s[b])
        invariant
            b <= e <= s.len(),
            forall|k: int| 0 <= k < b ==> is_space_char(#[trigger] s@[k]),
        decreases e - b,
    {
        b = b + 1;
    }
    proof {
        let t = rtrim(s@);
        lemma_skip_ws(t, 0);
        let w = skip_ws(t, 0);
        assert(forall|k: int| 0 <= k < b ==> is_space_char(#[trigger] t[k]));
        if w < b {
            assert(!is_space_char(t[w]));
        }
        if b < w {
            assert(is_space_char(s@[b as int]));
        }
        assert(w == b);
    }
    subrange_chars(s, b, e)
}

/// Copies the range `[from, to)` out of `s`.
pub fn subrange_chars(s: &Vec<char>, from: usize, to: usize) -> (r: Vec<char>)
    requires
        from <= to <= s.len(),
    ensures
        r@ == s@.subrange(from as int, to as int),
{
    let mut out: Vec<char> = Vec::new();
    let mut k: usize = from;
    while k < to
        invariant
            from <= k <= to <= s.len(),
            out@ == s@.subrange(from as int, k as int),
        decreases to - k,
    {
        out.push(s[k]);
        proof {
            assert(out@ =~= s@.subrange(from as int, k + 1));
        }
        k = k + 1;
    }
    out
}

/// Upper-cases a character vector.
pub fn upper_chars(s: &Vec<char>) -> (r: Vec<char>)
    ensures
        r@ == upper_seq(s@),
{
    let mut out: Vec<char> = Vec::new();
    let mut k: usize = 0;
    while k < s.len()
        invariant
            k <= s.len(),
            out@ == upper_seq(s@.subrange(0, k as int)),
        decreases s.len() - k,
    {
        out.push(upper_char_exec(s[k]));
        proof {
            assert(out@ =~= upper_seq(s@.subrange(0, k + 1)));
        }
        k = k + 1;
    }
    proof {
        assert(s@.subrange(0, s@.len() as int) =~= s@);
    }
    out
}

/// Compares two character vectors for equality of their contents.
pub fn chars_eq(a: &Vec<char>, b: &Vec<char>) -> (r: bool)
    ensures
        r == (a@ == b@),
{
    if a.len() != b.len() {
        return false;
    }
    let mut k: usize = 0;
    while k < a.len()
        invariant
            k <= a.len(),
            a.len() == b.len(),
            forall|j: int| 0 <= j < k ==> a@[j] == b@[j],
        decreases a.len() - k,
    {
        if a[k] != b[k] {
            return false;
        }
        k = k + 1;
    }
    proof {
        assert(a@ =~= b@);
    }
    true
}

/// Appends the canonical decimal rendering of `v` to `out`.
pub fn push_int_chars(v: i32, out: &mut Vec<char>)
    ensures
        final(out)@ == old(out)@ + render_int(v as int),
{
    if v < 0 {
        out.push('-');
        let magnitude: u32 = (-(v as i64)) as u32;
        push_digits(magnitude, out);
        assert(out@ =~= old(out)@ + render_int(v as int));
    } else {
        push_digits(v as u32, out);
    }
}

/// Appends the decimal digits of a possibly large `n` to `out`.
fn push_digits64(n: u64, out: &mut Vec<char>)
    ensures
        final(out)@ == old(out)@ + dec_digits(n as int),
    decreases n,
{
    if n < 10 {
        out.push((((n + 48) as u8) as char));
    } else {
        push_digits64(n / 10, out);
        out.push((((n % 10 + 48) as u8) as char));
    }
}

/// Appends the canonical decimal rendering of the difference `k - base`
/// of two indexes to `out`.
pub fn push_offset_chars(k: usize, base: usize, out: &mut Vec<char>)
    ensures
        final(out)@ == old(out)@ + render_int(k - base),
{
    if k >= base {
        push_digits64((k - base) as u64, out);
    } else {
        out.push('-');
        push_digits64((base - k) as u64, out);
        proof {
            assert(out@ =~= old(out)@ + render_int(k - base));
        }
    }
}

/// Appends every character of `src` to `out`.
pub fn push_all(out: &mut Vec<char>, src: &Vec<char>)
    ensures
        final(out)@ == old(out)@ + src@,
{
    let mut k: usize = 0;
    while k < src.len()
        invariant
            k <= src.len(),
            out@ == old(out)@ + src@.subrange(0, k as int),
        decreases src.len() - k,
    {
        out.push(src[k]);
        proof {
            assert(out@ =~= old(out)@ + src@.subrange(0, k + 1));
        }
        k = k + 1;
    }
    proof {
        assert(old(out)@ + src@.subrange(0, src@.len() as int) =~= old(out)@ + src@);
    }
}

/// The views of a sequence of strings.
pub open spec fn string_views(s: Seq<String>) -> Seq<Seq<char>> {
    s.map_values(|t: String| t@)
}

/// The view of an optional string.
pub open spec fn opt_string_view(o: Option<String>) -> Option<Seq<char>> {
    match o {
        Some(s) => Some(s@),
        None => None,
    }
}

/// The views of a sequence of character vectors.
pub open spec fn views(s: Seq<Vec<char>>) -> Seq<Seq<char>> {
    s.map_values(|v: Vec<char>| v@)
}

/// The physical lines of `s` from position `i` on, with `cur` the part of
/// the current line read so far.  A newline ends a line; a final line
/// without a newline counts, a trailing newline adds no empty line.
pub open spec fn split_nl_rec(s: Seq<char>, i: int, cur: Seq<char>) -> Seq<Seq<char>>
    decreases s.len() - i when 0 <= i <= s.len()
{
    if i >= s.len() {
        if cur.len() > 0 {
            seq![cur]
        } else {
            Seq::empty()
        }
    } else if s[i] == '\n' {
        seq![cur] + split_nl_rec(s, i + 1, Seq::empty())
    } else {
        split_nl_rec(s, i + 1, cur.push(s[i]))
    }
}

/// The physical lines of a source text.
pub open spec fn split_nl(s: Seq<char>) -> Seq<Seq<char>> {
    split_nl_rec(s, 0, Seq::empty())
}

/// Splits a source text into its physical lines.
pub fn split_lines(s: &Vec<char>) -> (r: Vec<Vec<char>>)
    ensures
        views(r@) == split_nl(s@),
{
    let mut out: Vec<Vec<char>> = Vec::new();
    let mut cur: Vec<char> = Vec::new();
    let mut i: usize = 0;
    while i < s.len()
        invariant
            i <= s.len(),
            views(out@) + split_nl_rec(s@, i as int, cur@) == split_nl(s@),
        decreases s.len() - i,
    {
        let c = s[i];
        if c == '\n' {
            let ghost prev = out@;
            out.push(cur);
            cur = Vec::new();
            proof {
                assert(views(out@) =~= views(prev).push(out@.last()@));
                assert(views(out@) + split_nl_rec(s@, i + 1, cur@) =~= split_nl(s@));
            }
        } else {
            cur.push(c);
        }
        i = i + 1;
    }
    if cur.len() > 0 {
        let ghost prev = out@;
        out.push(cur);
        proof {
            assert(views(out@) =~= views(prev).push(out@.last()@));
            assert(views(out@) =~= split_nl(s@));
        }
    } else {
        proof {
            assert(views(out@) =~= split_nl(s@));
        }
    }
    out
}

/// Behind the last line of `x ++ y ++ '\n'`: from any position inside
/// the `y` part, exactly one line remains.
proof fn lemma_split_nl_tail(x: Seq<char>, y: Seq<char>, j: int, cur: Seq<char>)
    requires
        0 <= j <= y.len(),
        forall|k: int| 0 <= k < y.len() ==> #[trigger] y[k] != '\n',
    ensures
        split_nl_rec(x + y + seq!['\n'], x.len() + j, cur) == seq![cur + y.skip(j)],
    decreases y.len() - j,
{
    let s = x + y + seq!['\n'];
    if j == y.len() {
        assert(s[x.len() + j] == '\n');
        assert(split_nl_rec(s, s.len() as int, Seq::empty()) =~= Seq::<Seq<char>>::empty());
        assert(cur + y.skip(j) =~= cur);
    } else {
        assert(s[x.len() + j] == y[j]);
        lemma_split_nl_tail(x, y, j + 1, cur.push(y[j]));
        assert(cur.push(y[j]) + y.skip(j + 1) =~= cur + y.skip(j));
    }
}

/// Appending one more newline-free line to a newline-terminated text adds
/// exactly that line to the split.
proof fn lemma_split_nl_walk(x: Seq<char>, y: Seq<char>, i: int, cur: Seq<char>)
    requires
        0 <= i < x.len(),
        x.last() == '\n',
        forall|k: int| 0 <= k < y.len() ==> #[trigger] y[k] != '\n',
    ensures
        split_nl_rec(x + y + seq!['\n'], i, cur) == split_nl_rec(x, i, cur) + seq![y],
    decreases x.len() - i,
{
    let s = x + y + seq!['\n'];
    assert(s[i] == x[i]);
    if x[i] == '\n' {
        if i + 1 == x.len() {
            lemma_split_nl_tail(x, y, 0, Seq::empty());
            assert(split_nl_rec(s, i, cur) == seq![cur] + split_nl_rec(
                s,
                x.len() as int,
                Seq::empty(),
            ));
            assert(Seq::<char>::empty() + y.skip(0) =~= y);
            assert(split_nl_rec(s, x.len() as int, Seq::empty()) == seq![y]);
            assert(split_nl_rec(x, i, cur) == seq![cur] + split_nl_rec(
                x,
                x.len() as int,
                Seq::empty(),
            ));
            assert(split_nl_rec(x, x.len() as int, Seq::empty()) =~= Seq::<Seq<char>>::empty());
            assert(seq![cur] + Seq::<Seq<char>>::empty() =~= seq![cur]);
            assert(seq![cur] + seq![y] =~= (seq![cur] + Seq::<Seq<char>>::empty()) + seq![y]);
        } else {
            lemma_split_nl_walk(x, y, i + 1, Seq::empty());
            assert(seq![cur] + (split_nl_rec(x, i + 1, Seq::empty()) + seq![y]) =~= (seq![cur]
                + split_nl_rec(x, i + 1, Seq::empty())) + seq![y]);
        }
    } else {
        assert(i + 1 < x.len());
        lemma_split_nl_walk(x, y, i + 1, cur.push(x[i]));
    }
}

/// Splitting a newline-terminated text with one more line appended gives
/// the old lines plus the new one.
pub proof fn lemma_split_nl_append(x: Seq<char>, y: Seq<char>)
    requires
        x.len() == 0 || x.last() == '\n',
        forall|k: int| 0 <= k < y.len() ==> #[trigger] y[k] != '\n',
    ensures
        split_nl(x + y + seq!['\n']) == split_nl(x).push(y),
{
    if x.len() == 0 {
        lemma_split_nl_tail(x, y, 0, Seq::empty());
        assert(Seq::<char>::empty() + y.skip(0) =~= y);
        assert(split_nl(x) =~= Seq::<Seq<char>>::empty());
        assert(split_nl(x).push(y) =~= seq![y]);
    } else {
        lemma_split_nl_walk(x, y, 0, Seq::empty());
        assert(split_nl(x) + seq![y] =~= split_nl(x).push(y));
    }
}

/// The whitespace-delimited tokens of `s` from position `i` on, with `cur`
/// the part of the current token read so far.
pub open spec fn split_ws_rec(s: Seq<char>, i: int, cur: Seq<char>) -> Seq<Seq<char>>
    decreases s.len() - i when 0 <= i <= s.len()
{
    if i >= s.len() {
        if cur.len() > 0 {
            seq![cur]
        } else {
            Seq::empty()
        }
    } else if is_space_char(s[i]) {
        if cur.len() > 0 {
            seq![cur] + split_ws_rec(s, i + 1, Seq::empty())
        } else {
            split_ws_rec(s, i + 1, Seq::empty())
        }
    } else {
        split_ws_rec(s, i + 1, cur.push(s[i]))
    }
}

/// The whitespace-delimited tokens of a line.
pub open spec fn split_ws(s: Seq<char>) -> Seq<Seq<char>> {
    split_ws_rec(s, 0, Seq::empty())
}

/// A line's first whitespace-delimited token is the non-blank run at its
/// first non-blank position.
pub proof fn lemma_split_ws_head(s: Seq<char>, i: int, cur: Seq<char>)
    requires
        0 <= i < s.len(),
        !is_space_char(s[i]),
    ensures
        split_ws_rec(s, i, cur).len() >= 1,
        split_ws_rec(s, i, cur)[0] == cur + s.subrange(i, scan_nonspace(s, i)),
    decreases s.len() - i,
{
    let cur2 = cur.push(s[i]);
    if i + 1 == s.len() || is_space_char(s[i + 1]) {
        lemma_scan_nonspace_exact(s, i, i + 1);
        assert(cur2 =~= cur + s.subrange(i, i + 1));
    } else {
        lemma_split_ws_head(s, i + 1, cur2);
        lemma_scan_nonspace(s, i);
        assert(cur2 + s.subrange(i + 1, scan_nonspace(s, i + 1)) =~= cur + s.subrange(
            i,
            scan_nonspace(s, i),
        ));
    }
}

/// A suffix that is one unbroken non-blank run is one token.
pub proof fn lemma_split_ws_single_run(s: Seq<char>, i: int, cur: Seq<char>)
    requires
        0 <= i <= s.len(),
        forall|k: int| i <= k < s.len() ==> !is_space_char(#[trigger] s[k]),
        cur.len() > 0 || i < s.len(),
    ensures
        split_ws_rec(s, i, cur) == seq![cur + s.skip(i)],
    decreases s.len() - i,
{
    if i == s.len() {
        assert(cur + s.skip(i) =~= cur);
    } else {
        lemma_split_ws_single_run(s, i + 1, cur.push(s[i]));
        assert(cur.push(s[i]) + s.skip(i + 1) =~= cur + s.skip(i));
    }
}

/// A line of exactly two non-blank runs around one blank has exactly
/// those two tokens.
pub proof fn lemma_split_ws_pair(s: Seq<char>, e1: int, i: int, cur: Seq<char>)
    requires
        0 <= i <= e1 < s.len(),
        is_space_char(s[e1]),
        e1 + 1 < s.len(),
        forall|k: int| i <= k < e1 ==> !is_space_char(#[trigger] s[k]),
        forall|k: int| e1 < k < s.len() ==> !is_space_char(#[trigger] s[k]),
        cur.len() > 0 || i < e1,
    ensures
        split_ws_rec(s, i, cur) == seq![cur + s.subrange(i, e1), s.skip(e1 + 1)],
    decreases e1 - i,
{
    if i == e1 {
        lemma_split_ws_single_run(s, e1 + 1, Seq::empty());
        assert(cur + s.subrange(i, e1) =~= cur);
        assert(Seq::<char>::empty() + s.skip(e1 + 1) =~= s.skip(e1 + 1));
        assert(seq![cur] + seq![s.skip(e1 + 1)] =~= seq![cur + s.subrange(i, e1), s.skip(e1 + 1)]);
    } else {
        lemma_split_ws_pair(s, e1, i + 1, cur.push(s[i]));
        assert(cur.push(s[i]) + s.subrange(i + 1, e1) =~= cur + s.subrange(i, e1));
    }
}

/// Splits a line into its whitespace-delimited tokens.
pub fn split_tokens(s: &Vec<char>) -> (r: Vec<Vec<char>>)
    ensures
        views(r@) == split_ws(s@),
{
    let mut out: Vec<Vec<char>> = Vec::new();
    let mut cur: Vec<char> = Vec::new();
    let mut i: usize = 0;
    while i < s.len()
        invariant
            i <= s.len(),
            views(out@) + split_ws_rec(s@, i as int, cur@) == split_ws(s@),
        decreases s.len() - i,
    {
        let c = s[i];
        if is_space(c) {
            if cur.len() > 0 {
                let ghost prev = out@;
                out.push(cur);
                cur = Vec::new();
                proof {
                    assert(views(out@) =~= views(prev).push(out@.last()@));
                    assert(views(out@) + split_ws_rec(s@, i + 1, cur@) =~= split_ws(s@));
                }
            } else {
                proof {
                    assert(cur@ =~= Seq::<char>::empty());
                }
            }
        } else {
            cur.push(c);
        }
        i = i + 1;
    }
    if cur.len() > 0 {
        let ghost prev = out@;
        out.push(cur);
        proof {
            assert(views(out@) =~= views(prev).push(out@.last()@));
            assert(views(out@) =~= split_ws(s@));
        }
    } else {
        proof {
            assert(views(out@) =~= split_ws(s@));
        }
    }
    out
}

/// Relies on std's `String::push`: it appends the given character to the
/// end of the string.
pub assume_specification[ String::push ](s: &mut String, c: char)
    ensures
        final(s)@ == old(s)@.push(c),
;

/// Converts borrowed text to a character vector.
pub fn str_to_chars(s: &str) -> (r: Vec<char>)
    ensures
        r@ == s@,
{
    let n = s.unicode_len();
    let mut out: Vec<char> = Vec::new();
    let mut i: usize = 0;
    while i < n
        invariant
            i <= n,
            n == s@.len(),
            out@ == s@.subrange(0, i as int),
        decreases n - i,
    {
        out.push(s.get_char(i));
        proof {
            assert(out@ =~= s@.subrange(0, i + 1));
        }
        i = i + 1;
    }
    proof {
        assert(s@.subrange(0, s@.len() as int) =~= s@);
    }
    out
}

/// Converts a character vector to an owned string.
pub fn chars_to_string(v: &Vec<char>) -> (r: String)
    ensures
        r@ == v@,
{
    let mut out = String::new();
    let mut i: usize = 0;
    while i < v.len()
        invariant
            i <= v.len(),
            out@ == v@.subrange(0, i as int),
        decreases v.len() - i,
    {
        out.push(v[i]);
        proof {
            assert(out@ =~= v@.subrange(0, i + 1));
        }
        i = i + 1;
    }
    proof {
        assert(v@.subrange(0, v@.len() as int) =~= v@);
    }
    out
}

} // verus!
