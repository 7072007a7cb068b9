//! Character and string utilities: filename sanitization, whitespace
//! trimming, decimal printing and parsing, case-insensitive comparison, and
//! the hex alphabet.

use vstd::prelude::*;

verus! {

/// Whether `char::is_alphanumeric` holds of `c`. The Unicode classes behind
/// it take pages to state, and the answer depends on the character alone.
pub uninterp spec fn unicode_alphanumeric(c: char) -> bool;

/// Relies on std's char::is_alphanumeric: the result depends on the
/// character alone.
#[verifier::external_body]
fn char_is_alphanumeric(c: char) -> (r: bool)
    ensures
        r == unicode_alphanumeric(c),
{
    c.is_alphanumeric()
}

/// Characters a filename derived from a URL may keep; all others are
/// replaced.
pub open spec fn keep_filename_char(c: char) -> bool {
    unicode_alphanumeric(c) || c == '.' || c == '-' || c == '_'
}

pub open spec fn sanitized_char(c: char) -> char {
    if keep_filename_char(c) {
        c
    } else {
        '_'
    }
}

/// The characters of `s`, in order.
pub fn str_to_chars(s: &str) -> (r: Vec<char>)
    ensures
        r@ == s@,
{
    let n = s.unicode_len();
    let mut r: Vec<char> = Vec::new();
    let mut i: usize = 0;
    while i < n
        invariant
            n == s@.len(),
            i <= n,
            r@ == s@.subrange(0, i as int),
        decreases n - i,
    {
        r.push(s.get_char(i));
        i = i + 1;
    }
    proof {
        assert(r@ =~= s@);
    }
    r
}

/// Relies on String's FromIterator over chars: collecting the characters of
/// `v` yields the string with exactly those characters.
#[verifier::external_body]
pub(crate) fn chars_to_string(v: &Vec<char>) -> (r: String)
    ensures
        r@ == v@,
{
    v.iter().collect()
}

/// Replaces every character that is not alphanumeric, `.`, `-` or `_` with
/// `_`, keeping the length.
pub fn sanitize_filename(filename: &str) -> (r: String)
    ensures
        r@.len() == filename@.len(),
        forall|i: int| 0 <= i < filename@.len() ==> r@[i] == sanitized_char(#[trigger] filename@[i]),
{
    let chars = str_to_chars(filename);
    let mut out: Vec<char> = Vec::new();
    let mut i: usize = 0;
    while i < chars.len()
        invariant
            chars@ == filename@,
            i <= chars@.len(),
            out@.len() == i,
            forall|k: int| 0 <= k < i ==> out@[k] == sanitized_char(#[trigger] filename@[k]),
        decreases chars@.len() - i,
    {
        let c = chars[i];
        if char_is_alphanumeric(c) || c == '.' || c == '-' || c == '_' {
            out.push(c);
        } else {
            out.push('_');
        }
        i = i + 1;
    }
    chars_to_string(&out)
}

/// ASCII whitespace, as the task-list format strips around its fields.
pub open spec fn is_space(c: char) -> bool {
    c == ' ' || c == '\t' || c == '\r' || c == '\n'
}

/// Index of the first non-space character at or after `i`.
pub open spec fn leading_from(s: Seq<char>, i: int) -> int
    decreases s.len() - i,
{
    if i < 0 || i >= s.len() || !is_space(s[i]) {
        i
    } else {
        leading_from(s, i + 1)
    }
}

/// One past the last non-space character at or before `j - 1`.
pub open spec fn trailing_from(s: Seq<char>, j: int) -> int
    decreases j,
{
    if j <= 0 || !is_space(s[j - 1]) {
        j
    } else {
        trailing_from(s, j - 1)
    }
}

/// `s` with leading and trailing ASCII whitespace removed.
pub open spec fn spec_trim(s: Seq<char>) -> Seq<char> {
    if leading_from(s, 0) == s.len() {
        Seq::empty()
    } else {
        s.subrange(leading_from(s, 0), trailing_from(s, s.len() as int))
    }
}

proof fn lemma_leading_bounds(s: Seq<char>, i: int)
    requires
        0 <= i <= s.len(),
    ensures
        i <= leading_from(s, i) <= s.len(),
        leading_from(s, i) < s.len() ==> !is_space(s[leading_from(s, i)]),
        forall|k: int| i <= k < leading_from(s, i) ==> is_space(#[trigger] s[k]),
    decreases s.len() - i,
{
    if i < s.len() && is_space(s[i]) {
        lemma_leading_bounds(s, i + 1);
    }
}

proof fn lemma_trailing_bounds(s: Seq<char>, j: int, lo: int)
    requires
        0 <= lo < j <= s.len(),
        !is_space(s[lo]),
    ensures
        lo < trailing_from(s, j) <= j,
        forall|k: int| trailing_from(s, j) <= k < j ==> is_space(#[trigger] s[k]),
        !is_space(s[trailing_from(s, j) - 1]),
    decreases j,
{
    if j > 0 && is_space(s[j - 1]) {
        lemma_trailing_bounds(s, j - 1, lo);
    }
}

/// Removes leading and trailing ASCII whitespace.
pub fn trim_chars(v: &Vec<char>) -> (r: Vec<char>)
    ensures
        r@ == spec_trim(v@),
{
    let n = v.len();
    let mut lo: usize = 0;
    while lo < n && (v[lo] == ' ' || v[lo] == '\t' || v[lo] == '\r' || v[lo] == '\n')
        invariant
            n == v@.len(),
            0 <= lo <= n,
            leading_from(v@, 0) == leading_from(v@, lo as int),
        decreases n - lo,
    {
        lo = lo + 1;
    }
    if lo == n {
        proof {
            assert(leading_from(v@, n as int) == n);
        }
        return Vec::new();
    }
    proof {
        lemma_leading_bounds(v@, lo as int);
        assert(leading_from(v@, lo as int) == lo);
    }
    let mut hi: usize = n;
    while hi > lo && (v[hi - 1] == ' ' || v[hi - 1] == '\t' || v[hi - 1] == '\r' || v[hi - 1]
        == '\n')
        invariant
            n == v@.len(),
            lo < hi <= n,
            lo < n,
            !is_space(v@[lo as int]),
            trailing_from(v@, n as int) == trailing_from(v@, hi as int),
        decreases hi,
    {
        proof {
            lemma_trailing_bounds(v@, hi as int, lo as int);
        }
        hi = hi - 1;
    }
    proof {
        lemma_trailing_bounds(v@, n as int, lo as int);
        assert(trailing_from(v@, hi as int) == hi);
    }
    let mut r: Vec<char> = Vec::new();
    let mut i: usize = lo;
    while i < hi
        invariant
            lo <= i <= hi <= n,
            n == v@.len(),
            r@ == v@.subrange(lo as int, i as int),
        decreases hi - i,
    {
        r.push(v[i]);
        i = i + 1;
    }
    proof {
        assert(r@ =~= v@.subrange(lo as int, hi as int));
    }
    r
}

/// Lowercases an ASCII code point; leaves every other value alone.
pub open spec fn lower_code(n: u32) -> u32 {
    if 65 <= n <= 90 {
        (n + 32) as u32
    } else {
        n
    }
}

/// Character sequences equal up to ASCII case, as hex digests are compared.
pub open spec fn chars_eq_ci(a: Seq<char>, b: Seq<char>) -> bool {
    a.len() == b.len() && forall|i: int|
        0 <= i < a.len() ==> lower_code(#[trigger] a[i] as u32) == lower_code(b[i] as u32)
}

/// ASCII-case-insensitive equality of two strings.
pub fn eq_ignore_ascii_case(a: &str, b: &str) -> (r: bool)
    ensures
        r == chars_eq_ci(a@, b@),
{
    let av = str_to_chars(a);
    let bv = str_to_chars(b);
    if av.len() != bv.len() {
        return false;
    }
    let mut i: usize = 0;
    while i < av.len()
        invariant
            av@ == a@,
            bv@ == b@,
            av@.len() == bv@.len(),
            i <= av@.len(),
            forall|k: int|
                0 <= k < i ==> lower_code(#[trigger] av@[k] as u32) == lower_code(bv@[k] as u32),
        decreases av@.len() - i,
    {
        let x: u32 = av[i] as u32;
        let y: u32 = bv[i] as u32;
        let xl = if 65 <= x && x <= 90 {
            x + 32
        } else {
            x
        };
        let yl = if 65 <= y && y <= 90 {
            y + 32
        } else {
            y
        };
        if xl != yl {
            return false;
        }
        i = i + 1;
    }
    true
}

/// Index of the first occurrence of `c` at or after `i`, or the length if
/// there is none.
pub open spec fn find_from(s: Seq<char>, i: int, c: char) -> int
    decreases s.len() - i,
{
    if i < 0 || i >= s.len() || s[i] == c {
        i
    } else {
        find_from(s, i + 1, c)
    }
}

pub proof fn lemma_find_from(s: Seq<char>, i: int, c: char)
    requires
        0 <= i <= s.len(),
    ensures
        i <= find_from(s, i, c) <= s.len(),
        find_from(s, i, c) < s.len() ==> s[find_from(s, i, c)] == c,
        forall|k: int| i <= k < find_from(s, i, c) ==> s[k] != c,
    decreases s.len() - i,
{
    if i < s.len() && s[i] != c {
        lemma_find_from(s, i + 1, c);
    }
}

/// Finds the first occurrence of `c` at or after `from`, or the length.
pub fn find_char_from(v: &Vec<char>, from: usize, c: char) -> (p: usize)
    requires
        from <= v@.len(),
    ensures
        p == find_from(v@, from as int, c),
        from <= p <= v@.len(),
{
    proof {
        lemma_find_from(v@, from as int, c);
    }
    let mut p: usize = from;
    while p < v.len() && v[p] != c
        invariant
            from <= p <= v@.len(),
            find_from(v@, from as int, c) == find_from(v@, p as int, c),
        decreases v@.len() - p,
    {
        p = p + 1;
    }
    p
}

/// Index of the last occurrence of `c` in `[lo, hi)`, or `lo - 1` if there is
/// none.
pub open spec fn rfind(s: Seq<char>, lo: int, hi: int, c: char) -> int
    decreases hi - lo,
{
    if hi <= lo {
        lo - 1
    } else if s[hi - 1] == c {
        hi - 1
    } else {
        rfind(s, lo, hi - 1, c)
    }
}

pub proof fn lemma_rfind(s: Seq<char>, lo: int, hi: int, c: char)
    requires
        0 <= lo <= hi <= s.len(),
    ensures
        lo - 1 <= rfind(s, lo, hi, c) < hi,
        rfind(s, lo, hi, c) >= lo ==> s[rfind(s, lo, hi, c)] == c,
        forall|k: int| rfind(s, lo, hi, c) < k < hi ==> s[k] != c,
    decreases hi - lo,
{
    if hi > lo && s[hi - 1] != c {
        lemma_rfind(s, lo, hi - 1, c);
    }
}

/// Finds the last occurrence of `c` before `hi`, or returns `None`.
pub fn rfind_char(v: &Vec<char>, hi: usize, c: char) -> (r: Option<usize>)
    requires
        hi <= v@.len(),
    ensures
        match r {
            Some(p) => p as int == rfind(v@, 0, hi as int, c) && p < hi,
            None => rfind(v@, 0, hi as int, c) == -1,
        },
{
    proof {
        lemma_rfind(v@, 0, hi as int, c);
    }
    let mut h: usize = hi;
    while h > 0 && v[h - 1] != c
        invariant
            h <= hi <= v@.len(),
            rfind(v@, 0, hi as int, c) == rfind(v@, 0, h as int, c),
        decreases h,
    {
        h = h - 1;
    }
    if h == 0 {
        None
    } else {
        Some(h - 1)
    }
}

/// One past the last character in `[lo, j)` that is not `c`: trailing copies
/// of `c` are skipped, down to `lo` at most.
pub open spec fn rskip_from(s: Seq<char>, lo: int, j: int, c: char) -> int
    decreases j - lo,
{
    if j <= lo || s[j - 1] != c {
        j
    } else {
        rskip_from(s, lo, j - 1, c)
    }
}

pub proof fn lemma_rskip_from(s: Seq<char>, lo: int, j: int, c: char)
    requires
        0 <= lo <= j <= s.len(),
    ensures
        lo <= rskip_from(s, lo, j, c) <= j,
        rskip_from(s, lo, j, c) > lo ==> s[rskip_from(s, lo, j, c) - 1] != c,
        forall|k: int| rskip_from(s, lo, j, c) <= k < j ==> s[k] == c,
    decreases j - lo,
{
    if j > lo && s[j - 1] == c {
        lemma_rskip_from(s, lo, j - 1, c);
    }
}

/// Skips trailing copies of `c` before `hi`, stopping at `lo`.
pub fn rskip_char(v: &Vec<char>, lo: usize, hi: usize, c: char) -> (t: usize)
    requires
        lo <= hi <= v@.len(),
    ensures
        t as int == rskip_from(v@, lo as int, hi as int, c),
        lo <= t <= hi,
{
    proof {
        lemma_rskip_from(v@, lo as int, hi as int, c);
    }
    let mut t: usize = hi;
    while t > lo && v[t - 1] == c
        invariant
            lo <= t <= hi <= v@.len(),
            rskip_from(v@, lo as int, hi as int, c) == rskip_from(v@, lo as int, t as int, c),
        decreases t,
    {
        t = t - 1;
    }
    t
}

/// Copies `v[from..to]`.
pub fn sub_chars(v: &Vec<char>, from: usize, to: usize) -> (r: Vec<char>)
    requires
        from <= to <= v@.len(),
    ensures
        r@ == v@.subrange(from as int, to as int),
{
    let mut r: Vec<char> = Vec::new();
    let mut i: usize = from;
    while i < to
        invariant
            from <= i <= to <= v@.len(),
            r@ == v@.subrange(from as int, i as int),
        decreases to - i,
    {
        r.push(v[i]);
        i = i + 1;
        proof {
            assert(r@ =~= v@.subrange(from as int, i as int));
        }
    }
    r
}

/// Character-for-character equality of two character vectors.
pub fn chars_eq(a: &Vec<char>, b: &Vec<char>) -> (r: bool)
    ensures
        r == (a@ == b@),
{
    if a.len() != b.len() {
        return false;
    }
    let mut i: usize = 0;
    while i < a.len()
        invariant
            a@.len() == b@.len(),
            i <= a@.len(),
            forall|k: int| 0 <= k < i ==> a@[k] == b@[k],
        decreases a@.len() - i,
    {
        if a[i] != b[i] {
            return false;
        }
        i = i + 1;
    }
    proof {
        assert(a@ =~= b@);
    }
    true
}

/// Character-for-character equality of two strings.
pub fn str_eq(a: &str, b: &str) -> (r: bool)
    ensures
        r == (a@ == b@),
{
    let av = str_to_chars(a);
    let bv = str_to_chars(b);
    if av.len() != bv.len() {
        return false;
    }
    let mut i: usize = 0;
    while i < av.len()
        invariant
            av@ == a@,
            bv@ == b@,
            av@.len() == bv@.len(),
            i <= av@.len(),
            forall|k: int| 0 <= k < i ==> av@[k] == bv@[k],
        decreases av@.len() - i,
    {
        if av[i] != bv[i] {
            return false;
        }
        i = i + 1;
    }
    proof {
        assert(a@ =~= b@);
    }
    true
}

/// An ASCII uppercase letter mapped to its lowercase form; every other
/// character kept.
pub open spec fn lower_char(c: char) -> char {
    if c == 'A' {
        'a'
    } else if c == 'B' {
        'b'
    } else if c == 'C' {
        'c'
    } else if c == 'D' {
        'd'
    } else if c == 'E' {
        'e'
    } else if c == 'F' {
        'f'
    } else if c == 'G' {
        'g'
    } else if c == 'H' {
        'h'
    } else if c == 'I' {
        'i'
    } else if c == 'J' {
        'j'
    } else if c == 'K' {
        'k'
    } else if c == 'L' {
        'l'
    } else if c == 'M' {
        'm'
    } else if c == 'N' {
        'n'
    } else if c == 'O' {
        'o'
    } else if c == 'P' {
        'p'
    } else if c == 'Q' {
        'q'
    } else if c == 'R' {
        'r'
    } else if c == 'S' {
        's'
    } else if c == 'T' {
        't'
    } else if c == 'U' {
        'u'
    } else if c == 'V' {
        'v'
    } else if c == 'W' {
        'w'
    } else if c == 'X' {
        'x'
    } else if c == 'Y' {
        'y'
    } else if c == 'Z' {
        'z'
    } else {
        c
    }
}

fn lower_char_exec(c: char) -> (r: char)
    ensures
        r == lower_char(c),
{
    match c {
        'A' => 'a',
        'B' => 'b',
        'C' => 'c',
        'D' => 'd',
        'E' => 'e',
        'F' => 'f',
        'G' => 'g',
        'H' => 'h',
        'I' => 'i',
        'J' => 'j',
        'K' => 'k',
        'L' => 'l',
        'M' => 'm',
        'N' => 'n',
        'O' => 'o',
        'P' => 'p',
        'Q' => 'q',
        'R' => 'r',
        'S' => 's',
        'T' => 't',
        'U' => 'u',
        'V' => 'v',
        'W' => 'w',
        'X' => 'x',
        'Y' => 'y',
        'Z' => 'z',
        _ => c,
    }
}

/// Lowercases the ASCII letters of a string.
pub fn ascii_lowercase(s: &str) -> (r: String)
    ensures
        r@.len() == s@.len(),
        forall|i: int| 0 <= i < s@.len() ==> r@[i] == lower_char(#[trigger] s@[i]),
{
    let v = str_to_chars(s);
    let mut out: Vec<char> = Vec::new();
    let mut i: usize = 0;
    while i < v.len()
        invariant
            v@ == s@,
            i <= v@.len(),
            out@.len() == i,
            forall|k: int| 0 <= k < i ==> out@[k] == lower_char(#[trigger] s@[k]),
        decreases v@.len() - i,
    {
        out.push(lower_char_exec(v[i]));
        i = i + 1;
    }
    chars_to_string(&out)
}

/// The decimal digit characters.
pub open spec fn digit_char(d: int) -> char {
    if d == 0 {
        '0'
    } else if d == 1 {
        '1'
    } else if d == 2 {
        '2'
    } else if d == 3 {
        '3'
    } else if d == 4 {
        '4'
    } else if d == 5 {
        '5'
    } else if d == 6 {
        '6'
    } else if d == 7 {
        '7'
    } else if d == 8 {
        '8'
    } else {
        '9'
    }
}

/// The canonical decimal rendering of a non-negative integer: no sign, no
/// leading zeros (except for 0 itself).
pub open spec fn dec_of(n: int) -> Seq<char>
    decreases n,
{
    if n < 10 {
        seq![digit_char(n)]
    } else {
        dec_of(n / 10).push(digit_char(n % 10))
    }
}

fn digit_to_char(d: u64) -> (c: char)
    requires
        d < 10,
    ensures
        c == digit_char(d as int),
{
    match d {
        0 => '0',
        1 => '1',
        2 => '2',
        3 => '3',
        4 => '4',
        5 => '5',
        6 => '6',
        7 => '7',
        8 => '8',
        _ => '9',
    }
}

/// Appends the decimal rendering of `n` to `out`.
pub fn push_dec(n: u64, out: &mut Vec<char>)
    ensures
        final(out)@ == old(out)@ + dec_of(n as int),
    decreases n,
{
    if n < 10 {
        out.push(digit_to_char(n));
        proof {
            assert(out@ =~= old(out)@ + dec_of(n as int));
        }
    } else {
        push_dec(n / 10, out);
        out.push(digit_to_char(n % 10));
        proof {
            assert(out@ =~= old(out)@ + dec_of(n as int));
        }
    }
}

/// The decimal rendering of `n` as a string.
pub fn u64_to_string(n: u64) -> (r: String)
    ensures
        r@ == dec_of(n as int),
{
    let mut out: Vec<char> = Vec::new();
    push_dec(n, &mut out);
    proof {
        assert(out@ =~= dec_of(n as int));
    }
    chars_to_string(&out)
}

pub open spec fn is_dec_digit(c: char) -> bool {
    '0' <= c <= '9'
}

/// A decimal rendering is never empty.
pub proof fn lemma_dec_len_pos(n: int)
    requires
        n >= 0,
    ensures
        dec_of(n).len() >= 1,
    decreases n,
{
    if n >= 10 {
        lemma_dec_len_pos(n / 10);
    }
}

/// Every character of a decimal rendering is a digit.
pub proof fn lemma_dec_digits(n: int)
    requires
        n >= 0,
    ensures
        forall|k: int| 0 <= k < dec_of(n).len() ==> is_dec_digit(#[trigger] dec_of(n)[k]),
    decreases n,
{
    if n >= 10 {
        lemma_dec_digits(n / 10);
        lemma_dec_len_pos(n / 10);
        assert forall|k: int| 0 <= k < dec_of(n).len() implies is_dec_digit(
            #[trigger] dec_of(n)[k],
        ) by {
            if k < dec_of(n / 10).len() {
                assert(dec_of(n)[k] == dec_of(n / 10)[k]);
            } else {
                assert(dec_of(n)[k] == digit_char(n % 10));
            }
        }
    }
}

/// A positive number's rendering does not begin with the zero digit.
pub proof fn lemma_dec_nonzero_head(n: int)
    requires
        n >= 1,
    ensures
        dec_of(n)[0] != '0',
    decreases n,
{
    if n >= 10 {
        lemma_dec_nonzero_head(n / 10);
        lemma_dec_len_pos(n / 10);
        assert(dec_of(n)[0] == dec_of(n / 10)[0]);
    }
}

/// Decimal renderings are unambiguous.
pub proof fn lemma_dec_injective(a: int, b: int)
    requires
        a >= 0,
        b >= 0,
        dec_of(a) == dec_of(b),
    ensures
        a == b,
    decreases a,
{
    lemma_dec_len_pos(a);
    lemma_dec_len_pos(b);
    if a < 10 && b < 10 {
        assert(dec_of(a)[0] == digit_char(a));
        assert(dec_of(b)[0] == digit_char(b));
    } else if a < 10 {
        lemma_dec_len_pos(b / 10);
        assert(dec_of(b).len() >= 2);
        assert(false);
    } else if b < 10 {
        lemma_dec_len_pos(a / 10);
        assert(dec_of(a).len() >= 2);
        assert(false);
    } else {
        assert(dec_of(a).last() == digit_char(a % 10));
        assert(dec_of(b).last() == digit_char(b % 10));
        assert(a % 10 == b % 10);
        assert(dec_of(a).drop_last() =~= dec_of(a / 10));
        assert(dec_of(b).drop_last() =~= dec_of(b / 10));
        lemma_dec_injective(a / 10, b / 10);
        vstd::arithmetic::div_mod::lemma_fundamental_div_mod(a, 10);
        vstd::arithmetic::div_mod::lemma_fundamental_div_mod(b, 10);
    }
}

/// A decimal rendering that begins another number's rendering belongs to a
/// number no larger.
pub proof fn lemma_dec_prefix_le(p: int, x: int)
    requires
        p >= 0,
        x >= 0,
        dec_of(p).len() <= dec_of(x).len(),
        dec_of(p) == dec_of(x).subrange(0, dec_of(p).len() as int),
    ensures
        p <= x,
    decreases x,
{
    lemma_dec_len_pos(p);
    lemma_dec_len_pos(x);
    if dec_of(p).len() == dec_of(x).len() {
        assert(dec_of(x).subrange(0, dec_of(x).len() as int) =~= dec_of(x));
        lemma_dec_injective(p, x);
    } else {
        if x < 10 {
            assert(false);
        }
        lemma_dec_len_pos(x / 10);
        assert(dec_of(x).subrange(0, dec_of(p).len() as int) =~= dec_of(x / 10).subrange(
            0,
            dec_of(p).len() as int,
        ));
        lemma_dec_prefix_le(p, x / 10);
        assert(x / 10 <= x) by (nonlinear_arith)
            requires
                x >= 0,
        ;
    }
}

/// Reads a canonical decimal `u64` starting at `pos`: one digit, or a
/// non-zero digit followed by more digits. Returns the value and the first
/// position after it. Whatever it accepts renders back to exactly the
/// consumed characters, and whenever the text at `pos` is the rendering of a
/// `u64` followed by a non-digit (or the end), exactly that number and that
/// end come back.
pub fn parse_dec_u64(v: &Vec<char>, pos: usize) -> (r: Option<(u64, usize)>)
    requires
        pos <= v@.len(),
    ensures
        r is Some ==> {
            let (n, end) = r->Some_0;
            &&& pos < end <= v@.len()
            &&& dec_of(n as int) =~= v@.subrange(pos as int, end as int)
        },
        forall|x: u64|
            (pos + dec_of(x as int).len() <= v@.len() && v@.subrange(
                pos as int,
                pos + dec_of(x as int).len(),
            ) == dec_of(x as int) && (pos + dec_of(x as int).len() == v@.len() || !is_dec_digit(
                v@[pos + dec_of(x as int).len()],
            ))) ==> r == Some((x, (pos + dec_of(x as int).len()) as usize)),
{
    if pos == v.len() {
        proof {
            assert forall|x: u64|
                (pos + dec_of(x as int).len() <= v@.len() && v@.subrange(
                    pos as int,
                    pos + dec_of(x as int).len(),
                ) == dec_of(x as int) && (pos + dec_of(x as int).len() == v@.len()
                    || !is_dec_digit(v@[pos + dec_of(x as int).len()]))) implies false by {
                lemma_dec_len_pos(x as int);
            }
        }
        return None;
    }
    let c0 = v[pos];
    if !('0' <= c0 && c0 <= '9') {
        proof {
            assert forall|x: u64|
                (pos + dec_of(x as int).len() <= v@.len() && v@.subrange(
                    pos as int,
                    pos + dec_of(x as int).len(),
                ) == dec_of(x as int) && (pos + dec_of(x as int).len() == v@.len()
                    || !is_dec_digit(v@[pos + dec_of(x as int).len()]))) implies false by {
                lemma_dec_len_pos(x as int);
                lemma_dec_digits(x as int);
                assert(dec_of(x as int)[0] == v@[pos as int]);
            }
        }
        return None;
    }
    if c0 == '0' {
        proof {
            assert(dec_of(0) =~= v@.subrange(pos as int, pos + 1 as int));
            assert forall|x: u64|
                (pos + dec_of(x as int).len() <= v@.len() && v@.subrange(
                    pos as int,
                    pos + dec_of(x as int).len(),
                ) == dec_of(x as int) && (pos + dec_of(x as int).len() == v@.len()
                    || !is_dec_digit(v@[pos + dec_of(x as int).len()]))) implies Some(
                (0u64, (pos + 1) as usize),
            ) == Some::<(u64, usize)>((x, (pos + dec_of(x as int).len()) as usize)) by {
                lemma_dec_len_pos(x as int);
                if x > 0 {
                    lemma_dec_nonzero_head(x as int);
                    assert(dec_of(x as int)[0] == v@[pos as int]);
                    assert(false);
                }
            }
        }
        return Some((0u64, pos + 1));
    }
    let mut val: u64 = (c0 as u32 - '0' as u32) as u64;
    let mut end: usize = pos + 1;
    while end < v.len() && '0' <= v[end] && v[end] <= '9'
        invariant
            pos < end <= v@.len(),
            1 <= val,
            dec_of(val as int) =~= v@.subrange(pos as int, end as int),
            forall|k: int| pos <= k < end ==> is_dec_digit(#[trigger] v@[k]),
        decreases v@.len() - end,
    {
        let d: u64 = (v[end] as u32 - '0' as u32) as u64;
        proof {
            assert((val as u128) * 10 + (d as u128) <= u128::MAX) by (nonlinear_arith)
                requires
                    0 <= val <= u64::MAX,
                    0 <= d < 10,
            ;
        }
        let next: u128 = (val as u128) * 10 + (d as u128);
        proof {
            let nv = val as int * 10 + d;
            assert(next == nv);
            assert(nv / 10 == val as int && nv % 10 == d) by (nonlinear_arith)
                requires
                    0 <= d < 10,
                    1 <= val,
                    nv == val as int * 10 + d,
            ;
            assert(dec_of(nv) == dec_of(val as int).push(digit_char(d as int)));
            assert(dec_of(nv) =~= v@.subrange(pos as int, end + 1));
        }
        if next > u64::MAX as u128 {
            proof {
                let nv = val as int * 10 + d;
                assert forall|x: u64|
                    (pos + dec_of(x as int).len() <= v@.len() && v@.subrange(
                        pos as int,
                        pos + dec_of(x as int).len(),
                    ) == dec_of(x as int) && (pos + dec_of(x as int).len() == v@.len()
                        || !is_dec_digit(v@[pos + dec_of(x as int).len()]))) implies false by {
                    let dl = dec_of(x as int).len() as int;
                    lemma_dec_len_pos(x as int);
                    if pos + dl <= end {
                        assert(is_dec_digit(v@[pos + dl]));
                        assert(false);
                    }
                    assert(end + 1 <= pos + dl);
                    assert(dec_of(nv).len() == end + 1 - pos);
                    assert(dec_of(nv) =~= dec_of(x as int).subrange(0, end + 1 - pos));
                    lemma_dec_prefix_le(nv, x as int);
                }
            }
            return None;
        }
        val = next as u64;
        end = end + 1;
        proof {
            assert(dec_of(val as int) =~= v@.subrange(pos as int, end as int));
        }
    }
    proof {
        assert forall|x: u64|
            (pos + dec_of(x as int).len() <= v@.len() && v@.subrange(
                pos as int,
                pos + dec_of(x as int).len(),
            ) == dec_of(x as int) && (pos + dec_of(x as int).len() == v@.len() || !is_dec_digit(
                v@[pos + dec_of(x as int).len()],
            ))) implies Some((val, end)) == Some::<(u64, usize)>(
            (x, (pos + dec_of(x as int).len()) as usize),
        ) by {
            let dl = dec_of(x as int).len() as int;
            lemma_dec_len_pos(x as int);
            lemma_dec_digits(x as int);
            if end < pos + dl {
                assert(dec_of(x as int)[end - pos] == v@[end as int]);
                assert(is_dec_digit(v@[end as int]));
                assert(false);
            }
            if end > pos + dl {
                assert(is_dec_digit(v@[pos + dl]));
                assert(false);
            }
            assert(dec_of(val as int) =~= dec_of(x as int));
            lemma_dec_injective(val as int, x as int);
        }
    }
    Some((val, end))
}

/// The lowercase hex digit characters.
pub open spec fn hex_digit(d: int) -> char {
    if d < 10 {
        digit_char(d)
    } else if d == 10 {
        'a'
    } else if d == 11 {
        'b'
    } else if d == 12 {
        'c'
    } else if d == 13 {
        'd'
    } else if d == 14 {
        'e'
    } else {
        'f'
    }
}

/// Lowercase hex encoding: two digits for each byte, high nibble first.
pub open spec fn hex_of(bytes: Seq<u8>) -> Seq<char> {
    Seq::new(
        bytes.len() * 2,
        |i: int|
            if i % 2 == 0 {
                hex_digit(bytes[i / 2] as int / 16)
            } else {
                hex_digit(bytes[i / 2] as int % 16)
            },
    )
}

} // verus!
