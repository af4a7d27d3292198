use vstd::prelude::*;

verus! {

/// Whitespace that is insignificant between tokens: space, tab, CR, LF.
pub open spec fn is_space(c: char) -> bool {
    c == ' ' || c == '\t' || c == '\r' || c == '\n'
}

/// An ASCII decimal digit.
pub open spec fn is_digit(c: char) -> bool {
    '0' <= c && c <= '9'
}

/// ASCII whitespace as the reference-segment rule understands it.
pub open spec fn is_ascii_space(c: char) -> bool {
    c == ' ' || c == '\t' || c == '\n' || c == '\x0C' || c == '\r'
}

/// The first position at or after `i` where `pred` stops holding (or the end
/// of the input): the end of the maximal run of `pred`-characters from `i`.
pub open spec fn scan_end(s: Seq<char>, i: int, pred: spec_fn(char) -> bool) -> int
    decreases s.len() - i,
{
    if 0 <= i < s.len() && pred(s[i]) {
        scan_end(s, i + 1, pred)
    } else {
        i
    }
}

pub proof fn lemma_scan_end(s: Seq<char>, i: int, pred: spec_fn(char) -> bool)
    ensures
        i <= scan_end(s, i, pred),
        0 <= i <= s.len() ==> scan_end(s, i, pred) <= s.len(),
        forall|m: int| i <= m < scan_end(s, i, pred) ==> pred(s[m]),
        !(0 <= scan_end(s, i, pred) < s.len() && pred(s[scan_end(s, i, pred)])),
    decreases s.len() - i,
{
    if 0 <= i < s.len() && pred(s[i]) {
        lemma_scan_end(s, i + 1, pred);
    }
}

/// A run of `pred`-characters from `i` to `j`, with `j` blocked, ends at `j`.
pub proof fn lemma_scan_end_unique(s: Seq<char>, i: int, j: int, pred: spec_fn(char) -> bool)
    requires
        0 <= i <= j <= s.len(),
        forall|m: int| i <= m < j ==> pred(s[m]),
        j == s.len() || !pred(s[j]),
    ensures
        scan_end(s, i, pred) == j,
    decreases j - i,
{
    if i < j {
        lemma_scan_end_unique(s, i + 1, j, pred);
    }
}

/// End of the run of whitespace starting at `i`.
pub open spec fn sp_end(s: Seq<char>, i: int) -> int {
    scan_end(s, i, |c: char| is_space(c))
}

/// `lit` occurs in `s` at position `i`.
pub open spec fn has_lit(s: Seq<char>, i: int, lit: Seq<char>) -> bool {
    0 <= i && i + lit.len() <= s.len() && s.subrange(i, i + lit.len()) == lit
}

/// Skip the whitespace run starting at `pos`.
pub fn scan_sp(s: &str, pos: usize) -> (r: usize)
    requires
        pos <= s@.len(),
    ensures
        r == sp_end(s@, pos as int),
        pos <= r <= s@.len(),
{
    let n = s.unicode_len();
    let mut p = pos;
    loop
        invariant
            pos <= p <= n,
            n == s@.len(),
            sp_end(s@, pos as int) == sp_end(s@, p as int),
        ensures
            pos <= p <= n,
            sp_end(s@, pos as int) == p,
        decreases n - p,
    {
        if p == n {
            break;
        }
        let c = s.get_char(p);
        if !(c == ' ' || c == '\t' || c == '\r' || c == '\n') {
            break;
        }
        p = p + 1;
    }
    p
}

/// Decide whether `lit` occurs in `s` at position `pos`.
pub fn match_lit(s: &str, pos: usize, lit: &str) -> (b: bool)
    requires
        pos <= s@.len(),
    ensures
        b == has_lit(s@, pos as int, lit@),
{
    let n = s.unicode_len();
    let m = lit.unicode_len();
    if m > n - pos {
        return false;
    }
    let mut k: usize = 0;
    while k < m
        invariant
            0 <= k <= m,
            pos + m <= n,
            n == s@.len(),
            m == lit@.len(),
            forall|j: int| 0 <= j < k ==> s@[pos + j] == lit@[j],
        decreases m - k,
    {
        if s.get_char(pos + k) != lit.get_char(k) {
            assert(s@.subrange(pos as int, pos as int + m as int)[k as int] != lit@[k as int]);
            return false;
        }
        k = k + 1;
    }
    assert(s@.subrange(pos as int, pos as int + m as int) =~= lit@);
    true
}

/// End of the digit run starting at `i`.
pub open spec fn digits_end(s: Seq<char>, i: int) -> int {
    scan_end(s, i, |c: char| is_digit(c))
}

/// End of the run of non-quote characters starting at `i`.
pub open spec fn quote_end(s: Seq<char>, i: int) -> int {
    scan_end(s, i, |c: char| c != '"')
}

/// End of a property key: a run of characters other than space and `=`.
pub open spec fn key_end(s: Seq<char>, i: int) -> int {
    scan_end(s, i, |c: char| c != ' ' && c != '=')
}

/// End of a reference segment: a run without dots or ASCII whitespace.
pub open spec fn seg_end(s: Seq<char>, i: int) -> int {
    scan_end(s, i, |c: char| c != '.' && !is_ascii_space(c))
}

/// End of the run of non-whitespace characters starting at `i`.
pub open spec fn nonws_end(s: Seq<char>, i: int) -> int {
    scan_end(s, i, |c: char| !is_ascii_space(c))
}

/// Skip the digit run starting at `pos`.
pub fn scan_digits(s: &str, pos: usize) -> (r: usize)
    requires
        pos <= s@.len(),
    ensures
        r == digits_end(s@, pos as int),
        pos <= r <= s@.len(),
{
    let n = s.unicode_len();
    let mut p = pos;
    loop
        invariant
            pos <= p <= n,
            n == s@.len(),
            digits_end(s@, pos as int) == digits_end(s@, p as int),
        ensures
            pos <= p <= n,
            digits_end(s@, pos as int) == p,
        decreases n - p,
    {
        if p == n {
            break;
        }
        let c = s.get_char(p);
        if !('0' <= c && c <= '9') {
            break;
        }
        p = p + 1;
    }
    p
}

/// Skip the run of non-quote characters starting at `pos`.
pub fn scan_quote(s: &str, pos: usize) -> (r: usize)
    requires
        pos <= s@.len(),
    ensures
        r == quote_end(s@, pos as int),
        pos <= r <= s@.len(),
{
    let n = s.unicode_len();
    let mut p = pos;
    loop
        invariant
            pos <= p <= n,
            n == s@.len(),
            quote_end(s@, pos as int) == quote_end(s@, p as int),
        ensures
            pos <= p <= n,
            quote_end(s@, pos as int) == p,
        decreases n - p,
    {
        if p == n {
            break;
        }
        let c = s.get_char(p);
        if c == '"' {
            break;
        }
        p = p + 1;
    }
    p
}

/// Skip the property-key run starting at `pos`.
pub fn scan_key(s: &str, pos: usize) -> (r: usize)
    requires
        pos <= s@.len(),
    ensures
        r == key_end(s@, pos as int),
        pos <= r <= s@.len(),
{
    let n = s.unicode_len();
    let mut p = pos;
    loop
        invariant
            pos <= p <= n,
            n == s@.len(),
            key_end(s@, pos as int) == key_end(s@, p as int),
        ensures
            pos <= p <= n,
            key_end(s@, pos as int) == p,
        decreases n - p,
    {
        if p == n {
            break;
        }
        let c = s.get_char(p);
        if c == ' ' || c == '=' {
            break;
        }
        p = p + 1;
    }
    p
}

/// Skip the reference-segment run starting at `pos`.
pub fn scan_seg(s: &str, pos: usize) -> (r: usize)
    requires
        pos <= s@.len(),
    ensures
        r == seg_end(s@, pos as int),
        pos <= r <= s@.len(),
{
    let n = s.unicode_len();
    let mut p = pos;
    loop
        invariant
            pos <= p <= n,
            n == s@.len(),
            seg_end(s@, pos as int) == seg_end(s@, p as int),
        ensures
            pos <= p <= n,
            seg_end(s@, pos as int) == p,
        decreases n - p,
    {
        if p == n {
            break;
        }
        let c = s.get_char(p);
        if c == '.' || c == ' ' || c == '\t' || c == '\n' || c == '\x0C' || c == '\r' {
            break;
        }
        p = p + 1;
    }
    p
}

/// Skip the run of non-whitespace characters starting at `pos`.
pub fn scan_nonws(s: &str, pos: usize) -> (r: usize)
    requires
        pos <= s@.len(),
    ensures
        r == nonws_end(s@, pos as int),
        pos <= r <= s@.len(),
{
    let n = s.unicode_len();
    let mut p = pos;
    loop
        invariant
            pos <= p <= n,
            n == s@.len(),
            nonws_end(s@, pos as int) == nonws_end(s@, p as int),
        ensures
            pos <= p <= n,
            nonws_end(s@, pos as int) == p,
        decreases n - p,
    {
        if p == n {
            break;
        }
        let c = s.get_char(p);
        if c == ' ' || c == '\t' || c == '\n' || c == '\x0C' || c == '\r' {
            break;
        }
        p = p + 1;
    }
    p
}

/// A whitespace run from `i` to a blocked `j` makes `sp_end` equal `j`.
pub proof fn lemma_sp_end_at(s: Seq<char>, i: int, j: int)
    requires
        0 <= i <= j <= s.len(),
        forall|m: int| i <= m < j ==> is_space(s[m]),
        j == s.len() || !is_space(s[j]),
    ensures
        sp_end(s, i) == j,
{
    lemma_scan_end_unique(s, i, j, |c: char| is_space(c));
}

/// A quote-free run from `i` to a blocked `j` makes `quote_end` equal `j`.
pub proof fn lemma_quote_end_at(s: Seq<char>, i: int, j: int)
    requires
        0 <= i <= j <= s.len(),
        forall|m: int| i <= m < j ==> s[m] != '"',
        j == s.len() || s[j] == '"',
    ensures
        quote_end(s, i) == j,
{
    lemma_scan_end_unique(s, i, j, |c: char| c != '"');
}

/// A key run from `i` to a blocked `j` makes `key_end` equal `j`.
pub proof fn lemma_key_end_at(s: Seq<char>, i: int, j: int)
    requires
        0 <= i <= j <= s.len(),
        forall|m: int| i <= m < j ==> (s[m] != ' ' && s[m] != '='),
        j == s.len() || s[j] == ' ' || s[j] == '=',
    ensures
        key_end(s, i) == j,
{
    lemma_scan_end_unique(s, i, j, |c: char| c != ' ' && c != '=');
}

} // verus!
