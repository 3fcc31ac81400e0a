//! String scanning helpers, the record provider capability, and lazily
//! resolved references.

use vstd::prelude::*;

verus! {

/// Whether `c` occurs in `s`.
pub open spec fn has_char(s: Seq<char>, c: char) -> bool {
    exists|i: int| 0 <= i < s.len() && s[i] == c
}

/// The first position of `c` in `s` at or after `from`, or -1.
pub open spec fn first_idx_at(s: Seq<char>, c: char, from: int) -> int
    decreases s.len() - from,
{
    if from < 0 || from >= s.len() {
        -1
    } else if s[from] == c {
        from
    } else {
        first_idx_at(s, c, from + 1)
    }
}

/// A scan that saw no `c` in `[from, j)` and stopped at `j` pins down
/// `first_idx_at`.
pub proof fn lemma_first_idx_characterize(s: Seq<char>, c: char, from: int, j: int)
    requires
        0 <= from <= j <= s.len(),
        forall|m: int| from <= m < j ==> s[m] != c,
        j == s.len() || s[j] == c,
    ensures
        first_idx_at(s, c, from) == if j == s.len() {
            -1
        } else {
            j
        },
    decreases j - from,
{
    if from < j {
        lemma_first_idx_characterize(s, c, from + 1, j);
    }
}

/// The pieces of `s` between occurrences of `sep`, in order; `n + 1` pieces
/// for `n` separators, and one (possibly empty) piece when there is none.
pub open spec fn spec_split(s: Seq<char>, sep: char) -> Seq<Seq<char>>
    decreases s.len(),
{
    let i = first_idx_at(s, sep, 0);
    if !(0 <= i < s.len()) {
        seq![s]
    } else {
        seq![s.subrange(0, i)] + spec_split(s.subrange(i + 1, s.len() as int), sep)
    }
}

/// The first position of `c` in `s` at or after `from`, scanning forward.
pub fn find_char_from(s: &str, from: usize, c: char) -> (r: Option<usize>)
    ensures
        match r {
            Some(j) => {
                &&& from <= j < s@.len()
                &&& s@[j as int] == c
                &&& forall|m: int| from <= m < j ==> s@[m] != c
            },
            None => forall|m: int| from <= m < s@.len() ==> s@[m] != c,
        },
{
    let n = s.unicode_len();
    let mut j: usize = from;
    while j < n
        invariant
            n == s@.len(),
            from <= j,
            forall|m: int| from <= m < j ==> s@[m] != c,
        decreases n - j,
    {
        if s.get_char(j) == c {
            return Some(j);
        }
        j += 1;
    }
    None
}

/// Splits `s` on the separator `sep`, keeping empty pieces.
pub fn split_char(s: &str, sep: char) -> (r: Vec<String>)
    ensures
        r.deep_view() == spec_split(s@, sep),
        r@.len() >= 1,
{
    let n = s.unicode_len();
    let mut out: Vec<String> = Vec::new();
    let mut p: usize = 0;
    proof {
        assert(s@.subrange(0, n as int) =~= s@);
        assert(out.deep_view() + spec_split(s@, sep) =~= spec_split(s@, sep));
    }
    loop
        invariant
            p <= n,
            n == s@.len(),
            spec_split(s@, sep) == out.deep_view() + spec_split(
                s@.subrange(p as int, n as int),
                sep,
            ),
        ensures
            out.deep_view() == spec_split(s@, sep),
            out@.len() >= 1,
        decreases n - p,
    {
        let ghost t = s@.subrange(p as int, n as int);
        let ghost out0 = out.deep_view();
        let ghost p0 = p as int;
        match find_char_from(s, p, sep) {
            Some(j) => {
                proof {
                    assert forall|m: int| 0 <= m < j - p0 implies t[m] != sep by {
                        assert(t[m] == s@[p0 + m]);
                    }
                    assert(t[j - p0] == s@[j as int]);
                    lemma_first_idx_characterize(t, sep, 0, j - p0);
                    assert(t.subrange(0, j - p0) =~= s@.subrange(p0, j as int));
                    assert(t.subrange(j - p0 + 1, t.len() as int) =~= s@.subrange(
                        j as int + 1,
                        n as int,
                    ));
                }
                let piece = s.substring_char(p, j).to_owned();
                out.push(piece);
                p = j + 1;
                proof {
                    assert(out.deep_view() =~= out0.push(t.subrange(0, j - p0)));
                    assert(spec_split(t, sep) == seq![t.subrange(0, j - p0)] + spec_split(
                        s@.subrange(p as int, n as int),
                        sep,
                    ));
                    assert(out.deep_view() + spec_split(s@.subrange(p as int, n as int), sep) =~= (
                    out0 + spec_split(t, sep)));
                }
            },
            None => {
                proof {
                    assert forall|m: int| 0 <= m < t.len() implies t[m] != sep by {
                        assert(t[m] == s@[p0 + m]);
                    }
                    lemma_first_idx_characterize(t, sep, 0, t.len() as int);
                    assert(spec_split(t, sep) == seq![t]);
                }
                let piece = s.substring_char(p, n).to_owned();
                out.push(piece);
                proof {
                    assert(out.deep_view() =~= out0.push(t));
                    assert(out.deep_view() =~= out0 + seq![t]);
                }
                return out;
            },
        }
    }
}

/// Whether `c` occurs in `s`.
pub fn contains_char(s: &str, c: char) -> (r: bool)
    ensures
        r == has_char(s@, c),
{
    match find_char_from(s, 0, c) {
        Some(j) => {
            proof {
                assert(0 <= j < s@.len() && s@[j as int] == c);
            }
            true
        },
        None => false,
    }
}

/// Whether two string slices hold the same characters.
pub fn str_eq(a: &str, b: &str) -> (r: bool)
    ensures
        r == (a@ == b@),
{
    let na = a.unicode_len();
    let nb = b.unicode_len();
    if na != nb {
        return false;
    }
    let mut i: usize = 0;
    while i < na
        invariant
            na == a@.len(),
            na == b@.len(),
            i <= na,
            forall|j: int| 0 <= j < i ==> a@[j] == b@[j],
        decreases na - i,
    {
        if a.get_char(i) != b.get_char(i) {
            return false;
        }
        i += 1;
    }
    proof {
        assert(a@ =~= b@);
    }
    true
}

/// A capability that fetches raw records by name.
pub trait Provider {
    /// The record type this provider hands out.
    type Item;

    /// Fetches the record stored under `name`, or `None` when it is missing.
    fn provide(&mut self, name: &str) -> Option<Self::Item>;
}

/// A reference that is either still a name or already a resolved value.
#[derive(Debug)]
pub enum Lazy<T> {
    /// The name of a record not yet resolved.
    Name(String),
    /// The resolved value.
    Real(T),
}

/// Whether every character of `s` is a decimal digit.
pub open spec fn all_digits(s: Seq<char>) -> bool {
    forall|i: int| 0 <= i < s.len() ==> '0' <= #[trigger] s[i] <= '9'
}

/// The decimal value of a digit string.
pub open spec fn dec_value(s: Seq<char>) -> int
    decreases s.len(),
{
    if s.len() == 0 {
        0
    } else {
        dec_value(s.drop_last()) * 10 + (s.last() as int - '0' as int)
    }
}

/// The decimal value of a digit string is not negative.
pub proof fn lemma_dec_value_nonneg(s: Seq<char>)
    requires
        all_digits(s),
    ensures
        dec_value(s) >= 0,
    decreases s.len(),
{
    if s.len() > 0 {
        assert(all_digits(s.drop_last())) by {
            assert(forall|i: int| 0 <= i < s.len() - 1 ==> s.drop_last()[i] == s[i]);
        }
        lemma_dec_value_nonneg(s.drop_last());
    }
}

/// A digit string is worth at least any of its prefixes.
pub proof fn lemma_dec_value_prefix_le(s: Seq<char>, i: int)
    requires
        all_digits(s),
        0 <= i <= s.len(),
    ensures
        dec_value(s.take(i)) <= dec_value(s),
    decreases s.len() - i,
{
    if i < s.len() {
        lemma_dec_value_prefix_le(s, i + 1);
        let t = s.take(i + 1);
        assert(t.drop_last() =~= s.take(i));
        assert(all_digits(s.take(i))) by {
            assert(forall|j: int| 0 <= j < i ==> s.take(i)[j] == s[j]);
        }
        lemma_dec_value_nonneg(s.take(i));
        assert(t.last() == s[i]);
        assert(dec_value(t) == dec_value(s.take(i)) * 10 + (s[i] as int - '0' as int));
        assert(dec_value(s.take(i)) * 10 >= dec_value(s.take(i)));
    } else {
        assert(s.take(i) =~= s);
    }
}

/// Parses an unsigned decimal number; fails on empty text, a non-digit, or
/// a value over the machine-word ceiling.
pub fn parse_usize(s: &str) -> (r: Option<usize>)
    ensures
        match r {
            Some(v) => {
                &&& s@.len() > 0
                &&& all_digits(s@)
                &&& dec_value(s@) == v as int
            },
            None => s@.len() == 0 || !all_digits(s@) || dec_value(s@) > usize::MAX,
        },
{
    let n = s.unicode_len();
    if n == 0 {
        return None;
    }
    let mut acc: usize = 0;
    let mut i: usize = 0;
    while i < n
        invariant
            n == s@.len(),
            i <= n,
            all_digits(s@.take(i as int)),
            acc as int == dec_value(s@.take(i as int)),
        decreases n - i,
    {
        let c = s.get_char(i);
        if !('0' <= c && c <= '9') {
            return None;
        }
        let d = ((c as u32) - ('0' as u32)) as usize;
        if acc > (usize::MAX - d) / 10 {
            proof {
                assert(dec_value(s@.take(i as int + 1)) == acc as int * 10 + d) by {
                    assert(s@.take(i as int + 1).drop_last() =~= s@.take(i as int));
                    assert(s@.take(i as int + 1).last() == s@[i as int]);
                }
                assert(acc as int * 10 + d > usize::MAX) by (nonlinear_arith)
                    requires
                        acc as int > (usize::MAX as int - d) / 10,
                        0 <= d <= 9,
                ;
                assert(all_digits(s@.take(i as int + 1))) by {
                    assert(forall|j: int|
                        0 <= j < i + 1 ==> s@.take(i as int + 1)[j] == s@[j]);
                }
                if all_digits(s@) {
                    lemma_dec_value_prefix_le(s@, i as int + 1);
                }
            }
            return None;
        }
        proof {
            assert(acc as int * 10 + d <= usize::MAX) by (nonlinear_arith)
                requires
                    acc as int <= (usize::MAX as int - d) / 10,
                    0 <= d <= 9,
            ;
            assert(dec_value(s@.take(i as int + 1)) == acc as int * 10 + d) by {
                assert(s@.take(i as int + 1).drop_last() =~= s@.take(i as int));
                assert(s@.take(i as int + 1).last() == s@[i as int]);
            }
            assert(all_digits(s@.take(i as int + 1))) by {
                assert(forall|j: int| 0 <= j < i + 1 ==> s@.take(i as int + 1)[j] == s@[j]);
            }
        }
        acc = acc * 10 + d;
        i += 1;
    }
    proof {
        assert(s@.take(n as int) =~= s@);
    }
    Some(acc)
}

/// What signed decimal text denotes: an optional minus sign, then digits.
pub open spec fn spec_signed_value(s: Seq<char>) -> Option<int> {
    if s.len() > 0 && s[0] == '-' {
        let digits = s.subrange(1, s.len() as int);
        if digits.len() > 0 && all_digits(digits) {
            Option::Some(-dec_value(digits))
        } else {
            Option::None
        }
    } else if s.len() > 0 && all_digits(s) {
        Option::Some(dec_value(s))
    } else {
        Option::None
    }
}

/// Parses a signed decimal number that fits a 32-bit integer.
pub fn parse_i32(s: &str) -> (r: Option<i32>)
    ensures
        match r {
            Some(v) => spec_signed_value(s@) == Option::Some(v as int),
            None => spec_signed_value(s@) is None || (match spec_signed_value(s@) {
                Option::Some(n) => n < i32::MIN || n > i32::MAX,
                Option::None => true,
            }),
        },
{
    let n = s.unicode_len();
    if n == 0 {
        return None;
    }
    if s.get_char(0) == '-' {
        let digits = s.substring_char(1, n);
        match parse_usize(digits) {
            Some(v) => {
                if v > 0x8000_0000usize {
                    proof {
                        lemma_dec_value_nonneg(digits@);
                    }
                    return None;
                }
                if v == 0x8000_0000usize {
                    return Some(i32::MIN);
                }
                Some(-(v as i32))
            },
            None => {
                proof {
                    if digits@.len() > 0 && all_digits(digits@) {
                        lemma_dec_value_nonneg(digits@);
                    }
                }
                None
            },
        }
    } else {
        match parse_usize(s) {
            Some(v) => {
                if v > 0x7fff_ffffusize {
                    return None;
                }
                Some(v as i32)
            },
            None => None,
        }
    }
}

/// The first position at or after `from` where a brace pair `{}` starts.
pub open spec fn first_brace_at(s: Seq<char>, from: int) -> int
    decreases s.len() - from,
{
    if from < 0 || from + 1 >= s.len() {
        -1
    } else if s[from] == '{' && s[from + 1] == '}' {
        from
    } else {
        first_brace_at(s, from + 1)
    }
}

/// A scan that saw no brace pair in `[from, j)` and stopped at `j` pins
/// down `first_brace_at`.
pub proof fn lemma_first_brace_characterize(s: Seq<char>, from: int, j: int)
    requires
        0 <= from <= j,
        j + 1 <= s.len(),
        forall|m: int| from <= m < j ==> !(#[trigger] s[m] == '{' && s[m + 1] == '}'),
        j + 1 == s.len() || (s[j] == '{' && s[j + 1] == '}'),
    ensures
        first_brace_at(s, from) == if j + 1 == s.len() {
            -1
        } else {
            j
        },
    decreases j - from,
{
    if from < j {
        lemma_first_brace_characterize(s, from + 1, j);
    }
}

/// The pieces of `s` between `{}` placeholders, in order.
pub open spec fn spec_split_braces(s: Seq<char>) -> Seq<Seq<char>>
    decreases s.len(),
{
    let i = first_brace_at(s, 0);
    if !(0 <= i && i + 1 < s.len()) {
        seq![s]
    } else {
        seq![s.subrange(0, i)] + spec_split_braces(s.subrange(i + 2, s.len() as int))
    }
}

/// The first position at or after `from` where a brace pair starts,
/// scanning forward.
fn find_brace_from(s: &str, from: usize) -> (r: Option<usize>)
    ensures
        match r {
            Some(j) => {
                &&& from <= j
                &&& j + 1 < s@.len()
                &&& s@[j as int] == '{' && s@[j as int + 1] == '}'
                &&& forall|m: int| from <= m < j ==> !(#[trigger] s@[m] == '{' && s@[m + 1] == '}')
            },
            None => forall|m: int|
                from <= m && m + 1 < s@.len() ==> !(#[trigger] s@[m] == '{' && s@[m + 1] == '}'),
        },
{
    let n = s.unicode_len();
    if from >= n {
        return None;
    }
    let mut j: usize = from;
    while j < n - 1
        invariant
            n == s@.len(),
            n >= 1,
            from <= j <= n,
            forall|m: int| from <= m < j ==> !(#[trigger] s@[m] == '{' && s@[m + 1] == '}'),
        decreases n - j,
    {
        if s.get_char(j) == '{' && s.get_char(j + 1) == '}' {
            return Some(j);
        }
        j += 1;
    }
    None
}

/// Whether `pat` occurs in `s` starting at `i`.
pub open spec fn is_match_at(s: Seq<char>, pat: Seq<char>, i: int) -> bool {
    0 <= i && i + pat.len() <= s.len() && s.subrange(i, i + pat.len()) == pat
}

/// The first position at or after `from` where `pat` occurs in `s`.
fn find_sub_from(s: &str, from: usize, pat: &str) -> (r: Option<usize>)
    ensures
        match r {
            Some(j) => {
                &&& from <= j
                &&& is_match_at(s@, pat@, j as int)
                &&& forall|m: int| from <= m < j ==> !is_match_at(s@, pat@, m)
            },
            None => forall|m: int| from <= m ==> !is_match_at(s@, pat@, m),
        },
{
    let n = s.unicode_len();
    let np = pat.unicode_len();
    if np > n || from > n - np {
        proof {
            assert forall|m: int| from <= m implies !is_match_at(s@, pat@, m) by {
                if is_match_at(s@, pat@, m) {
                    assert(m + np <= n);
                }
            }
        }
        return None;
    }
    let mut j: usize = from;
    while j <= n - np
        invariant
            n == s@.len(),
            np == pat@.len(),
            np <= n,
            from <= j <= n - np + 1,
            forall|m: int| from <= m < j ==> !is_match_at(s@, pat@, m),
        decreases n - j,
    {
        let mut k: usize = 0;
        let mut matched = true;
        while k < np
            invariant
                n == s@.len(),
                np == pat@.len(),
                j + np <= n,
                k <= np,
                matched ==> (forall|m: int| 0 <= m < k ==> s@[j + m] == pat@[m]),
                !matched ==> (exists|m: int| 0 <= m < np && #[trigger] s@[j + m] != pat@[m]),
            decreases np - k,
        {
            if s.get_char(j + k) != pat.get_char(k) {
                proof {
                    assert(s@[j + k] != pat@[k as int]);
                }
                matched = false;
                k = np;
            } else {
                k += 1;
            }
        }
        if matched {
            proof {
                assert(s@.subrange(j as int, j as int + np) =~= pat@);
            }
            return Some(j);
        }
        proof {
            if is_match_at(s@, pat@, j as int) {
                let w = choose|m: int| 0 <= m < np && #[trigger] s@[j + m] != pat@[m];
                assert(s@.subrange(j as int, j as int + np)[w] == s@[j + w]);
                assert(false);
            }
        }
        j += 1;
    }
    proof {
        assert forall|m: int| from <= m implies !is_match_at(s@, pat@, m) by {
            if is_match_at(s@, pat@, m) {
                assert(m + np <= n);
                assert(m < j);
            }
        }
    }
    None
}

/// The first position at or after `from` where `pat` occurs in `s`, or -1.
pub open spec fn first_match_at(s: Seq<char>, pat: Seq<char>, from: int) -> int
    decreases s.len() + 1 - from,
{
    if from < 0 || from + pat.len() > s.len() {
        -1
    } else if is_match_at(s, pat, from) {
        from
    } else {
        first_match_at(s, pat, from + 1)
    }
}

proof fn lemma_first_match_some(s: Seq<char>, pat: Seq<char>, from: int, j: int)
    requires
        0 <= from <= j,
        forall|m: int| from <= m < j ==> !is_match_at(s, pat, m),
        is_match_at(s, pat, j),
    ensures
        first_match_at(s, pat, from) == j,
    decreases j - from,
{
    if from < j {
        lemma_first_match_some(s, pat, from + 1, j);
    }
}

proof fn lemma_first_match_none(s: Seq<char>, pat: Seq<char>, from: int)
    requires
        0 <= from,
        forall|m: int| from <= m ==> !is_match_at(s, pat, m),
    ensures
        first_match_at(s, pat, from) == -1,
    decreases s.len() + 1 - from,
{
    if from + pat.len() <= s.len() {
        lemma_first_match_none(s, pat, from + 1);
    }
}

/// What matching continues to yield from piece `n` on, with `p` the text
/// still unconsumed, which starts with piece `n - 1`: each further piece is
/// found at its first occurrence — an empty piece matches the very end —
/// and the text before it becomes a capture; a piece that never occurs
/// fails the whole match.
pub open spec fn spec_scan_rest(parts: Seq<Seq<char>>, p: Seq<char>, n: int) -> Option<
    Seq<Seq<char>>,
>
    decreases parts.len() - n,
{
    if n >= parts.len() {
        Some(Seq::empty())
    } else {
        let rest = p.skip(parts[n - 1].len() as int);
        let q = parts[n];
        let i = if q.len() == 0 {
            rest.len() as int
        } else {
            first_match_at(rest, q, 0)
        };
        if i < 0 {
            None
        } else {
            match spec_scan_rest(parts, rest.skip(i), n + 1) {
                None => None,
                Some(caps) => Some(seq![rest.take(i)] + caps),
            }
        }
    }
}

/// What matching `s` against the pattern pieces yields: the captures, in
/// order, when `s` starts with the first piece and every further piece is
/// found; nothing otherwise.
pub open spec fn spec_scan(parts: Seq<Seq<char>>, s: Seq<char>) -> Option<Seq<Seq<char>>> {
    if parts.len() >= 1 && parts[0].len() <= s.len() && s.take(parts[0].len() as int)
        == parts[0] {
        spec_scan_rest(parts, s, 1)
    } else {
        None
    }
}

/// The pattern text rebuilt through the first `n` pattern pieces: pieces
/// and the captures matched between them, alternating.
pub open spec fn scan_built(parts: Seq<Seq<char>>, caps: Seq<Seq<char>>, n: int) -> Seq<char>
    decreases n,
{
    if n <= 1 {
        Seq::empty()
    } else {
        scan_built(parts, caps, n - 1) + parts[n - 2] + caps[n - 2]
    }
}

/// `scan_built` only reads the captures it mentions, so appending more
/// changes nothing.
proof fn lemma_scan_built_push(parts: Seq<Seq<char>>, caps: Seq<Seq<char>>, x: Seq<char>, n: int)
    requires
        n - 2 < caps.len(),
    ensures
        scan_built(parts, caps.push(x), n) == scan_built(parts, caps, n),
    decreases n,
{
    if n > 1 {
        lemma_scan_built_push(parts, caps, x, n - 1);
        assert(caps.push(x)[n - 2] == caps[n - 2]);
    }
}

/// A format-string matcher: the literal pieces of a pattern around `{}`
/// placeholders.
pub struct Scanner {
    /// The literal pieces between the placeholders, in order.
    pub parts: Vec<String>,
}

impl Scanner {
    /// A scanner from a pattern: its pieces around `{}` placeholders.
    pub fn new(s: &str) -> (r: Self)
        ensures
            r.parts.deep_view() == spec_split_braces(s@),
            r.parts@.len() >= 1,
    {
        let n = s.unicode_len();
        let mut out: Vec<String> = Vec::new();
        let mut p: usize = 0;
        proof {
            assert(s@.subrange(0, n as int) =~= s@);
            assert(out.deep_view() + spec_split_braces(s@) =~= spec_split_braces(s@));
        }
        loop
            invariant
                p <= n,
                n == s@.len(),
                spec_split_braces(s@) == out.deep_view() + spec_split_braces(
                    s@.subrange(p as int, n as int),
                ),
            ensures
                out.deep_view() == spec_split_braces(s@),
                out@.len() >= 1,
            decreases n - p,
        {
            let ghost t = s@.subrange(p as int, n as int);
            let ghost out0 = out.deep_view();
            let ghost p0 = p as int;
            match find_brace_from(s, p) {
                Some(j) => {
                    proof {
                        assert forall|m: int| 0 <= m < j - p0 implies !(#[trigger] t[m] == '{'
                            && t[m + 1] == '}') by {
                            assert(t[m] == s@[p0 + m]);
                            assert(t[m + 1] == s@[p0 + m + 1]);
                        }
                        assert(t[j - p0] == s@[j as int]);
                        assert(t[j - p0 + 1] == s@[j as int + 1]);
                        lemma_first_brace_characterize(t, 0, j - p0);
                        assert(t.subrange(0, j - p0) =~= s@.subrange(p0, j as int));
                        assert(t.subrange(j - p0 + 2, t.len() as int) =~= s@.subrange(
                            j as int + 2,
                            n as int,
                        ));
                    }
                    let piece = s.substring_char(p, j).to_owned();
                    out.push(piece);
                    p = j + 2;
                    proof {
                        assert(out.deep_view() =~= out0.push(t.subrange(0, j - p0)));
                        assert(spec_split_braces(t) == seq![t.subrange(0, j - p0)]
                            + spec_split_braces(s@.subrange(p as int, n as int)));
                        assert(out.deep_view() + spec_split_braces(
                            s@.subrange(p as int, n as int),
                        ) =~= (out0 + spec_split_braces(t)));
                    }
                },
                None => {
                    proof {
                        if 0 <= first_brace_at(t, 0) && first_brace_at(t, 0) + 1 < t.len() {
                            let w = first_brace_at(t, 0);
                            lemma_first_brace_exists(t, 0);
                            assert(t[w] == s@[p0 + w]);
                            assert(t[w + 1] == s@[p0 + w + 1]);
                        }
                        assert(spec_split_braces(t) == seq![t]);
                    }
                    let piece = s.substring_char(p, n).to_owned();
                    out.push(piece);
                    proof {
                        assert(out.deep_view() =~= out0.push(t));
                        assert(out.deep_view() =~= out0 + seq![t]);
                    }
                    return Scanner { parts: out };
                },
            }
        }
    }

    /// How many placeholders the pattern holds.
    pub fn argc(&self) -> (r: usize)
        requires
            self.parts@.len() >= 1,
        ensures
            r == self.parts@.len() - 1,
    {
        self.parts.len() - 1
    }

    /// Matches `s` against the pattern: `s` must start with the first
    /// piece, every further piece must occur in order, and the text between
    /// two pieces becomes a capture in `c`. Returns the number of captures,
    /// or zero when the pattern does not match; on a match, `s` rebuilds
    /// from the pieces and captures, followed by the last piece.
    pub fn scan(&self, s: &str, c: &mut Vec<String>) -> (r: usize)
        requires
            self.parts@.len() >= 1,
        ensures
            r == 0 || r + 1 == self.parts@.len(),
            r != 0 ==> final(c)@.len() == r,
            r != 0 ==> ({
                let built = scan_built(
                    self.parts.deep_view(),
                    final(c).deep_view(),
                    self.parts@.len() as int,
                ) + self.parts.deep_view()[self.parts@.len() - 1];
                &&& built.len() <= s@.len()
                &&& s@.subrange(0, built.len() as int) == built
            }),
            match spec_scan(self.parts.deep_view(), s@) {
                Some(caps) => r + 1 == self.parts@.len() && final(c).deep_view() == caps,
                None => r == 0,
            },
    {
        c.clear();
        let ns = s.unicode_len();
        let q0len = self.parts[0].unicode_len();
        proof {
            assert(self.parts.deep_view()[0] == self.parts@[0]@);
        }
        if q0len > ns {
            proof {
                assert(spec_scan(self.parts.deep_view(), s@) is None);
            }
            return 0;
        }
        if !str_eq(s.substring_char(0, q0len), self.parts[0].as_str()) {
            proof {
                assert(s@.take(q0len as int) =~= s@.subrange(0, q0len as int));
                assert(spec_scan(self.parts.deep_view(), s@) is None);
            }
            return 0;
        }
        let mut p: String = s.to_owned();
        let mut n: usize = 1;
        proof {
            assert(s@ =~= scan_built(self.parts.deep_view(), c.deep_view(), 1) + s@);
            assert(s@.take(q0len as int) =~= s@.subrange(0, q0len as int));
            assert(spec_scan(self.parts.deep_view(), s@) == spec_scan_rest(
                self.parts.deep_view(),
                s@,
                1,
            ));
            let r0 = spec_scan_rest(self.parts.deep_view(), s@, 1);
            match r0 {
                Some(caps) => {
                    assert(c.deep_view() + caps =~= caps);
                },
                None => {},
            }
        }
        while n < self.parts.len()
            invariant
                1 <= n <= self.parts@.len(),
                c@.len() == n - 1,
                c.deep_view().len() == n - 1,
                self.parts.deep_view().len() == self.parts@.len(),
                s@ == scan_built(self.parts.deep_view(), c.deep_view(), n as int) + p@,
                self.parts.deep_view()[n - 1].len() <= p@.len(),
                p@.subrange(0, self.parts.deep_view()[n - 1].len() as int)
                    == self.parts.deep_view()[n - 1],
                spec_scan(self.parts.deep_view(), s@) == (match spec_scan_rest(
                    self.parts.deep_view(),
                    p@,
                    n as int,
                ) {
                    Some(caps) => Some(c.deep_view() + caps),
                    None => None,
                }),
            decreases self.parts@.len() - n,
        {
            let ghost parts_dv = self.parts.deep_view();
            let ghost caps0 = c.deep_view();
            let ghost pview = p@;
            let qlen = self.parts[n - 1].unicode_len();
            proof {
                assert(parts_dv[n - 1] == self.parts@[n - 1 as int]@);
            }
            let np = p.as_str().unicode_len();
            let rest = p.as_str().substring_char(qlen, np).to_owned();
            let q = &self.parts[n];
            let qnlen = q.unicode_len();
            proof {
                assert(parts_dv[n as int] == q@);
            }
            let i: usize;
            if qnlen == 0 {
                i = rest.as_str().unicode_len();
                proof {
                    assert(rest@.subrange(i as int, i as int) =~= q@);
                }
            } else {
                match find_sub_from(rest.as_str(), 0, q.as_str()) {
                    Some(j) => {
                        i = j;
                        proof {
                            lemma_first_match_some(rest@, q@, 0, j as int);
                        }
                    },
                    None => {
                        proof {
                            lemma_first_match_none(rest@, q@, 0);
                            assert(rest@ =~= pview.skip(qlen as int));
                            assert(spec_scan_rest(parts_dv, pview, n as int) is None);
                        }
                        return 0;
                    },
                }
            }
            proof {
                assert(rest@ =~= pview.skip(qlen as int));
            }
            let cap = rest.as_str().substring_char(0, i).to_owned();
            let tail2 = rest.as_str().substring_char(i, rest.as_str().unicode_len()).to_owned();
            c.push(cap);
            proof {
                lemma_scan_built_push(parts_dv, caps0, rest@.subrange(0, i as int), n as int);
                assert(c.deep_view() =~= caps0.push(rest@.subrange(0, i as int)));
                assert(scan_built(parts_dv, c.deep_view(), n as int + 1) == scan_built(
                    parts_dv,
                    c.deep_view(),
                    n as int,
                ) + parts_dv[n - 1] + rest@.subrange(0, i as int));
                assert(scan_built(parts_dv, c.deep_view(), n as int) == scan_built(
                    parts_dv,
                    caps0,
                    n as int,
                )) by {
                    lemma_scan_built_push(parts_dv, caps0, rest@.subrange(0, i as int), n as int);
                }
                assert(pview =~= parts_dv[n - 1] + rest@) by {
                    assert(pview.subrange(0, parts_dv[n - 1].len() as int) == parts_dv[n - 1]);
                    assert(rest@ == pview.subrange(qlen as int, pview.len() as int));
                }
                assert(rest@ =~= rest@.subrange(0, i as int) + tail2@);
                assert(s@ == scan_built(parts_dv, c.deep_view(), n as int + 1) + tail2@) by {
                    assert(s@ == scan_built(parts_dv, caps0, n as int) + pview);
                    assert(scan_built(parts_dv, caps0, n as int) + pview =~= (scan_built(
                        parts_dv,
                        caps0,
                        n as int,
                    ) + parts_dv[n - 1] + rest@.subrange(0, i as int)) + tail2@);
                }
                assert(tail2@.subrange(0, q@.len() as int) =~= q@) by {
                    if qnlen == 0 {
                    } else {
                        assert(rest@.subrange(i as int, i as int + q@.len()) == q@);
                        assert(forall|m: int|
                            0 <= m < q@.len() ==> #[trigger] tail2@[m] == rest@[i + m]);
                    }
                }
                // the match specification advances the same way
                assert(rest@.skip(i as int) =~= tail2@);
                assert(rest@.take(i as int) =~= rest@.subrange(0, i as int));
                assert(spec_scan_rest(parts_dv, pview, n as int) == (match spec_scan_rest(
                    parts_dv,
                    tail2@,
                    n as int + 1,
                ) {
                    Some(caps2) => Some(seq![rest@.subrange(0, i as int)] + caps2),
                    None => None,
                }));
                let r2 = spec_scan_rest(parts_dv, tail2@, n as int + 1);
                match r2 {
                    Some(caps2) => {
                        assert(caps0 + (seq![rest@.subrange(0, i as int)] + caps2) =~= c
                            .deep_view() + caps2);
                    },
                    None => {},
                }
            }
            p = tail2;
            n += 1;
        }
        proof {
            let parts_dv = self.parts.deep_view();
            assert(spec_scan_rest(parts_dv, p@, n as int) == Some(Seq::<Seq<char>>::empty()));
            let r3 = spec_scan(parts_dv, s@);
            match r3 {
                Some(caps) => {
                    assert(c.deep_view() + Seq::<Seq<char>>::empty() =~= c.deep_view());
                },
                None => {},
            }
        }
        n - 1
    }
}

/// A brace pair found by `first_brace_at` lies inside the text.
proof fn lemma_first_brace_exists(s: Seq<char>, from: int)
    requires
        0 <= from,
        0 <= first_brace_at(s, from),
        first_brace_at(s, from) + 1 < s.len(),
    ensures
        s[first_brace_at(s, from)] == '{',
        s[first_brace_at(s, from) + 1] == '}',
        first_brace_at(s, from) >= from,
    decreases s.len() - from,
{
    if from + 1 >= s.len() {
    } else if s[from] == '{' && s[from + 1] == '}' {
    } else {
        lemma_first_brace_exists(s, from + 1);
    }
}

} // verus!
