use vstd::prelude::*;
use vstd::string::*;

verus! {

// ---------------------------------------------------------------------------
// Character sequences
// ---------------------------------------------------------------------------

/// The characters of `s` before the first occurrence of `c` (all of `s` when
/// `c` does not occur).
pub open spec fn spec_before_char(s: Seq<char>, c: char) -> Seq<char>
    decreases s.len(),
{
    if s.len() == 0 {
        s
    } else if s[0] == c {
        Seq::empty()
    } else {
        seq![s[0]] + spec_before_char(s.drop_first(), c)
    }
}

proof fn lemma_before_char(s: Seq<char>, c: char, i: int)
    requires
        0 <= i <= s.len(),
        forall|j: int| 0 <= j < i ==> s[j] != c,
        i == s.len() || s[i] == c,
    ensures
        spec_before_char(s, c) == s.take(i),
    decreases s.len(),
{
    if s.len() == 0 {
        assert(s.take(i) =~= s);
    } else if i == 0 {
        assert(s.take(0) =~= Seq::<char>::empty());
    } else {
        lemma_before_char(s.drop_first(), c, i - 1);
        assert(seq![s[0]] + s.drop_first().take(i - 1) =~= s.take(i));
    }
}

/// Index of the first `c` in `s`, or the length of `s` when there is none.
fn first_index_of(s: &str, c: char) -> (i: usize)
    ensures
        i <= s@.len(),
        forall|j: int| 0 <= j < i ==> s@[j] != c,
        i == s@.len() || s@[i as int] == c,
        spec_before_char(s@, c) == s@.take(i as int),
{
    let n = s.unicode_len();
    let mut i: usize = 0;
    while i < n
        invariant
            n == s@.len(),
            i <= n,
            forall|j: int| 0 <= j < i ==> s@[j] != c,
        decreases n - i,
    {
        if s.get_char(i) == c {
            proof {
                lemma_before_char(s@, c, i as int);
            }
            return i;
        }
        i = i + 1;
    }
    proof {
        lemma_before_char(s@, c, i as int);
    }
    i
}

/// Character-wise equality of two strings.
pub fn str_eq(a: &str, b: &str) -> (res: bool)
    ensures
        res == (a@ == b@),
{
    let n = a.unicode_len();
    let m = b.unicode_len();
    if n != m {
        return false;
    }
    let mut i: usize = 0;
    while i < n
        invariant
            n == a@.len(),
            m == b@.len(),
            n == m,
            i <= n,
            forall|j: int| 0 <= j < i ==> a@[j] == b@[j],
        decreases n - i,
    {
        if a.get_char(i) != b.get_char(i) {
            return false;
        }
        i = i + 1;
    }
    assert(a@ =~= b@);
    true
}

/// `s` with every ASCII upper-case letter replaced by its lower-case form.
pub open spec fn spec_ascii_lowercase(s: Seq<char>) -> Seq<char> {
    Seq::new(s.len(), |i: int| ascii_lower_char(s[i]))
}

pub open spec fn ascii_lower_char(c: char) -> char {
    if 'A' <= c <= 'Z' {
        ((c as u8) + 32u8) as char
    } else {
        c
    }
}

fn to_ascii_lowercase_char(c: char) -> (r: char)
    ensures
        r == ascii_lower_char(c),
{
    if 'A' <= c && c <= 'Z' {
        ((c as u8) + 32u8) as char
    } else {
        c
    }
}

/// Whether `s`, lower-cased on its ASCII letters, ends with `suffix`.
pub fn ends_with_ascii_lowercase(s: &str, suffix: &str) -> (res: bool)
    ensures
        res == spec_ends_with(spec_ascii_lowercase(s@), suffix@),
{
    let n = s.unicode_len();
    let m = suffix.unicode_len();
    let ghost low = spec_ascii_lowercase(s@);
    if m > n {
        return false;
    }
    let mut i: usize = 0;
    while i < m
        invariant
            n == s@.len(),
            low == spec_ascii_lowercase(s@),
            m == suffix@.len(),
            m <= n,
            i <= m,
            forall|j: int| 0 <= j < i ==> low[n - m + j] == suffix@[j],
        decreases m - i,
    {
        if to_ascii_lowercase_char(s.get_char(n - m + i)) != suffix.get_char(i) {
            assert(low.subrange(n - m, n as int)[i as int] != suffix@[i as int]);
            return false;
        }
        i = i + 1;
    }
    assert(low.subrange(n - m, n as int) =~= suffix@);
    true
}

/// Whether `s` ends with `suffix`.
pub open spec fn spec_ends_with(s: Seq<char>, suffix: Seq<char>) -> bool {
    suffix.len() <= s.len() && s.subrange(s.len() - suffix.len(), s.len() as int) == suffix
}

pub fn ends_with(s: &str, suffix: &str) -> (res: bool)
    ensures
        res == spec_ends_with(s@, suffix@),
{
    let n = s.unicode_len();
    let m = suffix.unicode_len();
    if m > n {
        return false;
    }
    let mut i: usize = 0;
    while i < m
        invariant
            n == s@.len(),
            m == suffix@.len(),
            m <= n,
            i <= m,
            forall|j: int| 0 <= j < i ==> s@[n - m + j] == suffix@[j],
        decreases m - i,
    {
        if s.get_char(n - m + i) != suffix.get_char(i) {
            assert(s@.subrange(n - m, n as int)[i as int] != suffix@[i as int]);
            return false;
        }
        i = i + 1;
    }
    assert(s@.subrange(n - m, n as int) =~= suffix@);
    true
}

// ---------------------------------------------------------------------------
// URIs
// ---------------------------------------------------------------------------

/// A URI without its query (from the first `?`) and then without its
/// fragment (from the first `#` of what is left).
pub open spec fn spec_strip_query_and_fragment(uri: Seq<char>) -> Seq<char> {
    spec_before_char(spec_before_char(uri, '?'), '#')
}

/// Strips the query and fragment from a URI. The result is a prefix of the
/// URI that holds neither `?` nor `#`.
pub fn strip_query_and_fragment(uri: &str) -> (res: &str)
    ensures
        res@ == spec_strip_query_and_fragment(uri@),
        res@.len() <= uri@.len(),
        res@ == uri@.take(res@.len() as int),
{
    let q = first_index_of(uri, '?');
    let without_query = uri.substring_char(0, q);
    let h = first_index_of(without_query, '#');
    let res = without_query.substring_char(0, h);
    assert(res@ =~= uri@.take(res@.len() as int));
    res
}

// ---------------------------------------------------------------------------
// '/'-separated paths
// ---------------------------------------------------------------------------

/// A path is absolute when it starts at the root, `/`.
pub open spec fn spec_is_absolute(p: Seq<char>) -> bool {
    p.len() > 0 && p[0] == '/'
}

pub fn is_absolute(p: &str) -> (res: bool)
    ensures
        res == spec_is_absolute(p@),
{
    p.unicode_len() > 0 && p.get_char(0) == '/'
}

/// `base` joined with `p`: `p` itself when it is absolute; otherwise `p`
/// appended to `base`, with a `/` between them when `base` is not empty and
/// does not already end with one.
pub open spec fn spec_join(base: Seq<char>, p: Seq<char>) -> Seq<char> {
    if spec_is_absolute(p) {
        p
    } else if base.len() == 0 || base.last() == '/' {
        base + p
    } else {
        base + seq!['/'] + p
    }
}

pub fn join(base: &str, p: &str) -> (res: String)
    ensures
        res@ == spec_join(base@, p@),
{
    if is_absolute(p) {
        return p.to_owned();
    }
    let n = base.unicode_len();
    let mut out = base.to_owned();
    if n > 0 && base.get_char(n - 1) != '/' {
        proof {
            reveal_strlit("/");
        }
        out.append("/");
    }
    out.append(p);
    out
}

/// Start of the path segment that ends at index `j`: the index just after
/// the last `/` before `j`, or 0.
pub open spec fn spec_segment_start(p: Seq<char>, j: int) -> int
    decreases j,
{
    if j <= 0 {
        0
    } else if p[j - 1] == '/' {
        j
    } else {
        spec_segment_start(p, j - 1)
    }
}

/// The file name of the path made of the first `j` characters of `p`: its
/// last segment that is neither empty nor `.`; none when there is no such
/// segment or when it is `..`.
pub open spec fn spec_file_name_upto(p: Seq<char>, j: int) -> Option<Seq<char>>
    decreases j,
{
    if j <= 0 {
        None
    } else {
        let i = spec_segment_start(p, j);
        let seg = p.subrange(i, j);
        if seg.len() > 0 && seg != seq!['.'] {
            if seg == seq!['.', '.'] {
                None
            } else {
                Some(seg)
            }
        } else if i <= 0 {
            None
        } else {
            proof {
                lemma_segment_start_bounds(p, j);
            }
            spec_file_name_upto(p, i - 1)
        }
    }
}

/// The file name of a path: its last segment that is neither empty nor `.`,
/// none when that segment is `..` or when there is none.
pub open spec fn spec_file_name(p: Seq<char>) -> Option<Seq<char>> {
    spec_file_name_upto(p, p.len() as int)
}

/// Index of the last `c` among the first `j` characters of `s`, or -1.
pub open spec fn spec_last_index_of(s: Seq<char>, c: char, j: int) -> int
    decreases j,
{
    if j <= 0 {
        -1
    } else if s[j - 1] == c {
        j - 1
    } else {
        spec_last_index_of(s, c, j - 1)
    }
}

/// The extension of a file name: what follows its last `.`; none when it
/// has no `.` or when its only `.` is its first character.
pub open spec fn spec_name_extension(name: Seq<char>) -> Option<Seq<char>> {
    let k = spec_last_index_of(name, '.', name.len() as int);
    if k <= 0 {
        None
    } else {
        Some(name.subrange(k + 1, name.len() as int))
    }
}

/// The extension of a path: the extension of its file name.
pub open spec fn spec_path_extension(p: Seq<char>) -> Option<Seq<char>> {
    match spec_file_name(p) {
        Some(name) => spec_name_extension(name),
        None => None,
    }
}

/// The segment that ends at `j` starts at or before `j`, just after a `/`
/// unless it starts the path.
pub proof fn lemma_segment_start_bounds(p: Seq<char>, j: int)
    requires
        0 <= j,
    ensures
        0 <= spec_segment_start(p, j) <= j,
        spec_segment_start(p, j) > 0 ==> p[spec_segment_start(p, j) - 1] == '/',
    decreases j,
{
    if j > 0 && p[j - 1] != '/' {
        lemma_segment_start_bounds(p, j - 1);
    }
}

fn segment_start(p: &str, j: usize) -> (i: usize)
    requires
        j <= p@.len(),
    ensures
        i as int == spec_segment_start(p@, j as int),
        i <= j,
{
    let mut i = j;
    while i > 0 && p.get_char(i - 1) != '/'
        invariant
            i <= j,
            j <= p@.len(),
            spec_segment_start(p@, i as int) == spec_segment_start(p@, j as int),
        decreases i,
    {
        i = i - 1;
    }
    i
}

/// The file name of a path, as `spec_file_name` describes it.
pub fn file_name(p: &str) -> (res: Option<&str>)
    ensures
        match res {
            Some(n) => spec_file_name(p@) == Some(n@),
            None => spec_file_name(p@) is None,
        },
{
    let mut j = p.unicode_len();
    loop
        invariant
            j <= p@.len(),
            spec_file_name_upto(p@, j as int) == spec_file_name(p@),
        decreases j,
    {
        if j == 0 {
            return None;
        }
        let i = segment_start(p, j);
        proof {
            lemma_segment_start_bounds(p@, j as int);
        }
        let seg = p.substring_char(i, j);
        let seg_len = j - i;
        proof {
            reveal_strlit(".");
            reveal_strlit("..");
            assert("."@ =~= seq!['.']);
            assert(".."@ =~= seq!['.', '.']);
        }
        if seg_len > 0 && !str_eq(seg, ".") {
            if str_eq(seg, "..") {
                return None;
            }
            return Some(seg);
        } else if i == 0 {
            return None;
        }
        j = i - 1;
    }
}

fn last_index_of(s: &str, c: char) -> (k: Option<usize>)
    ensures
        match k {
            Some(k) => spec_last_index_of(s@, c, s@.len() as int) == k as int && k < s@.len(),
            None => spec_last_index_of(s@, c, s@.len() as int) == -1,
        },
{
    let mut j = s.unicode_len();
    while j > 0
        invariant
            j <= s@.len(),
            spec_last_index_of(s@, c, j as int) == spec_last_index_of(s@, c, s@.len() as int),
        decreases j,
    {
        if s.get_char(j - 1) == c {
            return Some(j - 1);
        }
        j = j - 1;
    }
    None
}

/// The extension of a path, as `spec_path_extension` describes it.
pub fn path_extension(p: &str) -> (res: Option<&str>)
    ensures
        match res {
            Some(e) => spec_path_extension(p@) == Some(e@),
            None => spec_path_extension(p@) is None,
        },
{
    match file_name(p) {
        None => None,
        Some(name) => {
            let name_len = name.unicode_len();
            match last_index_of(name, '.') {
                None => None,
                Some(k) => {
                    if k == 0 {
                        None
                    } else {
                        Some(name.substring_char(k + 1, name_len))
                    }
                },
            }
        },
    }
}

/// `str::to_lowercase`: the Unicode lower-case mapping of a string. Only
/// the name `spec_lowercase` is claimed of the result.
pub uninterp spec fn spec_lowercase(s: Seq<char>) -> Seq<char>;

/// `str::to_lowercase`: the string mapped to lower case by Unicode's rules.
/// The contract ties the result to the string through `spec_lowercase` and
/// says no more of the mapping.
#[verifier::external_body]
pub(crate) fn to_lowercase(s: &str) -> (res: String)
    ensures
        res@ == spec_lowercase(s@),
{
    s.to_lowercase()
}

/// Resolves a content URI against a base directory: the URI without its
/// query and fragment, joined to `base_dir` unless it is absolute.
pub fn resolve_uri(base_dir: &str, uri: &str) -> (res: String)
    ensures
        res@ == spec_join(base_dir@, spec_strip_query_and_fragment(uri@)),
{
    let trimmed = strip_query_and_fragment(uri);
    if is_absolute(trimmed) {
        return trimmed.to_owned();
    }
    join(base_dir, trimmed)
}

} // verus!

verus! {

// ---------------------------------------------------------------------------
// Decimal rendering of numbers in messages
// ---------------------------------------------------------------------------

/// The character of a decimal digit.
pub open spec fn digit_char(d: nat) -> char {
    if d == 0 { '0' }
    else if d == 1 { '1' }
    else if d == 2 { '2' }
    else if d == 3 { '3' }
    else if d == 4 { '4' }
    else if d == 5 { '5' }
    else if d == 6 { '6' }
    else if d == 7 { '7' }
    else if d == 8 { '8' }
    else { '9' }
}

/// The decimal representation of a natural number, without leading zeros.
pub open spec fn spec_decimal(n: nat) -> Seq<char>
    decreases n,
{
    if n < 10 {
        seq![digit_char(n)]
    } else {
        spec_decimal(n / 10) + seq![digit_char(n % 10)]
    }
}

fn digit_str(d: u64) -> (s: &'static str)
    requires
        d < 10,
    ensures
        s@ == seq![digit_char(d as nat)],
{
    proof {
        reveal_strlit("0");
        reveal_strlit("1");
        reveal_strlit("2");
        reveal_strlit("3");
        reveal_strlit("4");
        reveal_strlit("5");
        reveal_strlit("6");
        reveal_strlit("7");
        reveal_strlit("8");
        reveal_strlit("9");
    }
    let s = if d == 0 { "0" }
    else if d == 1 { "1" }
    else if d == 2 { "2" }
    else if d == 3 { "3" }
    else if d == 4 { "4" }
    else if d == 5 { "5" }
    else if d == 6 { "6" }
    else if d == 7 { "7" }
    else if d == 8 { "8" }
    else { "9" };
    assert(s@ =~= seq![digit_char(d as nat)]);
    s
}

/// The decimal representation of `n`.
pub fn decimal(n: u64) -> (s: String)
    ensures
        s@ == spec_decimal(n as nat),
    decreases n,
{
    if n < 10 {
        String::from_str(digit_str(n))
    } else {
        let mut s = decimal(n / 10);
        s.append(digit_str(n % 10));
        s
    }
}

} // verus!
