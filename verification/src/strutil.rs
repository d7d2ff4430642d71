//! Character-level string utilities: substring search, trimming, line
//! splitting and decimal rendering, specified over `Seq<char>` views.

use vstd::prelude::*;
use vstd::string::*;

verus! {

/// The Unicode `White_Space` characters, as `str::trim` removes them.
pub open spec fn is_space_char(c: char) -> bool {
    let u = c as u32;
    ||| u == 0x20
    ||| (0x09 <= u && u <= 0x0D)
    ||| u == 0x85
    ||| u == 0xA0
    ||| u == 0x1680
    ||| (0x2000 <= u && u <= 0x200A)
    ||| u == 0x2028
    ||| u == 0x2029
    ||| u == 0x202F
    ||| u == 0x205F
    ||| u == 0x3000
}

pub fn is_space(c: char) -> (r: bool)
    ensures
        r == is_space_char(c),
{
    let u = c as u32;
    u == 0x20 || (0x09 <= u && u <= 0x0D) || u == 0x85 || u == 0xA0 || u == 0x1680 || (0x2000 <= u
        && u <= 0x200A) || u == 0x2028 || u == 0x2029 || u == 0x202F || u == 0x205F || u == 0x3000
}

/// `p` occurs in `s` starting at index `i`.
pub open spec fn has_sub_at(s: Seq<char>, p: Seq<char>, i: int) -> bool {
    0 <= i && i + p.len() <= s.len() && s.subrange(i, i + p.len() as int) == p
}

pub open spec fn has_prefix(s: Seq<char>, p: Seq<char>) -> bool {
    has_sub_at(s, p, 0)
}

pub open spec fn has_suffix(s: Seq<char>, p: Seq<char>) -> bool {
    has_sub_at(s, p, s.len() - p.len())
}

pub open spec fn contains_seq(s: Seq<char>, p: Seq<char>) -> bool {
    exists|i: int| has_sub_at(s, p, i)
}

/// Whether `s@[i..]` starts with `p@`.
pub fn starts_with_at(s: &str, p: &str, i: usize) -> (r: bool)
    ensures
        r == has_sub_at(s@, p@, i as int),
{
    let n = s.unicode_len();
    let m = p.unicode_len();
    if i > n || m > n - i {
        return false;
    }
    let mut j: usize = 0;
    while j < m
        invariant
            j <= m,
            i + m <= n,
            n == s@.len(),
            m == p@.len(),
            forall|k: int| 0 <= k < j ==> s@[i + k] == p@[k],
        decreases m - j,
    {
        if s.get_char(i + j) != p.get_char(j) {
            proof {
                assert(s@.subrange(i as int, i + m) != p@) by {
                    assert(s@.subrange(i as int, i + m)[j as int] == s@[i + j]);
                }
            }
            return false;
        }
        j += 1;
    }
    proof {
        assert(s@.subrange(i as int, i + m) =~= p@);
    }
    true
}

pub fn starts_with(s: &str, p: &str) -> (r: bool)
    ensures
        r == has_prefix(s@, p@),
{
    starts_with_at(s, p, 0)
}

pub fn ends_with(s: &str, p: &str) -> (r: bool)
    ensures
        r == has_suffix(s@, p@),
{
    let n = s.unicode_len();
    let m = p.unicode_len();
    if m > n {
        return false;
    }
    starts_with_at(s, p, n - m)
}

pub fn str_eq(a: &str, b: &str) -> (r: bool)
    ensures
        r == (a@ == b@),
{
    let n = a.unicode_len();
    let m = b.unicode_len();
    if n != m {
        return false;
    }
    let mut i: usize = 0;
    while i < n
        invariant
            i <= n,
            n == a@.len(),
            n == b@.len(),
            forall|k: int| 0 <= k < i ==> a@[k] == b@[k],
        decreases n - i,
    {
        if a.get_char(i) != b.get_char(i) {
            return false;
        }
        i += 1;
    }
    proof {
        assert(a@ =~= b@);
    }
    true
}

/// Index of the first occurrence of `c` in `s` at or after `from`;
/// `s.len()` when there is none.
pub open spec fn find_char_from(s: Seq<char>, c: char, from: int) -> int
    decreases s.len() - from when 0 <= from <= s.len()
{
    if from >= s.len() {
        s.len() as int
    } else if s[from] == c {
        from
    } else {
        find_char_from(s, c, from + 1)
    }
}

pub proof fn lemma_find_char(s: Seq<char>, c: char, from: int)
    requires
        0 <= from <= s.len(),
    ensures
        from <= find_char_from(s, c, from) <= s.len(),
        find_char_from(s, c, from) < s.len() ==> s[find_char_from(s, c, from)] == c,
        forall|j: int| from <= j < find_char_from(s, c, from) ==> s[j] != c,
    decreases s.len() - from,
{
    if from < s.len() && s[from] != c {
        lemma_find_char(s, c, from + 1);
    }
}

pub fn find_char(s: &str, c: char, from: usize) -> (r: usize)
    requires
        from <= s@.len(),
    ensures
        r == find_char_from(s@, c, from as int),
{
    let n = s.unicode_len();
    let mut i: usize = from;
    while i < n
        invariant
            from <= i <= n,
            n == s@.len(),
            find_char_from(s@, c, from as int) == find_char_from(s@, c, i as int),
        decreases n - i,
    {
        if s.get_char(i) == c {
            return i;
        }
        i += 1;
    }
    i
}

/// Index of the last occurrence of `c` in `s` before `till`; `-1` when
/// there is none.
pub open spec fn rfind_char(s: Seq<char>, c: char, till: int) -> int
    decreases till when till <= s.len()
{
    if till <= 0 {
        -1
    } else if s[till - 1] == c {
        till - 1
    } else {
        rfind_char(s, c, till - 1)
    }
}

/// Index of the first occurrence of `p` in `s` at or after `from`;
/// `s.len()` when there is none.
pub open spec fn find_sub_from(s: Seq<char>, p: Seq<char>, from: int) -> int
    decreases s.len() - from when 0 <= from
{
    if p.len() == 0 || from > s.len() - p.len() {
        s.len() as int
    } else if has_sub_at(s, p, from) {
        from
    } else {
        find_sub_from(s, p, from + 1)
    }
}

pub proof fn lemma_find_sub(s: Seq<char>, p: Seq<char>, from: int)
    requires
        0 <= from <= s.len(),
        p.len() >= 1,
    ensures
        from <= find_sub_from(s, p, from) <= s.len(),
        find_sub_from(s, p, from) < s.len() ==> has_sub_at(s, p, find_sub_from(s, p, from)),
        forall|j: int| from <= j < find_sub_from(s, p, from) ==> !has_sub_at(s, p, j),
        find_sub_from(s, p, from) == s.len() ==> forall|j: int| from <= j ==> !has_sub_at(s, p, j),
    decreases s.len() - from,
{
    if from > s.len() - p.len() {
        assert(forall|j: int| from <= j ==> !has_sub_at(s, p, j));
    } else if !has_sub_at(s, p, from) {
        lemma_find_sub(s, p, from + 1);
    }
}

pub fn find_sub(s: &str, p: &str, from: usize) -> (r: usize)
    requires
        from <= s@.len(),
        p@.len() >= 1,
    ensures
        r == find_sub_from(s@, p@, from as int),
{
    let n = s.unicode_len();
    let m = p.unicode_len();
    let mut i: usize = from;
    if m > n || from > n - m {
        proof {
            lemma_not_found_past_end(s@, p@, from as int);
        }
        return n;
    }
    while i <= n - m
        invariant
            from <= i,
            i <= n - m + 1,
            m >= 1,
            m <= n,
            n == s@.len(),
            m == p@.len(),
            find_sub_from(s@, p@, from as int) == find_sub_from(s@, p@, i as int),
        decreases n - i,
    {
        if starts_with_at(s, p, i) {
            return i;
        }
        i += 1;
    }
    proof {
        lemma_not_found_past_end(s@, p@, i as int);
    }
    n
}

proof fn lemma_not_found_past_end(s: Seq<char>, p: Seq<char>, from: int)
    requires
        0 <= from,
        from > s.len() - p.len(),
    ensures
        find_sub_from(s, p, from) == s.len(),
{
}

pub fn contains_sub(s: &str, p: &str) -> (r: bool)
    requires
        p@.len() >= 1,
    ensures
        r == contains_seq(s@, p@),
{
    let n = s.unicode_len();
    let i = find_sub(s, p, 0);
    proof {
        lemma_find_sub(s@, p@, 0);
        if find_sub_from(s@, p@, 0) < s@.len() {
            assert(contains_seq(s@, p@));
        } else {
            assert(forall|j: int| !has_sub_at(s@, p@, j)) by {
                assert(forall|j: int| j < 0 ==> !has_sub_at(s@, p@, j));
            }
        }
    }
    i < n
}

/// First index at or after `from` holding a non-space character; `s.len()` if none.
pub open spec fn skip_spaces_from(s: Seq<char>, from: int) -> int
    decreases s.len() - from when 0 <= from <= s.len()
{
    if from >= s.len() {
        s.len() as int
    } else if is_space_char(s[from]) {
        skip_spaces_from(s, from + 1)
    } else {
        from
    }
}

/// Least upper bound of the non-space content before `till`: trailing spaces removed.
pub open spec fn rskip_spaces_till(s: Seq<char>, till: int) -> int
    decreases till when 0 <= till <= s.len()
{
    if till <= 0 {
        0
    } else if is_space_char(s[till - 1]) {
        rskip_spaces_till(s, till - 1)
    } else {
        till
    }
}

/// `s` with its leading whitespace removed.
pub open spec fn trim_start_spec(s: Seq<char>) -> Seq<char> {
    s.subrange(skip_spaces_from(s, 0), s.len() as int)
}

pub open spec fn trim_spec(s: Seq<char>) -> Seq<char> {
    let a = skip_spaces_from(s, 0);
    let b = rskip_spaces_till(s, s.len() as int);
    if a < b {
        s.subrange(a, b)
    } else {
        Seq::empty()
    }
}

pub fn trim<'a>(s: &'a str) -> (r: &'a str)
    ensures
        r@ == trim_spec(s@),
{
    let n = s.unicode_len();
    let mut a: usize = 0;
    while a < n && is_space(s.get_char(a))
        invariant
            a <= n,
            n == s@.len(),
            skip_spaces_from(s@, 0) == skip_spaces_from(s@, a as int),
        decreases n - a,
    {
        a += 1;
    }
    let mut b: usize = n;
    while b > 0 && is_space(s.get_char(b - 1))
        invariant
            b <= n,
            n == s@.len(),
            rskip_spaces_till(s@, n as int) == rskip_spaces_till(s@, b as int),
        decreases b,
    {
        b -= 1;
    }
    proof {
        assert(skip_spaces_from(s@, a as int) == a as int);
        assert(rskip_spaces_till(s@, b as int) == b as int);
    }
    if a < b {
        s.substring_char(a, b)
    } else {
        let r = s.substring_char(0, 0);
        proof {
            assert(r@ =~= trim_spec(s@));
        }
        r
    }
}

/// A line split at or after `from`, as `str::lines` cuts: at `'\n'`,
/// dropping a `'\r'` that stands directly before it; the final line
/// needs no terminator and keeps a bare trailing `'\r'`.
pub open spec fn strip_cr(l: Seq<char>) -> Seq<char> {
    if l.len() > 0 && l[l.len() - 1] == '\r' {
        l.subrange(0, l.len() - 1)
    } else {
        l
    }
}

pub open spec fn lines_from(s: Seq<char>, from: int) -> Seq<Seq<char>>
    decreases s.len() - from when 0 <= from <= s.len()
{
    if from >= s.len() {
        Seq::empty()
    } else {
        let j = find_char_from(s, '\n', from);
        if from <= j < s.len() {
            seq![strip_cr(s.subrange(from, j))] + lines_from(s, j + 1)
        } else {
            seq![s.subrange(from, s.len() as int)]
        }
    }
}

pub open spec fn lines_spec(s: Seq<char>) -> Seq<Seq<char>> {
    lines_from(s, 0)
}

pub fn split_lines(s: &str) -> (r: Vec<String>)
    ensures
        r@.map_values(|l: String| l@) == lines_spec(s@),
{
    let n = s.unicode_len();
    let mut r: Vec<String> = Vec::new();
    let mut pos: usize = 0;
    while pos < n
        invariant
            pos <= n,
            n == s@.len(),
            lines_spec(s@) == r@.map_values(|l: String| l@) + lines_from(s@, pos as int),
        decreases n - pos,
    {
        let j = find_char(s, '\n', pos);
        proof {
            lemma_find_char(s@, '\n', pos as int);
        }
        let ghost prev = r@.map_values(|l: String| l@);
        if j < n {
            let end = if j > pos && s.get_char(j - 1) == '\r' {
                j - 1
            } else {
                j
            };
            let line = String::from_str(s.substring_char(pos, end));
            proof {
                assert(line@ == strip_cr(s@.subrange(pos as int, j as int))) by {
                    if j > pos && s@[j - 1] == '\r' {
                        assert(s@.subrange(pos as int, j as int).len() == j - pos);
                        assert(s@.subrange(pos as int, j as int)[j - pos - 1] == s@[j - 1]);
                        assert(s@.subrange(pos as int, j as int).subrange(0, j - pos - 1) =~= s@
                            .subrange(pos as int, end as int));
                    }
                }
            }
            r.push(line);
            proof {
                assert(r@.map_values(|l: String| l@) =~= prev + seq![strip_cr(
                    s@.subrange(pos as int, j as int),
                )]);
                assert(prev + (seq![strip_cr(s@.subrange(pos as int, j as int))] + lines_from(
                    s@,
                    j + 1,
                )) =~= (prev + seq![strip_cr(s@.subrange(pos as int, j as int))]) + lines_from(
                    s@,
                    j + 1,
                ));
            }
            pos = j + 1;
        } else {
            let line = String::from_str(s.substring_char(pos, n));
            r.push(line);
            proof {
                assert(r@.map_values(|l: String| l@) =~= prev + seq![s@.subrange(
                    pos as int,
                    n as int,
                )]);
                assert(prev + seq![s@.subrange(pos as int, n as int)] =~= prev + (seq![s@.subrange(
                    pos as int,
                    n as int,
                )] + lines_from(s@, n as int)));
            }
            pos = n;
        }
    }
    proof {
        assert(lines_spec(s@) =~= r@.map_values(|l: String| l@));
    }
    r
}

/// Filtering a sequence extended by one element keeps the filtered prefix
/// and appends the element exactly when it satisfies the predicate.
pub proof fn lemma_filter_push<A>(s: Seq<A>, p: spec_fn(A) -> bool, x: A)
    ensures
        s.push(x).filter(p) == (if p(x) {
            s.filter(p).push(x)
        } else {
            s.filter(p)
        }),
{
    reveal(Seq::filter);
    assert(s.push(x).drop_last() =~= s);
    assert(s.push(x).last() == x);
}

/// What `str::to_lowercase` returns: a function of the characters alone.
pub uninterp spec fn lower_of(s: Seq<char>) -> Seq<char>;

/// Relies on `str::to_lowercase`: the result depends on the characters alone,
/// and an empty string stays empty.
#[verifier::external_body]
pub(crate) fn to_lower(s: &str) -> (r: String)
    ensures
        r@ == lower_of(s@),
        s@.len() == 0 ==> r@.len() == 0,
{
    s.to_lowercase()
}

pub open spec fn digit_char(d: int) -> char {
    if d == 0 {
        '0'
    } else if d == 1 {
        '1'
    } else if d == 2 {
        '2'
    } else if d == 3 {
        '3'
    } else if d == 4 {
        '4'
    } else if d == 5 {
        '5'
    } else if d == 6 {
        '6'
    } else if d == 7 {
        '7'
    } else if d == 8 {
        '8'
    } else {
        '9'
    }
}

/// Decimal rendering of a non-negative integer, most significant digit first.
pub open spec fn dec_of(n: int) -> Seq<char>
    decreases n when n >= 0
{
    if n < 10 {
        seq![digit_char(n)]
    } else {
        dec_of(n / 10).push(digit_char(n % 10))
    }
}

fn digit_str(d: usize) -> (r: &'static str)
    requires
        d < 10,
    ensures
        r@ == seq![digit_char(d as int)],
{
    proof {
        reveal_strlit("0");
        reveal_strlit("1");
        reveal_strlit("2");
        reveal_strlit("3");
        reveal_strlit("4");
        reveal_strlit("5");
        reveal_strlit("6");
        reveal_strlit("7");
        reveal_strlit("8");
        reveal_strlit("9");
    }
    let r = if d == 0 {
        "0"
    } else if d == 1 {
        "1"
    } else if d == 2 {
        "2"
    } else if d == 3 {
        "3"
    } else if d == 4 {
        "4"
    } else if d == 5 {
        "5"
    } else if d == 6 {
        "6"
    } else if d == 7 {
        "7"
    } else {
        "8"
    };
    let r = if d == 9 {
        "9"
    } else {
        r
    };
    proof {
        assert(r@ =~= seq![digit_char(d as int)]);
    }
    r
}

pub fn usize_to_string(n: usize) -> (r: String)
    ensures
        r@ == dec_of(n as int),
    decreases n,
{
    if n < 10 {
        String::from_str(digit_str(n))
    } else {
        let mut s = usize_to_string(n / 10);
        s.append(digit_str(n % 10));
        proof {
            assert(s@ =~= dec_of((n / 10) as int).push(digit_char((n % 10) as int)));
        }
        s
    }
}

} // verus!
