//! The manifest rewriter: resolves every URI reference of a fetched
//! manifest against its origin URL and redirects it through the proxy's
//! playlist or segment endpoint.

use vstd::prelude::*;
use vstd::string::*;
use crate::error::AppError;
use crate::strutil::{
    contains_seq, digit_char, find_char_from, find_sub_from, has_prefix, has_suffix, lines_spec,
    rfind_char, trim_spec,
};
use crate::strutil::{
    contains_sub, ends_with, find_char, find_sub, lemma_find_char, lemma_find_sub, split_lines,
    starts_with, trim,
};

verus! {

// ---------------------------------------------------------------------
// Percent-encoding
// ---------------------------------------------------------------------
/// The characters that percent-encoding leaves as they are.
pub open spec fn is_unreserved_char(c: char) -> bool {
    let u = c as u32;
    (48 <= u && u <= 57) || (65 <= u && u <= 90) || (97 <= u && u <= 122) || c == '-' || c == '_'
        || c == '.' || c == '~'
}

pub open spec fn hex_char(d: int) -> char {
    if d < 10 {
        digit_char(d)
    } else if d == 10 {
        'A'
    } else if d == 11 {
        'B'
    } else if d == 12 {
        'C'
    } else if d == 13 {
        'D'
    } else if d == 14 {
        'E'
    } else {
        'F'
    }
}

pub open spec fn pct_char(c: char) -> Seq<char> {
    if is_unreserved_char(c) {
        seq![c]
    } else {
        seq!['%', hex_char((c as u32) as int / 16), hex_char((c as u32) as int % 16)]
    }
}

/// Percent-encoding of an ASCII string, character by character.
pub open spec fn pct_encode_ascii(s: Seq<char>) -> Seq<char>
    decreases s.len(),
{
    if s.len() == 0 {
        Seq::empty()
    } else {
        pct_char(s[0]) + pct_encode_ascii(s.skip(1))
    }
}

/// What `urlencoding::encode` returns: a function of the bytes alone.
pub uninterp spec fn encoded_of(s: Seq<char>) -> Seq<char>;

/// Relies on `urlencoding::encode`: percent-encodes every byte except the
/// ASCII alphanumerics and `-`, `_`, `.`, `~`, with uppercase hex digits.
/// On ASCII input that is exactly `pct_encode_ascii`.
#[verifier::external_body]
pub(crate) fn encode_component(s: &str) -> (r: String)
    ensures
        r@ == encoded_of(s@),
        is_ascii(s) ==> r@ == pct_encode_ascii(s@),
{
    urlencoding::encode(s).into_owned()
}

// ---------------------------------------------------------------------
// Reference resolution
// ---------------------------------------------------------------------
/// Whether `url::Url::parse` accepts the string: a function of it alone.
pub uninterp spec fn url_parse_ok(s: Seq<char>) -> bool;

/// What RFC 3986 reference resolution of `reference` against `base`
/// yields, as `url::Url::join` computes it; `None` when base or reference
/// cannot be parsed.
pub uninterp spec fn rfc_join(base: Seq<char>, reference: Seq<char>) -> Option<Seq<char>>;

/// Relies on `url::Url::parse`: whether a string parses as an absolute URL
/// depends on the string alone.
#[verifier::external_body]
fn is_absolute_url(s: &str) -> (r: bool)
    ensures
        r == url_parse_ok(s@),
{
    url::Url::parse(s).is_ok()
}

pub open spec fn is_lower_host_char(c: char) -> bool {
    let u = c as u32;
    (97 <= u && u <= 122) || (48 <= u && u <= 57) || c == '.' || c == '-'
}

pub open spec fn is_digit_char(c: char) -> bool {
    let u = c as u32;
    48 <= u && u <= 57
}

/// The host's last label is no number: a host whose last label is all
/// digits, or hex with an `0x` prefix, is parsed as an IPv4 address and
/// serialized in canonical form instead of verbatim.
pub open spec fn plain_last_label(h: Seq<char>) -> bool {
    let s = rfind_char(h, '.', h.len() as int) + 1;
    let lab = h.subrange(s, h.len() as int);
    &&& (exists|i: int| 0 <= i < lab.len() && !is_digit_char(#[trigger] lab[i]))
    &&& !(lab.len() >= 2 && lab[0] == '0' && lab[1] == 'x')
}

/// A host written in the form the url library already serializes it in:
/// lowercase letters, digits, dots and hyphens, no empty label, no
/// punycode label, and not an IPv4 address.
pub open spec fn plain_host(h: Seq<char>) -> bool {
    &&& h.len() > 0
    &&& (forall|i: int| 0 <= i < h.len() ==> is_lower_host_char(#[trigger] h[i]))
    &&& h[0] != '.'
    &&& h[h.len() - 1] != '.'
    &&& (forall|i: int| 0 <= i && i + 1 < h.len() ==> !(#[trigger] h[i] == '.' && h[i + 1] == '.'))
    &&& !contains_seq(h, "xn--"@)
    &&& plain_last_label(h)
}

/// A `.` or `..` path segment starts at index `i` of `p`.
pub open spec fn dot_segment_at(p: Seq<char>, i: int) -> bool {
    &&& 0 <= i < p.len()
    &&& p[i] == '.'
    &&& (i == 0 || p[i - 1] == '/')
    &&& {
        ||| i + 1 == p.len()
        ||| p[i + 1] == '/'
        ||| (i + 1 < p.len() && p[i + 1] == '.' && (i + 2 == p.len() || p[i + 2] == '/'))
    }
}

/// A path whose serialization resolution keeps verbatim: it starts with a
/// slash, holds only unreserved characters and single slashes, and has no
/// dot segment.
pub open spec fn plain_path(p: Seq<char>) -> bool {
    &&& p.len() > 0
    &&& p[0] == '/'
    &&& (forall|i: int| 0 <= i < p.len() ==> is_unreserved_char(#[trigger] p[i]) || p[i] == '/')
    &&& (forall|i: int| 0 <= i && i + 1 < p.len() ==> !(#[trigger] p[i] == '/' && p[i + 1] == '/'))
    &&& (forall|i: int| !dot_segment_at(p, i))
}

pub open spec fn scheme_slashes_len(b: Seq<char>) -> int {
    if has_prefix(b, "https://"@) {
        8
    } else {
        7
    }
}

/// Index of the first path slash of a plain base.
pub open spec fn path_start_of(b: Seq<char>) -> int {
    find_char_from(b, '/', scheme_slashes_len(b))
}

/// An absolute http(s) URL already in serialized form, with a plain host,
/// a plain path and neither port, query nor fragment: resolution against
/// it is plain string surgery.
pub open spec fn plain_http_base(b: Seq<char>) -> bool {
    &&& (has_prefix(b, "http://"@) || has_prefix(b, "https://"@))
    &&& path_start_of(b) < b.len()
    &&& plain_host(b.subrange(scheme_slashes_len(b), path_start_of(b)))
    &&& plain_path(b.subrange(path_start_of(b), b.len() as int))
}

/// The base up to and including the last slash: its "directory".
pub open spec fn dir_prefix(b: Seq<char>) -> Seq<char> {
    b.subrange(0, rfind_char(b, '/', b.len() as int) + 1)
}

/// The base up to the start of its path: scheme and host.
pub open spec fn origin_prefix(b: Seq<char>) -> Seq<char> {
    b.subrange(0, path_start_of(b))
}

/// A same-directory file reference: unreserved characters only, and not a
/// dot segment.
pub open spec fn plain_filename(r: Seq<char>) -> bool {
    &&& r.len() > 0
    &&& (forall|i: int| 0 <= i < r.len() ==> is_unreserved_char(#[trigger] r[i]))
    &&& !(r.len() == 1 && r[0] == '.')
    &&& !(r.len() == 2 && r[0] == '.' && r[1] == '.')
}

pub open spec fn plain_abs_path(r: Seq<char>) -> bool {
    plain_path(r)
}

/// Relies on `url::Url::join`, with `url::Url::parse` for the base: RFC
/// 3986 reference resolution, a function of the two strings alone. Per
/// url's documentation, against a plain base a bare filename replaces the
/// last path segment, and an absolute-path reference replaces the whole
/// path, keeping scheme and host.
#[verifier::external_body]
fn resolve_reference(base: &str, reference: &str) -> (r: Option<String>)
    ensures
        (r matches Some(u) ==> rfc_join(base@, reference@) == Some(u@)),
        (r is None ==> rfc_join(base@, reference@) is None),
        (url_parse_ok(base@) || r is None),
        (plain_http_base(base@) && plain_filename(reference@) ==> r is Some),
        (r matches Some(u) ==> (plain_http_base(base@) && plain_filename(reference@) ==> u@ == dir_prefix(base@) + reference@)),
        (plain_http_base(base@) && plain_abs_path(reference@) ==> r is Some),
        (r matches Some(u) ==> (plain_http_base(base@) && plain_abs_path(reference@) ==> u@ == origin_prefix(base@) + reference@)),
{
    match url::Url::parse(base) {
        Ok(b) => match b.join(reference) {
            Ok(u) => Some(String::from(u)),
            Err(_) => None,
        },
        Err(_) => None,
    }
}

// ---------------------------------------------------------------------
// Rewriting
// ---------------------------------------------------------------------
pub open spec fn is_http_abs(t: Seq<char>) -> bool {
    has_prefix(t, "http://"@) || has_prefix(t, "https://"@)
}

/// A resolved URL is a sub-manifest when it ends in `.m3u8`, with or
/// without a query string; anything else is a media segment.
pub open spec fn is_playlist_ref(u: Seq<char>) -> bool {
    has_suffix(u, ".m3u8"@) || contains_seq(u, ".m3u8?"@)
}

pub open spec fn proxy_url_spec(u: Seq<char>) -> Seq<char> {
    if is_playlist_ref(u) {
        "/api/proxy/playlist?url="@ + encoded_of(u)
    } else {
        "/api/proxy/segment?url="@ + encoded_of(u)
    }
}

/// Resolution of one reference: an absolute http(s) URL is used as it is,
/// anything else is resolved against the base.
pub open spec fn resolve_spec(t: Seq<char>, base: Seq<char>) -> Option<Seq<char>> {
    if is_http_abs(t) {
        Some(t)
    } else {
        rfc_join(base, t)
    }
}

pub open spec fn some_val(o: Option<Seq<char>>) -> Seq<char> {
    match o {
        Some(v) => v,
        None => Seq::empty(),
    }
}

/// A key directive with a well-formed `URI="…"` attribute has the value
/// resolved and rewritten in place; one without the attribute, or with no
/// closing quote, passes through unchanged.
pub open spec fn key_line_spec(t: Seq<char>, base: Seq<char>) -> Option<Seq<char>> {
    let i = find_sub_from(t, "URI=\""@, 0);
    if i == t.len() {
        Some(t)
    } else {
        let vs = i + "URI=\""@.len();
        let j = find_char_from(t, '"', vs);
        if j == t.len() {
            Some(t)
        } else {
            match resolve_spec(t.subrange(vs, j), base) {
                Some(u) => Some(
                    t.subrange(0, vs) + proxy_url_spec(u) + t.subrange(j, t.len() as int),
                ),
                None => None,
            }
        }
    }
}

/// Blank lines and comments other than key directives pass through.
pub open spec fn passthrough_line(t: Seq<char>) -> bool {
    t.len() == 0 || (t[0] == '#' && !has_prefix(t, "#EXT-X-KEY"@))
}

pub open spec fn rewrite_line_spec(line: Seq<char>, base: Seq<char>) -> Option<Seq<char>> {
    let t = trim_spec(line);
    if passthrough_line(t) {
        Some(line)
    } else if has_prefix(t, "#EXT-X-KEY"@) {
        key_line_spec(t, base)
    } else {
        match resolve_spec(t, base) {
            Some(u) => Some(proxy_url_spec(u)),
            None => None,
        }
    }
}

pub open spec fn rewrite_lines_ok(ls: Seq<Seq<char>>, base: Seq<char>) -> bool {
    forall|k: int| 0 <= k < ls.len() ==> #[trigger] rewrite_line_spec(ls[k], base) is Some
}

/// The rewritten document: every line rewritten, each followed by a
/// newline.
pub open spec fn rewritten_lines(ls: Seq<Seq<char>>, base: Seq<char>) -> Seq<char>
    decreases ls.len(),
{
    if ls.len() == 0 {
        Seq::empty()
    } else {
        some_val(rewrite_line_spec(ls[0], base)) + seq!['\n'] + rewritten_lines(ls.skip(1), base)
    }
}

pub open spec fn rewrite_doc(s: Seq<char>, base: Seq<char>) -> Option<Seq<char>> {
    if rewrite_lines_ok(lines_spec(s), base) {
        Some(rewritten_lines(lines_spec(s), base))
    } else {
        None
    }
}

/// The input's lines, each terminated with a newline: the input itself,
/// up to line-ending normalization.
pub open spec fn unlines(ls: Seq<Seq<char>>) -> Seq<char>
    decreases ls.len(),
{
    if ls.len() == 0 {
        Seq::empty()
    } else {
        ls[0] + seq!['\n'] + unlines(ls.skip(1))
    }
}

proof fn lemma_rewritten_snoc(ls: Seq<Seq<char>>, base: Seq<char>, l: Seq<char>)
    ensures
        rewritten_lines(ls.push(l), base) == rewritten_lines(ls, base) + some_val(
            rewrite_line_spec(l, base),
        ) + seq!['\n'],
    decreases ls.len(),
{
    if ls.len() == 0 {
        let e = Seq::<Seq<char>>::empty();
        assert(ls.push(l)[0] == l);
        assert(ls.push(l).skip(1) =~= e);
        assert(rewritten_lines(e, base) == Seq::<char>::empty());
        assert(ls =~= e);
        assert(rewritten_lines(ls.push(l), base) =~= rewritten_lines(ls, base) + some_val(
            rewrite_line_spec(l, base),
        ) + seq!['\n']);
    } else {
        assert(ls.push(l).skip(1) =~= ls.skip(1).push(l));
        lemma_rewritten_snoc(ls.skip(1), base, l);
        assert(ls.push(l)[0] == ls[0]);
        assert(rewritten_lines(ls.push(l), base) =~= rewritten_lines(ls, base) + some_val(
            rewrite_line_spec(l, base),
        ) + seq!['\n']);
    }
}

/// Rewriting a manifest whose lines are all blank or ordinary comments
/// returns the input unchanged, up to line-ending normalization.
pub proof fn lemma_comment_only_unchanged(s: Seq<char>, base: Seq<char>)
    requires
        forall|k: int|
            0 <= k < lines_spec(s).len() ==> passthrough_line(
                trim_spec(#[trigger] lines_spec(s)[k]),
            ),
    ensures
        rewrite_doc(s, base) == Some(unlines(lines_spec(s))),
{
    lemma_passthrough_lines(lines_spec(s), base);
}

proof fn lemma_passthrough_lines(ls: Seq<Seq<char>>, base: Seq<char>)
    requires
        forall|k: int| 0 <= k < ls.len() ==> passthrough_line(trim_spec(#[trigger] ls[k])),
    ensures
        rewrite_lines_ok(ls, base),
        rewritten_lines(ls, base) == unlines(ls),
    decreases ls.len(),
{
    if ls.len() > 0 {
        assert(forall|k: int|
            0 <= k < ls.skip(1).len() ==> passthrough_line(trim_spec(#[trigger] ls.skip(1)[k])));
        lemma_passthrough_lines(ls.skip(1), base);
        assert(rewrite_line_spec(ls[0], base) == Some(ls[0]));
        assert(rewritten_lines(ls, base) == unlines(ls));
        assert(forall|k: int|
            0 <= k < ls.len() ==> #[trigger] rewrite_line_spec(ls[k], base) is Some) by {
            assert forall|k: int| 0 <= k < ls.len() implies #[trigger] rewrite_line_spec(
                ls[k],
                base,
            ) is Some by {
                assert(passthrough_line(trim_spec(ls[k])));
            }
        }
    }
}

/// Rewrites sub-manifest URIs onto the proxy's endpoints, relative to a
/// proxy base URL kept for composition.
pub struct M3u8Rewriter {
    pub proxy_base_url: String,
}

impl M3u8Rewriter {
    pub fn new(proxy_base_url: String) -> (r: Self)
        ensures
            r.proxy_base_url == proxy_base_url,
    {
        M3u8Rewriter { proxy_base_url }
    }

    /// The proxy URL for a resolved reference: the playlist endpoint for a
    /// sub-manifest, the segment endpoint for anything else, the target
    /// percent-encoded into the query string.
    pub fn create_proxy_url(&self, original_url: &str) -> (r: String)
        ensures
            r@ == proxy_url_spec(original_url@),
            is_playlist_ref(original_url@) ==> r@ == "/api/proxy/playlist?url="@ + encoded_of(
                original_url@,
            ),
            !is_playlist_ref(original_url@) ==> r@ == "/api/proxy/segment?url="@ + encoded_of(
                original_url@,
            ),
    {
        proof {
            reveal_strlit(".m3u8");
            reveal_strlit(".m3u8?");
        }
        let pl = ends_with(original_url, ".m3u8") || contains_sub(original_url, ".m3u8?");
        let mut r = if pl {
            String::from_str("/api/proxy/playlist?url=")
        } else {
            String::from_str("/api/proxy/segment?url=")
        };
        let enc = encode_component(original_url);
        r.append(enc.as_str());
        r
    }

    /// Resolves one URI reference against the origin URL: an absolute
    /// http(s) reference is kept as it is; a relative one resolves by RFC
    /// 3986 join semantics, so a bare filename replaces the base's last
    /// path segment and an absolute-path reference replaces its whole
    /// path.
    pub fn resolve_url(&self, url: &str, base_url: &str) -> (r: Result<String, AppError>)
        ensures
            is_http_abs(url@) ==> (r matches Ok(s) && s@ == url@),
            !is_http_abs(url@) ==> match r {
                Ok(s) => rfc_join(base_url@, url@) == Some(s@),
                Err(e) => rfc_join(base_url@, url@) is None && (e matches AppError::InvalidM3U(
                    _,
                )),
            },
            !is_http_abs(url@) && plain_http_base(base_url@) && plain_filename(url@) ==> (
            r matches Ok(s) && s@ == dir_prefix(base_url@) + url@),
            !is_http_abs(url@) && plain_http_base(base_url@) && plain_abs_path(url@) ==> (
            r matches Ok(s) && s@ == origin_prefix(base_url@) + url@),
    {
        if starts_with(url, "http://") || starts_with(url, "https://") {
            return Ok(String::from_str(url));
        }
        match resolve_reference(base_url, url) {
            Some(u) => Ok(u),
            None => Err(AppError::InvalidM3U(String::from_str("Failed to resolve URL"))),
        }
    }

    fn rewrite_key_line(&self, t: &str, base_url: &str) -> (r: Result<String, AppError>)
        ensures
            match r {
                Ok(s) => key_line_spec(t@, base_url@) == Some(s@),
                Err(e) => key_line_spec(t@, base_url@) is None && (e matches AppError::InvalidM3U(
                    _,
                )),
            },
    {
        proof {
            reveal_strlit("URI=\"");
        }
        let n = t.unicode_len();
        let i = find_sub(t, "URI=\"", 0);
        proof {
            lemma_find_sub(t@, "URI=\""@, 0);
        }
        if i == n {
            return Ok(String::from_str(t));
        }
        let m = "URI=\"".unicode_len();
        let vs = i + m;
        let j = find_char(t, '"', vs);
        proof {
            lemma_find_char(t@, '"', vs as int);
        }
        if j == n {
            return Ok(String::from_str(t));
        }
        let uri = t.substring_char(vs, j);
        match self.resolve_url(uri, base_url) {
            Ok(absolute) => {
                let prox = self.create_proxy_url(absolute.as_str());
                let mut out = String::from_str(t.substring_char(0, vs));
                out.append(prox.as_str());
                out.append(t.substring_char(j, n));
                proof {
                    assert(out@ =~= t@.subrange(0, vs as int) + proxy_url_spec(absolute@)
                        + t@.subrange(j as int, n as int));
                }
                Ok(out)
            },
            Err(e) => Err(e),
        }
    }

    fn rewrite_line(&self, line: &str, base_url: &str) -> (r: Result<String, AppError>)
        ensures
            match r {
                Ok(s) => rewrite_line_spec(line@, base_url@) == Some(s@),
                Err(e) => rewrite_line_spec(line@, base_url@) is None && (
                e matches AppError::InvalidM3U(_)),
            },
    {
        let t = trim(line);
        if t.unicode_len() == 0 {
            return Ok(String::from_str(line));
        }
        if t.get_char(0) == '#' {
            if starts_with(t, "#EXT-X-KEY") {
                self.rewrite_key_line(t, base_url)
            } else {
                Ok(String::from_str(line))
            }
        } else {
            proof {
                reveal_strlit("#EXT-X-KEY");
                assert(!has_prefix(t@, "#EXT-X-KEY"@)) by {
                    if has_prefix(t@, "#EXT-X-KEY"@) {
                        assert(t@.subrange(0, "#EXT-X-KEY"@.len() as int)[0] == t@[0]);
                    }
                }
            }
            match self.resolve_url(t, base_url) {
                Ok(absolute) => Ok(self.create_proxy_url(absolute.as_str())),
                Err(e) => Err(e),
            }
        }
    }

    /// Rewrites a whole manifest, line by line, against its origin URL.
    /// Fails when the origin URL is no absolute URL, or when a reference
    /// of the manifest cannot be resolved against it.
    pub fn rewrite_m3u8(&self, content: &str, original_url: &str) -> (r: Result<String, AppError>)
        ensures
            !url_parse_ok(original_url@) ==> (r matches Err(e) && e matches AppError::InvalidM3U(
                _,
            )),
            url_parse_ok(original_url@) ==> match r {
                Ok(out) => rewrite_doc(content@, original_url@) == Some(out@),
                Err(e) => rewrite_doc(content@, original_url@) is None && (
                e matches AppError::InvalidM3U(_)),
            },
    {
        if !is_absolute_url(original_url) {
            return Err(AppError::InvalidM3U(String::from_str("Invalid base URL")));
        }
        let lines = split_lines(content);
        let ghost ls = lines@.map_values(|l: String| l@);
        let mut out = String::new();
        let mut i: usize = 0;
        while i < lines.len()
            invariant
                i <= lines@.len(),
                lines@.map_values(|l: String| l@) == ls,
                ls == lines_spec(content@),
                url_parse_ok(original_url@),
                forall|k: int|
                    0 <= k < i ==> #[trigger] rewrite_line_spec(ls[k], original_url@) is Some,
                out@ == rewritten_lines(ls.take(i as int), original_url@),
            decreases lines@.len() - i,
        {
            proof {
                reveal_strlit("\n");
            }
            match self.rewrite_line(lines[i].as_str(), original_url) {
                Ok(s) => {
                    out.append(s.as_str());
                    out.append("\n");
                    proof {
                        assert(ls.take(i + 1) =~= ls.take(i as int).push(ls[i as int]));
                        lemma_rewritten_snoc(ls.take(i as int), original_url@, ls[i as int]);
                        assert(out@ =~= rewritten_lines(ls.take(i + 1), original_url@));
                    }
                },
                Err(e) => {
                    proof {
                        assert(!rewrite_lines_ok(ls, original_url@)) by {
                            assert(rewrite_line_spec(ls[i as int], original_url@) is None);
                        }
                    }
                    return Err(e);
                },
            }
            i += 1;
        }
        proof {
            assert(ls.take(i as int) =~= ls);
            assert(rewrite_lines_ok(ls, original_url@));
        }
        Ok(out)
    }
}

} // verus!
