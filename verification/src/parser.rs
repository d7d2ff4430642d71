//! The playlist-manifest ingestor: parses extended-M3U text into channel
//! records, line by line and tolerant of malformed metadata.

use vstd::prelude::*;
use vstd::string::*;
use crate::channel::{Channel, ChannelView, stream_type_of};
use crate::error::AppError;
use crate::strutil::{
    dec_of, find_char_from, find_sub_from, has_prefix, lines_spec, lower_of, rfind_char,
    trim_spec,
};
use crate::strutil::{
    find_char, find_sub, lemma_find_char, lemma_find_sub, split_lines, starts_with, trim,
    usize_to_string,
};

verus! {

/// The display name of a metadata line: the text after the comma that
/// trails the quoted attributes (the first comma after the last quote),
/// trimmed; a sentinel when no such comma is present.
pub open spec fn display_name_of(t: Seq<char>) -> Seq<char> {
    let q = rfind_char(t, '"', t.len() as int) + 1;
    let cpos = find_char_from(t, ',', q);
    if cpos == t.len() {
        "unnamed channel"@
    } else {
        trim_spec(t.subrange(cpos + 1, t.len() as int))
    }
}

proof fn reveal_pats()
    ensures
        "tvg-id=\""@.len() >= 1,
        "tvg-logo=\""@.len() >= 1,
        "group-title=\""@.len() >= 1,
{
    reveal_strlit("tvg-id=\"");
    reveal_strlit("tvg-logo=\"");
    reveal_strlit("group-title=\"");
}

/// The value of a quoted attribute `pat` (the key with its opening quote,
/// as in `tvg-id="`): the text up to the next closing quote, or absent when
/// the key or the closing quote is missing.
pub open spec fn attr_of(line: Seq<char>, pat: Seq<char>) -> Option<Seq<char>> {
    let i = find_sub_from(line, pat, 0);
    if i == line.len() {
        None
    } else {
        let vs = i + pat.len();
        let j = find_char_from(line, '"', vs);
        if j == line.len() {
            None
        } else {
            Some(line.subrange(vs, j))
        }
    }
}

pub open spec fn tvg_id_of(t: Seq<char>) -> Seq<char> {
    match attr_of(t, "tvg-id=\""@) {
        Some(v) => v,
        None => Seq::empty(),
    }
}

pub open spec fn logo_of(t: Seq<char>) -> Option<Seq<char>> {
    match attr_of(t, "tvg-logo=\""@) {
        Some(v) => if v.len() > 0 {
            Some(v)
        } else {
            None
        },
        None => None,
    }
}

pub open spec fn group_of(t: Seq<char>) -> Seq<char> {
    match attr_of(t, "group-title=\""@) {
        Some(v) => v,
        None => "uncategorized"@,
    }
}

/// A line is taken as an origin URL when it is non-blank and no comment.
pub open spec fn is_url_line(u: Seq<char>) -> bool {
    u.len() > 0 && u[0] != '#'
}

/// The channel record read off one metadata line `t` and one URL line `u`,
/// as the `cnt`-th record of the load.
pub open spec fn mk_channel_view(t: Seq<char>, u: Seq<char>, cnt: int) -> ChannelView {
    ChannelView {
        id: "channel_"@ + dec_of(cnt),
        tvg_id: tvg_id_of(t),
        name: display_name_of(t),
        logo: logo_of(t),
        group: group_of(t),
        url: u,
        stream_type: stream_type_of(lower_of(u)),
    }
}

/// The records produced from line `i` on, the next record index being `cnt`:
/// a metadata line consumes the line after it, and yields a record exactly
/// when that next line is a URL line.
pub open spec fn parse_lines(ls: Seq<Seq<char>>, i: int, cnt: int) -> Seq<ChannelView>
    decreases ls.len() - i when 0 <= i
{
    if i >= ls.len() {
        Seq::empty()
    } else {
        let t = trim_spec(ls[i]);
        if has_prefix(t, "#EXTINF"@) {
            if i + 1 < ls.len() {
                if is_url_line(trim_spec(ls[i + 1])) {
                    seq![mk_channel_view(t, trim_spec(ls[i + 1]), cnt)] + parse_lines(
                        ls,
                        i + 2,
                        cnt + 1,
                    )
                } else {
                    parse_lines(ls, i + 2, cnt)
                }
            } else {
                Seq::empty()
            }
        } else {
            parse_lines(ls, i + 1, cnt)
        }
    }
}

pub open spec fn parse_spec(s: Seq<char>) -> Seq<ChannelView> {
    parse_lines(lines_spec(s), 0, 0)
}

proof fn lemma_parse_ids(ls: Seq<Seq<char>>, i: int, cnt: int, k: int)
    requires
        0 <= i,
        0 <= k < parse_lines(ls, i, cnt).len(),
    ensures
        parse_lines(ls, i, cnt)[k].id == "channel_"@ + dec_of(cnt + k),
    decreases ls.len() - i,
{
    if i < ls.len() {
        let t = trim_spec(ls[i]);
        if has_prefix(t, "#EXTINF"@) {
            if i + 1 < ls.len() {
                if is_url_line(trim_spec(ls[i + 1])) {
                    if k > 0 {
                        lemma_parse_ids(ls, i + 2, cnt + 1, k - 1);
                    }
                } else {
                    lemma_parse_ids(ls, i + 2, cnt, k);
                }
            }
        } else {
            lemma_parse_ids(ls, i + 1, cnt, k);
        }
    }
}

/// The records of a parse carry sequential ids in source order: the k-th
/// record of the load is `channel_k`.
pub proof fn lemma_sequential_ids(s: Seq<char>, k: int)
    requires
        0 <= k < parse_spec(s).len(),
    ensures
        parse_spec(s)[k].id == "channel_"@ + dec_of(k),
{
    lemma_parse_ids(lines_spec(s), 0, 0, k);
}

fn attr_value(t: &str, pat: &str) -> (r: Option<String>)
    requires
        pat@.len() >= 1,
    ensures
        match r {
            Some(v) => attr_of(t@, pat@) == Some(v@),
            None => attr_of(t@, pat@) is None,
        },
{
    let n = t.unicode_len();
    let i = find_sub(t, pat, 0);
    proof {
        lemma_find_sub(t@, pat@, 0);
    }
    if i == n {
        return None;
    }
    let m = pat.unicode_len();
    let vs = i + m;
    let j = find_char(t, '"', vs);
    proof {
        lemma_find_char(t@, '"', vs as int);
    }
    if j == n {
        return None;
    }
    Some(String::from_str(t.substring_char(vs, j)))
}

fn display_name(t: &str) -> (r: String)
    ensures
        r@ == display_name_of(t@),
{
    let n = t.unicode_len();
    let mut till: usize = n;
    while till > 0 && t.get_char(till - 1) != '"'
        invariant
            till <= n,
            n == t@.len(),
            rfind_char(t@, '"', n as int) == rfind_char(t@, '"', till as int),
        decreases till,
    {
        till -= 1;
    }
    proof {
        assert(rfind_char(t@, '"', till as int) == if till > 0 {
            till - 1
        } else {
            -1
        });
    }
    let cpos = find_char(t, ',', till);
    proof {
        lemma_find_char(t@, ',', till as int);
    }
    if cpos == n {
        String::from_str("unnamed channel")
    } else {
        String::from_str(trim(t.substring_char(cpos + 1, n)))
    }
}

pub struct M3uParser;

impl M3uParser {
    /// Parses manifest text into channel records. Succeeds exactly when at
    /// least one metadata/URL pair is present, and then returns the records
    /// in source order with sequentially numbered ids.
    pub fn parse_content(content: &str) -> (r: Result<Vec<Channel>, AppError>)
        ensures
            match r {
                Ok(v) => parse_spec(content@).len() > 0 && v@.map_values(|c: Channel| c@)
                    == parse_spec(content@),
                Err(e) => parse_spec(content@).len() == 0 && (e matches AppError::InvalidM3U(m)
                    && m@ == "No valid channels found in M3U file"@),
            },
    {
        let lines = split_lines(content);
        let ghost ls = lines@.map_values(|l: String| l@);
        let mut channels: Vec<Channel> = Vec::new();
        let mut i: usize = 0;
        while i < lines.len()
            invariant
                i <= lines@.len(),
                lines@.map_values(|l: String| l@) == ls,
                ls == lines_spec(content@),
                parse_lines(ls, 0, 0) == channels@.map_values(|c: Channel| c@) + parse_lines(
                    ls,
                    i as int,
                    channels@.len() as int,
                ),
            decreases lines@.len() - i,
        {
            proof {
                reveal_pats();
            }
            let ghost cnt = channels@.len() as int;
            let ghost pre = channels@.map_values(|c: Channel| c@);
            let t = trim(lines[i].as_str());
            if starts_with(t, "#EXTINF") {
                if i + 1 < lines.len() {
                    let u = trim(lines[i + 1].as_str());
                    if u.unicode_len() > 0 && u.get_char(0) != '#' {
                        let mut id = String::from_str("channel_");
                        let num = usize_to_string(channels.len());
                        id.append(num.as_str());
                        let tvg_id = match attr_value(t, "tvg-id=\"") {
                            Some(v) => v,
                            None => String::new(),
                        };
                        let logo = match attr_value(t, "tvg-logo=\"") {
                            Some(v) => if v.unicode_len() > 0 {
                                Some(v)
                            } else {
                                None
                            },
                            None => None,
                        };
                        let group = match attr_value(t, "group-title=\"") {
                            Some(v) => v,
                            None => String::from_str("uncategorized"),
                        };
                        let name = display_name(t);
                        let stream_type = Channel::detect_stream_type(u);
                        let url = String::from_str(u);
                        let ch = Channel { id, tvg_id, name, logo, group, url, stream_type };
                        proof {
                            assert(ch@ == mk_channel_view(t@, u@, cnt));
                        }
                        channels.push(ch);
                        proof {
                            assert(channels@.map_values(|c: Channel| c@) =~= pre + seq![
                                mk_channel_view(t@, u@, cnt),
                            ]);
                            assert(pre + (seq![mk_channel_view(t@, u@, cnt)] + parse_lines(
                                ls,
                                i + 2,
                                cnt + 1,
                            )) =~= (pre + seq![mk_channel_view(t@, u@, cnt)]) + parse_lines(
                                ls,
                                i + 2,
                                cnt + 1,
                            ));
                        }
                    } else {
                        proof {
                            assert(parse_lines(ls, i as int, cnt) == parse_lines(ls, i + 2, cnt));
                        }
                    }
                    i += 2;
                } else {
                    proof {
                        assert(parse_lines(ls, i as int, cnt) =~= Seq::<ChannelView>::empty());
                        assert(pre + Seq::<ChannelView>::empty() =~= pre);
                        assert(pre + parse_lines(ls, (i + 1) as int, cnt) =~= pre);
                    }
                    i += 1;
                }
            } else {
                proof {
                    assert(parse_lines(ls, i as int, cnt) == parse_lines(ls, i + 1, cnt));
                }
                i += 1;
            }
        }
        proof {
            assert(parse_lines(ls, i as int, channels@.len() as int) =~= Seq::<
                ChannelView,
            >::empty());
            assert(channels@.map_values(|c: Channel| c@) + Seq::<ChannelView>::empty()
                =~= channels@.map_values(|c: Channel| c@));
        }
        if channels.len() == 0 {
            proof {
                assert(parse_spec(content@).len() == 0);
            }
            Err(AppError::InvalidM3U(String::from_str("No valid channels found in M3U file")))
        } else {
            Ok(channels)
        }
    }
}

} // verus!
