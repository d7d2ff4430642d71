//! The in-memory channel directory: loaded wholesale, read through
//! id lookup, group filter, case-insensitive search and the sorted set
//! of groups.

use vstd::prelude::*;
use vstd::string::*;
use crate::channel::Channel;
use crate::error::AppError;
use crate::strutil::{contains_seq, has_sub_at, lemma_filter_push, lower_of};
use crate::strutil::{contains_sub, str_eq, to_lower};

verus! {

pub open spec fn has_id(s: Seq<Channel>, id: Seq<char>) -> bool {
    exists|k: int| 0 <= k < s.len() && (#[trigger] s[k].id@) == id
}

/// Index of the first record at or after `from` bearing `id`; `s.len()`
/// when none does.
pub open spec fn first_id_index(s: Seq<Channel>, id: Seq<char>, from: int) -> int
    decreases s.len() - from when 0 <= from <= s.len()
{
    if from >= s.len() {
        s.len() as int
    } else if s[from].id@ == id {
        from
    } else {
        first_id_index(s, id, from + 1)
    }
}

/// Membership in a group, for the group filter.
pub open spec fn in_group(g: Seq<char>) -> spec_fn(Channel) -> bool {
    |c: Channel| c.group@ == g
}

/// A search hit: the lowercased query occurs in the lowercased display
/// name or in the lowercased external id.
pub open spec fn search_hit(c: Channel, q: Seq<char>) -> bool {
    contains_seq(lower_of(c.name@), lower_of(q)) || contains_seq(lower_of(c.tvg_id@), lower_of(q))
}

pub open spec fn search_pred(q: Seq<char>) -> spec_fn(Channel) -> bool {
    |c: Channel| search_hit(c, q)
}

/// Some record of `cs` bears the group `g`.
pub open spec fn group_listed(cs: Seq<Channel>, g: Seq<char>) -> bool {
    exists|k: int| 0 <= k < cs.len() && (#[trigger] cs[k].group@) == g
}

/// Some entry of `out` is the string `g`.
pub open spec fn listed_in(out: Seq<String>, g: Seq<char>) -> bool {
    exists|i: int| 0 <= i < out.len() && (#[trigger] out[i]@) == g
}

/// Strict lexicographic order on character sequences, by scalar value.
pub open spec fn lex_lt(a: Seq<char>, b: Seq<char>) -> bool
    decreases a.len(),
{
    if b.len() == 0 {
        false
    } else if a.len() == 0 {
        true
    } else if a[0] < b[0] {
        true
    } else if b[0] < a[0] {
        false
    } else {
        lex_lt(a.drop_first(), b.drop_first())
    }
}

proof fn lemma_lex_connex(a: Seq<char>, b: Seq<char>)
    ensures
        lex_lt(a, b) || lex_lt(b, a) || a == b,
    decreases a.len(),
{
    if b.len() == 0 {
        if a.len() == 0 {
            assert(a =~= b);
        }
    } else if a.len() == 0 {
    } else if a[0] < b[0] {
    } else if b[0] < a[0] {
    } else {
        lemma_lex_connex(a.drop_first(), b.drop_first());
        if a.drop_first() == b.drop_first() {
            assert(a.drop_first().len() == a.len() - 1);
            assert(b.drop_first().len() == b.len() - 1);
            assert(forall|i: int| 0 < i < a.len() ==> (#[trigger] a[i]) == a.drop_first()[i - 1]);
            assert(forall|i: int| 0 < i < b.len() ==> (#[trigger] b[i]) == b.drop_first()[i - 1]);
            assert(a =~= b);
        }
    }
}

proof fn lemma_lex_trans(a: Seq<char>, b: Seq<char>, c: Seq<char>)
    requires
        lex_lt(a, b),
        lex_lt(b, c),
    ensures
        lex_lt(a, c),
    decreases a.len(),
{
    if c.len() == 0 {
    } else if b.len() == 0 {
    } else if a.len() == 0 {
    } else {
        if a[0] == b[0] && b[0] == c[0] {
            lemma_lex_trans(a.drop_first(), b.drop_first(), c.drop_first());
        }
    }
}

/// Strict lexicographic comparison of two strings, character by character.
pub fn lex_lt_str(a: &str, b: &str) -> (r: bool)
    ensures
        r == lex_lt(a@, b@),
{
    let an = a.unicode_len();
    let bn = b.unicode_len();
    proof {
        assert(a@.skip(0) =~= a@);
        assert(b@.skip(0) =~= b@);
    }
    let mut i: usize = 0;
    while i < an && i < bn
        invariant
            i <= an,
            i <= bn,
            an == a@.len(),
            bn == b@.len(),
            lex_lt(a@, b@) == lex_lt(a@.skip(i as int), b@.skip(i as int)),
        decreases an - i,
    {
        let ca = a.get_char(i);
        let cb = b.get_char(i);
        proof {
            assert(a@.skip(i as int)[0] == a@[i as int]);
            assert(b@.skip(i as int)[0] == b@[i as int]);
        }
        if ca < cb {
            return true;
        }
        if cb < ca {
            return false;
        }
        proof {
            assert(a@.skip(i as int).drop_first() =~= a@.skip(i + 1));
            assert(b@.skip(i as int).drop_first() =~= b@.skip(i + 1));
        }
        i += 1;
    }
    proof {
        assert(a@.skip(i as int).len() == an - i);
        assert(b@.skip(i as int).len() == bn - i);
    }
    i < bn
}

#[derive(Debug)]
pub struct ChannelManager {
    pub channels: Vec<Channel>,
}

impl ChannelManager {
    /// A directory with no channels.
    pub fn new() -> (r: Self)
        ensures
            r.channels@.len() == 0,
    {
        ChannelManager { channels: Vec::new() }
    }

    /// Atomically replaces the entire content with the given records and
    /// returns how many there are; no partial update is visible.
    pub fn load(&mut self, records: Vec<Channel>) -> (count: usize)
        ensures
            final(self).channels@ == records@,
            count == records@.len(),
    {
        let count = records.len();
        self.channels = records;
        count
    }

    /// The full current snapshot, in insertion order.
    pub fn get_all_channels(&self) -> (r: Vec<Channel>)
        ensures
            r@ == self.channels@,
    {
        let mut r: Vec<Channel> = Vec::new();
        let mut i: usize = 0;
        while i < self.channels.len()
            invariant
                i <= self.channels@.len(),
                r@ == self.channels@.take(i as int),
            decreases self.channels@.len() - i,
        {
            r.push(self.channels[i].clone());
            proof {
                assert(self.channels@.take(i + 1) =~= self.channels@.take(i as int).push(
                    self.channels@[i as int],
                ));
            }
            i += 1;
        }
        proof {
            assert(self.channels@.take(i as int) =~= self.channels@);
        }
        r
    }

    /// The first record bearing the id, or `ChannelNotFound` when no
    /// record does.
    pub fn get_channel_by_id(&self, id: &str) -> (r: Result<Channel, AppError>)
        ensures
            has_id(self.channels@, id@) ==> (r matches Ok(c) && c == self.channels@[first_id_index(
                self.channels@,
                id@,
                0,
            )]),
            !has_id(self.channels@, id@) ==> (r matches Err(e)
                && e matches AppError::ChannelNotFound(m) && m@ == id@),
    {
        let mut i: usize = 0;
        while i < self.channels.len()
            invariant
                i <= self.channels@.len(),
                first_id_index(self.channels@, id@, 0) == first_id_index(
                    self.channels@,
                    id@,
                    i as int,
                ),
                forall|j: int| 0 <= j < i ==> (#[trigger] self.channels@[j].id@) != id@,
            decreases self.channels@.len() - i,
        {
            if str_eq(self.channels[i].id.as_str(), id) {
                proof {
                    assert(first_id_index(self.channels@, id@, i as int) == i as int);
                    assert(has_id(self.channels@, id@));
                }
                return Ok(self.channels[i].clone());
            }
            i += 1;
        }
        proof {
            assert(first_id_index(self.channels@, id@, i as int) == self.channels@.len() as int);
            assert(!has_id(self.channels@, id@));
        }
        Err(AppError::ChannelNotFound(String::from_str(id)))
    }

    /// The records whose group matches exactly, in order.
    pub fn get_channels_by_group(&self, group: &str) -> (r: Vec<Channel>)
        ensures
            r@ == self.channels@.filter(in_group(group@)),
    {
        let mut r: Vec<Channel> = Vec::new();
        let mut i: usize = 0;
        while i < self.channels.len()
            invariant
                i <= self.channels@.len(),
                r@ == self.channels@.take(i as int).filter(in_group(group@)),
            decreases self.channels@.len() - i,
        {
            let ghost pre = self.channels@.take(i as int);
            proof {
                assert(self.channels@.take(i + 1) =~= pre.push(self.channels@[i as int]));
                lemma_filter_push(pre, in_group(group@), self.channels@[i as int]);
            }
            if str_eq(self.channels[i].group.as_str(), group) {
                r.push(self.channels[i].clone());
            }
            i += 1;
        }
        proof {
            assert(self.channels@.take(i as int) =~= self.channels@);
        }
        r
    }

    /// The records hit by a case-insensitive substring search against the
    /// display name or the external id, in order.
    pub fn search_channels(&self, query: &str) -> (r: Vec<Channel>)
        ensures
            r@ == self.channels@.filter(search_pred(query@)),
    {
        let qlow = to_lower(query);
        let mut r: Vec<Channel> = Vec::new();
        let mut i: usize = 0;
        while i < self.channels.len()
            invariant
                i <= self.channels@.len(),
                qlow@ == lower_of(query@),
                r@ == self.channels@.take(i as int).filter(search_pred(query@)),
            decreases self.channels@.len() - i,
        {
            let ghost pre = self.channels@.take(i as int);
            proof {
                assert(self.channels@.take(i + 1) =~= pre.push(self.channels@[i as int]));
                lemma_filter_push(pre, search_pred(query@), self.channels@[i as int]);
            }
            let nlow = to_lower(self.channels[i].name.as_str());
            let tlow = to_lower(self.channels[i].tvg_id.as_str());
            let hit = if qlow.as_str().unicode_len() == 0 {
                proof {
                    assert(has_sub_at(
                        lower_of(self.channels@[i as int].name@),
                        lower_of(query@),
                        0,
                    )) by {
                        assert(lower_of(self.channels@[i as int].name@).subrange(0, 0)
                            =~= lower_of(query@));
                    }
                    assert(search_hit(self.channels@[i as int], query@));
                }
                true
            } else {
                contains_sub(nlow.as_str(), qlow.as_str()) || contains_sub(
                    tlow.as_str(),
                    qlow.as_str(),
                )
            };
            if hit {
                r.push(self.channels[i].clone());
            }
            i += 1;
        }
        proof {
            assert(self.channels@.take(i as int) =~= self.channels@);
        }
        r
    }

    /// The distinct groups, in strictly ascending lexicographic order:
    /// every listed group belongs to some record, and every record's group
    /// is listed.
    pub fn get_all_groups(&self) -> (r: Vec<String>)
        ensures
            forall|i1: int, i2: int|
                0 <= i1 < i2 < r@.len() ==> lex_lt(#[trigger] r@[i1]@, #[trigger] r@[i2]@),
            forall|i: int| 0 <= i < r@.len() ==> group_listed(self.channels@, #[trigger] r@[i]@),
            forall|k: int|
                0 <= k < self.channels@.len() ==> listed_in(
                    r@,
                    #[trigger] self.channels@[k].group@,
                ),
    {
        let mut out: Vec<String> = Vec::new();
        let mut k: usize = 0;
        while k < self.channels.len()
            invariant
                k <= self.channels@.len(),
                forall|i1: int, i2: int|
                    0 <= i1 < i2 < out@.len() ==> lex_lt(
                        #[trigger] out@[i1]@,
                        #[trigger] out@[i2]@,
                    ),
                forall|i: int|
                    0 <= i < out@.len() ==> group_listed(self.channels@, #[trigger] out@[i]@),
                forall|k2: int|
                    0 <= k2 < k ==> listed_in(out@, #[trigger] self.channels@[k2].group@),
            decreases self.channels@.len() - k,
        {
            let g = self.channels[k].group.clone();
            let mut j: usize = 0;
            while j < out.len() && lex_lt_str(out[j].as_str(), g.as_str())
                invariant
                    j <= out@.len(),
                    g@ == self.channels@[k as int].group@,
                    forall|t: int| 0 <= t < j ==> lex_lt(#[trigger] out@[t]@, g@),
                decreases out@.len() - j,
            {
                j += 1;
            }
            let present = j < out.len() && str_eq(out[j].as_str(), g.as_str());
            if present {
                proof {
                    assert(out@[j as int]@ == self.channels@[k as int].group@);
                    assert(listed_in(out@, self.channels@[k as int].group@));
                }
            } else {
                let ghost old_out = out@;
                proof {
                    if j < out@.len() {
                        lemma_lex_connex(old_out[j as int]@, g@);
                        assert(lex_lt(g@, old_out[j as int]@));
                    }
                    old_out.insert_ensures(j as int, g);
                }
                out.insert(j, g);
                proof {
                    let n = out@;
                    assert(n =~= old_out.insert(j as int, g));
                    assert(forall|t: int| 0 <= t < j ==> #[trigger] n[t] == old_out[t]);
                    assert(n[j as int] == g);
                    assert(forall|t: int|
                        j < t < n.len() ==> #[trigger] n[t] == old_out[t - 1]);
                    assert forall|i1: int, i2: int| 0 <= i1 < i2 < n.len() implies lex_lt(
                        #[trigger] n[i1]@,
                        #[trigger] n[i2]@,
                    ) by {
                        if i2 < j {
                            assert(lex_lt(old_out[i1]@, old_out[i2]@));
                        } else if i1 < j && i2 == j {
                            assert(lex_lt(old_out[i1]@, g@));
                        } else if i1 < j && i2 > j {
                            if i2 - 1 == j {
                                lemma_lex_trans(old_out[i1]@, g@, old_out[j as int]@);
                            } else {
                                assert(lex_lt(old_out[i1]@, old_out[i2 - 1]@));
                            }
                        } else if i1 == j {
                            if i2 - 1 == j {
                                assert(lex_lt(g@, old_out[j as int]@));
                            } else {
                                lemma_lex_trans(g@, old_out[j as int]@, old_out[i2 - 1]@);
                            }
                        } else {
                            assert(lex_lt(old_out[i1 - 1]@, old_out[i2 - 1]@));
                        }
                    }
                    assert forall|i: int| 0 <= i < n.len() implies group_listed(
                        self.channels@,
                        #[trigger] n[i]@,
                    ) by {
                        if i < j {
                            assert(group_listed(self.channels@, old_out[i]@));
                        } else if i == j {
                            assert(n[i]@ == self.channels@[k as int].group@);
                        } else {
                            assert(group_listed(self.channels@, old_out[i - 1]@));
                        }
                    }
                    assert forall|k2: int| 0 <= k2 < k implies listed_in(
                        n,
                        #[trigger] self.channels@[k2].group@,
                    ) by {
                        let i0 = choose|i: int|
                            0 <= i < old_out.len() && (#[trigger] old_out[i]@)
                                == self.channels@[k2].group@;
                        if i0 < j {
                            assert(n[i0]@ == self.channels@[k2].group@);
                        } else {
                            assert(n[i0 + 1]@ == self.channels@[k2].group@);
                        }
                    }
                    assert(n[j as int]@ == self.channels@[k as int].group@);
                    assert(listed_in(n, self.channels@[k as int].group@));
                }
            }
            k += 1;
        }
        out
    }

    /// How many channels the directory holds.
    pub fn get_channel_count(&self) -> (r: usize)
        ensures
            r == self.channels@.len(),
    {
        self.channels.len()
    }
}

/// A load publishes every one of its records: each record's id is found
/// in the directory the load produced.
pub proof fn lemma_load_finds_ids(recs: Seq<Channel>, k: int)
    requires
        0 <= k < recs.len(),
    ensures
        has_id(recs, recs[k].id@),
{
    assert(0 <= k < recs.len() && recs[k].id@ == recs[k].id@);
}

/// An id found in a loaded directory is found no more after a reload
/// whose records all bear different ids: lookups see exactly the records
/// of the latest load.
pub proof fn lemma_reload_disjoint(
    old_recs: Seq<Channel>,
    new_recs: Seq<Channel>,
    id: Seq<char>,
)
    requires
        has_id(old_recs, id),
        forall|i: int, j: int|
            0 <= i < old_recs.len() && 0 <= j < new_recs.len() ==> (#[trigger] old_recs[i].id@)
                != (#[trigger] new_recs[j].id@),
    ensures
        !has_id(new_recs, id),
{
    let k = choose|k: int| 0 <= k < old_recs.len() && (#[trigger] old_recs[k].id@) == id;
    assert forall|j: int| 0 <= j < new_recs.len() implies (#[trigger] new_recs[j].id@) != id by {
        assert(old_recs[k].id@ != new_recs[j].id@);
    }
}

} // verus!
