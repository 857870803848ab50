//! The per-file timeline: the statistics accumulator and the rendered
//! summary rows for the event-identifier table and the logon table.

use vstd::prelude::*;

use crate::prepare::PreparedRecord;
use crate::stats::{
    hist_after, hist_sum, hist_views, lemma_time_bounds, login_after, login_sum, login_views,
    max_ts, min_ts, recs_of, EventStatistics, LogonTally,
};
use crate::strtext::{dec_of, lex_le, u64_to_string};

verus! {

/// What the event-information table knows of one identifier.
pub struct EventInfo {
    pub evttitle: String,
    pub detectflg: String,
}

/// First match in the event-information table.
pub open spec fn info_lookup(tbl: Seq<(String, EventInfo)>, id: Seq<char>) -> Option<EventInfo>
    decreases tbl.len(),
{
    if tbl.len() == 0 {
        None
    } else if tbl[0].0@ == id {
        Some(tbl[0].1)
    } else {
        info_lookup(tbl.skip(1), id)
    }
}

/// The count's share of the total, in tenths of a percent, rounded to the
/// nearest tenth.
pub open spec fn permille_of(cnt: int, total: int) -> int {
    (2000 * cnt + total) / (2 * total)
}

/// One row of the identifier table: count, share, identifier, title, flag.
pub open spec fn stat_line(
    cnt: int,
    total: int,
    id: Seq<char>,
    title: Seq<char>,
    flg: Seq<char>,
) -> Seq<char> {
    let p = permille_of(cnt, total);
    dec_of(cnt as nat) + seq![' ', '('] + dec_of((p / 10) as nat) + seq!['.'] + dec_of(
        (p % 10) as nat,
    ) + seq!['%', ')', '\t'] + id + seq!['\t'] + title + seq!['\t'] + flg
}

/// The table's rows for the given histogram rows, in their order; unknown
/// identifiers get the placeholder title and an empty flag.
pub open spec fn stat_lines(
    entries: Seq<(Seq<char>, int)>,
    total: int,
    tbl: Seq<(String, EventInfo)>,
) -> Seq<Seq<char>>
    decreases entries.len(),
{
    if entries.len() == 0 {
        Seq::empty()
    } else {
        let e = entries.last();
        let line = match info_lookup(tbl, e.0) {
            Some(info) => stat_line(e.1, total, e.0, info.evttitle@, info.detectflg@),
            None => stat_line(e.1, total, e.0, "Unknown"@, Seq::empty()),
        };
        stat_lines(entries.drop_last(), total, tbl).push(line)
    }
}

/// One row of the logon table: user, failed count, successful count.
pub open spec fn login_line(user: Seq<char>, failed: int, succeeded: int) -> Seq<char> {
    user + seq!['\t', '\t', '\t', '\t'] + dec_of(failed as nat) + seq!['\t', '\t', '\t', '\t']
        + dec_of(succeeded as nat)
}

/// The logon table's rows, in row order.
pub open spec fn login_lines(rows: Seq<(Seq<char>, int, int)>) -> Seq<Seq<char>>
    decreases rows.len(),
{
    if rows.len() == 0 {
        Seq::empty()
    } else {
        login_lines(rows.drop_last()).push(
            login_line(rows.last().0, rows.last().1, rows.last().2),
        )
    }
}

/// The closing separator row.
pub open spec fn sep_line() -> Seq<char> {
    "-----------------------------------------------------------------"@
}

/// Display order of the identifier table: count descending, ties by
/// identifier ascending.
pub open spec fn stat_before(a: (String, usize), b: (String, usize)) -> bool {
    a.1 > b.1 || (a.1 == b.1 && lex_le(a.0@, b.0@))
}

pub open spec fn insert_stat(x: (String, usize), s: Seq<(String, usize)>) -> Seq<(String, usize)>
    decreases s.len(),
{
    if s.len() == 0 {
        seq![x]
    } else if stat_before(x, s[0]) {
        seq![x] + s
    } else {
        seq![s[0]] + insert_stat(x, s.skip(1))
    }
}

/// The histogram rows in display order.
pub open spec fn sort_stats(s: Seq<(String, usize)>) -> Seq<(String, usize)>
    decreases s.len(),
{
    if s.len() == 0 {
        Seq::empty()
    } else {
        insert_stat(s.last(), sort_stats(s.drop_last()))
    }
}

fn stat_before_exec(a: &(String, usize), b: &(String, usize)) -> (r: bool)
    ensures
        r == stat_before(*a, *b),
{
    if a.1 > b.1 {
        true
    } else if a.1 == b.1 {
        let later: bool = crate::strtext::str_lt(&b.0, &a.0);
        proof {
            if !crate::strtext::lex_lt(b.0@, a.0@) && !crate::strtext::lex_lt(a.0@, b.0@) {
                crate::strtext::lemma_lex_total(a.0@, b.0@);
            }
            if crate::strtext::lex_lt(a.0@, b.0@) && crate::strtext::lex_lt(b.0@, a.0@) {
                crate::strtext::lemma_lex_trans(a.0@, b.0@, a.0@);
                crate::strtext::lemma_lex_irrefl(a.0@);
            }
            if a.0@ == b.0@ {
                crate::strtext::lemma_lex_irrefl(a.0@);
            }
        }
        !later
    } else {
        false
    }
}

fn insert_stat_exec(x: (String, usize), v: Vec<(String, usize)>) -> (r: Vec<(String, usize)>)
    ensures
        r@ == insert_stat(x, v@),
    decreases v@.len(),
{
    let ghost orig = v@;
    let mut w: Vec<(String, usize)> = v;
    if w.len() == 0 {
        let mut out: Vec<(String, usize)> = Vec::new();
        out.push(x);
        proof {
            assert(out@ =~= insert_stat(x, orig));
        }
        out
    } else if stat_before_exec(&x, &w[0]) {
        w.insert(0, x);
        proof {
            assert(w@ =~= seq![w@[0]] + orig);
            assert(w@ =~= insert_stat(w@[0], orig));
        }
        w
    } else {
        let head: (String, usize) = w.remove(0);
        proof {
            assert(w@ =~= orig.skip(1));
        }
        let mut out: Vec<(String, usize)> = insert_stat_exec(x, w);
        let ghost mid = out@;
        out.insert(0, head);
        proof {
            assert(out@ =~= seq![orig[0]] + mid);
            assert(out@ =~= insert_stat(x, orig));
        }
        out
    }
}

/// The per-file timeline.
pub struct Timeline {
    pub stats: EventStatistics,
}

impl Timeline {
    /// A fresh timeline with empty statistics.
    pub fn new() -> (t: Timeline)
        ensures
            t.stats.total == 0,
            t.stats.filepath@ == Seq::<char>::empty(),
            t.stats.start_time@ == Seq::<char>::empty(),
            t.stats.end_time@ == Seq::<char>::empty(),
            t.stats.stats_list@ == Seq::<(String, usize)>::empty(),
            t.stats.stats_login_list@ == Seq::<(String, LogonTally)>::empty(),
            t.stats.success_id@ == "4624"@,
            t.stats.failure_id@ == "4625"@,
            t.stats.times_wf(),
    {
        let totalcnt: usize = 0;
        let filepath: String = String::new();
        let starttm: String = String::new();
        let endtm: String = String::new();
        let statslst: Vec<(String, usize)> = Vec::new();
        let statsloginlst: Vec<(String, LogonTally)> = Vec::new();
        let statistic: EventStatistics = EventStatistics::new(
            totalcnt,
            filepath,
            starttm,
            endtm,
            statslst,
            statsloginlst,
        );
        Timeline { stats: statistic }
    }

    /// Takes one prepared batch into the statistics.
    pub fn start(&mut self, records: &Vec<PreparedRecord>)
        requires
            old(self).stats.total + records@.len() <= usize::MAX,
            hist_sum(old(self).stats.hist()) + records@.len() <= usize::MAX,
            login_sum(old(self).stats.logins()) + records@.len() <= usize::MAX,
        ensures
            final(self).stats.total == old(self).stats.total + records@.len(),
            final(self).stats.start_time@ == min_ts(old(self).stats.start_time@, records@),
            final(self).stats.end_time@ == max_ts(old(self).stats.end_time@, records@),
            final(self).stats.filepath@ == if records@.len() > 0 {
                records@[0].evtx_filepath@
            } else {
                old(self).stats.filepath@
            },
            final(self).stats.hist() == hist_after(old(self).stats.hist(), recs_of(records@)),
            final(self).stats.logins() == login_after(
                old(self).stats.logins(),
                recs_of(records@),
                old(self).stats.success_id@,
                old(self).stats.failure_id@,
            ),
            final(self).stats.success_id == old(self).stats.success_id,
            final(self).stats.failure_id == old(self).stats.failure_id,
            old(self).stats.times_wf() ==> final(self).stats.times_wf(),
    {
        proof {
            if old(self).stats.times_wf() {
                lemma_time_bounds(
                    old(self).stats.start_time@,
                    old(self).stats.end_time@,
                    records@,
                );
            }
        }
        self.stats.start(records);
    }

    /// The histogram rows in display order: count descending, ties by
    /// identifier ascending.
    #[verifier::loop_isolation(false)]
    pub fn sorted_stats(&self) -> (r: Vec<(String, usize)>)
        ensures
            r@ == sort_stats(self.stats.stats_list@),
    {
        let src: &Vec<(String, usize)> = &self.stats.stats_list;
        let n: usize = src.len();
        let mut out: Vec<(String, usize)> = Vec::new();
        let mut i: usize = 0;
        proof {
            assert(src@.take(0) =~= Seq::<(String, usize)>::empty());
        }
        while i < n
            invariant
                i <= n,
                n == src@.len(),
                out@ == sort_stats(src@.take(i as int)),
            decreases n - i,
        {
            let row: (String, usize) = (src[i].0.clone(), src[i].1);
            proof {
                assert(row == src@[i as int]);
                assert(src@.take(i + 1).drop_last() =~= src@.take(i as int));
                assert(src@.take(i + 1).last() == src@[i as int]);
            }
            out = insert_stat_exec(row, out);
            i = i + 1;
        }
        proof {
            assert(src@.take(n as int) =~= src@);
        }
        out
    }

    /// Renders one identifier-table row per histogram row handed in, in that
    /// order, with the closing separator: count, share of the total to one
    /// decimal, identifier, and the table's title and detection flag.
    #[verifier::loop_isolation(false)]
    pub fn tm_stats_set_msg(
        &self,
        mapsorted: &Vec<(String, usize)>,
        event_info: &Vec<(String, EventInfo)>,
    ) -> (r: Vec<String>)
        requires
            mapsorted@.len() > 0 ==> self.stats.total >= 1,
            forall|i: int|
                0 <= i < mapsorted@.len() ==> (#[trigger] mapsorted@[i]).1 <= self.stats.total,
        ensures
            r@.map_values(|s: String| s@) == stat_lines(
                hist_views(mapsorted@),
                self.stats.total as int,
                event_info@,
            ).push(sep_line()),
    {
        let total: usize = self.stats.total;
        let mut out: Vec<String> = Vec::new();
        let n: usize = mapsorted.len();
        let mut i: usize = 0;
        proof {
            assert(hist_views(mapsorted@.take(0)) =~= Seq::<(Seq<char>, int)>::empty());
            assert(out@.map_values(|s: String| s@) =~= stat_lines(
                hist_views(mapsorted@.take(0)),
                total as int,
                event_info@,
            ));
        }
        while i < n
            invariant
                i <= n,
                n == mapsorted@.len(),
                out@.map_values(|s: String| s@) == stat_lines(
                    hist_views(mapsorted@.take(i as int)),
                    total as int,
                    event_info@,
                ),
            decreases n - i,
        {
            let cnt: usize = mapsorted[i].1;
            let id: &String = &mapsorted[i].0;
            let big: u128 = (2000u128 * (cnt as u128) + (total as u128)) / (2u128 * (total
                as u128));
            proof {
                let c = cnt as int;
                let t = total as int;
                assert(big as int == permille_of(c, t));
                vstd::arithmetic::div_mod::lemma_div_pos_is_pos(2000 * c + t, 2 * t);
                vstd::arithmetic::div_mod::lemma_div_is_ordered(2000 * c + t, 2001 * t, 2 * t);
                vstd::arithmetic::div_mod::lemma_fundamental_div_mod_converse(
                    2001 * t,
                    2 * t,
                    1000,
                    t,
                );
                assert(permille_of(c, t) <= 1000);
                assert(permille_of(c, t) >= 0);
            }
            let p: u64 = big as u64;
            let mut line: String = u64_to_string(cnt as u64);
            proof {
                reveal_strlit(" (");
                reveal_strlit(".");
                reveal_strlit("%)\t");
                reveal_strlit("\t");
                reveal_strlit("Unknown");
            }
            line.append(" (");
            let whole: String = u64_to_string(p / 10);
            line.append(whole.as_str());
            line.append(".");
            let tenth: String = u64_to_string(p % 10);
            line.append(tenth.as_str());
            line.append("%)\t");
            line.append(id.as_str());
            line.append("\t");
            let mut title: String = String::from_str("Unknown");
            let mut flg: String = String::new();
            let m: usize = event_info.len();
            let mut j: usize = 0;
            let mut found: bool = false;
            proof {
                assert(event_info@.skip(0) =~= event_info@);
            }
            while j < m
                invariant
                    j <= m,
                    m == event_info@.len(),
                    !found ==> info_lookup(event_info@, id@) == info_lookup(
                        event_info@.skip(j as int),
                        id@,
                    ),
                    !found ==> title@ == "Unknown"@ && flg@ == Seq::<char>::empty(),
                    found ==> match info_lookup(event_info@, id@) {
                        Some(info) => title@ == info.evttitle@ && flg@ == info.detectflg@,
                        None => false,
                    },
                decreases m - j,
            {
                proof {
                    assert(event_info@.skip(j as int)[0] == event_info@[j as int]);
                    assert(event_info@.skip(j as int).skip(1) =~= event_info@.skip(j + 1));
                }
                if !found && event_info[j].0 == *id {
                    title = event_info[j].1.evttitle.clone();
                    flg = event_info[j].1.detectflg.clone();
                    found = true;
                }
                j = j + 1;
            }
            proof {
                assert(event_info@.skip(m as int) =~= Seq::<(String, EventInfo)>::empty());
            }
            line.append(title.as_str());
            line.append("\t");
            line.append(flg.as_str());
            let ghost before = out@;
            out.push(line);
            proof {
                assert(hist_views(mapsorted@.take(i + 1)).drop_last() =~= hist_views(
                    mapsorted@.take(i as int),
                ));
                assert(hist_views(mapsorted@.take(i + 1)).last() == (id@, cnt as int));
                assert(out@.map_values(|s: String| s@) =~= before.map_values(
                    |s: String| s@,
                ).push(line@));
                assert(line@ =~= (match info_lookup(event_info@, id@) {
                    Some(info) => stat_line(
                        cnt as int,
                        total as int,
                        id@,
                        info.evttitle@,
                        info.detectflg@,
                    ),
                    None => stat_line(cnt as int, total as int, id@, "Unknown"@, Seq::empty()),
                }));
                assert(out@.map_values(|s: String| s@) =~= stat_lines(
                    hist_views(mapsorted@.take(i + 1)),
                    total as int,
                    event_info@,
                ));
            }
            i = i + 1;
        }
        proof {
            assert(mapsorted@.take(n as int) =~= mapsorted@);
            reveal_strlit("-----------------------------------------------------------------");
        }
        let ghost before = out@;
        out.push(String::from_str("-----------------------------------------------------------------"));
        proof {
            assert(out@.map_values(|s: String| s@) =~= before.map_values(|s: String| s@).push(
                sep_line(),
            ));
        }
        out
    }

    /// Renders one logon-table row per user, in row order, with the closing
    /// separator: user, failed count, successful count.
    #[verifier::loop_isolation(false)]
    pub fn tm_loginstats_set_msg(&self) -> (r: Vec<String>)
        ensures
            r@.map_values(|s: String| s@) == login_lines(login_views(self.stats.stats_login_list@))
                .push(sep_line()),
    {
        let rows: &Vec<(String, LogonTally)> = &self.stats.stats_login_list;
        let mut out: Vec<String> = Vec::new();
        let n: usize = rows.len();
        let mut i: usize = 0;
        proof {
            assert(login_views(rows@.take(0)) =~= Seq::<(Seq<char>, int, int)>::empty());
            assert(out@.map_values(|s: String| s@) =~= login_lines(login_views(rows@.take(0))));
        }
        while i < n
            invariant
                i <= n,
                n == rows@.len(),
                out@.map_values(|s: String| s@) == login_lines(login_views(rows@.take(i as int))),
            decreases n - i,
        {
            proof {
                reveal_strlit("\t\t\t\t");
            }
            let mut line: String = rows[i].0.clone();
            line.append("\t\t\t\t");
            let failed: String = u64_to_string(rows[i].1.failed as u64);
            line.append(failed.as_str());
            line.append("\t\t\t\t");
            let succeeded: String = u64_to_string(rows[i].1.succeeded as u64);
            line.append(succeeded.as_str());
            let ghost before = out@;
            out.push(line);
            proof {
                assert(login_views(rows@.take(i + 1)).drop_last() =~= login_views(
                    rows@.take(i as int),
                ));
                assert(login_views(rows@.take(i + 1)).last() == (
                    rows@[i as int].0@,
                    rows@[i as int].1.failed as int,
                    rows@[i as int].1.succeeded as int,
                ));
                assert(line@ =~= login_line(
                    rows@[i as int].0@,
                    rows@[i as int].1.failed as int,
                    rows@[i as int].1.succeeded as int,
                ));
                assert(out@.map_values(|s: String| s@) =~= before.map_values(
                    |s: String| s@,
                ).push(line@));
                assert(out@.map_values(|s: String| s@) =~= login_lines(
                    login_views(rows@.take(i + 1)),
                ));
            }
            i = i + 1;
        }
        proof {
            assert(rows@.take(n as int) =~= rows@);
            reveal_strlit("-----------------------------------------------------------------");
        }
        let ghost before = out@;
        out.push(String::from_str("-----------------------------------------------------------------"));
        proof {
            assert(out@.map_values(|s: String| s@) =~= before.map_values(|s: String| s@).push(
                sep_line(),
            ));
        }
        out
    }
}

} // verus!
