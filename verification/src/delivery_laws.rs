//! What holds of a whole delivery: what becomes of a change, of the process it
//! was sent to and of what is pending, whatever happens on the way.

use vstd::prelude::*;

use crate::delivery::{
    Ask, At, Delivered, Fresh, FreshAct, FreshNews, FreshStep, Live, News, Reindexed, Sent, next_fresh,
    next_step, without,
};

verus! {

/// A delivery under way: the process and what is pending, where it stands, and
/// what it has asked for so far.
pub struct Course {
    pub live: Live,
    pub at: At,
    pub asks: Seq<Ask>,
}

/// What one report makes of a delivery.
pub open spec fn hears(c: Course, file: Seq<char>, news: News) -> Course {
    match next_step(c.live, file, c.at, news) {
        Some((live, at, ask)) => Course { live, at, asks: c.asks.push(ask) },
        None => c,
    }
}

/// What these reports make of a delivery, one after the other.
pub open spec fn hears_all(c: Course, file: Seq<char>, news: Seq<News>) -> Course
    decreases news.len(),
{
    if news.len() == 0 {
        c
    } else {
        hears_all(hears(c, file, news[0]), file, news.drop_first())
    }
}

/// A change that has just been sent.
pub open spec fn sent(p: Live, file: Seq<char>) -> Course {
    Course { live: p, at: At::Sending, asks: seq![Ask::Send(file)] }
}

proof fn lemma_hears(c: Course, file: Seq<char>, first: News, rest: Seq<News>)
    ensures
        hears_all(c, file, seq![first] + rest) == hears_all(hears(c, file, first), file, rest),
{
    assert((seq![first] + rest).drop_first() =~= rest);
}

// ---------------------------------------------------------------------------
// What is pending
// ---------------------------------------------------------------------------
/// Taking a change out of what is pending takes out exactly that one, and
/// keeps the others in their order.
pub proof fn only_the_change_itself_is_taken_out(a: Seq<Seq<char>>, b: Seq<Seq<char>>, file: Seq<char>)
    ensures
        without(a + b, file) == without(a, file) + without(b, file),
        without(seq![file], file) == Seq::<Seq<char>>::empty(),
        forall|other: Seq<char>| other != file ==> #[trigger] without(seq![other], file) == seq![other],
        !a.contains(file) ==> without(a, file) == a,
    decreases b.len(),
{
    reveal_with_fuel(without, 2);
    assert(seq![file].drop_last() =~= seq![]);
    assert forall|other: Seq<char>| other != file implies #[trigger] without(seq![other], file) == seq![
        other,
    ] by {
        assert(seq![other].drop_last() =~= seq![]);
        assert(without(seq![other], file) =~= seq![other]);
    }
    if b.len() == 0 {
        assert(a + b =~= a);
        assert(without(a, file) + without(b, file) =~= without(a, file));
    } else {
        assert((a + b).drop_last() =~= a + b.drop_last());
        only_the_change_itself_is_taken_out(a, b.drop_last(), file);
        assert(without(a + b, file) =~= without(a, file) + without(b, file));
    }
    lemma_untouched(a, file);
}

proof fn lemma_untouched(a: Seq<Seq<char>>, file: Seq<char>)
    ensures
        !a.contains(file) ==> without(a, file) == a,
    decreases a.len(),
{
    if a.len() > 0 && !a.contains(file) {
        assert(a.last() == a[a.len() - 1]);
        assert(!a.drop_last().contains(file)) by {
            if a.drop_last().contains(file) {
                let k = choose|k: int| 0 <= k < a.drop_last().len() && a.drop_last()[k] == file;
                assert(a[k] == file);
            }
        }
        lemma_untouched(a.drop_last(), file);
        assert(without(a, file) =~= a);
    }
}

proof fn lemma_first_out(ps: Seq<Seq<char>>)
    requires
        ps.len() > 0,
        ps.no_duplicates(),
    ensures
        without(ps, ps[0]) == ps.drop_first(),
        ps.drop_first().no_duplicates(),
{
    let rest = ps.drop_first();
    assert(ps =~= seq![ps[0]] + rest);
    only_the_change_itself_is_taken_out(seq![ps[0]], rest, ps[0]);
    assert(!rest.contains(ps[0])) by {
        if rest.contains(ps[0]) {
            let k = choose|k: int| 0 <= k < rest.len() && rest[k] == ps[0];
            assert(ps[k + 1] == ps[0]);
        }
    }
    lemma_untouched(rest, ps[0]);
    assert(seq![] + rest =~= rest);
    assert forall|i: int, j: int| 0 <= i < rest.len() && 0 <= j < rest.len() && i != j implies rest[i]
        != rest[j] by {
        assert(rest[i] == ps[i + 1] && rest[j] == ps[j + 1]);
    }
}

// ---------------------------------------------------------------------------
// A delivery
// ---------------------------------------------------------------------------
/// A change that is committed is taken out of what is pending, and nothing else
/// is asked for.
pub proof fn a_committed_change_is_done_with(p: Live, file: Seq<char>, sent_to: u32)
    ensures
        ({
            let c = hears_all(
                sent(p, file),
                file,
                seq![News::SendEnded { sent_to, result: Sent::Committed }],
            );
            &&& c.asks == seq![Ask::Send(file), Ask::Finish(Delivered::Committed)]
            &&& c.live == Live { pid: p.pid, pending: without(p.pending, file) }
        }),
{
    reveal_with_fuel(hears_all, 3);
}

/// A change that timed out stays pending. The process is replaced only if it is
/// gone; and if it cannot be, that is what the delivery comes to.
pub proof fn a_timed_out_change_stays_pending(
    p: Live,
    file: Seq<char>,
    sent_to: u32,
    current: u32,
    pid: Option<u32>,
)
    ensures
        ({
            let timed_out = News::SendEnded { sent_to, result: Sent::TimedOut };
            let alive = hears_all(
                sent(p, file),
                file,
                seq![timed_out, News::ExitChecked { exited: false, current }],
            );
            let gone = hears_all(
                sent(p, file),
                file,
                seq![timed_out, News::ExitChecked { exited: true, current }, News::Relaunched { pid }],
            );
            &&& alive.asks == seq![
                Ask::Send(file),
                Ask::CheckExited,
                Ask::Finish(Delivered::TimedOut),
            ]
            &&& alive.live == p
            &&& gone.asks == seq![
                Ask::Send(file),
                Ask::CheckExited,
                Ask::Relaunch,
                Ask::Finish(
                    if pid is Some {
                        Delivered::TimedOut
                    } else {
                        Delivered::RelaunchFailed
                    },
                ),
            ]
            &&& gone.live == Live {
                pid: if pid is Some {
                    pid->0
                } else {
                    p.pid
                },
                pending: p.pending,
            }
        }),
{
    reveal_with_fuel(hears_all, 4);
}

/// A change that a process answered, and is still there and still the same, was
/// refused: it is dropped, the process is replaced, and the delivery comes to
/// that whether or not it could be.
pub proof fn a_refused_change_is_given_up(p: Live, file: Seq<char>, sent_to: u32, pid: Option<u32>)
    ensures
        ({
            let c = hears_all(
                sent(p, file),
                file,
                seq![
                    News::SendEnded { sent_to, result: Sent::Failed },
                    News::ExitChecked { exited: false, current: sent_to },
                    News::Relaunched { pid },
                ],
            );
            &&& c.asks == seq![
                Ask::Send(file),
                Ask::CheckExited,
                Ask::Relaunch,
                Ask::Finish(Delivered::Refused),
            ]
            &&& c.live == Live {
                pid: if pid is Some {
                    pid->0
                } else {
                    p.pid
                },
                pending: without(p.pending, file),
            }
        }),
{
    reveal_with_fuel(hears_all, 4);
}

/// That a change was committed, as often as this.
pub open spec fn commits(n: nat, sent_to: u32) -> Seq<News> {
    Seq::new(n, |i: int| News::SendEnded { sent_to, result: Sent::Committed })
}

/// All of these changes, to be sent.
pub open spec fn each_sent(files: Seq<Seq<char>>) -> Seq<Ask> {
    Seq::new(files.len(), |i: int| Ask::Send(files[i]))
}

/// Whether a delivery has turned to the first of what is pending, or is over
/// where nothing is.
spec fn has_turned(c: Course, asked: Seq<Ask>) -> bool {
    if c.live.pending.len() == 0 {
        c.at == At::Over && c.asks == asked.push(Ask::Finish(Delivered::Committed))
    } else {
        c.at == At::Replaying(c.live.pending[0]) && c.asks == asked.push(Ask::Send(c.live.pending[0]))
    }
}

proof fn lemma_replay(c: Course, asked: Seq<Ask>, file: Seq<char>, n: nat, sent_to: u32, rest: Seq<News>)
    requires
        has_turned(c, asked),
        c.live.pending.no_duplicates(),
        n <= c.live.pending.len(),
    ensures
        exists|d: Course|
            #![trigger hears_all(d, file, rest)]
            {
                &&& hears_all(c, file, commits(n, sent_to) + rest) == hears_all(d, file, rest)
                &&& has_turned(d, asked + each_sent(c.live.pending.take(n as int)))
                &&& d.live == Live { pending: c.live.pending.skip(n as int), ..c.live }
            },
    decreases n,
{
    let ps = c.live.pending;
    if n == 0 {
        assert(commits(n, sent_to) + rest =~= rest);
        assert(asked + each_sent(ps.take(0)) =~= asked);
        assert(ps.skip(0) =~= ps);
        assert(hears_all(c, file, commits(n, sent_to) + rest) == hears_all(c, file, rest));
    } else {
        let news = commits(n, sent_to) + rest;
        let one = News::SendEnded { sent_to, result: Sent::Committed };
        let more = commits((n - 1) as nat, sent_to) + rest;
        assert(news =~= seq![one] + more);
        lemma_hears(c, file, one, more);
        lemma_first_out(ps);
        let next = hears(c, file, one);
        let done = asked.push(Ask::Send(ps[0]));
        assert(next.live == Live { pending: ps.drop_first(), ..c.live });
        assert(has_turned(next, done));
        lemma_replay(next, done, file, (n - 1) as nat, sent_to, rest);
        let d = choose|d: Course|
            #![trigger hears_all(d, file, rest)]
            {
                &&& hears_all(next, file, more) == hears_all(d, file, rest)
                &&& has_turned(d, done + each_sent(next.live.pending.take(n - 1)))
                &&& d.live == Live { pending: next.live.pending.skip(n - 1), ..next.live }
            };
        assert(done + each_sent(ps.drop_first().take(n - 1)) =~= asked + each_sent(ps.take(n as int)));
        assert(ps.drop_first().skip(n - 1) =~= ps.skip(n as int));
        assert(hears_all(c, file, news) == hears_all(d, file, rest));
    }
}

/// The reports of a change whose process crashed, was found gone and was
/// replaced.
pub open spec fn crashed(sent_to: u32, current: u32, fresh: u32) -> Seq<News> {
    seq![
        News::SendEnded { sent_to, result: Sent::Failed },
        News::ExitChecked { exited: true, current },
        News::Relaunched { pid: Some(fresh) },
    ]
}

proof fn lemma_crashed(p: Live, file: Seq<char>, sent_to: u32, current: u32, fresh: u32, rest: Seq<News>)
    ensures
        exists|c: Course|
            #![trigger hears_all(c, file, rest)]
            {
                &&& hears_all(sent(p, file), file, crashed(sent_to, current, fresh) + rest) == hears_all(
                    c,
                    file,
                    rest,
                )
                &&& has_turned(c, seq![Ask::Send(file), Ask::CheckExited, Ask::Relaunch])
                &&& c.live == Live { pid: fresh, pending: p.pending }
            },
{
    let n1 = News::SendEnded { sent_to, result: Sent::Failed };
    let n2 = News::ExitChecked { exited: true, current };
    let n3 = News::Relaunched { pid: Some(fresh) };
    let all = crashed(sent_to, current, fresh) + rest;
    let r3 = seq![n3] + rest;
    let r2 = seq![n2] + r3;
    assert(all =~= seq![n1] + r2);
    let c0 = sent(p, file);
    let c1 = hears(c0, file, n1);
    let c2 = hears(c1, file, n2);
    let c3 = hears(c2, file, n3);
    lemma_hears(c0, file, n1, r2);
    lemma_hears(c1, file, n2, r3);
    lemma_hears(c2, file, n3, rest);
    let asked = seq![Ask::Send(file), Ask::CheckExited, Ask::Relaunch];
    assert(c2.asks =~= asked);
    assert(has_turned(c3, asked));
    assert(hears_all(c0, file, all) == hears_all(c3, file, rest));
}

/// After a crash the fresh process is sent everything that is pending, oldest
/// first and each once; where all of it is committed, nothing is pending any
/// more and the delivery succeeds. Where one of them times out or fails, the
/// delivery comes to that, and this one and those behind it stay pending.
pub proof fn everything_pending_is_sent_after_a_crash(
    p: Live,
    file: Seq<char>,
    sent_to: u32,
    current: u32,
    fresh: u32,
    n: nat,
    result: Sent,
)
    requires
        p.pending.no_duplicates(),
        n < p.pending.len(),
        result != Sent::Committed,
    ensures
        ({
            let asked = seq![Ask::Send(file), Ask::CheckExited, Ask::Relaunch];
            let all = hears_all(
                sent(p, file),
                file,
                crashed(sent_to, current, fresh) + commits(p.pending.len(), fresh),
            );
            let some = hears_all(
                sent(p, file),
                file,
                crashed(sent_to, current, fresh) + (commits(n, fresh) + seq![
                    News::SendEnded { sent_to: fresh, result },
                ]),
            );
            &&& all.asks == (asked + each_sent(p.pending)).push(Ask::Finish(Delivered::Committed))
            &&& all.live == Live { pid: fresh, pending: seq![] }
            &&& some.asks == (asked + each_sent(p.pending.take(n as int + 1))).push(
                Ask::Finish(
                    if result == Sent::TimedOut {
                        Delivered::ReplayTimedOut
                    } else {
                        Delivered::ReplayFailed
                    },
                ),
            )
            &&& some.live == Live { pid: fresh, pending: p.pending.skip(n as int) }
        }),
{
    let asked = seq![Ask::Send(file), Ask::CheckExited, Ask::Relaunch];
    let ps = p.pending;
    let whole = commits(ps.len(), fresh);
    let none = Seq::<News>::empty();
    lemma_crashed(p, file, sent_to, current, fresh, whole);
    let c = choose|c: Course|
        #![trigger hears_all(c, file, whole)]
        {
            &&& hears_all(sent(p, file), file, crashed(sent_to, current, fresh) + whole) == hears_all(
                c,
                file,
                whole,
            )
            &&& has_turned(c, asked)
            &&& c.live == Live { pid: fresh, pending: p.pending }
        };
    lemma_replay(c, asked, file, ps.len(), fresh, none);
    assert(whole + none =~= whole);
    assert(ps.take(ps.len() as int) =~= ps);
    assert(ps.skip(ps.len() as int) =~= seq![]);
    let bad = News::SendEnded { sent_to: fresh, result };
    let part = commits(n, fresh) + seq![bad];
    lemma_crashed(p, file, sent_to, current, fresh, part);
    let e = choose|e: Course|
        #![trigger hears_all(e, file, part)]
        {
            &&& hears_all(sent(p, file), file, crashed(sent_to, current, fresh) + part) == hears_all(
                e,
                file,
                part,
            )
            &&& has_turned(e, asked)
            &&& e.live == Live { pid: fresh, pending: p.pending }
        };
    lemma_replay(e, asked, file, n, fresh, seq![bad]);
    let d = choose|d: Course|
        #![trigger hears_all(d, file, seq![bad])]
        {
            &&& hears_all(e, file, part) == hears_all(d, file, seq![bad])
            &&& has_turned(d, asked + each_sent(ps.take(n as int)))
            &&& d.live == Live { pending: ps.skip(n as int), ..e.live }
        };
    lemma_hears(d, file, bad, none);
    assert(seq![bad] + none =~= seq![bad]);
    assert((asked + each_sent(ps.take(n as int))).push(Ask::Send(ps[n as int])) =~= asked + each_sent(
        ps.take(n as int + 1),
    ));
}

/// A change that failed with a process that is no longer the current one was
/// overtaken: nothing is replaced, and what is pending is sent to the one that
/// is there. A process that is gone and cannot be replaced leaves everything
/// pending.
pub proof fn an_overtaken_change_is_sent_with_the_others(
    p: Live,
    file: Seq<char>,
    sent_to: u32,
    current: u32,
)
    requires
        p.pending.no_duplicates(),
        current != sent_to,
    ensures
        ({
            let failed = News::SendEnded { sent_to, result: Sent::Failed };
            let overtaken = hears_all(
                sent(p, file),
                file,
                seq![failed, News::ExitChecked { exited: false, current }] + commits(
                    p.pending.len(),
                    current,
                ),
            );
            let lost = hears_all(
                sent(p, file),
                file,
                seq![failed, News::ExitChecked { exited: true, current }, News::Relaunched { pid: None }],
            );
            &&& overtaken.asks == (seq![Ask::Send(file), Ask::CheckExited] + each_sent(p.pending)).push(
                Ask::Finish(Delivered::Committed),
            )
            &&& overtaken.live == Live { pid: p.pid, pending: seq![] }
            &&& lost.asks == seq![
                Ask::Send(file),
                Ask::CheckExited,
                Ask::Relaunch,
                Ask::Finish(Delivered::RelaunchFailed),
            ]
            &&& lost.live == p
        }),
{
    let failed = News::SendEnded { sent_to, result: Sent::Failed };
    let checked = News::ExitChecked { exited: false, current };
    let ps = p.pending;
    let whole = commits(ps.len(), current);
    let none = Seq::<News>::empty();
    assert(seq![failed, checked] + whole =~= seq![failed] + (seq![checked] + whole));
    let c0 = sent(p, file);
    let c1 = hears(c0, file, failed);
    let c2 = hears(c1, file, checked);
    lemma_hears(c0, file, failed, seq![checked] + whole);
    lemma_hears(c1, file, checked, whole);
    let asked = seq![Ask::Send(file), Ask::CheckExited];
    assert(c1.asks =~= asked);
    lemma_replay(c2, asked, file, ps.len(), current, none);
    assert(whole + none =~= whole);
    assert(ps.take(ps.len() as int) =~= ps);
    assert(ps.skip(ps.len() as int) =~= seq![]);
    reveal_with_fuel(hears_all, 4);
}

// ---------------------------------------------------------------------------
// A query
// ---------------------------------------------------------------------------
/// What a query's reindex comes to, and whether the process is replaced over
/// it: it is where the process did not answer in time, or where it answered,
/// is still the same and still there, and the index did not take the answer;
/// in no other case. The query gets what the reindex came to, whether or not
/// the process could be replaced.
pub proof fn a_query_replaces_a_process_that_misbehaved(
    p: Live,
    asked: u32,
    current: u32,
    result: Reindexed,
    exited: bool,
    pid: Option<u32>,
)
    ensures
        ({
            let heard = next_fresh(p, FreshStep::Reindexing, FreshNews::Reindexed { asked, current, result });
            let told = FreshAct::Finish { outcome: Fresh::Asked(result) };
            let checks = result == Reindexed::NotTaken && asked == current;
            let (q, at, act) = heard->0;
            let then = next_fresh(q, at, FreshNews::ExitChecked { exited });
            let replaced = next_fresh(q, at, FreshNews::Relaunched { pid });
            &&& heard is Some
            &&& q == p
            &&& act == FreshAct::CheckExited <==> checks
            &&& act == FreshAct::Relaunch <==> result == Reindexed::TimedOut
            &&& !checks && result != Reindexed::TimedOut ==> act == told
            &&& checks ==> then is Some && (then->0).0 == p && (then->0).2 == (if exited {
                told
            } else {
                FreshAct::Relaunch
            })
            &&& checks && !exited ==> next_fresh(p, (then->0).1, FreshNews::Relaunched { pid }) is Some && (
            next_fresh(p, (then->0).1, FreshNews::Relaunched { pid })->0).2 == told && (next_fresh(
                p,
                (then->0).1,
                FreshNews::Relaunched { pid },
            )->0).0 == Live {
                pid: if pid is Some {
                    pid->0
                } else {
                    p.pid
                },
                pending: p.pending,
            }
            &&& result == Reindexed::TimedOut ==> replaced is Some && (replaced->0).2 == told && (replaced->0).0
                == Live {
                pid: if pid is Some {
                    pid->0
                } else {
                    p.pid
                },
                pending: p.pending,
            }
        }),
{
}

} // verus!
