//! What holds of a whole run of semantic passes: what it asks for, and what it
//! reports, whatever becomes of each language.

use vstd::prelude::*;

use crate::semantic::{Failure, NOT_RUN_REASON, Outcome, Pass, Report, Stand, Wish, next_pass, turned};

verus! {

/// A run that is about to turn to the first language.
pub open spec fn beginning(once: bool, owed: Seq<Seq<char>>) -> Pass {
    Pass { once, owed, at: 0, step: Stand::Over, completed: seq![], failed: seq![] }
}

/// What a run asks for, report after report.
pub open spec fn wishes(p: Pass, reports: Seq<Report>) -> Seq<Wish>
    decreases reports.len(),
{
    if reports.len() == 0 {
        seq![]
    } else {
        match next_pass(p, reports[0]) {
            Some((q, wish)) => seq![wish] + wishes(q, reports.drop_first()),
            None => wishes(p, reports.drop_first()),
        }
    }
}

/// Where a run stands after these reports.
pub open spec fn pass_after(p: Pass, reports: Seq<Report>) -> Pass
    decreases reports.len(),
{
    if reports.len() == 0 {
        p
    } else {
        match next_pass(p, reports[0]) {
            Some((q, _)) => pass_after(q, reports.drop_first()),
            None => pass_after(p, reports.drop_first()),
        }
    }
}

/// What is recorded of a pass is settled by how the pass ended, and not by the
/// shutdown of a plugin that was started for it: its completion exactly where
/// it ran, the reason where it failed, and that it was not run where it was
/// not. Nothing is complete before that is recorded.
pub proof fn a_shutdown_changes_no_outcome(p: Pass, outcome: Outcome)
    ensures
        ({
            let language = p.owed[p.at as int];
            let lives_on = Pass { once: false, step: Stand::Asking, ..p };
            let of_one_pass = Pass { once: true, step: Stand::Asking, ..p };
            let told = next_pass(lives_on, Report::Asked(outcome));
            let down = next_pass(of_one_pass, Report::Asked(outcome));
            let told_after = next_pass((down->0).0, Report::ShutDown);
            &&& told is Some && down is Some && told_after is Some
            &&& (down->0).1 == Wish::Shutdown(language)
            &&& (told_after->0).1 == (told->0).1
            &&& (told_after->0).0 == Pass { once: true, ..(told->0).0 }
            &&& (told->0).1 == match outcome {
                Outcome::Ran => Wish::RecordCompletion(language),
                Outcome::NotRun => Wish::RecordReason(language, NOT_RUN_REASON@),
                Outcome::Failed(reason) => Wish::RecordReason(language, reason),
            }
            &&& (told->0).1 is RecordCompletion <==> outcome is Ran
            &&& (told->0).0.completed == p.completed
            &&& (told->0).0.failed == match outcome {
                Outcome::Failed(reason) => p.failed.push(Failure { language, reason }),
                _ => p.failed,
            }
        }),
        ({
            let language = p.owed[p.at as int];
            let told = next_pass(Pass { step: Stand::ShuttingDown(outcome), ..p }, Report::ShutDown);
            &&& told is Some
            &&& (told->0).1 is RecordCompletion <==> outcome is Ran
            &&& outcome is Ran ==> (told->0).1 == Wish::RecordCompletion(language)
            &&& outcome is NotRun ==> (told->0).1 == Wish::RecordReason(language, NOT_RUN_REASON@)
            &&& outcome is Failed ==> (told->0).1 == Wish::RecordReason(language, outcome->Failed_0)
        }),
{
}

/// What becomes of a language that owes a pass.
pub enum Fate {
    /// Its plugin could not be started.
    NotStarted(Seq<char>),
    /// Its pass ran, and that is recorded.
    Ran,
    /// Its pass ran, and that could not be recorded.
    Unrecorded(Seq<char>),
    /// It was not asked.
    NotRun,
    /// Its pass failed.
    Failed(Seq<char>),
}

/// How asking for the pass of a language with this fate ends.
pub open spec fn outcome_of(fate: Fate) -> Outcome {
    match fate {
        Fate::NotRun => Outcome::NotRun,
        Fate::Failed(why) => Outcome::Failed(why),
        _ => Outcome::Ran,
    }
}

/// What is reported of a language with this fate. `noted` is whether a reason
/// could be recorded.
pub open spec fn news_of(once: bool, fate: Fate, noted: Option<Seq<char>>) -> Seq<Report> {
    if fate is NotStarted {
        seq![Report::Spawned(Some(fate->NotStarted_0)), Report::Recorded(noted)]
    } else {
        (if once {
            seq![Report::Spawned(None), Report::Asked(outcome_of(fate)), Report::ShutDown]
        } else {
            seq![Report::Asked(outcome_of(fate))]
        }) + (match fate {
            Fate::Ran => seq![Report::Recorded(None)],
            Fate::Unrecorded(why) => seq![Report::Recorded(Some(why)), Report::Recorded(noted)],
            _ => seq![Report::Recorded(noted)],
        })
    }
}

/// What is to be asked for of a language with this fate.
pub open spec fn owed_to(once: bool, language: Seq<char>, fate: Fate) -> Seq<Wish> {
    if fate is NotStarted {
        seq![
            Wish::Spawn(language),
            Wish::RecordReason(
                language,
                "failed to start the "@ + language + " plugin: "@ + fate->NotStarted_0,
            ),
        ]
    } else {
        (if once {
            seq![Wish::Spawn(language), Wish::Ask(language), Wish::Shutdown(language)]
        } else {
            seq![Wish::Ask(language)]
        }) + (match fate {
            Fate::Ran => seq![Wish::RecordCompletion(language)],
            Fate::Unrecorded(why) => seq![
                Wish::RecordCompletion(language),
                Wish::RecordReason(language, why),
            ],
            Fate::NotRun => seq![Wish::RecordReason(language, NOT_RUN_REASON@)],
            Fate::Failed(why) => seq![Wish::RecordReason(language, why)],
            Fate::NotStarted(_) => seq![],
        })
    }
}

/// Why a language with this fate failed, if it did.
pub open spec fn failure_of(language: Seq<char>, fate: Fate) -> Seq<Failure> {
    match fate {
        Fate::NotStarted(why) => seq![
            Failure { language, reason: "failed to start the "@ + language + " plugin: "@ + why },
        ],
        Fate::Unrecorded(why) => seq![Failure { language, reason: why }],
        Fate::Failed(why) => seq![Failure { language, reason: why }],
        _ => seq![],
    }
}

/// What is reported of all these languages, one after the other.
pub open spec fn all_news(once: bool, fates: Seq<Fate>, noted: Option<Seq<char>>) -> Seq<Report>
    decreases fates.len(),
{
    if fates.len() == 0 {
        seq![]
    } else {
        all_news(once, fates.drop_last(), noted) + news_of(once, fates.last(), noted)
    }
}

/// What is to be asked for of all these languages, one after the other.
pub open spec fn all_owed(once: bool, languages: Seq<Seq<char>>, fates: Seq<Fate>) -> Seq<Wish>
    decreases fates.len(),
{
    if fates.len() == 0 {
        seq![]
    } else {
        all_owed(once, languages, fates.drop_last()) + owed_to(
            once,
            languages[fates.len() - 1],
            fates.last(),
        )
    }
}

/// The languages whose pass ran and is recorded, in their order.
pub open spec fn that_ran(languages: Seq<Seq<char>>, fates: Seq<Fate>) -> Seq<Seq<char>>
    decreases fates.len(),
{
    if fates.len() == 0 {
        seq![]
    } else if fates.last() is Ran {
        that_ran(languages, fates.drop_last()).push(languages[fates.len() - 1])
    } else {
        that_ran(languages, fates.drop_last())
    }
}

/// The languages that failed, with the reason, in their order.
pub open spec fn that_failed(languages: Seq<Seq<char>>, fates: Seq<Fate>) -> Seq<Failure>
    decreases fates.len(),
{
    if fates.len() == 0 {
        seq![]
    } else {
        that_failed(languages, fates.drop_last()) + failure_of(
            languages[fates.len() - 1],
            fates.last(),
        )
    }
}

proof fn lemma_one_after_the_other(p: Pass, a: Seq<Report>, b: Seq<Report>)
    ensures
        wishes(p, a + b) == wishes(p, a) + wishes(pass_after(p, a), b),
        pass_after(p, a + b) == pass_after(pass_after(p, a), b),
    decreases a.len(),
{
    if a.len() == 0 {
        assert(a + b =~= b);
        assert(wishes(p, a) + wishes(p, b) =~= wishes(p, b));
    } else {
        assert((a + b).drop_first() =~= a.drop_first() + b);
        match next_pass(p, a[0]) {
            Some((q, wish)) => {
                lemma_one_after_the_other(q, a.drop_first(), b);
                assert(wishes(p, a + b) =~= wishes(p, a) + wishes(pass_after(p, a), b));
            },
            None => {
                lemma_one_after_the_other(p, a.drop_first(), b);
            },
        }
    }
}

proof fn lemma_next(p: Pass, report: Report, rest: Seq<Report>)
    requires
        next_pass(p, report) is Some,
    ensures
        wishes(p, seq![report] + rest) == seq![(next_pass(p, report)->0).1] + wishes(
            (next_pass(p, report)->0).0,
            rest,
        ),
        pass_after(p, seq![report] + rest) == pass_after((next_pass(p, report)->0).0, rest),
{
    assert((seq![report] + rest).drop_first() =~= rest);
}

proof fn lemma_one(p: Pass, report: Report)
    requires
        next_pass(p, report) is Some,
    ensures
        wishes(p, seq![report]) == seq![(next_pass(p, report)->0).1],
        pass_after(p, seq![report]) == (next_pass(p, report)->0).0,
{
    lemma_next(p, report, seq![]);
    assert(seq![report] + Seq::<Report>::empty() =~= seq![report]);
    assert(seq![(next_pass(p, report)->0).1] + Seq::<Wish>::empty() =~= seq![
        (next_pass(p, report)->0).1,
    ]);
}

/// The run past the language at `p.at`.
spec fn past(p: Pass, fate: Fate) -> Pass {
    let language = p.owed[p.at as int];
    Pass {
        at: p.at + 1,
        completed: if fate is Ran {
            p.completed.push(language)
        } else {
            p.completed
        },
        failed: p.failed + failure_of(language, fate),
        ..p
    }
}

proof fn lemma_recorded(p: Pass, fate: Fate, noted: Option<Seq<char>>, q: Pass, first: Wish)
    requires
        !(fate is NotStarted),
        (q, first) == crate::semantic::concluded(p, outcome_of(fate)),
    ensures
        ({
            let end = turned(past(p, fate));
            let rest = match fate {
                Fate::Ran => seq![Report::Recorded(None)],
                Fate::Unrecorded(why) => seq![Report::Recorded(Some(why)), Report::Recorded(noted)],
                _ => seq![Report::Recorded(noted)],
            };
            let owed = match fate {
                Fate::Ran => seq![Wish::RecordCompletion(p.owed[p.at as int])],
                Fate::Unrecorded(why) => seq![
                    Wish::RecordCompletion(p.owed[p.at as int]),
                    Wish::RecordReason(p.owed[p.at as int], why),
                ],
                Fate::NotRun => seq![Wish::RecordReason(p.owed[p.at as int], NOT_RUN_REASON@)],
                Fate::Failed(why) => seq![Wish::RecordReason(p.owed[p.at as int], why)],
                Fate::NotStarted(_) => seq![],
            };
            &&& seq![first] + wishes(q, rest) == owed.push(end.1)
            &&& pass_after(q, rest) == end.0
        }),
{
    let end = turned(past(p, fate));
    match fate {
        Fate::Ran => {
            assert(past(p, fate).failed =~= p.failed);
            lemma_one(q, Report::Recorded(None));
            assert(seq![first] + seq![end.1] =~= seq![first].push(end.1));
        },
        Fate::Unrecorded(why) => {
            let then = (next_pass(q, Report::Recorded(Some(why)))->0).0;
            assert(past(p, fate).failed =~= then.failed);
            assert(seq![Report::Recorded(Some(why)), Report::Recorded(noted)] =~= seq![
                Report::Recorded(Some(why)),
            ] + seq![Report::Recorded(noted)]);
            lemma_next(q, Report::Recorded(Some(why)), seq![Report::Recorded(noted)]);
            lemma_one(then, Report::Recorded(noted));
        },
        _ => {
            assert(past(p, fate).failed =~= q.failed);
            lemma_one(q, Report::Recorded(noted));
            assert(seq![first] + seq![end.1] =~= seq![first].push(end.1));
        },
    }
}

proof fn lemma_language(p: Pass, fate: Fate, noted: Option<Seq<char>>)
    requires
        p.at < p.owed.len(),
        fate is NotStarted ==> p.once,
    ensures
        ({
            let now = turned(p);
            let end = turned(past(p, fate));
            let news = news_of(p.once, fate, noted);
            &&& seq![now.1] + wishes(now.0, news) == owed_to(p.once, p.owed[p.at as int], fate).push(end.1)
            &&& pass_after(now.0, news) == end.0
        }),
{
    let (now, first) = turned(p);
    let end = turned(past(p, fate));
    let news = news_of(p.once, fate, noted);
    let language = p.owed[p.at as int];
    if fate is NotStarted {
        let why = fate->NotStarted_0;
        let spawned = Report::Spawned(Some(why));
        let (then, second) = next_pass(now, spawned)->0;
        assert(then.failed =~= past(p, fate).failed);
        assert(news =~= seq![spawned] + seq![Report::Recorded(noted)]);
        lemma_next(now, spawned, seq![Report::Recorded(noted)]);
        lemma_one(then, Report::Recorded(noted));
        assert(seq![first] + wishes(now, news) =~= owed_to(p.once, language, fate).push(end.1));
    } else {
        let asked = Report::Asked(outcome_of(fate));
        let rest = match fate {
            Fate::Ran => seq![Report::Recorded(None)],
            Fate::Unrecorded(why) => seq![Report::Recorded(Some(why)), Report::Recorded(noted)],
            _ => seq![Report::Recorded(noted)],
        };
        if p.once {
            let spawned = Report::Spawned(None);
            let asking = (next_pass(now, spawned)->0).0;
            let going = (next_pass(asking, asked)->0).0;
            let (told, wish) = next_pass(going, Report::ShutDown)->0;
            let r3 = seq![Report::ShutDown] + rest;
            let r2 = seq![asked] + r3;
            assert(news =~= seq![spawned] + r2);
            lemma_next(now, spawned, r2);
            lemma_next(asking, asked, r3);
            lemma_next(going, Report::ShutDown, rest);
            lemma_recorded(going, fate, noted, told, wish);
            assert(turned(past(going, fate)) == turned(past(p, fate)));
            assert(wishes(going, r3) == seq![wish] + wishes(told, rest));
            assert(seq![first] + wishes(now, news) =~= seq![
                Wish::Spawn(language),
                Wish::Ask(language),
                Wish::Shutdown(language),
            ] + (seq![wish] + wishes(told, rest)));
            assert(seq![first] + wishes(now, news) =~= owed_to(p.once, language, fate).push(end.1));
        } else {
            let (told, wish) = next_pass(now, asked)->0;
            assert(news =~= seq![asked] + rest);
            lemma_next(now, asked, rest);
            lemma_recorded(now, fate, noted, told, wish);
            assert(turned(past(now, fate)) == turned(past(p, fate)));
            assert(seq![first] + wishes(now, news) =~= seq![Wish::Ask(language)] + (seq![wish] + wishes(
                told,
                rest,
            )));
            assert(seq![first] + wishes(now, news) =~= owed_to(p.once, language, fate).push(end.1));
        }
    }
}

proof fn lemma_languages(once: bool, owed: Seq<Seq<char>>, fates: Seq<Fate>, noted: Option<Seq<char>>)
    requires
        fates.len() <= owed.len(),
        forall|i: int| 0 <= i < fates.len() && (#[trigger] fates[i]) is NotStarted ==> once,
    ensures
        ({
            let now = turned(beginning(once, owed));
            let end = turned(
                Pass {
                    at: fates.len(),
                    completed: that_ran(owed, fates),
                    failed: that_failed(owed, fates),
                    ..beginning(once, owed)
                },
            );
            &&& seq![now.1] + wishes(now.0, all_news(once, fates, noted)) == all_owed(once, owed, fates).push(
                end.1,
            )
            &&& pass_after(now.0, all_news(once, fates, noted)) == end.0
        }),
    decreases fates.len(),
{
    let now = turned(beginning(once, owed));
    if fates.len() == 0 {
        assert(seq![now.1] + wishes(now.0, all_news(once, fates, noted)) =~= all_owed(once, owed, fates).push(
            now.1,
        ));
    } else {
        let before = fates.drop_last();
        assert forall|i: int| 0 <= i < before.len() && (#[trigger] before[i]) is NotStarted implies once by {
            assert(fates[i] is NotStarted);
        }
        lemma_languages(once, owed, before, noted);
        let p = Pass {
            at: before.len(),
            completed: that_ran(owed, before),
            failed: that_failed(owed, before),
            ..beginning(once, owed)
        };
        let q = Pass {
            at: fates.len(),
            completed: that_ran(owed, fates),
            failed: that_failed(owed, fates),
            ..beginning(once, owed)
        };
        let news = news_of(once, fates.last(), noted);
        assert(fates[fates.len() - 1] == fates.last());
        lemma_language(p, fates.last(), noted);
        assert(past(p, fates.last()) == q);
        let then = turned(p);
        lemma_one_after_the_other(now.0, all_news(once, before, noted), news);
        let w = wishes(now.0, all_news(once, before, noted));
        let v = wishes(then.0, news);
        let done = all_owed(once, owed, before);
        assert(seq![now.1] + (w + v) =~= (seq![now.1] + w) + v);
        assert(done.push(then.1) + v =~= done + (seq![then.1] + v));
        let more = owed_to(once, owed[before.len() as int], fates.last());
        assert(done + more.push(turned(q).1) =~= (done + more).push(turned(q).1));
    }
}

/// A run asks for every language's pass, in the order in which they are owed,
/// with plugins of one pass as with plugins that live on; what becomes of one
/// language changes nothing for another. In the end those are complete whose
/// pass ran and is recorded, and those have failed, with the reason, whose
/// plugin did not start, whose pass failed or could not be recorded; and the
/// project's record is brought up to date once.
pub proof fn each_language_gets_what_became_of_it(
    once: bool,
    owed: Seq<Seq<char>>,
    fates: Seq<Fate>,
    noted: Option<Seq<char>>,
)
    requires
        fates.len() == owed.len(),
        forall|i: int| 0 <= i < fates.len() && (#[trigger] fates[i]) is NotStarted ==> once,
    ensures
        ({
            let (start, first) = turned(beginning(once, owed));
            let reports = all_news(once, fates, noted) + seq![Report::Recorded(noted)];
            let end = pass_after(start, reports);
            &&& seq![first] + wishes(start, reports) == all_owed(once, owed, fates) + seq![
                Wish::Reconcile,
                Wish::Finish,
            ]
            &&& end.completed == that_ran(owed, fates)
            &&& end.failed == that_failed(owed, fates)
            &&& end.step is Over
        }),
{
    let (start, first) = turned(beginning(once, owed));
    let news = all_news(once, fates, noted);
    lemma_languages(once, owed, fates, noted);
    let last = pass_after(start, news);
    assert(last.step is Reconciling);
    lemma_one_after_the_other(start, news, seq![Report::Recorded(noted)]);
    lemma_one(last, Report::Recorded(noted));
    let done = all_owed(once, owed, fates);
    assert(seq![first] + (wishes(start, news) + seq![Wish::Finish]) =~= (seq![first] + wishes(start, news))
        + seq![Wish::Finish]);
    assert(done.push(Wish::Reconcile) + seq![Wish::Finish] =~= done + seq![Wish::Reconcile, Wish::Finish]);
}

/// A run in which every pass runs and is recorded ends with every language
/// complete, in the order in which they were owed, and with none that failed.
pub proof fn passes_that_all_run_are_all_complete(
    once: bool,
    owed: Seq<Seq<char>>,
    noted: Option<Seq<char>>,
)
    ensures
        ({
            let fates = Seq::new(owed.len(), |i: int| Fate::Ran);
            let reports = all_news(once, fates, noted) + seq![Report::Recorded(noted)];
            let end = pass_after(turned(beginning(once, owed)).0, reports);
            &&& end.completed == owed
            &&& end.failed == Seq::<Failure>::empty()
        }),
{
    let fates = Seq::new(owed.len(), |i: int| Fate::Ran);
    each_language_gets_what_became_of_it(once, owed, fates, noted);
    lemma_all_ran(owed, fates);
    assert(owed.take(fates.len() as int) =~= owed);
}

proof fn lemma_all_ran(owed: Seq<Seq<char>>, fates: Seq<Fate>)
    requires
        fates.len() <= owed.len(),
        forall|i: int| 0 <= i < fates.len() ==> (#[trigger] fates[i]) is Ran,
    ensures
        that_ran(owed, fates) == owed.take(fates.len() as int),
        that_failed(owed, fates) == Seq::<Failure>::empty(),
    decreases fates.len(),
{
    if fates.len() > 0 {
        assert(fates.last() == fates[fates.len() - 1]);
        lemma_all_ran(owed, fates.drop_last());
        assert(owed.take(fates.len() as int) =~= owed.take(fates.len() - 1).push(
            owed[fates.len() - 1],
        ));
    } else {
        assert(owed.take(0) =~= seq![]);
    }
}

} // verus!
