use g_mesh::delivery::{
    end_poll, process_has_exited, relaunch_after_timeout_if_needed, Act, Delivered, Delivery, Fresh, FreshAct,
    FreshNews, FreshStep, News, PluginProcess, Poll, Reindexed, Sent, RELAUNCH_GRACE,
};
use g_mesh::path::PathStyle;
use g_mesh::plugin::RoundTripTimeouts;
use g_mesh::supervisor::Applied;
use g_mesh::time::{from_millis, from_secs};

fn process() -> PluginProcess {
    PluginProcess::spawn(10, "/state/plugin-go.pid".to_string(), PathStyle::Unix, RoundTripTimeouts::default())
}

fn begin(process: &mut PluginProcess, file: &str) -> Delivery {
    let (delivery, act) = process.apply_file_change(file.to_string());
    assert!(matches!(act, Act::Send { file: f } if f == file));
    delivery
}

fn outcome(act: Option<Act>) -> Delivered {
    match act {
        Some(Act::Finish { outcome }) => outcome,
        other => panic!("expected the end, got {other:?}"),
    }
}

fn ended(sent_to: u32, result: Sent) -> News {
    News::SendEnded { sent_to, result }
}

#[test]
fn a_committed_change_is_not_pending_any_more() {
    let mut plugin = process();
    let mut delivery = begin(&mut plugin, "a");
    assert_eq!(plugin.pending, vec!["a".to_string()]);
    assert_eq!(outcome(plugin.deliver(&mut delivery, ended(10, Sent::Committed))), Delivered::Committed);
    assert!(plugin.pending.is_empty());
    assert!(plugin.deliver(&mut delivery, ended(10, Sent::Committed)).is_none(), "it is over");
}

#[test]
fn a_storage_failure_behind_a_live_plugin_is_returned_and_the_relaunch_lets_the_next_apply_land() {
    let mut plugin = process();
    let mut delivery = begin(&mut plugin, "lib.ts");
    assert!(matches!(plugin.deliver(&mut delivery, ended(10, Sent::Failed)), Some(Act::CheckExited)));
    let alive = News::ExitChecked { exited: false, current: 10 };
    assert!(matches!(plugin.deliver(&mut delivery, alive), Some(Act::Relaunch)));
    assert!(plugin.pending.is_empty(), "nothing is left queued for a later replay");
    let fresh = News::Relaunched { pid: Some(11) };
    assert_eq!(outcome(plugin.deliver(&mut delivery, fresh)), Delivered::Refused);
    assert_eq!(plugin.pid(), 11, "the plugin holding the refused text must have been relaunched");

    let mut next = begin(&mut plugin, "lib.ts");
    assert_eq!(outcome(plugin.deliver(&mut next, ended(11, Sent::Committed))), Delivered::Committed);
}

#[test]
fn a_refusal_is_returned_even_where_the_relaunch_fails() {
    let mut plugin = process();
    let mut delivery = begin(&mut plugin, "lib.ts");
    plugin.deliver(&mut delivery, ended(10, Sent::Failed));
    plugin.deliver(&mut delivery, News::ExitChecked { exited: false, current: 10 });
    assert_eq!(outcome(plugin.deliver(&mut delivery, News::Relaunched { pid: None })), Delivered::Refused);
    assert_eq!(plugin.pid(), 10);
}

#[test]
fn a_timeout_relaunches_and_leaves_the_change_pending() {
    let mut plugin = process();
    let mut delivery = begin(&mut plugin, "a");
    plugin.deliver(&mut delivery, ended(10, Sent::TimedOut));
    let gone = News::ExitChecked { exited: true, current: 10 };
    assert!(matches!(plugin.deliver(&mut delivery, gone), Some(Act::Relaunch)));
    assert_eq!(
        outcome(plugin.deliver(&mut delivery, News::Relaunched { pid: Some(11) })),
        Delivered::TimedOut
    );
    assert_eq!(plugin.pending, vec!["a".to_string()], "not sent again, and not forgotten");
    begin(&mut plugin, "a");
    assert_eq!(plugin.pending.len(), 1, "asking again adds nothing");
}

#[test]
fn a_timeout_whose_process_lingers_or_cannot_be_replaced_is_told_apart() {
    let mut plugin = process();
    let mut lingers = begin(&mut plugin, "a");
    plugin.deliver(&mut lingers, ended(10, Sent::TimedOut));
    assert_eq!(
        outcome(plugin.deliver(&mut lingers, News::ExitChecked { exited: false, current: 10 })),
        Delivered::TimedOut
    );
    let mut lost = begin(&mut plugin, "a");
    plugin.deliver(&mut lost, ended(10, Sent::TimedOut));
    plugin.deliver(&mut lost, News::ExitChecked { exited: true, current: 10 });
    assert_eq!(
        outcome(plugin.deliver(&mut lost, News::Relaunched { pid: None })),
        Delivered::RelaunchFailed
    );
}

#[test]
fn a_crash_is_replayed_from_the_first_pending_change_on() {
    let mut plugin = process();
    let mut timed_out = begin(&mut plugin, "old");
    plugin.deliver(&mut timed_out, ended(10, Sent::TimedOut));
    plugin.deliver(&mut timed_out, News::ExitChecked { exited: true, current: 10 });
    plugin.deliver(&mut timed_out, News::Relaunched { pid: Some(11) });

    let mut delivery = begin(&mut plugin, "new");
    plugin.deliver(&mut delivery, ended(11, Sent::Failed));
    plugin.deliver(&mut delivery, News::ExitChecked { exited: true, current: 11 });
    let first = plugin.deliver(&mut delivery, News::Relaunched { pid: Some(12) });
    assert!(matches!(first, Some(Act::Send { file }) if file == "old"));
    let second = plugin.deliver(&mut delivery, ended(12, Sent::Committed));
    assert!(matches!(second, Some(Act::Send { file }) if file == "new"));
    assert_eq!(outcome(plugin.deliver(&mut delivery, ended(12, Sent::Committed))), Delivered::Committed);
    assert!(plugin.pending.is_empty());
    assert_eq!(plugin.pid(), 12);
}

#[test]
fn a_process_that_another_caller_replaced_is_replayed_to_without_a_relaunch() {
    let mut plugin = process();
    let mut delivery = begin(&mut plugin, "a");
    plugin.deliver(&mut delivery, ended(10, Sent::Failed));
    let record = plugin.relaunch(13, 77);
    assert_eq!(record.contents, "13\n");
    assert_eq!(record.temporary, "/state/plugin-go.77.tmp");
    let replay = plugin.deliver(&mut delivery, News::ExitChecked { exited: false, current: 13 });
    assert!(matches!(replay, Some(Act::Send { file }) if file == "a"));
    assert_eq!(outcome(plugin.deliver(&mut delivery, ended(13, Sent::Failed))), Delivered::ReplayFailed);
    assert_eq!(plugin.pending, vec!["a".to_string()]);
}

#[test]
fn a_replay_that_times_out_is_a_timeout_to_the_supervisor() {
    let mut plugin = process();
    let mut delivery = begin(&mut plugin, "a");
    plugin.deliver(&mut delivery, ended(10, Sent::Failed));
    plugin.deliver(&mut delivery, News::ExitChecked { exited: true, current: 10 });
    plugin.deliver(&mut delivery, News::Relaunched { pid: Some(11) });
    let timed_out = outcome(plugin.deliver(&mut delivery, ended(11, Sent::TimedOut)));
    assert_eq!(timed_out, Delivered::ReplayTimedOut);
    assert_eq!(timed_out.applied(), Applied::TimedOut);
    assert_eq!(plugin.pending, vec!["a".to_string()]);
    assert_eq!(Delivered::TimedOut.applied(), Applied::TimedOut);
    assert_eq!(Delivered::Committed.applied(), Applied::Committed);
    for failed in [Delivered::Refused, Delivered::RelaunchFailed, Delivered::ReplayFailed] {
        assert_eq!(failed.applied(), Applied::Failed);
    }
}

#[test]
fn a_crash_that_cannot_be_recovered_from_is_told() {
    let mut plugin = process();
    let mut delivery = begin(&mut plugin, "a");
    plugin.deliver(&mut delivery, ended(10, Sent::Failed));
    plugin.deliver(&mut delivery, News::ExitChecked { exited: true, current: 10 });
    assert_eq!(
        outcome(plugin.deliver(&mut delivery, News::Relaunched { pid: None })),
        Delivered::RelaunchFailed
    );
}

fn reindexed(result: Reindexed) -> FreshNews {
    FreshNews::Reindexed { asked: 10, current: 10, result }
}

fn finished(result: Reindexed) -> Option<FreshAct> {
    Some(FreshAct::Finish { outcome: Fresh::Asked(result) })
}

#[test]
fn a_refused_query_time_reindex_relaunches_the_plugin_so_the_retry_applies_the_edit() {
    let mut plugin = process();
    let (mut step, act) = plugin.ensure_fresh(true);
    assert_eq!(act, FreshAct::Reindex);
    assert_eq!(plugin.freshen(&mut step, reindexed(Reindexed::NotTaken)), Some(FreshAct::CheckExited));
    assert_eq!(
        plugin.freshen(&mut step, FreshNews::ExitChecked { exited: false }),
        Some(FreshAct::Relaunch)
    );
    assert_eq!(
        plugin.freshen(&mut step, FreshNews::Relaunched { pid: Some(11) }),
        finished(Reindexed::NotTaken),
        "the refusal is what the query gets"
    );
    assert_eq!(plugin.pid(), 11, "the plugin holding the refused text must have been relaunched");
    assert_eq!(step, FreshStep::Over);
    assert_eq!(plugin.freshen(&mut step, reindexed(Reindexed::Done)), None, "it is over");

    let (mut retry, _) = plugin.ensure_fresh(true);
    assert_eq!(plugin.freshen(&mut retry, reindexed(Reindexed::Done)), finished(Reindexed::Done));
}

#[test]
fn a_reindex_that_did_not_come_back_replaces_the_process() {
    let mut plugin = process();
    let (mut step, _) = plugin.ensure_fresh(true);
    assert_eq!(plugin.freshen(&mut step, reindexed(Reindexed::TimedOut)), Some(FreshAct::Relaunch));
    assert_eq!(
        plugin.freshen(&mut step, FreshNews::Relaunched { pid: None }),
        finished(Reindexed::TimedOut)
    );
    assert_eq!(plugin.pid(), 10);
    assert!(relaunch_after_timeout_if_needed(Sent::TimedOut));
    assert!(!relaunch_after_timeout_if_needed(Sent::Failed));
}

#[test]
fn a_process_that_is_not_to_blame_is_left_alone() {
    let mut plugin = process();
    assert_eq!(
        plugin.ensure_fresh(false),
        (FreshStep::Over, FreshAct::Finish { outcome: Fresh::Already })
    );
    let (mut unreadable, _) = plugin.ensure_fresh(true);
    assert_eq!(plugin.freshen(&mut unreadable, reindexed(Reindexed::Failed)), finished(Reindexed::Failed));
    let (mut replaced, _) = plugin.ensure_fresh(true);
    let elsewhere = FreshNews::Reindexed { asked: 10, current: 11, result: Reindexed::NotTaken };
    assert_eq!(plugin.freshen(&mut replaced, elsewhere), finished(Reindexed::NotTaken));
    let (mut gone, _) = plugin.ensure_fresh(true);
    plugin.freshen(&mut gone, reindexed(Reindexed::NotTaken));
    assert_eq!(
        plugin.freshen(&mut gone, FreshNews::ExitChecked { exited: true }),
        finished(Reindexed::NotTaken)
    );
}

#[test]
fn a_process_is_looked_at_for_a_while_before_it_counts_as_alive() {
    assert_eq!(process_has_exited(true, 0), Poll::Exited);
    assert_eq!(process_has_exited(false, 0), Poll::LookAgainAfter { interval: from_millis(5) });
    assert_eq!(process_has_exited(false, from_millis(500)), Poll::StillRunning);
    assert_eq!(end_poll(false, 0, RELAUNCH_GRACE), Poll::LookAgainAfter { interval: from_millis(10) });
    assert_eq!(end_poll(false, from_secs(2), RELAUNCH_GRACE), Poll::StillRunning);
    assert_eq!(end_poll(true, from_secs(2), RELAUNCH_GRACE), Poll::Exited);
}

#[test]
fn requests_are_numbered_from_one_on() {
    let mut plugin = process();
    assert_eq!(plugin.next_request_id(), 1);
    assert_eq!(plugin.next_request_id(), 2);
    plugin.next_id = i64::MAX;
    assert_eq!(plugin.next_request_id(), i64::MAX);
    assert_eq!(plugin.next_request_id(), i64::MIN);
    assert_eq!(plugin.semantic_pass(1_000), from_secs(10_000));
}
