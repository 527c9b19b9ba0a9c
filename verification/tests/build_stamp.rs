use g_mesh::build_stamp::{describe, read, vintage, BuildStamp, Vintage};

fn stamp(exe: &str, mtime: i64) -> BuildStamp {
    stamp_with_plugin(exe, mtime, "0123456789abcdef")
}

fn stamp_with_plugin(exe: &str, mtime: i64, plugin: &str) -> BuildStamp {
    BuildStamp { exe: exe.to_string(), exe_mtime_millis: mtime, plugin: plugin.to_string() }
}

#[test]
fn a_published_stamp_reads_back_exactly_as_it_was_written() {
    let written = stamp("/usr/local/bin/g-mesh", 1_753_900_000_000);

    let body = g_mesh::build_stamp::write(&written);

    assert_eq!(read(Some(&body)), Some(written));
}

#[test]
fn the_published_text_is_one_key_and_value_to_a_line() {
    assert_eq!(
        g_mesh::build_stamp::write(&stamp("/bin/g-mesh", -42)),
        "exe=/bin/g-mesh\nexe_mtime_millis=-42\nplugin_fingerprint=0123456789abcdef\n"
    );
}

#[test]
fn an_executable_path_containing_an_equals_sign_survives_the_round_trip() {
    let written = stamp("/opt/build=2/g-mesh", 7);

    let body = g_mesh::build_stamp::write(&written);

    assert_eq!(read(Some(&body)), Some(written));
}

#[test]
fn a_stamp_gaining_a_field_is_still_readable_by_a_build_that_does_not_know_it() {
    let body =
        "exe=/bin/g-mesh\nexe_mtime_millis=42\nplugin_fingerprint=0123456789abcdef\ncommit=deadbeef\n";

    assert_eq!(read(Some(body)), Some(stamp("/bin/g-mesh", 42)));
}

#[test]
fn an_absent_incomplete_or_unparseable_stamp_reads_as_nothing_on_record() {
    assert_eq!(read(None), None);

    for (name, body) in [
        ("empty", ""),
        ("no-mtime", "exe=/bin/g-mesh\nplugin_fingerprint=ab\n"),
        ("no-exe", "exe_mtime_millis=42\nplugin_fingerprint=ab\n"),
        ("mtime-not-a-number", "exe=/bin/g-mesh\nexe_mtime_millis=soon\nplugin_fingerprint=ab\n"),
        ("not-key-values", "g-mesh 0.5.0\n"),
        ("no-plugin-fingerprint", "exe=/bin/g-mesh\nexe_mtime_millis=42\n"),
    ] {
        assert_eq!(read(Some(body)), None, "{name} must not read as a usable stamp");
    }
}

#[test]
fn a_later_line_overrides_an_earlier_one_even_with_nonsense() {
    let twice = "exe=/a\nexe_mtime_millis=1\nplugin_fingerprint=p\nexe=/b\n";
    assert_eq!(read(Some(twice)), Some(stamp_with_plugin("/b", 1, "p")));
    let spoilt = "exe=/a\nexe_mtime_millis=1\nplugin_fingerprint=p\nexe_mtime_millis=x\n";
    assert_eq!(read(Some(spoilt)), None);
}

#[test]
fn carriage_returns_are_part_of_the_line_ending() {
    let body = "exe=/a\r\nexe_mtime_millis=+5\r\nplugin_fingerprint=p\r\n";
    assert_eq!(read(Some(body)), Some(stamp_with_plugin("/a", 5, "p")));
}

#[test]
fn an_mtime_that_does_not_fit_is_no_mtime() {
    let fits = "exe=/a\nplugin_fingerprint=p\nexe_mtime_millis=-9223372036854775808\n";
    assert_eq!(read(Some(fits)), Some(stamp_with_plugin("/a", i64::MIN, "p")));
    let too_large = "exe=/a\nplugin_fingerprint=p\nexe_mtime_millis=9223372036854775808\n";
    assert_eq!(read(Some(too_large)), None);
}

#[test]
fn a_daemon_from_an_earlier_build_is_outdated() {
    let ours = stamp("/bin/g-mesh", 2_000);
    assert_eq!(vintage(Some(&stamp("/bin/g-mesh", 1_000)), &ours), Vintage::Outdated);
}

#[test]
fn a_daemon_from_this_very_executable_is_current() {
    let ours = stamp("/bin/g-mesh", 2_000);
    assert_eq!(vintage(Some(&ours.clone()), &ours), Vintage::Current);
}

#[test]
fn a_daemon_from_a_later_build_is_current_rather_than_something_to_replace() {
    let ours = stamp("/bin/g-mesh", 2_000);
    let newer = stamp("/somewhere/else/g-mesh", 9_000);
    assert_eq!(vintage(Some(&newer), &ours), Vintage::Current);
}

#[test]
fn two_executables_of_the_same_age_are_not_treated_as_an_upgrade() {
    let ours = stamp("/usr/local/bin/g-mesh", 2_000);
    let other = stamp("/home/u/.cargo/bin/g-mesh", 2_000);
    assert_eq!(vintage(Some(&other), &ours), Vintage::Current);
}

#[test]
fn a_daemon_that_published_nothing_cannot_be_vouched_for() {
    assert_eq!(vintage(None, &stamp("/bin/g-mesh", 2_000)), Vintage::Unknown);
}

#[test]
fn a_daemon_holding_a_plugin_that_has_since_been_rebuilt_is_not_current() {
    let ours = stamp_with_plugin("/bin/g-mesh", 2_000, "after0000000000");
    let incumbent = stamp_with_plugin("/bin/g-mesh", 2_000, "before000000000");

    assert_eq!(vintage(Some(&incumbent), &ours), Vintage::PluginChanged);
}

#[test]
fn a_rebuilt_but_identical_plugin_leaves_the_daemon_alone() {
    let ours = stamp_with_plugin("/bin/g-mesh", 2_000, "same000000000000");
    let incumbent = stamp_with_plugin("/bin/g-mesh", 2_000, "same000000000000");

    assert_eq!(vintage(Some(&incumbent), &ours), Vintage::Current);
}

#[test]
fn a_daemon_from_a_later_build_is_left_alone_however_its_plugin_compares() {
    let ours = stamp_with_plugin("/bin/g-mesh", 2_000, "ours000000000000");
    let newer = stamp_with_plugin("/somewhere/else/g-mesh", 9_000, "theirs0000000000");

    assert_eq!(vintage(Some(&newer), &ours), Vintage::Current);
}

#[test]
fn an_older_executable_is_named_as_such_even_when_the_plugin_differs_too() {
    let ours = stamp_with_plugin("/bin/g-mesh", 2_000, "ours000000000000");
    let older = stamp_with_plugin("/bin/g-mesh", 1_000, "theirs0000000000");

    assert_eq!(vintage(Some(&older), &ours), Vintage::Outdated);
}

#[test]
fn each_verdict_is_described_in_its_own_words() {
    let described =
        [Vintage::Current, Vintage::Outdated, Vintage::PluginChanged, Vintage::Unknown].map(describe);
    let unique: std::collections::HashSet<_> = described.iter().collect();
    assert_eq!(unique.len(), described.len(), "{described:?}");
    assert_eq!(described[1], "started from an older build of g-mesh");
}
