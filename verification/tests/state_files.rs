use g_mesh::path::{parent_of, PathStyle};
use g_mesh::state_files::{
    build_stamp_path, build_stamp_path_in, daemon_lock_path, daemon_lock_path_in, endpoint, endpoint_in,
    lock_path, phase_path_in, pid_path, pid_path_in, plugin_pid_path, plugin_pid_path_in, progress_path_in,
    read_phase_in, read_pid_file, read_pid_file_result, record_serving_owner, serving_owner_in,
    serving_owner_path_in, socket_path, write_pid_file, Endpoint, EndpointError, NoStateDir, ReadFailure,
};

#[test]
fn every_file_lies_in_the_state_directory() {
    assert_eq!(socket_path(Ok("/s"), PathStyle::Unix), Ok("/s/daemon.sock".to_string()));
    assert_eq!(pid_path(Ok("/s"), PathStyle::Unix), Ok("/s/daemon.pid".to_string()));
    assert_eq!(pid_path_in("/s", PathStyle::Unix), "/s/daemon.pid");
    assert_eq!(plugin_pid_path(Ok("/s"), PathStyle::Unix), Ok("/s/plugin-typescript.pid".to_string()));
    assert_eq!(plugin_pid_path_in("/s", PathStyle::Unix), "/s/plugin-typescript.pid");
    assert_eq!(phase_path_in("/s", PathStyle::Unix), "/s/index.phase");
    assert_eq!(progress_path_in("/s", PathStyle::Unix), "/s/index.progress");
    assert_eq!(build_stamp_path(Ok("/s"), PathStyle::Unix), Ok("/s/daemon.build".to_string()));
    assert_eq!(build_stamp_path_in("/s", PathStyle::Unix), "/s/daemon.build");
    assert_eq!(lock_path(Ok("/s"), PathStyle::Unix), Ok("/s/bootstrap.lock".to_string()));
    assert_eq!(daemon_lock_path(Ok("/s"), PathStyle::Unix), Ok("/s/daemon.lock".to_string()));
    assert_eq!(daemon_lock_path_in("/s", PathStyle::Unix), "/s/daemon.lock");
    assert_eq!(serving_owner_path_in("/s", PathStyle::Unix), "/s/daemon.serving");
    assert_eq!(pid_path_in(r"C:\s", PathStyle::Windows), r"C:\s\daemon.pid");
    let unknown = NoStateDir { why: "no home".to_string() };
    assert_eq!(pid_path(Err(unknown.clone()), PathStyle::Unix), Err(unknown));
}

#[test]
fn the_two_locks_lie_in_one_directory_and_are_not_one_file() {
    for (dir, style) in [("/s", PathStyle::Unix), ("", PathStyle::Unix), (r"C:\s", PathStyle::Windows),
        (r"\\?\C:\s", PathStyle::Windows), (r"\\server", PathStyle::Windows)]
    {
        let bootstrap = lock_path(Ok(dir), style).unwrap();
        let daemon = daemon_lock_path(Ok(dir), style).unwrap();
        assert_eq!(daemon, daemon_lock_path_in(dir, style));
        assert_ne!(bootstrap, daemon);
        assert_eq!(parent_of(&bootstrap, style), parent_of(&daemon, style), "{dir:?}");
    }
}

#[test]
fn an_endpoint_is_a_socket_or_a_name() {
    assert_eq!(
        endpoint_in("/s/0a1b", PathStyle::Unix),
        Some(Endpoint::AtPath("/s/0a1b/daemon.sock".to_string()))
    );
    assert_eq!(endpoint_in(r"C:\s\0a1b", PathStyle::Windows), Some(Endpoint::Named("0a1b".to_string())));
    assert_eq!(endpoint_in(r"C:\", PathStyle::Windows), None);
    let error = endpoint(Ok("/"), PathStyle::Windows).unwrap_err();
    assert_eq!(error.message(), "failed to derive the daemon endpoint from /");
    let unknown = endpoint(Err(NoStateDir { why: "no home".to_string() }), PathStyle::Unix).unwrap_err();
    assert!(matches!(unknown, EndpointError::NoStateDir(_)));
    assert_eq!(unknown.message(), "no home");
}

#[test]
fn a_pid_that_was_written_reads_back() {
    let write = write_pid_file("/s/daemon.pid", 4_294_967_295, 12, PathStyle::Unix);
    assert_eq!(write.path, "/s/daemon.pid");
    assert_eq!(write.temporary, "/s/daemon.12.tmp");
    assert_eq!(write.contents, "4294967295\n");
    assert_eq!(read_pid_file(Ok(&write.contents)), Some(u32::MAX));
    assert_eq!(read_pid_file(Ok(" 7\t")), Some(7));
}

#[test]
fn a_pid_file_that_says_nothing_is_told_from_one_that_cannot_be_read() {
    assert_eq!(read_pid_file_result(Ok("soon")), Ok(None));
    assert_eq!(read_pid_file_result(Ok("4294967296")), Ok(None));
    assert_eq!(read_pid_file_result(Err(ReadFailure::NotFound)), Ok(None));
    let other = ReadFailure::Other { why: "denied".to_string() };
    assert_eq!(read_pid_file_result(Err(other.clone())), Err(other.clone()));
    assert_eq!(read_pid_file(Err(other)), None);
}

#[test]
fn a_part_of_an_owners_record_says_nothing() {
    let record = record_serving_owner("/s", 1234, PathStyle::Unix);
    assert_eq!(record.path, "/s/daemon.serving");
    assert_eq!(record.temporary, "/s/daemon.1234.tmp");
    assert_eq!(serving_owner_in(Some(&record.contents)), Some(1234));
    for written in 0..record.contents.len() {
        assert_eq!(serving_owner_in(Some(&record.contents[..written])), None, "{written} characters");
    }
    assert_eq!(serving_owner_in(None), None);
    assert_eq!(serving_owner_in(Some("\n")), None);
}

#[test]
fn a_phase_is_read_without_the_white_space_around_it() {
    assert_eq!(read_phase_in(Some("front\n")), Some("front".to_string()));
    assert_eq!(read_phase_in(None), None);
}
