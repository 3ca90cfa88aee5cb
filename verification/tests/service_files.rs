use dnsqb_service::lifecycle::{
    clear_quit_flag, clear_stop_flag, quit_flag_is_set, removal_failed, set_quit_flag,
    set_stop_flag, stop_flag_is_set, Removal,
};
use dnsqb_service::listener::{bind_listener, listen_address, BindError, BindFailure};
use dnsqb_service::logging::{log_file_name, old_log_file_name, prepare_log_file, MAX_LOG_BYTES};
use dnsqb_service::pause_watch::{observe_pause_flag, PauseChange};

fn clear(files: &mut Vec<String>, name: Option<&'static str>) {
    if let Some(name) = name {
        files.retain(|file| file != name);
    }
}

#[test]
fn stop_flag_round_trips() {
    let mut files: Vec<String> = Vec::new();
    assert!(!stop_flag_is_set(&files));
    files.push(set_stop_flag().to_string());
    assert!(stop_flag_is_set(&files));
    let name = clear_stop_flag(&files);
    clear(&mut files, name);
    assert!(!stop_flag_is_set(&files));
}

#[test]
fn quit_flag_round_trips_and_the_two_are_independent() {
    let mut files: Vec<String> = Vec::new();
    files.push(set_quit_flag().to_string());
    assert!(quit_flag_is_set(&files));
    assert!(!stop_flag_is_set(&files), "quit does not imply stop");
    let name = clear_quit_flag(&files);
    clear(&mut files, name);
    assert!(!quit_flag_is_set(&files));
}

#[test]
fn clearing_an_absent_flag_is_not_an_error() {
    let files: Vec<String> = Vec::new();
    assert_eq!(clear_stop_flag(&files), None);
    assert_eq!(clear_quit_flag(&files), None);
    assert!(!removal_failed(Removal::NotFound));
    assert!(!removal_failed(Removal::Done));
    assert!(removal_failed(Removal::Failed));
}

#[test]
fn binding_an_already_bound_port_is_an_explicit_error_not_a_silent_fallback() {
    let port = 8443;
    let second: Result<(), BindError> = Err(bind_listener(port, BindFailure::AddrInUse));
    assert!(matches!(second, Err(BindError::AddrInUse(p)) if p == port));
}

#[test]
fn another_failure_keeps_its_words() {
    let error = bind_listener(53, BindFailure::Other("permission denied".to_string()));
    assert_eq!(
        error.message(),
        "failed to bind 127.0.0.1:53: permission denied"
    );
    assert_eq!(
        BindError::AddrInUse(8443).message(),
        "port 8443 is already in use"
    );
}

#[test]
fn only_the_local_address_is_listened_on() {
    assert_eq!(listen_address(8443), ([127, 0, 0, 1], 8443));
}

#[test]
fn creates_the_log_file_on_a_first_run() {
    assert!(!prepare_log_file(None));
    assert_eq!(log_file_name("dnsqb-test"), "dnsqb-test.log");
    assert_eq!(old_log_file_name("dnsqb-test"), "dnsqb-test.log.old");
}

#[test]
fn rotates_an_oversized_log_to_old() {
    assert!(prepare_log_file(Some(MAX_LOG_BYTES + 1)));
    assert!(!prepare_log_file(Some(MAX_LOG_BYTES)));
    assert_eq!(MAX_LOG_BYTES, 5 * 1024 * 1024);
}

#[test]
fn a_pause_is_reported_when_it_begins_and_when_it_ends() {
    assert_eq!(observe_pause_flag(false, false), (false, None));
    assert_eq!(
        observe_pause_flag(false, true),
        (true, Some(PauseChange::Paused))
    );
    assert_eq!(observe_pause_flag(true, true), (true, None));
    assert_eq!(
        observe_pause_flag(true, false),
        (false, Some(PauseChange::Resumed))
    );
}
