use umwtool::config::config_file;
use umwtool::config::ConfigError;
use umwtool::poll::next_action;
use umwtool::poll::PollAction;
use umwtool::poll::PollEvent;
use umwtool::poll::POLL_INTERVAL_SECS;
use umwtool::scanner::ScanError;

#[test]
fn loop_scans_when_started_and_after_each_wait() {
    assert_eq!(next_action(PollEvent::Started), PollAction::Scan);
    assert_eq!(next_action(PollEvent::Woke), PollAction::Scan);
}

#[test]
fn loop_waits_a_second_after_a_scan() {
    assert_eq!(POLL_INTERVAL_SECS, 1);
    assert_eq!(
        next_action(PollEvent::ScanOver { outcome: Ok(()) }),
        PollAction::Sleep { seconds: 1, report: None }
    );
}

#[test]
fn failed_scan_is_reported_and_the_loop_goes_on() {
    let action = next_action(PollEvent::ScanOver { outcome: Err(ScanError::TreeUnavailable) });
    assert_eq!(action, PollAction::Sleep { seconds: 1, report: Some(ScanError::TreeUnavailable) });
    assert_eq!(next_action(PollEvent::Woke), PollAction::Scan);
}

#[test]
fn config_file_is_below_the_named_configuration_directory() {
    assert_eq!(
        config_file(Some("/home/u/.cfg"), Some("/home/u")),
        Ok(vec!["/home/u/.cfg".to_string(), "umwtool".to_string(), "targets.txt".to_string()])
    );
    assert_eq!(
        config_file(Some("/xdg"), None),
        Ok(vec!["/xdg".to_string(), "umwtool".to_string(), "targets.txt".to_string()])
    );
    assert_eq!(
        config_file(Some(""), Some("/home/u")),
        Ok(vec!["".to_string(), "umwtool".to_string(), "targets.txt".to_string()])
    );
}

#[test]
fn config_file_is_below_dot_config_at_home_otherwise() {
    assert_eq!(
        config_file(None, Some("/home/u")),
        Ok(vec![
            "/home/u".to_string(),
            ".config".to_string(),
            "umwtool".to_string(),
            "targets.txt".to_string()
        ])
    );
}

#[test]
fn config_file_is_unknown_without_a_home() {
    assert_eq!(config_file(None, None), Err(ConfigError::NoHome));
}
