use tilt_logs::invocation::{
    ambiguity_display, choose_request, list_args, listing_display, log_args, not_found_message,
    Request,
};

fn names(items: &[&str]) -> Vec<String> {
    items.iter().map(|s| s.to_string()).collect()
}

#[test]
fn list_flag_wins_over_service() {
    assert_eq!(choose_request(true, Some("web".to_string())), Request::ListContainers);
    assert_eq!(choose_request(true, None), Request::ListContainers);
}

#[test]
fn missing_service_without_list_is_usage_error() {
    assert_eq!(choose_request(false, None), Request::MissingService);
}

#[test]
fn service_without_list_shows_logs() {
    assert_eq!(
        choose_request(false, Some("web".to_string())),
        Request::ShowLogs("web".to_string())
    );
}

#[test]
fn listing_command_asks_for_names_only() {
    assert_eq!(list_args(), names(&["ps", "--format", "{{.Names}}"]));
}

#[test]
fn log_command_plain() {
    assert_eq!(log_args("db", false, None), names(&["logs", "db"]));
}

#[test]
fn log_command_with_follow_and_tail() {
    assert_eq!(
        log_args("web-1", true, Some("50")),
        names(&["logs", "web-1", "--follow", "--tail", "50"])
    );
    assert_eq!(log_args("web-1", false, Some("5")), names(&["logs", "web-1", "--tail", "5"]));
    assert_eq!(log_args("web-1", true, None), names(&["logs", "web-1", "--follow"]));
}

#[test]
fn listing_display_indents_names() {
    assert_eq!(
        listing_display(&names(&["web-1", "db"])),
        names(&["Containers:", "  web-1", "  db"])
    );
    assert_eq!(listing_display(&Vec::new()), names(&["Containers:"]));
}

#[test]
fn ambiguity_display_names_pattern_and_candidates() {
    assert_eq!(
        ambiguity_display("web", &names(&["web-1", "web-2"])),
        names(&["Multiple containers match 'web':", "  web-1", "  web-2"])
    );
}

#[test]
fn not_found_message_names_pattern() {
    assert_eq!(not_found_message("cache"), "No container found matching: cache");
}
