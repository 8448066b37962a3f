use atlas::flow::{
    import_matches_file, is_db_mock_helper, is_flow_noise, is_primary_flow_step,
    is_supporting_flow_step,
};

#[test]
fn noise_covers_classes_logging_private_helpers_and_utilities() {
    assert!(is_flow_noise("AuthService", "auth/service.py", "class"));
    assert!(is_flow_noise("__init__", "auth/service.py", "function"));
    assert!(is_flow_noise("log_event", "auth/service.py", "function"));
    assert!(is_flow_noise("printf", "main.c", "function"));
    assert!(is_flow_noise("_hash", "auth/service.py", "function"));
    assert!(!is_flow_noise("__call__", "app.py", "function"));
    assert!(is_flow_noise("slugify", "app/utils/text.py", "function"));
    assert!(is_flow_noise("get", "config/settings.py", "function"));
    assert!(!is_flow_noise("get", "api/settings.py", "function"));
    assert!(!is_flow_noise("login", "auth/service.py", "function"));
}

#[test]
fn supporting_and_primary_steps() {
    assert!(is_db_mock_helper(&['g', 'e', 't']));
    assert!(!is_db_mock_helper(&['G', 'e', 't']));
    assert!(is_supporting_flow_step("send_welcome_email", "mail.py", "function"));
    assert!(is_supporting_flow_step("process_checkout", "gate/app.py", "function"));
    assert!(is_supporting_flow_step("Update", "db.py", "function"));
    assert!(!is_supporting_flow_step("process_checkin", "gate/app.py", "function"));
    assert!(is_primary_flow_step("process_checkin", "gate/app.py", "function"));
    assert!(is_primary_flow_step("login_handler", "auth/routes.py", "function"));
    assert!(!is_primary_flow_step("process_checkout", "gate/app.py", "function"));
    assert!(!is_primary_flow_step("render", "web/views.py", "function"));
}

#[test]
fn imports_match_module_files() {
    assert!(import_matches_file("auth.service", "auth/service.py"));
    assert!(!import_matches_file("auth.models", "auth/service.py"));
}
