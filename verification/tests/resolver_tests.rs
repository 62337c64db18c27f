use elasticnow::records::{Config, SysIdResult, Ticket, TicketCreation};
use elasticnow::resolver::{
    auth_refresh_step, category_key_for_choice, category_options, chg_template_at,
    chg_template_options, decide_selection, generic_options_to_value_option,
    get_search_result_from_input, options_with_synthetic, search_results_to_string, select_mode,
    AuthAction, ChooseOptions, Selection, TimetrackMode, ValueOption,
};

fn ticket(number: &str, short_description: &str, id: &str) -> Ticket {
    Ticket {
        comments: String::new(),
        work_notes: String::new(),
        description: String::new(),
        short_description: short_description.to_string(),
        active: "true".to_string(),
        assigned_to: String::new(),
        assignment_group: String::new(),
        sys_created_on: String::new(),
        id: id.to_string(),
        self_link: String::new(),
        priority: "4".to_string(),
        number: number.to_string(),
        type_: String::new(),
    }
}

fn opt(display: &str, value: &str) -> ValueOption {
    ValueOption {
        display_value: display.to_string(),
        value: value.to_string(),
    }
}

#[test]
fn test_cancel_is_success_without_backend_call() {
    // Selecting "Cancel" decides the cancelled outcome before any prefix
    // match, so no ticket is ever resolved and no mutation follows.
    let options = vec![opt("TKT100", "id100"), opt("Cancel", "idX")];
    assert_eq!(decide_selection("Cancel", options), Selection::Cancelled);
}

#[test]
fn test_new_ticket_choice_falls_through_to_creation() {
    let options = vec![opt("TKT100", "id100")];
    assert_eq!(decide_selection("New ticket", options), Selection::NewTicket);
}

#[test]
fn test_prefix_match_not_confused_by_longer_number() {
    // "TKT100: fix disk" matches TKT100, not TKT1000, even with TKT1000
    // listed first.
    let options = vec![opt("TKT1000", "id1000"), opt("TKT100", "id100")];
    let chosen = get_search_result_from_input("TKT100: fix disk", options).unwrap();
    assert_eq!(chosen.value, "id100");

    let options = vec![opt("TKT100", "id100"), opt("TKT1000", "id1000")];
    match decide_selection("TKT100: fix disk", options) {
        Selection::Existing { sys_id } => assert_eq!(sys_id, "id100"),
        other => panic!("unexpected outcome {:?}", other),
    }
}

#[test]
fn test_longer_number_still_reachable() {
    // With the longer number listed first, its line resolves to it.
    let options = vec![opt("TKT1000", "id1000"), opt("TKT100", "id100")];
    match decide_selection("TKT1000: replace fan", options) {
        Selection::Existing { sys_id } => assert_eq!(sys_id, "id1000"),
        other => panic!("unexpected outcome {:?}", other),
    }
}

#[test]
fn test_prefix_rule_known_ambiguity() {
    // The rule matches the first option whose display value begins the
    // line: a number that is a proper prefix of another shadows it when
    // listed first. The upstream numbering scheme is assumed to avoid
    // this; the behavior is preserved as a known limitation.
    let options = vec![opt("TKT100", "id100"), opt("TKT1000", "id1000")];
    match decide_selection("TKT1000: replace fan", options) {
        Selection::Existing { sys_id } => assert_eq!(sys_id, "id100"),
        other => panic!("unexpected outcome {:?}", other),
    }
}

#[test]
fn test_unmatched_selection_is_flagged() {
    let options = vec![opt("TKT100", "id100")];
    assert_eq!(
        decide_selection("something else", options),
        Selection::Unmatched
    );
}

#[test]
fn test_options_gain_synthetic_entries() {
    let shown = options_with_synthetic(vec!["TKT1: a".to_string()]);
    assert_eq!(
        shown,
        vec![
            "TKT1: a".to_string(),
            "New ticket".to_string(),
            "Cancel".to_string()
        ]
    );
}

#[test]
fn test_ticket_choose_options_projections() {
    let t = ticket("TKT7", "printer on fire", "sys7");
    assert_eq!(t.get_debug_string(), "TKT7: printer on fire");
    assert_eq!(t.get_number(), "TKT7");
    assert_eq!(t.get_id(), "sys7");

    let tickets = vec![t, ticket("TKT8", "quiet printer", "sys8")];
    let value_options = generic_options_to_value_option(&tickets);
    assert_eq!(value_options.len(), 2);
    assert_eq!(value_options[0].display_value, "TKT7");
    assert_eq!(value_options[0].value, "sys7");
    assert_eq!(value_options[1].display_value, "TKT8");
    assert_eq!(value_options[1].value, "sys8");

    let lines = search_results_to_string(&tickets);
    assert_eq!(
        lines,
        vec![
            "TKT7: printer on fire".to_string(),
            "TKT8: quiet printer".to_string()
        ]
    );
}

#[test]
fn test_mode_priority_order() {
    assert!(matches!(
        select_mode(true, false, true, None, None, "bin0"),
        TimetrackMode::NoTicket
    ));
    assert!(matches!(
        select_mode(true, false, false, None, None, "bin0"),
        TimetrackMode::CreateNew
    ));
    match select_mode(false, true, false, None, None, "bin0") {
        TimetrackMode::All { bin } => assert_eq!(bin, "bin0"),
        other => panic!("unexpected mode {:?}", other),
    }
    match select_mode(false, true, false, None, Some("special".to_string()), "bin0") {
        TimetrackMode::All { bin } => assert_eq!(bin, "special"),
        other => panic!("unexpected mode {:?}", other),
    }
    match select_mode(false, false, false, Some("disk".to_string()), None, "bin0") {
        TimetrackMode::SearchExisting { keywords, bin } => {
            assert_eq!(keywords, "disk");
            assert_eq!(bin, "bin0");
        }
        other => panic!("unexpected mode {:?}", other),
    }
    match select_mode(false, false, false, None, None, "bin0") {
        TimetrackMode::SearchExisting { keywords, bin } => {
            assert_eq!(keywords, "");
            assert_eq!(bin, "bin0");
        }
        other => panic!("unexpected mode {:?}", other),
    }
}

#[test]
fn test_category_prompt_table() {
    let options = category_options();
    assert_eq!(options.len(), 3);
    assert!(options[0].starts_with("Certs, Pro Dev, Training:"));
    assert!(options[1].starts_with("University Events:"));
    assert!(options[2].starts_with("Clerical:"));
    // Each line's index maps to the machine key of that same category.
    assert_eq!(category_key_for_choice(0), "certs_prodev_training");
    assert_eq!(category_key_for_choice(1), "univ_events");
    assert_eq!(category_key_for_choice(2), "clerical");
}

#[test]
fn test_chg_template_prompt_and_choice() {
    let templates = vec![
        SysIdResult {
            sys_id: "tpl1".to_string(),
            sys_name: Some("Patch web tier".to_string()),
        },
        SysIdResult {
            sys_id: "tpl2".to_string(),
            sys_name: Some("Rotate certs".to_string()),
        },
    ];
    assert_eq!(
        chg_template_options(&templates),
        vec!["Patch web tier".to_string(), "Rotate certs".to_string()]
    );
    assert_eq!(chg_template_at(&templates, 1), "tpl2");
}

#[test]
fn test_config_set_new_id_keeps_other_fields() {
    let mut config = Config {
        id: "old".to_string(),
        instance: "https://example.test".to_string(),
        sn_instance: "dev".to_string(),
        sn_username: "user".to_string(),
        sn_password: "SECRET-REDACTED".to_string(),
        bin: "bin0".to_string(),
    };
    config.set_new_id("fresh-cookie");
    assert_eq!(config.id, "fresh-cookie");
    assert_eq!(config.instance, "https://example.test");
    assert_eq!(config.bin, "bin0");
}

#[test]
fn test_ticket_creation_payload() {
    let payload = TicketCreation::request_item("bin0", "new disk");
    assert_eq!(payload.assignment_group, "bin0");
    assert_eq!(payload.short_description, "new disk");
    assert_eq!(payload.description, "new disk");
    assert_eq!(payload.type_, Some("sc_req_item".to_string()));
    assert_eq!(payload.priority, Some("4".to_string()));
    assert_eq!(payload.sla_type, Some("server_specific".to_string()));
    assert_eq!(payload.configuration_item, None);
    assert_eq!(payload.item, None);
}

#[test]
fn test_auth_refresh_retries_exactly_once() {
    assert_eq!(auth_refresh_step(true, false), AuthAction::Proceed);
    assert_eq!(auth_refresh_step(true, true), AuthAction::Proceed);
    assert_eq!(auth_refresh_step(false, false), AuthAction::RefreshAndRetry);
    assert_eq!(auth_refresh_step(false, true), AuthAction::Fail);
}
