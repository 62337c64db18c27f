use elasticnow::records::{CostCenter, DisplayAndValue, TimeWorked};
use elasticnow::report::{
    aggregate_report, display_tier, get_total, group_top_x, presentation_sort, seconds_to_pretty,
    DisplayTier, ReportGroup,
};

fn entry(seconds: &str, task: &str, category: &str) -> TimeWorked {
    TimeWorked {
        time_in_seconds: seconds.to_string(),
        task: task.to_string(),
        category: category.to_string(),
    }
}

fn cc(center: &str, task_id: &str) -> CostCenter {
    CostCenter {
        cost_center: DisplayAndValue {
            display_value: center.to_string(),
            value: center.to_string(),
        },
        task: DisplayAndValue {
            display_value: task_id.to_string(),
            value: task_id.to_string(),
        },
    }
}

fn pairs(groups: &[ReportGroup]) -> Vec<(String, i64)> {
    groups
        .iter()
        .map(|g| (g.label.clone(), g.seconds))
        .collect()
}

#[test]
fn test_top_two_folds_remainder_into_other() {
    // Three distinct labels of 10, 7 and 3 seconds; top=2 keeps the two
    // largest and folds the rest, presented ascending with "Other" first.
    let entries = vec![entry("10", "", "alpha"), entry("7", "", "beta"), entry("3", "", "gamma")];
    let (groups, total) = aggregate_report(&entries, &Vec::new(), 2);
    assert_eq!(total, 20);
    assert_eq!(
        pairs(&groups),
        vec![
            ("Other".to_string(), 3),
            ("beta".to_string(), 7),
            ("alpha".to_string(), 10)
        ]
    );
}

#[test]
fn test_total_unchanged_by_failed_resolution() {
    // An entry attached to a ticket no cost-center row resolves counts in
    // the grand total but appears in no displayed group.
    let entries = vec![
        entry("10", "", "alpha"),
        entry("7", "", "beta"),
        entry("3", "", "gamma"),
        entry("5", "TKT42", ""),
    ];
    let (groups, total) = aggregate_report(&entries, &Vec::new(), 2);
    assert_eq!(total, 25);
    assert_eq!(
        pairs(&groups),
        vec![
            ("Other".to_string(), 3),
            ("beta".to_string(), 7),
            ("alpha".to_string(), 10)
        ]
    );
}

#[test]
fn test_top_covering_all_labels_adds_no_other() {
    let entries = vec![entry("10", "", "alpha"), entry("7", "", "beta"), entry("3", "", "gamma")];
    let (groups, total) = aggregate_report(&entries, &Vec::new(), 5);
    assert_eq!(total, 20);
    assert_eq!(
        pairs(&groups),
        vec![
            ("gamma".to_string(), 3),
            ("beta".to_string(), 7),
            ("alpha".to_string(), 10)
        ]
    );
}

#[test]
fn test_resolved_tickets_land_on_cost_centers() {
    let entries = vec![
        entry("100", "T1", ""),
        entry("50", "T1", ""),
        entry("30", "T2", ""),
        entry("20", "", "clerical"),
    ];
    let rows = vec![cc("Infrastructure", "T1"), cc("Clerical", "T2")];
    let (groups, total) = aggregate_report(&entries, &rows, 10);
    assert_eq!(total, 200);
    // T1's 150 land on Infrastructure; T2's 30 land on the same label the
    // category entry used, merging with its 20.
    assert_eq!(
        pairs(&groups),
        vec![
            ("Clerical".to_string(), 50),
            ("Infrastructure".to_string(), 150)
        ]
    );
}

#[test]
fn test_unresolvable_row_creates_zero_group() {
    // A returned row whose task gathered no seconds still creates a
    // zero-second group, as the accumulation does.
    let entries = vec![entry("10", "", "alpha")];
    let rows = vec![cc("Empty Center", "T9")];
    let (groups, total) = aggregate_report(&entries, &rows, 10);
    assert_eq!(total, 10);
    assert_eq!(
        pairs(&groups),
        vec![("Empty Center".to_string(), 0), ("alpha".to_string(), 10)]
    );
}

#[test]
fn test_malformed_seconds_count_zero() {
    let entries = vec![entry("abc", "", "alpha"), entry("15", "", "alpha")];
    assert_eq!(get_total(&entries), 15);
    let (groups, total) = aggregate_report(&entries, &Vec::new(), 10);
    assert_eq!(total, 15);
    assert_eq!(pairs(&groups), vec![("alpha".to_string(), 15)]);
}

#[test]
fn test_group_top_x_ranks_descending_with_other_last() {
    let groups = vec![
        ReportGroup { label: "a".to_string(), seconds: 1 },
        ReportGroup { label: "b".to_string(), seconds: 9 },
        ReportGroup { label: "c".to_string(), seconds: 5 },
        ReportGroup { label: "d".to_string(), seconds: 2 },
    ];
    let ranked = group_top_x(groups, 2);
    assert_eq!(
        pairs(&ranked),
        vec![
            ("b".to_string(), 9),
            ("c".to_string(), 5),
            ("Other".to_string(), 3)
        ]
    );
}

#[test]
fn test_presentation_sort_is_stable_ascending() {
    let groups = vec![
        ReportGroup { label: "x".to_string(), seconds: 4 },
        ReportGroup { label: "y".to_string(), seconds: 4 },
        ReportGroup { label: "z".to_string(), seconds: 1 },
    ];
    let sorted = presentation_sort(groups);
    assert_eq!(
        pairs(&sorted),
        vec![
            ("z".to_string(), 1),
            ("x".to_string(), 4),
            ("y".to_string(), 4)
        ]
    );
}

#[test]
fn test_seconds_to_pretty_pads_fields() {
    assert_eq!(seconds_to_pretty(0), "00:00:00");
    assert_eq!(seconds_to_pretty(3661), "01:01:01");
    assert_eq!(seconds_to_pretty(59), "00:00:59");
    assert_eq!(seconds_to_pretty(36000), "10:00:00");
    // Hours grow past two digits without truncation.
    assert_eq!(seconds_to_pretty(360000), "100:00:00");
}

#[test]
fn test_display_tier_threshold() {
    assert_eq!(display_tier(32 * 3600), DisplayTier::Warning);
    assert_eq!(display_tier(32 * 3600 - 1), DisplayTier::Nominal);
    assert_eq!(display_tier(0), DisplayTier::Nominal);
    assert_eq!(display_tier(40 * 3600), DisplayTier::Warning);
}
