use stellaris_save_editor::archaeology::{
    clue_gain, modify_archaeology_sites, ArchLineFacts, ArchScanner,
};
use stellaris_save_editor::espionage::{
    info_gain, modify_espionage_operations, EspLineFacts, EspScanner,
};
use stellaris_save_editor::first_contact::{modify_first_contacts, FcLineFacts, FcScanner};
use stellaris_save_editor::pattern::EditError;

fn owned(v: Vec<&str>) -> Vec<String> {
    v.into_iter().map(|s| s.to_string()).collect()
}

fn espionage_input() -> Vec<&'static str> {
    vec![
        "espionage_operations={",
        "\t{",
        "\t\ttarget={",
        "\t\t\tid=16777296",
        "\t\t\ttype=country",
        "\t\t}",
        "\t\ttype=\"operation_gather_information\"",
        "\t\tinfo=2",
        "\t\tlog={",
        "\t\t\t{",
        "\t\t\t\troll=4",
        "\t\t\t\tskill=5",
        "\t\t\t\tinfo=1",
        "\t\t\t\tdifficulty=3",
        "\t\t\t}",
        "\t\t\t{",
        "\t\t\t\troll=2",
        "\t\t\t\tskill=5",
        "\t\t\t\tinfo=0",
        "\t\t\t\tdifficulty=3",
        "\t\t\t}",
        "\t\t}",
        "\t\tinfo=2",
        "\t\tlast_roll=3",
        "\t}",
        "\t{",
        "\t\ttarget={",
        "\t\t\tid=99",
        "\t\t}",
        "\t\ttype=\"operation_gather_information\"",
        "\t\tinfo=5",
        "\t\tlast_roll=1",
        "\t}",
        "}",
    ]
}

fn espionage_expected() -> Vec<&'static str> {
    vec![
        "espionage_operations={",
        "\t{",
        "\t\ttarget={",
        "\t\t\tid=16777296",
        "\t\t\ttype=country",
        "\t\t}",
        "\t\ttype=\"operation_gather_information\"",
        "\t\tinfo=0",
        "\t\tlog={",
        "\t\t\t{",
        "roll=10",
        "\t\t\t\tskill=5",
        "\t\t\t\tinfo=2",
        "\t\t\t\tdifficulty=3",
        "\t\t\t}",
        "\t\t\t{",
        "roll=10",
        "\t\t\t\tskill=5",
        "\t\t\t\tinfo=5",
        "\t\t\t\tdifficulty=3",
        "\t\t\t}",
        "\t\t}",
        "\t\tinfo=5",
        "\t\tlast_roll=10",
        "\t}",
        "\t{",
        "\t\ttarget={",
        "\t\t\tid=99",
        "\t\t}",
        "\t\ttype=\"operation_gather_information\"",
        "\t\tinfo=5",
        "\t\tlast_roll=1",
        "\t}",
        "}",
    ]
}

fn archaeology_input() -> Vec<&'static str> {
    vec![
        "archaeological_sites={",
        "\tsites={",
        "\t\t0={",
        "\t\t\ttype=\"site_rubricator\"",
        "\t\t\tclues=1",
        "\t\t\tlog={",
        "\t\t\t\t{",
        "\t\t\t\t\troll=3",
        "\t\t\t\t\tbonus=1",
        "\t\t\t\t\tclues=0",
        "\t\t\t\t\tdifficulty=4",
        "\t\t\t\t\ttotal=5",
        "\t\t\t\t}",
        "\t\t\t\t{",
        "\t\t\t\t\troll=1",
        "\t\t\t\t\tbonus=0",
        "\t\t\t\t\tclues=1",
        "\t\t\t\t\tdifficulty=8",
        "\t\t\t\t\ttotal=7",
        "\t\t\t\t}",
        "\t\t\t}",
        "\t\t\tlast_roll=2",
        "\t\t}",
        "\t\t1={",
        "\t\t\ttype=\"site_vultaumar\"",
        "\t\t\tclues=4",
        "\t\t\tlast_roll=1",
        "\t\t}",
        "\t}",
        "}",
    ]
}

fn archaeology_expected() -> Vec<&'static str> {
    vec![
        "archaeological_sites={",
        "\tsites={",
        "\t\t0={",
        "\t\t\ttype=\"site_rubricator\"",
        "\t\t\tclues=0",
        "\t\t\tlog={",
        "\t\t\t\t{",
        "roll=10",
        "\t\t\t\t\tbonus=1",
        "\t\t\t\t\tclues=1",
        "\t\t\t\t\tdifficulty=4",
        "\t\t\t\t\ttotal=0",
        "\t\t\t\t}",
        "\t\t\t\t{",
        "roll=10",
        "\t\t\t\t\tbonus=0",
        "\t\t\t\t\tclues=0",
        "\t\t\t\t\tdifficulty=8",
        "\t\t\t\t\ttotal=1",
        "\t\t\t\t}",
        "\t\t\t}",
        "\t\t\tlast_roll=10",
        "\t\t}",
        "\t\t1={",
        "\t\t\ttype=\"site_vultaumar\"",
        "\t\t\tclues=4",
        "\t\t\tlast_roll=1",
        "\t\t}",
        "\t}",
        "}",
    ]
}

fn first_contacts_input() -> Vec<&'static str> {
    vec![
        "first_contacts={",
        "\t{",
        "\t\towner=0",
        "\t\tcountry=5",
        "\t\tclues=3",
        "\t\tdays_left=12.5",
        "\t\tlast_roll=4",
        "\t\tstatus=active",
        "\t}",
        "\t{",
        "\t\towner=1",
        "\t\tclues=3",
        "\t\tlast_roll=2",
        "\t}",
        "}",
        "country={",
        "\tclues=9",
        "}",
    ]
}

fn first_contacts_expected() -> Vec<&'static str> {
    vec![
        "first_contacts={",
        "\t{",
        "\t\towner=0",
        "\t\tcountry=5",
        "\t\tclues=20",
        "\t\tdays_left=1",
        "\t\tlast_roll=10",
        "\t\tstatus=active",
        "\t}",
        "\t{",
        "\t\towner=1",
        "\t\tclues=3",
        "\t\tlast_roll=2",
        "\t}",
        "}",
        "country={",
        "\tclues=9",
        "}",
    ]
}

#[test]
fn espionage_replays_the_log_with_rolls_of_ten() {
    let mut lines = owned(espionage_input());
    let r = modify_espionage_operations(&mut lines, "operation_gather_information", "16777296");
    assert_eq!(r, Ok(()));
    assert_eq!(lines, owned(espionage_expected()));
}

#[test]
fn espionage_leaves_other_targets_alone() {
    let input = owned(espionage_input());
    let mut lines = input.clone();
    modify_espionage_operations(&mut lines, "operation_gather_information", "16777296").unwrap();
    // The second operation is aimed at target 99.
    assert_eq!(lines[25..], input[25..]);
}

#[test]
fn espionage_without_operation_changes_nothing() {
    let input = owned(espionage_input());
    let mut lines = input.clone();
    let r = modify_espionage_operations(&mut lines, "operation_steal_technology", "16777296");
    assert_eq!(r, Ok(()));
    assert_eq!(lines, input);
}

#[test]
fn espionage_with_unknown_target_changes_nothing() {
    let input = owned(espionage_input());
    let mut lines = input.clone();
    modify_espionage_operations(&mut lines, "operation_gather_information", "5").unwrap();
    assert_eq!(lines, input);
}

#[test]
fn espionage_refuses_an_invalid_operation_pattern() {
    let input = owned(espionage_input());
    let mut lines = input.clone();
    let r = modify_espionage_operations(&mut lines, "(", "16777296");
    assert_eq!(r, Err(EditError::InvalidPattern));
    assert_eq!(lines, input);
}

#[test]
fn espionage_on_no_lines() {
    let mut lines: Vec<String> = Vec::new();
    assert_eq!(modify_espionage_operations(&mut lines, "x", "1"), Ok(()));
    assert!(lines.is_empty());
}

#[test]
fn archaeology_replays_the_log_with_rolls_of_ten() {
    let mut lines = owned(archaeology_input());
    let r = modify_archaeology_sites(&mut lines, "site_rubricator");
    assert_eq!(r, Ok(()));
    assert_eq!(lines, owned(archaeology_expected()));
}

#[test]
fn archaeology_without_site_changes_nothing() {
    let input = owned(archaeology_input());
    let mut lines = input.clone();
    assert_eq!(modify_archaeology_sites(&mut lines, "site_grand_herald"), Ok(()));
    assert_eq!(lines, input);
}

#[test]
fn archaeology_refuses_an_invalid_site_pattern() {
    let input = owned(archaeology_input());
    let mut lines = input.clone();
    assert_eq!(modify_archaeology_sites(&mut lines, "site_[x"), Err(EditError::InvalidPattern));
    assert_eq!(lines, input);
}

#[test]
fn first_contacts_rewrite_only_the_owner_entry() {
    let mut lines = owned(first_contacts_input());
    let r = modify_first_contacts(&mut lines, "0");
    assert_eq!(r, Ok(()));
    assert_eq!(lines, owned(first_contacts_expected()));
}

#[test]
fn first_contacts_for_another_owner() {
    let mut lines = owned(first_contacts_input());
    modify_first_contacts(&mut lines, "1").unwrap();
    let input = owned(first_contacts_input());
    assert_eq!(lines[..9], input[..9]);
    assert_eq!(lines[11], "\t\tclues=20");
    assert_eq!(lines[12], "\t\tlast_roll=10");
    assert_eq!(lines[16], "\tclues=9");
}

#[test]
fn first_contacts_without_block_changes_nothing() {
    let input = owned(vec!["country={", "\towner=0", "\tclues=3", "}"]);
    let mut lines = input.clone();
    modify_first_contacts(&mut lines, "0").unwrap();
    assert_eq!(lines, input);
}

#[test]
fn first_contacts_owner_id_is_not_a_prefix() {
    let input = owned(vec!["first_contacts={", "{", "owner=12", "clues=5", "}", "}"]);
    let mut lines = input.clone();
    assert_eq!(modify_first_contacts(&mut lines, "1"), Ok(()));
    assert_eq!(lines, input);
    let mut lines = owned(vec![
        "first_contacts={",
        "\t{",
        "\t\towner=16777296",
        "\t\tclues=5",
        "\t}",
        "\t{",
        "\t\towner=1",
        "\t\tclues=5",
        "\t}",
        "}",
    ]);
    modify_first_contacts(&mut lines, "1").unwrap();
    assert_eq!(lines[3], "\t\tclues=5");
    assert_eq!(lines[7], "\t\tclues=20");
}

#[test]
fn first_contacts_owner_id_is_compared_as_text() {
    let mut lines = owned(vec![
        "first_contacts={",
        "\t{",
        "\t\towner=abcd",
        "\t\tclues=5",
        "\t}",
        "\t{",
        "\t\towner=abc",
        "\t\tclues=5",
        "\t\tlast_roll=3",
        "\t}",
        "\t{",
        "\t\towner=xbc",
        "\t\tclues=5",
        "\t}",
        "}",
    ]);
    assert_eq!(modify_first_contacts(&mut lines, "abc"), Ok(()));
    assert_eq!(lines[3], "\t\tclues=5");
    assert_eq!(lines[7], "\t\tclues=20");
    assert_eq!(lines[8], "\t\tlast_roll=10");
    assert_eq!(lines[12], "\t\tclues=5");
    let mut again = lines.clone();
    assert_eq!(modify_first_contacts(&mut again, ".bc"), Ok(()));
    assert_eq!(again, lines);
}

#[test]
fn first_contacts_owner_id_with_pattern_syntax_matches_nothing() {
    let input = owned(first_contacts_input());
    let mut lines = input.clone();
    assert_eq!(modify_first_contacts(&mut lines, "0)"), Ok(()));
    assert_eq!(lines, input);
}

#[test]
fn espionage_scanner_reads_line_facts() {
    let mut sc = EspScanner::new();
    let target = EspLineFacts {
        opens: 1,
        closes: 0,
        target: true,
        id: None,
        op_type: false,
        log: false,
        info: false,
        roll: false,
        skill: None,
        difficulty: None,
    };
    sc.scan_line(0, &target, "7");
    assert!(sc.in_target);
    assert_eq!(sc.depth, 1);
    let id = EspLineFacts { opens: 0, target: false, id: Some("7".to_string()), ..target };
    sc.scan_line(1, &id, "7");
    assert_eq!(sc.target_id, "7");
    let close = EspLineFacts { closes: 1, id: None, ..id };
    sc.scan_line(2, &close, "7");
    assert!(!sc.in_target);
    assert_eq!(sc.after, 0);
    let op = EspLineFacts { closes: 0, op_type: true, ..close };
    sc.scan_line(3, &op, "7");
    assert!(sc.in_op);
    assert_eq!(sc.op_depth, 0);
}

#[test]
fn archaeology_scanner_reads_line_facts() {
    let mut sc = ArchScanner::new();
    let site = ArchLineFacts {
        opens: 1,
        closes: 0,
        site_type: true,
        log: false,
        clues: false,
        roll: false,
        total: false,
        bonus: None,
        difficulty: None,
    };
    sc.scan_line(0, &site);
    assert!(sc.in_site);
    assert_eq!(sc.site_depth, 0);
    let log = ArchLineFacts { site_type: false, log: true, ..site };
    sc.scan_line(1, &log);
    assert!(sc.in_log);
    assert_eq!(sc.log_depth, 1);
    let entry = ArchLineFacts { log: false, ..log };
    sc.scan_line(2, &entry);
    let bonus = ArchLineFacts { opens: 0, bonus: Some("4".to_string()), ..entry };
    sc.scan_line(3, &bonus);
    assert_eq!(sc.bonus, 4);
    let roll = ArchLineFacts { bonus: None, roll: true, ..bonus };
    sc.scan_line(4, &roll);
    assert_eq!(sc.roll_line, Some(4));
}

#[test]
fn first_contact_scanner_needs_the_exact_owner() {
    let mut sc = FcScanner::new();
    let block = FcLineFacts { opens: 1, closes: 0, first_contacts: true, owner_id: None };
    sc.scan_line(&block, "1");
    assert!(sc.in_first_contacts);
    let other =
        FcLineFacts { opens: 1, first_contacts: false, owner_id: Some("12".to_string()), ..block };
    sc.scan_line(&other, "1");
    assert!(!sc.in_entry);
    let own = FcLineFacts { owner_id: Some("1".to_string()), ..other };
    sc.scan_line(&own, "1");
    assert!(sc.in_entry);
    assert_eq!(sc.entry_depth, 2);
}

#[test]
fn info_gain_thresholds() {
    assert_eq!(info_gain(5, 0, 3), 2);
    assert_eq!(info_gain(5, 2, 3), 3);
    assert_eq!(info_gain(0, 0, 9), 0);
    assert_eq!(info_gain(0, 0, 8), 1);
    assert_eq!(info_gain(0, 0, 1), 2);
    assert_eq!(info_gain(i32::MAX, i64::MAX, i32::MIN), 3);
    assert_eq!(info_gain(i32::MIN, 0, i32::MAX), 0);
}

#[test]
fn clue_gain_thresholds() {
    assert_eq!(clue_gain(1, 0, 4), 1);
    assert_eq!(clue_gain(0, 1, 8), 0);
    assert_eq!(clue_gain(0, 0, 0), 1);
    assert_eq!(clue_gain(1, 0, 0), 2);
    assert_eq!(clue_gain(4, 0, 0), 3);
    assert_eq!(clue_gain(0, 0, 5), 0);
}

#[test]
fn gains_never_drop_with_more_skill() {
    for skill in -5..20 {
        assert!(info_gain(skill, 0, 3) <= info_gain(skill + 1, 0, 3));
        assert!(clue_gain(skill, 0, 3) <= clue_gain(skill + 1, 0, 3));
        assert!((0..=3).contains(&info_gain(skill, 2, 3)));
    }
}

#[test]
fn edits_keep_lines_before_the_first_matching_block() {
    let input = owned(espionage_input());
    let mut lines = input.clone();
    modify_espionage_operations(&mut lines, "operation_gather_information", "16777296").unwrap();
    assert_eq!(lines.len(), input.len());
    assert_eq!(lines[..7], input[..7]);
    let input = owned(archaeology_input());
    let mut lines = input.clone();
    modify_archaeology_sites(&mut lines, "site_rubricator").unwrap();
    assert_eq!(lines.len(), input.len());
    assert_eq!(lines[..4], input[..4]);
}

#[test]
fn entry_close_decisions() {
    let mut sc = EspScanner::new();
    assert_eq!(sc.entry_close(true), None);
    sc.in_log = true;
    sc.log_depth = 1;
    sc.after = 2;
    assert_eq!(sc.entry_close(true), Some(None));
    assert_eq!(sc.entry_close(false), None);
    sc.roll_line = Some(3);
    sc.info_line = Some(4);
    sc.skill = 5;
    sc.difficulty = 3;
    sc.total = 2;
    assert_eq!(sc.entry_close(true), Some(Some((3, 4, 5))));

    let mut ac = ArchScanner::new();
    ac.in_log = true;
    ac.log_depth = 1;
    ac.after = 2;
    ac.roll_line = Some(3);
    ac.clues_line = Some(4);
    assert_eq!(ac.entry_close(true), Some(None));
    ac.total_line = Some(5);
    ac.bonus = 1;
    ac.difficulty = 4;
    assert_eq!(ac.entry_close(true), Some(Some((3, 4, 5, 1))));
}

fn field_value(line: &str, field: &str) -> u64 {
    let t = line.trim_start();
    assert!(t.starts_with(field), "{line} does not start with {field}");
    t[field.len()..].parse().unwrap()
}

#[test]
fn edits_applied_twice_change_nothing_more() {
    let mut once = owned(espionage_input());
    modify_espionage_operations(&mut once, "operation_gather_information", "16777296").unwrap();
    let mut twice = once.clone();
    modify_espionage_operations(&mut twice, "operation_gather_information", "16777296").unwrap();
    assert_eq!(twice, once);

    let mut once = owned(archaeology_input());
    modify_archaeology_sites(&mut once, "site_rubricator").unwrap();
    let mut twice = once.clone();
    modify_archaeology_sites(&mut twice, "site_rubricator").unwrap();
    assert_eq!(twice, once);

    let mut once = owned(first_contacts_input());
    modify_first_contacts(&mut once, "0").unwrap();
    let mut twice = once.clone();
    modify_first_contacts(&mut twice, "0").unwrap();
    assert_eq!(twice, once);
}

#[test]
fn edits_only_rewrite_field_values() {
    let input = owned(espionage_input());
    let mut lines = input.clone();
    modify_espionage_operations(&mut lines, "operation_gather_information", "16777296").unwrap();
    for (before, after) in input.iter().zip(lines.iter()) {
        if before != after {
            let field = ["roll=", "info=", "last_roll="]
                .into_iter()
                .find(|f| before.trim_start().starts_with(f))
                .unwrap();
            field_value(after, field);
        }
    }
    let input = owned(archaeology_input());
    let mut lines = input.clone();
    modify_archaeology_sites(&mut lines, "site_rubricator").unwrap();
    for (before, after) in input.iter().zip(lines.iter()) {
        if before != after {
            let field = ["roll=", "total=", "clues=", "last_roll="]
                .into_iter()
                .find(|f| before.trim_start().starts_with(f))
                .unwrap();
            field_value(after, field);
        }
    }
}

#[test]
fn more_skill_never_gives_less_information() {
    let mut low = owned(espionage_input());
    let mut high = low.clone();
    high[17] = "\t\t\t\tskill=9".to_string();
    high[13] = "\t\t\t\tdifficulty=1".to_string();
    modify_espionage_operations(&mut low, "operation_gather_information", "16777296").unwrap();
    modify_espionage_operations(&mut high, "operation_gather_information", "16777296").unwrap();
    for j in [7, 12, 18, 22] {
        assert!(field_value(&low[j], "info=") <= field_value(&high[j], "info="));
    }
    assert_eq!(field_value(&low[22], "info="), 5);
    assert_eq!(field_value(&high[22], "info="), 6);
}

#[test]
fn more_bonus_never_gives_fewer_clues() {
    let mut low = owned(archaeology_input());
    let mut high = low.clone();
    high[15] = "\t\t\t\t\tbonus=9".to_string();
    modify_archaeology_sites(&mut low, "site_rubricator").unwrap();
    modify_archaeology_sites(&mut high, "site_rubricator").unwrap();
    for (j, field) in [(4, "clues="), (9, "clues="), (11, "total="), (16, "clues="), (18, "total=")] {
        assert!(field_value(&low[j], field) <= field_value(&high[j], field));
    }
    assert_eq!(field_value(&low[16], "clues="), 0);
    assert_eq!(field_value(&high[16], "clues="), 2);
}
