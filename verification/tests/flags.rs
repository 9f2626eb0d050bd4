use stellaris_save_editor::flags::{
    check_flags_optimized, flag_keys, flag_labels, flag_report, flags_from_matches, l_cluster_outcome,
    LCluster,
};

#[test]
fn flags_follow_the_keys_found() {
    let data = "a={ flag=dragon_season } b=NAME_Crystal_Nidus c=hatchling_egg";
    let found = check_flags_optimized(data).unwrap();
    assert_eq!(found.len(), 14);
    let set: Vec<usize> = (0..14).filter(|&i| found[i]).collect();
    assert_eq!(set, vec![0, 8, 12]);
    assert_eq!(l_cluster_outcome(&found), LCluster::Dragon);
}

#[test]
fn no_flags_in_empty_data() {
    let found = check_flags_optimized("").unwrap();
    assert_eq!(found, vec![false; 14]);
    assert_eq!(l_cluster_outcome(&found), LCluster::Nanites);
}

#[test]
fn set_flags_name_keys_that_occur() {
    let data = "gray_goo_empire_set gray_goo_crisis_set military_power";
    let found = check_flags_optimized(data).unwrap();
    let keys = flag_keys();
    for i in 0..14 {
        assert_eq!(found[i], data.contains(keys[i]), "{}", keys[i]);
    }
}

#[test]
fn l_cluster_priority() {
    let mut found = vec![false; 14];
    found[13] = true;
    assert_eq!(l_cluster_outcome(&found), LCluster::Consonance);
    found[12] = true;
    assert_eq!(l_cluster_outcome(&found), LCluster::Dragon);
    found[11] = true;
    assert_eq!(l_cluster_outcome(&found), LCluster::GrayTempest);
}

#[test]
fn flags_from_match_numbers() {
    assert_eq!(flags_from_matches(&vec![2, 0, 2], 4), vec![true, false, true, false]);
    assert_eq!(flags_from_matches(&vec![], 2), vec![false, false]);
    assert_eq!(flags_from_matches(&vec![], 0), Vec::<bool>::new());
}

#[test]
fn keys_and_labels_line_up() {
    assert_eq!(flag_keys().len(), 14);
    assert_eq!(flag_labels().len(), 14);
    assert_eq!(flag_keys()[12], "dragon_season");
    assert_eq!(flag_labels()[12], "L星团_L星龙");
}

fn report_for(data: &str) -> String {
    let found = check_flags_optimized(data).unwrap();
    let mut out = String::new();
    for line in flag_report(&found) {
        out.push_str(&line);
        out.push('\n');
    }
    out
}

#[test]
fn report_of_empty_data() {
    assert_eq!(
        report_for(""),
        "\n--- 🗺️ 地图查询结果 ---\n红水晶甲 = false\n神秘要塞 = false\n无限神机 = false\n好爹 = false\n特殊星系-杜戈尔(遗珍-楔) = false\n位面之魇 = false\n幽魂 = false\n噬星者 = false\n虚空孳孽 = false\n蜂巢小行星 = false\n时之虫 = false\nL星团结果 = 小灰 (True)\n------------------------\n\n"
    );
}

#[test]
fn report_names_the_dragon_before_the_consonance() {
    let out = report_for("military_power=1 gray_goo_empire_set=1 dragon_season=1");
    assert!(out.contains("无限神机 = true\n"));
    assert!(out.contains("红水晶甲 = false\n"));
    assert!(out.contains("L星团结果 = L星龙 (True)\n"));
    assert_eq!(out.matches(" = true").count(), 1);
}

#[test]
fn report_names_the_gray_tempest_first() {
    let out = report_for("gray_goo_empire_set dragon_season gray_goo_crisis_set");
    assert_eq!(out.matches(" = true").count(), 0);
    assert!(out.contains("L星团结果 = 灰蛊风暴 (True)\n"));
}

#[test]
fn labels_in_query_order() {
    assert_eq!(
        flag_labels(),
        vec![
            "红水晶甲",
            "神秘要塞",
            "无限神机",
            "好爹",
            "特殊星系-杜戈尔(遗珍-楔)",
            "位面之魇",
            "幽魂",
            "噬星者",
            "虚空孳孽",
            "蜂巢小行星",
            "时之虫",
            "L星团_灰蛊风暴",
            "L星团_L星龙",
            "L星团_协和国",
        ]
    );
}

#[test]
fn overlapping_keys_are_reported_once() {
    // The searcher reports non-overlapping matches: a key that overlaps the
    // end of an earlier match is not reported.
    let found = check_flags_optimized("legendary_leader_spawn_systemilitary_power").unwrap();
    assert!(found[4]);
    assert!(!found[2]);
}
