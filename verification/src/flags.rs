use crate::text::{chars_of, occurs_in, string_from_chars, views};
use aho_corasick::{AhoCorasick, BuildError};
use vstd::prelude::*;

verus! {

/// The multi-pattern searchers of the `aho_corasick` crate.
#[verifier::external_type_specification]
#[verifier::external_body]
pub struct ExAhoCorasick(AhoCorasick);

/// The error that `AhoCorasick::new` reports when it cannot build a
/// searcher.
#[verifier::external_type_specification]
#[verifier::external_body]
pub struct ExBuildError(BuildError);

/// The patterns whose `AhoCorasick::new` semantics the searcher follows:
/// the patterns it was built from, in the order given (pattern `k` of the
/// searcher is `ac_patterns(ac)[k]`). Only `AhoCorasick::new`, with its
/// default configuration, builds the searchers this crate holds.
pub uninterp spec fn ac_patterns(ac: AhoCorasick) -> Seq<Seq<char>>;

/// Whether `AhoCorasick::new` builds a searcher for these patterns.
pub uninterp spec fn ac_buildable(patterns: Seq<Seq<char>>) -> bool;

/// The pattern numbers of the successive non-overlapping matches that a
/// searcher with default (standard) match semantics reports in `hay`.
pub uninterp spec fn ac_match_ids(patterns: Seq<Seq<char>>, hay: Seq<char>) -> Seq<usize>;

/// The character contents of a list of string slices.
pub open spec fn str_views(v: Seq<&str>) -> Seq<Seq<char>> {
    v.map_values(|s: &str| s@)
}

/// `AhoCorasick::new` with the default configuration. Claimed: it succeeds
/// exactly when the patterns are buildable, and the searcher keeps the
/// patterns in the order given.
#[verifier::external_body]
fn ac_build(patterns: &Vec<&str>) -> (r: Result<AhoCorasick, BuildError>)
    ensures
        r is Ok <==> ac_buildable(str_views(patterns@)),
        r matches Ok(ac) ==> ac_patterns(ac) == str_views(patterns@),
{
    AhoCorasick::new(patterns)
}

/// `AhoCorasick::find_iter`, keeping each match's pattern number
/// (`Match::pattern` as `usize`). Claimed: the numbers are `ac_match_ids`
/// of the searcher's patterns and the haystack, each names one of the
/// patterns, and that pattern occurs in the haystack. Where the matches lie
/// is not stated.
#[verifier::external_body]
fn ac_find_ids(ac: &AhoCorasick, hay: &str) -> (ids: Vec<usize>)
    ensures
        ids@ == ac_match_ids(ac_patterns(*ac), hay@),
        forall|k: int|
            0 <= k < ids@.len() ==> {
                &&& (#[trigger] ids@[k]) < ac_patterns(*ac).len()
                &&& occurs_in(ac_patterns(*ac)[ids@[k] as int], hay@)
            },
{
    let mut ids = Vec::new();
    for m in ac.find_iter(hay) {
        ids.push(m.pattern().as_usize());
    }
    ids
}

/// The number of map flags that are queried.
pub open spec fn flag_count() -> nat {
    14
}

/// The keys that mark each map flag in the game state, in query order.
pub open spec fn flag_keys_spec() -> Seq<Seq<char>> {
    seq![
        "NAME_Crystal_Nidus"@,
        "fortress_country"@,
        "military_power"@,
        "fallen_machine_empire_awaken_1"@,
        "legendary_leader_spawn_system"@,
        "guardians_horror_system"@,
        "guardians_wraith_pulsar"@,
        "guardians_stellarite_system"@,
        "hatchling_egg"@,
        "guardians_hive_system"@,
        "horizonsignal_spawn"@,
        "gray_goo_crisis_set"@,
        "dragon_season"@,
        "gray_goo_empire_set"@,
    ]
}

/// The keys of the map flags, in query order.
pub fn flag_keys() -> (keys: Vec<&'static str>)
    ensures
        str_views(keys@) == flag_keys_spec(),
{
    let keys = vec![
        "NAME_Crystal_Nidus",
        "fortress_country",
        "military_power",
        "fallen_machine_empire_awaken_1",
        "legendary_leader_spawn_system",
        "guardians_horror_system",
        "guardians_wraith_pulsar",
        "guardians_stellarite_system",
        "hatchling_egg",
        "guardians_hive_system",
        "horizonsignal_spawn",
        "gray_goo_crisis_set",
        "dragon_season",
        "gray_goo_empire_set",
    ];
    assert(str_views(keys@) =~= flag_keys_spec());
    keys
}

/// The display names of the map flags, in query order.
pub open spec fn flag_labels_spec() -> Seq<Seq<char>> {
    seq![
        "红水晶甲"@,
        "神秘要塞"@,
        "无限神机"@,
        "好爹"@,
        "特殊星系-杜戈尔(遗珍-楔)"@,
        "位面之魇"@,
        "幽魂"@,
        "噬星者"@,
        "虚空孳孽"@,
        "蜂巢小行星"@,
        "时之虫"@,
        "L星团_灰蛊风暴"@,
        "L星团_L星龙"@,
        "L星团_协和国"@,
    ]
}

/// The display names of the map flags, in query order.
pub fn flag_labels() -> (labels: Vec<&'static str>)
    ensures
        str_views(labels@) == flag_labels_spec(),
{
    let labels = vec![
        "红水晶甲",
        "神秘要塞",
        "无限神机",
        "好爹",
        "特殊星系-杜戈尔(遗珍-楔)",
        "位面之魇",
        "幽魂",
        "噬星者",
        "虚空孳孽",
        "蜂巢小行星",
        "时之虫",
        "L星团_灰蛊风暴",
        "L星团_L星龙",
        "L星团_协和国",
    ];
    assert(str_views(labels@) =~= flag_labels_spec());
    labels
}

/// Flag `p` is set when pattern number `p` was matched.
pub open spec fn flags_spec(ids: Seq<usize>, n: nat) -> Seq<bool> {
    Seq::new(n, |p: int| ids.contains(p as usize))
}

/// Sets one flag per pattern from the pattern numbers of the matches found:
/// flag `p` is true exactly when `p` is among them.
pub fn flags_from_matches(ids: &Vec<usize>, n: usize) -> (found: Vec<bool>)
    requires
        forall|k: int| 0 <= k < ids@.len() ==> #[trigger] ids@[k] < n,
    ensures
        found@ == flags_spec(ids@, n as nat),
{
    let mut found: Vec<bool> = Vec::new();
    let mut p: usize = 0;
    while p < n
        invariant
            p <= n,
            found@.len() == p,
            forall|q: int| 0 <= q < p ==> found@[q] == false,
        decreases n - p,
    {
        found.push(false);
        p = p + 1;
    }
    let mut k: usize = 0;
    while k < ids.len()
        invariant
            k <= ids.len(),
            found@.len() == n,
            forall|j: int| 0 <= j < ids@.len() ==> #[trigger] ids@[j] < n,
            forall|q: int|
                0 <= q < n ==> found@[q] == (exists|j: int| 0 <= j < k && ids@[j] == q as usize),
        decreases ids.len() - k,
    {
        let id = ids[k];
        found.set(id, true);
        assert forall|q: int| 0 <= q < n implies found@[q] == (exists|j: int|
            0 <= j < k + 1 && ids@[j] == q as usize) by {
            if q == id as int {
                assert(ids@[k as int] == q as usize);
            } else {
                if exists|j: int| 0 <= j < k + 1 && ids@[j] == q as usize {
                    let j = choose|j: int| 0 <= j < k + 1 && ids@[j] == q as usize;
                    assert(j < k);
                }
            }
        }
        k = k + 1;
    }
    assert forall|q: int| 0 <= q < n implies found@[q] == ids@.contains(q as usize) by {
        if ids@.contains(q as usize) {
            let j = choose|j: int| 0 <= j < ids@.len() && ids@[j] == q as usize;
            assert(0 <= j < k && ids@[j] == q as usize);
        }
    }
    assert(found@ =~= flags_spec(ids@, n as nat));
    found
}

/// Why the map flags could not be queried.
#[derive(Debug, Clone, Copy, PartialEq, Eq)]
pub enum FlagError {
    /// The multi-pattern searcher could not be built for the keys.
    SearcherRefused,
}

/// Queries the map flags in the game state `data`: one flag per key of
/// `flag_keys`, set when the searcher reports a match of that key.
pub fn check_flags_optimized(data: &str) -> (r: Result<Vec<bool>, FlagError>)
    ensures
        r is Ok <==> ac_buildable(flag_keys_spec()),
        r matches Ok(found) ==> found@ == flags_spec(
            ac_match_ids(flag_keys_spec(), data@),
            flag_count(),
        ),
        r matches Ok(found) ==> forall|p: int|
            0 <= p < flag_count() && #[trigger] found@[p] ==> occurs_in(flag_keys_spec()[p], data@),
{
    let keys = flag_keys();
    let ac = match ac_build(&keys) {
        Ok(ac) => ac,
        Err(_) => return Err(FlagError::SearcherRefused),
    };
    let ids = ac_find_ids(&ac, data);
    let found = flags_from_matches(&ids, keys.len());
    assert forall|p: int| 0 <= p < flag_count() && #[trigger] found@[p] implies occurs_in(
        flag_keys_spec()[p],
        data@,
    ) by {
        let j = choose|j: int| 0 <= j < ids@.len() && ids@[j] == p as usize;
        assert(ids@[j] < ac_patterns(ac).len());
    }
    Ok(found)
}

/// The map flags and the keys that mark them, label by label, as the
/// query table pairs them.
pub proof fn law_flag_table()
    ensures
        flag_keys_spec().len() == flag_count(),
        flag_labels_spec().len() == flag_count(),
        flag_labels_spec()[0] == "红水晶甲"@ && flag_keys_spec()[0] == "NAME_Crystal_Nidus"@,
        flag_labels_spec()[1] == "神秘要塞"@ && flag_keys_spec()[1] == "fortress_country"@,
        flag_labels_spec()[2] == "无限神机"@ && flag_keys_spec()[2] == "military_power"@,
        flag_labels_spec()[3] == "好爹"@ && flag_keys_spec()[3] == "fallen_machine_empire_awaken_1"@,
        flag_labels_spec()[4] == "特殊星系-杜戈尔(遗珍-楔)"@ && flag_keys_spec()[4]
            == "legendary_leader_spawn_system"@,
        flag_labels_spec()[5] == "位面之魇"@ && flag_keys_spec()[5] == "guardians_horror_system"@,
        flag_labels_spec()[6] == "幽魂"@ && flag_keys_spec()[6] == "guardians_wraith_pulsar"@,
        flag_labels_spec()[7] == "噬星者"@ && flag_keys_spec()[7] == "guardians_stellarite_system"@,
        flag_labels_spec()[8] == "虚空孳孽"@ && flag_keys_spec()[8] == "hatchling_egg"@,
        flag_labels_spec()[9] == "蜂巢小行星"@ && flag_keys_spec()[9] == "guardians_hive_system"@,
        flag_labels_spec()[10] == "时之虫"@ && flag_keys_spec()[10] == "horizonsignal_spawn"@,
        flag_labels_spec()[11] == "L星团_灰蛊风暴"@ && flag_keys_spec()[11] == "gray_goo_crisis_set"@,
        flag_labels_spec()[12] == "L星团_L星龙"@ && flag_keys_spec()[12] == "dragon_season"@,
        flag_labels_spec()[13] == "L星团_协和国"@ && flag_keys_spec()[13] == "gray_goo_empire_set"@,
{
}

/// What the L-cluster holds, as the map flags tell it.
#[derive(Debug, Clone, Copy, PartialEq, Eq)]
pub enum LCluster {
    /// The gray tempest crisis.
    GrayTempest,
    /// The L-drake.
    Dragon,
    /// The Dessanu Consonance.
    Consonance,
    /// The nanite remnant ("小灰"), when no other outcome is flagged.
    Nanites,
}

/// The L-cluster outcome: the first of the gray tempest, the dragon and
/// the Consonance whose flag is set, else the nanite remnant.
pub open spec fn l_cluster_spec(found: Seq<bool>) -> LCluster {
    if found[11] {
        LCluster::GrayTempest
    } else if found[12] {
        LCluster::Dragon
    } else if found[13] {
        LCluster::Consonance
    } else {
        LCluster::Nanites
    }
}

/// The L-cluster outcome follows the flags in a fixed order of priority:
/// the gray tempest's flag (`gray_goo_crisis_set`) wins whenever it is set,
/// the dragon's (`dragon_season`) whenever it is set without the tempest's,
/// the Consonance's (`gray_goo_empire_set`) when only it is set among the
/// three, and the nanite remnant is the outcome exactly when none of the
/// three is set.
pub proof fn law_l_cluster_priority(found: Seq<bool>)
    requires
        found.len() >= flag_count(),
    ensures
        found[11] ==> l_cluster_spec(found) == LCluster::GrayTempest,
        !found[11] && found[12] ==> l_cluster_spec(found) == LCluster::Dragon,
        !found[11] && !found[12] && found[13] ==> l_cluster_spec(found) == LCluster::Consonance,
        (l_cluster_spec(found) == LCluster::Nanites) <==> (!found[11] && !found[12] && !found[13]),
        (l_cluster_spec(found) == LCluster::GrayTempest) <==> found[11],
{
}

/// Decides the L-cluster outcome from the map flags.
pub fn l_cluster_outcome(found: &Vec<bool>) -> (r: LCluster)
    requires
        found@.len() >= flag_count(),
    ensures
        r == l_cluster_spec(found@),
{
    if found[11] {
        LCluster::GrayTempest
    } else if found[12] {
        LCluster::Dragon
    } else if found[13] {
        LCluster::Consonance
    } else {
        LCluster::Nanites
    }
}


/// How a flag value is printed.
pub open spec fn bool_text(b: bool) -> Seq<char> {
    if b {
        "true"@
    } else {
        "false"@
    }
}

/// The report line of an L-cluster outcome.
pub open spec fn l_cluster_line_spec(o: LCluster) -> Seq<char> {
    match o {
        LCluster::GrayTempest => "L星团结果 = 灰蛊风暴 (True)"@,
        LCluster::Dragon => "L星团结果 = L星龙 (True)"@,
        LCluster::Consonance => "L星团结果 = 德萨努协和国 (True)"@,
        LCluster::Nanites => "L星团结果 = 小灰 (True)"@,
    }
}

/// The first line of the flag report.
pub open spec fn report_header() -> Seq<char> {
    "\n--- 🗺️ 地图查询结果 ---"@
}

/// The last line of the flag report.
pub open spec fn report_footer() -> Seq<char> {
    "------------------------\n"@
}

/// The lines of the flag report, each printed with a line ending after it:
/// the header, `<name> = <value>` for each of the first eleven flags in
/// query order, the L-cluster outcome, and the footer.
pub open spec fn flag_report_spec(found: Seq<bool>) -> Seq<Seq<char>> {
    seq![report_header()] + Seq::new(
        11,
        |i: int| flag_labels_spec()[i] + " = "@ + bool_text(found[i]),
    ) + seq![l_cluster_line_spec(l_cluster_spec(found)), report_footer()]
}

/// The string `a` followed by `b`.
fn concat_strs(a: &str, b: &str) -> (s: String)
    ensures
        s@ == a@ + b@,
{
    let mut v = chars_of(a);
    let w = chars_of(b);
    let ghost v0 = v@;
    let mut j: usize = 0;
    while j < w.len()
        invariant
            j <= w.len(),
            v@ == v0 + w@.take(j as int),
        decreases w.len() - j,
    {
        v.push(w[j]);
        j = j + 1;
    }
    assert(w@.take(w.len() as int) =~= w@);
    string_from_chars(&v)
}

/// Writes the flag report for the flags `found` (see `flag_report_spec`).
pub fn flag_report(found: &Vec<bool>) -> (lines: Vec<String>)
    requires
        found@.len() >= flag_count(),
    ensures
        views(lines@) == flag_report_spec(found@),
{
    let labels = flag_labels();
    let mut out: Vec<String> = Vec::new();
    out.push(String::from_str("\n--- 🗺️ 地图查询结果 ---"));
    let mut i: usize = 0;
    assert(labels@.len() == str_views(labels@).len());
    assert(views(out@) =~= seq![report_header()] + Seq::new(
        0,
        |k: int| flag_labels_spec()[k] + " = "@ + bool_text(found@[k]),
    ));
    while i < 11
        invariant
            i <= 11,
            found@.len() >= flag_count(),
            labels@.len() == 14,
            str_views(labels@) == flag_labels_spec(),
            views(out@) == seq![report_header()] + Seq::new(
                i as nat,
                |k: int| flag_labels_spec()[k] + " = "@ + bool_text(found@[k]),
            ),
        decreases 11 - i,
    {
        let ghost before = views(out@);
        assert(str_views(labels@)[i as int] == labels@[i as int]@);
        let named = concat_strs(labels[i], " = ");
        let value = if found[i] {
            "true"
        } else {
            "false"
        };
        assert(value@ == bool_text(found@[i as int]));
        let line = concat_strs(named.as_str(), value);
        assert(line@ == flag_labels_spec()[i as int] + " = "@ + bool_text(found@[i as int]));
        out.push(line);
        assert(views(out@) =~= before.push(line@));
        assert(views(out@) =~= seq![report_header()] + Seq::new(
            (i + 1) as nat,
            |k: int| flag_labels_spec()[k] + " = "@ + bool_text(found@[k]),
        ));
        i = i + 1;
    }
    let outcome = match l_cluster_outcome(found) {
        LCluster::GrayTempest => "L星团结果 = 灰蛊风暴 (True)",
        LCluster::Dragon => "L星团结果 = L星龙 (True)",
        LCluster::Consonance => "L星团结果 = 德萨努协和国 (True)",
        LCluster::Nanites => "L星团结果 = 小灰 (True)",
    };
    out.push(String::from_str(outcome));
    out.push(String::from_str("------------------------\n"));
    assert(views(out@) =~= flag_report_spec(found@));
    out
}

} // verus!
