use crate::pattern::{
    pat_difficulty, pat_id, pat_info_line, pat_info_value, pat_last_roll_line,
    pat_last_roll_value, pat_log, pat_roll_line, pat_skill, pat_target, pat_type, regex_group1,
    regex_is_match, regex_replace_first, regex_valid,
};
use crate::pattern::{compile_pattern, group1, is_match, regex_source, replace_first, type_pattern_text, EditError};
use crate::text::{
    char_limit, count_char, count_char_in, decimal, has_char, keyed_number, lemma_count_braces,
    lemma_count_char_contains, lemma_total_chars_prefix, line_chars, opt_index, parse_i32_or_zero,
    opt_view, parse_i32_or_zero_spec, set_line, total_chars, views,
};
use regex::Regex;
use vstd::prelude::*;

verus! {

/// The information that one finished log entry of an operation yields,
/// from the agent's skill, the information gathered so far and the
/// entry's difficulty, when every roll is ten.
pub open spec fn info_gain_spec(skill: int, total: int, difficulty: int) -> int {
    let a = 10 + skill + total - difficulty;
    if a >= 14 {
        3
    } else if a >= 9 {
        2
    } else if a >= 2 {
        1
    } else {
        0
    }
}

/// Computes `info_gain_spec`.
pub fn info_gain(skill: i32, total: i64, difficulty: i32) -> (g: i64)
    ensures
        g == info_gain_spec(skill as int, total as int, difficulty as int),
{
    let a: i128 = 10i128 + skill as i128 + total as i128 - difficulty as i128;
    if a >= 14 {
        3
    } else if a >= 9 {
        2
    } else if a >= 2 {
        1
    } else {
        0
    }
}

/// The state of the scan over the save's lines: the lines as edited so
/// far, the brace depth, and what is known of the enclosing blocks.
pub struct EspState {
    pub lines: Seq<Seq<char>>,
    /// Brace depth before the current line's closing braces are counted.
    pub depth: int,
    /// Brace depth after the current line.
    pub after: int,
    pub in_target: bool,
    pub target_depth: int,
    pub target_id: Seq<char>,
    pub in_op: bool,
    pub op_depth: int,
    pub in_log: bool,
    pub log_depth: int,
    pub total: int,
    pub info_line: Option<int>,
    pub roll_line: Option<int>,
    pub skill: int,
    pub difficulty: int,
}

/// The state before the first line.
pub open spec fn esp_init(lines: Seq<Seq<char>>) -> EspState {
    EspState {
        lines: lines,
        depth: 0,
        after: 0,
        in_target: false,
        target_depth: 0,
        target_id: Seq::empty(),
        in_op: false,
        op_depth: -1,
        in_log: false,
        log_depth: -1,
        total: 0,
        info_line: None,
        roll_line: None,
        skill: 0,
        difficulty: 0,
    }
}

/// What the scan needs to know of one line: its opening and closing
/// braces, and what the line patterns find in it.
pub struct EspFacts {
    pub opens: int,
    pub closes: int,
    /// It opens a `target` block.
    pub target: bool,
    /// The digits of its `id=` field, if it starts with one.
    pub id: Option<Seq<char>>,
    /// It names an operation of the chosen type.
    pub op_type: bool,
    /// It opens a `log` block.
    pub log: bool,
    /// It is an `info=` line.
    pub info: bool,
    /// It is a `roll=` line.
    pub roll: bool,
    /// The digits of a `skill=` field in it.
    pub skill: Option<Seq<char>>,
    /// The digits of a `difficulty=` field in it.
    pub difficulty: Option<Seq<char>>,
}

/// The facts of line `l` for operations of type `kind`.
pub open spec fn esp_facts(l: Seq<char>, kind: Seq<char>) -> EspFacts {
    EspFacts {
        opens: count_char(l, '{') as int,
        closes: count_char(l, '}') as int,
        target: regex_is_match(pat_target(), l),
        id: regex_group1(pat_id(), l),
        op_type: regex_is_match(pat_type(kind), l),
        log: regex_is_match(pat_log(), l),
        info: regex_is_match(pat_info_line(), l),
        roll: regex_is_match(pat_roll_line(), l),
        skill: regex_group1(pat_skill(), l),
        difficulty: regex_group1(pat_difficulty(), l),
    }
}

/// Reading line `i` with facts `f`: its braces, and the blocks and entry
/// fields it opens or names. An operation starts when the line names one
/// of the chosen type while the last target id read is `id`.
pub open spec fn esp_scan_facts(s: EspState, i: int, f: EspFacts, id: Seq<char>) -> EspState {
    let depth = s.depth + f.opens;
    let after = depth - f.closes;
    let in_target0 = f.target || s.in_target;
    let target_depth = if f.target {
        depth
    } else {
        s.target_depth
    };
    let target_id = if in_target0 && f.id is Some {
        f.id->0
    } else {
        s.target_id
    };
    let in_target = if in_target0 && f.closes > 0 && after < target_depth {
        false
    } else {
        in_target0
    };
    let op_start = f.op_type && target_id == id;
    let in_op = op_start || s.in_op;
    let op_depth = if op_start {
        depth - 1
    } else {
        s.op_depth
    };
    let total = if op_start {
        0
    } else {
        s.total
    };
    let log_start = in_op && f.log;
    let in_log = log_start || s.in_log;
    let log_depth = if log_start {
        op_depth + 1
    } else {
        s.log_depth
    };
    let in_entry = in_log && depth > log_depth + 1;
    let is_info = in_entry && f.info;
    let is_roll = in_entry && !is_info && f.roll;
    let is_skill = in_entry && !is_info && !is_roll && f.skill is Some;
    let is_diff = in_entry && !is_info && !is_roll && !is_skill && f.difficulty is Some;
    EspState {
        lines: s.lines,
        depth: depth,
        after: after,
        in_target: in_target,
        target_depth: target_depth,
        target_id: target_id,
        in_op: in_op,
        op_depth: op_depth,
        in_log: in_log,
        log_depth: log_depth,
        total: total,
        info_line: if is_info {
            Some(i)
        } else {
            s.info_line
        },
        roll_line: if is_roll {
            Some(i)
        } else {
            s.roll_line
        },
        skill: if is_skill {
            parse_i32_or_zero_spec(f.skill->0)
        } else {
            s.skill
        },
        difficulty: if is_diff {
            parse_i32_or_zero_spec(f.difficulty->0)
        } else {
            s.difficulty
        },
    }
}

/// Reading line `i`.
pub open spec fn esp_scan(s: EspState, i: int, kind: Seq<char>, id: Seq<char>) -> EspState {
    esp_scan_facts(s, i, esp_facts(s.lines[i], kind), id)
}

/// Closing a log entry on line `i`: when the entry had both a roll line and
/// an info line, the roll becomes ten, the running information grows by the
/// entry's gain and the entry's info line records the new running value;
/// the entry's fields are then forgotten.
pub open spec fn esp_close_entry(s: EspState, i: int) -> EspState {
    match esp_entry_close(s, s.lines[i].contains('}')) {
        None => s,
        Some(action) => {
            let s2 = match action {
                Some((r, k, total)) => {
                    let lines1 = s.lines.update(
                        r,
                        regex_replace_first(pat_roll_line(), s.lines[r], "roll=10"@),
                    );
                    let lines2 = lines1.update(
                        k,
                        regex_replace_first(
                            pat_info_value(),
                            lines1[k],
                            "info="@ + decimal(total as nat),
                        ),
                    );
                    EspState { lines: lines2, total: total, ..s }
                },
                None => s,
            };
            EspState { info_line: None, roll_line: None, skill: 0, difficulty: 0, ..s2 }
        },
    }
}

/// What a line that `closes` a block does to the current log entry:
/// nothing (`None`) unless it closes the entry; then the entry is replayed
/// when it had both a roll line and an info line (`Some(Some((roll line,
/// info line, new running information)))`), and otherwise only forgotten
/// (`Some(None)`).
pub open spec fn esp_entry_close(s: EspState, closes: bool) -> Option<Option<(int, int, int)>> {
    if s.in_log && closes && s.after == s.log_depth + 1 {
        if s.roll_line is Some && s.info_line is Some {
            Some(
                Some(
                    (
                        s.roll_line->0,
                        s.info_line->0,
                        s.total + info_gain_spec(s.skill, s.total, s.difficulty),
                    ),
                ),
            )
        } else {
            Some(None)
        }
    } else {
        None
    }
}

/// An entry-closing decision with mathematical integers.
pub open spec fn esp_close_view(r: Option<Option<(usize, usize, i64)>>) -> Option<
    Option<(int, int, int)>,
> {
    match r {
        None => None,
        Some(None) => Some(None),
        Some(Some((r, k, t))) => Some(Some((r as int, k as int, t as int))),
    }
}

/// Closing the log block, then rewriting the operation's own `info` and
/// `last_roll` lines, then closing the operation; the line's depth becomes
/// the running depth.
pub open spec fn esp_finish_line(s: EspState, i: int) -> EspState {
    let in_log = if s.in_log && s.lines[i].contains('}') && s.after == s.log_depth {
        false
    } else {
        s.in_log
    };
    let l = s.lines[i];
    let lines = if s.in_op && !in_log && s.after == s.op_depth + 1 {
        if regex_is_match(pat_info_line(), l) {
            s.lines.update(
                i,
                regex_replace_first(pat_info_value(), l, "info="@ + decimal(s.total as nat)),
            )
        } else if regex_is_match(pat_last_roll_line(), l) {
            s.lines.update(i, regex_replace_first(pat_last_roll_value(), l, "last_roll=10"@))
        } else {
            s.lines
        }
    } else {
        s.lines
    };
    let close_op = s.in_op && lines[i].contains('}') && s.after <= s.op_depth;
    EspState {
        lines: lines,
        depth: s.after,
        in_log: in_log,
        in_op: if close_op {
            false
        } else {
            s.in_op
        },
        target_id: if close_op {
            Seq::empty()
        } else {
            s.target_id
        },
        ..s
    }
}

/// One line of the scan.
pub open spec fn esp_step(s: EspState, i: int, kind: Seq<char>, id: Seq<char>) -> EspState {
    esp_finish_line(esp_close_entry(esp_scan(s, i, kind, id), i), i)
}

/// The state after the first `n` lines.
pub open spec fn esp_run(lines: Seq<Seq<char>>, kind: Seq<char>, id: Seq<char>, n: nat) -> EspState
    decreases n,
{
    if n == 0 {
        esp_init(lines)
    } else {
        esp_step(esp_run(lines, kind, id, (n - 1) as nat), n - 1, kind, id)
    }
}

/// The lines after the espionage edit of operations of type `kind` against
/// the target with id `id`.
pub open spec fn espionage_result(lines: Seq<Seq<char>>, kind: Seq<char>, id: Seq<char>) -> Seq<
    Seq<char>,
> {
    esp_run(lines, kind, id, lines.len()).lines
}

/// All the patterns of the espionage edit compile.
pub open spec fn espionage_patterns_valid(kind: Seq<char>) -> bool {
    &&& regex_valid(pat_target())
    &&& regex_valid(pat_id())
    &&& regex_valid(pat_type(kind))
    &&& regex_valid(pat_log())
    &&& regex_valid(pat_info_line())
    &&& regex_valid(pat_roll_line())
    &&& regex_valid(pat_skill())
    &&& regex_valid(pat_difficulty())
    &&& regex_valid(pat_last_roll_line())
    &&& regex_valid(pat_info_value())
    &&& regex_valid(pat_last_roll_value())
}


/// The information an entry yields lies between none and three, and a
/// more skilled agent, more information already gathered or an easier
/// entry never yields less.
pub proof fn law_info_gain_bounded_monotone(
    skill1: int,
    total1: int,
    difficulty1: int,
    skill2: int,
    total2: int,
    difficulty2: int,
)
    ensures
        0 <= info_gain_spec(skill1, total1, difficulty1) <= 3,
        skill1 <= skill2 && total1 <= total2 && difficulty2 <= difficulty1 ==> info_gain_spec(
            skill1,
            total1,
            difficulty1,
        ) <= info_gain_spec(skill2, total2, difficulty2),
{
}

/// The information already gathered counts exactly like skill, and the
/// difficulty exactly against it: an entry's yield depends only on
/// `skill + total - difficulty`.
pub proof fn law_info_gain_depends_on_the_sum(skill: int, total: int, difficulty: int)
    ensures
        info_gain_spec(skill, total, difficulty) == info_gain_spec(skill + total, 0, difficulty),
        info_gain_spec(skill, total, difficulty) == info_gain_spec(0, 0, difficulty - skill - total),
{
}

/// While no line read so far opens an operation of the chosen type, the
/// scan has entered no operation, log or entry, and has changed no line.
proof fn lemma_esp_run_idle(lines: Seq<Seq<char>>, kind: Seq<char>, id: Seq<char>, n: nat)
    requires
        n <= lines.len(),
        forall|j: int| 0 <= j < n ==> !regex_is_match(pat_type(kind), #[trigger] lines[j]),
    ensures
        esp_run(lines, kind, id, n).lines == lines,
        !esp_run(lines, kind, id, n).in_op,
        !esp_run(lines, kind, id, n).in_log,
        esp_run(lines, kind, id, n).info_line is None,
        esp_run(lines, kind, id, n).roll_line is None,
    decreases n,
{
    if n > 0 {
        lemma_esp_run_idle(lines, kind, id, (n - 1) as nat);
        assert(!regex_is_match(pat_type(kind), lines[n - 1]));
    }
}

/// While no `id=` value read so far is the requested id, the scan has
/// entered no operation, log or entry, has changed no line, and its last
/// target id read is not the requested one.
proof fn lemma_esp_run_other_target(lines: Seq<Seq<char>>, kind: Seq<char>, id: Seq<char>, n: nat)
    requires
        n <= lines.len(),
        id.len() > 0,
        forall|j: int| 0 <= j < n ==> #[trigger] regex_group1(pat_id(), lines[j]) != Some(id),
    ensures
        esp_run(lines, kind, id, n).lines == lines,
        !esp_run(lines, kind, id, n).in_op,
        !esp_run(lines, kind, id, n).in_log,
        esp_run(lines, kind, id, n).target_id != id,
    decreases n,
{
    if n > 0 {
        lemma_esp_run_other_target(lines, kind, id, (n - 1) as nat);
        assert(regex_group1(pat_id(), lines[n - 1]) != Some(id));
    } else {
        assert(Seq::<char>::empty().len() == 0);
    }
}

/// An operation is replayed only against the target whose id is exactly
/// the requested one: when no `id=` value in the lines is the requested
/// (non-empty) id, as text, the espionage edit changes nothing, even where
/// a target's id merely starts with the requested id.
pub proof fn law_espionage_needs_the_exact_target_id(
    lines: Seq<Seq<char>>,
    kind: Seq<char>,
    id: Seq<char>,
)
    requires
        id.len() > 0,
        forall|j: int| 0 <= j < lines.len() ==> #[trigger] regex_group1(pat_id(), lines[j]) != Some(id),
    ensures
        espionage_result(lines, kind, id) == lines,
{
    lemma_esp_run_other_target(lines, kind, id, lines.len());
}

/// Once the first `m` lines open no operation of the chosen type, the scan
/// keeps them as they are, remembers only later entry lines, and keeps
/// the number of lines.
proof fn lemma_esp_run_prefix(
    lines: Seq<Seq<char>>,
    kind: Seq<char>,
    id: Seq<char>,
    m: nat,
    n: nat,
)
    requires
        m <= n <= lines.len(),
        forall|j: int| 0 <= j < m ==> !regex_is_match(pat_type(kind), #[trigger] lines[j]),
    ensures
        esp_run(lines, kind, id, n).lines.len() == lines.len(),
        forall|j: int| 0 <= j < m ==> #[trigger] esp_run(lines, kind, id, n).lines[j] == lines[j],
        esp_indices_ok(esp_run(lines, kind, id, n), n - 1),
        esp_run(lines, kind, id, n).info_line matches Some(k) ==> k >= m,
        esp_run(lines, kind, id, n).roll_line matches Some(k) ==> k >= m,
    decreases n,
{
    if n == m {
        lemma_esp_run_idle(lines, kind, id, n);
    } else {
        lemma_esp_run_prefix(lines, kind, id, m, (n - 1) as nat);
    }
}

/// An espionage edit never touches the lines before the first line that
/// names an operation of the chosen type: for every `m` such that none of
/// the first `m` lines names one, those lines come back as they were.
pub proof fn law_espionage_keeps_lines_before_first_operation(
    lines: Seq<Seq<char>>,
    kind: Seq<char>,
    id: Seq<char>,
    m: nat,
)
    requires
        m <= lines.len(),
        forall|j: int| 0 <= j < m ==> !regex_is_match(pat_type(kind), #[trigger] lines[j]),
    ensures
        espionage_result(lines, kind, id).len() == lines.len(),
        forall|j: int| 0 <= j < m ==> #[trigger] espionage_result(lines, kind, id)[j] == lines[j],
{
    lemma_esp_run_prefix(lines, kind, id, m, lines.len());
}

/// When no line names an operation of the chosen type, the espionage edit
/// leaves every line as it was.
pub proof fn law_espionage_without_operation_changes_nothing(
    lines: Seq<Seq<char>>,
    kind: Seq<char>,
    id: Seq<char>,
)
    requires
        forall|j: int| 0 <= j < lines.len() ==> !regex_is_match(pat_type(kind), #[trigger] lines[j]),
    ensures
        espionage_result(lines, kind, id) == lines,
{
    lemma_esp_run_idle(lines, kind, id, lines.len());
}

/// One rewrite of the espionage edit, with the value it writes; each
/// replaces the first match of its pattern.
pub enum EspRewrite {
    /// A `roll=<n>` at the line's start becomes `roll=10`.
    Roll,
    /// An `info=<n>` becomes `info=<m>`.
    Info(nat),
    /// A `last_roll=<n>` becomes `last_roll=10`.
    LastRoll,
}

/// Applies rewrite `w` to text `x`.
pub open spec fn esp_apply(w: EspRewrite, x: Seq<char>) -> Seq<char> {
    match w {
        EspRewrite::Roll => regex_replace_first(pat_roll_line(), x, "roll=10"@),
        EspRewrite::Info(m) => regex_replace_first(pat_info_value(), x, "info="@ + decimal(m)),
        EspRewrite::LastRoll => regex_replace_first(pat_last_roll_value(), x, "last_roll=10"@),
    }
}

/// One of the espionage edit's rewrites turns text `x` into `y`.
pub open spec fn esp_rewrite_step(x: Seq<char>, y: Seq<char>) -> bool {
    exists|w: EspRewrite| y == #[trigger] esp_apply(w, x)
}

/// `c` is a chain of the espionage edit's rewrites from `x` to `y`: each
/// text in it is one rewrite of the one before.
pub open spec fn esp_chain(x: Seq<char>, y: Seq<char>, c: Seq<Seq<char>>) -> bool {
    &&& c.len() >= 1
    &&& c[0] == x
    &&& c.last() == y
    &&& forall|t: int| 0 <= t < c.len() - 1 ==> #[trigger] esp_rewrite_step(c[t], c[t + 1])
}

/// `y` is `x` after at most `d` of the espionage edit's rewrites.
pub open spec fn esp_derived(x: Seq<char>, y: Seq<char>, d: nat) -> bool {
    exists|c: Seq<Seq<char>>| c.len() <= d + 1 && #[trigger] esp_chain(x, y, c)
}

/// A text is derived from itself with no rewrite.
proof fn lemma_esp_derived_refl(x: Seq<char>, d: nat)
    ensures
        esp_derived(x, x, d),
{
    assert(esp_chain(x, x, seq![x]));
}

/// A text derived with at most `d` rewrites is derived with at most `e >= d`.
proof fn lemma_esp_derived_mono(x: Seq<char>, y: Seq<char>, d: nat, e: nat)
    requires
        esp_derived(x, y, d),
        d <= e,
    ensures
        esp_derived(x, y, e),
{
    let c = choose|c: Seq<Seq<char>>| c.len() <= d + 1 && #[trigger] esp_chain(x, y, c);
    assert(esp_chain(x, y, c));
}

/// One more rewrite after at most `d` rewrites makes at most `e > d`.
proof fn lemma_esp_derived_next(x: Seq<char>, z: Seq<char>, y: Seq<char>, d: nat, e: nat)
    requires
        esp_derived(x, z, d),
        esp_rewrite_step(z, y),
        d < e,
    ensures
        esp_derived(x, y, e),
{
    let c = choose|c: Seq<Seq<char>>| c.len() <= d + 1 && #[trigger] esp_chain(x, z, c);
    let c2 = c.push(y);
    assert forall|t: int| 0 <= t < c2.len() - 1 implies #[trigger] esp_rewrite_step(
        c2[t],
        c2[t + 1],
    ) by {
        if t < c.len() - 1 {
            assert(esp_rewrite_step(c[t], c[t + 1]));
        }
    }
    assert(esp_chain(x, y, c2));
}

/// Allowing more rewrites keeps every line derived.
proof fn lemma_esp_derived_more(orig: Seq<Seq<char>>, lines: Seq<Seq<char>>, d: nat, e: nat)
    requires
        lines.len() == orig.len(),
        d <= e,
        forall|j: int| 0 <= j < orig.len() ==> #[trigger] esp_derived(orig[j], lines[j], d),
    ensures
        forall|j: int| 0 <= j < orig.len() ==> #[trigger] esp_derived(orig[j], lines[j], e),
{
    assert forall|j: int| 0 <= j < orig.len() implies #[trigger] esp_derived(
        orig[j],
        lines[j],
        e,
    ) by {
        lemma_esp_derived_mono(orig[j], lines[j], d, e);
    }
}

/// Rewriting one line once more keeps every line derived.
proof fn lemma_esp_derived_update(
    orig: Seq<Seq<char>>,
    lines: Seq<Seq<char>>,
    d: nat,
    e: nat,
    k: int,
    y: Seq<char>,
)
    requires
        lines.len() == orig.len(),
        0 <= k < orig.len(),
        d < e,
        forall|j: int| 0 <= j < orig.len() ==> #[trigger] esp_derived(orig[j], lines[j], d),
        esp_rewrite_step(lines[k], y),
    ensures
        forall|j: int|
            0 <= j < orig.len() ==> #[trigger] esp_derived(orig[j], lines.update(k, y)[j], e),
{
    assert forall|j: int| 0 <= j < orig.len() implies #[trigger] esp_derived(
        orig[j],
        lines.update(k, y)[j],
        e,
    ) by {
        if j == k {
            lemma_esp_derived_next(orig[k], lines[k], y, d, e);
        } else {
            lemma_esp_derived_mono(orig[j], lines[j], d, e);
        }
    }
}

/// One line of the scan adds at most three rewrites to any line.
proof fn lemma_esp_step_derived(
    orig: Seq<Seq<char>>,
    s: EspState,
    i: int,
    kind: Seq<char>,
    id: Seq<char>,
    d: nat,
    e: nat,
)
    requires
        s.lines.len() == orig.len(),
        0 <= i < orig.len(),
        d + 3 <= e,
        esp_indices_ok(s, i - 1),
        forall|j: int| 0 <= j < orig.len() ==> #[trigger] esp_derived(orig[j], s.lines[j], d),
    ensures
        esp_step(s, i, kind, id).lines.len() == orig.len(),
        forall|j: int|
            0 <= j < orig.len() ==> #[trigger] esp_derived(
                orig[j],
                esp_step(s, i, kind, id).lines[j],
                e,
            ),
{
    let d1: nat = d + 1;
    let d2: nat = d + 2;
    let s1 = esp_scan(s, i, kind, id);
    let s2 = esp_close_entry(s1, i);
    let s3 = esp_finish_line(s2, i);
    assert(s1.lines == s.lines);
    match esp_entry_close(s1, s1.lines[i].contains('}')) {
        Some(Some((r, k, total))) => {
            let y1 = esp_apply(EspRewrite::Roll, s1.lines[r]);
            lemma_esp_derived_update(orig, s1.lines, d, d1, r, y1);
            let lines1 = s1.lines.update(r, y1);
            let y2 = esp_apply(EspRewrite::Info(total as nat), lines1[k]);
            lemma_esp_derived_update(orig, lines1, d1, d2, k, y2);
            assert(s2.lines == lines1.update(k, y2));
        },
        _ => {
            lemma_esp_derived_more(orig, s1.lines, d, d2);
        },
    }
    assert(forall|j: int| 0 <= j < orig.len() ==> #[trigger] esp_derived(orig[j], s2.lines[j], d2));
    if s3.lines == s2.lines {
        lemma_esp_derived_more(orig, s2.lines, d2, e);
    } else {
        let l = s2.lines[i];
        if regex_is_match(pat_info_line(), l) {
            let y = esp_apply(EspRewrite::Info(s2.total as nat), l);
            lemma_esp_derived_update(orig, s2.lines, d2, e, i, y);
        } else {
            let y = esp_apply(EspRewrite::LastRoll, l);
            lemma_esp_derived_update(orig, s2.lines, d2, e, i, y);
        }
    }
}

/// After `n` lines, every line is its original text after at most `3 n`
/// of the edit's rewrites.
proof fn lemma_esp_run_derived(lines: Seq<Seq<char>>, kind: Seq<char>, id: Seq<char>, n: nat)
    requires
        n <= lines.len(),
    ensures
        esp_run(lines, kind, id, n).lines.len() == lines.len(),
        forall|j: int|
            0 <= j < lines.len() ==> #[trigger] esp_derived(
                lines[j],
                esp_run(lines, kind, id, n).lines[j],
                3 * n,
            ),
    decreases n,
{
    if n == 0 {
        assert forall|j: int| 0 <= j < lines.len() implies #[trigger] esp_derived(
            lines[j],
            esp_run(lines, kind, id, n).lines[j],
            3 * n,
        ) by {
            lemma_esp_derived_refl(lines[j], 0);
        }
    } else {
        lemma_esp_run_derived(lines, kind, id, (n - 1) as nat);
        lemma_esp_run_prefix(lines, kind, id, 0, (n - 1) as nat);
        lemma_esp_step_derived(
            lines,
            esp_run(lines, kind, id, (n - 1) as nat),
            n - 1,
            kind,
            id,
            (3 * (n - 1)) as nat,
            3 * n,
        );
    }
}

/// Every line that the espionage edit writes is its original text after
/// some of the edit's own rewrites, each replacing the first match:
/// `roll=10` for a roll line, `info=<m>` for an info value, `last_roll=10`
/// for a last-roll value (at most three per line read). No other change is
/// made to any line.
pub proof fn law_espionage_rewrites_by_replacement(
    lines: Seq<Seq<char>>,
    kind: Seq<char>,
    id: Seq<char>,
)
    ensures
        espionage_result(lines, kind, id).len() == lines.len(),
        forall|j: int|
            0 <= j < lines.len() ==> #[trigger] esp_derived(
                lines[j],
                espionage_result(lines, kind, id)[j],
                3 * lines.len(),
            ),
{
    lemma_esp_run_derived(lines, kind, id, lines.len());
}

/// Applies the rewrites `ws` to text `x`, first to last.
pub open spec fn esp_apply_all(ws: Seq<EspRewrite>, x: Seq<char>) -> Seq<char>
    decreases ws.len(),
{
    if ws.len() == 0 {
        x
    } else {
        esp_apply(ws.last(), esp_apply_all(ws.drop_last(), x))
    }
}

/// Line `l` is stable under the espionage edit's rewrites: whatever
/// rewrites are applied to it, the line patterns find in it what they find
/// in `l`, and applying the same rewrites a second time changes nothing.
pub open spec fn esp_line_stable(l: Seq<char>, kind: Seq<char>) -> bool {
    &&& forall|ws: Seq<EspRewrite>|
        #![trigger esp_apply_all(ws, l)]
        esp_facts(esp_apply_all(ws, l), kind) == esp_facts(l, kind) && regex_is_match(
            pat_last_roll_line(),
            esp_apply_all(ws, l),
        ) == regex_is_match(pat_last_roll_line(), l)
    &&& forall|ws: Seq<EspRewrite>|
        #![trigger esp_apply_all(ws, l)]
        esp_apply_all(ws, esp_apply_all(ws, l)) == esp_apply_all(ws, l)
}

/// Line `j` reads `x` in one run and `y` in the other, both after the
/// same rewrites of the given lines `a[j]` and `b[j]`.
pub open spec fn esp_twin(a: Seq<Seq<char>>, b: Seq<Seq<char>>, j: int, x: Seq<char>, y: Seq<char>) -> bool {
    exists|ws: Seq<EspRewrite>| x == #[trigger] esp_apply_all(ws, a[j]) && y == esp_apply_all(ws, b[j])
}

/// Every line of `xs` and `ys` is a twin (see `esp_twin`).
pub open spec fn esp_twins(a: Seq<Seq<char>>, b: Seq<Seq<char>>, xs: Seq<Seq<char>>, ys: Seq<Seq<char>>) -> bool {
    &&& xs.len() == a.len()
    &&& ys.len() == a.len()
    &&& b.len() == a.len()
    &&& forall|j: int| 0 <= j < a.len() ==> #[trigger] esp_twin(a, b, j, xs[j], ys[j])
}

/// The line patterns find the same in every rewrite of a line of `a` as
/// in every rewrite of the same line of `b`.
pub open spec fn esp_alike(a: Seq<Seq<char>>, b: Seq<Seq<char>>, kind: Seq<char>) -> bool {
    forall|j: int, ws: Seq<EspRewrite>, vs: Seq<EspRewrite>|
        #![trigger esp_apply_all(ws, a[j]), esp_apply_all(vs, b[j])]
        0 <= j < a.len() ==> esp_facts(esp_apply_all(ws, a[j]), kind) == esp_facts(
            esp_apply_all(vs, b[j]),
            kind,
        ) && regex_is_match(pat_last_roll_line(), esp_apply_all(ws, a[j])) == regex_is_match(
            pat_last_roll_line(),
            esp_apply_all(vs, b[j]),
        )
}

/// Applying one more rewrite.
proof fn lemma_esp_apply_push(ws: Seq<EspRewrite>, w: EspRewrite, x: Seq<char>)
    ensures
        esp_apply_all(ws.push(w), x) == esp_apply(w, esp_apply_all(ws, x)),
{
    assert(ws.push(w).drop_last() =~= ws);
}

/// Applying `vs` after `ws` is applying `ws + vs`.
proof fn lemma_esp_apply_concat(ws: Seq<EspRewrite>, vs: Seq<EspRewrite>, x: Seq<char>)
    ensures
        esp_apply_all(vs, esp_apply_all(ws, x)) == esp_apply_all(ws + vs, x),
    decreases vs.len(),
{
    if vs.len() == 0 {
        assert(ws + vs =~= ws);
    } else {
        lemma_esp_apply_concat(ws, vs.drop_last(), x);
        assert((ws + vs).drop_last() =~= ws + vs.drop_last());
        assert((ws + vs).last() == vs.last());
    }
}

/// Twins stay twins when both get the same rewrite at line `t`.
proof fn lemma_esp_twins_update(
    a: Seq<Seq<char>>,
    b: Seq<Seq<char>>,
    xs: Seq<Seq<char>>,
    ys: Seq<Seq<char>>,
    t: int,
    w: EspRewrite,
)
    requires
        esp_twins(a, b, xs, ys),
        0 <= t < a.len(),
    ensures
        esp_twins(a, b, xs.update(t, esp_apply(w, xs[t])), ys.update(t, esp_apply(w, ys[t]))),
{
    let xs2 = xs.update(t, esp_apply(w, xs[t]));
    let ys2 = ys.update(t, esp_apply(w, ys[t]));
    assert forall|j: int| 0 <= j < a.len() implies #[trigger] esp_twin(a, b, j, xs2[j], ys2[j]) by {
        assert(esp_twin(a, b, j, xs[j], ys[j]));
        if j == t {
            let ws = choose|ws: Seq<EspRewrite>|
                xs[j] == #[trigger] esp_apply_all(ws, a[j]) && ys[j] == esp_apply_all(ws, b[j]);
            lemma_esp_apply_push(ws, w, a[j]);
            lemma_esp_apply_push(ws, w, b[j]);
            assert(xs2[j] == esp_apply_all(ws.push(w), a[j]));
        }
    }
}

/// Twin lines look alike to the line patterns.
proof fn lemma_esp_twin_facts(
    a: Seq<Seq<char>>,
    b: Seq<Seq<char>>,
    kind: Seq<char>,
    j: int,
    x: Seq<char>,
    y: Seq<char>,
)
    requires
        esp_alike(a, b, kind),
        0 <= j < a.len(),
        esp_twin(a, b, j, x, y),
    ensures
        esp_facts(x, kind) == esp_facts(y, kind),
        regex_is_match(pat_last_roll_line(), x) == regex_is_match(pat_last_roll_line(), y),
        x.contains('}') == y.contains('}'),
{
    let ws = choose|ws: Seq<EspRewrite>| x == #[trigger] esp_apply_all(ws, a[j]) && y == esp_apply_all(ws, b[j]);
    assert(esp_facts(esp_apply_all(ws, a[j]), kind) == esp_facts(esp_apply_all(ws, b[j]), kind));
    lemma_count_char_contains(x, '}');
    lemma_count_char_contains(y, '}');
}

/// Two scans whose lines are twins and whose other variables agree read
/// line `i` alike: afterwards the lines are twins again and the other
/// variables agree.
proof fn lemma_esp_step_twins(
    a: Seq<Seq<char>>,
    b: Seq<Seq<char>>,
    s: EspState,
    u: EspState,
    i: int,
    kind: Seq<char>,
    id: Seq<char>,
)
    requires
        esp_alike(a, b, kind),
        esp_twins(a, b, s.lines, u.lines),
        u == (EspState { lines: u.lines, ..s }),
        0 <= i < a.len(),
        esp_indices_ok(s, i - 1),
    ensures
        esp_twins(a, b, esp_step(s, i, kind, id).lines, esp_step(u, i, kind, id).lines),
        esp_step(u, i, kind, id) == (EspState {
            lines: esp_step(u, i, kind, id).lines,
            ..esp_step(s, i, kind, id)
        }),
{
    lemma_esp_twin_facts(a, b, kind, i, s.lines[i], u.lines[i]);
    let s1 = esp_scan(s, i, kind, id);
    let u1 = esp_scan(u, i, kind, id);
    assert(u1 == (EspState { lines: u1.lines, ..s1 }));
    let s2 = esp_close_entry(s1, i);
    let u2 = esp_close_entry(u1, i);
    match esp_entry_close(s1, s1.lines[i].contains('}')) {
        Some(Some((r, k, total))) => {
            lemma_esp_twins_update(a, b, s1.lines, u1.lines, r, EspRewrite::Roll);
            let xs1 = s1.lines.update(r, esp_apply(EspRewrite::Roll, s1.lines[r]));
            let ys1 = u1.lines.update(r, esp_apply(EspRewrite::Roll, u1.lines[r]));
            lemma_esp_twins_update(a, b, xs1, ys1, k, EspRewrite::Info(total as nat));
            assert(s2.lines == xs1.update(k, esp_apply(EspRewrite::Info(total as nat), xs1[k])));
            assert(u2.lines == ys1.update(k, esp_apply(EspRewrite::Info(total as nat), ys1[k])));
        },
        _ => {},
    }
    assert(u2 == (EspState { lines: u2.lines, ..s2 }));
    lemma_esp_twin_facts(a, b, kind, i, s2.lines[i], u2.lines[i]);
    let s3 = esp_finish_line(s2, i);
    let u3 = esp_finish_line(u2, i);
    let in_log = if s2.in_log && s2.lines[i].contains('}') && s2.after == s2.log_depth {
        false
    } else {
        s2.in_log
    };
    if s2.in_op && !in_log && s2.after == s2.op_depth + 1 {
        if regex_is_match(pat_info_line(), s2.lines[i]) {
            lemma_esp_twins_update(a, b, s2.lines, u2.lines, i, EspRewrite::Info(s2.total as nat));
        } else if regex_is_match(pat_last_roll_line(), s2.lines[i]) {
            lemma_esp_twins_update(a, b, s2.lines, u2.lines, i, EspRewrite::LastRoll);
        }
    }
    assert(esp_twins(a, b, s3.lines, u3.lines));
    lemma_esp_twin_facts(a, b, kind, i, s3.lines[i], u3.lines[i]);
}

/// Scanning `a` and `b` walks through states whose lines are twins and
/// whose other variables agree.
proof fn lemma_esp_run_twins(
    a: Seq<Seq<char>>,
    b: Seq<Seq<char>>,
    kind: Seq<char>,
    id: Seq<char>,
    n: nat,
)
    requires
        esp_alike(a, b, kind),
        b.len() == a.len(),
        n <= a.len(),
    ensures
        esp_twins(a, b, esp_run(a, kind, id, n).lines, esp_run(b, kind, id, n).lines),
        esp_run(b, kind, id, n) == (EspState {
            lines: esp_run(b, kind, id, n).lines,
            ..esp_run(a, kind, id, n)
        }),
    decreases n,
{
    if n == 0 {
        assert forall|j: int| 0 <= j < a.len() implies #[trigger] esp_twin(a, b, j, a[j], b[j]) by {
            let ws = Seq::<EspRewrite>::empty();
            assert(esp_apply_all(ws, a[j]) == a[j]);
            assert(esp_apply_all(ws, b[j]) == b[j]);
        }
    } else {
        lemma_esp_run_twins(a, b, kind, id, (n - 1) as nat);
        lemma_esp_run_prefix(a, kind, id, 0, (n - 1) as nat);
        lemma_esp_step_twins(
            a,
            b,
            esp_run(a, kind, id, (n - 1) as nat),
            esp_run(b, kind, id, (n - 1) as nat),
            n - 1,
            kind,
            id,
        );
    }
}

/// Running the espionage edit again on its own result changes nothing,
/// where every line is stable under the edit's rewrites (see
/// `esp_line_stable`): the second scan meets the same blocks, entries and
/// values, and writes what is already there. Stability is a fact of the
/// replacement patterns, whose results are named here, so it stands as a
/// condition on the lines.
pub proof fn law_espionage_is_idempotent(lines: Seq<Seq<char>>, kind: Seq<char>, id: Seq<char>)
    requires
        forall|j: int| 0 <= j < lines.len() ==> #[trigger] esp_line_stable(lines[j], kind),
    ensures
        espionage_result(espionage_result(lines, kind, id), kind, id) == espionage_result(
            lines,
            kind,
            id,
        ),
{
    let r = espionage_result(lines, kind, id);
    assert forall|j: int, ws: Seq<EspRewrite>, vs: Seq<EspRewrite>|
        #![trigger esp_apply_all(ws, lines[j]), esp_apply_all(vs, lines[j])]
        0 <= j < lines.len() implies esp_facts(esp_apply_all(ws, lines[j]), kind) == esp_facts(
            esp_apply_all(vs, lines[j]),
            kind,
        ) && regex_is_match(pat_last_roll_line(), esp_apply_all(ws, lines[j])) == regex_is_match(
            pat_last_roll_line(),
            esp_apply_all(vs, lines[j]),
        ) by {
        assert(esp_line_stable(lines[j], kind));
    }
    assert(esp_alike(lines, lines, kind));
    lemma_esp_run_twins(lines, lines, kind, id, lines.len());
    assert(r.len() == lines.len());
    assert forall|j: int, ws: Seq<EspRewrite>, vs: Seq<EspRewrite>|
        #![trigger esp_apply_all(ws, lines[j]), esp_apply_all(vs, r[j])]
        0 <= j < lines.len() implies esp_facts(esp_apply_all(ws, lines[j]), kind) == esp_facts(
            esp_apply_all(vs, r[j]),
            kind,
        ) && regex_is_match(pat_last_roll_line(), esp_apply_all(ws, lines[j])) == regex_is_match(
            pat_last_roll_line(),
            esp_apply_all(vs, r[j]),
        ) by {
        assert(esp_line_stable(lines[j], kind));
        assert(esp_twin(lines, lines, j, r[j], r[j]));
        let us = choose|us: Seq<EspRewrite>|
            r[j] == #[trigger] esp_apply_all(us, lines[j]) && r[j] == esp_apply_all(us, lines[j]);
        lemma_esp_apply_concat(us, vs, lines[j]);
        assert(esp_apply_all(us + vs, lines[j]) == esp_apply_all(vs, r[j]));
    }
    assert(esp_alike(lines, r, kind));
    lemma_esp_run_twins(lines, r, kind, id, lines.len());
    let r2 = espionage_result(r, kind, id);
    assert forall|j: int| 0 <= j < lines.len() implies #[trigger] r2[j] == r[j] by {
        assert(esp_twin(lines, r, j, r[j], r2[j]));
        let ws = choose|ws: Seq<EspRewrite>|
            r[j] == #[trigger] esp_apply_all(ws, lines[j]) && r2[j] == esp_apply_all(ws, r[j]);
        assert(esp_line_stable(lines[j], kind));
        assert(esp_apply_all(ws, esp_apply_all(ws, lines[j])) == esp_apply_all(ws, lines[j]));
    }
    assert(r2 =~= r);
}

/// Rewrite `w` of one run and `v` of the other are of the same kind, and
/// the information value of `w` is at most that of `v`.
pub open spec fn esp_rewrite_le(w: EspRewrite, v: EspRewrite) -> bool {
    match (w, v) {
        (EspRewrite::Roll, EspRewrite::Roll) => true,
        (EspRewrite::LastRoll, EspRewrite::LastRoll) => true,
        (EspRewrite::Info(m), EspRewrite::Info(n)) => m <= n,
        _ => false,
    }
}

/// The rewrites `ws` and `vs` are the same in number and kind, one by one,
/// and each information value of `ws` is at most the one of `vs`.
pub open spec fn esp_rewrites_le(ws: Seq<EspRewrite>, vs: Seq<EspRewrite>) -> bool {
    &&& ws.len() == vs.len()
    &&& forall|t: int| 0 <= t < ws.len() ==> #[trigger] esp_rewrite_le(ws[t], vs[t])
}

/// The line patterns find in every rewrite of line `l` what they find in
/// `l`.
pub open spec fn esp_facts_stable(l: Seq<char>, kind: Seq<char>) -> bool {
    forall|ws: Seq<EspRewrite>|
        #![trigger esp_apply_all(ws, l)]
        esp_facts(esp_apply_all(ws, l), kind) == esp_facts(l, kind) && regex_is_match(
            pat_last_roll_line(),
            esp_apply_all(ws, l),
        ) == regex_is_match(pat_last_roll_line(), l)
}

/// Line facts `g` are those of `f` with a skill at least as high and a
/// difficulty at most as high, where there is one.
pub open spec fn esp_facts_le(f: EspFacts, g: EspFacts) -> bool {
    &&& g == (EspFacts { skill: g.skill, difficulty: g.difficulty, ..f })
    &&& (f.skill is Some <==> g.skill is Some)
    &&& (f.skill is Some ==> parse_i32_or_zero_spec(f.skill->0) <= parse_i32_or_zero_spec(
        g.skill->0,
    ))
    &&& (f.difficulty is Some <==> g.difficulty is Some)
    &&& (f.difficulty is Some ==> parse_i32_or_zero_spec(g.difficulty->0)
        <= parse_i32_or_zero_spec(f.difficulty->0))
}

/// Line `j` reads `x` in one run and `y` in the other, after rewrites of
/// `a[j]` and `b[j]` of the same kinds, those of `b[j]` writing at least
/// as much information.
pub open spec fn esp_cousin(a: Seq<Seq<char>>, b: Seq<Seq<char>>, j: int, x: Seq<char>, y: Seq<char>) -> bool {
    exists|ws: Seq<EspRewrite>, vs: Seq<EspRewrite>|
        #![trigger esp_apply_all(ws, a[j]), esp_apply_all(vs, b[j])]
        x == esp_apply_all(ws, a[j]) && y == esp_apply_all(vs, b[j]) && esp_rewrites_le(ws, vs)
}

/// Every line of `xs` and `ys` is a cousin (see `esp_cousin`).
pub open spec fn esp_cousins(a: Seq<Seq<char>>, b: Seq<Seq<char>>, xs: Seq<Seq<char>>, ys: Seq<Seq<char>>) -> bool {
    &&& xs.len() == a.len()
    &&& ys.len() == a.len()
    &&& b.len() == a.len()
    &&& forall|j: int| 0 <= j < a.len() ==> #[trigger] esp_cousin(a, b, j, xs[j], ys[j])
}

/// The scan of `b` is where the scan of `a` is, with at least as much
/// information gathered, at least the skill and at most the difficulty.
pub open spec fn esp_state_le(s: EspState, u: EspState) -> bool {
    &&& u == (EspState {
        lines: u.lines,
        total: u.total,
        skill: u.skill,
        difficulty: u.difficulty,
        ..s
    })
    &&& 0 <= s.total <= u.total
    &&& s.skill <= u.skill
    &&& u.difficulty <= s.difficulty
}

/// The two inputs are alike for the monotone comparison: same length,
/// every line stable (see `esp_facts_stable`), and each line of `b` has
/// the facts of the line of `a` with a skill at least as high and a
/// difficulty at most as high.
pub open spec fn esp_inputs_le(a: Seq<Seq<char>>, b: Seq<Seq<char>>, kind: Seq<char>) -> bool {
    &&& b.len() == a.len()
    &&& forall|j: int|
        0 <= j < a.len() ==> {
            &&& #[trigger] esp_facts_stable(a[j], kind)
            &&& esp_facts_stable(b[j], kind)
            &&& esp_facts_le(esp_facts(a[j], kind), esp_facts(b[j], kind))
            &&& regex_is_match(pat_last_roll_line(), a[j]) == regex_is_match(
                pat_last_roll_line(),
                b[j],
            )
        }
}

/// Cousins stay cousins when they get rewrites `w` and `v` at line `t`.
proof fn lemma_esp_cousins_update(
    a: Seq<Seq<char>>,
    b: Seq<Seq<char>>,
    xs: Seq<Seq<char>>,
    ys: Seq<Seq<char>>,
    t: int,
    w: EspRewrite,
    v: EspRewrite,
)
    requires
        esp_cousins(a, b, xs, ys),
        0 <= t < a.len(),
        esp_rewrite_le(w, v),
    ensures
        esp_cousins(a, b, xs.update(t, esp_apply(w, xs[t])), ys.update(t, esp_apply(v, ys[t]))),
{
    let xs2 = xs.update(t, esp_apply(w, xs[t]));
    let ys2 = ys.update(t, esp_apply(v, ys[t]));
    assert forall|j: int| 0 <= j < a.len() implies #[trigger] esp_cousin(a, b, j, xs2[j], ys2[j]) by {
        assert(esp_cousin(a, b, j, xs[j], ys[j]));
        if j == t {
            let (ws, vs) = choose|ws: Seq<EspRewrite>, vs: Seq<EspRewrite>|
                #![trigger esp_apply_all(ws, a[j]), esp_apply_all(vs, b[j])]
                xs[j] == esp_apply_all(ws, a[j]) && ys[j] == esp_apply_all(vs, b[j])
                    && esp_rewrites_le(ws, vs);
            lemma_esp_apply_push(ws, w, a[j]);
            lemma_esp_apply_push(vs, v, b[j]);
            assert forall|q: int| 0 <= q < ws.push(w).len() implies #[trigger] esp_rewrite_le(
                ws.push(w)[q],
                vs.push(v)[q],
            ) by {
                if q < ws.len() {
                    assert(esp_rewrite_le(ws[q], vs[q]));
                }
            }
            assert(esp_rewrites_le(ws.push(w), vs.push(v)));
            assert(xs2[j] == esp_apply_all(ws.push(w), a[j]));
            assert(ys2[j] == esp_apply_all(vs.push(v), b[j]));
        }
    }
}

/// Cousin lines look alike to the line patterns, but for skill and
/// difficulty values.
proof fn lemma_esp_cousin_facts(
    a: Seq<Seq<char>>,
    b: Seq<Seq<char>>,
    kind: Seq<char>,
    j: int,
    x: Seq<char>,
    y: Seq<char>,
)
    requires
        esp_inputs_le(a, b, kind),
        0 <= j < a.len(),
        esp_cousin(a, b, j, x, y),
    ensures
        esp_facts_le(esp_facts(x, kind), esp_facts(y, kind)),
        regex_is_match(pat_last_roll_line(), x) == regex_is_match(pat_last_roll_line(), y),
        x.contains('}') == y.contains('}'),
{
    let (ws, vs) = choose|ws: Seq<EspRewrite>, vs: Seq<EspRewrite>|
        #![trigger esp_apply_all(ws, a[j]), esp_apply_all(vs, b[j])]
        x == esp_apply_all(ws, a[j]) && y == esp_apply_all(vs, b[j]) && esp_rewrites_le(ws, vs);
    assert(esp_facts_stable(a[j], kind));
    assert(esp_facts(esp_apply_all(ws, a[j]), kind) == esp_facts(a[j], kind));
    assert(esp_facts(esp_apply_all(vs, b[j]), kind) == esp_facts(b[j], kind));
    lemma_count_char_contains(x, '}');
    lemma_count_char_contains(y, '}');
}

/// Two scans whose lines are cousins and whose states compare (see
/// `esp_state_le`) read line `i` alike and still compare afterwards.
proof fn lemma_esp_step_cousins(
    a: Seq<Seq<char>>,
    b: Seq<Seq<char>>,
    s: EspState,
    u: EspState,
    i: int,
    kind: Seq<char>,
    id: Seq<char>,
)
    requires
        esp_inputs_le(a, b, kind),
        esp_cousins(a, b, s.lines, u.lines),
        esp_state_le(s, u),
        0 <= i < a.len(),
        esp_indices_ok(s, i - 1),
    ensures
        esp_cousins(a, b, esp_step(s, i, kind, id).lines, esp_step(u, i, kind, id).lines),
        esp_state_le(esp_step(s, i, kind, id), esp_step(u, i, kind, id)),
{
    lemma_esp_cousin_facts(a, b, kind, i, s.lines[i], u.lines[i]);
    let s1 = esp_scan(s, i, kind, id);
    let u1 = esp_scan(u, i, kind, id);
    assert(esp_state_le(s1, u1));
    let s2 = esp_close_entry(s1, i);
    let u2 = esp_close_entry(u1, i);
    match esp_entry_close(s1, s1.lines[i].contains('}')) {
        Some(Some((r, k, total))) => {
            law_info_gain_bounded_monotone(s1.skill, s1.total, s1.difficulty, u1.skill, u1.total, u1.difficulty);
            let total2 = u1.total + info_gain_spec(u1.skill, u1.total, u1.difficulty);
            assert(esp_entry_close(u1, u1.lines[i].contains('}')) == Some(Some((r, k, total2))));
            lemma_esp_cousins_update(a, b, s1.lines, u1.lines, r, EspRewrite::Roll, EspRewrite::Roll);
            let xs1 = s1.lines.update(r, esp_apply(EspRewrite::Roll, s1.lines[r]));
            let ys1 = u1.lines.update(r, esp_apply(EspRewrite::Roll, u1.lines[r]));
            lemma_esp_cousins_update(
                a,
                b,
                xs1,
                ys1,
                k,
                EspRewrite::Info(total as nat),
                EspRewrite::Info(total2 as nat),
            );
            assert(s2.lines == xs1.update(k, esp_apply(EspRewrite::Info(total as nat), xs1[k])));
            assert(u2.lines == ys1.update(k, esp_apply(EspRewrite::Info(total2 as nat), ys1[k])));
        },
        _ => {},
    }
    assert(esp_state_le(s2, u2));
    lemma_esp_cousin_facts(a, b, kind, i, s2.lines[i], u2.lines[i]);
    let s3 = esp_finish_line(s2, i);
    let u3 = esp_finish_line(u2, i);
    let in_log = if s2.in_log && s2.lines[i].contains('}') && s2.after == s2.log_depth {
        false
    } else {
        s2.in_log
    };
    if s2.in_op && !in_log && s2.after == s2.op_depth + 1 {
        if regex_is_match(pat_info_line(), s2.lines[i]) {
            lemma_esp_cousins_update(
                a,
                b,
                s2.lines,
                u2.lines,
                i,
                EspRewrite::Info(s2.total as nat),
                EspRewrite::Info(u2.total as nat),
            );
        } else if regex_is_match(pat_last_roll_line(), s2.lines[i]) {
            lemma_esp_cousins_update(a, b, s2.lines, u2.lines, i, EspRewrite::LastRoll, EspRewrite::LastRoll);
        }
    }
    assert(esp_cousins(a, b, s3.lines, u3.lines));
    lemma_esp_cousin_facts(a, b, kind, i, s3.lines[i], u3.lines[i]);
}

/// Scanning `a` and `b` walks through states that compare, over lines
/// that are cousins.
proof fn lemma_esp_run_cousins(
    a: Seq<Seq<char>>,
    b: Seq<Seq<char>>,
    kind: Seq<char>,
    id: Seq<char>,
    n: nat,
)
    requires
        esp_inputs_le(a, b, kind),
        n <= a.len(),
    ensures
        esp_cousins(a, b, esp_run(a, kind, id, n).lines, esp_run(b, kind, id, n).lines),
        esp_state_le(esp_run(a, kind, id, n), esp_run(b, kind, id, n)),
    decreases n,
{
    if n == 0 {
        assert forall|j: int| 0 <= j < a.len() implies #[trigger] esp_cousin(a, b, j, a[j], b[j]) by {
            let ws = Seq::<EspRewrite>::empty();
            assert(esp_apply_all(ws, a[j]) == a[j]);
            assert(esp_apply_all(ws, b[j]) == b[j]);
            assert(esp_rewrites_le(ws, ws));
        }
    } else {
        lemma_esp_run_cousins(a, b, kind, id, (n - 1) as nat);
        lemma_esp_run_prefix(a, kind, id, 0, (n - 1) as nat);
        lemma_esp_step_cousins(
            a,
            b,
            esp_run(a, kind, id, (n - 1) as nat),
            esp_run(b, kind, id, (n - 1) as nat),
            n - 1,
            kind,
            id,
        );
    }
}

/// A more skilled agent or an easier operation never yields less
/// information: when the save `b` differs from `a` only in skill values
/// that are at least as high and difficulty values that are at most as
/// high (as the line patterns read them, line by line, every line being
/// stable under the edit's rewrites), the espionage edit makes the same
/// rewrites on the same lines of both, one by one, and every information
/// value it writes into `b` is at least the one it writes into `a`.
pub proof fn law_espionage_more_skill_never_less_info(
    a: Seq<Seq<char>>,
    b: Seq<Seq<char>>,
    kind: Seq<char>,
    id: Seq<char>,
)
    requires
        esp_inputs_le(a, b, kind),
    ensures
        espionage_result(b, kind, id).len() == espionage_result(a, kind, id).len(),
        forall|j: int|
            0 <= j < a.len() ==> #[trigger] esp_cousin(
                a,
                b,
                j,
                espionage_result(a, kind, id)[j],
                espionage_result(b, kind, id)[j],
            ),
{
    lemma_esp_run_cousins(a, b, kind, id, a.len());
}

/// A line is one that the espionage edit may rewrite: it starts with a
/// `roll=`, `info=` or `last_roll=` field.
pub open spec fn esp_rewritable(l: Seq<char>) -> bool {
    ||| regex_is_match(pat_roll_line(), l)
    ||| regex_is_match(pat_info_line(), l)
    ||| regex_is_match(pat_last_roll_line(), l)
}

/// The remembered entry lines are lines that may be rewritten.
pub open spec fn esp_indices_rewritable(s: EspState, orig: Seq<Seq<char>>) -> bool {
    &&& (s.info_line matches Some(k) ==> esp_rewritable(orig[k]))
    &&& (s.roll_line matches Some(k) ==> esp_rewritable(orig[k]))
}

/// The depths and the running total stay within what the characters read
/// so far allow: `t` characters give at most `t` braces.
pub open spec fn esp_bounded(s: EspState, t: int) -> bool {
    &&& -t <= s.depth <= t
    &&& -t <= s.after <= t
    &&& -t <= s.target_depth <= t
    &&& -t - 1 <= s.op_depth <= t
    &&& -t - 1 <= s.log_depth <= t + 1
    &&& 0 <= s.total
    &&& i32::MIN <= s.skill <= i32::MAX
    &&& i32::MIN <= s.difficulty <= i32::MAX
}

/// The remembered entry lines lie at or before line `i`.
pub open spec fn esp_indices_ok(s: EspState, i: int) -> bool {
    &&& (s.info_line matches Some(k) ==> 0 <= k <= i)
    &&& (s.roll_line matches Some(k) ==> 0 <= k <= i)
}

/// The compiled patterns of the espionage edit.
struct EspPatterns {
    target: Regex,
    id: Regex,
    op_type: Regex,
    log: Regex,
    info_line: Regex,
    roll_line: Regex,
    skill: Regex,
    difficulty: Regex,
    last_roll_line: Regex,
    info_value: Regex,
    last_roll_value: Regex,
}

impl EspPatterns {
    spec fn wf(&self, kind: Seq<char>) -> bool {
        &&& regex_source(self.target) == pat_target()
        &&& regex_source(self.id) == pat_id()
        &&& regex_source(self.op_type) == pat_type(kind)
        &&& regex_source(self.log) == pat_log()
        &&& regex_source(self.info_line) == pat_info_line()
        &&& regex_source(self.roll_line) == pat_roll_line()
        &&& regex_source(self.skill) == pat_skill()
        &&& regex_source(self.difficulty) == pat_difficulty()
        &&& regex_source(self.last_roll_line) == pat_last_roll_line()
        &&& regex_source(self.info_value) == pat_info_value()
        &&& regex_source(self.last_roll_value) == pat_last_roll_value()
    }

    fn compile(kind: &str) -> (r: Result<EspPatterns, EditError>)
        ensures
            r is Ok <==> espionage_patterns_valid(kind@),
            r matches Ok(p) ==> p.wf(kind@),
    {
        let target = match compile_pattern("^\\s*target\\s*=") {
            Ok(re) => re,
            Err(e) => return Err(e),
        };
        let id = match compile_pattern("^\\s*id=(\\d+)") {
            Ok(re) => re,
            Err(e) => return Err(e),
        };
        let type_text = type_pattern_text(kind);
        let op_type = match compile_pattern(type_text.as_str()) {
            Ok(re) => re,
            Err(e) => return Err(e),
        };
        let log = match compile_pattern("^\\s*log\\s*=") {
            Ok(re) => re,
            Err(e) => return Err(e),
        };
        let info_line = match compile_pattern("^\\s*info=(\\d+)") {
            Ok(re) => re,
            Err(e) => return Err(e),
        };
        let roll_line = match compile_pattern("^\\s*roll=\\d+") {
            Ok(re) => re,
            Err(e) => return Err(e),
        };
        let skill = match compile_pattern("skill=(\\d+)") {
            Ok(re) => re,
            Err(e) => return Err(e),
        };
        let difficulty = match compile_pattern("difficulty=(\\d+)") {
            Ok(re) => re,
            Err(e) => return Err(e),
        };
        let last_roll_line = match compile_pattern("^\\s*last_roll=\\d+") {
            Ok(re) => re,
            Err(e) => return Err(e),
        };
        let info_value = match compile_pattern("info=\\d+") {
            Ok(re) => re,
            Err(e) => return Err(e),
        };
        let last_roll_value = match compile_pattern("last_roll=\\d+") {
            Ok(re) => re,
            Err(e) => return Err(e),
        };
        Ok(
            EspPatterns {
                target,
                id,
                op_type,
                log,
                info_line,
                roll_line,
                skill,
                difficulty,
                last_roll_line,
                info_value,
                last_roll_value,
            },
        )
    }
}

/// The facts of one line, as the scan reads them.
pub struct EspLineFacts {
    pub opens: usize,
    pub closes: usize,
    pub target: bool,
    pub id: Option<String>,
    pub op_type: bool,
    pub log: bool,
    pub info: bool,
    pub roll: bool,
    pub skill: Option<String>,
    pub difficulty: Option<String>,
}

impl View for EspLineFacts {
    type V = EspFacts;

    open spec fn view(&self) -> EspFacts {
        EspFacts {
            opens: self.opens as int,
            closes: self.closes as int,
            target: self.target,
            id: opt_view(self.id),
            op_type: self.op_type,
            log: self.log,
            info: self.info,
            roll: self.roll,
            skill: opt_view(self.skill),
            difficulty: opt_view(self.difficulty),
        }
    }
}

/// Gathers the facts of line `i` with the compiled patterns.
fn line_facts(p: &EspPatterns, lines: &Vec<String>, i: usize, Ghost(kind): Ghost<Seq<char>>) -> (f:
    EspLineFacts)
    requires
        p.wf(kind),
        i < lines.len(),
    ensures
        f@ == esp_facts(lines@[i as int]@, kind),
        f.opens + f.closes <= lines@[i as int]@.len(),
{
    let line = line_chars(lines, i);
    let hay = lines[i].as_str();
    proof {
        lemma_count_braces(line@);
    }
    EspLineFacts {
        opens: count_char_in(&line, '{'),
        closes: count_char_in(&line, '}'),
        target: is_match(&p.target, hay),
        id: group1(&p.id, hay),
        op_type: is_match(&p.op_type, hay),
        log: is_match(&p.log, hay),
        info: is_match(&p.info_line, hay),
        roll: is_match(&p.roll_line, hay),
        skill: group1(&p.skill, hay),
        difficulty: group1(&p.difficulty, hay),
    }
}

/// The variables of the espionage scan.
pub struct EspScanner {
    pub depth: i64,
    pub after: i64,
    pub in_target: bool,
    pub target_depth: i64,
    pub target_id: String,
    pub in_op: bool,
    pub op_depth: i64,
    pub in_log: bool,
    pub log_depth: i64,
    pub total: i64,
    pub info_line: Option<usize>,
    pub roll_line: Option<usize>,
    pub skill: i32,
    pub difficulty: i32,
}

impl EspScanner {
    /// The scan state these variables stand for, over the given lines.
    pub open spec fn state(&self, lines: Seq<Seq<char>>) -> EspState {
        EspState {
            lines: lines,
            depth: self.depth as int,
            after: self.after as int,
            in_target: self.in_target,
            target_depth: self.target_depth as int,
            target_id: self.target_id@,
            in_op: self.in_op,
            op_depth: self.op_depth as int,
            in_log: self.in_log,
            log_depth: self.log_depth as int,
            total: self.total as int,
            info_line: opt_index(self.info_line),
            roll_line: opt_index(self.roll_line),
            skill: self.skill as int,
            difficulty: self.difficulty as int,
        }
    }

    /// The scanner before the first line.
    pub fn new() -> (v: EspScanner)
        ensures
            forall|lines: Seq<Seq<char>>| #[trigger] v.state(lines) == esp_init(lines),
    {
        EspScanner {
            depth: 0,
            after: 0,
            in_target: false,
            target_depth: 0,
            target_id: String::new(),
            in_op: false,
            op_depth: -1,
            in_log: false,
            log_depth: -1,
            total: 0,
            info_line: None,
            roll_line: None,
            skill: 0,
            difficulty: 0,
        }
    }

    /// Reads line `i` from its facts (see `esp_scan_facts`).
    pub fn scan_line(&mut self, i: usize, f: &EspLineFacts, id: &str)
        requires
            esp_bounded(old(self).state(Seq::empty()), char_limit() as int),
            f.opens <= char_limit(),
            f.closes <= char_limit(),
        ensures
            forall|lines: Seq<Seq<char>>| #[trigger] final(self).state(lines) == esp_scan_facts(
                old(self).state(lines),
                i as int,
                f@,
                id@,
            ),
    {
        let ghost s = old(self).state(Seq::empty());
        let depth = self.depth + f.opens as i64;
        let after = depth - f.closes as i64;
        if f.target {
            self.in_target = true;
            self.target_depth = depth;
        }
        if self.in_target {
            match &f.id {
                Some(g) => {
                    self.target_id = g.clone();
                },
                None => {},
            }
        }
        if self.in_target && f.closes > 0 && after < self.target_depth {
            self.in_target = false;
        }
        if f.op_type && self.target_id.eq(&id.to_owned()) {
            self.in_op = true;
            self.op_depth = depth - 1;
            self.total = 0;
        }
        if self.in_op && f.log {
            self.in_log = true;
            self.log_depth = self.op_depth + 1;
        }
        if self.in_log && depth > self.log_depth + 1 {
            if f.info {
                self.info_line = Some(i);
            } else if f.roll {
                self.roll_line = Some(i);
            } else {
                match &f.skill {
                    Some(g) => {
                        self.skill = parse_i32_or_zero(g.as_str());
                    },
                    None => {
                        match &f.difficulty {
                            Some(g) => {
                                self.difficulty = parse_i32_or_zero(g.as_str());
                            },
                            None => {},
                        }
                    },
                }
            }
        }
        self.depth = depth;
        self.after = after;
        assert forall|lines: Seq<Seq<char>>| #[trigger] self.state(lines) == esp_scan_facts(
            old(self).state(lines),
            i as int,
            f@,
            id@,
        ) by {
            assert(self.state(lines) =~= esp_scan_facts(old(self).state(lines), i as int, f@, id@));
        }
    }

    /// Decides what a line that `closes` a block does to the current log
    /// entry (see `esp_entry_close`).
    pub fn entry_close(&self, closes: bool) -> (r: Option<Option<(usize, usize, i64)>>)
        requires
            0 <= self.total <= i64::MAX - 3,
            self.log_depth < i64::MAX,
        ensures
            esp_close_view(r) == esp_entry_close(self.state(Seq::empty()), closes),
    {
        if self.in_log && closes && self.after == self.log_depth + 1 {
            match (self.roll_line, self.info_line) {
                (Some(r), Some(k)) => {
                    let g = info_gain(self.skill, self.total, self.difficulty);
                    Some(Some((r, k, self.total + g)))
                },
                _ => Some(None),
            }
        } else {
            None
        }
    }

    /// Closes a log entry on line `i` (see `esp_close_entry`).
    fn close_entry(
        &mut self,
        p: &EspPatterns,
        lines: &mut Vec<String>,
        i: usize,
        Ghost(kind): Ghost<Seq<char>>,
        Ghost(t): Ghost<int>,
        Ghost(orig): Ghost<Seq<Seq<char>>>,
    )
        requires
            old(lines)@.len() == orig.len(),
            forall|j: int|
                0 <= j < orig.len() && !esp_rewritable(orig[j]) ==> #[trigger] views(old(lines)@)[j] == orig[j],
            esp_indices_rewritable(old(self).state(views(old(lines)@)), orig),
            p.wf(kind),
            i < old(lines).len(),
            esp_bounded(old(self).state(views(old(lines)@)), t),
            old(self).total <= 3 * (t - old(lines)@[i as int]@.len()),
            esp_indices_ok(old(self).state(views(old(lines)@)), i as int),
            old(lines)@[i as int]@.len() <= t <= char_limit(),
        ensures
            final(self).state(views(final(lines)@)) == esp_close_entry(
                old(self).state(views(old(lines)@)),
                i as int,
            ),
            final(lines)@.len() == old(lines)@.len(),
            forall|j: int|
                i < j < old(lines)@.len() ==> #[trigger] views(final(lines)@)[j] == views(
                    old(lines)@,
                )[j],
            esp_bounded(final(self).state(views(final(lines)@)), t),
            final(self).total <= 3 * t,
            esp_indices_ok(final(self).state(views(final(lines)@)), i as int),
            forall|j: int|
                0 <= j < old(lines)@.len() && !esp_rewritable(orig[j]) ==> #[trigger] views(final(lines)@)[j] == orig[j],
            esp_indices_rewritable(final(self).state(views(final(lines)@)), orig),
    {
        let ghost s = old(self).state(views(lines@));
        let closes = has_char(&line_chars(lines, i), '}');
        proof {
            lemma_count_char_contains(lines@[i as int]@, '}');
        }
        assert(esp_entry_close(s, closes) == esp_entry_close(self.state(Seq::empty()), closes));
        match self.entry_close(closes) {
            None => {},
            Some(action) => {
                match action {
                    Some((r, k, total)) => {
                        let new_r = replace_first(&p.roll_line, lines[r].as_str(), "roll=10");
                        set_line(lines, r, new_r);
                        self.total = total;
                        let text = keyed_number("info=", total as u128);
                        let new_k = replace_first(&p.info_value, lines[k].as_str(), text.as_str());
                        set_line(lines, k, new_k);
                    },
                    None => {},
                }
                self.info_line = None;
                self.roll_line = None;
                self.skill = 0;
                self.difficulty = 0;
            },
        }
        assert(self.state(views(lines@)) =~= esp_close_entry(s, i as int));
    }

    /// Finishes line `i` (see `esp_finish_line`).
    fn finish_line(
        &mut self,
        p: &EspPatterns,
        lines: &mut Vec<String>,
        i: usize,
        Ghost(kind): Ghost<Seq<char>>,
        Ghost(t): Ghost<int>,
        Ghost(orig): Ghost<Seq<Seq<char>>>,
    )
        requires
            old(lines)@.len() == orig.len(),
            forall|j: int|
                0 <= j < orig.len() && !esp_rewritable(orig[j]) ==> #[trigger] views(old(lines)@)[j] == orig[j],
            esp_indices_rewritable(old(self).state(views(old(lines)@)), orig),
            p.wf(kind),
            i < old(lines).len(),
            esp_bounded(old(self).state(views(old(lines)@)), t),
            esp_indices_ok(old(self).state(views(old(lines)@)), i as int),
            t <= char_limit(),
        ensures
            final(self).state(views(final(lines)@)) == esp_finish_line(
                old(self).state(views(old(lines)@)),
                i as int,
            ),
            final(lines)@.len() == old(lines)@.len(),
            forall|j: int|
                i < j < old(lines)@.len() ==> #[trigger] views(final(lines)@)[j] == views(
                    old(lines)@,
                )[j],
            esp_bounded(final(self).state(views(final(lines)@)), t),
            final(self).total == old(self).total,
            esp_indices_ok(final(self).state(views(final(lines)@)), i as int),
            forall|j: int|
                0 <= j < old(lines)@.len() && !esp_rewritable(orig[j]) ==> #[trigger] views(final(lines)@)[j] == orig[j],
            esp_indices_rewritable(final(self).state(views(final(lines)@)), orig),
    {
        let ghost s = old(self).state(views(lines@));
        if self.in_log && self.after == self.log_depth && has_char(&line_chars(lines, i), '}') {
            self.in_log = false;
        }
        if self.in_op && !self.in_log && self.after == self.op_depth + 1 {
            if is_match(&p.info_line, lines[i].as_str()) {
                let text = keyed_number("info=", self.total as u128);
                let nl = replace_first(&p.info_value, lines[i].as_str(), text.as_str());
                set_line(lines, i, nl);
            } else if is_match(&p.last_roll_line, lines[i].as_str()) {
                let nl = replace_first(&p.last_roll_value, lines[i].as_str(), "last_roll=10");
                set_line(lines, i, nl);
            }
        }
        if self.in_op && self.after <= self.op_depth && has_char(&line_chars(lines, i), '}') {
            self.in_op = false;
            self.target_id = String::new();
        }
        self.depth = self.after;
        assert(self.state(views(lines@)) =~= esp_finish_line(s, i as int));
    }
}

/// Espionage edit: for every operation of type `target_op` against the
/// target whose id is `target_id`, replays its log as if every roll were
/// ten. Each log entry with a roll line and an info line gets `roll=10` and
/// the running information the entry then reaches; the operation's own
/// `info` line gets the final running value and its `last_roll` line
/// becomes ten. Lines are matched by brace depth, block by block.
///
/// The edit is made only when every pattern compiles (the operation type is
/// put into a pattern as it is); otherwise the lines are left as they are.
pub fn modify_espionage_operations(lines: &mut Vec<String>, target_op: &str, target_id: &str) -> (r:
    Result<(), EditError>)
    requires
        total_chars(views(old(lines)@)) <= char_limit(),
    ensures
        r is Ok <==> espionage_patterns_valid(target_op@),
        r is Ok ==> views(final(lines)@) == espionage_result(
            views(old(lines)@),
            target_op@,
            target_id@,
        ),
        r is Err ==> final(lines)@ == old(lines)@,
        final(lines)@.len() == old(lines)@.len(),
        forall|j: int|
            0 <= j < old(lines)@.len() && !esp_rewritable(old(lines)@[j]@)
                ==> #[trigger] final(lines)@[j]@ == old(lines)@[j]@,
{
    let p = match EspPatterns::compile(target_op) {
        Ok(p) => p,
        Err(e) => return Err(e),
    };
    let ghost kind = target_op@;
    let ghost orig = views(lines@);
    let n = lines.len();
    let mut v = EspScanner::new();
    assert(v.state(orig) == esp_run(orig, kind, target_id@, 0));
    let mut i: usize = 0;
    while i < n
        invariant
            p.wf(kind),
            kind == target_op@,
            n == lines.len(),
            orig.len() == n,
            i <= n,
            total_chars(orig) <= char_limit(),
            forall|j: int| i <= j < n ==> #[trigger] views(lines@)[j] == orig[j],
            v.state(views(lines@)) == esp_run(orig, kind, target_id@, i as nat),
            esp_bounded(v.state(views(lines@)), total_chars(orig.take(i as int)) as int),
            v.total <= 3 * total_chars(orig.take(i as int)),
            esp_indices_ok(v.state(views(lines@)), i as int - 1),
            forall|j: int|
                0 <= j < n && !esp_rewritable(orig[j]) ==> #[trigger] views(lines@)[j] == orig[j],
            esp_indices_rewritable(v.state(views(lines@)), orig),
        decreases n - i,
    {
        proof {
            lemma_total_chars_prefix(orig, i as int);
        }
        let ghost t = total_chars(orig.take(i + 1)) as int;
        assert(views(lines@)[i as int] == orig[i as int]);
        assert(lines@[i as int]@ == orig[i as int]);
        let ghost s0 = v.state(views(lines@));
        let f = line_facts(&p, lines, i, Ghost(kind));
        assert(views(lines@)[i as int] == lines@[i as int]@);
        proof {
            lemma_count_char_contains(lines@[i as int]@, '}');
        }
        v.scan_line(i, &f, target_id);
        assert(v.state(views(lines@)) == esp_scan(s0, i as int, kind, target_id@));
        let ghost s1 = v.state(views(lines@));
        v.close_entry(&p, lines, i, Ghost(kind), Ghost(t), Ghost(orig));
        v.finish_line(&p, lines, i, Ghost(kind), Ghost(t), Ghost(orig));
        assert(v.state(views(lines@)) == esp_step(s0, i as int, kind, target_id@));
        i = i + 1;
    }
    assert forall|j: int|
        0 <= j < old(lines)@.len() && !esp_rewritable(old(lines)@[j]@) implies #[trigger] lines@[j]@
        == old(lines)@[j]@ by {
        assert(views(lines@)[j] == orig[j]);
    }
    Ok(())
}

} // verus!
