use crate::pattern::{
    compile_pattern, pat_bonus_line, pat_clues_line, pat_clues_value, pat_difficulty_line,
    pat_last_roll_line, pat_last_roll_value, pat_log, pat_roll_line, pat_total_line,
    pat_total_value, pat_type, regex_group1, regex_is_match, regex_replace_first, regex_source,
    regex_valid, replace_first, type_pattern_text, group1, is_match, EditError,
};
use crate::text::{
    char_limit, count_char, count_char_in, decimal, has_char, keyed_number, lemma_count_braces,
    lemma_count_char_contains, lemma_total_chars_prefix, line_chars, opt_index, parse_i32_or_zero,
    opt_view, parse_i32_or_zero_spec, set_line, total_chars, views,
};
use regex::Regex;
use vstd::prelude::*;

verus! {

/// The clues that one finished log entry of a dig site yields, from the
/// entry's bonus, the clues gathered so far and the entry's difficulty,
/// when every roll is ten.
pub open spec fn clue_gain_spec(bonus: int, total: int, difficulty: int) -> int {
    let a = 10 + bonus + total - difficulty;
    if a >= 14 {
        3
    } else if a >= 11 {
        2
    } else if a >= 6 {
        1
    } else {
        0
    }
}

/// Computes `clue_gain_spec`.
pub fn clue_gain(bonus: i32, total: i64, difficulty: i32) -> (g: i64)
    ensures
        g == clue_gain_spec(bonus as int, total as int, difficulty as int),
{
    let a: i128 = 10i128 + bonus as i128 + total as i128 - difficulty as i128;
    if a >= 14 {
        3
    } else if a >= 11 {
        2
    } else if a >= 6 {
        1
    } else {
        0
    }
}

/// The state of the scan over the save's lines.
pub struct ArchState {
    pub lines: Seq<Seq<char>>,
    /// Brace depth before the current line's closing braces are counted.
    pub depth: int,
    /// Brace depth after the current line.
    pub after: int,
    pub in_site: bool,
    pub site_depth: int,
    pub in_log: bool,
    pub log_depth: int,
    pub total: int,
    pub clues_line: Option<int>,
    pub roll_line: Option<int>,
    pub total_line: Option<int>,
    pub bonus: int,
    pub difficulty: int,
}

/// The state before the first line.
pub open spec fn arch_init(lines: Seq<Seq<char>>) -> ArchState {
    ArchState {
        lines: lines,
        depth: 0,
        after: 0,
        in_site: false,
        site_depth: -1,
        in_log: false,
        log_depth: -1,
        total: 0,
        clues_line: None,
        roll_line: None,
        total_line: None,
        bonus: 0,
        difficulty: 0,
    }
}

/// What the scan needs to know of one line: its opening and closing
/// braces, and what the line patterns find in it.
pub struct ArchFacts {
    pub opens: int,
    pub closes: int,
    /// It names a site of the chosen type.
    pub site_type: bool,
    /// It opens a `log` block.
    pub log: bool,
    /// It is a `clues=` line.
    pub clues: bool,
    /// It is a `roll=` line.
    pub roll: bool,
    /// It is a `total=` line.
    pub total: bool,
    /// The digits of its `bonus=` field, if it starts with one.
    pub bonus: Option<Seq<char>>,
    /// The digits of its `difficulty=` field, if it starts with one.
    pub difficulty: Option<Seq<char>>,
}

/// The facts of line `l` for sites of type `kind`.
pub open spec fn arch_facts(l: Seq<char>, kind: Seq<char>) -> ArchFacts {
    ArchFacts {
        opens: count_char(l, '{') as int,
        closes: count_char(l, '}') as int,
        site_type: regex_is_match(pat_type(kind), l),
        log: regex_is_match(pat_log(), l),
        clues: regex_is_match(pat_clues_line(), l),
        roll: regex_is_match(pat_roll_line(), l),
        total: regex_is_match(pat_total_line(), l),
        bonus: regex_group1(pat_bonus_line(), l),
        difficulty: regex_group1(pat_difficulty_line(), l),
    }
}

/// Reading line `i` with facts `f`: its braces, and the blocks and entry
/// fields it opens or names.
pub open spec fn arch_scan_facts(s: ArchState, i: int, f: ArchFacts) -> ArchState {
    let depth = s.depth + f.opens;
    let after = depth - f.closes;
    let site_start = f.site_type;
    let in_site = site_start || s.in_site;
    let site_depth = if site_start {
        depth - 1
    } else {
        s.site_depth
    };
    let total = if site_start {
        0
    } else {
        s.total
    };
    let log_start = in_site && f.log;
    let in_log = log_start || s.in_log;
    let log_depth = if log_start {
        site_depth + 1
    } else {
        s.log_depth
    };
    let in_entry = in_log && depth > log_depth + 1;
    let is_clues = in_entry && f.clues;
    let is_roll = in_entry && !is_clues && f.roll;
    let is_total = in_entry && !is_clues && !is_roll && f.total;
    let is_bonus = in_entry && !is_clues && !is_roll && !is_total && f.bonus is Some;
    let is_diff = in_entry && !is_clues && !is_roll && !is_total && !is_bonus
        && f.difficulty is Some;
    ArchState {
        lines: s.lines,
        depth: depth,
        after: after,
        in_site: in_site,
        site_depth: site_depth,
        in_log: in_log,
        log_depth: log_depth,
        total: total,
        clues_line: if is_clues {
            Some(i)
        } else {
            s.clues_line
        },
        roll_line: if is_roll {
            Some(i)
        } else {
            s.roll_line
        },
        total_line: if is_total {
            Some(i)
        } else {
            s.total_line
        },
        bonus: if is_bonus {
            parse_i32_or_zero_spec(f.bonus->0)
        } else {
            s.bonus
        },
        difficulty: if is_diff {
            parse_i32_or_zero_spec(f.difficulty->0)
        } else {
            s.difficulty
        },
    }
}

/// Reading line `i`.
pub open spec fn arch_scan(s: ArchState, i: int, kind: Seq<char>) -> ArchState {
    arch_scan_facts(s, i, arch_facts(s.lines[i], kind))
}

/// Closing a log entry on line `i`: when the entry had a roll line, a
/// clues line and a total line, the roll becomes ten, the total line
/// records the clues gathered before the entry, the clues line records the
/// entry's gain, and the running clues grow by it; the entry's fields are
/// then forgotten.
pub open spec fn arch_close_entry(s: ArchState, i: int) -> ArchState {
    match arch_entry_close(s, s.lines[i].contains('}')) {
        None => s,
        Some(action) => {
            let s2 = match action {
                Some((r, c, t, gained)) => {
                    let lines1 = s.lines.update(
                        r,
                        regex_replace_first(pat_roll_line(), s.lines[r], "roll=10"@),
                    );
                    let lines2 = lines1.update(
                        t,
                        regex_replace_first(
                            pat_total_value(),
                            lines1[t],
                            "total="@ + decimal(s.total as nat),
                        ),
                    );
                    let lines3 = lines2.update(
                        c,
                        regex_replace_first(
                            pat_clues_value(),
                            lines2[c],
                            "clues="@ + decimal(gained as nat),
                        ),
                    );
                    ArchState { lines: lines3, total: s.total + gained, ..s }
                },
                None => s,
            };
            ArchState {
                clues_line: None,
                roll_line: None,
                total_line: None,
                bonus: 0,
                difficulty: 0,
                ..s2
            }
        },
    }
}

/// What a line that `closes` a block does to the current log entry:
/// nothing (`None`) unless it closes the entry; then the entry is replayed
/// when it had a roll line, a clues line and a total line
/// (`Some(Some((roll line, clues line, total line, clues gained)))`), and
/// otherwise only forgotten (`Some(None)`).
pub open spec fn arch_entry_close(s: ArchState, closes: bool) -> Option<
    Option<(int, int, int, int)>,
> {
    if s.in_log && closes && s.after == s.log_depth + 1 {
        if s.roll_line is Some && s.clues_line is Some && s.total_line is Some {
            Some(
                Some(
                    (
                        s.roll_line->0,
                        s.clues_line->0,
                        s.total_line->0,
                        clue_gain_spec(s.bonus, s.total, s.difficulty),
                    ),
                ),
            )
        } else {
            Some(None)
        }
    } else {
        None
    }
}

/// An entry-closing decision with mathematical integers.
pub open spec fn arch_close_view(r: Option<Option<(usize, usize, usize, i64)>>) -> Option<
    Option<(int, int, int, int)>,
> {
    match r {
        None => None,
        Some(None) => Some(None),
        Some(Some((r, c, t, g))) => Some(Some((r as int, c as int, t as int, g as int))),
    }
}

/// Closing the log block, then rewriting the site's own `clues` and
/// `last_roll` lines, then closing the site; the line's depth becomes the
/// running depth.
pub open spec fn arch_finish_line(s: ArchState, i: int) -> ArchState {
    let in_log = if s.in_log && s.lines[i].contains('}') && s.after == s.log_depth {
        false
    } else {
        s.in_log
    };
    let l = s.lines[i];
    let lines = if s.in_site && !in_log && s.after == s.site_depth + 1 {
        if regex_is_match(pat_clues_line(), l) {
            s.lines.update(
                i,
                regex_replace_first(pat_clues_value(), l, "clues="@ + decimal(s.total as nat)),
            )
        } else if regex_is_match(pat_last_roll_line(), l) {
            s.lines.update(i, regex_replace_first(pat_last_roll_value(), l, "last_roll=10"@))
        } else {
            s.lines
        }
    } else {
        s.lines
    };
    let close_site = s.in_site && lines[i].contains('}') && s.after <= s.site_depth;
    ArchState {
        lines: lines,
        depth: s.after,
        in_log: in_log,
        in_site: if close_site {
            false
        } else {
            s.in_site
        },
        ..s
    }
}

/// One line of the scan.
pub open spec fn arch_step(s: ArchState, i: int, kind: Seq<char>) -> ArchState {
    arch_finish_line(arch_close_entry(arch_scan(s, i, kind), i), i)
}

/// The state after the first `n` lines.
pub open spec fn arch_run(lines: Seq<Seq<char>>, kind: Seq<char>, n: nat) -> ArchState
    decreases n,
{
    if n == 0 {
        arch_init(lines)
    } else {
        arch_step(arch_run(lines, kind, (n - 1) as nat), n - 1, kind)
    }
}

/// The lines after the dig-site edit of sites of type `kind`.
pub open spec fn archaeology_result(lines: Seq<Seq<char>>, kind: Seq<char>) -> Seq<Seq<char>> {
    arch_run(lines, kind, lines.len()).lines
}

/// All the patterns of the dig-site edit compile.
pub open spec fn archaeology_patterns_valid(kind: Seq<char>) -> bool {
    &&& regex_valid(pat_type(kind))
    &&& regex_valid(pat_log())
    &&& regex_valid(pat_clues_line())
    &&& regex_valid(pat_roll_line())
    &&& regex_valid(pat_total_line())
    &&& regex_valid(pat_bonus_line())
    &&& regex_valid(pat_difficulty_line())
    &&& regex_valid(pat_last_roll_line())
    &&& regex_valid(pat_clues_value())
    &&& regex_valid(pat_total_value())
    &&& regex_valid(pat_last_roll_value())
}

/// The clues an entry yields lie between none and three, and a larger
/// bonus, more clues already gathered or an easier entry never yield less.
pub proof fn law_clue_gain_bounded_monotone(
    bonus1: int,
    total1: int,
    difficulty1: int,
    bonus2: int,
    total2: int,
    difficulty2: int,
)
    ensures
        0 <= clue_gain_spec(bonus1, total1, difficulty1) <= 3,
        bonus1 <= bonus2 && total1 <= total2 && difficulty2 <= difficulty1 ==> clue_gain_spec(
            bonus1,
            total1,
            difficulty1,
        ) <= clue_gain_spec(bonus2, total2, difficulty2),
{
}

/// The clues already gathered count exactly like the bonus, and the
/// difficulty exactly against it: an entry's yield depends only on
/// `bonus + total - difficulty`.
pub proof fn law_clue_gain_depends_on_the_sum(bonus: int, total: int, difficulty: int)
    ensures
        clue_gain_spec(bonus, total, difficulty) == clue_gain_spec(bonus + total, 0, difficulty),
        clue_gain_spec(bonus, total, difficulty) == clue_gain_spec(0, 0, difficulty - bonus - total),
{
}

/// While no line read so far opens a site of the chosen type, the scan has
/// entered no site, log or entry, and has changed no line.
proof fn lemma_arch_run_idle(lines: Seq<Seq<char>>, kind: Seq<char>, n: nat)
    requires
        n <= lines.len(),
        forall|j: int| 0 <= j < n ==> !regex_is_match(pat_type(kind), #[trigger] lines[j]),
    ensures
        arch_run(lines, kind, n).lines == lines,
        !arch_run(lines, kind, n).in_site,
        !arch_run(lines, kind, n).in_log,
        arch_run(lines, kind, n).clues_line is None,
        arch_run(lines, kind, n).roll_line is None,
        arch_run(lines, kind, n).total_line is None,
    decreases n,
{
    if n > 0 {
        lemma_arch_run_idle(lines, kind, (n - 1) as nat);
        assert(!regex_is_match(pat_type(kind), lines[n - 1]));
    }
}

/// Once the first `m` lines open no site of the chosen type, the scan keeps
/// them as they are, remembers only later entry lines, and keeps the
/// number of lines.
proof fn lemma_arch_run_prefix(lines: Seq<Seq<char>>, kind: Seq<char>, m: nat, n: nat)
    requires
        m <= n <= lines.len(),
        forall|j: int| 0 <= j < m ==> !regex_is_match(pat_type(kind), #[trigger] lines[j]),
    ensures
        arch_run(lines, kind, n).lines.len() == lines.len(),
        forall|j: int| 0 <= j < m ==> #[trigger] arch_run(lines, kind, n).lines[j] == lines[j],
        arch_indices_ok(arch_run(lines, kind, n), n - 1),
        arch_run(lines, kind, n).clues_line matches Some(k) ==> k >= m,
        arch_run(lines, kind, n).roll_line matches Some(k) ==> k >= m,
        arch_run(lines, kind, n).total_line matches Some(k) ==> k >= m,
    decreases n,
{
    if n == m {
        lemma_arch_run_idle(lines, kind, n);
    } else {
        lemma_arch_run_prefix(lines, kind, m, (n - 1) as nat);
    }
}

/// A dig-site edit never touches the lines before the first line that
/// names a site of the chosen type: for every `m` such that none of the
/// first `m` lines names one, those lines come back as they were.
pub proof fn law_archaeology_keeps_lines_before_first_site(
    lines: Seq<Seq<char>>,
    kind: Seq<char>,
    m: nat,
)
    requires
        m <= lines.len(),
        forall|j: int| 0 <= j < m ==> !regex_is_match(pat_type(kind), #[trigger] lines[j]),
    ensures
        archaeology_result(lines, kind).len() == lines.len(),
        forall|j: int| 0 <= j < m ==> #[trigger] archaeology_result(lines, kind)[j] == lines[j],
{
    lemma_arch_run_prefix(lines, kind, m, lines.len());
}

/// When no line names a dig site of the chosen type, the dig-site edit
/// leaves every line as it was.
pub proof fn law_archaeology_without_site_changes_nothing(lines: Seq<Seq<char>>, kind: Seq<char>)
    requires
        forall|j: int| 0 <= j < lines.len() ==> !regex_is_match(pat_type(kind), #[trigger] lines[j]),
    ensures
        archaeology_result(lines, kind) == lines,
{
    lemma_arch_run_idle(lines, kind, lines.len());
}

/// One rewrite of the dig-site edit, with the value it writes; each
/// replaces the first match of its pattern.
pub enum ArchRewrite {
    /// A `roll=<n>` at the line's start becomes `roll=10`.
    Roll,
    /// A `total=<n>` becomes `total=<m>`.
    Total(nat),
    /// A `clues=<n>` becomes `clues=<m>`.
    Clues(nat),
    /// A `last_roll=<n>` becomes `last_roll=10`.
    LastRoll,
}

/// Applies rewrite `w` to text `x`.
pub open spec fn arch_apply(w: ArchRewrite, x: Seq<char>) -> Seq<char> {
    match w {
        ArchRewrite::Roll => regex_replace_first(pat_roll_line(), x, "roll=10"@),
        ArchRewrite::Total(m) => regex_replace_first(pat_total_value(), x, "total="@ + decimal(m)),
        ArchRewrite::Clues(m) => regex_replace_first(pat_clues_value(), x, "clues="@ + decimal(m)),
        ArchRewrite::LastRoll => regex_replace_first(pat_last_roll_value(), x, "last_roll=10"@),
    }
}

/// One of the dig-site edit's rewrites turns text `x` into `y`.
pub open spec fn arch_rewrite_step(x: Seq<char>, y: Seq<char>) -> bool {
    exists|w: ArchRewrite| y == #[trigger] arch_apply(w, x)
}

/// `c` is a chain of the dig-site edit's rewrites from `x` to `y`: each
/// text in it is one rewrite of the one before.
pub open spec fn arch_chain(x: Seq<char>, y: Seq<char>, c: Seq<Seq<char>>) -> bool {
    &&& c.len() >= 1
    &&& c[0] == x
    &&& c.last() == y
    &&& forall|t: int| 0 <= t < c.len() - 1 ==> #[trigger] arch_rewrite_step(c[t], c[t + 1])
}

/// `y` is `x` after at most `d` of the dig-site edit's rewrites.
pub open spec fn arch_derived(x: Seq<char>, y: Seq<char>, d: nat) -> bool {
    exists|c: Seq<Seq<char>>| c.len() <= d + 1 && #[trigger] arch_chain(x, y, c)
}

/// A text is derived from itself with no rewrite.
proof fn lemma_arch_derived_refl(x: Seq<char>, d: nat)
    ensures
        arch_derived(x, x, d),
{
    assert(arch_chain(x, x, seq![x]));
}

/// A text derived with at most `d` rewrites is derived with at most `e >= d`.
proof fn lemma_arch_derived_mono(x: Seq<char>, y: Seq<char>, d: nat, e: nat)
    requires
        arch_derived(x, y, d),
        d <= e,
    ensures
        arch_derived(x, y, e),
{
    let c = choose|c: Seq<Seq<char>>| c.len() <= d + 1 && #[trigger] arch_chain(x, y, c);
    assert(arch_chain(x, y, c));
}

/// One more rewrite after at most `d` rewrites makes at most `e > d`.
proof fn lemma_arch_derived_next(x: Seq<char>, z: Seq<char>, y: Seq<char>, d: nat, e: nat)
    requires
        arch_derived(x, z, d),
        arch_rewrite_step(z, y),
        d < e,
    ensures
        arch_derived(x, y, e),
{
    let c = choose|c: Seq<Seq<char>>| c.len() <= d + 1 && #[trigger] arch_chain(x, z, c);
    let c2 = c.push(y);
    assert forall|t: int| 0 <= t < c2.len() - 1 implies #[trigger] arch_rewrite_step(
        c2[t],
        c2[t + 1],
    ) by {
        if t < c.len() - 1 {
            assert(arch_rewrite_step(c[t], c[t + 1]));
        }
    }
    assert(arch_chain(x, y, c2));
}

/// Allowing more rewrites keeps every line derived.
proof fn lemma_arch_derived_more(orig: Seq<Seq<char>>, lines: Seq<Seq<char>>, d: nat, e: nat)
    requires
        lines.len() == orig.len(),
        d <= e,
        forall|j: int| 0 <= j < orig.len() ==> #[trigger] arch_derived(orig[j], lines[j], d),
    ensures
        forall|j: int| 0 <= j < orig.len() ==> #[trigger] arch_derived(orig[j], lines[j], e),
{
    assert forall|j: int| 0 <= j < orig.len() implies #[trigger] arch_derived(
        orig[j],
        lines[j],
        e,
    ) by {
        lemma_arch_derived_mono(orig[j], lines[j], d, e);
    }
}

/// Rewriting one line once more keeps every line derived.
proof fn lemma_arch_derived_update(
    orig: Seq<Seq<char>>,
    lines: Seq<Seq<char>>,
    d: nat,
    e: nat,
    k: int,
    y: Seq<char>,
)
    requires
        lines.len() == orig.len(),
        0 <= k < orig.len(),
        d < e,
        forall|j: int| 0 <= j < orig.len() ==> #[trigger] arch_derived(orig[j], lines[j], d),
        arch_rewrite_step(lines[k], y),
    ensures
        forall|j: int|
            0 <= j < orig.len() ==> #[trigger] arch_derived(orig[j], lines.update(k, y)[j], e),
{
    assert forall|j: int| 0 <= j < orig.len() implies #[trigger] arch_derived(
        orig[j],
        lines.update(k, y)[j],
        e,
    ) by {
        if j == k {
            lemma_arch_derived_next(orig[k], lines[k], y, d, e);
        } else {
            lemma_arch_derived_mono(orig[j], lines[j], d, e);
        }
    }
}

/// One line of the scan adds at most four rewrites to any line.
proof fn lemma_arch_step_derived(
    orig: Seq<Seq<char>>,
    s: ArchState,
    i: int,
    kind: Seq<char>,
    d: nat,
    e: nat,
)
    requires
        s.lines.len() == orig.len(),
        0 <= i < orig.len(),
        d + 4 <= e,
        arch_indices_ok(s, i - 1),
        forall|j: int| 0 <= j < orig.len() ==> #[trigger] arch_derived(orig[j], s.lines[j], d),
    ensures
        arch_step(s, i, kind).lines.len() == orig.len(),
        forall|j: int|
            0 <= j < orig.len() ==> #[trigger] arch_derived(
                orig[j],
                arch_step(s, i, kind).lines[j],
                e,
            ),
{
    let d1: nat = d + 1;
    let d2: nat = d + 2;
    let d3: nat = d + 3;
    let s1 = arch_scan(s, i, kind);
    let s2 = arch_close_entry(s1, i);
    let s3 = arch_finish_line(s2, i);
    assert(s1.lines == s.lines);
    match arch_entry_close(s1, s1.lines[i].contains('}')) {
        Some(Some((r, c, t, gained))) => {
            let y1 = arch_apply(ArchRewrite::Roll, s1.lines[r]);
            lemma_arch_derived_update(orig, s1.lines, d, d1, r, y1);
            let lines1 = s1.lines.update(r, y1);
            let y2 = arch_apply(ArchRewrite::Total(s1.total as nat), lines1[t]);
            lemma_arch_derived_update(orig, lines1, d1, d2, t, y2);
            let lines2 = lines1.update(t, y2);
            let y3 = arch_apply(ArchRewrite::Clues(gained as nat), lines2[c]);
            lemma_arch_derived_update(orig, lines2, d2, d3, c, y3);
            assert(s2.lines == lines2.update(c, y3));
        },
        _ => {
            lemma_arch_derived_more(orig, s1.lines, d, d3);
        },
    }
    assert(forall|j: int| 0 <= j < orig.len() ==> #[trigger] arch_derived(orig[j], s2.lines[j], d3));
    if s3.lines == s2.lines {
        lemma_arch_derived_more(orig, s2.lines, d3, e);
    } else {
        let l = s2.lines[i];
        if regex_is_match(pat_clues_line(), l) {
            let y = arch_apply(ArchRewrite::Clues(s2.total as nat), l);
            lemma_arch_derived_update(orig, s2.lines, d3, e, i, y);
        } else {
            let y = arch_apply(ArchRewrite::LastRoll, l);
            lemma_arch_derived_update(orig, s2.lines, d3, e, i, y);
        }
    }
}

/// After `n` lines, every line is its original text after at most `4 n`
/// of the edit's rewrites.
proof fn lemma_arch_run_derived(lines: Seq<Seq<char>>, kind: Seq<char>, n: nat)
    requires
        n <= lines.len(),
    ensures
        arch_run(lines, kind, n).lines.len() == lines.len(),
        forall|j: int|
            0 <= j < lines.len() ==> #[trigger] arch_derived(
                lines[j],
                arch_run(lines, kind, n).lines[j],
                4 * n,
            ),
    decreases n,
{
    if n == 0 {
        assert forall|j: int| 0 <= j < lines.len() implies #[trigger] arch_derived(
            lines[j],
            arch_run(lines, kind, n).lines[j],
            4 * n,
        ) by {
            lemma_arch_derived_refl(lines[j], 0);
        }
    } else {
        lemma_arch_run_derived(lines, kind, (n - 1) as nat);
        lemma_arch_run_prefix(lines, kind, 0, (n - 1) as nat);
        lemma_arch_step_derived(
            lines,
            arch_run(lines, kind, (n - 1) as nat),
            n - 1,
            kind,
            (4 * (n - 1)) as nat,
            4 * n,
        );
    }
}

/// Every line that the dig-site edit writes is its original text after
/// some of the edit's own rewrites, each replacing the first match:
/// `roll=10` for a roll line, `total=<m>` for an entry total, `clues=<m>`
/// for a clue count, `last_roll=10` for a last-roll value (at most four per
/// line read). No other change is made to any line.
pub proof fn law_archaeology_rewrites_by_replacement(lines: Seq<Seq<char>>, kind: Seq<char>)
    ensures
        archaeology_result(lines, kind).len() == lines.len(),
        forall|j: int|
            0 <= j < lines.len() ==> #[trigger] arch_derived(
                lines[j],
                archaeology_result(lines, kind)[j],
                4 * lines.len(),
            ),
{
    lemma_arch_run_derived(lines, kind, lines.len());
}

/// Applies the rewrites `ws` to text `x`, first to last.
pub open spec fn arch_apply_all(ws: Seq<ArchRewrite>, x: Seq<char>) -> Seq<char>
    decreases ws.len(),
{
    if ws.len() == 0 {
        x
    } else {
        arch_apply(ws.last(), arch_apply_all(ws.drop_last(), x))
    }
}

/// Line `l` is stable under the dig-site edit's rewrites: whatever
/// rewrites are applied to it, the line patterns find in it what they find
/// in `l`, and applying the same rewrites a second time changes nothing.
pub open spec fn arch_line_stable(l: Seq<char>, kind: Seq<char>) -> bool {
    &&& forall|ws: Seq<ArchRewrite>|
        #![trigger arch_apply_all(ws, l)]
        arch_facts(arch_apply_all(ws, l), kind) == arch_facts(l, kind) && regex_is_match(
            pat_last_roll_line(),
            arch_apply_all(ws, l),
        ) == regex_is_match(pat_last_roll_line(), l)
    &&& forall|ws: Seq<ArchRewrite>|
        #![trigger arch_apply_all(ws, l)]
        arch_apply_all(ws, arch_apply_all(ws, l)) == arch_apply_all(ws, l)
}

/// Line `j` reads `x` in one run and `y` in the other, both after the
/// same rewrites of the given lines `a[j]` and `b[j]`.
pub open spec fn arch_twin(a: Seq<Seq<char>>, b: Seq<Seq<char>>, j: int, x: Seq<char>, y: Seq<char>) -> bool {
    exists|ws: Seq<ArchRewrite>| x == #[trigger] arch_apply_all(ws, a[j]) && y == arch_apply_all(ws, b[j])
}

/// Every line of `xs` and `ys` is a twin (see `arch_twin`).
pub open spec fn arch_twins(a: Seq<Seq<char>>, b: Seq<Seq<char>>, xs: Seq<Seq<char>>, ys: Seq<Seq<char>>) -> bool {
    &&& xs.len() == a.len()
    &&& ys.len() == a.len()
    &&& b.len() == a.len()
    &&& forall|j: int| 0 <= j < a.len() ==> #[trigger] arch_twin(a, b, j, xs[j], ys[j])
}

/// The line patterns find the same in every rewrite of a line of `a` as
/// in every rewrite of the same line of `b`.
pub open spec fn arch_alike(a: Seq<Seq<char>>, b: Seq<Seq<char>>, kind: Seq<char>) -> bool {
    forall|j: int, ws: Seq<ArchRewrite>, vs: Seq<ArchRewrite>|
        #![trigger arch_apply_all(ws, a[j]), arch_apply_all(vs, b[j])]
        0 <= j < a.len() ==> arch_facts(arch_apply_all(ws, a[j]), kind) == arch_facts(
            arch_apply_all(vs, b[j]),
            kind,
        ) && regex_is_match(pat_last_roll_line(), arch_apply_all(ws, a[j])) == regex_is_match(
            pat_last_roll_line(),
            arch_apply_all(vs, b[j]),
        )
}

/// Applying one more rewrite.
proof fn lemma_arch_apply_push(ws: Seq<ArchRewrite>, w: ArchRewrite, x: Seq<char>)
    ensures
        arch_apply_all(ws.push(w), x) == arch_apply(w, arch_apply_all(ws, x)),
{
    assert(ws.push(w).drop_last() =~= ws);
}

/// Applying `vs` after `ws` is applying `ws + vs`.
proof fn lemma_arch_apply_concat(ws: Seq<ArchRewrite>, vs: Seq<ArchRewrite>, x: Seq<char>)
    ensures
        arch_apply_all(vs, arch_apply_all(ws, x)) == arch_apply_all(ws + vs, x),
    decreases vs.len(),
{
    if vs.len() == 0 {
        assert(ws + vs =~= ws);
    } else {
        lemma_arch_apply_concat(ws, vs.drop_last(), x);
        assert((ws + vs).drop_last() =~= ws + vs.drop_last());
        assert((ws + vs).last() == vs.last());
    }
}

/// Twins stay twins when both get the same rewrite at line `t`.
proof fn lemma_arch_twins_update(
    a: Seq<Seq<char>>,
    b: Seq<Seq<char>>,
    xs: Seq<Seq<char>>,
    ys: Seq<Seq<char>>,
    t: int,
    w: ArchRewrite,
)
    requires
        arch_twins(a, b, xs, ys),
        0 <= t < a.len(),
    ensures
        arch_twins(a, b, xs.update(t, arch_apply(w, xs[t])), ys.update(t, arch_apply(w, ys[t]))),
{
    let xs2 = xs.update(t, arch_apply(w, xs[t]));
    let ys2 = ys.update(t, arch_apply(w, ys[t]));
    assert forall|j: int| 0 <= j < a.len() implies #[trigger] arch_twin(a, b, j, xs2[j], ys2[j]) by {
        assert(arch_twin(a, b, j, xs[j], ys[j]));
        if j == t {
            let ws = choose|ws: Seq<ArchRewrite>|
                xs[j] == #[trigger] arch_apply_all(ws, a[j]) && ys[j] == arch_apply_all(ws, b[j]);
            lemma_arch_apply_push(ws, w, a[j]);
            lemma_arch_apply_push(ws, w, b[j]);
            assert(xs2[j] == arch_apply_all(ws.push(w), a[j]));
        }
    }
}

/// Twin lines look alike to the line patterns.
proof fn lemma_arch_twin_facts(
    a: Seq<Seq<char>>,
    b: Seq<Seq<char>>,
    kind: Seq<char>,
    j: int,
    x: Seq<char>,
    y: Seq<char>,
)
    requires
        arch_alike(a, b, kind),
        0 <= j < a.len(),
        arch_twin(a, b, j, x, y),
    ensures
        arch_facts(x, kind) == arch_facts(y, kind),
        regex_is_match(pat_last_roll_line(), x) == regex_is_match(pat_last_roll_line(), y),
        x.contains('}') == y.contains('}'),
{
    let ws = choose|ws: Seq<ArchRewrite>| x == #[trigger] arch_apply_all(ws, a[j]) && y == arch_apply_all(ws, b[j]);
    assert(arch_facts(arch_apply_all(ws, a[j]), kind) == arch_facts(arch_apply_all(ws, b[j]), kind));
    lemma_count_char_contains(x, '}');
    lemma_count_char_contains(y, '}');
}

/// Two scans whose lines are twins and whose other variables agree read
/// line `i` alike: afterwards the lines are twins again and the other
/// variables agree.
proof fn lemma_arch_step_twins(
    a: Seq<Seq<char>>,
    b: Seq<Seq<char>>,
    s: ArchState,
    u: ArchState,
    i: int,
    kind: Seq<char>,
)
    requires
        arch_alike(a, b, kind),
        arch_twins(a, b, s.lines, u.lines),
        u == (ArchState { lines: u.lines, ..s }),
        0 <= i < a.len(),
        arch_indices_ok(s, i - 1),
    ensures
        arch_twins(a, b, arch_step(s, i, kind).lines, arch_step(u, i, kind).lines),
        arch_step(u, i, kind) == (ArchState {
            lines: arch_step(u, i, kind).lines,
            ..arch_step(s, i, kind)
        }),
{
    lemma_arch_twin_facts(a, b, kind, i, s.lines[i], u.lines[i]);
    let s1 = arch_scan(s, i, kind);
    let u1 = arch_scan(u, i, kind);
    assert(u1 == (ArchState { lines: u1.lines, ..s1 }));
    let s2 = arch_close_entry(s1, i);
    let u2 = arch_close_entry(u1, i);
    match arch_entry_close(s1, s1.lines[i].contains('}')) {
        Some(Some((r, c, t, gained))) => {
            lemma_arch_twins_update(a, b, s1.lines, u1.lines, r, ArchRewrite::Roll);
            let xs1 = s1.lines.update(r, arch_apply(ArchRewrite::Roll, s1.lines[r]));
            let ys1 = u1.lines.update(r, arch_apply(ArchRewrite::Roll, u1.lines[r]));
            let wt = ArchRewrite::Total(s1.total as nat);
            lemma_arch_twins_update(a, b, xs1, ys1, t, wt);
            let xs2 = xs1.update(t, arch_apply(wt, xs1[t]));
            let ys2 = ys1.update(t, arch_apply(wt, ys1[t]));
            let wc = ArchRewrite::Clues(gained as nat);
            lemma_arch_twins_update(a, b, xs2, ys2, c, wc);
            assert(s2.lines == xs2.update(c, arch_apply(wc, xs2[c])));
            assert(u2.lines == ys2.update(c, arch_apply(wc, ys2[c])));
        },
        _ => {},
    }
    assert(u2 == (ArchState { lines: u2.lines, ..s2 }));
    lemma_arch_twin_facts(a, b, kind, i, s2.lines[i], u2.lines[i]);
    let s3 = arch_finish_line(s2, i);
    let u3 = arch_finish_line(u2, i);
    let in_log = if s2.in_log && s2.lines[i].contains('}') && s2.after == s2.log_depth {
        false
    } else {
        s2.in_log
    };
    if s2.in_site && !in_log && s2.after == s2.site_depth + 1 {
        if regex_is_match(pat_clues_line(), s2.lines[i]) {
            lemma_arch_twins_update(a, b, s2.lines, u2.lines, i, ArchRewrite::Clues(s2.total as nat));
        } else if regex_is_match(pat_last_roll_line(), s2.lines[i]) {
            lemma_arch_twins_update(a, b, s2.lines, u2.lines, i, ArchRewrite::LastRoll);
        }
    }
    assert(arch_twins(a, b, s3.lines, u3.lines));
    lemma_arch_twin_facts(a, b, kind, i, s3.lines[i], u3.lines[i]);
}

/// Scanning `a` and `b` walks through states whose lines are twins and
/// whose other variables agree.
proof fn lemma_arch_run_twins(a: Seq<Seq<char>>, b: Seq<Seq<char>>, kind: Seq<char>, n: nat)
    requires
        arch_alike(a, b, kind),
        b.len() == a.len(),
        n <= a.len(),
    ensures
        arch_twins(a, b, arch_run(a, kind, n).lines, arch_run(b, kind, n).lines),
        arch_run(b, kind, n) == (ArchState { lines: arch_run(b, kind, n).lines, ..arch_run(a, kind, n) }),
    decreases n,
{
    if n == 0 {
        assert forall|j: int| 0 <= j < a.len() implies #[trigger] arch_twin(a, b, j, a[j], b[j]) by {
            let ws = Seq::<ArchRewrite>::empty();
            assert(arch_apply_all(ws, a[j]) == a[j]);
            assert(arch_apply_all(ws, b[j]) == b[j]);
        }
    } else {
        lemma_arch_run_twins(a, b, kind, (n - 1) as nat);
        lemma_arch_run_prefix(a, kind, 0, (n - 1) as nat);
        lemma_arch_step_twins(
            a,
            b,
            arch_run(a, kind, (n - 1) as nat),
            arch_run(b, kind, (n - 1) as nat),
            n - 1,
            kind,
        );
    }
}

/// Running the dig-site edit again on its own result changes nothing,
/// where every line is stable under the edit's rewrites (see
/// `arch_line_stable`): the second scan meets the same blocks, entries and
/// values, and writes what is already there. Stability is a fact of the
/// replacement patterns, whose results are named here, so it stands as a
/// condition on the lines.
pub proof fn law_archaeology_is_idempotent(lines: Seq<Seq<char>>, kind: Seq<char>)
    requires
        forall|j: int| 0 <= j < lines.len() ==> #[trigger] arch_line_stable(lines[j], kind),
    ensures
        archaeology_result(archaeology_result(lines, kind), kind) == archaeology_result(lines, kind),
{
    let r = archaeology_result(lines, kind);
    assert forall|j: int, ws: Seq<ArchRewrite>, vs: Seq<ArchRewrite>|
        #![trigger arch_apply_all(ws, lines[j]), arch_apply_all(vs, lines[j])]
        0 <= j < lines.len() implies arch_facts(arch_apply_all(ws, lines[j]), kind) == arch_facts(
            arch_apply_all(vs, lines[j]),
            kind,
        ) && regex_is_match(pat_last_roll_line(), arch_apply_all(ws, lines[j])) == regex_is_match(
            pat_last_roll_line(),
            arch_apply_all(vs, lines[j]),
        ) by {
        assert(arch_line_stable(lines[j], kind));
    }
    assert(arch_alike(lines, lines, kind));
    lemma_arch_run_twins(lines, lines, kind, lines.len());
    assert(r.len() == lines.len());
    assert forall|j: int, ws: Seq<ArchRewrite>, vs: Seq<ArchRewrite>|
        #![trigger arch_apply_all(ws, lines[j]), arch_apply_all(vs, r[j])]
        0 <= j < lines.len() implies arch_facts(arch_apply_all(ws, lines[j]), kind) == arch_facts(
            arch_apply_all(vs, r[j]),
            kind,
        ) && regex_is_match(pat_last_roll_line(), arch_apply_all(ws, lines[j])) == regex_is_match(
            pat_last_roll_line(),
            arch_apply_all(vs, r[j]),
        ) by {
        assert(arch_line_stable(lines[j], kind));
        assert(arch_twin(lines, lines, j, r[j], r[j]));
        let us = choose|us: Seq<ArchRewrite>|
            r[j] == #[trigger] arch_apply_all(us, lines[j]) && r[j] == arch_apply_all(us, lines[j]);
        lemma_arch_apply_concat(us, vs, lines[j]);
        assert(arch_apply_all(us + vs, lines[j]) == arch_apply_all(vs, r[j]));
    }
    assert(arch_alike(lines, r, kind));
    lemma_arch_run_twins(lines, r, kind, lines.len());
    let r2 = archaeology_result(r, kind);
    assert forall|j: int| 0 <= j < lines.len() implies #[trigger] r2[j] == r[j] by {
        assert(arch_twin(lines, r, j, r[j], r2[j]));
        let ws = choose|ws: Seq<ArchRewrite>|
            r[j] == #[trigger] arch_apply_all(ws, lines[j]) && r2[j] == arch_apply_all(ws, r[j]);
        assert(arch_line_stable(lines[j], kind));
        assert(arch_apply_all(ws, arch_apply_all(ws, lines[j])) == arch_apply_all(ws, lines[j]));
    }
    assert(r2 =~= r);
}

/// Rewrite `w` of one run and `v` of the other are of the same kind, and
/// the total or clue count of `w` is at most that of `v`.
pub open spec fn arch_rewrite_le(w: ArchRewrite, v: ArchRewrite) -> bool {
    match (w, v) {
        (ArchRewrite::Roll, ArchRewrite::Roll) => true,
        (ArchRewrite::LastRoll, ArchRewrite::LastRoll) => true,
        (ArchRewrite::Total(m), ArchRewrite::Total(n)) => m <= n,
        (ArchRewrite::Clues(m), ArchRewrite::Clues(n)) => m <= n,
        _ => false,
    }
}

/// The rewrites `ws` and `vs` are the same in number and kind, one by one,
/// and each value of `ws` is at most the one of `vs`.
pub open spec fn arch_rewrites_le(ws: Seq<ArchRewrite>, vs: Seq<ArchRewrite>) -> bool {
    &&& ws.len() == vs.len()
    &&& forall|t: int| 0 <= t < ws.len() ==> #[trigger] arch_rewrite_le(ws[t], vs[t])
}

/// The line patterns find in every rewrite of line `l` what they find in
/// `l`.
pub open spec fn arch_facts_stable(l: Seq<char>, kind: Seq<char>) -> bool {
    forall|ws: Seq<ArchRewrite>|
        #![trigger arch_apply_all(ws, l)]
        arch_facts(arch_apply_all(ws, l), kind) == arch_facts(l, kind) && regex_is_match(
            pat_last_roll_line(),
            arch_apply_all(ws, l),
        ) == regex_is_match(pat_last_roll_line(), l)
}

/// Line facts `g` are those of `f` with a bonus at least as high and a
/// difficulty at most as high, where there is one.
pub open spec fn arch_facts_le(f: ArchFacts, g: ArchFacts) -> bool {
    &&& g == (ArchFacts { bonus: g.bonus, difficulty: g.difficulty, ..f })
    &&& (f.bonus is Some <==> g.bonus is Some)
    &&& (f.bonus is Some ==> parse_i32_or_zero_spec(f.bonus->0) <= parse_i32_or_zero_spec(
        g.bonus->0,
    ))
    &&& (f.difficulty is Some <==> g.difficulty is Some)
    &&& (f.difficulty is Some ==> parse_i32_or_zero_spec(g.difficulty->0)
        <= parse_i32_or_zero_spec(f.difficulty->0))
}

/// Line `j` reads `x` in one run and `y` in the other, after rewrites of
/// `a[j]` and `b[j]` of the same kinds, those of `b[j]` writing values at
/// least as high.
pub open spec fn arch_cousin(a: Seq<Seq<char>>, b: Seq<Seq<char>>, j: int, x: Seq<char>, y: Seq<char>) -> bool {
    exists|ws: Seq<ArchRewrite>, vs: Seq<ArchRewrite>|
        #![trigger arch_apply_all(ws, a[j]), arch_apply_all(vs, b[j])]
        x == arch_apply_all(ws, a[j]) && y == arch_apply_all(vs, b[j]) && arch_rewrites_le(ws, vs)
}

/// Every line of `xs` and `ys` is a cousin (see `arch_cousin`).
pub open spec fn arch_cousins(a: Seq<Seq<char>>, b: Seq<Seq<char>>, xs: Seq<Seq<char>>, ys: Seq<Seq<char>>) -> bool {
    &&& xs.len() == a.len()
    &&& ys.len() == a.len()
    &&& b.len() == a.len()
    &&& forall|j: int| 0 <= j < a.len() ==> #[trigger] arch_cousin(a, b, j, xs[j], ys[j])
}

/// The scan of `b` is where the scan of `a` is, with at least as many
/// clues gathered, at least the bonus and at most the difficulty.
pub open spec fn arch_state_le(s: ArchState, u: ArchState) -> bool {
    &&& u == (ArchState {
        lines: u.lines,
        total: u.total,
        bonus: u.bonus,
        difficulty: u.difficulty,
        ..s
    })
    &&& 0 <= s.total <= u.total
    &&& s.bonus <= u.bonus
    &&& u.difficulty <= s.difficulty
}

/// The two inputs are alike for the monotone comparison: same length,
/// every line stable (see `arch_facts_stable`), and each line of `b` has
/// the facts of the line of `a` with a bonus at least as high and a
/// difficulty at most as high.
pub open spec fn arch_inputs_le(a: Seq<Seq<char>>, b: Seq<Seq<char>>, kind: Seq<char>) -> bool {
    &&& b.len() == a.len()
    &&& forall|j: int|
        0 <= j < a.len() ==> {
            &&& #[trigger] arch_facts_stable(a[j], kind)
            &&& arch_facts_stable(b[j], kind)
            &&& arch_facts_le(arch_facts(a[j], kind), arch_facts(b[j], kind))
            &&& regex_is_match(pat_last_roll_line(), a[j]) == regex_is_match(
                pat_last_roll_line(),
                b[j],
            )
        }
}

/// Cousins stay cousins when they get rewrites `w` and `v` at line `t`.
proof fn lemma_arch_cousins_update(
    a: Seq<Seq<char>>,
    b: Seq<Seq<char>>,
    xs: Seq<Seq<char>>,
    ys: Seq<Seq<char>>,
    t: int,
    w: ArchRewrite,
    v: ArchRewrite,
)
    requires
        arch_cousins(a, b, xs, ys),
        0 <= t < a.len(),
        arch_rewrite_le(w, v),
    ensures
        arch_cousins(a, b, xs.update(t, arch_apply(w, xs[t])), ys.update(t, arch_apply(v, ys[t]))),
{
    let xs2 = xs.update(t, arch_apply(w, xs[t]));
    let ys2 = ys.update(t, arch_apply(v, ys[t]));
    assert forall|j: int| 0 <= j < a.len() implies #[trigger] arch_cousin(a, b, j, xs2[j], ys2[j]) by {
        assert(arch_cousin(a, b, j, xs[j], ys[j]));
        if j == t {
            let (ws, vs) = choose|ws: Seq<ArchRewrite>, vs: Seq<ArchRewrite>|
                #![trigger arch_apply_all(ws, a[j]), arch_apply_all(vs, b[j])]
                xs[j] == arch_apply_all(ws, a[j]) && ys[j] == arch_apply_all(vs, b[j])
                    && arch_rewrites_le(ws, vs);
            lemma_arch_apply_push(ws, w, a[j]);
            lemma_arch_apply_push(vs, v, b[j]);
            assert forall|q: int| 0 <= q < ws.push(w).len() implies #[trigger] arch_rewrite_le(
                ws.push(w)[q],
                vs.push(v)[q],
            ) by {
                if q < ws.len() {
                    assert(arch_rewrite_le(ws[q], vs[q]));
                }
            }
            assert(arch_rewrites_le(ws.push(w), vs.push(v)));
            assert(xs2[j] == arch_apply_all(ws.push(w), a[j]));
            assert(ys2[j] == arch_apply_all(vs.push(v), b[j]));
        }
    }
}

/// Cousin lines look alike to the line patterns, but for bonus and
/// difficulty values.
proof fn lemma_arch_cousin_facts(
    a: Seq<Seq<char>>,
    b: Seq<Seq<char>>,
    kind: Seq<char>,
    j: int,
    x: Seq<char>,
    y: Seq<char>,
)
    requires
        arch_inputs_le(a, b, kind),
        0 <= j < a.len(),
        arch_cousin(a, b, j, x, y),
    ensures
        arch_facts_le(arch_facts(x, kind), arch_facts(y, kind)),
        regex_is_match(pat_last_roll_line(), x) == regex_is_match(pat_last_roll_line(), y),
        x.contains('}') == y.contains('}'),
{
    let (ws, vs) = choose|ws: Seq<ArchRewrite>, vs: Seq<ArchRewrite>|
        #![trigger arch_apply_all(ws, a[j]), arch_apply_all(vs, b[j])]
        x == arch_apply_all(ws, a[j]) && y == arch_apply_all(vs, b[j]) && arch_rewrites_le(ws, vs);
    assert(arch_facts_stable(a[j], kind));
    assert(arch_facts(arch_apply_all(ws, a[j]), kind) == arch_facts(a[j], kind));
    assert(arch_facts(arch_apply_all(vs, b[j]), kind) == arch_facts(b[j], kind));
    lemma_count_char_contains(x, '}');
    lemma_count_char_contains(y, '}');
}

/// Two scans whose lines are cousins and whose states compare (see
/// `arch_state_le`) read line `i` alike and still compare afterwards.
proof fn lemma_arch_step_cousins(
    a: Seq<Seq<char>>,
    b: Seq<Seq<char>>,
    s: ArchState,
    u: ArchState,
    i: int,
    kind: Seq<char>,
)
    requires
        arch_inputs_le(a, b, kind),
        arch_cousins(a, b, s.lines, u.lines),
        arch_state_le(s, u),
        0 <= i < a.len(),
        arch_indices_ok(s, i - 1),
    ensures
        arch_cousins(a, b, arch_step(s, i, kind).lines, arch_step(u, i, kind).lines),
        arch_state_le(arch_step(s, i, kind), arch_step(u, i, kind)),
{
    lemma_arch_cousin_facts(a, b, kind, i, s.lines[i], u.lines[i]);
    let s1 = arch_scan(s, i, kind);
    let u1 = arch_scan(u, i, kind);
    assert(arch_state_le(s1, u1));
    let s2 = arch_close_entry(s1, i);
    let u2 = arch_close_entry(u1, i);
    match arch_entry_close(s1, s1.lines[i].contains('}')) {
        Some(Some((r, c, t, gained))) => {
            law_clue_gain_bounded_monotone(s1.bonus, s1.total, s1.difficulty, u1.bonus, u1.total, u1.difficulty);
            let gained2 = clue_gain_spec(u1.bonus, u1.total, u1.difficulty);
            assert(arch_entry_close(u1, u1.lines[i].contains('}')) == Some(Some((r, c, t, gained2))));
            lemma_arch_cousins_update(a, b, s1.lines, u1.lines, r, ArchRewrite::Roll, ArchRewrite::Roll);
            let xs1 = s1.lines.update(r, arch_apply(ArchRewrite::Roll, s1.lines[r]));
            let ys1 = u1.lines.update(r, arch_apply(ArchRewrite::Roll, u1.lines[r]));
            let wt = ArchRewrite::Total(s1.total as nat);
            let vt = ArchRewrite::Total(u1.total as nat);
            lemma_arch_cousins_update(a, b, xs1, ys1, t, wt, vt);
            let xs2 = xs1.update(t, arch_apply(wt, xs1[t]));
            let ys2 = ys1.update(t, arch_apply(vt, ys1[t]));
            let wc = ArchRewrite::Clues(gained as nat);
            let vc = ArchRewrite::Clues(gained2 as nat);
            lemma_arch_cousins_update(a, b, xs2, ys2, c, wc, vc);
            assert(s2.lines == xs2.update(c, arch_apply(wc, xs2[c])));
            assert(u2.lines == ys2.update(c, arch_apply(vc, ys2[c])));
        },
        _ => {},
    }
    assert(arch_state_le(s2, u2));
    lemma_arch_cousin_facts(a, b, kind, i, s2.lines[i], u2.lines[i]);
    let s3 = arch_finish_line(s2, i);
    let u3 = arch_finish_line(u2, i);
    let in_log = if s2.in_log && s2.lines[i].contains('}') && s2.after == s2.log_depth {
        false
    } else {
        s2.in_log
    };
    if s2.in_site && !in_log && s2.after == s2.site_depth + 1 {
        if regex_is_match(pat_clues_line(), s2.lines[i]) {
            lemma_arch_cousins_update(
                a,
                b,
                s2.lines,
                u2.lines,
                i,
                ArchRewrite::Clues(s2.total as nat),
                ArchRewrite::Clues(u2.total as nat),
            );
        } else if regex_is_match(pat_last_roll_line(), s2.lines[i]) {
            lemma_arch_cousins_update(a, b, s2.lines, u2.lines, i, ArchRewrite::LastRoll, ArchRewrite::LastRoll);
        }
    }
    assert(arch_cousins(a, b, s3.lines, u3.lines));
    lemma_arch_cousin_facts(a, b, kind, i, s3.lines[i], u3.lines[i]);
}

/// Scanning `a` and `b` walks through states that compare, over lines
/// that are cousins.
proof fn lemma_arch_run_cousins(a: Seq<Seq<char>>, b: Seq<Seq<char>>, kind: Seq<char>, n: nat)
    requires
        arch_inputs_le(a, b, kind),
        n <= a.len(),
    ensures
        arch_cousins(a, b, arch_run(a, kind, n).lines, arch_run(b, kind, n).lines),
        arch_state_le(arch_run(a, kind, n), arch_run(b, kind, n)),
    decreases n,
{
    if n == 0 {
        assert forall|j: int| 0 <= j < a.len() implies #[trigger] arch_cousin(a, b, j, a[j], b[j]) by {
            let ws = Seq::<ArchRewrite>::empty();
            assert(arch_apply_all(ws, a[j]) == a[j]);
            assert(arch_apply_all(ws, b[j]) == b[j]);
            assert(arch_rewrites_le(ws, ws));
        }
    } else {
        lemma_arch_run_cousins(a, b, kind, (n - 1) as nat);
        lemma_arch_run_prefix(a, kind, 0, (n - 1) as nat);
        lemma_arch_step_cousins(
            a,
            b,
            arch_run(a, kind, (n - 1) as nat),
            arch_run(b, kind, (n - 1) as nat),
            n - 1,
            kind,
        );
    }
}

/// A higher bonus or an easier dig never yields fewer clues: when the save
/// `b` differs from `a` only in bonus values that are at least as high and
/// difficulty values that are at most as high (as the line patterns read
/// them, line by line, every line being stable under the edit's
/// rewrites), the dig-site edit makes the same rewrites on the same lines
/// of both, one by one, and every total and clue count it writes into `b`
/// is at least the one it writes into `a`.
pub proof fn law_archaeology_more_bonus_never_fewer_clues(
    a: Seq<Seq<char>>,
    b: Seq<Seq<char>>,
    kind: Seq<char>,
)
    requires
        arch_inputs_le(a, b, kind),
    ensures
        archaeology_result(b, kind).len() == archaeology_result(a, kind).len(),
        forall|j: int|
            0 <= j < a.len() ==> #[trigger] arch_cousin(
                a,
                b,
                j,
                archaeology_result(a, kind)[j],
                archaeology_result(b, kind)[j],
            ),
{
    lemma_arch_run_cousins(a, b, kind, a.len());
}

/// A line is one that the dig-site edit may rewrite: it starts with a
/// `roll=`, `total=`, `clues=` or `last_roll=` field.
pub open spec fn arch_rewritable(l: Seq<char>) -> bool {
    ||| regex_is_match(pat_roll_line(), l)
    ||| regex_is_match(pat_total_line(), l)
    ||| regex_is_match(pat_clues_line(), l)
    ||| regex_is_match(pat_last_roll_line(), l)
}

/// The remembered entry lines are lines that may be rewritten.
pub open spec fn arch_indices_rewritable(s: ArchState, orig: Seq<Seq<char>>) -> bool {
    &&& (s.clues_line matches Some(k) ==> arch_rewritable(orig[k]))
    &&& (s.roll_line matches Some(k) ==> arch_rewritable(orig[k]))
    &&& (s.total_line matches Some(k) ==> arch_rewritable(orig[k]))
}

/// The depths and the running total stay within what the characters read
/// so far allow.
pub open spec fn arch_bounded(s: ArchState, t: int) -> bool {
    &&& -t <= s.depth <= t
    &&& -t <= s.after <= t
    &&& -t - 1 <= s.site_depth <= t
    &&& -t - 1 <= s.log_depth <= t + 1
    &&& 0 <= s.total
    &&& i32::MIN <= s.bonus <= i32::MAX
    &&& i32::MIN <= s.difficulty <= i32::MAX
}

/// The remembered entry lines lie at or before line `i`.
pub open spec fn arch_indices_ok(s: ArchState, i: int) -> bool {
    &&& (s.clues_line matches Some(k) ==> 0 <= k <= i)
    &&& (s.roll_line matches Some(k) ==> 0 <= k <= i)
    &&& (s.total_line matches Some(k) ==> 0 <= k <= i)
}

/// The compiled patterns of the dig-site edit.
struct ArchPatterns {
    site_type: Regex,
    log: Regex,
    clues_line: Regex,
    roll_line: Regex,
    total_line: Regex,
    bonus_line: Regex,
    difficulty_line: Regex,
    last_roll_line: Regex,
    clues_value: Regex,
    total_value: Regex,
    last_roll_value: Regex,
}

impl ArchPatterns {
    spec fn wf(&self, kind: Seq<char>) -> bool {
        &&& regex_source(self.site_type) == pat_type(kind)
        &&& regex_source(self.log) == pat_log()
        &&& regex_source(self.clues_line) == pat_clues_line()
        &&& regex_source(self.roll_line) == pat_roll_line()
        &&& regex_source(self.total_line) == pat_total_line()
        &&& regex_source(self.bonus_line) == pat_bonus_line()
        &&& regex_source(self.difficulty_line) == pat_difficulty_line()
        &&& regex_source(self.last_roll_line) == pat_last_roll_line()
        &&& regex_source(self.clues_value) == pat_clues_value()
        &&& regex_source(self.total_value) == pat_total_value()
        &&& regex_source(self.last_roll_value) == pat_last_roll_value()
    }

    fn compile(kind: &str) -> (r: Result<ArchPatterns, EditError>)
        ensures
            r is Ok <==> archaeology_patterns_valid(kind@),
            r matches Ok(p) ==> p.wf(kind@),
    {
        let type_text = type_pattern_text(kind);
        let site_type = match compile_pattern(type_text.as_str()) {
            Ok(re) => re,
            Err(e) => return Err(e),
        };
        let log = match compile_pattern("^\\s*log\\s*=") {
            Ok(re) => re,
            Err(e) => return Err(e),
        };
        let clues_line = match compile_pattern("^\\s*clues=(\\d+)") {
            Ok(re) => re,
            Err(e) => return Err(e),
        };
        let roll_line = match compile_pattern("^\\s*roll=\\d+") {
            Ok(re) => re,
            Err(e) => return Err(e),
        };
        let total_line = match compile_pattern("^\\s*total=\\d+") {
            Ok(re) => re,
            Err(e) => return Err(e),
        };
        let bonus_line = match compile_pattern("^\\s*bonus=(\\d+)") {
            Ok(re) => re,
            Err(e) => return Err(e),
        };
        let difficulty_line = match compile_pattern("^\\s*difficulty=(\\d+)") {
            Ok(re) => re,
            Err(e) => return Err(e),
        };
        let last_roll_line = match compile_pattern("^\\s*last_roll=\\d+") {
            Ok(re) => re,
            Err(e) => return Err(e),
        };
        let clues_value = match compile_pattern("clues=\\d+") {
            Ok(re) => re,
            Err(e) => return Err(e),
        };
        let total_value = match compile_pattern("total=\\d+") {
            Ok(re) => re,
            Err(e) => return Err(e),
        };
        let last_roll_value = match compile_pattern("last_roll=\\d+") {
            Ok(re) => re,
            Err(e) => return Err(e),
        };
        Ok(
            ArchPatterns {
                site_type,
                log,
                clues_line,
                roll_line,
                total_line,
                bonus_line,
                difficulty_line,
                last_roll_line,
                clues_value,
                total_value,
                last_roll_value,
            },
        )
    }
}

/// The facts of one line, as the scan reads them.
pub struct ArchLineFacts {
    pub opens: usize,
    pub closes: usize,
    pub site_type: bool,
    pub log: bool,
    pub clues: bool,
    pub roll: bool,
    pub total: bool,
    pub bonus: Option<String>,
    pub difficulty: Option<String>,
}

impl View for ArchLineFacts {
    type V = ArchFacts;

    open spec fn view(&self) -> ArchFacts {
        ArchFacts {
            opens: self.opens as int,
            closes: self.closes as int,
            site_type: self.site_type,
            log: self.log,
            clues: self.clues,
            roll: self.roll,
            total: self.total,
            bonus: opt_view(self.bonus),
            difficulty: opt_view(self.difficulty),
        }
    }
}

/// Gathers the facts of line `i` with the compiled patterns.
fn line_facts(p: &ArchPatterns, lines: &Vec<String>, i: usize, Ghost(kind): Ghost<Seq<char>>) -> (f:
    ArchLineFacts)
    requires
        p.wf(kind),
        i < lines.len(),
    ensures
        f@ == arch_facts(lines@[i as int]@, kind),
        f.opens + f.closes <= lines@[i as int]@.len(),
{
    let line = line_chars(lines, i);
    let hay = lines[i].as_str();
    proof {
        lemma_count_braces(line@);
    }
    ArchLineFacts {
        opens: count_char_in(&line, '{'),
        closes: count_char_in(&line, '}'),
        site_type: is_match(&p.site_type, hay),
        log: is_match(&p.log, hay),
        clues: is_match(&p.clues_line, hay),
        roll: is_match(&p.roll_line, hay),
        total: is_match(&p.total_line, hay),
        bonus: group1(&p.bonus_line, hay),
        difficulty: group1(&p.difficulty_line, hay),
    }
}

/// The variables of the dig-site scan.
pub struct ArchScanner {
    pub depth: i64,
    pub after: i64,
    pub in_site: bool,
    pub site_depth: i64,
    pub in_log: bool,
    pub log_depth: i64,
    pub total: i64,
    pub clues_line: Option<usize>,
    pub roll_line: Option<usize>,
    pub total_line: Option<usize>,
    pub bonus: i32,
    pub difficulty: i32,
}

impl ArchScanner {
    /// The scan state these variables stand for, over the given lines.
    pub open spec fn state(&self, lines: Seq<Seq<char>>) -> ArchState {
        ArchState {
            lines: lines,
            depth: self.depth as int,
            after: self.after as int,
            in_site: self.in_site,
            site_depth: self.site_depth as int,
            in_log: self.in_log,
            log_depth: self.log_depth as int,
            total: self.total as int,
            clues_line: opt_index(self.clues_line),
            roll_line: opt_index(self.roll_line),
            total_line: opt_index(self.total_line),
            bonus: self.bonus as int,
            difficulty: self.difficulty as int,
        }
    }

    /// The scanner before the first line.
    pub fn new() -> (v: ArchScanner)
        ensures
            forall|lines: Seq<Seq<char>>| #[trigger] v.state(lines) == arch_init(lines),
    {
        ArchScanner {
            depth: 0,
            after: 0,
            in_site: false,
            site_depth: -1,
            in_log: false,
            log_depth: -1,
            total: 0,
            clues_line: None,
            roll_line: None,
            total_line: None,
            bonus: 0,
            difficulty: 0,
        }
    }

    /// Reads line `i` from its facts (see `arch_scan_facts`).
    pub fn scan_line(&mut self, i: usize, f: &ArchLineFacts)
        requires
            arch_bounded(old(self).state(Seq::empty()), char_limit() as int),
            f.opens <= char_limit(),
            f.closes <= char_limit(),
        ensures
            forall|lines: Seq<Seq<char>>| #[trigger] final(self).state(lines) == arch_scan_facts(
                old(self).state(lines),
                i as int,
                f@,
            ),
    {
        let depth = self.depth + f.opens as i64;
        let after = depth - f.closes as i64;
        if f.site_type {
            self.in_site = true;
            self.site_depth = depth - 1;
            self.total = 0;
        }
        if self.in_site && f.log {
            self.in_log = true;
            self.log_depth = self.site_depth + 1;
        }
        if self.in_log && depth > self.log_depth + 1 {
            if f.clues {
                self.clues_line = Some(i);
            } else if f.roll {
                self.roll_line = Some(i);
            } else if f.total {
                self.total_line = Some(i);
            } else {
                match &f.bonus {
                    Some(g) => {
                        self.bonus = parse_i32_or_zero(g.as_str());
                    },
                    None => {
                        match &f.difficulty {
                            Some(g) => {
                                self.difficulty = parse_i32_or_zero(g.as_str());
                            },
                            None => {},
                        }
                    },
                }
            }
        }
        self.depth = depth;
        self.after = after;
        assert forall|lines: Seq<Seq<char>>| #[trigger] self.state(lines) == arch_scan_facts(
            old(self).state(lines),
            i as int,
            f@,
        ) by {
            assert(self.state(lines) =~= arch_scan_facts(old(self).state(lines), i as int, f@));
        }
    }

    /// Decides what a line that `closes` a block does to the current log
    /// entry (see `arch_entry_close`).
    pub fn entry_close(&self, closes: bool) -> (r: Option<Option<(usize, usize, usize, i64)>>)
        requires
            self.log_depth < i64::MAX,
        ensures
            arch_close_view(r) == arch_entry_close(self.state(Seq::empty()), closes),
    {
        if self.in_log && closes && self.after == self.log_depth + 1 {
            match (self.roll_line, self.clues_line, self.total_line) {
                (Some(r), Some(c), Some(t)) => {
                    let g = clue_gain(self.bonus, self.total, self.difficulty);
                    Some(Some((r, c, t, g)))
                },
                _ => Some(None),
            }
        } else {
            None
        }
    }

    /// Closes a log entry on line `i` (see `arch_close_entry`).
    fn close_entry(
        &mut self,
        p: &ArchPatterns,
        lines: &mut Vec<String>,
        i: usize,
        Ghost(kind): Ghost<Seq<char>>,
        Ghost(t): Ghost<int>,
        Ghost(orig): Ghost<Seq<Seq<char>>>,
    )
        requires
            old(lines)@.len() == orig.len(),
            forall|j: int|
                0 <= j < orig.len() && !arch_rewritable(orig[j]) ==> #[trigger] views(old(lines)@)[j] == orig[j],
            arch_indices_rewritable(old(self).state(views(old(lines)@)), orig),
            p.wf(kind),
            i < old(lines).len(),
            arch_bounded(old(self).state(views(old(lines)@)), t),
            old(self).total <= 3 * (t - old(lines)@[i as int]@.len()),
            arch_indices_ok(old(self).state(views(old(lines)@)), i as int),
            old(lines)@[i as int]@.len() <= t <= char_limit(),
        ensures
            final(self).state(views(final(lines)@)) == arch_close_entry(
                old(self).state(views(old(lines)@)),
                i as int,
            ),
            final(lines)@.len() == old(lines)@.len(),
            forall|j: int|
                i < j < old(lines)@.len() ==> #[trigger] views(final(lines)@)[j] == views(
                    old(lines)@,
                )[j],
            arch_bounded(final(self).state(views(final(lines)@)), t),
            final(self).total <= 3 * t,
            arch_indices_ok(final(self).state(views(final(lines)@)), i as int),
            forall|j: int|
                0 <= j < old(lines)@.len() && !arch_rewritable(orig[j]) ==> #[trigger] views(final(lines)@)[j] == orig[j],
            arch_indices_rewritable(final(self).state(views(final(lines)@)), orig),
    {
        let ghost s = old(self).state(views(lines@));
        let closes = has_char(&line_chars(lines, i), '}');
        proof {
            lemma_count_char_contains(lines@[i as int]@, '}');
        }
        assert(arch_entry_close(s, closes) == arch_entry_close(self.state(Seq::empty()), closes));
        match self.entry_close(closes) {
            None => {},
            Some(action) => {
                match action {
                    Some((r, c, t_idx, g)) => {
                        let new_r = replace_first(&p.roll_line, lines[r].as_str(), "roll=10");
                        set_line(lines, r, new_r);
                        let total_text = keyed_number("total=", self.total as u128);
                        let new_t = replace_first(
                            &p.total_value,
                            lines[t_idx].as_str(),
                            total_text.as_str(),
                        );
                        set_line(lines, t_idx, new_t);
                        let clues_text = keyed_number("clues=", g as u128);
                        let new_c = replace_first(&p.clues_value, lines[c].as_str(), clues_text.as_str());
                        set_line(lines, c, new_c);
                        self.total = self.total + g;
                    },
                    None => {},
                }
                self.clues_line = None;
                self.roll_line = None;
                self.total_line = None;
                self.bonus = 0;
                self.difficulty = 0;
            },
        }
        assert(self.state(views(lines@)) =~= arch_close_entry(s, i as int));
    }

    /// Finishes line `i` (see `arch_finish_line`).
    fn finish_line(
        &mut self,
        p: &ArchPatterns,
        lines: &mut Vec<String>,
        i: usize,
        Ghost(kind): Ghost<Seq<char>>,
        Ghost(t): Ghost<int>,
        Ghost(orig): Ghost<Seq<Seq<char>>>,
    )
        requires
            old(lines)@.len() == orig.len(),
            forall|j: int|
                0 <= j < orig.len() && !arch_rewritable(orig[j]) ==> #[trigger] views(old(lines)@)[j] == orig[j],
            arch_indices_rewritable(old(self).state(views(old(lines)@)), orig),
            p.wf(kind),
            i < old(lines).len(),
            arch_bounded(old(self).state(views(old(lines)@)), t),
            arch_indices_ok(old(self).state(views(old(lines)@)), i as int),
            t <= char_limit(),
        ensures
            final(self).state(views(final(lines)@)) == arch_finish_line(
                old(self).state(views(old(lines)@)),
                i as int,
            ),
            final(lines)@.len() == old(lines)@.len(),
            forall|j: int|
                i < j < old(lines)@.len() ==> #[trigger] views(final(lines)@)[j] == views(
                    old(lines)@,
                )[j],
            arch_bounded(final(self).state(views(final(lines)@)), t),
            final(self).total == old(self).total,
            arch_indices_ok(final(self).state(views(final(lines)@)), i as int),
            forall|j: int|
                0 <= j < old(lines)@.len() && !arch_rewritable(orig[j]) ==> #[trigger] views(final(lines)@)[j] == orig[j],
            arch_indices_rewritable(final(self).state(views(final(lines)@)), orig),
    {
        let ghost s = old(self).state(views(lines@));
        if self.in_log && self.after == self.log_depth && has_char(&line_chars(lines, i), '}') {
            self.in_log = false;
        }
        if self.in_site && !self.in_log && self.after == self.site_depth + 1 {
            if is_match(&p.clues_line, lines[i].as_str()) {
                let text = keyed_number("clues=", self.total as u128);
                let nl = replace_first(&p.clues_value, lines[i].as_str(), text.as_str());
                set_line(lines, i, nl);
            } else if is_match(&p.last_roll_line, lines[i].as_str()) {
                let nl = replace_first(&p.last_roll_value, lines[i].as_str(), "last_roll=10");
                set_line(lines, i, nl);
            }
        }
        if self.in_site && self.after <= self.site_depth && has_char(&line_chars(lines, i), '}') {
            self.in_site = false;
        }
        self.depth = self.after;
        assert(self.state(views(lines@)) =~= arch_finish_line(s, i as int));
    }
}

/// Dig-site edit: for every site of type `target_site`, replays its log as
/// if every roll were ten. Each log entry with a roll line, a clues line and
/// a total line gets `roll=10`, the clues gathered before it as its total,
/// and the clues it then yields; the site's own `clues` line gets the
/// final running value and its `last_roll` line becomes ten. Lines are
/// matched by brace depth, block by block.
///
/// The edit is made only when every pattern compiles (the site type is put
/// into a pattern as it is); otherwise the lines are left as they are.
pub fn modify_archaeology_sites(lines: &mut Vec<String>, target_site: &str) -> (r: Result<
    (),
    EditError,
>)
    requires
        total_chars(views(old(lines)@)) <= char_limit(),
    ensures
        r is Ok <==> archaeology_patterns_valid(target_site@),
        r is Ok ==> views(final(lines)@) == archaeology_result(views(old(lines)@), target_site@),
        r is Err ==> final(lines)@ == old(lines)@,
        final(lines)@.len() == old(lines)@.len(),
        forall|j: int|
            0 <= j < old(lines)@.len() && !arch_rewritable(old(lines)@[j]@)
                ==> #[trigger] final(lines)@[j]@ == old(lines)@[j]@,
{
    let p = match ArchPatterns::compile(target_site) {
        Ok(p) => p,
        Err(e) => return Err(e),
    };
    let ghost kind = target_site@;
    let ghost orig = views(lines@);
    let n = lines.len();
    let mut v = ArchScanner::new();
    assert(v.state(orig) == arch_run(orig, kind, 0));
    let mut i: usize = 0;
    while i < n
        invariant
            p.wf(kind),
            n == lines.len(),
            orig.len() == n,
            i <= n,
            total_chars(orig) <= char_limit(),
            forall|j: int| i <= j < n ==> #[trigger] views(lines@)[j] == orig[j],
            v.state(views(lines@)) == arch_run(orig, kind, i as nat),
            arch_bounded(v.state(views(lines@)), total_chars(orig.take(i as int)) as int),
            v.total <= 3 * total_chars(orig.take(i as int)),
            arch_indices_ok(v.state(views(lines@)), i as int - 1),
            forall|j: int|
                0 <= j < n && !arch_rewritable(orig[j]) ==> #[trigger] views(lines@)[j] == orig[j],
            arch_indices_rewritable(v.state(views(lines@)), orig),
            kind == target_site@,
        decreases n - i,
    {
        proof {
            lemma_total_chars_prefix(orig, i as int);
        }
        let ghost t = total_chars(orig.take(i + 1)) as int;
        assert(views(lines@)[i as int] == orig[i as int]);
        assert(lines@[i as int]@ == orig[i as int]);
        let ghost s0 = v.state(views(lines@));
        let f = line_facts(&p, lines, i, Ghost(kind));
        assert(views(lines@)[i as int] == lines@[i as int]@);
        v.scan_line(i, &f);
        assert(v.state(views(lines@)) == arch_scan(s0, i as int, kind));
        v.close_entry(&p, lines, i, Ghost(kind), Ghost(t), Ghost(orig));
        v.finish_line(&p, lines, i, Ghost(kind), Ghost(t), Ghost(orig));
        assert(v.state(views(lines@)) == arch_step(s0, i as int, kind));
        i = i + 1;
    }
    assert forall|j: int|
        0 <= j < old(lines)@.len() && !arch_rewritable(old(lines)@[j]@) implies #[trigger] lines@[j]@
        == old(lines)@[j]@ by {
        assert(views(lines@)[j] == orig[j]);
    }
    Ok(())
}

} // verus!
