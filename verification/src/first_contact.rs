use crate::pattern::{
    compile_pattern, group1, is_match, pat_clues_value, pat_days_left_value,
    pat_first_contacts, pat_last_roll_value, pat_owner_field, regex_group1, regex_is_match,
    regex_replace_first,
    regex_source, regex_valid, replace_first, EditError,
};
use crate::text::{
    char_limit, chars_of, count_char, count_char_in, has_char, lemma_count_braces,
    lemma_total_chars_prefix, line_chars, occurs_in, opt_view, occurs_in_exec, set_line, total_chars, views,
};
use regex::Regex;
use vstd::prelude::*;

verus! {

/// The state of the scan over the save's lines.
pub struct FcState {
    pub lines: Seq<Seq<char>>,
    pub depth: int,
    pub in_first_contacts: bool,
    pub fc_depth: int,
    pub in_entry: bool,
    pub entry_depth: int,
}

/// The state before the first line.
pub open spec fn fc_init(lines: Seq<Seq<char>>) -> FcState {
    FcState {
        lines: lines,
        depth: 0,
        in_first_contacts: false,
        fc_depth: -1,
        in_entry: false,
        entry_depth: -1,
    }
}

/// What the scan needs to know of one line: its opening and closing
/// braces, whether it opens the `first_contacts` block, and the value of
/// its `owner=<value>` field, if it starts with one.
pub struct FcFacts {
    pub opens: int,
    pub closes: int,
    pub first_contacts: bool,
    pub owner_id: Option<Seq<char>>,
}

/// The facts of line `l`.
pub open spec fn fc_facts(l: Seq<char>) -> FcFacts {
    FcFacts {
        opens: count_char(l, '{') as int,
        closes: count_char(l, '}') as int,
        first_contacts: regex_is_match(pat_first_contacts(), l),
        owner_id: regex_group1(pat_owner_field(), l),
    }
}

/// Reading a line with facts `f`: the blocks it opens, and whether it
/// starts the player's own entry, which is the one whose owner id is
/// exactly `owner`.
pub open spec fn fc_scan_facts(s: FcState, f: FcFacts, owner: Seq<char>) -> FcState {
    let depth = s.depth + f.opens;
    let in_fc = f.first_contacts || s.in_first_contacts;
    let fc_depth = if f.first_contacts {
        depth - 1
    } else {
        s.fc_depth
    };
    let entry_start = in_fc && f.owner_id == Some(owner);
    FcState {
        lines: s.lines,
        depth: depth,
        in_first_contacts: in_fc,
        fc_depth: fc_depth,
        in_entry: entry_start || s.in_entry,
        entry_depth: if entry_start {
            depth - 1
        } else {
            s.entry_depth
        },
    }
}

/// Reading line `i`.
pub open spec fn fc_scan(s: FcState, i: int, owner: Seq<char>) -> FcState {
    fc_scan_facts(s, fc_facts(s.lines[i]), owner)
}

/// The rewrite of a line of the player's own entry: its clues become
/// twenty, or else its days left become one, or else its last roll
/// becomes ten.
pub open spec fn fc_rewrite(l: Seq<char>) -> Seq<char> {
    if occurs_in("clues="@, l) {
        regex_replace_first(pat_clues_value(), l, "clues=20"@)
    } else if occurs_in("days_left="@, l) {
        regex_replace_first(pat_days_left_value(), l, "days_left=1"@)
    } else if occurs_in("last_roll="@, l) {
        regex_replace_first(pat_last_roll_value(), l, "last_roll=10"@)
    } else {
        l
    }
}

/// Rewriting line `i` when it lies in the entry, then leaving the entry
/// and the block whose depth the line closes.
pub open spec fn fc_finish_line(s: FcState, i: int) -> FcState {
    let lines = if s.in_entry {
        s.lines.update(i, fc_rewrite(s.lines[i]))
    } else {
        s.lines
    };
    let after = s.depth - count_char(s.lines[i], '}');
    let closes = lines[i].contains('}');
    FcState {
        lines: lines,
        depth: after,
        in_first_contacts: if s.in_first_contacts && closes && after <= s.fc_depth {
            false
        } else {
            s.in_first_contacts
        },
        in_entry: if s.in_entry && closes && after <= s.entry_depth {
            false
        } else {
            s.in_entry
        },
        ..s
    }
}

/// One line of the scan.
pub open spec fn fc_step(s: FcState, i: int, owner: Seq<char>) -> FcState {
    fc_finish_line(fc_scan(s, i, owner), i)
}

/// The state after the first `n` lines.
pub open spec fn fc_run(lines: Seq<Seq<char>>, owner: Seq<char>, n: nat) -> FcState
    decreases n,
{
    if n == 0 {
        fc_init(lines)
    } else {
        fc_step(fc_run(lines, owner, (n - 1) as nat), n - 1, owner)
    }
}

/// The lines after the first-contact edit for the empire `owner`.
pub open spec fn first_contacts_result(lines: Seq<Seq<char>>, owner: Seq<char>) -> Seq<Seq<char>> {
    fc_run(lines, owner, lines.len()).lines
}

/// All the patterns of the first-contact edit compile.
pub open spec fn first_contacts_patterns_valid() -> bool {
    &&& regex_valid(pat_first_contacts())
    &&& regex_valid(pat_owner_field())
    &&& regex_valid(pat_clues_value())
    &&& regex_valid(pat_days_left_value())
    &&& regex_valid(pat_last_roll_value())
}

/// Line `j` is read while the scan is inside the owner's entry (after the
/// line's own `owner=` match is taken into account).
pub open spec fn fc_entry_active(lines: Seq<Seq<char>>, owner: Seq<char>, j: int) -> bool {
    fc_scan(fc_run(lines, owner, j as nat), j, owner).in_entry
}

/// After `n` lines, each line read so far is rewritten exactly when it was
/// read inside the owner's entry, and the lines not yet read are as given.
proof fn lemma_fc_run_lines(lines: Seq<Seq<char>>, owner: Seq<char>, n: nat)
    requires
        n <= lines.len(),
    ensures
        fc_run(lines, owner, n).lines.len() == lines.len(),
        forall|j: int|
            0 <= j < lines.len() ==> #[trigger] fc_run(lines, owner, n).lines[j] == if j < n
                && fc_entry_active(lines, owner, j) {
                fc_rewrite(lines[j])
            } else {
                lines[j]
            },
    decreases n,
{
    if n > 0 {
        lemma_fc_run_lines(lines, owner, (n - 1) as nat);
    }
}

/// The first-contact edit keeps the number of lines, and each line is
/// either left as it was or, when it lies in the owner's own entry of the
/// `first_contacts` block, rewritten by `fc_rewrite`: no other line is
/// touched.
pub proof fn law_first_contacts_touches_only_the_owner_entry(
    lines: Seq<Seq<char>>,
    owner: Seq<char>,
)
    ensures
        first_contacts_result(lines, owner).len() == lines.len(),
        forall|j: int|
            0 <= j < lines.len() ==> #[trigger] first_contacts_result(lines, owner)[j] == if fc_entry_active(
                lines,
                owner,
                j,
            ) {
                fc_rewrite(lines[j])
            } else {
                lines[j]
            },
{
    lemma_fc_run_lines(lines, owner, lines.len());
}

/// The scan is inside an entry only after a line whose owner value are
/// exactly `owner`.
proof fn lemma_fc_entry_needs_owner_line(lines: Seq<Seq<char>>, owner: Seq<char>, n: nat)
    requires
        n <= lines.len(),
    ensures
        fc_run(lines, owner, n).in_entry ==> exists|j: int|
            0 <= j < n && #[trigger] regex_group1(pat_owner_field(), lines[j]) == Some(owner),
    decreases n,
{
    if n > 0 {
        lemma_fc_entry_needs_owner_line(lines, owner, (n - 1) as nat);
        lemma_fc_run_lines(lines, owner, (n - 1) as nat);
        let s = fc_run(lines, owner, (n - 1) as nat);
        assert(s.lines[n - 1] == lines[n - 1]);
        if fc_run(lines, owner, n).in_entry && !s.in_entry {
            assert(regex_group1(pat_owner_field(), lines[n - 1]) == Some(owner));
        }
    }
}

/// The first-contact edit changes a line only where an earlier line, or
/// the line itself, carries an `owner=` field whose value is exactly the
/// player's id: entries of other owners, whose ids merely start with the
/// same text among them, are left alone.
pub proof fn law_first_contacts_changes_only_after_own_owner_line(
    lines: Seq<Seq<char>>,
    owner: Seq<char>,
)
    ensures
        forall|i: int|
            0 <= i < lines.len() && #[trigger] first_contacts_result(lines, owner)[i] != lines[i]
                ==> exists|j: int|
                0 <= j <= i && #[trigger] regex_group1(pat_owner_field(), lines[j]) == Some(owner),
{
    lemma_fc_run_lines(lines, owner, lines.len());
    assert forall|i: int|
        0 <= i < lines.len() && #[trigger] first_contacts_result(lines, owner)[i]
            != lines[i] implies exists|j: int|
        0 <= j <= i && #[trigger] regex_group1(pat_owner_field(), lines[j]) == Some(owner) by {
        assert(fc_entry_active(lines, owner, i));
        lemma_fc_entry_needs_owner_line(lines, owner, i as nat);
        lemma_fc_run_lines(lines, owner, i as nat);
        let s = fc_run(lines, owner, i as nat);
        assert(s.lines[i] == lines[i]);
        if !s.in_entry {
            assert(regex_group1(pat_owner_field(), lines[i]) == Some(owner));
        }
    }
}

/// When no line carries an `owner=` field whose value is exactly the
/// player's id, the first-contact edit leaves every line as it was, even
/// when other owners' ids start with that text.
pub proof fn law_first_contacts_without_own_entry_changes_nothing(
    lines: Seq<Seq<char>>,
    owner: Seq<char>,
)
    requires
        forall|j: int|
            0 <= j < lines.len() ==> #[trigger] regex_group1(pat_owner_field(), lines[j]) != Some(
                owner,
            ),
    ensures
        first_contacts_result(lines, owner) == lines,
{
    law_first_contacts_changes_only_after_own_owner_line(lines, owner);
    lemma_fc_run_lines(lines, owner, lines.len());
    assert forall|i: int| 0 <= i < lines.len() implies #[trigger] first_contacts_result(
        lines,
        owner,
    )[i] == lines[i] by {
        if first_contacts_result(lines, owner)[i] != lines[i] {
            let j = choose|j: int|
                0 <= j <= i && #[trigger] regex_group1(pat_owner_field(), lines[j]) == Some(owner);
            assert(regex_group1(pat_owner_field(), lines[j]) != Some(owner));
        }
    }
    assert(first_contacts_result(lines, owner) =~= lines);
}

/// The owner's entry ends only where the depth falls back to the entry's
/// level: when line `n` is read inside the entry and the depth after it is
/// still above the entry's depth, line `n + 1` is read inside the entry
/// too (and is rewritten, see `law_first_contacts_touches_only_the_owner_entry`),
/// whatever closing braces of nested blocks line `n` holds.
pub proof fn law_first_contacts_entry_lasts_until_its_depth(
    lines: Seq<Seq<char>>,
    owner: Seq<char>,
    n: nat,
)
    requires
        n + 1 < lines.len(),
        fc_entry_active(lines, owner, n as int),
        fc_run(lines, owner, n + 1).depth > fc_scan(fc_run(lines, owner, n), n as int, owner).entry_depth,
    ensures
        fc_entry_active(lines, owner, (n + 1) as int),
        fc_run(lines, owner, n + 1).entry_depth == fc_scan(fc_run(lines, owner, n), n as int, owner).entry_depth,
{
    assert(fc_run(lines, owner, n + 1) == fc_step(fc_run(lines, owner, n), n as int, owner));
}

/// Rewriting line `l` of the owner's entry is stable: rewriting it once
/// more gives the same text, and the rewritten line has the braces, the
/// block marker and the owner field of `l`.
pub open spec fn fc_rewrite_stable(l: Seq<char>) -> bool {
    &&& fc_rewrite(fc_rewrite(l)) == fc_rewrite(l)
    &&& fc_facts(fc_rewrite(l)) == fc_facts(l)
}

/// Two scan states agree on everything but the lines.
pub open spec fn fc_same_control(a: FcState, b: FcState) -> bool {
    &&& a.depth == b.depth
    &&& a.in_first_contacts == b.in_first_contacts
    &&& a.fc_depth == b.fc_depth
    &&& a.in_entry == b.in_entry
    &&& a.entry_depth == b.entry_depth
}

/// Scanning the edited lines again walks through the same states as the
/// first scan and leaves the edited lines as they are.
proof fn lemma_fc_rerun(lines: Seq<Seq<char>>, owner: Seq<char>, n: nat)
    requires
        n <= lines.len(),
        forall|j: int|
            0 <= j < lines.len() && #[trigger] fc_entry_active(lines, owner, j)
                ==> fc_rewrite_stable(lines[j]),
    ensures
        fc_same_control(
            fc_run(lines, owner, n),
            fc_run(first_contacts_result(lines, owner), owner, n),
        ),
        fc_run(first_contacts_result(lines, owner), owner, n).lines == first_contacts_result(
            lines,
            owner,
        ),
    decreases n,
{
    let r = first_contacts_result(lines, owner);
    law_first_contacts_touches_only_the_owner_entry(lines, owner);
    if n > 0 {
        let i = n - 1;
        lemma_fc_rerun(lines, owner, (n - 1) as nat);
        lemma_fc_run_lines(lines, owner, (n - 1) as nat);
        let s1 = fc_run(lines, owner, (n - 1) as nat);
        let s2 = fc_run(r, owner, (n - 1) as nat);
        assert(s1.lines[i] == lines[i]);
        assert(s2.lines[i] == r[i]);
        let active = fc_entry_active(lines, owner, i);
        if active {
            assert(fc_rewrite_stable(lines[i]));
            assert(r[i] == fc_rewrite(lines[i]));
        } else {
            assert(r[i] == lines[i]);
        }
        assert(fc_facts(r[i]) == fc_facts(lines[i]));
        let t1 = fc_scan(s1, i, owner);
        let t2 = fc_scan(s2, i, owner);
        assert(fc_same_control(t1, t2));
        assert(t1.in_entry == active);
        if active {
            assert(t2.lines.update(i, fc_rewrite(t2.lines[i])) =~= r);
        }
        assert(fc_step(s2, i, owner).lines =~= r);
    }
}

/// Running the first-contact edit again on its own result changes
/// nothing, where rewriting each line of the owner's entry is stable (see
/// `fc_rewrite_stable`): the second scan meets the same blocks and entries
/// and finds their fields already rewritten. Stability is a fact of the
/// replacement patterns, whose results are named here, so it stands as a
/// condition on the lines that the edit rewrites.
pub proof fn law_first_contacts_is_idempotent(lines: Seq<Seq<char>>, owner: Seq<char>)
    requires
        forall|j: int|
            0 <= j < lines.len() && #[trigger] fc_entry_active(lines, owner, j)
                ==> fc_rewrite_stable(lines[j]),
    ensures
        first_contacts_result(first_contacts_result(lines, owner), owner) == first_contacts_result(
            lines,
            owner,
        ),
{
    law_first_contacts_touches_only_the_owner_entry(lines, owner);
    lemma_fc_rerun(lines, owner, lines.len());
}

/// Without a `first_contacts` line the scan never enters the block or an
/// entry.
proof fn lemma_fc_run_idle(lines: Seq<Seq<char>>, owner: Seq<char>, n: nat)
    requires
        n <= lines.len(),
        forall|j: int|
            0 <= j < lines.len() ==> !regex_is_match(pat_first_contacts(), #[trigger] lines[j]),
    ensures
        fc_run(lines, owner, n).lines == lines,
        !fc_run(lines, owner, n).in_first_contacts,
        !fc_run(lines, owner, n).in_entry,
    decreases n,
{
    if n > 0 {
        lemma_fc_run_idle(lines, owner, (n - 1) as nat);
        assert(!regex_is_match(pat_first_contacts(), lines[n - 1]));
    }
}

/// When no line opens the `first_contacts` block, the first-contact edit
/// leaves every line as it was.
pub proof fn law_first_contacts_without_block_changes_nothing(
    lines: Seq<Seq<char>>,
    owner: Seq<char>,
)
    requires
        forall|j: int|
            0 <= j < lines.len() ==> !regex_is_match(pat_first_contacts(), #[trigger] lines[j]),
    ensures
        first_contacts_result(lines, owner) == lines,
{
    lemma_fc_run_idle(lines, owner, lines.len());
}

/// A line holds a field that the first-contact edit rewrites: a clues
/// value, a days-left value or a last-roll value. The edit replaces these
/// fields wherever they stand in a line of the owner's entry, so the
/// patterns here are the ones the replacements use.
pub open spec fn fc_rewritable(l: Seq<char>) -> bool {
    ||| regex_is_match(pat_clues_value(), l)
    ||| regex_is_match(pat_days_left_value(), l)
    ||| regex_is_match(pat_last_roll_value(), l)
}

/// The depths stay within what the characters read so far allow.
pub open spec fn fc_bounded(s: FcState, t: int) -> bool {
    &&& -t <= s.depth <= t
    &&& -t - 1 <= s.fc_depth <= t
    &&& -t - 1 <= s.entry_depth <= t
}

/// The compiled patterns of the first-contact edit.
struct FcPatterns {
    first_contacts: Regex,
    owner: Regex,
    clues_value: Regex,
    days_left_value: Regex,
    last_roll_value: Regex,
}

impl FcPatterns {
    spec fn wf(&self) -> bool {
        &&& regex_source(self.first_contacts) == pat_first_contacts()
        &&& regex_source(self.owner) == pat_owner_field()
        &&& regex_source(self.clues_value) == pat_clues_value()
        &&& regex_source(self.days_left_value) == pat_days_left_value()
        &&& regex_source(self.last_roll_value) == pat_last_roll_value()
    }

    fn compile() -> (r: Result<FcPatterns, EditError>)
        ensures
            r is Ok <==> first_contacts_patterns_valid(),
            r matches Ok(p) ==> p.wf(),
    {
        let first_contacts = match compile_pattern("^\\s*first_contacts\\s*=") {
            Ok(re) => re,
            Err(e) => return Err(e),
        };
        let owner_re = match compile_pattern("^\\s*owner=([^\\s}]*)") {
            Ok(re) => re,
            Err(e) => return Err(e),
        };
        let clues_value = match compile_pattern("clues=\\d+") {
            Ok(re) => re,
            Err(e) => return Err(e),
        };
        let days_left_value = match compile_pattern("days_left=\\d+(?:\\.\\d+)?") {
            Ok(re) => re,
            Err(e) => return Err(e),
        };
        let last_roll_value = match compile_pattern("last_roll=\\d+") {
            Ok(re) => re,
            Err(e) => return Err(e),
        };
        Ok(FcPatterns { first_contacts, owner: owner_re, clues_value, days_left_value, last_roll_value })
    }
}

/// The words that choose a line's rewrite.
struct FcKeys {
    clues: Vec<char>,
    days_left: Vec<char>,
    last_roll: Vec<char>,
}

impl FcKeys {
    fn new() -> (k: FcKeys)
        ensures
            k.clues@ == "clues="@,
            k.days_left@ == "days_left="@,
            k.last_roll@ == "last_roll="@,
    {
        FcKeys {
            clues: chars_of("clues="),
            days_left: chars_of("days_left="),
            last_roll: chars_of("last_roll="),
        }
    }
}

/// Computes `fc_rewrite` of line `i`.
fn rewrite_line(p: &FcPatterns, keys: &FcKeys, lines: &Vec<String>, i: usize) -> (r: String)
    requires
        p.wf(),
        i < lines.len(),
        keys.clues@ == "clues="@,
        keys.days_left@ == "days_left="@,
        keys.last_roll@ == "last_roll="@,
    ensures
        r@ == fc_rewrite(lines@[i as int]@),
        !fc_rewritable(lines@[i as int]@) ==> r@ == lines@[i as int]@,
{
    let line = line_chars(lines, i);
    let hay = lines[i].as_str();
    if occurs_in_exec(&keys.clues, &line) {
        replace_first(&p.clues_value, hay, "clues=20")
    } else if occurs_in_exec(&keys.days_left, &line) {
        replace_first(&p.days_left_value, hay, "days_left=1")
    } else if occurs_in_exec(&keys.last_roll, &line) {
        replace_first(&p.last_roll_value, hay, "last_roll=10")
    } else {
        lines[i].clone()
    }
}

/// The facts of one line, as the scan reads them.
pub struct FcLineFacts {
    pub opens: usize,
    pub closes: usize,
    pub first_contacts: bool,
    pub owner_id: Option<String>,
}

impl View for FcLineFacts {
    type V = FcFacts;

    open spec fn view(&self) -> FcFacts {
        FcFacts {
            opens: self.opens as int,
            closes: self.closes as int,
            first_contacts: self.first_contacts,
            owner_id: opt_view(self.owner_id),
        }
    }
}

/// Gathers the facts of line `i` with the compiled patterns.
fn line_facts(p: &FcPatterns, lines: &Vec<String>, i: usize) -> (f: FcLineFacts)
    requires
        p.wf(),
        i < lines.len(),
    ensures
        f@ == fc_facts(lines@[i as int]@),
        f.opens + f.closes <= lines@[i as int]@.len(),
{
    let line = line_chars(lines, i);
    let hay = lines[i].as_str();
    proof {
        lemma_count_braces(line@);
    }
    FcLineFacts {
        opens: count_char_in(&line, '{'),
        closes: count_char_in(&line, '}'),
        first_contacts: is_match(&p.first_contacts, hay),
        owner_id: group1(&p.owner, hay),
    }
}

/// The variables of the first-contact scan.
pub struct FcScanner {
    pub depth: i64,
    pub in_first_contacts: bool,
    pub fc_depth: i64,
    pub in_entry: bool,
    pub entry_depth: i64,
}

impl FcScanner {
    /// The scan state these variables stand for, over the given lines.
    pub open spec fn state(&self, lines: Seq<Seq<char>>) -> FcState {
        FcState {
            lines: lines,
            depth: self.depth as int,
            in_first_contacts: self.in_first_contacts,
            fc_depth: self.fc_depth as int,
            in_entry: self.in_entry,
            entry_depth: self.entry_depth as int,
        }
    }

    /// The scanner before the first line.
    pub fn new() -> (sc: FcScanner)
        ensures
            forall|lines: Seq<Seq<char>>| #[trigger] sc.state(lines) == fc_init(lines),
    {
        FcScanner { depth: 0, in_first_contacts: false, fc_depth: -1, in_entry: false, entry_depth: -1 }
    }

    /// Reads a line from its facts (see `fc_scan_facts`): the line starts
    /// the player's entry only when it lies in the `first_contacts` block
    /// and its owner value are exactly `owner`.
    pub fn scan_line(&mut self, f: &FcLineFacts, owner: &str)
        requires
            fc_bounded(old(self).state(Seq::empty()), char_limit() as int),
            f.opens <= char_limit(),
        ensures
            forall|lines: Seq<Seq<char>>| #[trigger] final(self).state(lines) == fc_scan_facts(
                old(self).state(lines),
                f@,
                owner@,
            ),
    {
        self.depth = self.depth + f.opens as i64;
        if f.first_contacts {
            self.in_first_contacts = true;
            self.fc_depth = self.depth - 1;
        }
        if self.in_first_contacts {
            let same = match &f.owner_id {
                Some(g) => g.eq(&owner.to_owned()),
                None => false,
            };
            if same {
                self.in_entry = true;
                self.entry_depth = self.depth - 1;
            }
        }
    }
}

/// First-contact edit: inside the `first_contacts` block, the entry whose
/// `owner=` line carries exactly the id `target_owner_id` (the player's
/// own empire) gets its clues set to twenty, its days left to one and its
/// last roll to ten. Lines outside that entry, the entries of other owners
/// among them, are not touched. The id is compared as text with the
/// field's value (everything after `=` up to whitespace or `}`), so any id,
/// digits or not, finds only its own entry.
///
/// The edit is made only when every pattern compiles; otherwise the lines
/// are left as they are.
pub fn modify_first_contacts(lines: &mut Vec<String>, target_owner_id: &str) -> (r: Result<
    (),
    EditError,
>)
    requires
        total_chars(views(old(lines)@)) <= char_limit(),
    ensures
        r is Ok <==> first_contacts_patterns_valid(),
        r is Ok ==> views(final(lines)@) == first_contacts_result(
            views(old(lines)@),
            target_owner_id@,
        ),
        r is Err ==> final(lines)@ == old(lines)@,
        final(lines)@.len() == old(lines)@.len(),
        forall|j: int|
            0 <= j < old(lines)@.len() && !fc_rewritable(old(lines)@[j]@)
                ==> #[trigger] final(lines)@[j]@ == old(lines)@[j]@,
{
    let p = match FcPatterns::compile() {
        Ok(p) => p,
        Err(e) => return Err(e),
    };
    let keys = FcKeys::new();
    let ghost owner = target_owner_id@;
    let ghost orig = views(lines@);
    let n = lines.len();
    let mut sc = FcScanner::new();
    let mut i: usize = 0;
    while i < n
        invariant
            p.wf(),
            owner == target_owner_id@,
            keys.clues@ == "clues="@,
            keys.days_left@ == "days_left="@,
            keys.last_roll@ == "last_roll="@,
            n == lines.len(),
            orig.len() == n,
            i <= n,
            total_chars(orig) <= char_limit(),
            forall|j: int| i <= j < n ==> #[trigger] views(lines@)[j] == orig[j],
            forall|j: int|
                0 <= j < n && !fc_rewritable(orig[j]) ==> #[trigger] views(lines@)[j] == orig[j],
            sc.state(views(lines@)) == fc_run(orig, owner, i as nat),
            fc_bounded(sc.state(views(lines@)), total_chars(orig.take(i as int)) as int),
        decreases n - i,
    {
        proof {
            lemma_total_chars_prefix(orig, i as int);
        }
        let ghost s0 = sc.state(views(lines@));
        assert(views(lines@)[i as int] == orig[i as int]);
        let f = line_facts(&p, lines, i);
        assert(views(lines@)[i as int] == lines@[i as int]@);
        assert(f@ == fc_facts(s0.lines[i as int]));
        sc.scan_line(&f, target_owner_id);
        let ghost s1 = sc.state(views(lines@));
        assert(s1 == fc_scan_facts(s0, f@, owner));
        assert(s1 == fc_scan(s0, i as int, owner));
        if sc.in_entry {
            let nl = rewrite_line(&p, &keys, lines, i);
            set_line(lines, i, nl);
        }
        let after = sc.depth - f.closes as i64;
        if sc.in_entry && after <= sc.entry_depth && has_char(&line_chars(lines, i), '}') {
            sc.in_entry = false;
        }
        if sc.in_first_contacts && after <= sc.fc_depth && has_char(&line_chars(lines, i), '}') {
            sc.in_first_contacts = false;
        }
        sc.depth = after;
        assert(sc.state(views(lines@)) == fc_finish_line(s1, i as int));
        i = i + 1;
    }
    assert forall|j: int|
        0 <= j < old(lines)@.len() && !fc_rewritable(old(lines)@[j]@) implies #[trigger] lines@[j]@
        == old(lines)@[j]@ by {
        assert(views(lines@)[j] == orig[j]);
    }
    Ok(())
}

} // verus!
