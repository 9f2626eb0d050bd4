use crate::text::{chars_of, string_from_chars, views};
use vstd::prelude::*;

verus! {

/// `l` without one final carriage return, if it has one.
pub open spec fn strip_cr(l: Seq<char>) -> Seq<char> {
    if l.len() > 0 && l.last() == '\r' {
        l.drop_last()
    } else {
        l
    }
}

/// The lines of `s`, given the characters `cur` of the line read so far:
/// a line ends at each `\n` (a `\r` just before it is dropped), and a last
/// line without a final `\n` counts when it is not empty.
pub open spec fn lines_from(s: Seq<char>, cur: Seq<char>) -> Seq<Seq<char>>
    decreases s.len(),
{
    if s.len() == 0 {
        if cur.len() == 0 {
            Seq::empty()
        } else {
            seq![cur]
        }
    } else if s[0] == '\n' {
        seq![strip_cr(cur)] + lines_from(s.drop_first(), Seq::empty())
    } else {
        lines_from(s.drop_first(), cur.push(s[0]))
    }
}

/// The lines of `s`, as `str::lines` splits them.
pub open spec fn lines_spec(s: Seq<char>) -> Seq<Seq<char>> {
    lines_from(s, Seq::empty())
}

/// The lines joined with `\n` between them, without a final `\n`.
pub open spec fn join_spec(ls: Seq<Seq<char>>) -> Seq<char>
    decreases ls.len(),
{
    if ls.len() == 0 {
        Seq::empty()
    } else if ls.len() == 1 {
        ls[0]
    } else {
        join_spec(ls.drop_last()) + seq!['\n'] + ls.last()
    }
}

/// Joining a line in front of a non-empty list of lines puts a `\n`
/// between it and the rest.
proof fn lemma_join_prepend(x: Seq<char>, ls: Seq<Seq<char>>)
    requires
        ls.len() > 0,
    ensures
        join_spec(seq![x] + ls) == x + seq!['\n'] + join_spec(ls),
    decreases ls.len(),
{
    let all = seq![x] + ls;
    if ls.len() == 1 {
        assert(all.drop_last() =~= seq![x]);
        assert(join_spec(seq![x]) == x);
        assert(all.last() == ls[0]);
        assert(join_spec(all) == join_spec(all.drop_last()) + seq!['\n'] + all.last());
    } else {
        assert(all.drop_last() =~= seq![x] + ls.drop_last());
        lemma_join_prepend(x, ls.drop_last());
        assert(all.last() == ls.last());
        assert(join_spec(all) =~= x + seq!['\n'] + join_spec(ls));
    }
}

/// Splitting text without carriage returns and without a final `\n`,
/// then joining the lines, gives the text back (with the pending line
/// `cur` in front).
proof fn lemma_join_lines_from(s: Seq<char>, cur: Seq<char>)
    requires
        !s.contains('\r'),
        !cur.contains('\r'),
        s.len() == 0 || s.last() != '\n',
    ensures
        join_spec(lines_from(s, cur)) == cur + s,
        cur.len() + s.len() > 0 ==> lines_from(s, cur).len() > 0,
    decreases s.len(),
{
    if s.len() == 0 {
        assert(cur + s =~= cur);
    } else {
        let rest = s.drop_first();
        assert(!rest.contains('\r')) by {
            if rest.contains('\r') {
                let k = choose|k: int| 0 <= k < rest.len() && rest[k] == '\r';
                assert(s[k + 1] == '\r');
            }
        }
        assert(s[0] != '\r');
        if s[0] == '\n' {
            assert(rest.len() > 0);
            assert(rest.last() == s.last());
            lemma_join_lines_from(rest, Seq::empty());
            assert(strip_cr(cur) == cur) by {
                if cur.len() > 0 && cur.last() == '\r' {
                    assert(cur.contains('\r'));
                }
            }
            lemma_join_prepend(cur, lines_from(rest, Seq::empty()));
            assert(Seq::<char>::empty() + rest =~= rest);
            assert(cur + seq!['\n'] + rest =~= cur + s);
        } else {
            let c2 = cur.push(s[0]);
            assert(!c2.contains('\r')) by {
                if c2.contains('\r') {
                    let k = choose|k: int| 0 <= k < c2.len() && c2[k] == '\r';
                    if k < cur.len() {
                        assert(cur[k] == '\r');
                    }
                }
            }
            if rest.len() > 0 {
                assert(rest.last() == s.last());
            }
            lemma_join_lines_from(rest, c2);
            assert(c2 + rest =~= cur + s);
        }
    }
}

/// Splitting a game state into lines and joining them again gives the same
/// text, when it holds no carriage return and does not end with a line
/// ending: an edit that changes no line writes the state back unchanged.
pub proof fn law_join_after_split(s: Seq<char>)
    requires
        !s.contains('\r'),
        s.len() == 0 || s.last() != '\n',
    ensures
        join_spec(lines_spec(s)) == s,
{
    lemma_join_lines_from(s, Seq::empty());
    assert(Seq::<char>::empty() + s =~= s);
}

/// Splits the game state into its lines (`\n` or `\r\n` ends a line; a
/// final line ending is optional).
pub fn split_lines(data: &str) -> (out: Vec<String>)
    ensures
        views(out@) == lines_spec(data@),
{
    let s = chars_of(data);
    let mut out: Vec<String> = Vec::new();
    let mut cur: Vec<char> = Vec::new();
    let mut i: usize = 0;
    assert(s@.skip(0) =~= s@);
    assert(views(out@) =~= Seq::<Seq<char>>::empty());
    assert(views(out@) + lines_from(s@.skip(0), cur@) =~= lines_spec(s@));
    while i < s.len()
        invariant
            i <= s.len(),
            views(out@) + lines_from(s@.skip(i as int), cur@) == lines_spec(s@),
        decreases s.len() - i,
    {
        let ghost rest = s@.skip(i as int);
        assert(rest.drop_first() =~= s@.skip(i + 1));
        let c = s[i];
        if c == '\n' {
            let ghost old_out = views(out@);
            let ghost line = strip_cr(cur@);
            if cur.len() > 0 && cur[cur.len() - 1] == '\r' {
                cur.pop();
            }
            assert(cur@ == line);
            out.push(string_from_chars(&cur));
            assert(views(out@) =~= old_out + seq![line]);
            cur = Vec::new();
            assert(views(out@) + lines_from(s@.skip(i + 1), cur@) =~= old_out + (seq![line]
                + lines_from(s@.skip(i + 1), Seq::empty())));
        } else {
            cur.push(c);
        }
        i = i + 1;
    }
    assert(s@.skip(i as int) =~= Seq::<char>::empty());
    if cur.len() > 0 {
        let ghost old_out = views(out@);
        out.push(string_from_chars(&cur));
        assert(views(out@) =~= old_out + seq![cur@]);
    } else {
        assert(views(out@) + Seq::<Seq<char>>::empty() =~= views(out@));
    }
    out
}

/// Joins the lines with `\n` between them, as the game state is written
/// back.
pub fn join_lines(lines: &Vec<String>) -> (out: String)
    ensures
        out@ == join_spec(views(lines@)),
{
    let mut v: Vec<char> = Vec::new();
    let mut i: usize = 0;
    while i < lines.len()
        invariant
            i <= lines.len(),
            v@ == join_spec(views(lines@).take(i as int)),
        decreases lines.len() - i,
    {
        let ghost pre = views(lines@).take(i as int);
        let ghost next = views(lines@).take(i + 1);
        assert(next.drop_last() =~= pre);
        if i > 0 {
            v.push('\n');
        }
        let l = chars_of(lines[i].as_str());
        let mut j: usize = 0;
        let ghost v0 = v@;
        while j < l.len()
            invariant
                j <= l.len(),
                v@ == v0 + l@.take(j as int),
            decreases l.len() - j,
        {
            v.push(l[j]);
            j = j + 1;
        }
        assert(l@.take(l.len() as int) =~= l@);
        assert(next.last() == l@);
        if i == 0 {
            assert(next.len() == 1);
            assert(v@ =~= join_spec(next));
        } else {
            assert(v@ =~= join_spec(next));
        }
        i = i + 1;
    }
    assert(views(lines@).take(lines.len() as int) =~= views(lines@));
    string_from_chars(&v)
}

/// The index of the first `c` in `s`, if any.
pub open spec fn first_index(s: Seq<char>, c: char) -> Option<int> {
    if s.contains(c) {
        Some(choose|k: int| 0 <= k < s.len() && s[k] == c && forall|j: int| 0 <= j < k ==> s[j] != c)
    } else {
        None
    }
}

/// Finds the first `c` in `v`.
fn find_char(v: &Vec<char>, c: char) -> (r: Option<usize>)
    ensures
        match r {
            Some(k) => k < v@.len() && v@[k as int] == c && forall|j: int|
                0 <= j < k ==> v@[j] != c,
            None => !v@.contains(c),
        },
{
    let mut i: usize = 0;
    while i < v.len()
        invariant
            i <= v.len(),
            forall|j: int| 0 <= j < i ==> v@[j] != c,
        decreases v.len() - i,
    {
        if v[i] == c {
            return Some(i);
        }
        i = i + 1;
    }
    None
}

/// The text between the first `(` and the first `)` of a menu choice, such
/// as the key in `信息收集 (operation_gather_information)`; `None` when either
/// is missing or the `)` comes first.
pub open spec fn key_in_parentheses_spec(s: Seq<char>) -> Option<Seq<char>> {
    match (first_index(s, '('), first_index(s, ')')) {
        (Some(p), Some(q)) => if p < q {
            Some(s.subrange(p + 1, q))
        } else {
            None
        },
        _ => None,
    }
}

/// Takes the key out of a menu choice (see `key_in_parentheses_spec`).
pub fn key_in_parentheses(choice: &str) -> (r: Option<String>)
    ensures
        match r {
            Some(k) => key_in_parentheses_spec(choice@) == Some(k@),
            None => key_in_parentheses_spec(choice@) is None,
        },
{
    let v = chars_of(choice);
    let open = find_char(&v, '(');
    let close = find_char(&v, ')');
    proof {
        if v@.contains('(') {
            let p = first_index(v@, '(');
            assert(p is Some);
            let k = p->0;
            assert(open is Some);
            let o = open->0;
            if k < o {
                assert(v@[k] != '(');
            }
            if o < k {
            }
            assert(k == o);
        }
        if v@.contains(')') {
            let q = first_index(v@, ')')->0;
            let o = close->0;
            if q < o {
                assert(v@[q] != ')');
            }
            assert(q == o);
        }
    }
    match (open, close) {
        (Some(p), Some(q)) => {
            if p < q {
                let mut out: Vec<char> = Vec::new();
                let mut j: usize = p + 1;
                while j < q
                    invariant
                        p + 1 <= j <= q,
                        q < v@.len(),
                        out@ == v@.subrange(p + 1, j as int),
                    decreases q - j,
                {
                    out.push(v[j]);
                    j = j + 1;
                }
                Some(string_from_chars(&out))
            } else {
                None
            }
        },
        _ => None,
    }
}

} // verus!
