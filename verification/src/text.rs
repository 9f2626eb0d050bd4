use vstd::prelude::*;

verus! {

/// The most characters that the edited lines may hold together; the brace
/// depths and running totals are kept in 64-bit integers below it.
pub open spec fn char_limit() -> nat {
    0x1000_0000_0000_0000
}

/// Number of occurrences of `c` in `s`.
pub open spec fn count_char(s: Seq<char>, c: char) -> nat
    decreases s.len(),
{
    if s.len() == 0 {
        0
    } else {
        count_char(s.drop_last(), c) + if s.last() == c { 1nat } else { 0nat }
    }
}

/// `needle` occurs in `hay` as a contiguous run of characters.
pub open spec fn occurs_in(needle: Seq<char>, hay: Seq<char>) -> bool {
    exists|i: int|
        0 <= i && i + needle.len() <= hay.len() && #[trigger] hay.subrange(i, i + needle.len())
            == needle
}

/// The ASCII digit for a value below ten.
pub open spec fn digit_char(d: nat) -> char {
    (d + 48) as char
}

/// The decimal notation of `n`, without sign or leading zeros.
pub open spec fn decimal(n: nat) -> Seq<char>
    decreases n,
{
    if n < 10 {
        seq![digit_char(n)]
    } else {
        decimal(n / 10) + seq![digit_char(n % 10)]
    }
}

/// `c` is one of the ASCII digits `0` to `9`.
pub open spec fn is_digit(c: char) -> bool {
    '0' <= c && c <= '9'
}

/// The value of a run of ASCII digits read in base ten.
pub open spec fn digits_value(s: Seq<char>) -> nat
    decreases s.len(),
{
    if s.len() == 0 {
        0
    } else {
        digits_value(s.drop_last()) * 10 + ((s.last() as nat) - 48) as nat
    }
}

/// Every character of `s` is an ASCII digit.
pub open spec fn all_digits(s: Seq<char>) -> bool {
    forall|i: int| 0 <= i < s.len() ==> is_digit(#[trigger] s[i])
}

/// The value that a signed 32-bit decimal parse gives: an optional `+` or
/// `-`, then one or more ASCII digits, with the value in the `i32` range.
pub open spec fn parse_i32_spec(s: Seq<char>) -> Option<int> {
    let neg = s.len() > 0 && s[0] == '-';
    let body = if s.len() > 0 && (s[0] == '-' || s[0] == '+') {
        s.drop_first()
    } else {
        s
    };
    let v = if neg {
        -(digits_value(body) as int)
    } else {
        digits_value(body) as int
    };
    if body.len() > 0 && all_digits(body) && i32::MIN <= v <= i32::MAX {
        Some(v)
    } else {
        None
    }
}

/// What a failed parse falls back to: the parsed value, or zero.
pub open spec fn parse_i32_or_zero_spec(s: Seq<char>) -> int {
    match parse_i32_spec(s) {
        Some(v) => v,
        None => 0,
    }
}

/// Copies the characters of `s` into a vector.
pub fn chars_of(s: &str) -> (v: Vec<char>)
    ensures
        v@ == s@,
{
    let mut v: Vec<char> = Vec::new();
    for c in it: s.chars()
        invariant
            v@ == it.seq().take(it.index() as int),
    {
        v.push(c);
    }
    v
}

/// Builds a string from a vector of characters (`FromIterator<char>` for
/// `String`): the string holds the characters in the order given.
#[verifier::external_body]
pub(crate) fn string_from_chars(v: &Vec<char>) -> (s: String)
    ensures
        s@ == v@,
{
    v.iter().collect()
}

/// Counts the occurrences of `c` in `v`.
pub fn count_char_in(v: &Vec<char>, c: char) -> (n: usize)
    ensures
        n == count_char(v@, c),
{
    let mut n: usize = 0;
    let mut i: usize = 0;
    while i < v.len()
        invariant
            i <= v.len(),
            n == count_char(v@.take(i as int), c),
            n <= i,
        decreases v.len() - i,
    {
        assert(v@.take(i + 1).drop_last() == v@.take(i as int));
        if v[i] == c {
            n = n + 1;
        }
        i = i + 1;
    }
    assert(v@.take(v.len() as int) == v@);
    n
}

/// Whether `c` occurs in `v`.
pub fn has_char(v: &Vec<char>, c: char) -> (b: bool)
    ensures
        b == v@.contains(c),
{
    let mut i: usize = 0;
    while i < v.len()
        invariant
            i <= v.len(),
            forall|j: int| 0 <= j < i ==> v@[j] != c,
        decreases v.len() - i,
    {
        if v[i] == c {
            return true;
        }
        i = i + 1;
    }
    false
}

/// Whether `needle` occurs in `hay` as a contiguous run.
pub fn occurs_in_exec(needle: &Vec<char>, hay: &Vec<char>) -> (b: bool)
    ensures
        b == occurs_in(needle@, hay@),
{
    if needle.len() > hay.len() {
        return false;
    }
    let last = hay.len() - needle.len();
    let mut i: usize = 0;
    while i <= last
        invariant
            last == hay.len() - needle.len(),
            i <= last + 1,
            forall|k: int| 0 <= k < i ==> #[trigger] hay@.subrange(k, k + needle.len()) != needle@,
        decreases last + 1 - i,
    {
        let mut j: usize = 0;
        let mut same = true;
        while j < needle.len()
            invariant
                i <= last,
                last == hay.len() - needle.len(),
                j <= needle.len(),
                same == (forall|k: int| 0 <= k < j ==> hay@[i + k] == needle@[k]),
            decreases needle.len() - j,
        {
            if hay[i + j] != needle[j] {
                same = false;
            }
            j = j + 1;
        }
        if same {
            assert(hay@.subrange(i as int, i + needle.len()) =~= needle@);
            return true;
        }
        assert(hay@.subrange(i as int, i + needle.len()) != needle@) by {
            let k = choose|k: int| 0 <= k < needle.len() && hay@[i + k] != needle@[k];
            assert(hay@.subrange(i as int, i + needle.len())[k] != needle@[k]);
        }
        i = i + 1;
    }
    false
}


/// The ASCII digit for `d`, which is below ten.
fn digit_of(d: u128) -> (c: char)
    requires
        d < 10,
    ensures
        c == digit_char(d as nat),
{
    let b: u8 = d as u8;
    (b + 48u8) as char
}

/// Appends the decimal notation of `n` to `out`.
pub fn push_decimal(n: u128, out: &mut Vec<char>)
    ensures
        final(out)@ == old(out)@ + decimal(n as nat),
    decreases n,
{
    if n < 10 {
        out.push(digit_of(n));
        assert(decimal(n as nat) == seq![digit_char(n as nat)]);
    } else {
        push_decimal(n / 10, out);
        out.push(digit_of(n % 10));
    }
}

/// Builds `prefix` followed by the decimal notation of `n`, as a string
/// (such as `info=3`).
pub fn keyed_number(prefix: &str, n: u128) -> (s: String)
    ensures
        s@ == prefix@ + decimal(n as nat),
{
    let mut v = chars_of(prefix);
    push_decimal(n, &mut v);
    string_from_chars(&v)
}

/// Parses `s` as a signed 32-bit decimal number (an optional sign, then
/// ASCII digits); `None` when it is not one or is out of range.
pub fn parse_i32_chars(s: &Vec<char>) -> (r: Option<i32>)
    ensures
        match r {
            Some(v) => parse_i32_spec(s@) == Some(v as int),
            None => parse_i32_spec(s@) is None,
        },
{
    let len = s.len();
    if len == 0 {
        return None;
    }
    let neg = s[0] == '-';
    let start: usize = if s[0] == '-' || s[0] == '+' { 1 } else { 0 };
    let ghost body = if s@[0] == '-' || s@[0] == '+' { s@.drop_first() } else { s@ };
    assert(body =~= s@.subrange(start as int, len as int));
    if start == len {
        return None;
    }
    let limit: u64 = 0x8000_0000;
    let mut acc: u64 = 0;
    let mut big = false;
    let mut i: usize = start;
    while i < len
        invariant
            start <= i <= len,
            len == s.len(),
            body == s@.subrange(start as int, len as int),
            s@.len() > 0,
            body == (if s@[0] == '-' || s@[0] == '+' { s@.drop_first() } else { s@ }),
            all_digits(s@.subrange(start as int, i as int)),
            !big ==> acc == digits_value(s@.subrange(start as int, i as int)) && acc <= limit,
            big ==> digits_value(s@.subrange(start as int, i as int)) > limit,
            limit == 0x8000_0000,
        decreases len - i,
    {
        let c = s[i];
        let ghost pre = s@.subrange(start as int, i as int);
        let ghost next = s@.subrange(start as int, i + 1);
        assert(next.drop_last() =~= pre);
        assert(next.last() == c);
        if !('0' <= c && c <= '9') {
            assert(!is_digit(body[i - start]));
            assert(!all_digits(body));

            return None;
        }
        assert(all_digits(next)) by {
            assert forall|j: int| 0 <= j < next.len() implies is_digit(#[trigger] next[j]) by {
                if j < pre.len() {
                    assert(next[j] == pre[j]);
                }
            }
        }
        if !big {
            let d: u64 = (c as u32 - 48) as u64;
            let nv: u64 = acc * 10 + d;
            if nv > limit {
                big = true;
            } else {
                acc = nv;
            }
        }
        i = i + 1;
    }
    assert(s@.subrange(start as int, len as int) == body);
    if big {
        return None;
    }
    if neg {
        let v: i64 = -(acc as i64);
        if v < i32::MIN as i64 {
            return None;
        }
        Some(v as i32)
    } else {
        if acc > i32::MAX as u64 {
            return None;
        }
        Some(acc as i32)
    }
}

/// Parses `s` as a signed 32-bit decimal number, or gives zero when it is
/// not one.
pub fn parse_i32_or_zero(s: &str) -> (r: i32)
    ensures
        r == parse_i32_or_zero_spec(s@),
{
    let v = chars_of(s);
    match parse_i32_chars(&v) {
        Some(n) => n,
        None => 0,
    }
}


/// The decimal notation of `n` is a non-empty run of ASCII digits whose
/// base-ten value is `n`.
pub proof fn lemma_decimal_digits(n: nat)
    ensures
        decimal(n).len() > 0,
        all_digits(decimal(n)),
        digits_value(decimal(n)) == n,
    decreases n,
{
    let s = decimal(n);
    if n < 10 {
        assert(s.drop_last() =~= Seq::<char>::empty());
        assert((digit_char(n) as nat) == n + 48);
        assert(digits_value(s) == digits_value(s.drop_last()) * 10 + ((s.last() as nat) - 48) as nat);
        assert(digits_value(s.drop_last()) == 0);
    } else {
        lemma_decimal_digits(n / 10);
        let p = decimal(n / 10);
        assert(s.drop_last() =~= p);
        assert((digit_char(n % 10) as nat) == n % 10 + 48);
        assert(s.last() == digit_char(n % 10));
        assert(digits_value(s) == digits_value(p) * 10 + n % 10);
        assert(n == (n / 10) * 10 + n % 10);
        assert forall|j: int| 0 <= j < s.len() implies is_digit(#[trigger] s[j]) by {
            if j < p.len() {
                assert(s[j] == p[j]);
            }
        }
    }
}

/// Reading back a number that was written in decimal gives the number:
/// for every `n` in the `i32` range, the parse of its decimal notation is
/// `n` (so `parse_i32_or_zero` inverts `keyed_number` after its prefix).
pub proof fn lemma_parse_decimal_roundtrip(n: nat)
    requires
        n <= i32::MAX,
    ensures
        parse_i32_spec(decimal(n)) == Some(n as int),
        parse_i32_or_zero_spec(decimal(n)) == n,
{
    lemma_decimal_digits(n);
    let s = decimal(n);
    assert(is_digit(s[0]));
}


/// Whether the lines together hold no more than `char_limit()`
/// characters, as the edits require.
pub fn fits_char_limit(lines: &Vec<String>) -> (b: bool)
    ensures
        b == (total_chars(views(lines@)) <= char_limit()),
{
    let limit: u64 = 0x1000_0000_0000_0000;
    let mut acc: u64 = 0;
    let mut i: usize = 0;
    while i < lines.len()
        invariant
            i <= lines.len(),
            limit == char_limit(),
            acc == total_chars(views(lines@).take(i as int)),
            acc <= limit,
        decreases lines.len() - i,
    {
        proof {
            lemma_total_chars_prefix(views(lines@), i as int);
        }
        let n = line_chars(lines, i).len();
        if n as u64 > limit - acc {
            proof {
                lemma_total_chars_prefix(views(lines@), i as int);
            }
            return false;
        }
        acc = acc + n as u64;
        i = i + 1;
    }
    assert(views(lines@).take(lines.len() as int) =~= views(lines@));
    true
}

/// The character contents of a sequence of strings.
pub open spec fn views(v: Seq<String>) -> Seq<Seq<char>> {
    v.map_values(|s: String| s@)
}

/// The number of characters in all the lines together.
pub open spec fn total_chars(lines: Seq<Seq<char>>) -> nat
    decreases lines.len(),
{
    if lines.len() == 0 {
        0
    } else {
        total_chars(lines.drop_last()) + lines.last().len()
    }
}

/// Adding one more line to a prefix adds its length to the character total,
/// and no prefix holds more characters than the whole.
pub proof fn lemma_total_chars_prefix(lines: Seq<Seq<char>>, i: int)
    requires
        0 <= i < lines.len(),
    ensures
        total_chars(lines.take(i + 1)) == total_chars(lines.take(i)) + lines[i].len(),
        total_chars(lines.take(i + 1)) <= total_chars(lines),
    decreases lines.len(),
{
    assert(lines.take(i + 1).drop_last() =~= lines.take(i));
    if i + 1 < lines.len() {
        lemma_total_chars_prefix(lines.drop_last(), i);
        assert(lines.drop_last().take(i + 1) =~= lines.take(i + 1));
    } else {
        assert(lines.take(i + 1) =~= lines);
    }
}

/// The braces of a line are among its characters.
pub proof fn lemma_count_braces(s: Seq<char>)
    ensures
        count_char(s, '{') + count_char(s, '}') <= s.len(),
    decreases s.len(),
{
    if s.len() > 0 {
        lemma_count_braces(s.drop_last());
    }
}

/// `count_char` is positive exactly when the character occurs.
pub proof fn lemma_count_char_contains(s: Seq<char>, c: char)
    ensures
        (count_char(s, c) > 0) == s.contains(c),
    decreases s.len(),
{
    if s.len() > 0 {
        lemma_count_char_contains(s.drop_last(), c);
        if s.drop_last().contains(c) {
            let k = choose|k: int| 0 <= k < s.drop_last().len() && s.drop_last()[k] == c;
            assert(s[k] == c);
        }
        if s.contains(c) && s.last() != c {
            let k = choose|k: int| 0 <= k < s.len() && s[k] == c;
            assert(s.drop_last()[k] == c);
        }
    }
}

/// The characters of line `i` of `lines`.
pub fn line_chars(lines: &Vec<String>, i: usize) -> (v: Vec<char>)
    requires
        i < lines.len(),
    ensures
        v@ == lines@[i as int]@,
{
    chars_of(lines[i].as_str())
}


/// Replaces line `k` of `lines` with `s`.
pub fn set_line(lines: &mut Vec<String>, k: usize, s: String)
    requires
        k < old(lines).len(),
    ensures
        final(lines)@.len() == old(lines)@.len(),
        views(final(lines)@) == views(old(lines)@).update(k as int, s@),
{
    let ghost s_view = s@;
    lines.set(k, s);
    assert(views(lines@) =~= views(old(lines)@).update(k as int, s_view));
}

/// A captured group as characters.
pub open spec fn opt_view(o: Option<String>) -> Option<Seq<char>> {
    match o {
        Some(g) => Some(g@),
        None => None,
    }
}

/// An index given as a mathematical integer.
pub open spec fn opt_index(o: Option<usize>) -> Option<int> {
    match o {
        Some(k) => Some(k as int),
        None => None,
    }
}

} // verus!
