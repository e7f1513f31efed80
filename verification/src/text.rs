//! Character-level helpers shared by the parsers and formatters: converting
//! between strings and char vectors, decimal rendering, and the Unicode
//! whitespace that `str::trim` removes.
use vstd::prelude::*;
use vstd::string::*;
use vstd::utf8::{decode_utf8, valid_utf8};

verus! {

/// Appends one character to a string: `String::push`. The contract is what
/// std documents: the string's characters gain `c` at the end.
#[verifier::external_body]
pub(crate) fn push_char(s: &mut String, c: char)
    ensures
        final(s)@ == old(s)@.push(c),
{
    s.push(c)
}

/// The characters of `s`, in order.
pub fn chars_of(s: &str) -> (v: Vec<char>)
    ensures
        v@ == s@,
{
    let n = s.unicode_len();
    let mut v: Vec<char> = Vec::new();
    let mut i: usize = 0;
    while i < n
        invariant
            n == s@.len(),
            i <= n,
            v@ == s@.take(i as int),
        decreases n - i,
    {
        v.push(s.get_char(i));
        i = i + 1;
        assert(v@ =~= s@.take(i as int));
    }
    assert(s@.take(n as int) =~= s@);
    v
}

/// Appends the characters `cs[from..to]` to `out`.
pub fn push_chars(out: &mut String, cs: &[char], from: usize, to: usize)
    requires
        from <= to <= cs@.len(),
    ensures
        final(out)@ == old(out)@ + cs@.subrange(from as int, to as int),
{
    let mut i = from;
    while i < to
        invariant
            from <= i <= to <= cs@.len(),
            out@ == old(out)@ + cs@.subrange(from as int, i as int),
        decreases to - i,
    {
        push_char(out, cs[i]);
        i = i + 1;
        assert(out@ =~= old(out)@ + cs@.subrange(from as int, i as int));
    }
}

/// A string holding the characters `cs[from..to]`.
pub fn string_of(cs: &[char], from: usize, to: usize) -> (r: String)
    requires
        from <= to <= cs@.len(),
    ensures
        r@ == cs@.subrange(from as int, to as int),
{
    let mut r = String::new();
    push_chars(&mut r, cs, from, to);
    assert(r@ =~= cs@.subrange(from as int, to as int));
    r
}

/// Whether two character sequences are equal.
pub fn same_chars(a: &[char], b: &[char]) -> (r: bool)
    ensures
        r == (a@ == b@),
{
    if a.len() != b.len() {
        return false;
    }
    let mut i: usize = 0;
    while i < a.len()
        invariant
            a@.len() == b@.len(),
            i <= a@.len(),
            a@.take(i as int) == b@.take(i as int),
        decreases a@.len() - i,
    {
        if a[i] != b[i] {
            assert(a@[i as int] != b@[i as int]);
            return false;
        }
        i = i + 1;
        assert(a@.take(i as int) =~= a@.take(i - 1).push(a@[i - 1]));
        assert(b@.take(i as int) =~= b@.take(i - 1).push(b@[i - 1]));
    }
    assert(a@ =~= a@.take(i as int));
    assert(b@ =~= b@.take(i as int));
    true
}

/// Whether two strings hold the same characters (`==` on `str`).
pub fn same_text(a: &str, b: &str) -> (r: bool)
    ensures
        r == (a@ == b@),
{
    let x = chars_of(a);
    let y = chars_of(b);
    same_chars(x.as_slice(), y.as_slice())
}

/// Whether `c` is an ASCII decimal digit.
pub open spec fn is_digit(c: char) -> bool {
    '0' <= c && c <= '9'
}

/// The value of a string of decimal digits, most significant first.
pub open spec fn digits_value(s: Seq<char>) -> nat
    decreases s.len(),
{
    if s.len() == 0 {
        0
    } else {
        digits_value(s.drop_last()) * 10 + (s.last() as nat - '0' as nat) as nat
    }
}

/// What `str::parse` gives for an unsigned integer type whose maximum is
/// `max`: an optional leading `+`, then one or more ASCII digits, whose value
/// must not exceed `max`.
pub open spec fn parse_uint_spec(s: Seq<char>, max: nat) -> Option<nat> {
    let d = unsigned_digits(s);
    if d.len() == 0 || !all_digits(d) || digits_value(d) > max {
        None
    } else {
        Some(digits_value(d))
    }
}

/// `s` without one leading `+`.
pub open spec fn unsigned_digits(s: Seq<char>) -> Seq<char> {
    if s.len() > 0 && s[0] == '+' {
        s.drop_first()
    } else {
        s
    }
}

/// Whether every character of `s` is an ASCII digit.
pub open spec fn all_digits(s: Seq<char>) -> bool {
    forall|i: int| 0 <= i < s.len() ==> is_digit(#[trigger] s[i])
}

proof fn lemma_digits_value_push(s: Seq<char>, c: char)
    ensures
        digits_value(s.push(c)) == digits_value(s) * 10 + (c as nat - '0' as nat) as nat,
{
    assert(s.push(c).drop_last() =~= s);
}

/// `cs[from..to]` parsed as an unsigned integer no larger than `max`, as
/// `str::parse::<u64>` / `::<u16>` do.
pub fn parse_uint(cs: &[char], from: usize, to: usize, max: u64) -> (r: Option<u64>)
    requires
        from <= to <= cs@.len(),
    ensures
        match r {
            Some(v) => parse_uint_spec(cs@.subrange(from as int, to as int), max as nat) == Some(
                v as nat,
            ),
            None => parse_uint_spec(cs@.subrange(from as int, to as int), max as nat) is None,
        },
{
    let ghost s = cs@.subrange(from as int, to as int);
    let start = if from < to && cs[from] == '+' {
        from + 1
    } else {
        from
    };
    let ghost d = cs@.subrange(start as int, to as int);
    assert(d =~= unsigned_digits(s));
    if start == to {
        assert(d.len() == 0);
        assert(parse_uint_spec(s, max as nat) is None);
        return None;
    }
    let mut value: u64 = 0;
    let mut i = start;
    let mut overflow = false;
    while i < to
        invariant
            start <= i <= to <= cs@.len(),
            d == cs@.subrange(start as int, to as int),
            s == cs@.subrange(from as int, to as int),
            d == unsigned_digits(s),
            d.len() > 0,
            forall|k: int| start <= k < i ==> is_digit(#[trigger] cs@[k]),
            !overflow ==> value as nat == digits_value(cs@.subrange(start as int, i as int)),
            !overflow ==> value <= max,
            overflow ==> digits_value(cs@.subrange(start as int, i as int)) > max,
        decreases to - i,
    {
        let c = cs[i];
        if !('0' <= c && c <= '9') {
            assert(!is_digit(d[i - start]));
            assert(parse_uint_spec(s, max as nat) is None);
            return None;
        }
        let ghost prefix = cs@.subrange(start as int, i as int);
        assert(cs@.subrange(start as int, i + 1) =~= prefix.push(c));
        proof {
            lemma_digits_value_push(prefix, c);
        }
        if !overflow {
            let dv = (c as u32 - '0' as u32) as u64;
            if dv > max || value > (max - dv) / 10 {
                overflow = true;
                assert(value * 10 + dv > max) by (nonlinear_arith)
                    requires
                        dv > max || value > (max - dv) / 10,
                        dv <= 9,
                ;
            } else {
                assert(value * 10 + dv <= max) by (nonlinear_arith)
                    requires
                        value <= (max - dv) / 10,
                        dv <= 9,
                        max >= dv,
                ;
                value = value * 10 + dv;
            }
        }
        i = i + 1;
    }
    assert(cs@.subrange(start as int, i as int) =~= d);
    if overflow {
        None
    } else {
        Some(value)
    }
}

/// The index of the last `c` in `cs[from..to]`, as `str::rfind` finds it.
pub open spec fn last_index_spec(s: Seq<char>, c: char) -> Option<nat>
    decreases s.len(),
{
    if s.len() == 0 {
        None
    } else if s.last() == c {
        Some((s.len() - 1) as nat)
    } else {
        last_index_spec(s.drop_last(), c)
    }
}

/// A position `last_index_spec` reports holds `c`, within `s`.
pub proof fn lemma_last_index_bound(s: Seq<char>, c: char)
    ensures
        last_index_spec(s, c) matches Some(i) ==> i < s.len() && s[i as int] == c,
    decreases s.len(),
{
    if s.len() > 0 && s.last() != c {
        lemma_last_index_bound(s.drop_last(), c);
    }
}

/// The last position of `c` in `cs`, if any.
pub fn rfind_char(cs: &[char], c: char) -> (r: Option<usize>)
    ensures
        match r {
            Some(i) => last_index_spec(cs@, c) == Some(i as nat),
            None => last_index_spec(cs@, c) is None,
        },
{
    let mut i = cs.len();
    assert(cs@.take(i as int) =~= cs@);
    while i > 0
        invariant
            i <= cs@.len(),
            last_index_spec(cs@, c) == last_index_spec(cs@.take(i as int), c),
        decreases i,
    {
        let ghost t = cs@.take(i as int);
        if cs[i - 1] == c {
            return Some(i - 1);
        }
        assert(t.drop_last() =~= cs@.take(i - 1));
        i = i - 1;
    }
    assert(cs@.take(0) =~= Seq::<char>::empty());
    None
}

/// `c` with ASCII uppercase mapped to lowercase (`char::to_ascii_lowercase`).
pub open spec fn lower_ascii(c: char) -> char {
    if 'A' <= c && c <= 'Z' {
        ((c as int) + 32) as char
    } else {
        c
    }
}

/// `s` with ASCII uppercase mapped to lowercase (`str::to_ascii_lowercase`).
pub open spec fn lower_ascii_seq(s: Seq<char>) -> Seq<char> {
    s.map_values(|c: char| lower_ascii(c))
}

fn lower_ascii_char(c: char) -> (r: char)
    ensures
        r == lower_ascii(c),
{
    if 'A' <= c && c <= 'Z' {
        (((c as u32) + 32) as u8) as char
    } else {
        c
    }
}

/// `s.to_ascii_lowercase()`.
pub fn to_ascii_lowercase(s: &str) -> (r: String)
    ensures
        r@ == lower_ascii_seq(s@),
{
    let cs = chars_of(s);
    let mut r = String::new();
    let mut i: usize = 0;
    while i < cs.len()
        invariant
            cs@ == s@,
            i <= cs@.len(),
            r@ == lower_ascii_seq(s@.take(i as int)),
        decreases cs@.len() - i,
    {
        let c = lower_ascii_char(cs[i]);
        push_char(&mut r, c);
        i = i + 1;
        assert(r@ =~= lower_ascii_seq(s@.take(i as int)));
    }
    assert(s@.take(i as int) =~= s@);
    r
}

/// `a.eq_ignore_ascii_case(b)`: equal once ASCII letters are lowercased.
pub fn eq_ignore_ascii_case(a: &str, b: &str) -> (r: bool)
    ensures
        r == (lower_ascii_seq(a@) == lower_ascii_seq(b@)),
{
    let x = to_ascii_lowercase(a);
    let y = to_ascii_lowercase(b);
    same_text(x.as_str(), y.as_str())
}

/// `s.starts_with(prefix)`.
pub fn starts_with(s: &str, prefix: &str) -> (r: bool)
    ensures
        r == (prefix@.len() <= s@.len() && s@.take(prefix@.len() as int) == prefix@),
{
    let cs = chars_of(s);
    let ps = chars_of(prefix);
    if ps.len() > cs.len() {
        return false;
    }
    let head = string_of(cs.as_slice(), 0, ps.len());
    let hs = chars_of(head.as_str());
    assert(cs@.subrange(0, ps@.len() as int) =~= s@.take(prefix@.len() as int));
    same_chars(hs.as_slice(), ps.as_slice())
}

/// A string holding the characters of `s`.
pub fn owned(s: &str) -> (r: String)
    ensures
        r@ == s@,
{
    let mut r = String::new();
    push_str(&mut r, s);
    assert(r@ =~= s@);
    r
}

/// Appends the characters of `t` to `out`.
pub fn push_str(out: &mut String, t: &str)
    ensures
        final(out)@ == old(out)@ + t@,
{
    out.append(t);
}

/// The ASCII digit for `d` (which is below ten).
pub open spec fn digit_char(d: nat) -> char {
    (('0' as nat) + d) as char
}

/// The decimal rendering of `n`, most significant digit first, without
/// leading zeros ("0" for zero).
pub open spec fn decimal(n: nat) -> Seq<char>
    decreases n,
{
    if n < 10 {
        seq![digit_char(n)]
    } else {
        decimal(n / 10).push(digit_char(n % 10))
    }
}

/// Appends the decimal rendering of `n` to `out`, as `format!("{n}")` does.
pub fn push_decimal(out: &mut String, n: u64)
    ensures
        final(out)@ == old(out)@ + decimal(n as nat),
    decreases n,
{
    if n >= 10 {
        push_decimal(out, n / 10);
    }
    let d = (n % 10) as u32;
    let c = char_from_digit(d);
    push_char(out, c);
    assert(out@ =~= old(out)@ + decimal(n as nat));
}

/// The ASCII digit character for `d < 10`.
fn char_from_digit(d: u32) -> (c: char)
    requires
        d < 10,
    ensures
        c == digit_char(d as nat),
{
    match d {
        0 => '0',
        1 => '1',
        2 => '2',
        3 => '3',
        4 => '4',
        5 => '5',
        6 => '6',
        7 => '7',
        8 => '8',
        _ => '9',
    }
}

/// Whether `c` is Unicode White_Space, the set `char::is_whitespace` (and
/// so `str::trim`) uses.
pub open spec fn is_white(c: char) -> bool {
    ||| c == '\t'
    ||| c == '\n'
    ||| c == '\u{0B}'
    ||| c == '\u{0C}'
    ||| c == '\r'
    ||| c == ' '
    ||| c == '\u{85}'
    ||| c == '\u{A0}'
    ||| c == '\u{1680}'
    ||| ('\u{2000}' <= c && c <= '\u{200A}')
    ||| c == '\u{2028}'
    ||| c == '\u{2029}'
    ||| c == '\u{202F}'
    ||| c == '\u{205F}'
    ||| c == '\u{3000}'
}

/// Executable `is_white`.
pub fn is_white_char(c: char) -> (b: bool)
    ensures
        b == is_white(c),
{
    c == '\t' || c == '\n' || c == '\u{0B}' || c == '\u{0C}' || c == '\r' || c == ' ' || c
        == '\u{85}' || c == '\u{A0}' || c == '\u{1680}' || ('\u{2000}' <= c && c <= '\u{200A}')
        || c == '\u{2028}' || c == '\u{2029}' || c == '\u{202F}' || c == '\u{205F}' || c
        == '\u{3000}'
}

/// The number of leading whitespace characters of `s`.
pub open spec fn lead_white(s: Seq<char>) -> nat
    decreases s.len(),
{
    if s.len() > 0 && is_white(s[0]) {
        1 + lead_white(s.drop_first())
    } else {
        0
    }
}

/// The number of trailing whitespace characters of `s`.
pub open spec fn trail_white(s: Seq<char>) -> nat
    decreases s.len(),
{
    if s.len() > 0 && is_white(s.last()) {
        1 + trail_white(s.drop_last())
    } else {
        0
    }
}

/// `s` without its leading whitespace (`str::trim_start`).
pub open spec fn trim_start_spec(s: Seq<char>) -> Seq<char> {
    s.skip(lead_white(s) as int)
}

/// `s` without its trailing whitespace (`str::trim_end`).
pub open spec fn trim_end_spec(s: Seq<char>) -> Seq<char> {
    s.take(s.len() - trail_white(s))
}

/// `s` without leading or trailing whitespace (`str::trim`).
pub open spec fn trim_spec(s: Seq<char>) -> Seq<char> {
    trim_end_spec(trim_start_spec(s))
}

proof fn lemma_lead_white_bound(s: Seq<char>)
    ensures
        lead_white(s) <= s.len(),
        forall|i: int| 0 <= i < lead_white(s) ==> is_white(#[trigger] s[i]),
        lead_white(s) < s.len() ==> !is_white(s[lead_white(s) as int]),
    decreases s.len(),
{
    if s.len() > 0 && is_white(s[0]) {
        lemma_lead_white_bound(s.drop_first());
        assert forall|i: int| 0 <= i < lead_white(s) implies is_white(#[trigger] s[i]) by {
            if i > 0 {
                assert(s[i] == s.drop_first()[i - 1]);
            }
        }
        if lead_white(s) < s.len() {
            assert(s[lead_white(s) as int] == s.drop_first()[lead_white(s.drop_first()) as int]);
        }
    }
}

proof fn lemma_trail_white_bound(s: Seq<char>)
    ensures
        trail_white(s) <= s.len(),
        forall|i: int| s.len() - trail_white(s) <= i < s.len() ==> is_white(#[trigger] s[i]),
        trail_white(s) < s.len() ==> !is_white(s[s.len() - trail_white(s) - 1]),
    decreases s.len(),
{
    if s.len() > 0 && is_white(s.last()) {
        lemma_trail_white_bound(s.drop_last());
        assert forall|i: int| s.len() - trail_white(s) <= i < s.len() implies is_white(
            #[trigger] s[i],
        ) by {
            if i < s.len() - 1 {
                assert(s[i] == s.drop_last()[i]);
            }
        }
        if trail_white(s) < s.len() {
            assert(s[s.len() - trail_white(s) - 1] == s.drop_last()[s.drop_last().len()
                - trail_white(s.drop_last()) - 1]);
        }
    }
}

/// A string with no whitespace in it is its own trim.
pub proof fn lemma_trim_no_white(s: Seq<char>)
    requires
        forall|i: int| 0 <= i < s.len() ==> !is_white(#[trigger] s[i]),
    ensures
        trim_spec(s) == s,
{
    assert(lead_white(s) == 0);
    assert(trim_start_spec(s) =~= s);
    assert(trail_white(s) == 0);
    assert(trim_end_spec(s) =~= s);
}

/// The bounds `[start, end)` of `cs[from..to]` with its surrounding
/// whitespace removed.
pub fn trim_bounds(cs: &[char], from: usize, to: usize) -> (r: (usize, usize))
    requires
        from <= to <= cs@.len(),
    ensures
        from <= r.0 <= r.1 <= to,
        cs@.subrange(r.0 as int, r.1 as int) == trim_spec(cs@.subrange(from as int, to as int)),
{
    let ghost s = cs@.subrange(from as int, to as int);
    let mut start = from;
    while start < to && is_white_char(cs[start])
        invariant
            from <= start <= to <= cs@.len(),
            s == cs@.subrange(from as int, to as int),
            lead_white(s) == (start - from) + lead_white(cs@.subrange(start as int, to as int)),
        decreases to - start,
    {
        let ghost t = cs@.subrange(start as int, to as int);
        assert(t.drop_first() =~= cs@.subrange(start + 1, to as int));
        start = start + 1;
    }
    proof {
        let t = cs@.subrange(start as int, to as int);
        assert(lead_white(t) == 0);
        assert(trim_start_spec(s) =~= t);
    }
    let ghost u = cs@.subrange(start as int, to as int);
    let mut end = to;
    while end > start && is_white_char(cs[end - 1])
        invariant
            from <= start <= end <= to <= cs@.len(),
            u == cs@.subrange(start as int, to as int),
            trail_white(u) == (to - end) + trail_white(cs@.subrange(start as int, end as int)),
        decreases end - start,
    {
        let ghost t = cs@.subrange(start as int, end as int);
        assert(t.drop_last() =~= cs@.subrange(start as int, end - 1));
        end = end - 1;
    }
    proof {
        let t = cs@.subrange(start as int, end as int);
        assert(trail_white(t) == 0);
        assert(trim_end_spec(u) =~= t);
    }
    (start, end)
}

/// Whether `needle` occurs in `hay` starting at `i`.
pub open spec fn occurs_at(hay: Seq<char>, needle: Seq<char>, i: int) -> bool {
    0 <= i && i + needle.len() <= hay.len() && hay.subrange(i, i + needle.len()) == needle
}

/// The first position at or after `i` where `needle` occurs in `hay`.
pub open spec fn find_from(hay: Seq<char>, needle: Seq<char>, i: int) -> Option<int>
    decreases hay.len() - i,
{
    if i < 0 || i + needle.len() > hay.len() {
        None
    } else if occurs_at(hay, needle, i) {
        Some(i)
    } else if i < hay.len() {
        find_from(hay, needle, i + 1)
    } else {
        None
    }
}

/// The first position where `needle` occurs in `hay` (`str::find`).
pub open spec fn find_spec(hay: Seq<char>, needle: Seq<char>) -> Option<int> {
    find_from(hay, needle, 0)
}

/// Whether `needle` occurs in `cs` at `i`.
fn matches_at(cs: &[char], i: usize, to: usize, needle: &[char]) -> (r: bool)
    requires
        i <= to <= cs@.len(),
        i + needle@.len() <= to,
    ensures
        r == (cs@.subrange(i as int, i + needle@.len()) == needle@),
{
    let mut k: usize = 0;
    while k < needle.len()
        invariant
            i + needle@.len() <= to <= cs@.len(),
            k <= needle@.len(),
            cs@.subrange(i as int, i + k) == needle@.take(k as int),
        decreases needle@.len() - k,
    {
        if cs[i + k] != needle[k] {
            assert(cs@.subrange(i as int, i + needle@.len())[k as int] != needle@[k as int]);
            return false;
        }
        k = k + 1;
        assert(cs@.subrange(i as int, i + k) =~= cs@.subrange(i as int, i + k - 1).push(cs@[i + k - 1]));
        assert(needle@.take(k as int) =~= needle@.take(k - 1).push(needle@[k - 1]));
    }
    assert(needle@.take(k as int) =~= needle@);
    true
}

/// The first position of `needle` in `cs[from..to]`, counted in `cs`
/// (`str::find` on that slice, offset by `from`).
pub fn find_text(cs: &[char], from: usize, to: usize, needle: &[char]) -> (r: Option<usize>)
    requires
        from <= to <= cs@.len(),
    ensures
        match r {
            Some(k) => from <= k && k + needle@.len() <= to && find_spec(
                cs@.subrange(from as int, to as int),
                needle@,
            ) == Some(k - from) && cs@.subrange(k as int, k + needle@.len()) == needle@,
            None => find_spec(cs@.subrange(from as int, to as int), needle@) is None,
        },
{
    let ghost hay = cs@.subrange(from as int, to as int);
    let m = needle.len();
    if m > to - from {
        return None;
    }
    if m == 0 {
        assert(hay.subrange(0, 0) =~= needle@);
        return Some(from);
    }
    let mut i = from;
    while i <= to - m
        invariant
            from <= i <= to - m + 1,
            1 <= m,
            from + m <= to <= cs@.len(),
            m == needle@.len(),
            hay == cs@.subrange(from as int, to as int),
            find_spec(hay, needle@) == find_from(hay, needle@, i - from),
        decreases to - i,
    {
        let ghost j = i - from;
        assert(hay.subrange(j, j + m) =~= cs@.subrange(i as int, i + m));
        if matches_at(cs, i, to, needle) {
            return Some(i);
        }
        i = i + 1;
    }
    None
}

/// The index of the first non-whitespace character of `cs[from..to]`
/// (`to` when there is none), so that `cs[r..to]` is that slice's
/// `trim_start`.
pub fn skip_white(cs: &[char], from: usize, to: usize) -> (r: usize)
    requires
        from <= to <= cs@.len(),
    ensures
        from <= r <= to,
        cs@.subrange(r as int, to as int) == trim_start_spec(cs@.subrange(from as int, to as int)),
{
    let ghost s = cs@.subrange(from as int, to as int);
    let mut start = from;
    while start < to && is_white_char(cs[start])
        invariant
            from <= start <= to <= cs@.len(),
            s == cs@.subrange(from as int, to as int),
            lead_white(s) == (start - from) + lead_white(cs@.subrange(start as int, to as int)),
        decreases to - start,
    {
        let ghost t = cs@.subrange(start as int, to as int);
        assert(t.drop_first() =~= cs@.subrange(start + 1, to as int));
        start = start + 1;
    }
    proof {
        let t = cs@.subrange(start as int, to as int);
        assert(lead_white(t) == 0);
        assert(trim_start_spec(s) =~= t);
    }
    start
}

/// Whether `cs[from..to]` is exactly the characters `t`.
pub fn range_is(cs: &[char], from: usize, to: usize, t: &[char]) -> (r: bool)
    requires
        from <= to <= cs@.len(),
    ensures
        r == (cs@.subrange(from as int, to as int) == t@),
{
    if to - from != t.len() {
        return false;
    }
    matches_at(cs, from, to, t)
}

/// A vector holding the characters `cs[from..to]`.
pub fn chars_between(cs: &[char], from: usize, to: usize) -> (v: Vec<char>)
    requires
        from <= to <= cs@.len(),
    ensures
        v@ == cs@.subrange(from as int, to as int),
{
    let mut v: Vec<char> = Vec::new();
    let mut i = from;
    while i < to
        invariant
            from <= i <= to <= cs@.len(),
            v@ == cs@.subrange(from as int, i as int),
        decreases to - i,
    {
        v.push(cs[i]);
        i = i + 1;
        assert(v@ =~= cs@.subrange(from as int, i as int));
    }
    v
}

/// Whether `a` comes before `b` in the order `String`'s `Ord` gives:
/// character by character (UTF-8 keeps code-point order), a proper prefix
/// first.
pub open spec fn lex_less(a: Seq<char>, b: Seq<char>) -> bool
    decreases a.len(),
{
    if a.len() == 0 {
        b.len() > 0
    } else if b.len() == 0 {
        false
    } else if a[0] != b[0] {
        (a[0] as int) < (b[0] as int)
    } else {
        lex_less(a.drop_first(), b.drop_first())
    }
}

/// Of two different strings, one comes first, and not both.
pub proof fn lemma_lex_total(a: Seq<char>, b: Seq<char>)
    ensures
        a != b ==> (lex_less(a, b) || lex_less(b, a)),
        !(lex_less(a, b) && lex_less(b, a)),
    decreases a.len(),
{
    if a.len() > 0 && b.len() > 0 && a[0] == b[0] {
        lemma_lex_total(a.drop_first(), b.drop_first());
        if a.drop_first() == b.drop_first() {
            assert(a =~= seq![a[0]] + a.drop_first());
            assert(b =~= seq![b[0]] + b.drop_first());
        }
    }
    if a.len() == 0 && b.len() == 0 {
        assert(a =~= b);
    }
}

/// The order is transitive.
pub proof fn lemma_lex_trans(a: Seq<char>, b: Seq<char>, c: Seq<char>)
    requires
        lex_less(a, b),
        lex_less(b, c),
    ensures
        lex_less(a, c),
    decreases a.len(),
{
    if a.len() > 0 && b.len() > 0 && c.len() > 0 && a[0] == b[0] && b[0] == c[0] {
        lemma_lex_trans(a.drop_first(), b.drop_first(), c.drop_first());
    }
}

/// Whether `a` comes before `b` (`String`'s `<`).
pub fn lex_lt(a: &[char], b: &[char]) -> (r: bool)
    ensures
        r == lex_less(a@, b@),
{
    let mut i: usize = 0;
    assert(a@.skip(0) =~= a@);
    assert(b@.skip(0) =~= b@);
    while i < a.len() && i < b.len()
        invariant
            i <= a@.len(),
            i <= b@.len(),
            lex_less(a@, b@) == lex_less(a@.skip(i as int), b@.skip(i as int)),
        decreases a@.len() - i,
    {
        assert(a@.skip(i as int)[0] == a@[i as int]);
        assert(b@.skip(i as int)[0] == b@[i as int]);
        if a[i] != b[i] {
            return a[i] < b[i];
        }
        assert(a@.skip(i as int).drop_first() =~= a@.skip(i + 1));
        assert(b@.skip(i as int).drop_first() =~= b@.skip(i + 1));
        i = i + 1;
    }
    i == a.len() && i < b.len()
}

/// How many characters of `s` come before its first `\n`.
pub open spec fn line_len(s: Seq<char>) -> nat
    decreases s.len(),
{
    if s.len() == 0 || s[0] == '\n' {
        0
    } else {
        1 + line_len(s.drop_first())
    }
}

/// A line without the `\r` of a `\r\n` ending.
pub open spec fn without_cr(t: Seq<char>) -> Seq<char> {
    if t.len() > 0 && t.last() == '\r' {
        t.drop_last()
    } else {
        t
    }
}

/// The lines of `s` as `str::lines` yields them: split after each `\n`
/// (whose line loses the `\n` and then one `\r` before it); a last piece
/// without `\n` is a line as it stands; an empty text has no lines.
pub open spec fn lines_spec(s: Seq<char>) -> Seq<Seq<char>>
    decreases s.len(),
{
    if s.len() == 0 {
        Seq::empty()
    } else {
        let k = line_len(s);
        if k >= s.len() {
            seq![s]
        } else {
            seq![without_cr(s.take(k as int))] + lines_spec(s.skip(k + 1 as int))
        }
    }
}

/// The pieces `cs[start..end]` for each bound pair in `rs`.
pub open spec fn ranges_view(cs: Seq<char>, rs: Seq<(usize, usize)>) -> Seq<Seq<char>> {
    Seq::new(rs.len(), |k: int| cs.subrange(rs[k].0 as int, rs[k].1 as int))
}

/// Whether every bound pair in `rs` lies within `n` characters.
pub open spec fn ranges_within(n: nat, rs: Seq<(usize, usize)>) -> bool {
    forall|k: int| 0 <= k < rs.len() ==> (#[trigger] rs[k]).0 <= rs[k].1 <= n
}

/// The first line's length is within `s`, ends at a `\n` when shorter,
/// and holds no `\n`.
pub proof fn lemma_line_len(s: Seq<char>)
    ensures
        line_len(s) <= s.len(),
        line_len(s) < s.len() ==> s[line_len(s) as int] == '\n',
        forall|i: int| 0 <= i < line_len(s) ==> #[trigger] s[i] != '\n',
    decreases s.len(),
{
    if s.len() > 0 && s[0] != '\n' {
        lemma_line_len(s.drop_first());
        assert forall|i: int| 0 <= i < line_len(s) implies #[trigger] s[i] != '\n' by {
            if i > 0 {
                assert(s[i] == s.drop_first()[i - 1]);
            }
        }
    }
}

/// Whether `s` holds no line break.
pub open spec fn no_newline(s: Seq<char>) -> bool {
    forall|i: int| 0 <= i < s.len() ==> #[trigger] s[i] != '\n'
}

/// No line `str::lines` yields holds a line break.
pub proof fn lemma_lines_have_no_newline(s: Seq<char>)
    ensures
        forall|k: int| 0 <= k < lines_spec(s).len() ==> no_newline(#[trigger] lines_spec(s)[k]),
    decreases s.len(),
{
    if s.len() > 0 {
        let k = line_len(s);
        lemma_line_len(s);
        if k >= s.len() {
            assert(no_newline(s));
        } else {
            let rest = s.skip(k + 1 as int);
            lemma_lines_have_no_newline(rest);
            let first = without_cr(s.take(k as int));
            assert(no_newline(first)) by {
                assert forall|i: int| 0 <= i < first.len() implies #[trigger] first[i] != '\n' by {
                    assert(first[i] == s[i]);
                }
            }
            assert forall|j: int| 0 <= j < lines_spec(s).len() implies no_newline(
                #[trigger] lines_spec(s)[j],
            ) by {
                if j > 0 {
                    assert(lines_spec(s)[j] == lines_spec(rest)[j - 1]);
                }
            }
        }
    }
}

proof fn lemma_line_len_of_concat(a: Seq<char>, b: Seq<char>)
    requires
        no_newline(a),
    ensures
        line_len(a + seq!['\n'] + b) == a.len(),
    decreases a.len(),
{
    let s = a + seq!['\n'] + b;
    if a.len() == 0 {
        assert(s[0] == '\n');
    } else {
        assert(s[0] == a[0]);
        assert(s.drop_first() =~= a.drop_first() + seq!['\n'] + b);
        assert(no_newline(a.drop_first())) by {
            assert forall|i: int| 0 <= i < a.drop_first().len() implies #[trigger] a.drop_first()[i]
                != '\n' by {
                assert(a.drop_first()[i] == a[i + 1]);
            }
        }
        lemma_line_len_of_concat(a.drop_first(), b);
    }
}

/// A line break ends the first line: the lines of `a`, a line break and `b`
/// are `a` (without a closing `\r`) followed by the lines of `b`.
pub proof fn lemma_lines_of_concat(a: Seq<char>, b: Seq<char>)
    requires
        no_newline(a),
    ensures
        lines_spec(a + seq!['\n'] + b) == seq![without_cr(a)] + lines_spec(b),
{
    let s = a + seq!['\n'] + b;
    lemma_line_len_of_concat(a, b);
    assert(s.take(a.len() as int) =~= a);
    assert(s.skip(a.len() + 1 as int) =~= b);
}

proof fn lemma_lead_white_drop_last(t: Seq<char>)
    requires
        t.len() > 0,
        is_white(t.last()),
        lead_white(t) < t.len(),
    ensures
        lead_white(t.drop_last()) == lead_white(t),
    decreases t.len(),
{
    if is_white(t[0]) {
        let r = t.drop_first();
        assert(t.len() >= 2);
        assert(r.last() == t.last());
        lemma_lead_white_drop_last(r);
        assert(t.drop_last().drop_first() =~= r.drop_last());
        assert(t.drop_last()[0] == t[0]);
    } else {
        assert(t.len() >= 2);
        assert(t.drop_last()[0] == t[0]);
    }
}

/// Trailing whitespace does not change a trim: dropping a final whitespace
/// character leaves the trimmed text as it was.
pub proof fn lemma_trim_drop_white(t: Seq<char>)
    requires
        t.len() > 0,
        is_white(t.last()),
    ensures
        trim_spec(t.drop_last()) == trim_spec(t),
{
    lemma_lead_white_bound(t);
    lemma_lead_white_bound(t.drop_last());
    let l = lead_white(t);
    if l == t.len() {
        let d = t.drop_last();
        if lead_white(d) < d.len() {
            assert(d[lead_white(d) as int] == t[lead_white(d) as int]);
        }
        assert(trim_start_spec(t) =~= Seq::<char>::empty());
        assert(trim_start_spec(d) =~= Seq::<char>::empty());
        assert(trail_white(Seq::<char>::empty()) == 0);
    } else {
        lemma_lead_white_drop_last(t);
        let u = trim_start_spec(t);
        let v = trim_start_spec(t.drop_last());
        assert(v =~= u.drop_last());
        assert(u.last() == t.last());
        lemma_trail_white_bound(v);
        assert(trim_end_spec(v) =~= trim_end_spec(u));
    }
}

/// A closing `\r` does not change a trim.
pub proof fn lemma_trim_without_cr(t: Seq<char>)
    ensures
        trim_spec(without_cr(t)) == trim_spec(t),
{
    if t.len() > 0 && t.last() == '\r' {
        lemma_trim_drop_white(t);
    }
}

/// The `[start, end)` bounds of each line of `cs`, as `str::lines` splits it.
pub fn line_ranges(cs: &[char]) -> (r: Vec<(usize, usize)>)
    ensures
        ranges_within(cs@.len(), r@),
        ranges_view(cs@, r@) == lines_spec(cs@),
{
    let n = cs.len();
    let mut out: Vec<(usize, usize)> = Vec::new();
    let mut i: usize = 0;
    assert(cs@.skip(0) =~= cs@);
    assert(ranges_view(cs@, out@) =~= Seq::<Seq<char>>::empty());
    while i < n
        invariant
            n == cs@.len(),
            i <= n,
            ranges_within(n as nat, out@),
            lines_spec(cs@) == ranges_view(cs@, out@) + lines_spec(cs@.skip(i as int)),
        decreases n - i,
    {
        let mut j = i;
        while j < n && cs[j] != '\n'
            invariant
                i <= j <= n,
                n == cs@.len(),
                line_len(cs@.skip(i as int)) == (j - i) + line_len(cs@.skip(j as int)),
            decreases n - j,
        {
            assert(cs@.skip(j as int).drop_first() =~= cs@.skip(j + 1));
            j = j + 1;
        }
        let ghost rest = cs@.skip(i as int);
        let ghost prev = out@;
        if j == n {
            assert(line_len(cs@.skip(j as int)) == 0);
            assert(rest =~= cs@.subrange(i as int, n as int));
            out.push((i, n));
            assert(ranges_view(cs@, out@) =~= ranges_view(cs@, prev) + seq![rest]);
            assert(cs@.skip(n as int) =~= Seq::<char>::empty());
            assert(lines_spec(rest) == seq![rest]);
            i = n;
        } else {
            assert(cs@.skip(j as int)[0] == '\n');
            assert(line_len(cs@.skip(j as int)) == 0);
            let e = if j > i && cs[j - 1] == '\r' {
                j - 1
            } else {
                j
            };
            assert(rest.take(j - i) =~= cs@.subrange(i as int, j as int));
            assert(without_cr(rest.take(j - i)) =~= cs@.subrange(i as int, e as int));
            assert(rest.skip(j - i + 1) =~= cs@.skip(j + 1));
            out.push((i, e));
            assert(ranges_view(cs@, out@) =~= ranges_view(cs@, prev) + seq![cs@.subrange(i as int, e as int)]);
            i = j + 1;
        }
    }
    assert(cs@.skip(n as int) =~= Seq::<char>::empty());
    assert(lines_spec(cs@.skip(n as int)) =~= Seq::<Seq<char>>::empty());
    assert(ranges_view(cs@, out@) + Seq::<Seq<char>>::empty() =~= ranges_view(cs@, out@));
    out
}

/// The index just past the last non-whitespace character of `cs[from..to]`
/// (`from` when there is none), so that `cs[from..r]` is that slice's
/// `trim_end`.
pub fn trim_end_index(cs: &[char], from: usize, to: usize) -> (r: usize)
    requires
        from <= to <= cs@.len(),
    ensures
        from <= r <= to,
        cs@.subrange(from as int, r as int) == trim_end_spec(cs@.subrange(from as int, to as int)),
{
    let ghost u = cs@.subrange(from as int, to as int);
    let mut end = to;
    while end > from && is_white_char(cs[end - 1])
        invariant
            from <= end <= to <= cs@.len(),
            u == cs@.subrange(from as int, to as int),
            trail_white(u) == (to - end) + trail_white(cs@.subrange(from as int, end as int)),
        decreases end - from,
    {
        let ghost t = cs@.subrange(from as int, end as int);
        assert(t.drop_last() =~= cs@.subrange(from as int, end - 1));
        end = end - 1;
    }
    proof {
        let t = cs@.subrange(from as int, end as int);
        assert(trail_white(t) == 0);
        assert(trim_end_spec(u) =~= t);
    }
    end
}

/// What `str::to_lowercase` returns (full Unicode case mapping).
pub uninterp spec fn unicode_lowercase(s: Seq<char>) -> Seq<char>;

/// `str::to_lowercase`. Its contract says that the result is a function of
/// the characters alone; the case mapping itself is not stated.
#[verifier::external_body]
pub(crate) fn to_lowercase(s: &str) -> (r: String)
    ensures
        r@ == unicode_lowercase(s@),
{
    s.to_lowercase()
}

/// Whether `needle` occurs in `hay` (`str::contains`).
pub open spec fn contains_text(hay: Seq<char>, needle: Seq<char>) -> bool {
    find_spec(hay, needle) is Some
}

/// `hay.contains(needle)`.
pub fn contains_str(hay: &str, needle: &str) -> (r: bool)
    ensures
        r == contains_text(hay@, needle@),
{
    let h = chars_of(hay);
    let n = chars_of(needle);
    assert(h@.subrange(0, h@.len() as int) =~= hay@);
    find_text(h.as_slice(), 0, h.len(), n.as_slice()).is_some()
}

/// `String::from_utf8`: the text `bytes` encode, when they are valid UTF-8.
/// std documents that it fails exactly on bytes that are not valid UTF-8 and
/// otherwise holds those very bytes; the contract states that over vstd's
/// UTF-8 definitions.
#[verifier::external_body]
pub(crate) fn utf8_text(bytes: Vec<u8>) -> (r: Option<String>)
    ensures
        r.is_some() == valid_utf8(bytes@),
        r matches Some(t) ==> t@ == decode_utf8(bytes@),
{
    match String::from_utf8(bytes) {
        Ok(t) => Some(t),
        Err(_) => None,
    }
}

/// What `format!("{:?}", s)` writes for a string: `s` quoted, with
/// `char::escape_debug` applied inside.
pub uninterp spec fn debug_quoted(s: Seq<char>) -> Seq<char>;

/// The `Debug` rendering of a string. Its contract says that the result is a
/// function of the characters alone; the quoting and escaping rules are not
/// stated.
#[verifier::external_body]
pub(crate) fn debug_text(s: &str) -> (r: String)
    ensures
        r@ == debug_quoted(s@),
{
    format!("{:?}", s)
}

} // verus!
