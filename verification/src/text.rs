//! Plain-text scanning shared by the runtime's parsers: Unicode whitespace, line and field
//! splitting, and decimal integer parsing, each stated over the character sequence.
use vstd::prelude::*;

verus! {

/// Unicode `White_Space`, the set `char::is_whitespace` accepts.
pub open spec fn is_unicode_whitespace(c: char) -> bool {
    let v = c as u32;
    (0x9 <= v && v <= 0xd) || v == 0x20 || v == 0x85 || v == 0xa0 || v == 0x1680 || (0x2000
        <= v && v <= 0x200a) || v == 0x2028 || v == 0x2029 || v == 0x202f || v == 0x205f || v
        == 0x3000
}

/// Returns whether `c` is Unicode whitespace.
pub fn is_whitespace(c: char) -> (r: bool)
    ensures
        r == is_unicode_whitespace(c),
{
    let v = c as u32;
    (0x9 <= v && v <= 0xd) || v == 0x20 || v == 0x85 || v == 0xa0 || v == 0x1680 || (0x2000 <= v
        && v <= 0x200a) || v == 0x2028 || v == 0x2029 || v == 0x202f || v == 0x205f || v == 0x3000
}

/// Collects the characters of `text` in order.
pub fn chars_of(text: &str) -> (out: Vec<char>)
    ensures
        out@ == text@,
{
    let mut out: Vec<char> = Vec::new();
    for c in it: text.chars()
        invariant
            out@ == it.seq().take(it.index() as int),
    {
        out.push(c);
    }
    out
}

/// The first index at or after `i` holding `c`, or the length when there is none.
pub open spec fn find_from(s: Seq<char>, c: char, i: int) -> int
    decreases s.len() - i,
{
    if i < 0 || i >= s.len() {
        s.len() as int
    } else if s[i] == c {
        i
    } else {
        find_from(s, c, i + 1)
    }
}

pub proof fn lemma_find_from_bounds(s: Seq<char>, c: char, i: int)
    requires
        0 <= i <= s.len(),
    ensures
        i <= find_from(s, c, i) <= s.len(),
        find_from(s, c, i) < s.len() ==> s[find_from(s, c, i)] == c,
        forall|k: int| i <= k < find_from(s, c, i) ==> s[k] != c,
    decreases s.len() - i,
{
    if i < s.len() && s[i] != c {
        lemma_find_from_bounds(s, c, i + 1);
    }
}

/// The second line of `s` as `str::lines` yields it: lines end at `\n`, a `\r` directly
/// before that `\n` is dropped, and a final line ending is optional.
pub open spec fn second_line(s: Seq<char>) -> Option<Seq<char>> {
    let e0 = find_from(s, '\n', 0);
    if e0 + 1 >= s.len() {
        None
    } else {
        let e1 = find_from(s, '\n', e0 + 1);
        let raw = s.subrange(e0 + 1, e1);
        if e1 < s.len() && raw.len() > 0 && raw.last() == '\r' {
            Some(raw.drop_last())
        } else {
            Some(raw)
        }
    }
}

/// Finds the first index at or after `from` that holds `c`, or the length.
fn find_char(s: &Vec<char>, c: char, from: usize) -> (r: usize)
    requires
        from <= s.len(),
    ensures
        r == find_from(s@, c, from as int),
{
    let mut i = from;
    while i < s.len()
        invariant
            from <= i <= s.len(),
            find_from(s@, c, from as int) == find_from(s@, c, i as int),
        decreases s.len() - i,
    {
        if s[i] == c {
            return i;
        }
        i = i + 1;
    }
    i
}

/// Returns the character range of the second line of `s`, or `None` when there is none.
pub fn second_line_range(s: &Vec<char>) -> (r: Option<(usize, usize)>)
    ensures
        match second_line(s@) {
            None => r is None,
            Some(line) => r matches Some((a, b)) && a <= b <= s.len() && line == s@.subrange(
                a as int,
                b as int,
            ),
        },
{
    let e0 = find_char(s, '\n', 0);
    proof {
        lemma_find_from_bounds(s@, '\n', 0);
    }
    if e0 >= s.len() || e0 + 1 >= s.len() {
        return None;
    }
    let e1 = find_char(s, '\n', e0 + 1);
    proof {
        lemma_find_from_bounds(s@, '\n', e0 + 1);
    }
    if e1 < s.len() && e1 > e0 + 1 && s[e1 - 1] == '\r' {
        Some((e0 + 1, e1 - 1))
    } else {
        Some((e0 + 1, e1))
    }
}

/// The end of the run of non-whitespace characters that starts at `i`.
pub open spec fn word_end(s: Seq<char>, i: int) -> int
    decreases s.len() - i,
{
    if 0 <= i < s.len() && !is_unicode_whitespace(s[i]) {
        word_end(s, i + 1)
    } else {
        i
    }
}

pub proof fn lemma_word_end_bounds(s: Seq<char>, i: int)
    requires
        0 <= i <= s.len(),
    ensures
        i <= word_end(s, i) <= s.len(),
        word_end(s, i) < s.len() ==> is_unicode_whitespace(s[word_end(s, i)]),
        forall|k: int| i <= k < word_end(s, i) ==> !is_unicode_whitespace(s[k]),
    decreases s.len() - i,
{
    if i < s.len() && !is_unicode_whitespace(s[i]) {
        lemma_word_end_bounds(s, i + 1);
    }
}

/// The whitespace-separated fields of `s` from index `i` on, as `str::split_whitespace`
/// yields them.
pub open spec fn fields_from(s: Seq<char>, i: int) -> Seq<Seq<char>>
    decreases s.len() - i,
{
    if i < 0 || i >= s.len() {
        Seq::empty()
    } else if is_unicode_whitespace(s[i]) {
        fields_from(s, i + 1)
    } else {
        let j = word_end(s, i + 1);
        if j <= i || j > s.len() {
            Seq::empty()
        } else {
            seq![s.subrange(i, j)].add(fields_from(s, j))
        }
    }
}

/// The whitespace-separated fields of `s`.
pub open spec fn fields(s: Seq<char>) -> Seq<Seq<char>> {
    fields_from(s, 0)
}

/// Splits `s[start..end]` into its whitespace-separated fields, as character ranges of `s`.
pub fn field_ranges(s: &Vec<char>, start: usize, end: usize) -> (r: Vec<(usize, usize)>)
    requires
        start <= end <= s.len(),
    ensures
        r@.len() == fields(s@.subrange(start as int, end as int)).len(),
        forall|k: int|
            0 <= k < r@.len() ==> {
                &&& start <= (#[trigger] r@[k]).0 <= r@[k].1 <= end
                &&& s@.subrange(r@[k].0 as int, r@[k].1 as int) == fields(
                    s@.subrange(start as int, end as int),
                )[k]
            },
{
    let ghost line = s@.subrange(start as int, end as int);
    let mut out: Vec<(usize, usize)> = Vec::new();
    let mut i = start;
    while i < end
        invariant
            start <= i <= end <= s.len(),
            line == s@.subrange(start as int, end as int),
            fields(line) == Seq::new(
                out@.len(),
                |k: int| s@.subrange(out@[k].0 as int, out@[k].1 as int),
            ).add(fields_from(line, i - start)),
            forall|k: int|
                0 <= k < out@.len() ==> start <= (#[trigger] out@[k]).0 <= out@[k].1 <= i,
        decreases end - i,
    {
        let ghost old_out = out@;
        if is_whitespace(s[i]) {
            assert(fields_from(line, i - start) == fields_from(line, i + 1 - start));
            i = i + 1;
        } else {
            let mut j = i + 1;
            proof {
                lemma_word_end_bounds(line, i + 1 - start);
            }
            while j < end && !is_whitespace(s[j])
                invariant
                    start <= i < j <= end <= s.len(),
                    line == s@.subrange(start as int, end as int),
                    word_end(line, i + 1 - start) == word_end(line, j - start),
                decreases end - j,
            {
                assert(line[j - start] == s@[j as int]);
                j = j + 1;
            }
            assert(fields_from(line, i - start) == seq![line.subrange(i - start, j - start)].add(
                fields_from(line, j - start),
            ));
            assert(line.subrange(i - start, j - start) == s@.subrange(i as int, j as int));
            out.push((i, j));
            assert(Seq::new(
                out@.len(),
                |k: int| s@.subrange(out@[k].0 as int, out@[k].1 as int),
            ) == Seq::new(
                old_out.len(),
                |k: int| s@.subrange(old_out[k].0 as int, old_out[k].1 as int),
            ).push(s@.subrange(i as int, j as int)));
            i = j;
        }
    }
    assert(fields_from(line, i - start) == Seq::<Seq<char>>::empty());
    assert(fields(line) == Seq::new(
        out@.len(),
        |k: int| s@.subrange(out@[k].0 as int, out@[k].1 as int),
    ));
    out
}

/// Whether `c` is one of the ASCII digits `0` to `9`.
pub open spec fn is_ascii_digit(c: char) -> bool {
    48 <= c as u32 && c as u32 <= 57
}

/// Whether every character of `s` is an ASCII digit.
pub open spec fn all_digits(s: Seq<char>) -> bool {
    forall|i: int| 0 <= i < s.len() ==> is_ascii_digit(#[trigger] s[i])
}

/// The decimal value of a digit string.
pub open spec fn digits_value(s: Seq<char>) -> int
    decreases s.len(),
{
    if s.len() == 0 {
        0
    } else {
        digits_value(s.drop_last()) * 10 + (s.last() as u32 - 48)
    }
}

/// The digits that follow an optional leading `+`.
pub open spec fn unsigned_digits(s: Seq<char>) -> Seq<char> {
    if s.len() > 0 && s[0] == '+' {
        s.drop_first()
    } else {
        s
    }
}

/// `s` as `u64::from_str` reads it: an optional `+`, at least one ASCII digit, no overflow.
pub open spec fn parse_u64(s: Seq<char>) -> Option<u64> {
    let d = unsigned_digits(s);
    if d.len() > 0 && all_digits(d) && digits_value(d) <= u64::MAX {
        Some(digits_value(d) as u64)
    } else {
        None
    }
}

/// `s` as `i64::from_str` reads it: an optional sign, at least one ASCII digit, in range.
pub open spec fn parse_i64(s: Seq<char>) -> Option<i64> {
    if s.len() > 0 && s[0] == '-' {
        let d = s.drop_first();
        if d.len() > 0 && all_digits(d) && digits_value(d) <= 0x8000_0000_0000_0000 {
            Some((0 - digits_value(d)) as i64)
        } else {
            None
        }
    } else {
        let d = unsigned_digits(s);
        if d.len() > 0 && all_digits(d) && digits_value(d) <= i64::MAX {
            Some(digits_value(d) as i64)
        } else {
            None
        }
    }
}

pub proof fn lemma_digits_value_nonneg_monotone(s: Seq<char>, k: int)
    requires
        all_digits(s),
        0 <= k <= s.len(),
    ensures
        0 <= digits_value(s.take(k)) <= digits_value(s),
    decreases s.len(),
{
    if s.len() > 0 {
        let t = s.drop_last();
        assert(all_digits(t)) by {
            assert forall|i: int| 0 <= i < t.len() implies is_ascii_digit(#[trigger] t[i]) by {
                assert(t[i] == s[i]);
            }
        }
        assert(is_ascii_digit(s[s.len() - 1]));
        if k == s.len() {
            assert(s.take(k) == s);
            lemma_digits_value_nonneg_monotone(t, t.len() as int);
            assert(t.take(t.len() as int) == t);
        } else {
            lemma_digits_value_nonneg_monotone(t, k);
            assert(t.take(k) == s.take(k));
            lemma_digits_value_nonneg_monotone(t, t.len() as int);
            assert(t.take(t.len() as int) == t);
        }
    }
}

/// Reads `s[a..b]` as a non-empty ASCII digit string whose value is at most `limit`.
pub fn bounded_digits(s: &Vec<char>, a: usize, b: usize, limit: u64) -> (r: Option<u64>)
    requires
        a <= b <= s.len(),
    ensures
        ({
            let d = s@.subrange(a as int, b as int);
            match r {
                Some(v) => d.len() > 0 && all_digits(d) && digits_value(d) <= limit && v
                    == digits_value(d),
                None => !(d.len() > 0 && all_digits(d) && digits_value(d) <= limit),
            }
        }),
{
    let ghost d = s@.subrange(a as int, b as int);
    if a == b {
        return None;
    }
    let mut acc: u64 = 0;
    let mut i = a;
    while i < b
        invariant
            a <= i <= b <= s.len(),
            d == s@.subrange(a as int, b as int),
            all_digits(d.take(i - a)),
            acc as int == digits_value(d.take(i - a)),
            acc <= limit,
        decreases b - i,
    {
        let c = s[i];
        let k = i - a;
        assert(d[k as int] == c);
        let cv = c as u32;
        if cv < 48 || cv > 57 {
            assert(!is_ascii_digit(d[k as int]));
            return None;
        }
        let digit = (cv - 48) as u64;
        assert(d.take(k + 1).drop_last() == d.take(k as int));
        assert(all_digits(d.take(k + 1))) by {
            assert forall|j: int| 0 <= j < k + 1 implies is_ascii_digit(#[trigger] d.take(k + 1)[j]) by {
                if j < k {
                    assert(d.take(k + 1)[j] == d.take(k as int)[j]);
                }
            }
        }
        assert(digits_value(d.take(k + 1)) == acc * 10 + digit);
        if digit > limit || acc > (limit - digit) / 10 {
            assert(acc * 10 + digit > limit) by (nonlinear_arith)
                requires
                    digit > limit || acc > (limit - digit) / 10,
            ;
            proof {
                if all_digits(d) {
                    lemma_digits_value_nonneg_monotone(d, k + 1);
                }
            }
            return None;
        }
        assert(acc * 10 + digit <= limit) by (nonlinear_arith)
            requires
                acc <= (limit - digit) / 10,
                digit <= limit,
        ;
        acc = acc * 10 + digit;
        i = i + 1;
    }
    assert(d.take(b - a) == d);
    Some(acc)
}

/// Reads `s[a..b]` as `u64::from_str` would.
pub fn parse_u64_range(s: &Vec<char>, a: usize, b: usize) -> (r: Option<u64>)
    requires
        a <= b <= s.len(),
    ensures
        r == parse_u64(s@.subrange(a as int, b as int)),
{
    let ghost t = s@.subrange(a as int, b as int);
    let start = if a < b && s[a] == '+' {
        a + 1
    } else {
        a
    };
    assert(unsigned_digits(t) == s@.subrange(start as int, b as int));
    bounded_digits(s, start, b, u64::MAX)
}

/// Reads `s[a..b]` as `i64::from_str` would.
pub fn parse_i64_range(s: &Vec<char>, a: usize, b: usize) -> (r: Option<i64>)
    requires
        a <= b <= s.len(),
    ensures
        r == parse_i64(s@.subrange(a as int, b as int)),
{
    let ghost t = s@.subrange(a as int, b as int);
    if a < b && s[a] == '-' {
        assert(t.drop_first() == s@.subrange(a + 1, b as int));
        match bounded_digits(s, a + 1, b, 0x8000_0000_0000_0000) {
            Some(v) => {
                if v == 0x8000_0000_0000_0000 {
                    Some(i64::MIN)
                } else {
                    Some(0 - (v as i64))
                }
            },
            None => None,
        }
    } else {
        let start = if a < b && s[a] == '+' {
            a + 1
        } else {
            a
        };
        assert(unsigned_digits(t) == s@.subrange(start as int, b as int));
        match bounded_digits(s, start, b, i64::MAX as u64) {
            Some(v) => Some(v as i64),
            None => None,
        }
    }
}

} // verus!
