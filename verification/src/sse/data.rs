//! The `data:` payload of one SSE frame, extracted on its UTF-8 bytes.
use vstd::prelude::*;
use vstd::utf8::valid_utf8;

verus! {

/// Checks that `bytes` are well-formed UTF-8 with `std::str::from_utf8`.
///
/// Trusted: `from_utf8` succeeds exactly on valid UTF-8.
#[verifier::external_body]
pub(crate) fn is_utf8(bytes: &[u8]) -> (r: bool)
    ensures
        r == valid_utf8(bytes@),
{
    std::str::from_utf8(bytes).is_ok()
}

/// Whether `b` encodes one of the ASCII whitespace characters.
pub open spec fn is_ascii_space(b: u8) -> bool {
    (9 <= b && b <= 13) || b == 32
}

/// The byte length of the Unicode whitespace character encoded at `f[i..hi)`, or 0.
pub open spec fn space_len_at(f: Seq<u8>, i: int, hi: int) -> int {
    if 0 <= i && i < hi && hi <= f.len() && is_ascii_space(f[i]) {
        1
    } else if 0 <= i && i + 1 < hi && hi <= f.len() && f[i] == 0xc2 && (f[i + 1] == 0x85 || f[i
        + 1] == 0xa0) {
        2
    } else if 0 <= i && i + 2 < hi && hi <= f.len() && is_wide_space(f[i], f[i + 1], f[i + 2]) {
        3
    } else {
        0
    }
}

/// The three-byte encodings of U+1680, U+2000 to U+200A, U+2028, U+2029, U+202F, U+205F and
/// U+3000.
pub open spec fn is_wide_space(a: u8, b: u8, c: u8) -> bool {
    (a == 0xe1 && b == 0x9a && c == 0x80) || (a == 0xe2 && b == 0x80 && ((0x80 <= c && c <= 0x8a)
        || c == 0xa8 || c == 0xa9 || c == 0xaf)) || (a == 0xe2 && b == 0x81 && c == 0x9f) || (a
        == 0xe3 && b == 0x80 && c == 0x80)
}

/// The byte length of the Unicode whitespace character that ends at `j`, within `[lo, j)`.
pub open spec fn space_len_before(f: Seq<u8>, lo: int, j: int) -> int {
    if lo <= j - 1 && j <= f.len() && 0 <= lo && is_ascii_space(f[j - 1]) {
        1
    } else if lo <= j - 2 && j <= f.len() && 0 <= lo && f[j - 2] == 0xc2 && (f[j - 1] == 0x85
        || f[j - 1] == 0xa0) {
        2
    } else if lo <= j - 3 && j <= f.len() && 0 <= lo && is_wide_space(f[j - 3], f[j - 2], f[j - 1]) {
        3
    } else {
        0
    }
}

/// Where `f[i..hi)` starts once leading Unicode whitespace is dropped.
pub open spec fn trim_start_at(f: Seq<u8>, i: int, hi: int) -> int
    decreases hi - i,
{
    let k = space_len_at(f, i, hi);
    if k > 0 && i < hi {
        trim_start_at(f, i + k, hi)
    } else {
        i
    }
}

/// Where `f[lo..j)` ends once trailing Unicode whitespace is dropped.
pub open spec fn trim_end_at(f: Seq<u8>, lo: int, j: int) -> int
    decreases j - lo,
{
    let k = space_len_before(f, lo, j);
    if k > 0 && lo < j {
        trim_end_at(f, lo, j - k)
    } else {
        j
    }
}

/// The end of the line that starts at `i`: the next `\n`, or the end of `f`.
pub open spec fn line_end_from(f: Seq<u8>, i: int) -> int
    decreases f.len() - i,
{
    if i < 0 || i >= f.len() {
        f.len() as int
    } else if f[i] == 10 {
        i
    } else {
        line_end_from(f, i + 1)
    }
}

/// Whether `f[a..b)` starts with `data:`.
pub open spec fn is_data_line(f: Seq<u8>, a: int, b: int) -> bool {
    b - a >= 5 && f[a] == 100 && f[a + 1] == 97 && f[a + 2] == 116 && f[a + 3] == 97 && f[a
        + 4] == 58
}

/// The payload of the line `f[a..b)`: the text after `data:` with Unicode whitespace trimmed.
pub open spec fn data_payload(f: Seq<u8>, a: int, b: int) -> Seq<u8> {
    let s = trim_start_at(f, a + 5, b);
    f.subrange(s, trim_end_at(f, s, b))
}

/// The payloads of the `data:` lines of `f` from the line that starts at `i`, with lines
/// split as `str::lines` splits them (a `\r` before `\n` is part of the line ending).
pub open spec fn data_parts_from(f: Seq<u8>, i: int) -> Seq<Seq<u8>>
    decreases f.len() - i,
{
    if i < 0 || i >= f.len() {
        Seq::empty()
    } else {
        let e = line_end_from(f, i);
        if e < i || e > f.len() {
            Seq::empty()
        } else {
            let b = if e < f.len() && e > i && f[e - 1] == 13 {
                e - 1
            } else {
                e
            };
            let rest = if e < f.len() {
                data_parts_from(f, e + 1)
            } else {
                Seq::empty()
            };
            if is_data_line(f, i, b) {
                seq![data_payload(f, i, b)] + rest
            } else {
                rest
            }
        }
    }
}

/// The parts joined with one `\n` between consecutive parts.
pub open spec fn join_lines(parts: Seq<Seq<u8>>) -> Seq<u8>
    decreases parts.len(),
{
    if parts.len() == 0 {
        Seq::empty()
    } else if parts.len() == 1 {
        parts[0]
    } else {
        join_lines(parts.drop_last()) + seq![10u8] + parts.last()
    }
}

/// The event payload of one SSE frame: its `data:` line payloads joined by `\n`.
pub open spec fn sse_data(f: Seq<u8>) -> Seq<u8> {
    join_lines(data_parts_from(f, 0))
}

proof fn lemma_line_end_bounds(f: Seq<u8>, i: int)
    requires
        0 <= i <= f.len(),
    ensures
        i <= line_end_from(f, i) <= f.len(),
        line_end_from(f, i) < f.len() ==> f[line_end_from(f, i)] == 10,
    decreases f.len() - i,
{
    if i < f.len() && f[i] != 10 {
        lemma_line_end_bounds(f, i + 1);
    }
}

proof fn lemma_trim_start_bounds(f: Seq<u8>, i: int, hi: int)
    requires
        0 <= i <= hi <= f.len(),
    ensures
        i <= trim_start_at(f, i, hi) <= hi,
    decreases hi - i,
{
    let k = space_len_at(f, i, hi);
    if k > 0 && i < hi {
        lemma_trim_start_bounds(f, i + k, hi);
    }
}

proof fn lemma_trim_end_bounds(f: Seq<u8>, lo: int, j: int)
    requires
        0 <= lo <= j <= f.len(),
    ensures
        lo <= trim_end_at(f, lo, j) <= j,
    decreases j - lo,
{
    let k = space_len_before(f, lo, j);
    if k > 0 && lo < j {
        lemma_trim_end_bounds(f, lo, j - k);
    }
}

fn space_len_at_exec(f: &[u8], i: usize, hi: usize) -> (k: usize)
    requires
        i <= hi <= f@.len(),
    ensures
        k == space_len_at(f@, i as int, hi as int),
{
    if i < hi && ((9 <= f[i] && f[i] <= 13) || f[i] == 32) {
        1
    } else if hi - i > 1 && f[i] == 0xc2 && (f[i + 1] == 0x85 || f[i + 1] == 0xa0) {
        2
    } else if hi - i > 2 && wide_space(f[i], f[i + 1], f[i + 2]) {
        3
    } else {
        0
    }
}

fn wide_space(a: u8, b: u8, c: u8) -> (r: bool)
    ensures
        r == is_wide_space(a, b, c),
{
    (a == 0xe1 && b == 0x9a && c == 0x80) || (a == 0xe2 && b == 0x80 && ((0x80 <= c && c <= 0x8a)
        || c == 0xa8 || c == 0xa9 || c == 0xaf)) || (a == 0xe2 && b == 0x81 && c == 0x9f) || (a
        == 0xe3 && b == 0x80 && c == 0x80)
}

fn space_len_before_exec(f: &[u8], lo: usize, j: usize) -> (k: usize)
    requires
        lo <= j <= f@.len(),
    ensures
        k == space_len_before(f@, lo as int, j as int),
{
    if j - lo >= 1 && ((9 <= f[j - 1] && f[j - 1] <= 13) || f[j - 1] == 32) {
        1
    } else if j - lo >= 2 && f[j - 2] == 0xc2 && (f[j - 1] == 0x85 || f[j - 1] == 0xa0) {
        2
    } else if j - lo >= 3 && wide_space(f[j - 3], f[j - 2], f[j - 1]) {
        3
    } else {
        0
    }
}

/// Appends `f[a..b)` to `out`.
fn append_range(out: &mut Vec<u8>, f: &[u8], a: usize, b: usize)
    requires
        a <= b <= f@.len(),
    ensures
        final(out)@ == old(out)@ + f@.subrange(a as int, b as int),
{
    let mut i = a;
    while i < b
        invariant
            a <= i <= b <= f@.len(),
            out@ == old(out)@ + f@.subrange(a as int, i as int),
        decreases b - i,
    {
        out.push(f[i]);
        assert(f@.subrange(a as int, i + 1) == f@.subrange(a as int, i as int).push(f@[i as int]));
        i = i + 1;
    }
}

proof fn lemma_join_push(parts: Seq<Seq<u8>>, p: Seq<u8>)
    ensures
        join_lines(parts.push(p)) == if parts.len() == 0 {
            p
        } else {
            join_lines(parts) + seq![10u8] + p
        },
{
    assert(parts.push(p).drop_last() == parts);
    if parts.len() == 0 {
        assert(parts.push(p).len() == 1);
    }
}

/// Extracts the event payload of one frame: the payloads of its `data:` lines, each trimmed
/// of Unicode whitespace, joined by `\n`.
pub fn frame_data(f: &[u8]) -> (out: Vec<u8>)
    ensures
        out@ == sse_data(f@),
{
    let ghost fs = f@;
    let mut out: Vec<u8> = Vec::new();
    let ghost mut parts: Seq<Seq<u8>> = Seq::empty();
    let mut any_part = false;
    let mut i: usize = 0;
    while i < f.len()
        invariant
            fs == f@,
            any_part == (parts.len() > 0),
            0 <= i <= f@.len(),
            out@ == join_lines(parts),
            data_parts_from(fs, 0) == parts + data_parts_from(fs, i as int),
        decreases f.len() - i,
    {
        let mut e = i;
        proof {
            lemma_line_end_bounds(fs, i as int);
        }
        while e < f.len() && f[e] != 10
            invariant
                i <= e <= f@.len(),
                fs == f@,
                line_end_from(fs, i as int) == line_end_from(fs, e as int),
            decreases f.len() - e,
        {
            e = e + 1;
        }
        let b = if e < f.len() && e > i && f[e - 1] == 13 {
            e - 1
        } else {
            e
        };
        let is_data = b - i >= 5 && f[i] == 100 && f[i + 1] == 97 && f[i + 2] == 116 && f[i + 3]
            == 97 && f[i + 4] == 58;
        if is_data {
            let mut s = i + 5;
            proof {
                lemma_trim_start_bounds(fs, s as int, b as int);
            }
            loop
                invariant
                    i + 5 <= s <= b <= f@.len(),
                    fs == f@,
                    trim_start_at(fs, i + 5, b as int) == trim_start_at(fs, s as int, b as int),
                ensures
                    s == trim_start_at(fs, i + 5, b as int),
                decreases b - s,
            {
                let k = space_len_at_exec(f, s, b);
                if k == 0 || s >= b {
                    break;
                }
                s = s + k;
            }
            let mut t = b;
            proof {
                lemma_trim_end_bounds(fs, s as int, b as int);
            }
            loop
                invariant
                    s <= t <= b <= f@.len(),
                    fs == f@,
                    trim_end_at(fs, s as int, b as int) == trim_end_at(fs, s as int, t as int),
                ensures
                    t == trim_end_at(fs, s as int, b as int),
                decreases t - s,
            {
                let k = space_len_before_exec(f, s, t);
                if k == 0 || s >= t {
                    break;
                }
                t = t - k;
            }
            proof {
                lemma_join_push(parts, fs.subrange(s as int, t as int));
            }
            if any_part {
                out.push(10u8);
            }
            any_part = true;
            append_range(&mut out, f, s, t);
            proof {
                let p = fs.subrange(s as int, t as int);
                assert(p == data_payload(fs, i as int, b as int));
                assert(data_parts_from(fs, i as int) == seq![p] + data_parts_from(fs, e + 1));
                assert(parts.push(p) + data_parts_from(fs, e + 1) == parts + (seq![p]
                    + data_parts_from(fs, e + 1)));
                parts = parts.push(p);
                if parts.len() > 1 {
                    assert(out@ == join_lines(parts.drop_last()) + seq![10u8] + p);
                }
            }
        } else {
            assert(data_parts_from(fs, i as int) == data_parts_from(fs, e + 1));
        }
        if e >= f.len() {
            proof {
                assert(data_parts_from(fs, e + 1) == Seq::<Seq<u8>>::empty());
                assert(parts + Seq::<Seq<u8>>::empty() == parts);
            }
            i = f.len();
        } else {
            i = e + 1;
        }
    }
    proof {
        assert(data_parts_from(fs, i as int) == Seq::<Seq<u8>>::empty());
        assert(parts + Seq::<Seq<u8>>::empty() == parts);
    }
    out
}

} // verus!
