//! Local storage capacity: the `df -Pk` report parser and the snapshot the sampler publishes.
use vstd::prelude::*;
use crate::text::{
    chars_of, fields, field_ranges, parse_i64, parse_i64_range, parse_u64, parse_u64_range,
    second_line, second_line_range,
};

verus! {

/// The largest `df` report the sampler accepts; a longer one means unobserved capacity.
pub const MAX_DF_OUTPUT_BYTES: usize = 8192;

/// One observation of the database's local filesystem.
#[derive(Clone, Copy, Debug, PartialEq, Eq, Structural)]
pub struct StorageCapacitySnapshot {
    pub observed_at_ms: u64,
    pub database_bytes: u64,
    pub wal_bytes: u64,
    pub available_bytes: u64,
    pub total_bytes: u64,
}

/// Whether `field` is a percentage such as `80%`: a `u64` followed by one `%`.
pub open spec fn is_capacity_field(field: Seq<char>) -> bool {
    field.len() > 0 && field.last() == '%' && parse_u64(field.drop_last()) is Some
}

/// The first index at or after `i` of a capacity field in `row`, or the row length.
pub open spec fn capacity_index_from(row: Seq<Seq<char>>, i: int) -> int
    decreases row.len() - i,
{
    if i < 0 || i >= row.len() {
        row.len() as int
    } else if is_capacity_field(row[i]) {
        i
    } else {
        capacity_index_from(row, i + 1)
    }
}

/// The `(total, available)` byte counts a POSIX `df -Pk` report gives for its first
/// filesystem row, located by its capacity column so that names with spaces are tolerated.
/// Negative availability (a full reserved filesystem) counts as zero bytes, and a zero total,
/// a malformed row or an overflow yields no observation.
pub open spec fn df_capacity(text: Seq<char>) -> Option<(u64, u64)> {
    match second_line(text) {
        None => None,
        Some(line) => {
            let row = fields(line);
            let p = capacity_index_from(row, 0);
            if p >= row.len() || p < 3 {
                None
            } else {
                match (parse_u64(row[p - 3]), parse_i64(row[p - 1])) {
                    (Some(t), Some(a)) => {
                        let total = t * 1024;
                        let available = if a < 0 {
                            0
                        } else {
                            a as int
                        } * 1024;
                        if total > u64::MAX || total == 0 || available > u64::MAX {
                            None
                        } else {
                            Some((total as u64, available as u64))
                        }
                    },
                    _ => None,
                }
            }
        },
    }
}

proof fn lemma_capacity_index_bounds(row: Seq<Seq<char>>, i: int)
    requires
        0 <= i <= row.len(),
    ensures
        i <= capacity_index_from(row, i) <= row.len(),
    decreases row.len() - i,
{
    if i < row.len() && !is_capacity_field(row[i]) {
        lemma_capacity_index_bounds(row, i + 1);
    }
}

/// Parses the `(total, available)` filesystem bytes out of a `df -Pk` report.
pub fn parse_df(text: &str) -> (r: Option<(u64, u64)>)
    ensures
        r == df_capacity(text@),
{
    let chars = chars_of(text);
    let (start, end) = match second_line_range(&chars) {
        None => return None,
        Some(range) => range,
    };
    let ghost line = chars@.subrange(start as int, end as int);
    let ranges = field_ranges(&chars, start, end);
    let ghost row = fields(line);
    let mut p: usize = 0;
    while p < ranges.len()
        invariant
            0 <= p <= ranges@.len() == row.len(),
            row == fields(line),
            start <= end <= chars@.len(),
            line == chars@.subrange(start as int, end as int),
            capacity_index_from(row, 0) == capacity_index_from(row, p as int),
            forall|k: int|
                0 <= k < ranges@.len() ==> {
                    &&& start <= (#[trigger] ranges@[k]).0 <= ranges@[k].1 <= end
                    &&& chars@.subrange(ranges@[k].0 as int, ranges@[k].1 as int) == row[k]
                },
        ensures
            p == ranges@.len() || (p < ranges@.len() && is_capacity_field(row[p as int])),
        decreases ranges.len() - p,
    {
        let (a, b) = ranges[p];
        let ghost field = row[p as int];
        assert(field == chars@.subrange(a as int, b as int));
        if a < b && chars[b - 1] == '%' {
            assert(field.drop_last() == chars@.subrange(a as int, b - 1));
            assert(field.last() == '%');
            if parse_u64_range(&chars, a, b - 1).is_some() {
                break;
            }
        }
        p = p + 1;
    }
    proof {
        lemma_capacity_index_bounds(row, p as int);
    }
    if p >= ranges.len() || p < 3 {
        return None;
    }
    assert(capacity_index_from(row, 0) == p);
    let (ta, tb) = ranges[p - 3];
    let (aa, ab) = ranges[p - 1];
    let total = match parse_u64_range(&chars, ta, tb) {
        Some(t) => t,
        None => return None,
    };
    let available = match parse_i64_range(&chars, aa, ab) {
        Some(a) => a,
        None => return None,
    };
    if total > u64::MAX / 1024 || total == 0 {
        return None;
    }
    let available: u64 = if available < 0 {
        0
    } else {
        available as u64
    };
    if available > u64::MAX / 1024 {
        return None;
    }
    Some((total * 1024, available * 1024))
}

/// The snapshot one sample publishes, given the database and WAL sizes, the raw `df` report
/// and the observation time: none when the report exceeds [`MAX_DF_OUTPUT_BYTES`] or does not
/// parse.
pub fn capacity_snapshot(
    database_bytes: u64,
    wal_bytes: u64,
    df_output: &str,
    observed_at_ms: u64,
) -> (r: Option<StorageCapacitySnapshot>)
    ensures
        df_output.len() > MAX_DF_OUTPUT_BYTES ==> r is None,
        df_output.len() <= MAX_DF_OUTPUT_BYTES ==> match df_capacity(df_output@) {
            None => r is None,
            Some((total, available)) => r == Some(
                StorageCapacitySnapshot {
                    observed_at_ms,
                    database_bytes,
                    wal_bytes,
                    available_bytes: available,
                    total_bytes: total,
                },
            ),
        },
{
    if df_output.len() > MAX_DF_OUTPUT_BYTES {
        return None;
    }
    match parse_df(df_output) {
        None => None,
        Some((total_bytes, available_bytes)) => Some(
            StorageCapacitySnapshot {
                observed_at_ms,
                database_bytes,
                wal_bytes,
                available_bytes,
                total_bytes,
            },
        ),
    }
}

} // verus!
