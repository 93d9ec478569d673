//! The record parser.
//!
//! Decodes one semicolon-delimited input row into a typed
//! [`StationRecord`](crate::station::StationRecord), reporting per-row
//! failures without aborting the stream. The dataset's column layout is
//! fixed: the parser reads the columns named by the `COL_*` constants and
//! ignores the rest, so a row must carry at least [`MIN_COLUMNS`] fields.
//!
//! Coordinates are decimal degree literals such as `38.71387`; they are
//! decoded to microdegrees, keeping the first six fractional digits.

use vstd::prelude::*;

use crate::station::Info;
use crate::station::StationModel;
use crate::station::StationRecord;
use crate::station::clone_bytes;
use crate::station::opt_bytes;

verus! {

/// Column of the dataset-assigned numeric id.
pub const COL_ID: usize = 0;

/// Column of the display name.
pub const COL_NAME: usize = 1;

/// Column of the UIC code, the external place id.
pub const COL_UIC: usize = 3;

/// Column of the latitude in degrees.
pub const COL_LATITUDE: usize = 5;

/// Column of the longitude in degrees.
pub const COL_LONGITUDE: usize = 6;

/// Column of the country hint.
pub const COL_COUNTRY: usize = 8;

/// First of the eighteen consecutive localized info columns.
pub const COL_INFO_FIRST: usize = 54;

/// A row must carry at least this many fields to be well-formed.
pub const MIN_COLUMNS: usize = 72;

/// Why one input row was rejected. Row errors are recoverable: the
/// ingestion run skips and counts such rows.
#[derive(PartialEq, Eq, Structural, Clone, Copy, Debug)]
pub enum RowError {
    /// The row has fewer than [`MIN_COLUMNS`] fields.
    MissingColumns,
    /// The id field is not a decimal integer fitting a signed 64-bit value.
    BadId,
    /// The name is empty after trimming.
    EmptyName,
    /// The latitude is present but not a decimal degree literal.
    BadLatitude,
    /// The longitude is present but not a decimal degree literal.
    BadLongitude,
    /// A boolean field holds neither `t` nor `f` (nor `0`/`1`).
    BadBool,
}

/// The ASCII whitespace bytes that field trimming removes.
pub open spec fn is_space(b: u8) -> bool {
    b == 32 || b == 9 || b == 13 || b == 10
}

/// `s` without its leading whitespace.
pub open spec fn spec_ltrim(s: Seq<u8>) -> Seq<u8>
    decreases s.len(),
{
    if s.len() > 0 && is_space(s[0]) {
        spec_ltrim(s.drop_first())
    } else {
        s
    }
}

/// `s` without its trailing whitespace.
pub open spec fn spec_rtrim(s: Seq<u8>) -> Seq<u8>
    decreases s.len(),
{
    if s.len() > 0 && is_space(s[s.len() - 1]) {
        spec_rtrim(s.drop_last())
    } else {
        s
    }
}

/// `s` without leading and trailing whitespace.
pub open spec fn spec_trim(s: Seq<u8>) -> Seq<u8> {
    spec_rtrim(spec_ltrim(s))
}

proof fn lemma_ltrim_is_suffix(s: Seq<u8>, lo: int)
    requires
        0 <= lo <= s.len(),
        forall|j: int| 0 <= j < lo ==> is_space(s[j]),
        lo == s.len() || !is_space(s[lo]),
    ensures
        spec_ltrim(s) == s.subrange(lo, s.len() as int),
    decreases lo,
{
    if lo == 0 {
        assert(s.subrange(0, s.len() as int) =~= s);
    } else {
        lemma_ltrim_is_suffix(s.drop_first(), lo - 1);
        assert(s.drop_first().subrange(lo - 1, s.drop_first().len() as int) =~= s.subrange(
            lo,
            s.len() as int,
        ));
    }
}

proof fn lemma_rtrim_is_prefix(s: Seq<u8>, hi: int)
    requires
        0 <= hi <= s.len(),
        forall|j: int| hi <= j < s.len() ==> is_space(s[j]),
        hi == 0 || !is_space(s[hi - 1]),
    ensures
        spec_rtrim(s) == s.subrange(0, hi),
    decreases s.len() - hi,
{
    if hi == s.len() {
        assert(s.subrange(0, hi) =~= s);
    } else {
        lemma_rtrim_is_prefix(s.drop_last(), hi);
        assert(s.drop_last().subrange(0, hi) =~= s.subrange(0, hi));
    }
}

/// Copies the byte range `lo..hi` of `v`.
pub fn copy_range(v: &Vec<u8>, lo: usize, hi: usize) -> (r: Vec<u8>)
    requires
        lo <= hi <= v@.len(),
    ensures
        r@ == v@.subrange(lo as int, hi as int),
{
    let mut r: Vec<u8> = Vec::new();
    let mut i: usize = lo;
    while i < hi
        invariant
            lo <= i <= hi <= v@.len(),
            r@ == v@.subrange(lo as int, i as int),
        decreases hi - i,
    {
        r.push(v[i]);
        assert(r@ =~= v@.subrange(lo as int, i + 1 as int));
        i = i + 1;
    }
    r
}

/// Removes leading and trailing ASCII whitespace.
pub fn trim_bytes(v: &Vec<u8>) -> (r: Vec<u8>)
    ensures
        r@ == spec_trim(v@),
{
    let mut lo: usize = 0;
    while lo < v.len() && (v[lo] == 32 || v[lo] == 9 || v[lo] == 13 || v[lo] == 10)
        invariant
            lo <= v@.len(),
            forall|j: int| 0 <= j < lo ==> is_space(v@[j]),
        decreases v@.len() - lo,
    {
        lo = lo + 1;
    }
    let mut hi: usize = v.len();
    while hi > lo && (v[hi - 1] == 32 || v[hi - 1] == 9 || v[hi - 1] == 13 || v[hi - 1] == 10)
        invariant
            lo <= hi <= v@.len(),
            forall|j: int| 0 <= j < lo ==> is_space(v@[j]),
            forall|j: int| hi <= j < v@.len() ==> is_space(v@[j]),
        decreases hi,
    {
        hi = hi - 1;
    }
    proof {
        lemma_ltrim_is_suffix(v@, lo as int);
        let tail = v@.subrange(lo as int, v@.len() as int);
        lemma_rtrim_is_prefix(tail, hi - lo);
        assert(tail.subrange(0, hi - lo) =~= v@.subrange(lo as int, hi as int));
    }
    copy_range(v, lo, hi)
}

/// The fields of `s` split on the delimiter `d`, scanning from `cur` with
/// the current field having started at `start`.
pub open spec fn spec_split_from(s: Seq<u8>, d: u8, start: int, cur: int) -> Seq<Seq<u8>>
    decreases s.len() - cur,
{
    if cur < start || start < 0 || cur > s.len() {
        Seq::empty()
    } else if cur == s.len() {
        seq![s.subrange(start, cur)]
    } else if s[cur] == d {
        seq![s.subrange(start, cur)] + spec_split_from(s, d, cur + 1, cur + 1)
    } else {
        spec_split_from(s, d, start, cur + 1)
    }
}

/// The fields of `s` split on the delimiter `d`. Splitting an empty input
/// yields one empty field, matching the delimited-text reading of a row.
pub open spec fn spec_split(s: Seq<u8>, d: u8) -> Seq<Seq<u8>> {
    spec_split_from(s, d, 0, 0)
}

/// Each field of `fields`, trimmed.
pub open spec fn spec_trim_all(fields: Seq<Seq<u8>>) -> Seq<Seq<u8>> {
    fields.map_values(|f: Seq<u8>| spec_trim(f))
}

/// The trimmed fields of one dataset row: split on `;`, each field
/// trimmed, the configuration the dataset is read with.
pub open spec fn spec_fields(line: Seq<u8>) -> Seq<Seq<u8>> {
    spec_trim_all(spec_split(line, 59))
}

/// Splits one row on `;` and trims every field.
pub fn split_row(line: &Vec<u8>) -> (r: Vec<Vec<u8>>)
    ensures
        r@.len() == spec_fields(line@).len(),
        forall|k: int| 0 <= k < r@.len() ==> #[trigger] r@[k]@ == spec_fields(line@)[k],
{
    let ghost all = spec_split(line@, 59);
    let mut out: Vec<Vec<u8>> = Vec::new();
    let mut start: usize = 0;
    let mut i: usize = 0;
    while i < line.len()
        invariant
            all == spec_split(line@, 59),
            0 <= start <= i <= line@.len(),
            out@.len() <= all.len(),
            forall|k: int| 0 <= k < out@.len() ==> #[trigger] out@[k]@ == all[k],
            spec_split_from(line@, 59, start as int, i as int) =~= all.skip(out@.len() as int),
        decreases line@.len() - i,
    {
        if line[i] == 59 {
            let field = copy_range(line, start, i);
            proof {
                let rest = spec_split_from(line@, 59, i + 1, i + 1);
                assert(all.skip(out@.len() as int) =~= seq![
                    line@.subrange(start as int, i as int),
                ] + rest);
                assert(all.skip(out@.len() as int)[0] == all[out@.len() as int]);
                assert(all[out@.len() as int] == line@.subrange(start as int, i as int));
                assert((seq![line@.subrange(start as int, i as int)] + rest).skip(1) =~= rest);
                assert(all.skip(out@.len() as int + 1) =~= rest);
            }
            out.push(field);
            start = i + 1;
        }
        i = i + 1;
    }
    let field = copy_range(line, start, line.len());
    proof {
        assert(all.skip(out@.len() as int) =~= seq![
            line@.subrange(start as int, line@.len() as int),
        ]);
        assert(all.skip(out@.len() as int)[0] == all[out@.len() as int]);
        assert(all[out@.len() as int] == line@.subrange(start as int, line@.len() as int));
    }
    out.push(field);
    assert(out@.len() == all.len());
    let mut trimmed: Vec<Vec<u8>> = Vec::new();
    let mut j: usize = 0;
    while j < out.len()
        invariant
            all == spec_split(line@, 59),
            j <= out@.len(),
            out@.len() == all.len(),
            forall|k: int| 0 <= k < out@.len() ==> #[trigger] out@[k]@ == all[k],
            trimmed@.len() == j,
            forall|k: int| 0 <= k < j ==> #[trigger] trimmed@[k]@ == spec_fields(line@)[k],
        decreases out@.len() - j,
    {
        proof {
            assert(spec_fields(line@).len() == all.len());
            assert(spec_fields(line@)[j as int] == spec_trim(all[j as int]));
        }
        let t = trim_bytes(&out[j]);
        trimmed.push(t);
        assert(trimmed@[j as int]@ == spec_fields(line@)[j as int]);
        j = j + 1;
    }
    trimmed
}

/// Decimal digit bytes `0`..`9`.
pub open spec fn is_digit(b: u8) -> bool {
    48 <= b <= 57
}

/// Every byte of `s` is a decimal digit.
pub open spec fn all_digits(s: Seq<u8>) -> bool {
    forall|i: int| 0 <= i < s.len() ==> is_digit(#[trigger] s[i])
}

/// The non-negative value of a digit string, most significant digit first.
pub open spec fn digits_val(s: Seq<u8>) -> int
    decreases s.len(),
{
    if s.len() == 0 {
        0
    } else {
        digits_val(s.drop_last()) * 10 + (s[s.len() - 1] - 48)
    }
}

proof fn lemma_digits_val_nonneg(s: Seq<u8>)
    requires
        all_digits(s),
    ensures
        digits_val(s) >= 0,
    decreases s.len(),
{
    if s.len() > 0 {
        assert(all_digits(s.drop_last()));
        lemma_digits_val_nonneg(s.drop_last());
    }
}

proof fn lemma_digits_val_prefix_le(s: Seq<u8>, k: int)
    requires
        all_digits(s),
        0 <= k <= s.len(),
    ensures
        digits_val(s.take(k)) <= digits_val(s),
    decreases s.len(),
{
    if k == s.len() {
        assert(s.take(k) =~= s);
    } else {
        assert(all_digits(s.drop_last()));
        assert(s.take(k) =~= s.drop_last().take(k));
        lemma_digits_val_prefix_le(s.drop_last(), k);
        lemma_digits_val_nonneg(s.drop_last());
    }
}

/// The digit part of a signed decimal literal: everything after an
/// optional leading `+` or `-`.
pub open spec fn int_digits(s: Seq<u8>) -> Seq<u8> {
    if s.len() > 0 && (s[0] == 43 || s[0] == 45) {
        s.drop_first()
    } else {
        s
    }
}

/// The literal carries a leading `-`.
pub open spec fn int_negative(s: Seq<u8>) -> bool {
    s.len() > 0 && s[0] == 45
}

/// `s` is a well-formed signed decimal integer literal.
pub open spec fn is_int_literal(s: Seq<u8>) -> bool {
    int_digits(s).len() > 0 && all_digits(int_digits(s))
}

/// The mathematical value of a signed decimal integer literal.
pub open spec fn int_value(s: Seq<u8>) -> int {
    if int_negative(s) {
        -digits_val(int_digits(s))
    } else {
        digits_val(int_digits(s))
    }
}

/// Accumulates the digit range `from..to` of a magnitude, failing exactly
/// when the range is empty, a non-digit appears, or the magnitude would
/// pass `limit`.
fn accumulate_digits(s: &Vec<u8>, from: usize, to: usize, limit: u64) -> (r: Option<u64>)
    requires
        from <= to <= s@.len(),
        limit >= 9,
    ensures
        ({
            let ds = s@.subrange(from as int, to as int);
            match r {
                Some(acc) => ds.len() > 0 && all_digits(ds) && acc == digits_val(ds) && acc
                    <= limit,
                None => !(ds.len() > 0 && all_digits(ds) && digits_val(ds) <= limit),
            }
        }),
{
    let ghost ds = s@.subrange(from as int, to as int);
    if from == to {
        return None;
    }
    let mut acc: u64 = 0;
    let mut i: usize = from;
    while i < to
        invariant
            limit >= 9,
            ds == s@.subrange(from as int, to as int),
            from <= i <= to <= s@.len(),
            all_digits(ds.take(i - from)),
            acc == digits_val(ds.take(i - from)),
            acc <= limit,
        decreases to - i,
    {
        let b = s[i];
        if b < 48 || b > 57 {
            assert(!is_digit(ds[i - from]));
            return None;
        }
        let d: u64 = (b - 48) as u64;
        assert(ds.take(i - from + 1).drop_last() =~= ds.take(i - from));
        assert(digits_val(ds.take(i - from + 1)) == acc * 10 + d);
        if acc > (limit - d) / 10 {
            proof {
                vstd::arithmetic::div_mod::lemma_fundamental_div_mod((limit - d) as int, 10);
                assert(acc * 10 + d > limit);
                assert(all_digits(ds.take(i - from + 1)));
                if all_digits(ds) {
                    lemma_digits_val_prefix_le(ds, i - from + 1);
                }
            }
            return None;
        }
        proof {
            vstd::arithmetic::div_mod::lemma_fundamental_div_mod((limit - d) as int, 10);
            assert(acc * 10 + d <= limit);
        }
        acc = acc * 10 + d;
        assert(all_digits(ds.take(i - from + 1)));
        i = i + 1;
    }
    assert(ds.take(to - from) =~= ds);
    Some(acc)
}

/// Magnitude of the smallest signed 64-bit value.
pub const I64_MIN_MAGNITUDE: u64 = 9223372036854775808;

/// Parses a signed decimal integer literal, as the dataset's id column
/// holds one. Returns the value exactly when the literal is well formed
/// and fits a signed 64-bit integer.
pub fn parse_i64(s: &Vec<u8>) -> (r: Option<i64>)
    ensures
        match r {
            Some(v) => is_int_literal(s@) && v == int_value(s@),
            None => !(is_int_literal(s@) && i64::MIN <= int_value(s@) <= i64::MAX),
        },
{
    if s.len() == 0 {
        return None;
    }
    let b0 = s[0];
    let neg = b0 == 45;
    let from: usize = if b0 == 43 || b0 == 45 {
        1
    } else {
        0
    };
    let limit: u64 = if neg {
        I64_MIN_MAGNITUDE
    } else {
        i64::MAX as u64
    };
    let acc_opt = accumulate_digits(s, from, s.len(), limit);
    proof {
        assert(s@.subrange(from as int, s@.len() as int) =~= int_digits(s@));
    }
    match acc_opt {
        None => {
            proof {
                if is_int_literal(s@) {
                    lemma_digits_val_nonneg(int_digits(s@));
                }
            }
            None
        },
        Some(acc) => {
            if neg {
                if acc == I64_MIN_MAGNITUDE {
                    Some(i64::MIN)
                } else {
                    Some(0i64 - (acc as i64))
                }
            } else {
                Some(acc as i64)
            }
        },
    }
}

/// Index of the first `.` in `s`, or `s.len()` when there is none.
pub open spec fn first_dot(s: Seq<u8>) -> int
    decreases s.len(),
{
    if s.len() == 0 {
        0
    } else if s[0] == 46 {
        0
    } else {
        1 + first_dot(s.drop_first())
    }
}

proof fn lemma_first_dot_at(s: Seq<u8>, p: int)
    requires
        0 <= p <= s.len(),
        forall|j: int| 0 <= j < p ==> s[j] != 46,
        p == s.len() || s[p] == 46,
    ensures
        first_dot(s) == p,
    decreases p,
{
    if p == 0 {
    } else {
        lemma_first_dot_at(s.drop_first(), p - 1);
    }
}

/// Ten to the `k`th power.
pub open spec fn pow10(k: nat) -> int
    decreases k,
{
    if k == 0 {
        1
    } else {
        10 * pow10((k - 1) as nat)
    }
}

/// The integer part of a decimal degree literal: the digits before the
/// first `.`, sign excluded.
pub open spec fn coord_int_part(s: Seq<u8>) -> Seq<u8> {
    int_digits(s).take(first_dot(int_digits(s)))
}

/// The fractional part of a decimal degree literal: the digits after the
/// first `.`, or nothing when there is no `.`.
pub open spec fn coord_frac_part(s: Seq<u8>) -> Seq<u8> {
    let b = int_digits(s);
    if first_dot(b) < b.len() {
        b.skip(first_dot(b) + 1)
    } else {
        Seq::empty()
    }
}

/// `s` is a well-formed decimal degree literal: an optional sign, digits
/// with at most one `.` between them, and at least one digit.
pub open spec fn is_coord_literal(s: Seq<u8>) -> bool {
    &&& all_digits(coord_int_part(s))
    &&& all_digits(coord_frac_part(s))
    &&& coord_int_part(s).len() + coord_frac_part(s).len() > 0
}

/// How many fractional digits are kept: six, or all of them if fewer.
pub open spec fn kept_frac_digits(s: Seq<u8>) -> int {
    if coord_frac_part(s).len() < 6 {
        coord_frac_part(s).len() as int
    } else {
        6
    }
}

/// The fractional part scaled to microdegrees: the first six fractional
/// digits, padded with zeros on the right; further digits are dropped.
pub open spec fn coord_frac_udeg(s: Seq<u8>) -> int {
    digits_val(coord_frac_part(s).take(kept_frac_digits(s))) * pow10((6 - kept_frac_digits(s)) as nat)
}

/// Magnitude of a decimal degree literal in microdegrees.
pub open spec fn coord_magnitude(s: Seq<u8>) -> int {
    digits_val(coord_int_part(s)) * 1000000 + coord_frac_udeg(s)
}

/// Value of a decimal degree literal in microdegrees.
pub open spec fn coord_udeg(s: Seq<u8>) -> int {
    if int_negative(s) {
        -coord_magnitude(s)
    } else {
        coord_magnitude(s)
    }
}

/// The microdegree value fits a signed 64-bit integer.
pub open spec fn coord_fits(s: Seq<u8>) -> bool {
    i64::MIN <= coord_udeg(s) <= i64::MAX
}

/// Ten to the `k`th power, executable for the microdegree scale.
fn pow10_small(k: usize) -> (r: u64)
    requires
        k <= 6,
    ensures
        r == pow10(k as nat),
        1 <= r <= 1000000,
{
    proof {
        reveal_with_fuel(pow10, 7);
    }
    if k == 0 {
        1
    } else if k == 1 {
        10
    } else if k == 2 {
        100
    } else if k == 3 {
        1000
    } else if k == 4 {
        10000
    } else if k == 5 {
        100000
    } else {
        1000000
    }
}

/// Parses a decimal degree literal to microdegrees, keeping the first six
/// fractional digits. Returns the value exactly when the literal is well
/// formed and its microdegree value fits a signed 64-bit integer.
#[verifier::rlimit(60)]
pub fn parse_coordinate(s: &Vec<u8>) -> (r: Option<i64>)
    ensures
        match r {
            Some(v) => is_coord_literal(s@) && coord_fits(s@) && v == coord_udeg(s@),
            None => !(is_coord_literal(s@) && coord_fits(s@)),
        },
{
    if s.len() == 0 {
        return None;
    }
    let b0 = s[0];
    let neg = b0 == 45;
    let from: usize = if b0 == 43 || b0 == 45 {
        1
    } else {
        0
    };
    let ghost body = int_digits(s@);
    proof {
        assert(body =~= s@.subrange(from as int, s@.len() as int));
    }
    // Find the first dot after the sign.
    let mut dot: usize = from;
    while dot < s.len() && s[dot] != 46
        invariant
            from <= dot <= s@.len(),
            forall|j: int| from <= j < dot ==> s@[j] != 46,
        decreases s@.len() - dot,
    {
        dot = dot + 1;
    }
    proof {
        lemma_first_dot_at(body, dot - from);
        assert(coord_int_part(s@) =~= s@.subrange(from as int, dot as int));
    }
    // The integer part, bounded so that scaling to microdegrees fits.
    let limit: u64 = if neg {
        I64_MIN_MAGNITUDE
    } else {
        i64::MAX as u64
    };
    let limit_int: u64 = limit / 1000000;
    let int_acc: u64;
    if dot == from {
        int_acc = 0;
        assert(coord_int_part(s@).len() == 0);
    } else {
        match accumulate_digits(s, from, dot, limit_int) {
            Some(acc) => {
                int_acc = acc;
            },
            None => {
                proof {
                    let ip = coord_int_part(s@);
                    if is_coord_literal(s@) {
                        // The digits were fine, so the value passed the cap
                        // and the magnitude cannot fit.
                        vstd::arithmetic::div_mod::lemma_fundamental_div_mod(
                            limit as int,
                            1000000,
                        );
                        let fp6 = coord_frac_part(s@).take(kept_frac_digits(s@));
                        assert(all_digits(ip));
                        assert(all_digits(fp6));
                        lemma_digits_val_nonneg(ip);
                        lemma_digits_val_nonneg(fp6);
                        lemma_pow10_positive((6 - kept_frac_digits(s@)) as nat);
                        assert(coord_frac_udeg(s@) >= 0) by {
                            lemma_pow10_positive((6 - kept_frac_digits(s@)) as nat);
                            assert(all_digits(coord_frac_part(s@).take(kept_frac_digits(s@))));
                            lemma_digits_val_nonneg(
                                coord_frac_part(s@).take(kept_frac_digits(s@)),
                            );
                            vstd::arithmetic::mul::lemma_mul_nonnegative(
                                digits_val(coord_frac_part(s@).take(kept_frac_digits(s@))),
                                pow10((6 - kept_frac_digits(s@)) as nat),
                            );
                        }
                        assert(digits_val(ip) >= limit_int + 1);
                        assert(digits_val(ip) * 1000000 >= (limit_int + 1) * 1000000) by (nonlinear_arith)
                            requires
                                digits_val(ip) >= limit_int + 1,
                        ;
                        assert(coord_magnitude(s@) > limit);
                    }
                }
                return None;
            },
        }
    }
    // The fractional part: every digit is validated, the first six are kept.
    let mut frac_acc: u64 = 0;
    let mut kept: usize = 0;
    let ghost fp = coord_frac_part(s@);
    if dot < s.len() {
        proof {
            assert(fp =~= s@.subrange(dot + 1, s@.len() as int));
        }
        let mut j: usize = dot + 1;
        while j < s.len()
            invariant
                from <= dot < j <= s@.len(),
                fp == s@.subrange(dot + 1, s@.len() as int),
                fp == coord_frac_part(s@),
                kept == if j - dot - 1 < 6 {
                    j - dot - 1
                } else {
                    6
                },
                all_digits(fp.take(j - dot - 1)),
                frac_acc == digits_val(fp.take(kept as int)),
                frac_acc < pow10(kept as nat),
            decreases s@.len() - j,
        {
            let b = s[j];
            if b < 48 || b > 57 {
                assert(!is_digit(fp[j - dot - 1]));
                return None;
            }
            assert(all_digits(fp.take(j - dot)));
            if kept < 6 {
                proof {
                    lemma_pow10_mono(kept as nat, 6);
                    assert(pow10(6) == 1000000) by {
                        reveal_with_fuel(pow10, 7);
                    }
                    assert(fp.take(kept + 1 as int).drop_last() =~= fp.take(kept as int));
                    assert(pow10((kept + 1) as nat) == 10 * pow10(kept as nat));
                }
                frac_acc = frac_acc * 10 + ((b - 48) as u64);
                kept = kept + 1;
            }
            j = j + 1;
        }
        assert(fp.take(s@.len() - dot - 1) =~= fp);
    } else {
        assert(fp =~= Seq::<u8>::empty());
        assert(fp.take(0) =~= fp);
    }
    if int_acc == 0 && dot == from && (dot == s.len() || dot + 1 == s.len()) {
        // No digit at all: a bare sign or a bare dot.
        assert(coord_int_part(s@).len() + coord_frac_part(s@).len() == 0);
        return None;
    }
    proof {
        assert(kept == kept_frac_digits(s@));
    }
    let mult = pow10_small(6 - kept);
    proof {
        lemma_pow10_split(kept as nat, (6 - kept) as nat);
        lemma_digits_val_nonneg(fp.take(kept as int));
        assert(frac_acc * mult + mult <= pow10(kept as nat) * pow10((6 - kept) as nat))
            by (nonlinear_arith)
            requires
                frac_acc < pow10(kept as nat),
                mult == pow10((6 - kept) as nat),
                mult >= 1,
                frac_acc >= 0,
        ;
        assert(pow10(6) == 1000000) by {
            reveal_with_fuel(pow10, 7);
        }
    }
    let frac6: u64 = frac_acc * mult;
    assert(frac6 == coord_frac_udeg(s@));
    assert(frac6 <= 999999);
    let total: u64 = int_acc * 1000000 + frac6;
    assert(total == coord_magnitude(s@));
    if total > limit {
        return None;
    }
    if neg {
        if total == I64_MIN_MAGNITUDE {
            Some(i64::MIN)
        } else {
            Some(0i64 - (total as i64))
        }
    } else {
        Some(total as i64)
    }
}

proof fn lemma_pow10_positive(k: nat)
    ensures
        pow10(k) >= 1,
    decreases k,
{
    if k > 0 {
        lemma_pow10_positive((k - 1) as nat);
    }
}

proof fn lemma_pow10_mono(a: nat, b: nat)
    requires
        a <= b,
    ensures
        pow10(a) <= pow10(b),
    decreases b,
{
    if a < b {
        lemma_pow10_mono(a, (b - 1) as nat);
        lemma_pow10_positive((b - 1) as nat);
    }
}

proof fn lemma_pow10_split(a: nat, b: nat)
    ensures
        pow10(a + b) == pow10(a) * pow10(b),
    decreases a,
{
    if a == 0 {
    } else {
        lemma_pow10_split((a - 1) as nat, b);
        assert(pow10(a + b) == 10 * pow10((a + b - 1) as nat));
        assert(10 * (pow10((a - 1) as nat) * pow10(b)) == (10 * pow10((a - 1) as nat)) * pow10(
            b,
        )) by (nonlinear_arith);
    }
}

/// The views of a vector of byte fields.
pub open spec fn fields_view(fields: Seq<Vec<u8>>) -> Seq<Seq<u8>> {
    fields.map_values(|f: Vec<u8>| f@)
}

/// An optional text field: absent when it is empty after trimming, else
/// the field as given.
pub open spec fn spec_opt_text(s: Seq<u8>) -> Option<Seq<u8>> {
    if spec_trim(s).len() == 0 {
        None
    } else {
        Some(s)
    }
}

/// Turns one field into an optional text value: a field that is empty
/// after trimming means "no value".
pub fn prepare_csv_string(input: &Vec<u8>) -> (r: Option<Vec<u8>>)
    ensures
        opt_bytes(r) == spec_opt_text(input@),
{
    let t = trim_bytes(input);
    if t.len() == 0 {
        None
    } else {
        Some(clone_bytes(input))
    }
}

/// What one row of trimmed fields decodes to. The checks run in a fixed
/// order: column count, id, name, latitude, longitude; the first failing
/// check names the row error.
pub open spec fn spec_parse_row(fields: Seq<Seq<u8>>) -> Result<StationModel, RowError> {
    if fields.len() < 72 {
        Err(RowError::MissingColumns)
    } else if !(is_int_literal(fields[0]) && i64::MIN <= int_value(fields[0]) <= i64::MAX) {
        Err(RowError::BadId)
    } else if fields[1].len() == 0 {
        Err(RowError::EmptyName)
    } else if fields[5].len() > 0 && !(is_coord_literal(fields[5]) && coord_fits(fields[5])) {
        Err(RowError::BadLatitude)
    } else if fields[6].len() > 0 && !(is_coord_literal(fields[6]) && coord_fits(fields[6])) {
        Err(RowError::BadLongitude)
    } else {
        Ok(StationModel {
            id: int_value(fields[0]) as i64,
            name: fields[1],
            uic: fields[3],
            latitude: if fields[5].len() == 0 {
                None
            } else {
                Some(coord_udeg(fields[5]) as i64)
            },
            longitude: if fields[6].len() == 0 {
                None
            } else {
                Some(coord_udeg(fields[6]) as i64)
            },
            country: spec_opt_text(fields[8]),
            info: Seq::new(18, |j: int| spec_opt_text(fields[54 + j])),
        })
    }
}

/// Decodes one row of trimmed fields into a station record, naming the
/// first check the row fails.
pub fn parse_row(fields: &Vec<Vec<u8>>) -> (r: Result<StationRecord, RowError>)
    ensures
        ({
            let m = spec_parse_row(fields_view(fields@));
            match r {
                Ok(rec) => m == Ok::<StationModel, RowError>(rec@),
                Err(e) => m == Err::<StationModel, RowError>(e),
            }
        }),
{
    let ghost gs = fields_view(fields@);
    proof {
        assert(forall|k: int| 0 <= k < gs.len() ==> gs[k] == #[trigger] fields@[k]@);
    }
    if fields.len() < MIN_COLUMNS {
        return Err(RowError::MissingColumns);
    }
    let id: i64 = match parse_i64(&fields[COL_ID]) {
        Some(v) => v,
        None => {
            return Err(RowError::BadId);
        },
    };
    if fields[COL_NAME].len() == 0 {
        return Err(RowError::EmptyName);
    }
    let latitude: Option<i64> = if fields[COL_LATITUDE].len() == 0 {
        None
    } else {
        match parse_coordinate(&fields[COL_LATITUDE]) {
            Some(v) => Some(v),
            None => {
                return Err(RowError::BadLatitude);
            },
        }
    };
    let longitude: Option<i64> = if fields[COL_LONGITUDE].len() == 0 {
        None
    } else {
        match parse_coordinate(&fields[COL_LONGITUDE]) {
            Some(v) => Some(v),
            None => {
                return Err(RowError::BadLongitude);
            },
        }
    };
    let info = Info {
        de: prepare_csv_string(&fields[54]),
        en: prepare_csv_string(&fields[55]),
        es: prepare_csv_string(&fields[56]),
        fr: prepare_csv_string(&fields[57]),
        it: prepare_csv_string(&fields[58]),
        nb: prepare_csv_string(&fields[59]),
        nl: prepare_csv_string(&fields[60]),
        cs: prepare_csv_string(&fields[61]),
        da: prepare_csv_string(&fields[62]),
        hu: prepare_csv_string(&fields[63]),
        ja: prepare_csv_string(&fields[64]),
        ko: prepare_csv_string(&fields[65]),
        pl: prepare_csv_string(&fields[66]),
        pt: prepare_csv_string(&fields[67]),
        ru: prepare_csv_string(&fields[68]),
        sv: prepare_csv_string(&fields[69]),
        tr: prepare_csv_string(&fields[70]),
        zh: prepare_csv_string(&fields[71]),
    };
    let rec = StationRecord {
        id,
        name: clone_bytes(&fields[COL_NAME]),
        uic: clone_bytes(&fields[COL_UIC]),
        latitude,
        longitude,
        country: prepare_csv_string(&fields[COL_COUNTRY]),
        info,
    };
    proof {
        let m = spec_parse_row(gs);
        assert(m is Ok);
        assert(rec@.info =~= m.unwrap().info);
        assert(rec@ =~= m.unwrap());
    }
    Ok(rec)
}

} // verus!
