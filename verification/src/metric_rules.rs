//! The float-free rules of metric queries: which capability each aggregate
//! and time grain needs, the shape checks a query must pass before it runs,
//! and the time buckets of timestamps.
use vstd::prelude::*;
use vstd::utf8::encode_utf8;

use crate::text::{decimal, decimal_string, owned, padded_decimal, padded_decimal_string, push_str, same_text, texts_contain};
use crate::types::{ProviderCapability, ProviderError};

verus! {

/// Aggregate functions of a metric query.
#[derive(Debug, Clone, Copy, PartialEq, Eq, Structural)]
pub enum ProviderMetricAggregateFunction {
    Count,
    Sum,
    Avg,
    Min,
    Max,
    DistinctCount,
}

/// Time grains of a metric time bucket.
#[derive(Debug, Clone, Copy, PartialEq, Eq, Structural)]
pub enum ProviderMetricTimeGrain {
    Hour,
    Day,
    Week,
    Month,
    Quarter,
    Year,
}

/// Operators of a metric filter.
#[derive(Debug, Clone, Copy, PartialEq, Eq, Structural)]
pub enum ProviderMetricFilterOperator {
    Equals,
    NotEquals,
    In,
    NotIn,
    Gt,
    Gte,
    Lt,
    Lte,
    Exists,
    NotExists,
}

/// The capability an aggregate function needs.
pub open spec fn aggregate_capability(f: ProviderMetricAggregateFunction) -> ProviderCapability {
    match f {
        ProviderMetricAggregateFunction::Count => ProviderCapability::MetricAggregateCount,
        ProviderMetricAggregateFunction::Sum => ProviderCapability::MetricAggregateSum,
        ProviderMetricAggregateFunction::Avg => ProviderCapability::MetricAggregateAvg,
        ProviderMetricAggregateFunction::Min => ProviderCapability::MetricAggregateMin,
        ProviderMetricAggregateFunction::Max => ProviderCapability::MetricAggregateMax,
        ProviderMetricAggregateFunction::DistinctCount => ProviderCapability::MetricAggregateDistinctCount,
    }
}

/// The name of the capability an aggregate function needs.
pub open spec fn aggregate_capability_name(f: ProviderMetricAggregateFunction) -> Seq<char> {
    match f {
        ProviderMetricAggregateFunction::Count => "MetricAggregateCount"@,
        ProviderMetricAggregateFunction::Sum => "MetricAggregateSum"@,
        ProviderMetricAggregateFunction::Avg => "MetricAggregateAvg"@,
        ProviderMetricAggregateFunction::Min => "MetricAggregateMin"@,
        ProviderMetricAggregateFunction::Max => "MetricAggregateMax"@,
        ProviderMetricAggregateFunction::DistinctCount => "MetricAggregateDistinctCount"@,
    }
}

/// The capability a time grain needs.
pub open spec fn grain_capability(g: ProviderMetricTimeGrain) -> ProviderCapability {
    match g {
        ProviderMetricTimeGrain::Hour => ProviderCapability::MetricTimeBucketHour,
        ProviderMetricTimeGrain::Day => ProviderCapability::MetricTimeBucketDay,
        ProviderMetricTimeGrain::Week => ProviderCapability::MetricTimeBucketWeek,
        ProviderMetricTimeGrain::Month => ProviderCapability::MetricTimeBucketMonth,
        ProviderMetricTimeGrain::Quarter => ProviderCapability::MetricTimeBucketQuarter,
        ProviderMetricTimeGrain::Year => ProviderCapability::MetricTimeBucketYear,
    }
}

/// The name of the capability a time grain needs.
pub open spec fn grain_capability_name(g: ProviderMetricTimeGrain) -> Seq<char> {
    match g {
        ProviderMetricTimeGrain::Hour => "MetricTimeBucketHour"@,
        ProviderMetricTimeGrain::Day => "MetricTimeBucketDay"@,
        ProviderMetricTimeGrain::Week => "MetricTimeBucketWeek"@,
        ProviderMetricTimeGrain::Month => "MetricTimeBucketMonth"@,
        ProviderMetricTimeGrain::Quarter => "MetricTimeBucketQuarter"@,
        ProviderMetricTimeGrain::Year => "MetricTimeBucketYear"@,
    }
}

impl ProviderMetricAggregateFunction {
    /// The capability this aggregate function needs.
    pub fn required_capability(&self) -> (c: ProviderCapability)
        ensures
            c == aggregate_capability(*self),
    {
        match self {
            ProviderMetricAggregateFunction::Count => ProviderCapability::MetricAggregateCount,
            ProviderMetricAggregateFunction::Sum => ProviderCapability::MetricAggregateSum,
            ProviderMetricAggregateFunction::Avg => ProviderCapability::MetricAggregateAvg,
            ProviderMetricAggregateFunction::Min => ProviderCapability::MetricAggregateMin,
            ProviderMetricAggregateFunction::Max => ProviderCapability::MetricAggregateMax,
            ProviderMetricAggregateFunction::DistinctCount => ProviderCapability::MetricAggregateDistinctCount,
        }
    }

    fn capability_name(&self) -> (s: String)
        ensures
            s@ == aggregate_capability_name(*self),
    {
        proof {
            reveal_strlit("MetricAggregateCount");
            reveal_strlit("MetricAggregateSum");
            reveal_strlit("MetricAggregateAvg");
            reveal_strlit("MetricAggregateMin");
            reveal_strlit("MetricAggregateMax");
            reveal_strlit("MetricAggregateDistinctCount");
        }
        match self {
            ProviderMetricAggregateFunction::Count => owned("MetricAggregateCount"),
            ProviderMetricAggregateFunction::Sum => owned("MetricAggregateSum"),
            ProviderMetricAggregateFunction::Avg => owned("MetricAggregateAvg"),
            ProviderMetricAggregateFunction::Min => owned("MetricAggregateMin"),
            ProviderMetricAggregateFunction::Max => owned("MetricAggregateMax"),
            ProviderMetricAggregateFunction::DistinctCount => owned("MetricAggregateDistinctCount"),
        }
    }
}

impl ProviderMetricTimeGrain {
    /// The capability this time grain needs.
    pub fn required_capability(&self) -> (c: ProviderCapability)
        ensures
            c == grain_capability(*self),
    {
        match self {
            ProviderMetricTimeGrain::Hour => ProviderCapability::MetricTimeBucketHour,
            ProviderMetricTimeGrain::Day => ProviderCapability::MetricTimeBucketDay,
            ProviderMetricTimeGrain::Week => ProviderCapability::MetricTimeBucketWeek,
            ProviderMetricTimeGrain::Month => ProviderCapability::MetricTimeBucketMonth,
            ProviderMetricTimeGrain::Quarter => ProviderCapability::MetricTimeBucketQuarter,
            ProviderMetricTimeGrain::Year => ProviderCapability::MetricTimeBucketYear,
        }
    }

    fn capability_name(&self) -> (s: String)
        ensures
            s@ == grain_capability_name(*self),
    {
        proof {
            reveal_strlit("MetricTimeBucketHour");
            reveal_strlit("MetricTimeBucketDay");
            reveal_strlit("MetricTimeBucketWeek");
            reveal_strlit("MetricTimeBucketMonth");
            reveal_strlit("MetricTimeBucketQuarter");
            reveal_strlit("MetricTimeBucketYear");
        }
        match self {
            ProviderMetricTimeGrain::Hour => owned("MetricTimeBucketHour"),
            ProviderMetricTimeGrain::Day => owned("MetricTimeBucketDay"),
            ProviderMetricTimeGrain::Week => owned("MetricTimeBucketWeek"),
            ProviderMetricTimeGrain::Month => owned("MetricTimeBucketMonth"),
            ProviderMetricTimeGrain::Quarter => owned("MetricTimeBucketQuarter"),
            ProviderMetricTimeGrain::Year => owned("MetricTimeBucketYear"),
        }
    }
}

/// What the checks read of an aggregation: its function and field.
#[derive(Debug, PartialEq, Eq)]
pub struct MetricAggregationShape {
    pub function: ProviderMetricAggregateFunction,
    pub field: Option<String>,
}

/// What the checks read of a filter: its field and operator, and whether it
/// carries a value and a non-empty value list.
#[derive(Debug, PartialEq, Eq)]
pub struct MetricFilterShape {
    pub field: String,
    pub operator: ProviderMetricFilterOperator,
    pub has_value: bool,
    pub has_values: bool,
}

/// What the checks read of a time bucket: its field and grain.
#[derive(Debug, PartialEq, Eq)]
pub struct MetricTimeBucketShape {
    pub field: String,
    pub grain: ProviderMetricTimeGrain,
}

/// What the checks read of a metric query.
#[derive(Debug, PartialEq, Eq)]
pub struct MetricQueryShape {
    pub aggregations: Vec<MetricAggregationShape>,
    pub filters: Vec<MetricFilterShape>,
    pub dimensions: Vec<String>,
    pub time_bucket: Option<MetricTimeBucketShape>,
}

/// The kinds of refusal of a metric query.
#[derive(Debug, Clone, Copy, PartialEq, Eq, Structural)]
pub enum MetricRefusalKind {
    UnsupportedCapability,
    UnknownField,
    InvalidFilter,
}

/// `e` is the refusal of kind `kind` with message `message`.
pub open spec fn is_refusal(e: ProviderError, kind: MetricRefusalKind, message: Seq<char>) -> bool {
    match kind {
        MetricRefusalKind::UnsupportedCapability => e matches ProviderError::UnsupportedMetricCapability(m) && m@ == message,
        MetricRefusalKind::UnknownField => e matches ProviderError::UnknownMetricField(m) && m@ == message,
        MetricRefusalKind::InvalidFilter => e matches ProviderError::InvalidMetricFilter(m) && m@ == message,
    }
}

/// Some input row has the field.
pub open spec fn some_row_has(row_fields: Seq<Vec<String>>, field: Seq<char>) -> bool {
    exists|i: int| 0 <= i < row_fields.len() && texts_contain((#[trigger] row_fields[i])@, field)
}

/// The refusal for a field that no input row has.
pub open spec fn field_refusal(row_fields: Seq<Vec<String>>, field: Seq<char>) -> Option<(MetricRefusalKind, Seq<char>)> {
    if some_row_has(row_fields, field) {
        None
    } else {
        Some((MetricRefusalKind::UnknownField, field))
    }
}

/// The first of two refusals.
pub open spec fn first_refusal(
    a: Option<(MetricRefusalKind, Seq<char>)>,
    b: Option<(MetricRefusalKind, Seq<char>)>,
) -> Option<(MetricRefusalKind, Seq<char>)> {
    if a is Some {
        a
    } else {
        b
    }
}

/// Whether the input rows have the field, or the refusal that names it.
pub fn ensure_metric_field(row_fields: &Vec<Vec<String>>, field: &str) -> (r: Result<(), ProviderError>)
    ensures
        match field_refusal(row_fields@, field@) {
            None => r is Ok,
            Some((kind, message)) => r matches Err(e) && is_refusal(e, kind, message),
        },
{
    let n = row_fields.len();
    for i in 0..n
        invariant
            n == row_fields@.len(),
            forall|j: int| 0 <= j < i ==> !texts_contain((#[trigger] row_fields@[j])@, field@),
    {
        if crate::text::list_contains_text(&row_fields[i], field) {
            return Ok(());
        }
    }
    Err(ProviderError::UnknownMetricField(owned(field)))
}

/// The refusal of a filter's shape: `in` and `not_in` need a value list,
/// `exists` and `not_exists` need nothing, every other operator needs a value.
pub open spec fn filter_shape_refusal(f: MetricFilterShape) -> Option<(MetricRefusalKind, Seq<char>)> {
    match f.operator {
        ProviderMetricFilterOperator::In | ProviderMetricFilterOperator::NotIn => if !f.has_values {
            Some((MetricRefusalKind::InvalidFilter, f.field@ + " requires values"@))
        } else {
            None
        },
        ProviderMetricFilterOperator::Exists | ProviderMetricFilterOperator::NotExists => None,
        _ => if !f.has_value {
            Some((MetricRefusalKind::InvalidFilter, f.field@ + " requires value"@))
        } else {
            None
        },
    }
}

/// Whether a filter has the shape its operator needs.
pub fn validate_filter_shape(filter: &MetricFilterShape) -> (r: Result<(), ProviderError>)
    ensures
        match filter_shape_refusal(*filter) {
            None => r is Ok,
            Some((kind, message)) => r matches Err(e) && is_refusal(e, kind, message),
        },
{
    proof {
        reveal_strlit(" requires values");
        reveal_strlit(" requires value");
    }
    match filter.operator {
        ProviderMetricFilterOperator::In | ProviderMetricFilterOperator::NotIn => {
            if !filter.has_values {
                let mut m = owned(filter.field.as_str());
                push_str(&mut m, " requires values");
                return Err(ProviderError::InvalidMetricFilter(m));
            }
        },
        ProviderMetricFilterOperator::Exists | ProviderMetricFilterOperator::NotExists => {},
        _ => {
            if !filter.has_value {
                let mut m = owned(filter.field.as_str());
                push_str(&mut m, " requires value");
                return Err(ProviderError::InvalidMetricFilter(m));
            }
        },
    }
    Ok(())
}

/// The refusal of the aggregations from position `i` on: a missing
/// capability, else a field no row has.
pub open spec fn aggregations_refusal(
    caps: Seq<ProviderCapability>,
    rows: Seq<Vec<String>>,
    aggs: Seq<MetricAggregationShape>,
    i: int,
) -> Option<(MetricRefusalKind, Seq<char>)>
    decreases aggs.len() - i,
{
    if i < 0 || i >= aggs.len() {
        None
    } else if !caps.contains(aggregate_capability(aggs[i].function)) {
        Some((MetricRefusalKind::UnsupportedCapability, aggregate_capability_name(aggs[i].function)))
    } else {
        first_refusal(
            match aggs[i].field {
                Some(f) => field_refusal(rows, f@),
                None => None,
            },
            aggregations_refusal(caps, rows, aggs, i + 1),
        )
    }
}

/// The refusal of the filters from position `i` on: a bad shape, else a
/// field no row has.
pub open spec fn filters_refusal(rows: Seq<Vec<String>>, filters: Seq<MetricFilterShape>, i: int) -> Option<
    (MetricRefusalKind, Seq<char>),
>
    decreases filters.len() - i,
{
    if i < 0 || i >= filters.len() {
        None
    } else {
        first_refusal(
            filter_shape_refusal(filters[i]),
            first_refusal(field_refusal(rows, filters[i].field@), filters_refusal(rows, filters, i + 1)),
        )
    }
}

/// The refusal of the dimensions from position `i` on: grouping not
/// supported, else a field no row has.
pub open spec fn dimensions_refusal(
    caps: Seq<ProviderCapability>,
    rows: Seq<Vec<String>>,
    dims: Seq<String>,
    i: int,
) -> Option<(MetricRefusalKind, Seq<char>)>
    decreases dims.len() - i,
{
    if i < 0 || i >= dims.len() {
        None
    } else if !caps.contains(ProviderCapability::MetricDimensionGroupBy) {
        Some((MetricRefusalKind::UnsupportedCapability, "metric-dimension-group-by"@))
    } else {
        first_refusal(field_refusal(rows, dims[i]@), dimensions_refusal(caps, rows, dims, i + 1))
    }
}

/// Why a metric query is refused before it runs, if it is: no aggregation,
/// then the aggregations, filters, dimensions and time bucket in turn.
pub open spec fn metric_query_refusal(caps: Seq<ProviderCapability>, rows: Seq<Vec<String>>, q: MetricQueryShape) -> Option<
    (MetricRefusalKind, Seq<char>),
> {
    if q.aggregations@.len() == 0 {
        Some((MetricRefusalKind::InvalidFilter, "at least one aggregation is required"@))
    } else {
        first_refusal(
            aggregations_refusal(caps, rows, q.aggregations@, 0),
            first_refusal(
                filters_refusal(rows, q.filters@, 0),
                first_refusal(
                    dimensions_refusal(caps, rows, q.dimensions@, 0),
                    match q.time_bucket {
                        Some(b) => if !caps.contains(grain_capability(b.grain)) {
                            Some((MetricRefusalKind::UnsupportedCapability, grain_capability_name(b.grain)))
                        } else {
                            field_refusal(rows, b.field@)
                        },
                        None => None,
                    },
                ),
            ),
        )
    }
}

fn has_capability(caps: &Vec<ProviderCapability>, c: ProviderCapability) -> (r: bool)
    ensures
        r == caps@.contains(c),
{
    let n = caps.len();
    for i in 0..n
        invariant
            n == caps@.len(),
            forall|j: int| 0 <= j < i ==> caps@[j] != c,
    {
        if caps[i] == c {
            return true;
        }
    }
    false
}

/// Checks a metric query against the provider's capabilities and the fields
/// of the input rows before it runs.
pub fn validate_metric_query(
    capabilities: &Vec<ProviderCapability>,
    row_fields: &Vec<Vec<String>>,
    query: &MetricQueryShape,
) -> (r: Result<(), ProviderError>)
    ensures
        match metric_query_refusal(capabilities@, row_fields@, *query) {
            None => r is Ok,
            Some((kind, message)) => r matches Err(e) && is_refusal(e, kind, message),
        },
{
    proof {
        reveal_strlit("at least one aggregation is required");
        reveal_strlit("metric-dimension-group-by");
    }
    if query.aggregations.len() == 0 {
        return Err(ProviderError::InvalidMetricFilter(owned("at least one aggregation is required")));
    }
    let na = query.aggregations.len();
    for i in 0..na
        invariant
            na == query.aggregations@.len(),
            aggregations_refusal(capabilities@, row_fields@, query.aggregations@, 0)
                == aggregations_refusal(capabilities@, row_fields@, query.aggregations@, i as int),
    {
        let a = &query.aggregations[i];
        let required = a.function.required_capability();
        if !has_capability(capabilities, required) {
            return Err(ProviderError::UnsupportedMetricCapability(a.function.capability_name()));
        }
        match &a.field {
            Some(f) => {
                ensure_metric_field(row_fields, f.as_str())?;
            },
            None => {},
        }
    }
    let nf = query.filters.len();
    for i in 0..nf
        invariant
            nf == query.filters@.len(),
            query.aggregations@.len() > 0,
            aggregations_refusal(capabilities@, row_fields@, query.aggregations@, 0) is None,
            filters_refusal(row_fields@, query.filters@, 0) == filters_refusal(row_fields@, query.filters@, i as int),
    {
        validate_filter_shape(&query.filters[i])?;
        ensure_metric_field(row_fields, query.filters[i].field.as_str())?;
    }
    let nd = query.dimensions.len();
    for i in 0..nd
        invariant
            nd == query.dimensions@.len(),
            query.aggregations@.len() > 0,
            aggregations_refusal(capabilities@, row_fields@, query.aggregations@, 0) is None,
            filters_refusal(row_fields@, query.filters@, 0) is None,
            dimensions_refusal(capabilities@, row_fields@, query.dimensions@, 0)
                == dimensions_refusal(capabilities@, row_fields@, query.dimensions@, i as int),
    {
        if !has_capability(capabilities, ProviderCapability::MetricDimensionGroupBy) {
            return Err(ProviderError::UnsupportedMetricCapability(owned("metric-dimension-group-by")));
        }
        ensure_metric_field(row_fields, query.dimensions[i].as_str())?;
    }
    match &query.time_bucket {
        Some(b) => {
            if !has_capability(capabilities, b.grain.required_capability()) {
                return Err(ProviderError::UnsupportedMetricCapability(b.grain.capability_name()));
            }
            ensure_metric_field(row_fields, b.field.as_str())?;
        },
        None => {},
    }
    Ok(())
}

/// The length of a month of a non-leap year.
pub open spec fn month_length(month: int) -> int {
    if month == 2 {
        28
    } else if month == 4 || month == 6 || month == 9 || month == 11 {
        30
    } else {
        31
    }
}

/// The days of a non-leap year before the first of `month`.
pub open spec fn days_before_month(month: int) -> int
    decreases month,
{
    if month <= 1 {
        0
    } else {
        days_before_month(month - 1) + month_length(month - 1)
    }
}

proof fn lemma_days_before_month(month: int)
    requires
        1 <= month <= 12,
    ensures
        0 <= days_before_month(month) <= 31 * (month - 1),
    decreases month,
{
    if month > 1 {
        lemma_days_before_month(month - 1);
    }
}

/// The day of the year of a date of a non-leap year, or the message that its
/// month or day is out of range.
pub open spec fn day_of_year_spec(month: u32, day: u32) -> Result<u32, Seq<char>> {
    if !(1 <= month <= 12) {
        Err("invalid timestamp month "@ + decimal(month as nat))
    } else if day == 0 || day > month_length(month as int) {
        Err("invalid timestamp day "@ + decimal(day as nat))
    } else {
        Ok((days_before_month(month as int) + day) as u32)
    }
}

fn month_len(month: u32) -> (n: u32)
    requires
        1 <= month <= 12,
    ensures
        n == month_length(month as int),
{
    if month == 2 {
        28
    } else if month == 4 || month == 6 || month == 9 || month == 11 {
        30
    } else {
        31
    }
}

/// The day of the year of a date of a non-leap year.
pub fn day_of_year(month: u32, day: u32) -> (r: Result<u32, ProviderError>)
    ensures
        match day_of_year_spec(month, day) {
            Ok(n) => r == Ok::<u32, ProviderError>(n),
            Err(message) => r matches Err(ProviderError::InvalidMetricFilter(m)) && m@ == message,
        },
{
    proof {
        reveal_strlit("invalid timestamp month ");
        reveal_strlit("invalid timestamp day ");
    }
    if !(1 <= month && month <= 12) {
        let mut m = owned("invalid timestamp month ");
        push_str(&mut m, decimal_string(month as u64).as_str());
        return Err(ProviderError::InvalidMetricFilter(m));
    }
    if day == 0 || day > month_len(month) {
        let mut m = owned("invalid timestamp day ");
        push_str(&mut m, decimal_string(day as u64).as_str());
        return Err(ProviderError::InvalidMetricFilter(m));
    }
    let mut total: u32 = 0;
    let mut k: u32 = 1;
    while k < month
        invariant
            1 <= k <= month <= 12,
            total == days_before_month(k as int),
            total <= 31 * (k - 1),
        decreases month - k,
    {
        total = total + month_len(k);
        k = k + 1;
    }
    Ok(total + day)
}

/// Byte `i` of `b` starts a character (or is its end), as `str::is_char_boundary` has it.
pub open spec fn is_char_boundary(b: Seq<u8>, i: int) -> bool {
    i == 0 || i == b.len() || (0 < i < b.len() && !(0x80 <= b[i] <= 0xbf))
}

/// The bytes `b[lo..hi]` when both ends are character boundaries (`str::get`).
pub open spec fn str_range(b: Seq<u8>, lo: int, hi: int) -> Option<Seq<u8>> {
    if 0 <= lo <= hi <= b.len() && is_char_boundary(b, lo) && is_char_boundary(b, hi) {
        Some(b.subrange(lo, hi))
    } else {
        None
    }
}

/// An ASCII decimal digit.
pub open spec fn is_digit_byte(x: u8) -> bool {
    48 <= x <= 57
}

/// `str::parse::<u32>` of a two-byte text: two digits, or `+` and one digit.
pub open spec fn parse_two_digits(d: Seq<u8>) -> Option<u32> {
    if d.len() != 2 {
        None
    } else if d[0] == 43 {
        if is_digit_byte(d[1]) {
            Some((d[1] - 48) as u32)
        } else {
            None
        }
    } else if is_digit_byte(d[0]) && is_digit_byte(d[1]) {
        Some(((d[0] - 48) * 10 + (d[1] - 48)) as u32)
    } else {
        None
    }
}

/// The month of a timestamp's bytes: bytes 5 and 6 as a number.
pub open spec fn timestamp_month(b: Seq<u8>) -> Option<u32> {
    match str_range(b, 5, 7) {
        Some(d) => parse_two_digits(d),
        None => None,
    }
}

/// The day of a timestamp's bytes: bytes 8 and 9 as a number.
pub open spec fn timestamp_day(b: Seq<u8>) -> Option<u32> {
    match str_range(b, 8, 10) {
        Some(d) => parse_two_digits(d),
        None => None,
    }
}

/// The bytes of an ASCII text.
pub open spec fn ascii_bytes(s: Seq<char>) -> Seq<u8> {
    s.map_values(|c: char| c as u8)
}

/// A timestamp has its date, year, month and day.
pub open spec fn timestamp_readable(b: Seq<u8>) -> bool {
    &&& str_range(b, 0, 10) is Some
    &&& str_range(b, 0, 4) is Some
    &&& timestamp_month(b) is Some
    &&& timestamp_day(b) is Some
}

/// The bucket (as UTF-8 bytes) of a timestamp at a grain, or the message of
/// the error: the hour (first 13 bytes) with `:00:00Z`, the date (first 10),
/// the ISO-like week `year-Www` counted from the day of the year, the month
/// (first 7), the quarter `year-Qn`, or the year (first 4).
pub open spec fn bucket_spec(ts: Seq<char>, grain: ProviderMetricTimeGrain) -> Result<Seq<u8>, Seq<char>> {
    let b = encode_utf8(ts);
    let bad = "invalid timestamp "@ + ts;
    if !timestamp_readable(b) {
        Err(bad)
    } else {
        let year = b.subrange(0, 4);
        let month = timestamp_month(b).unwrap();
        let day = timestamp_day(b).unwrap();
        match grain {
            ProviderMetricTimeGrain::Hour => match str_range(b, 0, 13) {
                Some(h) => Ok(h + ascii_bytes(":00:00Z"@)),
                None => Err(bad),
            },
            ProviderMetricTimeGrain::Day => Ok(b.subrange(0, 10)),
            ProviderMetricTimeGrain::Week => match day_of_year_spec(month, day) {
                Ok(n) => Ok(year + ascii_bytes("-W"@) + ascii_bytes(padded_decimal(((n - 1) / 7 + 1) as nat, 2))),
                Err(message) => Err(message),
            },
            ProviderMetricTimeGrain::Month => match str_range(b, 0, 7) {
                Some(m) => Ok(m),
                None => Err(bad),
            },
            ProviderMetricTimeGrain::Quarter => Ok(year + ascii_bytes("-Q"@) + ascii_bytes(decimal(((month - 1) / 3 + 1) as nat))),
            ProviderMetricTimeGrain::Year => Ok(year),
        }
    }
}

/// The message for a time bucket field that holds no string.
pub open spec fn not_a_timestamp_message() -> Seq<char> {
    "time bucket field must be a string timestamp"@
}

fn boundary(b: &[u8], i: usize) -> (r: bool)
    requires
        i <= b@.len(),
    ensures
        r == is_char_boundary(b@, i as int),
{
    i == 0 || i == b.len() || !(0x80 <= b[i] && b[i] <= 0xbf)
}

fn has_range(b: &[u8], lo: usize, hi: usize) -> (r: bool)
    requires
        lo <= hi,
    ensures
        r == (str_range(b@, lo as int, hi as int) is Some),
{
    hi <= b.len() && boundary(b, lo) && boundary(b, hi)
}

fn copy_bytes(out: &mut Vec<u8>, b: &[u8], lo: usize, hi: usize)
    requires
        lo <= hi <= b@.len(),
    ensures
        final(out)@ == old(out)@ + b@.subrange(lo as int, hi as int),
{
    for i in lo..hi
        invariant
            lo <= hi <= b@.len(),
            out@ == old(out)@ + b@.subrange(lo as int, i as int),
    {
        out.push(b[i]);
        assert(b@.subrange(lo as int, i + 1) =~= b@.subrange(lo as int, i as int).push(b@[i as int]));
    }
}

fn push_ascii(out: &mut Vec<u8>, s: &Vec<char>)
    ensures
        final(out)@ == old(out)@ + ascii_bytes(s@),
{
    let n = s.len();
    for i in 0..n
        invariant
            n == s@.len(),
            out@ == old(out)@ + ascii_bytes(s@.take(i as int)),
    {
        out.push(s[i] as u8);
        assert(ascii_bytes(s@.take(i + 1)) =~= ascii_bytes(s@.take(i as int)).push(s@[i as int] as u8));
    }
    assert(s@.take(n as int) =~= s@);
}

fn two_digits(b: &[u8], lo: usize) -> (r: Option<u32>)
    requires
        lo + 2 <= b@.len(),
    ensures
        r == parse_two_digits(b@.subrange(lo as int, lo + 2)),
{
    let x = b[lo];
    let y = b[lo + 1];
    let ghost d = b@.subrange(lo as int, lo + 2);
    assert(d[0] == x && d[1] == y);
    if x == 43 {
        if 48 <= y && y <= 57 {
            Some((y - 48) as u32)
        } else {
            None
        }
    } else if 48 <= x && x <= 57 && 48 <= y && y <= 57 {
        Some(((x - 48) as u32) * 10 + ((y - 48) as u32))
    } else {
        None
    }
}

/// Whether a timestamp reads as a date whose month is `00`, the one case in
/// which a quarter cannot be computed.
pub fn quarter_underflows(timestamp: &str) -> (r: bool)
    ensures
        r == (timestamp_readable(encode_utf8(timestamp@)) && timestamp_month(encode_utf8(timestamp@)) == Some(0u32)),
{
    let b = timestamp.as_bytes();
    if !has_range(b, 0, 10) || !has_range(b, 0, 4) || !has_range(b, 5, 7) || !has_range(b, 8, 10) {
        return false;
    }
    match (two_digits(b, 5), two_digits(b, 8)) {
        (Some(m), Some(_)) => m == 0,
        _ => false,
    }
}

/// The bucket of a timestamp at a grain, as the UTF-8 bytes of its text; a
/// field that holds no string, or a timestamp without a readable date, is
/// refused.
pub fn bucket_timestamp(timestamp: Option<&str>, grain: ProviderMetricTimeGrain) -> (r: Result<Vec<u8>, ProviderError>)
    requires
        timestamp matches Some(ts) ==> !(grain == ProviderMetricTimeGrain::Quarter && timestamp_readable(encode_utf8(ts@))
            && timestamp_month(encode_utf8(ts@)) == Some(0u32)),
    ensures
        match timestamp {
            None => r matches Err(ProviderError::InvalidMetricFilter(m)) && m@ == not_a_timestamp_message(),
            Some(ts) => match bucket_spec(ts@, grain) {
                Ok(bytes) => r matches Ok(out) && out@ == bytes,
                Err(message) => r matches Err(ProviderError::InvalidMetricFilter(m)) && m@ == message,
            },
        },
{
    proof {
        reveal_strlit("time bucket field must be a string timestamp");
        reveal_strlit("invalid timestamp ");
    }
    let ts = match timestamp {
        Some(ts) => ts,
        None => {
            return Err(ProviderError::InvalidMetricFilter(owned("time bucket field must be a string timestamp")));
        },
    };
    let b = ts.as_bytes();
    let mut bad = owned("invalid timestamp ");
    push_str(&mut bad, ts);
    if !has_range(b, 0, 10) || !has_range(b, 0, 4) || !has_range(b, 5, 7) {
        return Err(ProviderError::InvalidMetricFilter(bad));
    }
    let month = match two_digits(b, 5) {
        Some(m) => m,
        None => {
            return Err(ProviderError::InvalidMetricFilter(bad));
        },
    };
    if !has_range(b, 8, 10) {
        return Err(ProviderError::InvalidMetricFilter(bad));
    }
    let day = match two_digits(b, 8) {
        Some(d) => d,
        None => {
            return Err(ProviderError::InvalidMetricFilter(bad));
        },
    };
    assert(timestamp_readable(b@));
    let mut out: Vec<u8> = Vec::new();
    match grain {
        ProviderMetricTimeGrain::Hour => {
            if !has_range(b, 0, 13) {
                return Err(ProviderError::InvalidMetricFilter(bad));
            }
            copy_bytes(&mut out, b, 0, 13);
            let suffix = crate::text::chars_of(":00:00Z");
            push_ascii(&mut out, &suffix);
        },
        ProviderMetricTimeGrain::Day => {
            copy_bytes(&mut out, b, 0, 10);
        },
        ProviderMetricTimeGrain::Week => {
            let n = day_of_year(month, day)?;
            proof {
                lemma_days_before_month(month as int);
            }
            copy_bytes(&mut out, b, 0, 4);
            let w = crate::text::chars_of("-W");
            push_ascii(&mut out, &w);
            let week = crate::text::padded_decimal_chars(((n - 1) / 7 + 1) as u64, 2);
            push_ascii(&mut out, &week);
        },
        ProviderMetricTimeGrain::Month => {
            copy_bytes(&mut out, b, 0, 7);
        },
        ProviderMetricTimeGrain::Quarter => {
            copy_bytes(&mut out, b, 0, 4);
            let q = crate::text::chars_of("-Q");
            push_ascii(&mut out, &q);
            let quarter = crate::text::decimal_chars(((month - 1) / 3 + 1) as u64);
            push_ascii(&mut out, &quarter);
        },
        ProviderMetricTimeGrain::Year => {
            copy_bytes(&mut out, b, 0, 4);
        },
    }
    Ok(out)
}

/// A quarter bucket is the year, `-Q`, and the number of the quarter that
/// holds the month: for every readable timestamp whose month is 1 to 12, the
/// bucket is the four year bytes, `-`, `Q` and one digit `q` from 1 to 4 with
/// the month in `3q - 2 ..= 3q`.
pub proof fn law_quarter_bucket_holds_the_month(ts: Seq<char>)
    requires
        timestamp_readable(encode_utf8(ts)),
        1 <= timestamp_month(encode_utf8(ts)).unwrap() <= 12,
    ensures
        ({
            let b = encode_utf8(ts);
            let m = timestamp_month(b).unwrap() as int;
            bucket_spec(ts, ProviderMetricTimeGrain::Quarter) matches Ok(out) && out.len() == 7
                && out.subrange(0, 4) == b.subrange(0, 4) && out[4] == 45u8 && out[5] == 81u8
                && 49 <= out[6] <= 52 && 3 * (out[6] - 49) < m <= 3 * (out[6] - 48)
        }),
{
    reveal_strlit("-Q");
    let b = encode_utf8(ts);
    let m = timestamp_month(b).unwrap() as int;
    let q = (m - 1) / 3 + 1;
    assert(1 <= q <= 4);
    assert(decimal(q as nat) == seq![crate::text::digit_char(q)]);
    let year = b.subrange(0, 4);
    let out = year + ascii_bytes("-Q"@) + ascii_bytes(decimal(q as nat));
    assert(ascii_bytes("-Q"@) =~= seq![45u8, 81u8]);
    assert(ascii_bytes(decimal(q as nat)) =~= seq![(q + 48) as u8]);
    assert(out.subrange(0, 4) =~= year);
    assert(out[6] == (q + 48) as u8);
}

/// Days of the year run from 1 on the first of January to 365 on the last
/// of December, one after another: the day after the last of a month is the
/// first of the next month, and every valid date of a month gets its day of
/// the year, the day-th after the month's first.
pub proof fn law_day_of_year_counts_consecutively(month: u32, day: u32)
    ensures
        day_of_year_spec(1, 1) == Ok::<u32, Seq<char>>(1),
        day_of_year_spec(12, 31) == Ok::<u32, Seq<char>>(365),
        1 <= month < 12 ==> (day_of_year_spec(month, month_length(month as int) as u32) matches Ok(a)
            && day_of_year_spec((month + 1) as u32, 1) matches Ok(b) && b == a + 1),
        1 <= month <= 12 && 1 <= day <= month_length(month as int) ==> (day_of_year_spec(month, day) matches Ok(n)
            && day_of_year_spec(month, 1) matches Ok(f) && n == f + day - 1),
        1 <= month <= 12 && (day == 0 || day > month_length(month as int)) ==> day_of_year_spec(month, day) is Err,
        !(1 <= month <= 12) ==> day_of_year_spec(month, day) is Err,
{
    reveal_with_fuel(days_before_month, 13);
    if 1 <= month <= 12 {
        lemma_days_before_month(month as int);
        lemma_days_before_month(12);
    }
}

/// Each grain buckets a readable timestamp by a part of it: the hour keeps
/// the first 13 bytes and appends `:00:00Z`, the day the first 10, the month
/// the first 7, the year the first 4; the week is the year, `-W` and the two
/// digits of the week `w` whose seven days hold the day of the year.
pub proof fn law_bucket_keeps_the_grain(ts: Seq<char>)
    requires
        timestamp_readable(encode_utf8(ts)),
    ensures
        ({
            let b = encode_utf8(ts);
            &&& bucket_spec(ts, ProviderMetricTimeGrain::Day) == Ok::<Seq<u8>, Seq<char>>(b.subrange(0, 10))
            &&& bucket_spec(ts, ProviderMetricTimeGrain::Year) == Ok::<Seq<u8>, Seq<char>>(b.subrange(0, 4))
            &&& str_range(b, 0, 7) is Some ==> bucket_spec(ts, ProviderMetricTimeGrain::Month) == Ok::<Seq<u8>, Seq<char>>(b.subrange(0, 7))
            &&& str_range(b, 0, 13) is Some ==> (bucket_spec(ts, ProviderMetricTimeGrain::Hour) matches Ok(out)
                && out.len() == 20 && out.subrange(0, 13) == b.subrange(0, 13) && out[13] == 58u8 && out[14] == 48u8
                && out[15] == 48u8 && out[16] == 58u8 && out[17] == 48u8 && out[18] == 48u8 && out[19] == 90u8)
            &&& day_of_year_spec(timestamp_month(b).unwrap(), timestamp_day(b).unwrap()) matches Ok(n) ==> (
                bucket_spec(ts, ProviderMetricTimeGrain::Week) matches Ok(out) && out.len() == 8
                && out.subrange(0, 4) == b.subrange(0, 4) && out[4] == 45u8 && out[5] == 87u8
                && 48 <= out[6] <= 57 && 48 <= out[7] <= 57 && ({
                    let w = 10 * (out[6] - 48) + (out[7] - 48);
                    7 * (w - 1) < n <= 7 * w
                }))
        }),
{
    reveal_strlit(":00:00Z");
    reveal_strlit("-W");
    let b = encode_utf8(ts);
    assert(ascii_bytes(":00:00Z"@) =~= seq![58u8, 48u8, 48u8, 58u8, 48u8, 48u8, 90u8]);
    assert(ascii_bytes("-W"@) =~= seq![45u8, 87u8]);
    if str_range(b, 0, 13) is Some {
        let out = b.subrange(0, 13) + ascii_bytes(":00:00Z"@);
        assert(out.subrange(0, 13) =~= b.subrange(0, 13));
    }
    let month = timestamp_month(b).unwrap();
    let day = timestamp_day(b).unwrap();
    if let Ok(n) = day_of_year_spec(month, day) {
        lemma_days_before_month(month as int);
        assert(1 <= n <= 372);
        let w = (n - 1) / 7 + 1;
        assert(1 <= w <= 54);
        let d = padded_decimal(w as nat, 2);
        reveal_with_fuel(padded_decimal, 3);
        assert(d =~= seq![crate::text::digit_char((w / 10) as int), crate::text::digit_char((w % 10) as int)]);
        assert(ascii_bytes(d) =~= seq![((w / 10) + 48) as u8, ((w % 10) + 48) as u8]);
        let out = b.subrange(0, 4) + ascii_bytes("-W"@) + ascii_bytes(d);
        assert(out.subrange(0, 4) =~= b.subrange(0, 4));
        assert(out[6] == ((w / 10) + 48) as u8 && out[7] == ((w % 10) + 48) as u8);
    }
}

} // verus!
