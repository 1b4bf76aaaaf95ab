//! Core people/event model: ids, names, precision-aware historical dates,
//! date ranges and the small search index used by importers.
use std::collections::HashMap;
use vstd::prelude::*;
use crate::attribution::{Provenance, SourceRef};
use crate::text::{
    ascii_lower, char_is_alphanumeric, decimal, is_ascii_digit, push_char, to_ascii_lower, trim,
    trim_seq, u64_to_decimal, u64_zero_padded, unicode_alphanumeric, zero_pad,
};

verus! {

#[derive(Debug, Clone, Copy, Default, PartialEq, Eq, Structural, PartialOrd, Ord, Hash)]
pub struct PersonId(pub u64);

#[derive(Debug, Clone, Copy, Default, PartialEq, Eq, Structural, PartialOrd, Ord, Hash)]
pub struct EventId(pub u64);

#[derive(Debug, Clone, Copy, Default, PartialEq, Eq, Structural, PartialOrd, Ord, Hash)]
pub struct FamilyId(pub u64);

#[derive(Debug, Clone, Copy, Default, PartialEq, Eq, Structural, PartialOrd, Ord, Hash)]
pub struct PlaceId(pub u64);

#[derive(Debug, Clone, Copy, Default, PartialEq, Eq, Structural, PartialOrd, Ord, Hash)]
pub struct NoteId(pub u64);

#[derive(Debug, Clone, Copy, PartialEq, Eq, Structural)]
pub enum Sex {
    Male,
    Female,
    Other,
    Unknown,
}

/// Precision carried by source date/time values, coarsest first.
///
/// Keeping precision explicit prevents lossy conversions such as treating a
/// year-only value as January 1st of that year.
#[derive(Debug, Clone, Copy, PartialEq, Eq, Structural, PartialOrd, Ord, Hash)]
pub enum DatePrecision {
    Millennium,
    Century,
    Decade,
    Year,
    Month,
    Day,
    Hour,
    Minute,
    Second,
}

/// The position of a precision in the order coarsest to finest.
pub open spec fn precision_rank(p: DatePrecision) -> int {
    match p {
        DatePrecision::Millennium => 0,
        DatePrecision::Century => 1,
        DatePrecision::Decade => 2,
        DatePrecision::Year => 3,
        DatePrecision::Month => 4,
        DatePrecision::Day => 5,
        DatePrecision::Hour => 6,
        DatePrecision::Minute => 7,
        DatePrecision::Second => 8,
    }
}

fn rank(p: DatePrecision) -> (r: u8)
    ensures
        r == precision_rank(p),
{
    match p {
        DatePrecision::Millennium => 0,
        DatePrecision::Century => 1,
        DatePrecision::Decade => 2,
        DatePrecision::Year => 3,
        DatePrecision::Month => 4,
        DatePrecision::Day => 5,
        DatePrecision::Hour => 6,
        DatePrecision::Minute => 7,
        DatePrecision::Second => 8,
    }
}

impl DatePrecision {
    pub fn includes_month(self) -> (r: bool)
        ensures
            r == (precision_rank(self) >= precision_rank(DatePrecision::Month)),
    {
        rank(self) >= 4
    }

    pub fn includes_day(self) -> (r: bool)
        ensures
            r == (precision_rank(self) >= precision_rank(DatePrecision::Day)),
    {
        rank(self) >= 5
    }

    pub fn includes_hour(self) -> (r: bool)
        ensures
            r == (precision_rank(self) >= precision_rank(DatePrecision::Hour)),
    {
        rank(self) >= 6
    }

    pub fn includes_minute(self) -> (r: bool)
        ensures
            r == (precision_rank(self) >= precision_rank(DatePrecision::Minute)),
    {
        rank(self) >= 7
    }

    pub fn includes_second(self) -> (r: bool)
        ensures
            r == (precision_rank(self) >= precision_rank(DatePrecision::Second)),
    {
        rank(self) >= 8
    }
}

/// Calendar model attached to a historical date.
#[derive(Debug, PartialEq, Eq)]
pub enum CalendarModel {
    Gregorian,
    Julian,
    Other(String),
}

impl Clone for CalendarModel {
    fn clone(&self) -> (r: Self)
        ensures
            r == *self,
    {
        match self {
            CalendarModel::Gregorian => CalendarModel::Gregorian,
            CalendarModel::Julian => CalendarModel::Julian,
            CalendarModel::Other(s) => CalendarModel::Other(s.clone()),
        }
    }
}

impl Default for CalendarModel {
    fn default() -> (r: Self)
        ensures
            r == CalendarModel::Gregorian,
    {
        CalendarModel::Gregorian
    }
}

/// A historical date/time with explicit precision and calendar.
///
/// A value like "1983" or "1800s" is a precise assertion at year/century
/// precision, not a full day that should be coerced to `1983-01-01`.
#[derive(Debug, PartialEq, Eq)]
pub struct HistoricalDate {
    pub year: i32,
    pub month: Option<u8>,
    pub day: Option<u8>,
    pub hour: Option<u8>,
    pub minute: Option<u8>,
    pub second: Option<u8>,
    pub precision: DatePrecision,
    pub calendar: CalendarModel,
    /// Source timestamp text, when the date was parsed from such a value.
    pub source_time: Option<String>,
}

impl Clone for HistoricalDate {
    fn clone(&self) -> (r: Self)
        ensures
            r == *self,
    {
        HistoricalDate {
            year: self.year,
            month: self.month,
            day: self.day,
            hour: self.hour,
            minute: self.minute,
            second: self.second,
            precision: self.precision,
            calendar: self.calendar.clone(),
            source_time: match &self.source_time {
                Some(t) => Some(t.clone()),
                None => None,
            },
        }
    }
}

#[derive(Debug, Clone, PartialEq, Eq)]
pub enum HistoricalDateParseError {
    EmptyTime,
    MissingSign,
    InvalidYear,
    InvalidComponent(&'static str),
    UnsupportedPrecision(i32),
}

/// Size of the year bucket that a coarse precision names (1 otherwise).
pub open spec fn bucket_size(p: DatePrecision) -> int {
    match p {
        DatePrecision::Millennium => 1000,
        DatePrecision::Century => 100,
        DatePrecision::Decade => 10,
        _ => 1,
    }
}

/// First year of the bucket holding `year` (Euclidean division).
pub open spec fn spec_bucket_start(year: int, size: int) -> int {
    (year / size) * size
}

pub open spec fn is_bucket_precision(p: DatePrecision) -> bool {
    p == DatePrecision::Millennium || p == DatePrecision::Century || p == DatePrecision::Decade
}

/// Earliest and latest year covered by a date of this precision.
pub open spec fn spec_year_bounds(year: int, p: DatePrecision) -> (int, int) {
    if is_bucket_precision(p) {
        let start = spec_bucket_start(year, bucket_size(p));
        (start, start + bucket_size(p) - 1)
    } else {
        (year, year)
    }
}

pub open spec fn fits_i32(x: int) -> bool {
    i32::MIN <= x <= i32::MAX
}

/// The text of a year: four digits (with a leading `-` before year 0) within
/// `-9999..=9999`, the plain number otherwise.
pub open spec fn year_text(y: int) -> Seq<char> {
    if -9999 <= y < 0 {
        seq!['-'] + zero_pad(decimal((-y) as nat), 4)
    } else if 0 <= y <= 9999 {
        zero_pad(decimal(y as nat), 4)
    } else if y < 0 {
        seq!['-'] + decimal((-y) as nat)
    } else {
        decimal(y as nat)
    }
}

pub open spec fn two_digits(v: Option<u8>) -> Seq<char> {
    zero_pad(decimal(v.unwrap_or(0u8) as nat), 2)
}

impl HistoricalDate {
    pub open spec fn spec_new(year: i32, precision: DatePrecision, calendar: CalendarModel) -> Self {
        HistoricalDate {
            year,
            month: None,
            day: None,
            hour: None,
            minute: None,
            second: None,
            precision,
            calendar,
            source_time: None,
        }
    }

    /// The bucket start of a coarse precision fits an `i32`.
    pub open spec fn bucket_start_fits(&self) -> bool {
        fits_i32(spec_year_bounds(self.year as int, self.precision).0)
    }

    /// Both ends of the covered year range fit an `i32`.
    pub open spec fn year_bounds_fit(&self) -> bool {
        fits_i32(spec_year_bounds(self.year as int, self.precision).0) && fits_i32(
            spec_year_bounds(self.year as int, self.precision).1,
        )
    }

    pub open spec fn spec_year_range(&self) -> DateRange {
        DateRange::spec_from_years(
            Some(spec_year_bounds(self.year as int, self.precision).0 as i32),
            Some(spec_year_bounds(self.year as int, self.precision).1 as i32),
        )
    }

    /// Precision-aware text that never fills missing parts with placeholders.
    pub open spec fn spec_display(&self) -> Seq<char> {
        let y = year_text(self.year as int);
        match self.precision {
            DatePrecision::Millennium | DatePrecision::Century | DatePrecision::Decade => year_text(
                spec_year_bounds(self.year as int, self.precision).0,
            ) + seq!['s'],
            DatePrecision::Year => y,
            DatePrecision::Month => y + seq!['-'] + two_digits(self.month),
            DatePrecision::Day => y + seq!['-'] + two_digits(self.month) + seq!['-'] + two_digits(
                self.day,
            ),
            DatePrecision::Hour => y + seq!['-'] + two_digits(self.month) + seq!['-'] + two_digits(
                self.day,
            ) + seq![' '] + two_digits(self.hour),
            DatePrecision::Minute => y + seq!['-'] + two_digits(self.month) + seq!['-']
                + two_digits(self.day) + seq![' '] + two_digits(self.hour) + seq![':'] + two_digits(
                self.minute,
            ),
            DatePrecision::Second => y + seq!['-'] + two_digits(self.month) + seq!['-']
                + two_digits(self.day) + seq![' '] + two_digits(self.hour) + seq![':'] + two_digits(
                self.minute,
            ) + seq![':'] + two_digits(self.second),
        }
    }

    pub fn new(year: i32, precision: DatePrecision, calendar: CalendarModel) -> (r: Self)
        ensures
            r == Self::spec_new(year, precision, calendar),
    {
        Self {
            year,
            month: None,
            day: None,
            hour: None,
            minute: None,
            second: None,
            precision,
            calendar,
            source_time: None,
        }
    }

    /// Year range used for coarse indexing/searching.
    ///
    /// Century/decade/millennium precision is a bucket starting at the
    /// bucket boundary (`1800s` => `1800..=1899`).
    pub fn year_range(&self) -> (r: DateRange)
        requires
            self.year_bounds_fit(),
        ensures
            r == self.spec_year_range(),
    {
        let (earliest, latest) = year_bounds(self.year, self.precision);
        DateRange::from_years(Some(earliest), Some(latest))
    }

    /// Precision-aware display that never fills missing components with
    /// January/1st/midnight placeholders.
    pub fn display(&self) -> (r: String)
        requires
            self.bucket_start_fits(),
        ensures
            r@ == self.spec_display(),
    {
        let y = format_year(self.year);
        match self.precision {
            DatePrecision::Millennium | DatePrecision::Century | DatePrecision::Decade => {
                let start = bucket_start(self.year, self.precision);
                let mut r = format_year(start);
                push_char(&mut r, 's');
                r
            },
            DatePrecision::Year => y,
            DatePrecision::Month => {
                let mut r = y;
                push_char(&mut r, '-');
                r.append(pad2(self.month).as_str());
                r
            },
            DatePrecision::Day => {
                let mut r = y;
                push_char(&mut r, '-');
                r.append(pad2(self.month).as_str());
                push_char(&mut r, '-');
                r.append(pad2(self.day).as_str());
                r
            },
            DatePrecision::Hour => {
                let mut r = y;
                push_char(&mut r, '-');
                r.append(pad2(self.month).as_str());
                push_char(&mut r, '-');
                r.append(pad2(self.day).as_str());
                push_char(&mut r, ' ');
                r.append(pad2(self.hour).as_str());
                r
            },
            DatePrecision::Minute => {
                let mut r = y;
                push_char(&mut r, '-');
                r.append(pad2(self.month).as_str());
                push_char(&mut r, '-');
                r.append(pad2(self.day).as_str());
                push_char(&mut r, ' ');
                r.append(pad2(self.hour).as_str());
                push_char(&mut r, ':');
                r.append(pad2(self.minute).as_str());
                r
            },
            DatePrecision::Second => {
                let mut r = y;
                push_char(&mut r, '-');
                r.append(pad2(self.month).as_str());
                push_char(&mut r, '-');
                r.append(pad2(self.day).as_str());
                push_char(&mut r, ' ');
                r.append(pad2(self.hour).as_str());
                push_char(&mut r, ':');
                r.append(pad2(self.minute).as_str());
                push_char(&mut r, ':');
                r.append(pad2(self.second).as_str());
                r
            },
        }
    }
}

fn pad2(v: Option<u8>) -> (r: String)
    ensures
        r@ == two_digits(v),
{
    let n: u8 = match v {
        Some(x) => x,
        None => 0,
    };
    u64_zero_padded(n as u64, 2)
}

fn bucket_len(p: DatePrecision) -> (r: i32)
    ensures
        r == bucket_size(p),
{
    match p {
        DatePrecision::Millennium => 1000,
        DatePrecision::Century => 100,
        DatePrecision::Decade => 10,
        _ => 1,
    }
}

/// First year of the bucket that holds `year`.
fn bucket_start(year: i32, p: DatePrecision) -> (r: i32)
    requires
        is_bucket_precision(p),
        fits_i32(spec_year_bounds(year as int, p).0),
    ensures
        r == spec_year_bounds(year as int, p).0,
{
    let size = bucket_len(p);
    let q = year.checked_div_euclid(size);
    proof {
        assert(size > 0);
        let qi = year as int / size as int;
        assert(qi * size as int <= year as int) by (nonlinear_arith)
            requires
                size > 0,
                qi == year as int / size as int,
        ;
        assert(qi * size as int > year as int - size as int) by (nonlinear_arith)
            requires
                size > 0,
                qi == year as int / size as int,
        ;
        assert(i32::MIN <= qi <= i32::MAX) by (nonlinear_arith)
            requires
                size >= 10,
                qi * size as int <= year as int,
                qi * size as int > year as int - size as int,
                i32::MIN <= year <= i32::MAX,
        ;
    }
    let q = q.unwrap();
    q * size
}

fn year_bounds(year: i32, p: DatePrecision) -> (r: (i32, i32))
    requires
        fits_i32(spec_year_bounds(year as int, p).0),
        fits_i32(spec_year_bounds(year as int, p).1),
    ensures
        r.0 == spec_year_bounds(year as int, p).0,
        r.1 == spec_year_bounds(year as int, p).1,
{
    match p {
        DatePrecision::Millennium | DatePrecision::Century | DatePrecision::Decade => {
            let start = bucket_start(year, p);
            let size = bucket_len(p);
            (start, start + (size - 1))
        },
        _ => (year, year),
    }
}

/// The text of a year, four digits wide inside `-9999..=9999`.
fn format_year(year: i32) -> (r: String)
    ensures
        r@ == year_text(year as int),
{
    if -9999 <= year && year < 0 {
        let a: u64 = (0 - year) as u64;
        let mut r = String::new();
        push_char(&mut r, '-');
        r.append(u64_zero_padded(a, 4).as_str());
        r
    } else if 0 <= year && year <= 9999 {
        u64_zero_padded(year as u64, 4)
    } else if year < 0 {
        let a: u64 = (0 - (year as i64)) as u64;
        let mut r = String::new();
        push_char(&mut r, '-');
        r.append(u64_to_decimal(a).as_str());
        r
    } else {
        u64_to_decimal(year as u64)
    }
}

/// The order in which the parts of a name are written.
#[derive(Debug, PartialEq, Eq)]
pub struct NameOrder(pub String);

impl Clone for NameOrder {
    fn clone(&self) -> (r: Self)
        ensures
            r == *self,
    {
        NameOrder(self.0.clone())
    }
}

#[derive(Debug, Clone, PartialEq, Eq)]
pub struct Name {
    /// What the name is used as (`preferred`, `legal`, ...), when known.
    pub usage: Option<String>,
    pub display: String,
    /// The full name as written, when given.
    pub full: Option<String>,
    pub given: Option<String>,
    pub middle: Option<String>,
    pub surname: Option<String>,
    /// How the parts are ordered, when known.
    pub order: Option<NameOrder>,
    /// Alternate spellings, maiden names, etc.
    pub aliases: Vec<String>,
    /// Source/provenance for this name assertion.
    pub provenance: Provenance,
}

#[derive(Debug, PartialEq, Eq)]
pub struct DateRange {
    pub earliest_year: Option<i32>,
    pub latest_year: Option<i32>,
    /// Parsed lower bound, open-ended (`None`) for values like `BEF 1900`.
    pub start: Option<HistoricalDate>,
    /// Parsed upper bound, open-ended (`None`) for values like `AFT 1900`.
    pub end: Option<HistoricalDate>,
}

impl Clone for DateRange {
    fn clone(&self) -> (r: Self)
        ensures
            r == *self,
    {
        DateRange {
            earliest_year: self.earliest_year,
            latest_year: self.latest_year,
            start: match &self.start {
                Some(d) => Some(d.clone()),
                None => None,
            },
            end: match &self.end {
                Some(d) => Some(d.clone()),
                None => None,
            },
        }
    }
}

pub open spec fn year_date(y: Option<i32>) -> Option<HistoricalDate> {
    match y {
        Some(year) => Some(
            HistoricalDate::spec_new(year, DatePrecision::Year, CalendarModel::Gregorian),
        ),
        None => None,
    }
}

impl DateRange {
    pub open spec fn spec_from_years(earliest_year: Option<i32>, latest_year: Option<i32>) -> Self {
        DateRange {
            earliest_year,
            latest_year,
            start: year_date(earliest_year),
            end: year_date(latest_year),
        }
    }

    pub fn from_years(earliest_year: Option<i32>, latest_year: Option<i32>) -> (r: Self)
        ensures
            r == Self::spec_from_years(earliest_year, latest_year),
    {
        let start = match earliest_year {
            Some(year) => Some(
                HistoricalDate::new(year, DatePrecision::Year, CalendarModel::Gregorian),
            ),
            None => None,
        };
        let end = match latest_year {
            Some(year) => Some(
                HistoricalDate::new(year, DatePrecision::Year, CalendarModel::Gregorian),
            ),
            None => None,
        };
        Self { earliest_year, latest_year, start, end }
    }

    /// Years of a range built from parsed bounds: the earliest year of the
    /// start bound and the latest year of the end bound.
    pub fn from_bounds(start: Option<HistoricalDate>, end: Option<HistoricalDate>) -> (r: Self)
        requires
            start matches Some(d) ==> d.year_bounds_fit(),
            end matches Some(d) ==> d.year_bounds_fit(),
        ensures
            r.start == start,
            r.end == end,
            r.earliest_year == (match start {
                Some(d) => Some(spec_year_bounds(d.year as int, d.precision).0 as i32),
                None => None,
            }),
            r.latest_year == (match end {
                Some(d) => Some(spec_year_bounds(d.year as int, d.precision).1 as i32),
                None => None,
            }),
    {
        let earliest_year = match &start {
            Some(d) => d.year_range().earliest_year,
            None => None,
        };
        let latest_year = match &end {
            Some(d) => d.year_range().latest_year,
            None => None,
        };
        Self { earliest_year, latest_year, start, end }
    }
}

#[derive(Debug, PartialEq, Eq)]
pub struct DateValue {
    pub original: String,
    /// Precision-aware parsed historical date/time, when available.
    pub historical: Option<HistoricalDate>,
    /// Parsed approximation used for indexing.
    pub range: Option<DateRange>,
    pub provenance: Provenance,
}

/// Two date values agree in every field, provenance compared by contents.
pub open spec fn same_date_value(a: DateValue, b: DateValue) -> bool {
    &&& a.original == b.original
    &&& a.historical == b.historical
    &&& a.range == b.range
    &&& a.provenance.sources@ == b.provenance.sources@
    &&& a.provenance.tags@ == b.provenance.tags@
}

impl Clone for DateValue {
    fn clone(&self) -> (r: Self)
        ensures
            same_date_value(r, *self),
    {
        DateValue {
            original: self.original.clone(),
            historical: match &self.historical {
                Some(h) => Some(h.clone()),
                None => None,
            },
            range: match &self.range {
                Some(d) => Some(d.clone()),
                None => None,
            },
            provenance: self.provenance.clone(),
        }
    }
}

impl DateValue {
    pub open spec fn spec_original_range(original: Seq<char>) -> Option<DateRange> {
        match spec_parse_year(original) {
            Some(y) => Some(DateRange::spec_from_years(Some(y), Some(y))),
            None => None,
        }
    }

    /// A date kept as its source text, with a year range when a year can be read.
    pub fn from_original(original: String, provenance: Provenance) -> (r: Self)
        ensures
            r.original@ == original@,
            r.historical.is_none(),
            r.range == Self::spec_original_range(original@),
            r.provenance == provenance,
    {
        let year = parse_year_from_genealogy_date(original.as_str());
        let range = match year {
            Some(y) => Some(DateRange::from_years(Some(y), Some(y))),
            None => None,
        };
        Self { original, historical: None, range, provenance }
    }

    /// A date built from a parsed historical date.
    pub fn from_historical(historical: HistoricalDate, provenance: Provenance) -> (r: Self)
        requires
            historical.year_bounds_fit(),
        ensures
            r.original@ == (match historical.source_time {
                Some(t) => t@,
                None => historical.spec_display(),
            }),
            r.historical == Some(historical),
            r.range == Some(historical.spec_year_range()),
            r.provenance == provenance,
    {
        let original = match &historical.source_time {
            Some(t) => t.clone(),
            None => historical.display(),
        };
        let range = Some(historical.year_range());
        Self { original, historical: Some(historical), range, provenance }
    }

    pub open spec fn spec_display(&self) -> Seq<char> {
        match self.historical {
            Some(h) => h.spec_display(),
            None => self.original@,
        }
    }

    pub fn display(&self) -> (r: String)
        requires
            self.historical matches Some(h) ==> h.bucket_start_fits(),
        ensures
            r@ == self.spec_display(),
    {
        match &self.historical {
            Some(h) => h.display(),
            None => self.original.clone(),
        }
    }
}

#[derive(Debug, Clone, PartialEq, Eq)]
pub struct Family {
    pub id: FamilyId,
    pub spouses: Vec<PersonId>,
    pub children: Vec<PersonId>,
    pub events: Vec<EventId>,
    pub provenance: Provenance,
}

#[derive(Debug, Clone, PartialEq, Eq)]
pub struct Note {
    pub id: NoteId,
    pub text: String,
    pub copyright: Option<String>,
    pub provenance: Provenance,
}

#[derive(Debug, Clone, PartialEq, Eq)]
pub struct Person {
    pub id: PersonId,
    pub names: Vec<Name>,
    pub sex: Option<Sex>,
    pub events: Vec<EventId>,
    pub families_as_child: Vec<FamilyId>,
    pub families_as_spouse: Vec<FamilyId>,
    pub notes: Vec<NoteId>,
    /// Primary source record id, when imported from a single upstream record.
    pub source_record: Option<SourceRef>,
    pub provenance: Provenance,
}

/// Token postings, one entry per token, each listing record indexes.
#[derive(Debug, Clone, PartialEq, Eq)]
pub struct SearchIndex {
    pub postings: Vec<(String, Vec<u32>)>,
}

/// Record indexes of events, per year.
#[derive(Debug, Clone, PartialEq, Eq)]
pub struct DateIndex {
    pub events_by_year: HashMap<i32, Vec<u32>>,
}

#[derive(Debug, Clone, PartialEq, Eq)]
pub struct PersonRelations {
    pub person_id: PersonId,
    pub parents: Vec<PersonId>,
    pub spouses: Vec<PersonId>,
    pub children: Vec<PersonId>,
    pub siblings: Vec<PersonId>,
}

#[derive(Debug, Clone, PartialEq, Eq)]
pub struct SearchIndexArchive {
    pub postings: Vec<(String, Vec<u32>)>,
}

#[derive(Debug, Clone, PartialEq, Eq)]
pub struct DateIndexArchive {
    pub events_by_year: Vec<(i32, Vec<u32>)>,
}

fn copy_u32s(v: &Vec<u32>) -> (r: Vec<u32>)
    ensures
        r@ == v@,
{
    let mut r: Vec<u32> = Vec::new();
    let mut i: usize = 0;
    while i < v.len()
        invariant
            i <= v@.len(),
            r@ == v@.take(i as int),
        decreases v@.len() - i,
    {
        r.push(v[i]);
        i = i + 1;
        assert(r@ =~= v@.take(i as int));
    }
    assert(v@.take(v@.len() as int) =~= v@);
    r
}

/// The posting list stored for `token`, the last entry for it winning.
pub open spec fn lookup_posting(p: Seq<(String, Vec<u32>)>, token: Seq<char>) -> Option<Seq<u32>>
    decreases p.len(),
{
    if p.len() == 0 {
        None
    } else if p.last().0@ == token {
        Some(p.last().1@)
    } else {
        lookup_posting(p.drop_last(), token)
    }
}

pub open spec fn distinct_tokens(p: Seq<(String, Vec<u32>)>) -> bool {
    forall|i: int, j: int| 0 <= i < j < p.len() ==> p[i].0@ != p[j].0@
}

/// A posting list after recording `record`: appended unless it is already last.
pub open spec fn posted(list: Seq<u32>, record: u32) -> Seq<u32> {
    if list.len() > 0 && list.last() == record {
        list
    } else {
        list.push(record)
    }
}

/// Record indices listed in strictly increasing order.
pub open spec fn strictly_increasing(list: Seq<u32>) -> bool {
    forall|i: int, j: int| 0 <= i < j < list.len() ==> list[i] < list[j]
}

/// Posting records in the order they are read keeps every posting list
/// strictly increasing: a record index no smaller than those listed leaves
/// the list strictly increasing, and ends it.
pub proof fn law_posting_keeps_order(list: Seq<u32>, record: u32)
    requires
        strictly_increasing(list),
        forall|i: int| 0 <= i < list.len() ==> list[i] <= record,
    ensures
        strictly_increasing(posted(list, record)),
        posted(list, record).last() == record,
{
}

proof fn lemma_lookup_found(p: Seq<(String, Vec<u32>)>, i: int)
    requires
        distinct_tokens(p),
        0 <= i < p.len(),
    ensures
        lookup_posting(p, p[i].0@) == Some(p[i].1@),
    decreases p.len(),
{
    if i < p.len() - 1 {
        assert(p.last().0@ != p[i].0@);
        assert(p.drop_last()[i] == p[i]);
        lemma_lookup_found(p.drop_last(), i);
    }
}

proof fn lemma_lookup_absent(p: Seq<(String, Vec<u32>)>, token: Seq<char>)
    requires
        forall|j: int| 0 <= j < p.len() ==> (#[trigger] p[j]).0@ != token,
    ensures
        lookup_posting(p, token).is_none(),
    decreases p.len(),
{
    if p.len() > 0 {
        assert(p.last() == p[p.len() - 1]);
        assert forall|j: int| 0 <= j < p.drop_last().len() implies (#[trigger] p.drop_last()[j]).0@ != token by {
            assert(p.drop_last()[j] == p[j]);
        }
        lemma_lookup_absent(p.drop_last(), token);
    }
}

proof fn lemma_lookup_update(
    p: Seq<(String, Vec<u32>)>,
    i: int,
    e: (String, Vec<u32>),
    token: Seq<char>,
)
    requires
        0 <= i < p.len(),
        e.0@ == p[i].0@,
        distinct_tokens(p),
    ensures
        lookup_posting(p.update(i, e), token) == (if token == e.0@ {
            Some(e.1@)
        } else {
            lookup_posting(p, token)
        }),
    decreases p.len(),
{
    let q = p.update(i, e);
    if i == p.len() - 1 {
        assert(q.drop_last() =~= p.drop_last());
        if token != e.0@ {
        }
    } else {
        assert(q.drop_last() =~= p.drop_last().update(i, e));
        assert(q.last() == p.last());
        assert(p.drop_last()[i] == p[i]);
        if p.last().0@ == token {
            assert(token != e.0@);
        } else {
            lemma_lookup_update(p.drop_last(), i, e, token);
        }
    }
}

proof fn lemma_lookup_push(p: Seq<(String, Vec<u32>)>, e: (String, Vec<u32>), token: Seq<char>)
    ensures
        lookup_posting(p.push(e), token) == (if token == e.0@ {
            Some(e.1@)
        } else {
            lookup_posting(p, token)
        }),
{
    assert(p.push(e).drop_last() =~= p);
}

impl SearchIndex {
    pub open spec fn wf(&self) -> bool {
        distinct_tokens(self.postings@)
    }

    pub open spec fn spec_lookup(&self, token: Seq<char>) -> Option<Seq<u32>> {
        lookup_posting(self.postings@, token)
    }

    pub fn new() -> (r: Self)
        ensures
            r.wf(),
            forall|t: Seq<char>| r.spec_lookup(t).is_none(),
    {
        SearchIndex { postings: Vec::new() }
    }

    /// Records `record_index` under `token`, unless it is already the last
    /// record listed for that token.
    pub fn insert(&mut self, token: String, record_index: u32)
        requires
            old(self).wf(),
        ensures
            final(self).wf(),
            final(self).spec_lookup(token@) == Some(
                posted(
                    match old(self).spec_lookup(token@) {
                        Some(l) => l,
                        None => Seq::<u32>::empty(),
                    },
                    record_index,
                ),
            ),
            forall|t: Seq<char>|
                t != token@ ==> #[trigger] final(self).spec_lookup(t) == old(self).spec_lookup(t),
    {
        let n = self.postings.len();
        let mut i: usize = 0;
        while i < n
            invariant
                n == self.postings@.len(),
                i <= n,
                forall|j: int| 0 <= j < i ==> (#[trigger] self.postings@[j]).0@ != token@,
                distinct_tokens(self.postings@),
                self.postings@ == old(self).postings@,
            decreases n - i,
        {
            if crate::text::str_eq(self.postings[i].0.as_str(), token.as_str()) {
                let ghost p = self.postings@;
                proof {
                    lemma_lookup_found(p, i as int);
                }
                let key = self.postings[i].0.clone();
                let mut list = copy_u32s(&self.postings[i].1);
                let len = list.len();
                if len == 0 || list[len - 1] != record_index {
                    list.push(record_index);
                }
                let entry = (key, list);
                let ghost e = entry;
                self.postings.set(i, entry);
                proof {
                    assert(self.postings@ == p.update(i as int, e));
                    assert forall|t: Seq<char>| #[trigger] lookup_posting(self.postings@, t) == (if t
                        == e.0@ {
                        Some(e.1@)
                    } else {
                        lookup_posting(p, t)
                    }) by {
                        lemma_lookup_update(p, i as int, e, t);
                    }
                    assert forall|a: int, b: int| 0 <= a < b < self.postings@.len() implies self.postings@[a].0@
                        != self.postings@[b].0@ by {
                        if a == i || b == i {
                        }
                    }
                }
                return;
            }
            i = i + 1;
        }
        let ghost p = self.postings@;
        proof {
            lemma_lookup_absent(p, token@);
        }
        let mut list: Vec<u32> = Vec::new();
        list.push(record_index);
        let ghost e = (token, list);
        self.postings.push((token, list));
        proof {
            assert(self.postings@ == p.push(e));
            assert forall|t: Seq<char>| #[trigger] lookup_posting(self.postings@, t) == (if t == e.0@ {
                Some(e.1@)
            } else {
                lookup_posting(p, t)
            }) by {
                lemma_lookup_push(p, e, t);
            }
            assert(e.1@ =~= Seq::<u32>::empty().push(record_index));
            assert forall|a: int, b: int| 0 <= a < b < self.postings@.len() implies self.postings@[a].0@
                != self.postings@[b].0@ by {
                if b == p.len() {
                    assert(self.postings@[a] == p[a]);
                    assert(p[a].0@ != token@);
                }
            }
        }
    }

    /// Lower-cased alphanumeric runs of `s`, in order.
    pub fn tokenize(s: &str) -> (r: Vec<String>)
        ensures
            r@.map_values(|t: String| t@) == spec_tokens(s@),
    {
        let n = s.unicode_len();
        let mut done: Vec<String> = Vec::new();
        let mut cur = String::new();
        let mut i: usize = 0;
        while i < n
            invariant
                n == s@.len(),
                i <= n,
                (done@.map_values(|t: String| t@), cur@) == token_state(s@.take(i as int)),
            decreases n - i,
        {
            let c = s.get_char(i);
            let ghost prev_done = done@;
            assert(s@.take(i + 1).drop_last() =~= s@.take(i as int));
            assert(s@.take(i + 1).last() == c);
            if char_is_alphanumeric(c) {
                push_char(&mut cur, to_ascii_lower(c));
            } else if cur.as_str().unicode_len() > 0 {
                let ghost cv = cur@;
                done.push(cur);
                cur = String::new();
                assert(done@.map_values(|t: String| t@) =~= prev_done.map_values(|t: String| t@).push(cv));
            } else {
                cur = String::new();
            }
            i = i + 1;
        }
        assert(s@.take(n as int) =~= s@);
        if cur.as_str().unicode_len() > 0 {
            let ghost prev_done = done@;
            let ghost cv = cur@;
            done.push(cur);
            assert(done@.map_values(|t: String| t@) =~= prev_done.map_values(|t: String| t@).push(cv));
        }
        done
    }
}

/// Tokens finished so far and the token being read, after reading `s`.
pub open spec fn token_state(s: Seq<char>) -> (Seq<Seq<char>>, Seq<char>)
    decreases s.len(),
{
    if s.len() == 0 {
        (seq![], seq![])
    } else {
        let prev = token_state(s.drop_last());
        let c = s.last();
        if unicode_alphanumeric(c) {
            (prev.0, prev.1.push(ascii_lower(c)))
        } else if prev.1.len() > 0 {
            (prev.0.push(prev.1), seq![])
        } else {
            (prev.0, seq![])
        }
    }
}

/// The tokens of `s`: maximal alphanumeric runs, ASCII letters lower-cased.
pub open spec fn spec_tokens(s: Seq<char>) -> Seq<Seq<char>> {
    let st = token_state(s);
    if st.1.len() > 0 {
        st.0.push(st.1)
    } else {
        st.0
    }
}

/// The first run of ASCII digits (at most four) of `t`, after `acc`.
pub open spec fn digit_run(t: Seq<char>, acc: Seq<char>) -> Seq<char>
    decreases t.len(),
{
    if t.len() == 0 {
        acc
    } else if is_ascii_digit(t[0]) {
        if acc.len() + 1 >= 4 {
            acc.push(t[0])
        } else {
            digit_run(t.drop_first(), acc.push(t[0]))
        }
    } else if acc.len() > 0 {
        acc
    } else {
        digit_run(t.drop_first(), acc)
    }
}

pub open spec fn digit_value(c: char) -> int {
    (c as u32) as int - 48
}

/// The year that [`parse_year_from_genealogy_date`] reads from `s`.
pub open spec fn spec_parse_year(s: Seq<char>) -> Option<i32> {
    let t = trim_seq(s);
    let d = digit_run(t, seq![]);
    if t.len() == 0 || d.len() != 4 {
        None
    } else {
        Some(
            (digit_value(d[0]) * 1000 + digit_value(d[1]) * 100 + digit_value(d[2]) * 10
                + digit_value(d[3])) as i32,
        )
    }
}

proof fn lemma_digit_run_len(t: Seq<char>, acc: Seq<char>)
    requires
        acc.len() < 4,
    ensures
        digit_run(t, acc).len() <= 4,
        digit_run(t, acc).len() >= acc.len(),
        digit_run(t, acc).take(acc.len() as int) == acc,
        forall|j: int| acc.len() <= j < digit_run(t, acc).len() ==> is_ascii_digit(#[trigger] digit_run(t, acc)[j]),
    decreases t.len(),
{
    if t.len() > 0 {
        if is_ascii_digit(t[0]) {
            if acc.len() + 1 >= 4 {
                assert(acc.push(t[0]).take(acc.len() as int) =~= acc);
            } else {
                lemma_digit_run_len(t.drop_first(), acc.push(t[0]));
                let r = digit_run(t, acc);
                assert(r.take((acc.len() + 1) as int)[acc.len() as int] == r[acc.len() as int]);
                assert(acc.push(t[0])[acc.len() as int] == t[0]);
                assert(r.take(acc.len() as int) =~= r.take((acc.len() + 1) as int).take(acc.len() as int));
                assert(acc.push(t[0]).take(acc.len() as int) =~= acc);
            }
        } else if acc.len() == 0 {
            lemma_digit_run_len(t.drop_first(), acc);
        } else {
            assert(acc.take(acc.len() as int) =~= acc);
        }
    } else {
        assert(acc.take(acc.len() as int) =~= acc);
    }
}

/// Very small helper used by importers to build an approximate year index.
///
/// Accepts strings like "YYYY/MM/DD" or "YYYY-MM-DD": the first run of
/// digits is read, and a run of four digits gives the year.
pub fn parse_year_from_genealogy_date(s: &str) -> (r: Option<i32>)
    ensures
        r == spec_parse_year(s@),
{
    let t = trim(s);
    let n = t.as_str().unicode_len();
    if n == 0 {
        return None;
    }
    let mut digits = String::new();
    let mut value: u32 = 0;
    let mut i: usize = 0;
    let mut stop = false;
    assert(t@.skip(0) =~= t@);
    while i < n && !stop
        invariant
            n == t@.len(),
            i <= n,
            digits@.len() < 4 || stop,
            !stop ==> digit_run(t@, seq![]) == digit_run(t@.skip(i as int), digits@),
            stop ==> digit_run(t@, seq![]) == digits@,
            digits@.len() <= 4,
            forall|j: int| 0 <= j < digits@.len() ==> is_ascii_digit(#[trigger] digits@[j]),
            value == (if digits@.len() == 0 {
                0
            } else if digits@.len() == 1 {
                digit_value(digits@[0])
            } else if digits@.len() == 2 {
                digit_value(digits@[0]) * 10 + digit_value(digits@[1])
            } else if digits@.len() == 3 {
                digit_value(digits@[0]) * 100 + digit_value(digits@[1]) * 10 + digit_value(digits@[2])
            } else {
                digit_value(digits@[0]) * 1000 + digit_value(digits@[1]) * 100 + digit_value(
                    digits@[2],
                ) * 10 + digit_value(digits@[3])
            }),
        decreases n - i, (if stop { 0int } else { 1int }),
    {
        let c = t.as_str().get_char(i);
        let ghost rest = t@.skip(i as int);
        assert(rest[0] == c);
        assert(rest.drop_first() =~= t@.skip(i + 1));
        if '0' <= c && c <= '9' {
            let d: u32 = c as u32 - 48;
            let ghost old_digits = digits@;
            push_char(&mut digits, c);
            value = value * 10 + d;
            if digits.as_str().unicode_len() == 4 {
                stop = true;
            }
            i = i + 1;
        } else if digits.as_str().unicode_len() > 0 {
            stop = true;
        } else {
            i = i + 1;
        }
    }
    if !stop {
        assert(t@.skip(i as int).len() == 0);
    }
    if digits.as_str().unicode_len() == 4 {
        Some(value as i32)
    } else {
        None
    }
}

} // verus!
