//! The tables in which the tester reports its results.

use vstd::prelude::*;

use crate::numbers::{decimal, decimal_is_digits, decimal_reads_back, number_in, parse_number};
use crate::outside::{lowercase, to_lowercase};
use crate::text::{
    byte_len, bytes_in, contains, ends, ends_with, holds_text, keep, kept, lines, lines_of,
    opt_text, pieces, replace, replaced, same, strip_prefix, texts, to_chars, trim, trim_of,
    trimmed, trimmed_of, after_prefix, find_from, lemma_find_from, occurs_at,
};

verus! {

pub const DIGITS: [char; 10] = ['0', '1', '2', '3', '4', '5', '6', '7', '8', '9'];

pub const DIGITS_AND_POINT: [char; 11] = [
    '0', '1', '2', '3', '4', '5', '6', '7', '8', '9', '.',
];

pub const QUOTE: [char; 1] = ['"'];

// ---------------------------------------------------------------------------
// Lines and columns
// ---------------------------------------------------------------------------

/// How often `c` stands in `s`.
pub open spec fn count_of(s: Seq<char>, c: char) -> nat
    decreases s.len(),
{
    if s.len() == 0 {
        0
    } else {
        count_of(s.drop_last(), c) + (if s.last() == c {
            1nat
        } else {
            0nat
        })
    }
}

/// The delimiter of a table with this header: a semicolon where there are more
/// semicolons than commas, else a comma.
pub open spec fn delimiter_of(header: Seq<char>) -> char {
    if count_of(header, ';') > count_of(header, ',') {
        ';'
    } else {
        ','
    }
}

/// The columns of a line from position `i` on, where `current` is what the
/// column at hand holds so far. Within quotes a delimiter is text, and a
/// doubled quote is one quote.
pub open spec fn columns_from(
    s: Seq<char>,
    delimiter: char,
    i: int,
    quoted: bool,
    current: Seq<char>,
) -> Seq<Seq<char>>
    decreases s.len() - i,
{
    if i < 0 || i >= s.len() {
        seq![current]
    } else if s[i] == '"' {
        if quoted && i + 1 < s.len() && s[i + 1] == '"' {
            columns_from(s, delimiter, i + 2, quoted, current.push('"'))
        } else {
            columns_from(s, delimiter, i + 1, !quoted, current)
        }
    } else if s[i] == delimiter && !quoted {
        seq![current] + columns_from(s, delimiter, i + 1, quoted, Seq::empty())
    } else {
        columns_from(s, delimiter, i + 1, quoted, current.push(s[i]))
    }
}

/// The columns of a line.
pub open spec fn columns_of(s: Seq<char>, delimiter: char) -> Seq<Seq<char>> {
    columns_from(s, delimiter, 0, false, Seq::empty())
}

fn count_char(s: &str, c: char) -> (r: usize)
    ensures
        r == count_of(s@, c),
{
    let sc = to_chars(s);
    let mut n: usize = 0;
    for i in 0..sc.len()
        invariant
            sc@ == s@,
            n <= i,
            n == count_of(s@.take(i as int), c),
    {
        assert(s@.take(i + 1).drop_last() =~= s@.take(i as int));
        if sc[i] == c {
            n += 1;
        }
    }
    assert(s@.take(s@.len() as int) =~= s@);
    n
}

/// The delimiter of a table with this header: a semicolon where there are more
/// semicolons than commas, else a comma.
pub fn detect_csv_delimiter(line: &str) -> (r: char)
    ensures
        r == delimiter_of(line@),
{
    let commas = count_char(line, ',');
    let semis = count_char(line, ';');
    if semis > commas {
        ';'
    } else {
        ','
    }
}

/// The columns of a line.
pub fn split_csv_line_with_delimiter(line: &str, delimiter: char) -> (r: Vec<String>)
    ensures
        texts(r@) == columns_of(line@, delimiter),
        r@.len() >= 1,
{
    let sc = to_chars(line);
    let mut cols: Vec<String> = Vec::new();
    let mut current = String::new();
    let mut quoted = false;
    let mut i: usize = 0;
    while i < sc.len()
        invariant
            sc@ == line@,
            i <= line@.len(),
            texts(cols@) + columns_from(line@, delimiter, i as int, quoted, current@)
                == columns_of(line@, delimiter),
        decreases line@.len() - i,
    {
        let c = sc[i];
        if c == '"' {
            if quoted && i + 1 < sc.len() && sc[i + 1] == '"' {
                current.push('"');
                i += 2;
            } else {
                quoted = !quoted;
                i += 1;
            }
        } else if c == delimiter && !quoted {
            let ghost before = cols@;
            let ghost ended = current@;
            cols.push(current);
            current = String::new();
            i += 1;
            assert(texts(cols@) =~= texts(before).push(ended));
            let ghost rest = columns_from(line@, delimiter, i as int, quoted, Seq::empty());
            assert(texts(cols@) + rest =~= texts(before) + (seq![ended] + rest));
        } else {
            current.push(c);
            i += 1;
        }
    }
    let ghost before = cols@;
    cols.push(current);
    assert(texts(cols@) =~= texts(before) + seq![current@]);
    cols
}

/// The columns of a header line, whatever its delimiter.
pub fn split_csv_line_auto(line: &str) -> (r: Vec<String>)
    ensures
        texts(r@) == columns_of(line@, delimiter_of(line@)),
        r@.len() >= 1,
{
    split_csv_line_with_delimiter(line, detect_csv_delimiter(line))
}

/// A cell without white space and then without quotes at either end.
pub open spec fn cell_text(s: Seq<char>) -> Seq<char> {
    trimmed_of(trimmed(s), QUOTE@)
}

fn clean_cell(s: &str) -> (r: String)
    ensures
        r@ == cell_text(s@),
{
    trim_of(&trim(s), &QUOTE)
}

// ---------------------------------------------------------------------------
// Delays and rates
// ---------------------------------------------------------------------------

/// A cell in lower case that reports no measurement.
pub open spec fn reports_failure(s: Seq<char>) -> bool {
    ||| s.len() == 0
    ||| s == "0"@
    ||| s == "-1"@
    ||| holds_text(s, "err"@)
    ||| holds_text(s, "time"@)
    ||| holds_text(s, "fail"@)
    ||| holds_text(s, "exceed"@)
    ||| holds_text(s, "deadline"@)
}

fn is_failure(s: &str) -> (r: bool)
    ensures
        r == reports_failure(s@),
{
    s.is_empty() || same(s, "0") || same(s, "-1") || contains(s, "err") || contains(s, "time")
        || contains(s, "fail") || contains(s, "exceed") || contains(s, "deadline")
}

/// The delay in milliseconds that a cell reports: its digits, where there are
/// few other bytes, as a number above zero and below thirty thousand.
pub open spec fn delay_in(raw: Seq<char>) -> Option<nat> {
    let s = lowercase(trimmed(raw));
    let digits = kept(s, DIGITS@);
    if reports_failure(s) || digits.len() == 0 || byte_len(s) > byte_len(digits) + 5 {
        None
    } else {
        match number_in(digits, 10, u128::MAX as nat) {
            Some(v) => if 0 < v < 30000 {
                Some(v)
            } else {
                None
            },
            None => None,
        }
    }
}

/// The number that an optional whole number is.
pub open spec fn opt_number(n: Option<u128>) -> Option<nat> {
    match n {
        Some(v) => Some(v as nat),
        None => None,
    }
}

/// The delay in milliseconds that a cell reports.
pub fn parse_delay(raw: &str) -> (r: Option<u128>)
    ensures
        opt_number(r) == delay_in(raw@),
{
    let s = to_lowercase(&trim(raw));
    if is_failure(&s) {
        return None;
    }
    let digits = keep(&s, &DIGITS);
    if digits.as_str().is_empty() || (bytes_in(&s) as u128) > (bytes_in(&digits) as u128) + 5 {
        return None;
    }
    match parse_number(&digits, 10, u128::MAX) {
        Some(v) => if v > 0 && v < 30000 {
            Some(v)
        } else {
            None
        },
        None => None,
    }
}

/// What a rate is counted in.
#[derive(Clone, Copy, Debug, PartialEq, Eq, Structural)]
pub enum SpeedUnit {
    Gigabytes,
    Megabytes,
    Kilobytes,
    Bytes,
    Unmarked,
}

/// A rate as a cell reports it: digits and points, and what they count.
#[derive(Debug)]
pub struct SpeedReading {
    pub digits: String,
    pub unit: SpeedUnit,
}

/// What a rate is counted in.
pub open spec fn unit_in(s: Seq<char>) -> SpeedUnit {
    if holds_text(s, "gib"@) || holds_text(s, "gb"@) {
        SpeedUnit::Gigabytes
    } else if holds_text(s, "mib"@) || holds_text(s, "mb"@) {
        SpeedUnit::Megabytes
    } else if holds_text(s, "kib"@) || holds_text(s, "kb"@) {
        SpeedUnit::Kilobytes
    } else if holds_text(s, "bps"@) || holds_text(s, "b/s"@) || ends(s, "b"@) {
        SpeedUnit::Bytes
    } else {
        SpeedUnit::Unmarked
    }
}

/// The rate that a cell reports: its digits and points, where there are few
/// other bytes beside commas, and its unit.
pub open spec fn speed_in(raw: Seq<char>) -> Option<(Seq<char>, SpeedUnit)> {
    let s = lowercase(trimmed(raw));
    let cleaned = replaced(s, ","@, ""@);
    let digits = kept(cleaned, DIGITS_AND_POINT@);
    if reports_failure(s) || digits.len() == 0 || byte_len(cleaned) > byte_len(digits) + 10 {
        None
    } else {
        Some((digits, unit_in(cleaned)))
    }
}

/// The text and the unit of an optional reading.
pub open spec fn opt_reading(r: Option<SpeedReading>) -> Option<(Seq<char>, SpeedUnit)> {
    match r {
        Some(v) => Some((v.digits@, v.unit)),
        None => None,
    }
}

fn find_unit(s: &str) -> (r: SpeedUnit)
    ensures
        r == unit_in(s@),
{
    if contains(s, "gib") || contains(s, "gb") {
        SpeedUnit::Gigabytes
    } else if contains(s, "mib") || contains(s, "mb") {
        SpeedUnit::Megabytes
    } else if contains(s, "kib") || contains(s, "kb") {
        SpeedUnit::Kilobytes
    } else if contains(s, "bps") || contains(s, "b/s") || ends_with(s, "b") {
        SpeedUnit::Bytes
    } else {
        SpeedUnit::Unmarked
    }
}

/// The rate that a cell reports: its digits and points, and its unit.
pub fn parse_speed(raw: &str) -> (r: Option<SpeedReading>)
    ensures
        opt_reading(r) == speed_in(raw@),
{
    proof {
        reveal_strlit(",");
    }
    let s = to_lowercase(&trim(raw));
    if is_failure(&s) {
        return None;
    }
    let cleaned = replace(&s, ",", "");
    let digits = keep(&cleaned, &DIGITS_AND_POINT);
    if digits.as_str().is_empty() || (bytes_in(&cleaned) as u128) > (bytes_in(&digits) as u128) + 10 {
        return None;
    }
    let unit = find_unit(&cleaned);
    Some(SpeedReading { digits, unit })
}

// ---------------------------------------------------------------------------
// Tables
// ---------------------------------------------------------------------------

/// What a column of a table is about.
#[derive(Clone, Copy, PartialEq, Eq, Structural)]
pub enum Column {
    Link,
    Status,
    Delay,
    Location,
    Download,
}

/// A column with the cleaned header `h` is about `c`.
pub open spec fn is_about(h: Seq<char>, c: Column) -> bool {
    match c {
        Column::Link => h == "link"@ || h == "config"@ || holds_text(h, "url"@),
        Column::Status => h == "status"@ || h == "state"@,
        Column::Delay => h == "delay"@ || holds_text(h, "ping"@),
        Column::Location => h == "location"@ || h == "cc"@,
        Column::Download => h == "download"@ || holds_text(h, "bandwidth"@) || (holds_text(
            h,
            "speed"@,
        ) && !holds_text(h, "speedtest"@)),
    }
}

fn names_column(h: &str, c: Column) -> (r: bool)
    ensures
        r == is_about(h@, c),
{
    match c {
        Column::Link => same(h, "link") || same(h, "config") || contains(h, "url"),
        Column::Status => same(h, "status") || same(h, "state"),
        Column::Delay => same(h, "delay") || contains(h, "ping"),
        Column::Location => same(h, "location") || same(h, "cc"),
        Column::Download => same(h, "download") || contains(h, "bandwidth") || (contains(h, "speed")
            && !contains(h, "speedtest")),
    }
}

/// The first column at or after `i` that is about `c`.
pub open spec fn column_from(headers: Seq<Seq<char>>, c: Column, i: int) -> Option<int>
    decreases headers.len() - i,
{
    if i < 0 || i >= headers.len() {
        None
    } else if is_about(headers[i], c) {
        Some(i)
    } else {
        column_from(headers, c, i + 1)
    }
}

fn find_column(headers: &Vec<String>, c: Column) -> (r: Option<usize>)
    ensures
        match r {
            Some(i) => column_from(texts(headers@), c, 0) == Some(i as int),
            None => column_from(texts(headers@), c, 0) is None,
        },
{
    let mut i: usize = 0;
    while i < headers.len()
        invariant
            i <= headers@.len(),
            column_from(texts(headers@), c, i as int) == column_from(texts(headers@), c, 0),
        decreases headers@.len() - i,
    {
        if names_column(&headers[i], c) {
            return Some(i);
        }
        i += 1;
    }
    None
}

/// The cleaned headers of a table.
pub open spec fn headers_of(header: Seq<char>) -> Seq<Seq<char>> {
    let cols = columns_of(header, delimiter_of(header));
    Seq::new(cols.len(), |i: int| lowercase(cell_text(cols[i])))
}

fn read_headers(header: &str) -> (r: Vec<String>)
    ensures
        texts(r@) == headers_of(header@),
{
    let cols = split_csv_line_auto(header);
    let mut out: Vec<String> = Vec::new();
    for i in 0..cols.len()
        invariant
            texts(cols@) == columns_of(header@, delimiter_of(header@)),
            texts(out@) == headers_of(header@).take(i as int),
    {
        let ghost prev = out@;
        out.push(to_lowercase(&clean_cell(&cols[i])));
        assert(texts(cols@)[i as int] == cols@[i as int]@);
        assert(texts(out@) =~= texts(prev).push(headers_of(header@)[i as int]));
        assert(headers_of(header@).take(i + 1) =~= headers_of(header@).take(i as int).push(
            headers_of(header@)[i as int],
        ));
    }
    assert(headers_of(header@).take(cols@.len() as int) =~= headers_of(header@));
    out
}

/// A line of the table.
pub struct CsvRow {
    pub link: String,
    pub delay_ms: Option<u128>,
    pub speeds: Vec<SpeedReading>,
    pub country: Option<String>,
}

/// What a line of the table holds.
pub struct RowView {
    pub link: Seq<char>,
    pub delay_ms: Option<nat>,
    pub speeds: Seq<(Seq<char>, SpeedUnit)>,
    pub country: Option<Seq<char>>,
}

impl View for CsvRow {
    type V = RowView;

    open spec fn view(&self) -> RowView {
        RowView {
            link: self.link@,
            delay_ms: opt_number(self.delay_ms),
            speeds: readings(self.speeds@),
            country: opt_text(self.country),
        }
    }
}

/// The texts and units of some readings.
pub open spec fn readings(v: Seq<SpeedReading>) -> Seq<(Seq<char>, SpeedUnit)> {
    Seq::new(v.len(), |i: int| (v[i].digits@, v[i].unit))
}

/// What some lines of the table hold.
pub open spec fn rows(v: Seq<CsvRow>) -> Seq<RowView> {
    Seq::new(v.len(), |i: int| v[i]@)
}

/// The rates that the first `n` columns of a line report.
pub open spec fn speeds_in(headers: Seq<Seq<char>>, cols: Seq<Seq<char>>, n: int) -> Seq<
    (Seq<char>, SpeedUnit),
>
    decreases n,
{
    if n <= 0 {
        Seq::empty()
    } else {
        let rest = speeds_in(headers, cols, n - 1);
        if n <= cols.len() && is_about(headers[n - 1], Column::Download) {
            match speed_in(cell_text(cols[n - 1])) {
                Some(v) => rest.push(v),
                None => rest,
            }
        } else {
            rest
        }
    }
}

/// A line whose status says that the test failed.
pub open spec fn is_refused(headers: Seq<Seq<char>>, cols: Seq<Seq<char>>) -> bool {
    match column_from(headers, Column::Status, 0) {
        Some(i) => i < cols.len() && ({
            let status = lowercase(cell_text(cols[i]));
            status == "failed"@ || status == "error"@ || status == "timeout"@
        }),
        None => false,
    }
}

/// The column that holds the links: the one that is about them, else the first.
pub open spec fn link_column(headers: Seq<Seq<char>>) -> int {
    match column_from(headers, Column::Link, 0) {
        Some(i) => i,
        None => 0,
    }
}

/// What a line of a table with these headers holds, if anything.
pub open spec fn row_of(headers: Seq<Seq<char>>, cols: Seq<Seq<char>>) -> Option<RowView> {
    let at = link_column(headers);
    if at >= cols.len() || cell_text(cols[at]).len() == 0 || is_refused(headers, cols) {
        None
    } else {
        Some(
            RowView {
                link: cell_text(cols[at]),
                delay_ms: match column_from(headers, Column::Delay, 0) {
                    Some(i) => if i < cols.len() {
                        delay_in(cell_text(cols[i]))
                    } else {
                        None
                    },
                    None => None,
                },
                speeds: speeds_in(headers, cols, headers.len() as int),
                country: match column_from(headers, Column::Location, 0) {
                    Some(i) => if i < cols.len() && cell_text(cols[i]).len() > 0 && cell_text(
                        cols[i],
                    ) != "null"@ {
                        Some(cell_text(cols[i]))
                    } else {
                        None
                    },
                    None => None,
                },
            },
        )
    }
}

/// What a line of the table with this header holds, if anything.
pub open spec fn row_reader(header: Seq<char>) -> spec_fn(Seq<char>) -> Option<RowView> {
    |line: Seq<char>| row_of(headers_of(header), columns_of(line, delimiter_of(header)))
}

/// `s` without a byte order mark at its start.
pub open spec fn without_mark(s: Seq<char>) -> Seq<char> {
    match after_prefix(s, seq!['\u{feff}']) {
        Some(rest) => rest,
        None => s,
    }
}

/// What the table in a file holds.
pub open spec fn table_of(content: Seq<char>) -> Seq<RowView> {
    let all = lines_of(without_mark(content));
    if all.len() == 0 {
        Seq::empty()
    } else {
        all.skip(1).filter_map(row_reader(all[0]))
    }
}

fn read_speeds(headers: &Vec<String>, cols: &Vec<String>) -> (r: Vec<SpeedReading>)
    ensures
        readings(r@) == speeds_in(texts(headers@), texts(cols@), headers@.len() as int),
{
    let ghost h = texts(headers@);
    let ghost c = texts(cols@);
    let mut out: Vec<SpeedReading> = Vec::new();
    for i in 0..headers.len()
        invariant
            h == texts(headers@),
            c == texts(cols@),
            readings(out@) == speeds_in(h, c, i as int),
    {
        let ghost prev = out@;
        if i < cols.len() && names_column(&headers[i], Column::Download) {
            match parse_speed(&clean_cell(&cols[i])) {
                Some(v) => {
                    out.push(v);
                    assert(readings(out@) =~= readings(prev).push((v.digits@, v.unit)));
                },
                None => {},
            }
        }
    }
    out
}

fn status_refuses(headers: &Vec<String>, cols: &Vec<String>) -> (r: bool)
    ensures
        r == is_refused(texts(headers@), texts(cols@)),
{
    match find_column(headers, Column::Status) {
        Some(i) => {
            if i < cols.len() {
                let status = to_lowercase(&clean_cell(&cols[i]));
                same(&status, "failed") || same(&status, "error") || same(&status, "timeout")
            } else {
                false
            }
        },
        None => false,
    }
}

fn read_row(headers: &Vec<String>, cols: &Vec<String>) -> (r: Option<CsvRow>)
    ensures
        match r {
            Some(row) => row_of(texts(headers@), texts(cols@)) == Some(row@),
            None => row_of(texts(headers@), texts(cols@)) is None,
        },
{
    let at: usize = match find_column(headers, Column::Link) {
        Some(i) => i,
        None => 0,
    };
    if at >= cols.len() {
        return None;
    }
    let link = clean_cell(&cols[at]);
    if link.as_str().is_empty() || status_refuses(headers, cols) {
        return None;
    }
    let delay_ms = match find_column(headers, Column::Delay) {
        Some(i) => if i < cols.len() {
            parse_delay(&clean_cell(&cols[i]))
        } else {
            None
        },
        None => None,
    };
    let country = match find_column(headers, Column::Location) {
        Some(i) => if i < cols.len() {
            let value = clean_cell(&cols[i]);
            if value.as_str().is_empty() || same(&value, "null") {
                None
            } else {
                Some(value)
            }
        } else {
            None
        },
        None => None,
    };
    let speeds = read_speeds(headers, cols);
    Some(CsvRow { link, delay_ms, speeds, country })
}

/// What the table in a file holds: a line for each tested link, without those
/// that have no link and those whose status says that the test failed.
pub fn parse_csv_results(content: &str) -> (r: Vec<CsvRow>)
    ensures
        rows(r@) == table_of(content@),
{
    let mark: String = "\u{feff}".to_string();
    proof {
        reveal_strlit("\u{feff}");
        assert(mark@ =~= seq!['\u{feff}']);
    }
    let raw = match strip_prefix(content, &mark) {
        Some(rest) => rest,
        None => content.to_string(),
    };
    let all = lines(&raw);
    let mut out: Vec<CsvRow> = Vec::new();
    if all.len() == 0 {
        assert(rows(out@) =~= Seq::<RowView>::empty());
        return out;
    }
    let ghost body = texts(all@).skip(1);
    let ghost f = row_reader(all@[0]@);
    let headers = read_headers(&all[0]);
    let delimiter = detect_csv_delimiter(&all[0]);
    assert(rows(out@) =~= Seq::<RowView>::empty());
    for i in 1..all.len()
        invariant
            all@.len() >= 1,
            body == texts(all@).skip(1),
            f == row_reader(all@[0]@),
            texts(headers@) == headers_of(all@[0]@),
            delimiter == delimiter_of(all@[0]@),
            rows(out@) == body.take(i - 1).filter_map(f),
    {
        let ghost prev = out@;
        let cols = split_csv_line_with_delimiter(&all[i], delimiter);
        proof {
            assert(body.take(i as int).drop_last() =~= body.take(i - 1));
            assert(body.take(i as int).last() == all@[i as int]@);
            assert(f(all@[i as int]@) == row_of(texts(headers@), texts(cols@)));
        }
        match read_row(&headers, &cols) {
            Some(row) => {
                out.push(row);
                assert(rows(out@) =~= rows(prev) + seq![row@]);
            },
            None => {},
        }
    }
    assert(body.take(all@.len() - 1) =~= body);
    out
}

// ---------------------------------------------------------------------------
// Laws
// ---------------------------------------------------------------------------

proof fn lemma_columns_without_quotes(
    s: Seq<char>,
    delimiter: char,
    start: int,
    i: int,
)
    requires
        0 <= start <= i <= s.len(),
        delimiter != '"',
        forall|k: int| 0 <= k < s.len() ==> s[k] != '"',
        forall|k: int| start <= k < i ==> s[k] != delimiter,
    ensures
        columns_from(s, delimiter, i, false, s.subrange(start, i)) == pieces(s, seq![delimiter], start),
    decreases s.len() - i,
{
    let sep = seq![delimiter];
    assert forall|k: int| 0 <= k < s.len() implies #[trigger] occurs_at(s, sep, k) == (s[k]
        == delimiter) by {
        assert(s.subrange(k, k + 1)[0] == s[k]);
        assert(sep[0] == delimiter);
        if s[k] == delimiter {
            assert(s.subrange(k, k + 1) =~= sep);
        }
    }
    if i == s.len() {
        lemma_find_from(s, sep, start);
        match find_from(s, sep, start) {
            Some(k) => {
                assert(occurs_at(s, sep, k));
                assert(s[k] == delimiter);
            },
            None => {},
        }
        assert(s.subrange(start, i) =~= s.skip(start));
    } else if s[i] == delimiter {
        lemma_find_from(s, sep, start);
        assert(occurs_at(s, sep, i));
        match find_from(s, sep, start) {
            Some(k) => {
                assert(occurs_at(s, sep, k));
                assert(s[k] == delimiter);
            },
            None => {},
        }
        assert(find_from(s, sep, start) == Some(i));
        lemma_columns_without_quotes(s, delimiter, i + 1, i + 1);
        assert(s.subrange(i + 1, i + 1) =~= Seq::<char>::empty());
    } else {
        lemma_columns_without_quotes(s, delimiter, start, i + 1);
        assert(s.subrange(start, i + 1) =~= s.subrange(start, i).push(s[i]));
    }
}

/// A line without quotes splits at every delimiter and nowhere else.
pub proof fn unquoted_line_splits_at_delimiters(s: Seq<char>, delimiter: char)
    requires
        delimiter != '"',
        !s.contains('"'),
    ensures
        columns_of(s, delimiter) == pieces(s, seq![delimiter], 0),
{
    lemma_columns_without_quotes(s, delimiter, 0, 0);
    assert(s.subrange(0, 0) =~= Seq::<char>::empty());
}

/// `f` with every quote doubled.
pub open spec fn doubled(f: Seq<char>) -> Seq<char>
    decreases f.len(),
{
    if f.len() == 0 {
        Seq::empty()
    } else if f[0] == '"' {
        seq!['"', '"'] + doubled(f.skip(1))
    } else {
        seq![f[0]] + doubled(f.skip(1))
    }
}

/// `f` in quotes.
pub open spec fn in_quotes(f: Seq<char>) -> Seq<char> {
    seq!['"'] + doubled(f) + seq!['"']
}

/// A line whose columns are all in quotes.
pub open spec fn quoted_line(fields: Seq<Seq<char>>, delimiter: char) -> Seq<char>
    decreases fields.len(),
{
    if fields.len() == 0 {
        Seq::empty()
    } else if fields.len() == 1 {
        in_quotes(fields[0])
    } else {
        in_quotes(fields[0]) + seq![delimiter] + quoted_line(fields.skip(1), delimiter)
    }
}

proof fn lemma_quoted_field(
    s: Seq<char>,
    delimiter: char,
    i: int,
    f: Seq<char>,
    current: Seq<char>,
)
    requires
        0 <= i,
        i + doubled(f).len() < s.len(),
        s.subrange(i, i + doubled(f).len()) == doubled(f),
        s[i + doubled(f).len()] == '"',
        i + doubled(f).len() + 1 < s.len() ==> s[i + doubled(f).len() + 1] != '"',
    ensures
        columns_from(s, delimiter, i, true, current) == columns_from(
            s,
            delimiter,
            i + doubled(f).len() + 1,
            false,
            current + f,
        ),
    decreases f.len(),
{
    let d = doubled(f);
    if f.len() == 0 {
        assert(current + f =~= current);
    } else {
        let rest = f.skip(1);
        let step: int = if f[0] == '"' {
            2
        } else {
            1
        };
        assert(d.len() == step + doubled(rest).len());
        assert(s[i] == s.subrange(i, i + d.len())[0]);
        if f[0] == '"' {
            assert(s[i + 1] == s.subrange(i, i + d.len())[1]);
        }
        assert(s.subrange(i + step, i + d.len()) =~= d.skip(step));
        assert(d.skip(step) =~= doubled(rest));
        lemma_quoted_field(s, delimiter, i + step, rest, current.push(f[0]));
        assert(current.push(f[0]) + rest =~= current + f);
    }
}

proof fn lemma_quoted_line(s: Seq<char>, delimiter: char, i: int, fields: Seq<Seq<char>>)
    requires
        delimiter != '"',
        fields.len() > 0,
        0 <= i <= s.len(),
        s.skip(i) == quoted_line(fields, delimiter),
    ensures
        columns_from(s, delimiter, i, false, Seq::empty()) == fields,
    decreases fields.len(),
{
    let f = fields[0];
    let d = doubled(f);
    let line = quoted_line(fields, delimiter);
    let none = Seq::<char>::empty();
    let end = i + 1 + d.len();
    assert(line.len() >= d.len() + 2);
    assert(line.subrange(1, 1 + d.len() as int) =~= d);
    assert(s.subrange(i + 1, end) =~= line.subrange(1, 1 + d.len() as int));
    assert(s[i] == line[0]);
    assert(s[end] == line[1 + d.len() as int]);
    if fields.len() == 1 {
        assert(end + 1 == s.len());
    } else {
        assert(s[end + 1] == line[2 + d.len() as int]);
        assert(s[end + 1] == delimiter);
    }
    lemma_quoted_field(s, delimiter, i + 1, f, none);
    assert(none + f =~= f);
    if fields.len() == 1 {
        assert(seq![f] =~= fields);
    } else {
        let rest = fields.skip(1);
        assert(s.skip(end + 2) =~= line.skip(3 + d.len() as int));
        assert(line.skip(3 + d.len() as int) =~= quoted_line(rest, delimiter));
        lemma_quoted_line(s, delimiter, end + 2, rest);
        assert(seq![f] + rest =~= fields);
    }
}

/// Columns in quotes, with the quotes within them doubled, are read as they
/// were, whatever they hold.
pub proof fn quoted_columns_come_back(fields: Seq<Seq<char>>, delimiter: char)
    requires
        delimiter != '"',
        fields.len() > 0,
    ensures
        columns_of(quoted_line(fields, delimiter), delimiter) == fields,
{
    let s = quoted_line(fields, delimiter);
    assert(s.skip(0) =~= s);
    lemma_quoted_line(s, delimiter, 0, fields);
}

/// A delay is read as the number that its digits make, and lies between zero and
/// half a minute.
pub proof fn delays_are_read(raw: Seq<char>, n: nat)
    requires
        lowercase(trimmed(raw)) == decimal(n),
    ensures
        delay_in(raw) is Some ==> delay_in(raw) == Some(n) && 0 < n < 30000,
        n >= 30000 ==> delay_in(raw) is None,
        0 < n < 30000 ==> delay_in(raw) == Some(n),
{
    let s = decimal(n);
    decimal_is_digits(n);
    lemma_digits_kept(s);
    reveal_strlit("0");
    reveal_strlit("-1");
    reveal_strlit("err");
    reveal_strlit("time");
    reveal_strlit("fail");
    reveal_strlit("exceed");
    reveal_strlit("deadline");
    lemma_no_word(s, "err"@);
    lemma_no_word(s, "time"@);
    lemma_no_word(s, "fail"@);
    lemma_no_word(s, "exceed"@);
    lemma_no_word(s, "deadline"@);
    if s == "-1"@ {
        assert(s[0] == '-');
    }
    if s == "0"@ {
        decimal_reads_back(n, n);
        decimal_reads_back(0, n);
        assert(decimal(0) =~= "0"@);
    }
    if n <= u128::MAX {
        decimal_reads_back(n, u128::MAX as nat);
    } else {
        decimal_reads_back(n, n);
    }
}

proof fn lemma_no_word(s: Seq<char>, w: Seq<char>)
    requires
        forall|k: int| 0 <= k < s.len() ==> '0' <= #[trigger] s[k] <= '9',
        w.len() > 0,
        w[0] > '9',
    ensures
        !holds_text(s, w),
{
    if holds_text(s, w) {
        let i = choose|i: int| occurs_at(s, w, i);
        assert(s.subrange(i, i + w.len())[0] == s[i]);
    }
}

proof fn lemma_digits_kept(s: Seq<char>)
    requires
        forall|k: int| 0 <= k < s.len() ==> '0' <= #[trigger] s[k] <= '9',
    ensures
        kept(s, DIGITS@) == s,
    decreases s.len(),
{
    if s.len() > 0 {
        let less = s.drop_last();
        assert forall|k: int| 0 <= k < less.len() implies '0' <= #[trigger] less[k] <= '9' by {
            assert(less[k] == s[k]);
        }
        lemma_digits_kept(less);
        let c = s[s.len() - 1];
        let d = (c as int - 48) as int;
        assert(DIGITS@[0] == '0' && DIGITS@[1] == '1' && DIGITS@[2] == '2' && DIGITS@[3] == '3'
            && DIGITS@[4] == '4');
        assert(DIGITS@[5] == '5' && DIGITS@[6] == '6' && DIGITS@[7] == '7' && DIGITS@[8] == '8'
            && DIGITS@[9] == '9');
        assert(DIGITS@[d] == c);
        assert(DIGITS@.contains(c));
    }
    assert(kept(s, DIGITS@) =~= s);
}

/// A column is the first one whose header speaks of it.
pub proof fn first_header_gives_the_column(headers: Seq<Seq<char>>, c: Column, i: int)
    requires
        0 <= i < headers.len(),
        is_about(headers[i], c),
        forall|j: int| 0 <= j < i ==> !is_about(#[trigger] headers[j], c),
    ensures
        column_from(headers, c, 0) == Some(i),
{
    lemma_first_header(headers, c, i, 0);
}

proof fn lemma_first_header(headers: Seq<Seq<char>>, c: Column, i: int, k: int)
    requires
        0 <= k <= i < headers.len(),
        is_about(headers[i], c),
        forall|j: int| 0 <= j < i ==> !is_about(#[trigger] headers[j], c),
    ensures
        column_from(headers, c, k) == Some(i),
    decreases i - k,
{
    if k < i {
        lemma_first_header(headers, c, i, k + 1);
    }
}

/// The headers that the tester writes name their columns.
pub proof fn usual_headers_are_known()
    ensures
        is_about("link"@, Column::Link) && is_about("config"@, Column::Link),
        is_about("status"@, Column::Status) && is_about("state"@, Column::Status),
        is_about("delay"@, Column::Delay),
        is_about("location"@, Column::Location) && is_about("cc"@, Column::Location),
        is_about("download"@, Column::Download),
        forall|h: Seq<char>| #[trigger] holds_text(h, "url"@) ==> is_about(h, Column::Link),
        forall|h: Seq<char>| #[trigger] holds_text(h, "ping"@) ==> is_about(h, Column::Delay),
        forall|h: Seq<char>| #[trigger]
            holds_text(h, "bandwidth"@) ==> is_about(h, Column::Download),
{
}

/// A line of the table gives its link, its delay and its country from the columns
/// that the headers name; a line without a link, or whose test failed, gives none.
pub proof fn rows_hold_their_columns(headers: Seq<Seq<char>>, cols: Seq<Seq<char>>)
    requires
        column_from(headers, Column::Link, 0) is Some,
        column_from(headers, Column::Link, 0)->0 < cols.len(),
    ensures
        ({
            let at = column_from(headers, Column::Link, 0)->0;
            let d = column_from(headers, Column::Delay, 0);
            let w = column_from(headers, Column::Location, 0);
            let st = column_from(headers, Column::Status, 0);
            let r = row_of(headers, cols);
            &&& cell_text(cols[at]).len() == 0 ==> r is None
            &&& st is Some && st->0 < cols.len() && (lowercase(cell_text(cols[st->0])) == "failed"@
                || lowercase(cell_text(cols[st->0])) == "error"@ || lowercase(
                cell_text(cols[st->0]),
            ) == "timeout"@) ==> r is None
            &&& st is None && cell_text(cols[at]).len() > 0 ==> r is Some
            &&& r is Some ==> r->0.link == cell_text(cols[at])
            &&& r is Some && d is Some && d->0 < cols.len() ==> r->0.delay_ms == delay_in(
                cell_text(cols[d->0]),
            )
            &&& r is Some && d is None ==> r->0.delay_ms is None
            &&& r is Some && w is Some && w->0 < cols.len() && cell_text(cols[w->0]).len() > 0
                && cell_text(cols[w->0]) != "null"@ ==> r->0.country == Some(cell_text(cols[w->0]))
            &&& r is Some && w is None ==> r->0.country is None
        }),
{
}

} // verus!
