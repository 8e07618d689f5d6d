//! The table of metrics that Nsight Compute prints.

use vstd::prelude::*;

use crate::number;
use crate::number::{is_finite, is_less, is_whole, truncate, TEN};
use crate::text;
use crate::text::{
    chars_of, cut, find_chars, lines_of, lower_ascii, replace_chars, same_text, starts_with_chars,
    string_of, trim_chars,
};

verus! {

/// How many lines of data are read.
pub const MAX_NCU_ROWS: usize = 1_000_000;

/// How many kernels are read.
pub const MAX_KERNELS: usize = 100_000;

/// Why a table is refused.
#[derive(Debug, Clone, Copy, PartialEq, Eq, Structural)]
pub enum NcuError {
    NoHeader,
    MissingColumns,
    TooManyRows,
    TooManyKernels,
}

impl NcuError {
    pub fn message(&self) -> (r: &'static str)
        ensures
            r@ == match self {
                NcuError::NoHeader => "NCU CSV contains no candidate header"@,
                NcuError::MissingColumns => "NCU CSV header is missing one or more required columns: Kernel Name, Metric Name, Metric Value"@,
                NcuError::TooManyRows => "NCU CSV exceeds the maximum of 1000000 data rows"@,
                NcuError::TooManyKernels => "NCU CSV exceeds the maximum of 100000 kernels"@,
            },
    {
        match self {
            NcuError::NoHeader => "NCU CSV contains no candidate header",
            NcuError::MissingColumns => "NCU CSV header is missing one or more required columns: Kernel Name, Metric Name, Metric Value",
            NcuError::TooManyRows => "NCU CSV exceeds the maximum of 1000000 data rows",
            NcuError::TooManyKernels => "NCU CSV exceeds the maximum of 100000 kernels",
        }
    }
}

// ---------------------------------------------------------------------------
// Lines
// ---------------------------------------------------------------------------

/// The fields of a line, read from position `i` with `field` begun. A quote
/// opens or closes a quoted part, and two quotes in one are a quote. `None`
/// where a quoted part is left open.
pub open spec fn fields_from(s: Seq<char>, i: int, field: Seq<char>, quoted: bool) -> Option<
    Seq<Seq<char>>,
>
    decreases s.len() - i,
{
    if i < 0 || i >= s.len() {
        if quoted {
            None
        } else {
            Some(seq![text::trim(field)])
        }
    } else if s[i] == '"' && quoted && i + 1 < s.len() && s[i + 1] == '"' {
        fields_from(s, i + 2, field.push('"'), quoted)
    } else if s[i] == '"' {
        fields_from(s, i + 1, field, !quoted)
    } else if s[i] == ',' && !quoted {
        match fields_from(s, i + 1, Seq::empty(), false) {
            Some(rest) => Some(seq![text::trim(field)] + rest),
            None => None,
        }
    } else {
        fields_from(s, i + 1, field.push(s[i]), quoted)
    }
}

/// The fields of a line; none where a quoted part is left open.
pub open spec fn csv_fields(line: Seq<char>) -> Seq<Seq<char>> {
    match fields_from(line, 0, Seq::empty(), false) {
        Some(fields) => fields,
        None => Seq::empty(),
    }
}

pub fn parse_csv_line(line: &str) -> (r: Vec<String>)
    ensures
        text::texts(r@) == csv_fields(line@),
{
    let s = chars_of(line);
    let n: usize = s.len();
    let mut fields: Vec<String> = Vec::new();
    let mut field: Vec<char> = Vec::new();
    let mut quoted: bool = false;
    let mut i: usize = 0;
    let ghost whole = fields_from(s@, 0, Seq::empty(), false);
    proof {
        if whole is Some {
            assert(text::texts(fields@) + whole->0 =~= whole->0);
        }
    }
    while i < n
        invariant
            i <= n,
            n == s@.len(),
            whole == match fields_from(s@, i as int, field@, quoted) {
                Some(rest) => Some(text::texts(fields@) + rest),
                None => None::<Seq<Seq<char>>>,
            },
        decreases n - i,
    {
        let c = s[i];
        if c == '"' {
            if quoted && i + 1 < n && s[i + 1] == '"' {
                field.push('"');
                i = i + 2;
            } else {
                quoted = !quoted;
                i = i + 1;
            }
        } else if c == ',' && !quoted {
            let ghost before = fields@;
            let ghost rest = fields_from(s@, i + 1, Seq::empty(), false);
            let t = trim_chars(&field);
            fields.push(string_of(&t));
            field = Vec::new();
            i = i + 1;
            assert(text::texts(fields@) =~= text::texts(before).push(t@));
            proof {
                if rest is Some {
                    assert(text::texts(before) + (seq![t@] + rest->0) =~= text::texts(fields@)
                        + rest->0);
                }
            }
        } else {
            field.push(c);
            i = i + 1;
        }
    }
    if quoted {
        let none: Vec<String> = Vec::new();
        assert(text::texts(none@) =~= Seq::<Seq<char>>::empty());
        return none;
    }
    let ghost before = fields@;
    let t = trim_chars(&field);
    fields.push(string_of(&t));
    assert(text::texts(fields@) =~= text::texts(before) + seq![t@]);
    fields
}

/// A text in quotes, with its own quotes doubled.
pub open spec fn doubled(s: Seq<char>) -> Seq<char>
    decreases s.len(),
{
    if s.len() == 0 {
        s
    } else if s[0] == '"' {
        seq!['"', '"'] + doubled(s.skip(1))
    } else {
        seq![s[0]] + doubled(s.skip(1))
    }
}

/// A line that holds these fields in quotes.
pub open spec fn csv_line(fields: Seq<Seq<char>>) -> Seq<char>
    decreases fields.len(),
{
    if fields.len() == 0 {
        Seq::empty()
    } else if fields.len() == 1 {
        seq!['"'] + doubled(fields[0]) + seq!['"']
    } else {
        seq!['"'] + doubled(fields[0]) + seq!['"', ','] + csv_line(fields.skip(1))
    }
}

/// Inside quotes a text is read up to the quote that closes it.
proof fn reads_doubled(s: Seq<char>, i: int, t: Seq<char>, rest: Seq<char>, field: Seq<char>)
    requires
        0 <= i,
        s.skip(i) == doubled(t) + seq!['"'] + rest,
        i <= s.len(),
        rest.len() > 0 ==> rest[0] != '"',
    ensures
        fields_from(s, i, field, true) == fields_from(
            s,
            i + doubled(t).len() + 1,
            field + t,
            false,
        ),
    decreases t.len(),
{
    let tail = doubled(t) + seq!['"'] + rest;
    assert(s.len() == i + tail.len());
    assert forall|k: int| 0 <= k < tail.len() implies s[i + k] == #[trigger] tail[k] by {
        assert(s.skip(i)[k] == s[i + k]);
    }
    if t.len() == 0 {
        assert(doubled(t).len() == 0);
        assert(tail[0] == '"');
        assert(s[i + 0] == '"');
        if rest.len() > 0 {
            assert(tail[1] == rest[0]);
            assert(s[i + 1] == rest[0]);
        }
        assert(field + t =~= field);
    } else if t[0] == '"' {
        assert(tail[0] == '"' && tail[1] == '"');
        assert(s[i + 0] == '"' && s[i + 1] == '"');
        assert(s.skip(i + 2) =~= doubled(t.skip(1)) + seq!['"'] + rest) by {
            assert(s.skip(i + 2) =~= s.skip(i).skip(2));
            assert(tail.skip(2) =~= doubled(t.skip(1)) + seq!['"'] + rest);
        }
        reads_doubled(s, i + 2, t.skip(1), rest, field.push('"'));
        assert(field.push('"') + t.skip(1) =~= field + t);
    } else {
        assert(tail[0] == t[0]);
        assert(s[i + 0] == t[0]);
        assert(s.skip(i + 1) =~= doubled(t.skip(1)) + seq!['"'] + rest) by {
            assert(s.skip(i + 1) =~= s.skip(i).skip(1));
            assert(tail.skip(1) =~= doubled(t.skip(1)) + seq!['"'] + rest);
        }
        reads_doubled(s, i + 1, t.skip(1), rest, field.push(t[0]));
        assert(field.push(t[0]) + t.skip(1) =~= field + t);
    }
}

proof fn reads_line(s: Seq<char>, i: int, fields: Seq<Seq<char>>)
    requires
        0 <= i <= s.len(),
        fields.len() > 0,
        s.skip(i) == csv_line(fields),
    ensures
        fields_from(s, i, Seq::empty(), false) == Some(
            Seq::new(fields.len(), |k: int| text::trim(fields[k])),
        ),
    decreases fields.len(),
{
    let t = fields[0];
    let rest = if fields.len() == 1 {
        Seq::empty()
    } else {
        seq![','] + csv_line(fields.skip(1))
    };
    let line = csv_line(fields);
    assert(line =~= seq!['"'] + doubled(t) + seq!['"'] + rest);
    assert(s.skip(i)[0] == '"');
    assert(s[i] == '"');
    assert(s.skip(i + 1) =~= doubled(t) + seq!['"'] + rest) by {
        assert(s.skip(i + 1) =~= s.skip(i).skip(1));
        assert(line.skip(1) =~= doubled(t) + seq!['"'] + rest);
    }
    let empty = Seq::<char>::empty();
    reads_doubled(s, i + 1, t, rest, empty);
    assert(empty + t =~= t);
    let j = i + 1 + doubled(t).len() + 1;
    assert(s.len() == i + line.len());
    if fields.len() == 1 {
        assert(j == s.len());
        assert(seq![text::trim(t)] =~= Seq::new(fields.len(), |k: int| text::trim(fields[k])));
    } else {
        assert(s.skip(j) =~= rest) by {
            assert(s.skip(j) =~= s.skip(i).skip(j - i));
            assert(line.skip(j - i) =~= rest);
        }
        assert(s.skip(j)[0] == ',');
        assert(s[j] == ',');
        assert(s.skip(j + 1) =~= csv_line(fields.skip(1))) by {
            assert(s.skip(j + 1) =~= s.skip(j).skip(1));
            assert(rest.skip(1) =~= csv_line(fields.skip(1)));
        }
        reads_line(s, j + 1, fields.skip(1));
        let others = Seq::new(fields.skip(1).len(), |k: int| text::trim(fields.skip(1)[k]));
        assert(seq![text::trim(t)] + others =~= Seq::new(
            fields.len(),
            |k: int| text::trim(fields[k]),
        ));
    }
}

/// Fields that were written in quotes are read back, but for white space at
/// their ends, whatever quotes and commas they hold.
pub proof fn quoted_fields_read_back(fields: Seq<Seq<char>>)
    requires
        fields.len() > 0,
    ensures
        csv_fields(csv_line(fields)) == Seq::new(fields.len(), |k: int| text::trim(fields[k])),
{
    let s = csv_line(fields);
    assert(s.skip(0) =~= s);
    reads_line(s, 0, fields);
}

// ---------------------------------------------------------------------------
// The header
// ---------------------------------------------------------------------------

/// A line that may be the header.
pub open spec fn is_header(line: Seq<char>) -> bool {
    text::contains(line, "Kernel Name"@) && text::contains(line, "Metric"@)
}

/// The first line at or after `k` that may be the header.
pub open spec fn header_from(lines: Seq<Seq<char>>, k: int) -> Option<int>
    decreases lines.len() - k,
{
    if k < 0 || k >= lines.len() {
        None
    } else if is_header(lines[k]) {
        Some(k)
    } else {
        header_from(lines, k + 1)
    }
}

/// A text without byte order marks at its start.
pub open spec fn without_marks(s: Seq<char>) -> Seq<char>
    decreases s.len(),
{
    if s.len() > 0 && s[0] == '\u{feff}' {
        without_marks(s.skip(1))
    } else {
        s
    }
}

/// A column goes by this name, in whatever case.
pub open spec fn is_column(header: Seq<char>, name: Seq<char>) -> bool {
    text::lowered(without_marks(text::trim(header))) == text::lowered(name)
}

/// The first column at or after `k` that goes by a name.
pub open spec fn column_from(headers: Seq<Seq<char>>, name: Seq<char>, k: int) -> Option<int>
    decreases headers.len() - k,
{
    if k < 0 || k >= headers.len() {
        None
    } else if is_column(headers[k], name) {
        Some(k)
    } else {
        column_from(headers, name, k + 1)
    }
}

fn drop_marks(s: &[char]) -> (r: Vec<char>)
    ensures
        r@ == without_marks(s@),
{
    let n: usize = s.len();
    let mut i: usize = 0;
    assert(s@.skip(0) =~= s@);
    while i < n && s[i] == '\u{feff}'
        invariant
            i <= n,
            n == s@.len(),
            without_marks(s@) == without_marks(s@.skip(i as int)),
        decreases n - i,
    {
        assert(s@.skip(i as int).skip(1) =~= s@.skip(i + 1));
        i = i + 1;
    }
    let r = cut(s, i, n);
    assert(r@ =~= s@.skip(i as int));
    r
}

/// The column that goes by a name, in whatever case.
pub fn find_col(headers: &[String], name: &str) -> (r: Option<usize>)
    ensures
        match r {
            Some(k) => column_from(text::texts(headers@), name@, 0) == Some(k as int),
            None => column_from(text::texts(headers@), name@, 0) is None,
        },
{
    let wanted = string_of(&lower_ascii(name));
    let mut k: usize = 0;
    while k < headers.len()
        invariant
            k <= headers@.len(),
            wanted@ == text::lowered(name@),
            column_from(text::texts(headers@), name@, 0) == column_from(
                text::texts(headers@),
                name@,
                k as int,
            ),
        decreases headers@.len() - k,
    {
        let h = drop_marks(&trim_chars(&chars_of(headers[k].as_str())));
        let h = lower_ascii(string_of(&h).as_str());
        assert(text::texts(headers@)[k as int] == headers@[k as int]@);
        if same_text(string_of(&h).as_str(), wanted.as_str()) {
            return Some(k);
        }
        k = k + 1;
    }
    None
}

// ---------------------------------------------------------------------------
// Rows
// ---------------------------------------------------------------------------

/// What one line says: a kernel, a metric and the text of its value.
#[derive(Debug)]
pub struct NcuRow {
    pub kernel: String,
    pub metric: String,
    pub value: String,
}

#[verifier::ext_equal]
pub struct NcuRowV {
    pub kernel: Seq<char>,
    pub metric: Seq<char>,
    pub value: Seq<char>,
}

impl View for NcuRow {
    type V = NcuRowV;

    open spec fn view(&self) -> NcuRowV {
        NcuRowV { kernel: self.kernel@, metric: self.metric@, value: self.value@ }
    }
}

pub open spec fn opt_row(r: Option<NcuRow>) -> Option<NcuRowV> {
    match r {
        Some(row) => Some(row@),
        None => None,
    }
}

pub open spec fn row_views(rows: Seq<Option<NcuRow>>) -> Seq<Option<NcuRowV>> {
    Seq::new(rows.len(), |i: int| opt_row(rows[i]))
}

/// The columns that are read: kernel, metric and value.
#[derive(Debug)]
pub struct NcuColumns {
    pub kernel: usize,
    pub metric: usize,
    pub value: usize,
}

/// What a line says. Blank lines, remarks and lines without a kernel or a
/// metric say nothing. The value is without the commas that group its digits.
pub open spec fn row_of(line: Seq<char>, c: NcuColumns) -> Option<NcuRowV> {
    let t = text::trim(line);
    let f = csv_fields(t);
    if t.len() == 0 || text::starts_with(t, "=="@) || c.kernel >= f.len() || c.metric >= f.len()
        || c.value >= f.len() || f[c.kernel as int].len() == 0 || f[c.metric as int].len() == 0 {
        None
    } else {
        Some(
            NcuRowV {
                kernel: f[c.kernel as int],
                metric: f[c.metric as int],
                value: text::replace(f[c.value as int], ","@, ""@),
            },
        )
    }
}

fn read_row(line: &[char], c: &NcuColumns) -> (r: Option<NcuRow>)
    ensures
        opt_row(r) == row_of(line@, *c),
{
    let t = trim_chars(line);
    if t.len() == 0 || starts_with_chars(&t, &chars_of("==")) {
        return None;
    }
    let f = parse_csv_line(string_of(&t).as_str());
    let ghost fs = text::texts(f@);
    assert(fs.len() == f@.len());
    if c.kernel >= f.len() || c.metric >= f.len() || c.value >= f.len() {
        return None;
    }
    assert(fs[c.kernel as int] == f@[c.kernel as int]@);
    assert(fs[c.metric as int] == f@[c.metric as int]@);
    assert(fs[c.value as int] == f@[c.value as int]@);
    if chars_of(f[c.kernel].as_str()).len() == 0 || chars_of(f[c.metric].as_str()).len() == 0 {
        return None;
    }
    proof {
        reveal_strlit(",");
    }
    let value = replace_chars(&chars_of(f[c.value].as_str()), &chars_of(","), &chars_of(""));
    let row = NcuRow {
        kernel: f[c.kernel].clone(),
        metric: f[c.metric].clone(),
        value: string_of(&value),
    };
    assert(row@ =~= row_of(line@, *c)->0);
    Some(row)
}

/// The lines of data of a table, or why it has none.
pub open spec fn ncu_table(content: Seq<char>) -> Result<Seq<Option<NcuRowV>>, NcuError> {
    let lines = text::lines(content);
    match header_from(lines, 0) {
        None => Err(NcuError::NoHeader),
        Some(h) => {
            let headers = csv_fields(lines[h]);
            match (
                column_from(headers, "Kernel Name"@, 0),
                column_from(headers, "Metric Name"@, 0),
                column_from(headers, "Metric Value"@, 0),
            ) {
                (Some(k), Some(m), Some(v)) => Ok(
                    Seq::new(
                        (lines.len() - h - 1) as nat,
                        |i: int|
                            row_of(
                                lines[h + 1 + i],
                                NcuColumns {
                                    kernel: k as usize,
                                    metric: m as usize,
                                    value: v as usize,
                                },
                            ),
                    ),
                ),
                _ => Err(NcuError::MissingColumns),
            }
        },
    }
}

fn find_header(lines: &[Vec<char>]) -> (r: Option<usize>)
    ensures
        match r {
            Some(k) => header_from(text::pieces(lines@), 0) == Some(k as int) && k < lines@.len(),
            None => header_from(text::pieces(lines@), 0) is None,
        },
{
    let kernel = chars_of("Kernel Name");
    let metric = chars_of("Metric");
    let mut k: usize = 0;
    while k < lines.len()
        invariant
            k <= lines@.len(),
            kernel@ == "Kernel Name"@,
            metric@ == "Metric"@,
            header_from(text::pieces(lines@), 0) == header_from(text::pieces(lines@), k as int),
        decreases lines@.len() - k,
    {
        assert(text::pieces(lines@)[k as int] == lines@[k as int]@);
        if find_chars(&lines[k], &kernel, 0).is_some() && find_chars(
            &lines[k],
            &metric,
            0,
        ).is_some() {
            return Some(k);
        }
        k = k + 1;
    }
    None
}

/// Reads a table: what each line of data says, in the order of the lines.
pub fn ncu_rows(content: &str) -> (r: Result<Vec<Option<NcuRow>>, NcuError>)
    ensures
        match r {
            Ok(rows) => ncu_table(content@) == Ok::<_, NcuError>(row_views(rows@)),
            Err(e) => ncu_table(content@) == Err::<Seq<Option<NcuRowV>>, _>(e),
        },
{
    let lines = lines_of(&chars_of(content));
    let ghost all = text::lines(content@);
    let h = match find_header(&lines) {
        Some(h) => h,
        None => {
            return Err(NcuError::NoHeader);
        },
    };
    assert(all[h as int] == lines@[h as int]@);
    let headers = parse_csv_line(string_of(&lines[h]).as_str());
    let columns = match (
        find_col(&headers, "Kernel Name"),
        find_col(&headers, "Metric Name"),
        find_col(&headers, "Metric Value"),
    ) {
        (Some(kernel), Some(metric), Some(value)) => NcuColumns { kernel, metric, value },
        _ => {
            return Err(NcuError::MissingColumns);
        },
    };
    let ghost want = ncu_table(content@);
    let mut rows: Vec<Option<NcuRow>> = Vec::new();
    let n: usize = lines.len();
    let mut i: usize = h + 1;
    assert(want is Ok);
    while i < lines.len()
        invariant
            h < i <= lines@.len(),
            text::pieces(lines@) == all,
            want is Ok,
            want->Ok_0.len() == all.len() - h - 1,
            forall|k: int|
                0 <= k < want->Ok_0.len() ==> #[trigger] want->Ok_0[k] == row_of(
                    all[h + 1 + k],
                    columns,
                ),
            row_views(rows@) =~= want->Ok_0.take(i - h - 1),
        decreases lines@.len() - i,
    {
        let ghost before = rows@;
        assert(all[i as int] == lines@[i as int]@);
        let row = read_row(&lines[i], &columns);
        let ghost read = opt_row(row);
        rows.push(row);
        assert(want->Ok_0[i - h - 1] == read);
        assert(row_views(rows@) =~= row_views(before).push(read));
        i = i + 1;
    }
    assert(row_views(rows@) =~= want->Ok_0);
    Ok(rows)
}

// ---------------------------------------------------------------------------
// Metrics of kernels
// ---------------------------------------------------------------------------

/// What was read of one kernel: metrics and the bits of their values, in the
/// order of the lines. The last value of a metric counts.
#[derive(Debug)]
pub struct KernelMetrics {
    pub name: String,
    pub readings: Vec<(String, u64)>,
}

#[verifier::ext_equal]
pub struct KernelMetricsV {
    pub name: Seq<char>,
    pub readings: Seq<(Seq<char>, u64)>,
}

impl View for KernelMetrics {
    type V = KernelMetricsV;

    open spec fn view(&self) -> KernelMetricsV {
        KernelMetricsV { name: self.name@, readings: reading_views(self.readings@) }
    }
}

pub open spec fn reading_views(v: Seq<(String, u64)>) -> Seq<(Seq<char>, u64)> {
    Seq::new(v.len(), |i: int| (v[i].0@, v[i].1))
}

pub open spec fn kernel_views(v: Seq<KernelMetrics>) -> Seq<KernelMetricsV> {
    Seq::new(v.len(), |i: int| v[i]@)
}

/// Where a kernel stands, at or after `k`.
pub open spec fn kernel_from(t: Seq<KernelMetricsV>, name: Seq<char>, k: int) -> Option<int>
    decreases t.len() - k,
{
    if k < 0 || k >= t.len() {
        None
    } else if t[k].name == name {
        Some(k)
    } else {
        kernel_from(t, name, k + 1)
    }
}

/// The table with one more reading.
pub open spec fn with_reading(
    t: Seq<KernelMetricsV>,
    kernel: Seq<char>,
    metric: Seq<char>,
    bits: u64,
) -> Seq<KernelMetricsV> {
    match kernel_from(t, kernel, 0) {
        Some(k) => t.update(
            k,
            KernelMetricsV { name: t[k].name, readings: t[k].readings.push((metric, bits)) },
        ),
        None => t.push(KernelMetricsV { name: kernel, readings: seq![(metric, bits)] }),
    }
}

/// What the first `n` lines give. `numbers` are the bits that the values' texts
/// stand for; a value that is not a finite number is passed over.
pub open spec fn collected(
    rows: Seq<Option<NcuRowV>>,
    numbers: Seq<Option<u64>>,
    n: int,
) -> Result<Seq<KernelMetricsV>, NcuError>
    decreases n,
{
    if n <= 0 {
        Ok(Seq::empty())
    } else {
        match collected(rows, numbers, n - 1) {
            Err(e) => Err(e),
            Ok(t) => if n > MAX_NCU_ROWS {
                Err(NcuError::TooManyRows)
            } else {
                match (rows[n - 1], numbers[n - 1]) {
                    (Some(row), Some(bits)) => if number::finite(bits) {
                        let next = with_reading(t, row.kernel, row.metric, bits);
                        if next.len() > MAX_KERNELS {
                            Err(NcuError::TooManyKernels)
                        } else {
                            Ok(next)
                        }
                    } else {
                        Ok(t)
                    },
                    _ => Ok(t),
                }
            },
        }
    }
}

proof fn an_error_stays(rows: Seq<Option<NcuRowV>>, numbers: Seq<Option<u64>>, n: int, m: int)
    requires
        n <= m,
        collected(rows, numbers, n) is Err,
    ensures
        collected(rows, numbers, m) == collected(rows, numbers, n),
    decreases m - n,
{
    if n < m {
        an_error_stays(rows, numbers, n, m - 1);
    }
}

fn find_kernel(t: &[KernelMetrics], name: &str) -> (r: Option<usize>)
    ensures
        match r {
            Some(k) => kernel_from(kernel_views(t@), name@, 0) == Some(k as int) && k < t@.len(),
            None => kernel_from(kernel_views(t@), name@, 0) is None,
        },
{
    let mut k: usize = 0;
    while k < t.len()
        invariant
            k <= t@.len(),
            kernel_from(kernel_views(t@), name@, 0) == kernel_from(
                kernel_views(t@),
                name@,
                k as int,
            ),
        decreases t@.len() - k,
    {
        assert(kernel_views(t@)[k as int] == t@[k as int]@);
        if same_text(t[k].name.as_str(), name) {
            return Some(k);
        }
        k = k + 1;
    }
    None
}

fn add_reading(t: &mut Vec<KernelMetrics>, kernel: &str, metric: &str, bits: u64)
    ensures
        kernel_views(final(t)@) == with_reading(kernel_views(old(t)@), kernel@, metric@, bits),
{
    let ghost before = t@;
    match find_kernel(t, kernel) {
        Some(k) => {
            let ghost entry = t@[k as int];
            t[k].readings.push((metric.to_owned(), bits));
            assert(reading_views(t@[k as int].readings@) =~= reading_views(entry.readings@).push(
                (metric@, bits),
            ));
            assert(kernel_views(t@) =~= with_reading(
                kernel_views(before),
                kernel@,
                metric@,
                bits,
            ));
        },
        None => {
            let mut readings: Vec<(String, u64)> = Vec::new();
            readings.push((metric.to_owned(), bits));
            let entry = KernelMetrics { name: kernel.to_owned(), readings };
            assert(entry@ =~= (KernelMetricsV { name: kernel@, readings: seq![(metric@, bits)] }));
            t.push(entry);
            assert(kernel_views(t@) =~= with_reading(
                kernel_views(before),
                kernel@,
                metric@,
                bits,
            ));
        },
    }
}

/// Gathers the readings of each kernel, in the order in which kernels come
/// first.
pub fn collect_metrics(rows: &[Option<NcuRow>], numbers: &[Option<u64>]) -> (r: Result<
    Vec<KernelMetrics>,
    NcuError,
>)
    requires
        rows@.len() == numbers@.len(),
    ensures
        match r {
            Ok(t) => collected(row_views(rows@), numbers@, rows@.len() as int) == Ok::<
                _,
                NcuError,
            >(kernel_views(t@)),
            Err(e) => collected(row_views(rows@), numbers@, rows@.len() as int) == Err::<
                Seq<KernelMetricsV>,
                _,
            >(e),
        },
{
    let ghost rv = row_views(rows@);
    let mut t: Vec<KernelMetrics> = Vec::new();
    let mut i: usize = 0;
    assert(kernel_views(t@) =~= Seq::<KernelMetricsV>::empty());
    while i < rows.len()
        invariant
            i <= rows@.len(),
            rows@.len() == numbers@.len(),
            rv == row_views(rows@),
            collected(rv, numbers@, i as int) == Ok::<_, NcuError>(kernel_views(t@)),
        decreases rows@.len() - i,
    {
        assert(rv[i as int] == opt_row(rows@[i as int]));
        if i >= MAX_NCU_ROWS {
            proof {
                an_error_stays(rv, numbers@, i + 1, rows@.len() as int);
            }
            return Err(NcuError::TooManyRows);
        }
        if let Some(row) = &rows[i] {
            if let Some(bits) = numbers[i] {
                if is_finite(bits) {
                    add_reading(&mut t, row.kernel.as_str(), row.metric.as_str(), bits);
                    assert(kernel_views(t@).len() == t@.len());
                    if t.len() > MAX_KERNELS {
                        proof {
                            an_error_stays(rv, numbers@, i + 1, rows@.len() as int);
                        }
                        return Err(NcuError::TooManyKernels);
                    }
                }
            }
        }
        i = i + 1;
    }
    Ok(t)
}

/// A table that is accepted names each kernel once.
pub proof fn kernels_are_distinct(
    rows: Seq<Option<NcuRowV>>,
    numbers: Seq<Option<u64>>,
    n: int,
    i: int,
    j: int,
)
    requires
        collected(rows, numbers, n) is Ok,
        0 <= i < j < collected(rows, numbers, n)->Ok_0.len(),
    ensures
        collected(rows, numbers, n)->Ok_0[i].name != collected(rows, numbers, n)->Ok_0[j].name,
    decreases n,
{
    let t = collected(rows, numbers, n)->Ok_0;
    if n > 0 {
        let before = collected(rows, numbers, n - 1)->Ok_0;
        if rows[n - 1] is Some {
            kernel_is_there(before, rows[n - 1]->0.kernel, 0);
        }
        if t.len() == before.len() {
            kernels_are_distinct(rows, numbers, n - 1, i, j);
        } else if j < before.len() {
            kernels_are_distinct(rows, numbers, n - 1, i, j);
        } else {
            absent_means_other(before, t[j].name, 0, i);
        }
    }
}

proof fn kernel_is_there(t: Seq<KernelMetricsV>, name: Seq<char>, k: int)
    requires
        0 <= k,
    ensures
        kernel_from(t, name, k) matches Some(i) ==> k <= i < t.len() && t[i].name == name,
    decreases t.len() - k,
{
    if k < t.len() {
        kernel_is_there(t, name, k + 1);
    }
}

proof fn absent_means_other(t: Seq<KernelMetricsV>, name: Seq<char>, k: int, i: int)
    requires
        kernel_from(t, name, k) is None,
        0 <= k <= i < t.len(),
    ensures
        t[i].name != name,
    decreases t.len() - k,
{
    if k < i {
        absent_means_other(t, name, k + 1, i);
    }
}

// ---------------------------------------------------------------------------
// Records
// ---------------------------------------------------------------------------

/// The last value of a metric among the first `n` readings.
pub open spec fn last_reading(r: Seq<(Seq<char>, u64)>, metric: Seq<char>, n: int) -> Option<u64>
    decreases n,
{
    if n <= 0 || n > r.len() {
        None
    } else if r[n - 1].0 == metric {
        Some(r[n - 1].1)
    } else {
        last_reading(r, metric, n - 1)
    }
}

/// The value of a metric.
pub open spec fn metric(k: KernelMetricsV, name: Seq<char>) -> Option<u64> {
    last_reading(k.readings, name, k.readings.len() as int)
}

/// The first value that is there.
pub open spec fn or_else(a: Option<u64>, b: Option<u64>) -> Option<u64> {
    if a is Some {
        a
    } else {
        b
    }
}

impl KernelMetrics {
    /// The value of a metric.
    pub fn get(&self, name: &str) -> (r: Option<u64>)
        ensures
            r == metric(self@, name@),
    {
        let mut n: usize = self.readings.len();
        while n > 0
            invariant
                n <= self.readings@.len(),
                metric(self@, name@) == last_reading(self@.readings, name@, n as int),
            decreases n,
        {
            assert(self@.readings[n - 1] == (
                self.readings@[n - 1].0@,
                self.readings@[n - 1].1,
            ));
            if same_text(self.readings[n - 1].0.as_str(), name) {
                return Some(self.readings[n - 1].1);
            }
            n = n - 1;
        }
        None
    }

    fn get_either(&self, name: &str, other: &str) -> (r: Option<u64>)
        ensures
            r == or_else(metric(self@, name@), metric(self@, other@)),
    {
        match self.get(name) {
            Some(v) => Some(v),
            None => self.get(other),
        }
    }
}

/// A count that a number stands for: its whole part, where it is not negative
/// and not beyond the range.
pub open spec fn count_of(bits: Option<u64>) -> Option<int> {
    match bits {
        Some(b) => if number::finite(b) && 0 <= number::units(b) <= 0x8000_0000_0000_0000
            * number::one() {
            Some(number::clamped(number::truncated(b)))
        } else {
            None
        },
        None => None,
    }
}

/// The bits of two to the power of 63.
pub const RANGE_END: u64 = 0x43e0_0000_0000_0000;

pub fn nonnegative_i64(bits: Option<u64>) -> (r: Option<i64>)
    ensures
        match r {
            Some(n) => count_of(bits) == Some(n as int),
            None => count_of(bits) is None,
        },
{
    match bits {
        Some(b) => {
            proof {
                number::range_end();
                number::zero_is_zero();
            }
            if is_finite(b) && !is_less(b, 0) && !is_less(RANGE_END, b) {
                Some(truncate(b))
            } else {
                None
            }
        },
        None => None,
    }
}

/// What holds a kernel back.
///
/// Both shares are finite and not negative. Where both are below ten per cent
/// it is latency; else it is the greater share, by whatever factor it is
/// greater, and memory where they are equal.
pub open spec fn boundedness(compute: Option<u64>, memory: Option<u64>) -> Option<Seq<char>> {
    match (compute, memory) {
        (Some(c), Some(m)) => {
            let cu = number::units(c);
            let mu = number::units(m);
            if !number::finite(c) || !number::finite(m) || cu < 0 || mu < 0 {
                None
            } else if cu < 10 * number::one() && mu < 10 * number::one() {
                Some("latency"@)
            } else if 2 * mu > 3 * cu {
                Some("memory"@)
            } else if 2 * cu > 3 * mu {
                Some("compute"@)
            } else if mu >= cu {
                Some("memory"@)
            } else {
                Some("compute"@)
            }
        },
        _ => None,
    }
}

/// What holds a kernel back, by the bits of its shares of the peak.
pub fn classify_boundedness(compute: Option<u64>, memory: Option<u64>) -> (r: Option<String>)
    ensures
        text::opt_text(r) == boundedness(compute, memory),
{
    match (compute, memory) {
        (Some(c), Some(m)) => {
            proof {
                number::ten_is_ten();
                number::zero_is_zero();
            }
            if !is_finite(c) || !is_finite(m) || is_less(c, 0) || is_less(m, 0) {
                None
            } else if is_less(c, TEN) && is_less(m, TEN) {
                Some("latency".to_owned())
            } else if !is_less(m, c) {
                Some("memory".to_owned())
            } else {
                Some("compute".to_owned())
            }
        },
        _ => None,
    }
}

/// What is kept of a kernel's metrics. Shares and rates are the bits of
/// numbers; `achieved_bandwidth` is in bytes per second.
#[derive(Debug)]
pub struct MetricRecord {
    pub occupancy: Option<u64>,
    pub compute_throughput: Option<u64>,
    pub memory_throughput: Option<u64>,
    pub registers: Option<i64>,
    pub shared_static: Option<i64>,
    pub shared_dynamic: Option<i64>,
    pub l2_hit_rate: Option<u64>,
    pub achieved_bandwidth: Option<u64>,
    pub boundedness: Option<String>,
}

pub open spec fn opt_int(n: Option<i64>) -> Option<int> {
    match n {
        Some(v) => Some(v as int),
        None => None,
    }
}

pub open spec fn compute_share(k: KernelMetricsV) -> Option<u64> {
    or_else(
        metric(k, "sm__throughput.avg.pct_of_peak_sustained_elapsed"@),
        metric(k, "sm__pipe_tensor_cycles_active.avg.pct_of_peak_sustained_elapsed"@),
    )
}

/// Newer devices give the share of memory under another name.
pub open spec fn memory_share(k: KernelMetricsV) -> Option<u64> {
    or_else(
        or_else(
            metric(k, "dram__throughput.avg.pct_of_peak_sustained_elapsed"@),
            metric(k, "gpu__dram_throughput.avg.pct_of_peak_sustained_elapsed"@),
        ),
        metric(k, "gpu__compute_memory_throughput.avg.pct_of_peak_sustained_elapsed"@),
    )
}

/// The metrics of a kernel that are kept.
pub fn metric_record(k: &KernelMetrics) -> (r: MetricRecord)
    ensures
        r.occupancy == metric(k@, "sm__warps_active.avg.pct_of_peak_sustained_active"@),
        r.compute_throughput == compute_share(k@),
        r.memory_throughput == memory_share(k@),
        opt_int(r.registers) == count_of(metric(k@, "launch__registers_per_thread"@)),
        opt_int(r.shared_static) == count_of(metric(k@, "launch__shared_mem_per_block_static"@)),
        opt_int(r.shared_dynamic) == count_of(
            metric(k@, "launch__shared_mem_per_block_dynamic"@),
        ),
        r.l2_hit_rate == or_else(
            metric(k@, "lts__t_sector_hit_rate.pct"@),
            metric(k@, "l2__t_sector_hit_rate.pct"@),
        ),
        r.achieved_bandwidth == metric(k@, "dram__bytes.sum.per_second"@),
        text::opt_text(r.boundedness) == boundedness(compute_share(k@), memory_share(k@)),
{
    let compute = k.get_either(
        "sm__throughput.avg.pct_of_peak_sustained_elapsed",
        "sm__pipe_tensor_cycles_active.avg.pct_of_peak_sustained_elapsed",
    );
    let memory = match k.get_either(
        "dram__throughput.avg.pct_of_peak_sustained_elapsed",
        "gpu__dram_throughput.avg.pct_of_peak_sustained_elapsed",
    ) {
        Some(v) => Some(v),
        None => k.get("gpu__compute_memory_throughput.avg.pct_of_peak_sustained_elapsed"),
    };
    MetricRecord {
        occupancy: k.get("sm__warps_active.avg.pct_of_peak_sustained_active"),
        compute_throughput: compute,
        memory_throughput: memory,
        registers: nonnegative_i64(k.get("launch__registers_per_thread")),
        shared_static: nonnegative_i64(k.get("launch__shared_mem_per_block_static")),
        shared_dynamic: nonnegative_i64(k.get("launch__shared_mem_per_block_dynamic")),
        l2_hit_rate: k.get_either("lts__t_sector_hit_rate.pct", "l2__t_sector_hit_rate.pct"),
        achieved_bandwidth: k.get("dram__bytes.sum.per_second"),
        boundedness: classify_boundedness(compute, memory),
    }
}

/// A launch as it was measured. The duration is the bits of a number of
/// nanoseconds.
#[derive(Debug, Clone, Copy, PartialEq, Eq, Structural)]
pub struct MeasuredLaunch {
    pub duration: u64,
    pub grid_x: u32,
    pub grid_y: u32,
    pub grid_z: u32,
    pub block_x: u32,
    pub block_y: u32,
    pub block_z: u32,
    pub stream: Option<i64>,
}

/// A dimension that is not a whole number in range.
#[derive(Debug, Clone, Copy)]
pub struct InvalidDim {
    pub name: &'static str,
    /// The bits of its value.
    pub value: u64,
}

/// A number that can be a dimension.
pub open spec fn is_dim(bits: u64) -> bool {
    &&& number::finite(bits)
    &&& number::units(bits) >= 0
    &&& number::whole(bits)
    &&& number::truncated(bits) <= u32::MAX
}

/// The bits of a metric; zero where it is missing.
pub open spec fn or_zero(bits: Option<u64>) -> u64 {
    match bits {
        Some(b) => b,
        None => 0,
    }
}

pub fn valid_dim(bits: u64, name: &'static str) -> (r: Result<u32, InvalidDim>)
    ensures
        match r {
            Ok(n) => is_dim(bits) && n == number::truncated(bits),
            Err(e) => !is_dim(bits) && e.name@ == name@ && e.value == bits,
        },
{
    proof {
        number::zero_is_zero();
        number::negative_has_sign(bits);
    }
    if !is_finite(bits) || is_less(bits, 0) || !is_whole(bits) {
        return Err(InvalidDim { name, value: bits });
    }
    let n: i64 = truncate(bits);
    if n < 0 || n > u32::MAX as i64 {
        return Err(InvalidDim { name, value: bits });
    }
    Ok(n as u32)
}

/// The names under which a launch's dimensions are measured and reported.
pub open spec fn dims() -> Seq<(Seq<char>, Seq<char>)> {
    seq![
        ("launch__grid_size_x"@, "grid_x"@),
        ("launch__grid_size_y"@, "grid_y"@),
        ("launch__grid_size_z"@, "grid_z"@),
        ("launch__block_size_x"@, "block_x"@),
        ("launch__block_size_y"@, "block_y"@),
        ("launch__block_size_z"@, "block_z"@),
    ]
}

pub open spec fn dim_bits(k: KernelMetricsV, i: int) -> u64 {
    or_zero(metric(k, dims()[i].0))
}

/// The first dimension at or after `i` that is not valid.
pub open spec fn bad_dim(k: KernelMetricsV, i: int) -> Option<int>
    decreases 6 - i,
{
    if i < 0 || i >= 6 {
        None
    } else if !is_dim(dim_bits(k, i)) {
        Some(i)
    } else {
        bad_dim(k, i + 1)
    }
}

pub open spec fn duration_bits(k: KernelMetricsV) -> u64 {
    or_zero(or_else(metric(k, "gpu__time_duration.sum"@), metric(k, "Duration"@)))
}

/// The dimensions of a launch.
pub open spec fn launch_dims(l: MeasuredLaunch) -> Seq<int> {
    seq![
        l.grid_x as int,
        l.grid_y as int,
        l.grid_z as int,
        l.block_x as int,
        l.block_y as int,
        l.block_z as int,
    ]
}

fn read_dim(k: &KernelMetrics, metric_name: &str, name: &'static str) -> (r: Result<
    u32,
    InvalidDim,
>)
    ensures
        ({
            let bits = or_zero(metric(k@, metric_name@));
            match r {
                Ok(n) => is_dim(bits) && n == number::truncated(bits),
                Err(e) => !is_dim(bits) && e.name@ == name@ && e.value == bits,
            }
        }),
{
    let bits: u64 = match k.get(metric_name) {
        Some(b) => b,
        None => 0,
    };
    valid_dim(bits, name)
}

/// The launch that was measured of a kernel: none without a duration, and an
/// error at the first dimension that is not valid.
pub fn measured_launch(k: &KernelMetrics) -> (r: Result<Option<MeasuredLaunch>, InvalidDim>)
    ensures
        ({
            let lasts = number::finite(duration_bits(k@)) && number::units(duration_bits(k@)) > 0;
            match r {
                Ok(None) => !lasts,
                Ok(Some(l)) => {
                    &&& lasts
                    &&& bad_dim(k@, 0) is None
                    &&& l.duration == duration_bits(k@)
                    &&& forall|i: int|
                        0 <= i < 6 ==> #[trigger] launch_dims(l)[i] == number::truncated(
                            dim_bits(k@, i),
                        )
                    &&& opt_int(l.stream) == match metric(k@, "launch__stream_id"@) {
                        Some(b) => Some(number::clamped(number::truncated(b))),
                        None => None,
                    }
                },
                Err(e) => {
                    &&& lasts
                    &&& bad_dim(k@, 0) is Some
                    &&& e.name@ == dims()[bad_dim(k@, 0)->0].1
                    &&& e.value == dim_bits(k@, bad_dim(k@, 0)->0)
                },
            }
        }),
{
    let duration: u64 = match k.get_either("gpu__time_duration.sum", "Duration") {
        Some(b) => b,
        None => 0,
    };
    proof {
        number::zero_is_zero();
        reveal_with_fuel(bad_dim, 7);
    }
    if !is_finite(duration) || !is_less(0, duration) {
        return Ok(None);
    }
    let grid_x: u32 = match read_dim(k, "launch__grid_size_x", "grid_x") {
        Ok(n) => n,
        Err(e) => {
            return Err(e);
        },
    };
    let grid_y: u32 = match read_dim(k, "launch__grid_size_y", "grid_y") {
        Ok(n) => n,
        Err(e) => {
            return Err(e);
        },
    };
    let grid_z: u32 = match read_dim(k, "launch__grid_size_z", "grid_z") {
        Ok(n) => n,
        Err(e) => {
            return Err(e);
        },
    };
    let block_x: u32 = match read_dim(k, "launch__block_size_x", "block_x") {
        Ok(n) => n,
        Err(e) => {
            return Err(e);
        },
    };
    let block_y: u32 = match read_dim(k, "launch__block_size_y", "block_y") {
        Ok(n) => n,
        Err(e) => {
            return Err(e);
        },
    };
    let block_z: u32 = match read_dim(k, "launch__block_size_z", "block_z") {
        Ok(n) => n,
        Err(e) => {
            return Err(e);
        },
    };
    let stream: Option<i64> = match k.get("launch__stream_id") {
        Some(b) => Some(truncate(b)),
        None => None,
    };
    Ok(
        Some(
            MeasuredLaunch { duration, grid_x, grid_y, grid_z, block_x, block_y, block_z, stream },
        ),
    )
}

/// The shares decide by their order alone: the greater one, whatever the
/// margin, unless both are below ten per cent.
pub proof fn the_greater_share_decides(c: u64, m: u64)
    requires
        number::finite(c),
        number::finite(m),
        number::units(c) >= 10 * number::one() || number::units(m) >= 10 * number::one(),
        number::units(c) >= 0,
        number::units(m) >= 0,
    ensures
        boundedness(Some(c), Some(m)) == Some(
            if number::units(m) >= number::units(c) {
                "memory"@
            } else {
                "compute"@
            },
        ),
{
}

// ---------------------------------------------------------------------------
// Laws
// ---------------------------------------------------------------------------

/// The value of a kernel's metric in a table.
pub open spec fn value_in(t: Seq<KernelMetricsV>, kernel: Seq<char>, name: Seq<char>) -> Option<
    u64,
> {
    match kernel_from(t, kernel, 0) {
        Some(k) => metric(t[k], name),
        None => None,
    }
}

proof fn kernel_is_first(t: Seq<KernelMetricsV>, name: Seq<char>, k: int)
    requires
        0 <= k,
    ensures
        match kernel_from(t, name, k) {
            Some(i) => k <= i < t.len() && t[i].name == name && forall|j: int|
                k <= j < i ==> (#[trigger] t[j]).name != name,
            None => forall|j: int| k <= j < t.len() ==> (#[trigger] t[j]).name != name,
        },
    decreases t.len() - k,
{
    if k < t.len() && t[k].name != name {
        kernel_is_first(t, name, k + 1);
    }
}

proof fn kernel_that_is_first(t: Seq<KernelMetricsV>, name: Seq<char>, k: int, i: int)
    requires
        0 <= k <= i < t.len(),
        t[i].name == name,
        forall|j: int| k <= j < i ==> (#[trigger] t[j]).name != name,
    ensures
        kernel_from(t, name, k) == Some(i),
    decreases i - k,
{
    if k < i {
        kernel_that_is_first(t, name, k + 1, i);
    }
}

proof fn readings_before(r: Seq<(Seq<char>, u64)>, x: (Seq<char>, u64), name: Seq<char>, n: int)
    requires
        n <= r.len(),
    ensures
        last_reading(r.push(x), name, n) == last_reading(r, name, n),
    decreases n,
{
    if n > 0 {
        assert(r.push(x)[n - 1] == r[n - 1]);
        readings_before(r, x, name, n - 1);
    }
}

/// A reading sets the value of its kernel's metric, and of no other.
pub proof fn a_reading_sets_one_value(
    t: Seq<KernelMetricsV>,
    kernel: Seq<char>,
    name: Seq<char>,
    bits: u64,
    other: Seq<char>,
    second: Seq<char>,
)
    ensures
        value_in(with_reading(t, kernel, name, bits), other, second) == if other == kernel && second
            == name {
            Some(bits)
        } else {
            value_in(t, other, second)
        },
{
    let u = with_reading(t, kernel, name, bits);
    kernel_is_first(t, kernel, 0);
    kernel_is_first(t, other, 0);
    kernel_is_first(u, other, 0);
    match kernel_from(t, kernel, 0) {
        Some(k) => {
            let r = t[k].readings;
            let x = (name, bits);
            readings_before(r, x, second, r.len() as int);
            assert(u[k].readings == r.push(x));
            assert(r.push(x)[r.len() as int] == x);
            assert forall|j: int| 0 <= j < t.len() implies (#[trigger] u[j]).name == t[j].name by {}
            if kernel_from(t, other, 0) is Some {
                let i = kernel_from(t, other, 0)->0;
                assert(u[i].name == other);
                assert forall|j: int| 0 <= j < i implies (#[trigger] u[j]).name != other by {
                    assert(t[j].name != other);
                }
                kernel_that_is_first(u, other, 0, i);
                if i != k {
                    assert(u[i] == t[i]);
                }
            } else if kernel_from(u, other, 0) is Some {
                let i = kernel_from(u, other, 0)->0;
                assert(t[i].name == u[i].name);
            }
        },
        None => {
            let n = t.len() as int;
            let x = (name, bits);
            assert(u[n].readings == seq![x]);
            assert(last_reading(seq![x], second, 0) is None);
            assert(seq![x][0] == x);
            if kernel_from(t, other, 0) is Some {
                let i = kernel_from(t, other, 0)->0;
                assert(u[i] == t[i]);
                assert forall|j: int| 0 <= j < i implies (#[trigger] u[j]).name != other by {
                    assert(u[j] == t[j]);
                }
                kernel_that_is_first(u, other, 0, i);
                assert(t[i].name == other);
            } else if other == kernel {
                assert forall|j: int| 0 <= j < n implies (#[trigger] u[j]).name != other by {
                    assert(u[j] == t[j]);
                }
                kernel_that_is_first(u, other, 0, n);
            } else if kernel_from(u, other, 0) is Some {
                let i = kernel_from(u, other, 0)->0;
                if i < n {
                    assert(u[i] == t[i]);
                }
            }
        },
    }
}

/// The line gives a value that is kept.
pub open spec fn gives(
    rows: Seq<Option<NcuRowV>>,
    numbers: Seq<Option<u64>>,
    i: int,
    kernel: Seq<char>,
    name: Seq<char>,
) -> bool {
    &&& rows[i] is Some
    &&& rows[i]->0.kernel == kernel
    &&& rows[i]->0.metric == name
    &&& numbers[i] is Some
    &&& number::finite(numbers[i]->0)
}

/// The last line that gives a value of a metric counts, whatever other lines
/// stand between; a metric that no line gives has none.
pub proof fn the_last_line_of_a_metric_counts(
    rows: Seq<Option<NcuRowV>>,
    numbers: Seq<Option<u64>>,
    n: int,
    i: int,
    kernel: Seq<char>,
    name: Seq<char>,
)
    requires
        0 <= n,
        -1 <= i < n,
        collected(rows, numbers, n) is Ok,
        i >= 0 ==> gives(rows, numbers, i, kernel, name),
        forall|j: int| i < j < n ==> !#[trigger] gives(rows, numbers, j, kernel, name),
    ensures
        value_in(collected(rows, numbers, n)->Ok_0, kernel, name) == if i >= 0 {
            numbers[i]
        } else {
            None
        },
    decreases n,
{
    if n > 0 {
        let t = collected(rows, numbers, n - 1)->Ok_0;
        match (rows[n - 1], numbers[n - 1]) {
            (Some(row), Some(bits)) => {
                if number::finite(bits) {
                    a_reading_sets_one_value(t, row.kernel, row.metric, bits, kernel, name);
                }
            },
            _ => {},
        }
        if i < n - 1 {
            assert(!gives(rows, numbers, n - 1, kernel, name));
            the_last_line_of_a_metric_counts(rows, numbers, n - 1, i, kernel, name);
        } else {
            assert(gives(rows, numbers, n - 1, kernel, name));
        }
    }
}

/// A table with no more lines than the kernels that may be read is accepted,
/// and one with more lines than may be read is refused. What is accepted is
/// within the limits.
pub proof fn a_table_is_refused_for_its_size_alone(
    rows: Seq<Option<NcuRowV>>,
    numbers: Seq<Option<u64>>,
    n: int,
)
    requires
        0 <= n,
    ensures
        n <= MAX_KERNELS ==> collected(rows, numbers, n) is Ok,
        n > MAX_NCU_ROWS ==> collected(rows, numbers, n) is Err,
        collected(rows, numbers, n) matches Ok(t) ==> t.len() <= n && t.len() <= MAX_KERNELS,
    decreases n,
{
    if n > 0 {
        a_table_is_refused_for_its_size_alone(rows, numbers, n - 1);
        if collected(rows, numbers, n - 1) is Ok && rows[n - 1] is Some {
            kernel_is_first(collected(rows, numbers, n - 1)->Ok_0, rows[n - 1]->0.kernel, 0);
        }
    }
}

/// A line of quoted fields says what stands in the three columns, and the
/// commas fall out of the value.
pub proof fn a_line_says_what_its_columns_hold(fields: Seq<Seq<char>>, c: NcuColumns)
    requires
        c.kernel < fields.len(),
        c.metric < fields.len(),
        c.value < fields.len(),
        text::trim(fields[c.kernel as int]).len() > 0,
        text::trim(fields[c.metric as int]).len() > 0,
    ensures
        row_of(csv_line(fields), c) == Some(
            NcuRowV {
                kernel: text::trim(fields[c.kernel as int]),
                metric: text::trim(fields[c.metric as int]),
                value: text::replace(text::trim(fields[c.value as int]), ","@, ""@),
            },
        ),
{
    let line = csv_line(fields);
    line_is_quoted(fields);
    quoted_fields_read_back(fields);
    text::trimming_takes_only_white_space(line);
    reveal_strlit("==");
    if text::starts_with(line, "=="@) {
        assert(line.subrange(0, 2)[0] == line[0]);
    }
}

proof fn line_is_quoted(fields: Seq<Seq<char>>)
    requires
        fields.len() > 0,
    ensures
        csv_line(fields).len() > 0,
        csv_line(fields)[0] == '"',
        csv_line(fields).last() == '"',
    decreases fields.len(),
{
    if fields.len() > 1 {
        line_is_quoted(fields.skip(1));
        let rest = csv_line(fields.skip(1));
        assert(csv_line(fields).last() == rest.last());
    }
}

/// The header is the first line that names a kernel and a metric.
pub proof fn the_first_candidate_is_the_header(lines: Seq<Seq<char>>, i: int, h: int)
    requires
        0 <= i <= h <= lines.len(),
        forall|j: int|
            i <= j < h ==> !(text::contains(#[trigger] lines[j], "Kernel Name"@) && text::contains(
                lines[j],
                "Metric"@,
            )),
        h < lines.len() ==> text::contains(lines[h], "Kernel Name"@) && text::contains(
            lines[h],
            "Metric"@,
        ),
    ensures
        header_from(lines, i) == if h < lines.len() {
            Some(h)
        } else {
            None
        },
    decreases h - i,
{
    if i < h {
        the_first_candidate_is_the_header(lines, i + 1, h);
    }
}

/// A column goes by its name in any case, with byte order marks and white space
/// before it; the first such column is taken.
pub proof fn a_column_goes_by_its_name(
    headers: Seq<Seq<char>>,
    name: Seq<char>,
    i: int,
    k: int,
)
    requires
        0 <= i <= k < headers.len(),
        forall|j: int| i <= j < k ==> !is_column(#[trigger] headers[j], name),
        text::lowered(headers[k]) == text::lowered(name),
        text::is_trimmed(headers[k]),
        headers[k].len() > 0 ==> headers[k][0] != '\u{feff}',
    ensures
        column_from(headers, name, i) == Some(k),
    decreases k - i,
{
    if i < k {
        a_column_goes_by_its_name(headers, name, i + 1, k);
    } else {
        text::trimming_takes_only_white_space(headers[k]);
    }
}

/// Marks before a name fall away.
pub proof fn marks_fall_away(name: Seq<char>)
    requires
        text::is_trimmed(name),
    ensures
        is_column(seq!['\u{feff}'] + name, name) <==> is_column(name, name),
{
    let s = seq!['\u{feff}'] + name;
    assert(s.skip(1) == name);
    assert(text::is_trimmed(s)) by {
        if name.len() > 0 {
            assert(s.last() == name.last());
        }
    }
    text::trimming_takes_only_white_space(s);
    text::trimming_takes_only_white_space(name);
}

/// Every line behind the header is read, in its place.
pub proof fn every_line_behind_the_header_is_read(content: Seq<char>, h: int, i: int)
    requires
        ncu_table(content) is Ok,
        header_from(text::lines(content), 0) == Some(h),
        h < i < text::lines(content).len(),
        csv_fields(text::lines(content)[h]).len() <= usize::MAX,
    ensures
        ncu_table(content)->Ok_0.len() == text::lines(content).len() - h - 1,
        exists|c: NcuColumns|
            ncu_table(content)->Ok_0[i - h - 1] == #[trigger] row_of(text::lines(content)[i], c)
                && column_from(csv_fields(text::lines(content)[h]), "Kernel Name"@, 0) == Some(
                c.kernel as int,
            ) && column_from(csv_fields(text::lines(content)[h]), "Metric Name"@, 0) == Some(
                c.metric as int,
            ) && column_from(csv_fields(text::lines(content)[h]), "Metric Value"@, 0) == Some(
                c.value as int,
            ),
{
    let lines = text::lines(content);
    let headers = csv_fields(lines[h]);
    let k = column_from(headers, "Kernel Name"@, 0)->0;
    let m = column_from(headers, "Metric Name"@, 0)->0;
    let v = column_from(headers, "Metric Value"@, 0)->0;
    let c = NcuColumns { kernel: k as usize, metric: m as usize, value: v as usize };
    columns_are_in_range(headers, "Kernel Name"@, 0);
    columns_are_in_range(headers, "Metric Name"@, 0);
    columns_are_in_range(headers, "Metric Value"@, 0);
    assert(lines[h + 1 + (i - h - 1)] == lines[i]);
    assert(ncu_table(content)->Ok_0[i - h - 1] == row_of(lines[i], c));
}

proof fn columns_are_in_range(headers: Seq<Seq<char>>, name: Seq<char>, k: int)
    requires
        0 <= k,
    ensures
        column_from(headers, name, k) matches Some(i) ==> 0 <= i < headers.len(),
    decreases headers.len() - k,
{
    if k < headers.len() {
        columns_are_in_range(headers, name, k + 1);
    }
}

/// A count is the whole part of a number from zero up to two to the power of
/// 63, and no other number is a count.
pub proof fn a_count_is_a_whole_part(bits: u64, n: int)
    requires
        number::finite(bits),
        bits < number::SIGN,
    ensures
        number::units(bits) < 0x8000_0000_0000_0000 * number::one() && n * number::one()
            <= number::units(bits) < (n + 1) * number::one() ==> count_of(Some(bits)) == Some(n),
        number::units(bits) > 0x8000_0000_0000_0000 * number::one() ==> count_of(Some(bits)) is None,
        count_of(None) is None,
{
    let o = number::one() as int;
    let u = number::units(bits);
    let w = number::truncated(bits);
    number::the_whole_part_is_within_one(bits);
    number::zero_is_zero();
    number::negative_has_sign(bits);
    assert(u >= 0);
    if u < 0x8000_0000_0000_0000 * o && n * o <= u < (n + 1) * o {
        assert(n == w && w < 0x8000_0000_0000_0000) by (nonlinear_arith)
            requires
                o >= 0,
                n * o <= u < (n + 1) * o,
                w * o <= u < (w + 1) * o,
                u < 0x8000_0000_0000_0000 * o,
        ;
    }
}

/// Shares that are both below ten per cent are latency, however far apart.
/// Without both shares, or with one that is no number or negative, nothing is
/// said.
pub proof fn low_shares_are_latency(c: u64, m: u64)
    ensures
        number::finite(c) && number::finite(m) && 0 <= number::units(c) < 10 * number::one() && 0
            <= number::units(m) < 10 * number::one() ==> boundedness(Some(c), Some(m)) == Some(
            "latency"@,
        ),
        !number::finite(c) || !number::finite(m) || number::units(c) < 0 || number::units(m) < 0
            ==> boundedness(Some(c), Some(m)) is None,
        boundedness(None, Some(m)) is None,
        boundedness(Some(c), None) is None,
        boundedness(None, None) is None,
{
}

/// A dimension that is not valid is found, and it is the first one; none is
/// found where all are valid.
pub proof fn the_first_bad_dimension_is_reported(k: KernelMetricsV, i: int)
    requires
        0 <= i <= 6,
    ensures
        match bad_dim(k, i) {
            Some(b) => i <= b < 6 && !is_dim(dim_bits(k, b)) && forall|j: int|
                i <= j < b ==> is_dim(#[trigger] dim_bits(k, j)),
            None => forall|j: int| i <= j < 6 ==> is_dim(#[trigger] dim_bits(k, j)),
        },
    decreases 6 - i,
{
    if i < 6 {
        the_first_bad_dimension_is_reported(k, i + 1);
    }
}

/// Of the names under which a value may stand, an earlier one is taken where it
/// is there, and a later one where it is not.
pub proof fn the_first_name_is_taken(k: KernelMetricsV)
    ensures
        metric(k, "sm__throughput.avg.pct_of_peak_sustained_elapsed"@) is Some ==> compute_share(k)
            == metric(k, "sm__throughput.avg.pct_of_peak_sustained_elapsed"@),
        metric(k, "sm__throughput.avg.pct_of_peak_sustained_elapsed"@) is None ==> compute_share(k)
            == metric(k, "sm__pipe_tensor_cycles_active.avg.pct_of_peak_sustained_elapsed"@),
        metric(k, "dram__throughput.avg.pct_of_peak_sustained_elapsed"@) is Some ==> memory_share(k)
            == metric(k, "dram__throughput.avg.pct_of_peak_sustained_elapsed"@),
        metric(k, "dram__throughput.avg.pct_of_peak_sustained_elapsed"@) is None && metric(
            k,
            "gpu__dram_throughput.avg.pct_of_peak_sustained_elapsed"@,
        ) is Some ==> memory_share(k) == metric(
            k,
            "gpu__dram_throughput.avg.pct_of_peak_sustained_elapsed"@,
        ),
        metric(k, "dram__throughput.avg.pct_of_peak_sustained_elapsed"@) is None && metric(
            k,
            "gpu__dram_throughput.avg.pct_of_peak_sustained_elapsed"@,
        ) is None ==> memory_share(k) == metric(
            k,
            "gpu__compute_memory_throughput.avg.pct_of_peak_sustained_elapsed"@,
        ),
        metric(k, "gpu__time_duration.sum"@) is Some ==> duration_bits(k) == metric(
            k,
            "gpu__time_duration.sum"@,
        )->0,
        metric(k, "gpu__time_duration.sum"@) is None && metric(k, "Duration"@) is Some
            ==> duration_bits(k) == metric(k, "Duration"@)->0,
{
}

/// The dimensions are measured under these names and reported under those.
pub proof fn dimensions_have_their_names()
    ensures
        dims().len() == 6,
        dims()[0] == ("launch__grid_size_x"@, "grid_x"@),
        dims()[1] == ("launch__grid_size_y"@, "grid_y"@),
        dims()[2] == ("launch__grid_size_z"@, "grid_z"@),
        dims()[3] == ("launch__block_size_x"@, "block_x"@),
        dims()[4] == ("launch__block_size_y"@, "block_y"@),
        dims()[5] == ("launch__block_size_z"@, "block_z"@),
{
}

/// A dimension is a whole number that fits.
pub proof fn a_dimension_is_a_whole_number(bits: u64, n: int)
    requires
        is_dim(bits),
        number::truncated(bits) == n,
    ensures
        number::units(bits) == n * number::one(),
        0 <= n <= u32::MAX,
{
    number::the_whole_part_is_within_one(bits);
    number::negative_has_sign(bits);
}

/// Every whole number that fits is a dimension, zero too; a metric that is
/// missing stands for zero.
pub proof fn whole_numbers_are_dimensions(bits: u64, n: int, k: KernelMetricsV, i: int)
    requires
        number::finite(bits),
        bits < number::SIGN,
        number::units(bits) == n * number::one(),
        0 <= n <= u32::MAX,
        0 <= i < 6,
    ensures
        is_dim(bits),
        number::truncated(bits) == n,
        metric(k, dims()[i].0) is None ==> dim_bits(k, i) == 0 && is_dim(dim_bits(k, i))
            && number::truncated(dim_bits(k, i)) == 0,
        metric(k, dims()[i].0) matches Some(b) ==> dim_bits(k, i) == b,
        metric(k, "gpu__time_duration.sum"@) is None && metric(k, "Duration"@) is None
            ==> number::units(duration_bits(k)) == 0,
{
    let o = number::one() as int;
    number::zero_is_zero();
    number::the_whole_part_is_within_one(bits);
    number::the_whole_part_is_within_one(0);
    number::negative_has_sign(0);
    let w = number::truncated(bits);
    let z = number::truncated(0);
    assert(n * o >= 0) by (nonlinear_arith)
        requires
            n >= 0,
            o >= 0,
    ;
    assert(w == n) by (nonlinear_arith)
        requires
            w * o <= n * o < (w + 1) * o,
            o >= 0,
    ;
    assert(z == 0) by (nonlinear_arith)
        requires
            z * o <= 0 < (z + 1) * o,
            o >= 0,
    ;
    assert(z * o == 0) by (nonlinear_arith)
        requires
            z == 0,
    ;
}

/// Text without quotes and commas.
pub open spec fn is_plain_field(s: Seq<char>) -> bool {
    !s.contains('"') && !s.contains(',')
}

proof fn plain_text_is_read(s: Seq<char>, i: int, j: int, field: Seq<char>, quoted: bool)
    requires
        0 <= i <= j <= s.len(),
        forall|k: int| i <= k < j ==> #[trigger] s[k] != '"' && (s[k] != ',' || quoted),
    ensures
        fields_from(s, i, field, quoted) == fields_from(s, j, field + s.subrange(i, j), quoted),
    decreases j - i,
{
    if i < j {
        plain_text_is_read(s, i + 1, j, field.push(s[i]), quoted);
        assert(field.push(s[i]) + s.subrange(i + 1, j) == field + s.subrange(i, j));
    } else {
        assert(field + s.subrange(i, j) == field);
    }
}

proof fn fields_behind(a: Seq<char>, s: Seq<char>, i: int, field: Seq<char>, quoted: bool)
    requires
        0 <= i <= s.len(),
    ensures
        fields_from(a + s, a.len() + i, field, quoted) == fields_from(s, i, field, quoted),
    decreases s.len() - i,
{
    let t = a + s;
    if i < s.len() {
        assert(t[a.len() + i] == s[i]);
        if i + 1 < s.len() {
            assert(t[a.len() + i + 1] == s[i + 1]);
        }
        if s[i] == '"' && quoted && i + 1 < s.len() && s[i + 1] == '"' {
            fields_behind(a, s, i + 2, field.push('"'), quoted);
        } else if s[i] == '"' {
            fields_behind(a, s, i + 1, field, !quoted);
        } else if s[i] == ',' && !quoted {
            fields_behind(a, s, i + 1, Seq::empty(), false);
        } else {
            fields_behind(a, s, i + 1, field.push(s[i]), quoted);
        }
    }
}

/// A field without quotes ends at the next comma, and what follows is read on
/// its own.
pub proof fn a_plain_field_ends_at_a_comma(first: Seq<char>, rest: Seq<char>)
    requires
        is_plain_field(first),
        fields_from(rest, 0, Seq::empty(), false) is Some,
    ensures
        csv_fields(first + seq![','] + rest) == seq![text::trim(first)] + csv_fields(rest),
        csv_fields(first) == seq![text::trim(first)],
{
    let s = first + seq![','] + rest;
    let n = first.len() as int;
    assert forall|k: int| 0 <= k < n implies #[trigger] s[k] != '"' && s[k] != ',' by {
        assert(s[k] == first[k]);
    }
    plain_text_is_read(s, 0, n, Seq::empty(), false);
    assert(Seq::<char>::empty() + s.subrange(0, n) == first);
    assert(s[n] == ',');
    assert(s == (first + seq![',']) + rest);
    fields_behind(first + seq![','], rest, 0, Seq::empty(), false);
    plain_text_is_read(first, 0, n, Seq::empty(), false);
    assert(Seq::<char>::empty() + first.subrange(0, n) == first);
}

/// A line that leaves a quote open has no fields.
pub proof fn an_open_quote_leaves_no_fields(s: Seq<char>)
    requires
        !s.contains('"'),
    ensures
        csv_fields(seq!['"'] + s).len() == 0,
{
    let t = seq!['"'] + s;
    let n = t.len() as int;
    assert forall|k: int| 1 <= k < n implies #[trigger] t[k] != '"' by {
        assert(t[k] == s[k - 1]);
    }
    plain_text_is_read(t, 1, n, Seq::empty(), true);
    assert(t[0] == '"');
    assert(fields_from(t, 0, Seq::empty(), false) == fields_from(t, 1, Seq::empty(), true));
}

} // verus!
