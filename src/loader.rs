//! The provider's snapshot format and the replace-by-key load into the store.
//!
//! A snapshot is CSV text: a header line, then one line per cell with the
//! columns `radio, mcc, net, area, cell, unit, lon, lat, range, samples,
//! changeable, created, updated, averageSignal`. A unit of `-1` and an empty
//! average signal mean absent; `created` and `updated` are Unix seconds;
//! `changeable` is `0` or `1`. A load is all or nothing: one malformed line
//! and nothing is written.
use vstd::prelude::*;

use crate::cell::{Cell, CellCursor, Coord};
use crate::radio::{radio_from_lower, radio_from_upper, Radio};
use crate::store::CellStore;
use crate::text::{
    lemma_split_nonempty, parse_decimal, parse_i16, parse_signed, parse_unsigned, part_views,
    split_on, split_sep,
};

verus! {

/// ASCII `,`.
pub const COMMA: u8 = 44;

/// ASCII line feed.
pub const LINE_FEED: u8 = 10;

/// Number of columns of a snapshot line.
pub const COLUMNS: usize = 14;

/// A radio column: the name in upper or in lower case.
pub open spec fn radio_field(f: Seq<u8>) -> Option<Radio> {
    match radio_from_upper(f) {
        Some(r) => Some(r),
        None => radio_from_lower(f),
    }
}

/// The unit column: `-1` is absent.
pub open spec fn unit_field(f: Seq<u8>) -> Option<Option<u16>> {
    if f == seq![45u8, 49u8] {
        Some(None)
    } else {
        match parse_unsigned(f, u16::MAX as nat) {
            Some(v) => Some(Some(v as u16)),
            None => None,
        }
    }
}

pub open spec fn changeable_field(f: Seq<u8>) -> Option<bool> {
    if f == seq![48u8] {
        Some(false)
    } else if f == seq![49u8] {
        Some(true)
    } else {
        None
    }
}

/// The average signal column: empty is absent.
pub open spec fn signal_field(f: Seq<u8>) -> Option<Option<i16>> {
    if f.len() == 0 {
        Some(None)
    } else {
        match parse_signed(f, 32768, 32767) {
            Some(v) => Some(Some(v as i16)),
            None => None,
        }
    }
}

/// One parsed snapshot line. The coordinates stay text: they are decimal
/// floats, read outside this library.
#[derive(Clone, Debug)]
pub struct CsvRow {
    pub radio: Radio,
    pub mcc: u16,
    pub net: u16,
    pub area: u32,
    pub cell: u64,
    pub unit: Option<u16>,
    pub lon_text: Vec<u8>,
    pub lat_text: Vec<u8>,
    pub cell_range: u32,
    pub samples: u32,
    pub changeable: bool,
    pub created: i64,
    pub updated: i64,
    pub average_signal: Option<i16>,
}

/// The columns `f` form a valid line.
pub open spec fn row_ok(f: Seq<Seq<u8>>) -> bool {
    &&& f.len() == COLUMNS
    &&& radio_field(f[0]) is Some
    &&& parse_unsigned(f[1], u16::MAX as nat) is Some
    &&& parse_unsigned(f[2], u16::MAX as nat) is Some
    &&& parse_unsigned(f[3], u32::MAX as nat) is Some
    &&& parse_unsigned(f[4], u64::MAX as nat) is Some
    &&& unit_field(f[5]) is Some
    &&& parse_unsigned(f[8], u32::MAX as nat) is Some
    &&& parse_unsigned(f[9], u32::MAX as nat) is Some
    &&& changeable_field(f[10]) is Some
    &&& parse_unsigned(f[11], i64::MAX as nat) is Some
    &&& parse_unsigned(f[12], i64::MAX as nat) is Some
    &&& signal_field(f[13]) is Some
}

/// `row` holds what the columns `f` say.
pub open spec fn row_is(f: Seq<Seq<u8>>, row: CsvRow) -> bool {
    &&& f.len() == COLUMNS
    &&& radio_field(f[0]) == Some(row.radio)
    &&& parse_unsigned(f[1], u16::MAX as nat) == Some(row.mcc as nat)
    &&& parse_unsigned(f[2], u16::MAX as nat) == Some(row.net as nat)
    &&& parse_unsigned(f[3], u32::MAX as nat) == Some(row.area as nat)
    &&& parse_unsigned(f[4], u64::MAX as nat) == Some(row.cell as nat)
    &&& unit_field(f[5]) == Some(row.unit)
    &&& row.lon_text@ == f[6]
    &&& row.lat_text@ == f[7]
    &&& parse_unsigned(f[8], u32::MAX as nat) == Some(row.cell_range as nat)
    &&& parse_unsigned(f[9], u32::MAX as nat) == Some(row.samples as nat)
    &&& changeable_field(f[10]) == Some(row.changeable)
    &&& row.created >= 0 && parse_unsigned(f[11], i64::MAX as nat) == Some(row.created as nat)
    &&& row.updated >= 0 && parse_unsigned(f[12], i64::MAX as nat) == Some(row.updated as nat)
    &&& signal_field(f[13]) == Some(row.average_signal)
}

fn read_radio(f: &[u8]) -> (r: Option<Radio>)
    ensures
        r == radio_field(f@),
{
    match Radio::from_upper_name(f) {
        Some(r) => Some(r),
        None => Radio::from_storage_name(f),
    }
}

fn read_unit(f: &[u8]) -> (r: Option<Option<u16>>)
    ensures
        r == unit_field(f@),
{
    if f.len() == 2 && f[0] == 45 && f[1] == 49 {
        assert(f@ =~= seq![45u8, 49u8]);
        return Some(None);
    }
    assert(f@ != seq![45u8, 49u8]);
    match parse_decimal(f, 0xffff) {
        Some(v) => Some(Some(v as u16)),
        None => None,
    }
}

fn read_changeable(f: &[u8]) -> (r: Option<bool>)
    ensures
        r == changeable_field(f@),
{
    if f.len() == 1 && f[0] == 48 {
        assert(f@ =~= seq![48u8]);
        Some(false)
    } else if f.len() == 1 && f[0] == 49 {
        assert(f@ =~= seq![49u8]);
        Some(true)
    } else {
        assert(f@ != seq![48u8]);
        assert(f@ != seq![49u8]);
        None
    }
}

fn read_signal(f: &[u8]) -> (r: Option<Option<i16>>)
    ensures
        r == signal_field(f@),
{
    if f.len() == 0 {
        return Some(None);
    }
    match parse_i16(f) {
        Some(v) => Some(Some(v)),
        None => None,
    }
}

/// Reads one snapshot line (without its line feed).
pub fn parse_csv_row(line: &[u8]) -> (r: Option<CsvRow>)
    ensures
        match r {
            Some(row) => row_is(split_sep(line@, COMMA), row),
            None => !row_ok(split_sep(line@, COMMA)),
        },
{
    let f = split_on(line, COMMA);
    let ghost fv = part_views(f@);
    if f.len() != COLUMNS {
        return None;
    }
    assert(forall|i: int| 0 <= i < 14 ==> #[trigger] f@[i]@ == fv[i]);
    assert(f[0]@ == fv[0] && f[1]@ == fv[1] && f[2]@ == fv[2] && f[3]@ == fv[3]);
    assert(f[4]@ == fv[4] && f[5]@ == fv[5] && f[6]@ == fv[6] && f[7]@ == fv[7]);
    assert(f[8]@ == fv[8] && f[9]@ == fv[9] && f[10]@ == fv[10] && f[11]@ == fv[11]);
    assert(f[12]@ == fv[12] && f[13]@ == fv[13]);
    let radio = match read_radio(f[0].as_slice()) {
        Some(v) => v,
        None => return None,
    };
    let mcc = match parse_decimal(f[1].as_slice(), 0xffff) {
        Some(v) => v as u16,
        None => return None,
    };
    let net = match parse_decimal(f[2].as_slice(), 0xffff) {
        Some(v) => v as u16,
        None => return None,
    };
    let area = match parse_decimal(f[3].as_slice(), 0xffff_ffff) {
        Some(v) => v as u32,
        None => return None,
    };
    let cell = match parse_decimal(f[4].as_slice(), u64::MAX) {
        Some(v) => v,
        None => return None,
    };
    let unit = match read_unit(f[5].as_slice()) {
        Some(v) => v,
        None => return None,
    };
    let cell_range = match parse_decimal(f[8].as_slice(), 0xffff_ffff) {
        Some(v) => v as u32,
        None => return None,
    };
    let samples = match parse_decimal(f[9].as_slice(), 0xffff_ffff) {
        Some(v) => v as u32,
        None => return None,
    };
    let changeable = match read_changeable(f[10].as_slice()) {
        Some(v) => v,
        None => return None,
    };
    let created = match parse_decimal(f[11].as_slice(), i64::MAX as u64) {
        Some(v) => v as i64,
        None => return None,
    };
    let updated = match parse_decimal(f[12].as_slice(), i64::MAX as u64) {
        Some(v) => v as i64,
        None => return None,
    };
    let average_signal = match read_signal(f[13].as_slice()) {
        Some(v) => v,
        None => return None,
    };
    let lon_text = f[6].clone();
    let lat_text = f[7].clone();
    Some(
        CsvRow {
            radio,
            mcc,
            net,
            area,
            cell,
            unit,
            lon_text,
            lat_text,
            cell_range,
            samples,
            changeable,
            created,
            updated,
            average_signal,
        },
    )
}

/// The data lines of a snapshot: every line after the header, without the
/// empty piece that a final line feed leaves.
pub open spec fn data_lines(text: Seq<u8>) -> Seq<Seq<u8>> {
    let body = split_sep(text, LINE_FEED).drop_first();
    if body.len() > 0 && body.last().len() == 0 {
        body.drop_last()
    } else {
        body
    }
}

/// A snapshot line that is not in the expected format.
#[derive(Clone, Copy, Debug, PartialEq, Eq, Structural)]
pub struct LoadError {
    /// Line number in the file, counting the header as line 1.
    pub line: usize,
}

/// Reads every data line of a snapshot. Either all lines are valid and each
/// gives one row, or the first invalid line is reported and nothing else is.
pub fn parse_snapshot(text: &[u8]) -> (r: Result<Vec<CsvRow>, LoadError>)
    ensures
        match r {
            Ok(rows) => rows@.len() == data_lines(text@).len() && forall|i: int|
                0 <= i < rows@.len() ==> row_is(split_sep(data_lines(text@)[i], COMMA), #[trigger] rows@[i]),
            Err(e) => e.line >= 2 && e.line - 2 < data_lines(text@).len() && !row_ok(
                split_sep(data_lines(text@)[e.line - 2], COMMA),
            ) && forall|j: int| 0 <= j < e.line - 2 ==> row_ok(split_sep(#[trigger] data_lines(text@)[j], COMMA)),
        },
{
    let lines = split_on(text, LINE_FEED);
    let ghost lv = part_views(lines@);
    proof {
        lemma_split_nonempty(text@, LINE_FEED);
        assert forall|k: int| 0 <= k < lines@.len() implies #[trigger] lv[k] == lines@[k]@ by {}
    }
    let ghost body = lv.drop_first();
    let ghost data = data_lines(text@);
    let n = lines.len();
    let end: usize = if n > 1 && lines[n - 1].len() == 0 {
        n - 1
    } else {
        n
    };
    assert(lines@[n - 1]@ == lv[n - 1]);
    assert(data.len() == end - 1);
    assert forall|i: int| 0 <= i < data.len() implies data[i] == #[trigger] lines@[i + 1]@ by {
        assert(lv[i + 1] == lines@[i + 1]@);
    }
    let mut rows: Vec<CsvRow> = Vec::new();
    let mut i: usize = 1;
    while i < end
        invariant
            1 <= i <= end,
            end <= lines@.len(),
            data.len() == end - 1,
            data == data_lines(text@),
            forall|k: int| 0 <= k < data.len() ==> #[trigger] data[k] == lines@[k + 1]@,
            rows@.len() == i - 1,
            forall|k: int| 0 <= k < rows@.len() ==> row_is(split_sep(data[k], COMMA), #[trigger] rows@[k]),
            forall|k: int| 0 <= k < i - 1 ==> row_ok(split_sep(#[trigger] data[k], COMMA)),
        decreases end - i,
    {
        assert(data[i - 1] == lines@[i as int]@);
        match parse_csv_row(lines[i].as_slice()) {
            Some(row) => {
                rows.push(row);
            },
            None => {
                return Err(LoadError { line: i + 1 });
            },
        }
        i = i + 1;
    }
    Ok(rows)
}

impl CsvRow {
    /// The cell this line describes, with its coordinates read.
    pub fn to_cell(&self, lon: Coord, lat: Coord) -> (r: Cell)
        ensures
            r == (Cell {
                radio: self.radio,
                mcc: self.mcc,
                net: self.net,
                area: self.area,
                cell: self.cell,
                unit: self.unit,
                lon,
                lat,
                cell_range: self.cell_range,
                samples: self.samples,
                changeable: self.changeable,
                created: self.created,
                updated: self.updated,
                average_signal: self.average_signal,
            }),
    {
        Cell {
            radio: self.radio,
            mcc: self.mcc,
            net: self.net,
            area: self.area,
            cell: self.cell,
            unit: self.unit,
            lon,
            lat,
            cell_range: self.cell_range,
            samples: self.samples,
            changeable: self.changeable,
            created: self.created,
            updated: self.updated,
            average_signal: self.average_signal,
        }
    }
}

/// No row of `rows` after index `a` has key `k`.
pub open spec fn no_key_after(rows: Seq<Cell>, a: int, k: CellCursor) -> bool {
    forall|j: int| a < j < rows.len() ==> (#[trigger] rows[j]).key() != k
}

/// `c` is the last row of `rows` with its key.
pub open spec fn last_of_key(rows: Seq<Cell>, c: Cell) -> bool {
    exists|a: int| 0 <= a < rows.len() && rows[a] == c && #[trigger] no_key_after(rows, a, c.key())
}

/// `c` is what loading `rows` over `before` leaves for its key: the last row
/// with that key, else the row that was there.
pub open spec fn loaded(before: Seq<Cell>, rows: Seq<Cell>, c: Cell) -> bool {
    last_of_key(rows, c) || (before.contains(c) && no_key_after(rows, -1, c.key()))
}

proof fn lemma_no_key_after_push(t0: Seq<Cell>, row: Cell, a: int, k: CellCursor)
    requires
        -1 <= a < t0.len(),
    ensures
        no_key_after(t0.push(row), a, k) <==> (no_key_after(t0, a, k) && row.key() != k),
{
    let t1 = t0.push(row);
    assert(t1[t0.len() as int] == row);
    if no_key_after(t0, a, k) && row.key() != k {
        assert forall|j: int| a < j < t1.len() implies (#[trigger] t1[j]).key() != k by {
            if j < t0.len() {
                assert(t1[j] == t0[j]);
            }
        }
    }
    if no_key_after(t1, a, k) {
        assert forall|j: int| a < j < t0.len() implies (#[trigger] t0[j]).key() != k by {
            assert(t1[j] == t0[j]);
        }
    }
}

proof fn lemma_last_of_key_push(t0: Seq<Cell>, row: Cell, c: Cell)
    ensures
        last_of_key(t0.push(row), c) <==> (c == row || (last_of_key(t0, c) && c.key()
            != row.key())),
{
    let t1 = t0.push(row);
    let n = t0.len() as int;
    assert(t1[n] == row);
    if c == row {
        assert(no_key_after(t1, n, c.key()));
    }
    if last_of_key(t1, c) && c != row {
        let a = choose|a: int| 0 <= a < t1.len() && t1[a] == c && #[trigger] no_key_after(t1, a, c.key());
        assert(a < n);
        lemma_no_key_after_push(t0, row, a, c.key());
        assert(t0[a] == c);
    }
    if last_of_key(t0, c) && c.key() != row.key() {
        let a = choose|a: int| 0 <= a < t0.len() && t0[a] == c && #[trigger] no_key_after(t0, a, c.key());
        lemma_no_key_after_push(t0, row, a, c.key());
        assert(t1[a] == c);
    }
}

/// Loading one more row: it is kept, and it displaces whatever had its key.
proof fn lemma_loaded_push(before: Seq<Cell>, t0: Seq<Cell>, row: Cell, c: Cell)
    ensures
        loaded(before, t0.push(row), c) <==> (c == row || (loaded(before, t0, c) && c.key()
            != row.key())),
{
    lemma_last_of_key_push(t0, row, c);
    lemma_no_key_after_push(t0, row, -1, c.key());
}

impl CellStore {
    /// Writes every row in full over the row with the same key (replace
    /// semantics); returns the number of rows written.
    pub fn load(&mut self, rows: &Vec<Cell>) -> (r: usize)
        requires
            old(self).wf(),
        ensures
            final(self).wf(),
            r == rows@.len(),
            forall|c: Cell| final(self)@.contains(c) <==> loaded(old(self)@, rows@, c),
    {
        let ghost before = self@;
        let mut i: usize = 0;
        while i < rows.len()
            invariant
                self.wf(),
                i <= rows@.len(),
                forall|c: Cell| self@.contains(c) <==> loaded(before, rows@.take(i as int), c),
            decreases rows@.len() - i,
        {
            let ghost prev = self@;
            let row = rows[i];
            self.upsert(row);
            proof {
                let t0 = rows@.take(i as int);
                assert(rows@.take(i + 1) =~= t0.push(row));
                assert forall|c: Cell| self@.contains(c) <==> loaded(before, rows@.take(i + 1), c) by {
                    lemma_loaded_push(before, t0, row, c);
                }
            }
            i = i + 1;
        }
        assert(rows@.take(rows@.len() as int) =~= rows@);
        rows.len()
    }
}

} // verus!
