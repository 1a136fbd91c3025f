//! Table viewer for dBASE (.dbf) files and comma-separated text: parsing
//! and cursor movement over the grid of fields and records.

use vstd::prelude::*;
use crate::text::{
    chars_of, equals, lossy_text, push_char, split_lines, strip_end, trim, trim_end_char_str,
    trim_str, utf8_lossy,
};

verus! {

/// A column of the table: its name, dBASE type letter and width.
#[derive(Debug, Clone)]
pub struct DbfField {
    pub name: String,
    pub field_type: char,
    pub length: usize,
}

/// The table: columns, records of field texts, and the cursor and scroll
/// position in rows and columns.
#[derive(Debug, Clone)]
pub struct DbfData {
    pub fields: Vec<DbfField>,
    pub records: Vec<Vec<String>>,
    pub col_cursor: usize,
    pub row_cursor: usize,
    pub col_scroll: usize,
    pub row_scroll: usize,
    pub filename: String,
    pub source_type: SourceType,
}

/// Where the table came from.
#[derive(Debug, Clone, PartialEq, Eq, Structural)]
pub enum SourceType {
    Dbf,
    Csv,
}

/// A little-endian 16-bit number at `i`.
pub open spec fn le16(d: Seq<u8>, i: int) -> int {
    d[i] + 256 * d[i + 1]
}

/// A little-endian 32-bit number at `i`.
pub open spec fn le32(d: Seq<u8>, i: int) -> int {
    d[i] + 256 * d[i + 1] + 65536 * d[i + 2] + 16777216 * d[i + 3]
}

/// The record count in a dBASE header.
pub open spec fn record_count(d: Seq<u8>) -> int {
    le32(d, 4)
}

/// The header size in a dBASE header.
pub open spec fn header_size(d: Seq<u8>) -> int {
    le16(d, 8)
}

/// The record size in a dBASE header.
pub open spec fn record_size(d: Seq<u8>) -> int {
    le16(d, 10)
}

/// The name in the field descriptor at `off`: its 11 bytes decoded, NUL
/// padding removed from the end, then trimmed.
pub open spec fn field_name(d: Seq<u8>, off: int) -> Seq<char> {
    trim(strip_end(lossy_text(d.subrange(off, off + 11)), equals('\0')))
}

/// A column as plain values: name, type letter, width.
pub type FieldSpec = (Seq<char>, char, nat);

/// The field descriptors from `off` on: 32 bytes each, while a whole one
/// lies below `limit`, up to a 0x0D terminator or an empty name.
pub open spec fn field_list(d: Seq<u8>, limit: int, off: int) -> Seq<FieldSpec>
    decreases limit - off,
{
    if off < 0 || off + 32 > limit || limit > d.len() || d[off] == 0x0D || field_name(d, off).len() == 0 {
        Seq::empty()
    } else {
        seq![(field_name(d, off), d[off + 11] as char, d[off + 16] as nat)] + field_list(d, limit, off + 32)
    }
}

/// The columns of a dBASE file: descriptors from byte 32 up to the header
/// size or the end of the data.
pub open spec fn dbf_fields(d: Seq<u8>) -> Seq<FieldSpec> {
    let hs = header_size(d);
    field_list(d, if hs < d.len() { hs } else { d.len() as int }, 32)
}

/// The field texts of a record whose fields start at `fo`: each field's
/// bytes (cut at the end of the data) decoded and trimmed.
pub open spec fn record_values(d: Seq<u8>, fields: Seq<FieldSpec>, fo: int) -> Seq<Seq<char>>
    decreases fields.len(),
{
    if fields.len() == 0 {
        Seq::empty()
    } else {
        let len = fields[0].2 as int;
        let end = if fo + len < d.len() { fo + len } else { d.len() as int };
        seq![trim(lossy_text(d.subrange(fo, end)))] + record_values(d, fields.drop_first(), fo + len)
    }
}

/// Every field of a record starting at `fo` starts within the data.
pub open spec fn fields_fit(d: Seq<u8>, fields: Seq<FieldSpec>, fo: int) -> bool
    decreases fields.len(),
{
    fields.len() == 0 || (fo <= d.len() && fields_fit(d, fields.drop_first(), fo + fields[0].2))
}

/// The byte where record `i` starts.
pub open spec fn record_offset(d: Seq<u8>, i: int) -> int {
    header_size(d) + i * record_size(d)
}

/// The records from number `i` on: up to the record count or the end of
/// the data, records marked deleted (0x2A) left out.
pub open spec fn records_from(d: Seq<u8>, fields: Seq<FieldSpec>, i: int) -> Seq<Seq<Seq<char>>>
    decreases record_count(d) - i,
{
    if i < 0 || i >= record_count(d) || record_offset(d, i) >= d.len() || record_size(d) <= 0 {
        Seq::empty()
    } else if d[record_offset(d, i)] == 0x2A {
        records_from(d, fields, i + 1)
    } else {
        seq![record_values(d, fields, record_offset(d, i) + 1)] + records_from(d, fields, i + 1)
    }
}

/// Every record that is read has all its fields starting within the data.
pub open spec fn records_fit(d: Seq<u8>, fields: Seq<FieldSpec>, i: int) -> bool
    decreases record_count(d) - i,
{
    if i < 0 || i >= record_count(d) || record_offset(d, i) >= d.len() || record_size(d) <= 0 {
        true
    } else {
        (d[record_offset(d, i)] == 0x2A || fields_fit(d, fields, record_offset(d, i) + 1))
            && records_fit(d, fields, i + 1)
    }
}

/// Whether a dBASE file can be read without a field of a record starting
/// past the end of the data. (A header of less than 32 bytes, a header
/// size under 32 or a zero record size are errors, not faults.)
pub open spec fn dbf_readable(d: Seq<u8>) -> bool {
    d.len() >= 32 && header_size(d) >= 32 && record_size(d) > 0 ==> records_fit(d, dbf_fields(d), 0)
}

/// What reading a dBASE file gives: an error for less than 32 bytes, for a
/// header size under 32 or a zero record size, and for no columns; else the
/// columns and the records.
pub open spec fn dbf_parse(d: Seq<u8>) -> Result<(Seq<FieldSpec>, Seq<Seq<Seq<char>>>), Seq<char>> {
    if d.len() < 32 {
        Err("File too small — not a valid DBF"@)
    } else if header_size(d) < 32 || record_size(d) == 0 {
        Err("Invalid DBF header"@)
    } else if dbf_fields(d).len() == 0 {
        Err("No fields found in DBF"@)
    } else {
        Ok((dbf_fields(d), records_from(d, dbf_fields(d), 0)))
    }
}

/// A column as plain values.
pub open spec fn field_spec(f: DbfField) -> FieldSpec {
    (f.name@, f.field_type, f.length as nat)
}

/// The scan of a CSV line from position `i`, inside quotes or not, with the
/// field read so far and the fields before it: quotes switch quoting and
/// are dropped, a comma outside quotes ends a field, and each field is
/// trimmed.
pub open spec fn csv_scan(s: Seq<char>, i: int, quoted: bool, cur: Seq<char>, acc: Seq<Seq<char>>) -> Seq<Seq<char>>
    decreases s.len() - i,
{
    if i < 0 || i >= s.len() {
        acc.push(trim(cur))
    } else if s[i] == '"' {
        csv_scan(s, i + 1, !quoted, cur, acc)
    } else if s[i] == ',' && !quoted {
        csv_scan(s, i + 1, quoted, Seq::empty(), acc.push(trim(cur)))
    } else {
        csv_scan(s, i + 1, quoted, cur.push(s[i]), acc)
    }
}

/// The fields of a CSV line.
pub open spec fn csv_fields(s: Seq<char>) -> Seq<Seq<char>> {
    csv_scan(s, 0, false, Seq::empty(), Seq::empty())
}

/// Splits one CSV line into trimmed fields; commas inside double quotes do
/// not split, and the quotes themselves are dropped.
pub fn parse_csv_row(line: &str) -> (fields: Vec<String>)
    ensures
        fields.deep_view() == csv_fields(line@),
{
    let v = chars_of(line);
    let mut fields: Vec<String> = Vec::new();
    let mut current = String::new();
    let mut in_quotes = false;
    let mut i: usize = 0;
    assert(fields.deep_view() =~= Seq::<Seq<char>>::empty());
    assert(current@ =~= Seq::<char>::empty());
    while i < v.len()
        invariant
            i <= v@.len(),
            v@ == line@,
            csv_scan(v@, i as int, in_quotes, current@, fields.deep_view()) == csv_fields(line@),
        decreases v@.len() - i,
    {
        let ch = v[i];
        if ch == '"' {
            in_quotes = !in_quotes;
        } else if ch == ',' && !in_quotes {
            let t = trim_str(current.as_str());
            let ghost before = fields.deep_view();
            fields.push(t);
            assert(fields.deep_view() =~= before.push(trim(current@)));
            current = String::new();
        } else {
            push_char(&mut current, ch);
        }
        i += 1;
    }
    let t = trim_str(current.as_str());
    let ghost before = fields.deep_view();
    fields.push(t);
    assert(fields.deep_view() =~= before.push(trim(current@)));
    fields
}

/// A little-endian 16-bit number at `i`.
fn read_le16(d: &[u8], i: usize) -> (n: usize)
    requires
        i + 1 < d.len(),
    ensures
        n == le16(d@, i as int),
{
    d[i] as usize + 256 * d[i + 1] as usize
}

/// A little-endian 32-bit number at `i`.
fn read_le32(d: &[u8], i: usize) -> (n: u32)
    requires
        i + 3 < d.len(),
    ensures
        n == le32(d@, i as int),
{
    d[i] as u32 + 256 * d[i + 1] as u32 + 65536 * d[i + 2] as u32 + 16777216 * d[i + 3] as u32
}

/// The columns as plain values.
pub open spec fn fields_view(fs: Seq<DbfField>) -> Seq<FieldSpec> {
    fs.map_values(|f: DbfField| field_spec(f))
}

/// Every listed field descriptor has a width below 256 (it is one byte).
pub proof fn lemma_field_list_widths(d: Seq<u8>, limit: int, off: int)
    ensures
        forall|k: int| 0 <= k < field_list(d, limit, off).len() ==> #[trigger] field_list(d, limit, off)[k].2 < 256,
    decreases limit - off,
{
    if !(off < 0 || off + 32 > limit || limit > d.len() || d[off] == 0x0D || field_name(d, off).len() == 0) {
        lemma_field_list_widths(d, limit, off + 32);
        let rest = field_list(d, limit, off + 32);
        assert forall|k: int| 0 <= k < field_list(d, limit, off).len() implies #[trigger] field_list(d, limit, off)[k].2 < 256 by {
            if k > 0 {
                assert(field_list(d, limit, off)[k] == rest[k - 1]);
            }
        }
    }
}

/// Reads the field descriptors from byte 32 up to `limit`.
fn parse_fields(d: &[u8], limit: usize) -> (fs: Vec<DbfField>)
    requires
        limit <= d.len(),
    ensures
        fields_view(fs@) == field_list(d@, limit as int, 32),
        forall|k: int| 0 <= k < fs.len() ==> #[trigger] fs@[k].length < 256,
{
    let mut fs: Vec<DbfField> = Vec::new();
    let mut offset: usize = 32;
    proof {
        lemma_field_list_widths(d@, limit as int, 32);
    }
    assert(fields_view(fs@) + field_list(d@, limit as int, 32) =~= field_list(d@, limit as int, 32));
    while offset <= limit && limit - offset >= 32
        invariant_except_break
            fields_view(fs@) + field_list(d@, limit as int, offset as int) == field_list(d@, limit as int, 32),
        invariant
            limit <= d.len(),
            32 <= offset,
            forall|k: int| 0 <= k < field_list(d@, limit as int, 32).len() ==> #[trigger] field_list(d@, limit as int, 32)[k].2 < 256,
            fs.len() <= field_list(d@, limit as int, 32).len(),
            forall|k: int| 0 <= k < fs.len() ==> fields_view(fs@)[k] == field_list(d@, limit as int, 32)[k],
        ensures
            fields_view(fs@) == field_list(d@, limit as int, 32),
        decreases limit - offset,
    {
        if d[offset] == 0x0D {
            assert(field_list(d@, limit as int, offset as int) =~= Seq::<FieldSpec>::empty());
            assert(fields_view(fs@) =~= fields_view(fs@) + field_list(d@, limit as int, offset as int));
            break;
        }
        let raw = vstd::slice::slice_subrange(d, offset, offset + 11);
        let text = utf8_lossy(raw);
        let unpadded = trim_end_char_str(text.as_str(), '\0');
        let name = trim_str(unpadded.as_str());
        assert(raw@ =~= d@.subrange(offset as int, offset + 11));
        assert(name@ == field_name(d@, offset as int));
        if name.as_str().is_empty() {
            assert(field_list(d@, limit as int, offset as int) =~= Seq::<FieldSpec>::empty());
            assert(fields_view(fs@) =~= fields_view(fs@) + field_list(d@, limit as int, offset as int));
            break;
        }
        let field_type = d[offset + 11] as char;
        let length = d[offset + 16] as usize;
        let ghost before = fields_view(fs@);
        let ghost rest = field_list(d@, limit as int, offset + 32);
        fs.push(DbfField { name, field_type, length });
        assert(fields_view(fs@) =~= before.push(field_spec(fs@[fs.len() - 1])));
        assert(field_list(d@, limit as int, offset as int)
            =~= seq![(field_name(d@, offset as int), d@[offset + 11] as char, d@[offset + 16] as nat)] + rest);
        assert(fields_view(fs@) + rest =~= before + field_list(d@, limit as int, offset as int));
        offset = offset + 32;
    }
    proof {
        assert forall|k: int| 0 <= k < fs.len() implies #[trigger] fs@[k].length < 256 by {
            assert(fields_view(fs@).len() == fs@.len());
            assert(fields_view(fs@)[k] == field_spec(fs@[k]));
            assert(field_list(d@, limit as int, 32)[k].2 < 256);
        }
    }
    fs
}

/// Whether every field of a record whose fields start at `fo` starts
/// within the data.
fn fields_fit_exec(d: &[u8], fs: &Vec<DbfField>, fo: usize) -> (r: bool)
    requires
        fo <= d.len(),
        d.len() + 256 <= usize::MAX,
        forall|k: int| 0 <= k < fs.len() ==> #[trigger] fs@[k].length < 256,
    ensures
        r == fields_fit(d@, fields_view(fs@), fo as int),
{
    let mut k: usize = 0;
    let mut at: usize = fo;
    assert(fields_view(fs@).skip(0) =~= fields_view(fs@));
    while k < fs.len()
        invariant
            k <= fs.len(),
            at <= d.len() + 255,
            d.len() + 256 <= usize::MAX,
            forall|j: int| 0 <= j < fs.len() ==> #[trigger] fs@[j].length < 256,
            fields_fit(d@, fields_view(fs@), fo as int) == fields_fit(d@, fields_view(fs@).skip(k as int), at as int),
        decreases fs.len() - k,
    {
        let ghost rest = fields_view(fs@).skip(k as int);
        assert(rest[0] == field_spec(fs@[k as int]));
        assert(rest.drop_first() =~= fields_view(fs@).skip(k + 1));
        if at > d.len() {
            return false;
        }
        at = at + fs[k].length;
        k += 1;
    }
    assert(fields_view(fs@).skip(k as int).len() == 0);
    true
}

/// The field texts of the record whose fields start at `fo`.
fn read_record(d: &[u8], fs: &Vec<DbfField>, fo: usize) -> (row: Vec<String>)
    requires
        fields_fit(d@, fields_view(fs@), fo as int),
        d.len() + 256 <= usize::MAX,
        forall|k: int| 0 <= k < fs.len() ==> #[trigger] fs@[k].length < 256,
    ensures
        row.deep_view() == record_values(d@, fields_view(fs@), fo as int),
{
    let mut row: Vec<String> = Vec::new();
    let mut k: usize = 0;
    let mut at: usize = fo;
    assert(fields_view(fs@).skip(0) =~= fields_view(fs@));
    assert(row.deep_view() + record_values(d@, fields_view(fs@), fo as int)
        =~= record_values(d@, fields_view(fs@), fo as int));
    while k < fs.len()
        invariant
            k <= fs.len(),
            d.len() + 256 <= usize::MAX,
            forall|j: int| 0 <= j < fs.len() ==> #[trigger] fs@[j].length < 256,
            fields_fit(d@, fields_view(fs@).skip(k as int), at as int),
            row.deep_view() + record_values(d@, fields_view(fs@).skip(k as int), at as int)
                == record_values(d@, fields_view(fs@), fo as int),
        decreases fs.len() - k,
    {
        let ghost rest = fields_view(fs@).skip(k as int);
        assert(rest[0] == field_spec(fs@[k as int]));
        assert(rest.drop_first() =~= fields_view(fs@).skip(k + 1));
        let len = fs[k].length;
        let end = if at + len < d.len() { at + len } else { d.len() };
        let raw = vstd::slice::slice_subrange(d, at, end);
        assert(raw@ =~= d@.subrange(at as int, end as int));
        let text = utf8_lossy(raw);
        let val = trim_str(text.as_str());
        let ghost before = row.deep_view();
        row.push(val);
        assert(row.deep_view() =~= before.push(val@));
        assert(row.deep_view() + record_values(d@, fields_view(fs@).skip(k + 1), (at + len) as int)
            =~= before + record_values(d@, rest, at as int));
        assert(fields_fit(d@, rest, at as int));
        assert(fields_fit(d@, rest.drop_first(), at + len));
        k += 1;
        at = at + len;
        if k < fs.len() {
            assert(fields_view(fs@).skip(k as int).len() > 0);
            assert(at <= d.len());
        } else {
            proof {
                assert(fields_view(fs@).skip(k as int).len() == 0);
            }
            assert(row.deep_view() =~= record_values(d@, fields_view(fs@), fo as int));
            return row;
        }
    }
    assert(record_values(d@, fields_view(fs@).skip(k as int), at as int) =~= Seq::<Seq<char>>::empty());
    assert(row.deep_view() =~= row.deep_view() + record_values(d@, fields_view(fs@).skip(k as int), at as int));
    row
}

/// What reading comma-separated text gives: an error when it has no
/// lines; else columns named by the fields of the first line (type `C`,
/// width 20) and a record for each further line.
pub open spec fn csv_parse(text: Seq<char>) -> Result<(Seq<FieldSpec>, Seq<Seq<Seq<char>>>), Seq<char>> {
    let ls = split_lines(text);
    if ls.len() == 0 {
        Err("Empty CSV file"@)
    } else {
        Ok((
            csv_fields(ls[0]).map_values(|n: Seq<char>| (n, 'C', 20nat)),
            ls.drop_first().map_values(|l: Seq<char>| csv_fields(l)),
        ))
    }
}

/// The width of a text in bytes of UTF-8 (`str::len`).
pub open spec fn byte_len(s: Seq<char>) -> int {
    vstd::utf8::encode_utf8(s).len() as usize as int
}

/// The larger of two integers.
pub open spec fn max_int(a: int, b: int) -> int {
    if a > b { a } else { b }
}

/// The smaller of two integers.
pub open spec fn min_int(a: int, b: int) -> int {
    if a < b { a } else { b }
}

/// Display width of a column: at least the name and, up to 30, the field
/// width; never under 4 or over 30. A missing column gets 10.
pub open spec fn column_width(fields: Seq<FieldSpec>, col: int) -> int {
    let name_len = if 0 <= col < fields.len() { byte_len(fields[col].0) } else { 0 };
    let data_len = if 0 <= col < fields.len() {
        min_int(max_int(fields[col].2 as int, name_len), 30)
    } else {
        10
    };
    min_int(max_int(max_int(name_len, data_len), 4), 30)
}

impl DbfData {
    /// The table as plain values: columns and records.
    pub open spec fn table(&self) -> (Seq<FieldSpec>, Seq<Seq<Seq<char>>>) {
        (fields_view(self.fields@), self.records.deep_view())
    }

    /// At the top left, named `filename`, read from `source`.
    pub open spec fn at_start(&self, filename: Seq<char>, source: SourceType) -> bool {
        &&& self.col_cursor == 0
        &&& self.row_cursor == 0
        &&& self.col_scroll == 0
        &&& self.row_scroll == 0
        &&& self.filename@ == filename
        &&& self.source_type == source
    }

    /// Whether the records of a dBASE file can be read (see `dbf_readable`);
    /// reading a file for which this is false fails on a field past the end.
    pub fn is_readable(data: &[u8]) -> (r: bool)
        requires
            data.len() + 65536 <= usize::MAX,
        ensures
            r == dbf_readable(data@),
    {
        if data.len() < 32 {
            return true;
        }
        let hs = read_le16(data, 8);
        let rs = read_le16(data, 10);
        if hs < 32 || rs == 0 {
            return true;
        }
        let limit = if hs < data.len() { hs } else { data.len() };
        let fields = parse_fields(data, limit);
        let ghost fv = fields_view(fields@);
        let n = read_le32(data, 4) as usize;
        let mut i: usize = 0;
        let mut ro: usize = hs;
        while i < n
            invariant
                data.len() >= 32,
                data.len() + 65536 <= usize::MAX,
                hs == header_size(data@),
                rs == record_size(data@),
                rs > 0,
                rs < 65536,
                n == record_count(data@),
                fv == fields_view(fields@),
                fv == dbf_fields(data@),
                forall|k: int| 0 <= k < fields.len() ==> #[trigger] fields@[k].length < 256,
                i <= n,
                ro == record_offset(data@, i as int),
                ro <= data.len() + 65536,
                records_fit(data@, fv, 0) == records_fit(data@, fv, i as int),
            decreases n - i,
        {
            if ro >= data.len() {
                return true;
            }
            if data[ro] != 0x2A {
                if !fields_fit_exec(data, &fields, ro + 1) {
                    return false;
                }
            }
            assert(hs + (i + 1) * rs == ro + rs) by (nonlinear_arith)
                requires
                    ro == hs + i * rs,
            ;
            i += 1;
            ro = ro + rs;
        }
        true
    }

    /// Reads a dBASE file from its bytes: the field descriptors from the
    /// header, then the records that are not marked deleted.
    pub fn parse_dbf(data: &[u8], filename: String) -> (r: Result<DbfData, String>)
        requires
            dbf_readable(data@),
            data.len() + 65536 <= usize::MAX,
        ensures
            match r {
                Ok(t) => dbf_parse(data@) == Ok::<(Seq<FieldSpec>, Seq<Seq<Seq<char>>>), Seq<char>>(t.table())
                    && t.at_start(filename@, SourceType::Dbf),
                Err(e) => dbf_parse(data@) == Err::<(Seq<FieldSpec>, Seq<Seq<Seq<char>>>), Seq<char>>(e@),
            },
    {
        if data.len() < 32 {
            return Err(crate::text::owned("File too small — not a valid DBF"));
        }
        let n = read_le32(data, 4) as usize;
        let hs = read_le16(data, 8);
        let rs = read_le16(data, 10);
        if hs < 32 || rs == 0 {
            return Err(crate::text::owned("Invalid DBF header"));
        }
        let limit = if hs < data.len() { hs } else { data.len() };
        let fields = parse_fields(data, limit);
        let ghost fv = fields_view(fields@);
        if fields.len() == 0 {
            return Err(crate::text::owned("No fields found in DBF"));
        }
        let mut records: Vec<Vec<String>> = Vec::new();
        let mut i: usize = 0;
        let mut ro: usize = hs;
        assert(records.deep_view() + records_from(data@, fv, 0) =~= records_from(data@, fv, 0));
        while i < n
            invariant_except_break
                records.deep_view() + records_from(data@, fv, i as int) == records_from(data@, fv, 0),
            invariant
                data.len() >= 32,
                data.len() + 65536 <= usize::MAX,
                hs == header_size(data@),
                rs == record_size(data@),
                rs > 0,
                rs < 65536,
                n == record_count(data@),
                fv == fields_view(fields@),
                fv == dbf_fields(data@),
                forall|k: int| 0 <= k < fields.len() ==> #[trigger] fields@[k].length < 256,
                i <= n,
                ro == record_offset(data@, i as int),
                ro <= data.len() + 65536,
                records_fit(data@, fv, i as int),
            ensures
                records.deep_view() == records_from(data@, fv, 0),
            decreases n - i,
        {
            if ro >= data.len() {
                assert(records_from(data@, fv, i as int) =~= Seq::<Seq<Seq<char>>>::empty());
                assert(records.deep_view() =~= records.deep_view() + records_from(data@, fv, i as int));
                break;
            }
            let ghost before = records.deep_view();
            if data[ro] != 0x2A {
                let row = read_record(data, &fields, ro + 1);
                records.push(row);
                assert(records.deep_view() =~= before.push(row.deep_view()));
                assert(records.deep_view() + records_from(data@, fv, i + 1)
                    =~= before + records_from(data@, fv, i as int));
            }
            assert(hs + (i + 1) * rs == ro + rs) by (nonlinear_arith)
                requires
                    ro == hs + i * rs,
            ;
            i += 1;
            ro = ro + rs;
        }
        proof {
            if i >= n {
                assert(records_from(data@, fv, i as int) =~= Seq::<Seq<Seq<char>>>::empty());
            }
        }
        let t = DbfData {
            fields,
            records,
            col_cursor: 0,
            row_cursor: 0,
            col_scroll: 0,
            row_scroll: 0,
            filename,
            source_type: SourceType::Dbf,
        };
        Ok(t)
    }

    /// Reads comma-separated text: the first line names the columns, each
    /// further line is a record.
    pub fn parse_csv(text: &str, filename: String) -> (r: Result<DbfData, String>)
        ensures
            match r {
                Ok(t) => csv_parse(text@) == Ok::<(Seq<FieldSpec>, Seq<Seq<Seq<char>>>), Seq<char>>(t.table())
                    && t.at_start(filename@, SourceType::Csv),
                Err(e) => csv_parse(text@) == Err::<(Seq<FieldSpec>, Seq<Seq<Seq<char>>>), Seq<char>>(e@),
            },
    {
        let chars = chars_of(text);
        let lines = crate::text::lines_of(chars.as_slice());
        if lines.len() == 0 {
            return Err(crate::text::owned("Empty CSV file"));
        }
        let names = parse_csv_row(lines[0].as_str());
        let mut fields: Vec<DbfField> = Vec::new();
        let mut k: usize = 0;
        while k < names.len()
            invariant
                k <= names.len(),
                lines.deep_view().len() > 0,
                fields_view(fields@) == csv_fields(lines.deep_view()[0]).take(k as int).map_values(
                    |n: Seq<char>| (n, 'C', 20nat),
                ),
                names.deep_view() == csv_fields(lines.deep_view()[0]),
            decreases names.len() - k,
        {
            let name = names[k].clone();
            let ghost before = fields_view(fields@);
            fields.push(DbfField { name, field_type: 'C', length: 20 });
            assert(names.deep_view()[k as int] == names@[k as int]@);
            assert(fields_view(fields@) =~= before.push((names@[k as int]@, 'C', 20nat)));
            k += 1;
            assert(fields_view(fields@) =~= csv_fields(lines.deep_view()[0]).take(k as int).map_values(
                |n: Seq<char>| (n, 'C', 20nat),
            ));
        }
        assert(csv_fields(lines.deep_view()[0]).take(k as int) =~= csv_fields(lines.deep_view()[0]));
        let mut records: Vec<Vec<String>> = Vec::new();
        let mut j: usize = 1;
        while j < lines.len()
            invariant
                1 <= j <= lines.len(),
                lines.deep_view() == split_lines(text@),
                records.deep_view() == lines.deep_view().subrange(1, j as int).map_values(
                    |l: Seq<char>| csv_fields(l),
                ),
            decreases lines.len() - j,
        {
            let row = parse_csv_row(lines[j].as_str());
            let ghost before = records.deep_view();
            records.push(row);
            assert(records.deep_view() =~= before.push(row.deep_view()));
            j += 1;
            assert(records.deep_view() =~= lines.deep_view().subrange(1, j as int).map_values(
                |l: Seq<char>| csv_fields(l),
            ));
        }
        assert(lines.deep_view().subrange(1, j as int) =~= lines.deep_view().drop_first());
        Ok(DbfData {
            fields,
            records,
            col_cursor: 0,
            row_cursor: 0,
            col_scroll: 0,
            row_scroll: 0,
            filename,
            source_type: SourceType::Csv,
        })
    }

    /// The number of records.
    pub fn num_rows(&self) -> (n: usize)
        ensures
            n == self.records.len(),
    {
        self.records.len()
    }

    /// The number of columns.
    pub fn num_cols(&self) -> (n: usize)
        ensures
            n == self.fields.len(),
    {
        self.fields.len()
    }

    /// The display width of column `col`.
    pub fn col_width(&self, col: usize) -> (w: usize)
        ensures
            w == column_width(fields_view(self.fields@), col as int),
    {
        let name_len: usize = if col < self.fields.len() { self.fields[col].name.as_str().len() } else { 0 };
        let data_len: usize = if col < self.fields.len() {
            let l = self.fields[col].length;
            let m = if l > name_len { l } else { name_len };
            if m < 30 { m } else { 30 }
        } else {
            10
        };
        proof {
            if col < self.fields.len() {
                assert(fields_view(self.fields@)[col as int] == field_spec(self.fields@[col as int]));
            }
        }
        let a = if name_len > data_len { name_len } else { data_len };
        let b = if a > 4 { a } else { 4 };
        if b < 30 { b } else { 30 }
    }

    /// One record up, scrolling to keep it in view.
    pub fn cursor_up(&mut self)
        ensures
            final(self).row_cursor == if old(self).row_cursor > 0 { old(self).row_cursor - 1 } else { 0 },
            old(self).row_cursor > 0 ==> final(self).row_scroll == min_int(old(self).row_scroll as int, final(self).row_cursor as int),
            old(self).row_cursor == 0 ==> final(self).row_scroll == old(self).row_scroll,
            final(self).col_cursor == old(self).col_cursor,
            final(self).col_scroll == old(self).col_scroll,
            final(self).table() == old(self).table(),
    {
        if self.row_cursor > 0 {
            self.row_cursor = self.row_cursor - 1;
            if self.row_cursor < self.row_scroll {
                self.row_scroll = self.row_cursor;
            }
        }
    }

    /// One record down, if there is one, scrolling so that it stays within
    /// `visible_rows` rows from the top.
    pub fn cursor_down(&mut self, visible_rows: usize)
        requires
            old(self).row_cursor + 1 < old(self).records.len() ==> old(self).row_scroll + visible_rows <= usize::MAX,
        ensures
            ({
                let moved = old(self).row_cursor + 1 < old(self).records.len();
                let cur = if moved { old(self).row_cursor + 1 } else { old(self).row_cursor as int };
                &&& final(self).row_cursor == cur
                &&& final(self).row_scroll == if moved && cur >= old(self).row_scroll + visible_rows {
                    cur - visible_rows + 1
                } else {
                    old(self).row_scroll as int
                }
            }),
            final(self).col_cursor == old(self).col_cursor,
            final(self).col_scroll == old(self).col_scroll,
            final(self).table() == old(self).table(),
    {
        if self.row_cursor < usize::MAX && self.row_cursor + 1 < self.records.len() {
            self.row_cursor = self.row_cursor + 1;
            if self.row_cursor >= self.row_scroll + visible_rows {
                self.row_scroll = self.row_cursor - visible_rows + 1;
            }
        }
    }

    /// One column left, scrolling to keep it in view.
    pub fn cursor_left(&mut self)
        ensures
            final(self).col_cursor == if old(self).col_cursor > 0 { old(self).col_cursor - 1 } else { 0 },
            old(self).col_cursor > 0 ==> final(self).col_scroll == min_int(old(self).col_scroll as int, final(self).col_cursor as int),
            old(self).col_cursor == 0 ==> final(self).col_scroll == old(self).col_scroll,
            final(self).row_cursor == old(self).row_cursor,
            final(self).row_scroll == old(self).row_scroll,
            final(self).table() == old(self).table(),
    {
        if self.col_cursor > 0 {
            self.col_cursor = self.col_cursor - 1;
            if self.col_cursor < self.col_scroll {
                self.col_scroll = self.col_cursor;
            }
        }
    }

    /// One column right, if there is one, scrolling so that it stays within
    /// `visible_cols` columns from the left.
    pub fn cursor_right(&mut self, visible_cols: usize)
        requires
            old(self).col_scroll + visible_cols <= usize::MAX,
        ensures
            ({
                let moved = old(self).col_cursor + 1 < old(self).fields.len();
                let cur = if moved { old(self).col_cursor + 1 } else { old(self).col_cursor as int };
                &&& final(self).col_cursor == cur
                &&& final(self).col_scroll == if moved && cur >= old(self).col_scroll + visible_cols {
                    cur - visible_cols + 1
                } else {
                    old(self).col_scroll as int
                }
            }),
            final(self).row_cursor == old(self).row_cursor,
            final(self).row_scroll == old(self).row_scroll,
            final(self).table() == old(self).table(),
    {
        if self.col_cursor < usize::MAX && self.col_cursor + 1 < self.fields.len() {
            self.col_cursor = self.col_cursor + 1;
            if self.col_cursor >= self.col_scroll + visible_cols {
                self.col_scroll = self.col_cursor - visible_cols + 1;
            }
        }
    }

    /// `page` records up, scrolling to keep the cursor in view.
    pub fn page_up(&mut self, page: usize)
        ensures
            final(self).row_cursor == if old(self).row_cursor > page { old(self).row_cursor - page } else { 0 },
            final(self).row_scroll == min_int(old(self).row_scroll as int, final(self).row_cursor as int),
            final(self).col_cursor == old(self).col_cursor,
            final(self).col_scroll == old(self).col_scroll,
            final(self).table() == old(self).table(),
    {
        self.row_cursor = if self.row_cursor > page { self.row_cursor - page } else { 0 };
        if self.row_cursor < self.row_scroll {
            self.row_scroll = self.row_cursor;
        }
    }

    /// `page` records down, stopping at the last record.
    pub fn page_down(&mut self, page: usize)
        requires
            old(self).row_cursor + page <= usize::MAX,
        ensures
            final(self).row_cursor == min_int(
                old(self).row_cursor + page,
                max_int(old(self).records.len() - 1, 0),
            ),
            final(self).row_scroll == old(self).row_scroll,
            final(self).col_cursor == old(self).col_cursor,
            final(self).col_scroll == old(self).col_scroll,
            final(self).table() == old(self).table(),
    {
        let last = if self.records.len() > 0 { self.records.len() - 1 } else { 0 };
        let want = self.row_cursor + page;
        self.row_cursor = if want < last { want } else { last };
    }

    /// Back to the first record and column.
    pub fn home(&mut self)
        ensures
            final(self).row_cursor == 0,
            final(self).row_scroll == 0,
            final(self).col_cursor == 0,
            final(self).col_scroll == 0,
            final(self).table() == old(self).table(),
    {
        self.row_cursor = 0;
        self.row_scroll = 0;
        self.col_cursor = 0;
        self.col_scroll = 0;
    }

    /// To the last record.
    pub fn end(&mut self)
        ensures
            final(self).row_cursor == max_int(old(self).records.len() - 1, 0),
            final(self).row_scroll == old(self).row_scroll,
            final(self).col_cursor == old(self).col_cursor,
            final(self).col_scroll == old(self).col_scroll,
            final(self).table() == old(self).table(),
    {
        self.row_cursor = if self.records.len() > 0 { self.records.len() - 1 } else { 0 };
    }
}

} // verus!