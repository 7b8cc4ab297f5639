use crate::text::{
    chars_of, digits_u16, digits_u16_exec, skip_digits, skip_digits_from, skip_space,
    skip_space_from, trim_chars, trimmed,
};
use std::collections::HashSet;
use vstd::prelude::*;

verus! {

broadcast use vstd::std_specs::hash::group_hash_axioms;

/// Why a tabular registry could not be read.
#[derive(Clone, Copy, Debug, PartialEq, Eq)]
pub enum RegistryError {
    /// The header row has no column named `Port Number`.
    MissingPortColumn,
}

/// The separator of a port range: a hyphen or an en dash.
pub open spec fn is_range_dash(c: char) -> bool {
    (c as u32) == 0x2d || (c as u32) == 0x2013
}

/// The inclusive range that a port cell names: `N`, or `N-M` with `N <= M`,
/// where whitespace may surround the cell and the dash.
pub open spec fn cell_range(cell: Seq<char>) -> Option<(u16, u16)> {
    let t = trimmed(cell);
    let a = skip_digits(t, 0);
    let b = skip_space(t, a);
    let c = skip_space(t, b + 1);
    let d = skip_digits(t, c);
    if a == t.len() {
        match digits_u16(t) {
            Some(p) => Some((p, p)),
            None => None,
        }
    } else if b < t.len() && is_range_dash(t[b]) && d == t.len() {
        match (digits_u16(t.subrange(0, a)), digits_u16(t.subrange(c, d))) {
            (Some(lo), Some(hi)) => if lo <= hi {
                Some((lo, hi))
            } else {
                None
            },
            _ => None,
        }
    } else {
        None
    }
}

/// The ports that a cell names.
pub open spec fn cell_ports(cell: Seq<char>) -> Set<u16> {
    match cell_range(cell) {
        Some((lo, hi)) => Set::new(|p: u16| lo <= p <= hi),
        None => Set::empty(),
    }
}

/// The ports that the cells `cs` name.
pub open spec fn cells_ports(cs: Seq<Seq<char>>) -> Set<u16>
    decreases cs.len(),
{
    if cs.len() == 0 {
        Set::empty()
    } else {
        cells_ports(cs.drop_last()).union(cell_ports(cs.last()))
    }
}

/// Whether `c` separates the two ends of a port range.
fn range_dash(c: char) -> (r: bool)
    ensures
        r == is_range_dash(c),
{
    (c as u32) == 0x2d || (c as u32) == 0x2013
}

fn cell_range_exec(cell: &Vec<char>) -> (r: Option<(u16, u16)>)
    ensures
        r == cell_range(cell@),
{
    let t = trim_chars(cell);
    let a = skip_digits_from(&t, 0);
    if a == t.len() {
        proof {
            assert(t@.subrange(0, t@.len() as int) =~= t@);
        }
        return match digits_u16_exec(&t, 0, a) {
            Some(p) => Some((p, p)),
            None => None,
        };
    }
    let b = skip_space_from(&t, a);
    if b >= t.len() || !range_dash(t[b]) {
        return None;
    }
    let c = skip_space_from(&t, b + 1);
    let d = skip_digits_from(&t, c);
    if d != t.len() {
        return None;
    }
    match (digits_u16_exec(&t, 0, a), digits_u16_exec(&t, c, d)) {
        (Some(lo), Some(hi)) => if lo <= hi {
            Some((lo, hi))
        } else {
            None
        },
        _ => None,
    }
}

/// The inclusive port range that a registry cell names: a single port `N`, or
/// `N-M` (hyphen or en dash) with `N <= M`. Other text names no range.
pub fn port_cell_range(cell: &str) -> (r: Option<(u16, u16)>)
    ensures
        r == cell_range(cell@),
{
    let v = chars_of(cell);
    cell_range_exec(&v)
}

/// Adds every port that `cell` names to `ports`.
fn insert_cell_ports(cell: &Vec<char>, ports: &mut HashSet<u16>)
    ensures
        final(ports)@ == old(ports)@.union(cell_ports(cell@)),
{
    match cell_range_exec(cell) {
        None => {
            assert(old(ports)@.union(cell_ports(cell@)) =~= old(ports)@);
        },
        Some((lo, hi)) => {
            let ghost start = ports@;
            let mut p: u32 = lo as u32;
            while p <= hi as u32
                invariant
                    lo <= p <= hi as u32 + 1,
                    start == old(ports)@,
                    ports@ == start.union(Set::new(|q: u16| lo <= q < p)),
                decreases hi as u32 + 1 - p,
            {
                ports.insert(p as u16);
                assert(ports@ =~= start.union(Set::new(|q: u16| lo <= q < p + 1)));
                p = p + 1;
            }
            assert(ports@ =~= old(ports)@.union(cell_ports(cell@)));
        },
    }
}

/// The ports that table cells name, each cell read as `port_cell_range` reads it.
pub fn ports_from_cells(cells: &Vec<String>) -> (r: HashSet<u16>)
    ensures
        r@ == cells_ports(cells@.map_values(|c: String| c@)),
{
    let ghost cs = cells@.map_values(|c: String| c@);
    let mut ports: HashSet<u16> = HashSet::new();
    let mut j: usize = 0;
    while j < cells.len()
        invariant
            j <= cells.len(),
            cs == cells@.map_values(|c: String| c@),
            ports@ == cells_ports(cs.take(j as int)),
        decreases cells.len() - j,
    {
        let v = chars_of(cells[j].as_str());
        insert_cell_ports(&v, &mut ports);
        proof {
            assert(cs.take(j + 1).drop_last() =~= cs.take(j as int));
        }
        j = j + 1;
    }
    proof {
        assert(cs.take(j as int) =~= cs);
    }
    ports
}

/// Where a CSV reader stands inside the current field.
#[derive(Clone, Copy, Debug, PartialEq, Eq)]
pub enum CsvMode {
    /// Outside quotes.
    Unquoted,
    /// Inside a quoted field.
    Quoted,
    /// Just after a quote inside a quoted field: a second quote is a literal
    /// quote, anything else closes the quotes.
    QuoteSeen,
}

/// The record that a CSV reader is in the middle of.
pub struct CsvCursor {
    pub fields: Seq<Seq<char>>,
    pub field: Seq<char>,
    pub mode: CsvMode,
    /// Whether the record holds anything yet.
    pub started: bool,
}

/// The cursor at the start of a record.
pub open spec fn fresh_cursor() -> CsvCursor {
    CsvCursor { fields: seq![], field: seq![], mode: CsvMode::Unquoted, started: false }
}

/// `c` added to the current field, in `mode`.
pub open spec fn with_char(cur: CsvCursor, c: char, mode: CsvMode) -> CsvCursor {
    CsvCursor { field: cur.field.push(c), mode, started: true, ..cur }
}

/// The cursor moved to `mode`.
pub open spec fn with_mode(cur: CsvCursor, mode: CsvMode) -> CsvCursor {
    CsvCursor { mode, started: true, ..cur }
}

/// The current field closed by a comma.
pub open spec fn field_ended(cur: CsvCursor) -> CsvCursor {
    CsvCursor {
        fields: cur.fields.push(cur.field),
        field: seq![],
        mode: CsvMode::Unquoted,
        started: true,
    }
}

/// One character read by a CSV reader: the new cursor, and the record that the
/// character ends, if it ends one. A carriage return outside quotes is dropped.
pub open spec fn csv_step(cur: CsvCursor, c: char) -> (CsvCursor, Option<Seq<Seq<char>>>) {
    let ends_record = (fresh_cursor(), Some(cur.fields.push(cur.field)));
    match cur.mode {
        CsvMode::Quoted => if c == '"' {
            (with_mode(cur, CsvMode::QuoteSeen), None)
        } else {
            (with_char(cur, c, CsvMode::Quoted), None)
        },
        CsvMode::QuoteSeen => if c == '"' {
            (with_char(cur, c, CsvMode::Quoted), None)
        } else if c == ',' {
            (field_ended(cur), None)
        } else if c == '\n' {
            ends_record
        } else if c == '\r' {
            (cur, None)
        } else {
            (with_char(cur, c, CsvMode::Unquoted), None)
        },
        CsvMode::Unquoted => if c == '"' && cur.field.len() == 0 {
            (with_mode(cur, CsvMode::Quoted), None)
        } else if c == ',' {
            (field_ended(cur), None)
        } else if c == '\n' {
            ends_record
        } else if c == '\r' {
            (cur, None)
        } else {
            (with_char(cur, c, CsvMode::Unquoted), None)
        },
    }
}

/// The value in `o`, as a sequence of zero or one elements.
pub open spec fn opt_seq<T>(o: Option<T>) -> Seq<T> {
    match o {
        Some(x) => seq![x],
        None => seq![],
    }
}

/// The records that `s` completes, and the cursor after it.
pub open spec fn csv_scan(s: Seq<char>) -> (Seq<Seq<Seq<char>>>, CsvCursor)
    decreases s.len(),
{
    if s.len() == 0 {
        (seq![], fresh_cursor())
    } else {
        let (rs, cur) = csv_scan(s.drop_last());
        let (next, done) = csv_step(cur, s.last());
        (rs + opt_seq(done), next)
    }
}

/// The records of a CSV text, each a sequence of fields.
pub open spec fn csv_records(s: Seq<char>) -> Seq<Seq<Seq<char>>> {
    let (rs, cur) = csv_scan(s);
    if cur.started {
        rs.push(cur.fields.push(cur.field))
    } else {
        rs
    }
}

/// The header of the column that holds the ports.
pub open spec fn port_column_name() -> Seq<char> {
    seq!['P', 'o', 'r', 't', ' ', 'N', 'u', 'm', 'b', 'e', 'r']
}

/// First index at or after `i` of a field equal to `name`, or the length.
pub open spec fn find_field(fields: Seq<Seq<char>>, name: Seq<char>, i: int) -> int
    decreases fields.len() - i,
{
    if 0 <= i < fields.len() && fields[i] != name {
        find_field(fields, name, i + 1)
    } else {
        i
    }
}

/// The ports that column `idx` of the records `rs` names; short records add none.
pub open spec fn column_ports(rs: Seq<Seq<Seq<char>>>, idx: int) -> Set<u16>
    decreases rs.len(),
{
    if rs.len() == 0 {
        Set::empty()
    } else {
        let here = if 0 <= idx < rs.last().len() {
            cell_ports(rs.last()[idx])
        } else {
            Set::empty()
        };
        column_ports(rs.drop_last(), idx).union(here)
    }
}

/// The ports that a CSV registry names in its `Port Number` column, or `None`
/// when the first record has no such column.
pub open spec fn csv_ports(s: Seq<char>) -> Option<Set<u16>> {
    let rs = csv_records(s);
    if rs.len() == 0 {
        None
    } else {
        let idx = find_field(rs[0], port_column_name(), 0);
        if idx == rs[0].len() {
            None
        } else {
            Some(column_ports(rs.drop_first(), idx))
        }
    }
}

/// The characters of each field.
pub open spec fn views(v: Seq<Vec<char>>) -> Seq<Seq<char>> {
    v.map_values(|x: Vec<char>| x@)
}

/// The cursor that the reader's own variables stand for.
pub open spec fn cursor_of(
    fields: Seq<Vec<char>>,
    field: Seq<char>,
    mode: CsvMode,
    started: bool,
) -> CsvCursor {
    CsvCursor { fields: views(fields), field, mode, started }
}

/// Reads one character `c` into the record under way; returns the record that
/// `c` ends, if it ends one.
fn csv_step_exec(
    fields: &mut Vec<Vec<char>>,
    field: &mut Vec<char>,
    mode: &mut CsvMode,
    started: &mut bool,
    c: char,
) -> (done: Option<Vec<Vec<char>>>)
    ensures
        cursor_of(final(fields)@, final(field)@, *final(mode), *final(started)) == csv_step(
            cursor_of(old(fields)@, old(field)@, *old(mode), *old(started)),
            c,
        ).0,
        match done {
            Some(rec) => csv_step(
                cursor_of(old(fields)@, old(field)@, *old(mode), *old(started)),
                c,
            ).1 == Some(views(rec@)),
            None => csv_step(
                cursor_of(old(fields)@, old(field)@, *old(mode), *old(started)),
                c,
            ).1 is None,
        },
{
    let ghost cur = cursor_of(fields@, field@, *mode, *started);
    let quoted_now = match *mode {
        CsvMode::Quoted => true,
        _ => false,
    };
    let after_quote = match *mode {
        CsvMode::QuoteSeen => true,
        _ => false,
    };
    if quoted_now {
        if c == '"' {
            *mode = CsvMode::QuoteSeen;
        } else {
            field.push(c);
        }
        *started = true;
        assert(cursor_of(fields@, field@, *mode, *started) == csv_step(cur, c).0);
        return None;
    }
    if c == '"' && (after_quote || field.len() == 0) {
        if after_quote {
            field.push(c);
        }
        *mode = CsvMode::Quoted;
        *started = true;
        assert(cursor_of(fields@, field@, *mode, *started) == csv_step(cur, c).0);
        return None;
    }
    if c == ',' {
        let mut f: Vec<char> = Vec::new();
        std::mem::swap(field, &mut f);
        fields.push(f);
        *mode = CsvMode::Unquoted;
        *started = true;
        assert(views(fields@) =~= cur.fields.push(cur.field));
        assert(cursor_of(fields@, field@, *mode, *started) == csv_step(cur, c).0);
        return None;
    }
    if c == '\n' {
        let mut f: Vec<char> = Vec::new();
        std::mem::swap(field, &mut f);
        fields.push(f);
        let mut rec: Vec<Vec<char>> = Vec::new();
        std::mem::swap(fields, &mut rec);
        *mode = CsvMode::Unquoted;
        *started = false;
        assert(views(rec@) =~= cur.fields.push(cur.field));
        assert(views(fields@) =~= seq![]);
        assert(cursor_of(fields@, field@, *mode, *started) == csv_step(cur, c).0);
        return Some(rec);
    }
    if c == '\r' {
        return None;
    }
    field.push(c);
    *mode = CsvMode::Unquoted;
    *started = true;
    assert(cursor_of(fields@, field@, *mode, *started) == csv_step(cur, c).0);
    None
}

proof fn lemma_scan_step(s: Seq<char>, i: int)
    requires
        0 <= i < s.len(),
    ensures
        csv_scan(s.take(i + 1)).0 == csv_scan(s.take(i)).0 + opt_seq(
            csv_step(csv_scan(s.take(i)).1, s[i]).1,
        ),
        csv_scan(s.take(i + 1)).1 == csv_step(csv_scan(s.take(i)).1, s[i]).0,
{
    assert(s.take(i + 1).drop_last() =~= s.take(i));
}

proof fn lemma_first_record_stays(s: Seq<char>, i: int, j: int)
    requires
        0 <= i <= j <= s.len(),
        csv_scan(s.take(i)).0.len() >= 1,
    ensures
        csv_scan(s.take(j)).0.len() >= 1,
        csv_scan(s.take(j)).0[0] == csv_scan(s.take(i)).0[0],
    decreases j - i,
{
    if j > i {
        lemma_first_record_stays(s, i, j - 1);
        lemma_scan_step(s, j - 1);
    }
}

/// What the records `rs` read so far have left in the column index and the ports.
pub open spec fn records_read(rs: Seq<Seq<Seq<char>>>, col: Option<usize>, ports: Set<u16>) -> bool {
    match col {
        None => rs.len() == 0 && ports == Set::<u16>::empty(),
        Some(idx) => {
            &&& rs.len() >= 1
            &&& idx == find_field(rs[0], port_column_name(), 0)
            &&& idx < rs[0].len()
            &&& ports == column_ports(rs.drop_first(), idx as int)
        },
    }
}

fn port_column_vec() -> (r: Vec<char>)
    ensures
        r@ == port_column_name(),
{
    let r = vec!['P', 'o', 'r', 't', ' ', 'N', 'u', 'm', 'b', 'e', 'r'];
    assert(r@ =~= port_column_name());
    r
}

fn same_chars(a: &Vec<char>, b: &Vec<char>) -> (r: bool)
    ensures
        r == (a@ == b@),
{
    if a.len() != b.len() {
        return false;
    }
    let mut i: usize = 0;
    while i < a.len()
        invariant
            a.len() == b.len(),
            i <= a.len(),
            forall|k: int| 0 <= k < i ==> a@[k] == b@[k],
        decreases a.len() - i,
    {
        if a[i] != b[i] {
            return false;
        }
        i = i + 1;
    }
    assert(a@ =~= b@);
    true
}

fn find_field_exec(rec: &Vec<Vec<char>>, name: &Vec<char>) -> (r: usize)
    ensures
        r as int == find_field(views(rec@), name@, 0),
        r <= rec.len(),
{
    let ghost fs = views(rec@);
    let mut i: usize = 0;
    while i < rec.len() && !same_chars(&rec[i], name)
        invariant
            i <= rec.len(),
            fs == views(rec@),
            find_field(fs, name@, i as int) == find_field(fs, name@, 0),
        decreases rec.len() - i,
    {
        i = i + 1;
    }
    i
}

/// Takes in one completed record: the first is the header, which must name the
/// port column; each later one adds the ports of its cell in that column.
fn absorb_record(
    rec: &Vec<Vec<char>>,
    col: &mut Option<usize>,
    ports: &mut HashSet<u16>,
    name: &Vec<char>,
    rs: Ghost<Seq<Seq<Seq<char>>>>,
) -> (ok: bool)
    requires
        name@ == port_column_name(),
        records_read(rs@, *old(col), old(ports)@),
    ensures
        ok ==> records_read(rs@.push(views(rec@)), *final(col), final(ports)@),
        !ok ==> (*old(col)) is None && find_field(views(rec@), port_column_name(), 0) == rec.len(),
{
    match *col {
        None => {
            let idx = find_field_exec(rec, name);
            if idx == rec.len() {
                return false;
            }
            *col = Some(idx);
            assert(rs@.push(views(rec@)).drop_first() =~= seq![]);
            true
        },
        Some(idx) => {
            let ghost before = ports@;
            if idx < rec.len() {
                insert_cell_ports(&rec[idx], ports);
            }
            proof {
                let rs2 = rs@.push(views(rec@));
                assert(rs2.drop_first() =~= rs@.drop_first().push(views(rec@)));
                assert(rs2.drop_first().drop_last() =~= rs@.drop_first());
                if idx < rec.len() {
                    assert(views(rec@)[idx as int] == rec@[idx as int]@);
                } else {
                    assert(ports@ =~= before.union(Set::empty()));
                }
            }
            true
        },
    }
}

/// The ports that a CSV registry names in its `Port Number` column.
///
/// The first record is the header; fields may be quoted, with `""` for a quote
/// inside quotes. Each later record adds the ports of its cell in that column,
/// read as `port_cell_range` reads it.
pub fn parse_csv_registry(csv: &str) -> (r: Result<HashSet<u16>, RegistryError>)
    ensures
        match r {
            Ok(ports) => csv_ports(csv@) == Some(ports@),
            Err(e) => csv_ports(csv@) is None && e == RegistryError::MissingPortColumn,
        },
{
    let chars = chars_of(csv);
    let ghost s = chars@;
    let name = port_column_vec();
    let mut fields: Vec<Vec<char>> = Vec::new();
    let mut field: Vec<char> = Vec::new();
    let mut mode = CsvMode::Unquoted;
    let mut started = false;
    let mut col: Option<usize> = None;
    let mut ports: HashSet<u16> = HashSet::new();
    let mut i: usize = 0;
    proof {
        assert(s.take(0) =~= seq![]);
        assert(views(fields@) =~= seq![]);
        assert(ports@ =~= Set::<u16>::empty());
    }
    while i < chars.len()
        invariant
            s == chars@,
            s == csv@,
            i <= chars.len(),
            name@ == port_column_name(),
            cursor_of(fields@, field@, mode, started) == csv_scan(s.take(i as int)).1,
            records_read(csv_scan(s.take(i as int)).0, col, ports@),
        decreases chars.len() - i,
    {
        let ghost rs = csv_scan(s.take(i as int)).0;
        proof {
            lemma_scan_step(s, i as int);
        }
        let done = csv_step_exec(&mut fields, &mut field, &mut mode, &mut started, chars[i]);
        match done {
            Some(rec) => {
                let ok = absorb_record(&rec, &mut col, &mut ports, &name, Ghost(rs));
                if !ok {
                    proof {
                        assert(opt_seq(Some(views(rec@))) =~= seq![views(rec@)]);
                        assert(csv_scan(s.take(i + 1)).0 =~= seq![views(rec@)]);
                        lemma_first_record_stays(s, i + 1, s.len() as int);
                        assert(s.take(s.len() as int) =~= s);
                        let fin = csv_scan(s);
                        assert(fin.0[0] == views(rec@));
                        if fin.1.started {
                            assert(csv_records(s) == fin.0.push(fin.1.fields.push(fin.1.field)));
                            assert(csv_records(s)[0] == fin.0[0]);
                        }
                        assert(csv_records(s)[0] == views(rec@));
                        assert(views(rec@).len() == rec@.len());
                    }
                    return Err(RegistryError::MissingPortColumn);
                }
                proof {
                    assert(opt_seq(Some(views(rec@))) =~= seq![views(rec@)]);
                    assert(rs + seq![views(rec@)] =~= rs.push(views(rec@)));
                }
            },
            None => {
                proof {
                    assert(rs + opt_seq(None::<Seq<Seq<char>>>) =~= rs);
                }
            },
        }
        i = i + 1;
    }
    proof {
        assert(s.take(i as int) =~= s);
    }
    let ghost rs = csv_scan(s).0;
    if started {
        fields.push(field);
        let ok = absorb_record(&fields, &mut col, &mut ports, &name, Ghost(rs));
        proof {
            assert(views(fields@) =~= csv_scan(s).1.fields.push(csv_scan(s).1.field));
        }
        if !ok {
            return Err(RegistryError::MissingPortColumn);
        }
    }
    match col {
        None => Err(RegistryError::MissingPortColumn),
        Some(_) => Ok(ports),
    }
}

} // verus!
