//! The flat CSV export of a board: a header line, then one line per
//! hypothesis with its cells escaped as RFC 4180 asks (a cell holding a
//! comma, a quote or a line break is quoted, its quotes doubled).

use vstd::prelude::*;

use crate::contracts::Status;
use crate::status::{spec_status_str, status_str};
use crate::strings::{decimal, seq_join, views};

verus! {

/// The header line of the board export, without its line break.
pub const BOARD_CSV_HEADER: &'static str = "rank,id,title,status,score_total,value_usd_lo,value_usd_hi,capex_class,addressable_tons_28,trace";

/// Whether a cell needs quoting.
pub open spec fn needs_quotes(s: Seq<char>) -> bool {
    s.contains(',') || s.contains('"') || s.contains('\n')
}

/// `s` with every quote doubled.
pub open spec fn double_quotes(s: Seq<char>) -> Seq<char>
    decreases s.len(),
{
    if s.len() == 0 {
        Seq::empty()
    } else {
        double_quotes(s.drop_last()) + if s.last() == '"' {
            seq!['"', '"']
        } else {
            seq![s.last()]
        }
    }
}

/// A cell as it stands in the CSV text.
pub open spec fn spec_csv_field(s: Seq<char>) -> Seq<char> {
    if needs_quotes(s) {
        seq!['"'] + double_quotes(s) + seq!['"']
    } else {
        s
    }
}

/// A cell escaped for CSV: quoted, with quotes doubled, when it holds a
/// comma, a quote or a line break; else as it is.
pub fn csv_field(s: &str) -> (r: String)
    ensures
        r@ == spec_csv_field(s@),
{
    let cs = crate::strings::chars_of(s);
    let mut special = false;
    let mut i: usize = 0;
    while i < cs.len()
        invariant
            cs@ == s@,
            i <= cs.len(),
            special == (cs@.take(i as int).contains(',') || cs@.take(i as int).contains('"') || cs@.take(i as int).contains('\n')),
        decreases cs.len() - i,
    {
        assert(cs@.take(i + 1) =~= cs@.take(i as int).push(cs@[i as int]));
        if cs[i] == ',' || cs[i] == '"' || cs[i] == '\n' {
            special = true;
        }
        proof {
            let t = cs@.take(i as int);
            let c = cs@[i as int];
            assert forall|x: char| t.push(c).contains(x) <==> (t.contains(x) || x == c) by {
                if t.push(c).contains(x) {
                    let k = choose|k: int| 0 <= k < t.push(c).len() && t.push(c)[k] == x;
                    if k < t.len() {
                        assert(t[k] == x);
                    }
                }
                if t.contains(x) {
                    let k = choose|k: int| 0 <= k < t.len() && t[k] == x;
                    assert(t.push(c)[k] == x);
                }
                if x == c {
                    assert(t.push(c)[t.len() as int] == x);
                }
            }
        }
        i = i + 1;
    }
    assert(cs@.take(cs.len() as int) =~= s@);
    if !special {
        return crate::strings::owned(s);
    }
    let mut r = String::new();
    proof {
        reveal_strlit("\"");
        reveal_strlit("\"\"");
    }
    r.append("\"");
    let mut k: usize = 0;
    while k < cs.len()
        invariant
            cs@ == s@,
            k <= cs.len(),
            r@ == seq!['"'] + double_quotes(cs@.take(k as int)),
        decreases cs.len() - k,
    {
        assert(cs@.take(k + 1).drop_last() =~= cs@.take(k as int));
        assert(cs@.take(k + 1).last() == cs@[k as int]);
        proof {
            reveal_strlit("\"\"");
        }
        if cs[k] == '"' {
            r.append("\"\"");
        } else {
            let one = s.substring_char(k, k + 1);
            assert(one@ =~= seq![cs@[k as int]]);
            r.append(one);
        }
        assert(r@ =~= seq!['"'] + double_quotes(cs@.take(k + 1)));
        k = k + 1;
    }
    r.append("\"");
    r
}

/// One hypothesis of a board as its export line holds it; the numeric
/// cells arrive already formatted (`score_total` with three decimals, the
/// values without decimals, the tonnage with one, the capex class or empty).
#[derive(Debug)]
pub struct BoardRow {
    pub rank: u32,
    pub id: String,
    pub title: String,
    pub status: Status,
    pub score_total: String,
    pub value_usd_lo: String,
    pub value_usd_hi: String,
    pub capex_class: String,
    pub addressable_tons_28: String,
    pub trace: Vec<String>,
}

/// The cells of a row, before escaping; the trace is joined with `;`.
pub open spec fn row_cells(r: BoardRow) -> Seq<Seq<char>> {
    seq![
        decimal(r.rank as nat),
        r.id@,
        r.title@,
        spec_status_str(r.status),
        r.score_total@,
        r.value_usd_lo@,
        r.value_usd_hi@,
        r.capex_class@,
        r.addressable_tons_28@,
        seq_join(views(r.trace@), ";"@),
    ]
}

/// The escaped cells of a row.
pub open spec fn escaped(cells: Seq<Seq<char>>) -> Seq<Seq<char>> {
    cells.map_values(|c: Seq<char>| spec_csv_field(c))
}

/// A CSV line: the escaped cells joined with commas, then a line break.
pub open spec fn csv_line(cells: Seq<Seq<char>>) -> Seq<char> {
    seq_join(escaped(cells), ","@) + "\n"@
}

/// The board export: the header line, then one line per row in order.
pub open spec fn spec_board_csv(rows: Seq<BoardRow>) -> Seq<char>
    decreases rows.len(),
{
    if rows.len() == 0 {
        BOARD_CSV_HEADER@ + "\n"@
    } else {
        spec_board_csv(rows.drop_last()) + csv_line(row_cells(rows.last()))
    }
}

fn push_cell(v: &mut Vec<String>, cell: &str)
    ensures
        views(final(v)@) == views(old(v)@).push(spec_csv_field(cell@)),
{
    let e = csv_field(cell);
    let ghost before = v@;
    v.push(e);
    assert(views(v@) =~= views(before).push(spec_csv_field(cell@)));
}

fn row_line(r: &BoardRow) -> (line: String)
    ensures
        line@ == csv_line(row_cells(*r)),
{
    let mut cells: Vec<String> = Vec::new();
    let rank = crate::strings::padded_decimal(r.rank as u64, 0);
    assert(crate::strings::zero_pad(decimal(r.rank as nat), 0) == decimal(r.rank as nat));
    push_cell(&mut cells, rank.as_str());
    push_cell(&mut cells, r.id.as_str());
    push_cell(&mut cells, r.title.as_str());
    push_cell(&mut cells, status_str(r.status));
    push_cell(&mut cells, r.score_total.as_str());
    push_cell(&mut cells, r.value_usd_lo.as_str());
    push_cell(&mut cells, r.value_usd_hi.as_str());
    push_cell(&mut cells, r.capex_class.as_str());
    push_cell(&mut cells, r.addressable_tons_28.as_str());
    let trace = crate::strings::join(&r.trace, ";");
    push_cell(&mut cells, trace.as_str());
    assert(views(cells@) =~= escaped(row_cells(*r)));
    let mut line = crate::strings::join(&cells, ",");
    line.append("\n");
    line
}

/// The flat CSV export of a board: the header line, then one line per
/// hypothesis with rank, id, title, status, score, value range, capex class,
/// addressable tonnage of element 28 and the trace joined with `;`, each
/// cell escaped.
pub fn board_csv(rows: &Vec<BoardRow>) -> (r: String)
    ensures
        r@ == spec_board_csv(rows@),
{
    let mut out = crate::strings::owned(BOARD_CSV_HEADER);
    out.append("\n");
    let mut i: usize = 0;
    while i < rows.len()
        invariant
            i <= rows.len(),
            out@ == spec_board_csv(rows@.take(i as int)),
        decreases rows.len() - i,
    {
        let line = row_line(&rows[i]);
        out.append(line.as_str());
        assert(rows@.take(i + 1).drop_last() =~= rows@.take(i as int));
        i = i + 1;
    }
    assert(rows@.take(rows.len() as int) =~= rows@);
    out
}

} // verus!
