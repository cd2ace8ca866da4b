use vstd::prelude::*;
use crate::text::{opt_view, split_fields, split_spec};
use crate::record::{record_of, Cell, CellView};

verus! {

/// Why a load stopped.
#[derive(Debug, Clone, Copy, PartialEq, Eq, Structural)]
pub enum LoadError {
    /// The input could not be opened or read.
    Io,
    /// The line at index `line` (counted from 0) did not hold exactly twelve
    /// comma-separated fields; it held `fields`.
    MalformedRow { line: usize, fields: usize },
}

/// Number of raw fields in a row.
pub const FIELD_COUNT: usize = 12;

pub open spec fn views(s: Seq<Cell>) -> Seq<CellView> {
    s.map_values(|c: Cell| c@)
}

pub open spec fn line_views(s: Seq<Option<String>>) -> Seq<Option<Seq<char>>> {
    s.map_values(|o: Option<String>| opt_view(o))
}

/// The collection after one record is offered: unchanged where an equal
/// record is already in it, else with the record appended.
pub open spec fn insert_if_new_spec(acc: Seq<CellView>, c: CellView) -> Seq<CellView> {
    if acc.contains(c) {
        acc
    } else {
        acc.push(c)
    }
}

/// Loading lines in order. A `None` line could not be read and is skipped;
/// a line that does not split into twelve fields stops the load; every
/// other line yields a record, kept only if no equal record came before.
pub open spec fn load_spec(lines: Seq<Option<Seq<char>>>) -> Result<Seq<CellView>, LoadError>
    decreases lines.len(),
{
    if lines.len() == 0 {
        Ok(Seq::empty())
    } else {
        match load_spec(lines.drop_last()) {
            Err(e) => Err(e),
            Ok(acc) => match lines.last() {
                None => Ok(acc),
                Some(l) => if split_spec(l).len() == 12 {
                    Ok(insert_if_new_spec(acc, record_of(split_spec(l))))
                } else {
                    Err(
                        LoadError::MalformedRow {
                            line: (lines.len() - 1) as usize,
                            fields: split_spec(l).len() as usize,
                        },
                    )
                },
            },
        }
    }
}

/// Offers `cell` to `cells`: it is appended, and `true` returned, exactly
/// when no equal record is there yet.
pub fn insert_if_new(cells: &mut Vec<Cell>, cell: Cell) -> (r: bool)
    ensures
        r == !views(old(cells)@).contains(cell@),
        views(final(cells)@) == insert_if_new_spec(views(old(cells)@), cell@),
{
    let n = cells.len();
    let mut i: usize = 0;
    while i < n
        invariant
            n == cells@.len(),
            i <= n,
            forall|j: int| 0 <= j < i ==> #[trigger] cells@[j]@ != cell@,
        decreases n - i,
    {
        if cells[i].same_as(&cell) {
            assert(views(cells@)[i as int] == cell@);
            return false;
        }
        i += 1;
    }
    proof {
        assert forall|j: int| 0 <= j < views(cells@).len() implies views(cells@)[j] != cell@ by {
            assert(cells@[j]@ != cell@);
        }
    }
    let ghost before = cells@;
    cells.push(cell);
    assert(views(cells@) =~= views(before).push(cell@));
    true
}

/// Loads lines in order into a collection of distinct records, as
/// `load_spec` says; `None` stands for a line that could not be read.
pub fn load_lines(lines: &Vec<Option<String>>) -> (r: Result<Vec<Cell>, LoadError>)
    ensures
        match r {
            Ok(cells) => load_spec(line_views(lines@)) == Ok::<Seq<CellView>, LoadError>(
                views(cells@),
            ),
            Err(e) => load_spec(line_views(lines@)) == Err::<Seq<CellView>, LoadError>(e),
        },
{
    let ghost lv = line_views(lines@);
    let mut cells: Vec<Cell> = Vec::new();
    let n = lines.len();
    let mut i: usize = 0;
    assert(lv.take(0) =~= Seq::<Option<Seq<char>>>::empty());
    assert(views(cells@) =~= Seq::<CellView>::empty());
    while i < n
        invariant
            n == lines@.len(),
            lv == line_views(lines@),
            i <= n,
            load_spec(lv.take(i as int)) == Ok::<Seq<CellView>, LoadError>(views(cells@)),
        decreases n - i,
    {
        proof {
            assert(lv.take(i + 1).drop_last() =~= lv.take(i as int));
            assert(lv.take(i + 1).last() == opt_view(lines@[i as int]));
        }
        match &lines[i] {
            None => {},
            Some(line) => {
                let parts = split_fields(line.as_str());
                if parts.len() != FIELD_COUNT {
                    proof {
                        assert(parts@.map_values(|f: String| f@).len() == parts@.len());
                        lemma_error_persists(lv, i + 1);
                    }
                    return Err(LoadError::MalformedRow { line: i, fields: parts.len() });
                }
                let cell = Cell::from_csv_row(&parts);
                insert_if_new(&mut cells, cell);
            },
        }
        i += 1;
    }
    assert(lv.take(n as int) =~= lv);
    Ok(cells)
}

proof fn lemma_error_persists(lines: Seq<Option<Seq<char>>>, k: int)
    requires
        0 <= k <= lines.len(),
        load_spec(lines.take(k)) is Err,
    ensures
        load_spec(lines) == load_spec(lines.take(k)),
    decreases lines.len(),
{
    if k == lines.len() {
        assert(lines.take(k) =~= lines);
    } else {
        assert(lines.drop_last().take(k) =~= lines.take(k));
        lemma_error_persists(lines.drop_last(), k);
    }
}

proof fn lemma_insert_no_duplicates(acc: Seq<CellView>, c: CellView)
    requires
        acc.no_duplicates(),
    ensures
        insert_if_new_spec(acc, c).no_duplicates(),
{
}

/// However often a row recurs among the lines, the loaded collection holds
/// each record once: it never holds two equal records.
pub proof fn lemma_load_no_duplicates(lines: Seq<Option<Seq<char>>>)
    ensures
        load_spec(lines) is Ok ==> load_spec(lines)->Ok_0.no_duplicates(),
    decreases lines.len(),
{
    if lines.len() > 0 {
        lemma_load_no_duplicates(lines.drop_last());
        if let Ok(acc) = load_spec(lines.drop_last()) {
            if let Some(l) = lines.last() {
                lemma_insert_no_duplicates(acc, record_of(split_spec(l)));
            }
        }
    }
}

/// Nothing is merged beyond equality: the record of every readable line is
/// in the loaded collection.
pub proof fn lemma_load_keeps_every_row(lines: Seq<Option<Seq<char>>>, i: int)
    requires
        0 <= i < lines.len(),
        lines[i] is Some,
        load_spec(lines) is Ok,
    ensures
        load_spec(lines)->Ok_0.contains(record_of(split_spec(lines[i]->Some_0))),
    decreases lines.len(),
{
    let prev = lines.drop_last();
    let acc = load_spec(prev)->Ok_0;
    if i < lines.len() - 1 {
        assert(prev[i] == lines[i]);
        lemma_load_keeps_every_row(prev, i);
        let l = lines.last();
        if let Some(l) = l {
            let c = record_of(split_spec(l));
            if !acc.contains(c) {
                let w = record_of(split_spec(lines[i]->Some_0));
                let k = choose|k: int| 0 <= k < acc.len() && acc[k] == w;
                assert(acc.push(c)[k] == w);
            }
        }
    } else {
        let c = record_of(split_spec(lines[i]->Some_0));
        if !acc.contains(c) {
            assert(acc.push(c)[acc.len() as int] == c);
        }
    }
}

/// A row repeated any number of times loads as a single record.
pub proof fn lemma_repeated_row_loads_once(row: Seq<char>, count: nat)
    requires
        count >= 1,
        split_spec(row).len() == 12,
    ensures
        load_spec(Seq::new(count, |k: int| Some(row))) == Ok::<Seq<CellView>, LoadError>(
            seq![record_of(split_spec(row))],
        ),
    decreases count,
{
    let lines = Seq::new(count, |k: int| Some(row));
    let c = record_of(split_spec(row));
    assert(lines.last() == Some(row));
    if count == 1 {
        assert(lines.drop_last() =~= Seq::<Option<Seq<char>>>::empty());
        assert(load_spec(Seq::<Option<Seq<char>>>::empty()) == Ok::<Seq<CellView>, LoadError>(Seq::empty()));
        assert(Seq::<CellView>::empty().push(c) =~= seq![c]);
    } else {
        lemma_repeated_row_loads_once(row, (count - 1) as nat);
        assert(lines.drop_last() =~= Seq::new((count - 1) as nat, |k: int| Some(row)));
        assert(seq![c][0] == c);
        assert(seq![c].contains(c));
    }
}

/// Two rows whose records differ are both kept, in the order given.
pub proof fn lemma_distinct_rows_both_kept(a: Seq<char>, b: Seq<char>)
    requires
        split_spec(a).len() == 12,
        split_spec(b).len() == 12,
        record_of(split_spec(a)) != record_of(split_spec(b)),
    ensures
        load_spec(seq![Some(a), Some(b)]) == Ok::<Seq<CellView>, LoadError>(
            seq![record_of(split_spec(a)), record_of(split_spec(b))],
        ),
{
    let ra = record_of(split_spec(a));
    let rb = record_of(split_spec(b));
    let two = seq![Some(a), Some(b)];
    assert(two.drop_last() =~= seq![Some(a)]);
    assert(seq![Some(a)].drop_last() =~= Seq::<Option<Seq<char>>>::empty());
    assert(Seq::<CellView>::empty().push(ra) =~= seq![ra]);
    assert(load_spec(Seq::<Option<Seq<char>>>::empty()) == Ok::<Seq<CellView>, LoadError>(Seq::empty()));
    assert(load_spec(seq![Some(a)]) == Ok::<Seq<CellView>, LoadError>(seq![ra]));
    assert(!seq![ra].contains(rb)) by {
        if seq![ra].contains(rb) {
            let k = choose|k: int| 0 <= k < 1 && seq![ra][k] == rb;
            assert(seq![ra][0] == ra);
        }
    }
    assert(seq![ra].push(rb) =~= seq![ra, rb]);
}

} // verus!
