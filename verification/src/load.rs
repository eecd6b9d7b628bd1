//! Reading all rows of a table: one graph for each row, in the order of the
//! rows, and the reports on the vector cells that were left out.
//!
//! The first row that cannot be read ends the load with its error, and
//! nothing is kept of the rows before it.

use crate::columns::{ColumnGroups, ColumnIndexGroups};
use crate::record::{
    decode_row, report_views, row_of, CellFault, CellReport, GraphAtTimestep, GraphView,
    LoadError, RowView,
};
use crate::record::literal_at;
use vstd::prelude::*;

verus! {

/// The graphs of a table and the reports on its vector cells.
#[derive(Clone, Debug, PartialEq)]
pub struct Decoded {
    /// One graph for each row, in the order of the rows.
    pub records: Vec<GraphAtTimestep>,
    /// The reports, in the order of the rows; within a row the positions come
    /// before the forces, each in the order of the columns.
    pub reports: Vec<CellReport>,
}

/// What a `Decoded` holds, as sequences.
pub struct Loaded {
    pub graphs: Seq<GraphView>,
    pub faults: Seq<CellFault>,
}

/// What each of `records` holds.
pub open spec fn graph_views(records: Seq<GraphAtTimestep>) -> Seq<GraphView> {
    records.map_values(|graph: GraphAtTimestep| graph@)
}

impl View for Decoded {
    type V = Loaded;

    open spec fn view(&self) -> Loaded {
        Loaded { graphs: graph_views(self.records@), faults: report_views(self.reports@) }
    }
}

/// What the rows of a table give under `groups`. A row is `None` where the
/// table could not be read there.
pub open spec fn rows_outcome(rows: Seq<Option<Seq<Seq<char>>>>, groups: ColumnGroups) -> Result<
    Loaded,
    LoadError,
>
    decreases rows.len(),
{
    if rows.len() == 0 {
        Ok(Loaded { graphs: Seq::empty(), faults: Seq::empty() })
    } else {
        let row = (rows.len() - 1) as usize;
        match rows_outcome(rows.drop_last(), groups) {
            Err(error) => Err(error),
            Ok(before) => match rows.last() {
                None => Err(LoadError::Row { row }),
                Some(cells) => match row_of(row, cells, groups) {
                    Err(error) => Err(error),
                    Ok(found) => Ok(
                        Loaded {
                            graphs: before.graphs.push(found.graph),
                            faults: before.faults + found.faults,
                        },
                    ),
                },
            },
        }
    }
}

/// Rows that were all read from the table.
pub open spec fn all_read(rows: Seq<Seq<Seq<char>>>) -> Seq<Option<Seq<Seq<char>>>> {
    rows.map_values(|cells: Seq<Seq<char>>| Some(cells))
}

/// A load that succeeds gives one graph for each row.
pub proof fn lemma_one_graph_per_row(rows: Seq<Option<Seq<Seq<char>>>>, groups: ColumnGroups)
    ensures
        rows_outcome(rows, groups) matches Ok(loaded) ==> loaded.graphs.len() == rows.len(),
    decreases rows.len(),
{
    if rows.len() > 0 {
        lemma_one_graph_per_row(rows.drop_last(), groups);
    }
}

/// What the row at `i` gives by itself: the error `Row` where the table could
/// not be read there, else what its cells give.
pub open spec fn row_result(rows: Seq<Option<Seq<Seq<char>>>>, groups: ColumnGroups, i: int)
    -> Result<RowView, LoadError> {
    match rows[i] {
        None => Err(LoadError::Row { row: i as usize }),
        Some(cells) => row_of(i as usize, cells, groups),
    }
}

/// A load succeeds exactly where every row can be read, and then the graph at
/// each index is the graph of the row at that index, whatever the other rows
/// hold.
pub proof fn lemma_load_row_by_row(rows: Seq<Option<Seq<Seq<char>>>>, groups: ColumnGroups)
    ensures
        rows_outcome(rows, groups) is Ok <==> forall|i: int|
            0 <= i < rows.len() ==> #[trigger] row_result(rows, groups, i) is Ok,
        rows_outcome(rows, groups) matches Ok(loaded) ==> loaded.graphs.len() == rows.len()
            && forall|i: int|
            0 <= i < rows.len() ==> (row_result(rows, groups, i) matches Ok(found)
                && #[trigger] loaded.graphs[i] == found.graph),
    decreases rows.len(),
{
    if rows.len() > 0 {
        let shorter = rows.drop_last();
        let last = rows.len() - 1;
        lemma_load_row_by_row(shorter, groups);
        assert forall|i: int| 0 <= i < shorter.len() implies #[trigger] row_result(
            shorter,
            groups,
            i,
        ) == row_result(rows, groups, i) by {
            assert(shorter[i] == rows[i]);
        }
        if rows_outcome(rows, groups) is Ok {
            assert forall|i: int| 0 <= i < rows.len() implies #[trigger] row_result(
                rows,
                groups,
                i,
            ) is Ok by {
                if i < last {
                    assert(row_result(shorter, groups, i) is Ok);
                }
            }
        }
        if forall|i: int| 0 <= i < rows.len() ==> #[trigger] row_result(rows, groups, i) is Ok {
            assert forall|i: int| 0 <= i < shorter.len() implies #[trigger] row_result(
                shorter,
                groups,
                i,
            ) is Ok by {
                assert(row_result(rows, groups, i) is Ok);
            }
            assert(row_result(rows, groups, last) is Ok);
        }
        if let Ok(loaded) = rows_outcome(rows, groups) {
            let before = rows_outcome(shorter, groups)->Ok_0;
            assert forall|i: int| 0 <= i < rows.len() implies (row_result(rows, groups, i) matches Ok(
                found,
            ) && #[trigger] loaded.graphs[i] == found.graph) by {
                if i < last {
                    assert(loaded.graphs[i] == before.graphs[i]);
                    assert(row_result(shorter, groups, i) == row_result(rows, groups, i));
                }
            }
        }
    }
}

/// The error of a load is the error of the first row that cannot be read.
pub proof fn lemma_first_error(rows: Seq<Option<Seq<Seq<char>>>>, groups: ColumnGroups, i: int)
    requires
        0 <= i < rows.len(),
        forall|j: int| 0 <= j < i ==> #[trigger] row_result(rows, groups, j) is Ok,
        row_result(rows, groups, i) is Err,
    ensures
        rows_outcome(rows, groups) == Err::<Loaded, LoadError>(row_result(rows, groups, i)->Err_0),
{
    let upto = rows.take(i);
    assert forall|j: int| 0 <= j < upto.len() implies #[trigger] row_result(upto, groups, j)
        is Ok by {
        assert(upto[j] == rows[j]);
        assert(row_result(rows, groups, j) is Ok);
    }
    lemma_load_row_by_row(upto, groups);
    let next = rows.take(i + 1);
    assert(next.drop_last() == upto);
    assert(next.last() == rows[i]);
    lemma_error_stays(rows, groups, i + 1);
}

/// An energy that is no number ends the load: a table with a row whose
/// second cell is missing or is not a floating-point literal gives no data set.
pub proof fn lemma_energy_is_needed(
    rows: Seq<Option<Seq<Seq<char>>>>,
    groups: ColumnGroups,
    i: int,
)
    requires
        0 <= i < rows.len(),
        rows[i] matches Some(cells) && literal_at(cells, 1) is None,
    ensures
        rows_outcome(rows, groups) is Err,
{
    lemma_load_row_by_row(rows, groups);
    assert(row_result(rows, groups, i) is Err);
}

/// The reports of a load in which at most the row at `noisy` has any are the
/// reports of that row.
pub proof fn lemma_reports_of_one_row(
    rows: Seq<Option<Seq<Seq<char>>>>,
    groups: ColumnGroups,
    noisy: int,
)
    requires
        rows_outcome(rows, groups) is Ok,
        forall|i: int|
            0 <= i < rows.len() && i != noisy ==> (#[trigger] row_result(
                rows,
                groups,
                i,
            ))->Ok_0.faults.len() == 0,
    ensures
        rows_outcome(rows, groups)->Ok_0.faults == if 0 <= noisy < rows.len() {
            row_result(rows, groups, noisy)->Ok_0.faults
        } else {
            Seq::empty()
        },
    decreases rows.len(),
{
    if rows.len() > 0 {
        let shorter = rows.drop_last();
        let last = rows.len() - 1;
        assert forall|i: int| 0 <= i < shorter.len() implies #[trigger] row_result(
            shorter,
            groups,
            i,
        ) == row_result(rows, groups, i) by {
            assert(shorter[i] == rows[i]);
        }
        assert forall|i: int| 0 <= i < shorter.len() && i != noisy implies (#[trigger] row_result(
            shorter,
            groups,
            i,
        ))->Ok_0.faults.len() == 0 by {
            assert(row_result(rows, groups, i)->Ok_0.faults.len() == 0);
        }
        lemma_reports_of_one_row(shorter, groups, noisy);
        let before = rows_outcome(shorter, groups)->Ok_0;
        let found = row_result(rows, groups, last)->Ok_0;
        if noisy == last {
            assert(before.faults + found.faults =~= found.faults);
        } else {
            assert(found.faults.len() == 0);
            assert(before.faults + found.faults =~= before.faults);
        }
    }
}

/// Adds the row with the cells `cells` to `decoded`, or gives its error.
pub(crate) fn add_row(decoded: &mut Decoded, cells: &Vec<String>, groups: &ColumnIndexGroups) -> (r:
    Result<(), LoadError>)
    ensures
        match row_of(old(decoded).records.len(), cells.deep_view(), groups@) {
            Ok(found) => r is Ok && final(decoded)@ == (Loaded {
                graphs: old(decoded)@.graphs.push(found.graph),
                faults: old(decoded)@.faults + found.faults,
            }),
            Err(error) => r == Err::<(), LoadError>(error) && *final(decoded) == *old(decoded),
        },
{
    let ghost graphs_before = decoded.records@;
    let ghost reports_before = decoded.reports@;
    match decode_row(decoded.records.len(), cells, groups) {
        Err(error) => Err(error),
        Ok(found) => {
            let (graph, mut reports) = found;
            let ghost added = reports@;
            decoded.records.push(graph);
            decoded.reports.append(&mut reports);
            proof {
                assert(graph_views(decoded.records@) =~= graph_views(graphs_before).push(graph@));
                assert(report_views(decoded.reports@) =~= report_views(reports_before)
                    + report_views(added));
            }
            Ok(())
        },
    }
}

/// Reads the rows of a table under `groups`.
///
/// Returns the graphs and the reports, or the error of the first row that
/// cannot be read, as `rows_outcome` gives them.
pub fn decode_rows(rows: &Vec<Vec<String>>, groups: &ColumnIndexGroups) -> (r: Result<
    Decoded,
    LoadError,
>)
    ensures
        match rows_outcome(all_read(rows.deep_view()), groups@) {
            Ok(loaded) => r matches Ok(decoded) && decoded@ == loaded,
            Err(error) => r matches Err(found) && found == error,
        },
{
    let ghost all = all_read(rows.deep_view());
    let mut decoded = Decoded { records: Vec::new(), reports: Vec::new() };
    let mut i: usize = 0;
    proof {
        assert(decoded@.graphs =~= Seq::empty());
        assert(decoded@.faults =~= Seq::empty());
    }
    while i < rows.len()
        invariant
            i <= rows.len(),
            all == all_read(rows.deep_view()),
            decoded.records.len() == i,
            rows_outcome(all.take(i as int), groups@) == Ok::<Loaded, LoadError>(decoded@),
        decreases rows.len() - i,
    {
        proof {
            let next = all.take(i + 1);
            assert(next.drop_last() == all.take(i as int));
            lemma_error_stays(all, groups@, i + 1);
        }
        match add_row(&mut decoded, &rows[i], groups) {
            Err(error) => {
                return Err(error);
            },
            Ok(()) => {},
        }
        proof {
            assert(decoded@.graphs.len() == decoded.records.len());
        }
        i += 1;
    }
    proof {
        assert(all.take(rows.len() as int) == all);
    }
    Ok(decoded)
}

/// Once the first `n` rows fail, the whole table fails with the same error.
pub proof fn lemma_error_stays(rows: Seq<Option<Seq<Seq<char>>>>, groups: ColumnGroups, n: int)
    requires
        0 <= n <= rows.len(),
    ensures
        rows_outcome(rows.take(n), groups) matches Err(error) ==> rows_outcome(rows, groups)
            == Err::<Loaded, LoadError>(error),
    decreases rows.len() - n,
{
    if n < rows.len() {
        assert(rows.take(n + 1).drop_last() == rows.take(n));
        lemma_error_stays(rows, groups, n + 1);
    } else {
        assert(rows.take(n) == rows);
    }
}

} // verus!
