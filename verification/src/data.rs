//! The data set of a trajectory: the graphs of all time steps, held in
//! memory and reached by their index.
//!
//! The graphs are kept in an `InMemDataset` of the `burn` crate. The items
//! below that name `burn` say what its calls do to the graphs it holds; they
//! are not proved.

use crate::columns::{classify, groups_of, ColumnGroups, ColumnIndexGroups, ColumnKind};
use crate::load::{
    add_row, all_read, decode_rows, graph_views, lemma_energy_is_needed, lemma_error_stays,
    lemma_load_row_by_row, lemma_one_graph_per_row, lemma_reports_of_one_row, row_result,
    rows_outcome, Decoded, Loaded,
};
pub use crate::record::GraphAtTimestep;
use crate::record::{
    faults_at, integer_at, lemma_row_read_in_full, lemma_row_with_position_left_out,
    lemma_vector_left_out, lemma_vectors_complete, literal_at, report_views, vector_at,
    vectors_complete, well_formed_row, CellFault, CellReport, GraphView, LoadError,
};
use crate::table::{cells_of, csv_table, open_table, read_header, read_row, unread};
use vstd::prelude::*;

verus! {

/// `burn::data::dataset::InMemDataset`, a data set whose items are all in
/// memory. Nothing is known of what is inside one but through `stored`.
#[verifier::external_type_specification]
#[verifier::external_body]
#[verifier::reject_recursive_types(I)]
pub struct ExInMemDataset<I>(burn::data::dataset::InMemDataset<I>);

/// The graphs that `dataset` holds, in the order of their indices.
pub uninterp spec fn stored(
    dataset: burn::data::dataset::InMemDataset<GraphAtTimestep>,
) -> Seq<GraphView>;

/// `InMemDataset::new`: the data set holds the items it was made of, in their order.
#[verifier::external_body]
fn store(items: Vec<GraphAtTimestep>) -> (dataset: burn::data::dataset::InMemDataset<
    GraphAtTimestep,
>)
    ensures
        stored(dataset) == graph_views(items@),
{
    burn::data::dataset::InMemDataset::new(items)
}

/// `Dataset::len` of an `InMemDataset`: the number of items it holds.
#[verifier::external_body]
fn stored_len(dataset: &burn::data::dataset::InMemDataset<GraphAtTimestep>) -> (n: usize)
    ensures
        n == stored(*dataset).len(),
{
    burn::data::dataset::Dataset::len(dataset)
}

/// `Dataset::get` of an `InMemDataset`: a copy of the item at `index`, which
/// holds what the item holds, or `None` where `index` is not below the number
/// of items.
#[verifier::external_body]
fn stored_item(dataset: &burn::data::dataset::InMemDataset<GraphAtTimestep>, index: usize) -> (item:
    Option<GraphAtTimestep>)
    ensures
        match item {
            Some(graph) => index < stored(*dataset).len() && graph@ == stored(*dataset)[index as int],
            None => index >= stored(*dataset).len(),
        },
{
    burn::data::dataset::Dataset::get(dataset, index)
}

/// The graphs of a trajectory, with the groups of columns they were read by
/// and the reports on the vector cells that were left out.
pub struct MD17Dataset {
    dataset: burn::data::dataset::InMemDataset<GraphAtTimestep>,
    columns: ColumnIndexGroups,
    reports: Vec<CellReport>,
}

/// What an `MD17Dataset` holds, as sequences.
pub struct DatasetView {
    pub graphs: Seq<GraphView>,
    pub groups: ColumnGroups,
    pub faults: Seq<CellFault>,
}

impl View for MD17Dataset {
    type V = DatasetView;

    closed spec fn view(&self) -> DatasetView {
        DatasetView {
            graphs: stored(self.dataset),
            groups: self.columns@,
            faults: report_views(self.reports@),
        }
    }
}

/// What a table gives: the data set, or the error that ends the load.
/// `header` is `None` where the header could not be read, and so is each of
/// `rows` that could not be read.
pub open spec fn table_outcome(
    header: Option<Seq<Seq<char>>>,
    rows: Seq<Option<Seq<Seq<char>>>>,
) -> Result<DatasetView, LoadError> {
    match header {
        None => Err(LoadError::Header),
        Some(names) => match rows_outcome(rows, groups_of(names)) {
            Err(error) => Err(error),
            Ok(loaded) => Ok(
                DatasetView {
                    graphs: loaded.graphs,
                    groups: groups_of(names),
                    faults: loaded.faults,
                },
            ),
        },
    }
}

/// Whether a table can be read in full: the header names as many positions
/// and forces as charges, and every row was read and is well formed.
pub open spec fn well_formed_table(
    header: Seq<Seq<char>>,
    rows: Seq<Option<Seq<Seq<char>>>>,
) -> bool {
    let groups = groups_of(header);
    &&& groups.charge.len() == groups.coordinate.len()
    &&& groups.charge.len() == groups.force.len()
    &&& forall|i: int|
        0 <= i < rows.len() ==> (#[trigger] rows[i] matches Some(cells) && well_formed_row(
            cells,
            groups,
        ))
}

/// Whether a graph has as many positions and as many forces as charges.
pub open spec fn balanced(graph: GraphView) -> bool {
    graph.nuclear_charges.len() == graph.coords.len() && graph.nuclear_charges.len()
        == graph.forces.len()
}

/// A table that can be read in full gives a data set with one graph for each
/// row, each with as many positions and forces as charges, and no report.
pub proof fn lemma_table_read_in_full(header: Seq<Seq<char>>, rows: Seq<Option<Seq<Seq<char>>>>)
    requires
        well_formed_table(header, rows),
    ensures
        table_outcome(Some(header), rows) matches Ok(dataset) && dataset.graphs.len() == rows.len()
            && dataset.faults.len() == 0 && forall|i: int|
            0 <= i < rows.len() ==> balanced(#[trigger] dataset.graphs[i]),
{
    let groups = groups_of(header);
    assert forall|i: int| 0 <= i < rows.len() implies (#[trigger] row_result(rows, groups, i)
        matches Ok(found) && balanced(found.graph) && found.faults.len() == 0) by {
        assert(rows[i] is Some);
        lemma_row_read_in_full(i as usize, rows[i]->0, groups);
    }
    lemma_load_row_by_row(rows, groups);
    lemma_reports_of_one_row(rows, groups, -1);
}

/// One vector cell that cannot be read costs one vector and nothing else.
///
/// Take a table that could be read in full but for one cell: in the row at
/// `row`, the cell of the position column numbered `missing` holds no vector.
/// The load succeeds with one graph for each row. The graph at `row` has one
/// position fewer than charges and all its forces. Every other graph is what
/// its own row gives, with as many positions and forces as charges. The
/// reports are those of the one cell.
pub proof fn lemma_one_position_left_out(
    header: Seq<Seq<char>>,
    rows: Seq<Option<Seq<Seq<char>>>>,
    row: int,
    missing: int,
)
    requires
        groups_of(header).charge.len() == groups_of(header).coordinate.len(),
        groups_of(header).charge.len() == groups_of(header).force.len(),
        0 <= row < rows.len(),
        0 <= missing < groups_of(header).coordinate.len(),
        forall|i: int|
            0 <= i < rows.len() && i != row ==> (#[trigger] rows[i] matches Some(cells)
                && well_formed_row(cells, groups_of(header))),
        rows[row] matches Some(cells) && ({
            let groups = groups_of(header);
            &&& vector_at(cells, groups.coordinate[missing] as int) is None
            &&& forall|k: int|
                0 <= k < groups.coordinate.len() && k != missing ==> vector_at(
                    cells,
                    #[trigger] groups.coordinate[k] as int,
                ) is Some
            &&& integer_at(cells, 0) is Some
            &&& literal_at(cells, 1) is Some
            &&& forall|k: int|
                0 <= k < groups.charge.len() ==> integer_at(
                    cells,
                    #[trigger] groups.charge[k] as int,
                ) is Some
            &&& vectors_complete(cells, groups.force)
        }),
    ensures
        table_outcome(Some(header), rows) matches Ok(dataset) && ({
            let groups = groups_of(header);
            &&& dataset.graphs.len() == rows.len()
            &&& dataset.graphs[row].coords.len() + 1 == dataset.graphs[row].nuclear_charges.len()
            &&& dataset.graphs[row].forces.len() == dataset.graphs[row].nuclear_charges.len()
            &&& forall|i: int|
                0 <= i < rows.len() && i != row ==> balanced(#[trigger] dataset.graphs[i])
            &&& forall|i: int|
                0 <= i < rows.len() ==> (row_result(rows, groups, i) matches Ok(found)
                    && #[trigger] dataset.graphs[i] == found.graph)
            &&& dataset.faults == faults_at(
                row as usize,
                rows[row]->0,
                groups.coordinate,
                ColumnKind::Coordinate,
            )
            &&& dataset.faults.len() <= 1
        }),
{
    let groups = groups_of(header);
    let cells = rows[row]->0;
    lemma_row_with_position_left_out(row as usize, cells, groups, missing);
    lemma_vector_left_out(row as usize, cells, groups.coordinate, ColumnKind::Coordinate, missing);
    lemma_vectors_complete(row as usize, cells, groups.force, ColumnKind::Force);
    assert(row_result(rows, groups, row) is Ok);
    assert forall|i: int| 0 <= i < rows.len() && i != row implies (#[trigger] row_result(
        rows,
        groups,
        i,
    ) matches Ok(found) && balanced(found.graph) && found.faults.len() == 0) by {
        assert(rows[i] is Some);
        lemma_row_read_in_full(i as usize, rows[i]->0, groups);
    }
    assert forall|i: int| 0 <= i < rows.len() implies #[trigger] row_result(rows, groups, i)
        is Ok by {
        if i != row {
            assert(row_result(rows, groups, i) matches Ok(found) && balanced(found.graph));
        }
    }
    lemma_load_row_by_row(rows, groups);
    lemma_reports_of_one_row(rows, groups, row);
    let found = row_result(rows, groups, row)->Ok_0;
    assert(found.faults =~= faults_at(
        row as usize,
        cells,
        groups.coordinate,
        ColumnKind::Coordinate,
    ));
}

/// An energy that is no number ends the load: whatever the header, a table
/// with a row whose second cell is missing or is not a floating-point literal
/// gives no data set.
pub proof fn lemma_energy_is_fatal(
    header: Option<Seq<Seq<char>>>,
    rows: Seq<Option<Seq<Seq<char>>>>,
    row: int,
)
    requires
        0 <= row < rows.len(),
        rows[row] matches Some(cells) && literal_at(cells, 1) is None,
    ensures
        table_outcome(header, rows) is Err,
{
    if let Some(names) = header {
        lemma_energy_is_needed(rows, groups_of(names), row);
    }
}

/// The size of a data set is the number of rows of its table.
pub proof fn lemma_size_is_row_count(
    header: Option<Seq<Seq<char>>>,
    rows: Seq<Option<Seq<Seq<char>>>>,
)
    ensures
        table_outcome(header, rows) matches Ok(dataset) ==> dataset.graphs.len() == rows.len(),
{
    if let Some(names) = header {
        lemma_one_graph_per_row(rows, groups_of(names));
    }
}

impl MD17Dataset {
    /// Puts what was read of a table into a data set.
    fn assemble(decoded: Decoded, columns: ColumnIndexGroups) -> (dataset: MD17Dataset)
        ensures
            dataset@ == (DatasetView {
                graphs: decoded@.graphs,
                groups: columns@,
                faults: decoded@.faults,
            }),
    {
        let Decoded { records, reports } = decoded;
        MD17Dataset { dataset: store(records), columns, reports }
    }

    /// Loads the table written in `data` as comma-separated values.
    ///
    /// The table is what `csv` reads from `data`; the result is what
    /// `table_outcome` makes of it.
    pub fn new(data: &[u8]) -> (r: Result<MD17Dataset, LoadError>)
        ensures
            match table_outcome(csv_table(data@).0, csv_table(data@).1) {
                Ok(expected) => r matches Ok(dataset) && dataset@ == expected,
                Err(expected) => r matches Err(error) && error == expected,
            },
    {
        let ghost table = csv_table(data@);
        let mut reader = open_table(data);
        let names = match read_header(&mut reader) {
            Ok(record) => cells_of(&record),
            Err(_) => {
                return Err(LoadError::Header);
            },
        };
        let columns = classify(&names);
        let mut decoded = Decoded { records: Vec::new(), reports: Vec::new() };
        proof {
            assert(decoded@.graphs =~= Seq::empty());
            assert(decoded@.faults =~= Seq::empty());
        }
        loop
            invariant
                table == csv_table(data@),
                table.0 == Some(names.deep_view()),
                columns@ == groups_of(names.deep_view()),
                decoded.records.len() <= table.1.len(),
                unread(reader).1 == table.1.skip(decoded.records.len() as int),
                rows_outcome(table.1.take(decoded.records.len() as int), columns@) == Ok::<
                    Loaded,
                    LoadError,
                >(decoded@),
            decreases unread(reader).1.len(),
        {
            let row = decoded.records.len();
            proof {
                if row < table.1.len() {
                    let next = table.1.take(row + 1);
                    assert(next.drop_last() == table.1.take(row as int));
                    lemma_error_stays(table.1, columns@, row + 1);
                } else {
                    assert(table.1.take(row as int) == table.1);
                }
            }
            match read_row(&mut reader) {
                None => {
                    return Ok(MD17Dataset::assemble(decoded, columns));
                },
                Some(Err(_)) => {
                    return Err(LoadError::Row { row });
                },
                Some(Ok(record)) => {
                    let cells = cells_of(&record);
                    match add_row(&mut decoded, &cells, &columns) {
                        Err(error) => {
                            return Err(error);
                        },
                        Ok(()) => {},
                    }
                    proof {
                        assert(decoded@.graphs.len() == decoded.records.len());
                    }
                },
            }
        }
    }

    /// Loads a table from its header and its rows.
    ///
    /// The result is what `table_outcome` makes of them.
    pub fn from_rows(header: &Vec<String>, rows: &Vec<Vec<String>>) -> (r: Result<
        MD17Dataset,
        LoadError,
    >)
        ensures
            match table_outcome(Some(header.deep_view()), all_read(rows.deep_view())) {
                Ok(expected) => r matches Ok(dataset) && dataset@ == expected,
                Err(expected) => r matches Err(error) && error == expected,
            },
    {
        let columns = classify(header);
        match decode_rows(rows, &columns) {
            Ok(decoded) => Ok(MD17Dataset::assemble(decoded, columns)),
            Err(error) => Err(error),
        }
    }

    /// The number of time steps.
    pub fn len(&self) -> (n: usize)
        ensures
            n == self@.graphs.len(),
    {
        stored_len(&self.dataset)
    }

    /// The graph at `index`, or `None` where `index` is not below `len()`.
    pub fn get(&self, index: usize) -> (r: Option<GraphAtTimestep>)
        ensures
            match r {
                Some(graph) => index < self@.graphs.len() && graph@ == self@.graphs[index as int],
                None => index >= self@.graphs.len(),
            },
    {
        stored_item(&self.dataset, index)
    }

    /// The groups of columns that the table was read by.
    pub fn columns(&self) -> (columns: &ColumnIndexGroups)
        ensures
            columns@ == self@.groups,
    {
        &self.columns
    }

    /// The reports on the vector cells that were left out.
    pub fn reports(&self) -> (reports: &Vec<CellReport>)
        ensures
            report_views(reports@) == self@.faults,
    {
        &self.reports
    }
}

} // verus!
