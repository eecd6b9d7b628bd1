//! One row of the table and the molecular graph that it describes.
//!
//! The first cell of a row is the time step, the second the energy. The other
//! cells are read by the groups of columns: a nuclear charge, a position and a
//! force for each atom. A row without a time step, an energy or a charge that
//! can be read is refused. A position or a force that cannot be read is left
//! out and reported: the graph then has fewer positions or forces than
//! charges.

use crate::columns::{ColumnGroups, ColumnIndexGroups, ColumnKind};
use crate::number::{
    digits_of, i32_of, is_float_literal, parse_i32, push_digits, FloatLiteral,
};
use crate::scan::{first_false, lemma_first_false_unique};
use crate::vector::{
    fault_text, parse_vector_field, vector_of, vector_view, VectorError, VectorFault,
};
use vstd::prelude::*;
use vstd::string::StringExecFns;

verus! {

/// The molecular graph at one time step.
#[derive(Clone, Debug, PartialEq)]
pub struct GraphAtTimestep {
    /// The number of the frame.
    pub timestep: i32,
    /// The total energy of the frame.
    pub energy: FloatLiteral,
    /// The nuclear charge of each atom, in the order of the atoms.
    pub nuclear_charges: Vec<i32>,
    /// The position of each atom whose position could be read.
    pub coords: Vec<[FloatLiteral; 3]>,
    /// The force on each atom whose force could be read.
    pub forces: Vec<[FloatLiteral; 3]>,
}

/// What a `GraphAtTimestep` holds, with numbers as their texts.
pub struct GraphView {
    pub timestep: i32,
    pub energy: Seq<char>,
    pub nuclear_charges: Seq<i32>,
    pub coords: Seq<Seq<Seq<char>>>,
    pub forces: Seq<Seq<Seq<char>>>,
}

/// The texts of the components of each vector of `vectors`.
pub open spec fn vector_views(vectors: Seq<[FloatLiteral; 3]>) -> Seq<Seq<Seq<char>>> {
    vectors.map_values(|v: [FloatLiteral; 3]| vector_view(v))
}

impl View for GraphAtTimestep {
    type V = GraphView;

    open spec fn view(&self) -> GraphView {
        GraphView {
            timestep: self.timestep,
            energy: self.energy@,
            nuclear_charges: self.nuclear_charges@,
            coords: vector_views(self.coords@),
            forces: vector_views(self.forces@),
        }
    }
}

/// A vector cell that could not be read, and why.
#[derive(Clone, Debug, PartialEq, Eq)]
pub struct CellReport {
    /// The row of the cell, counted from 0 at the first row after the header.
    pub row: usize,
    /// The column of the cell, counted from 0.
    pub column: usize,
    /// Whether the cell is a position or a force.
    pub kind: ColumnKind,
    /// Why the cell holds no vector.
    pub error: VectorError,
}

/// What a `CellReport` holds, with texts as sequences of characters.
pub struct CellFault {
    pub row: usize,
    pub column: usize,
    pub kind: ColumnKind,
    pub fault: VectorFault,
}

impl View for CellReport {
    type V = CellFault;

    open spec fn view(&self) -> CellFault {
        CellFault { row: self.row, column: self.column, kind: self.kind, fault: self.error@ }
    }
}

/// The word for a kind of column.
pub open spec fn kind_word(kind: ColumnKind) -> Seq<char> {
    match kind {
        ColumnKind::Charge => "charge"@,
        ColumnKind::Coordinate => "coordinate"@,
        ColumnKind::Force => "force"@,
    }
}

/// What a `CellFault` says in words: the kind of the cell, its column, and
/// why it holds no vector.
pub open spec fn report_text(fault: CellFault) -> Seq<char> {
    "Error parsing "@ + kind_word(fault.kind) + " at index "@ + digits_of(fault.column as nat)
        + ": "@ + fault_text(fault.fault)
}

impl CellReport {
    /// The report in words.
    pub fn message(&self) -> (text: String)
        ensures
            text@ == report_text(self@),
    {
        let mut message = String::from_str("Error parsing ");
        match self.kind {
            ColumnKind::Charge => message.append("charge"),
            ColumnKind::Coordinate => message.append("coordinate"),
            ColumnKind::Force => message.append("force"),
        }
        message.append(" at index ");
        push_digits(&mut message, self.column as u64);
        message.append(": ");
        message.append(self.error.message().as_str());
        message
    }
}

/// What each of `reports` holds.
pub open spec fn report_views(reports: Seq<CellReport>) -> Seq<CellFault> {
    reports.map_values(|report: CellReport| report@)
}

/// Why a table could not be loaded. Rows are counted from 0 at the first row
/// after the header, columns from 0.
#[derive(Clone, Copy, Debug, PartialEq, Eq, Structural)]
pub enum LoadError {
    /// The header could not be read.
    Header,
    /// The row could not be read from the table.
    Row { row: usize },
    /// The row has no first cell, or it is not a 32-bit integer.
    Timestep { row: usize },
    /// The row has no second cell, or it is not a floating-point literal.
    Energy { row: usize },
    /// The row has no cell in this charge column, or it is not a 32-bit integer.
    Charge { row: usize, column: usize },
}

/// What a `LoadError` says in words.
pub open spec fn error_text(error: LoadError) -> Seq<char> {
    match error {
        LoadError::Header => "the header could not be read"@,
        LoadError::Row { row } => "row "@ + digits_of(row as nat) + " could not be read"@,
        LoadError::Timestep { row } => "row "@ + digits_of(row as nat)
            + ": the time step is missing or is not a 32-bit integer"@,
        LoadError::Energy { row } => "row "@ + digits_of(row as nat)
            + ": the energy is missing or is not a number"@,
        LoadError::Charge { row, column } => "row "@ + digits_of(row as nat)
            + ": the charge in column "@ + digits_of(column as nat)
            + " is missing or is not a 32-bit integer"@,
    }
}

impl LoadError {
    /// The error in words.
    pub fn message(&self) -> (text: String)
        ensures
            text@ == error_text(*self),
    {
        match *self {
            LoadError::Header => String::from_str("the header could not be read"),
            LoadError::Row { row } => {
                let mut message = String::from_str("row ");
                push_digits(&mut message, row as u64);
                message.append(" could not be read");
                message
            },
            LoadError::Timestep { row } => {
                let mut message = String::from_str("row ");
                push_digits(&mut message, row as u64);
                message.append(": the time step is missing or is not a 32-bit integer");
                message
            },
            LoadError::Energy { row } => {
                let mut message = String::from_str("row ");
                push_digits(&mut message, row as u64);
                message.append(": the energy is missing or is not a number");
                message
            },
            LoadError::Charge { row, column } => {
                let mut message = String::from_str("row ");
                push_digits(&mut message, row as u64);
                message.append(": the charge in column ");
                push_digits(&mut message, column as u64);
                message.append(" is missing or is not a 32-bit integer");
                message
            },
        }
    }
}

/// The cell of a row in `column`, if the row is that long.
pub open spec fn cell_at(cells: Seq<Seq<char>>, column: int) -> Option<Seq<char>> {
    if 0 <= column < cells.len() {
        Some(cells[column])
    } else {
        None
    }
}

/// The 32-bit integer in `column`, if there is a cell and it writes one.
pub open spec fn integer_at(cells: Seq<Seq<char>>, column: int) -> Option<i32> {
    match cell_at(cells, column) {
        Some(text) => i32_of(text),
        None => None,
    }
}

/// The floating-point literal in `column`, if there is a cell and it is one.
pub open spec fn literal_at(cells: Seq<Seq<char>>, column: int) -> Option<Seq<char>> {
    match cell_at(cells, column) {
        Some(text) => if is_float_literal(text) {
            Some(text)
        } else {
            None
        },
        None => None,
    }
}

/// For each of `columns`, whether the row has an integer there.
pub open spec fn charge_flags(cells: Seq<Seq<char>>, columns: Seq<usize>) -> Seq<bool> {
    columns.map_values(|column: usize| integer_at(cells, column as int) is Some)
}

/// The integers of the row in `columns`, where it has one in each.
pub open spec fn charges_at(cells: Seq<Seq<char>>, columns: Seq<usize>) -> Seq<i32> {
    columns.map_values(|column: usize| integer_at(cells, column as int).unwrap())
}

/// The vector in `column`, if there is a cell and it holds one.
pub open spec fn vector_at(cells: Seq<Seq<char>>, column: int) -> Option<Seq<Seq<char>>> {
    match cell_at(cells, column) {
        Some(text) => match vector_of(text) {
            Ok(parts) => Some(parts),
            Err(_) => None,
        },
        None => None,
    }
}

/// The vectors of the row in those of `columns` where it holds one, in the
/// order of the columns.
pub open spec fn vectors_at(cells: Seq<Seq<char>>, columns: Seq<usize>) -> Seq<Seq<Seq<char>>>
    decreases columns.len(),
{
    if columns.len() == 0 {
        Seq::empty()
    } else {
        let before = vectors_at(cells, columns.drop_last());
        match vector_at(cells, columns.last() as int) {
            Some(parts) => before.push(parts),
            None => before,
        }
    }
}

/// The report on the cell in `column`, if there is a cell and it holds no vector.
pub open spec fn fault_at(row: usize, cells: Seq<Seq<char>>, column: usize, kind: ColumnKind)
    -> Option<CellFault> {
    match cell_at(cells, column as int) {
        Some(text) => match vector_of(text) {
            Ok(_) => None,
            Err(fault) => Some(CellFault { row, column, kind, fault }),
        },
        None => None,
    }
}

/// The reports on the cells of the row in `columns`, in the order of the
/// columns. A column that the row is too short for is passed over.
pub open spec fn faults_at(
    row: usize,
    cells: Seq<Seq<char>>,
    columns: Seq<usize>,
    kind: ColumnKind,
) -> Seq<CellFault>
    decreases columns.len(),
{
    if columns.len() == 0 {
        Seq::empty()
    } else {
        let before = faults_at(row, cells, columns.drop_last(), kind);
        match fault_at(row, cells, columns.last(), kind) {
            Some(fault) => before.push(fault),
            None => before,
        }
    }
}

/// What a row gives: its graph, and the reports on its vector cells.
pub struct RowView {
    pub graph: GraphView,
    pub faults: Seq<CellFault>,
}

/// What the row numbered `row` with the cells `cells` gives under `groups`.
///
/// The time step is looked at first, then the energy, then the charges from
/// left to right: the first of them that cannot be read is the error.
pub open spec fn row_of(row: usize, cells: Seq<Seq<char>>, groups: ColumnGroups) -> Result<
    RowView,
    LoadError,
> {
    let bad = first_false(charge_flags(cells, groups.charge));
    if integer_at(cells, 0) is None {
        Err(LoadError::Timestep { row })
    } else if literal_at(cells, 1) is None {
        Err(LoadError::Energy { row })
    } else if bad < groups.charge.len() {
        Err(LoadError::Charge { row, column: groups.charge[bad] })
    } else {
        Ok(
            RowView {
                graph: GraphView {
                    timestep: integer_at(cells, 0).unwrap(),
                    energy: literal_at(cells, 1).unwrap(),
                    nuclear_charges: charges_at(cells, groups.charge),
                    coords: vectors_at(cells, groups.coordinate),
                    forces: vectors_at(cells, groups.force),
                },
                faults: faults_at(row, cells, groups.coordinate, ColumnKind::Coordinate)
                    + faults_at(row, cells, groups.force, ColumnKind::Force),
            },
        )
    }
}

/// Whether the row has a cell that holds a vector in each of `columns`.
pub open spec fn vectors_complete(cells: Seq<Seq<char>>, columns: Seq<usize>) -> bool {
    forall|k: int| 0 <= k < columns.len() ==> vector_at(cells, #[trigger] columns[k] as int) is Some
}

/// Whether the row can be read in full: it has a time step, an energy, and
/// what its kind asks for in every column of the three groups.
pub open spec fn well_formed_row(cells: Seq<Seq<char>>, groups: ColumnGroups) -> bool {
    &&& integer_at(cells, 0) is Some
    &&& literal_at(cells, 1) is Some
    &&& forall|k: int|
        0 <= k < groups.charge.len() ==> integer_at(cells, #[trigger] groups.charge[k] as int)
            is Some
    &&& vectors_complete(cells, groups.coordinate)
    &&& vectors_complete(cells, groups.force)
}

/// Where every cell holds a vector, the row gives one vector for each
/// column, in the order of the columns, and no report.
pub proof fn lemma_vectors_complete(
    row: usize,
    cells: Seq<Seq<char>>,
    columns: Seq<usize>,
    kind: ColumnKind,
)
    requires
        vectors_complete(cells, columns),
    ensures
        vectors_at(cells, columns).len() == columns.len(),
        forall|k: int|
            0 <= k < columns.len() ==> Some(#[trigger] vectors_at(cells, columns)[k]) == vector_at(
                cells,
                columns[k] as int,
            ),
        faults_at(row, cells, columns, kind).len() == 0,
    decreases columns.len(),
{
    if columns.len() > 0 {
        let shorter = columns.drop_last();
        assert forall|k: int| 0 <= k < shorter.len() implies vector_at(
            cells,
            #[trigger] shorter[k] as int,
        ) is Some by {
            assert(shorter[k] == columns[k]);
        }
        lemma_vectors_complete(row, cells, shorter, kind);
        assert(vector_at(cells, columns[columns.len() - 1] as int) is Some);
        assert forall|k: int| 0 <= k < columns.len() implies Some(
            #[trigger] vectors_at(cells, columns)[k],
        ) == vector_at(cells, columns[k] as int) by {
            if k < shorter.len() {
                assert(vectors_at(cells, columns)[k] == vectors_at(cells, shorter)[k]);
                assert(shorter[k] == columns[k]);
            }
        }
    }
}

/// Where one cell holds no vector and every other does, the row gives the
/// vectors of the other columns, in their order: one fewer than there are
/// columns. The cell is reported if the row has it.
pub proof fn lemma_vector_left_out(
    row: usize,
    cells: Seq<Seq<char>>,
    columns: Seq<usize>,
    kind: ColumnKind,
    missing: int,
)
    requires
        0 <= missing < columns.len(),
        vector_at(cells, columns[missing] as int) is None,
        forall|k: int|
            0 <= k < columns.len() && k != missing ==> vector_at(cells, #[trigger] columns[k] as int)
                is Some,
    ensures
        vectors_at(cells, columns).len() == columns.len() - 1,
        vectors_at(cells, columns) == vectors_at(cells, columns.remove(missing)),
        vectors_complete(cells, columns.remove(missing)),
        faults_at(row, cells, columns, kind) == match fault_at(row, cells, columns[missing], kind) {
            Some(fault) => seq![fault],
            None => Seq::empty(),
        },
    decreases columns.len(),
{
    let shorter = columns.drop_last();
    let others = columns.remove(missing);
    assert forall|k: int| 0 <= k < others.len() implies vector_at(
        cells,
        #[trigger] others[k] as int,
    ) is Some by {
        if k < missing {
            assert(others[k] == columns[k]);
        } else {
            assert(others[k] == columns[k + 1]);
        }
    }
    if missing == columns.len() - 1 {
        assert(others == shorter);
        lemma_vectors_complete(row, cells, shorter, kind);
        assert(faults_at(row, cells, shorter, kind) =~= Seq::empty());
    } else {
        assert forall|k: int| 0 <= k < shorter.len() && k != missing implies vector_at(
            cells,
            #[trigger] shorter[k] as int,
        ) is Some by {
            assert(shorter[k] == columns[k]);
        }
        assert(shorter[missing] == columns[missing]);
        lemma_vector_left_out(row, cells, shorter, kind, missing);
        assert(vector_at(cells, columns[columns.len() - 1] as int) is Some);
        assert(others.drop_last() == shorter.remove(missing));
        assert(others.last() == columns.last());
    }
}

/// A row that can be read in full gives a graph with a charge, a position
/// and a force for every column of its group, and no report.
pub proof fn lemma_row_read_in_full(row: usize, cells: Seq<Seq<char>>, groups: ColumnGroups)
    requires
        well_formed_row(cells, groups),
    ensures
        row_of(row, cells, groups) matches Ok(found) && found.graph.nuclear_charges.len()
            == groups.charge.len() && found.graph.coords.len() == groups.coordinate.len()
            && found.graph.forces.len() == groups.force.len() && found.faults.len() == 0,
{
    let flags = charge_flags(cells, groups.charge);
    assert forall|k: int| 0 <= k < flags.len() implies #[trigger] flags[k] by {
        assert(integer_at(cells, groups.charge[k] as int) is Some);
    }
    lemma_first_false_unique(flags, flags.len() as int);
    lemma_vectors_complete(row, cells, groups.coordinate, ColumnKind::Coordinate);
    lemma_vectors_complete(row, cells, groups.force, ColumnKind::Force);
}

/// A vector cell that cannot be read does not stop the row: where one cell
/// of a position holds no vector and the rest of the row can be read, the row
/// gives a graph with one position fewer than it has columns for, and with
/// every charge and every force.
pub proof fn lemma_row_with_position_left_out(
    row: usize,
    cells: Seq<Seq<char>>,
    groups: ColumnGroups,
    missing: int,
)
    requires
        0 <= missing < groups.coordinate.len(),
        vector_at(cells, groups.coordinate[missing] as int) is None,
        forall|k: int|
            0 <= k < groups.coordinate.len() && k != missing ==> vector_at(
                cells,
                #[trigger] groups.coordinate[k] as int,
            ) is Some,
        integer_at(cells, 0) is Some,
        literal_at(cells, 1) is Some,
        forall|k: int|
            0 <= k < groups.charge.len() ==> integer_at(cells, #[trigger] groups.charge[k] as int)
                is Some,
        vectors_complete(cells, groups.force),
    ensures
        row_of(row, cells, groups) matches Ok(found) && found.graph.nuclear_charges.len()
            == groups.charge.len() && found.graph.coords.len() == groups.coordinate.len() - 1
            && found.graph.coords == vectors_at(cells, groups.coordinate.remove(missing))
            && found.graph.forces.len() == groups.force.len(),
{
    let flags = charge_flags(cells, groups.charge);
    assert forall|k: int| 0 <= k < flags.len() implies #[trigger] flags[k] by {
        assert(integer_at(cells, groups.charge[k] as int) is Some);
    }
    lemma_first_false_unique(flags, flags.len() as int);
    lemma_vector_left_out(row, cells, groups.coordinate, ColumnKind::Coordinate, missing);
    lemma_vectors_complete(row, cells, groups.force, ColumnKind::Force);
}

/// A row gives no more positions than there are position columns, no more
/// forces than force columns, and a charge for every charge column.
pub proof fn lemma_row_lengths(row: usize, cells: Seq<Seq<char>>, groups: ColumnGroups)
    ensures
        row_of(row, cells, groups) matches Ok(found) ==> found.graph.nuclear_charges.len()
            == groups.charge.len() && found.graph.coords.len() <= groups.coordinate.len()
            && found.graph.forces.len() <= groups.force.len() && found.graph.coords.len()
            + found.graph.forces.len() + found.faults.len() <= groups.coordinate.len()
            + groups.force.len(),
{
    lemma_vectors_count(row, cells, groups.coordinate, ColumnKind::Coordinate);
    lemma_vectors_count(row, cells, groups.force, ColumnKind::Force);
}

/// Every column gives a vector, a report, or, where the row is too short for
/// it, neither.
pub proof fn lemma_vectors_count(
    row: usize,
    cells: Seq<Seq<char>>,
    columns: Seq<usize>,
    kind: ColumnKind,
)
    ensures
        vectors_at(cells, columns).len() + faults_at(row, cells, columns, kind).len()
            <= columns.len(),
        (forall|k: int| 0 <= k < columns.len() ==> #[trigger] columns[k] < cells.len())
            ==> vectors_at(cells, columns).len() + faults_at(row, cells, columns, kind).len()
            == columns.len(),
    decreases columns.len(),
{
    if columns.len() > 0 {
        let shorter = columns.drop_last();
        lemma_vectors_count(row, cells, shorter, kind);
        if forall|k: int| 0 <= k < columns.len() ==> #[trigger] columns[k] < cells.len() {
            assert forall|k: int| 0 <= k < shorter.len() implies #[trigger] shorter[k]
                < cells.len() by {
                assert(shorter[k] == columns[k]);
            }
            assert(columns[columns.len() - 1] < cells.len());
        }
    }
}

/// Reads the cell in `column` as a 32-bit integer.
fn read_integer(cells: &Vec<String>, column: usize) -> (r: Option<i32>)
    ensures
        r == integer_at(cells.deep_view(), column as int),
{
    if column < cells.len() {
        parse_i32(cells[column].as_str())
    } else {
        None
    }
}

/// Reads the cell in `column` as a floating-point literal.
fn read_literal(cells: &Vec<String>, column: usize) -> (r: Option<FloatLiteral>)
    ensures
        r is Some <==> literal_at(cells.deep_view(), column as int) is Some,
        r matches Some(literal) ==> Some(literal@) == literal_at(cells.deep_view(), column as int),
{
    if column < cells.len() {
        FloatLiteral::parse(cells[column].as_str())
    } else {
        None
    }
}

/// Reads the charges of a row. The error is the first column, in the order
/// of `columns`, in which the row has no integer.
fn read_charges(cells: &Vec<String>, columns: &Vec<usize>) -> (r: Result<Vec<i32>, usize>)
    ensures
        ({
            let flags = charge_flags(cells.deep_view(), columns@);
            let bad = first_false(flags);
            match r {
                Ok(charges) => bad == columns.len() && charges@ == charges_at(
                    cells.deep_view(),
                    columns@,
                ),
                Err(column) => bad < columns.len() && column == columns@[bad],
            }
        }),
{
    let ghost flags = charge_flags(cells.deep_view(), columns@);
    let mut charges: Vec<i32> = Vec::new();
    let mut k: usize = 0;
    while k < columns.len()
        invariant
            k <= columns.len(),
            flags == charge_flags(cells.deep_view(), columns@),
            forall|j: int| 0 <= j < k ==> #[trigger] flags[j],
            charges@ == charges_at(cells.deep_view(), columns@.take(k as int)),
        decreases columns.len() - k,
    {
        let column = columns[k];
        match read_integer(cells, column) {
            Some(charge) => {
                charges.push(charge);
            },
            None => {
                proof {
                    lemma_first_false_unique(flags, k as int);
                }
                return Err(column);
            },
        }
        k += 1;
    }
    proof {
        lemma_first_false_unique(flags, columns.len() as int);
    }
    Ok(charges)
}

/// Reads the vector cells of a row in `columns`. A cell that holds no vector
/// adds a report to `reports` and nothing to the result.
fn read_vectors(
    row: usize,
    cells: &Vec<String>,
    columns: &Vec<usize>,
    kind: ColumnKind,
    reports: &mut Vec<CellReport>,
) -> (vectors: Vec<[FloatLiteral; 3]>)
    ensures
        vector_views(vectors@) == vectors_at(cells.deep_view(), columns@),
        report_views(final(reports)@) == report_views(old(reports)@) + faults_at(
            row,
            cells.deep_view(),
            columns@,
            kind,
        ),
{
    let ghost texts = cells.deep_view();
    let ghost earlier = report_views(reports@);
    let mut vectors: Vec<[FloatLiteral; 3]> = Vec::new();
    let mut k: usize = 0;
    while k < columns.len()
        invariant
            k <= columns.len(),
            texts == cells.deep_view(),
            vector_views(vectors@) == vectors_at(texts, columns@.take(k as int)),
            report_views(reports@) == earlier + faults_at(
                row,
                texts,
                columns@.take(k as int),
                kind,
            ),
        decreases columns.len() - k,
    {
        let column = columns[k];
        let ghost reports_before = reports@;
        proof {
            assert(columns@.take(k + 1).drop_last() == columns@.take(k as int));
        }
        if column < cells.len() {
            match parse_vector_field(cells[column].as_str()) {
                Ok(v) => {
                    vectors.push(v);
                },
                Err(error) => {
                    let report = CellReport { row, column, kind, error };
                    reports.push(report);
                    proof {
                        assert(report_views(reports@) =~= report_views(reports_before).push(
                            report@,
                        ));
                    }
                },
            }
        }
        k += 1;
    }
    proof {
        assert(columns@.take(columns.len() as int) == columns@);
    }
    vectors
}

/// Reads the row numbered `row`.
///
/// Returns the graph of the row and the reports on its vector cells, or the
/// error of the row, as `row_of` gives them.
pub fn decode_row(row: usize, cells: &Vec<String>, groups: &ColumnIndexGroups) -> (r: Result<
    (GraphAtTimestep, Vec<CellReport>),
    LoadError,
>)
    ensures
        match row_of(row, cells.deep_view(), groups@) {
            Ok(expected) => r matches Ok(found) && found.0@ == expected.graph && report_views(
                found.1@,
            ) == expected.faults,
            Err(expected) => r matches Err(found) && found == expected,
        },
{
    let timestep = match read_integer(cells, 0) {
        Some(timestep) => timestep,
        None => {
            return Err(LoadError::Timestep { row });
        },
    };
    let energy = match read_literal(cells, 1) {
        Some(energy) => energy,
        None => {
            return Err(LoadError::Energy { row });
        },
    };
    let nuclear_charges = match read_charges(cells, &groups.charge_columns) {
        Ok(charges) => charges,
        Err(column) => {
            return Err(LoadError::Charge { row, column });
        },
    };
    let mut reports: Vec<CellReport> = Vec::new();
    let coords = read_vectors(
        row,
        cells,
        &groups.coordinate_columns,
        ColumnKind::Coordinate,
        &mut reports,
    );
    let forces = read_vectors(row, cells, &groups.force_columns, ColumnKind::Force, &mut reports);
    Ok((GraphAtTimestep { timestep, energy, nuclear_charges, coords, forces }, reports))
}

} // verus!
