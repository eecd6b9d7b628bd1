use gtno::columns::{classify, ColumnIndexGroups, ColumnKind};
use gtno::load::decode_rows;
use gtno::record::{decode_row, CellReport, LoadError};
use gtno::vector::VectorError;

fn cells(texts: &[&str]) -> Vec<String> {
    texts.iter().map(|text| text.to_string()).collect()
}

fn two_atoms() -> ColumnIndexGroups {
    classify(&cells(&[
        "timestep", "energy", "a0_charge", "a1_charge", "a0_coord", "a1_coord", "a0_force",
        "a1_force",
    ]))
}

fn texts_of(vectors: &[[gtno::number::FloatLiteral; 3]]) -> Vec<[String; 3]> {
    vectors
        .iter()
        .map(|v| [v[0].as_str().to_string(), v[1].as_str().to_string(), v[2].as_str().to_string()])
        .collect()
}

fn triple(x: &str, y: &str, z: &str) -> [String; 3] {
    [x.to_string(), y.to_string(), z.to_string()]
}

#[test]
fn a_row_in_full() {
    let row = cells(&[
        "4", "-1.23456", "6", "1", "[0.1, 0.2, 0.3]", "[1, 2, 3]", "[0.0, 0.0, 0.0]",
        "[-1e-3, 2.5, .5]",
    ]);
    let (graph, reports) = decode_row(7, &row, &two_atoms()).unwrap();
    assert_eq!(graph.timestep, 4);
    assert_eq!(graph.energy.as_str(), "-1.23456");
    assert_eq!(graph.energy.as_str().parse::<f32>().unwrap(), -1.23456f32);
    assert_eq!(graph.nuclear_charges, vec![6, 1]);
    assert_eq!(texts_of(&graph.coords), vec![triple("0.1", "0.2", "0.3"), triple("1", "2", "3")]);
    assert_eq!(
        texts_of(&graph.forces),
        vec![triple("0.0", "0.0", "0.0"), triple("-1e-3", "2.5", ".5")]
    );
    assert!(reports.is_empty());
}

#[test]
fn a_vector_cell_that_cannot_be_read_is_left_out_and_reported() {
    let row = cells(&[
        "4", "-1.5", "6", "1", "[0.1, 0.2, 0.3]", "[1, 2]", "[0.0, zero, 0.0]", "[1, 2, 3]",
    ]);
    let (graph, reports) = decode_row(3, &row, &two_atoms()).unwrap();
    assert_eq!(graph.nuclear_charges, vec![6, 1]);
    assert_eq!(texts_of(&graph.coords), vec![triple("0.1", "0.2", "0.3")]);
    assert_eq!(texts_of(&graph.forces), vec![triple("1", "2", "3")]);
    assert_eq!(
        reports,
        vec![
            CellReport {
                row: 3,
                column: 5,
                kind: ColumnKind::Coordinate,
                error: VectorError::WrongCount { text: "1, 2".to_string() },
            },
            CellReport {
                row: 3,
                column: 6,
                kind: ColumnKind::Force,
                error: VectorError::NotNumeric {
                    text: "0.0, zero, 0.0".to_string(),
                    component: "zero".to_string(),
                },
            },
        ]
    );
    assert_eq!(
        reports[0].message(),
        "Error parsing coordinate at index 5: Field does not have 3 components: \"1, 2\""
    );
    assert_eq!(
        reports[1].message(),
        "Error parsing force at index 6: Error parsing field \"0.0, zero, 0.0\": \
         ParseFloatError { kind: Invalid }"
    );
}

#[test]
fn a_vector_cell_that_the_row_lacks_is_passed_over() {
    let row = cells(&["4", "-1.5", "6", "1", "[0.1, 0.2, 0.3]", "[1, 2, 3]", "[0, 0, 0]"]);
    let (graph, reports) = decode_row(0, &row, &two_atoms()).unwrap();
    assert_eq!(graph.coords.len(), 2);
    assert_eq!(graph.forces.len(), 1);
    assert!(reports.is_empty());
}

#[test]
fn a_row_without_a_time_step_is_refused() {
    let groups = two_atoms();
    assert_eq!(decode_row(2, &cells(&[]), &groups), Err(LoadError::Timestep { row: 2 }));
    for first in ["", "four", "4.0", " 4", "2147483648"] {
        let row = cells(&[first, "-1.5", "6", "1", "[1,2,3]", "[1,2,3]", "[1,2,3]", "[1,2,3]"]);
        assert_eq!(decode_row(2, &row, &groups), Err(LoadError::Timestep { row: 2 }));
    }
}

#[test]
fn a_row_without_an_energy_is_refused() {
    let groups = two_atoms();
    assert_eq!(decode_row(5, &cells(&["4"]), &groups), Err(LoadError::Energy { row: 5 }));
    for second in ["", "high", "1,5", " 1.5", "[1.5]"] {
        let row = cells(&["4", second, "6", "1", "[1,2,3]", "[1,2,3]", "[1,2,3]", "[1,2,3]"]);
        assert_eq!(decode_row(5, &row, &groups), Err(LoadError::Energy { row: 5 }));
    }
    let row = cells(&["four", "high"]);
    assert_eq!(decode_row(5, &row, &groups), Err(LoadError::Timestep { row: 5 }));
}

#[test]
fn a_row_without_a_charge_is_refused() {
    let groups = two_atoms();
    let row = cells(&["4", "-1.5", "6", "H", "[1,2,3]", "[1,2,3]", "[1,2,3]", "[1,2,3]"]);
    assert_eq!(decode_row(1, &row, &groups), Err(LoadError::Charge { row: 1, column: 3 }));
    let row = cells(&["4", "-1.5", "6.0", "H", "[1,2,3]", "[1,2,3]", "[1,2,3]", "[1,2,3]"]);
    assert_eq!(decode_row(1, &row, &groups), Err(LoadError::Charge { row: 1, column: 2 }));
    let row = cells(&["4", "-1.5", "6"]);
    assert_eq!(decode_row(1, &row, &groups), Err(LoadError::Charge { row: 1, column: 3 }));
    let row = cells(&["4", "-1.5"]);
    assert_eq!(decode_row(1, &row, &groups), Err(LoadError::Charge { row: 1, column: 2 }));
}

#[test]
fn a_table_without_groups_gives_bare_graphs() {
    let groups = classify(&cells(&["timestep", "energy", "note"]));
    let (graph, reports) = decode_row(0, &cells(&["-3", "inf", "[1, 2]"]), &groups).unwrap();
    assert_eq!(graph.timestep, -3);
    assert_eq!(graph.energy.as_str(), "inf");
    assert!(graph.nuclear_charges.is_empty());
    assert!(graph.coords.is_empty());
    assert!(graph.forces.is_empty());
    assert!(reports.is_empty());
}

#[test]
fn groups_of_unequal_size_are_read_each_by_itself() {
    let groups = classify(&cells(&["t", "e", "a_charge", "a_coord", "b_coord", "a_force"]));
    let row = cells(&["0", "0", "8", "[1,2,3]", "[4,5,6]", "[7,8,9]"]);
    let (graph, _) = decode_row(0, &row, &groups).unwrap();
    assert_eq!(graph.nuclear_charges.len(), 1);
    assert_eq!(graph.coords.len(), 2);
    assert_eq!(graph.forces.len(), 1);
}

#[test]
fn rows_are_read_in_order_up_to_the_first_that_fails() {
    let groups = two_atoms();
    let good = cells(&["0", "-1.5", "6", "1", "[1,2,3]", "[1,2,3]", "[1,2,3]", "[1,2,3]"]);
    let lame = cells(&["1", "-1.5", "6", "1", "[1,2,3]", "[1,2]", "[1,2,3]", "[1,2,3]"]);
    let no_energy = cells(&["2", "?", "6", "1", "[1,2,3]", "[1,2,3]", "[1,2,3]", "[1,2,3]"]);
    let no_charge = cells(&["3", "-1.5", "6", "", "[1,2,3]", "[1,2,3]", "[1,2,3]", "[1,2,3]"]);

    let decoded = decode_rows(&vec![good.clone(), lame.clone(), good.clone()], &groups).unwrap();
    assert_eq!(decoded.records.len(), 3);
    assert_eq!(decoded.records[0], decoded.records[2]);
    assert_eq!(decoded.records[1].timestep, 1);
    assert_eq!(decoded.records[1].coords.len(), 1);
    assert_eq!(decoded.reports.len(), 1);
    assert_eq!(decoded.reports[0].row, 1);
    assert_eq!(decoded.reports[0].column, 5);

    let rows = vec![good.clone(), lame.clone(), no_energy.clone(), no_charge.clone()];
    assert_eq!(decode_rows(&rows, &groups), Err(LoadError::Energy { row: 2 }));
    let rows = vec![good.clone(), no_charge.clone(), no_energy.clone()];
    assert_eq!(decode_rows(&rows, &groups), Err(LoadError::Charge { row: 1, column: 3 }));
    let empty = decode_rows(&vec![], &groups).unwrap();
    assert!(empty.records.is_empty() && empty.reports.is_empty());
}

#[test]
fn load_errors_in_words() {
    assert_eq!(LoadError::Header.message(), "the header could not be read");
    assert_eq!(LoadError::Row { row: 12 }.message(), "row 12 could not be read");
    assert_eq!(
        LoadError::Timestep { row: 0 }.message(),
        "row 0: the time step is missing or is not a 32-bit integer"
    );
    assert_eq!(
        LoadError::Energy { row: 100 }.message(),
        "row 100: the energy is missing or is not a number"
    );
    assert_eq!(
        LoadError::Charge { row: 7, column: 1024 }.message(),
        "row 7: the charge in column 1024 is missing or is not a 32-bit integer"
    );
    assert_eq!(
        LoadError::Row { row: usize::MAX }.message(),
        format!("row {} could not be read", usize::MAX)
    );
}
