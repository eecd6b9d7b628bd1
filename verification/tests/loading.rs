use gtno::data::{GraphAtTimestep, MD17Dataset};
use gtno::record::LoadError;

const HEADER: &str = "timestep,energy,a0_charge,a1_charge,a0_coord,a1_coord,a0_force,a1_force";

fn table(rows: &[&str]) -> Vec<u8> {
    let mut text = String::from(HEADER);
    text.push('\n');
    for row in rows {
        text.push_str(row);
        text.push('\n');
    }
    text.into_bytes()
}

fn error_of(result: Result<MD17Dataset, LoadError>) -> LoadError {
    match result {
        Ok(_) => panic!("the load went through"),
        Err(error) => error,
    }
}

fn balanced(graph: &GraphAtTimestep) -> bool {
    graph.nuclear_charges.len() == graph.coords.len()
        && graph.nuclear_charges.len() == graph.forces.len()
}

const ROW_0: &str = "0,-1.5,6,1,\"[0.0, 0.1, 0.2]\",\"[1.0, 1.1, 1.2]\",\"[0.5, 0.5, 0.5]\",\"[0, 0, 0]\"";
const ROW_1: &str = "1,-1.25,6,1,\"[0.0, 0.1, 0.3]\",\"[1.0, 1.1, 1.3]\",\"[0.5, 0.5, 0.5]\",\"[0, 0, 0]\"";
const ROW_2: &str = "2,-1e0,6,1,\"[0.0, 0.1, 0.4]\",\"[1.0, 1.1, 1.4]\",\"[0.5, 0.5, 0.5]\",\"[0, 0, 0]\"";
const LAME_1: &str = "1,-1.25,6,1,\"[0.0, 0.1, 0.3]\",\"[1.0, 2.0]\",\"[0.5, 0.5, 0.5]\",\"[0, 0, 0]\"";

#[test]
fn a_table_in_full_gives_one_balanced_graph_for_each_row() {
    let dataset = MD17Dataset::new(&table(&[ROW_0, ROW_1, ROW_2])).unwrap();
    assert_eq!(dataset.len(), 3);
    assert_eq!(dataset.columns().charge_columns, vec![2, 3]);
    assert_eq!(dataset.columns().coordinate_columns, vec![4, 5]);
    assert_eq!(dataset.columns().force_columns, vec![6, 7]);
    assert!(dataset.reports().is_empty());
    for index in 0..3 {
        let graph = dataset.get(index).unwrap();
        assert_eq!(graph.timestep, index as i32);
        assert_eq!(graph.nuclear_charges, vec![6, 1]);
        assert!(balanced(&graph));
    }
    let last = dataset.get(2).unwrap();
    assert_eq!(last.energy.as_str(), "-1e0");
    assert_eq!(last.coords[1][2].as_str(), "1.4");
    assert_eq!(last.forces[0][0].as_str().parse::<f32>().unwrap(), 0.5);
}

#[test]
fn an_index_past_the_end_gives_nothing() {
    let dataset = MD17Dataset::new(&table(&[ROW_0, ROW_1])).unwrap();
    assert!(dataset.get(1).is_some());
    assert!(dataset.get(2).is_none());
    assert!(dataset.get(usize::MAX).is_none());
}

#[test]
fn one_vector_cell_that_cannot_be_read_costs_one_vector() {
    let whole = MD17Dataset::new(&table(&[ROW_0, ROW_1, ROW_2])).unwrap();
    let dataset = MD17Dataset::new(&table(&[ROW_0, LAME_1, ROW_2])).unwrap();
    assert_eq!(dataset.len(), 3);
    let lame = dataset.get(1).unwrap();
    assert_eq!(lame.coords.len() + 1, lame.nuclear_charges.len());
    assert_eq!(lame.forces.len(), lame.nuclear_charges.len());
    assert_eq!(lame.coords[0][2].as_str(), "0.3");
    assert_eq!(dataset.get(0), whole.get(0));
    assert_eq!(dataset.get(2), whole.get(2));
    assert!(balanced(&dataset.get(0).unwrap()));
    assert!(balanced(&dataset.get(2).unwrap()));
    assert_eq!(dataset.reports().len(), 1);
    assert_eq!(dataset.reports()[0].row, 1);
    assert_eq!(dataset.reports()[0].column, 5);
    assert_eq!(
        dataset.reports()[0].message(),
        "Error parsing coordinate at index 5: Field does not have 3 components: \"1.0, 2.0\""
    );
}

#[test]
fn an_energy_that_is_no_number_ends_the_load() {
    let bad = "1,high,6,1,\"[0.0, 0.1, 0.3]\",\"[1.0, 1.1, 1.3]\",\"[0.5, 0.5, 0.5]\",\"[0, 0, 0]\"";
    assert_eq!(error_of(MD17Dataset::new(&table(&[ROW_0, bad, ROW_2]))), LoadError::Energy { row: 1 });
    assert_eq!(error_of(MD17Dataset::new(&table(&[bad]))), LoadError::Energy { row: 0 });
    assert_eq!(error_of(MD17Dataset::new(&table(&[ROW_0, ROW_1, bad]))), LoadError::Energy { row: 2 });
    let none = "1,,6,1,\"[0.0, 0.1, 0.3]\",\"[1.0, 1.1, 1.3]\",\"[0.5, 0.5, 0.5]\",\"[0, 0, 0]\"";
    assert_eq!(error_of(MD17Dataset::new(&table(&[ROW_0, none]))), LoadError::Energy { row: 1 });
}

#[test]
fn a_time_step_or_a_charge_that_is_no_integer_ends_the_load() {
    let no_step = "x,-1.5,6,1,\"[0, 0, 0]\",\"[0, 0, 0]\",\"[0, 0, 0]\",\"[0, 0, 0]\"";
    let no_charge = "3,-1.5,6,C,\"[0, 0, 0]\",\"[0, 0, 0]\",\"[0, 0, 0]\",\"[0, 0, 0]\"";
    assert_eq!(error_of(MD17Dataset::new(&table(&[no_step]))), LoadError::Timestep { row: 0 });
    assert_eq!(
        error_of(MD17Dataset::new(&table(&[ROW_0, no_charge, no_step]))),
        LoadError::Charge { row: 1, column: 3 }
    );
}

#[test]
fn a_row_of_another_length_ends_the_load() {
    let short = "1,-1.25,6,1";
    assert_eq!(error_of(MD17Dataset::new(&table(&[ROW_0, short, ROW_2]))), LoadError::Row { row: 1 });
    let long = "1,-1.25,6,1,\"[0, 0, 0]\",\"[0, 0, 0]\",\"[0, 0, 0]\",\"[0, 0, 0]\",9";
    assert_eq!(error_of(MD17Dataset::new(&table(&[long]))), LoadError::Row { row: 0 });
}

#[test]
fn bytes_that_are_no_text_end_the_load() {
    let mut data = table(&[ROW_0]);
    data.extend_from_slice(b"1,-1.25,6,1,\xff,\"[0, 0, 0]\",\"[0, 0, 0]\",\"[0, 0, 0]\"\n");
    assert_eq!(error_of(MD17Dataset::new(&data)), LoadError::Row { row: 1 });
    let data = b"timestep,energy,\xff\xfe_charge\n0,1.0,6\n".to_vec();
    assert_eq!(error_of(MD17Dataset::new(&data)), LoadError::Header);
}

#[test]
fn a_table_without_rows_is_an_empty_data_set() {
    let dataset = MD17Dataset::new(&table(&[])).unwrap();
    assert_eq!(dataset.len(), 0);
    assert!(dataset.get(0).is_none());
    assert_eq!(dataset.columns().force_columns, vec![6, 7]);
    let dataset = MD17Dataset::new(b"").unwrap();
    assert_eq!(dataset.len(), 0);
    assert!(dataset.columns().charge_columns.is_empty());
}

#[test]
fn the_table_is_read_as_comma_separated_values() {
    let data = "timestep,energy,\"a,0_charge\",a0_coord,a0_force\r\n\
                5,2.5,8,\"[1.0,\n 2.0, 3.0]\",\"[\"\"1\"\", 2, 3]\"\r\n\
                \r\n\
                6,2.5,8,\"[1.0, 2.0, 3.0]\",\"[1, 2, 3]\"";
    let dataset = MD17Dataset::new(data.as_bytes()).unwrap();
    assert_eq!(dataset.len(), 2);
    assert_eq!(dataset.columns().charge_columns, vec![2]);
    let first = dataset.get(0).unwrap();
    assert_eq!(first.timestep, 5);
    assert_eq!(first.coords.len(), 1);
    assert_eq!(first.coords[0][1].as_str(), "2.0");
    assert!(first.forces.is_empty());
    assert_eq!(
        dataset.reports()[0].message(),
        "Error parsing force at index 4: Error parsing field \"\\\"1\\\", 2, 3\": \
         ParseFloatError { kind: Invalid }"
    );
    let second = dataset.get(1).unwrap();
    assert_eq!(second.timestep, 6);
    assert_eq!(second.forces.len(), 1);
}

#[test]
fn rows_and_bytes_give_the_same_data_set() {
    let split = |line: &str| -> Vec<String> {
        let mut cells: Vec<String> = line.split(",\"").map(|c| c.replace('"', "")).collect();
        let head: Vec<String> = cells.remove(0).split(',').map(|c| c.to_string()).collect();
        head.into_iter().chain(cells).collect()
    };
    let header: Vec<String> = HEADER.split(',').map(|c| c.to_string()).collect();
    let rows: Vec<Vec<String>> = [ROW_0, LAME_1, ROW_2].iter().map(|row| split(row)).collect();
    assert_eq!(rows[1][5], "[1.0, 2.0]");
    let by_rows = MD17Dataset::from_rows(&header, &rows).unwrap();
    let by_bytes = MD17Dataset::new(&table(&[ROW_0, LAME_1, ROW_2])).unwrap();
    assert_eq!(by_rows.len(), by_bytes.len());
    assert_eq!(by_rows.columns(), by_bytes.columns());
    assert_eq!(by_rows.reports(), by_bytes.reports());
    for index in 0..4 {
        assert_eq!(by_rows.get(index), by_bytes.get(index));
    }
    let mut bad = rows.clone();
    bad[2][1] = "n/a".to_string();
    assert_eq!(error_of(MD17Dataset::from_rows(&header, &bad)), LoadError::Energy { row: 2 });
}
