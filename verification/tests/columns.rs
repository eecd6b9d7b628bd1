use gtno::columns::{classify, ColumnIndexGroups};

fn header(names: &[&str]) -> Vec<String> {
    names.iter().map(|name| name.to_string()).collect()
}

fn groups(charge: &[usize], coordinate: &[usize], force: &[usize]) -> ColumnIndexGroups {
    ColumnIndexGroups {
        charge_columns: charge.to_vec(),
        coordinate_columns: coordinate.to_vec(),
        force_columns: force.to_vec(),
    }
}

#[test]
fn columns_keep_the_order_of_the_header() {
    let names = header(&[
        "timestep", "energy", "a0_charge", "a1_charge", "a0_coord", "a1_coord", "a2_coord",
        "a3_coord", "a4_coord", "a5_coord", "a0_force", "a1_force", "a2_force", "a3_force",
        "a4_force", "a5_force",
    ]);
    let found = classify(&names);
    assert_eq!(found, groups(&[2, 3], &[4, 5, 6, 7, 8, 9], &[10, 11, 12, 13, 14, 15]));
}

#[test]
fn groups_ascend_and_do_not_overlap() {
    let names = header(&[
        "a_force", "a_coord", "b_charge", "x", "b_force", "a_charge", "energy", "b_coord",
        "c_charge",
    ]);
    let found = classify(&names);
    assert_eq!(found, groups(&[2, 5, 8], &[1, 7], &[0, 4]));
    let mut all: Vec<usize> = Vec::new();
    for group in [&found.charge_columns, &found.coordinate_columns, &found.force_columns] {
        assert!(group.windows(2).all(|pair| pair[0] < pair[1]));
        all.extend(group.iter());
    }
    all.sort();
    assert_eq!(all, vec![0, 1, 2, 4, 5, 7, 8]);
}

#[test]
fn a_group_may_be_empty() {
    assert_eq!(classify(&header(&[])), groups(&[], &[], &[]));
    assert_eq!(classify(&header(&["timestep", "energy"])), groups(&[], &[], &[]));
    assert_eq!(classify(&header(&["t", "e", "a_coord"])), groups(&[], &[2], &[]));
}

#[test]
fn only_the_end_of_a_name_counts() {
    let names = header(&[
        "_charge", "_coord", "_force", "charge", "coord", "force", "_charge_", "a_charge_coord",
        "a_coord_force", "a_force_charge", "_CHARGE", "_coords", "a_chargé", "", "é_force",
    ]);
    assert_eq!(classify(&names), groups(&[0, 9], &[1, 7], &[2, 8, 14]));
}
