use gtno::number::FloatLiteral;
use gtno::vector::{parse_vector_field, VectorError};

fn values(v: &[FloatLiteral; 3]) -> [f32; 3] {
    [
        v[0].as_str().parse().unwrap(),
        v[1].as_str().parse().unwrap(),
        v[2].as_str().parse().unwrap(),
    ]
}

fn wrong_count(text: &str) -> Result<[FloatLiteral; 3], VectorError> {
    Err(VectorError::WrongCount { text: text.to_string() })
}

fn not_numeric(text: &str, component: &str) -> Result<[FloatLiteral; 3], VectorError> {
    Err(VectorError::NotNumeric { text: text.to_string(), component: component.to_string() })
}

/// The same cell read with the standard library alone, floats included.
fn by_std(value: &str) -> Result<[f32; 3], bool> {
    let value = value.trim_matches(|c| c == '[' || c == ']');
    let parsed: Result<Vec<f32>, _> = value.split(',').map(|v| v.trim().parse::<f32>()).collect();
    match parsed {
        Ok(values) if values.len() == 3 => Ok([values[0], values[1], values[2]]),
        Ok(_) => Err(true),
        Err(_) => Err(false),
    }
}

#[test]
fn three_components_are_read() {
    let v = parse_vector_field("[1.0, 2.0, 3.0]").unwrap();
    assert_eq!(values(&v), [1.0, 2.0, 3.0]);
    assert_eq!(v[0].as_str(), "1.0");
    assert_eq!(v[1].as_str(), "2.0");
    assert_eq!(v[2].as_str(), "3.0");
}

#[test]
fn two_components_are_a_wrong_count() {
    assert_eq!(parse_vector_field("[1.0, 2.0]"), wrong_count("1.0, 2.0"));
}

#[test]
fn a_letter_is_not_numeric() {
    assert_eq!(parse_vector_field("[a, 2.0, 3.0]"), not_numeric("a, 2.0, 3.0", "a"));
}

#[test]
fn the_same_cell_reads_the_same() {
    for cell in ["[1.0, 2.0, 3.0]", "[1.0, 2.0]", "[a, 2.0, 3.0]", ""] {
        assert_eq!(parse_vector_field(cell), parse_vector_field(cell));
    }
}

#[test]
fn brackets_are_taken_away_at_both_ends_only() {
    assert_eq!(values(&parse_vector_field("1,2,3").unwrap()), [1.0, 2.0, 3.0]);
    assert_eq!(values(&parse_vector_field("[[1,2,3]]").unwrap()), [1.0, 2.0, 3.0]);
    assert_eq!(values(&parse_vector_field("]][1,2,3[").unwrap()), [1.0, 2.0, 3.0]);
    assert_eq!(parse_vector_field("[1,[2],3]"), not_numeric("1,[2],3", "[2]"));
    assert_eq!(parse_vector_field(" [1,2,3]"), not_numeric(" [1,2,3", "[1"));
    assert_eq!(parse_vector_field("[]"), not_numeric("", ""));
    assert_eq!(parse_vector_field("[[[]]"), not_numeric("", ""));
}

#[test]
fn white_space_round_a_component_is_trimmed() {
    let v = parse_vector_field("[ 1.5 ,\t-2e3\u{a0},\u{2003}.25\n]").unwrap();
    assert_eq!(v[0].as_str(), "1.5");
    assert_eq!(v[1].as_str(), "-2e3");
    assert_eq!(v[2].as_str(), ".25");
    assert_eq!(values(&v), [1.5, -2000.0, 0.25]);
    assert_eq!(parse_vector_field("[1 .5, 2, 3]"), not_numeric("1 .5, 2, 3", "1 .5"));
}

#[test]
fn a_component_that_is_no_number_comes_before_the_count() {
    assert_eq!(parse_vector_field("[a, 2.0]"), not_numeric("a, 2.0", "a"));
    assert_eq!(parse_vector_field("[1.0, 2.0, 3.0, x]"), not_numeric("1.0, 2.0, 3.0, x", "x"));
    assert_eq!(parse_vector_field("[1.0, 2.0, 3.0,]"), not_numeric("1.0, 2.0, 3.0,", ""));
    assert_eq!(parse_vector_field("[1.0, , 3.0]"), not_numeric("1.0, , 3.0", ""));
    assert_eq!(parse_vector_field("[x, y, z]"), not_numeric("x, y, z", "x"));
    assert_eq!(parse_vector_field(""), not_numeric("", ""));
    assert_eq!(parse_vector_field(","), not_numeric(",", ""));
}

#[test]
fn any_other_count_than_three_is_wrong() {
    assert_eq!(parse_vector_field("[1.0]"), wrong_count("1.0"));
    assert_eq!(parse_vector_field("7"), wrong_count("7"));
    assert_eq!(parse_vector_field("[1, 2, 3, 4]"), wrong_count("1, 2, 3, 4"));
    assert_eq!(parse_vector_field("[1, 2, 3, 4, 5, 6, 7]"), wrong_count("1, 2, 3, 4, 5, 6, 7"));
}

#[test]
fn special_values_are_numbers() {
    let v = parse_vector_field("[inf, -Infinity, NaN]").unwrap();
    let [x, y, z] = values(&v);
    assert_eq!(x, f32::INFINITY);
    assert_eq!(y, f32::NEG_INFINITY);
    assert!(z.is_nan());
}

#[test]
fn cells_are_read_as_std_reads_them() {
    let alphabet = ['[', ']', ',', ' ', '1', '.', 'e', '-', 'x'];
    let mut last = vec![String::new()];
    let mut count = 0;
    for _ in 0..6 {
        let mut next = Vec::new();
        for text in &last {
            for c in alphabet {
                let mut longer = text.clone();
                longer.push(c);
                next.push(longer);
            }
        }
        for cell in &next {
            match (parse_vector_field(cell), by_std(cell)) {
                (Ok(v), Ok(expected)) => assert_eq!(values(&v), expected, "{:?}", cell),
                (Err(VectorError::WrongCount { .. }), Err(true)) => {}
                (Err(VectorError::NotNumeric { .. }), Err(false)) => {}
                (found, expected) => panic!("{:?}: {:?}, not {:?}", cell, found, expected),
            }
            count += 1;
        }
        last = next;
    }
    assert_eq!(count, 9 + 81 + 729 + 6561 + 59049 + 531441);
}

#[test]
fn errors_in_words() {
    let error = parse_vector_field("[1.0, 2.0]").unwrap_err();
    assert_eq!(error.message(), "Field does not have 3 components: \"1.0, 2.0\"");
    let error = parse_vector_field("[a, 2.0, 3.0]").unwrap_err();
    assert_eq!(
        error.message(),
        "Error parsing field \"a, 2.0, 3.0\": ParseFloatError { kind: Invalid }"
    );
    let error = parse_vector_field("[1.0, , 3.0]").unwrap_err();
    assert_eq!(
        error.message(),
        "Error parsing field \"1.0, , 3.0\": ParseFloatError { kind: Empty }"
    );
    let error = parse_vector_field("[\"1\"\t\\]").unwrap_err();
    assert_eq!(
        error.message(),
        format!("Error parsing field {:?}: ParseFloatError {{ kind: Invalid }}", "\"1\"\t\\")
    );
    assert_eq!(
        error.message(),
        "Error parsing field \"\\\"1\\\"\\t\\\\\": ParseFloatError { kind: Invalid }"
    );
}
