use randi_check::solution::parse_essence_output;

#[test]
fn decode_solution_lines() {
    let text = "language Essence 1.3\nletting Circle_1 be 4\nletting Square_1 be 1\nletting tag be 1\n";
    let pairs = parse_essence_output(text, false);
    assert_eq!(
        pairs,
        vec![
            ("Circle_1".to_string(), "4".to_string()),
            ("Square_1".to_string(), "1".to_string()),
            ("tag".to_string(), "1".to_string()),
        ]
    );
}

#[test]
fn decode_skips_foreign_lines() {
    let text = "$ comment\n\nletting x be true\nsuch that\nletting y be  -3 \n";
    let pairs = parse_essence_output(text, false);
    assert_eq!(
        pairs,
        vec![("x".to_string(), "true".to_string()), ("y".to_string(), "-3".to_string())]
    );
}

#[test]
fn decode_handles_edges() {
    assert_eq!(parse_essence_output("", false), vec![]);
    // A line that opens with `letting` but has no separator is ignored.
    assert_eq!(parse_essence_output("letting x\n", false), vec![]);
    // No trailing newline on the last line.
    assert_eq!(
        parse_essence_output("letting tag be 2", false),
        vec![("tag".to_string(), "2".to_string())]
    );
    // Carriage returns from foreign line endings are trimmed.
    assert_eq!(
        parse_essence_output("letting a be 1\r\n", false),
        vec![("a".to_string(), "1".to_string())]
    );
}
