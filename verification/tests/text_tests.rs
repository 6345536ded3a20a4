use adaptive_transport::text::{
    csv_escape, decimal_string, parse_u128, parse_u64, split_csv_line, trim,
};

#[test]
fn csv_escape_handles_commas() {
    assert_eq!(csv_escape("plain"), "plain");
    assert_eq!(csv_escape("a,b"), "\"a,b\"");
    assert_eq!(csv_escape("say \"hello\""), "\"say \"\"hello\"\"\"");
}

#[test]
fn split_csv_handles_quotes() {
    let line = "a,\"b,c\",d";

    let cols = split_csv_line(line);

    assert_eq!(cols, vec!["a".to_string(), "b,c".to_string(), "d".to_string()]);
}

#[test]
fn split_csv_undoes_escape() {
    let fields = ["x", "say \"hi\", then", "", "line\nbreak"];
    let line: Vec<String> = fields.iter().map(|f| csv_escape(f)).collect();
    let cols = split_csv_line(&line.join(","));
    assert_eq!(cols, fields.iter().map(|f| f.to_string()).collect::<Vec<_>>());
    assert_eq!(split_csv_line(""), vec![String::new()]);
}

#[test]
fn numbers_are_read_and_written() {
    assert_eq!(parse_u64(" 42\t"), 42);
    assert_eq!(parse_u64("+7"), 7);
    assert_eq!(parse_u64("-7"), 0);
    assert_eq!(parse_u64("1x"), 0);
    assert_eq!(parse_u64(""), 0);
    assert_eq!(parse_u64("18446744073709551615"), u64::MAX);
    assert_eq!(parse_u64("18446744073709551616"), 0);
    assert_eq!(parse_u128("18446744073709551616"), 18446744073709551616);
    assert_eq!(parse_u128("340282366920938463463374607431768211456"), 0);
    assert_eq!(decimal_string(0), "0");
    assert_eq!(decimal_string(1234567890), "1234567890");
    assert_eq!(trim("\u{3000} a b \n"), "a b");
}
