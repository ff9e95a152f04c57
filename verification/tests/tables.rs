use config_collector::csv::{
    detect_csv_delimiter, parse_csv_results, parse_delay, parse_speed, split_csv_line_auto,
    split_csv_line_with_delimiter, SpeedUnit,
};

fn owned(items: &[&str]) -> Vec<String> {
    items.iter().map(|s| s.to_string()).collect()
}

#[test]
fn the_more_frequent_mark_delimits() {
    assert_eq!(detect_csv_delimiter("a;b;c,d"), ';');
    assert_eq!(detect_csv_delimiter("a;b,c"), ',');
    assert_eq!(detect_csv_delimiter("abc"), ',');
}

#[test]
fn quotes_shield_delimiters() {
    assert_eq!(
        split_csv_line_with_delimiter("a,\"b,\"\"c\"\"\",d", ','),
        owned(&["a", "b,\"c\"", "d"])
    );
    assert_eq!(split_csv_line_auto("x;y;\"z;\""), owned(&["x", "y", "z;"]));
    assert_eq!(split_csv_line_with_delimiter("", ','), owned(&[""]));
}

#[test]
fn unquoted_lines_split_at_every_delimiter() {
    assert_eq!(split_csv_line_with_delimiter("a,,b,", ','), owned(&["a", "", "b", ""]));
}

#[test]
fn delays_are_small_numbers() {
    assert_eq!(parse_delay(" 120ms "), Some(120));
    assert_eq!(parse_delay("29999"), Some(29999));
    assert_eq!(parse_delay("30000"), None);
    assert_eq!(parse_delay("0"), None);
    assert_eq!(parse_delay("-1"), None);
    assert_eq!(parse_delay("TimeOut 5"), None);
    assert_eq!(parse_delay("delay: 12"), None);
    assert_eq!(parse_delay("abc"), None);
    assert_eq!(parse_delay("00"), None);
}

#[test]
fn rates_have_units() {
    let r = parse_speed("1,234.5 KB/s").unwrap();
    assert_eq!((r.digits.as_str(), r.unit), ("1234.5", SpeedUnit::Kilobytes));
    assert_eq!(parse_speed("2 GiB").unwrap().unit, SpeedUnit::Gigabytes);
    assert_eq!(parse_speed("2 MB").unwrap().unit, SpeedUnit::Megabytes);
    assert_eq!(parse_speed("200bps").unwrap().unit, SpeedUnit::Bytes);
    assert_eq!(parse_speed("7b").unwrap().unit, SpeedUnit::Bytes);
    assert_eq!(parse_speed("7").unwrap().unit, SpeedUnit::Unmarked);
    assert!(parse_speed("failed").is_none());
    assert!(parse_speed("n/a").is_none());
    assert!(parse_speed("about 3 of everything").is_none());
}

#[test]
fn tables_are_read_by_their_headers() {
    let content = "\u{feff}Link;Status;\"Real Delay ping\";Location;Download;speedtest\n\
        ss://a;ok;100ms;DE;1MB;9\n\
        ss://b;FAILED;100ms;DE;1MB;9\n\
        ;ok;1;DE;1MB;9\n\
        ss://c;ok;;null\n\
        ss://d\n";
    let rows = parse_csv_results(content);
    assert_eq!(rows.len(), 3);
    assert_eq!(rows[0].link, "ss://a");
    assert_eq!(rows[0].delay_ms, Some(100));
    assert_eq!(rows[0].country.as_deref(), Some("DE"));
    assert_eq!(rows[0].speeds.len(), 1);
    assert_eq!(rows[0].speeds[0].digits, "1");
    assert_eq!(rows[1].link, "ss://c");
    assert_eq!(rows[1].delay_ms, None);
    assert_eq!(rows[1].country, None);
    assert_eq!(rows[2].link, "ss://d");
    assert_eq!(rows[2].speeds.len(), 0);
}

#[test]
fn tables_without_a_link_header_have_links_first() {
    let rows = parse_csv_results("a,delay\nss://x,5\n");
    assert_eq!(rows.len(), 1);
    assert_eq!(rows[0].link, "ss://x");
    assert_eq!(rows[0].delay_ms, Some(5));
    assert_eq!(parse_csv_results("").len(), 0);
}

#[test]
fn quoted_columns_are_read_as_they_were() {
    let fields = ["a,b", "say \"x\"", "", "\"", ";"];
    let quoted: Vec<String> =
        fields.iter().map(|f| format!("\"{}\"", f.replace('"', "\"\""))).collect();
    assert_eq!(split_csv_line_with_delimiter(&quoted.join(","), ','), fields);
    assert_eq!(split_csv_line_with_delimiter(&quoted.join(";"), ';'), fields);
}
