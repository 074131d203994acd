use vpnnode::validation::{
    chars_of, column_index, connect_to_text, csv_escape, csv_field, csv_line, curl_url,
    find_artifact_for_site_in_text, join_commas, measurement_header, measurement_row_cells, metrics_line, parse_csv,
    parse_key_value_line, parse_u16, parse_validation_artifact_line, split_lines, split_words, trim_chars,
    SuccessAgg,
};

fn text(v: &[char]) -> String {
    v.iter().collect()
}

fn pairs_text(p: &[(Vec<char>, Vec<char>)]) -> Vec<(String, String)> {
    p.iter().map(|(k, v)| (text(k), text(v))).collect()
}

fn rows_text(rows: &[Vec<Vec<char>>]) -> Vec<Vec<String>> {
    rows.iter().map(|r| r.iter().map(|c| text(c)).collect()).collect()
}

#[test]
fn csv_escape_quotes_only_when_needed() {
    assert_eq!(text(&csv_escape(&chars_of("plain"))), "plain");
    assert_eq!(text(&csv_escape(&chars_of("a,b"))), "\"a,b\"");
    assert_eq!(text(&csv_escape(&chars_of("say \"hi\""))), "\"say \"\"hi\"\"\"");
    assert_eq!(text(&csv_escape(&chars_of("two\nlines"))), "\"two\nlines\"");
    assert_eq!(text(&csv_escape(&chars_of(""))), "");
}

#[test]
fn csv_line_escapes_and_joins() {
    let cells = vec![chars_of("site"), chars_of("x,y"), chars_of("")];
    assert_eq!(text(&csv_line(&cells)), "site,\"x,y\",");
    assert_eq!(text(&join_commas(&cells)), "site,x,y,");
    assert_eq!(text(&join_commas(&vec![])), "");
}

#[test]
fn trim_and_words_follow_unicode_white_space() {
    assert_eq!(text(&trim_chars(&chars_of(" \t a b \u{a0}\n"))), "a b");
    let words: Vec<String> = split_words(&chars_of("  one\ttwo\u{3000}three  ")).iter().map(|w| text(w)).collect();
    assert_eq!(words, vec!["one", "two", "three"]);
    assert!(split_words(&chars_of("   ")).is_empty());
}

#[test]
fn key_value_line_pairs_in_order() {
    let pairs = parse_key_value_line(&chars_of("connect=0.01 appconnect=0.80 junk total=1.90 code=200 a=b=c"));
    assert_eq!(
        pairs_text(&pairs),
        vec![
            ("connect".to_string(), "0.01".to_string()),
            ("appconnect".to_string(), "0.80".to_string()),
            ("total".to_string(), "1.90".to_string()),
            ("code".to_string(), "200".to_string()),
            ("a".to_string(), "b=c".to_string()),
        ]
    );
}

#[test]
fn artifact_line_fields_are_trimmed() {
    let line = chars_of("2025-01-01 INFO client: VALIDATION_ARTIFACT,site=example.com, exit = 10.0.0.1:30001 ,route=r1>x  ");
    let m = parse_validation_artifact_line(&line).expect("artifact");
    assert_eq!(
        pairs_text(&m),
        vec![
            ("site".to_string(), "example.com".to_string()),
            ("exit".to_string(), "10.0.0.1:30001".to_string()),
            ("route".to_string(), "r1>x".to_string()),
        ]
    );
}

#[test]
fn artifact_line_refused_without_tag_or_with_bare_field() {
    assert!(parse_validation_artifact_line(&chars_of("INFO nothing here")).is_none());
    assert!(parse_validation_artifact_line(&chars_of("VALIDATION_ARTIFACT site=x")).is_none());
    assert!(parse_validation_artifact_line(&chars_of("VALIDATION_ARTIFACT,site=x,bare")).is_none());
    assert!(parse_validation_artifact_line(&chars_of("VALIDATION_ARTIFACT,site=x,")).is_none());
    let only_tag = parse_validation_artifact_line(&chars_of("VALIDATION_ARTIFACT,")).is_none();
    assert!(only_tag);
}

#[test]
fn latest_artifact_for_site_wins() {
    let log = "VALIDATION_ARTIFACT,site=a,exit=e1\r\n\
noise\n\
VALIDATION_ARTIFACT,site=b,exit=e2\n\
VALIDATION_ARTIFACT,site=a,exit=e3\n\
VALIDATION_ARTIFACT,site=c,broken\n";
    let m = find_artifact_for_site_in_text(&chars_of(log), &chars_of("a")).expect("found");
    assert_eq!(pairs_text(&m)[1], ("exit".to_string(), "e3".to_string()));
    let b = find_artifact_for_site_in_text(&chars_of(log), &chars_of("b")).expect("found");
    assert_eq!(pairs_text(&b)[1], ("exit".to_string(), "e2".to_string()));
    assert!(find_artifact_for_site_in_text(&chars_of(log), &chars_of("c")).is_none());
    assert!(find_artifact_for_site_in_text(&chars_of(""), &chars_of("a")).is_none());
}

#[test]
fn lines_match_str_lines() {
    for t in ["", "\n", "a", "a\n", "a\r\nb", "a\n\nb\r", "x\r\n\r\n"] {
        let ours: Vec<String> = split_lines(&chars_of(t)).iter().map(|l| text(l)).collect();
        let std_lines: Vec<String> = t.lines().map(|l| l.to_string()).collect();
        assert_eq!(ours, std_lines, "text {t:?}");
    }
}

#[test]
fn parse_csv_handles_quotes_and_blank_rows() {
    let content = "a,b\n\"x,1\",\"he said \"\"hi\"\"\"\r\n , \n\nlast,row";
    let rows = parse_csv(&chars_of(content));
    assert_eq!(
        rows_text(&rows),
        vec![
            vec!["a".to_string(), "b".to_string()],
            vec!["x,1".to_string(), "he said \"hi\"".to_string()],
            vec!["last".to_string(), "row".to_string()],
        ]
    );
    assert!(parse_csv(&chars_of("")).is_empty());
}

#[test]
fn written_measurement_line_reads_back() {
    let cells = vec![chars_of("example.com"), chars_of("overlay"), chars_of("e,1"), chars_of("q\"uote")];
    let mut line = csv_line(&cells);
    line.push('\n');
    let rows = parse_csv(&line);
    assert_eq!(rows_text(&rows), vec![vec!["example.com", "overlay", "e,1", "q\"uote"]]);
}

#[test]
fn csv_field_by_trimmed_header() {
    let rows = parse_csv(&chars_of(" site ,code,mode\nexample.com,  200 ,\n"));
    let header = &rows[0];
    assert_eq!(column_index(header, &chars_of("site")), Some(0));
    assert_eq!(column_index(header, &chars_of("missing")), None);
    assert_eq!(csv_field(&rows[1], header, &chars_of("code")).map(|v| text(&v)), Some("200".to_string()));
    assert_eq!(csv_field(&rows[1], header, &chars_of("mode")), None);
    assert_eq!(csv_field(&rows[1], header, &chars_of("missing")), None);
}

#[test]
fn parse_u16_like_std() {
    for t in ["200", "+7", "0", "65535", "65536", "", "+", "-1", "12a", " 1", "0099"] {
        let ours = parse_u16(Some(chars_of(t).as_slice()));
        assert_eq!(ours, t.parse::<u16>().ok(), "text {t:?}");
    }
    assert_eq!(parse_u16(None), None);
}

#[test]
fn success_counts_codes_below_400() {
    let mut s = SuccessAgg::new();
    s.push_code(Some(200));
    s.push_code(Some(404));
    s.push_code(Some(0));
    s.push_code(None);
    s.push_code(Some(301));
    assert_eq!(s.code_present_n, 4);
    assert_eq!(s.success_n, 2);
}

#[test]
fn curl_url_has_one_slash_before_path() {
    assert_eq!(text(&curl_url("http", "example.com", 80, "/")), "http://example.com:80/");
    assert_eq!(text(&curl_url("https", "a.b", 443, "x/y")), "https://a.b:443/x/y");
    assert_eq!(text(&curl_url("http", "h", 8080, "//deep")), "http://h:8080/deep");
    assert_eq!(text(&connect_to_text("example.com", 443, 10080)), "example.com:443:127.0.0.1:10080");
}

#[test]
fn metrics_line_is_first_nonblank_trimmed() {
    let out = "\n   \n connect=0.1 code=200 \r\nlater=1\n";
    assert_eq!(text(&metrics_line(&chars_of(out))), "connect=0.1 code=200");
    assert_eq!(text(&metrics_line(&chars_of("  \n"))), "");
}

#[test]
fn measurement_rows_fill_sixteen_columns() {
    let header = measurement_header();
    assert_eq!(header.len(), 16);
    assert_eq!(text(&join_commas(&header)).split(',').next(), Some("site"));
    let metrics = parse_key_value_line(&chars_of("connect=0.01 appconnect=0 starttransfer=0.2 total=0.3 code=200"));
    let direct = measurement_row_cells("example.com", "direct", &metrics, None);
    let d: Vec<String> = direct.iter().map(|c| text(c)).collect();
    assert_eq!(d[0], "example.com");
    assert_eq!(d[1], "direct");
    assert_eq!(d[2], "");
    assert_eq!(d[4], "0.01");
    assert_eq!(d[8], "200");
    assert!(d[9..].iter().all(|c| c.is_empty()));
    let artifact =
        parse_validation_artifact_line(&chars_of("VALIDATION_ARTIFACT,site=example.com,exit=e1,frames_sent=9")).unwrap();
    let overlay = measurement_row_cells("example.com", "overlay", &metrics, Some(&artifact));
    let o: Vec<String> = overlay.iter().map(|c| text(c)).collect();
    assert_eq!(o[2], "e1");
    assert_eq!(o[3], "");
    assert_eq!(o[10], "9");
}

#[test]
fn written_rows_read_back_without_blank_ones() {
    let rows: Vec<Vec<&str>> = vec![
        vec!["site", "mode", "exit"],
        vec!["a,b", "say \"hi\"", "two\nlines"],
        vec![" ", ""],
        vec!["last", "x\ry", "z"],
    ];
    let mut text: Vec<char> = Vec::new();
    for r in rows.iter() {
        let cells: Vec<Vec<char>> = r.iter().map(|c| chars_of(c)).collect();
        text.extend(csv_line(&cells));
        text.push('\n');
    }
    let parsed = parse_csv(&text);
    let expected: Vec<Vec<String>> = rows
        .iter()
        .filter(|r| !r.iter().all(|c| c.trim().is_empty()))
        .map(|r| r.iter().map(|c| c.to_string()).collect())
        .collect();
    assert_eq!(rows_text(&parsed), expected);
}
