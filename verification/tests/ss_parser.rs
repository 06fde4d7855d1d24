use checkr::allowed_ports::{SsParseError, SsParser};

#[test]
fn parse_line_ipv4_single_owner() {
    let line = r#"tcp LISTEN 0 128 0.0.0.0:22 0.0.0.0:* users:(("sshd",pid=743,fd=3))"#;
    let entries = SsParser::parse_ss_line(line).unwrap();
    assert_eq!(entries, vec![("sshd".to_string(), 22)]);
}

#[test]
fn parse_line_ipv6_single_owner() {
    let line = r#"tcp LISTEN 0 128 [::]:80 [::]:* users:(("nginx",pid=100,fd=7))"#;
    let entries = SsParser::parse_ss_line(line).unwrap();
    assert_eq!(entries, vec![("nginx".to_string(), 80)]);
}

#[test]
fn parse_line_wildcard_host() {
    let line = r#"udp UNCONN 0 0 *:53 *:* users:(("named",pid=200,fd=9))"#;
    let entries = SsParser::parse_ss_line(line).unwrap();
    assert_eq!(entries, vec![("named".to_string(), 53)]);
}

#[test]
fn parse_line_multiple_owners() {
    let line = r#"tcp LISTEN 0 128 0.0.0.0:22 0.0.0.0:* users:(("sshd",pid=743,fd=3),("systemd",pid=1,fd=92))"#;
    let mut entries = SsParser::parse_ss_line(line).unwrap();
    entries.sort();
    assert_eq!(
        entries,
        vec![("sshd".to_string(), 22), ("systemd".to_string(), 22)]
    );
}

#[test]
fn parse_line_no_users_returns_empty() {
    let line = r#"udp UNCONN 0 0 0.0.0.0:68 0.0.0.0:* users:()"#;
    let entries = SsParser::parse_ss_line(line).unwrap();
    assert!(entries.is_empty());
}

#[test]
fn error_too_few_fields() {
    let line = "tcp LISTEN 0 128";
    let err = SsParser::parse_ss_line(line).unwrap_err();
    let _ = matches!(err, SsParseError::TooFewFields(_));
}

#[test]
fn error_bad_local_addr_when_missing_port() {
    let line = r#"tcp LISTEN 0 128 localhost 0.0.0.0:* users:(("sshd",pid=1,fd=3))"#;
    let err = SsParser::parse_ss_line(line).unwrap_err();
    let _ = matches!(err, SsParseError::BadLocalAddr(_));
}

#[test]
fn error_invalid_port() {
    let line = r#"tcp LISTEN 0 128 0.0.0.0:notaport 0.0.0.0:* users:(("sshd",pid=1,fd=3))"#;
    let err = SsParser::parse_ss_line(line).unwrap_err();
    let _ = matches!(err, SsParseError::InvalidPort(_));
}

#[test]
fn parse_info_aggregates_multiple_lines() {
    let input = r#"
tcp LISTEN 0 128 0.0.0.0:22 0.0.0.0:* users:(("sshd",pid=743,fd=3),("systemd",pid=1,fd=92))
tcp LISTEN 0 128 [::]:80 [::]:* users:(("nginx",pid=100,fd=7))
udp UNCONN 0 0 0.0.0.0:68 0.0.0.0:* users:()
"#
    .to_string();

    let mut entries = SsParser::parse_ss_info(input).unwrap();
    entries.sort();

    assert_eq!(
        entries,
        vec![
            ("nginx".to_string(), 80),
            ("sshd".to_string(), 22),
            ("systemd".to_string(), 22),
        ]
    );
}

#[test]
fn too_few_fields_carries_the_line() {
    let err = SsParser::parse_ss_line("tcp LISTEN 0 128").unwrap_err();
    assert_eq!(err, SsParseError::TooFewFields("tcp LISTEN 0 128".to_string()));
}

#[test]
fn fifth_field_without_colon_is_a_bad_local_addr() {
    // The fifth field is the local address; "localhost" has no ':'.
    let line = r#"tcp LISTEN 0 128 localhost 0.0.0.0:* users:(("sshd",pid=1,fd=3))"#;
    let err = SsParser::parse_ss_line(line).unwrap_err();
    assert_eq!(err, SsParseError::BadLocalAddr(line.to_string()));
}

#[test]
fn no_local_address_at_all() {
    let line = "tcp LISTEN 0 128 localhost peer users:(x)";
    let err = SsParser::parse_ss_line(line).unwrap_err();
    assert_eq!(err, SsParseError::BadLocalAddr(line.to_string()));
}

#[test]
fn invalid_port_carries_the_port_text() {
    let line = r#"tcp LISTEN 0 128 0.0.0.0:notaport 0.0.0.0:* users:(("sshd",pid=1,fd=3))"#;
    let err = SsParser::parse_ss_line(line).unwrap_err();
    assert_eq!(err, SsParseError::InvalidPort("notaport".to_string()));
}

#[test]
fn repeated_owner_is_listed_once() {
    let line = r#"tcp LISTEN 0 128 0.0.0.0:443 0.0.0.0:* users:(("nginx",pid=10,fd=3),("nginx",pid=11,fd=3))"#;
    let entries = SsParser::parse_ss_line(line).unwrap();
    assert_eq!(entries, vec![("nginx".to_string(), 443)]);
}

#[test]
fn users_field_is_not_taken_for_the_address() {
    // A field from the fifth on that begins with "users:" is skipped.
    let line = r#"tcp LISTEN 0 128 users:(("a",pid=1,fd=3)) 10.0.0.1:8080"#;
    let entries = SsParser::parse_ss_line(line).unwrap();
    assert_eq!(entries, vec![("a".to_string(), 8080)]);
}

#[test]
fn only_users_fields_leave_no_local_addr() {
    let line = r#"tcp LISTEN 0 128 users:(("a",pid=1,fd=3)) users:x"#;
    let err = SsParser::parse_ss_line(line).unwrap_err();
    assert_eq!(err, SsParseError::BadLocalAddr(line.to_string()));
}

#[test]
fn owners_on_port_keeps_first_occurrences() {
    let caps = vec![
        Some("sshd".to_string()),
        None,
        Some("systemd".to_string()),
        Some("sshd".to_string()),
    ];
    assert_eq!(
        SsParser::owners_on_port(&caps, 22),
        vec![("sshd".to_string(), 22), ("systemd".to_string(), 22)]
    );
    assert_eq!(SsParser::owners_on_port(&vec![None], 22), vec![]);
    assert_eq!(SsParser::owners_on_port(&vec![], 22), vec![]);
}

#[test]
fn port_is_after_the_last_colon() {
    let line = r#"tcp LISTEN 0 128 [fe80::1%eth0]:5353 [::]:* users:(("avahi",pid=5,fd=1))"#;
    let entries = SsParser::parse_ss_line(line).unwrap();
    assert_eq!(entries, vec![("avahi".to_string(), 5353)]);
}

#[test]
fn info_stops_at_the_first_bad_line() {
    let input = "tcp LISTEN 0 128 0.0.0.0:22 0.0.0.0:* users:((\"sshd\",pid=1,fd=3))\nbad line\n".to_string();
    let err = SsParser::parse_ss_info(input).unwrap_err();
    assert_eq!(err, SsParseError::TooFewFields("bad line".to_string()));
}

#[test]
fn info_of_empty_output_is_empty() {
    assert_eq!(SsParser::parse_ss_info(String::new()).unwrap(), vec![]);
    assert_eq!(SsParser::parse_ss_info("\n\r\n\n".to_string()).unwrap(), vec![]);
    assert_eq!(
        SsParser::parse_ss_info("\r".to_string()).unwrap_err(),
        SsParseError::TooFewFields("\r".to_string())
    );
}

#[test]
fn outputs_are_read_line_by_line() {
    let a = "tcp LISTEN 0 128 0.0.0.0:22 0.0.0.0:* users:((\"sshd\",pid=1,fd=3))\n";
    let b = "tcp LISTEN 0 128 [::]:80 [::]:* users:((\"nginx\",pid=2,fd=7))\n";
    let mut joined = SsParser::parse_ss_info(a.to_string()).unwrap();
    joined.extend(SsParser::parse_ss_info(b.to_string()).unwrap());
    assert_eq!(SsParser::parse_ss_info(format!("{a}{b}")).unwrap(), joined);
    assert_eq!(
        joined,
        vec![("sshd".to_string(), 22), ("nginx".to_string(), 80)]
    );
}
