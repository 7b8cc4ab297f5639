use portpick::services::parse_services_content;
use portpick::tabular::{parse_csv_registry, port_cell_range, ports_from_cells, RegistryError};
use portpick::usage::{collect_used_ports, usage_line_port};
use std::collections::HashSet;

#[test]
fn test_parse_services_content_empty() {
    let content = "";
    let ports = parse_services_content(content);
    assert!(ports.is_empty());
}

#[test]
fn test_parse_services_content_comments_and_blank_lines() {
    let content = "# This is a comment\n\n  # Another comment\n  \n";
    let ports = parse_services_content(content);
    assert!(ports.is_empty());
}

#[test]
fn test_parse_services_content_valid_tcp() {
    let content = "service1\t80/tcp\nservice2   100/tcp # comment\nservice3 200/tcp";
    let ports = parse_services_content(content);
    assert_eq!(ports.len(), 3);
    assert!(ports.contains(&80));
    assert!(ports.contains(&100));
    assert!(ports.contains(&200));
}

#[test]
fn test_parse_services_content_ignore_udp_and_unknown() {
    let content =
        "service_tcp\t80/tcp\nservice_udp\t53/udp\nunknown\t123/tcp\nvalid_service 443/tcp";
    let ports = parse_services_content(content);
    assert_eq!(ports.len(), 2);
    assert!(ports.contains(&80));
    assert!(ports.contains(&443));
    assert!(!ports.contains(&53));
    assert!(!ports.contains(&123));
}

#[test]
fn test_parse_services_content_mixed_delimiters() {
    let content = "http\t80/tcp\nhttps  443/tcp\nssh 22/tcp # Secure Shell";
    let ports = parse_services_content(content);
    assert_eq!(ports.len(), 3);
    assert!(ports.contains(&80));
    assert!(ports.contains(&443));
    assert!(ports.contains(&22));
}

fn set_of(ports: &[u16]) -> HashSet<u16> {
    ports.iter().copied().collect()
}

#[test]
fn services_scenario_unknown_excluded() {
    let ports = parse_services_content("service1\t80/tcp\nservice2   100/tcp\nunknown\t9/tcp");
    assert_eq!(ports, set_of(&[80, 100]));
}

#[test]
fn services_parse_twice_gives_same_set() {
    let text = "a 1/tcp\nb 2/udp\nc 3/TCP\n";
    assert_eq!(parse_services_content(text), parse_services_content(text));
}

#[test]
fn services_case_and_shapes() {
    let text = "UNKNOWN 7/tcp\nUnKnown 8/tcp\necho 9/TCP\ndisc 10/Tcp\nx 11/tcp/extra\ny 12\nz\n\
                big 70000/tcp\nplus +13/tcp\nneg -14/tcp\nempty /tcp\nnoproto 15/\nw\t16/tcp\r\n";
    let ports = parse_services_content(text);
    assert_eq!(ports, set_of(&[9, 10, 13, 16]));
}

#[test]
fn services_comment_only_after_trim() {
    let text = "   #svc 5/tcp\nsvc#x 6/tcp\n#\n";
    assert_eq!(parse_services_content(text), set_of(&[6]));
}

#[test]
fn services_duplicates_and_limits() {
    let text = "a 0/tcp\nb 65535/tcp\nc 65535/tcp\nd 65536/tcp\n";
    assert_eq!(parse_services_content(text), set_of(&[0, 65535]));
}

#[test]
fn services_unicode_whitespace_separates_fields() {
    let text = "svc\u{3000}21/tcp\n\u{a0}ftp 20/tcp\u{2003}";
    assert_eq!(parse_services_content(text), set_of(&[20, 21]));
}

#[test]
fn cell_range_expands() {
    let ports = ports_from_cells(&vec!["1024-1028".to_string()]);
    assert_eq!(ports, set_of(&[1024, 1025, 1026, 1027, 1028]));
}

#[test]
fn cell_range_reversed_is_discarded() {
    let ports = ports_from_cells(&vec!["1028-1024".to_string()]);
    assert!(ports.is_empty());
    assert_eq!(port_cell_range("1028-1024"), None);
}

#[test]
fn cell_shapes() {
    assert_eq!(port_cell_range("80"), Some((80, 80)));
    assert_eq!(port_cell_range("  443 "), Some((443, 443)));
    assert_eq!(port_cell_range("6000 \u{2013} 6003"), Some((6000, 6003)));
    assert_eq!(port_cell_range("7-7"), Some((7, 7)));
    assert_eq!(port_cell_range("65535"), Some((65535, 65535)));
    assert_eq!(port_cell_range("65536"), None);
    assert_eq!(port_cell_range("1-65536"), None);
    assert_eq!(port_cell_range(""), None);
    assert_eq!(port_cell_range("http"), None);
    assert_eq!(port_cell_range("+80"), None);
    assert_eq!(port_cell_range("1-2-3"), None);
    assert_eq!(port_cell_range("-5"), None);
    assert_eq!(port_cell_range("5-"), None);
    assert_eq!(port_cell_range("5 6"), None);
}

#[test]
fn cells_from_a_table() {
    let cells = vec![
        "22".to_string(),
        "Reserved".to_string(),
        "8000-8002".to_string(),
        "22".to_string(),
        "9\u{2013}10".to_string(),
    ];
    assert_eq!(ports_from_cells(&cells), set_of(&[22, 8000, 8001, 8002, 9, 10]));
}

#[test]
fn cell_range_full_span() {
    let ports = ports_from_cells(&vec!["0-65535".to_string()]);
    assert_eq!(ports.len(), 65536);
}

#[test]
fn csv_reads_port_column() {
    let csv = "Service Name,Port Number,Transport Protocol,Description\n\
               ssh,22,tcp,The Secure Shell\n\
               ,1024-1026,tcp,\"Reserved, ranges\"\n\
               http,80,udp,World Wide Web\n\
               ,,tcp,Unassigned\n";
    let ports = parse_csv_registry(csv).unwrap();
    assert_eq!(ports, set_of(&[22, 1024, 1025, 1026, 80]));
}

#[test]
fn csv_quoted_fields() {
    let csv = "\"Name\",\"Port Number\"\r\n\"a, \"\"quoted\"\"\nline\",\"5000\"\r\nb,\"6000-6001\"";
    let ports = parse_csv_registry(csv).unwrap();
    assert_eq!(ports, set_of(&[5000, 6000, 6001]));
}

#[test]
fn csv_short_rows_and_reversed_ranges() {
    let csv = "Port Number,Name\n30\nx\n40-35,y\n\n50 - 52,z";
    let ports = parse_csv_registry(csv).unwrap();
    assert_eq!(ports, set_of(&[30, 50, 51, 52]));
}

#[test]
fn csv_header_only() {
    assert!(parse_csv_registry("Service Name,Port Number\n").unwrap().is_empty());
}

#[test]
fn csv_missing_column() {
    assert_eq!(
        parse_csv_registry("Service Name,Port\nssh,22\n"),
        Err(RegistryError::MissingPortColumn)
    );
    assert_eq!(parse_csv_registry(""), Err(RegistryError::MissingPortColumn));
    assert_eq!(
        parse_csv_registry("port number\n22\n"),
        Err(RegistryError::MissingPortColumn)
    );
}

#[test]
fn usage_bare_ports() {
    let out = "22\n  80  \n\nnot a port\n443\r\n70000\n";
    assert_eq!(collect_used_ports(out), set_of(&[22, 80, 443]));
}

#[test]
fn usage_listening_sockets() {
    let out = "COMMAND PID USER FD TYPE DEVICE SIZE/OFF NODE NAME\n\
               sshd 1 root 3u IPv4 123 0t0 TCP *:22 (LISTEN)\n\
               node 2 me 20u IPv6 456 0t0 TCP [::1]:3000 (LISTEN)\n\
               app 3 me 7u IPv4 789 0t0 TCP 127.0.0.1:5432->127.0.0.1:40000 (ESTABLISHED)\n\
               big 4 me 7u IPv4 1 0t0 TCP *:123456 (LISTEN)\n\
               odd 5 me 7u IPv4 1 0t0 TCP *:70000 (LISTEN)\n\
               nocolon 6 me 7u IPv4 1 0t0 TCP 8080 (LISTEN)\n";
    assert_eq!(collect_used_ports(out), set_of(&[22, 3000]));
}

#[test]
fn usage_empty_output() {
    assert!(collect_used_ports("").is_empty());
    assert!(collect_used_ports("\n\n").is_empty());
}

#[test]
fn services_repeated_text_gives_same_set() {
    let text = "http 80/tcp\nunknown 9/tcp\nssh 22/tcp";
    let twice = format!("{}\n{}", text, text);
    assert_eq!(parse_services_content(&twice), parse_services_content(text));
    assert_eq!(parse_services_content(text), set_of(&[80, 22]));
}

#[test]
fn usage_repeated_output_gives_same_set() {
    let out = "22\nsshd 1 root 3u IPv4 1 0t0 TCP *:2222 (LISTEN)";
    let twice = format!("{}\n{}", out, out);
    assert_eq!(collect_used_ports(&twice), collect_used_ports(out));
    assert_eq!(collect_used_ports(out), set_of(&[22, 2222]));
}

#[test]
fn services_kelvin_sign_unknown_is_skipped() {
    assert!(parse_services_content("UN\u{212A}NOWN 80/tcp").is_empty());
    assert!(parse_services_content("un\u{212A}nown 81/tcp").is_empty());
    let text = "http 80/tcp\nUN\u{212A}NOWN 90/tcp";
    assert_eq!(parse_services_content(text), set_of(&[80]));
    // No letter of "tcp" has a lower-case form outside ASCII.
    assert!(parse_services_content("svc 82/\u{212A}cp").is_empty());
}

#[test]
fn usage_single_lines() {
    assert_eq!(usage_line_port("  8080 "), Some(8080));
    assert_eq!(usage_line_port("sshd 1 root 3u IPv4 1 0t0 TCP *:22 (LISTEN)"), Some(22));
    assert_eq!(usage_line_port("Open 127.0.0.1:22"), None);
    assert_eq!(usage_line_port(""), None);
    assert_eq!(usage_line_port("65536"), None);
}
