use openports::error::ScanError;
use openports::ports::{concat_snapshots, parse_socket_table, parse_table_line, ActivePort};

fn lines_of(text: &[&str]) -> Vec<Vec<u8>> {
    text.iter().map(|l| l.as_bytes().to_vec()).collect()
}

const HEADER: &str =
    "  sl  local_address rem_address   st tx_queue rx_queue tr tm->when retrnsmt   uid  timeout inode";

#[test]
fn keeps_listening_rows_in_file_order() {
    // a header, two listening rows, one row in another state
    let lines = lines_of(&[
        HEADER,
        "   0: 0100007F:1F90 00000000:0000 0A 00000000:00000000 00:00000000 00000000  1000        0 12345",
        "   1: 0100007F:0016 00000000:0000 01 00000000:00000000 00:00000000 00000000     0        0 222",
        "   2: 00000000:0050 00000000:0000 0A 00000000:00000000 00:00000000 00000000     0        0 67890",
    ]);
    let ports = parse_socket_table(&lines).unwrap();
    assert_eq!(ports.len(), 2);
    assert_eq!(ports[0].port, 8080);
    assert_eq!(ports[0].inode, 12345);
    assert_eq!(ports[0].address.octets, vec![1, 0, 0, 127]);
    assert_eq!(ports[1].port, 80);
    assert_eq!(ports[1].inode, 67890);
    assert_eq!(ports[1].address.octets, vec![0, 0, 0, 0]);
}

#[test]
fn listening_row_without_inode_fails_whole_parse() {
    // the second listening row has only four fields, so no inode
    let lines = lines_of(&[
        HEADER,
        "   0: 0100007F:1F90 00000000:0000 0A 00000000:00000000 00:00000000 00000000  1000        0 12345",
        "   1: 0100007F:0050 00000000:0000 0A",
    ]);
    assert_eq!(parse_socket_table(&lines), Err(ScanError::TableParseError));
}

#[test]
fn non_decimal_inode_fails_whole_parse() {
    let lines = lines_of(&[
        HEADER,
        "   0: 0100007F:1F90 00000000:0000 0A 00000000:00000000 00:00000000 00000000  1000        0 12x45",
    ]);
    assert_eq!(parse_socket_table(&lines), Err(ScanError::TableParseError));
}

#[test]
fn codec_errors_propagate_from_kept_rows() {
    let lines = lines_of(&[
        HEADER,
        "   0: 0100007F 00000000:0000 0A 00000000:00000000 00:00000000 00000000  1000        0 12345",
    ]);
    assert_eq!(parse_socket_table(&lines), Err(ScanError::MalformedToken));
}

#[test]
fn empty_table_and_header_only_table_are_empty() {
    assert_eq!(parse_socket_table(&lines_of(&[])), Ok(vec![]));
    assert_eq!(parse_socket_table(&lines_of(&[HEADER])), Ok(vec![]));
}

#[test]
fn header_is_discarded_without_validation() {
    // even a header that itself looks like a listening row is dropped
    let lines = lines_of(&[
        "   9: 0100007F:1F90 00000000:0000 0A 00000000:00000000 00:00000000 00000000  1000        0 999",
    ]);
    assert_eq!(parse_socket_table(&lines), Ok(vec![]));
}

#[test]
fn non_listening_and_short_rows_are_skipped() {
    assert_eq!(parse_table_line(&b"".to_vec()), Ok(None));
    assert_eq!(parse_table_line(&b"   1: 0100007F:0016 00000000:0000".to_vec()), Ok(None));
    assert_eq!(
        parse_table_line(
            &b"   1: 0100007F:0016 00000000:0000 06 0:0 00:0 0 0 0 333".to_vec()
        ),
        Ok(None)
    );
}

#[test]
fn fields_split_on_runs_of_mixed_whitespace() {
    let lines = lines_of(&[
        HEADER,
        "\t0:\t 0100007F:1F90  \t00000000:0000 \t 0A 0:0\t00:0 0 0 0\t12345 ",
    ]);
    let ports = parse_socket_table(&lines).unwrap();
    assert_eq!(ports.len(), 1);
    assert_eq!(ports[0].port, 8080);
    assert_eq!(ports[0].inode, 12345);
}

#[test]
fn snapshots_concatenate_in_order() {
    let first = lines_of(&[
        HEADER,
        "   0: 0100007F:1F90 00000000:0000 0A 0:0 00:0 0 0 0 111",
    ]);
    let second = lines_of(&[
        HEADER,
        "   0: 00000000000000000000000001000000:0050 00000000000000000000000000000000:0000 0A 0:0 00:0 0 0 0 222",
    ]);
    let v4: Vec<ActivePort> = parse_socket_table(&first).unwrap();
    let v6: Vec<ActivePort> = parse_socket_table(&second).unwrap();
    let all = concat_snapshots(v4, v6);
    assert_eq!(all.len(), 2);
    assert_eq!(all[0].inode, 111);
    assert_eq!(all[0].address.octets.len(), 4);
    assert_eq!(all[1].inode, 222);
    assert_eq!(all[1].address.octets.len(), 16);
}
