use openports::correlate::{correlate_process, find_active_port, make_entry};
use openports::error::ScanError;
use openports::ports::parse_socket_table;

fn lines_of(text: &[&str]) -> Vec<Vec<u8>> {
    text.iter().map(|l| l.as_bytes().to_vec()).collect()
}

fn targets_of(text: &[&str]) -> Vec<Vec<u8>> {
    text.iter().map(|t| t.as_bytes().to_vec()).collect()
}

#[test]
fn end_to_end_single_match() {
    // one listening socket at 127.0.0.1:8080 with inode 12345; one process
    // whose descriptor resolves to socket:[12345] and whose command name
    // is "demo"
    let lines = lines_of(&[
        "  sl  local_address rem_address   st tx_queue rx_queue tr tm->when retrnsmt   uid  timeout inode",
        "   0: 7F000001:1F90 00000000:0000 0A 00000000:00000000 00:00000000 00000000  1000        0 12345",
    ]);
    let snapshot = parse_socket_table(&lines).unwrap();
    let targets = targets_of(&["socket:[12345]"]);
    let comm = String::from("demo");
    let entries = correlate_process(&snapshot, 4242, &comm, &targets).unwrap();
    assert_eq!(entries.len(), 1);
    assert_eq!(entries[0].comm, "demo");
    assert_eq!(entries[0].pid, 4242);
    assert_eq!(entries[0].address.octets, vec![127, 0, 0, 1]);
    assert_eq!(entries[0].port, 8080);
    assert_eq!(entries[0].inode, 12345);
}

#[test]
fn duplicate_descriptors_emit_two_entries() {
    let lines = lines_of(&[
        "header",
        "   0: 7F000001:1F90 00000000:0000 0A 0:0 00:0 0 0 0 12345",
    ]);
    let snapshot = parse_socket_table(&lines).unwrap();
    let targets = targets_of(&["socket:[12345]", "socket:[12345]"]);
    let comm = String::from("demo");
    let entries = correlate_process(&snapshot, 7, &comm, &targets).unwrap();
    assert_eq!(entries.len(), 2);
    assert_eq!(entries[0], entries[1]);
    assert_eq!(entries[0].inode, 12345);
}

#[test]
fn unmatched_and_non_socket_targets_emit_nothing() {
    let lines = lines_of(&[
        "header",
        "   0: 7F000001:1F90 00000000:0000 0A 0:0 00:0 0 0 0 12345",
    ]);
    let snapshot = parse_socket_table(&lines).unwrap();
    let targets = targets_of(&["/dev/null", "socket:[99]", "pipe:[5]"]);
    let comm = String::from("demo");
    let entries = correlate_process(&snapshot, 7, &comm, &targets).unwrap();
    assert_eq!(entries.len(), 0);
}

#[test]
fn undecodable_socket_target_fails_the_process_scan() {
    let lines = lines_of(&[
        "header",
        "   0: 7F000001:1F90 00000000:0000 0A 0:0 00:0 0 0 0 12345",
    ]);
    let snapshot = parse_socket_table(&lines).unwrap();
    let targets = targets_of(&["socket:[4294967296]"]);
    let comm = String::from("demo");
    assert_eq!(
        correlate_process(&snapshot, 7, &comm, &targets),
        Err(ScanError::InodeDecodeError)
    );
}

#[test]
fn lookup_finds_first_of_duplicate_inodes() {
    // two snapshot records share an inode: the lookup must not fail, and
    // returns one of them (the first)
    let lines = lines_of(&[
        "header",
        "   0: 7F000001:1F90 00000000:0000 0A 0:0 00:0 0 0 0 999",
        "   1: 7F000001:0050 00000000:0000 0A 0:0 00:0 0 0 0 999",
    ]);
    let snapshot = parse_socket_table(&lines).unwrap();
    assert_eq!(snapshot.len(), 2);
    assert_eq!(find_active_port(&snapshot, 999), Some(0));
    assert_eq!(find_active_port(&snapshot, 1000), None);
}

#[test]
fn entries_copy_the_matched_record() {
    let lines = lines_of(&[
        "header",
        "   0: 7F000001:1F90 00000000:0000 0A 0:0 00:0 0 0 0 12345",
    ]);
    let snapshot = parse_socket_table(&lines).unwrap();
    let comm = String::from("server");
    let entry = make_entry(&snapshot[0], 31337, &comm);
    assert_eq!(entry.comm, "server");
    assert_eq!(entry.pid, 31337);
    assert_eq!(entry.address.octets, snapshot[0].address.octets);
    assert_eq!(entry.port, snapshot[0].port);
    assert_eq!(entry.inode, snapshot[0].inode);
}
