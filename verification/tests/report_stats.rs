use game_sockets::bench::{record_line, BenchmarkRecord};
use game_sockets::files::{
    is_run_file_of, is_wanted_protocol, is_wanted_scenario, protocol_name_len, sorted_unique_names,
};
use game_sockets::stats::{
    global_counts, group_by_stream, latency_totals, merge_stream_ids, stream_counts,
    t_critical_95_milli, StreamCounts,
};

fn rec(packet_id: u64, stream_id: u16, rtt_us: u64, payload_size: usize, recv_timestamp: u64) -> BenchmarkRecord {
    BenchmarkRecord { packet_id, stream_id, rtt_us, payload_size, recv_timestamp }
}

#[test]
fn counts_of_a_stream() {
    let rs = vec![rec(0, 1, 0, 0, 0), rec(4, 1, 0, 0, 0), rec(2, 1, 0, 0, 0)];
    assert_eq!(stream_counts(&rs), StreamCounts { sent: 5, received: 3, lost: 2 });
    assert_eq!(stream_counts(&[]), StreamCounts { sent: 0, received: 0, lost: 0 });
    // duplicates: more received than sent, nothing lost
    let rs = vec![rec(0, 1, 0, 0, 0), rec(0, 1, 0, 0, 0)];
    assert_eq!(stream_counts(&rs), StreamCounts { sent: 1, received: 2, lost: 0 });
}

#[test]
fn global_counts_sum_streams() {
    let g = global_counts(&[
        StreamCounts { sent: 5, received: 3, lost: 2 },
        StreamCounts { sent: 10, received: 10, lost: 0 },
    ]);
    assert_eq!(g, StreamCounts { sent: 15, received: 13, lost: 2 });
    assert_eq!(global_counts(&[]), StreamCounts { sent: 0, received: 0, lost: 0 });
}

#[test]
fn grouping_by_stream() {
    let rs = vec![
        rec(1, 6, 0, 0, 0),
        rec(2, 5, 0, 0, 0),
        rec(3, 6, 0, 0, 0),
        rec(4, 1, 0, 0, 0),
        rec(5, 5, 0, 0, 0),
    ];
    let g = group_by_stream(&rs);
    let ids: Vec<u16> = g.iter().map(|x| x.stream_id).collect();
    assert_eq!(ids, vec![1, 5, 6]);
    let ps: Vec<Vec<u64>> = g.iter().map(|x| x.records.iter().map(|r| r.packet_id).collect()).collect();
    assert_eq!(ps, vec![vec![4], vec![2, 5], vec![1, 3]]);
    assert!(group_by_stream(&[]).is_empty());
}

#[test]
fn latency_totals_of_records() {
    let rs = vec![rec(0, 1, 30, 100, 1000), rec(1, 1, 10, 200, 4000), rec(2, 1, 20, 300, 2000)];
    let t = latency_totals(&rs).unwrap();
    assert_eq!(t.min_time, 1000);
    assert_eq!(t.max_time, 4000);
    assert_eq!(t.duration_us, 3000);
    assert_eq!(t.total_bytes, 600);
    assert_eq!(t.sorted_rtts, vec![10, 20, 30]);
    assert_eq!(t.sum_rtt, 60);
    assert!(latency_totals(&[]).is_none());
}

#[test]
fn t_table() {
    assert_eq!(t_critical_95_milli(0), 0);
    assert_eq!(t_critical_95_milli(1), 0);
    assert_eq!(t_critical_95_milli(2), 12706);
    assert_eq!(t_critical_95_milli(10), 2262);
    assert_eq!(t_critical_95_milli(15), 2145);
    assert_eq!(t_critical_95_milli(16), 2131);
    assert_eq!(t_critical_95_milli(21), 2086);
    assert_eq!(t_critical_95_milli(29), 2048);
    assert_eq!(t_critical_95_milli(30), 1960);
    assert_eq!(t_critical_95_milli(31), 1960);
    assert_eq!(t_critical_95_milli(5) as f64 / 1000.0, 2.776);
}

#[test]
fn result_file_names() {
    assert_eq!(protocol_name_len(b"quic_run01"), 4);
    assert_eq!(protocol_name_len(b"quic"), 4);
    assert_eq!(protocol_name_len(b"a_run_run2"), 1);
    assert_eq!(protocol_name_len(b"_run"), 0);
    assert_eq!(protocol_name_len(b"udp_ru"), 6);
    assert!(is_run_file_of(b"quic_run01", b"quic"));
    assert!(is_run_file_of(b"quic", b"quic"));
    assert!(!is_run_file_of(b"quicker", b"quic"));
    assert!(!is_run_file_of(b"qui", b"quic"));
    assert!(!is_run_file_of(b"quic_rux", b"quic"));
    assert!(!is_run_file_of(b"tcp_run1", b"quic"));
}

#[test]
fn protocol_names_sorted_once() {
    let names: Vec<String> = ["udp", "quic", "tcp", "quic", "gns", "udp", "quicker", "Z", "é"]
        .iter()
        .map(|s| s.to_string())
        .collect();
    let mut expected = names.clone();
    expected.sort();
    expected.dedup();
    assert_eq!(sorted_unique_names(&names), expected);
    assert_eq!(sorted_unique_names(&names), vec!["Z", "gns", "quic", "quicker", "tcp", "udp", "é"]);
    assert!(sorted_unique_names(&[]).is_empty());
}

#[test]
fn stream_ids_merge_across_runs() {
    let run1 = group_by_stream(&[rec(0, 7, 1, 1, 1), rec(1, 1, 1, 1, 2), rec(2, 7, 1, 1, 3)]);
    let run2 = group_by_stream(&[]);
    let run3 = group_by_stream(&[rec(0, 3, 1, 1, 1), rec(1, 7, 1, 1, 2)]);
    assert_eq!(merge_stream_ids(&[run1, run2, run3]), vec![1, 3, 7]);
    assert!(merge_stream_ids(&[]).is_empty());
}

#[test]
fn every_result_file_belongs_to_its_protocol() {
    for stem in ["quic", "quic_run01", "tcp_run3_run4", "a_b", "_run2", ""] {
        let n = protocol_name_len(stem.as_bytes());
        assert!(is_run_file_of(stem.as_bytes(), &stem.as_bytes()[..n]));
    }
}

#[test]
fn record_lines_are_decimal_csv() {
    let r = rec(42, 3, 1500, 1000, 1_700_000_000_000_000);
    assert_eq!(record_line(&r), b"1700000000000000,42,3,1500,1000\n".to_vec());
    let z = rec(0, 0, 0, 0, 0);
    assert_eq!(record_line(&z), b"0,0,0,0,0\n".to_vec());
    let m = rec(u64::MAX, u16::MAX, 10, 9, 100);
    assert_eq!(
        String::from_utf8(record_line(&m)).unwrap(),
        format!("100,{},{},10,9\n", u64::MAX, u16::MAX)
    );
}

#[test]
fn report_filters() {
    assert!(is_wanted_protocol(b"QUIC", b"quic"));
    assert!(is_wanted_protocol(b"gns", b"GnS"));
    assert!(!is_wanted_protocol(b"quic", b"quicker"));
    assert!(!is_wanted_protocol(b"tcp", b"udp"));
    assert!(is_wanted_protocol(b"", b""));
    assert!(is_wanted_scenario(b"loss_5pct_delay_50ms", b"delay"));
    assert!(is_wanted_scenario(b"loss_5pct", b"loss_5pct"));
    assert!(is_wanted_scenario(b"abc", b""));
    assert!(!is_wanted_scenario(b"abc", b"abcd"));
    assert!(!is_wanted_scenario(b"aab", b"abb"));
}
