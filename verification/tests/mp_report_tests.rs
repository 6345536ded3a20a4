use adaptive_transport::mp_report::{
    group_multipath_rows, parse_multipath_row, parse_multipath_rows, path_result_line,
};
use adaptive_transport::multipath::MultipathStats;

#[test]
fn rows_are_read_and_grouped() {
    let lines: Vec<String> = vec![
        "timestamp_us,run_id,controller,path_id,path_name,acks,losses,retransmits,rtt_samples,rtt_avg_us,quality",
        "1,1,simple-ai,1,cellular,3,1,2,3,100,0.700000",
        "",
        "2,1,simple-aimd,0,wifi,5,0,0,5,50,0.900000",
        "3,2,simple-ai,1,cellular,1,0,0,1,400,0.680000",
        "bad,line",
        "4,2,simple-ai,0,wifi,2,0,1,2,10,0.950000",
    ]
    .into_iter()
    .map(String::from)
    .collect();
    let rows = parse_multipath_rows(&lines);
    assert_eq!(rows.len(), 4);
    assert_eq!(rows[0].controller, "simple-ai");
    assert_eq!(rows[0].quality, "0.700000");
    let groups = group_multipath_rows(&rows);
    let keys: Vec<(String, u8, String)> = groups
        .iter()
        .map(|g| (g.controller.clone(), g.path_id, g.path_name.clone()))
        .collect();
    assert_eq!(
        keys,
        vec![
            ("simple-ai".to_string(), 0, "wifi".to_string()),
            ("simple-ai".to_string(), 1, "cellular".to_string()),
            ("simple-aimd".to_string(), 0, "wifi".to_string())
        ]
    );
    let cellular = &groups[1];
    assert_eq!(cellular.runs, 2);
    assert_eq!(cellular.acks, 4);
    assert_eq!(cellular.rtt_samples, 4);
    assert_eq!(cellular.rtt_weighted_sum, 700);
    assert_eq!(cellular.weighted_avg_rtt_us(), 175);
    assert_eq!(cellular.members, vec![0, 2]);
}

#[test]
fn path_id_keeps_low_eight_bits() {
    let r = parse_multipath_row("1,1,\"a,b\", 257 , x ,1,2,3,4,5,q").unwrap();
    assert_eq!(r.controller, "a,b");
    assert_eq!(r.path_id, 1);
    assert_eq!(r.path_name, "x");
    assert!(parse_multipath_row("1,2,3").is_none());
}

#[test]
fn path_stats_count() {
    let mut s = MultipathStats::default();
    s.record_ack(100);
    s.record_ack(301);
    s.record_loss();
    s.record_retransmit();
    assert_eq!((s.acks, s.losses, s.retransmits, s.rtt_samples), (2, 1, 1, 2));
    assert_eq!(s.average_rtt_us(), 200);
}

#[test]
fn path_result_line_is_read_back() {
    let mut s = MultipathStats::default();
    s.record_ack(120);
    s.record_ack(80);
    s.record_loss();
    s.record_retransmit();
    let line = path_result_line(1700, 3, "simple-ai", 1, "cell,ular", &s, "0.730000");
    assert_eq!(line, "1700,3,simple-ai,1,\"cell,ular\",2,1,1,2,100,0.730000");
    let r = parse_multipath_row(&line).unwrap();
    assert_eq!(r.controller, "simple-ai");
    assert_eq!(r.path_id, 1);
    assert_eq!(r.path_name, "cell,ular");
    assert_eq!((r.acks, r.losses, r.retransmits, r.rtt_samples), (2, 1, 1, 2));
    assert_eq!(r.rtt_avg_us, 100);
    assert_eq!(r.quality, "0.730000");
}

#[test]
fn group_summary_line() {
    let lines: Vec<String> = vec![
        "header",
        "1,1,\"pred, v2\",0,wifi,3,1,2,3,100,0.5",
        "2,2,\"pred, v2\",0,wifi,1,0,0,1,300,0.7",
    ]
    .into_iter()
    .map(String::from)
    .collect();
    let groups = group_multipath_rows(&parse_multipath_rows(&lines));
    assert_eq!(groups.len(), 1);
    assert_eq!(
        groups[0].summary_line("0.600000"),
        "\"pred, v2\",0,wifi,2,4,1,2,150,0.600000"
    );
}
