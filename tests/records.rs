use uprobe_tracer::span::{span_with_name, to_span, wall_clock_ns};
use uprobe_tracer::{BPFEvent, ByteOrder, ClockSample, DecodeError, RECORD_SIZE};

fn record(start: u64, end: u64, pid: u32, comm: &str) -> Vec<u8> {
    let mut b = Vec::new();
    b.extend_from_slice(&start.to_ne_bytes());
    b.extend_from_slice(&end.to_ne_bytes());
    b.extend_from_slice(&pid.to_ne_bytes());
    let mut name = [0u8; 16];
    name[..comm.len()].copy_from_slice(comm.as_bytes());
    b.extend_from_slice(&name);
    b
}

#[test]
fn decodes_exact_record() {
    let data = record(100, 250, 4242, "worker");
    assert_eq!(data.len(), RECORD_SIZE);
    let e = BPFEvent::parse(&data).unwrap();
    assert_eq!(e.timestamp_start, 100);
    assert_eq!(e.timestamp_end, 250);
    assert_eq!(e.pid, 4242);
    assert_eq!(e.comm_name(), b"worker".to_vec());
}

#[test]
fn short_record_is_rejected() {
    let data = [7u8; 10];
    assert_eq!(BPFEvent::parse(&data).unwrap_err(), DecodeError::InvalidSize { len: 10 });
    let data = [7u8; 28];
    assert_eq!(BPFEvent::parse(&data).unwrap_err(), DecodeError::InvalidSize { len: 28 });
    let data = [7u8; 37];
    assert_eq!(BPFEvent::parse(&data).unwrap_err(), DecodeError::InvalidSize { len: 37 });
    assert_eq!(BPFEvent::parse(&[]).unwrap_err(), DecodeError::InvalidSize { len: 0 });
}

#[test]
fn byte_order_is_explicit() {
    let mut data = vec![0u8; 36];
    data[0] = 1;
    data[15] = 2;
    data[16] = 0x01;
    data[17] = 0x02;
    let le = BPFEvent::parse_in(&data, ByteOrder::Little).unwrap();
    assert_eq!(le.timestamp_start, 1);
    assert_eq!(le.timestamp_end, 2u64 << 56);
    assert_eq!(le.pid, 0x0201);
    let be = BPFEvent::parse_in(&data, ByteOrder::Big).unwrap();
    assert_eq!(be.timestamp_start, 1u64 << 56);
    assert_eq!(be.timestamp_end, 2);
    assert_eq!(be.pid, 0x0102_0000);
    assert_eq!(le.comm, be.comm);
}

#[test]
fn full_comm_has_no_nul() {
    let data = record(1, 2, 3, "abcdefghijklmnop");
    let e = BPFEvent::parse(&data).unwrap();
    assert_eq!(e.comm_name(), b"abcdefghijklmnop".to_vec());
    let data = record(1, 2, 3, "");
    assert!(BPFEvent::parse(&data).unwrap().comm_name().is_empty());
}

#[test]
fn span_times_follow_the_startup_sample() {
    let sample = ClockSample { monotonic_ns: 1_000, wall_ns: 1_700_000_000_000_000_000 };
    assert_eq!(wall_clock_ns(&sample, 1_500), 1_700_000_000_000_000_500);
    assert_eq!(wall_clock_ns(&sample, 400), 1_699_999_999_999_999_400);
    let e = BPFEvent::parse(&record(1_200, 1_900, 4242, "worker")).unwrap();
    let s = to_span(&sample, &e);
    assert_eq!(s.name, "bpf_event: worker");
    assert_eq!(s.start_wall_ns, 1_700_000_000_000_000_200);
    assert_eq!(s.end_wall_ns, 1_700_000_000_000_000_900);
    let attrs: Vec<(String, u64)> = s.attributes.iter().map(|a| (a.key.clone(), a.value)).collect();
    assert_eq!(
        attrs,
        vec![
            ("pid".to_string(), 4242),
            ("timestamp_start".to_string(), 1_200),
            ("timestamp_end".to_string(), 1_900)
        ]
    );
}

#[test]
fn spans_keep_start_order() {
    let sample = ClockSample { monotonic_ns: 50_000, wall_ns: 9_000_000 };
    let starts = [10u64, 10, 60_000, 70_000, 1_000_000];
    let spans: Vec<i128> = starts
        .iter()
        .map(|t| to_span(&sample, &BPFEvent::parse(&record(*t, *t + 5, 1, "p")).unwrap()).start_wall_ns)
        .collect();
    for w in spans.windows(2) {
        assert!(w[0] <= w[1]);
    }
    assert_eq!(spans[0], 9_000_000 + 10 - 50_000);
}

#[test]
fn span_name_is_built_from_given_text() {
    let sample = ClockSample { monotonic_ns: 10, wall_ns: 20 };
    let e = BPFEvent::parse(&record(30, 40, 5, "ignored")).unwrap();
    let s = span_with_name(&sample, &e, "named");
    assert_eq!(s.name, "bpf_event: named");
    assert_eq!(s.start_wall_ns, 40);
    assert_eq!(s.end_wall_ns, 50);
    assert_eq!(s.attributes.len(), 3);
}
