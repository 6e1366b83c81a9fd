use netwatch::addr::flow_key;
use netwatch::framer::StreamFramer;
use netwatch::record::PacketUpdate;
use netwatch::state::AppState;
use netwatch::Ipv4Bytes;
use netwatch::Protocol;

fn mk_frame(src: [u8; 4], dst: [u8; 4], declared: u16, dport: Option<u16>, pad_to: usize) -> Vec<u8> {
    let mut f = vec![0u8; pad_to];
    f[0] = 0x45;
    f[2] = (declared >> 8) as u8;
    f[3] = (declared & 0xff) as u8;
    f[12..16].copy_from_slice(&src);
    f[16..20].copy_from_slice(&dst);
    if let Some(p) = dport {
        if pad_to >= 24 {
            f[22] = (p >> 8) as u8;
            f[23] = (p & 0xff) as u8;
        }
    }
    f
}

fn well_formed(src: [u8; 4], dst: [u8; 4], len: u16, dport: Option<u16>) -> Vec<u8> {
    mk_frame(src, dst, len, dport, len as usize)
}

#[test]
fn single_https_frame_yields_one_record() {
    // A 40-byte frame, destination port 443.
    let frame = well_formed([192, 168, 1, 5], [8, 8, 8, 8], 40, Some(443));
    let mut framer = StreamFramer::new(8192);
    let out: Vec<PacketUpdate> = framer.ingest(&frame);
    assert_eq!(out.len(), 1);
    let r = &out[0];
    assert_eq!(r.source, Ipv4Bytes { a: 192, b: 168, c: 1, d: 5 });
    assert_eq!(r.destination, Ipv4Bytes { a: 8, b: 8, c: 8, d: 8 });
    assert_eq!(r.protocol_tag, Some(Protocol::Https));
    assert_eq!(r.raw_data, frame);
    assert_eq!(r.summary_text(), "192.168.1.5 \u{2794} 8.8.8.8 [HTTPS]");
    assert_eq!(
        r.summary,
        "192.168.1.5 \u{2794} 8.8.8.8 [HTTPS]".as_bytes().to_vec()
    );
}

#[test]
fn single_frame_event_counts_once_in_conversations() {
    let frame = well_formed([192, 168, 1, 5], [8, 8, 8, 8], 40, Some(443));
    let mut framer = StreamFramer::new(8192);
    let out = framer.ingest(&frame);
    let mut state = AppState::new(50, 100);
    let mut last = 0;
    for r in out {
        last = state.apply_record(r);
    }
    assert_eq!(last, 1);
    let k = flow_key(
        Ipv4Bytes { a: 192, b: 168, c: 1, d: 5 },
        Ipv4Bytes { a: 8, b: 8, c: 8, d: 8 },
    );
    let list = state.conversations.list();
    assert_eq!(list.len(), 1);
    assert_eq!(list[0].key, k);
    assert_eq!(list[0].count, 1);
}

#[test]
fn frames_between_noise_come_out_in_order() {
    let f1 = well_formed([10, 0, 0, 1], [10, 0, 0, 2], 28, Some(53));
    let f2 = well_formed([10, 0, 0, 3], [10, 0, 0, 4], 32, Some(22));
    let mut stream = vec![0x00u8, 0x13, 0x37];
    stream.extend_from_slice(&f1);
    stream.extend_from_slice(&[0xff, 0x01, 0x02, 0x03]);
    stream.extend_from_slice(&f2);
    stream.extend_from_slice(&[0x21, 0x22]);
    let mut framer = StreamFramer::new(8192);
    let out = framer.ingest(&stream);
    assert_eq!(out.len(), 2);
    assert_eq!(out[0].raw_data, f1);
    assert_eq!(out[0].protocol_tag, Some(Protocol::Dns));
    assert_eq!(out[1].raw_data, f2);
    assert_eq!(out[1].protocol_tag, Some(Protocol::Ssh));
}

#[test]
fn chunking_does_not_change_what_is_emitted() {
    let f1 = well_formed([10, 0, 0, 1], [10, 0, 0, 2], 28, Some(80));
    let f2 = well_formed([172, 16, 5, 9], [93, 184, 216, 34], 45, Some(443));
    let f3 = well_formed([10, 0, 0, 1], [10, 0, 0, 2], 20, None);
    let mut stream = Vec::new();
    stream.extend_from_slice(&[0x11, 0x00]);
    stream.extend_from_slice(&f1);
    stream.extend_from_slice(&f2);
    stream.extend_from_slice(&[0x99]);
    stream.extend_from_slice(&f3);

    let mut whole = StreamFramer::new(8192);
    let all_at_once = whole.ingest(&stream);

    let mut byte_fed = StreamFramer::new(8192);
    let mut one_by_one: Vec<PacketUpdate> = Vec::new();
    for b in &stream {
        one_by_one.extend(byte_fed.ingest(&[*b]));
    }

    assert_eq!(all_at_once.len(), 3);
    assert_eq!(all_at_once.len(), one_by_one.len());
    for (a, b) in all_at_once.iter().zip(one_by_one.iter()) {
        assert_eq!(a.raw_data, b.raw_data);
        assert_eq!(a.summary, b.summary);
        assert_eq!(a.source, b.source);
        assert_eq!(a.destination, b.destination);
        assert_eq!(a.protocol_tag, b.protocol_tag);
    }
}

#[test]
fn invalid_length_candidate_is_slid_past() {
    // A lone 0x45 whose declared length is structurally invalid (< 20),
    // followed by a real frame.
    let real = well_formed([10, 0, 0, 1], [10, 0, 0, 2], 24, None);
    let mut stream = mk_frame([1, 2, 3, 4], [5, 6, 7, 8], 5, None, 20);
    stream.extend_from_slice(&real);
    let mut framer = StreamFramer::new(8192);
    let out = framer.ingest(&stream);
    assert_eq!(out.len(), 1);
    assert_eq!(out[0].raw_data, real);
}

#[test]
fn incomplete_frame_waits_for_more_input() {
    let frame = well_formed([10, 0, 0, 1], [10, 0, 0, 2], 60, Some(443));
    let mut framer = StreamFramer::new(8192);
    let first = framer.ingest(&frame[..30]);
    assert_eq!(first.len(), 0);
    let second = framer.ingest(&frame[30..]);
    assert_eq!(second.len(), 1);
    assert_eq!(second[0].raw_data, frame);
}

#[test]
fn unspecified_and_broadcast_endpoints_are_filtered() {
    let from_zero = well_formed([0, 0, 0, 0], [10, 0, 0, 2], 24, None);
    let to_zero = well_formed([10, 0, 0, 2], [0, 0, 0, 0], 24, None);
    let from_bcast = well_formed([255, 255, 255, 255], [10, 0, 0, 2], 24, None);
    let to_bcast = well_formed([10, 0, 0, 2], [255, 255, 255, 255], 24, None);
    let good = well_formed([10, 0, 0, 2], [10, 0, 0, 3], 24, None);
    let mut stream = Vec::new();
    for f in [&from_zero, &to_zero, &from_bcast, &to_bcast, &good] {
        stream.extend_from_slice(f);
    }
    let mut framer = StreamFramer::new(8192);
    let out = framer.ingest(&stream);
    assert_eq!(out.len(), 1);
    assert_eq!(out[0].raw_data, good);
}

#[test]
fn buffer_never_exceeds_its_ceiling() {
    let mut framer = StreamFramer::new(64);
    // Noise that can never frame, far larger than the ceiling.
    let noise = vec![0x45u8; 300];
    framer.ingest(&noise);
    assert!(framer.buffered_len() <= 64);
    let more = vec![0x00u8; 500];
    framer.ingest(&more);
    assert!(framer.buffered_len() <= 64);
}

#[test]
fn eviction_drops_a_stuck_candidate_and_resyncs() {
    let mut framer = StreamFramer::new(64);
    // A candidate that declares far more bytes than the ceiling can ever
    // hold: extraction waits at it.
    let stuck = mk_frame([10, 0, 0, 1], [10, 0, 0, 2], 500, None, 40);
    assert_eq!(framer.ingest(&stuck).len(), 0);
    assert_eq!(framer.buffered_len(), 40);
    let good = well_formed([10, 0, 0, 3], [10, 0, 0, 4], 24, None);
    // Still waiting: the stuck candidate is not advanced past.
    assert_eq!(framer.ingest(&good).len(), 0);
    assert_eq!(framer.buffered_len(), 64);
    // More input passes the ceiling; eviction discards the stuck head and
    // resynchronization recovers the complete frame behind it.
    let out = framer.ingest(&vec![0u8; 40]);
    assert_eq!(out.len(), 1);
    assert_eq!(out[0].raw_data, good);
    assert_eq!(framer.buffered_len(), 0);
}

#[test]
fn port_lookup_covers_the_four_labels() {
    for (port, tag) in [
        (443u16, Some(Protocol::Https)),
        (53, Some(Protocol::Dns)),
        (22, Some(Protocol::Ssh)),
        (80, Some(Protocol::Http)),
        (8080, None),
    ] {
        let frame = well_formed([10, 0, 0, 1], [10, 0, 0, 2], 24, Some(port));
        let mut framer = StreamFramer::new(8192);
        let out = framer.ingest(&frame);
        assert_eq!(out.len(), 1);
        assert_eq!(out[0].protocol_tag, tag);
    }
}

#[test]
fn short_frame_without_port_bytes_has_no_tag() {
    let frame = well_formed([10, 0, 0, 1], [10, 0, 0, 2], 20, None);
    let mut framer = StreamFramer::new(8192);
    let out = framer.ingest(&frame);
    assert_eq!(out.len(), 1);
    assert_eq!(out[0].protocol_tag, None);
    assert_eq!(out[0].summary_text(), "10.0.0.1 \u{2794} 10.0.0.2");
}
