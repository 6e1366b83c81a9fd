use netwatch::activity::ActivitySeries;
use netwatch::addr::{flow_key, flow_key_label};
use netwatch::format_hex;
use netwatch::history::HistoryBuffer;
use netwatch::record::make_record;
use netwatch::state::{AppState, Command};
use netwatch::stats::ConversationStats;
use netwatch::Ipv4Bytes;

fn addr(a: u8, b: u8, c: u8, d: u8) -> Ipv4Bytes {
    Ipv4Bytes { a, b, c, d }
}

fn frame_with(src: Ipv4Bytes, dst: Ipv4Bytes, marker: u8) -> Vec<u8> {
    let mut f = vec![0u8; 24];
    f[0] = 0x45;
    f[3] = 24;
    f[12] = src.a;
    f[13] = src.b;
    f[14] = src.c;
    f[15] = src.d;
    f[16] = dst.a;
    f[17] = dst.b;
    f[18] = dst.c;
    f[19] = dst.d;
    f[21] = marker;
    f
}

fn record_for(src: Ipv4Bytes, dst: Ipv4Bytes, marker: u8) -> netwatch::PacketUpdate {
    make_record(frame_with(src, dst, marker))
}

#[test]
fn history_keeps_exactly_the_last_k() {
    let mut h = HistoryBuffer::new(3);
    for m in 0u8..4 {
        h.push(record_for(addr(10, 0, 0, 1), addr(10, 0, 0, 2), m));
        assert!(h.len() <= 3);
    }
    assert_eq!(h.len(), 3);
    // After K + 1 pushes the oldest record is gone, arrival order kept.
    assert_eq!(h.get(0).raw_data[21], 1);
    assert_eq!(h.get(1).raw_data[21], 2);
    assert_eq!(h.get(2).raw_data[21], 3);
}

#[test]
fn activity_window_holds_exact_recent_counts() {
    let mut a = ActivitySeries::new(3);
    for c in [5u64, 0, 7, 9] {
        a.tick(c);
        assert!(a.len() <= 3);
    }
    assert_eq!(a.values(), vec![0, 7, 9]);
}

#[test]
fn activity_buckets_count_records_between_ticks() {
    let mut state = AppState::new(10, 4);
    state.apply_record(record_for(addr(10, 0, 0, 1), addr(10, 0, 0, 2), 0));
    state.apply_record(record_for(addr(10, 0, 0, 1), addr(10, 0, 0, 2), 1));
    state.on_tick();
    state.apply_record(record_for(addr(10, 0, 0, 1), addr(10, 0, 0, 2), 2));
    state.on_tick();
    state.on_tick();
    assert_eq!(state.activity.values(), vec![2, 1, 0]);
}

#[test]
fn conversation_counts_accumulate_per_key() {
    let mut s = ConversationStats::new();
    let k1 = flow_key(addr(10, 0, 0, 1), addr(10, 0, 0, 2));
    let k2 = flow_key(addr(10, 0, 0, 3), addr(10, 0, 0, 4));
    assert_eq!(s.record(k1), 1);
    assert_eq!(s.record(k2), 1);
    assert_eq!(s.record(k1), 2);
    assert_eq!(s.record(k1), 3);
    let list = s.list();
    assert_eq!(list.len(), 2);
    for c in list {
        if c.key == k1 {
            assert_eq!(c.count, 3);
        } else {
            assert_eq!(c.key, k2);
            assert_eq!(c.count, 1);
        }
    }
}

#[test]
fn both_directions_fall_on_one_conversation() {
    let a = addr(192, 168, 1, 5);
    let b = addr(8, 8, 8, 8);
    assert_eq!(flow_key(a, b), flow_key(b, a));
    let mut s = ConversationStats::new();
    s.record(flow_key(a, b));
    assert_eq!(s.record(flow_key(b, a)), 2);
    assert_eq!(s.len(), 1);
}

#[test]
fn listing_is_sorted_by_textual_form() {
    let mut s = ConversationStats::new();
    let k9 = flow_key(addr(9, 0, 0, 1), addr(9, 0, 0, 2));
    let k10 = flow_key(addr(10, 0, 0, 1), addr(10, 0, 0, 2));
    let k2 = flow_key(addr(2, 0, 0, 1), addr(2, 0, 0, 2));
    s.record(k9);
    s.record(k10);
    s.record(k2);
    let list = s.list();
    // Lexicographic on the text: "10..." sorts before "2...", "2..." before "9...".
    assert_eq!(list[0].key, k10);
    assert_eq!(list[1].key, k2);
    assert_eq!(list[2].key, k9);
    assert_eq!(flow_key_label(k10), "10.0.0.1 <-> 10.0.0.2");
}

#[test]
fn selection_survives_unrelated_new_flows() {
    let mut state = AppState::new(10, 10);
    let k = flow_key(addr(50, 0, 0, 1), addr(50, 0, 0, 2));
    state.apply_record(record_for(addr(50, 0, 0, 1), addr(50, 0, 0, 2), 0));
    state.handle_command(Command::MoveDown);
    assert_eq!(state.selected_flow, Some(k));
    let vis = state.visible_conversations();
    let pos_before = netwatch::state::resolve_position(&vis, k);
    assert_eq!(pos_before, Some(0));
    // New, unrelated conversations appear, some sorting before the key.
    state.apply_record(record_for(addr(10, 0, 0, 1), addr(10, 0, 0, 2), 1));
    state.apply_record(record_for(addr(99, 0, 0, 1), addr(99, 0, 0, 2), 2));
    assert_eq!(state.selected_flow, Some(k));
    let vis2 = state.visible_conversations();
    let pos_after = netwatch::state::resolve_position(&vis2, k);
    assert_eq!(pos_after, Some(1));
}

#[test]
fn navigation_wraps_at_both_ends() {
    let mut state = AppState::new(10, 10);
    state.apply_record(record_for(addr(10, 0, 0, 1), addr(10, 0, 0, 2), 0));
    state.apply_record(record_for(addr(20, 0, 0, 1), addr(20, 0, 0, 2), 1));
    state.apply_record(record_for(addr(30, 0, 0, 1), addr(30, 0, 0, 2), 2));
    let vis = state.visible_conversations();
    assert_eq!(vis.len(), 3);
    state.handle_command(Command::MoveDown);
    assert_eq!(state.selected_flow, Some(vis[0].key));
    state.handle_command(Command::MoveUp);
    assert_eq!(state.selected_flow, Some(vis[2].key));
    state.handle_command(Command::MoveDown);
    assert_eq!(state.selected_flow, Some(vis[0].key));
    state.handle_command(Command::MoveUp);
    assert_eq!(state.selected_flow, Some(vis[2].key));
}

#[test]
fn search_filters_case_insensitively_and_cancel_resets() {
    let mut state = AppState::new(10, 10);
    state.apply_record(record_for(addr(10, 0, 0, 1), addr(10, 0, 0, 2), 0));
    state.apply_record(record_for(addr(20, 0, 0, 1), addr(20, 0, 0, 2), 1));
    assert_eq!(state.visible_conversations().len(), 2);
    state.handle_command(Command::ToggleSearch);
    assert!(state.searching);
    state.handle_command(Command::AppendChar(b'2'));
    state.handle_command(Command::AppendChar(b'0'));
    assert_eq!(state.visible_conversations().len(), 1);
    state.handle_command(Command::Confirm);
    assert!(!state.searching);
    // The query stays active after confirming.
    assert_eq!(state.query, b"20".to_vec());
    assert_eq!(state.visible_conversations().len(), 1);
    state.handle_command(Command::ToggleSearch);
    state.handle_command(Command::AppendChar(b'x'));
    state.handle_command(Command::Backspace);
    assert_eq!(state.query, b"".to_vec());
    state.handle_command(Command::Cancel);
    assert!(!state.searching);
    assert_eq!(state.selected_flow, None);
    assert_eq!(state.visible_conversations().len(), 2);
}

#[test]
fn query_accepts_bytes_beyond_ascii() {
    let mut state = AppState::new(10, 10);
    state.apply_record(record_for(addr(10, 0, 0, 1), addr(10, 0, 0, 2), 0));
    state.handle_command(Command::ToggleSearch);
    // The arrow separator's UTF-8 bytes, appended one by one as the
    // front end does for a typed character.
    for b in "\u{2794}".as_bytes() {
        state.handle_command(Command::AppendChar(*b));
    }
    assert_eq!(state.query, "\u{2794}".as_bytes().to_vec());
    // Every record's summary holds the arrow, so the filter keeps it.
    assert_eq!(state.history.filter_by_search(&state.query.clone()), vec![0]);
}

#[test]
fn clear_all_resets_the_aggregation_unit() {
    let mut state = AppState::new(10, 10);
    state.apply_record(record_for(addr(10, 0, 0, 1), addr(10, 0, 0, 2), 0));
    state.handle_command(Command::MoveDown);
    assert!(state.selected_flow.is_some());
    state.handle_command(Command::ClearAll);
    assert_eq!(state.conversations.len(), 0);
    assert_eq!(state.history.len(), 0);
    assert_eq!(state.selected_flow, None);
}

#[test]
fn quit_is_only_honoured_while_browsing() {
    let mut state = AppState::new(10, 10);
    assert!(state.handle_command(Command::Quit));
    state.handle_command(Command::ToggleSearch);
    assert!(!state.handle_command(Command::Quit));
}

#[test]
fn inspector_targets_the_latest_record_of_the_selected_flow() {
    let mut state = AppState::new(10, 10);
    let k = flow_key(addr(10, 0, 0, 1), addr(10, 0, 0, 2));
    state.apply_record(record_for(addr(10, 0, 0, 1), addr(10, 0, 0, 2), 0));
    state.apply_record(record_for(addr(20, 0, 0, 1), addr(20, 0, 0, 2), 1));
    state.apply_record(record_for(addr(10, 0, 0, 1), addr(10, 0, 0, 2), 2));
    assert_eq!(state.inspect_target(), None);
    state.selected_flow = Some(k);
    let idx = state.inspect_target().unwrap();
    assert_eq!(idx, 2);
    assert_eq!(state.history.get(idx).raw_data[21], 2);
}

#[test]
fn feed_prefers_selection_over_search() {
    let mut state = AppState::new(10, 10);
    let k = flow_key(addr(10, 0, 0, 1), addr(10, 0, 0, 2));
    state.apply_record(record_for(addr(10, 0, 0, 1), addr(10, 0, 0, 2), 0));
    state.apply_record(record_for(addr(20, 0, 0, 1), addr(20, 0, 0, 2), 1));
    let by_flow = state.history.filter_by_flow(k);
    assert_eq!(by_flow, vec![0]);
    let by_search = state.history.filter_by_search(&b"20.0".to_vec());
    assert_eq!(by_search, vec![1]);
    let by_search_upper = state.history.filter_by_search(&"20.0.0.1 \u{2794}".as_bytes().to_vec());
    assert_eq!(by_search_upper, vec![1]);
}

#[test]
fn search_matching_is_case_insensitive_on_summaries() {
    let mut h = HistoryBuffer::new(4);
    // A tagged frame gives the summary upper-case letters.
    let mut f = frame_with(addr(10, 0, 0, 1), addr(10, 0, 0, 2), 0);
    f[22] = 1;
    f[23] = 187;  // port 443
    let r = make_record(f);
    assert_eq!(r.summary_text(), "10.0.0.1 \u{2794} 10.0.0.2 [HTTPS]");
    h.push(r);
    assert_eq!(h.filter_by_search(&b"https".to_vec()), vec![0]);
    assert_eq!(h.filter_by_search(&b"HtTpS".to_vec()), vec![0]);
    assert_eq!(h.filter_by_search(&b"ssh".to_vec()), Vec::<usize>::new());
}

#[test]
fn format_hex_pads_a_short_second_row() {
    // 18 bytes: a full row of printable bytes, then two bytes, one of
    // them non-printable.
    let mut data = Vec::new();
    for b in 0x41u8..0x51u8 {
        data.push(b);
    }
    data.push(0x00);
    data.push(0x5a);
    let text = format_hex(&data);
    let rows: Vec<&str> = text.split('\n').collect();
    assert_eq!(rows.len(), 3);
    assert_eq!(rows[2], "");
    assert_eq!(
        rows[0],
        "41 42 43 44 45 46 47 48 49 4a 4b 4c 4d 4e 4f 50  | ABCDEFGHIJKLMNOP"
    );
    let mut expected = String::from("00 5a ");
    for _ in 0..14 {
        expected.push_str("   ");
    }
    expected.push_str(" | .Z");
    assert_eq!(rows[1], expected);
}

#[test]
fn format_hex_of_nothing_is_empty() {
    assert_eq!(format_hex(&Vec::new()), "");
}
