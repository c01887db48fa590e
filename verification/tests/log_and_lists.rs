use pods::containers::compare_names_ignoring_case;
use pods::containers::{
    compare_names, count_visible, group_description, group_totals, listed, listed_positions, not_running_count,
    not_running_count_short, panel_page, GroupDescription, NameOrder, PanelPage,
};
use pods::log::{
    backward_search_start, bytes_from, decode_frame, on_fetch_event, panel_chunk, FetchEvent, forward_search_start, frame_payload, insertion_text, occurrence_info, on_scroll,
    saved_line, split_timestamp, take_batch, timestamp_markup, FetchState, FollowFilter, LogHistory, ScrollAction, ScrollFollow,
};
use pods::processes::sync_process_rows;
use pods::status::ContainerStatus;

#[test]
fn timestamps_split() {
    assert_eq!(
        split_timestamp("2024-05-01T10:00:00.000000000Z hello there"),
        Some(("2024-05-01T10:00:00.000000000Z".to_string(), "hello there".to_string()))
    );
    assert_eq!(split_timestamp("no-space"), None);
}

#[test]
fn insertion() {
    assert_eq!(insertion_text(true, "first", true), "first");
    assert_eq!(insertion_text(false, "newer", true), "\nnewer");
    assert_eq!(insertion_text(false, "older", false), "older\n");
}

#[test]
fn history_records_and_resumes() {
    let mut history = LogHistory::new();
    assert!(history.resume_point().is_none());
    history.record("t2", true);
    history.record("t3", true);
    history.record("t1", false);
    history.record("t3", true);
    assert_eq!(history.until().map(String::as_str), Some("t2"));
    assert_eq!(history.timestamp_of(0).map(String::as_str), Some("t1"));
    assert_eq!(history.timestamp_of(3).map(String::as_str), Some("t3"));
    assert!(history.timestamp_of(4).is_none());
    assert_eq!(history.resume_point(), Some(("t3".to_string(), 2)));
    history.record("t4", true);
    assert_eq!(history.resume_point(), Some(("t4".to_string(), 1)));
}

#[test]
fn follow_filter_skips_repeats() {
    let mut filter = FollowFilter::new(2);
    assert!(!filter.accept());
    assert!(!filter.accept());
    assert!(filter.accept());
    assert!(filter.accept());
}

#[test]
fn batches() {
    let mut fetched: Vec<Vec<u8>> = (0..200u8).map(|i| vec![i]).collect();
    let batch = take_batch(&mut fetched);
    assert_eq!(batch.len(), 128);
    assert_eq!(batch[0], vec![199]);
    assert_eq!(batch[127], vec![72]);
    assert_eq!(fetched.len(), 72);
    let rest = take_batch(&mut fetched);
    assert_eq!(rest.len(), 72);
    assert_eq!(rest[71], vec![0]);
    assert!(fetched.is_empty());
    assert!(take_batch(&mut fetched).is_empty());
}

#[test]
fn scrolling_up() {
    let until = "t0".to_string();
    assert!(matches!(on_scroll(FetchState::Waiting, false, Some(&until)), ScrollAction::Nothing));
    match on_scroll(FetchState::Waiting, true, Some(&until)) {
        ScrollAction::FetchBefore(t) => assert_eq!(t, "t0"),
        other => panic!("{other:?}"),
    }
    assert!(matches!(on_scroll(FetchState::Waiting, true, None), ScrollAction::Nothing));
    assert!(matches!(on_scroll(FetchState::Fetching, true, Some(&until)), ScrollAction::Nothing));
    assert!(matches!(on_scroll(FetchState::Finished, true, None), ScrollAction::MoveLines));
}

#[test]
fn sticky_scrolling() {
    let mut follow = ScrollFollow { auto_scrolling: false, sticky: false };
    follow.on_adjustment_changed(true);
    assert!(follow.sticky);
    follow.on_adjustment_changed(false);
    assert!(!follow.sticky);
    follow.scroll_down();
    follow.on_adjustment_changed(false);
    assert!(follow.auto_scrolling && !follow.sticky);
    follow.on_adjustment_changed(true);
    assert!(!follow.auto_scrolling && follow.sticky);
}

#[test]
fn search_positions() {
    assert_eq!(backward_search_start(5, Some((3, 8))), 3);
    assert_eq!(backward_search_start(10, Some((3, 8))), 10);
    assert_eq!(backward_search_start(-1, None), i32::MAX);
    assert_eq!(forward_search_start(5, Some((3, 8))), 8);
    assert_eq!(forward_search_start(-3, None), 0);
    assert_eq!(occurrence_info(Some(2), 5), Some((2, 5)));
    assert_eq!(occurrence_info(None, 5), Some((0, 5)));
    assert_eq!(occurrence_info(Some(1), 0), None);
    assert_eq!(timestamp_markup("t"), "<span foreground=\"#865e3c\">t</span>");
}

#[test]
fn frame_payloads() {
    assert_eq!(frame_payload(&vec![1, 0, 0, 0, 0, 0, 0, 3, b'a', b'b', b'c']), Some(b"abc".to_vec()));
    assert_eq!(frame_payload(&vec![1, 0, 0, 0, 0, 0, 0, 0]), None);
}

#[test]
fn group_descriptions() {
    assert_eq!(group_description(0, 0), GroupDescription::NoContainers);
    assert_eq!(group_description(1, 1), GroupDescription::OneRunning);
    assert_eq!(group_description(1, 0), GroupDescription::OneStopped);
    assert_eq!(group_description(4, 2), GroupDescription::Total { len: 4, running: 2 });
    assert_eq!(group_totals(3, 1), Some((3, 1)));
    assert_eq!(group_totals(0, 0), None);
}

#[test]
fn filtering() {
    assert!(listed(false, ContainerStatus::Exited));
    assert!(!listed(true, ContainerStatus::Exited));
    assert!(listed(true, ContainerStatus::Running));
    let statuses = vec![ContainerStatus::Running, ContainerStatus::Exited, ContainerStatus::Running];
    assert_eq!(listed_positions(true, &statuses), vec![0, 2]);
    assert_eq!(listed_positions(false, &statuses), vec![0, 1, 2]);
}

#[test]
fn panel_pages_and_counts() {
    assert_eq!(panel_page(0, false, true), Some(PanelPage::Empty));
    assert_eq!(panel_page(0, true, false), Some(PanelPage::Spinner));
    assert_eq!(panel_page(0, false, false), None);
    assert_eq!(panel_page(3, true, true), Some(PanelPage::Containers));
    assert_eq!(not_running_count(1, 2, 3, 4, 5), 15);
    assert_eq!(not_running_count_short(1, 2, 3), 6);
    assert!(count_visible(1));
    assert!(!count_visible(0));
}

#[test]
fn name_order() {
    assert_eq!(compare_names("alpha", "beta"), NameOrder::Before);
    assert_eq!(compare_names("beta", "alpha"), NameOrder::After);
    assert_eq!(compare_names("web", "web"), NameOrder::Same);
    assert_eq!(compare_names("web", "web-1"), NameOrder::Before);
    assert_eq!(compare_names("Zed", "abc"), NameOrder::Before);
    for (a, b) in [("x", "é"), ("b", "ab"), ("", "a"), ("ü1", "ü0")] {
        let expected = match a.cmp(b) {
            std::cmp::Ordering::Less => NameOrder::Before,
            std::cmp::Ordering::Equal => NameOrder::Same,
            std::cmp::Ordering::Greater => NameOrder::After,
        };
        assert_eq!(compare_names(a, b), expected);
    }
}

fn row(cols: &[&str]) -> Vec<String> {
    cols.iter().map(|c| c.to_string()).collect()
}

#[test]
fn process_table_sync() {
    let mut rows = vec![row(&["root", "1", "sh"]), row(&["root", "7", "sleep"]), row(&["root", "9", "top"])];
    let processes = vec![row(&["root", "9", "top -d1"]), row(&["app", "12", "server"]), row(&["root", "1", "sh"])];
    sync_process_rows(&mut rows, &processes);
    assert_eq!(
        rows,
        vec![row(&["root", "1", "sh"]), row(&["root", "9", "top -d1"]), row(&["app", "12", "server"])]
    );
    sync_process_rows(&mut rows, &Vec::new());
    assert!(rows.is_empty());
}

#[test]
fn name_order_ignoring_case() {
    assert_eq!(compare_names_ignoring_case("Zed", "abc"), NameOrder::After);
    assert_eq!(compare_names_ignoring_case("WEB", "web"), NameOrder::Same);
    assert_eq!(compare_names_ignoring_case("Äpfel", "äpfel-2"), NameOrder::Before);
}

#[test]
fn saving_lines() {
    assert_eq!(saved_line("hello"), Some("hello\n".to_string()));
    assert_eq!(saved_line(""), None);
}

#[test]
fn legacy_frames() {
    let mut perform = pods::markup_tags::MarkupPerform::new();
    let mut frame = vec![1, 0, 0, 0, 0, 0, 0, 9];
    frame.extend_from_slice(b"T1 \x1b[1mhi\x1b[0m");
    assert_eq!(decode_frame(&mut perform, &frame), Some(("T1".to_string(), "<b>hi</b>".to_string())));
    let mut open = vec![1, 0, 0, 0, 0, 0, 0, 9];
    open.extend_from_slice(b"T2 \x1b[1mhi");
    assert_eq!(decode_frame(&mut perform, &open), None);
    assert_eq!(decode_frame(&mut perform, &vec![1, 2, 3]), None);
}

#[test]
fn panel_chunks() {
    let mut perform = pods::markup_tags::MarkupPerform::new();
    let mut chunk = vec![1, 0, 0, 0, 0, 0, 0, 5];
    chunk.extend_from_slice(b"\x1b[1mhi");
    assert_eq!(panel_chunk(&mut perform, &chunk), None);
    let mut rest = vec![1, 0, 0, 0, 0, 0, 0, 5];
    rest.extend_from_slice(b"!\x1b[0m");
    assert_eq!(panel_chunk(&mut perform, &rest), Some("<b>hi!</b>\n".to_string()));
    assert_eq!(panel_chunk(&mut perform, &vec![0; 8]), Some("\n".to_string()));
    assert_eq!(bytes_from(&vec![1, 2, 3], 1), vec![2, 3]);
}

#[test]
fn fetch_states() {
    assert_eq!(on_fetch_event(FetchState::Waiting, FetchEvent::Line), (FetchState::Fetching, false));
    assert_eq!(on_fetch_event(FetchState::Fetching, FetchEvent::Failed), (FetchState::Fetching, false));
    assert_eq!(on_fetch_event(FetchState::Fetching, FetchEvent::Finished), (FetchState::Finished, true));
}

#[test]
fn growing_text_scrolls_when_following() {
    let mut follow = ScrollFollow { auto_scrolling: false, sticky: true };
    assert!(follow.on_upper_changed());
    assert!(follow.auto_scrolling);
    let mut idle = ScrollFollow { auto_scrolling: false, sticky: false };
    assert!(!idle.on_upper_changed());
    assert!(!idle.auto_scrolling);
}
