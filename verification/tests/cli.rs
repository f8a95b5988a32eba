use evp::recording::CellSnap;
use evp::cli::{cpu_affinity_from_status, output_kind_for_path, LogLevel, OutputError, OutputKind};
use evp::record::{header_dot_shows, header_hovered, layout_header, segment_event, HeaderStyle, MouseSegmentTracker};
use evp::rng::SimpleRng;
use evp::xtask::{bin_path_candidates, evp_bin_path, evp_helper_tool_bin_path, project_root, target_dir};
use evp::runner::compute_next_deadline;
use evp::script::{parse_duration, Easing, Event, ModSet};

#[test]
fn output_paths_pick_their_renderer() {
    assert_eq!(output_kind_for_path("out/demo.SVG"), Ok(OutputKind::Svg));
    assert_eq!(output_kind_for_path("a.svgz"), Ok(OutputKind::Svg));
    assert_eq!(output_kind_for_path("x.Json"), Ok(OutputKind::Json));
    assert_eq!(output_kind_for_path("x.gif"), Ok(OutputKind::Gif));
    assert_eq!(output_kind_for_path("noext"), Ok(OutputKind::Gif));
    assert_eq!(output_kind_for_path(".json"), Ok(OutputKind::Gif));
    assert_eq!(output_kind_for_path("r.stats"), Err(OutputError::StatsFromRecording));
    assert!(OutputError::StatsFromRecording.message().contains("`.stats` can only be generated"));
}

#[test]
fn cpu_affinity_line_is_found() {
    let status = "Name:\tevp\nCpus_allowed:\tff\nCpus_allowed_list:\t0-3 \nVoluntary:\t1\n";
    assert_eq!(cpu_affinity_from_status(status), Some("0-3".to_string()));
    assert_eq!(cpu_affinity_from_status("Name:\tevp\n"), None);
}

#[test]
fn log_level_names() {
    assert_eq!(LogLevel::Error.as_str(), "error");
    assert_eq!(LogLevel::Warn.as_str(), "warn");
    assert_eq!(LogLevel::Trace.as_str(), "trace");
}

#[test]
fn xorshift_generator() {
    let mut r = SimpleRng::new(0);
    assert_eq!(r.state, 0xEEA);
    assert_eq!(r.next_u64(), 4114196001911);
    assert_eq!(r.state, 4114196001911);
    let mut r = SimpleRng::new(0xEEA);
    assert_eq!(r.gen_range(10, 19), 11);
    let mut r = SimpleRng::new(7);
    for _ in 0..100 {
        let v = r.gen_range(3, 5);
        assert!((3..=5).contains(&v));
    }
}

#[test]
fn header_wraps_at_the_area_width() {
    let h = layout_header(0, 0, 40, 10, 5, true, None, "demo.gif", "0B");
    assert_eq!(h.height, 3);
    assert_eq!(h.cells.len(), 94);
    assert_eq!(h.cells[0], (0, 0, '\u{25cf}', HeaderStyle::Dot));
    assert_eq!(h.click_cells.len(), 10);
    assert_eq!(h.click_cells[0], (3, 2));
    assert_eq!(h.click_cells[9], (12, 2));
    assert!(header_hovered(&h.click_cells, (5, 2)));
    assert!(!header_hovered(&h.click_cells, (5, 1)));
    let clipped = layout_header(0, 0, 40, 2, 5, false, None, "demo.gif", "0B");
    assert_eq!(clipped.cells.len(), 80);
    assert_eq!(clipped.cells[0].2, ' ');
    let none = layout_header(0, 0, 0, 2, 5, false, None, "demo.gif", "0B");
    assert_eq!(none.height, 0);
    let text: String = layout_header(0, 0, 200, 1, 61, true, Some("Click 1 2"), "d.svg", "1.50kB").cells.iter().map(|c| c.2).collect();
    assert_eq!(
        text,
        "\u{25cf} EVP recording active (61s) [d.svg: 1.50kB]. To stop recording, exit the program or click here. Click 1 2"
    );
}

#[test]
fn header_dot_blinks_each_second() {
    assert!(header_dot_shows(0));
    assert!(header_dot_shows(1499 - 1000));
    assert!(!header_dot_shows(500));
    assert!(!header_dot_shows(1999));
    assert!(header_dot_shows(2000));
}

#[test]
fn mouse_segments_split_on_pauses() {
    let mut t = MouseSegmentTracker::new(false, ModSet::none(), false, 8, 16);
    assert_eq!(t.add_point(1, 1, 0), None);
    assert_eq!(t.add_point(1, 1, 100_000_000), None);
    assert_eq!(t.points, vec![(1, 1, 100_000_000)]);
    assert_eq!(t.add_point(2, 1, 200_000_000), None);
    let done = t.add_point(3, 1, 900_000_000).unwrap();
    assert_eq!(done, vec![(1, 1, 100_000_000), (2, 1, 200_000_000)]);
    assert_eq!(t.points, vec![(3, 1, 900_000_000)]);
    assert_eq!(t.flush(), vec![(3, 1, 900_000_000)]);
    assert!(t.points.is_empty());
}

#[test]
fn segments_become_moves_or_drags() {
    let pts = vec![(16, 32, 0), (24, 32, 10_000_000), (40, 48, 20_000_000)];
    let simplified = vec![(16, 32, 0), (40, 48, 20_000_000)];
    match segment_event(&pts, &simplified, true, ModSet::none(), true, 8, 16, Easing::Linear) {
        Some(Event::MouseDrag { start_col, start_row, end_col, end_row, delay, easing, .. }) => {
            assert_eq!((start_col, start_row, end_col, end_row), (2, 2, 5, 3));
            assert_eq!(delay, 50_000_000);
            assert_eq!(easing, Some(Easing::Linear));
        },
        _ => panic!("expected a drag"),
    }
    let slow = vec![(1, 1, 0), (9, 9, 2_000_000_000)];
    match segment_event(&slow, &slow, false, ModSet::none(), false, 8, 16, Easing::Linear) {
        Some(Event::MouseMove { end_col, delay, .. }) => {
            assert_eq!(end_col, 9);
            assert_eq!(delay, 2_000_000_000);
        },
        _ => panic!("expected a move"),
    }
    assert!(segment_event(&pts[..1].to_vec(), &simplified, false, ModSet::none(), false, 8, 16, Easing::Linear).is_none());
}

#[test]
fn runner_wakes_at_the_earliest_deadline() {
    assert_eq!(compute_next_deadline(0, None, None, 40, 1_000), 40);
    assert_eq!(compute_next_deadline(0, None, Some(10), 40, 1_000), 10);
    assert_eq!(compute_next_deadline(0, Some(30), Some(10), 40, 1_000), 30);
    assert_eq!(compute_next_deadline(50, None, Some(10), 40, 1_000), 50);
    assert_eq!(compute_next_deadline(0, None, None, 5_000_000, 1_000), 1_001_000);
}

#[test]
fn written_milliseconds_read_back() {
    for ms in [0u64, 7, 50, 1234, 86_400_000] {
        assert_eq!(parse_duration(&format!("{ms}ms")).ok(), Some(ms * 1_000_000));
    }
}

#[test]
fn preview_skips_the_right_half_of_wide_characters() {
    let mut cells = Vec::new();
    for t in ["a", "\u{4e2d}", "", "b", "c", "d"] {
        let mut c = CellSnap::blank([1, 1, 1], [0, 0, 0]);
        c.text = t.to_string();
        cells.push(c);
    }
    assert_eq!(evp::record::preview_row_cells(&cells, 4, 0), vec![0, 1, 3]);
    assert_eq!(evp::record::preview_row_cells(&cells, 4, 1), vec![4, 5]);
    assert_eq!(evp::record::preview_row_cells(&cells, 4, 2), Vec::<usize>::new());
    assert_eq!(evp::record::preview_cursor(Some((2, 1)), 4, 2, 3), Some((2, 5)));
    assert_eq!(evp::record::preview_cursor(Some((4, 1)), 4, 2, 3), None);
    assert_eq!(evp::record::preview_cursor(None, 4, 2, 3), None);
}

#[test]
fn project_paths_follow_the_manifest_directory() {
    assert_eq!(project_root("/work/evp/xtask"), Some("/work/evp".to_string()));
    assert_eq!(project_root("/"), None);
    assert_eq!(target_dir("/work/evp"), "/work/evp/target");
    let (musl, default) = bin_path_candidates("/work/evp", "evp");
    assert_eq!(musl, "/work/evp/target/x86_64-unknown-linux-musl/release/evp");
    assert_eq!(default, "/work/evp/target/release/evp");
}

#[test]
fn release_binary_prefers_the_static_build() {
    let musl = "/r/target/x86_64-unknown-linux-musl/release/evp";
    assert_eq!(evp_bin_path("/r", true, true), musl);
    assert_eq!(evp_bin_path("/r", true, false), musl);
    assert_eq!(evp_bin_path("/r", false, true), "/r/target/release/evp");
    assert_eq!(evp_bin_path("/r", false, false), musl);
    assert_eq!(evp_helper_tool_bin_path("/r", false, true), "/r/target/release/evp_helper_tool");
    assert_eq!(
        evp_helper_tool_bin_path("/r", false, false),
        "/r/target/x86_64-unknown-linux-musl/release/evp_helper_tool"
    );
}

fn reference_stress_screen(state: &mut u64, rows: usize, cols: usize) -> String {
    let mut next = |lo: u32, hi: u32| -> u32 {
        let mut x = *state;
        x ^= x << 13;
        x ^= x >> 7;
        x ^= x << 17;
        *state = x;
        lo + (x % ((hi - lo + 1) as u64)) as u32
    };
    let mut buffer = String::from("\x1b[0m\x1b[?25l\x1b[H");
    for r in 1..=rows {
        buffer.push_str(&format!("\x1b[{r};1H"));
        for _ in 0..cols {
            let ch = char::from_u32(next(0x21, 0x7E)).unwrap();
            let c: Vec<u32> = (0..6).map(|_| next(0, 255)).collect();
            let mut sgr = String::from("\x1b[0");
            for p in [";1", ";3", ";4", ";7"] {
                if next(0, 1) == 1 {
                    sgr.push_str(p);
                }
            }
            sgr.push_str(&format!(";38;2;{};{};{};48;2;{};{};{}m", c[0], c[1], c[2], c[3], c[4], c[5]));
            buffer.push_str(&sgr);
            buffer.push(ch);
        }
    }
    buffer.push_str("\x1b[0m");
    buffer
}

#[test]
fn stress_screen_matches_the_drawing_order() {
    let mut rng = SimpleRng::new(0xEEA);
    let mut state = 0xEEAu64;
    let screen = rng.stress_screen(3, 4);
    assert_eq!(screen, reference_stress_screen(&mut state, 3, 4));
    assert_eq!(rng.state, state);
    let again = rng.stress_screen(2, 2);
    assert_eq!(again, reference_stress_screen(&mut state, 2, 2));
    assert!(screen.starts_with("\x1b[0m\x1b[?25l\x1b[H\x1b[1;1H\x1b[0"));
    assert!(screen.ends_with("\x1b[0m"));
}

#[test]
fn empty_stress_screen_only_resets() {
    let mut rng = SimpleRng::new(7);
    assert_eq!(rng.stress_screen(0, 5), "\x1b[0m\x1b[?25l\x1b[H\x1b[0m");
    assert_eq!(rng.state, 7);
    assert_eq!(rng.stress_screen(2, 0), "\x1b[0m\x1b[?25l\x1b[H\x1b[1;1H\x1b[2;1H\x1b[0m");
}
