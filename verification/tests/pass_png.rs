use rstrf::pass_png::{
    build_jobs, job_file_name, PassJob, PassPngAction, PassPngMode, PassPngState, SatelliteLookup,
};
use std::collections::VecDeque;

fn jobs(n: u32) -> VecDeque<PassJob<u32, String>> {
    (0..n).map(|i| PassJob { view: i, path: format!("pass_{i:03}.png") }).collect()
}

#[test]
fn other_window_and_missing_satellite() {
    let mut m: PassPngMode<u32, String> = PassPngMode::new();
    assert!(matches!(m.rfplot_ready(false, SatelliteLookup::Found), PassPngAction::Nothing));
    assert!(matches!(m.state, PassPngState::WaitingForRFPlot));
    assert!(matches!(m.rfplot_ready(true, SatelliteLookup::NoTransmitters), PassPngAction::Exit));
    assert!(matches!(m.rfplot_ready(true, SatelliteLookup::NotFound), PassPngAction::Exit));
    assert!(matches!(m.rfplot_ready(true, SatelliteLookup::Found), PassPngAction::StartPredictions));
    assert!(matches!(m.state, PassPngState::WaitingForPredictions));
}

#[test]
fn each_job_is_shown_then_captured_in_order() {
    let mut m: PassPngMode<u32, String> = PassPngMode::new();
    m.rfplot_ready(true, SatelliteLookup::Found);
    assert!(matches!(m.process_next_pass(jobs(2)), PassPngAction::SetView(0)));
    assert!(m.wants_frames());
    assert!(matches!(m.frame_ready(), PassPngAction::Nothing));
    assert!(matches!(m.frame_ready(), PassPngAction::CaptureScreenshot));
    assert_eq!(m.capture_path().map(|p| p.as_str()), Some("pass_000.png"));
    assert!(!m.wants_frames());
    assert!(matches!(m.frame_ready(), PassPngAction::Nothing));
    assert!(matches!(m.screenshot_saved(), PassPngAction::SetView(1)));
    assert!(matches!(m.frame_ready(), PassPngAction::Nothing));
    assert!(matches!(m.frame_ready(), PassPngAction::CaptureScreenshot));
    assert_eq!(m.capture_path().map(|p| p.as_str()), Some("pass_001.png"));
    assert!(matches!(m.screenshot_saved(), PassPngAction::Exit));
}

#[test]
fn empty_queue_exits() {
    let mut m: PassPngMode<u32, String> = PassPngMode::new();
    assert!(matches!(m.process_next_pass(VecDeque::new()), PassPngAction::Exit));
    assert!(matches!(m.screenshot_saved(), PassPngAction::Nothing));
}

#[test]
fn job_file_names_count_up_from_zero_with_three_digits() {
    assert_eq!(job_file_name("pass", 0), "pass_000.png");
    assert_eq!(job_file_name("pass", 1), "pass_001.png");
    assert_eq!(job_file_name("iss", 42), "iss_042.png");
    assert_eq!(job_file_name("x", 1234), "x_1234.png");
    for i in [0usize, 9, 10, 99, 100, 999, 1000] {
        assert_eq!(job_file_name("p", i), format!("p_{:03}.png", i));
    }
}

#[test]
fn one_screenshot_per_pass_in_pass_order_then_exit() {
    let passes = vec![vec![Some(10u32)], vec![Some(11)], vec![Some(12)]];
    let queue = build_jobs(passes, "out/pass");
    let paths: Vec<&str> = queue.iter().map(|j| j.path.as_str()).collect();
    assert_eq!(paths, vec!["out/pass_000.png", "out/pass_001.png", "out/pass_002.png"]);

    let mut mode: PassPngMode<u32, String> = PassPngMode::new();
    assert!(matches!(mode.rfplot_ready(true, SatelliteLookup::Found), PassPngAction::StartPredictions));
    let mut action = mode.process_next_pass(queue);
    let mut saved = Vec::new();
    let mut views = Vec::new();
    loop {
        match action {
            PassPngAction::SetView(v) => {
                views.push(v);
                assert!(matches!(mode.frame_ready(), PassPngAction::Nothing));
                assert!(matches!(mode.frame_ready(), PassPngAction::CaptureScreenshot));
                saved.push(mode.capture_path().unwrap().clone());
                action = mode.screenshot_saved();
            }
            PassPngAction::Exit => break,
            _ => panic!("unexpected action"),
        }
    }
    assert_eq!(views, vec![10, 11, 12]);
    assert_eq!(saved, vec!["out/pass_000.png", "out/pass_001.png", "out/pass_002.png"]);
}

#[test]
fn one_screenshot_per_pass_around_its_first_transmitter_in_band() {
    // pass 0 has two transmitters in band: one screenshot, of the first; pass 1 has none
    // in band and pass 2 no transmitter: both skipped; pass 3 is shown around its second
    let passes = vec![vec![Some(1u32), None, Some(2)], vec![None], vec![], vec![None, Some(3)]];
    let queue = build_jobs(passes, "p");
    let jobs: Vec<(u32, &str)> = queue.iter().map(|j| (j.view, j.path.as_str())).collect();
    assert_eq!(jobs, vec![(1, "p_000.png"), (3, "p_001.png")]);
    assert!(build_jobs(Vec::<Vec<Option<u32>>>::new(), "p").is_empty());
}
