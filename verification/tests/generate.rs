use fgbgg::generate::{generate, parse_generate_mode, parse_position_choice, GenerateError, GenerateMode, Job, PositionChoice};
use fgbgg::position::ROIPosition;

fn pairs(jobs: &[Job]) -> Vec<(usize, usize)> {
    jobs.iter().map(|j| (j.foreground, j.background)).collect()
}

#[test]
fn modes() {
    assert_eq!(parse_generate_mode("all"), Some(GenerateMode::All));
    assert_eq!(parse_generate_mode("loop"), Some(GenerateMode::Loop));
    assert_eq!(parse_generate_mode("random"), Some(GenerateMode::Random));
    assert_eq!(parse_generate_mode("All"), None);
    assert_eq!(parse_generate_mode(""), None);
}

#[test]
fn position_choices() {
    assert_eq!(parse_position_choice("random".to_string()), Some(PositionChoice::Random));
    assert_eq!(
        parse_position_choice("top-left".to_string()),
        Some(PositionChoice::Fixed(ROIPosition::TopLeft))
    );
    assert_eq!(parse_position_choice("middle".to_string()), None);
}

#[test]
fn unsupported_mode_is_refused() {
    let r = generate("shuffle", "center".to_string(), 3, 2, 2);
    assert_eq!(r, Err(GenerateError::UnsupportedMode));
    let r = generate("shuffle", "nowhere".to_string(), 3, 0, 0);
    assert_eq!(r, Err(GenerateError::UnsupportedMode));
}

#[test]
fn invalid_position_is_refused() {
    assert_eq!(generate("all", "nowhere".to_string(), 3, 2, 2), Err(GenerateError::InvalidPosition));
    assert_eq!(generate("loop", "nowhere".to_string(), 3, 0, 0), Err(GenerateError::InvalidPosition));
    assert_eq!(generate("random", "Left".to_string(), 3, 1, 1), Err(GenerateError::InvalidPosition));
}

#[test]
fn all_mode_pairs_every_foreground_with_every_background() {
    let jobs = generate("all", "center".to_string(), 0, 2, 3).unwrap();
    assert_eq!(pairs(&jobs), vec![(0, 0), (0, 1), (0, 2), (1, 0), (1, 1), (1, 2)]);
    assert!(jobs.iter().all(|j| j.position == ROIPosition::Center));
}

#[test]
fn all_mode_with_empty_lists() {
    assert_eq!(generate("all", "left".to_string(), 5, 0, 3).unwrap(), vec![]);
    assert_eq!(generate("all", "left".to_string(), 5, 3, 0).unwrap(), vec![]);
}

#[test]
fn all_mode_random_positions() {
    let jobs = generate("all", "random".to_string(), 0, 4, 5).unwrap();
    assert_eq!(jobs.len(), 20);
    assert!(jobs.iter().all(|j| j.position != ROIPosition::BottomRight));
}

#[test]
fn loop_mode_walks_both_lists_in_step() {
    let jobs = generate("loop", "bottom".to_string(), 7, 3, 2).unwrap();
    assert_eq!(pairs(&jobs), vec![(0, 0), (1, 1), (2, 0), (0, 1), (1, 0), (2, 1), (0, 0)]);
    assert!(jobs.iter().all(|j| j.position == ROIPosition::Bottom));
}

#[test]
fn loop_mode_with_zero_counter() {
    assert_eq!(generate("loop", "top".to_string(), 0, 0, 0).unwrap(), vec![]);
}

#[test]
fn random_mode_draws_valid_indices() {
    let jobs = generate("random", "random".to_string(), 50, 3, 4).unwrap();
    assert_eq!(jobs.len(), 50);
    for j in jobs.iter() {
        assert!(j.foreground < 3 && j.background < 4);
        assert_ne!(j.position, ROIPosition::BottomRight);
    }
    let fixed = generate("random", "right".to_string(), 10, 1, 1).unwrap();
    assert_eq!(pairs(&fixed), vec![(0, 0); 10]);
    assert!(fixed.iter().all(|j| j.position == ROIPosition::Right));
}

#[test]
fn random_mode_draws_different_pairs() {
    let jobs = generate("random", "center".to_string(), 200, 5, 5).unwrap();
    let first = (jobs[0].foreground, jobs[0].background);
    assert!(jobs.iter().any(|j| (j.foreground, j.background) != first));
}
