use fgbgg::position::ROIPosition;
use fgbgg::statistic::{match_sources, reported_sources, statistic_base, SourceMatch, StatisticBase};

#[test]
fn bases() {
    assert_eq!(statistic_base("background"), StatisticBase::Background);
    assert_eq!(statistic_base("foreground"), StatisticBase::Foreground);
    assert_eq!(statistic_base("position"), StatisticBase::Position);
    assert_eq!(statistic_base("default"), StatisticBase::Default);
    assert_eq!(statistic_base("Default"), StatisticBase::Unsupported);
    assert_eq!(statistic_base(""), StatisticBase::Unsupported);
}

#[test]
fn sources_meet_last_target_with_their_key() {
    let targets = vec![
        Some((1, 2, ROIPosition::Center)),
        None,
        Some((3, 4, ROIPosition::Left)),
        Some((1, 2, ROIPosition::Center)),
    ];
    let sources = vec![
        Some((1, 2, ROIPosition::Center)),
        Some((3, 4, ROIPosition::Right)),
        None,
        Some((3, 4, ROIPosition::Left)),
    ];
    let m = match_sources(&targets, &sources);
    assert_eq!(
        m,
        vec![SourceMatch::Target(3), SourceMatch::NoTarget, SourceMatch::NoKey, SourceMatch::Target(2)]
    );
}

#[test]
fn later_results_replace_earlier_ones() {
    let targets = vec![Some((1, 1, ROIPosition::Top)), Some((2, 2, ROIPosition::Top))];
    let sources = vec![
        Some((1, 1, ROIPosition::Top)),
        Some((2, 2, ROIPosition::Top)),
        Some((1, 1, ROIPosition::Top)),
        Some((9, 9, ROIPosition::Top)),
    ];
    let m = match_sources(&targets, &sources);
    assert_eq!(reported_sources(&sources, &m), vec![1, 2]);
}

#[test]
fn nothing_reported_without_targets() {
    let sources = vec![Some((1, 1, ROIPosition::Top)), None];
    let m = match_sources(&vec![], &sources);
    assert_eq!(m, vec![SourceMatch::NoTarget, SourceMatch::NoKey]);
    assert_eq!(reported_sources(&sources, &m), Vec::<usize>::new());
}
