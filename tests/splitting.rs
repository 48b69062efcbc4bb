use timsrust::splitting::{can_subsplit, scan_range_subsplit};
use timsrust::{FrameWindowSplittingStrategy, QuadWindowExpansionStrategy};

#[test]
fn unsplit_returns_the_range() {
    let r = scan_range_subsplit(10, 20, &QuadWindowExpansionStrategy::Unsplit);
    assert_eq!(r, vec![(10, 20)]);
    let r = scan_range_subsplit(7, 3, &QuadWindowExpansionStrategy::Unsplit);
    assert_eq!(r, vec![(7, 3)]);
}

#[test]
fn even_single_window_covers_range() {
    let r = scan_range_subsplit(50, 500, &QuadWindowExpansionStrategy::Even(1));
    assert_eq!(r, vec![(50, 500)]);
}

#[test]
fn even_three_windows_overlap_by_one_unit() {
    let r = scan_range_subsplit(0, 100, &QuadWindowExpansionStrategy::Even(3));
    assert_eq!(r, vec![(0, 50), (25, 75), (50, 100)]);
    for (s, e) in r {
        assert!(s < e && e <= 100);
    }
}

#[test]
fn even_width_rounds_down() {
    let r = scan_range_subsplit(10, 21, &QuadWindowExpansionStrategy::Even(2));
    assert_eq!(r, vec![(10, 16), (13, 19)]);
}

#[test]
fn even_zero_windows_is_empty() {
    let r = scan_range_subsplit(10, 20, &QuadWindowExpansionStrategy::Even(0));
    assert!(r.is_empty());
}

#[test]
fn uniform_windows_reach_the_end() {
    let r = scan_range_subsplit(0, 250, &QuadWindowExpansionStrategy::Uniform((100, 50)));
    assert_eq!(r, vec![(0, 100), (50, 150), (100, 200), (150, 250)]);
}

#[test]
fn uniform_last_window_is_cut_at_end() {
    let r = scan_range_subsplit(0, 230, &QuadWindowExpansionStrategy::Uniform((100, 50)));
    assert_eq!(r, vec![(0, 100), (50, 150), (100, 200), (150, 230)]);
    for (k, (s, e)) in r.iter().enumerate() {
        assert_eq!(*s, 50 * k);
        assert!(s < e && *e <= 230);
    }
}

#[test]
fn uniform_span_wider_than_range() {
    let r = scan_range_subsplit(5, 20, &QuadWindowExpansionStrategy::Uniform((100, 10)));
    assert_eq!(r, vec![(5, 20)]);
}

#[test]
fn can_subsplit_rejects_what_would_fail() {
    assert!(can_subsplit(5, 3, &QuadWindowExpansionStrategy::Unsplit));
    assert!(!can_subsplit(5, 3, &QuadWindowExpansionStrategy::Even(1)));
    assert!(!can_subsplit(0, 10, &QuadWindowExpansionStrategy::Even(usize::MAX)));
    assert!(!can_subsplit(0, 10, &QuadWindowExpansionStrategy::Uniform((5, 0))));
    assert!(!can_subsplit(0, usize::MAX, &QuadWindowExpansionStrategy::Uniform((5, 1))));
    assert!(can_subsplit(0, 10, &QuadWindowExpansionStrategy::Uniform((5, 1))));
    assert!(!can_subsplit(0, 3, &QuadWindowExpansionStrategy::Even(3)));
    assert!(can_subsplit(0, 4, &QuadWindowExpansionStrategy::Even(3)));
    assert!(can_subsplit(7, 7, &QuadWindowExpansionStrategy::Even(0)));
    assert!(!can_subsplit(0, 10, &QuadWindowExpansionStrategy::Uniform((0, 5))));
}

#[test]
fn default_splitting_is_one_even_split_per_sub_window() {
    let d = FrameWindowSplittingStrategy::default();
    assert!(matches!(
        d,
        FrameWindowSplittingStrategy::Quadrupole(QuadWindowExpansionStrategy::Even(1))
    ));
}
