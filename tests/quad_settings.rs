use timsrust::expansion::{expand_quadrupole_settings, expand_window_settings};
use timsrust::{
    FrameWindowSplittingStrategy, QuadWindowExpansionStrategy, QuadrupoleSettings,
    QuadrupoleSettingsReader, QuadrupoleSettingsReaderError, SplitSettings, SqlQuadSettings,
    SqlWindowGroup, WindowSubRange,
};

fn row(window_group: usize, scan_start: usize, scan_end: usize, mz: f64) -> SqlQuadSettings<f64> {
    SqlQuadSettings {
        window_group,
        scan_start,
        scan_end,
        collision_energy: mz / 10.0,
        mz_center: mz,
        mz_width: 25.0,
    }
}

fn sample_rows() -> Vec<SqlQuadSettings<f64>> {
    vec![
        row(1, 300, 400, 700.0),
        row(2, 50, 150, 500.0),
        row(1, 100, 200, 500.0),
        row(1, 200, 300, 600.0),
        row(2, 10, 40, 400.0),
    ]
}

#[test]
fn groups_are_built_and_sorted_by_scan_start() {
    let groups = QuadrupoleSettingsReader::from_sql_settings(sample_rows()).unwrap();
    assert_eq!(groups.len(), 2);
    assert_eq!(groups[0].index, 1);
    assert_eq!(groups[1].index, 2);
    assert_eq!(groups[0].scan_starts, vec![100, 200, 300]);
    assert_eq!(groups[0].scan_ends, vec![200, 300, 400]);
    assert_eq!(groups[0].isolation_mz, vec![500.0, 600.0, 700.0]);
    assert_eq!(groups[0].isolation_width, vec![25.0, 25.0, 25.0]);
    assert_eq!(groups[0].collision_energy, vec![50.0, 60.0, 70.0]);
    assert_eq!(groups[1].scan_starts, vec![10, 50]);
    assert_eq!(groups[1].scan_ends, vec![40, 150]);
    assert_eq!(groups[1].isolation_mz, vec![400.0, 500.0]);
    for g in &groups {
        let n = g.len();
        assert_eq!(g.scan_ends.len(), n);
        assert_eq!(g.isolation_mz.len(), n);
        assert_eq!(g.isolation_width.len(), n);
        assert_eq!(g.collision_energy.len(), n);
    }
}

#[test]
fn equal_scan_starts_keep_row_order() {
    let rows = vec![row(1, 100, 200, 1.0), row(1, 50, 60, 2.0), row(1, 100, 150, 3.0)];
    let groups = QuadrupoleSettingsReader::new(rows).unwrap();
    assert_eq!(groups[0].scan_starts, vec![50, 100, 100]);
    assert_eq!(groups[0].isolation_mz, vec![2.0, 1.0, 3.0]);
    assert_eq!(groups[0].scan_ends, vec![60, 200, 150]);
}

#[test]
fn missing_group_ids_give_empty_groups() {
    let groups = QuadrupoleSettingsReader::from_sql_settings(vec![row(3, 1, 2, 9.0)]).unwrap();
    assert_eq!(groups.len(), 3);
    assert_eq!(groups[0].len(), 0);
    assert_eq!(groups[1].len(), 0);
    assert_eq!(groups[2].index, 3);
    assert_eq!(groups[2].scan_starts, vec![1]);
}

#[test]
fn empty_table_is_an_error() {
    let r = QuadrupoleSettingsReader::<f64>::from_sql_settings(vec![]);
    assert_eq!(r.unwrap_err(), QuadrupoleSettingsReaderError::NoWindowGroups);
}

#[test]
fn window_group_zero_is_an_error() {
    let r = QuadrupoleSettingsReader::from_sql_settings(vec![row(1, 1, 2, 3.0), row(0, 1, 2, 3.0)]);
    assert_eq!(r.unwrap_err(), QuadrupoleSettingsReaderError::WindowGroupZero);
}

#[test]
fn quadrupole_expansion_keeps_isolation_values() {
    let groups = QuadrupoleSettingsReader::from_sql_settings(sample_rows()).unwrap();
    let wgs = vec![SqlWindowGroup { frame: 7, window_group: 2 }];
    let out = expand_quadrupole_settings(&wgs, &groups, &QuadWindowExpansionStrategy::Even(1));
    assert_eq!(out.len(), 2);
    assert_eq!(out[0].index, 7);
    assert_eq!(out[0].scan_starts, vec![10]);
    assert_eq!(out[0].scan_ends, vec![40]);
    assert_eq!(out[0].isolation_mz, vec![400.0]);
    assert_eq!(out[0].isolation_width, vec![25.0]);
    assert_eq!(out[0].collision_energy, vec![40.0]);
    assert_eq!(out[1].scan_starts, vec![50]);
    assert_eq!(out[1].scan_ends, vec![150]);
    assert_eq!(out[1].isolation_mz, vec![500.0]);
}

#[test]
fn quadrupole_expansion_splits_each_sub_window() {
    let groups = QuadrupoleSettingsReader::from_sql_settings(vec![row(1, 0, 100, 5.0)]).unwrap();
    let wgs = vec![
        SqlWindowGroup { frame: 3, window_group: 1 },
        SqlWindowGroup { frame: 4, window_group: 1 },
    ];
    let out = expand_quadrupole_settings(&wgs, &groups, &QuadWindowExpansionStrategy::Even(3));
    let ranges: Vec<(usize, usize, usize)> =
        out.iter().map(|q| (q.index, q.scan_starts[0], q.scan_ends[0])).collect();
    assert_eq!(
        ranges,
        vec![(3, 0, 50), (3, 25, 75), (3, 50, 100), (4, 0, 50), (4, 25, 75), (4, 50, 100)]
    );
    assert!(out.iter().all(|q| q.isolation_mz == vec![5.0] && q.collision_energy == vec![0.5]));
}

#[test]
fn window_expansion_lists_members_of_each_range() {
    let groups = QuadrupoleSettingsReader::from_sql_settings(sample_rows()).unwrap();
    let wgs = vec![SqlWindowGroup { frame: 9, window_group: 1 }];
    let out = expand_window_settings(&wgs, &groups, &QuadWindowExpansionStrategy::Uniform((250, 50)));
    assert_eq!(
        out,
        vec![
            WindowSubRange { index: 9, window_group: 1, scan_start: 100, scan_end: 350, members: vec![(1, 100)] },
            WindowSubRange { index: 9, window_group: 1, scan_start: 150, scan_end: 400, members: vec![(1, 100)] },
        ]
    );
}

#[test]
fn window_expansion_unsplit_skips_boundary_members() {
    let groups = QuadrupoleSettingsReader::from_sql_settings(sample_rows()).unwrap();
    let wgs = vec![SqlWindowGroup { frame: 1, window_group: 2 }];
    let out = expand_window_settings(&wgs, &groups, &QuadWindowExpansionStrategy::Unsplit);
    assert_eq!(out.len(), 1);
    assert_eq!((out[0].scan_start, out[0].scan_end), (10, 150));
    assert_eq!(out[0].members, vec![]);
}

#[test]
fn from_splitting_by_quadrupole() {
    let wgs = vec![SqlWindowGroup { frame: 2, window_group: 1 }];
    let strat = FrameWindowSplittingStrategy::Quadrupole(QuadWindowExpansionStrategy::Unsplit);
    match QuadrupoleSettingsReader::from_splitting(sample_rows(), &wgs, strat).unwrap() {
        SplitSettings::Quadrupole(v) => {
            let starts: Vec<usize> = v.iter().map(|q| q.scan_starts[0]).collect();
            assert_eq!(starts, vec![100, 200, 300]);
            assert!(v.iter().all(|q| q.index == 2));
        },
        SplitSettings::Window(..) => panic!("expected quadrupole splitting"),
    }
}

#[test]
fn from_splitting_by_window() {
    let wgs = vec![SqlWindowGroup { frame: 2, window_group: 1 }];
    let strat = FrameWindowSplittingStrategy::Window(QuadWindowExpansionStrategy::Even(1));
    match QuadrupoleSettingsReader::from_splitting(sample_rows(), &wgs, strat).unwrap() {
        SplitSettings::Window(groups, ranges) => {
            assert_eq!(groups.len(), 2);
            assert_eq!(ranges.len(), 1);
            assert_eq!((ranges[0].scan_start, ranges[0].scan_end), (100, 400));
            assert_eq!(ranges[0].members, vec![(1, 100)]);
        },
        SplitSettings::Quadrupole(_) => panic!("expected window splitting"),
    }
}

#[test]
fn from_splitting_unknown_group() {
    let wgs = vec![SqlWindowGroup { frame: 2, window_group: 5 }];
    let strat = FrameWindowSplittingStrategy::default();
    let r = QuadrupoleSettingsReader::from_splitting(sample_rows(), &wgs, strat);
    assert_eq!(r.unwrap_err(), QuadrupoleSettingsReaderError::UnknownWindowGroup);
}

#[test]
fn from_splitting_by_window_needs_sub_windows() {
    let wgs = vec![SqlWindowGroup { frame: 0, window_group: 1 }];
    let strat = FrameWindowSplittingStrategy::Window(QuadWindowExpansionStrategy::Even(1));
    let r = QuadrupoleSettingsReader::from_splitting(vec![row(2, 1, 20, 3.0)], &wgs, strat);
    assert_eq!(r.unwrap_err(), QuadrupoleSettingsReaderError::UnknownWindowGroup);
}

#[test]
fn from_splitting_by_quadrupole_empty_group_gives_nothing() {
    let wgs = vec![SqlWindowGroup { frame: 0, window_group: 1 }];
    let strat = FrameWindowSplittingStrategy::Quadrupole(QuadWindowExpansionStrategy::Even(1));
    match QuadrupoleSettingsReader::from_splitting(vec![row(2, 1, 20, 3.0)], &wgs, strat).unwrap() {
        SplitSettings::Quadrupole(v) => assert!(v.is_empty()),
        SplitSettings::Window(..) => panic!("expected quadrupole splitting"),
    }
}

#[test]
fn from_splitting_ignores_groups_no_frame_names() {
    let rows = vec![row(1, 0, 100, 1.0), row(2, 50, 10, 2.0)];
    let wgs = vec![SqlWindowGroup { frame: 4, window_group: 1 }];
    let strat = FrameWindowSplittingStrategy::Quadrupole(QuadWindowExpansionStrategy::Even(1));
    match QuadrupoleSettingsReader::from_splitting(rows, &wgs, strat).unwrap() {
        SplitSettings::Quadrupole(v) => {
            assert_eq!(v.len(), 1);
            assert_eq!((v[0].index, v[0].scan_starts[0], v[0].scan_ends[0]), (4, 0, 100));
        },
        SplitSettings::Window(..) => panic!("expected quadrupole splitting"),
    }
}

#[test]
fn from_splitting_unsplit_accepts_reversed_range() {
    let wgs = vec![SqlWindowGroup { frame: 4, window_group: 1 }];
    let strat = FrameWindowSplittingStrategy::Quadrupole(QuadWindowExpansionStrategy::Unsplit);
    match QuadrupoleSettingsReader::from_splitting(vec![row(1, 50, 10, 2.0)], &wgs, strat).unwrap() {
        SplitSettings::Quadrupole(v) => {
            assert_eq!((v[0].scan_starts[0], v[0].scan_ends[0]), (50, 10));
        },
        SplitSettings::Window(..) => panic!("expected quadrupole splitting"),
    }
}

#[test]
fn from_splitting_even_on_narrow_sub_window() {
    let wgs = vec![SqlWindowGroup { frame: 4, window_group: 1 }];
    let strat = FrameWindowSplittingStrategy::Quadrupole(QuadWindowExpansionStrategy::Even(3));
    let r = QuadrupoleSettingsReader::from_splitting(vec![row(1, 10, 13, 2.0)], &wgs, strat);
    assert_eq!(r.unwrap_err(), QuadrupoleSettingsReaderError::InvalidScanRange);
}

#[test]
fn from_splitting_invalid_scan_range() {
    let wgs = vec![SqlWindowGroup { frame: 2, window_group: 1 }];
    let strat = FrameWindowSplittingStrategy::Quadrupole(QuadWindowExpansionStrategy::Even(1));
    let r = QuadrupoleSettingsReader::from_splitting(vec![row(1, 9, 3, 1.0)], &wgs, strat);
    assert_eq!(r.unwrap_err(), QuadrupoleSettingsReaderError::InvalidScanRange);
    let strat = FrameWindowSplittingStrategy::Window(QuadWindowExpansionStrategy::Uniform((5, 0)));
    let r = QuadrupoleSettingsReader::from_splitting(vec![row(1, 1, 30, 1.0)], &wgs, strat);
    assert_eq!(r.unwrap_err(), QuadrupoleSettingsReaderError::InvalidScanRange);
}

#[test]
fn from_splitting_passes_on_table_errors() {
    let wgs = vec![SqlWindowGroup { frame: 2, window_group: 1 }];
    let strat = FrameWindowSplittingStrategy::default();
    let r = QuadrupoleSettingsReader::<f64>::from_splitting(vec![], &wgs, strat);
    assert_eq!(r.unwrap_err(), QuadrupoleSettingsReaderError::NoWindowGroups);
}

#[test]
fn empty_settings_have_no_sub_window() {
    let q: QuadrupoleSettings<f64> = QuadrupoleSettings::empty(4);
    assert_eq!(q.index, 4);
    assert_eq!(q.len(), 0);
}
