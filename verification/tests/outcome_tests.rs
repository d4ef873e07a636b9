use asset_squeeze::kinds::{AssetKind, FormatFilter};
use asset_squeeze::outcome::{
    count_assets_by_kind, maybe_replace, optimize_asset, outcome_of, replace_with, run_notes, select_assets,
    should_process_format, skipped, skipped_with_size, AssetPlan, OptimizeOutcome, Report, RunFailure,
};

#[test]
fn only_smaller_results_replace_files() {
    let (outcome, write) = maybe_replace(&[0; 5], 10, false);
    assert!(matches!(outcome, OptimizeOutcome::Optimized { before: 10, after: 5 }));
    assert!(write);

    let (outcome, write) = maybe_replace(&[0; 5], 10, true);
    assert!(matches!(outcome, OptimizeOutcome::Optimized { before: 10, after: 5 }));
    assert!(!write);

    let (outcome, write) = maybe_replace(&[0; 10], 10, false);
    assert!(matches!(outcome, OptimizeOutcome::Unchanged { size: 10 }));
    assert!(!write);

    let (outcome, write) = maybe_replace(&[0; 12], 10, false);
    assert!(matches!(outcome, OptimizeOutcome::Unchanged { size: 10 }));
    assert!(!write);
}

#[test]
fn results_carry_the_bytes_to_write() {
    let (outcome, bytes) = replace_with(vec![1, 2], 3, false);
    assert!(matches!(outcome, OptimizeOutcome::Optimized { before: 3, after: 2 }));
    assert_eq!(bytes, Some(vec![1, 2]));

    let (failed, none) = outcome_of(Err("boom".to_string()), 3, false);
    assert!(matches!(failed, OptimizeOutcome::Failed { ref error } if error == "boom"));
    assert!(none.is_none());
}

#[test]
fn skips_keep_the_size_or_become_failures() {
    match skipped(Ok(7), "why") {
        OptimizeOutcome::Skipped { reason, size } => {
            assert_eq!(reason, "why");
            assert_eq!(size, 7);
        }
        other => panic!("unexpected outcome {other:?}"),
    }
    match skipped(Err("failed to stat x".to_string()), "why") {
        OptimizeOutcome::Failed { error } => assert_eq!(error, "failed to stat x"),
        other => panic!("unexpected outcome {other:?}"),
    }
    assert!(matches!(skipped_with_size(3, "r"), OptimizeOutcome::Skipped { size: 3, .. }));
}

#[test]
fn each_kind_has_a_plan() {
    assert!(matches!(optimize_asset(AssetKind::Png), AssetPlan::Png));
    assert!(matches!(optimize_asset(AssetKind::Jpeg), AssetPlan::Jpeg));
    assert!(matches!(optimize_asset(AssetKind::Webp), AssetPlan::Webp));
    assert!(matches!(optimize_asset(AssetKind::Svg), AssetPlan::Svg));
    match optimize_asset(AssetKind::Gif) {
        AssetPlan::Skip(reason) => assert_eq!(reason, "GIF backend is not implemented yet"),
        other => panic!("unexpected plan {other:?}"),
    }
    for kind in [AssetKind::Bmp, AssetKind::Wbmp] {
        match optimize_asset(kind) {
            AssetPlan::Skip(reason) => {
                assert_eq!(reason, "BMP/WBMP are kept as-is because meaningful savings require conversion")
            }
            other => panic!("unexpected plan {other:?}"),
        }
    }
    match optimize_asset(AssetKind::Other) {
        AssetPlan::Skip(reason) => assert_eq!(reason, "unsupported file type"),
        other => panic!("unexpected plan {other:?}"),
    }
}

#[test]
fn format_filters_select_kinds() {
    assert!(should_process_format(AssetKind::Gif, &[]));
    assert!(should_process_format(AssetKind::Png, &[FormatFilter::Jpeg, FormatFilter::Png]));
    assert!(!should_process_format(AssetKind::Webp, &[FormatFilter::Jpeg, FormatFilter::Png]));
    assert!(!should_process_format(AssetKind::Other, &[FormatFilter::Bmp, FormatFilter::Wbmp]));
    assert!(should_process_format(AssetKind::Wbmp, &[FormatFilter::Wbmp]));
}

#[test]
fn counts_assets_by_kind() {
    let paths: Vec<String> = ["a.png", "b.APNG", "c.jpg", "d.jpeg", "e.webp", "f.svg", "g.gif", "h.bmp", "i.wbmp", "j.txt", "k"]
        .iter()
        .map(|p| p.to_string())
        .collect();
    let counts = count_assets_by_kind(&paths);
    assert_eq!(counts.png, 2);
    assert_eq!(counts.jpeg, 2);
    assert_eq!(counts.webp, 1);
    assert_eq!(counts.svg, 1);
    assert_eq!(counts.gif, 1);
    assert_eq!(counts.bmp, 1);
    assert_eq!(counts.wbmp, 1);
}

#[test]
fn selects_assets_in_order() {
    let paths: Vec<String> = ["x/a.png", "x/b.svg", "x/c.PNG", "x/d.txt"].iter().map(|p| p.to_string()).collect();
    let all = select_assets(&paths, &[]);
    assert_eq!(all.len(), 4);
    assert_eq!(all[3].kind, AssetKind::Other);
    let pngs = select_assets(&paths, &[FormatFilter::Png]);
    let names: Vec<&str> = pngs.iter().map(|a| a.path.as_str()).collect();
    assert_eq!(names, vec!["x/a.png", "x/c.PNG"]);
    assert!(pngs.iter().all(|a| a.kind == AssetKind::Png));
}

#[test]
fn report_adds_outcomes_up() {
    let mut report = Report::new();
    report.apply_outcome(&OptimizeOutcome::Optimized { before: 100, after: 60 });
    report.apply_outcome(&OptimizeOutcome::Unchanged { size: 10 });
    report.apply_outcome(&OptimizeOutcome::Skipped { reason: "r".to_string(), size: 5 });
    report.apply_outcome(&OptimizeOutcome::Failed { error: "e".to_string() });
    assert_eq!(report.optimized, 1);
    assert_eq!(report.opportunities, 1);
    assert_eq!(report.unchanged, 1);
    assert_eq!(report.skipped, 1);
    assert_eq!(report.failed, 1);
    assert_eq!(report.before_bytes, 115);
    assert_eq!(report.after_bytes, 75);
    assert_eq!(report.saved_bytes(), 40);

    assert_eq!(report.verdict(true), Err(RunFailure::Optimizable(1)));
    assert_eq!(report.verdict(false), Err(RunFailure::Failed(1)));
    assert_eq!(Report::new().verdict(true), Ok(()));
    assert_eq!(
        RunFailure::Optimizable(3).message(),
        "3 asset(s) can be optimized; run without --check to update them"
    );
    assert_eq!(RunFailure::Failed(12).message(), "12 asset(s) failed to process");
}

#[test]
fn saved_bytes_never_go_below_zero() {
    let mut report = Report::new();
    report.apply_outcome(&OptimizeOutcome::Optimized { before: 1, after: 4 });
    assert_eq!(report.saved_bytes(), 0);
}

#[test]
fn run_notes_follow_the_assets_and_quality() {
    let paths: Vec<String> = ["a.jpg", "b.svg"].iter().map(|p| p.to_string()).collect();
    let assets = select_assets(&paths, &[]);
    let lossless = run_notes(&assets, None);
    assert!(lossless.jpeg_lossless_backend);
    assert!(!lossless.jpeg_lossy_backend);
    assert!(!lossless.webp_lossy_backend);
    assert!(!lossless.lossy_warning);
    assert!(!lossless.lossless_kept);
    assert!(lossless.svg_backend);

    let lossy = run_notes(&assets, Some(80));
    assert!(lossy.jpeg_lossy_backend);
    assert!(!lossy.jpeg_lossless_backend);
    assert!(lossy.lossy_warning);
    assert!(lossy.lossless_kept);
}

#[test]
fn a_whole_run_is_recorded_in_order() {
    let outcomes = vec![
        OptimizeOutcome::Unchanged { size: 10 },
        OptimizeOutcome::Optimized { before: 50, after: 20 },
        OptimizeOutcome::Skipped { reason: "r".to_string(), size: 5 },
    ];
    let mut report = Report::new();
    report.apply_all(&outcomes);
    assert_eq!(report.unchanged, 1);
    assert_eq!(report.optimized, 1);
    assert_eq!(report.skipped, 1);
    assert_eq!(report.failed, 0);
    assert_eq!(report.before_bytes, 65);
    assert_eq!(report.after_bytes, 35);
    assert_eq!(report.verdict(false), Ok(()));
    assert_eq!(report.verdict(true), Err(RunFailure::Optimizable(1)));

    let mut failing = Report::new();
    failing.apply_all(&[OptimizeOutcome::Failed { error: "e".to_string() }, OptimizeOutcome::Unchanged { size: 1 }]);
    assert_eq!(failing.verdict(false), Err(RunFailure::Failed(1)));

    let mut empty = Report::new();
    empty.apply_all(&[]);
    assert_eq!(empty.verdict(true), Ok(()));
}

#[test]
fn fits_tells_when_a_counter_would_overflow() {
    let mut report = Report::new();
    assert!(report.fits(&OptimizeOutcome::Optimized { before: u64::MAX, after: 0 }));
    report.apply_outcome(&OptimizeOutcome::Unchanged { size: u64::MAX });
    assert!(!report.fits(&OptimizeOutcome::Unchanged { size: 1 }));
    assert!(report.fits(&OptimizeOutcome::Failed { error: "e".to_string() }));
    assert!(!report.fits(&OptimizeOutcome::Skipped { reason: "r".to_string(), size: 1 }));
}

#[test]
fn a_run_writes_only_smaller_outputs_and_nothing_on_a_dry_run() {
    let results = [(Ok(vec![1u8; 3]), 5u64), (Ok(vec![1u8; 9]), 5), (Err("e".to_string()), 5), (Ok(vec![1u8; 5]), 5)];
    for dry_run in [false, true] {
        let writes: Vec<Option<Vec<u8>>> =
            results.iter().map(|(r, size)| outcome_of(r.clone(), *size, dry_run).1).collect();
        if dry_run {
            assert!(writes.iter().all(Option::is_none));
        } else {
            assert_eq!(writes, vec![Some(vec![1u8; 3]), None, None, None]);
        }
    }
}
