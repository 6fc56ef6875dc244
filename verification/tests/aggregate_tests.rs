use maintenance_burden::aggregate::{prepopulate_lines_map, Aggregator};
use maintenance_burden::options::Options;
use maintenance_burden::record::{parse_record, ChangeRecord};
use maintenance_burden::report::{compute_results, diff_msg, render_results, report_ready, should_warn};

/// Drive the aggregation loop over stream lines, answering line-count queries
/// from a fixed table of `(path, count)` pairs; a path not in the table is
/// unreadable.
fn run(agg: &mut Aggregator, lines: &[&str], counts: &[(&str, usize)]) {
    for line in lines {
        let rec = parse_record(line).unwrap();
        if let ChangeRecord::Numeric { ref path_field, .. } = rec {
            let target = agg.target_name(path_field.as_str());
            if !agg.has_count(target.as_str()) {
                let answer = counts.iter().find(|(p, _)| *p == target).map(|(_, c)| *c);
                agg.set_count(target.clone(), answer);
            }
        }
        agg.process_record(&rec);
    }
}

#[test]
fn no_renames_totals_are_per_path_sums() {
    let mut agg = Aggregator::new();
    let stream = ["5\t2\tx.txt", "1\t1\ty.txt", "2\t0\tx.txt"];
    run(&mut agg, &stream, &[("x.txt", 4), ("y.txt", 1)]);
    assert_eq!(agg.added_total("x.txt"), 7);
    assert_eq!(agg.deleted_total("x.txt"), 2);
    assert_eq!(agg.added_total("y.txt"), 1);
    assert_eq!(agg.deleted_total("y.txt"), 1);
}

#[test]
fn rename_chain_lands_on_one_entry() {
    let mut agg = Aggregator::new();
    // Newest first: b renamed to c, before that a renamed to b, before that
    // a record still under the name a.
    let stream = ["3\t1\tb.rs => c.rs", "2\t2\ta.rs => b.rs", "4\t0\ta.rs"];
    run(&mut agg, &stream, &[("c.rs", 5)]);
    assert_eq!(agg.added_total("c.rs"), 9);
    assert_eq!(agg.deleted_total("c.rs"), 3);
    assert_eq!(agg.added_total("a.rs"), 0);
    assert_eq!(agg.added_total("b.rs"), 0);
    assert_eq!(agg.target_name("a.rs"), "c.rs");
    assert_eq!(agg.target_name("b.rs"), "c.rs");
}

#[test]
fn aggregation_is_deterministic_across_fresh_runs() {
    let stream = ["3\t1\tb.rs => c.rs", "2\t2\ta.rs => b.rs", "4\t0\ta.rs", "-\t-\tbin"];
    let counts = [("c.rs", 5)];
    let mut first = Aggregator::new();
    run(&mut first, &stream, &counts);
    let mut second = Aggregator::new();
    run(&mut second, &stream, &counts);
    for p in ["a.rs", "b.rs", "c.rs", "bin"] {
        assert_eq!(first.added_total(p), second.added_total(p));
        assert_eq!(first.deleted_total(p), second.deleted_total(p));
    }
}

#[test]
fn unreadable_path_contributes_nothing() {
    let mut agg = Aggregator::new();
    let stream = ["5\t2\tgone.txt", "1\t1\tkept.txt"];
    run(&mut agg, &stream, &[("kept.txt", 3)]);
    assert_eq!(agg.added_total("gone.txt"), 0);
    assert_eq!(agg.deleted_total("gone.txt"), 0);
    assert!(report_ready(&agg));
    let rows = compute_results(&agg);
    assert_eq!(rows.len(), 1);
    assert_eq!(rows[0].path, "kept.txt");
}

#[test]
fn binary_records_are_skipped() {
    let mut agg = Aggregator::new();
    run(&mut agg, &["-\t-\tlogo.png"], &[("logo.png", 9)]);
    assert_eq!(agg.added_total("logo.png"), 0);
    assert_eq!(agg.deleted_total("logo.png"), 0);
    assert!(compute_results(&agg).is_empty());
}

#[test]
fn end_to_end_rename_scenario() {
    // Newest first: the rename of a.txt to b.txt enters the stream before the
    // older record still labelled a.txt; a.txt is unreadable now but b.txt
    // has 7 lines.
    let mut agg = Aggregator::new();
    let stream = ["3\t1\ta.txt => b.txt", "-\t-\tbinary.bin", "10\t2\ta.txt"];
    run(&mut agg, &stream, &[("b.txt", 7)]);
    assert_eq!(agg.deleted_total("b.txt"), 3);
    assert_eq!(agg.added_total("b.txt"), 13);
    assert_eq!(agg.added_total("binary.bin"), 0);
    assert!(report_ready(&agg));
    let rows = compute_results(&agg);
    assert_eq!(rows.len(), 1);
    assert_eq!(rows[0].deleted, 3);
    assert_eq!(rows[0].diff, 6);
    assert_eq!(rows[0].path, "b.txt");
    let verbose = Options { verbose: true, paths: Vec::new() };
    assert_eq!(diff_msg(&verbose, rows[0].deleted, rows[0].diff, &rows[0].path), " (6)");
    let lines = render_results(&verbose, &rows);
    assert_eq!(lines, vec!["       3 (6)  b.txt".to_string()]);
    let quiet = Options { verbose: false, paths: Vec::new() };
    assert!(should_warn(&quiet, &rows));
    assert!(!should_warn(&verbose, &rows));
}

#[test]
fn equal_deleted_totals_keep_path_order() {
    let mut agg = Aggregator::new();
    let stream = ["1\t2\tzeta.txt", "9\t2\talpha.txt", "1\t5\tmid.txt"];
    run(&mut agg, &stream, &[("zeta.txt", 1), ("alpha.txt", 1), ("mid.txt", 1)]);
    assert!(report_ready(&agg));
    let rows = compute_results(&agg);
    assert_eq!(rows.len(), 3);
    assert_eq!(rows[0].path, "alpha.txt");
    assert_eq!(rows[1].path, "zeta.txt");
    assert_eq!(rows[2].path, "mid.txt");
    assert_eq!(rows[0].deleted, 2);
    assert_eq!(rows[1].deleted, 2);
    assert_eq!(rows[2].deleted, 5);
}

#[test]
fn prepopulate_seeds_untouched_paths() {
    let mut agg = Aggregator::new();
    let options = Options {
        verbose: false,
        paths: vec!["seeded.txt".to_string()],
    };
    let counts = vec![11];
    prepopulate_lines_map(&options, &mut agg, &counts);
    assert!(agg.has_count("seeded.txt"));
    run(&mut agg, &["2\t3\tseeded.txt"], &[]);
    assert_eq!(agg.added_total("seeded.txt"), 2);
    assert_eq!(agg.deleted_total("seeded.txt"), 3);
    let rows = compute_results(&agg);
    assert_eq!(rows.len(), 1);
    assert_eq!(rows[0].diff, 2 - 11);
}

#[test]
fn sticky_unreadable_entry_skips_later_records() {
    let mut agg = Aggregator::new();
    // Both records name the same unreadable path; the oracle is consulted
    // once and the cached answer sticks.
    let stream = ["4\t4\tghost.txt", "6\t1\tghost.txt"];
    run(&mut agg, &stream, &[]);
    assert_eq!(agg.added_total("ghost.txt"), 0);
    assert_eq!(agg.deleted_total("ghost.txt"), 0);
}
