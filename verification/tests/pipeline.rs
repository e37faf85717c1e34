//! End-to-end scenarios over the join-and-emit pipeline.

use consolidate::emit::{generate_all_measures, DescriptorFiles};
use consolidate::error::ErrorKind;
use consolidate::fitness::parse_fitness;
use consolidate::phylogeny::{load_phylogeny, PhylogenyFile, PhylogenyRecord};
use consolidate::snapshot::{
    generate_shaphot_ids, render_snapshot_index, GenerationDir, SnapshotEntry,
};

fn header_line() -> String {
    let cols = vec![
        "robot_id",
        "generation",
        "species",
        "fitness",
        "n_parents",
        "parent1",
        "parent2",
        "pos_start_x",
        "pos_start_y",
        "pos_end_x",
        "pos_end_y",
        "velocity",
        "displacement_velocity",
        "displacement_velocity_hill",
        "head_balance",
        "branching",
        "branching_modules_count",
        "limbs",
        "extremities",
        "length_of_limbs",
        "extensiveness",
        "coverage",
        "joints",
        "hinge_count",
        "active_hinges_count",
        "brick_count",
        "touch_sensor_count",
        "brick_sensor_count",
        "proportion",
        "width",
        "height",
        "z_depth",
        "absolute_size",
        "sensors",
        "symmetry",
        "vertical_symmetry",
        "height_base_ratio",
        "base_density",
        "bottom_layer",
    ];
    assert_eq!(cols.len(), 39);
    let mut s = cols.join("\t");
    s.push('\n');
    s
}

fn row_line(fixed: &[&str], beh: &[&str], phe: &[&str]) -> String {
    assert_eq!(fixed.len(), 11);
    assert_eq!(beh.len(), 4);
    assert_eq!(phe.len(), 24);
    let mut cols: Vec<&str> = Vec::new();
    cols.extend_from_slice(fixed);
    cols.extend_from_slice(beh);
    cols.extend_from_slice(phe);
    let mut s = cols.join("\t");
    s.push('\n');
    s
}

fn all_na(n: usize) -> Vec<&'static str> {
    std::iter::repeat("NA").take(n).collect()
}

#[test]
fn missing_fitness_and_sources_defaults() {
    // One parsable fitness value, one unparsable; individual 6 has no
    // phylogeny entry and no occurrence.
    let fit = parse_fitness("5,1.23\n6,\n").unwrap();
    let snap: Vec<SnapshotEntry> = Vec::new();
    let ph: Vec<PhylogenyRecord> = Vec::new();
    let ds: Vec<DescriptorFiles> = Vec::new();
    let tables = generate_all_measures(&fit, &snap, &ph, &ds, true).unwrap();
    let expected = format!(
        "{}{}{}",
        header_line(),
        row_line(
            &["5", "NA", "NA", "1.23", "0", "NA", "NA", "NA", "NA", "NA", "NA"],
            &all_na(4),
            &all_na(24),
        ),
        row_line(
            &["6", "NA", "NA", "0", "0", "NA", "NA", "NA", "NA", "NA", "NA"],
            &all_na(4),
            &all_na(24),
        ),
    );
    assert_eq!(tables.all_measures, expected);
    assert_eq!(tables.filogeny, "5\t0\tNA\tNA\n6\t0\tNA\tNA\n");
}

#[test]
fn generation_without_auxiliary_file_gets_zero_positions() {
    let dirs = vec![GenerationDir {
        name: "generation_3".to_string(),
        identifiers: Some("10\n11\n".to_string()),
        extra: None,
    }];
    let scan = generate_shaphot_ids(&dirs).unwrap();
    assert_eq!(scan.entries.len(), 2);
    assert!(scan.skipped.is_empty());
    assert_eq!(scan.entries[0].generation, 3);
    assert_eq!(scan.entries[0].individual, 10);
    assert_eq!(scan.entries[0].species, 0);
    assert_eq!(scan.entries[0].pos_start.x, "0");
    assert_eq!(scan.entries[0].pos_start.y, "0");
    assert_eq!(scan.entries[0].pos_end.x, "0");
    assert_eq!(scan.entries[1].individual, 11);
    assert_eq!(scan.entries[1].pos_end.y, "0");

    // The zero default flows into the wide table as "0", not "NA".
    let fit = parse_fitness("10,0.5\n11,0.25\n").unwrap();
    let ph: Vec<PhylogenyRecord> = Vec::new();
    let ds: Vec<DescriptorFiles> = Vec::new();
    let tables = generate_all_measures(&fit, &scan.entries, &ph, &ds, true).unwrap();
    let expected = format!(
        "{}{}{}",
        header_line(),
        row_line(
            &["10", "3", "0", "0.5", "0", "NA", "NA", "0", "0", "0", "0"],
            &all_na(4),
            &all_na(24),
        ),
        row_line(
            &["11", "3", "0", "0.25", "0", "NA", "NA", "0", "0", "0", "0"],
            &all_na(4),
            &all_na(24),
        ),
    );
    assert_eq!(tables.all_measures, expected);
}

#[test]
fn auxiliary_positions_are_used() {
    let dirs = vec![GenerationDir {
        name: "generation_0".to_string(),
        identifiers: Some("10\n".to_string()),
        extra: Some("id\tstart\tend\n10\t(1, 2)\t(3, -4)\n".to_string()),
    }];
    let scan = generate_shaphot_ids(&dirs).unwrap();
    assert_eq!(scan.entries.len(), 1);
    assert_eq!(scan.entries[0].pos_start.x, "1");
    assert_eq!(scan.entries[0].pos_start.y, "2");
    assert_eq!(scan.entries[0].pos_end.x, "3");
    assert_eq!(scan.entries[0].pos_end.y, "-4");
}

#[test]
fn malformed_auxiliary_file_is_fatal_but_absence_is_not() {
    let bad = vec![GenerationDir {
        name: "generation_0".to_string(),
        identifiers: Some("10\n".to_string()),
        extra: Some("id\tstart\tend\n10\tbad\t(1, 2)\n".to_string()),
    }];
    let e = generate_shaphot_ids(&bad).unwrap_err();
    assert_eq!(e.kind, ErrorKind::Value);

    let absent = vec![GenerationDir {
        name: "generation_0".to_string(),
        identifiers: Some("10\n".to_string()),
        extra: None,
    }];
    assert!(generate_shaphot_ids(&absent).is_ok());
}

#[test]
fn unrecognized_folders_are_skipped_with_notice() {
    let dirs = vec![
        GenerationDir { name: "notes".to_string(), identifiers: None, extra: None },
        GenerationDir {
            name: "generation_1".to_string(),
            identifiers: Some("4\n".to_string()),
            extra: None,
        },
    ];
    let scan = generate_shaphot_ids(&dirs).unwrap();
    assert_eq!(scan.skipped, vec!["notes".to_string()]);
    assert_eq!(scan.entries.len(), 1);
    assert_eq!(scan.entries[0].generation, 1);
}

#[test]
fn missing_identifiers_file_is_fatal() {
    let dirs = vec![GenerationDir {
        name: "generation_1".to_string(),
        identifiers: None,
        extra: None,
    }];
    let e = generate_shaphot_ids(&dirs).unwrap_err();
    assert_eq!(e.kind, ErrorKind::Io);
}

#[test]
fn behavioural_none_token_renders_all_sentinels() {
    let dirs = vec![GenerationDir {
        name: "generation_2".to_string(),
        identifiers: Some("10\n".to_string()),
        extra: None,
    }];
    let scan = generate_shaphot_ids(&dirs).unwrap();
    let fit = parse_fitness("10,1\n").unwrap();
    let ph: Vec<PhylogenyRecord> = Vec::new();
    let ds = vec![DescriptorFiles {
        id: 10,
        behavioural: Some("None".to_string()),
        phenotype: None,
    }];
    let tables = generate_all_measures(&fit, &scan.entries, &ph, &ds, true).unwrap();
    let expected = format!(
        "{}{}",
        header_line(),
        row_line(
            &["10", "2", "0", "1", "0", "NA", "NA", "0", "0", "0", "0"],
            &all_na(4),
            &all_na(24),
        ),
    );
    assert_eq!(tables.all_measures, expected);
}

#[test]
fn descriptor_values_flow_into_columns() {
    let fit = parse_fitness("7,2\n").unwrap();
    let snap: Vec<SnapshotEntry> = Vec::new();
    let ph: Vec<PhylogenyRecord> = Vec::new();
    let beh = "velocity 1.5\ndisplacement_velocity 0.25\ndisplacement_velocity_hill x\nhead_balance 0.75\n";
    let ds = vec![DescriptorFiles {
        id: 7,
        behavioural: Some(beh.to_string()),
        phenotype: None,
    }];
    let tables = generate_all_measures(&fit, &snap, &ph, &ds, true).unwrap();
    let expected = format!(
        "{}{}",
        header_line(),
        row_line(
            &["7", "NA", "NA", "2", "0", "NA", "NA", "NA", "NA", "NA", "NA"],
            &["1.5", "0.25", "NA", "0.75"],
            &all_na(24),
        ),
    );
    assert_eq!(tables.all_measures, expected);
}

#[test]
fn phylogeny_fields_follow_parent_lists() {
    let files = vec![
        PhylogenyFile {
            name: "parents_5.yaml".to_string(),
            content: Some("parents: [3, 4]".to_string()),
        },
        PhylogenyFile {
            name: "parents_6.yaml".to_string(),
            content: Some("parents: 9".to_string()),
        },
    ];
    let ph = load_phylogeny(&files).unwrap();
    assert_eq!(ph.len(), 2);
    assert_eq!(ph[0].id, 5);
    assert_eq!(ph[0].parents, vec![3, 4]);
    assert_eq!(ph[1].id, 6);
    assert_eq!(ph[1].parents, vec![9]);

    let fit = parse_fitness("5,1\n6,1\n7,1\n").unwrap();
    let snap: Vec<SnapshotEntry> = Vec::new();
    let ds: Vec<DescriptorFiles> = Vec::new();
    let tables = generate_all_measures(&fit, &snap, &ph, &ds, true).unwrap();
    // n_parents is the true list length; a missing index is the
    // sentinel; an absent individual has zero parents.
    assert_eq!(tables.filogeny, "5\t2\t3\t4\n6\t1\t9\tNA\n7\t0\tNA\tNA\n");
}

#[test]
fn lineage_rows_repeat_per_occurrence_by_default() {
    let dirs = vec![
        GenerationDir {
            name: "generation_0".to_string(),
            identifiers: Some("5\n".to_string()),
            extra: None,
        },
        GenerationDir {
            name: "generation_1".to_string(),
            identifiers: Some("5\n".to_string()),
            extra: None,
        },
    ];
    let scan = generate_shaphot_ids(&dirs).unwrap();
    let fit = parse_fitness("5,1\n").unwrap();
    let ph: Vec<PhylogenyRecord> = Vec::new();
    let ds: Vec<DescriptorFiles> = Vec::new();
    let dup = generate_all_measures(&fit, &scan.entries, &ph, &ds, true).unwrap();
    assert_eq!(dup.filogeny, "5\t0\tNA\tNA\n5\t0\tNA\tNA\n");
    let dedup = generate_all_measures(&fit, &scan.entries, &ph, &ds, false).unwrap();
    assert_eq!(dedup.filogeny, "5\t0\tNA\tNA\n");
    // The wide table itself is unaffected by the lineage policy.
    assert_eq!(dup.all_measures, dedup.all_measures);
}

#[test]
fn snapshot_index_table_lists_every_occurrence() {
    let dirs = vec![GenerationDir {
        name: "generation_3".to_string(),
        identifiers: Some("10\n11\n".to_string()),
        extra: None,
    }];
    let scan = generate_shaphot_ids(&dirs).unwrap();
    let text = render_snapshot_index(&scan.entries);
    assert_eq!(text, "generation\trobot_id\tspecies_id\n3\t10\t0\n3\t11\t0\n");
}

#[test]
fn rerun_on_unchanged_inputs_is_byte_identical() {
    let dirs = vec![GenerationDir {
        name: "generation_2".to_string(),
        identifiers: Some("5\n6\n".to_string()),
        extra: Some("id\tstart\tend\n5\t(1, 1)\t(2, 2)\n".to_string()),
    }];
    let files = vec![PhylogenyFile {
        name: "parents_6.yaml".to_string(),
        content: Some("parents: 5".to_string()),
    }];
    let fitness_text = "5,0.125\n6,\n";
    let ds = vec![DescriptorFiles {
        id: 5,
        behavioural: Some("velocity 1\ndisplacement_velocity 2\ndisplacement_velocity_hill 3\nhead_balance 4\n".to_string()),
        phenotype: None,
    }];

    let run = || {
        let fit = parse_fitness(fitness_text).unwrap();
        let ph = load_phylogeny(&files).unwrap();
        let scan = generate_shaphot_ids(&dirs).unwrap();
        let tables = generate_all_measures(&fit, &scan.entries, &ph, &ds, true).unwrap();
        (tables.all_measures, tables.filogeny, render_snapshot_index(&scan.entries))
    };
    let first = run();
    let second = run();
    assert_eq!(first.0, second.0);
    assert_eq!(first.1, second.1);
    assert_eq!(first.2, second.2);
}

#[test]
fn every_fitness_id_appears_in_the_wide_table() {
    let dirs = vec![GenerationDir {
        name: "generation_0".to_string(),
        identifiers: Some("2\n2\n".to_string()),
        extra: None,
    }];
    let scan = generate_shaphot_ids(&dirs).unwrap();
    let fit = parse_fitness("1,\n2,3\n").unwrap();
    let ph: Vec<PhylogenyRecord> = Vec::new();
    let ds: Vec<DescriptorFiles> = Vec::new();
    let tables = generate_all_measures(&fit, &scan.entries, &ph, &ds, true).unwrap();
    let body: Vec<&str> = tables.all_measures.lines().skip(1).collect();
    // Individual 1 has no occurrence: exactly one row. Individual 2
    // occurs twice in generation 0: two rows.
    assert_eq!(body.len(), 3);
    assert!(body[0].starts_with("1\tNA\tNA\t0\t"));
    assert!(body[1].starts_with("2\t0\t0\t3\t"));
    assert!(body[2].starts_with("2\t0\t0\t3\t"));
    // Every line has the full fixed column count.
    for line in tables.all_measures.lines() {
        assert_eq!(line.split('\t').count(), 39);
    }
}

#[test]
fn fitness_row_shape_errors_are_fatal() {
    let e = parse_fitness("5,1,2\n").unwrap_err();
    assert_eq!(e.kind, ErrorKind::Structure);
    let e = parse_fitness("abc,1\n").unwrap_err();
    assert_eq!(e.kind, ErrorKind::Value);
    let e = parse_fitness("5\n").unwrap_err();
    assert_eq!(e.kind, ErrorKind::Structure);
}

#[test]
fn identifier_lines_must_be_unsigned_integers() {
    let dirs = vec![GenerationDir {
        name: "generation_1".to_string(),
        identifiers: Some("4\nx\n".to_string()),
        extra: None,
    }];
    let e = generate_shaphot_ids(&dirs).unwrap_err();
    assert_eq!(e.kind, ErrorKind::Value);
}

#[test]
fn generation_number_must_fit() {
    let dirs = vec![GenerationDir {
        name: "generation_18446744073709551616".to_string(),
        identifiers: Some("4\n".to_string()),
        extra: None,
    }];
    let e = generate_shaphot_ids(&dirs).unwrap_err();
    assert_eq!(e.kind, ErrorKind::Value);
}

#[test]
fn empty_fitness_file_yields_only_the_header() {
    let fit = parse_fitness("").unwrap();
    assert!(fit.is_empty());
    let snap: Vec<SnapshotEntry> = Vec::new();
    let ph: Vec<PhylogenyRecord> = Vec::new();
    let ds: Vec<DescriptorFiles> = Vec::new();
    let tables = generate_all_measures(&fit, &snap, &ph, &ds, true).unwrap();
    assert_eq!(tables.all_measures, header_line());
    assert_eq!(tables.filogeny, "");
}

#[test]
fn canonical_rendering_of_fitness_values() {
    // The emitted value is the parsed number's rendering, not the raw
    // field text.
    let fit = parse_fitness("5,1.230\n").unwrap();
    let snap: Vec<SnapshotEntry> = Vec::new();
    let ph: Vec<PhylogenyRecord> = Vec::new();
    let ds: Vec<DescriptorFiles> = Vec::new();
    let tables = generate_all_measures(&fit, &snap, &ph, &ds, true).unwrap();
    let body: Vec<&str> = tables.all_measures.lines().skip(1).collect();
    assert!(body[0].starts_with("5\tNA\tNA\t1.23\t"));
}
