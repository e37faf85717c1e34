//! Unit tests of the loaders, the parents dispatch and the text
//! primitives.

use consolidate::descriptor::read_measures;
use consolidate::emit::{behaviour_descriptor_filename, phenotype_descriptor_filename};
use consolidate::error::{ConvertError, ConvertResult, Error, ErrorKind};
use consolidate::iterators::IdentifyLast;
use consolidate::measures::{behavioural_measures, phenotype_measures};
use consolidate::phylogeny::{
    load_phylogeny, normalize_legacy_yaml, normalize_parents, ParentsShape, PhylogenyFile,
};
use consolidate::snapshot::load_extra_cosituated_data;
use consolidate::species::{
    generate_shaphot_ids_generations_species, GenerationSpeciesDir, Species, SpeciesAge,
    SpeciesFileEntry,
};
use consolidate::text::{parse_u64, trim, u64_to_string};
use consolidate::vector::{Vector2, Vector3};

fn parents_of_content(content: &str) -> Result<Vec<u64>, Error> {
    let files = vec![PhylogenyFile {
        name: "parents_1.yaml".to_string(),
        content: Some(content.to_string()),
    }];
    load_phylogeny(&files).map(|mut recs| recs.remove(0).parents)
}

#[test]
fn parents_dispatch_null_and_empty() {
    assert_eq!(parents_of_content("parents: null").unwrap(), Vec::<u64>::new());
    assert_eq!(parents_of_content("parents:None").unwrap(), Vec::<u64>::new());
    assert_eq!(parents_of_content("parents:").unwrap(), Vec::<u64>::new());
}

#[test]
fn parents_dispatch_single_integer() {
    assert_eq!(parents_of_content("parents: 7").unwrap(), vec![7]);
}

#[test]
fn parents_dispatch_integer_list() {
    assert_eq!(parents_of_content("parents: [3, 4]").unwrap(), vec![3, 4]);
}

#[test]
fn parents_dispatch_comma_string() {
    assert_eq!(parents_of_content("parents: '3,4'").unwrap(), vec![3, 4]);
}

#[test]
fn parents_dispatch_rejects_other_shapes() {
    assert_eq!(parents_of_content("parents: 3.5").unwrap_err().kind, ErrorKind::Structure);
    assert_eq!(parents_of_content("parents: true").unwrap_err().kind, ErrorKind::Structure);
    assert_eq!(parents_of_content("parents: {a: 1}").unwrap_err().kind, ErrorKind::Structure);
    // An alias to an anchor that does not exist fails the YAML parse
    // itself.
    assert_eq!(parents_of_content("parents: *missing").unwrap_err().kind, ErrorKind::Value);
    assert_eq!(parents_of_content("parents: [3, 4").unwrap_err().kind, ErrorKind::Value);
    // A list with a non-integer element is fatal, never coerced.
    assert_eq!(parents_of_content("parents: [3, 1.5]").unwrap_err().kind, ErrorKind::Value);
    // A comma-string with a field that does not parse is fatal too.
    assert_eq!(parents_of_content("parents: '3, 4'").unwrap_err().kind, ErrorKind::Value);
}

#[test]
fn parents_dispatch_on_shapes_directly() {
    assert_eq!(normalize_parents(ParentsShape::Null).unwrap(), Vec::<u64>::new());
    assert_eq!(normalize_parents(ParentsShape::Integer(7)).unwrap(), vec![7]);
    // A negative value is reinterpreted two's-complement, as casting
    // the signed value to unsigned does.
    assert_eq!(normalize_parents(ParentsShape::Integer(-1)).unwrap(), vec![u64::MAX]);
    assert_eq!(
        normalize_parents(ParentsShape::IntList(vec![3, 4])).unwrap(),
        vec![3, 4]
    );
    assert_eq!(normalize_parents(ParentsShape::NonIntList).unwrap_err().kind, ErrorKind::Value);
    assert_eq!(
        normalize_parents(ParentsShape::Text("3,4".to_string())).unwrap(),
        vec![3, 4]
    );
    assert_eq!(
        normalize_parents(ParentsShape::Unparseable).unwrap_err().kind,
        ErrorKind::Value
    );
    assert_eq!(
        normalize_parents(ParentsShape::NoDocument).unwrap_err().kind,
        ErrorKind::Structure
    );
    assert_eq!(normalize_parents(ParentsShape::Real).unwrap_err().kind, ErrorKind::Structure);
    assert_eq!(normalize_parents(ParentsShape::Boolean).unwrap_err().kind, ErrorKind::Structure);
    assert_eq!(normalize_parents(ParentsShape::Mapping).unwrap_err().kind, ErrorKind::Structure);
    assert_eq!(normalize_parents(ParentsShape::Alias).unwrap_err().kind, ErrorKind::Structure);
    assert_eq!(normalize_parents(ParentsShape::BadValue).unwrap_err().kind, ErrorKind::Structure);
}

#[test]
fn phylogeny_skips_foreign_names_and_requires_content() {
    let files = vec![
        PhylogenyFile { name: "notes.txt".to_string(), content: None },
        PhylogenyFile {
            name: "parents_2.yaml".to_string(),
            content: Some("parents: null".to_string()),
        },
    ];
    let recs = load_phylogeny(&files).unwrap();
    assert_eq!(recs.len(), 1);
    assert_eq!(recs[0].id, 2);

    let unreadable = vec![PhylogenyFile { name: "parents_2.yaml".to_string(), content: None }];
    assert_eq!(load_phylogeny(&unreadable).unwrap_err().kind, ErrorKind::Io);
}

#[test]
fn legacy_yaml_normalization() {
    assert_eq!(normalize_legacy_yaml("parents:None"), "parents: null");
    assert_eq!(normalize_legacy_yaml("a:b"), "a: b");
    assert_eq!(normalize_legacy_yaml("NoNone"), "Nonull");
    assert_eq!(normalize_legacy_yaml(""), "");
}

#[test]
fn auxiliary_record_parsing() {
    let rows = load_extra_cosituated_data("header\n5\t(1, 2)\t(-3, 4)\textra\n").unwrap();
    assert_eq!(rows.len(), 1);
    assert_eq!(rows[0].0, 5);
    assert_eq!(rows[0].1.initial_position.x, "1");
    assert_eq!(rows[0].1.initial_position.y, "2");
    assert_eq!(rows[0].1.final_position.x, "-3");
    assert_eq!(rows[0].1.final_position.y, "4");
    assert!(rows[0].1.candidates.is_empty());

    assert!(load_extra_cosituated_data("").unwrap().is_empty());
    assert!(load_extra_cosituated_data("header only\n").unwrap().is_empty());
    assert_eq!(
        load_extra_cosituated_data("h\nx\t(1, 2)\t(3, 4)\n").unwrap_err().kind,
        ErrorKind::Value
    );
    assert_eq!(load_extra_cosituated_data("h\n5\n").unwrap_err().kind, ErrorKind::Structure);
    assert_eq!(
        load_extra_cosituated_data("h\n5\t(1, 2)\n").unwrap_err().kind,
        ErrorKind::Structure
    );
}

#[test]
fn tuple_notation_parsing() {
    let v = Vector2::parse_from_python("(12, -4)").unwrap();
    assert_eq!(v.x, "12");
    assert_eq!(v.y, "-4");
    // Leading zeros parse as the number they denote.
    let v = Vector2::parse_from_python("(007, 0)").unwrap();
    assert_eq!(v.x, "7");
    assert_eq!(v.y, "0");
    assert!(Vector2::parse_from_python("(12,-4)").is_err());
    assert!(Vector2::parse_from_python("12, -4").is_err());
    assert!(Vector2::parse_from_python("(12, -4, 5)").is_err());
    assert!(Vector2::parse_from_python("(a, 4)").is_err());

    let v = Vector3::parse_from_python("(1, 2, -3)").unwrap();
    assert_eq!(v.x, "1");
    assert_eq!(v.y, "2");
    assert_eq!(v.z, "-3");
    assert!(Vector3::parse_from_python("(1, 2)").is_err());
}

#[test]
fn species_membership_fan_out() {
    let dirs = vec![GenerationSpeciesDir {
        name: "generation_4".to_string(),
        files: vec![
            SpeciesFileEntry { name: "identifiers.txt".to_string(), record: None },
            SpeciesFileEntry {
                name: "species_2.yaml".to_string(),
                record: Some(Species {
                    id: 2,
                    age: SpeciesAge { evaluations: 1, generations: 1, no_improvements: 0 },
                    individuals_ids: vec![7, 8],
                }),
            },
        ],
    }];
    let scan = generate_shaphot_ids_generations_species(&dirs).unwrap();
    assert_eq!(scan.entries.len(), 2);
    assert_eq!(scan.entries[0].generation, 4);
    assert_eq!(scan.entries[0].individual, 7);
    assert_eq!(scan.entries[0].species, 2);
    assert_eq!(scan.entries[1].individual, 8);
    assert_eq!(scan.entries[0].pos_start.x, "0");
}

#[test]
fn species_id_must_match_its_file_name() {
    let dirs = vec![GenerationSpeciesDir {
        name: "generation_0".to_string(),
        files: vec![SpeciesFileEntry {
            name: "species_3.yaml".to_string(),
            record: Some(Species {
                id: 2,
                age: SpeciesAge { evaluations: 0, generations: 0, no_improvements: 0 },
                individuals_ids: vec![1],
            }),
        }],
    }];
    let e = generate_shaphot_ids_generations_species(&dirs).unwrap_err();
    assert_eq!(e.kind, ErrorKind::Structure);
}

#[test]
fn species_scan_skips_foreign_folders() {
    let dirs = vec![GenerationSpeciesDir { name: "selectedpop_3".to_string(), files: vec![] }];
    let scan = generate_shaphot_ids_generations_species(&dirs).unwrap();
    assert!(scan.entries.is_empty());
    assert_eq!(scan.skipped, vec!["selectedpop_3".to_string()]);
}

#[test]
fn descriptor_category_reading() {
    let names = behavioural_measures();
    // An absent file yields all measures absent.
    let vals = read_measures(None, &names, true).unwrap();
    assert_eq!(vals, vec![None, None, None, None]);
    // A present file must hold every expected measure.
    let content =
        "velocity 1\ndisplacement_velocity 2\ndisplacement_velocity_hill 3\nhead_balance 4\n"
            .to_string();
    let vals = read_measures(Some(&content), &names, true).unwrap();
    assert_eq!(
        vals,
        vec![
            Some("1".to_string()),
            Some("2".to_string()),
            Some("3".to_string()),
            Some("4".to_string())
        ]
    );
    // A missing key is fatal; an unparsable value is not.
    let short = "velocity 1\n".to_string();
    assert_eq!(read_measures(Some(&short), &names, true).unwrap_err().kind, ErrorKind::MissingKey);
    let lax =
        "velocity x\ndisplacement_velocity 2\ndisplacement_velocity_hill 3\nhead_balance 4\n"
            .to_string();
    assert_eq!(read_measures(Some(&lax), &names, true).unwrap()[0], None);
    // A third field on a line is fatal.
    let wide = "velocity 1 2\n".to_string();
    assert_eq!(read_measures(Some(&wide), &names, true).unwrap_err().kind, ErrorKind::Structure);
    // The empty behavioral file is fatal; the `None` token short-circuits.
    let empty = "".to_string();
    assert_eq!(read_measures(Some(&empty), &names, true).unwrap_err().kind, ErrorKind::Structure);
    let none_file = "None".to_string();
    assert_eq!(read_measures(Some(&none_file), &names, true).unwrap(), vec![None, None, None, None]);
    // The phenotype category does not recognize the token.
    let phe_names = phenotype_measures();
    assert_eq!(phe_names.len(), 24);
    assert_eq!(
        read_measures(Some(&none_file), &phe_names, false).unwrap_err().kind,
        ErrorKind::Structure
    );
}

#[test]
fn decimal_text_round_trip() {
    assert_eq!(parse_u64("0"), Some(0));
    assert_eq!(parse_u64("007"), Some(7));
    assert_eq!(parse_u64("+42"), Some(42));
    assert_eq!(parse_u64("18446744073709551615"), Some(u64::MAX));
    assert_eq!(parse_u64("18446744073709551616"), None);
    assert_eq!(parse_u64(""), None);
    assert_eq!(parse_u64("+"), None);
    assert_eq!(parse_u64("-1"), None);
    assert_eq!(parse_u64("4 "), None);
    assert_eq!(u64_to_string(0), "0");
    assert_eq!(u64_to_string(1230), "1230");
    assert_eq!(u64_to_string(u64::MAX), "18446744073709551615");
}

#[test]
fn trimming_and_filenames() {
    assert_eq!(trim("  a b\t"), "a b");
    assert_eq!(trim("\u{a0}x\u{a0}"), "x");
    assert_eq!(trim(""), "");
    assert_eq!(behaviour_descriptor_filename(10), "behavior_desc_10.txt");
    assert_eq!(phenotype_descriptor_filename(3), "phenotype_desc_3.txt");
}

#[test]
fn identify_last_flags_the_final_element() {
    let mut it = vec![1, 2, 3].identify_last();
    assert_eq!(it.len(), 3);
    assert_eq!(it.next(), Some((false, 1)));
    assert_eq!(it.next(), Some((false, 2)));
    assert_eq!(it.next(), Some((true, 3)));
    assert_eq!(it.next(), None);
}

#[test]
fn error_conversions_carry_kind_and_message() {
    let e = Error::new("plain".to_string());
    assert_eq!(e.kind, ErrorKind::Other);
    assert_eq!(e.message, "plain");
    let e = ErrorKind::Io.into_error("could not open".to_string());
    assert_eq!(e.kind, ErrorKind::Io);
    assert_eq!(e.message, "could not open");
    let r: Result<u8, ErrorKind> = Err(ErrorKind::Value);
    let e = r.into_error("bad number".to_string()).unwrap_err();
    assert_eq!(e.kind, ErrorKind::Value);
    assert_eq!(e.message, "bad number");
    let r: Result<u8, ErrorKind> = Ok(7);
    assert_eq!(r.into_error("unused".to_string()).unwrap(), 7);
}
