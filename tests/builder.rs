use rcore_lab::artifact::{emit, AsmLine};
use rcore_lab::discover::{is_source, program_names, stem, DirEntry};
use rcore_lab::order::name_le;
use rcore_lab::placement::{profile_of, Placement, Profile, CH3_APP_BASE, CH3_APP_STEP};
use rcore_lab::plan::build_plan;
use rcore_lab::table::{image_table, parse_header};

fn file(name: &str) -> DirEntry {
    DirEntry { name: name.as_bytes().to_vec(), is_file: true }
}

fn dir(name: &str) -> DirEntry {
    DirEntry { name: name.as_bytes().to_vec(), is_file: false }
}

fn names_of(v: &[Vec<u8>]) -> Vec<String> {
    v.iter().map(|n| String::from_utf8(n.clone()).unwrap()).collect()
}

#[test]
fn source_names_need_the_rs_extension() {
    assert!(is_source(&b"a.rs".to_vec()));
    assert!(is_source(&b"..rs".to_vec()));
    assert!(!is_source(&b".rs".to_vec()));
    assert!(!is_source(&b"a.rsx".to_vec()));
    assert!(!is_source(&b"a.r".to_vec()));
    assert!(!is_source(&b"rs".to_vec()));
}

#[test]
fn stem_drops_only_the_extension() {
    assert_eq!(stem(&b"hello.rs".to_vec()), b"hello".to_vec());
    assert_eq!(stem(&b"a.b.rs".to_vec()), b"a.b".to_vec());
    assert_eq!(stem(&b".hidden.rs".to_vec()), b".hidden".to_vec());
    assert_eq!(stem(&b"..rs".to_vec()), b".".to_vec());
    assert_eq!(stem(&b"plain".to_vec()), b"plain".to_vec());
    assert_eq!(stem(&b"notes.txt".to_vec()), b"notes.txt".to_vec());
}

#[test]
fn byte_order_is_lexicographic() {
    assert!(name_le(&b"a".to_vec(), &b"b".to_vec()));
    assert!(!name_le(&b"b".to_vec(), &b"a".to_vec()));
    assert!(name_le(&b"ab".to_vec(), &b"abc".to_vec()));
    assert!(!name_le(&b"abc".to_vec(), &b"ab".to_vec()));
    assert!(name_le(&b"Z".to_vec(), &b"a".to_vec()));
    assert!(name_le(&b"same".to_vec(), &b"same".to_vec()));
}

#[test]
fn discovery_filters_and_sorts() {
    let es = vec![
        file("c.rs"),
        dir("d.rs"),
        file("notes.txt"),
        file("a.rs"),
        file("b.rs"),
        file(".rs"),
        file("a.b.rs"),
    ];
    assert_eq!(names_of(&program_names(&es)), vec!["a", "a.b", "b", "c"]);
}

#[test]
fn discovery_is_repeatable_and_order_free() {
    let one = vec![file("c.rs"), file("a.rs"), file("b.rs")];
    let two = vec![file("b.rs"), file("c.rs"), file("a.rs")];
    let first = program_names(&one);
    let again = program_names(&one);
    assert_eq!(first, again);
    assert_eq!(first, program_names(&two));
}

#[test]
fn discovery_of_empty_directory() {
    assert!(program_names(&vec![]).is_empty());
    assert!(program_names(&vec![dir("x.rs"), file("y.txt")]).is_empty());
}

#[test]
fn profiles_of_known_chapters() {
    assert_eq!(profile_of(2), Some(Profile::Ch2));
    assert_eq!(profile_of(3), Some(Profile::Ch3));
    assert_eq!(
        Profile::Ch2.placement(),
        Placement { base: 0x8040_0000, step: 0 }
    );
    assert_eq!(
        Profile::Ch3.placement(),
        Placement { base: 0x8040_0000, step: 0x2_0000 }
    );
}

#[test]
fn unknown_profile_is_refused() {
    for ch in [0u8, 1, 4, 5, 255] {
        assert_eq!(profile_of(ch), None);
    }
}

#[test]
fn step_zero_shares_one_base() {
    let p = Placement { base: 0x8040_0000, step: 0 };
    assert_eq!(p.assign_bases(4), Some(vec![0x8040_0000; 4]));
}

#[test]
fn positive_step_spaces_programs() {
    let p = Placement { base: 100, step: 7 };
    assert_eq!(p.assign_bases(4), Some(vec![100, 107, 114, 121]));
    assert_eq!(p.base_address(10), Some(170));
    assert_eq!(p.assign_bases(0), Some(vec![]));
}

#[test]
fn addresses_past_64_bits_are_refused() {
    let p = Placement { base: u64::MAX - 5, step: 3 };
    assert_eq!(p.assign_bases(2), Some(vec![u64::MAX - 5, u64::MAX - 2]));
    assert_eq!(p.assign_bases(3), None);
    assert_eq!(p.base_address(u64::MAX), None);
}

#[test]
fn table_labels_delimit_each_program() {
    let p = Placement { base: 0x1000, step: 0x100 };
    let t = image_table(p, &vec![10, 0, 25]).unwrap();
    assert_eq!(t.count(), 3);
    assert_eq!(t.bounds, vec![0, 10, 10, 35]);
    assert_eq!((t.base, t.step), (0x1000, 0x100));
}

#[test]
fn table_sizes_round_trip() {
    let sizes = vec![4096, 1, 77, 0, 12345];
    let t = image_table(Placement { base: 0, step: 0 }, &sizes).unwrap();
    assert_eq!(t.image_sizes(), sizes);
}

#[test]
fn table_overflow_is_refused() {
    let p = Placement { base: 0, step: 0 };
    assert!(image_table(p, &vec![u64::MAX, 1]).is_none());
    assert!(image_table(p, &vec![u64::MAX]).is_some());
}

#[test]
fn no_programs_no_artifact() {
    let es = vec![file("README.md")];
    let names = program_names(&es);
    assert!(names.is_empty());
    let sizes: Vec<u64> = names.iter().map(|_| 1).collect();
    assert!(image_table(Placement { base: CH3_APP_BASE, step: CH3_APP_STEP }, &sizes).is_none());
}

#[test]
fn artifact_lines_in_order() {
    let t = image_table(Placement { base: 0x10, step: 0x20 }, &vec![3, 4]).unwrap();
    assert_eq!(
        emit(&t),
        vec![
            AsmLine::Preamble,
            AsmLine::QuadHex(0x10),
            AsmLine::QuadHex(0x20),
            AsmLine::QuadDec(2),
            AsmLine::QuadLabel(0),
            AsmLine::QuadLabel(1),
            AsmLine::QuadLabel(2),
            AsmLine::Label(0),
            AsmLine::IncBin(0),
            AsmLine::Label(1),
            AsmLine::IncBin(1),
            AsmLine::Label(2),
        ]
    );
}

#[test]
fn three_programs_end_to_end() {
    let es = vec![file("c.rs"), file("a.rs"), file("b.rs")];
    let names = program_names(&es);
    assert_eq!(names_of(&names), vec!["a", "b", "c"]);
    let p = profile_of(3).unwrap().placement();
    let plan = build_plan(p, &names).unwrap();
    let got: Vec<(String, u64)> = plan
        .iter()
        .map(|s| (String::from_utf8(s.name.clone()).unwrap(), s.base_address))
        .collect();
    assert_eq!(
        got,
        vec![
            ("a".to_string(), 0x8040_0000),
            ("b".to_string(), 0x8042_0000),
            ("c".to_string(), 0x8044_0000),
        ]
    );
    let sizes = vec![1200, 344, 5000];
    let t = image_table(p, &sizes).unwrap();
    assert_eq!(t.count(), 3);
    assert_eq!(t.bounds.len(), 4);
    for i in 0..3 {
        assert_eq!(t.bounds[i + 1] - t.bounds[i], sizes[i]);
    }
    let lines = emit(&t);
    assert_eq!(lines[3], AsmLine::QuadDec(3));
    assert_eq!(lines[1], AsmLine::QuadHex(0x8040_0000));
    assert_eq!(lines[2], AsmLine::QuadHex(0x2_0000));
}

#[test]
fn header_words_layout() {
    let t = image_table(Placement { base: 0x8040_0000, step: 0x2_0000 }, &vec![5, 6]).unwrap();
    assert_eq!(t.header_words(), vec![0x8040_0000, 0x2_0000, 2, 0, 5, 11]);
}

#[test]
fn header_parse_round_trip() {
    let sizes = vec![1200, 344, 5000];
    let t = image_table(Placement { base: 7, step: 9 }, &sizes).unwrap();
    let back = parse_header(&t.header_words()).unwrap();
    assert_eq!((back.base, back.step), (7, 9));
    assert_eq!(back.count(), 3);
    assert_eq!(back.image_sizes(), sizes);
}

#[test]
fn malformed_headers_are_refused() {
    assert!(parse_header(&vec![1, 2, 0]).is_none());
    assert!(parse_header(&vec![1, 2, 2, 0, 5]).is_none());
    assert!(parse_header(&vec![1, 2, 1, 3, 5]).is_none());
    assert!(parse_header(&vec![1, 2, 2, 0, 5, 4]).is_none());
    assert!(parse_header(&vec![1, 2, 0, 0]).is_some());
}
