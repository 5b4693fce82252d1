use std::path::Path;
use webrender::geometry::DeviceSize;
use webrender::reftest::{
    blank_wide_spaces, data_uri_from_png, included_manifests, interpret_line, join,
    manifest_tests, parse_manifest, parse_number, readback_rect, reftest_passes, split,
    starts_with, strip_comments, ManifestEntry, ManifestError, Reftest, ReftestImage,
    ReftestImageComparison, ReftestManifest, ReftestOp, ReftestOptions, Separator,
};

fn image(data: Vec<u8>, width: u32, height: u32) -> ReftestImage {
    ReftestImage::new(data, DeviceSize::new(width, height)).unwrap()
}

fn test_of(op: ReftestOp, max_difference: usize, num_differences: usize) -> Reftest {
    Reftest {
        op,
        test: b"a.yaml".to_vec(),
        reference: b"b.png".to_vec(),
        max_difference,
        num_differences,
    }
}

fn entries(text: &str, options: &ReftestOptions) -> Result<Vec<ManifestEntry>, ManifestError> {
    parse_manifest(text.as_bytes(), &b"linux".to_vec(), options)
}

fn as_test(entry: &ManifestEntry) -> (&ReftestOp, String, String, usize, usize) {
    match entry {
        ManifestEntry::Test(t) => (
            &t.op,
            String::from_utf8(t.test.clone()).unwrap(),
            String::from_utf8(t.reference.clone()).unwrap(),
            t.max_difference,
            t.num_differences,
        ),
        ManifestEntry::Include(_) => panic!("an include"),
    }
}

#[test]
fn options_allow_nothing_by_default() {
    let o = ReftestOptions::default();
    assert_eq!(o.allow_max_difference, 0);
    assert_eq!(o.allow_num_differences, 0);
}

#[test]
fn operators_are_written_as_in_a_manifest() {
    assert_eq!(ReftestOp::Equal.to_string(), "==");
    assert_eq!(ReftestOp::NotEqual.to_string(), "!=");
    assert_eq!(test_of(ReftestOp::Equal, 0, 0).display(), b"a.yaml == b.png".to_vec());
    assert_eq!(test_of(ReftestOp::NotEqual, 0, 0).display(), b"a.yaml != b.png".to_vec());
}

#[test]
fn an_image_has_four_bytes_to_the_pixel() {
    assert!(ReftestImage::new(vec![0; 24], DeviceSize::new(2, 3)).is_some());
    assert!(ReftestImage::new(vec![0; 23], DeviceSize::new(2, 3)).is_none());
    assert!(ReftestImage::new(vec![], DeviceSize::new(0, 3)).is_some());
    assert!(ReftestImage::new(vec![], DeviceSize::new(u32::MAX, u32::MAX)).is_none());
}

#[test]
fn equal_images_compare_equal() {
    let a = image(vec![1, 2, 3, 4, 5, 6, 7, 8], 2, 1);
    let b = image(vec![1, 2, 3, 4, 5, 6, 7, 8], 2, 1);
    assert_eq!(a.compare(&b), ReftestImageComparison::Equal);
    let nothing = image(vec![], 0, 0);
    assert_eq!(nothing.compare(&image(vec![], 0, 0)), ReftestImageComparison::Equal);
}

#[test]
fn differing_pixels_are_counted_and_measured() {
    let a = image(vec![10, 10, 10, 10, 0, 0, 0, 0, 200, 0, 0, 255, 7, 7, 7, 7], 2, 2);
    let b = image(vec![10, 10, 13, 9, 0, 0, 0, 0, 100, 0, 0, 0, 7, 7, 7, 7], 2, 2);
    assert_eq!(
        a.compare(&b),
        ReftestImageComparison::NotEqual { max_difference: 255, count_different: 2 }
    );
    assert_eq!(
        b.compare(&a),
        ReftestImageComparison::NotEqual { max_difference: 255, count_different: 2 }
    );
    let c = image(vec![10, 10, 13, 9, 0, 0, 0, 0, 200, 0, 0, 255, 7, 7, 7, 7], 2, 2);
    assert_eq!(
        a.compare(&c),
        ReftestImageComparison::NotEqual { max_difference: 3, count_different: 1 }
    );
}

#[test]
fn a_fuzzy_test_passes_within_its_bounds() {
    let differs = ReftestImageComparison::NotEqual { max_difference: 3, count_different: 10 };
    assert!(reftest_passes(&test_of(ReftestOp::Equal, 0, 0), ReftestImageComparison::Equal));
    assert!(!reftest_passes(&test_of(ReftestOp::Equal, 0, 0), differs));
    assert!(reftest_passes(&test_of(ReftestOp::Equal, 3, 10), differs));
    assert!(!reftest_passes(&test_of(ReftestOp::Equal, 2, 10), differs));
    assert!(!reftest_passes(&test_of(ReftestOp::Equal, 3, 9), differs));
    assert!(reftest_passes(&test_of(ReftestOp::NotEqual, 0, 0), differs));
    assert!(!reftest_passes(&test_of(ReftestOp::NotEqual, 9, 9), ReftestImageComparison::Equal));
}

#[test]
fn the_bottom_left_of_the_window_is_read_back() {
    let window = DeviceSize::new(800, 600);
    assert_eq!(readback_rect(window, DeviceSize::new(100, 50)), Some((0, 550, 100, 50)));
    assert_eq!(readback_rect(window, window), Some((0, 0, 800, 600)));
    assert_eq!(readback_rect(window, DeviceSize::new(801, 1)), None);
    assert_eq!(readback_rect(window, DeviceSize::new(1, 601)), None);
}

#[test]
fn rows_are_flipped() {
    let rows = image(vec![1, 1, 1, 1, 2, 2, 2, 2, 3, 3, 3, 3, 4, 4, 4, 4, 5, 5, 5, 5, 6, 6, 6, 6], 2, 3);
    assert_eq!(
        rows.flip_rows(),
        vec![5, 5, 5, 5, 6, 6, 6, 6, 3, 3, 3, 3, 4, 4, 4, 4, 1, 1, 1, 1, 2, 2, 2, 2]
    );
    assert!(image(vec![], 0, 5).flip_rows().is_empty());
    let one = image(vec![9, 8, 7, 6], 1, 1);
    assert_eq!(one.flip_rows(), vec![9, 8, 7, 6]);
}

#[test]
fn a_data_uri_holds_the_base64_of_its_file() {
    assert_eq!(data_uri_from_png(&b"hello".to_vec()), "data:image/png;base64,aGVsbG8=");
    assert_eq!(data_uri_from_png(&vec![]), "data:image/png;base64,");
    assert_eq!(data_uri_from_png(&vec![0xff, 0xfe, 0xfd]), "data:image/png;base64,//79");
}

#[test]
fn an_image_becomes_the_data_uri_of_a_png_file() {
    let pixels = image(vec![255, 0, 0, 255, 0, 255, 0, 255], 1, 2);
    let uri = pixels.create_data_uri().unwrap();
    let prefix = "data:image/png;base64,";
    assert!(uri.starts_with(prefix));
    let file = base64::decode(&uri[prefix.len()..]).unwrap();
    assert_eq!(&file[..8], &[137, 80, 78, 71, 13, 10, 26, 10]);
    // The header names the size.
    assert_eq!(&file[12..16], b"IHDR");
    assert_eq!(&file[16..24], &[0, 0, 0, 1, 0, 0, 0, 2]);
    let decoded = image::load_from_memory(&file).unwrap().to_rgba();
    assert_eq!(decoded.dimensions(), (1, 2));
    // The rows come out in the opposite order.
    assert_eq!(decoded.into_raw(), vec![0, 255, 0, 255, 255, 0, 0, 255]);
    // The same image gives the same text.
    assert_eq!(pixels.create_data_uri().unwrap(), uri);
    // An image without pixels is refused by the encoder.
    assert_eq!(image(vec![], 0, 0).create_data_uri(), None);
}

#[test]
fn texts_split_at_their_separators() {
    let words: Vec<Vec<u8>> = split(b"  a bc\t\td \r\n", Separator::Whitespace);
    assert_eq!(words, vec![b"a".to_vec(), b"bc".to_vec(), b"d".to_vec()]);
    assert!(split(b"", Separator::Whitespace).is_empty());
    assert!(split(b" \n ", Separator::Whitespace).is_empty());
    assert_eq!(split(b"1,,2", Separator::Comma), vec![b"1".to_vec(), b"2".to_vec()]);
    assert_eq!(
        split(b"a b\n\nc", Separator::Newline),
        vec![b"a b".to_vec(), b"c".to_vec()]
    );
    assert_eq!(
        split(b"/x//y/", Separator::Slash),
        vec![b"x".to_vec(), b"y".to_vec()]
    );
}

#[test]
fn comments_run_to_the_end_of_their_line() {
    assert_eq!(strip_comments(b"a # b\nc#\n#d\ne"), b"a    \nc \n  \ne".to_vec());
    assert_eq!(strip_comments(b""), Vec::<u8>::new());
}

#[test]
fn numbers_are_decimal_digits() {
    assert_eq!(parse_number(&b"0".to_vec()), Some(0));
    assert_eq!(parse_number(&b"0042".to_vec()), Some(42));
    assert_eq!(parse_number(&b"".to_vec()), None);
    assert_eq!(parse_number(&b"4x".to_vec()), None);
    assert_eq!(parse_number(&b"-4".to_vec()), None);
    assert_eq!(parse_number(&b"+4".to_vec()), Some(4));
    assert_eq!(parse_number(&usize::MAX.to_string().into_bytes()), Some(usize::MAX));
    let mut too_large = usize::MAX.to_string().into_bytes();
    too_large.push(b'0');
    assert_eq!(parse_number(&too_large), None);
    assert_eq!(parse_number(&b"99999999999999999999999999x".to_vec()), None);
}

#[test]
fn a_manifest_lists_its_tests() {
    let text = "# Some tests\n\
                == a.yaml a-ref.yaml\n\
                \n\
                != b.yaml b-ref.png # not the same\n\
                c.yaml c.png\n\
                fuzzy(2,10) == d.yaml d-ref.yaml\n\
                != fuzzy(1,1) e.yaml e.png\n";
    let found = entries(text, &ReftestOptions::default()).unwrap();
    assert_eq!(found.len(), 5);
    assert_eq!(
        as_test(&found[0]),
        (&ReftestOp::Equal, "a.yaml".to_string(), "a-ref.yaml".to_string(), 0, 0)
    );
    assert_eq!(
        as_test(&found[1]),
        (&ReftestOp::NotEqual, "b.yaml".to_string(), "b-ref.png".to_string(), 0, 0)
    );
    assert_eq!(
        as_test(&found[2]),
        (&ReftestOp::Equal, "c.yaml".to_string(), "c.png".to_string(), 0, 0)
    );
    assert_eq!(
        as_test(&found[3]),
        (&ReftestOp::Equal, "d.yaml".to_string(), "d-ref.yaml".to_string(), 2, 10)
    );
    assert_eq!(
        as_test(&found[4]),
        (&ReftestOp::NotEqual, "e.yaml".to_string(), "e.png".to_string(), 1, 1)
    );
}

#[test]
fn options_override_what_is_lower() {
    let options = ReftestOptions { allow_max_difference: 5, allow_num_differences: 3 };
    let found = entries("fuzzy(2,10) == a b\n== c d", &options).unwrap();
    assert_eq!(as_test(&found[0]).3, 5);
    assert_eq!(as_test(&found[0]).4, 10);
    assert_eq!(as_test(&found[1]).3, 5);
    assert_eq!(as_test(&found[1]).4, 3);
}

#[test]
fn lines_for_other_platforms_are_dropped() {
    let text = "platform(linux,mac) == a b\n\
                platform(win) == c d\n\
                platform(mac,linux) fuzzy(1,2) != e f\n\
                platform == g h\n";
    let found = entries(text, &ReftestOptions::default()).unwrap();
    assert_eq!(found.len(), 2);
    assert_eq!(as_test(&found[0]).1, "a");
    assert_eq!(
        as_test(&found[1]),
        (&ReftestOp::NotEqual, "e".to_string(), "f".to_string(), 1, 2)
    );
    let on_windows =
        parse_manifest(text.as_bytes(), &b"win".to_vec(), &ReftestOptions::default()).unwrap();
    assert_eq!(on_windows.len(), 1);
    assert_eq!(as_test(&on_windows[0]).1, "c");
}

#[test]
fn includes_name_other_manifests() {
    let found = entries("include sub/reftest.list\n== a b", &ReftestOptions::default()).unwrap();
    assert_eq!(found.len(), 2);
    match &found[0] {
        ManifestEntry::Include(path) => assert_eq!(path, &b"sub/reftest.list".to_vec()),
        ManifestEntry::Test(_) => panic!("a test"),
    }
}

#[test]
fn faulty_lines_are_told() {
    let options = ReftestOptions::default();
    assert_eq!(entries("== include x", &options).err(), Some(ManifestError::IncludeNotFirst));
    assert_eq!(entries("include", &options).err(), Some(ManifestError::MissingPath));
    assert_eq!(entries("== a", &options).err(), Some(ManifestError::MissingPath));
    assert_eq!(entries("fuzzy(1) == a b", &options).err(), Some(ManifestError::BadFuzzy));
    assert_eq!(entries("fuzzy(1,x) == a b", &options).err(), Some(ManifestError::BadFuzzy));
    assert_eq!(entries("fuzzy == a b", &options).err(), Some(ManifestError::BadFuzzy));
    assert_eq!(
        entries("== a b\nfuzzy(1,2\n== c", &options).err(),
        Some(ManifestError::BadFuzzy)
    );
    // A line of modifiers alone asks for nothing.
    assert!(entries("== != fuzzy(1,2)", &options).unwrap().is_empty());
}

#[test]
fn one_line_can_be_read_by_its_words() {
    let words = vec![b"!=".to_vec(), b"x.yaml".to_vec(), b"y.yaml".to_vec(), b"more".to_vec()];
    let entry = interpret_line(&words, &b"linux".to_vec(), &ReftestOptions::default())
        .unwrap()
        .unwrap();
    assert_eq!(
        as_test(&entry),
        (&ReftestOp::NotEqual, "x.yaml".to_string(), "y.yaml".to_string(), 0, 0)
    );
    assert!(interpret_line(&vec![], &b"linux".to_vec(), &ReftestOptions::default())
        .unwrap()
        .is_none());
}

#[test]
fn paths_start_with_whole_names() {
    let yes = [
        ("reftests/border/a.yaml", "reftests"),
        ("reftests/border/a.yaml", "reftests/border/"),
        ("reftests/border/a.yaml", "reftests//border/a.yaml"),
        ("reftests/border/a.yaml", ""),
        ("/abs/a", "/abs"),
        ("/abs/a", "/"),
        ("a/./b", "a/b"),
        ("a/b/.", "a/b"),
        ("a/b", "a/./b/."),
        ("d/./sub/x.yaml", "d/sub"),
        ("./a/b", "./a"),
        ("./a/b", "."),
        ("/./a", "/a"),
        (".", ""),
    ];
    let no = [
        ("./a/b", "a"),
        ("a/b", "./a"),
        ("a/b", "."),
        ("a/../b", "a/b"),
        ("a/.b", "a/b"),
        ("reftests/border/a.yaml", "ref"),
        ("reftests/border/a.yaml", "reftests/bord"),
        ("reftests/border/a.yaml", "border"),
        ("reftests/a", "reftests/a/b"),
        ("/abs/a", "abs"),
        ("abs/a", "/abs"),
        ("abs/a", "/"),
    ];
    for (path, prefix) in yes.iter() {
        assert!(starts_with(&path.as_bytes().to_vec(), &prefix.as_bytes().to_vec()));
    }
    for (path, prefix) in no.iter() {
        assert!(!starts_with(&path.as_bytes().to_vec(), &prefix.as_bytes().to_vec()));
    }
}

#[test]
fn paths_start_as_the_paths_of_the_system_do() {
    let paths = [
        "", ".", "..", "/", "//", "a", "a/", "a/b", "a//b", "a/./b", "a/b/.", "./a", "./a/b",
        "././a", "/a", "/a/b", "/./a", "/a/./b", "a/../b", "../a", ".a", "a/.b", "a/b/c", "/.",
        "./", "a/.", "/a/", "ab", "a b/c",
    ];
    for path in paths.iter() {
        for prefix in paths.iter() {
            assert_eq!(
                starts_with(&path.as_bytes().to_vec(), &prefix.as_bytes().to_vec()),
                Path::new(path).starts_with(Path::new(prefix)),
                "{:?} and {:?}",
                path,
                prefix
            );
        }
    }
}

#[test]
fn paths_are_joined_as_the_paths_of_the_system_are() {
    assert_eq!(join(&b"/m".to_vec(), &b"a.yaml".to_vec()), b"/m/a.yaml".to_vec());
    assert_eq!(join(&b"d/".to_vec(), &b"sub/r.list".to_vec()), b"d/sub/r.list".to_vec());
    assert_eq!(join(&b"d".to_vec(), &b"/abs/x".to_vec()), b"/abs/x".to_vec());
    assert_eq!(join(&b"".to_vec(), &b"x".to_vec()), b"x".to_vec());
    assert_eq!(join(&b"d".to_vec(), &b"".to_vec()), b"d/".to_vec());
    let parts = ["", "/", "a", "a/", "/a", "a/b", "./a", "..", "a//", "/a/b/"];
    for dir in parts.iter() {
        for path in parts.iter() {
            assert_eq!(
                join(&dir.as_bytes().to_vec(), &path.as_bytes().to_vec()),
                Path::new(dir).join(path).to_str().unwrap().as_bytes().to_vec(),
                "{:?} and {:?}",
                dir,
                path
            );
        }
    }
}

#[test]
fn numbers_are_read_as_the_system_reads_them() {
    assert_eq!(parse_number(&b"+5".to_vec()), Some(5));
    assert_eq!(parse_number(&b"+".to_vec()), None);
    assert_eq!(parse_number(&b"++5".to_vec()), None);
    assert_eq!(parse_number(&b"5+".to_vec()), None);
    let mut texts: Vec<String> = [
        "", "+", "-", "0", "+0", "-0", "007", "+007", "12", "1 2", " 12", "12 ", "+-1", "1e3",
        "0x10", "١٢",
    ]
    .iter()
    .map(|t| t.to_string())
    .collect();
    texts.push(usize::MAX.to_string());
    texts.push(format!("+{}", usize::MAX));
    texts.push(format!("{}0", usize::MAX));
    texts.push(format!("{}", usize::MAX as u128 + 1));
    for text in texts.iter() {
        assert_eq!(
            parse_number(&text.as_bytes().to_vec()),
            text.parse::<usize>().ok(),
            "{:?}",
            text
        );
    }
}

#[test]
fn words_stand_between_blanks_of_any_kind() {
    let texts = [
        "== a.yaml b.png",
        "==\u{a0}a.yaml\u{2003}b.png",
        "\u{3000}!=\u{85}c.yaml\u{1680}\u{2000}\u{200a}d.yaml\u{2028}\u{2029}",
        "a\u{202f}b\u{205f}c\u{b}d\u{c}e\tf\rg",
        "no\u{200b}break\u{feff}here\u{2060}",
        "é\u{a0}ü \u{2001}\u{e2}\u{80}x",
        "",
        "\u{a0}",
    ];
    for text in texts.iter() {
        let plain = blank_wide_spaces(text.as_bytes());
        assert_eq!(plain.len(), text.len());
        let words: Vec<Vec<u8>> = split(&plain, Separator::Whitespace);
        let wanted: Vec<Vec<u8>> =
            text.split_whitespace().map(|w| w.as_bytes().to_vec()).collect();
        assert_eq!(words, wanted, "{:?}", text);
    }
    let found = entries("fuzzy(1,2)\u{a0}!=\u{3000}a.yaml\u{2002}b.png\u{2009}# done", &ReftestOptions::default())
        .unwrap();
    assert_eq!(found.len(), 1);
    assert_eq!(
        as_test(&found[0]),
        (&ReftestOp::NotEqual, "a.yaml".to_string(), "b.png".to_string(), 1, 2)
    );
}

fn manifest_of(dir: &str, text: &str, options: &ReftestOptions, included: Vec<Vec<Reftest>>) -> ReftestManifest {
    ReftestManifest::new(
        &dir.as_bytes().to_vec(),
        text.as_bytes(),
        &b"linux".to_vec(),
        options,
        &included,
    )
    .unwrap()
}

fn shown(t: &Reftest) -> (ReftestOp, String, String, usize, usize) {
    (
        t.op,
        String::from_utf8(t.test.clone()).unwrap(),
        String::from_utf8(t.reference.clone()).unwrap(),
        t.max_difference,
        t.num_differences,
    )
}

#[test]
fn the_tests_of_a_manifest_lie_in_its_directory() {
    let options = ReftestOptions { allow_max_difference: 3, allow_num_differences: 1 };
    let m = manifest_of("/m", "fuzzy(2,5) == a.yaml b.png", &options, vec![]);
    assert_eq!(m.reftests.len(), 1);
    assert_eq!(
        shown(&m.reftests[0]),
        (ReftestOp::Equal, "/m/a.yaml".to_string(), "/m/b.png".to_string(), 3, 5)
    );
    let m = manifest_of("/m", "!= c.yaml d.yaml   # must differ", &ReftestOptions::default(), vec![]);
    assert_eq!(m.reftests.len(), 1);
    assert_eq!(
        shown(&m.reftests[0]),
        (ReftestOp::NotEqual, "/m/c.yaml".to_string(), "/m/d.yaml".to_string(), 0, 0)
    );
    let m = manifest_of("d", "== /abs/e.yaml f.png", &ReftestOptions::default(), vec![]);
    assert_eq!(
        shown(&m.reftests[0]),
        (ReftestOp::Equal, "/abs/e.yaml".to_string(), "d/f.png".to_string(), 0, 0)
    );
}

#[test]
fn included_tests_stand_where_their_manifest_is_included() {
    let options = ReftestOptions::default();
    let text = "== a.yaml a.png\ninclude sub/r.list\n!= b.yaml b.png\ninclude ./other/r.list\n== c.yaml c.png\n";
    let found = entries(text, &options).unwrap();
    assert_eq!(
        included_manifests(&b"d".to_vec(), &found),
        vec![b"d/sub/r.list".to_vec(), b"d/./other/r.list".to_vec()]
    );
    let sub = manifest_of("d/sub", "== s1.yaml s1.png\n== s2.yaml s2.png\n", &options, vec![]);
    let other = manifest_of("d/./other", "!= o.yaml o.png\n", &options, vec![]);
    let m = manifest_of("d", text, &options, vec![sub.reftests, other.reftests]);
    let tests: Vec<String> =
        m.reftests.iter().map(|t| String::from_utf8(t.test.clone()).unwrap()).collect();
    assert_eq!(
        tests,
        vec!["d/a.yaml", "d/sub/s1.yaml", "d/sub/s2.yaml", "d/b.yaml", "d/./other/o.yaml", "d/c.yaml"]
    );
    assert_eq!(m.reftests[4].op, ReftestOp::NotEqual);
    // A test below an include with a dot is found by the plain prefix.
    assert_eq!(m.find(&b"d/other".to_vec()), vec![4]);
    assert_eq!(m.find(&b"d/sub".to_vec()), vec![1, 2]);
    // An include line without its tests stands for none.
    let bare = manifest_tests(&b"d".to_vec(), &found, &vec![]);
    assert_eq!(bare.len(), 3);
    let one = manifest_tests(
        &b"d".to_vec(),
        &found,
        &vec![vec![test_of(ReftestOp::Equal, 1, 2)]],
    );
    assert_eq!(one.len(), 4);
    assert_eq!(shown(&one[1]), (ReftestOp::Equal, "a.yaml".to_string(), "b.png".to_string(), 1, 2));
}

#[test]
fn a_faulty_manifest_gives_no_tests() {
    let options = ReftestOptions::default();
    let dir = b"d".to_vec();
    let platform = b"linux".to_vec();
    let fault = |text: &str| {
        ReftestManifest::new(&dir, text.as_bytes(), &platform, &options, &vec![]).err()
    };
    assert_eq!(fault("== include b.list"), Some(ManifestError::IncludeNotFirst));
    assert_eq!(fault("== a.yaml"), Some(ManifestError::MissingPath));
    assert_eq!(fault("fuzzy(1) == a.yaml b.png"), Some(ManifestError::BadFuzzy));
    assert_eq!(fault("== a.yaml b.png"), None);
}

#[test]
fn an_image_without_pixels_has_no_data_uri() {
    assert_eq!(image(vec![], 0, 0).create_data_uri(), None);
    assert_eq!(image(vec![], 0, 7).create_data_uri(), None);
    assert_eq!(image(vec![], 7, 0).create_data_uri(), None);
    assert!(image(vec![1, 2, 3, 4], 1, 1).create_data_uri().is_some());
}

#[test]
fn tests_are_found_by_either_path() {
    let mut manifest = ReftestManifest { reftests: Vec::new() };
    for (test, reference) in [("a/x.yaml", "a/x.png"), ("b/y.yaml", "a/y.png"), ("c/z.yaml", "c/z.png")] {
        manifest.reftests.push(Reftest {
            op: ReftestOp::Equal,
            test: test.as_bytes().to_vec(),
            reference: reference.as_bytes().to_vec(),
            max_difference: 0,
            num_differences: 0,
        });
    }
    assert_eq!(manifest.find(&b"a".to_vec()), vec![0, 1]);
    assert_eq!(manifest.find(&b"b".to_vec()), vec![1]);
    assert_eq!(manifest.find(&b"c/z.png".to_vec()), vec![2]);
    assert_eq!(manifest.find(&b"".to_vec()), vec![0, 1, 2]);
    assert!(manifest.find(&b"d".to_vec()).is_empty());
}
