use silence_cutter::paths::{
    generate_output_path, output_file_name, output_path_in, split_file_name,
};

#[test]
fn file_names_are_split_at_the_last_dot() {
    let split = |name: &str| split_file_name(name);
    assert_eq!(split("talk.mp4"), ("talk".to_string(), Some("mp4".to_string())));
    assert_eq!(split("a.b.c"), ("a.b".to_string(), Some("c".to_string())));
    assert_eq!(split("talk."), ("talk".to_string(), Some("".to_string())));
    assert_eq!(split(".hidden"), (".hidden".to_string(), None));
    assert_eq!(split("plain"), ("plain".to_string(), None));
    assert_eq!(split("讲座.mov"), ("讲座".to_string(), Some("mov".to_string())));
    for name in ["talk.mp4", "a.b.c", "talk.", ".hidden", "plain", "讲座.mov", ".a.b"] {
        let path = std::path::Path::new(name);
        let (stem, extension) = split(name);
        assert_eq!(Some(stem.as_str()), path.file_stem().and_then(|s| s.to_str()));
        assert_eq!(extension.as_deref(), path.extension().and_then(|s| s.to_str()));
    }
}

#[test]
fn cut_names() {
    let stamp = "20240102_030405";
    assert_eq!(
        output_file_name(Some("talk.mov".to_string()), stamp),
        "talk_20240102_030405_cut.mov"
    );
    assert_eq!(
        output_file_name(Some("talk".to_string()), stamp),
        "talk_20240102_030405_cut.mp4"
    );
    assert_eq!(output_file_name(None, stamp), "output_20240102_030405_cut.mp4");
}

fn stamp_of(path: &str, before: &str, after: &str) -> String {
    assert!(path.starts_with(before), "{}", path);
    assert!(path.ends_with(after), "{}", path);
    path[before.len()..path.len() - after.len()].to_string()
}

fn check_stamp(stamp: &str) {
    assert_eq!(stamp.len(), 15);
    assert_eq!(stamp.as_bytes()[8], b'_');
    let number = |from: usize, to: usize| stamp[from..to].parse::<u32>().unwrap();
    assert!(number(0, 4) >= 2000);
    assert!((1..=12).contains(&number(4, 6)));
    assert!((1..=31).contains(&number(6, 8)));
    assert!(number(9, 11) < 24);
    assert!(number(11, 13) < 60);
    assert!(number(13, 15) <= 60);
}

#[test]
fn output_is_beside_the_input() {
    check_stamp(&stamp_of(&generate_output_path("/clips/talk.mov"), "/clips/talk_", "_cut.mov"));
    check_stamp(&stamp_of(&generate_output_path("clips/a.b.mp4"), "clips/a.b_", "_cut.mp4"));
    check_stamp(&stamp_of(&generate_output_path("talk"), "talk_", "_cut.mp4"));
    check_stamp(&stamp_of(&generate_output_path("clips/.hidden"), "clips/.hidden_", "_cut.mp4"));
}

#[test]
fn output_of_a_path_without_a_name() {
    check_stamp(&stamp_of(&generate_output_path("/"), "./output_", "_cut.mp4"));
    check_stamp(&stamp_of(&generate_output_path("clips/.."), "clips/output_", "_cut.mp4"));
    check_stamp(&stamp_of(&generate_output_path(""), "./output_", "_cut.mp4"));
}

#[test]
fn output_stamp_is_the_local_time() {
    let before = chrono::Local::now().format("%Y%m%d_%H%M%S").to_string();
    let path = generate_output_path("talk.mp4");
    let after = chrono::Local::now().format("%Y%m%d_%H%M%S").to_string();
    let stamp = stamp_of(&path, "talk_", "_cut.mp4");
    assert!(before <= stamp && stamp <= after);
}

#[test]
fn output_never_replaces_the_input() {
    for path in ["talk.mp4", "talk", "clips/a.b.mov", ".hidden", "x_cut.mp4"] {
        let output = generate_output_path(path);
        assert_ne!(output, path);
        assert!(output.len() > path.len());
    }
}

#[test]
fn output_beside_inputs_of_all_kinds() {
    for (input, before, after) in [
        ("/v/a.tar.mov", "/v/a.tar_", "_cut.mov"),
        ("/v/a", "/v/a_", "_cut.mp4"),
        ("/a.mp4", "/a_", "_cut.mp4"),
        ("a.mp4", "a_", "_cut.mp4"),
        ("./a.mp4", "./a_", "_cut.mp4"),
        ("v/./a.mp4", "v/a_", "_cut.mp4"),
        ("v../a.mp4", "v../a_", "_cut.mp4"),
        ("v//a.mp4", "v/a_", "_cut.mp4"),
        ("C:/v/a.mp4", "C:/v/a_", "_cut.mp4"),
        ("C:/a.mp4", "C:/a_", "_cut.mp4"),
        ("/o/10:30.mp4", "/o/10:30_", "_cut.mp4"),
        ("C:\\v\\a.mp4", "C:\\v\\a_", "_cut.mp4"),
        ("v/a.mp4/", "v/a_", "_cut.mp4"),
        ("v/a.mp4/.", "v/a_", "_cut.mp4"),
        ("/a/./", "/a_", "_cut.mp4"),
        ("x\\y/c.mp4", "x\\y/c_", "_cut.mp4"),
        ("//server/share/a.mp4", "//server/share/a_", "_cut.mp4"),
    ] {
        let path = generate_output_path(input);
        check_stamp(&stamp_of(&path, before, after));
        assert_ne!(path, input);
    }
}

#[test]
fn output_path_from_its_parts() {
    let some = |s: &str| Some(s.to_string());
    let stamp = "20240102_030405";
    assert_eq!(
        output_path_in(some("/v"), some("a.tar.mov"), stamp),
        "/v/a.tar_20240102_030405_cut.mov"
    );
    assert_eq!(output_path_in(some(""), some("a"), stamp), "a_20240102_030405_cut.mp4");
    assert_eq!(output_path_in(None, None, stamp), "./output_20240102_030405_cut.mp4");
    assert_eq!(output_path_in(some("v/"), None, stamp), "v/output_20240102_030405_cut.mp4");
    assert_eq!(
        output_path_in(some("v"), some("x\\y.mp4"), stamp),
        "v/x\\y_20240102_030405_cut.mp4"
    );
}
