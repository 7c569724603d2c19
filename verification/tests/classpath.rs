use java_class_parser::classpath::{
    entry_kind, extension, file_below, resource_name, split_text, EntryKind, Next, Probed,
    Resolution,
};
use java_class_parser::{Classpath, CLASSPATH_SEPARATOR};

#[test]
fn join() {
    let cp1 = Classpath::from("path1");
    let cp2 = Classpath::from("path2");
    assert_eq!(cp1.join(cp2), Classpath::from_iter(["path1", "path2"]));
}

#[test]
fn add_classpaths() {
    let mut cp = Classpath::new();
    cp = cp + Classpath::from("path1");
    cp += Classpath::from_iter(["path2", "path3"]);
    assert_eq!(cp, Classpath::from_iter(["path1", "path2", "path3"]));
}

#[test]
fn from_string() {
    let classpath: Classpath = format!("path1{}path2", CLASSPATH_SEPARATOR)
        .parse()
        .unwrap();
    assert_eq!(classpath, Classpath::from_iter(["path1", "path2"]))
}

#[test]
fn as_text() {
    let cp = Classpath::from_iter(["path1", "path2"]);
    assert_eq!(cp.joined(), format!("path1{}path2", CLASSPATH_SEPARATOR));
    assert_eq!(Classpath::new().joined(), "");
    assert_eq!(Classpath::from_iter(["", "a", "", "b"]).joined(), "a::b");
}

#[test]
fn written_class_paths_are_read_back() {
    for entries in [vec!["a"], vec!["lib/app.jar", "classes", "out/Square.class"]] {
        let mut cp = Classpath::new();
        for entry in &entries {
            cp.push_back(entry);
        }
        let read: Classpath = cp.joined().parse().unwrap();
        assert_eq!(read, cp);
    }
}

#[test]
fn entries_keep_their_order() {
    let mut cp = Classpath::new();
    assert!(cp.is_empty());
    assert_eq!(cp.len(), 0);
    cp.push_back("b");
    cp.push_front("a");
    cp.push_back("c");
    assert!(!cp.is_empty());
    assert_eq!(cp.len(), 3);
    assert_eq!(cp.entry(0), Some("a"));
    assert_eq!(cp.entry(1), Some("b"));
    assert_eq!(cp.entry(2), Some("c"));
    assert_eq!(cp.entry(3), None);
    cp.extend(Classpath::from(String::from("d")));
    assert_eq!(cp, Classpath::from(vec![
        "a".to_string(),
        "b".to_string(),
        "c".to_string(),
        "d".to_string()
    ]));
    assert_eq!(Classpath::default(), Classpath::new());
}

#[test]
fn splitting_keeps_empty_pieces() {
    assert_eq!(split_text("", ':'), vec![String::new()]);
    assert_eq!(split_text("a", ':'), vec!["a".to_string()]);
    assert_eq!(split_text("a:", ':'), vec!["a".to_string(), String::new()]);
    assert_eq!(
        split_text(":a::b", ':'),
        vec![String::new(), "a".to_string(), String::new(), "b".to_string()]
    );
    assert_eq!(Classpath::parse_with("x;y", ';'), Classpath::from_iter(["x", "y"]));
    assert_eq!(Classpath::parse_with("x;y", ':'), Classpath::from_iter(["x;y"]));
}

#[test]
fn extension_is_read_off_the_last_component() {
    assert_eq!(extension("lib/app.jar"), Some("jar"));
    assert_eq!(extension("app.tar.zip"), Some("zip"));
    assert_eq!(extension("lib.d/app"), None);
    assert_eq!(extension("lib/.hidden"), None);
    assert_eq!(extension("noext"), None);
    assert_eq!(extension("trailing."), Some(""));
    assert_eq!(extension(""), None);
    assert_eq!(extension("lib.jar/"), Some("jar"));
    assert_eq!(extension("lib.jar//./"), Some("jar"));
    assert_eq!(extension("./app.zip/."), Some("zip"));
    assert_eq!(extension(".."), None);
    assert_eq!(extension("app.jar/.."), None);
    assert_eq!(extension("."), None);
    assert_eq!(extension("/"), None);
    assert_eq!(extension("..a"), Some("a"));
    assert_eq!(extension(".a.b"), Some("b"));
    assert_eq!(extension("a.b/..."), Some(""));
}

#[test]
fn extension_is_that_of_the_path() {
    let paths = [
        "", "/", ".", "..", "./", "../", "a", "a.", ".a", "a.b", "a.b.c", "..a", "...", "a..b",
        "lib/app.jar", "lib/app.jar/", "lib/app.jar//", "lib/app.jar/.", "lib/app.jar/./",
        "lib/app.jar/..", "lib.d/app", "lib.d/.app", "lib.d/.app.zip", "/app.class", "//app.class",
        "./app.class", "a/./b.zip", "a/b.zip/./.", ".hidden/", "x/.../y.", "\u{e9}t\u{e9}.jar",
        "dir.jar/\u{e9}", ". /a.b", "a.b /", ".//.", "./.a", "././..", "a/.b/.",
    ];
    for path in paths {
        let expected = std::path::Path::new(path).extension().and_then(|e| e.to_str());
        assert_eq!(extension(path), expected, "{:?}", path);
    }
}

#[test]
fn entries_are_told_apart_by_kind() {
    assert_eq!(entry_kind("classes", true), EntryKind::Directory);
    assert_eq!(entry_kind("classes.jar", true), EntryKind::Directory);
    assert_eq!(entry_kind("lib/app.jar", false), EntryKind::Archive);
    assert_eq!(entry_kind("lib/app.zip", false), EntryKind::Archive);
    assert_eq!(entry_kind("out/Square.class", false), EntryKind::ClassFile);
    assert_eq!(entry_kind("notes.txt", false), EntryKind::Unsupported);
    assert_eq!(entry_kind("classes", false), EntryKind::Unsupported);
    assert_eq!(entry_kind("app.JAR", false), EntryKind::Unsupported);
    assert_eq!(entry_kind("lib/app.jar/", false), EntryKind::Archive);
    assert_eq!(entry_kind("..", false), EntryKind::Unsupported);
}

#[test]
fn leading_slashes_are_stripped() {
    assert_eq!(resource_name("/com/example/Square.class"), "com/example/Square.class");
    assert_eq!(resource_name("///a/b"), "a/b");
    assert_eq!(resource_name("a/b/"), "a/b/");
    assert_eq!(resource_name("/"), "");
    assert_eq!(resource_name(""), "");
}

#[test]
fn resources_live_below_directories() {
    assert_eq!(file_below("classes", "com/example/Square.class"), "classes/com/example/Square.class");
    assert_eq!(file_below("classes/", "TEST_FILE.txt"), "classes/TEST_FILE.txt");
    assert_eq!(file_below("", "TEST_FILE.txt"), "TEST_FILE.txt");
}

fn search(cp: &Classpath, outcomes: &[Probed]) -> (Resolution, Vec<usize>) {
    let mut probed = vec![];
    let mut next = cp.begin_search();
    loop {
        match next {
            Next::Done(end) => return (end, probed),
            Next::Probe(entry) => {
                probed.push(entry);
                next = cp.continue_search(entry, outcomes[entry]);
            }
        }
    }
}

#[test]
fn first_match_wins() {
    let cp = Classpath::from_iter(["a", "b", "c"]);
    let (end, probed) = search(&cp, &[Probed::Found, Probed::Found, Probed::Found]);
    assert_eq!(end, Resolution::Found(0));
    assert_eq!(probed, vec![0]);
    let (end, probed) = search(&cp, &[Probed::Missing, Probed::Found, Probed::Failed]);
    assert_eq!(end, Resolution::Found(1));
    assert_eq!(probed, vec![0, 1]);
}

#[test]
fn search_ends_on_failures_and_misses() {
    let cp = Classpath::from_iter(["a", "b", "c"]);
    let (end, probed) = search(&cp, &[Probed::Missing, Probed::Missing, Probed::Missing]);
    assert_eq!(end, Resolution::NotFound);
    assert_eq!(probed, vec![0, 1, 2]);
    let (end, _) = search(&cp, &[Probed::Missing, Probed::Failed, Probed::Found]);
    assert_eq!(end, Resolution::Failed(1));
    let (end, _) = search(&cp, &[Probed::Unsupported, Probed::Found, Probed::Found]);
    assert_eq!(end, Resolution::Unsupported(0));
    assert_eq!(Classpath::new().begin_search(), Next::Done(Resolution::NotFound));
    assert_eq!(cp.continue_search(7, Probed::Found), Next::Done(Resolution::NotFound));
    assert_eq!(cp.continue_search(2, Probed::Missing), Next::Done(Resolution::NotFound));
    assert_eq!(cp.continue_search(1, Probed::Missing), Next::Probe(2));
}
