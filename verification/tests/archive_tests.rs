use ritual::archive::{compress_plan, source_root, ArchiveOp, Walked};

fn file(name: &str) -> Walked {
    Walked::File { name: Some(name.to_string()) }
}

fn dir(name: &str, items: Vec<Walked>) -> Walked {
    Walked::Dir { name: Some(name.to_string()), listing: Some(items) }
}

fn describe(ops: &[ArchiveOp]) -> Vec<String> {
    ops.iter()
        .map(|op| match op {
            ArchiveOp::AddDirectory { entry } => format!("dir {}", entry),
            ArchiveOp::AddFile { entry, source } => format!("file {} <- {}", entry, source),
        })
        .collect()
}

#[test]
fn spirit_directory_is_archived_depth_first() {
    let listing = Some(vec![
        file("meta.json"),
        dir("actions", vec![dir("default", vec![file("00.png"), file("01.png")])]),
        dir("audio", vec![file("hero.mp3")]),
    ]);
    let (ops, ok) = compress_plan(&listing, "", "Inori/");
    assert!(ok);
    assert_eq!(
        describe(&ops),
        vec![
            "file meta.json <- Inori/meta.json",
            "dir actions",
            "dir actions/default",
            "file actions/default/00.png <- Inori/actions/default/00.png",
            "file actions/default/01.png <- Inori/actions/default/01.png",
            "dir audio",
            "file audio/hero.mp3 <- Inori/audio/hero.mp3",
        ]
    );
}

#[test]
fn archive_stops_at_the_first_failure() {
    let listing = Some(vec![
        file("meta.json"),
        Walked::File { name: None },
        file("later.txt"),
    ]);
    let (ops, ok) = compress_plan(&listing, "", "d/");
    assert!(!ok);
    assert_eq!(describe(&ops), vec!["file meta.json <- d/meta.json"]);

    let listing = Some(vec![Walked::Dir { name: Some("actions".to_string()), listing: None }, file("x")]);
    let (ops, ok) = compress_plan(&listing, "", "d/");
    assert!(!ok);
    assert_eq!(describe(&ops), vec!["dir actions"]);

    let listing = Some(vec![dir("a", vec![Walked::Unreadable]), file("x")]);
    let (ops, ok) = compress_plan(&listing, "", "d/");
    assert!(!ok);
    assert_eq!(describe(&ops), vec!["dir a"]);
}

#[test]
fn unreadable_source_writes_nothing() {
    let (ops, ok) = compress_plan(&None, "", "d/");
    assert!(!ok);
    assert!(ops.is_empty());
    let (ops, ok) = compress_plan(&Some(vec![]), "", "d/");
    assert!(ok);
    assert!(ops.is_empty());
}

#[test]
fn entries_are_named_below_the_prefix() {
    let listing = Some(vec![dir("x", vec![file("y")])]);
    let (ops, ok) = compress_plan(&listing, "pre/", "/src/");
    assert!(ok);
    assert_eq!(describe(&ops), vec!["dir pre/x", "file pre/x/y <- /src/x/y"]);
}

#[test]
fn source_root_ends_in_a_separator() {
    assert_eq!(source_root("./Inori"), "./Inori/");
    assert_eq!(source_root("./Inori/"), "./Inori/");
    assert_eq!(source_root("C:\\Inori\\"), "C:\\Inori\\");
    assert_eq!(source_root(""), "/");
}

#[test]
fn entries_do_not_depend_on_how_the_directory_is_spelled() {
    let listing = Some(vec![file("meta.json"), dir("actions", vec![file("0.png")])]);
    let (a, ok_a) = compress_plan(&listing, "", "Inori/");
    let (b, ok_b) = compress_plan(&listing, "", "/w/./Inori/");
    assert_eq!(ok_a, ok_b);
    let entries = |ops: &[ArchiveOp]| -> Vec<String> {
        ops.iter()
            .map(|op| match op {
                ArchiveOp::AddDirectory { entry } => entry.clone(),
                ArchiveOp::AddFile { entry, .. } => entry.clone(),
            })
            .collect()
    };
    assert_eq!(entries(&a), entries(&b));
    assert_eq!(describe(&b)[0], "file meta.json <- /w/./Inori/meta.json");
}
