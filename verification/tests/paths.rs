use repak::compression::Compression;
use repak::entry::Entry;
use repak::error::Error;
use repak::extract::{check_input, check_output, plan};
use repak::path::resolve;

fn entry(path: &str) -> Entry {
    Entry {
        path: path.to_string(),
        offset: 0,
        stored_size: 0,
        size: 0,
        compression: Compression::Stored,
        encrypted: false,
        hash: None,
    }
}

#[test]
fn resolve_gives_the_destination_under_the_root() {
    for (path, dest) in [
        ("a.txt", "out/a.txt"),
        ("dir/b.txt", "out/dir/b.txt"),
        ("dir//b.txt", "out/dir/b.txt"),
        ("./dir/./b.txt", "out/dir/b.txt"),
        ("dir/sub/../b.txt", "out/dir/b.txt"),
        ("dir/../dir/b.txt", "out/dir/b.txt"),
        ("a/b/c/../../d", "out/a/d"),
        ("dir/", "out/dir"),
        ("...", "out/..."),
        ("..a/b..", "out/..a/b.."),
        (".hidden", "out/.hidden"),
        ("a/..", "out"),
        ("", "out"),
        (".", "out"),
        ("Ünï/cödé.txt", "out/Ünï/cödé.txt"),
        ("日本語/ファイル", "out/日本語/ファイル"),
    ] {
        assert_eq!(resolve("out", path).unwrap(), dest, "{}", path);
    }
    assert_eq!(resolve("", "a").unwrap(), "/a");
    assert_eq!(resolve("/tmp/x/", "a").unwrap(), "/tmp/x//a");
}

#[test]
fn resolve_refuses_what_leaves_the_root() {
    for path in [
        "..",
        "../a.txt",
        "../../etc/passwd",
        "a/../../b",
        "a/b/../../../c",
        "./../a",
        "dir/../..",
        "/etc/passwd",
        "/",
        "/a/../b",
        "a/../../..",
    ] {
        match resolve("out", path) {
            Err(e @ Error::WriteOutsideOutput(_)) => {
                assert_eq!(
                    e.message(),
                    format!("Attempted to write to \"{}\" which outside of output directory", path)
                );
            }
            other => panic!("{}: unexpected {:?}", path, other),
        }
    }
}

#[test]
fn unpacking_needs_an_empty_directory() {
    assert!(check_output("out", true).is_ok());
    match check_output("out", false) {
        Err(Error::OutputNotEmpty(root)) => assert_eq!(root, "out"),
        other => panic!("unexpected {:?}", other),
    }
    let entries = vec![entry("a.txt")];
    match plan(&entries, "out", false) {
        Err(Error::OutputNotEmpty(root)) => assert_eq!(root, "out"),
        other => panic!("unexpected {:?}", other.err()),
    }
}

#[test]
fn packing_needs_a_directory() {
    assert!(check_input("in", true).is_ok());
    match check_input("in/file.txt", false) {
        Err(Error::InputNotADirectory(root)) => assert_eq!(root, "in/file.txt"),
        other => panic!("unexpected {:?}", other),
    }
}

#[test]
fn a_refused_entry_does_not_stop_the_others() {
    let entries = vec![entry("a.txt"), entry("../evil.txt"), entry("dir/b.txt"), entry("/abs")];
    let places = plan(&entries, "out", true).unwrap();
    assert_eq!(places.len(), 4);
    assert_eq!(places[0].as_ref().unwrap(), "out/a.txt");
    match &places[1] {
        Err(Error::WriteOutsideOutput(path)) => assert_eq!(path, "../evil.txt"),
        other => panic!("unexpected {:?}", other),
    }
    assert_eq!(places[2].as_ref().unwrap(), "out/dir/b.txt");
    match &places[3] {
        Err(Error::WriteOutsideOutput(path)) => assert_eq!(path, "/abs"),
        other => panic!("unexpected {:?}", other),
    }
    assert_eq!(plan(&Vec::new(), "out", true).unwrap().len(), 0);
}

fn by_hand(root: &str, path: &str) -> Option<String> {
    if path.starts_with('/') {
        return None;
    }
    let mut names: Vec<&str> = Vec::new();
    for part in path.split('/') {
        match part {
            "" | "." => {}
            ".." => {
                names.pop()?;
            }
            name => names.push(name),
        }
    }
    let mut dest = root.to_string();
    for name in names {
        dest.push('/');
        dest.push_str(name);
    }
    Some(dest)
}

#[test]
fn resolve_agrees_with_a_plain_walk_over_many_paths() {
    let parts = ["a", "bb", "..", ".", "", "c.d", "...", "é", "..x"];
    let mut state: u64 = 0x2545F4914F6CDD1D;
    let mut refused = 0;
    for _ in 0..5000 {
        let mut path = String::new();
        state = state.wrapping_mul(6364136223846793005).wrapping_add(1442695040888963407);
        let count = (state >> 60) as usize % 7;
        for i in 0..count {
            state = state.wrapping_mul(6364136223846793005).wrapping_add(1442695040888963407);
            if i > 0 {
                path.push('/');
            }
            path.push_str(parts[(state >> 33) as usize % parts.len()]);
        }
        match (resolve("root/dir", &path), by_hand("root/dir", &path)) {
            (Ok(dest), Some(want)) => {
                assert_eq!(dest, want, "{}", path);
                assert!(dest == "root/dir" || dest.starts_with("root/dir/"));
                assert!(!dest["root/dir".len()..].split('/').any(|p| p == ".." || p == "."));
            }
            (Err(Error::WriteOutsideOutput(p)), None) => {
                assert_eq!(p, path);
                refused += 1;
            }
            (got, want) => panic!("{}: {:?} against {:?}", path, got, want),
        }
    }
    assert!(refused > 100);
}
