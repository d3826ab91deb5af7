use prism::files::path::{
    candidate, find, is_inside, is_plain_component, is_safe_new_path, relative_to, resolve, PathError, Root,
};

/// What each place of a small tree really is, links followed.
const TREE: [(&str, &str); 11] = [
    ("/t/root", "/t/root"),
    ("/t/root/", "/t/root"),
    ("/t/root/sub", "/t/root/sub"),
    ("/t/root/file.txt", "/t/root/file.txt"),
    ("/t/root/sub/nested.txt", "/t/root/sub/nested.txt"),
    ("/t/outside/secret.txt", "/t/outside/secret.txt"),
    ("/t/root/escape", "/t/outside/secret.txt"),
    ("/t/root/linkdir/secret.txt", "/t/outside/secret.txt"),
    ("/t/root/ok", "/t/root/sub/nested.txt"),
    ("/t/root2/x", "/t/root2/x"),
    ("/t/root/sibling", "/t/root2/x"),
];

struct Fixture {
    root: Root,
}

impl Fixture {
    fn new() -> Self {
        Fixture { root: Root::new("test".to_string(), Some("/t/root".to_string()), false).expect("root exists") }
    }

    fn resolve(&self, relative: &str) -> Result<String, PathError> {
        let led = match candidate(&self.root, relative) {
            Ok(place) => TREE.iter().find(|e| e.0 == place).map(|e| e.1),
            Err(_) => None,
        };
        resolve(&self.root, relative, led)
    }
}

#[test]
fn resolves_a_file_in_the_root() {
    let f = Fixture::new();
    let p = f.resolve("file.txt").unwrap();
    assert_eq!(p, "/t/root/file.txt");
}

#[test]
fn resolves_a_nested_file() {
    let f = Fixture::new();
    let p = f.resolve("sub/nested.txt").unwrap();
    assert_eq!(p, "/t/root/sub/nested.txt");
}

#[test]
fn empty_path_resolves_to_the_root_itself() {
    let f = Fixture::new();
    assert_eq!(f.resolve("").unwrap(), f.root.path);
}

#[test]
fn tolerates_redundant_separators() {
    let f = Fixture::new();
    for variant in ["/sub/nested.txt", "sub//nested.txt", "./sub/./nested.txt", "sub/nested.txt/"] {
        assert!(
            f.resolve(variant).is_ok(),
            "{variant:?} should resolve"
        );
    }
}

#[test]
fn rejects_dotdot_traversal() {
    let f = Fixture::new();
    for attack in [
        "../outside/secret.txt",
        "sub/../../outside/secret.txt",
        "..",
        "sub/..",
    ] {
        assert_eq!(
            f.resolve(attack),
            Err(PathError::InvalidComponent),
            "{attack:?} must be refused"
        );
    }
}

#[test]
fn rejects_absolute_paths() {
    let f = Fixture::new();
    // Leading slash is treated as an empty first segment, so this becomes a
    // lookup of `etc/passwd` inside the root, which does not exist.
    assert_eq!(f.resolve("/etc/passwd"), Err(PathError::NotFound));
}

#[test]
fn rejects_embedded_nul() {
    let f = Fixture::new();
    assert_eq!(
        f.resolve("file.txt\0.png"),
        Err(PathError::InvalidComponent)
    );
}

#[test]
fn missing_file_is_not_found() {
    let f = Fixture::new();
    assert_eq!(f.resolve("nope.txt"), Err(PathError::NotFound));
}

#[test]
fn escape_and_not_found_are_indistinguishable_to_a_caller() {
    // Otherwise the API becomes an oracle for what exists outside the root.
    assert_eq!(
        PathError::Escapes.public_message(),
        PathError::NotFound.public_message()
    );
}

#[test]
fn relative_to_round_trips() {
    let f = Fixture::new();
    let p = f.resolve("sub/nested.txt").unwrap();
    assert_eq!(relative_to(&f.root, &p), "sub/nested.txt");
}

#[test]
fn unknown_root_is_reported() {
    let roots: Vec<Root> = Vec::new();
    assert_eq!(find(&roots, "nope").unwrap_err(), PathError::UnknownRoot);
}

#[test]
fn new_path_validation_rejects_traversal_and_absolutes() {
    assert!(is_safe_new_path("a/b/c.txt"));
    assert!(!is_safe_new_path("../a.txt"));
    assert!(!is_safe_new_path("/etc/passwd"));
    assert!(!is_safe_new_path(""));
    assert!(!is_safe_new_path("a/../../b"));
    assert!(!is_safe_new_path("a\0b"));
}

/// The important one: a symlink is invisible to any textual check.
#[test]
fn rejects_a_symlink_pointing_outside_the_root() {
    let f = Fixture::new();
    assert_eq!(f.resolve("escape"), Err(PathError::Escapes), "a symlink out of the root must not be followed");
}

#[test]
fn rejects_a_symlinked_directory_pointing_outside() {
    let f = Fixture::new();
    assert_eq!(f.resolve("linkdir/secret.txt"), Err(PathError::Escapes));
}

#[test]
fn allows_a_symlink_that_stays_inside_the_root() {
    let f = Fixture::new();
    assert_eq!(f.resolve("ok").unwrap(), "/t/root/sub/nested.txt");
}

#[test]
fn nonexistent_root_cannot_be_constructed() {
    assert!(Root::new("bad".to_string(), None, false).is_none());
}

#[test]
fn a_directory_whose_name_merely_begins_alike_is_outside() {
    assert!(is_inside("/t/root", "/t/root/x"));
    assert!(is_inside("/t/root", "/t/root"));
    assert!(!is_inside("/t/root", "/t/root2/x"));
    assert_eq!(Fixture::new().resolve("sibling"), Err(PathError::Escapes));
}

#[test]
fn each_error_has_its_public_words() {
    assert_eq!(PathError::NotFound.public_message(), "not found");
    assert_eq!(PathError::UnknownRoot.public_message(), "no such root");
    assert_eq!(PathError::InvalidComponent.public_message(), "invalid path");
}

#[test]
fn plain_components_are_names_and_nothing_else() {
    assert!(is_plain_component("a"));
    assert!(is_plain_component("..."));
    assert!(!is_plain_component(".."));
    assert!(!is_plain_component("a/b"));
    assert!(!is_plain_component("a\0"));
}

#[test]
fn what_a_path_is_called_below_its_root_leads_back_to_it() {
    let f = Fixture::new();
    for p in ["/t/root", "/t/root/sub", "/t/root/sub/nested.txt"] {
        let relative = relative_to(&f.root, p);
        assert_eq!(candidate(&f.root, &relative).as_deref(), Ok(p));
        assert_eq!(f.resolve(&relative).as_deref(), Ok(p));
    }
}

#[test]
fn a_path_keeps_what_is_written_behind_its_root() {
    let f = Fixture::new();
    for (p, relative) in [
        ("/t/root/a//b", "a//b"),
        ("/t/root//a/./b/", "a/./b"),
        ("/t//root/./a", "a"),
        ("/t/root/", ""),
        ("/t/root", ""),
        ("/t/rootless/a", ""),
    ] {
        assert_eq!(relative_to(&f.root, p), relative, "{p}");
        let std_says = std::path::Path::new(p)
            .strip_prefix(&f.root.path)
            .map(|r| r.to_string_lossy().into_owned())
            .unwrap_or_default();
        assert_eq!(relative, std_says, "{p}");
    }
}
