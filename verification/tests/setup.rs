use prism::config::BindMode;
use prism::setup::{
    detect, detect_bind, detect_facets, detect_roots, home_or_root, may_write, places, report, Found,
};

const HOME: &str = "/home/ada";

fn nothing() -> Found {
    Found {
        comfy_easy_output: false,
        comfy_output: false,
        a1111_output: false,
        downloads: false,
        documents: false,
        comfy_easy_script: false,
        comfy_main: false,
        llama_build: false,
        llama_build_new: false,
        llama_system: false,
        ollama: false,
    }
}

fn everything() -> Found {
    Found {
        comfy_easy_output: true,
        comfy_output: true,
        a1111_output: true,
        downloads: true,
        documents: true,
        comfy_easy_script: true,
        comfy_main: true,
        llama_build: true,
        llama_build_new: true,
        llama_system: true,
        ollama: true,
    }
}

fn hosts() -> Vec<Found> {
    vec![
        nothing(),
        everything(),
        Found { comfy_output: true, comfy_main: true, downloads: true, ..nothing() },
        Found { llama_system: true, ollama: true, documents: true, ..nothing() },
    ]
}

#[test]
fn home_is_always_a_root() {
    for found in hosts() {
        assert_eq!(detect_roots(HOME, &found)[0].name, "home");
    }
}

#[test]
fn home_is_read_only_by_default() {
    // The most useful root is also the one where a stray delete hurts most.
    for found in hosts() {
        assert!(!detect_roots(HOME, &found)[0].writable);
    }
}

#[test]
fn only_directories_that_exist_are_offered() {
    let p = places(HOME);
    let found = Found { downloads: true, ..nothing() };
    let paths: Vec<String> = detect_roots(HOME, &found).into_iter().map(|r| r.path).collect();
    assert_eq!(paths, vec![HOME.to_string(), p.downloads]);
    assert_eq!(detect_roots(HOME, &nothing()).len(), 1);
}

#[test]
fn root_names_are_unique() {
    // Duplicates would make one unreachable, since lookup is by name.
    for found in hosts() {
        let roots = detect_roots(HOME, &found);
        let mut names: Vec<_> = roots.iter().map(|r| r.name.clone()).collect();
        names.sort();
        let before = names.len();
        names.dedup();
        assert_eq!(names.len(), before);
    }
}

#[test]
fn only_workloads_that_exist_are_offered() {
    // Offering to launch something absent is worse than offering nothing.
    assert!(detect_facets(HOME, &nothing()).is_empty());
    let found = Found { llama_system: true, ..nothing() };
    let p = places(HOME);
    let facets = detect_facets(HOME, &found);
    assert_eq!(facets.len(), 1);
    assert_eq!(facets[0].command[0], p.llama_system);
}

#[test]
fn facet_ids_are_unique() {
    for found in hosts() {
        let facets = detect_facets(HOME, &found);
        let mut ids: Vec<_> = facets.iter().map(|f| f.id.clone()).collect();
        ids.sort();
        let before = ids.len();
        ids.dedup();
        assert_eq!(ids.len(), before);
    }
}

#[test]
fn detected_workloads_cap_swap_but_not_ram() {
    // The failure being guarded against is a swap runaway; a RAM ceiling
    // would truncate legitimate work on a machine the operator uses fully.
    for found in hosts() {
        for f in detect_facets(HOME, &found) {
            assert!(f.limits.swap_max.is_some(), "{} has no swap cap", f.name);
            assert!(f.limits.memory_max.is_none(), "{} caps RAM", f.name);
        }
    }
}

#[test]
fn the_bind_default_is_never_a_wildcard() {
    assert!(!detect_bind(true).is_wildcard());
    assert!(!detect_bind(false).is_wildcard());
    assert_eq!(detect_bind(true), BindMode::Tailscale);
    assert_eq!(detect_bind(false), BindMode::Localhost);
}

#[test]
fn existing_configuration_is_never_overwritten() {
    assert!(may_write(false, false), "should write on a clean dir");
    assert!(!may_write(true, false), "should not write twice");
    assert!(!may_write(false, true));
    assert!(!may_write(true, true));
}

#[test]
fn what_was_detected_is_reported() {
    let d = detect(HOME, &everything(), true, Some("engine\n"));
    assert_eq!(d.host.server.bind, BindMode::Tailscale);
    assert!(!d.host.files.roots.is_empty());
    assert!(!d.profile.storm.is_empty());
    assert_eq!(d.profile.name, "engine");
    let text = report(&d).join("\n");
    assert!(text.contains("home"));
}

#[test]
fn without_a_home_the_superusers_is_taken() {
    assert_eq!(home_or_root(Some(HOME)), HOME);
    assert_eq!(home_or_root(None), "/root");
}
