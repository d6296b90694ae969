use kff::repository::{
    materialize_plan, parse_registry, resolve, search, search_entries, MaterializePlan, Repo,
    RepoSource, ResolveError,
};

const REGISTRY: &str = r#"[{"name":"gtk2","url":"https://example/repo"},{"name":"sdl","url":"https://example/sdl"}]"#;

#[test]
fn local_cache_always_wins() {
    // A template with a local cache directory resolves to the local source
    // even when the registry was never fetched at all.
    let r = resolve("gtk2", true, None);
    match r {
        Ok(rep) => {
            assert_eq!(rep.name, "gtk2");
            assert!(matches!(rep.url, RepoSource::Local));
        },
        Err(_) => panic!("local template must resolve"),
    }
    // ... and when it was fetched, the registry entry changes nothing.
    let r2 = resolve("gtk2", true, Some(REGISTRY));
    match r2 {
        Ok(rep) => assert!(matches!(rep.url, RepoSource::Local)),
        Err(_) => panic!("local template must resolve"),
    }
}

#[test]
fn absent_locally_resolves_remote() {
    let r = resolve("gtk2", false, Some(REGISTRY));
    match r {
        Ok(rep) => {
            assert_eq!(rep.name, "gtk2");
            match rep.url {
                RepoSource::Remote(url) => assert_eq!(url, "https://example/repo"),
                RepoSource::Local => panic!("expected a remote source"),
            }
        },
        Err(_) => panic!("registered template must resolve"),
    }
}

#[test]
fn unknown_name_is_not_found() {
    let r = resolve("nope", false, Some(REGISTRY));
    assert!(matches!(r, Err(ResolveError::NotFound)));
}

#[test]
fn unreachable_registry_is_unavailable() {
    let r = resolve("gtk2", false, None);
    assert!(matches!(r, Err(ResolveError::RegistryUnavailable)));
}

#[test]
fn malformed_registry_is_unavailable() {
    assert!(matches!(
        search("gtk2", "this is not json"),
        Err(ResolveError::RegistryUnavailable)
    ));
    // an array whose entry lacks a url does not parse as a registry
    assert!(matches!(
        search("gtk2", r#"[{"name":"gtk2"}]"#),
        Err(ResolveError::RegistryUnavailable)
    ));
    // a url of the wrong kind does not either
    assert!(matches!(
        search("gtk2", r#"[{"name":"gtk2","url":7}]"#),
        Err(ResolveError::RegistryUnavailable)
    ));
}

#[test]
fn duplicate_names_first_listed_wins() {
    let text = r#"[{"name":"dup","url":"https://first"},{"name":"dup","url":"https://second"}]"#;
    match search("dup", text) {
        Ok(rep) => match rep.url {
            RepoSource::Remote(url) => assert_eq!(url, "https://first"),
            RepoSource::Local => panic!("expected a remote source"),
        },
        Err(_) => panic!("duplicate name must still resolve"),
    }
}

#[test]
fn registry_parses_in_order() {
    let entries = parse_registry(REGISTRY).expect("well-formed registry");
    assert_eq!(entries.len(), 2);
    assert_eq!(entries[0].name, "gtk2");
    assert_eq!(entries[1].name, "sdl");
    let hit = search_entries("sdl", &entries).expect("listed name");
    match hit.url {
        RepoSource::Remote(url) => assert_eq!(url, "https://example/sdl"),
        RepoSource::Local => panic!("expected a remote source"),
    }
}

#[test]
fn remote_with_stale_cache_is_removed_then_cloned() {
    let rep = Repo::new("gtk2", RepoSource::Remote(String::from("https://example/repo")));
    match materialize_plan(&rep, true) {
        MaterializePlan::Fetch { remove_stale_first, url } => {
            assert!(remove_stale_first);
            assert_eq!(url, "https://example/repo");
        },
        MaterializePlan::UseCache => panic!("a remote template is never reused from cache"),
    }
}

#[test]
fn remote_without_stale_cache_clones_directly() {
    let rep = Repo::new("gtk2", RepoSource::Remote(String::from("https://example/repo")));
    match materialize_plan(&rep, false) {
        MaterializePlan::Fetch { remove_stale_first, url } => {
            assert!(!remove_stale_first);
            assert_eq!(url, "https://example/repo");
        },
        MaterializePlan::UseCache => panic!("a remote template is never reused from cache"),
    }
}

#[test]
fn local_template_uses_cache_directly() {
    let rep = Repo::new("gtk2", RepoSource::Local);
    assert!(matches!(materialize_plan(&rep, true), MaterializePlan::UseCache));
    assert!(matches!(materialize_plan(&rep, false), MaterializePlan::UseCache));
}

#[test]
fn requesting_registered_template_yields_one_clone_of_its_url() {
    // no local cache for "gtk2": the resolver goes to the registry, and the
    // plan for the resolved reference is exactly one clone of the entry's URL
    let rep = resolve("gtk2", false, Some(r#"[{"name":"gtk2","url":"https://example/repo"}]"#))
        .expect("registered template must resolve");
    match materialize_plan(&rep, false) {
        MaterializePlan::Fetch { remove_stale_first, url } => {
            assert!(!remove_stale_first);
            assert_eq!(url, "https://example/repo");
        },
        MaterializePlan::UseCache => panic!("expected a clone"),
    }
}
