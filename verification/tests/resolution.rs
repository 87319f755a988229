use kresolve::engine::run;
use kresolve::engine::Event;
use kresolve::engine::FailKind;
use kresolve::engine::Manifest;
use kresolve::engine::PathKind;
use kresolve::engine::Query;
use kresolve::engine::ResolveError;
use kresolve::engine::Resolver;
use kresolve::reduce::reduce;

/// A small in-memory stand-in for the filesystem: which candidate
/// paths canonicalize to what, what kind each canonical path has, and
/// what each manifest file parses to.
struct FakeFs {
    canon: Vec<(String, String)>,
    kinds: Vec<(String, PathKind)>,
    docs: Vec<(String, Vec<Manifest>)>,
}

fn manifest(resources: Vec<&str>, generated: Vec<&str>) -> Manifest {
    Manifest {
        resources: resources.iter().map(|s| s.to_string()).collect(),
        generated_files: generated.iter().map(|s| s.to_string()).collect(),
    }
}

fn drive(fs: &FakeFs, roots: Vec<&str>) -> Result<Vec<String>, ResolveError> {
    let mut r = Resolver::new(roots.iter().map(|s| s.to_string()).collect());
    loop {
        match r.query() {
            None => break,
            Some(Query::Canonicalize(p)) => {
                let answer = fs
                    .canon
                    .iter()
                    .find(|(c, _)| *c == p)
                    .map(|(_, v)| v.clone());
                r = run(r, &Event::Canonical(answer));
            }
            Some(Query::Probe(p)) => {
                let k = fs
                    .kinds
                    .iter()
                    .find(|(c, _)| *c == p)
                    .map(|(_, v)| *v)
                    .unwrap_or(PathKind::Other);
                r = run(r, &Event::Kind(k));
            }
            Some(Query::Parse(p)) => {
                let d = fs.docs.iter().find(|(c, _)| *c == p);
                match d {
                    Some((_, docs)) => {
                        let copy: Vec<Manifest> = docs
                            .iter()
                            .map(|m| Manifest {
                                resources: m.resources.clone(),
                                generated_files: m.generated_files.clone(),
                            })
                            .collect();
                        r = run(r, &Event::Docs(Ok(copy)));
                    }
                    None => panic!("parse asked for a path that is no manifest: {p}"),
                }
            }
        }
    }
    r.outcome().expect("run neither finished nor failed")
}

fn end_to_end_fs() -> FakeFs {
    FakeFs {
        canon: vec![
            ("/app".to_string(), "/app".to_string()),
            (
                "/app/base/kustomization.yml".to_string(),
                "/app/base/kustomization.yml".to_string(),
            ),
            ("/app/patch.yaml".to_string(), "/app/patch.yaml".to_string()),
        ],
        kinds: vec![
            ("/app".to_string(), PathKind::Dir),
            ("/app/kustomization.yml".to_string(), PathKind::File),
            ("/app/base/kustomization.yml".to_string(), PathKind::File),
            ("/app/patch.yaml".to_string(), PathKind::File),
        ],
        docs: vec![
            (
                "/app/kustomization.yml".to_string(),
                vec![manifest(vec!["base/kustomization.yml", "patch.yaml"], vec![])],
            ),
            (
                "/app/base/kustomization.yml".to_string(),
                vec![manifest(vec![], vec![])],
            ),
            ("/app/patch.yaml".to_string(), vec![manifest(vec![], vec![])]),
        ],
    }
}

#[test]
fn end_to_end_scenario() {
    let fs = end_to_end_fs();
    let raw = drive(&fs, vec!["/app"]).expect("resolution should succeed");
    let out = reduce(raw);
    assert_eq!(
        out,
        vec![
            "/app/base/kustomization.yml".to_string(),
            "/app/kustomization.yml".to_string(),
            "/app/patch.yaml".to_string(),
        ]
    );
}

#[test]
fn idempotent_against_unchanged_filesystem() {
    let fs = end_to_end_fs();
    let first = reduce(drive(&fs, vec!["/app"]).unwrap());
    let second = reduce(drive(&fs, vec!["/app"]).unwrap());
    assert_eq!(first, second);
    let re_reduced = reduce(first.clone());
    assert_eq!(re_reduced, first);
}

#[test]
fn reordering_resources_keeps_output() {
    let mut fs = end_to_end_fs();
    let out1 = reduce(drive(&fs, vec!["/app"]).unwrap());
    fs.docs[0].1 = vec![manifest(vec!["patch.yaml", "base/kustomization.yml"], vec![])];
    let out2 = reduce(drive(&fs, vec!["/app"]).unwrap());
    assert_eq!(out1, out2);
}

#[test]
fn missing_file_scenario() {
    let fs = FakeFs { canon: vec![], kinds: vec![], docs: vec![] };
    let res = drive(&fs, vec!["/missing"]);
    match res {
        Err(ResolveError::NotFound(p)) => assert_eq!(p, "/missing"),
        _ => panic!("expected a not-found failure carrying /missing"),
    }
}

#[test]
fn normalization_fallback_to_yaml() {
    let fs = FakeFs {
        canon: vec![("/d".to_string(), "/d".to_string())],
        kinds: vec![
            ("/d".to_string(), PathKind::Dir),
            ("/d/kustomization.yaml".to_string(), PathKind::File),
        ],
        docs: vec![(
            "/d/kustomization.yaml".to_string(),
            vec![manifest(vec![], vec![])],
        )],
    };
    let raw = drive(&fs, vec!["/d"]).unwrap();
    let out = reduce(raw);
    assert_eq!(out, vec!["/d/kustomization.yaml".to_string()]);
}

#[test]
fn remote_reference_contributes_nothing() {
    let fs = FakeFs {
        canon: vec![("/r".to_string(), "/r".to_string())],
        kinds: vec![
            ("/r".to_string(), PathKind::Dir),
            ("/r/kustomization.yml".to_string(), PathKind::File),
        ],
        docs: vec![(
            "/r/kustomization.yml".to_string(),
            vec![manifest(vec!["https://example.com/base"], vec![])],
        )],
    };
    let raw = drive(&fs, vec!["/r"]).unwrap();
    let out = reduce(raw);
    assert_eq!(out, vec!["/r/kustomization.yml".to_string()]);
}

#[test]
fn generator_files_are_recorded_but_not_traversed() {
    // The generated entry is itself named like a manifest; the fake
    // filesystem holds no documents for it, so any attempt to parse it
    // would panic in `drive`.
    let fs = FakeFs {
        canon: vec![("/g".to_string(), "/g".to_string())],
        kinds: vec![
            ("/g".to_string(), PathKind::Dir),
            ("/g/kustomization.yml".to_string(), PathKind::File),
            ("/g/sub/kustomization.yml".to_string(), PathKind::File),
        ],
        docs: vec![(
            "/g/kustomization.yml".to_string(),
            vec![manifest(vec![], vec!["sub/kustomization.yml"])],
        )],
    };
    let raw = drive(&fs, vec!["/g"]).unwrap();
    let out = reduce(raw);
    assert_eq!(
        out,
        vec![
            "/g/kustomization.yml".to_string(),
            "/g/sub/kustomization.yml".to_string(),
        ]
    );
}

#[test]
fn multiple_documents_in_one_file() {
    let fs = FakeFs {
        canon: vec![
            ("/m".to_string(), "/m".to_string()),
            ("/m/a.yaml".to_string(), "/m/a.yaml".to_string()),
            ("/m/b.yaml".to_string(), "/m/b.yaml".to_string()),
        ],
        kinds: vec![
            ("/m".to_string(), PathKind::Dir),
            ("/m/kustomization.yml".to_string(), PathKind::File),
            ("/m/a.yaml".to_string(), PathKind::File),
            ("/m/b.yaml".to_string(), PathKind::File),
        ],
        docs: vec![
            (
                "/m/kustomization.yml".to_string(),
                vec![
                    manifest(vec!["a.yaml"], vec!["gen1.txt"]),
                    manifest(vec!["b.yaml"], vec!["gen2.txt"]),
                ],
            ),
            ("/m/a.yaml".to_string(), vec![manifest(vec![], vec![])]),
            ("/m/b.yaml".to_string(), vec![manifest(vec![], vec![])]),
        ],
    };
    let raw = drive(&fs, vec!["/m"]).unwrap();
    let out = reduce(raw);
    assert_eq!(
        out,
        vec![
            "/m/a.yaml".to_string(),
            "/m/b.yaml".to_string(),
            "/m/gen1.txt".to_string(),
            "/m/gen2.txt".to_string(),
            "/m/kustomization.yml".to_string(),
        ]
    );
}

#[test]
fn revisited_manifest_is_not_reentered() {
    // Two manifests referencing each other: the revisit guard stops
    // the walk instead of recursing forever.
    let fs = FakeFs {
        canon: vec![
            ("/c".to_string(), "/c".to_string()),
            ("/c/other.yaml".to_string(), "/c/other.yaml".to_string()),
            (
                "/c/kustomization.yml".to_string(),
                "/c/kustomization.yml".to_string(),
            ),
        ],
        kinds: vec![
            ("/c".to_string(), PathKind::Dir),
            ("/c/kustomization.yml".to_string(), PathKind::File),
            ("/c/other.yaml".to_string(), PathKind::File),
        ],
        docs: vec![
            (
                "/c/kustomization.yml".to_string(),
                vec![manifest(vec!["other.yaml"], vec![])],
            ),
            (
                "/c/other.yaml".to_string(),
                vec![manifest(vec!["kustomization.yml"], vec![])],
            ),
        ],
    };
    let raw = drive(&fs, vec!["/c"]).unwrap();
    let out = reduce(raw);
    assert_eq!(
        out,
        vec![
            "/c/kustomization.yml".to_string(),
            "/c/other.yaml".to_string(),
        ]
    );
}

#[test]
fn unparsable_manifest_aborts_run() {
    let mut r = Resolver::new(vec!["/p".to_string()]);
    r = run(r, &Event::Canonical(Some("/p/kustomization.yml".to_string())));
    r = run(r, &Event::Kind(PathKind::File));
    r = run(r, &Event::Docs(Err(FailKind::Parse)));
    match r.outcome() {
        Some(Err(ResolveError::ParseError(p))) => {
            assert_eq!(p, "/p/kustomization.yml");
        }
        _ => panic!("expected a parse failure"),
    }
}

#[test]
fn unreadable_manifest_aborts_run() {
    let mut r = Resolver::new(vec!["/q".to_string()]);
    r = run(r, &Event::Canonical(Some("/q/kustomization.yml".to_string())));
    r = run(r, &Event::Kind(PathKind::File));
    r = run(r, &Event::Docs(Err(FailKind::Io)));
    match r.outcome() {
        Some(Err(ResolveError::IoError(p))) => {
            assert_eq!(p, "/q/kustomization.yml");
        }
        _ => panic!("expected a read failure"),
    }
}

#[test]
fn empty_roots_finish_immediately() {
    let r = Resolver::new(vec![]);
    assert!(r.query().is_none());
    match r.outcome() {
        Some(Ok(raw)) => assert!(raw.is_empty()),
        _ => panic!("expected an empty successful run"),
    }
}
