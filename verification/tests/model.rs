use renzokutai::{SelectError, ValidationError, Value};
use renzokutai::package::Package;
use renzokutai::pipeline::{Pipeline, ValidatedPipeline};
use renzokutai::repl::{CfgState, Filter, Frame};
use renzokutai::repo::{Repo, Repos, ValidatedRepo};
use renzokutai::step::{Step, Steps};
use renzokutai::text::{chars_to_string, str_to_chars, string_is};
use renzokutai::zones::{PipelineZone, ZoneType};
use renzokutai::package::{ValidatedPackage, ValidatedPackages};
use renzokutai::persist::{load_pipeline, save_pipeline, save_repo_record};
use renzokutai::repo::ValidatedRepos;
use renzokutai::step::{ValidatedDependency, ValidatedStep, ValidatedSteps};

#[test]
fn value_ensure() {
    let v: Value<String> = Value::Given("x".to_string());
    assert_eq!(v.ensure().unwrap(), &"x".to_string());
    let u: Value<String> = Value::Unset;
    assert_eq!(u.ensure().unwrap_err(), ValidationError::UnsetField);
}

#[test]
fn draft_validation() {
    let mut repo = Repo::default();
    assert!(matches!(repo.validate(), Err(ValidationError::UnsetField)));
    repo.set("url".to_string(), "https://example.org/r.git".to_string())
        .unwrap();
    let vr = repo.validate().unwrap();
    assert_eq!(vr.url, "https://example.org/r.git".to_string());

    let mut pkg = Package::default();
    pkg.set("name".to_string(), "git".to_string()).unwrap();
    assert!(matches!(pkg.validate(), Err(ValidationError::UnsetField)));
    pkg.set("provider".to_string(), "pkg".to_string()).unwrap();
    let vp = pkg.validate().unwrap();
    assert_eq!(vp.name, "git".to_string());
    assert_eq!(vp.provider, "pkg".to_string());

    let mut st = Step::default();
    match st.set("color".to_string(), "red".to_string()) {
        Err(ValidationError::UnknownAttribute(k)) => assert_eq!(k, "color".to_string()),
        _ => panic!("expected an unknown attribute"),
    }
    st.set("name".to_string(), "build".to_string()).unwrap();
    st.set("script".to_string(), "build.sh".to_string()).unwrap();
    let names = vec!["build".to_string()];
    let vs = st.validate(&names).unwrap();
    assert_eq!(vs.name, "build".to_string());
    assert_eq!(vs.script, "build.sh".to_string());
}

#[test]
fn entity_names() {
    let mut s = Step::default();
    assert_eq!(s.name(), "step".to_string());
    s.set("name".to_string(), "build".to_string()).unwrap();
    assert_eq!(s.name(), "step(build)".to_string());
    let mut r = Repo::default();
    assert_eq!(r.name(), "repo".to_string());
    r.set("url".to_string(), "u".to_string()).unwrap();
    assert_eq!(r.name(), "repo(u)".to_string());
}

#[test]
fn repos_select_by_filter() {
    let mut repos = Repos::new();
    assert!(matches!(
        repos.select(&None),
        Err(SelectError::NoMatch)
    ));
    let f1 = repos.add_empty();
    assert_eq!(f1, Frame::Repo(0));
    let f2 = repos.add_empty();
    assert_eq!(f2, Frame::Repo(1));
    repos.vec[0]
        .set("url".to_string(), "a".to_string())
        .unwrap();
    repos.vec[1]
        .set("url".to_string(), "b".to_string())
        .unwrap();
    assert!(matches!(repos.select(&None), Err(SelectError::AmbiguousMatch)));
    let picked = repos
        .select(&Some(Filter { key: "url".to_string(), value: "b".to_string() }))
        .unwrap();
    assert_eq!(picked, Frame::Repo(1));
}

#[test]
fn editor_session() {
    let pipeline = Pipeline::new(&"demo".to_string());
    let mut state = CfgState::new(pipeline);
    assert_eq!(state.prompt(), "cicfg:pipeline> ".to_string());

    state.add("step".to_string()).unwrap();
    assert_eq!(state.stack_top(), Some(&Frame::Step(0)));
    state.set("name".to_string(), "build".to_string()).unwrap();
    state.set("script".to_string(), "build.sh".to_string()).unwrap();
    assert_eq!(state.prompt(), "cicfg:pipeline:step(build)> ".to_string());
    assert!(state.end());
    assert!(!state.end());

    state.add("repo".to_string()).unwrap();
    state
        .set("url".to_string(), "https://example.org/x.git".to_string())
        .unwrap();
    assert!(state.end());

    state.add("package".to_string()).unwrap();
    state.set("name".to_string(), "git".to_string()).unwrap();
    state.set("provider".to_string(), "pkg".to_string()).unwrap();
    assert!(state.end());

    let vp = state.pipeline.validate().unwrap();
    assert_eq!(vp.name, "demo".to_string());
    assert_eq!(vp.steps.vec.len(), 1);
    assert_eq!(vp.repos.vec.len(), 1);
    assert_eq!(vp.packages.vec.len(), 1);

    // A validated pipeline thaws back into an editable draft.
    let draft = vp.as_pipeline();
    let again = draft.validate().unwrap();
    assert_eq!(again.name, "demo".to_string());
    assert_eq!(again.steps.vec[0].name, "build".to_string());
}

#[test]
fn select_from_editor() {
    let mut pipeline = Pipeline::new(&"demo".to_string());
    let mut steps = Steps::new();
    steps.add_empty();
    steps.vec[0].set("name".to_string(), "build".to_string()).unwrap();
    pipeline.steps = steps;
    let mut state = CfgState::new(pipeline);
    state
        .select(
            "step".to_string(),
            Some(Filter { key: "name".to_string(), value: "build".to_string() }),
        )
        .unwrap();
    assert_eq!(state.stack_top(), Some(&Frame::Step(0)));
    // Selecting below an entity frame is refused.
    assert!(matches!(
        state.select("step".to_string(), None),
        Err(SelectError::NotSelectable)
    ));
    assert!(state.end());
    // An unknown entity kind is refused by name.
    match state.select("zone".to_string(), None) {
        Err(SelectError::UnknownKind(k)) => assert_eq!(k, "zone".to_string()),
        _ => panic!("expected an unknown kind"),
    }
}

#[test]
fn duplicate_step_reported_before_unknown_dependency() {
    // Freezing a draft checks name uniqueness before dependency
    // resolution, so a draft violating both reports the duplicate first.
    let broken = Step {
        name: Value::Given("build".to_string()),
        script: Value::Given("a.sh".to_string()),
        depends: vec![renzokutai::step::Dependency {
            name: Value::Given("missing".to_string()),
        }],
    };
    let twin = Step {
        name: Value::Given("build".to_string()),
        script: Value::Given("b.sh".to_string()),
        depends: vec![],
    };
    let steps = Steps { vec: vec![broken, twin] };
    match steps.validate() {
        Err(ValidationError::DuplicateStep(n)) => assert_eq!(n, "build".to_string()),
        other => panic!("expected a duplicate step, got {:?}", other),
    }

    // With unique names the dangling dependency surfaces instead.
    let dangling = Step {
        name: Value::Given("test".to_string()),
        script: Value::Given("t.sh".to_string()),
        depends: vec![renzokutai::step::Dependency {
            name: Value::Given("missing".to_string()),
        }],
    };
    let steps = Steps { vec: vec![dangling] };
    match steps.validate() {
        Err(ValidationError::UnknownDependency(s, d)) => {
            assert_eq!(s, "test".to_string());
            assert_eq!(d, "missing".to_string());
        }
        other => panic!("expected an unknown dependency, got {:?}", other),
    }

    // The pipeline-level validator surfaces the same diagnosis.
    let mut pipeline = Pipeline::new(&"demo".to_string());
    pipeline.steps = Steps {
        vec: vec![
            Step {
                name: Value::Given("build".to_string()),
                script: Value::Given("a.sh".to_string()),
                depends: vec![],
            },
            Step {
                name: Value::Given("build".to_string()),
                script: Value::Given("b.sh".to_string()),
                depends: vec![],
            },
        ],
    };
    match pipeline.validate() {
        Err(ValidationError::DuplicateStep(n)) => assert_eq!(n, "build".to_string()),
        other => panic!("expected a duplicate step, got {:?}", other),
    }
}

#[test]
fn container_names() {
    let vrepo = ValidatedRepo { url: "u".to_string() };
    assert_eq!(vrepo.as_repo().validate().unwrap().url, "u".to_string());

    let zone = PipelineZone {
        pipeline: "demo".to_string(),
        zone_type: ZoneType::Base,
    };
    assert_eq!(zone.root_path(), "/zones/ci/demo".to_string());
    assert_eq!(zone.path(), "/zones/ci/demo/base".to_string());
    assert_eq!(zone.name(), "ci_demo_base".to_string());
    assert_eq!(zone.vnic_name(), "ci_demo_base_internal0".to_string());

    let run = zone.get_run_pzone(&"ab12".to_string());
    assert_eq!(run.name(), "ci_demo_ab12".to_string());
    assert_eq!(run.path(), "/zones/ci/demo/ab12".to_string());
}

#[test]
fn pipeline_names() {
    let p = Pipeline::new(&"demo".to_string());
    let vp = p.validate().unwrap();
    assert_eq!(vp.path(), "/zones/ci/demo/base".to_string());
    assert_eq!(vp.dataset(), "rpool/zones/ci/demo/base".to_string());
    assert_eq!(vp.zone_name(), "ci_demo_base".to_string());
    assert_eq!(vp.vnic_name(), "ci_demo_base_internal0".to_string());
    assert_eq!(vp.base_pzone().name(), "ci_demo_base".to_string());
    assert_eq!(
        ValidatedPipeline::file_path(&"demo".to_string()),
        "/etc/pipelines/demo.xml".to_string()
    );
}

#[test]
fn run_ids_are_short_and_lowercase() {
    let p = Pipeline::new(&"demo".to_string());
    let vp = p.validate().unwrap();
    for _ in 0..32 {
        let id = vp.generate_run_id();
        assert_eq!(id.len(), 4);
        for c in id.chars() {
            assert!(c.is_ascii_lowercase() || c.is_ascii_digit());
        }
    }
}

#[test]
fn pipeline_round_trip() {
    let vp = ValidatedPipeline {
        name: "demo".to_string(),
        repos: ValidatedRepos {
            vec: vec![ValidatedRepo { url: "https://example.org/x.git".to_string() }],
        },
        packages: ValidatedPackages {
            vec: vec![ValidatedPackage {
                provider: "pkg".to_string(),
                name: "git".to_string(),
            }],
        },
        steps: ValidatedSteps {
            vec: vec![
                ValidatedStep {
                    name: "build".to_string(),
                    script: "build.sh".to_string(),
                    depends: vec![],
                },
                ValidatedStep {
                    name: "test".to_string(),
                    script: "test.sh".to_string(),
                    depends: vec![ValidatedDependency { name: "build".to_string() }],
                },
            ],
        },
    };

    let stored = save_pipeline(&vp);
    assert_eq!(
        stored,
        "<pipeline name=\"demo\"><repo url=\"https://example.org/x.git\"/><package provider=\"pkg\" name=\"git\"/><step name=\"build\" script=\"build.sh\"></step><step name=\"test\" script=\"test.sh\"><depend name=\"build\"/></step></pipeline>".to_string()
    );

    let back = load_pipeline(stored.as_str()).expect("saved pipeline loads");
    assert_eq!(back.name, vp.name);
    assert_eq!(back.repos.vec.len(), 1);
    assert_eq!(back.repos.vec[0].url, "https://example.org/x.git".to_string());
    assert_eq!(back.packages.vec.len(), 1);
    assert_eq!(back.packages.vec[0].provider, "pkg".to_string());
    assert_eq!(back.packages.vec[0].name, "git".to_string());
    assert_eq!(back.steps.vec.len(), 2);
    assert_eq!(back.steps.vec[0].name, "build".to_string());
    assert_eq!(back.steps.vec[0].script, "build.sh".to_string());
    assert_eq!(back.steps.vec[0].depends.len(), 0);
    assert_eq!(back.steps.vec[1].name, "test".to_string());
    assert_eq!(back.steps.vec[1].depends.len(), 1);
    assert_eq!(back.steps.vec[1].depends[0].name, "build".to_string());

    // A truncated document is rejected, and a lone record saves as written.
    assert!(load_pipeline("<pipeline name=\"demo\">").is_none());
    assert_eq!(
        save_repo_record(&ValidatedRepo { url: "u".to_string() }),
        "<repo url=\"u\"/>".to_string()
    );
}

#[test]
fn quoted_strings_round_trip() {
    // Quotes and ampersands in stored strings are escaped on save and
    // folded back on load, so the round trip holds for them too.
    let vp = ValidatedPipeline {
        name: "de\"mo".to_string(),
        repos: ValidatedRepos {
            vec: vec![ValidatedRepo { url: "https://example.org/a\"&b.git".to_string() }],
        },
        packages: ValidatedPackages { vec: vec![] },
        steps: ValidatedSteps {
            vec: vec![ValidatedStep {
                name: "bui\"ld".to_string(),
                script: "run &quot; now.sh".to_string(),
                depends: vec![],
            }],
        },
    };
    let stored = renzokutai::persist::save_pipeline(&vp);
    assert!(!stored.contains("de\"mo"));
    assert!(stored.contains("de&quot;mo"));
    assert!(stored.contains("a&quot;&amp;b.git"));
    assert!(stored.contains("run &amp;quot; now.sh"));
    let back = load_pipeline(stored.as_str()).expect("saved pipeline loads");
    assert_eq!(back.name, vp.name);
    assert_eq!(back.repos.vec[0].url, "https://example.org/a\"&b.git".to_string());
    assert_eq!(back.steps.vec[0].name, "bui\"ld".to_string());
    assert_eq!(back.steps.vec[0].script, "run &quot; now.sh".to_string());
}

#[test]
fn load_or_create_draft() {
    // No stored text: a fresh draft under the given name.
    let fresh = Pipeline::load_or_create(&"demo".to_string(), None).unwrap();
    assert_eq!(fresh.validate().unwrap().name, "demo".to_string());

    // A stored pipeline thaws into a draft that revalidates to itself.
    let vp = ValidatedPipeline {
        name: "demo".to_string(),
        repos: ValidatedRepos { vec: vec![ValidatedRepo { url: "u".to_string() }] },
        packages: ValidatedPackages { vec: vec![] },
        steps: ValidatedSteps { vec: vec![] },
    };
    let stored = renzokutai::persist::save_pipeline(&vp);
    let draft = Pipeline::load_or_create(&"demo".to_string(), Some(&stored)).unwrap();
    let again = draft.validate().unwrap();
    assert_eq!(again.name, "demo".to_string());
    assert_eq!(again.repos.vec[0].url, "u".to_string());

    // Corrupt stored text is surfaced, not silently replaced.
    let broken = "<pipeline name=\"demo\">".to_string();
    assert!(Pipeline::load_or_create(&"demo".to_string(), Some(&broken)).is_none());
}

#[test]
fn empty_pipeline_round_trip() {
    let vp = Pipeline::new(&"bare".to_string()).validate().unwrap();
    let stored = save_pipeline(&vp);
    assert_eq!(stored, "<pipeline name=\"bare\"></pipeline>".to_string());
    let back = load_pipeline(stored.as_str()).expect("saved pipeline loads");
    assert_eq!(back.name, "bare".to_string());
    assert_eq!(back.repos.vec.len(), 0);
    assert_eq!(back.packages.vec.len(), 0);
    assert_eq!(back.steps.vec.len(), 0);
}

#[test]
fn text_helpers_round_trip() {
    let v = str_to_chars("hello zone");
    assert_eq!(v, "hello zone".chars().collect::<Vec<char>>());
    assert_eq!(chars_to_string(&v), "hello zone".to_string());
    assert!(string_is(&"abc".to_string(), "abc"));
    assert!(!string_is(&"abc".to_string(), "abd"));
}
