use bargo::config::TemplateContext;
use bargo::convert::to_json;
use bargo::error::ProcessError;
use bargo::folder::{
    copy_or_template_entry, finish_entry, project_file, write_bargo_values, EntryAction, EntryOutput,
};
use bargo::json::{put, Json};
use bargo::sorted_map::SortedMap;

fn context() -> TemplateContext {
    TemplateContext {
        namespace: "ns".to_string(),
        project: "team".to_string(),
        app_name: "App".to_string(),
        normalized_project: "team".to_string(),
        normalized_app_name: "app".to_string(),
        path: "prod/team/App".to_string(),
        target_name: "prod".to_string(),
    }
}

#[test]
fn folders_are_descended_into() {
    assert!(matches!(copy_or_template_entry("templates", true), EntryAction::Descend));
    assert!(matches!(copy_or_template_entry("x.tera", true), EntryAction::Descend));
}

#[test]
fn templates_lose_their_extension() {
    for (name, expected) in [("values.yaml.tera", "values.yaml"), ("a.tera", "a"), (".b.tera", ".b")] {
        match copy_or_template_entry(name, false) {
            EntryAction::Render { name } => assert_eq!(name, expected),
            _ => panic!("not rendered"),
        }
    }
}

#[test]
fn other_files_are_copied() {
    for name in ["values.yaml", "tera", ".tera", "a.terra", "a.tera.bak", "a.TERA", "", "atera"] {
        assert!(matches!(copy_or_template_entry(name, false), EntryAction::Copy));
    }
}

#[test]
fn a_template_is_what_std_gives_the_extension() {
    for name in ["x.tera", ".tera", "x.y.tera", "tera", "..tera", ".x.tera", "x.tera.", "x", "é.tera"] {
        let has_extension = std::path::Path::new(name).extension().unwrap_or_default() == "tera";
        let rendered = matches!(copy_or_template_entry(name, false), EntryAction::Render { .. });
        assert_eq!(rendered, has_extension);
    }
}

#[test]
fn the_context_is_an_object_of_its_fields() {
    let expected: serde_json::Value = serde_json::from_str(
        r#"{"namespace": "ns", "project": "team", "app_name": "App", "normalized_project": "team",
            "normalized_app_name": "app", "path": "prod/team/App", "target_name": "prod"}"#,
    )
    .unwrap();
    assert_eq!(to_json(&context().to_json()), expected);
}

#[test]
fn an_application_without_a_chart_gets_no_values() {
    let r = write_bargo_values(false, &Json::Null, &context());
    assert!(matches!(r, Ok(None)));
}

#[test]
fn values_stand_under_global_and_bargo() {
    let mut vars = SortedMap::new();
    put(&mut vars, "replicas", Json::Number(serde_json::Number::from(2)));
    let text = match write_bargo_values(true, &Json::Object(vars), &context()) {
        Ok(Some(text)) => text,
        _ => panic!("no values"),
    };
    assert!(text.starts_with("global:\n  bargo:\n"));
    assert!(!text.ends_with('\n'));
    let values: serde_json::Value = serde_yaml::from_str(&text).unwrap();
    assert_eq!(values["global"]["bargo"]["vars"]["replicas"], 2);
    assert_eq!(values["global"]["bargo"]["metadata"], to_json(&context().to_json()));
}

#[test]
fn applications_follow_their_project() {
    let applications = vec!["kind: A".to_string(), "kind: B".to_string()];
    assert_eq!(
        project_file("kind: AppProject\n", &applications),
        "kind: AppProject\n\n---\nkind: A\n---\nkind: B"
    );
    assert_eq!(project_file("kind: AppProject\n", &vec![]), "kind: AppProject\n");
}

#[test]
fn what_was_rendered_is_written() {
    match finish_entry("a".to_string(), Ok("text".to_string())) {
        Ok(EntryOutput::Write { name, contents }) => {
            assert_eq!(name, "a");
            assert_eq!(contents, "text");
        }
        _ => panic!("not written"),
    }
    let r = finish_entry("a".to_string(), Err(ProcessError::InvalidContext));
    assert!(matches!(r, Err(ProcessError::InvalidContext)));
}
