use bargo::app_project::AppProjectClusterResourceWhitelist;
use bargo::config::{AppFolder, Config, Metadata, ProjectOptions, Target, TemplateContext};
use bargo::convert::to_json;
use bargo::error::ProcessError;
use bargo::folder::EntryOutput;
use bargo::json::Json;
use bargo::path::PathPart;
use bargo::processor::ProjectProcessor;
use bargo::sorted_map::SortedMap;
use bargo::steps::{Action, Deployment, Event};
use bargo::targets::ArgoCDProject;
use bargo::template::{finish_rendering, render_with};

fn read(value: &serde_json::Value) -> Json {
    match value {
        serde_json::Value::Null => Json::Null,
        serde_json::Value::Bool(b) => Json::Bool(*b),
        serde_json::Value::Number(n) => Json::Number(n.clone()),
        serde_json::Value::String(s) => Json::String(s.clone()),
        serde_json::Value::Array(items) => Json::Array(items.iter().map(read).collect()),
        serde_json::Value::Object(entries) => {
            let mut object = SortedMap::new();
            for (key, value) in entries {
                object.insert(key.clone(), read(value));
            }
            Json::Object(object)
        }
    }
}

fn parse(text: &str) -> serde_json::Value {
    serde_json::from_str(text).unwrap()
}

fn json(text: &str) -> Json {
    read(&parse(text))
}

fn target(name: &str, vars: Option<&str>) -> Target {
    Target { name: name.to_string(), vars: vars.map(json) }
}

fn config(targets: Vec<Target>) -> Config {
    Config {
        application_template: "app.tera".to_string(),
        targets,
        vars: Some(json(r#"{"replicas": 1, "region": "eu", "debug": true}"#)),
        argocd_namespace: "argocd".to_string(),
        argocd_source_repo: "https://git.example/repo".to_string(),
        default_application_options: Some(json(r#"{"sync": "manual", "app_name": "default"}"#)),
        argocd_config_application_options: Some(json(r#"{"sync": "auto"}"#)),
    }
}

fn templates(application: &str) -> tera::Tera {
    let mut tera = tera::Tera::default();
    tera.add_raw_template("app.tera", application).unwrap();
    tera
}

fn processor(targets: Vec<Target>) -> ProjectProcessor {
    let tera = templates("{{ project }}/{{ app_name }} in {{ namespace }} at {{ path }}: {{ sync }}");
    ProjectProcessor::new(config(targets), "app.tera".to_string(), tera)
}

fn metadata(targets: Vec<Target>) -> Metadata {
    Metadata {
        namespace: None,
        targets,
        application_options: None,
        project_options: None,
        script: None,
    }
}

fn path(parts: &[&str]) -> Vec<PathPart> {
    let mut path = vec![PathPart::Root];
    path.extend(parts.iter().map(|name| PathPart::Normal(name.to_string())));
    path
}

fn folder(parts: &[&str], metadata: Metadata) -> Event {
    Event::Folder(AppFolder { path: path(parts), metadata })
}

fn step(processor: &mut ProjectProcessor, event: Event) -> Action {
    match processor.process(event) {
        Ok(action) => action,
        Err(_) => panic!("the run ended early"),
    }
}

/// Begins a run and resets all targets, whose names are returned.
fn begin(processor: &mut ProjectProcessor) -> Vec<String> {
    let mut names = Vec::new();
    let mut action = step(processor, Event::Start);
    while let Action::ResetTarget { target } = action {
        names.push(target);
        action = step(processor, Event::Done);
    }
    assert!(matches!(action, Action::FindFolder));
    names
}

/// Goes through the rest of a deployment without chart and without script.
fn deployed(processor: &mut ProjectProcessor) -> Action {
    step(processor, Event::Copied { has_chart: false })
}

/// What the run writes when there is no folder left: a line for each file.
fn finish(processor: &mut ProjectProcessor) -> Vec<String> {
    let mut lines = Vec::new();
    let mut action = step(processor, Event::NoMoreFolders);
    loop {
        match action {
            Action::CreateConfig { target } => lines.push(format!("create {target}")),
            Action::WriteConfig { target, application } => {
                lines.push(format!("config {target}: {application}"))
            }
            Action::WriteProject { target, name, applications, .. } => {
                lines.push(format!("project {target}/{name}: {}", applications.join(", ")))
            }
            Action::Finish => return lines,
            _ => panic!("unexpected action"),
        }
        action = step(processor, Event::Done);
    }
}

#[test]
fn a_run_resets_deploys_and_writes() {
    let mut p = processor(vec![target("prod", Some(r#"{"replicas": 3}"#)), target("dev", None)]);
    assert_eq!(begin(&mut p), vec!["prod", "dev"]);

    let wanted = vec![
        target("prod", Some(r#"{"debug": null, "region": "us"}"#)),
        target("unknown", None),
        target("dev", None),
    ];
    match step(&mut p, folder(&["in", "team", "shop"], metadata(wanted))) {
        Action::CopyFolder { vars, context } => {
            assert_eq!(to_json(&vars), parse(r#"{"replicas": 3, "region": "us"}"#));
            assert_eq!(context.namespace, "team");
            assert_eq!(context.project, "team");
            assert_eq!(context.app_name, "shop");
            assert_eq!(context.path, "prod/team/shop");
            assert_eq!(context.target_name, "prod");
        }
        _ => panic!("not deployed"),
    }
    match deployed(&mut p) {
        Action::CopyFolder { vars, context } => {
            assert_eq!(to_json(&vars), parse(r#"{"replicas": 1, "region": "eu", "debug": true}"#));
            assert_eq!(context.path, "dev/team/shop");
        }
        _ => panic!("not deployed"),
    }
    assert!(matches!(deployed(&mut p), Action::FindFolder));

    let action = step(&mut p, folder(&["in", "team", "cart"], metadata(vec![target("prod", None)])));
    assert!(matches!(action, Action::CopyFolder { .. }));
    assert!(matches!(deployed(&mut p), Action::FindFolder));

    assert_eq!(
        finish(&mut p),
        vec![
            "create dev",
            "config dev: default/argocd-config in argocd at dev/argocd-config: auto",
            "project dev/team: team/shop in team at dev/team/shop: manual",
            "create prod",
            "config prod: default/argocd-config in argocd at prod/argocd-config: auto",
            "project prod/team: team/cart in team at prod/team/cart: manual, \
             team/shop in team at prod/team/shop: manual",
        ]
    );
}

#[test]
fn a_second_run_repeats_the_first() {
    let mut p = processor(vec![target("prod", None), target("dev", None)]);
    let mut results = Vec::new();
    for _ in 0..2 {
        begin(&mut p);
        for app in ["shop", "cart"] {
            let wanted = vec![target("dev", None), target("prod", None)];
            step(&mut p, folder(&["in", "team", app], metadata(wanted)));
            deployed(&mut p);
            deployed(&mut p);
        }
        results.push(finish(&mut p));
    }
    assert_eq!(results[0].len(), 6);
    assert_eq!(results[0], results[1]);
}

#[test]
fn a_second_run_begins_with_empty_targets() {
    let mut p = processor(vec![target("prod", None)]);
    begin(&mut p);
    step(&mut p, folder(&["in", "team", "shop"], metadata(vec![target("prod", None)])));
    deployed(&mut p);
    assert_eq!(finish(&mut p).len(), 3);
    begin(&mut p);
    assert_eq!(finish(&mut p).len(), 2);
}

#[test]
fn the_order_of_discovery_does_not_show() {
    let mut results = Vec::new();
    for names in [["a", "b"], ["b", "a"]] {
        let mut p = processor(vec![target("prod", None)]);
        begin(&mut p);
        for name in names {
            step(&mut p, folder(&["in", "team", name], metadata(vec![target("prod", None)])));
            deployed(&mut p);
        }
        results.push(finish(&mut p));
    }
    assert_eq!(results[0], results[1]);
}

#[test]
fn a_folder_that_names_no_known_target_changes_nothing() {
    let mut p = processor(vec![target("prod", None)]);
    begin(&mut p);
    let action = step(&mut p, folder(&["in", "team", "shop"], metadata(vec![target("test", None)])));
    assert!(matches!(action, Action::FindFolder));
    let action = step(&mut p, folder(&["in", "team", "shop"], metadata(vec![])));
    assert!(matches!(action, Action::FindFolder));
    assert_eq!(finish(&mut p).len(), 2);
}

#[test]
fn without_targets_nothing_is_written() {
    let mut p = processor(vec![]);
    assert_eq!(begin(&mut p), Vec::<String>::new());
    assert_eq!(finish(&mut p), Vec::<String>::new());
}

#[test]
fn a_project_allows_what_its_applications_need() {
    let mut p = processor(vec![target("prod", None)]);
    begin(&mut p);
    for (app, namespace) in [("shop", Some("store".to_string())), ("cart", None), ("cart", None)] {
        let mut data = metadata(vec![target("prod", None)]);
        data.namespace = namespace;
        data.project_options = Some(ProjectOptions {
            additional_namespaces: Some(vec!["monitoring".to_string()]),
            cluster_resource_whitelist: Some(vec![AppProjectClusterResourceWhitelist {
                group: "rbac".to_string(),
                kind: "ClusterRole".to_string(),
            }]),
        });
        step(&mut p, folder(&["in", "team", app], data));
        deployed(&mut p);
    }
    step(&mut p, Event::NoMoreFolders);
    step(&mut p, Event::Done);
    match step(&mut p, Event::Done) {
        Action::WriteProject { target, name, project, applications } => {
            assert_eq!(target, "prod");
            assert_eq!(name, "team");
            assert_eq!(project.metadata.name, "team");
            assert_eq!(project.metadata.namespace, "argocd");
            assert_eq!(*project.spec.source_repos.as_vec(), vec!["https://git.example/repo"]);
            let destinations: Vec<(&str, &str, &str)> = project
                .spec
                .destinations
                .as_vec()
                .iter()
                .map(|d| (d.name.as_str(), d.namespace.as_str(), d.server.as_str()))
                .collect();
            let server = "https://kubernetes.devault.svc";
            assert_eq!(
                destinations,
                vec![
                    ("in-cluster", "store", server),
                    ("in-cluster", "monitoring", server),
                    ("in-cluster", "team", server),
                ]
            );
            let resources: Vec<(&str, &str)> = project
                .spec
                .cluster_resource_whitelist
                .as_vec()
                .iter()
                .map(|r| (r.group.as_str(), r.kind.as_str()))
                .collect();
            assert_eq!(resources, vec![("", "Namespace"), ("rbac", "ClusterRole")]);
            assert_eq!(applications.len(), 3);
        }
        _ => panic!("no project"),
    }
}

#[test]
fn a_new_project_allows_nothing() {
    let mut project = ArgoCDProject::new("team".to_string(), "argocd".to_string());
    assert_eq!(project.project().metadata.name, "team");
    assert!(project.project().spec.destinations.as_vec().is_empty());
    project.push_application("b".to_string());
    project.push_application("a".to_string());
    assert_eq!(project.sorted_applications(), vec!["a", "b"]);
}

#[test]
fn a_script_that_fails_ends_the_run() {
    let mut p = processor(vec![target("prod", None)]);
    begin(&mut p);
    let mut data = metadata(vec![target("prod", None)]);
    data.script = Some("make".to_string());
    assert!(matches!(
        step(&mut p, folder(&["in", "team", "shop"], data)),
        Action::CopyFolder { .. }
    ));
    match step(&mut p, Event::Copied { has_chart: false }) {
        Action::RunScript { path, script } => {
            assert_eq!(path, "prod/team/shop");
            assert_eq!(script, "make");
        }
        _ => panic!("no script"),
    }
    let r = p.process(Event::ScriptRan { succeeded: false });
    assert!(matches!(r, Err(ProcessError::ScriptFailed)));
    assert_eq!(begin(&mut p), vec!["prod"]);
}

#[test]
fn the_parts_of_a_deployment_come_in_order() {
    for script in [None, Some("make".to_string())] {
        let mut p = processor(vec![target("prod", None), target("dev", None)]);
        begin(&mut p);
        let mut data = metadata(vec![target("prod", Some(r#"{"region": "us"}"#)), target("dev", None)]);
        data.script = script.clone();
        step(&mut p, folder(&["in", "team", "shop"], data));
        match step(&mut p, Event::Copied { has_chart: true }) {
            Action::WriteValues { path, values } => {
                assert_eq!(path, "prod/team/shop");
                let values: serde_json::Value = serde_yaml::from_str(&values).unwrap();
                let bargo = &values["global"]["bargo"];
                assert_eq!(bargo["vars"], parse(r#"{"replicas": 1, "region": "us", "debug": true}"#));
                assert_eq!(bargo["metadata"]["app_name"], "shop");
            }
            _ => panic!("no values"),
        }
        let mut action = step(&mut p, Event::Done);
        if script.is_some() {
            assert!(matches!(action, Action::RunScript { .. }));
            action = step(&mut p, Event::ScriptRan { succeeded: true });
        }
        match action {
            Action::CopyFolder { context, .. } => assert_eq!(context.target_name, "dev"),
            _ => panic!("not deployed"),
        }
    }
}

#[test]
fn what_was_encoded_decides_what_follows() {
    let mut p = processor(vec![target("prod", None)]);
    begin(&mut p);
    let deployment = || Deployment {
        folder: AppFolder {
            path: path(&["team", "shop"]),
            metadata: metadata(vec![target("prod", None)]),
        },
        next: 1,
        vars: json("{}"),
        context: TemplateContext {
            namespace: "ns".to_string(),
            project: "team".to_string(),
            app_name: "shop".to_string(),
            normalized_project: "team".to_string(),
            normalized_app_name: "shop".to_string(),
            path: "prod/team/shop".to_string(),
            target_name: "prod".to_string(),
        },
    };
    match p.values_encoded(deployment(), Ok("a: 1".to_string())) {
        Ok(Action::WriteValues { path, values }) => {
            assert_eq!(path, "prod/team/shop");
            assert_eq!(values, "a: 1");
        }
        _ => panic!("not written"),
    }
    assert!(matches!(step(&mut p, Event::Done), Action::FindFolder));
    let r = p.values_encoded(deployment(), Err(ProcessError::Yaml("why".to_string())));
    assert!(matches!(r, Err(ProcessError::Yaml(message)) if message == "why"));
}

#[test]
fn a_run_gathers_one_application_for_each_known_target_of_a_folder() {
    let mut p = processor(vec![target("prod", None), target("dev", None)]);
    begin(&mut p);
    let folders = [
        ("a", "shop", vec!["dev", "prod"]),
        ("a", "cart", vec!["unknown", "dev"]),
        ("b", "mail", vec!["dev", "dev"]),
        ("c", "none", vec!["unknown"]),
    ];
    let mut paths = Vec::new();
    for (project, app, wanted) in folders {
        let wanted = wanted.into_iter().map(|name| target(name, None)).collect();
        let mut action = step(&mut p, folder(&["in", project, app], metadata(wanted)));
        while let Action::CopyFolder { context, .. } = action {
            paths.push(context.path);
            action = deployed(&mut p);
        }
    }
    assert_eq!(
        paths,
        vec!["dev/a/shop", "prod/a/shop", "dev/a/cart", "dev/b/mail", "dev/b/mail"]
    );
    let counts: Vec<(String, usize)> = finish(&mut p)
        .iter()
        .filter(|line| line.starts_with("project"))
        .map(|line| (line.split(':').next().unwrap().to_string(), line.matches("manual").count()))
        .collect();
    let expected = [("project dev/a", 2), ("project dev/b", 2), ("project prod/a", 1)];
    assert_eq!(counts, expected.map(|(name, count)| (name.to_string(), count)));
}

#[test]
fn a_folder_without_names_ends_the_run() {
    let mut p = processor(vec![target("prod", None)]);
    begin(&mut p);
    let r = p.process(folder(&["shop"], metadata(vec![target("prod", None)])));
    assert!(matches!(r, Err(ProcessError::NoProjectName)));

    begin(&mut p);
    let path = vec![PathPart::Normal("team".to_string()), PathPart::Parent];
    let data = metadata(vec![target("prod", None)]);
    let r = p.process(Event::Folder(AppFolder { path, metadata: data }));
    assert!(matches!(r, Err(ProcessError::NoAppName)));
}

#[test]
fn a_project_is_found_under_its_normalized_name() {
    for name in [".a", "a", "A.", "-a"] {
        let mut p = processor(vec![target("prod", None)]);
        begin(&mut p);
        match step(&mut p, folder(&["in", name, "shop"], metadata(vec![target("prod", None)]))) {
            Action::CopyFolder { context, .. } => {
                assert_eq!(context.project, name);
                assert_eq!(context.normalized_project, "a");
                assert_eq!(context.path, format!("prod/{name}/shop"));
            }
            _ => panic!("not deployed"),
        }
        deployed(&mut p);
        let lines = finish(&mut p);
        assert_eq!(lines[2], format!("project prod/a: {name}/shop in a at prod/{name}/shop: manual"));
    }
}

#[test]
fn an_unknown_target_among_known_ones_changes_nothing() {
    let mut results = Vec::new();
    for names in [vec!["prod", "dev"], vec!["x", "prod", "dev"], vec!["prod", "x", "dev"], vec!["prod", "dev", "x"]] {
        let mut p = processor(vec![target("prod", None), target("dev", None)]);
        begin(&mut p);
        let wanted = names.iter().map(|name| target(name, None)).collect();
        let mut action = step(&mut p, folder(&["in", "team", "shop"], metadata(wanted)));
        let mut lines = Vec::new();
        while let Action::CopyFolder { vars, context } = action {
            lines.push(format!("{} {}", context.path, to_json(&vars)));
            action = deployed(&mut p);
        }
        assert!(matches!(action, Action::FindFolder));
        lines.extend(finish(&mut p));
        results.push(lines);
    }
    assert_eq!(results[0][..2], ["prod/team/shop", "dev/team/shop"].map(|path| format!(
        r#"{path} {{"debug":true,"region":"eu","replicas":1}}"#
    )));
    assert!(results.iter().all(|r| *r == results[0]));
}

#[test]
fn what_was_rendered_decides_what_is_written_for_the_configuration() {
    let mut p = processor(vec![target("prod", None), target("dev", None)]);
    begin(&mut p);
    match p.config_rendered(1, Ok("text".to_string())) {
        Ok(Action::WriteConfig { target, application }) => {
            assert_eq!(target, "prod");
            assert_eq!(application, "text");
        }
        _ => panic!("not written"),
    }
    let r = p.config_rendered(0, Err(ProcessError::Render("why".to_string())));
    assert!(matches!(r, Err(ProcessError::Render(message)) if message == "why"));
}

#[test]
fn an_application_that_cannot_be_rendered_ends_the_run() {
    let tera = templates("{{ missing }}");
    let mut p = ProjectProcessor::new(config(vec![target("prod", None)]), "app.tera".to_string(), tera);
    begin(&mut p);
    match p.process(folder(&["in", "team", "shop"], metadata(vec![target("prod", None)]))) {
        Err(ProcessError::Render(message)) => {
            assert_eq!(message, "Variable `missing` not found in context while rendering 'app.tera'")
        }
        _ => panic!("rendered"),
    }
}

#[test]
fn names_are_normalized_for_the_templates() {
    let data = metadata(vec![]);
    match ProjectProcessor::template_context_for_dir(&path(&["My Team", "Shop_1"]), "prod", &data) {
        Ok(c) => {
            assert_eq!(c.namespace, "my-team");
            assert_eq!(c.project, "My Team");
            assert_eq!(c.app_name, "Shop_1");
            assert_eq!(c.normalized_project, "my-team");
            assert_eq!(c.normalized_app_name, "shop-1");
            assert_eq!(c.path, "prod/My Team/Shop_1");
            assert_eq!(c.target_name, "prod");
        }
        Err(_) => panic!("no context"),
    }
}

#[test]
fn options_are_laid_over_the_defaults_and_names_over_both() {
    let tera = templates("{{ app_name }} {{ sync }} {{ extra.b }}");
    let p = ProjectProcessor::new(config(vec![]), "app.tera".to_string(), tera);
    let context = TemplateContext {
        namespace: "ns".to_string(),
        project: "team".to_string(),
        app_name: "shop".to_string(),
        normalized_project: "team".to_string(),
        normalized_app_name: "shop".to_string(),
        path: "prod/team/shop".to_string(),
        target_name: "prod".to_string(),
    };
    let options = Some(json(r#"{"app_name": "other", "sync": "auto", "extra": {"b": 2}}"#));
    match p.generate_argo_application_for_dir(&options, &context) {
        Ok(text) => assert_eq!(text, "shop auto 2"),
        Err(_) => panic!("not rendered"),
    }
}

#[test]
fn templates_are_rendered_with_objects_only() {
    let p = processor(vec![]);
    for context in ["null", "true", "1", "\"x\"", "[]"] {
        let r = p.render_template("app.tera", json(context));
        assert!(matches!(r, Err(ProcessError::InvalidContext)));
    }
    let tera = templates("a{{ x }}{% for i in l %}{{ i }}{% endfor %}{{ n }}{{ b }}");
    match render_with(&tera, "app.tera", &json(r#"{"x": "b", "l": [1, -2], "n": 2.5, "b": true}"#)) {
        Ok(text) => assert_eq!(text, "ab1-22.5true"),
        Err(_) => panic!("not rendered"),
    }
}

#[test]
fn errors_are_reported_by_what_lies_behind_them() {
    match finish_rendering(Err(tera::Error::msg("outer"))) {
        Err(ProcessError::Render(message)) => assert_eq!(message, "outer"),
        _ => panic!("no error"),
    }
    match finish_rendering(Err(tera::Error::chain("outer", tera::Error::msg("inner")))) {
        Err(ProcessError::Render(message)) => assert_eq!(message, "inner"),
        _ => panic!("no error"),
    }
    match finish_rendering(Ok("text".to_string())) {
        Ok(text) => assert_eq!(text, "text"),
        Err(_) => panic!("an error"),
    }
    match processor(vec![]).render_template("absent", json("{}")) {
        Err(ProcessError::Render(message)) => assert_eq!(message, "Template 'absent' not found"),
        _ => panic!("rendered"),
    }
}

#[test]
fn what_was_rendered_decides_what_follows() {
    let mut p = processor(vec![target("prod", None)]);
    begin(&mut p);
    let data = metadata(vec![target("prod", None)]);
    let context = || TemplateContext {
        namespace: "ns".to_string(),
        project: "Team".to_string(),
        app_name: "shop".to_string(),
        normalized_project: "team".to_string(),
        normalized_app_name: "shop".to_string(),
        path: "prod/team/shop".to_string(),
        target_name: "prod".to_string(),
    };
    let found = || AppFolder {
        path: path(&["team", "shop"]),
        metadata: metadata(vec![target("prod", None)]),
    };
    p.create_or_update_app_project_for_dir("prod", &data, &context());
    let r = p.deploy_rendered(found(), 0, context(), Ok("one".to_string()));
    assert!(matches!(r, Ok(Action::CopyFolder { .. })));
    let r = p.deploy_rendered(found(), 0, context(), Err(ProcessError::ScriptFailed));
    assert!(matches!(r, Err(ProcessError::ScriptFailed)));
    p.add_application("prod", "team", "zero".to_string());
    let r = p.deploy_rendered(found(), 0, context(), Ok("three".to_string()));
    assert!(matches!(r, Ok(Action::CopyFolder { .. })));
    deployed(&mut p);
    let lines = finish(&mut p);
    assert_eq!(lines[2], "project prod/team: one, three, zero");
}

#[test]
fn the_files_of_a_folder_are_rendered_or_copied() {
    let mut tera = templates("");
    tera.add_raw_template("team/shop/values.yaml.tera", "replicas: {{ replicas }}").unwrap();
    let p = ProjectProcessor::new(config(vec![]), "app.tera".to_string(), tera);
    let vars = json(r#"{"replicas": 3}"#);
    match p.copy_and_template_entry(&vars, "team/shop", "values.yaml.tera", false) {
        Ok(EntryOutput::Write { name, contents }) => {
            assert_eq!(name, "values.yaml");
            assert_eq!(contents, "replicas: 3");
        }
        _ => panic!("not rendered"),
    }
    match p.copy_and_template_entry(&vars, "", "app.tera", false) {
        Ok(EntryOutput::Write { name, contents }) => {
            assert_eq!(name, "app");
            assert_eq!(contents, "");
        }
        _ => panic!("not rendered"),
    }
    let r = p.copy_and_template_entry(&vars, "team/shop", "values.yaml", false);
    assert!(matches!(r, Ok(EntryOutput::Copy)));
    let r = p.copy_and_template_entry(&vars, "team", "shop.tera", true);
    assert!(matches!(r, Ok(EntryOutput::Descend)));
    let r = p.copy_and_template_entry(&vars, "team/shop", "absent.tera", false);
    assert!(matches!(r, Err(ProcessError::Render(_))));
    let r = p.copy_and_template_entry(&Json::Null, "team/shop", "values.yaml.tera", false);
    assert!(matches!(r, Err(ProcessError::InvalidContext)));
}
