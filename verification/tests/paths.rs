use bargo::config::Args;
use bargo::path::{file_name, join, parent_name, template_name, PathPart};

fn normal(name: &str) -> PathPart {
    PathPart::Normal(name.to_string())
}

#[test]
fn a_path_gives_the_names_of_a_folder_and_the_one_above() {
    let path = vec![PathPart::Root, normal("team"), normal("app")];
    assert_eq!(file_name(&path), Some("app".to_string()));
    assert_eq!(parent_name(&path), Some("team".to_string()));
}

#[test]
fn names_that_a_path_does_not_give() {
    assert_eq!(file_name(&vec![]), None);
    assert_eq!(parent_name(&vec![]), None);
    assert_eq!(file_name(&vec![PathPart::Root]), None);
    assert_eq!(parent_name(&vec![PathPart::Root]), None);
    assert_eq!(parent_name(&vec![PathPart::Root, normal("app")]), None);
    assert_eq!(parent_name(&vec![normal("app")]), None);
    assert_eq!(parent_name(&vec![normal("team"), PathPart::Root]), None);
    assert_eq!(parent_name(&vec![normal("c"), PathPart::Prefix("d:".to_string())]), None);
    assert_eq!(file_name(&vec![normal("team"), PathPart::Parent]), None);
    assert_eq!(parent_name(&vec![normal("team"), PathPart::Parent]), Some("team".to_string()));
    assert_eq!(file_name(&vec![PathPart::Current]), None);
}

#[test]
fn the_names_are_those_that_std_gives() {
    for text in ["/a/b/c", "a/b", "a/b/..", "/a", "/", "", ".", "./a", "../a", "a/../b", "a/b/"] {
        let path = std::path::Path::new(text);
        let parts: Vec<PathPart> = path
            .components()
            .map(|c| match c {
                std::path::Component::Prefix(p) => {
                    PathPart::Prefix(p.as_os_str().to_string_lossy().to_string())
                }
                std::path::Component::RootDir => PathPart::Root,
                std::path::Component::CurDir => PathPart::Current,
                std::path::Component::ParentDir => PathPart::Parent,
                std::path::Component::Normal(n) => PathPart::Normal(n.to_string_lossy().to_string()),
            })
            .collect();
        let name = path.file_name().map(|n| n.to_string_lossy().to_string());
        let above = path
            .parent()
            .and_then(|p| p.file_name())
            .map(|n| n.to_string_lossy().to_string());
        assert_eq!(file_name(&parts), name);
        assert_eq!(parent_name(&parts), above);
    }
}

#[test]
fn paths_are_joined_by_one_slash() {
    assert_eq!(join("prod", "team"), "prod/team");
    assert_eq!(join("prod/", "team"), "prod/team");
    assert_eq!(join("", "team"), "team");
    assert_eq!(join("prod", "/team"), "/team");
    assert_eq!(join("prod", ""), "prod/");
}

#[test]
fn paths_are_joined_as_std_joins_them() {
    for a in ["", "a", "a/", "/", "/a", "a/b"] {
        for b in ["", "x", "/x", "x/", "."] {
            let expected = std::path::Path::new(a).join(b).display().to_string();
            assert_eq!(join(a, b), expected);
        }
    }
}

#[test]
fn the_current_folder_is_read_unless_another_is_asked_for() {
    let args = Args { input_path: None, output_path: None };
    assert_eq!(args.input_dir(), ".");
    let args = Args { input_path: Some("deploy".to_string()), output_path: None };
    assert_eq!(args.input_dir(), "deploy");
}

#[test]
fn a_template_is_named_by_its_path_in_the_tree() {
    assert_eq!(template_name("/in", "app.tera"), Some("app.tera".to_string()));
    assert_eq!(template_name("/in", "a/app.tera"), Some("a/app.tera".to_string()));
    assert_eq!(template_name("/in", "./app.tera"), Some("app.tera".to_string()));
    assert_eq!(template_name("/in", "/in/app.tera"), Some("app.tera".to_string()));
    assert_eq!(template_name("/in", "/inn/app.tera"), None);
    assert_eq!(template_name("/in", "/app.tera"), None);
    assert_eq!(template_name("in", "/in/app.tera"), None);
    assert_eq!(template_name(r"C:\in", "a/app.tera"), Some("a/app.tera".to_string()));
}

#[test]
fn templates_are_named_as_std_strips_paths() {
    let templates = [
        "app.tera", "a/b", "a//b", "a/./b", "./a", ".//./a", "a/", "a//", "a/.", "a/./", "..", "../a",
        "a/..", ".", "", "./", ".a", "a.", "..a", "/", "/in", "/in/", "/in/x", "/in/x/.", "//in//x",
        "/./in/x", "/in/./x", "/i/x", "/inn", "/in/x/y", "/x/in", "/in/..", "/in/...", "é/ü",
    ];
    for input in ["/", "/in", "/in/x", "/é", ".", "in", "./in", "../in", "in/"] {
        for template in templates {
            let path = std::path::Path::new(input).join(template);
            let expected = path.strip_prefix(input).ok().map(|p| p.display().to_string());
            assert_eq!(template_name(input, template), expected);
        }
    }
}
