//! What becomes of the files of an application folder.

use vstd::prelude::*;

use crate::config::{ContextView, TemplateContext};
use crate::error::{ErrorView, ProcessError};
use crate::filters::{trimmed_yaml, yaml_encode};
use crate::json::{put, Json, JsonView};
use crate::order::texts;
use crate::path::{joined, law_joining};
use crate::sorted_map::SortedMap;
use crate::template::{
    comes_to_an_end, error_cause, error_message, law_what_comes_of_a_rendering, may_render, renders_to,
    template_names,
};
use crate::text::{chars_of, same_text, string_of};

verus! {

/// What is to be done with an entry of an application folder.
pub enum EntryAction {
    /// Treat the entries of this folder in turn.
    Descend,
    /// Render the template into a file of this name.
    Render { name: String },
    /// Copy the file.
    Copy,
}

/// What an `EntryAction` says.
#[verifier::ext_equal]
pub enum EntryActionView {
    Descend,
    Render { name: Seq<char> },
    Copy,
}

impl View for EntryAction {
    type V = EntryActionView;

    open spec fn view(&self) -> EntryActionView {
        match *self {
            EntryAction::Descend => EntryActionView::Descend,
            EntryAction::Render { name } => EntryActionView::Render { name: name@ },
            EntryAction::Copy => EntryActionView::Copy,
        }
    }
}

/// The name of a file without the extension `tera`, where it has that extension. A name that
/// consists of the extension alone is a name without extension.
pub open spec fn rendered_name(name: Seq<char>) -> Option<Seq<char>> {
    let stem = name.len() - ".tera"@.len();
    if stem > 0 && name.skip(stem) == ".tera"@ {
        Some(name.take(stem))
    } else {
        None
    }
}

/// A folder is descended into, a template is rendered, and any other file is copied.
pub open spec fn entry_action(name: Seq<char>, is_dir: bool) -> EntryActionView {
    if is_dir {
        EntryActionView::Descend
    } else {
        match rendered_name(name) {
            Some(stem) => EntryActionView::Render { name: stem },
            None => EntryActionView::Copy,
        }
    }
}

/// What is left to do with an entry of an application folder once its template is rendered.
pub enum EntryOutput {
    /// Treat the entries of this folder in turn.
    Descend,
    /// Write a file of this name with this text.
    Write { name: String, contents: String },
    /// Copy the file.
    Copy,
}

/// `output` is what can come of an entry of that name, when templates are rendered with `vars`. The
/// folder that it lies in is given by its path in the tree.
pub open spec fn entry_comes_to(
    templates: tera::Tera,
    vars: JsonView,
    folder: Seq<char>,
    name: Seq<char>,
    is_dir: bool,
    output: Result<EntryOutput, ProcessError>,
) -> bool {
    match entry_action(name, is_dir) {
        EntryActionView::Descend => output == Ok::<EntryOutput, ProcessError>(EntryOutput::Descend),
        EntryActionView::Copy => output == Ok::<EntryOutput, ProcessError>(EntryOutput::Copy),
        EntryActionView::Render { name: stem } => match (vars, output) {
            (JsonView::Object(entries), Ok(EntryOutput::Write { name: to, contents })) => {
                &&& to@ == stem
                &&& renders_to(templates, joined(folder, name), entries, Ok(contents@))
            },
            (JsonView::Object(entries), Err(e)) => renders_to(
                templates,
                joined(folder, name),
                entries,
                Err(e@),
            ),
            (JsonView::Object(_), _) => false,
            (_, r) => r == Err::<EntryOutput, ProcessError>(ProcessError::InvalidContext),
        },
    }
}

/// Where the entry of that name is a template, rendering it with `vars` returns.
pub open spec fn entry_ends(
    templates: tera::Tera,
    vars: JsonView,
    folder: Seq<char>,
    name: Seq<char>,
    is_dir: bool,
) -> bool {
    entry_action(name, is_dir) is Render && vars is Object ==> comes_to_an_end(
        templates,
        joined(folder, name),
        vars->Object_0,
    )
}

/// What is to be done with a template, for what came of rendering it: the text is written into a
/// file of the given name.
pub fn finish_entry(name: String, rendered: Result<String, ProcessError>) -> (r: Result<
    EntryOutput,
    ProcessError,
>)
    ensures
        match rendered {
            Ok(contents) => r == Ok::<EntryOutput, ProcessError>(
                EntryOutput::Write { name, contents },
            ),
            Err(e) => r == Err::<EntryOutput, ProcessError>(e),
        },
{
    match rendered {
        Ok(contents) => Ok(EntryOutput::Write { name, contents }),
        Err(e) => Err(e),
    }
}

/// What is to be done with the entry of that name of an application folder.
pub fn copy_or_template_entry(name: &str, is_dir: bool) -> (r: EntryAction)
    ensures
        r@ == entry_action(name@, is_dir),
{
    if is_dir {
        return EntryAction::Descend;
    }
    proof {
        reveal_strlit(".tera");
    }
    let chars = chars_of(name);
    if chars.len() > 5 {
        let stem = chars.len() - 5;
        let extension = string_of(&chars, stem, chars.len());
        assert(extension@ =~= name@.skip(stem as int));
        if same_text(extension.as_str(), ".tera") {
            let rendered = string_of(&chars, 0, stem);
            assert(rendered@ =~= name@.take(stem as int));
            return EntryAction::Render { name: rendered };
        }
    }
    EntryAction::Copy
}

/// The values for the chart of an application: its variables and what it is called, under
/// `global` so that all subcharts have access to them.
pub open spec fn bargo_values(vars: JsonView, context: ContextView) -> JsonView {
    JsonView::Object(
        Map::<Seq<char>, JsonView>::empty().insert(
            "global"@,
            JsonView::Object(
                Map::<Seq<char>, JsonView>::empty().insert(
                    "bargo"@,
                    JsonView::Object(
                        Map::<Seq<char>, JsonView>::empty().insert("vars"@, vars).insert(
                            "metadata"@,
                            JsonView::Object(context.entries()),
                        ),
                    ),
                ),
            ),
        ),
    )
}

/// The text of the values file of an application that has a chart. One without gets none.
pub fn write_bargo_values(has_chart: bool, vars: &Json, context: &TemplateContext) -> (r: Result<
    Option<String>,
    ProcessError,
>)
    ensures
        !has_chart ==> r == Ok::<Option<String>, ProcessError>(None),
        has_chart ==> match trimmed_yaml(bargo_values(vars@, context@)) {
            Ok(text) => r matches Ok(Some(s)) && s@ == text,
            Err(message) => r matches Err(e) && e@ == ErrorView::Yaml(message),
        },
{
    if !has_chart {
        return Ok(None);
    }
    let mut bargo_vars: SortedMap<Json> = SortedMap::new();
    put(&mut bargo_vars, "vars", vars.clone());
    put(&mut bargo_vars, "metadata", context.to_json());
    let mut bargo_values_map: SortedMap<Json> = SortedMap::new();
    put(&mut bargo_values_map, "bargo", Json::Object(bargo_vars));
    let mut values_map: SortedMap<Json> = SortedMap::new();
    put(&mut values_map, "global", Json::Object(bargo_values_map));
    match yaml_encode(&Json::Object(values_map)) {
        Ok(text) => Ok(Some(text)),
        Err(e) => Err(e),
    }
}

/// A project, and its applications after it, with a line of dashes before each one.
pub open spec fn project_text(project: Seq<char>, applications: Seq<Seq<char>>) -> Seq<char>
    decreases applications.len(),
{
    if applications.len() == 0 {
        project
    } else {
        project_text(project, applications.drop_last()) + "\n---\n"@ + applications.last()
    }
}

/// The file of a project, for the YAML of the project.
pub fn project_file(project: &str, applications: &Vec<String>) -> (r: String)
    ensures
        r@ == project_text(project@, texts(applications@)),
{
    let ghost all = texts(applications@);
    let mut r = project.to_owned();
    let mut i: usize = 0;
    while i < applications.len()
        invariant
            i <= applications@.len(),
            all == texts(applications@),
            r@ == project_text(project@, all.take(i as int)),
        decreases applications@.len() - i,
    {
        r.append("\n---\n");
        r.append(applications[i].as_str());
        assert(all.take(i + 1).drop_last() =~= all.take(i as int));
        i = i + 1;
    }
    assert(all.take(i as int) =~= all);
    r
}

/// A file is a template where its name is a stem, which is not empty, and the extension `.tera`, and
/// is then rendered into a file named by the stem. Every other file is copied, and every folder is
/// descended into, whatever it is called.
pub proof fn law_templates_are_told_by_their_extension(name: Seq<char>, stem: Seq<char>)
    ensures
        entry_action(name, false) == (EntryActionView::Render { name: stem }) <==> stem.len() > 0
            && name == stem + seq!['.', 't', 'e', 'r', 'a'],
        entry_action(name, false) is Render || entry_action(name, false) is Copy,
        entry_action(name, true) is Descend,
{
    reveal_strlit(".tera");
    assert(".tera"@ =~= seq!['.', 't', 'e', 'r', 'a']);
    if stem.len() > 0 && name == stem + ".tera"@ {
        assert(name.skip(stem.len() as int) =~= ".tera"@);
        assert(name.take(stem.len() as int) =~= stem);
    }
    if entry_action(name, false) == (EntryActionView::Render { name: stem }) {
        let n = name.len() - 5;
        assert(name =~= name.take(n) + name.skip(n));
    }
}

/// The path of the entry of that name in the folder: with one `/` between them, unless the folder is
/// the tree itself or its path ends with one. A name that starts at the root stands alone.
pub open spec fn path_below(folder: Seq<char>, name: Seq<char>) -> Seq<char> {
    if name.len() > 0 && name[0] == '/' {
        name
    } else if folder.len() == 0 || folder[folder.len() - 1] == '/' {
        folder + name
    } else {
        folder + seq!['/'] + name
    }
}

/// What comes of an entry: a folder is descended into. A file that is no template is copied. A
/// template is rendered under its path in the tree with the variables, into a file named by its
/// stem, and an error of the rendering is passed on. Variables that are no object are refused.
pub proof fn law_what_comes_of_an_entry(
    templates: tera::Tera,
    vars: JsonView,
    folder: Seq<char>,
    name: Seq<char>,
    is_dir: bool,
    output: Result<EntryOutput, ProcessError>,
)
    requires
        entry_comes_to(templates, vars, folder, name, is_dir, output),
    ensures
        ({
            let extension = seq!['.', 't', 'e', 'r', 'a'];
            let stem = name.take(name.len() - 5);
            let path = path_below(folder, name);
            if is_dir {
                output matches Ok(EntryOutput::Descend)
            } else if !(name.len() > 5 && name.skip(name.len() - 5) == extension) {
                output matches Ok(EntryOutput::Copy)
            } else if !(vars is Object) {
                output matches Err(ProcessError::InvalidContext)
            } else {
                match output {
                    Ok(EntryOutput::Write { name: to, contents }) => {
                        &&& to@ == stem
                        &&& template_names(templates).contains(path)
                        &&& may_render(templates, path, vars->Object_0, Ok(contents@))
                    },
                    Err(e) => exists|error: tera::Error|
                        {
                            &&& #[trigger] may_render(templates, path, vars->Object_0, Err(error))
                            &&& e@ == match error_cause(error) {
                                Some(cause) => ErrorView::Render(cause),
                                None => ErrorView::Render(error_message(error)),
                            }
                        },
                    _ => false,
                }
            }
        }),
{
    reveal_strlit(".tera");
    assert(".tera"@ =~= seq!['.', 't', 'e', 'r', 'a']);
    law_joining(folder, name);
    assert(joined(folder, name) == path_below(folder, name));
    if let JsonView::Object(entries) = vars {
        if entry_action(name, is_dir) is Render {
            match output {
                Ok(EntryOutput::Write { name: to, contents }) => {
                    law_what_comes_of_a_rendering(
                        templates,
                        joined(folder, name),
                        entries,
                        Ok(contents@),
                    );
                },
                Err(e) => {
                    law_what_comes_of_a_rendering(
                        templates,
                        joined(folder, name),
                        entries,
                        Err(e@),
                    );
                },
                _ => {},
            }
        }
    }
}

/// The file of a project is the project alone where it has no applications, and each application
/// adds a line of dashes and itself at the end.
pub proof fn law_a_project_file_holds_its_applications_in_turn(
    project: Seq<char>,
    applications: Seq<Seq<char>>,
    application: Seq<char>,
)
    ensures
        project_text(project, Seq::empty()) == project,
        project_text(project, applications.push(application)) == project_text(project, applications)
            + seq!['\n', '-', '-', '-', '\n'] + application,
{
    reveal_strlit("\n---\n");
    assert("\n---\n"@ =~= seq!['\n', '-', '-', '-', '\n']);
    assert(applications.push(application).drop_last() =~= applications);
}

} // verus!
