//! Rendering templates.

use vstd::prelude::*;

use crate::convert::{json_contents, to_json};
use crate::error::{ErrorView, ProcessError};
use crate::json::{Json, JsonView};

verus! {

/// The loaded templates of `tera`, with the filters that are registered.
#[verifier::external_type_specification]
#[verifier::external_body]
pub struct ExTera(tera::Tera);

/// The context of `tera`: what a template is rendered with.
#[verifier::external_type_specification]
#[verifier::external_body]
pub struct ExContext(tera::Context);

/// The error of `tera`.
#[verifier::external_type_specification]
#[verifier::external_body]
pub struct ExTeraError(tera::Error);

/// What a `tera::Context` holds.
pub uninterp spec fn context_entries(context: tera::Context) -> Map<Seq<char>, JsonView>;

/// Rendering a template returns, whatever chance, the clock and the environment give, and this is
/// one of its outcomes. Templates can read the clock and the environment and draw random numbers,
/// so there may be more than one. There is none for a template that may panic or never end, such
/// as one that asks `get_random` for a number out of an empty range, or `range` for steps of zero.
pub uninterp spec fn may_render(
    templates: tera::Tera,
    template: Seq<char>,
    entries: Map<Seq<char>, JsonView>,
    outcome: Result<Seq<char>, tera::Error>,
) -> bool;

/// The names of the templates that a `tera::Tera` holds, as `Tera::get_template_names` lists them.
pub uninterp spec fn template_names(templates: tera::Tera) -> Set<Seq<char>>;

/// The message of a `tera::Error`.
pub uninterp spec fn error_message(error: tera::Error) -> Seq<char>;

/// The message of what lies behind a `tera::Error`, where there is anything.
pub uninterp spec fn error_cause(error: tera::Error) -> Option<Seq<char>>;

/// Rendering the template with these entries returns, with a text or with an error, whatever
/// chance, the clock and the environment give. A name that no template has is always refused.
pub open spec fn comes_to_an_end(
    templates: tera::Tera,
    template: Seq<char>,
    entries: Map<Seq<char>, JsonView>,
) -> bool {
    template_names(templates).contains(template) ==> exists|
        outcome: Result<Seq<char>, tera::Error>,
    | #[trigger] may_render(templates, template, entries, outcome)
}

/// Rendering any of the templates with any entries returns.
pub open spec fn always_ends(templates: tera::Tera) -> bool {
    forall|template: Seq<char>, entries: Map<Seq<char>, JsonView>| #[trigger]
        comes_to_an_end(templates, template, entries)
}

/// `tera::Context::from_value`: the context with the entries of an object. Any other value is
/// refused.
#[verifier::external_body]
fn context_from_value(json: serde_json::Value) -> (r: Result<tera::Context, tera::Error>)
    ensures
        r is Ok <==> json_contents(json) is Object,
        r matches Ok(context) ==> context_entries(context) == json_contents(json)->Object_0,
{
    tera::Context::from_value(json)
}

/// `tera::Tera::render`: renders the template of that name. What comes out is one of the outcomes
/// that are possible for these templates, this name and this context. Nothing is said of which
/// ones these are, but that a name which no template has is refused. Templates that may panic or
/// never end have no outcome, and are left out.
#[verifier::external_body]
fn render(templates: &tera::Tera, template: &str, context: &tera::Context) -> (r: Result<
    String,
    tera::Error,
>)
    requires
        comes_to_an_end(*templates, template@, context_entries(*context)),
    ensures
        may_render(*templates, template@, context_entries(*context), outcome_view(r)),
        !template_names(*templates).contains(template@) ==> r is Err,
{
    templates.render(template, context)
}

/// `Display` of `tera::Error`: the message of the error, which is only given a name here.
#[verifier::external_body]
fn error_text(error: &tera::Error) -> (r: String)
    ensures
        r@ == error_message(*error),
{
    format!("{}", error)
}

/// `source` of `tera::Error`: the message of what lies behind the error, where there is anything.
/// The message is only given a name here. What lies behind the errors of a rendering is an error of
/// `tera` or of std. Of an error that was made by hand over another type, it is taken on trust that
/// the type always gives the same message.
#[verifier::external_body]
fn source_text(error: &tera::Error) -> (r: Option<String>)
    ensures
        match r {
            Some(text) => error_cause(*error) == Some(text@),
            None => error_cause(*error) is None,
        },
{
    std::error::Error::source(error).map(|source| format!("{:#}", source))
}

/// The outcome of a rendering, with the characters of the text.
pub open spec fn outcome_view(outcome: Result<String, tera::Error>) -> Result<
    Seq<char>,
    tera::Error,
> {
    match outcome {
        Ok(text) => Ok(text@),
        Err(e) => Err(e),
    }
}

/// What is reported of an error: what lies behind it, or else the error itself.
pub open spec fn reported(error: tera::Error) -> Seq<char> {
    match error_cause(error) {
        Some(cause) => cause,
        None => error_message(error),
    }
}

/// The text of a rendering, or the error that reports what went wrong.
pub open spec fn rendering(outcome: Result<Seq<char>, tera::Error>) -> Result<
    Seq<char>,
    ErrorView,
> {
    match outcome {
        Ok(text) => Ok(text),
        Err(e) => Err(ErrorView::Render(reported(e))),
    }
}

/// A text or an error, with the characters that they hold.
pub open spec fn text_view(r: Result<String, ProcessError>) -> Result<Seq<char>, ErrorView> {
    match r {
        Ok(text) => Ok(text@),
        Err(e) => Err(e@),
    }
}

/// `r` is what an outcome that is possible for this template comes to. Where no template has that
/// name, it is an error.
pub open spec fn renders_to(
    templates: tera::Tera,
    template: Seq<char>,
    entries: Map<Seq<char>, JsonView>,
    r: Result<Seq<char>, ErrorView>,
) -> bool {
    &&& exists|outcome: Result<Seq<char>, tera::Error>| #[trigger]
        may_render(templates, template, entries, outcome) && rendering(outcome) == r
    &&& !template_names(templates).contains(template) ==> r is Err
}

/// The text that was rendered, or the error to report.
pub fn finish_rendering(outcome: Result<String, tera::Error>) -> (r: Result<String, ProcessError>)
    ensures
        text_view(r) == rendering(outcome_view(outcome)),
{
    match outcome {
        Ok(text) => Ok(text),
        Err(e) => match source_text(&e) {
            Some(text) => Err(ProcessError::Render(text)),
            None => Err(ProcessError::Render(error_text(&e))),
        },
    }
}

/// Renders the template of that name with the entries of an object. Any other value is refused.
pub fn render_with(templates: &tera::Tera, template: &str, context: &Json) -> (r: Result<
    String,
    ProcessError,
>)
    requires
        context@ matches JsonView::Object(entries) ==> comes_to_an_end(
            *templates,
            template@,
            entries,
        ),
    ensures
        match context@ {
            JsonView::Object(entries) => renders_to(
                *templates,
                template@,
                entries,
                text_view(r),
            ),
            _ => r == Err::<String, ProcessError>(ProcessError::InvalidContext),
        },
{
    match context_from_value(to_json(context)) {
        Ok(prepared) => {
            let outcome = render(templates, template, &prepared);
            assert(may_render(
                *templates,
                template@,
                context_entries(prepared),
                outcome_view(outcome),
            ));
            finish_rendering(outcome)
        },
        Err(_) => Err(ProcessError::InvalidContext),
    }
}

/// What comes of a rendering is a text that the template can give with these entries, or the error
/// that reports what can go wrong: with the message of what lies behind it where there is anything,
/// and else with its own.
pub proof fn law_what_comes_of_a_rendering(
    templates: tera::Tera,
    template: Seq<char>,
    entries: Map<Seq<char>, JsonView>,
    r: Result<Seq<char>, ErrorView>,
)
    requires
        renders_to(templates, template, entries, r),
    ensures
        match r {
            Ok(text) => {
                &&& template_names(templates).contains(template)
                &&& may_render(templates, template, entries, Ok(text))
            },
            Err(e) => exists|error: tera::Error|
                {
                    &&& #[trigger] may_render(templates, template, entries, Err(error))
                    &&& e == match error_cause(error) {
                        Some(cause) => ErrorView::Render(cause),
                        None => ErrorView::Render(error_message(error)),
                    }
                },
        },
{
    let outcome = choose|outcome: Result<Seq<char>, tera::Error>| #[trigger]
        may_render(templates, template, entries, outcome) && rendering(outcome) == r;
    match outcome {
        Ok(text) => {},
        Err(error) => {
            assert(may_render(templates, template, entries, Err(error)));
        },
    }
}

/// Every outcome of a rendering is passed on or reported: a text as it is, and an error with the
/// message of what lies behind it, or else with its own.
pub proof fn law_every_outcome_is_passed_on(text: Seq<char>, error: tera::Error)
    ensures
        rendering(Ok(text)) == Ok::<Seq<char>, ErrorView>(text),
        rendering(Err(error)) == Err::<Seq<char>, ErrorView>(
            match error_cause(error) {
                Some(cause) => ErrorView::Render(cause),
                None => ErrorView::Render(error_message(error)),
            },
        ),
{
}

} // verus!
