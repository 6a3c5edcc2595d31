//! The template-engine collaborator for body preprocessing: before markup
//! conversion, a document body is run through the engine with one fixed
//! macro-import statement injected ahead of it. The engine is an opaque
//! renderer; what it returns is taken as the body to convert.
use vstd::prelude::*;
use vstd::string::*;
use crate::page::BuildError;

verus! {

/// The engine type of the outside template library.
#[verifier::external_type_specification]
#[verifier::external_body]
pub struct ExTera(tera::Tera);

/// The error type of the outside template library.
#[verifier::external_type_specification]
#[verifier::external_body]
pub struct ExTeraError(tera::Error);

/// Relies on tera's `Tera::add_raw_template`: compiles the given text and
/// registers it under the name, reporting a parse failure in the result.
#[verifier::external_body]
fn add_template(engine: &mut tera::Tera, name: &str, content: &str) -> Result<(), tera::Error> {
    engine.add_raw_template(name, content)
}

/// Relies on tera's `Tera::render` with an empty variable context: renders
/// the named template, reporting an unknown name or a render failure in
/// the result.
#[verifier::external_body]
fn render_plain(engine: &tera::Tera, name: &str) -> Result<String, tera::Error> {
    engine.render(name, &tera::Context::new())
}

/// The fixed import statement injected ahead of every document body.
pub open spec fn macro_import() -> Seq<char> {
    "{% import \"macros.html\" as macros %}"@
}

/// Prepends the fixed macro-import statement to a body.
pub fn macro_source(body: &str) -> (r: String)
    ensures
        r@ == macro_import() + body@,
{
    let mut s = "{% import \"macros.html\" as macros %}".to_owned();
    s.append(body);
    s
}

/// Runs a raw document body through the template engine, with the fixed
/// macro-import statement injected ahead of it, registered under `name`
/// (callers use the document's source path, which is unique per document).
/// What comes back depends on the macro templates the engine was loaded
/// with; an engine failure is fatal for the build, and surfaces here as
/// [`BuildError::TemplateFailure`].
pub fn expand_macros(engine: &mut tera::Tera, name: &str, raw_body: &str) -> (r: Result<
    String,
    BuildError,
>)
    ensures
        r matches Err(e) ==> e == BuildError::TemplateFailure,
{
    let src = macro_source(raw_body);
    match add_template(engine, name, src.as_str()) {
        Err(_) => Err(BuildError::TemplateFailure),
        Ok(()) => match render_plain(engine, name) {
            Err(_) => Err(BuildError::TemplateFailure),
            Ok(s) => Ok(s),
        },
    }
}

} // verus!
