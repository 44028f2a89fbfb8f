//! Template expansion: `{{ name }}` placeholders in text are replaced by
//! the display form of the variable of that name.

use crate::text::strings_view;
use vstd::prelude::*;

verus! {

/// What the template engine makes of a text, given the names of the
/// variables and, in the same order, their display forms: the expanded
/// text, or nothing where the engine refuses the text.
pub uninterp spec fn template_output(
    source: Seq<char>,
    names: Seq<Seq<char>>,
    texts: Seq<Seq<char>>,
) -> Option<Seq<char>>;

/// Renders `source` with `minijinja::Environment::render_str`. The
/// environment is a fresh one in which an undefined variable is an error and
/// a final newline is kept; the context maps each name to the text at the
/// same index. The outcome is only named: it is a function of the three
/// arguments.
#[verifier::external_body]
pub(crate) fn render(source: &str, names: &Vec<String>, texts: &Vec<String>) -> (r: Result<
    String,
    minijinja::Error,
>)
    ensures
        match r {
            Ok(text) => template_output(source@, strings_view(names@), strings_view(texts@))
                == Some(text@),
            Err(_) => template_output(source@, strings_view(names@), strings_view(texts@))
                is None,
        },
{
    let mut env = minijinja::Environment::new();
    env.set_undefined_behavior(minijinja::UndefinedBehavior::Strict);
    env.set_syntax(minijinja::syntax::SyntaxConfig::builder().keep_trailing_newline(true).build()?);
    let pairs = names.iter().cloned().zip(texts.iter().cloned());
    env.render_str(source, minijinja::Value::from_pairs(pairs))
}

/// Whether a placeholder opens at `i`: two opening braces in a row.
pub open spec fn opens_at(source: Seq<char>, i: int) -> bool {
    0 <= i && i + 1 < source.len() && source[i] == '{' && source[i + 1] == '{'
}

/// Whether a text holds the opening of a placeholder anywhere.
pub open spec fn has_placeholder(source: Seq<char>) -> bool {
    exists|i: int| opens_at(source, i)
}

/// Looks for the opening of a placeholder.
pub fn find_placeholder(source: &str) -> (r: bool)
    ensures
        r == has_placeholder(source@),
{
    broadcast use vstd::string::group_string_axioms;

    let mut previous: bool = false;
    let mut found: bool = false;
    for c in it: source.chars()
        invariant
            it.seq() == source@,
            found == exists|i: int| i + 1 < it.index() && opens_at(source@, i),
            previous == (it.index() > 0 && source@[it.index() - 1] == '{'),
    {
        let ghost before = it.index();
        if previous && c == '{' {
            assert(opens_at(source@, before - 1));
            found = true;
        }
        assert(forall|i: int|
            (i + 1 < before + 1 && opens_at(source@, i)) ==> (i + 1 < before && opens_at(
                source@,
                i,
            )) || i == before - 1);
        previous = c == '{';
    }
    assert(forall|i: int| opens_at(source@, i) ==> i + 1 < source@.len());
    found
}

/// The expansion of a text against the names and display forms of the
/// variables: a text without a placeholder is itself, any other is what the
/// template engine makes of it.
pub open spec fn expansion(
    source: Seq<char>,
    names: Seq<Seq<char>>,
    texts: Seq<Seq<char>>,
) -> Option<Seq<char>> {
    if has_placeholder(source) {
        template_output(source, names, texts)
    } else {
        Some(source)
    }
}

/// Expands the placeholders of `source`. A text without a placeholder
/// comes back unchanged, whatever the variables are.
pub fn expand(source: &str, names: &Vec<String>, texts: &Vec<String>) -> (r: Result<
    String,
    minijinja::Error,
>)
    ensures
        match r {
            Ok(text) => expansion(source@, strings_view(names@), strings_view(texts@)) == Some(
                text@,
            ),
            Err(_) => expansion(source@, strings_view(names@), strings_view(texts@)) is None,
        },
        !has_placeholder(source@) ==> (r matches Ok(text) && text@ == source@),
{
    if find_placeholder(source) {
        render(source, names, texts)
    } else {
        Ok(source.to_owned())
    }
}

} // verus!
