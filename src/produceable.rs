use vstd::prelude::*;
use crate::category::{self, category_entries, Category};
use crate::command::{self, command_entries, model_name, Command};
use crate::emit::{declaration_of, lemma_output_path_shape, output_path, Output, TemplateError};
use crate::utils::{decimal_of, render_lines, text_of, values_of};

verus! {

/// A record of either kind.
#[allow(non_camel_case_types)]
#[derive(Debug)]
pub enum Produceable {
    COMMAND(Command),
    CATEGORY(Category),
}

/// The declaration text of a record.
pub open spec fn declaration_text(p: Produceable) -> Seq<char> {
    match p {
        Produceable::COMMAND(c) => declaration_of(c.name@, model_name(c.model), render_lines(command_entries(c))),
        Produceable::CATEGORY(c) => declaration_of(c.name@, "category"@, render_lines(category_entries(c))),
    }
}

/// The path of the file that holds a record's declaration.
pub open spec fn declaration_path(p: Produceable) -> Seq<char> {
    match p {
        Produceable::COMMAND(c) => output_path(c.path@, c.name@, ".velen"@),
        Produceable::CATEGORY(c) => output_path(c.path@, c.name@, ".vecomp"@),
    }
}

impl Produceable {
    /// Renders the declaration of the record and the path of its file.
    pub fn produce(&self) -> (r: Result<Output, TemplateError>)
        ensures
            r is Ok,
            r matches Ok(out) ==> out.path@ == declaration_path(*self) && out.text@ == declaration_text(*self),
    {
        match self {
            Produceable::COMMAND(c) => command::produce(c),
            Produceable::CATEGORY(c) => category::produce(c),
        }
    }
}

/// The two records are of the same kind and hold the same values.
pub open spec fn same_fields(a: Produceable, b: Produceable) -> bool {
    match (a, b) {
        (Produceable::COMMAND(x), Produceable::COMMAND(y)) => {
            &&& x.name@ == y.name@
            &&& x.model == y.model
            &&& x.handler@ == y.handler@
            &&& text_of(x.desc) == text_of(y.desc)
            &&& text_of(x.category) == text_of(y.category)
            &&& decimal_of(x.cooldown) == decimal_of(y.cooldown)
            &&& values_of(x.middlewares) == values_of(y.middlewares)
            &&& values_of(x.afterwares) == values_of(y.afterwares)
            &&& values_of(x.shortcuts) == values_of(y.shortcuts)
            &&& values_of(x.usages) == values_of(y.usages)
            &&& x.path@ == y.path@
        },
        (Produceable::CATEGORY(x), Produceable::CATEGORY(y)) => {
            &&& x.name@ == y.name@
            &&& text_of(x.desc) == text_of(y.desc)
            &&& values_of(x.middlewares) == values_of(y.middlewares)
            &&& values_of(x.afterwares) == values_of(y.afterwares)
            &&& x.path@ == y.path@
        },
        _ => false,
    }
}

/// Producing a record twice gives the same file path and the same text, byte
/// for byte: both depend on the record's values alone.
pub proof fn lemma_produce_repeatable(a: Produceable, b: Produceable)
    requires
        same_fields(a, b),
    ensures
        declaration_path(a) == declaration_path(b),
        declaration_text(a) == declaration_text(b),
{
    match (a, b) {
        (Produceable::COMMAND(x), Produceable::COMMAND(y)) => {
            assert(command_entries(x) == command_entries(y));
        },
        (Produceable::CATEGORY(x), Produceable::CATEGORY(y)) => {
            assert(category_entries(x) == category_entries(y));
        },
        _ => {},
    }
}

/// Every output path starts with `./`; a command's ends with `.velen`, a
/// category's with `.vecomp`.
pub proof fn lemma_declaration_path_shape(p: Produceable)
    ensures
        declaration_path(p).subrange(0, 2) == seq!['.', '/'],
        p is COMMAND ==> declaration_path(p).len() >= 6 && declaration_path(p).subrange(
            declaration_path(p).len() - 6,
            declaration_path(p).len() as int,
        ) == ".velen"@,
        p is CATEGORY ==> declaration_path(p).len() >= 7 && declaration_path(p).subrange(
            declaration_path(p).len() - 7,
            declaration_path(p).len() as int,
        ) == ".vecomp"@,
{
    reveal_strlit(".velen");
    reveal_strlit(".vecomp");
    match p {
        Produceable::COMMAND(c) => lemma_output_path_shape(c.path@, c.name@, ".velen"@),
        Produceable::CATEGORY(c) => lemma_output_path_shape(c.path@, c.name@, ".vecomp"@),
    }
}

} // verus!
