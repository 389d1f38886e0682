use vstd::prelude::*;
use crate::emit::{declaration_of, file_path, output_path, render, Output, TemplateError};
use crate::utils::{
    from_option_to_string, from_vec_to_string, lemma_ranked_append, lemma_render_lines_add,
    lemma_values_for_add, lemma_values_for_repeated, lemma_values_for_scalar, opt_values, ranked,
    render_lines, repeated_entries, lemma_plain_entries_add, lemma_plain_fields,
    lemma_segments_render_lines, no_newline, segments, text_line, scalar_entries, text_of, values_for, values_of,
};

verus! {

/// A category to scaffold.
#[derive(Debug)]
pub struct Category {
    pub name: String,
    pub desc: Option<String>,
    pub middlewares: Option<Vec<String>>,
    pub afterwares: Option<Vec<String>>,
    pub path: String,
}

/// The attribute entries of a category, in their fixed order.
pub open spec fn category_entries(c: Category) -> Seq<(Seq<char>, Seq<char>)> {
    scalar_entries("desc"@, text_of(c.desc))
        + repeated_entries("middleware"@, values_of(c.middlewares))
        + repeated_entries("afterware"@, values_of(c.afterwares))
}

/// Serializes the attribute lines of a category.
pub fn produce_extras(category: &Category) -> (r: String)
    ensures
        r@ == render_lines(category_entries(*category)),
{
    let ghost c = *category;
    let ghost e0 = scalar_entries("desc"@, text_of(c.desc));
    let ghost e1 = repeated_entries("middleware"@, values_of(c.middlewares));
    let ghost e2 = repeated_entries("afterware"@, values_of(c.afterwares));

    let mut val = String::new();
    val.append(from_option_to_string(&category.desc, "desc").as_str());
    proof {
        lemma_render_lines_add(Seq::empty(), e0);
        assert(Seq::<(Seq<char>, Seq<char>)>::empty() + e0 =~= e0);
        assert(val@ =~= render_lines(e0));
    }
    val.append(from_vec_to_string(&category.middlewares, "middleware").as_str());
    proof { lemma_render_lines_add(e0, e1); }
    val.append(from_vec_to_string(&category.afterwares, "afterware").as_str());
    proof { lemma_render_lines_add(e0 + e1, e2); }
    val
}

/// Renders the declaration of a category and the path of its `.vecomp` file.
pub fn produce(category: &Category) -> (r: Result<Output, TemplateError>)
    ensures
        r is Ok,
        r matches Ok(out) ==> {
            &&& out.path@ == output_path(category.path@, category.name@, ".vecomp"@)
            &&& out.text@ == declaration_of(
                category.name@,
                "category"@,
                render_lines(category_entries(*category)),
            )
        },
{
    let extras = produce_extras(category);
    let text = render(category.name.as_str(), "category", extras.as_str());
    match text {
        Ok(text) => {
            let path = file_path(category.path.as_str(), category.name.as_str(), ".vecomp");
            Ok(Output { path, text })
        },
        Err(e) => Err(e),
    }
}

/// The position of a key in the fixed field order of a category.
pub open spec fn category_field_rank(key: Seq<char>) -> int {
    if key == "desc"@ {
        0
    } else if key == "middleware"@ {
        1
    } else if key == "afterware"@ {
        2
    } else {
        3
    }
}

proof fn lemma_category_key_ranks()
    ensures
        category_field_rank("desc"@) == 0,
        category_field_rank("middleware"@) == 1,
        category_field_rank("afterware"@) == 2,
{
    reveal_strlit("desc");
    reveal_strlit("middleware");
    reveal_strlit("afterware");
    assert("middleware"@.len() != "desc"@.len());
    assert("afterware"@.len() != "desc"@.len());
    assert("afterware"@.len() != "middleware"@.len());
}

/// What each field of a category contributes to its attribute lines: no line
/// under `desc` when the description is absent, exactly one when present; one
/// line per middleware and per afterware, in the given order, and none when
/// absent or empty.
pub proof fn lemma_category_lines(c: Category)
    ensures
        values_for(category_entries(c), "desc"@) == opt_values(text_of(c.desc)),
        values_for(category_entries(c), "middleware"@) == values_of(c.middlewares),
        values_for(category_entries(c), "afterware"@) == values_of(c.afterwares),
{
    lemma_category_key_ranks();
    let e0 = scalar_entries("desc"@, text_of(c.desc));
    let e1 = repeated_entries("middleware"@, values_of(c.middlewares));
    let e2 = repeated_entries("afterware"@, values_of(c.afterwares));
    let keys = seq!["desc"@, "middleware"@, "afterware"@];
    assert forall|i: int| 0 <= i < 3 implies values_for(category_entries(c), #[trigger] keys[i])
        == (if "desc"@ == keys[i] { opt_values(text_of(c.desc)) } else { Seq::empty() })
        + (if "middleware"@ == keys[i] { values_of(c.middlewares) } else { Seq::empty() })
        + (if "afterware"@ == keys[i] { values_of(c.afterwares) } else { Seq::empty() }) by {
        let key = keys[i];
        lemma_values_for_add(e0, e1, key);
        lemma_values_for_add(e0 + e1, e2, key);
        lemma_values_for_scalar("desc"@, text_of(c.desc), key);
        lemma_values_for_repeated("middleware"@, values_of(c.middlewares), key);
        lemma_values_for_repeated("afterware"@, values_of(c.afterwares), key);
    }
    assert(keys[0] == "desc"@ && keys[1] == "middleware"@ && keys[2] == "afterware"@);
    assert(values_for(category_entries(c), "desc"@) =~= opt_values(text_of(c.desc)));
    assert(values_for(category_entries(c), "middleware"@) =~= values_of(c.middlewares));
    assert(values_for(category_entries(c), "afterware"@) =~= values_of(c.afterwares));
}

/// The attribute lines of a category follow the fixed field order: desc,
/// middleware, afterware.
pub proof fn lemma_category_field_order(c: Category)
    ensures
        ranked(category_entries(c), |k: Seq<char>| category_field_rank(k)),
{
    lemma_category_key_ranks();
    let rank = |k: Seq<char>| category_field_rank(k);
    let e0 = scalar_entries("desc"@, text_of(c.desc));
    let e1 = repeated_entries("middleware"@, values_of(c.middlewares));
    let e2 = repeated_entries("afterware"@, values_of(c.afterwares));
    let empty = Seq::<(Seq<char>, Seq<char>)>::empty();
    assert(empty + e0 =~= e0);
    lemma_ranked_append(empty, e0, rank, 0);
    lemma_ranked_append(e0, e1, rank, 1);
    lemma_ranked_append(e0 + e1, e2, rank, 2);
}

/// No value of the category holds a newline.
pub open spec fn category_plain(c: Category) -> bool {
    &&& (text_of(c.desc) matches Some(v) ==> no_newline(v))
    &&& forall|j: int| 0 <= j < values_of(c.middlewares).len() ==> no_newline(#[trigger] values_of(c.middlewares)[j])
    &&& forall|j: int| 0 <= j < values_of(c.afterwares).len() ==> no_newline(#[trigger] values_of(c.afterwares)[j])
}

/// Where no value of a category holds a newline, the lines of its attribute
/// text (the pieces after each newline) are its entries, one
/// `    <key>: <value>` line each, in order; so the lines under each key are
/// those of `lemma_category_lines`, in the order of
/// `lemma_category_field_order`.
pub proof fn lemma_category_text_lines(c: Category)
    requires
        category_plain(c),
    ensures
        segments(render_lines(category_entries(c)))
            == category_entries(c).map_values(|e: (Seq<char>, Seq<char>)| text_line(e.0, e.1)),
{
    reveal_strlit("desc");
    reveal_strlit("middleware");
    reveal_strlit("afterware");
    let none = Seq::<Seq<char>>::empty();
    lemma_plain_fields("desc"@, text_of(c.desc), none);
    lemma_plain_fields("middleware"@, None, values_of(c.middlewares));
    lemma_plain_fields("afterware"@, None, values_of(c.afterwares));
    let e0 = scalar_entries("desc"@, text_of(c.desc));
    let e1 = repeated_entries("middleware"@, values_of(c.middlewares));
    let e2 = repeated_entries("afterware"@, values_of(c.afterwares));
    lemma_plain_entries_add(e0, e1);
    lemma_plain_entries_add(e0 + e1, e2);
    lemma_segments_render_lines(category_entries(c));
}

} // verus!
