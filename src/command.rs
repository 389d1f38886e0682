use vstd::prelude::*;
use crate::emit::{declaration_of, file_path, output_path, render, Output, TemplateError};
use crate::utils::{
    decimal_of, from_opt_i32_to_string, from_option_to_string, from_vec_to_string,
    lemma_ranked_append, lemma_render_lines_add, lemma_render_scalar, lemma_values_for_add,
    lemma_values_for_repeated, lemma_values_for_scalar, line, lemma_decimal_no_newline,
    lemma_plain_entries_add, lemma_plain_fields, lemma_segments_render_lines, no_newline, segments,
    text_line, opt_values, ranked, render_lines,
    repeated_entries, scalar_entries, scalar_line, text_of, values_for, values_of,
};

verus! {

/// How a command is invoked.
#[allow(non_camel_case_types)]
#[derive(Clone, Copy, Debug, PartialEq, Eq, Structural)]
pub enum Type {
    SLASH,
    HYBRID,
    MESSAGE,
}

/// A model token that names none of the command types.
#[derive(Debug, PartialEq, Eq)]
pub struct InvalidEnumValue;

/// A command to scaffold.
#[derive(Debug)]
pub struct Command {
    pub name: String,
    pub model: Type,
    pub handler: String,
    pub desc: Option<String>,
    pub category: Option<String>,
    pub cooldown: Option<i32>,
    pub middlewares: Option<Vec<String>>,
    pub afterwares: Option<Vec<String>>,
    pub shortcuts: Option<Vec<String>>,
    pub usages: Option<Vec<String>>,
    pub path: String,
}

/// The lower-case name of a command type, as it stands in a declaration.
pub open spec fn model_name(t: Type) -> Seq<char> {
    match t {
        Type::SLASH => "slash"@,
        Type::HYBRID => "hybrid"@,
        Type::MESSAGE => "message"@,
    }
}

/// The code point of `c` with ASCII upper-case letters lowered.
pub open spec fn ascii_lower(c: char) -> u32 {
    if 65 <= c as u32 <= 90 {
        (c as u32 + 32) as u32
    } else {
        c as u32
    }
}

/// `a` and `b` are equal up to ASCII case.
pub open spec fn eq_ascii_case_insensitive(a: Seq<char>, b: Seq<char>) -> bool {
    a.len() == b.len() && forall|i: int| 0 <= i < a.len() ==> ascii_lower(a[i]) == ascii_lower(b[i])
}

/// The command type that a token names, up to ASCII case.
pub open spec fn type_of_token(t: Seq<char>) -> Option<Type> {
    if eq_ascii_case_insensitive(t, "slash"@) {
        Some(Type::SLASH)
    } else if eq_ascii_case_insensitive(t, "hybrid"@) {
        Some(Type::HYBRID)
    } else if eq_ascii_case_insensitive(t, "message"@) {
        Some(Type::MESSAGE)
    } else {
        None
    }
}

fn lower_code(c: char) -> (r: u32)
    ensures
        r == ascii_lower(c),
{
    let u = c as u32;
    if 65 <= u && u <= 90 {
        u + 32
    } else {
        u
    }
}

fn eq_ignore_case(a: &str, b: &str) -> (r: bool)
    ensures
        r == eq_ascii_case_insensitive(a@, b@),
{
    let n = a.unicode_len();
    if n != b.unicode_len() {
        return false;
    }
    let mut i: usize = 0;
    while i < n
        invariant
            n == a@.len(),
            n == b@.len(),
            i <= n,
            forall|j: int| 0 <= j < i ==> ascii_lower(a@[j]) == ascii_lower(b@[j]),
        decreases n - i,
    {
        if lower_code(a.get_char(i)) != lower_code(b.get_char(i)) {
            return false;
        }
        i = i + 1;
    }
    true
}

impl Type {
    /// Parses a model token, up to ASCII case: `slash`, `hybrid` or `message`.
    pub fn from_token(token: &str) -> (r: Result<Type, InvalidEnumValue>)
        ensures
            r matches Ok(t) ==> type_of_token(token@) == Some(t),
            r is Err <==> type_of_token(token@) is None,
    {
        if eq_ignore_case(token, "slash") {
            Ok(Type::SLASH)
        } else if eq_ignore_case(token, "hybrid") {
            Ok(Type::HYBRID)
        } else if eq_ignore_case(token, "message") {
            Ok(Type::MESSAGE)
        } else {
            Err(InvalidEnumValue)
        }
    }
}

/// The lower-case name of a command type.
pub fn type_to_string(o: &Type) -> (r: String)
    ensures
        r@ == model_name(*o),
{
    match o {
        Type::MESSAGE => String::from_str("message"),
        Type::HYBRID => String::from_str("hybrid"),
        Type::SLASH => String::from_str("slash"),
    }
}

/// The attribute entries of a command, in their fixed order, with the handler
/// always last.
pub open spec fn command_entries(c: Command) -> Seq<(Seq<char>, Seq<char>)> {
    scalar_entries("category"@, text_of(c.category))
        + scalar_entries("desc"@, text_of(c.desc))
        + scalar_entries("cooldown"@, decimal_of(c.cooldown))
        + repeated_entries("middleware"@, values_of(c.middlewares))
        + repeated_entries("afterware"@, values_of(c.afterwares))
        + repeated_entries("usage"@, values_of(c.usages))
        + repeated_entries("shortcut"@, values_of(c.shortcuts))
        + seq![("handler"@, c.handler@)]
}

/// Serializes the attribute lines of a command.
pub fn produce_extras(command: &Command) -> (r: String)
    ensures
        r@ == render_lines(command_entries(*command)),
{
    let ghost c = *command;
    let ghost e0 = scalar_entries("category"@, text_of(c.category));
    let ghost e1 = scalar_entries("desc"@, text_of(c.desc));
    let ghost e2 = scalar_entries("cooldown"@, decimal_of(c.cooldown));
    let ghost e3 = repeated_entries("middleware"@, values_of(c.middlewares));
    let ghost e4 = repeated_entries("afterware"@, values_of(c.afterwares));
    let ghost e5 = repeated_entries("usage"@, values_of(c.usages));
    let ghost e6 = repeated_entries("shortcut"@, values_of(c.shortcuts));
    let ghost e7 = seq![("handler"@, c.handler@)];

    let mut val = String::new();
    val.append(from_option_to_string(&command.category, "category").as_str());
    proof {
        lemma_render_lines_add(Seq::empty(), e0);
        assert(Seq::<(Seq<char>, Seq<char>)>::empty() + e0 =~= e0);
        assert(val@ =~= render_lines(e0));
    }
    val.append(from_option_to_string(&command.desc, "desc").as_str());
    proof { lemma_render_lines_add(e0, e1); }
    val.append(from_opt_i32_to_string(&command.cooldown, "cooldown").as_str());
    proof { lemma_render_lines_add(e0 + e1, e2); }
    val.append(from_vec_to_string(&command.middlewares, "middleware").as_str());
    proof { lemma_render_lines_add(e0 + e1 + e2, e3); }
    val.append(from_vec_to_string(&command.afterwares, "afterware").as_str());
    proof { lemma_render_lines_add(e0 + e1 + e2 + e3, e4); }
    val.append(from_vec_to_string(&command.usages, "usage").as_str());
    proof { lemma_render_lines_add(e0 + e1 + e2 + e3 + e4, e5); }
    val.append(from_vec_to_string(&command.shortcuts, "shortcut").as_str());
    proof { lemma_render_lines_add(e0 + e1 + e2 + e3 + e4 + e5, e6); }

    // The handler is not an optional field: its line always comes, and last.
    val.append(scalar_line("handler", command.handler.as_str()).as_str());
    proof {
        lemma_render_lines_add(e0 + e1 + e2 + e3 + e4 + e5 + e6, e7);
        lemma_render_scalar("handler"@, Some(c.handler@));
        assert(scalar_entries("handler"@, Some(c.handler@)) == e7);
    }
    val
}

/// Renders the declaration of a command and the path of its `.velen` file.
pub fn produce(command: &Command) -> (r: Result<Output, TemplateError>)
    ensures
        r is Ok,
        r matches Ok(out) ==> {
            &&& out.path@ == output_path(command.path@, command.name@, ".velen"@)
            &&& out.text@ == declaration_of(
                command.name@,
                model_name(command.model),
                render_lines(command_entries(*command)),
            )
        },
{
    let extras = produce_extras(command);
    let ty = type_to_string(&command.model);
    let text = render(command.name.as_str(), ty.as_str(), extras.as_str());
    match text {
        Ok(text) => {
            let path = file_path(command.path.as_str(), command.name.as_str(), ".velen");
            Ok(Output { path, text })
        },
        Err(e) => Err(e),
    }
}


/// The position of a key in the fixed field order of a command.
pub open spec fn command_field_rank(key: Seq<char>) -> int {
    if key == "category"@ {
        0
    } else if key == "desc"@ {
        1
    } else if key == "cooldown"@ {
        2
    } else if key == "middleware"@ {
        3
    } else if key == "afterware"@ {
        4
    } else if key == "usage"@ {
        5
    } else if key == "shortcut"@ {
        6
    } else if key == "handler"@ {
        7
    } else {
        8
    }
}

proof fn reveal_command_keys()
    ensures
        "category"@ == seq!['c', 'a', 't', 'e', 'g', 'o', 'r', 'y'],
        "desc"@ == seq!['d', 'e', 's', 'c'],
        "cooldown"@ == seq!['c', 'o', 'o', 'l', 'd', 'o', 'w', 'n'],
        "middleware"@ == seq!['m', 'i', 'd', 'd', 'l', 'e', 'w', 'a', 'r', 'e'],
        "afterware"@ == seq!['a', 'f', 't', 'e', 'r', 'w', 'a', 'r', 'e'],
        "usage"@ == seq!['u', 's', 'a', 'g', 'e'],
        "shortcut"@ == seq!['s', 'h', 'o', 'r', 't', 'c', 'u', 't'],
        "handler"@ == seq!['h', 'a', 'n', 'd', 'l', 'e', 'r'],
{
    reveal_strlit("category");
    reveal_strlit("desc");
    reveal_strlit("cooldown");
    reveal_strlit("middleware");
    reveal_strlit("afterware");
    reveal_strlit("usage");
    reveal_strlit("shortcut");
    reveal_strlit("handler");
    assert("category"@ =~= seq!['c', 'a', 't', 'e', 'g', 'o', 'r', 'y']);
    assert("desc"@ =~= seq!['d', 'e', 's', 'c']);
    assert("cooldown"@ =~= seq!['c', 'o', 'o', 'l', 'd', 'o', 'w', 'n']);
    assert("middleware"@ =~= seq!['m', 'i', 'd', 'd', 'l', 'e', 'w', 'a', 'r', 'e']);
    assert("afterware"@ =~= seq!['a', 'f', 't', 'e', 'r', 'w', 'a', 'r', 'e']);
    assert("usage"@ =~= seq!['u', 's', 'a', 'g', 'e']);
    assert("shortcut"@ =~= seq!['s', 'h', 'o', 'r', 't', 'c', 'u', 't']);
    assert("handler"@ =~= seq!['h', 'a', 'n', 'd', 'l', 'e', 'r']);
}

proof fn lemma_command_key_ranks()
    ensures
        command_field_rank("category"@) == 0,
        command_field_rank("desc"@) == 1,
        command_field_rank("cooldown"@) == 2,
        command_field_rank("middleware"@) == 3,
        command_field_rank("afterware"@) == 4,
        command_field_rank("usage"@) == 5,
        command_field_rank("shortcut"@) == 6,
        command_field_rank("handler"@) == 7,
{
    reveal_command_keys();
    assert("desc"@[0] != "category"@[0]);
    assert("cooldown"@[1] != "category"@[1]);
    assert("middleware"@.len() != "category"@.len());
    assert("afterware"@.len() != "category"@.len());
    assert("usage"@.len() != "category"@.len());
    assert("shortcut"@[0] != "category"@[0]);
    assert("shortcut"@[0] != "cooldown"@[0]);
    assert("handler"@.len() != "category"@.len());
    assert("cooldown"@.len() != "desc"@.len());
    assert("middleware"@.len() != "desc"@.len());
    assert("afterware"@.len() != "desc"@.len());
    assert("usage"@.len() != "desc"@.len());
    assert("shortcut"@.len() != "desc"@.len());
    assert("handler"@.len() != "desc"@.len());
    assert("middleware"@.len() != "cooldown"@.len());
    assert("afterware"@.len() != "cooldown"@.len());
    assert("usage"@.len() != "cooldown"@.len());
    assert("handler"@.len() != "cooldown"@.len());
    assert("afterware"@.len() != "middleware"@.len());
    assert("usage"@.len() != "middleware"@.len());
    assert("shortcut"@.len() != "middleware"@.len());
    assert("handler"@.len() != "middleware"@.len());
    assert("usage"@.len() != "afterware"@.len());
    assert("shortcut"@.len() != "afterware"@.len());
    assert("handler"@.len() != "afterware"@.len());
    assert("shortcut"@.len() != "usage"@.len());
    assert("handler"@.len() != "usage"@.len());
    assert("handler"@.len() != "shortcut"@.len());
}

proof fn lemma_command_values_for(c: Command, key: Seq<char>)
    ensures
        values_for(command_entries(c), key)
            == (if "category"@ == key { opt_values(text_of(c.category)) } else { Seq::empty() })
            + (if "desc"@ == key { opt_values(text_of(c.desc)) } else { Seq::empty() })
            + (if "cooldown"@ == key { opt_values(decimal_of(c.cooldown)) } else { Seq::empty() })
            + (if "middleware"@ == key { values_of(c.middlewares) } else { Seq::empty() })
            + (if "afterware"@ == key { values_of(c.afterwares) } else { Seq::empty() })
            + (if "usage"@ == key { values_of(c.usages) } else { Seq::empty() })
            + (if "shortcut"@ == key { values_of(c.shortcuts) } else { Seq::empty() })
            + (if "handler"@ == key { seq![c.handler@] } else { Seq::empty() }),
{
    let e0 = scalar_entries("category"@, text_of(c.category));
    let e1 = scalar_entries("desc"@, text_of(c.desc));
    let e2 = scalar_entries("cooldown"@, decimal_of(c.cooldown));
    let e3 = repeated_entries("middleware"@, values_of(c.middlewares));
    let e4 = repeated_entries("afterware"@, values_of(c.afterwares));
    let e5 = repeated_entries("usage"@, values_of(c.usages));
    let e6 = repeated_entries("shortcut"@, values_of(c.shortcuts));
    let e7 = scalar_entries("handler"@, Some(c.handler@));
    assert(e7 == seq![("handler"@, c.handler@)]);
    lemma_values_for_add(e0, e1, key);
    lemma_values_for_add(e0 + e1, e2, key);
    lemma_values_for_add(e0 + e1 + e2, e3, key);
    lemma_values_for_add(e0 + e1 + e2 + e3, e4, key);
    lemma_values_for_add(e0 + e1 + e2 + e3 + e4, e5, key);
    lemma_values_for_add(e0 + e1 + e2 + e3 + e4 + e5, e6, key);
    lemma_values_for_add(e0 + e1 + e2 + e3 + e4 + e5 + e6, e7, key);
    lemma_values_for_scalar("category"@, text_of(c.category), key);
    lemma_values_for_scalar("desc"@, text_of(c.desc), key);
    lemma_values_for_scalar("cooldown"@, decimal_of(c.cooldown), key);
    lemma_values_for_repeated("middleware"@, values_of(c.middlewares), key);
    lemma_values_for_repeated("afterware"@, values_of(c.afterwares), key);
    lemma_values_for_repeated("usage"@, values_of(c.usages), key);
    lemma_values_for_repeated("shortcut"@, values_of(c.shortcuts), key);
    lemma_values_for_scalar("handler"@, Some(c.handler@), key);
}

/// What each field of a command contributes to its attribute lines: an absent
/// scalar field no line under its key, a present one exactly one; a repeated
/// field one line per value under its key, in the given order, and none when
/// absent or empty; the handler exactly one line, which is the last.
pub proof fn lemma_command_lines(c: Command)
    ensures
        values_for(command_entries(c), "category"@) == opt_values(text_of(c.category)),
        values_for(command_entries(c), "desc"@) == opt_values(text_of(c.desc)),
        values_for(command_entries(c), "cooldown"@) == opt_values(decimal_of(c.cooldown)),
        values_for(command_entries(c), "middleware"@) == values_of(c.middlewares),
        values_for(command_entries(c), "afterware"@) == values_of(c.afterwares),
        values_for(command_entries(c), "usage"@) == values_of(c.usages),
        values_for(command_entries(c), "shortcut"@) == values_of(c.shortcuts),
        values_for(command_entries(c), "handler"@) == seq![c.handler@],
        command_entries(c).last() == ("handler"@, c.handler@),
        render_lines(command_entries(c))
            == render_lines(command_entries(c).drop_last()) + line("handler"@, c.handler@),
{
    lemma_command_key_ranks();
    lemma_command_values_for(c, "category"@);
    assert(values_for(command_entries(c), "category"@) =~= opt_values(text_of(c.category)));
    lemma_command_values_for(c, "desc"@);
    assert(values_for(command_entries(c), "desc"@) =~= opt_values(text_of(c.desc)));
    lemma_command_values_for(c, "cooldown"@);
    assert(values_for(command_entries(c), "cooldown"@) =~= opt_values(decimal_of(c.cooldown)));
    lemma_command_values_for(c, "middleware"@);
    assert(values_for(command_entries(c), "middleware"@) =~= values_of(c.middlewares));
    lemma_command_values_for(c, "afterware"@);
    assert(values_for(command_entries(c), "afterware"@) =~= values_of(c.afterwares));
    lemma_command_values_for(c, "usage"@);
    assert(values_for(command_entries(c), "usage"@) =~= values_of(c.usages));
    lemma_command_values_for(c, "shortcut"@);
    assert(values_for(command_entries(c), "shortcut"@) =~= values_of(c.shortcuts));
    lemma_command_values_for(c, "handler"@);
    assert(values_for(command_entries(c), "handler"@) =~= seq![c.handler@]);
}

/// The attribute lines of a command follow the fixed field order: category,
/// desc, cooldown, middleware, afterware, usage, shortcut, handler.
pub proof fn lemma_command_field_order(c: Command)
    ensures
        ranked(command_entries(c), |k: Seq<char>| command_field_rank(k)),
{
    lemma_command_key_ranks();
    let rank = |k: Seq<char>| command_field_rank(k);
    let e0 = scalar_entries("category"@, text_of(c.category));
    let e1 = scalar_entries("desc"@, text_of(c.desc));
    let e2 = scalar_entries("cooldown"@, decimal_of(c.cooldown));
    let e3 = repeated_entries("middleware"@, values_of(c.middlewares));
    let e4 = repeated_entries("afterware"@, values_of(c.afterwares));
    let e5 = repeated_entries("usage"@, values_of(c.usages));
    let e6 = repeated_entries("shortcut"@, values_of(c.shortcuts));
    let e7 = seq![("handler"@, c.handler@)];
    let empty = Seq::<(Seq<char>, Seq<char>)>::empty();
    assert(empty + e0 =~= e0);
    lemma_ranked_append(empty, e0, rank, 0);
    lemma_ranked_append(e0, e1, rank, 1);
    lemma_ranked_append(e0 + e1, e2, rank, 2);
    lemma_ranked_append(e0 + e1 + e2, e3, rank, 3);
    lemma_ranked_append(e0 + e1 + e2 + e3, e4, rank, 4);
    lemma_ranked_append(e0 + e1 + e2 + e3 + e4, e5, rank, 5);
    lemma_ranked_append(e0 + e1 + e2 + e3 + e4 + e5, e6, rank, 6);
    lemma_ranked_append(e0 + e1 + e2 + e3 + e4 + e5 + e6, e7, rank, 7);
}

/// No value of the command holds a newline.
pub open spec fn command_plain(c: Command) -> bool {
    &&& no_newline(c.handler@)
    &&& (text_of(c.category) matches Some(v) ==> no_newline(v))
    &&& (text_of(c.desc) matches Some(v) ==> no_newline(v))
    &&& forall|j: int| 0 <= j < values_of(c.middlewares).len() ==> no_newline(#[trigger] values_of(c.middlewares)[j])
    &&& forall|j: int| 0 <= j < values_of(c.afterwares).len() ==> no_newline(#[trigger] values_of(c.afterwares)[j])
    &&& forall|j: int| 0 <= j < values_of(c.usages).len() ==> no_newline(#[trigger] values_of(c.usages)[j])
    &&& forall|j: int| 0 <= j < values_of(c.shortcuts).len() ==> no_newline(#[trigger] values_of(c.shortcuts)[j])
}

proof fn lemma_command_keys_plain()
    ensures
        no_newline("category"@),
        no_newline("desc"@),
        no_newline("cooldown"@),
        no_newline("middleware"@),
        no_newline("afterware"@),
        no_newline("usage"@),
        no_newline("shortcut"@),
        no_newline("handler"@),
{
    reveal_command_keys();
}

/// Where no value of a command holds a newline, the lines of its attribute
/// text (the pieces after each newline) are its entries, one
/// `    <key>: <value>` line each, in order; so the lines under each key are
/// those of `lemma_command_lines`, in the order of
/// `lemma_command_field_order`, and the last line is the handler's.
pub proof fn lemma_command_text_lines(c: Command)
    requires
        command_plain(c),
    ensures
        segments(render_lines(command_entries(c)))
            == command_entries(c).map_values(|e: (Seq<char>, Seq<char>)| text_line(e.0, e.1)),
        segments(render_lines(command_entries(c))).last() == text_line("handler"@, c.handler@),
{
    lemma_command_keys_plain();
    lemma_decimal_no_newline(if c.cooldown is Some { c.cooldown->Some_0 as int } else { 0 });
    let none = Seq::<Seq<char>>::empty();
    lemma_plain_fields("category"@, text_of(c.category), none);
    lemma_plain_fields("desc"@, text_of(c.desc), none);
    lemma_plain_fields("cooldown"@, decimal_of(c.cooldown), none);
    lemma_plain_fields("middleware"@, None, values_of(c.middlewares));
    lemma_plain_fields("afterware"@, None, values_of(c.afterwares));
    lemma_plain_fields("usage"@, None, values_of(c.usages));
    lemma_plain_fields("shortcut"@, None, values_of(c.shortcuts));
    lemma_plain_fields("handler"@, Some(c.handler@), none);
    let e0 = scalar_entries("category"@, text_of(c.category));
    let e1 = scalar_entries("desc"@, text_of(c.desc));
    let e2 = scalar_entries("cooldown"@, decimal_of(c.cooldown));
    let e3 = repeated_entries("middleware"@, values_of(c.middlewares));
    let e4 = repeated_entries("afterware"@, values_of(c.afterwares));
    let e5 = repeated_entries("usage"@, values_of(c.usages));
    let e6 = repeated_entries("shortcut"@, values_of(c.shortcuts));
    let e7 = scalar_entries("handler"@, Some(c.handler@));
    assert(e7 == seq![("handler"@, c.handler@)]);
    lemma_plain_entries_add(e0, e1);
    lemma_plain_entries_add(e0 + e1, e2);
    lemma_plain_entries_add(e0 + e1 + e2, e3);
    lemma_plain_entries_add(e0 + e1 + e2 + e3, e4);
    lemma_plain_entries_add(e0 + e1 + e2 + e3 + e4, e5);
    lemma_plain_entries_add(e0 + e1 + e2 + e3 + e4 + e5, e6);
    lemma_plain_entries_add(e0 + e1 + e2 + e3 + e4 + e5 + e6, e7);
    lemma_segments_render_lines(command_entries(c));
    lemma_command_lines(c);
}

} // verus!
