use vstd::prelude::*;

verus! {

/// The declaration template: the name, the kind and the attribute lines.
/// `{{&..}}` leaves values unescaped and `{{~` drops the space before the
/// attribute lines, so the text reads `&[<name>]: <type> {<extras>\n}`.
pub const DECLARATION_TEMPLATE: &'static str = "&[{{&name}}]: {{&type}} { {{~&extras}}\n}";

#[verifier::external_type_specification]
#[verifier::external_body]
pub struct ExRenderError(handlebars::RenderError);

/// The declaration text of a record with this name, kind and attribute lines:
/// `&[<name>]: <type> {<extras>\n}`.
pub open spec fn declaration_of(name: Seq<char>, ty: Seq<char>, extras: Seq<char>) -> Seq<char> {
    seq!['&', '['] + name + seq![']', ':', ' '] + ty + seq![' ', '{'] + extras + seq!['\n', '}']
}

/// Relies on handlebars' `Registry::render_template` on a fresh registry (not
/// strict), with a serde_json map that holds all three variables as strings.
/// The declaration template parses; `{{&..}}` writes a string unescaped and
/// `{{~` trims the whitespace that ends the text before it, so rendering
/// succeeds and gives `&[<name>]: <type> {<extras>\n}`.
#[verifier::external_body]
fn render_declaration(template: &str, name: &str, ty: &str, extras: &str) -> (r: Result<String, handlebars::RenderError>)
    requires
        template@ == DECLARATION_TEMPLATE@,
    ensures
        r is Ok,
        r->Ok_0@ == declaration_of(name@, ty@, extras@),
{
    let mut data = serde_json::Map::new();
    data.insert(String::from("name"), serde_json::Value::from(name));
    data.insert(String::from("type"), serde_json::Value::from(ty));
    data.insert(String::from("extras"), serde_json::Value::from(extras));
    handlebars::Handlebars::new().render_template(template, &data)
}

/// Handlebars failed to render the declaration template. `render` never
/// returns it: the template is fixed and renders on every input.
#[derive(Debug, PartialEq, Eq)]
pub struct TemplateError;

/// A rendered declaration and the path of the file that should hold it.
#[derive(Debug)]
pub struct Output {
    pub path: String,
    pub text: String,
}

/// Renders the declaration of a record from its name, kind and attribute lines.
/// The template is fixed, so this always succeeds.
pub fn render(name: &str, ty: &str, extras: &str) -> (r: Result<String, TemplateError>)
    ensures
        r is Ok,
        r->Ok_0@ == declaration_of(name@, ty@, extras@),
{
    match render_declaration(DECLARATION_TEMPLATE, name, ty, extras) {
        Ok(s) => Ok(s),
        Err(_) => Err(TemplateError),
    }
}

/// `p` already starts with `./`.
pub open spec fn is_rooted(p: Seq<char>) -> bool {
    p.len() >= 2 && p[0] == '.' && p[1] == '/'
}

/// `p` already ends with a separator.
pub open spec fn ends_with_separator(p: Seq<char>) -> bool {
    p.len() >= 1 && p.last() == '/'
}

/// `p` with `./` in front, unless it already starts with it.
pub open spec fn rooted_dir(p: Seq<char>) -> Seq<char> {
    if is_rooted(p) { p } else { seq!['.', '/'] + p }
}

/// The length of `s` once its trailing separators are removed.
pub open spec fn trimmed_len(s: Seq<char>) -> nat
    decreases s.len(),
{
    if s.len() > 0 && s.last() == '/' {
        trimmed_len(s.drop_last())
    } else {
        s.len()
    }
}

/// The output directory: `./` in front unless already there, and exactly one
/// trailing separator.
pub open spec fn output_dir(p: Seq<char>) -> Seq<char> {
    let r = rooted_dir(p);
    r.take(trimmed_len(r) as int).push('/')
}

/// The path of the file for `name` under directory `dir`, with extension `ext`
/// (which holds its leading dot).
pub open spec fn output_path(dir: Seq<char>, name: Seq<char>, ext: Seq<char>) -> Seq<char> {
    output_dir(dir) + name + ext
}

proof fn lemma_trimmed_len(s: Seq<char>)
    ensures
        trimmed_len(s) <= s.len(),
        s.len() > 0 && s[0] != '/' ==> trimmed_len(s) >= 1,
        trimmed_len(s) >= 1 ==> s[trimmed_len(s) - 1] != '/',
    decreases s.len(),
{
    if s.len() > 0 && s.last() == '/' {
        lemma_trimmed_len(s.drop_last());
        if s.len() > 1 && s[0] != '/' {
            assert(s.drop_last()[0] == s[0]);
        }
        if trimmed_len(s) >= 1 {
            assert(s.drop_last()[trimmed_len(s) - 1] == s[trimmed_len(s) - 1]);
        }
    }
}

/// Builds the path of the output file: the normalized directory, the name and
/// the extension.
pub fn file_path(dir: &str, name: &str, ext: &str) -> (r: String)
    ensures
        r@ == output_path(dir@, name@, ext@),
{
    let n = dir.unicode_len();
    let rooted = n >= 2 && dir.get_char(0) == '.' && dir.get_char(1) == '/';
    let mut full = String::new();
    if !rooted {
        full.append("./");
        proof {
            reveal_strlit("./");
        }
    }
    full.append(dir);
    assert(full@ =~= rooted_dir(dir@));
    let ghost r = full@;
    let mut k: usize = full.as_str().unicode_len();
    assert(r.take(k as int) =~= r);
    loop
        invariant
            r == full@,
            k <= r.len(),
            trimmed_len(r.take(k as int)) == trimmed_len(r),
        ensures
            k == 0 || r[k - 1] != '/',
        decreases k,
    {
        if k == 0 || full.as_str().get_char(k - 1) != '/' {
            break;
        }
        assert(r.take(k as int).drop_last() =~= r.take(k - 1));
        k = k - 1;
    }
    if k > 0 {
        assert(r.take(k as int).last() == r[k - 1]);
    }
    assert(trimmed_len(r.take(k as int)) == k);
    let mut path = String::from_str(full.as_str().substring_char(0, k));
    path.append("/");
    proof {
        reveal_strlit("/");
    }
    assert(path@ =~= output_dir(dir@));
    path.append(name);
    path.append(ext);
    assert(path@ =~= output_path(dir@, name@, ext@));
    path
}

/// Every output path starts with `./`, its directory part ends with exactly
/// one separator, and the path ends with its extension.
pub proof fn lemma_output_path_shape(dir: Seq<char>, name: Seq<char>, ext: Seq<char>)
    ensures
        output_path(dir, name, ext).subrange(0, 2) == seq!['.', '/'],
        output_dir(dir).len() >= 2,
        output_dir(dir).last() == '/',
        output_dir(dir)[output_dir(dir).len() - 2] != '/',
        output_path(dir, name, ext) == output_dir(dir) + name + ext,
        output_path(dir, name, ext).len() >= ext.len(),
        output_path(dir, name, ext).subrange(
            output_path(dir, name, ext).len() - ext.len(),
            output_path(dir, name, ext).len() as int,
        ) == ext,
{
    let r = rooted_dir(dir);
    let t = trimmed_len(r);
    lemma_trimmed_len(r);
    assert(r.len() >= 2 && r[0] == '.' && r[1] == '/');
    let p = output_path(dir, name, ext);
    let d = output_dir(dir);
    assert(t >= 1);
    assert(d.len() == t + 1);
    assert(d[0] == '.');
    assert(d[1] == '/');
    assert(d[d.len() - 2] == r[t - 1]);
    assert(p.subrange(0, 2) =~= seq!['.', '/']);
    assert(p.subrange(p.len() - ext.len(), p.len() as int) =~= ext);
}

} // verus!
