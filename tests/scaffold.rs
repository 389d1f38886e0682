use cli_core::category::{self, Category};
use cli_core::command::{self, type_to_string, Command, InvalidEnumValue, Type};
use cli_core::emit::{file_path, render};
use cli_core::make::Make;
use cli_core::produceable::Produceable;
use cli_core::utils::{from_opt_i32_to_string, from_option_to_string, from_vec_to_string};

fn strings(v: &[&str]) -> Vec<String> {
    v.iter().map(|s| s.to_string()).collect()
}

fn bare_command(name: &str, model: Type, handler: &str) -> Command {
    Command {
        name: name.to_string(),
        model,
        handler: handler.to_string(),
        desc: None,
        category: None,
        cooldown: None,
        middlewares: None,
        afterwares: None,
        shortcuts: None,
        usages: None,
        path: "commands".to_string(),
    }
}

#[test]
fn category_example_file() {
    let c = Category {
        name: "Fun".to_string(),
        desc: Some("Fun stuff".to_string()),
        middlewares: Some(strings(&["auth"])),
        afterwares: None,
        path: "categories".to_string(),
    };
    let out = category::produce(&c).unwrap();
    assert_eq!(out.path, "./categories/Fun.vecomp");
    assert_eq!(out.text, "&[Fun]: category {\n    desc: Fun stuff\n    middleware: auth\n}");
}

#[test]
fn command_example_file() {
    let model = Type::from_token("SLASH").unwrap();
    let c = bare_command("ping", model, "PingHandler");
    let out = command::produce(&c).unwrap();
    assert_eq!(out.path, "./commands/ping.velen");
    assert_eq!(out.text, "&[ping]: slash {\n    handler: PingHandler\n}");
}

#[test]
fn model_tokens_ignore_case() {
    assert_eq!(Type::from_token("Slash"), Ok(Type::SLASH));
    assert_eq!(Type::from_token("SLASH"), Ok(Type::SLASH));
    assert_eq!(Type::from_token("slash"), Ok(Type::SLASH));
    assert_eq!(Type::from_token("hYbRiD"), Ok(Type::HYBRID));
    assert_eq!(Type::from_token("Message"), Ok(Type::MESSAGE));
}

#[test]
fn model_token_rejected() {
    assert_eq!(Type::from_token("button"), Err(InvalidEnumValue));
    assert_eq!(Type::from_token(""), Err(InvalidEnumValue));
    assert_eq!(Type::from_token("slash "), Err(InvalidEnumValue));
    assert_eq!(Type::from_token("slashes"), Err(InvalidEnumValue));
}

#[test]
fn model_names_are_lower_case() {
    assert_eq!(type_to_string(&Type::SLASH), "slash");
    assert_eq!(type_to_string(&Type::HYBRID), "hybrid");
    assert_eq!(type_to_string(&Type::MESSAGE), "message");
}

#[test]
fn repeated_field_one_line_per_value_in_order() {
    let v = Some(strings(&["b", "a", "b"]));
    assert_eq!(from_vec_to_string(&v, "usage"), "\n    usage: b\n    usage: a\n    usage: b");
}

#[test]
fn repeated_field_absent_or_empty_gives_nothing() {
    assert_eq!(from_vec_to_string(&None, "usage"), "");
    assert_eq!(from_vec_to_string(&Some(Vec::new()), "usage"), "");
}

#[test]
fn scalar_field_present_or_absent() {
    assert_eq!(from_option_to_string(&Some("x y".to_string()), "desc"), "\n    desc: x y");
    assert_eq!(from_option_to_string(&None, "desc"), "");
}

#[test]
fn integer_field_in_base_ten() {
    assert_eq!(from_opt_i32_to_string(&Some(1500), "cooldown"), "\n    cooldown: 1500");
    assert_eq!(from_opt_i32_to_string(&Some(0), "cooldown"), "\n    cooldown: 0");
    assert_eq!(from_opt_i32_to_string(&Some(-42), "cooldown"), "\n    cooldown: -42");
    assert_eq!(
        from_opt_i32_to_string(&Some(i32::MIN), "cooldown"),
        "\n    cooldown: -2147483648"
    );
    assert_eq!(from_opt_i32_to_string(&None, "cooldown"), "");
}

#[test]
fn command_fields_in_fixed_order_handler_last() {
    let mut c = bare_command("ban", Type::HYBRID, "BanHandler");
    c.shortcuts = Some(strings(&["b"]));
    c.usages = Some(strings(&["<user>", "<user> <reason>"]));
    c.afterwares = Some(strings(&["log"]));
    c.middlewares = Some(strings(&["admin", "guild"]));
    c.cooldown = Some(3000);
    c.desc = Some("Bans a user".to_string());
    c.category = Some("Moderation".to_string());
    let extras = command::produce_extras(&c);
    assert_eq!(
        extras,
        "\n    category: Moderation\n    desc: Bans a user\n    cooldown: 3000\n    middleware: admin\n    middleware: guild\n    afterware: log\n    usage: <user>\n    usage: <user> <reason>\n    shortcut: b\n    handler: BanHandler"
    );
    assert!(extras.ends_with("\n    handler: BanHandler"));
    assert_eq!(extras.matches("handler: ").count(), 1);
    let out = command::produce(&c).unwrap();
    assert_eq!(out.text, format!("&[ban]: hybrid {{{}\n}}", extras));
}

#[test]
fn category_without_fields() {
    let c = Category {
        name: "Empty".to_string(),
        desc: None,
        middlewares: None,
        afterwares: Some(Vec::new()),
        path: "./cats/".to_string(),
    };
    assert_eq!(category::produce_extras(&c), "");
    let out = category::produce(&c).unwrap();
    assert_eq!(out.path, "./cats/Empty.vecomp");
    assert_eq!(out.text, "&[Empty]: category {\n}");
}

#[test]
fn category_fields_in_fixed_order() {
    let c = Category {
        name: "Admin".to_string(),
        desc: Some("Admin tools".to_string()),
        middlewares: Some(strings(&["auth", "owner"])),
        afterwares: Some(strings(&["audit"])),
        path: "categories".to_string(),
    };
    assert_eq!(
        category::produce_extras(&c),
        "\n    desc: Admin tools\n    middleware: auth\n    middleware: owner\n    afterware: audit"
    );
}

#[test]
fn values_are_not_escaped() {
    let mut c = bare_command("a&b", Type::MESSAGE, "<H>");
    c.desc = Some("\"quoted\" & 'single' = `tick`".to_string());
    let out = command::produce(&c).unwrap();
    assert_eq!(
        out.text,
        "&[a&b]: message {\n    desc: \"quoted\" & 'single' = `tick`\n    handler: <H>\n}"
    );
}

#[test]
fn output_path_normalization() {
    assert_eq!(file_path("commands", "ping", ".velen"), "./commands/ping.velen");
    assert_eq!(file_path("./commands", "ping", ".velen"), "./commands/ping.velen");
    assert_eq!(file_path("commands/", "ping", ".velen"), "./commands/ping.velen");
    assert_eq!(file_path("./commands/", "ping", ".velen"), "./commands/ping.velen");
    assert_eq!(file_path("a/b", "x", ".vecomp"), "./a/b/x.vecomp");
    assert_eq!(file_path("", "x", ".vecomp"), "./x.vecomp");
    assert_eq!(file_path("x//", "y", ".vecomp"), "./x/y.vecomp");
    assert_eq!(file_path("./", "y", ".velen"), "./y.velen");
    assert_eq!(file_path("/", "y", ".velen"), "./y.velen");
    assert_eq!(file_path(".", "x", ".vecomp"), "././x.vecomp");
}

#[test]
fn render_fills_the_template() {
    assert_eq!(render("n", "category", "").unwrap(), "&[n]: category {\n}");
    assert_eq!(render("n", "slash", "\n    k: v").unwrap(), "&[n]: slash {\n    k: v\n}");
}

#[test]
fn producing_twice_is_identical() {
    let mut c = bare_command("ping", Type::SLASH, "PingHandler");
    c.middlewares = Some(strings(&["auth"]));
    let first = command::produce(&c).unwrap();
    let second = command::produce(&c).unwrap();
    assert_eq!(first.path, second.path);
    assert_eq!(first.text, second.text);
}

#[test]
fn produceable_dispatches_by_kind() {
    let make = Make { make: Produceable::COMMAND(bare_command("hi", Type::MESSAGE, "Hi")) };
    let out = make.make.produce().unwrap();
    assert_eq!(out.path, "./commands/hi.velen");
    assert_eq!(out.text, "&[hi]: message {\n    handler: Hi\n}");
    let cat = Produceable::CATEGORY(Category {
        name: "Fun".to_string(),
        desc: None,
        middlewares: None,
        afterwares: None,
        path: "categories".to_string(),
    });
    let out = cat.produce().unwrap();
    assert_eq!(out.path, "./categories/Fun.vecomp");
    assert_eq!(out.text, "&[Fun]: category {\n}");
}
