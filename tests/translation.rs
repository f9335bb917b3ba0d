use translation_provider::format::{format_template, FormatError};
use translation_provider::generator::generated_code;
use translation_provider::index::create_provider_index;
use translation_provider::provider::{ProviderError, TranslationProvider};
use translation_provider::schema::{generate_translation, parse_schema, Role, Schema, SchemaError};
use translation_provider::token::{Delim, Spacing, Token};

fn ident(s: &str) -> Token {
    Token::Ident(s.to_string())
}

fn punct(c: char) -> Token {
    Token::Punct(c, Spacing::Alone)
}

fn joint(c: char) -> Token {
    Token::Punct(c, Spacing::Joint)
}

fn open() -> Token {
    Token::Open(Delim::Paren)
}

fn close() -> Token {
    Token::Close(Delim::Paren)
}

fn fields(pairs: &[(&str, &str)]) -> Vec<(String, String)> {
    pairs.iter().map(|(k, v)| (k.to_string(), v.to_string())).collect()
}

fn strings(xs: &[&str]) -> Vec<String> {
    xs.iter().map(|x| x.to_string()).collect()
}

// january, format_money(whole: i32, decimal: i32)
fn money_schema() -> Schema {
    let toks = vec![
        ident("january"),
        punct(','),
        ident("format_money"),
        open(),
        ident("whole"),
        punct(':'),
        ident("i32"),
        punct(','),
        ident("decimal"),
        punct(':'),
        ident("i32"),
        close(),
    ];
    parse_schema(&toks, false).unwrap()
}

// january = id, display = display
fn indexed_schema() -> Schema {
    let toks = vec![
        ident("january"),
        punct('='),
        ident("id"),
        punct(','),
        ident("display"),
        punct('='),
        ident("display"),
        punct(','),
    ];
    generate_translation(&toks).unwrap()
}

fn indexed(id: &str, display: &str) -> TranslationProvider {
    TranslationProvider::from_fields(indexed_schema(), &fields(&[("january", id), ("display", display)]))
        .unwrap()
}

#[test]
fn money_scenario_plain_key() {
    let p = TranslationProvider::from_fields(
        money_schema(),
        &fields(&[("january", "janvier"), ("format_money", "{whole},{decimal}€")]),
    )
    .unwrap();
    assert_eq!(p.text("january"), Some("janvier".to_string()));
    assert_eq!(p.format("january", &vec![]).unwrap(), "janvier");
}

#[test]
fn money_scenario_formats() {
    let p = TranslationProvider::from_fields(
        money_schema(),
        &fields(&[("january", "janvier"), ("format_money", "{whole},{decimal}€")]),
    )
    .unwrap();
    let args = vec![3.to_string(), 14.to_string()];
    assert_eq!(p.format("format_money", &args).unwrap(), "3,14€");
    assert_eq!(p.text("format_money"), None);
}

#[test]
fn money_scenario_unused_argument() {
    let p = TranslationProvider::from_fields(
        money_schema(),
        &fields(&[("january", "janvier"), ("format_money", "{whole}")]),
    )
    .unwrap();
    assert_eq!(p.format("format_money", &strings(&["3", "14"])).unwrap(), "3");
}

#[test]
fn indexed_scenario_reserved_accessors() {
    let p = indexed("fr_FR", "français");
    assert_eq!(p.reserved_id().unwrap(), "fr_FR");
    assert_eq!(p.reserved_display().unwrap(), "français");
}

#[test]
fn index_keeps_input_order() {
    let ps = vec![indexed("zz_ZZ", "Zed"), indexed("aa_AA", "Ay"), indexed("mm_MM", "Em")];
    let idx = create_provider_index(&ps).unwrap();
    assert_eq!(
        idx,
        vec![
            ("zz_ZZ".to_string(), "Zed".to_string()),
            ("aa_AA".to_string(), "Ay".to_string()),
            ("mm_MM".to_string(), "Em".to_string()),
        ]
    );
}

#[test]
fn index_of_empty_collection() {
    assert_eq!(create_provider_index(&vec![]).unwrap(), vec![]);
}

#[test]
fn index_needs_roles() {
    let p = TranslationProvider::from_fields(
        money_schema(),
        &fields(&[("january", "janvier"), ("format_money", "{whole}")]),
    )
    .unwrap();
    assert!(matches!(p.reserved_id(), Err(ProviderError::RoleNotConfigured)));
    assert!(matches!(p.reserved_display(), Err(ProviderError::RoleNotConfigured)));
    assert!(matches!(create_provider_index(&vec![p]), Err(ProviderError::RoleNotConfigured)));
}

#[test]
fn fields_round_trip() {
    let p = TranslationProvider::from_fields(
        money_schema(),
        &fields(&[("format_money", "{whole}.{decimal}"), ("january", "January"), ("extra", "x")]),
    )
    .unwrap();
    let out = p.to_fields();
    assert_eq!(out, fields(&[("january", "January"), ("format_money", "{whole}.{decimal}")]));
    let q = TranslationProvider::from_fields(p.schema().copy(), &out).unwrap();
    assert_eq!(q.text("january"), p.text("january"));
    let args = strings(&["3", "14"]);
    assert_eq!(q.format("format_money", &args).unwrap(), p.format("format_money", &args).unwrap());
    assert_eq!(q.format("format_money", &args).unwrap(), "3.14");
}

#[test]
fn missing_field_is_reported() {
    let r = TranslationProvider::from_fields(money_schema(), &fields(&[("january", "janvier")]));
    match r {
        Err(ProviderError::MissingField(k)) => assert_eq!(k, "format_money"),
        _ => panic!("expected a missing field"),
    }
}

#[test]
fn first_supplied_field_counts() {
    let p = TranslationProvider::from_fields(
        money_schema(),
        &fields(&[("january", "one"), ("january", "two"), ("format_money", "{whole}")]),
    )
    .unwrap();
    assert_eq!(p.text("january"), Some("one".to_string()));
}

#[test]
fn accessor_errors() {
    let p = TranslationProvider::from_fields(
        money_schema(),
        &fields(&[("january", "janvier"), ("format_money", "{whole},{decimal}")]),
    )
    .unwrap();
    assert!(matches!(p.format("march", &vec![]), Err(ProviderError::UnknownKey)));
    assert_eq!(p.text("march"), None);
    assert!(matches!(
        p.format("format_money", &strings(&["3"])),
        Err(ProviderError::ArgumentCount { expected: 2, given: 1 })
    ));
    assert!(matches!(
        p.format("january", &strings(&["3"])),
        Err(ProviderError::ArgumentCount { expected: 0, given: 1 })
    ));
}

#[test]
fn accessor_reports_format_errors() {
    let p = TranslationProvider::from_fields(
        money_schema(),
        &fields(&[("january", "janvier"), ("format_money", "{whole},{cents}")]),
    )
    .unwrap();
    assert!(matches!(
        p.format("format_money", &strings(&["3", "14"])),
        Err(ProviderError::Format(FormatError::UnknownPlaceholder(_)))
    ));
}

#[test]
fn plain_key_keeps_braces_verbatim() {
    let p = TranslationProvider::from_fields(
        money_schema(),
        &fields(&[("january", "{not a placeholder"), ("format_money", "{whole}")]),
    )
    .unwrap();
    assert_eq!(p.text("january"), Some("{not a placeholder".to_string()));
    assert_eq!(p.format("january", &vec![]).unwrap(), "{not a placeholder");
}

#[test]
fn template_without_placeholders_is_unchanged() {
    let args = fields(&[("a", "1")]);
    assert_eq!(format_template("plain text, no markers", &args).unwrap(), "plain text, no markers");
    assert_eq!(format_template("", &vec![]).unwrap(), "");
}

#[test]
fn placeholders_are_substituted() {
    let args = fields(&[("name", "Ada"), ("n", "3"), ("unused", "x")]);
    assert_eq!(format_template("{name} has {n} cats, {name}!", &args).unwrap(), "Ada has 3 cats, Ada!");
}

#[test]
fn later_argument_replaces_earlier() {
    let args = fields(&[("a", "1"), ("a", "2")]);
    assert_eq!(format_template("{a}", &args).unwrap(), "2");
}

#[test]
fn unknown_placeholder_is_reported() {
    let args = fields(&[("a", "1")]);
    assert!(matches!(format_template("{b}", &args), Err(FormatError::UnknownPlaceholder(_))));
    assert!(matches!(format_template("{a} {b}", &args), Err(FormatError::UnknownPlaceholder(_))));
    assert!(matches!(format_template("{b} {a}", &args), Err(FormatError::UnknownPlaceholder(_))));
    assert!(format_template("{a} {a}", &args).is_ok());
}

#[test]
fn malformed_placeholder_is_reported() {
    let args = fields(&[("a", "1")]);
    assert!(matches!(format_template("{a", &args), Err(FormatError::MalformedPlaceholder(_))));
    assert!(matches!(format_template("a}", &args), Err(FormatError::MalformedPlaceholder(_))));
    assert!(matches!(format_template("{{a}", &args), Err(FormatError::MalformedPlaceholder(_))));
    assert!(matches!(format_template("{a{b}}", &args), Err(FormatError::MalformedPlaceholder(_))));
}

#[test]
fn unsupported_spec_is_reported() {
    let args = fields(&[("a", "1")]);
    assert!(matches!(format_template("{a:d}", &args), Err(FormatError::UnsupportedSpec(_))));
}

#[test]
fn schema_keeps_declaration_order() {
    let s = money_schema();
    let keys: Vec<String> = s.entries().iter().map(|e| e.key.clone()).collect();
    assert_eq!(keys, strings(&["january", "format_money"]));
    assert_eq!(s.entries()[0].params.len(), 0);
    assert_eq!(s.entries()[1].params.len(), 2);
    assert_eq!(s.entries()[1].params[1].name, "decimal");
    assert!(s.roles().is_none());
}

#[test]
fn generic_parameter_types() {
    // f(m: HashMap<String, u8>, n: i32,)
    let toks = vec![
        ident("f"),
        open(),
        ident("m"),
        punct(':'),
        ident("HashMap"),
        punct('<'),
        ident("String"),
        punct(','),
        ident("u8"),
        punct('>'),
        punct(','),
        ident("n"),
        punct(':'),
        ident("i32"),
        punct(','),
        close(),
    ];
    let s = parse_schema(&toks, false).unwrap();
    let params = &s.entries()[0].params;
    assert_eq!(params.len(), 2);
    assert_eq!(params[0].ty.len(), 6);
    assert_eq!(params[1].ty.len(), 1);
}

#[test]
fn empty_parameter_list() {
    let toks = vec![ident("f"), open(), close()];
    let s = parse_schema(&toks, false).unwrap();
    assert_eq!(s.entries().len(), 1);
    assert_eq!(s.entries()[0].params.len(), 0);
}

#[test]
fn empty_key_list() {
    let s = parse_schema(&vec![], false).unwrap();
    assert_eq!(s.entries().len(), 0);
    assert!(matches!(parse_schema(&vec![], true), Err(SchemaError::MissingRequiredRole(Role::Id))));
}

#[test]
fn duplicate_key_takes_last_declaration() {
    // a, b, a(x: u8)
    let toks = vec![
        ident("a"),
        punct(','),
        ident("b"),
        punct(','),
        ident("a"),
        open(),
        ident("x"),
        punct(':'),
        ident("u8"),
        close(),
    ];
    let s = parse_schema(&toks, false).unwrap();
    assert_eq!(s.entries().len(), 2);
    assert_eq!(s.entries()[0].key, "a");
    assert_eq!(s.entries()[0].params.len(), 1);
}

#[test]
fn latest_role_tag_wins() {
    // a = id, b = id, c = display
    let toks = vec![
        ident("a"),
        punct('='),
        ident("id"),
        punct(','),
        ident("b"),
        punct('='),
        ident("id"),
        punct(','),
        ident("c"),
        punct('='),
        ident("display"),
    ];
    let s = generate_translation(&toks).unwrap();
    assert_eq!(s.roles().clone().unwrap(), ("b".to_string(), "c".to_string()));
}

#[test]
fn unknown_role_tag() {
    let toks = vec![ident("a"), punct('='), ident("name")];
    match parse_schema(&toks, false) {
        Err(SchemaError::UnknownRoleTag(t)) => assert_eq!(t, "name"),
        _ => panic!("expected an unknown tag"),
    }
}

#[test]
fn missing_roles() {
    let only_display = vec![ident("a"), punct('='), ident("display")];
    assert!(matches!(parse_schema(&only_display, false), Err(SchemaError::MissingRequiredRole(Role::Id))));
    let only_id = vec![ident("a"), punct('='), ident("id")];
    assert!(matches!(parse_schema(&only_id, false), Err(SchemaError::MissingRequiredRole(Role::Display))));
    let none = vec![ident("a")];
    assert!(matches!(generate_translation(&none), Err(SchemaError::MissingRequiredRole(Role::Id))));
    assert!(parse_schema(&none, false).is_ok());
}

#[test]
fn malformed_parameter_lists() {
    let no_colon = vec![ident("f"), open(), ident("x"), ident("u8"), close()];
    assert!(matches!(parse_schema(&no_colon, false), Err(SchemaError::MalformedParameterList)));
    let no_type = vec![ident("f"), open(), ident("x"), punct(':'), close()];
    assert!(matches!(parse_schema(&no_type, false), Err(SchemaError::MalformedParameterList)));
    let double_comma = vec![
        ident("f"),
        open(),
        ident("x"),
        punct(':'),
        ident("u8"),
        punct(','),
        punct(','),
        close(),
    ];
    assert!(matches!(parse_schema(&double_comma, false), Err(SchemaError::MalformedParameterList)));
    let unterminated = vec![ident("f"), open(), ident("x"), punct(':'), ident("u8")];
    assert!(matches!(parse_schema(&unterminated, false), Err(SchemaError::MalformedParameterList)));
}

#[test]
fn malformed_key_lists() {
    let no_comma = vec![ident("a"), ident("b")];
    assert!(matches!(parse_schema(&no_comma, false), Err(SchemaError::MalformedSchema)));
    let double_comma = vec![ident("a"), punct(','), punct(',')];
    assert!(matches!(parse_schema(&double_comma, false), Err(SchemaError::MalformedSchema)));
    let literal_key = vec![Token::Literal("\"a\"".to_string())];
    assert!(matches!(parse_schema(&literal_key, false), Err(SchemaError::MalformedSchema)));
    let dangling_eq = vec![ident("a"), punct('=')];
    assert!(matches!(parse_schema(&dangling_eq, false), Err(SchemaError::MalformedSchema)));
}

#[test]
fn generated_code_of_plain_and_parameterized_keys() {
    // a, f(x: u8)
    let toks = vec![ident("a"), punct(','), ident("f"), open(), ident("x"), punct(':'), ident("u8"), close()];
    let s = parse_schema(&toks, false).unwrap();
    let expected = "#[derive(serde::Serialize, serde::Deserialize)]\npub struct TranslationProvider {\n    #[serde(rename = \"a\")]\n    a__text: String,\n    #[serde(rename = \"f\")]\n    f__text: String,\n}\n\nimpl TranslationProvider {\n    pub fn a(&self) -> String {\n        self.a__text.clone()\n    }\n    pub fn f(&self, x: u8 , ) -> Result<String, strfmt::FmtError> {\n        let mut params: std::collections::HashMap<String, String> = std::collections::HashMap::new();\n        params.insert(\"x\".to_string(), x.to_string());\n        strfmt::strfmt(&self.f__text, &params)\n    }\n}\n";
    assert_eq!(generated_code(&s, true), expected);
}

#[test]
fn generated_code_renders_type_punctuation() {
    // v(items: Vec<u8>)
    let toks = vec![
        ident("v"),
        open(),
        ident("items"),
        punct(':'),
        ident("Vec"),
        punct('<'),
        ident("u8"),
        punct('>'),
        close(),
    ];
    let code = generated_code(&parse_schema(&toks, false).unwrap(), true);
    assert!(code.contains("pub fn v(&self, items: Vec < u8 > , ) -> Result<String, strfmt::FmtError> {\n"));
}

#[test]
fn generated_code_has_reserved_accessors() {
    let code = generated_code(&indexed_schema(), true);
    assert!(code.contains("    pub fn id__reserved_accessor(&self) -> String {\n        self.january()\n    }\n"));
    assert!(code.contains("    pub fn display__reserved_accessor(&self) -> String {\n        self.display()\n    }\n"));
    assert!(code.contains("    #[serde(rename = \"january\")]\n    january__text: String,\n"));
}

#[test]
fn unknown_placeholder_names_the_missing_key() {
    let args = fields(&[("a", "1")]);
    match format_template("{a} and {missing}", &args) {
        Err(FormatError::UnknownPlaceholder(m)) => assert_eq!(m, "Invalid key: missing"),
        _ => panic!("expected an unknown placeholder"),
    }
}

#[test]
fn generated_code_keeps_paths_whole() {
    // p(x: a::b::C)
    let toks = vec![
        ident("p"),
        open(),
        ident("x"),
        punct(':'),
        ident("a"),
        joint(':'),
        punct(':'),
        ident("b"),
        joint(':'),
        punct(':'),
        ident("C"),
        close(),
    ];
    let code = generated_code(&parse_schema(&toks, false).unwrap(), true);
    assert!(code.contains("pub fn p(&self, x: a :: b :: C , ) -> Result<String, strfmt::FmtError> {\n"));
}

#[test]
fn generated_code_keeps_lifetimes_whole() {
    // r(s: &'a str)
    let toks = vec![
        ident("r"),
        open(),
        ident("s"),
        punct(':'),
        punct('&'),
        joint('\''),
        ident("a"),
        ident("str"),
        close(),
    ];
    let code = generated_code(&parse_schema(&toks, false).unwrap(), true);
    assert!(code.contains("pub fn r(&self, s: & 'a str , ) -> Result<String, strfmt::FmtError> {\n"));
}

#[test]
fn arrow_inside_generic_type() {
    // f(m: HashMap<fn() -> u8, i32>, n: i32)
    let toks = vec![
        ident("f"),
        open(),
        ident("m"),
        punct(':'),
        ident("HashMap"),
        punct('<'),
        ident("fn"),
        open(),
        close(),
        joint('-'),
        punct('>'),
        ident("u8"),
        punct(','),
        ident("i32"),
        punct('>'),
        punct(','),
        ident("n"),
        punct(':'),
        ident("i32"),
        close(),
    ];
    let s = parse_schema(&toks, false).unwrap();
    let params = &s.entries()[0].params;
    assert_eq!(params.len(), 2);
    assert_eq!(params[0].ty.len(), 11);
    let code = generated_code(&s, false);
    assert!(code.contains("m: HashMap < fn ( ) -> u8 , i32 > , n: i32 , "));
}

#[test]
fn generated_code_without_serde() {
    let toks = vec![ident("a")];
    let code = generated_code(&parse_schema(&toks, false).unwrap(), false);
    assert_eq!(
        code,
        "pub struct TranslationProvider {\n    a__text: String,\n}\n\nimpl TranslationProvider {\n    pub fn a(&self) -> String {\n        self.a__text.clone()\n    }\n}\n"
    );
}

#[test]
fn reserved_names_are_rejected() {
    let toks = vec![ident("id__reserved_accessor")];
    assert!(matches!(parse_schema(&toks, false), Err(SchemaError::ReservedKey)));
    let toks = vec![ident("a"), punct(','), ident("display__reserved_accessor"), open(), close()];
    assert!(matches!(parse_schema(&toks, false), Err(SchemaError::ReservedKey)));
    let toks = vec![ident("id__reserved"), punct(','), ident("reserved_accessor")];
    assert!(parse_schema(&toks, false).is_ok());
}
