use vstd::prelude::*;
use crate::schema::{reserved_id_name, reserved_display_name, EntryView, ParamView, Schema, SchemaView, entries_view, roles_view, params_view, KeyEntry};
use crate::token::{Delim, Token, is_joint};

verus! {

/// A sequence of text pieces written one after another.
pub open spec fn joined(parts: Seq<Seq<char>>) -> Seq<char>
    decreases parts.len(),
{
    if parts.len() == 0 {
        Seq::empty()
    } else {
        joined(parts.drop_last()) + parts.last()
    }
}

proof fn lemma_joined_step(parts: Seq<Seq<char>>, i: int)
    requires
        0 <= i < parts.len(),
    ensures
        joined(parts.take(i + 1)) == joined(parts.take(i)) + parts[i],
{
    assert(parts.take(i + 1).drop_last() =~= parts.take(i));
}

proof fn lemma_joined_all(parts: Seq<Seq<char>>)
    ensures
        joined(parts.take(parts.len() as int)) == joined(parts),
{
    assert(parts.take(parts.len() as int) =~= parts);
}

/// Relies on String::push: it appends the given char to the end of the string.
#[verifier::external_body]
fn push_char(s: &mut String, c: char)
    ensures
        final(s)@ == old(s)@.push(c),
{
    s.push(c)
}

pub open spec fn token_text(t: Token) -> Seq<char> {
    match t {
        Token::Ident(s) => s@,
        Token::Punct(c, _) => seq![c],
        Token::Literal(s) => s@,
        Token::Open(Delim::Paren) => seq!['('],
        Token::Open(Delim::Bracket) => seq!['['],
        Token::Open(Delim::Brace) => seq!['{'],
        Token::Close(Delim::Paren) => seq![')'],
        Token::Close(Delim::Bracket) => seq![']'],
        Token::Close(Delim::Brace) => seq!['}'],
    }
}

/// What follows a token in rendered text: nothing after a punctuation mark joined
/// to the next one (so `::`, `->` and `'a` stay whole), a space after any other.
pub open spec fn token_gap(t: Token) -> Seq<char> {
    if is_joint(t) {
        Seq::empty()
    } else {
        seq![' ']
    }
}

/// A type's tokens, each followed by its gap.
pub open spec fn type_text(ty: Seq<Token>) -> Seq<char> {
    joined(ty.map_values(|t: Token| token_text(t) + token_gap(t)))
}

/// The name of the field that stores the template of `key`: the key with a fixed
/// suffix, so that it never shares its name with the key's accessor.
pub open spec fn field_name(key: Seq<char>) -> Seq<char> {
    key + "__text"@
}

/// The field of `key`; with `serde`, serialized under the key's own name.
pub open spec fn field_decl(key: Seq<char>, serde: bool) -> Seq<char> {
    if serde {
        "    #[serde(rename = \""@ + key + "\")]\n    "@ + field_name(key) + ": String,\n"@
    } else {
        "    "@ + field_name(key) + ": String,\n"@
    }
}

pub open spec fn param_decl(p: ParamView) -> Seq<char> {
    p.0 + ": "@ + type_text(p.1) + ", "@
}

pub open spec fn param_insert(p: ParamView) -> Seq<char> {
    "        params.insert(\""@ + p.0 + "\".to_string(), "@ + p.0 + ".to_string());\n"@
}

/// The accessor of a key: a key without parameters returns its stored template; a
/// key with parameters binds each to its string form and formats the template.
pub open spec fn accessor_text(e: EntryView) -> Seq<char> {
    if e.1.len() == 0 {
        "    pub fn "@ + e.0 + "(&self) -> String {\n        self."@ + field_name(e.0)
            + ".clone()\n    }\n"@
    } else {
        "    pub fn "@ + e.0 + "(&self, "@ + joined(e.1.map_values(|p: ParamView| param_decl(p)))
            + ") -> Result<String, strfmt::FmtError> {\n        let mut params: std::collections::HashMap<String, String> = std::collections::HashMap::new();\n"@
            + joined(e.1.map_values(|p: ParamView| param_insert(p)))
            + "        strfmt::strfmt(&self."@ + field_name(e.0) + ", &params)\n    }\n"@
    }
}

pub open spec fn reserved_text(roles: Option<(Seq<char>, Seq<char>)>) -> Seq<char> {
    match roles {
        Some((a, b)) => "    pub fn "@ + reserved_id_name() + "(&self) -> String {\n        self."@ + a
            + "()\n    }\n"@ + "    pub fn "@ + reserved_display_name()
            + "(&self) -> String {\n        self."@ + b + "()\n    }\n"@,
        None => Seq::empty(),
    }
}

pub open spec fn derive_line(serde: bool) -> Seq<char> {
    if serde {
        "#[derive(serde::Serialize, serde::Deserialize)]\n"@
    } else {
        Seq::empty()
    }
}

/// The definition generated for a schema: a struct with one renamed field per key
/// (serialized under the key's own name when `serde` is set), and its accessors.
pub open spec fn code_of(s: SchemaView, serde: bool) -> Seq<char> {
    derive_line(serde) + "pub struct TranslationProvider {\n"@
        + joined(s.entries.map_values(|e: EntryView| field_decl(e.0, serde)))
        + "}\n\nimpl TranslationProvider {\n"@
        + joined(s.entries.map_values(|e: EntryView| accessor_text(e)))
        + reserved_text(s.roles) + "}\n"@
}

fn append_token(r: &mut String, t: &Token)
    ensures
        final(r)@ == old(r)@ + token_text(*t),
{
    match t {
        Token::Ident(s) => r.append(s.as_str()),
        Token::Punct(c, _) => push_char(r, *c),
        Token::Literal(s) => r.append(s.as_str()),
        Token::Open(Delim::Paren) => r.append("("),
        Token::Open(Delim::Bracket) => r.append("["),
        Token::Open(Delim::Brace) => r.append("{"),
        Token::Close(Delim::Paren) => r.append(")"),
        Token::Close(Delim::Bracket) => r.append("]"),
        Token::Close(Delim::Brace) => r.append("}"),
    }
    proof {
        reveal_strlit("(");
        reveal_strlit("[");
        reveal_strlit("{");
        reveal_strlit(")");
        reveal_strlit("]");
        reveal_strlit("}");
    }
    assert(final(r)@ =~= old(r)@ + token_text(*t));
}

fn append_type(r: &mut String, ty: &Vec<Token>)
    ensures
        final(r)@ == old(r)@ + type_text(ty@),
{
    let ghost parts = ty@.map_values(|t: Token| token_text(t) + token_gap(t));
    let ghost start = r@;
    let mut i: usize = 0;
    assert(parts.take(0) =~= Seq::<Seq<char>>::empty());
    assert(start + joined(parts.take(0)) =~= start);
    while i < ty.len()
        invariant
            i <= ty.len(),
            parts == ty@.map_values(|t: Token| token_text(t) + token_gap(t)),
            r@ == start + joined(parts.take(i as int)),
        decreases ty.len() - i,
    {
        append_token(r, &ty[i]);
        if !ty[i].is_joint() {
            r.append(" ");
        }
        proof {
            reveal_strlit(" ");
            lemma_joined_step(parts, i as int);
        }
        assert(r@ =~= start + joined(parts.take(i + 1)));
        i += 1;
    }
    proof {
        lemma_joined_all(parts);
    }
}


fn append_param_decls(r: &mut String, ps: &Vec<crate::schema::Param>)
    ensures
        final(r)@ == old(r)@ + joined(params_view(ps@).map_values(|p: ParamView| param_decl(p))),
{
    let ghost parts = params_view(ps@).map_values(|p: ParamView| param_decl(p));
    let ghost start = r@;
    let mut i: usize = 0;
    assert(start + joined(parts.take(0)) =~= start);
    while i < ps.len()
        invariant
            i <= ps.len(),
            parts == params_view(ps@).map_values(|p: ParamView| param_decl(p)),
            r@ == start + joined(parts.take(i as int)),
        decreases ps.len() - i,
    {
        let ghost before = r@;
        r.append(ps[i].name.as_str());
        r.append(": ");
        append_type(r, &ps[i].ty);
        r.append(", ");
        proof {
            lemma_joined_step(parts, i as int);
        }
        assert(r@ =~= before + param_decl(ps@[i as int]@));
        assert(r@ =~= start + joined(parts.take(i + 1)));
        i += 1;
    }
    proof {
        lemma_joined_all(parts);
    }
}

fn append_param_inserts(r: &mut String, ps: &Vec<crate::schema::Param>)
    ensures
        final(r)@ == old(r)@ + joined(params_view(ps@).map_values(|p: ParamView| param_insert(p))),
{
    let ghost parts = params_view(ps@).map_values(|p: ParamView| param_insert(p));
    let ghost start = r@;
    let mut i: usize = 0;
    assert(start + joined(parts.take(0)) =~= start);
    while i < ps.len()
        invariant
            i <= ps.len(),
            parts == params_view(ps@).map_values(|p: ParamView| param_insert(p)),
            r@ == start + joined(parts.take(i as int)),
        decreases ps.len() - i,
    {
        let ghost before = r@;
        r.append("        params.insert(\"");
        r.append(ps[i].name.as_str());
        r.append("\".to_string(), ");
        r.append(ps[i].name.as_str());
        r.append(".to_string());\n");
        proof {
            lemma_joined_step(parts, i as int);
        }
        assert(r@ =~= before + param_insert(ps@[i as int]@));
        assert(r@ =~= start + joined(parts.take(i + 1)));
        i += 1;
    }
    proof {
        lemma_joined_all(parts);
    }
}

fn append_field_name(r: &mut String, key: &String)
    ensures
        final(r)@ == old(r)@ + field_name(key@),
{
    r.append(key.as_str());
    r.append("__text");
    assert(final(r)@ =~= old(r)@ + field_name(key@));
}

fn append_field_decls(r: &mut String, es: &Vec<KeyEntry>, serde: bool)
    ensures
        final(r)@ == old(r)@ + joined(entries_view(es@).map_values(|e: EntryView| field_decl(e.0, serde))),
{
    let ghost parts = entries_view(es@).map_values(|e: EntryView| field_decl(e.0, serde));
    let ghost start = r@;
    let mut i: usize = 0;
    assert(start + joined(parts.take(0)) =~= start);
    while i < es.len()
        invariant
            i <= es.len(),
            parts == entries_view(es@).map_values(|e: EntryView| field_decl(e.0, serde)),
            r@ == start + joined(parts.take(i as int)),
        decreases es.len() - i,
    {
        let ghost before = r@;
        if serde {
            r.append("    #[serde(rename = \"");
            r.append(es[i].key.as_str());
            r.append("\")]\n    ");
        } else {
            r.append("    ");
        }
        append_field_name(r, &es[i].key);
        r.append(": String,\n");
        proof {
            lemma_joined_step(parts, i as int);
        }
        assert(r@ =~= before + field_decl(es@[i as int]@.0, serde));
        assert(r@ =~= start + joined(parts.take(i + 1)));
        i += 1;
    }
    proof {
        lemma_joined_all(parts);
    }
}

fn append_accessor(r: &mut String, e: &KeyEntry)
    ensures
        final(r)@ == old(r)@ + accessor_text(e@),
{
    let ghost start = r@;
    if e.params.len() == 0 {
        r.append("    pub fn ");
        r.append(e.key.as_str());
        r.append("(&self) -> String {\n        self.");
        append_field_name(r, &e.key);
        r.append(".clone()\n    }\n");
        assert(r@ =~= start + accessor_text(e@));
    } else {
        r.append("    pub fn ");
        r.append(e.key.as_str());
        r.append("(&self, ");
        append_param_decls(r, &e.params);
        r.append(
            ") -> Result<String, strfmt::FmtError> {\n        let mut params: std::collections::HashMap<String, String> = std::collections::HashMap::new();\n",
        );
        append_param_inserts(r, &e.params);
        r.append("        strfmt::strfmt(&self.");
        append_field_name(r, &e.key);
        r.append(", &params)\n    }\n");
        assert(r@ =~= start + accessor_text(e@));
    }
}

fn append_accessors(r: &mut String, es: &Vec<KeyEntry>)
    ensures
        final(r)@ == old(r)@ + joined(entries_view(es@).map_values(|e: EntryView| accessor_text(e))),
{
    let ghost parts = entries_view(es@).map_values(|e: EntryView| accessor_text(e));
    let ghost start = r@;
    let mut i: usize = 0;
    assert(start + joined(parts.take(0)) =~= start);
    while i < es.len()
        invariant
            i <= es.len(),
            parts == entries_view(es@).map_values(|e: EntryView| accessor_text(e)),
            r@ == start + joined(parts.take(i as int)),
        decreases es.len() - i,
    {
        append_accessor(r, &es[i]);
        proof {
            lemma_joined_step(parts, i as int);
        }
        assert(r@ =~= start + joined(parts.take(i + 1)));
        i += 1;
    }
    proof {
        lemma_joined_all(parts);
    }
}

fn append_reserved(r: &mut String, roles: &Option<(String, String)>)
    ensures
        final(r)@ == old(r)@ + reserved_text(roles_view(*roles)),
{
    let ghost start = r@;
    match roles {
        Some((a, b)) => {
            r.append("    pub fn ");
            r.append("id__reserved_accessor");
            r.append("(&self) -> String {\n        self.");
            r.append(a.as_str());
            r.append("()\n    }\n");
            r.append("    pub fn ");
            r.append("display__reserved_accessor");
            r.append("(&self) -> String {\n        self.");
            r.append(b.as_str());
            r.append("()\n    }\n");
            assert(r@ =~= start + reserved_text(roles_view(*roles)));
        },
        None => {
            assert(r@ =~= start + reserved_text(roles_view(*roles)));
        },
    }
}

/// The definition that a schema generates, as text: the struct with one field per
/// key, renamed with a fixed suffix and serialized under the key's own name, its
/// accessors, and, when the schema has roles, the two reserved accessors. With
/// `serde`, the struct derives serde's traits and each field is serialized under
/// its key's name.
pub fn generated_code(schema: &Schema, serde: bool) -> (r: String)
    ensures
        r@ == code_of(schema@, serde),
{
    let mut r = String::new();
    if serde {
        r.append("#[derive(serde::Serialize, serde::Deserialize)]\n");
    }
    r.append("pub struct TranslationProvider {\n");
    append_field_decls(&mut r, schema.entries(), serde);
    r.append("}\n\nimpl TranslationProvider {\n");
    append_accessors(&mut r, schema.entries());
    append_reserved(&mut r, schema.roles());
    r.append("}\n");
    assert(r@ =~= code_of(schema@, serde));
    r
}

} // verus!
