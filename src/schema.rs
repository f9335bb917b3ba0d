//! The key-list parser and validator.
//!
//! Policies: a key declared twice keeps its first place and takes the parameters
//! of its last declaration; a role tagged twice belongs to the last key tagged
//! with it. Roles are either both tagged or both absent, and may be required.
use vstd::prelude::*;
use crate::token::{
    Token, is_punct, is_open_paren, is_close_paren, opens_nesting, closes_nesting,
};

verus! {

/// A role that a key may be tagged with.
#[derive(Clone, Copy, Debug, PartialEq, Eq, Structural)]
pub enum Role {
    Id,
    Display,
}

/// Why a key list was rejected.
#[derive(Debug)]
pub enum SchemaError {
    /// The key list does not follow `key [(params)] [= tag]` separated by commas.
    MalformedSchema,
    /// A parameter is missing its name, colon or type, or a separator is doubled.
    MalformedParameterList,
    /// A key is tagged with something other than `id` or `display`.
    UnknownRoleTag(String),
    /// The role is required but no key is tagged with it.
    MissingRequiredRole(Role),
    /// A key is named like one of the two reserved accessors.
    ReservedKey,
}

/// A typed parameter of a key: its name and the tokens of its type.
pub struct Param {
    pub name: String,
    pub ty: Vec<Token>,
}

pub type ParamView = (Seq<char>, Seq<Token>);

impl View for Param {
    type V = ParamView;

    open spec fn view(&self) -> ParamView {
        (self.name@, self.ty@)
    }
}

/// One declaration of the key list, as written.
pub struct Decl {
    pub key: String,
    pub params: Vec<Param>,
    pub role: Option<Role>,
}

pub type DeclView = (Seq<char>, Seq<ParamView>, Option<Role>);

impl View for Decl {
    type V = DeclView;

    open spec fn view(&self) -> DeclView {
        (self.key@, self.params@.map_values(|p: Param| p@), self.role)
    }
}

pub open spec fn id_tag() -> Seq<char> {
    seq!['i', 'd']
}

pub open spec fn display_tag() -> Seq<char> {
    seq!['d', 'i', 's', 'p', 'l', 'a', 'y']
}

/// The accessor that resolves to the key tagged `id`.
pub open spec fn reserved_id_name() -> Seq<char> {
    "id__reserved_accessor"@
}

/// The accessor that resolves to the key tagged `display`.
pub open spec fn reserved_display_name() -> Seq<char> {
    "display__reserved_accessor"@
}

/// Names no key may take, so that no accessor of a key is named like a reserved one.
pub open spec fn is_reserved_name(key: Seq<char>) -> bool {
    key == reserved_id_name() || key == reserved_display_name()
}

/// The position that ends a type starting at `i`, scanned at nesting `depth`: the
/// first `,` or `)` outside any `<...>` or group.
pub open spec fn type_end(toks: Seq<Token>, i: int, depth: nat) -> Option<int>
    decreases toks.len() - i,
{
    if i < 0 || i >= toks.len() {
        None
    } else if depth == 0 && (is_punct(toks[i], ',') || is_close_paren(toks[i])) {
        Some(i)
    } else if opens_nesting(toks[i]) {
        type_end(toks, i + 1, depth + 1)
    } else if closes_nesting(toks, i) && depth > 0 {
        type_end(toks, i + 1, (depth - 1) as nat)
    } else {
        type_end(toks, i + 1, depth)
    }
}

pub open spec fn prepend<T>(a: Seq<T>, r: Result<(Seq<T>, int), SchemaError>) -> Result<
    (Seq<T>, int),
    SchemaError,
> {
    match r {
        Ok((s, k)) => Ok((a + s, k)),
        Err(e) => Err(e),
    }
}

/// The parameters `name: type, ...` that start at `i`, just after a `(`, with the
/// position after the closing `)`.
pub open spec fn params_from(toks: Seq<Token>, i: int) -> Result<(Seq<ParamView>, int), SchemaError>
    decreases toks.len() - i, 1nat,
{
    if i < 0 || i >= toks.len() {
        Err(SchemaError::MalformedParameterList)
    } else if is_close_paren(toks[i]) {
        Ok((Seq::empty(), i + 1))
    } else {
        match toks[i] {
            Token::Ident(name) => {
                if i + 1 < toks.len() && is_punct(toks[i + 1], ':') {
                    match type_end(toks, i + 2, 0) {
                        None => Err(SchemaError::MalformedParameterList),
                        Some(j) => {
                            if j <= i + 2 || j >= toks.len() {
                                Err(SchemaError::MalformedParameterList)
                            } else {
                                let p = (name@, toks.subrange(i + 2, j));
                                if is_punct(toks[j], ',') {
                                    prepend(seq![p], params_from(toks, j + 1))
                                } else {
                                    Ok((seq![p], j + 1))
                                }
                            }
                        }
                    }
                } else {
                    Err(SchemaError::MalformedParameterList)
                }
            },
            _ => Err(SchemaError::MalformedParameterList),
        }
    }
}

pub open spec fn tag_role(tag: Seq<char>) -> Option<Role> {
    if tag == id_tag() {
        Some(Role::Id)
    } else if tag == display_tag() {
        Some(Role::Display)
    } else {
        None
    }
}

/// The end of a declaration at `k`: the end of the list, or a `,` that is consumed.
pub open spec fn entry_end(toks: Seq<Token>, k: int, decl: DeclView) -> Result<(DeclView, int), SchemaError> {
    if k == toks.len() {
        Ok((decl, k))
    } else if 0 <= k < toks.len() && is_punct(toks[k], ',') {
        Ok((decl, k + 1))
    } else {
        Err(SchemaError::MalformedSchema)
    }
}

/// An optional `= tag` at `j`, then the end of the declaration.
pub open spec fn role_then_end(toks: Seq<Token>, j: int, key: Seq<char>, params: Seq<ParamView>) -> Result<
    (DeclView, int),
    SchemaError,
> {
    if 0 <= j < toks.len() && is_punct(toks[j], '=') {
        if j + 1 < toks.len() {
            match toks[j + 1] {
                Token::Ident(tag) => match tag_role(tag@) {
                    Some(r) => entry_end(toks, j + 2, (key, params, Some(r))),
                    None => Err(SchemaError::UnknownRoleTag(tag)),
                },
                _ => Err(SchemaError::MalformedSchema),
            }
        } else {
            Err(SchemaError::MalformedSchema)
        }
    } else {
        entry_end(toks, j, (key, params, None))
    }
}

/// The declaration `key [(params)] [= tag]` that starts at `i`, with the position
/// after it and its separator.
pub open spec fn entry_at(toks: Seq<Token>, i: int) -> Result<(DeclView, int), SchemaError> {
    if 0 <= i < toks.len() {
        match toks[i] {
            Token::Ident(key) => {
                if i + 1 < toks.len() && is_open_paren(toks[i + 1]) {
                    match params_from(toks, i + 2) {
                        Ok((ps, j)) => role_then_end(toks, j, key@, ps),
                        Err(e) => Err(e),
                    }
                } else {
                    role_then_end(toks, i + 1, key@, Seq::empty())
                }
            },
            _ => Err(SchemaError::MalformedSchema),
        }
    } else {
        Err(SchemaError::MalformedSchema)
    }
}

/// All declarations from position `i` to the end of the list.
pub open spec fn decls_from(toks: Seq<Token>, i: int) -> Result<Seq<DeclView>, SchemaError>
    decreases toks.len() - i,
{
    if i < 0 || i >= toks.len() {
        Ok(Seq::empty())
    } else {
        match entry_at(toks, i) {
            Err(e) => Err(e),
            Ok((d, k)) => {
                if k <= i {
                    Err(SchemaError::MalformedSchema)
                } else {
                    match decls_from(toks, k) {
                        Ok(ds) => Ok(seq![d] + ds),
                        Err(e) => Err(e),
                    }
                }
            },
        }
    }
}

pub open spec fn params_view(ps: Seq<Param>) -> Seq<ParamView> {
    ps.map_values(|p: Param| p@)
}

pub open spec fn params_result(r: Result<(Vec<Param>, usize), SchemaError>) -> Result<
    (Seq<ParamView>, int),
    SchemaError,
> {
    match r {
        Ok((ps, k)) => Ok((params_view(ps@), k as int)),
        Err(e) => Err(e),
    }
}

pub open spec fn decl_result(r: Result<(Decl, usize), SchemaError>) -> Result<(DeclView, int), SchemaError> {
    match r {
        Ok((d, k)) => Ok((d@, k as int)),
        Err(e) => Err(e),
    }
}

pub open spec fn decls_view(ds: Seq<Decl>) -> Seq<DeclView> {
    ds.map_values(|d: Decl| d@)
}

proof fn lemma_params_from_advances(toks: Seq<Token>, i: int)
    ensures
        params_from(toks, i) matches Ok((_, k)) ==> i < k <= toks.len(),
    decreases toks.len() - i,
{
    if 0 <= i < toks.len() && !is_close_paren(toks[i]) {
        if let Token::Ident(_) = toks[i] {
            if i + 1 < toks.len() && is_punct(toks[i + 1], ':') {
                if let Some(j) = type_end(toks, i + 2, 0) {
                    if i + 2 < j < toks.len() && is_punct(toks[j], ',') {
                        lemma_params_from_advances(toks, j + 1);
                    }
                }
            }
        }
    }
}

proof fn lemma_entry_at_advances(toks: Seq<Token>, i: int)
    ensures
        entry_at(toks, i) matches Ok((_, k)) ==> i < k <= toks.len(),
{
    lemma_params_from_advances(toks, i + 2);
}

fn copy_tokens(toks: &Vec<Token>, start: usize, end: usize) -> (r: Vec<Token>)
    requires
        start <= end <= toks.len(),
    ensures
        r@ == toks@.subrange(start as int, end as int),
{
    let mut r: Vec<Token> = Vec::new();
    let mut i: usize = start;
    while i < end
        invariant
            start <= i <= end <= toks.len(),
            r@ == toks@.subrange(start as int, i as int),
        decreases end - i,
    {
        r.push(toks[i].copy());
        i += 1;
        assert(r@ =~= toks@.subrange(start as int, i as int));
    }
    r
}

/// Finds where the type that starts at `start` ends.
fn scan_type(toks: &Vec<Token>, start: usize) -> (r: Option<usize>)
    ensures
        type_end(toks@, start as int, 0) == (match r {
            Some(j) => Some(j as int),
            None => None::<int>,
        }),
{
    if start >= toks.len() {
        return None;
    }
    let mut i: usize = start;
    let mut depth: usize = 0;
    while i < toks.len()
        invariant
            start <= i <= toks.len(),
            depth <= i - start,
            type_end(toks@, start as int, 0) == type_end(toks@, i as int, depth as nat),
        decreases toks.len() - i,
    {
        let t = &toks[i];
        if depth == 0 && (t.is_punct(',') || t.is_close_paren()) {
            return Some(i);
        }
        if matches!(t, Token::Open(_)) || t.is_punct('<') {
            depth = depth + 1;
        } else if (matches!(t, Token::Close(_)) || (t.is_punct('>') && !(i > 0 && toks[i - 1].is_punct(
            '-',
        ) && toks[i - 1].is_joint()))) && depth > 0 {
            depth = depth - 1;
        }
        i = i + 1;
    }
    None
}

/// Parses the parameter list that starts at `start`, just after its `(`.
pub fn parse_parameters(toks: &Vec<Token>, start: usize) -> (r: Result<(Vec<Param>, usize), SchemaError>)
    ensures
        params_result(r) == params_from(toks@, start as int),
{
    if start >= toks.len() {
        return Err(SchemaError::MalformedParameterList);
    }
    let mut acc: Vec<Param> = Vec::new();
    let mut i: usize = start;
    loop
        invariant
            i <= toks.len(),
            params_from(toks@, start as int) == prepend(params_view(acc@), params_from(toks@, i as int)),
        decreases toks.len() - i,
    {
        if i >= toks.len() {
            return Err(SchemaError::MalformedParameterList);
        }
        if toks[i].is_close_paren() {
            assert(params_view(acc@) + Seq::<ParamView>::empty() =~= params_view(acc@));
            return Ok((acc, i + 1));
        }
        match &toks[i] {
            Token::Ident(name) => {
                if i + 1 < toks.len() && toks[i + 1].is_punct(':') {
                    match scan_type(toks, i + 2) {
                        None => {
                            return Err(SchemaError::MalformedParameterList);
                        },
                        Some(j) => {
                            if j <= i + 2 || j >= toks.len() {
                                return Err(SchemaError::MalformedParameterList);
                            }
                            let ty = copy_tokens(toks, i + 2, j);
                            let p = Param { name: name.clone(), ty };
                            let ghost old_acc = params_view(acc@);
                            acc.push(p);
                            assert(params_view(acc@) =~= old_acc + seq![p@]);
                            if toks[j].is_punct(',') {
                                assert(forall|s: Seq<ParamView>|
                                    #![trigger old_acc + (seq![p@] + s)]
                                    old_acc + (seq![p@] + s) =~= (old_acc + seq![p@]) + s);
                                i = j + 1;
                            } else {
                                return Ok((acc, j + 1));
                            }
                        },
                    }
                } else {
                    return Err(SchemaError::MalformedParameterList);
                }
            },
            _ => {
                return Err(SchemaError::MalformedParameterList);
            },
        }
    }
}


fn role_of_tag(tag: &String) -> (r: Option<Role>)
    ensures
        r == tag_role(tag@),
{
    let id = String::from_str("id");
    let display = String::from_str("display");
    proof {
        reveal_strlit("id");
        reveal_strlit("display");
        assert(id@ =~= id_tag());
        assert(display@ =~= display_tag());
    }
    if *tag == id {
        Some(Role::Id)
    } else if *tag == display {
        Some(Role::Display)
    } else {
        None
    }
}

fn finish_entry(toks: &Vec<Token>, k: usize, decl: Decl) -> (r: Result<(Decl, usize), SchemaError>)
    ensures
        decl_result(r) == entry_end(toks@, k as int, decl@),
{
    if k == toks.len() {
        Ok((decl, k))
    } else if k < toks.len() && toks[k].is_punct(',') {
        Ok((decl, k + 1))
    } else {
        Err(SchemaError::MalformedSchema)
    }
}

fn finish_role(toks: &Vec<Token>, j: usize, key: String, params: Vec<Param>) -> (r: Result<(Decl, usize), SchemaError>)
    ensures
        decl_result(r) == role_then_end(toks@, j as int, key@, params_view(params@)),
{
    if j < toks.len() && toks[j].is_punct('=') {
        if j + 1 < toks.len() {
            match &toks[j + 1] {
                Token::Ident(tag) => match role_of_tag(tag) {
                    Some(role) => finish_entry(toks, j + 2, Decl { key, params, role: Some(role) }),
                    None => Err(SchemaError::UnknownRoleTag(tag.clone())),
                },
                _ => Err(SchemaError::MalformedSchema),
            }
        } else {
            Err(SchemaError::MalformedSchema)
        }
    } else {
        finish_entry(toks, j, Decl { key, params, role: None })
    }
}

/// Parses the declaration `key [(params)] [= tag]` that starts at `i`, with its
/// separating comma if there is one.
pub fn parse_entry(toks: &Vec<Token>, i: usize) -> (r: Result<(Decl, usize), SchemaError>)
    ensures
        decl_result(r) == entry_at(toks@, i as int),
{
    if i >= toks.len() {
        return Err(SchemaError::MalformedSchema);
    }
    match &toks[i] {
        Token::Ident(key) => {
            if i + 1 < toks.len() && toks[i + 1].is_open_paren() {
                match parse_parameters(toks, i + 2) {
                    Ok((params, j)) => finish_role(toks, j, key.clone(), params),
                    Err(e) => Err(e),
                }
            } else {
                let params: Vec<Param> = Vec::new();
                assert(params_view(params@) =~= Seq::empty());
                finish_role(toks, i + 1, key.clone(), params)
            }
        },
        _ => Err(SchemaError::MalformedSchema),
    }
}

pub open spec fn decls_result(r: Result<Vec<Decl>, SchemaError>) -> Result<Seq<DeclView>, SchemaError> {
    match r {
        Ok(ds) => Ok(decls_view(ds@)),
        Err(e) => Err(e),
    }
}

pub open spec fn prepend_decls(a: Seq<DeclView>, r: Result<Seq<DeclView>, SchemaError>) -> Result<
    Seq<DeclView>,
    SchemaError,
> {
    match r {
        Ok(s) => Ok(a + s),
        Err(e) => Err(e),
    }
}

/// Parses a whole key list into its declarations, in the order written.
pub fn parse_declarations(toks: &Vec<Token>) -> (r: Result<Vec<Decl>, SchemaError>)
    ensures
        decls_result(r) == decls_from(toks@, 0),
{
    let mut acc: Vec<Decl> = Vec::new();
    let mut i: usize = 0;
    assert(decls_view(acc@) + decls_from(toks@, 0).unwrap() =~= decls_from(toks@, 0).unwrap());
    while i < toks.len()
        invariant
            i <= toks.len(),
            decls_from(toks@, 0) == prepend_decls(decls_view(acc@), decls_from(toks@, i as int)),
        decreases toks.len() - i,
    {
        proof {
            lemma_entry_at_advances(toks@, i as int);
        }
        match parse_entry(toks, i) {
            Err(e) => {
                return Err(e);
            },
            Ok((d, k)) => {
                let ghost old_acc = decls_view(acc@);
                let ghost dv = d@;
                acc.push(d);
                assert(decls_view(acc@) =~= old_acc + seq![dv]);
                assert(forall|s: Seq<DeclView>|
                    #![trigger old_acc + (seq![dv] + s)]
                    old_acc + (seq![dv] + s) =~= (old_acc + seq![dv]) + s);
                i = k;
            },
        }
    }
    assert(decls_view(acc@) + Seq::<DeclView>::empty() =~= decls_view(acc@));
    Ok(acc)
}


/// A key of a schema with its parameters; a key without parameters is plain text.
pub struct KeyEntry {
    pub key: String,
    pub params: Vec<Param>,
}

pub type EntryView = (Seq<char>, Seq<ParamView>);

impl View for KeyEntry {
    type V = EntryView;

    open spec fn view(&self) -> EntryView {
        (self.key@, params_view(self.params@))
    }
}

pub struct SchemaView {
    pub entries: Seq<EntryView>,
    pub roles: Option<(Seq<char>, Seq<char>)>,
}

/// A validated key list: unique keys in order of first declaration, and, when the
/// schema is indexable, the keys tagged `id` and `display`.
pub struct Schema {
    entries: Vec<KeyEntry>,
    roles: Option<(String, String)>,
}

pub open spec fn entries_view(es: Seq<KeyEntry>) -> Seq<EntryView> {
    es.map_values(|e: KeyEntry| e@)
}

pub open spec fn roles_view(roles: Option<(String, String)>) -> Option<(Seq<char>, Seq<char>)> {
    match roles {
        Some((a, b)) => Some((a@, b@)),
        None => None,
    }
}

impl View for Schema {
    type V = SchemaView;

    closed spec fn view(&self) -> SchemaView {
        SchemaView { entries: entries_view(self.entries@), roles: roles_view(self.roles) }
    }
}

pub open spec fn has_key(es: Seq<EntryView>, key: Seq<char>) -> bool {
    exists|i: int| 0 <= i < es.len() && es[i].0 == key
}

pub open spec fn keys_unique(es: Seq<EntryView>) -> bool {
    forall|i: int, j: int| 0 <= i < j < es.len() ==> es[i].0 != es[j].0
}

/// Declares `key`: a key declared before keeps its place and takes the new
/// parameters, a new key goes last.
pub open spec fn insert_entry(es: Seq<EntryView>, key: Seq<char>, params: Seq<ParamView>) -> Seq<EntryView> {
    if has_key(es, key) {
        let i = choose|i: int| 0 <= i < es.len() && es[i].0 == key;
        es.update(i, (key, params))
    } else {
        es.push((key, params))
    }
}

pub open spec fn entries_of(decls: Seq<DeclView>) -> Seq<EntryView>
    decreases decls.len(),
{
    if decls.len() == 0 {
        Seq::empty()
    } else {
        insert_entry(entries_of(decls.drop_last()), decls.last().0, decls.last().1)
    }
}

/// The key of the last declaration tagged with `role`.
pub open spec fn last_tagged(decls: Seq<DeclView>, role: Role) -> Option<Seq<char>>
    decreases decls.len(),
{
    if decls.len() == 0 {
        None
    } else if decls.last().2 == Some(role) {
        Some(decls.last().0)
    } else {
        last_tagged(decls.drop_last(), role)
    }
}

/// The schema that a list of declarations describes. No key may take a reserved
/// name. Either both roles are tagged or none; none is accepted only when roles are
/// not required.
pub open spec fn schema_of(decls: Seq<DeclView>, require_roles: bool) -> Result<SchemaView, SchemaError> {
    let entries = entries_of(decls);
    if exists|i: int| 0 <= i < decls.len() && is_reserved_name(#[trigger] decls[i].0) {
        Err(SchemaError::ReservedKey)
    } else {
        schema_roles(decls, entries, require_roles)
    }
}

pub open spec fn schema_roles(decls: Seq<DeclView>, entries: Seq<EntryView>, require_roles: bool) -> Result<
    SchemaView,
    SchemaError,
> {
    match (last_tagged(decls, Role::Id), last_tagged(decls, Role::Display)) {
        (Some(a), Some(b)) => Ok(SchemaView { entries, roles: Some((a, b)) }),
        (None, None) => {
            if require_roles {
                Err(SchemaError::MissingRequiredRole(Role::Id))
            } else {
                Ok(SchemaView { entries, roles: None })
            }
        },
        (None, Some(_)) => Err(SchemaError::MissingRequiredRole(Role::Id)),
        (Some(_), None) => Err(SchemaError::MissingRequiredRole(Role::Display)),
    }
}

/// The schema that a key list describes.
pub open spec fn parsed_schema(toks: Seq<Token>, require_roles: bool) -> Result<SchemaView, SchemaError> {
    match decls_from(toks, 0) {
        Ok(ds) => schema_of(ds, require_roles),
        Err(e) => Err(e),
    }
}

pub open spec fn schema_result(r: Result<Schema, SchemaError>) -> Result<SchemaView, SchemaError> {
    match r {
        Ok(s) => Ok(s@),
        Err(e) => Err(e),
    }
}

proof fn lemma_insert_entry(es: Seq<EntryView>, key: Seq<char>, params: Seq<ParamView>, other: Seq<char>)
    requires
        keys_unique(es),
    ensures
        keys_unique(insert_entry(es, key, params)),
        has_key(insert_entry(es, key, params), key),
        has_key(es, other) ==> has_key(insert_entry(es, key, params), other),
{
    let r = insert_entry(es, key, params);
    if has_key(es, key) {
        let i = choose|i: int| 0 <= i < es.len() && es[i].0 == key;
        assert(r[i].0 == key);
        if has_key(es, other) {
            let k = choose|k: int| 0 <= k < es.len() && es[k].0 == other;
            assert(r[k].0 == other);
        }
    } else {
        assert(r[es.len() as int].0 == key);
        if has_key(es, other) {
            let k = choose|k: int| 0 <= k < es.len() && es[k].0 == other;
            assert(r[k].0 == other);
        }
    }
}

proof fn lemma_entries_of(decls: Seq<DeclView>, role: Role)
    ensures
        keys_unique(entries_of(decls)),
        last_tagged(decls, role) matches Some(k) ==> has_key(entries_of(decls), k),
    decreases decls.len(),
{
    if decls.len() > 0 {
        lemma_entries_of(decls.drop_last(), role);
        let prev = entries_of(decls.drop_last());
        match last_tagged(decls.drop_last(), role) {
            Some(k) => lemma_insert_entry(prev, decls.last().0, decls.last().1, k),
            None => lemma_insert_entry(prev, decls.last().0, decls.last().1, decls.last().0),
        }
    }
}

impl Param {
    pub fn copy(&self) -> (r: Param)
        ensures
            r@ == self@,
    {
        let ty = copy_tokens(&self.ty, 0, self.ty.len());
        assert(ty@ =~= self.ty@);
        Param { name: self.name.clone(), ty }
    }
}

fn copy_params(ps: &Vec<Param>) -> (r: Vec<Param>)
    ensures
        params_view(r@) == params_view(ps@),
{
    let mut r: Vec<Param> = Vec::new();
    let mut i: usize = 0;
    while i < ps.len()
        invariant
            i <= ps.len(),
            params_view(r@) =~= params_view(ps@).take(i as int),
        decreases ps.len() - i,
    {
        let p = ps[i].copy();
        let ghost old_r = params_view(r@);
        r.push(p);
        assert(params_view(r@) =~= old_r.push(p@));
        i += 1;
        assert(params_view(r@) =~= params_view(ps@).take(i as int));
    }
    assert(params_view(ps@).take(ps.len() as int) =~= params_view(ps@));
    r
}

/// Finds the position of `key` among the entries.
pub(crate) fn find_entry(es: &Vec<KeyEntry>, key: &String) -> (r: Option<usize>)
    ensures
        match r {
            Some(i) => i < es.len() && entries_view(es@)[i as int].0 == key@,
            None => !has_key(entries_view(es@), key@),
        },
{
    let mut i: usize = 0;
    while i < es.len()
        invariant
            i <= es.len(),
            forall|k: int| 0 <= k < i ==> entries_view(es@)[k].0 != key@,
        decreases es.len() - i,
    {
        if es[i].key == *key {
            return Some(i);
        }
        i += 1;
    }
    None
}

fn is_reserved_key(key: &String) -> (r: bool)
    ensures
        r == is_reserved_name(key@),
{
    let id = String::from_str("id__reserved_accessor");
    let display = String::from_str("display__reserved_accessor");
    *key == id || *key == display
}

/// Builds the schema of a list of declarations: a repeated key takes the
/// parameters of its last declaration, and the last key tagged with a role holds it.
pub fn build_schema(decls: &Vec<Decl>, require_roles: bool) -> (r: Result<Schema, SchemaError>)
    ensures
        schema_result(r) == schema_of(decls_view(decls@), require_roles),
        r matches Ok(s) ==> s.wf(),
{
    let ghost dv = decls_view(decls@);
    let mut entries: Vec<KeyEntry> = Vec::new();
    let mut id: Option<String> = None;
    let mut display: Option<String> = None;
    let mut i: usize = 0;
    assert(dv.take(0) =~= Seq::<DeclView>::empty());
    while i < decls.len()
        invariant
            i <= decls.len(),
            dv == decls_view(decls@),
            entries_view(entries@) == entries_of(dv.take(i as int)),
            keys_unique(entries_view(entries@)),
            forall|k: int| 0 <= k < i ==> !is_reserved_name(#[trigger] dv[k].0),
            forall|k: int|
                0 <= k < entries_view(entries@).len() ==> !is_reserved_name(
                    #[trigger] entries_view(entries@)[k].0,
                ),
            (match id {
                Some(k) => Some(k@),
                None => None::<Seq<char>>,
            }) == last_tagged(dv.take(i as int), Role::Id),
            (match display {
                Some(k) => Some(k@),
                None => None::<Seq<char>>,
            }) == last_tagged(dv.take(i as int), Role::Display),
        decreases decls.len() - i,
    {
        let d = &decls[i];
        if is_reserved_key(&d.key) {
            assert(is_reserved_name(dv[i as int].0));
            return Err(SchemaError::ReservedKey);
        }
        let ghost prev = entries_view(entries@);
        assert(dv.take(i + 1).drop_last() =~= dv.take(i as int));
        assert(dv.take(i + 1).last() == d@);
        proof {
            lemma_insert_entry(prev, d@.0, d@.1, d@.0);
        }
        let params = copy_params(&d.params);
        match find_entry(&entries, &d.key) {
            Some(j) => {
                proof {
                    let c = choose|c: int| 0 <= c < prev.len() && prev[c].0 == d@.0;
                    assert(c == j);
                }
                entries.set(j, KeyEntry { key: d.key.clone(), params });
                assert(entries_view(entries@) =~= insert_entry(prev, d@.0, d@.1));
            },
            None => {
                entries.push(KeyEntry { key: d.key.clone(), params });
                assert(entries_view(entries@) =~= insert_entry(prev, d@.0, d@.1));
            },
        }
        match d.role {
            Some(Role::Id) => {
                id = Some(d.key.clone());
            },
            Some(Role::Display) => {
                display = Some(d.key.clone());
            },
            None => {},
        }
        i += 1;
    }
    assert(dv.take(decls.len() as int) =~= dv);
    proof {
        lemma_entries_of(dv, Role::Id);
        lemma_entries_of(dv, Role::Display);
    }
    match (id, display) {
        (Some(a), Some(b)) => Ok(Schema { entries, roles: Some((a, b)) }),
        (None, None) => {
            if require_roles {
                Err(SchemaError::MissingRequiredRole(Role::Id))
            } else {
                Ok(Schema { entries, roles: None })
            }
        },
        (None, Some(_)) => Err(SchemaError::MissingRequiredRole(Role::Id)),
        (Some(_), None) => Err(SchemaError::MissingRequiredRole(Role::Display)),
    }
}

/// Keys are unique and none takes a reserved name, and each role names a key of
/// the schema.
pub open spec fn schema_wf(v: SchemaView) -> bool {
    &&& keys_unique(v.entries)
    &&& forall|i: int| 0 <= i < v.entries.len() ==> !is_reserved_name(#[trigger] v.entries[i].0)
    &&& (v.roles matches Some((a, b)) ==> has_key(v.entries, a) && has_key(v.entries, b))
}

impl Schema {
    /// Keys are unique and each role names a key of the schema.
    pub open spec fn wf(&self) -> bool {
        schema_wf(self@)
    }

    pub fn copy(&self) -> (r: Schema)
        ensures
            r@ == self@,
    {
        let mut entries: Vec<KeyEntry> = Vec::new();
        let mut i: usize = 0;
        while i < self.entries.len()
            invariant
                i <= self.entries.len(),
                entries_view(entries@) =~= entries_view(self.entries@).take(i as int),
            decreases self.entries.len() - i,
        {
            let e = &self.entries[i];
            let params = copy_params(&e.params);
            let ne = KeyEntry { key: e.key.clone(), params };
            let ghost old_v = entries_view(entries@);
            entries.push(ne);
            assert(entries_view(entries@) =~= old_v.push(ne@));
            i += 1;
            assert(entries_view(entries@) =~= entries_view(self.entries@).take(i as int));
        }
        assert(entries_view(self.entries@).take(i as int) =~= entries_view(self.entries@));
        let roles = match &self.roles {
            Some((a, b)) => Some((a.clone(), b.clone())),
            None => None,
        };
        Schema { entries, roles }
    }

    /// The keys of the schema, in order of first declaration.
    pub fn entries(&self) -> (r: &Vec<KeyEntry>)
        ensures
            entries_view(r@) == self@.entries,
    {
        &self.entries
    }

    /// The keys tagged `id` and `display`, if the schema has roles.
    pub fn roles(&self) -> (r: &Option<(String, String)>)
        ensures
            roles_view(*r) == self@.roles,
    {
        &self.roles
    }
}

/// Parses and validates a key list. With `require_roles`, both `id` and `display`
/// must be tagged; otherwise a list may tag neither.
pub fn parse_schema(toks: &Vec<Token>, require_roles: bool) -> (r: Result<Schema, SchemaError>)
    ensures
        schema_result(r) == parsed_schema(toks@, require_roles),
        r matches Ok(s) ==> s.wf(),
{
    match parse_declarations(toks) {
        Ok(decls) => build_schema(&decls, require_roles),
        Err(e) => Err(e),
    }
}


/// Validates the key list of an indexable entity: both `id` and `display` must be
/// tagged.
pub fn generate_translation(toks: &Vec<Token>) -> (r: Result<Schema, SchemaError>)
    ensures
        schema_result(r) == parsed_schema(toks@, true),
        r matches Ok(s) ==> s.wf() && s@.roles is Some,
{
    parse_schema(toks, true)
}

} // verus!
