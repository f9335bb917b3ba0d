//! Entities of a schema and their accessors.
//!
//! Only keys with parameters have a fallible accessor: reading a plain key returns
//! its stored template and cannot fail, while rendering a parameterized key can
//! fail in the formatter. This is a deliberate choice, not an oversight.
use vstd::prelude::*;
use crate::format::{
    FormatError, args_map, pairs_view, strfmt_of, format_template, has_braces, simple_from, render_from,
};
use crate::schema::{
    EntryView, ParamView, Role, Schema, SchemaView, has_key, keys_unique, schema_wf, find_entry,
    entries_view,
};

verus! {

/// Why an accessor or a construction failed.
#[derive(Debug)]
pub enum ProviderError {
    /// The schema has no such key.
    UnknownKey,
    /// The key takes `expected` arguments and `given` were supplied.
    ArgumentCount { expected: usize, given: usize },
    /// Rendering the key's template failed.
    Format(FormatError),
    /// No template was supplied for this key.
    MissingField(String),
    /// The schema tags no key with `id` and `display`.
    RoleNotConfigured,
}

pub struct ProviderView {
    pub schema: SchemaView,
    pub templates: Seq<Seq<char>>,
}

/// An entity of a schema: one template per key, in the schema's key order.
pub struct TranslationProvider {
    schema: Schema,
    templates: Vec<String>,
}

impl View for TranslationProvider {
    type V = ProviderView;

    closed spec fn view(&self) -> ProviderView {
        ProviderView { schema: self.schema@, templates: self.templates@.map_values(|t: String| t@) }
    }
}

pub open spec fn provider_wf(v: ProviderView) -> bool {
    schema_wf(v.schema) && v.templates.len() == v.schema.entries.len()
}

/// Where `key` stands among the entries (meaningful when the key is present).
pub open spec fn key_pos(es: Seq<EntryView>, key: Seq<char>) -> int {
    choose|i: int| 0 <= i < es.len() && es[i].0 == key
}

/// The stored template of a key without parameters.
pub open spec fn plain_text(v: ProviderView, key: Seq<char>) -> Option<Seq<char>> {
    if has_key(v.schema.entries, key) && v.schema.entries[key_pos(v.schema.entries, key)].1.len() == 0 {
        Some(v.templates[key_pos(v.schema.entries, key)])
    } else {
        None
    }
}

/// Each parameter's name paired with the argument in the same position.
pub open spec fn named_args(params: Seq<ParamView>, args: Seq<Seq<char>>) -> Seq<(Seq<char>, Seq<char>)> {
    Seq::new(params.len(), |i: int| (params[i].0, args[i]))
}

/// What the accessor of `key` returns for the arguments `args`: a key without
/// parameters gives its template as stored; a key with parameters renders its
/// template with each parameter bound to its argument.
pub open spec fn format_outcome(v: ProviderView, key: Seq<char>, args: Seq<Seq<char>>) -> Result<Seq<char>, ProviderError> {
    if !has_key(v.schema.entries, key) {
        Err(ProviderError::UnknownKey)
    } else {
        let i = key_pos(v.schema.entries, key);
        let params = v.schema.entries[i].1;
        if params.len() != args.len() {
            Err(ProviderError::ArgumentCount { expected: params.len() as usize, given: args.len() as usize })
        } else if params.len() == 0 {
            Ok(v.templates[i])
        } else {
            match strfmt_of(v.templates[i], args_map(named_args(params, args))) {
                Ok(s) => Ok(s),
                Err(e) => Err(ProviderError::Format(e)),
            }
        }
    }
}

/// On a key with parameters whose template is simple (see `simple_from`), called
/// with one argument per parameter: each placeholder replaced by the argument of
/// the parameter it names, or an unknown-placeholder error when one names no
/// parameter.
pub open spec fn accessor_renders_simply(r: Result<String, ProviderError>, v: ProviderView, key: Seq<char>, args: Seq<Seq<char>>) -> bool {
    let i = key_pos(v.schema.entries, key);
    let params = v.schema.entries[i].1;
    has_key(v.schema.entries, key) && params.len() == args.len() && params.len() > 0 && simple_from(
        v.templates[i],
        0,
    ) ==> match render_from(v.templates[i], 0, args_map(named_args(params, args))) {
        Some(out) => r matches Ok(s) && s@ == out,
        None => r is Err && r->Err_0 is Format && r->Err_0->Format_0 is UnknownPlaceholder,
    }
}

/// The template of the key that holds `role`, if the schema has roles.
pub open spec fn role_text(v: ProviderView, role: Role) -> Option<Seq<char>> {
    match v.schema.roles {
        Some((a, b)) => {
            let k = if role == Role::Id { a } else { b };
            Some(v.templates[key_pos(v.schema.entries, k)])
        },
        None => None,
    }
}

/// The template supplied under `key`: the first pair that names it.
pub open spec fn field_value(fields: Seq<(Seq<char>, Seq<char>)>, key: Seq<char>) -> Option<Seq<char>>
    decreases fields.len(),
{
    if fields.len() == 0 {
        None
    } else if fields[0].0 == key {
        Some(fields[0].1)
    } else {
        field_value(fields.drop_first(), key)
    }
}

/// The templates of `es` taken from `fields` by key name, or the first key that has none.
pub open spec fn decode_fields(es: Seq<EntryView>, fields: Seq<(Seq<char>, Seq<char>)>) -> Result<
    Seq<Seq<char>>,
    Seq<char>,
>
    decreases es.len(),
{
    if es.len() == 0 {
        Ok(Seq::empty())
    } else {
        match decode_fields(es.drop_last(), fields) {
            Err(k) => Err(k),
            Ok(ts) => match field_value(fields, es.last().0) {
                Some(t) => Ok(ts.push(t)),
                None => Err(es.last().0),
            },
        }
    }
}

/// The fields of an entity under their key names, in the schema's key order.
pub open spec fn fields_of(v: ProviderView) -> Seq<(Seq<char>, Seq<char>)> {
    Seq::new(v.templates.len(), |i: int| (v.schema.entries[i].0, v.templates[i]))
}

pub open spec fn opt_view(r: Option<String>) -> Option<Seq<char>> {
    match r {
        Some(s) => Some(s@),
        None => None,
    }
}

pub open spec fn outcome_view(r: Result<String, ProviderError>) -> Result<Seq<char>, ProviderError> {
    match r {
        Ok(s) => Ok(s@),
        Err(e) => Err(e),
    }
}

pub open spec fn strings_view(s: Seq<String>) -> Seq<Seq<char>> {
    s.map_values(|t: String| t@)
}

proof fn lemma_key_pos(es: Seq<EntryView>, key: Seq<char>, j: int)
    requires
        keys_unique(es),
        0 <= j < es.len(),
        es[j].0 == key,
    ensures
        has_key(es, key),
        key_pos(es, key) == j,
{
    assert(es[j].0 == key);
    let c = key_pos(es, key);
    assert(0 <= c < es.len() && es[c].0 == key);
}

proof fn lemma_field_value(fields: Seq<(Seq<char>, Seq<char>)>, i: int)
    requires
        0 <= i < fields.len(),
        forall|a: int, b: int| 0 <= a < b < fields.len() ==> fields[a].0 != fields[b].0,
    ensures
        field_value(fields, fields[i].0) == Some(fields[i].1),
    decreases i,
{
    if i > 0 {
        let rest = fields.drop_first();
        assert(rest[i - 1] == fields[i]);
        assert(forall|a: int, b: int| 0 <= a < b < rest.len() ==> rest[a].0 == fields[a + 1].0 && rest[b].0 == fields[b + 1].0);
        lemma_field_value(rest, i - 1);
        assert(fields[0].0 != fields[i].0);
    }
}

proof fn lemma_decode_prefix(v: ProviderView, n: int)
    requires
        provider_wf(v),
        0 <= n <= v.templates.len(),
    ensures
        decode_fields(v.schema.entries.take(n), fields_of(v)) == Ok::<Seq<Seq<char>>, Seq<char>>(v.templates.take(n)),
    decreases n,
{
    let fields = fields_of(v);
    if n == 0 {
        assert(v.schema.entries.take(0) =~= Seq::<EntryView>::empty());
        assert(v.templates.take(0) =~= Seq::<Seq<char>>::empty());
    } else {
        lemma_decode_prefix(v, n - 1);
        assert(v.schema.entries.take(n).drop_last() =~= v.schema.entries.take(n - 1));
        assert(fields[n - 1].0 == v.schema.entries[n - 1].0);
        lemma_field_value(fields, n - 1);
        assert(v.templates.take(n - 1).push(v.templates[n - 1]) =~= v.templates.take(n));
    }
}

/// Writing an entity's templates out under their key names and reading them back
/// against the same schema gives the same templates, hence the same output from
/// every accessor.
pub proof fn lemma_fields_round_trip(v: ProviderView)
    requires
        provider_wf(v),
    ensures
        decode_fields(v.schema.entries, fields_of(v)) == Ok::<Seq<Seq<char>>, Seq<char>>(v.templates),
{
    lemma_decode_prefix(v, v.templates.len() as int);
    assert(v.schema.entries.take(v.templates.len() as int) =~= v.schema.entries);
    assert(v.templates.take(v.templates.len() as int) =~= v.templates);
}


pub open spec fn role_outcome(v: ProviderView, role: Role) -> Result<Seq<char>, ProviderError> {
    match role_text(v, role) {
        Some(t) => Ok(t),
        None => Err(ProviderError::RoleNotConfigured),
    }
}

/// Finds the first pair that names `key`.
fn find_field(fields: &Vec<(String, String)>, key: &String) -> (r: Option<usize>)
    ensures
        match r {
            Some(i) => i < fields.len() && field_value(pairs_view(fields@), key@) == Some(
                pairs_view(fields@)[i as int].1,
            ),
            None => field_value(pairs_view(fields@), key@) is None,
        },
{
    let ghost fv = pairs_view(fields@);
    let mut i: usize = 0;
    assert(fv.subrange(0, fv.len() as int) =~= fv);
    while i < fields.len()
        invariant
            i <= fields.len(),
            fv == pairs_view(fields@),
            field_value(fv, key@) == field_value(fv.subrange(i as int, fv.len() as int), key@),
        decreases fields.len() - i,
    {
        assert(fv.subrange(i as int, fv.len() as int).drop_first() =~= fv.subrange(i + 1, fv.len() as int));
        if fields[i].0 == *key {
            return Some(i);
        }
        i += 1;
    }
    None
}

impl TranslationProvider {
    pub open spec fn wf(&self) -> bool {
        provider_wf(self@)
    }

    /// The schema this entity was built for.
    pub fn schema(&self) -> (r: &Schema)
        ensures
            r@ == self@.schema,
    {
        &self.schema
    }

    /// Builds an entity from templates supplied under their key names. Pairs that
    /// name no key are ignored; where a name occurs twice the first pair counts.
    pub fn from_fields(schema: Schema, fields: &Vec<(String, String)>) -> (r: Result<TranslationProvider, ProviderError>)
        requires
            schema.wf(),
        ensures
            match decode_fields(schema@.entries, pairs_view(fields@)) {
                Ok(ts) => r matches Ok(p) && p.wf() && p@.schema == schema@ && p@.templates == ts,
                Err(k) => r matches Err(ProviderError::MissingField(m)) && m@ == k,
            },
    {
        let ghost es = schema@.entries;
        let ghost fv = pairs_view(fields@);
        let mut templates: Vec<String> = Vec::new();
        let n = schema.entries().len();
        let mut i: usize = 0;
        assert(es.take(0) =~= Seq::<EntryView>::empty());
        assert(strings_view(templates@) =~= Seq::<Seq<char>>::empty());
        while i < n
            invariant
                i <= n == es.len(),
                templates.len() == i,
                es == schema@.entries,
                fv == pairs_view(fields@),
                decode_fields(es.take(i as int), fv) == Ok::<Seq<Seq<char>>, Seq<char>>(strings_view(templates@)),
            decreases n - i,
        {
            let key = &schema.entries()[i].key;
            assert(es.take(i + 1).drop_last() =~= es.take(i as int));
            assert(es.take(i + 1).last() == es[i as int]);
            match find_field(fields, key) {
                Some(j) => {
                    let t = fields[j].1.clone();
                    let ghost old_t = strings_view(templates@);
                    templates.push(t);
                    assert(strings_view(templates@) =~= old_t.push(t@));
                },
                None => {
                    proof {
                        lemma_decode_missing(es, fv, i as int);
                    }
                    return Err(ProviderError::MissingField(key.clone()));
                },
            }
            i += 1;
        }
        assert(es.take(n as int) =~= es);
        let p = TranslationProvider { schema, templates };
        assert(p@.templates =~= strings_view(templates@));
        Ok(p)
    }

    /// The entity's templates under their key names, in the schema's key order.
    pub fn to_fields(&self) -> (r: Vec<(String, String)>)
        requires
            self.wf(),
        ensures
            pairs_view(r@) == fields_of(self@),
    {
        let entries = self.schema.entries();
        let mut r: Vec<(String, String)> = Vec::new();
        let mut i: usize = 0;
        while i < self.templates.len()
            invariant
                i <= self.templates.len() == entries.len(),
                entries_view(entries@) == self@.schema.entries,
                self.wf(),
                pairs_view(r@) =~= fields_of(self@).take(i as int),
            decreases self.templates.len() - i,
        {
            let pair = (entries[i].key.clone(), self.templates[i].clone());
            let ghost old_r = pairs_view(r@);
            r.push(pair);
            assert(pairs_view(r@) =~= old_r.push((pair.0@, pair.1@)));
            i += 1;
            assert(pairs_view(r@) =~= fields_of(self@).take(i as int));
        }
        assert(fields_of(self@).take(i as int) =~= fields_of(self@));
        r
    }

    /// The position of `key` in the schema.
    fn position(&self, key: &str) -> (r: Option<usize>)
        requires
            self.wf(),
        ensures
            match r {
                Some(i) => has_key(self@.schema.entries, key@) && i == key_pos(self@.schema.entries, key@),
                None => !has_key(self@.schema.entries, key@),
            },
    {
        let k = String::from_str(key);
        match find_entry(self.schema.entries(), &k) {
            Some(i) => {
                proof {
                    lemma_key_pos(self@.schema.entries, key@, i as int);
                }
                Some(i)
            },
            None => None,
        }
    }

    /// The template of a key that takes no parameters, exactly as stored; `None`
    /// when the schema has no such key or the key takes parameters.
    pub fn text(&self, key: &str) -> (r: Option<String>)
        requires
            self.wf(),
        ensures
            opt_view(r) == plain_text(self@, key@),
    {
        match self.position(key) {
            Some(i) => {
                if self.schema.entries()[i].params.len() == 0 {
                    Some(self.templates[i].clone())
                } else {
                    None
                }
            },
            None => None,
        }
    }

    /// The accessor of `key` called with `args`, each already in its string form.
    pub fn format(&self, key: &str, args: &Vec<String>) -> (r: Result<String, ProviderError>)
        requires
            self.wf(),
        ensures
            outcome_view(r) == format_outcome(self@, key@, strings_view(args@)),
            has_key(self@.schema.entries, key@) && !has_braces(
                self@.templates[key_pos(self@.schema.entries, key@)],
            ) && self@.schema.entries[key_pos(self@.schema.entries, key@)].1.len() == args.len()
                ==> outcome_view(r) == Ok::<Seq<char>, ProviderError>(
                self@.templates[key_pos(self@.schema.entries, key@)],
            ),
            r matches Err(ProviderError::Format(FormatError::UnknownPlaceholder(m))) ==> exists|k: Seq<char>|
                m@ == "Invalid key: "@ + k && !is_param_name(
                    self@.schema.entries[key_pos(self@.schema.entries, key@)].1,
                    k,
                ),
            accessor_renders_simply(r, self@, key@, strings_view(args@)),
    {
        let i = match self.position(key) {
            Some(i) => i,
            None => {
                return Err(ProviderError::UnknownKey);
            },
        };
        let params = &self.schema.entries()[i].params;
        if params.len() != args.len() {
            return Err(ProviderError::ArgumentCount { expected: params.len(), given: args.len() });
        }
        if params.len() == 0 {
            return Ok(self.templates[i].clone());
        }
        let mut named: Vec<(String, String)> = Vec::new();
        let mut j: usize = 0;
        let ghost pv = self@.schema.entries[i as int].1;
        while j < params.len()
            invariant
                j <= params.len() == args.len(),
                pv == crate::schema::params_view(params@),
                pairs_view(named@) =~= named_args(pv, strings_view(args@)).take(j as int),
            decreases params.len() - j,
        {
            let pair = (params[j].name.clone(), args[j].clone());
            let ghost old_n = pairs_view(named@);
            named.push(pair);
            assert(pairs_view(named@) =~= old_n.push((pair.0@, pair.1@)));
            j += 1;
            assert(pairs_view(named@) =~= named_args(pv, strings_view(args@)).take(j as int));
        }
        assert(named_args(pv, strings_view(args@)).take(j as int) =~= named_args(pv, strings_view(args@)));
        let res = format_template(self.templates[i].as_str(), &named);
        proof {
            lemma_args_map_domain(pairs_view(named@));
            assert forall|k: Seq<char>| is_param_name(pv, k) implies args_map(
                pairs_view(named@),
            ).contains_key(k) by {
                let j = choose|j: int| 0 <= j < pv.len() && pv[j].0 == k;
                assert(pairs_view(named@)[j].0 == k);
            }
        }
        match res {
            Ok(s) => Ok(s),
            Err(e) => Err(ProviderError::Format(e)),
        }
    }

    fn role_template(&self, role: Role) -> (r: Result<String, ProviderError>)
        requires
            self.wf(),
        ensures
            outcome_view(r) == role_outcome(self@, role),
    {
        match self.schema.roles() {
            Some((a, b)) => {
                let k = if role == Role::Id { a } else { b };
                match self.position(k.as_str()) {
                    Some(i) => Ok(self.templates[i].clone()),
                    None => Err(ProviderError::RoleNotConfigured),
                }
            },
            None => Err(ProviderError::RoleNotConfigured),
        }
    }

    /// The template of the key tagged `id`.
    pub fn reserved_id(&self) -> (r: Result<String, ProviderError>)
        requires
            self.wf(),
        ensures
            outcome_view(r) == role_outcome(self@, Role::Id),
    {
        self.role_template(Role::Id)
    }

    /// The template of the key tagged `display`.
    pub fn reserved_display(&self) -> (r: Result<String, ProviderError>)
        requires
            self.wf(),
        ensures
            outcome_view(r) == role_outcome(self@, Role::Display),
    {
        self.role_template(Role::Display)
    }
}

proof fn lemma_decode_missing(es: Seq<EntryView>, fv: Seq<(Seq<char>, Seq<char>)>, i: int)
    requires
        0 <= i < es.len(),
        decode_fields(es.take(i), fv) is Ok,
        field_value(fv, es[i].0) is None,
    ensures
        forall|n: int| i < n <= es.len() ==> decode_fields(es.take(n), fv) == Err::<Seq<Seq<char>>, Seq<char>>(es[i].0),
{
    assert forall|n: int| i < n <= es.len() implies decode_fields(es.take(n), fv) == Err::<Seq<Seq<char>>, Seq<char>>(es[i].0) by {
        lemma_decode_missing_at(es, fv, i, n);
    }
}

proof fn lemma_decode_missing_at(es: Seq<EntryView>, fv: Seq<(Seq<char>, Seq<char>)>, i: int, n: int)
    requires
        0 <= i < n <= es.len(),
        decode_fields(es.take(i), fv) is Ok,
        field_value(fv, es[i].0) is None,
    ensures
        decode_fields(es.take(n), fv) == Err::<Seq<Seq<char>>, Seq<char>>(es[i].0),
    decreases n,
{
    assert(es.take(n).drop_last() =~= es.take(n - 1));
    if n - 1 > i {
        lemma_decode_missing_at(es, fv, i, n - 1);
    } else {
        assert(es.take(n).last() == es[i]);
    }
}


/// The accessor of a key without parameters cannot fail: called with no arguments
/// it gives the stored template, and `text` gives the same.
pub proof fn lemma_plain_key_infallible(v: ProviderView, key: Seq<char>)
    requires
        provider_wf(v),
        has_key(v.schema.entries, key),
        v.schema.entries[key_pos(v.schema.entries, key)].1.len() == 0,
    ensures
        plain_text(v, key) == Some(v.templates[key_pos(v.schema.entries, key)]),
        format_outcome(v, key, Seq::empty()) == Ok::<Seq<char>, ProviderError>(
            v.templates[key_pos(v.schema.entries, key)],
        ),
{
}

proof fn lemma_args_map_binds(s: Seq<(Seq<char>, Seq<char>)>, i: int)
    requires
        0 <= i < s.len(),
        forall|a: int, b: int| 0 <= a < b < s.len() ==> s[a].0 != s[b].0,
    ensures
        args_map(s).contains_key(s[i].0),
        args_map(s)[s[i].0] == s[i].1,
    decreases s.len(),
{
    if i < s.len() - 1 {
        let rest = s.drop_last();
        assert(rest[i] == s[i]);
        assert(forall|a: int, b: int| 0 <= a < b < rest.len() ==> rest[a] == s[a] && rest[b] == s[b]);
        lemma_args_map_binds(rest, i);
        assert(s[i].0 != s.last().0);
    }
}

/// A parameterized key hands its template to the formatter with each declared
/// parameter bound to the string form of the argument in the same position
/// (parameter names being distinct), and returns the formatter's outcome unchanged.
pub proof fn lemma_parameters_bound(v: ProviderView, key: Seq<char>, args: Seq<Seq<char>>, k: int)
    requires
        provider_wf(v),
        has_key(v.schema.entries, key),
        v.schema.entries[key_pos(v.schema.entries, key)].1.len() == args.len(),
        args.len() > 0,
        0 <= k < args.len(),
        forall|a: int, b: int|
            0 <= a < b < args.len() ==> v.schema.entries[key_pos(v.schema.entries, key)].1[a].0
                != v.schema.entries[key_pos(v.schema.entries, key)].1[b].0,
    ensures
        ({
            let i = key_pos(v.schema.entries, key);
            let params = v.schema.entries[i].1;
            let vars = args_map(named_args(params, args));
            &&& vars.contains_key(params[k].0)
            &&& vars[params[k].0] == args[k]
            &&& format_outcome(v, key, args) == match strfmt_of(v.templates[i], vars) {
                Ok(s) => Ok(s),
                Err(e) => Err(ProviderError::Format(e)),
            }
        }),
{
    let params = v.schema.entries[key_pos(v.schema.entries, key)].1;
    let s = named_args(params, args);
    assert(s[k] == (params[k].0, args[k]));
    lemma_args_map_binds(s, k);
}


pub open spec fn is_param_name(params: Seq<ParamView>, k: Seq<char>) -> bool {
    exists|j: int| 0 <= j < params.len() && params[j].0 == k
}

proof fn lemma_args_map_domain(s: Seq<(Seq<char>, Seq<char>)>)
    ensures
        forall|k: Seq<char>|
            args_map(s).contains_key(k) <==> exists|j: int| 0 <= j < s.len() && (#[trigger] s[j]).0 == k,
    decreases s.len(),
{
    if s.len() > 0 {
        let rest = s.drop_last();
        lemma_args_map_domain(rest);
        assert forall|k: Seq<char>|
            args_map(s).contains_key(k) <==> exists|j: int| 0 <= j < s.len() && (#[trigger] s[j]).0 == k by {
            if args_map(s).contains_key(k) {
                if k == s.last().0 {
                    assert(s[s.len() - 1].0 == k);
                } else {
                    assert(args_map(rest).contains_key(k));
                    let j = choose|j: int| 0 <= j < rest.len() && (#[trigger] rest[j]).0 == k;
                    assert(s[j] == rest[j]);
                }
            }
            if exists|j: int| 0 <= j < s.len() && (#[trigger] s[j]).0 == k {
                let j = choose|j: int| 0 <= j < s.len() && (#[trigger] s[j]).0 == k;
                if j < s.len() - 1 {
                    assert(rest[j] == s[j]);
                    assert(args_map(rest).contains_key(k));
                }
                assert(args_map(s) == args_map(rest).insert(s.last().0, s.last().1));
            }
        }
    }
}

} // verus!
