use vstd::prelude::*;

verus! {

/// Why a template could not be rendered. Each variant carries the formatter's message.
#[derive(Debug)]
pub enum FormatError {
    /// A `{` or `}` is unterminated or improperly nested.
    MalformedPlaceholder(String),
    /// A placeholder names an identifier that has no argument.
    UnknownPlaceholder(String),
    /// A placeholder carries a format specification that does not apply to text.
    UnsupportedSpec(String),
}

/// The named arguments as a map: a later entry for a name replaces an earlier one.
pub open spec fn args_map(args: Seq<(Seq<char>, Seq<char>)>) -> Map<Seq<char>, Seq<char>>
    decreases args.len(),
{
    if args.len() == 0 {
        Map::empty()
    } else {
        let last = args.last();
        args_map(args.drop_last()).insert(last.0, last.1)
    }
}

pub open spec fn pairs_view(args: Seq<(String, String)>) -> Seq<(Seq<char>, Seq<char>)> {
    args.map_values(|a: (String, String)| (a.0@, a.1@))
}

pub open spec fn has_braces(t: Seq<char>) -> bool {
    exists|i: int| 0 <= i < t.len() && (t[i] == '{' || t[i] == '}')
}

pub open spec fn result_view(r: Result<String, FormatError>) -> Result<Seq<char>, FormatError> {
    match r {
        Ok(s) => Ok(s@),
        Err(e) => Err(e),
    }
}

/// A successful rendering that is the template itself.
pub open spec fn copied(t: Seq<char>) -> Result<Seq<char>, FormatError> {
    Ok(t)
}

/// An unknown-placeholder error names, after `Invalid key: `, a key that the map
/// of arguments does not hold.
pub open spec fn names_absent_key(r: Result<String, FormatError>, vars: Map<Seq<char>, Seq<char>>) -> bool {
    r matches Err(FormatError::UnknownPlaceholder(m)) ==> exists|k: Seq<char>|
        m@ == "Invalid key: "@ + k && !vars.contains_key(k)
}

/// Where the placeholder name that starts at `i` ends: the first `}`, provided no
/// `{` or `:` comes before it.
pub open spec fn name_end(t: Seq<char>, i: int) -> Option<int>
    decreases t.len() - i,
{
    if i < 0 || i >= t.len() {
        None
    } else if t[i] == '}' {
        Some(i)
    } else if t[i] == '{' || t[i] == ':' {
        None
    } else {
        name_end(t, i + 1)
    }
}

/// From `i` on, each `{` opens a placeholder `{name}` with a non-empty name free of
/// `{`, `}` and `:`, and no other `}` occurs.
pub open spec fn simple_from(t: Seq<char>, i: int) -> bool
    decreases t.len() - i,
{
    if i < 0 || i >= t.len() {
        true
    } else if t[i] == '}' {
        false
    } else if t[i] == '{' {
        match name_end(t, i + 1) {
            Some(j) => i + 1 < j < t.len() && simple_from(t, j + 1),
            None => false,
        }
    } else {
        simple_from(t, i + 1)
    }
}

/// A simple template from `i` on with each placeholder replaced by the value of its
/// name, or `None` if some placeholder names a key that `vars` lacks.
pub open spec fn render_from(t: Seq<char>, i: int, vars: Map<Seq<char>, Seq<char>>) -> Option<Seq<char>>
    decreases t.len() - i,
{
    if i < 0 || i >= t.len() {
        Some(Seq::empty())
    } else if t[i] == '{' {
        match name_end(t, i + 1) {
            Some(j) => {
                if i + 1 < j < t.len() && vars.contains_key(t.subrange(i + 1, j)) {
                    match render_from(t, j + 1, vars) {
                        Some(r) => Some(vars[t.subrange(i + 1, j)] + r),
                        None => None,
                    }
                } else {
                    None
                }
            },
            None => None,
        }
    } else {
        match render_from(t, i + 1, vars) {
            Some(r) => Some(seq![t[i]] + r),
            None => None,
        }
    }
}

/// On a simple template: the rendering when every name has a value, else an
/// unknown-placeholder error.
pub open spec fn renders_simply(r: Result<String, FormatError>, t: Seq<char>, vars: Map<Seq<char>, Seq<char>>) -> bool {
    simple_from(t, 0) ==> match render_from(t, 0, vars) {
        Some(out) => r matches Ok(s) && s@ == out,
        None => r is Err && r->Err_0 is UnknownPlaceholder,
    }
}

/// Some placeholder of the template, from `i` on, names a key that `vars` lacks.
pub open spec fn refers_to_absent(t: Seq<char>, i: int, vars: Map<Seq<char>, Seq<char>>) -> bool {
    exists|p: int| i <= p < t.len() && #[trigger] absent_at(t, p, vars)
}

/// A placeholder opens at `p` and names a key that `vars` lacks.
pub open spec fn absent_at(t: Seq<char>, p: int, vars: Map<Seq<char>, Seq<char>>) -> bool {
    &&& 0 <= p < t.len()
    &&& t[p] == '{'
    &&& match name_end(t, p + 1) {
        Some(j) => !vars.contains_key(t.subrange(p + 1, j)),
        None => false,
    }
}

/// What strfmt makes of a template and a map of named arguments.
pub uninterp spec fn strfmt_of(template: Seq<char>, vars: Map<Seq<char>, Seq<char>>) -> Result<
    Seq<char>,
    FormatError,
>;

/// Relies on strfmt::strfmt: the result is a function of the template and of the
/// map of arguments; a template without `{` or `}` is copied unchanged (its
/// scanning loop pushes every other character and ends without error); and a
/// `KeyError` is raised only for a placeholder key that the map lacks, with the
/// message `Invalid key: ` and that key. On a template whose placeholders are all
/// plain `{name}` (no format spec, no `{{` or `}}`), the loop copies the other
/// characters and writes each value in full (an empty spec gives no width or
/// precision), failing with `KeyError` at the first name the map lacks.
#[verifier::external_body]
fn call_strfmt(template: &str, args: &Vec<(String, String)>) -> (r: Result<String, FormatError>)
    ensures
        result_view(r) == strfmt_of(template@, args_map(pairs_view(args@))),
        !has_braces(template@) ==> result_view(r) == copied(template@),
        names_absent_key(r, args_map(pairs_view(args@))),
        renders_simply(r, template@, args_map(pairs_view(args@))),
{
    let vars: std::collections::HashMap<String, String> = args.iter().cloned().collect();
    match strfmt::strfmt(template, &vars) {
        Ok(s) => Ok(s),
        Err(strfmt::FmtError::Invalid(m)) => Err(FormatError::MalformedPlaceholder(m)),
        Err(strfmt::FmtError::KeyError(m)) => Err(FormatError::UnknownPlaceholder(m)),
        Err(strfmt::FmtError::TypeError(m)) => Err(FormatError::UnsupportedSpec(m)),
    }
}

/// Substitutes each `{name}` placeholder of `template` with the value of `name`
/// in `args`. Arguments that no placeholder names are ignored.
pub fn format_template(template: &str, args: &Vec<(String, String)>) -> (r: Result<String, FormatError>)
    ensures
        result_view(r) == strfmt_of(template@, args_map(pairs_view(args@))),
        !has_braces(template@) ==> result_view(r) == copied(template@),
        names_absent_key(r, args_map(pairs_view(args@))),
        renders_simply(r, template@, args_map(pairs_view(args@))),
{
    call_strfmt(template, args)
}


/// On a simple template, an unknown-placeholder error comes exactly when some
/// placeholder names a key that has no value; otherwise every placeholder is
/// replaced by its value and the rest is kept.
pub proof fn lemma_unknown_iff_absent(t: Seq<char>, vars: Map<Seq<char>, Seq<char>>)
    requires
        simple_from(t, 0),
    ensures
        render_from(t, 0, vars) is None <==> refers_to_absent(t, 0, vars),
{
    lemma_render_none(t, 0, vars);
}

proof fn lemma_render_none(t: Seq<char>, i: int, vars: Map<Seq<char>, Seq<char>>)
    requires
        0 <= i,
        simple_from(t, i),
    ensures
        render_from(t, i, vars) is None <==> refers_to_absent(t, i, vars),
    decreases t.len() - i,
{
    if i < t.len() {
        if t[i] == '{' {
            let j = name_end(t, i + 1)->Some_0;
            assert(i + 1 < j < t.len() && simple_from(t, j + 1));
            lemma_render_none(t, j + 1, vars);
            if !vars.contains_key(t.subrange(i + 1, j)) {
                assert(absent_at(t, i, vars));
            }
            if refers_to_absent(t, i, vars) && vars.contains_key(t.subrange(i + 1, j)) {
                let p = choose|p: int| i <= p < t.len() && #[trigger] absent_at(t, p, vars);
                if p != i {
                    lemma_no_brace_in_name(t, i + 1, p);
                    assert(refers_to_absent(t, j + 1, vars));
                }
            }
            if refers_to_absent(t, j + 1, vars) {
                let p = choose|p: int| j + 1 <= p < t.len() && #[trigger] absent_at(t, p, vars);
                assert(i <= p);
            }
        } else {
            assert(simple_from(t, i + 1));
            assert(!absent_at(t, i, vars));
            lemma_render_none(t, i + 1, vars);
            if refers_to_absent(t, i, vars) {
                let p = choose|p: int| i <= p < t.len() && #[trigger] absent_at(t, p, vars);
                assert(p != i);
                assert(refers_to_absent(t, i + 1, vars));
            }
            if refers_to_absent(t, i + 1, vars) {
                let p = choose|p: int| i + 1 <= p < t.len() && #[trigger] absent_at(t, p, vars);
                assert(i <= p);
            }
        }
    }
}

/// A name holds no `{`: a `{` at `p` past the start of a name comes after its end.
proof fn lemma_no_brace_in_name(t: Seq<char>, i: int, p: int)
    requires
        0 <= i <= p < t.len(),
        t[p] == '{',
        name_end(t, i) is Some,
    ensures
        name_end(t, i)->Some_0 < p,
    decreases t.len() - i,
{
    if t[i] != '}' && t[i] != '{' && t[i] != ':' {
        lemma_no_brace_in_name(t, i + 1, p);
    }
}

} // verus!
