//! Task-specific argument parsing: positional params, `--name value`,
//! `--name=value` and boolean `--flag` options, and `--dry-run`, validated
//! against the task's declared schema.
use vstd::prelude::*;
use crate::error::RtError;
use crate::json::{JsonVal, JsonValue, KeyedList};
use crate::metadata::{first_match, lemma_first_match_at, lemma_first_match_none, lemma_first_match_some, OptionType, OptionView,
    ParamView, Task, TaskOption, TaskView};
use crate::output::{usage_line, usage_text};
use crate::text::{
    copy_string, debug_quoted, debug_text, decimal, decimal_text, find_char, first_index_of, has_prefix,
    join, join_strings, parse_i64, parse_i64_spec, starts_with, str_eq, substring, views,
};
use vstd::string::StrSliceExecFns;
use vstd::string::StringExecFns;

verus! {

/// Params and options as the task will receive them, plus the dry-run flag.
#[derive(Debug, Clone)]
pub struct ParsedArgs {
    pub params: KeyedList<JsonValue>,
    pub options: KeyedList<JsonValue>,
    pub dry_run: bool,
}

pub ghost struct ParsedView {
    pub params: Map<Seq<char>, JsonVal>,
    pub options: Map<Seq<char>, JsonVal>,
    pub dry_run: bool,
}

impl View for ParsedArgs {
    type V = ParsedView;

    open spec fn view(&self) -> ParsedView {
        ParsedView { params: self.params@, options: self.options@, dry_run: self.dry_run }
    }
}

impl ParsedArgs {
    /// Both maps hold distinct keys.
    pub open spec fn wf(&self) -> bool {
        self.params.wf() && self.options.wf()
    }
}

/// Why a command line does not fit a task's schema.
#[derive(Debug, Clone)]
pub enum ArgError {
    UnknownOption { name: String },
    InvalidBoolean { name: String, value: String },
    InvalidInteger { name: String, value: String },
    OutOfRange { name: String, value: i64, minimum: Option<i64>, maximum: Option<i64> },
    MissingValue { name: String },
    UnexpectedArgument { value: String },
    NotAllowed { value: String, param: String, allowed: Vec<String> },
    MissingRequired { param: String },
}

pub ghost enum ArgFailure {
    UnknownOption { name: Seq<char> },
    InvalidBoolean { name: Seq<char>, value: Seq<char> },
    InvalidInteger { name: Seq<char>, value: Seq<char> },
    OutOfRange { name: Seq<char>, value: i64, minimum: Option<i64>, maximum: Option<i64> },
    MissingValue { name: Seq<char> },
    UnexpectedArgument { value: Seq<char> },
    NotAllowed { value: Seq<char>, param: Seq<char>, allowed: Seq<Seq<char>> },
    MissingRequired { param: Seq<char> },
}

impl View for ArgError {
    type V = ArgFailure;

    open spec fn view(&self) -> ArgFailure {
        match self {
            ArgError::UnknownOption { name } => ArgFailure::UnknownOption { name: name@ },
            ArgError::InvalidBoolean { name, value } => ArgFailure::InvalidBoolean { name: name@, value: value@ },
            ArgError::InvalidInteger { name, value } => ArgFailure::InvalidInteger { name: name@, value: value@ },
            ArgError::OutOfRange { name, value, minimum, maximum } => ArgFailure::OutOfRange {
                name: name@,
                value: *value,
                minimum: *minimum,
                maximum: *maximum,
            },
            ArgError::MissingValue { name } => ArgFailure::MissingValue { name: name@ },
            ArgError::UnexpectedArgument { value } => ArgFailure::UnexpectedArgument { value: value@ },
            ArgError::NotAllowed { value, param, allowed } => ArgFailure::NotAllowed {
                value: value@,
                param: param@,
                allowed: views(allowed@),
            },
            ArgError::MissingRequired { param } => ArgFailure::MissingRequired { param: param@ },
        }
    }
}

/// The boolean words an explicit `--flag=value` accepts.
pub open spec fn parse_bool_spec(s: Seq<char>) -> Option<bool> {
    if s == "true"@ || s == "1"@ || s == "yes"@ {
        Some(true)
    } else if s == "false"@ || s == "0"@ || s == "no"@ {
        Some(false)
    } else {
        None
    }
}

/// Whether an integer lies within an option's declared bounds.
pub open spec fn within_range(o: OptionView, n: i64) -> bool {
    (o.minimum matches Some(lo) ==> lo <= n) && (o.maximum matches Some(hi) ==> n <= hi)
}

/// The names of a list of options.
pub open spec fn option_names(options: Seq<OptionView>) -> Seq<Seq<char>> {
    options.map_values(|o: OptionView| o.name)
}

/// The option name in `--name` or `--name=value`.
pub open spec fn flag_name(body: Seq<char>) -> Seq<char> {
    match first_index_of(body, '=') {
        Some(k) => body.take(k),
        None => body,
    }
}

/// The inline value in `--name=value`.
pub open spec fn flag_inline(body: Seq<char>) -> Option<Seq<char>> {
    match first_index_of(body, '=') {
        Some(k) => Some(body.skip(k + 1)),
        None => None,
    }
}

pub ghost struct ScanState {
    pub options: Map<Seq<char>, JsonVal>,
    pub positionals: Seq<Seq<char>>,
    pub dry_run: bool,
}

/// The value of the option `o` named `name` at token `i`, and the token
/// after it: a boolean is `true` or its explicit word; a string or integer
/// takes the inline value or the next token; an integer must parse and lie
/// within the declared bounds.
pub open spec fn value_outcome(o: OptionView, name: Seq<char>, inline: Option<Seq<char>>, raw: Seq<Seq<char>>, i: int) -> Result<(int, JsonVal), ArgFailure> {
    if o.option_type == OptionType::Boolean {
        match inline {
            None => Ok((i + 1, JsonVal::Bool(true))),
            Some(v) => match parse_bool_spec(v) {
                Some(b) => Ok((i + 1, JsonVal::Bool(b))),
                None => Err(ArgFailure::InvalidBoolean { name, value: v }),
            },
        }
    } else if inline is None && i + 1 >= raw.len() {
        Err(ArgFailure::MissingValue { name })
    } else {
        let v = match inline {
            Some(v) => v,
            None => raw[i + 1],
        };
        let next = if inline is Some { i + 1 } else { i + 2 };
        if o.option_type == OptionType::Integer {
            match parse_i64_spec(v) {
                None => Err(ArgFailure::InvalidInteger { name, value: v }),
                Some(n) => if within_range(o, n) {
                    Ok((next, JsonVal::Int(n)))
                } else {
                    Err(ArgFailure::OutOfRange { name, value: n, minimum: o.minimum, maximum: o.maximum })
                },
            }
        } else {
            Ok((next, JsonVal::Str(v)))
        }
    }
}

/// The effect of the `--name` or `--name=value` token at `i`: the first
/// declared option of that name is set, or the name is unknown.
pub open spec fn flag_outcome(options: Seq<OptionView>, raw: Seq<Seq<char>>, i: int, st: ScanState) -> Result<(int, ScanState), ArgFailure> {
    let body = raw[i].skip(2);
    let name = flag_name(body);
    match first_match(option_names(options), name) {
        None => Err(ArgFailure::UnknownOption { name }),
        Some(oi) => match value_outcome(options[oi], name, flag_inline(body), raw, i) {
            Err(e) => Err(e),
            Ok((j, v)) => Ok((j, ScanState { options: st.options.insert(name, v), ..st })),
        },
    }
}

/// Reads the command line from token `i` on: `--dry-run` sets the flag,
/// `--name` and `--name=value` set an option, and anything else is a
/// positional argument.
pub open spec fn scan(options: Seq<OptionView>, raw: Seq<Seq<char>>, i: int, st: ScanState) -> Result<ScanState, ArgFailure>
    decreases raw.len() - i,
{
    if i < 0 || i >= raw.len() {
        Ok(st)
    } else {
        let tok = raw[i];
        if tok == "--dry-run"@ {
            scan(options, raw, i + 1, ScanState { dry_run: true, ..st })
        } else if has_prefix(tok, "--"@) {
            match flag_outcome(options, raw, i, st) {
                Err(e) => Err(e),
                Ok((j, next)) => scan(options, raw, j, next),
            }
        } else {
            scan(options, raw, i + 1, ScanState { positionals: st.positionals.push(tok), ..st })
        }
    }
}

/// Binds positional arguments to params in declaration order from param
/// `idx` on: a supplied value must be one of the param's allowed values, if
/// it has any, and reaches the task as a string; a missing one is an error
/// for a required param and the declared default otherwise.
pub open spec fn bind_params(params: Seq<ParamView>, pos: Seq<Seq<char>>, idx: int, m: Map<Seq<char>, JsonVal>) -> Result<Map<Seq<char>, JsonVal>, ArgFailure>
    decreases params.len() - idx,
{
    if idx < 0 || idx >= params.len() {
        Ok(m)
    } else {
        let p = params[idx];
        if idx < pos.len() {
            let v = pos[idx];
            match p.enum_values {
                Some(allowed) => if allowed.contains(v) {
                    bind_params(params, pos, idx + 1, m.insert(p.name, JsonVal::Str(v)))
                } else {
                    Err(ArgFailure::NotAllowed { value: v, param: p.name, allowed })
                },
                None => bind_params(params, pos, idx + 1, m.insert(p.name, JsonVal::Str(v))),
            }
        } else if p.required {
            Err(ArgFailure::MissingRequired { param: p.name })
        } else {
            bind_params(params, pos, idx + 1, m.insert(p.name, p.default))
        }
    }
}

/// The value an option takes when the command line does not set it: its
/// declared default, or `false` for a boolean without one, or `null`.
pub open spec fn default_value(o: OptionView) -> JsonVal {
    if o.default != JsonVal::Null {
        o.default
    } else if o.option_type == OptionType::Boolean {
        JsonVal::Bool(false)
    } else {
        JsonVal::Null
    }
}

/// Gives each declared option from `idx` on that is not set yet its default.
pub open spec fn fill_defaults(options: Seq<OptionView>, idx: int, m: Map<Seq<char>, JsonVal>) -> Map<Seq<char>, JsonVal>
    decreases options.len() - idx,
{
    if idx < 0 || idx >= options.len() {
        m
    } else {
        let o = options[idx];
        let next = if m.contains_key(o.name) { m } else { m.insert(o.name, default_value(o)) };
        fill_defaults(options, idx + 1, next)
    }
}

/// The scan of a whole command line from an empty state.
pub open spec fn scan_all(t: TaskView, raw: Seq<Seq<char>>) -> Result<ScanState, ArgFailure> {
    scan(t.options, raw, 0, ScanState { options: Map::empty(), positionals: seq![], dry_run: false })
}

/// What a command line means for a task, or why it is refused. More
/// positional arguments than params is an error naming the first extra one.
pub open spec fn parse_spec(t: TaskView, raw: Seq<Seq<char>>) -> Result<ParsedView, ArgFailure> {
    match scan_all(t, raw) {
        Err(e) => Err(e),
        Ok(st) => if st.positionals.len() > t.params.len() {
            Err(ArgFailure::UnexpectedArgument { value: st.positionals[t.params.len() as int] })
        } else {
            match bind_params(t.params, st.positionals, 0, Map::empty()) {
                Err(e) => Err(e),
                Ok(pm) => Ok(ParsedView {
                    params: pm,
                    options: fill_defaults(t.options, 0, st.options),
                    dry_run: st.dry_run,
                }),
            }
        },
    }
}

/// How much a range message says about the bounds.
pub open spec fn range_text(minimum: Option<i64>, maximum: Option<i64>) -> Seq<char> {
    match (minimum, maximum) {
        (Some(lo), Some(hi)) => "must be within "@ + decimal(lo as int) + ".."@ + decimal(hi as int),
        (Some(lo), None) => "must be at least "@ + decimal(lo as int),
        (None, Some(hi)) => "must be at most "@ + decimal(hi as int),
        (None, None) => "is out of range"@,
    }
}

/// The first line of a usage error.
pub open spec fn failure_text(e: ArgFailure) -> Seq<char> {
    match e {
        ArgFailure::UnknownOption { name } => "unknown option --"@ + name,
        ArgFailure::InvalidBoolean { name, value } =>
            "option --"@ + name + " expects true or false, got "@ + debug_text(value),
        ArgFailure::InvalidInteger { name, value } =>
            "option --"@ + name + " expects an integer, got "@ + debug_text(value),
        ArgFailure::OutOfRange { name, value, minimum, maximum } =>
            "option --"@ + name + " "@ + range_text(minimum, maximum) + ", got "@ + decimal(value as int),
        ArgFailure::MissingValue { name } => "option --"@ + name + " requires a value"@,
        ArgFailure::UnexpectedArgument { value } => "unexpected argument "@ + debug_text(value),
        ArgFailure::NotAllowed { value, param, allowed } =>
            "argument "@ + debug_text(value) + " for <"@ + param + "> must be one of: "@ + join(allowed, ", "@),
        ArgFailure::MissingRequired { param } => "missing required argument <"@ + param + ">"@,
    }
}

/// The whole usage-error message: the failure, a blank line, and the usage.
pub open spec fn usage_error_text(e: ArgFailure, t: TaskView) -> Seq<char> {
    failure_text(e) + "\n\nusage: "@ + usage_text(t)
}

impl ArgError {
    /// The first line of the usage error this failure produces.
    pub fn describe(&self) -> (r: String)
        ensures
            r@ == failure_text(self@),
    {
        match self {
            ArgError::UnknownOption { name } => {
                let mut s = String::from_str("unknown option --");
                s.append(name.as_str());
                s
            },
            ArgError::InvalidBoolean { name, value } => {
                let mut s = String::from_str("option --");
                s.append(name.as_str());
                s.append(" expects true or false, got ");
                let q = debug_quoted(value.as_str());
                s.append(q.as_str());
                s
            },
            ArgError::InvalidInteger { name, value } => {
                let mut s = String::from_str("option --");
                s.append(name.as_str());
                s.append(" expects an integer, got ");
                let q = debug_quoted(value.as_str());
                s.append(q.as_str());
                s
            },
            ArgError::OutOfRange { name, value, minimum, maximum } => {
                let mut s = String::from_str("option --");
                s.append(name.as_str());
                s.append(" ");
                match (minimum, maximum) {
                    (Some(lo), Some(hi)) => {
                        s.append("must be within ");
                        let a = decimal_text(*lo);
                        s.append(a.as_str());
                        s.append("..");
                        let b = decimal_text(*hi);
                        s.append(b.as_str());
                    },
                    (Some(lo), None) => {
                        s.append("must be at least ");
                        let a = decimal_text(*lo);
                        s.append(a.as_str());
                    },
                    (None, Some(hi)) => {
                        s.append("must be at most ");
                        let b = decimal_text(*hi);
                        s.append(b.as_str());
                    },
                    (None, None) => {
                        s.append("is out of range");
                    },
                }
                s.append(", got ");
                let v = decimal_text(*value);
                s.append(v.as_str());
                s
            },
            ArgError::MissingValue { name } => {
                let mut s = String::from_str("option --");
                s.append(name.as_str());
                s.append(" requires a value");
                s
            },
            ArgError::UnexpectedArgument { value } => {
                let mut s = String::from_str("unexpected argument ");
                let q = debug_quoted(value.as_str());
                s.append(q.as_str());
                s
            },
            ArgError::NotAllowed { value, param, allowed } => {
                let mut s = String::from_str("argument ");
                let q = debug_quoted(value.as_str());
                s.append(q.as_str());
                s.append(" for <");
                s.append(param.as_str());
                s.append("> must be one of: ");
                let j = join_strings(allowed, ", ");
                s.append(j.as_str());
                s
            },
            ArgError::MissingRequired { param } => {
                let mut s = String::from_str("missing required argument <");
                s.append(param.as_str());
                s.append(">");
                s
            },
        }
    }

    /// The usage error for this failure: the failure, then the task's usage.
    pub fn into_usage_error(&self, task: &Task) -> (r: RtError)
        ensures
            r matches RtError::Usage(m) && m@ == usage_error_text(self@, task@),
    {
        let mut m = self.describe();
        m.append("\n\nusage: ");
        let u = usage_line(task);
        m.append(u.as_str());
        RtError::Usage(m)
    }
}

/// Interprets an explicit boolean value.
pub fn parse_bool(s: &str) -> (r: Option<bool>)
    ensures
        r == parse_bool_spec(s@),
{
    proof {
        reveal_strlit("true");
        reveal_strlit("1");
        reveal_strlit("yes");
        reveal_strlit("false");
        reveal_strlit("0");
        reveal_strlit("no");
    }
    if str_eq(s, "true") || str_eq(s, "1") || str_eq(s, "yes") {
        Some(true)
    } else if str_eq(s, "false") || str_eq(s, "0") || str_eq(s, "no") {
        Some(false)
    } else {
        None
    }
}

/// The position of the first declared option called `name`.
fn find_option(options: &Vec<TaskOption>, name: &str) -> (r: Option<usize>)
    ensures
        r is None <==> first_match(option_names(options@.map_values(|o: TaskOption| o@)), name@) is None,
        r matches Some(i) ==> first_match(option_names(options@.map_values(|o: TaskOption| o@)), name@)
            == Some(i as int) && i < options@.len(),
{
    let ghost names = option_names(options@.map_values(|o: TaskOption| o@));
    let mut i: usize = 0;
    while i < options.len()
        invariant
            i <= options@.len(),
            names == option_names(options@.map_values(|o: TaskOption| o@)),
            names.len() == options@.len(),
            forall|k: int| 0 <= k < i ==> names[k] != name@,
        decreases options@.len() - i,
    {
        assert(names[i as int] == options@[i as int].name@);
        if str_eq(options[i].name.as_str(), name) {
            proof { lemma_first_match_at(names, name@, i as int); }
            return Some(i);
        }
        i = i + 1;
    }
    proof { lemma_first_match_none(names, name@); }
    None
}

/// The value for a string or integer option: the inline value, or else the
/// next token (advancing `i` past it).
fn take_value(inline: Option<String>, raw: &[String], i: &mut usize) -> (r: Option<String>)
    requires
        *old(i) < raw@.len(),
    ensures
        inline is Some ==> r == inline && *final(i) == *old(i),
        inline is None && *old(i) + 1 < raw@.len() ==> (r matches Some(v) && v@ == raw@[*old(i) + 1]@)
            && *final(i) == *old(i) + 1,
        inline is None && *old(i) + 1 >= raw@.len() ==> r is None && *final(i) == *old(i),
        *final(i) < raw@.len(),
{
    if let Some(v) = inline {
        return Some(v);
    }
    if raw.len() - *i > 1 {
        *i = *i + 1;
        return Some(copy_string(&raw[*i]));
    }
    None
}

/// The value an option gets when the command line leaves it out.
pub fn default_option(opt: &TaskOption) -> (r: JsonValue)
    ensures
        r@ == default_value(opt@),
{
    if !opt.default.is_null() {
        return opt.default.copy();
    }
    match opt.option_type {
        OptionType::Boolean => JsonValue::Bool(false),
        _ => JsonValue::Null,
    }
}

/// Whether `v` is one of `allowed`.
fn contains_string(allowed: &Vec<String>, v: &str) -> (r: bool)
    ensures
        r == views(allowed@).contains(v@),
{
    let mut i: usize = 0;
    while i < allowed.len()
        invariant
            i <= allowed@.len(),
            forall|k: int| 0 <= k < i ==> allowed@[k]@ != v@,
        decreases allowed@.len() - i,
    {
        if str_eq(allowed[i].as_str(), v) {
            assert(views(allowed@)[i as int] == v@);
            return true;
        }
        i = i + 1;
    }
    assert forall|k: int| 0 <= k < views(allowed@).len() implies views(allowed@)[k] != v@ by {
        assert(views(allowed@)[k] == allowed@[k]@);
    }
    false
}

/// The state a scan has reached.
pub open spec fn scan_state(options: Map<Seq<char>, JsonVal>, positionals: Seq<String>, dry_run: bool) -> ScanState {
    ScanState { options, positionals: views(positionals), dry_run }
}

/// The value of `opt` (named `name`) for the flag token at `i`.
fn option_value(opt: &TaskOption, name: &String, inline: Option<String>, raw: &[String], i: usize) -> (r: Result<(usize, JsonValue), ArgError>)
    requires
        i < raw@.len(),
    ensures
        match value_outcome(opt@, name@, crate::metadata::opt_view(inline), views(raw@), i as int) {
            Ok((j, v)) => r matches Ok((k, w)) && k == j && w@ == v,
            Err(e) => r matches Err(err) && err@ == e,
        },
{
    let ghost toks = views(raw@);
    let ghost inline_view = crate::metadata::opt_view(inline);
    let count = raw.len();
    assert(i + 1 <= count);
    match opt.option_type {
        OptionType::Boolean => {
            match inline {
                None => Ok((i + 1, JsonValue::Bool(true))),
                Some(v) => match parse_bool(v.as_str()) {
                    Some(b) => Ok((i + 1, JsonValue::Bool(b))),
                    None => Err(ArgError::InvalidBoolean { name: copy_string(name), value: v }),
                },
            }
        },
        OptionType::Integer => {
            let mut j = i;
            let v = match take_value(inline, raw, &mut j) {
                Some(v) => v,
                None => {
                    return Err(ArgError::MissingValue { name: copy_string(name) });
                },
            };
            proof {
                if i + 1 < raw@.len() {
                    assert(toks[i + 1] == raw@[i + 1]@);
                }
            }
            assert(v@ == (match inline_view { Some(w) => w, None => toks[i + 1] }));
            let n = match parse_i64(v.as_str()) {
                Some(n) => n,
                None => {
                    return Err(ArgError::InvalidInteger { name: copy_string(name), value: v });
                },
            };
            let below = match opt.minimum {
                Some(lo) => n < lo,
                None => false,
            };
            let above = match opt.maximum {
                Some(hi) => n > hi,
                None => false,
            };
            if below || above {
                return Err(ArgError::OutOfRange {
                    name: copy_string(name),
                    value: n,
                    minimum: opt.minimum,
                    maximum: opt.maximum,
                });
            }
            Ok((j + 1, JsonValue::Int(n)))
        },
        OptionType::String => {
            let mut j = i;
            let v = match take_value(inline, raw, &mut j) {
                Some(v) => v,
                None => {
                    return Err(ArgError::MissingValue { name: copy_string(name) });
                },
            };
            proof {
                if i + 1 < raw@.len() {
                    assert(toks[i + 1] == raw@[i + 1]@);
                }
            }
            assert(v@ == (match inline_view { Some(w) => w, None => toks[i + 1] }));
            Ok((j + 1, JsonValue::Str(v)))
        },
    }
}

/// Handles the `--name` or `--name=value` token at `i`.
fn flag_step(task: &Task, raw: &[String], i: usize, options: &mut KeyedList<JsonValue>, Ghost(st): Ghost<ScanState>) -> (r: Result<usize, ArgError>)
    requires
        i < raw@.len(),
        old(options).wf(),
        st.options == old(options)@,
        has_prefix(raw@[i as int]@, "--"@),
    ensures
        final(options).wf(),
        r matches Ok(j) ==> flag_outcome(task@.options, views(raw@), i as int, st)
            == Ok::<(int, ScanState), ArgFailure>((j as int, ScanState { options: final(options)@, ..st })),
        r matches Err(e) ==> flag_outcome(task@.options, views(raw@), i as int, st) == Err::<(int, ScanState), ArgFailure>(e@),
{
    let ghost toks = views(raw@);
    let ghost opts_view = task@.options;
    let tok = &raw[i];
    assert(toks[i as int] == tok@);
    proof {
        reveal_strlit("--");
    }
    let len = tok.as_str().unicode_len();
    let body = substring(tok.as_str(), 2, len);
    assert(body@ =~= tok@.skip(2));
    let (name, inline) = match find_char(body.as_str(), '=') {
        Some(k) => (substring(body.as_str(), 0, k), Some(substring(body.as_str(), k + 1, body.as_str().unicode_len()))),
        None => (copy_string(&body), None),
    };
    assert(name@ =~= flag_name(body@));
    assert(crate::metadata::opt_view(inline) =~~= flag_inline(body@));
    let oi = match find_option(&task.options, name.as_str()) {
        Some(oi) => oi,
        None => {
            return Err(ArgError::UnknownOption { name });
        },
    };
    let opt = &task.options[oi];
    assert(opts_view[oi as int] == opt@);
    match option_value(opt, &name, inline, raw, i) {
        Ok((j, v)) => {
            options.insert(name, v);
            Ok(j)
        },
        Err(e) => Err(e),
    }
}

/// Reads the tokens into options, positionals and the dry-run flag.
fn scan_tokens(task: &Task, raw: &[String]) -> (r: Result<(KeyedList<JsonValue>, Vec<String>, bool), ArgError>)
    ensures
        match scan_all(task@, views(raw@)) {
            Ok(st) => r matches Ok((opts, pos, dry)) && opts.wf() && opts@ == st.options
                && views(pos@) == st.positionals && dry == st.dry_run,
            Err(e) => r matches Err(err) && err@ == e,
        },
{
    let ghost toks = views(raw@);
    let ghost opts_view = task@.options;
    let mut options: KeyedList<JsonValue> = KeyedList::new();
    let mut positionals: Vec<String> = Vec::new();
    let mut dry_run = false;
    assert(views(positionals@) =~= seq![]);
    let mut i: usize = 0;
    while i < raw.len()
        invariant
            i <= raw@.len(),
            toks == views(raw@),
            toks.len() == raw@.len(),
            opts_view == task@.options,
            options.wf(),
            scan_all(task@, toks) == scan(opts_view, toks, i as int, scan_state(options@, positionals@, dry_run)),
        decreases raw@.len() - i,
    {
        let ghost st = scan_state(options@, positionals@, dry_run);
        proof {
            reveal_strlit("--dry-run");
            reveal_strlit("--");
        }
        let tok = &raw[i];
        assert(toks[i as int] == tok@);
        if str_eq(tok.as_str(), "--dry-run") {
            dry_run = true;
            i = i + 1;
        } else if starts_with(tok.as_str(), "--") {
            match flag_step(task, raw, i, &mut options, Ghost(st)) {
                Ok(j) => {
                    assert(i < j);
                    i = j;
                },
                Err(e) => {
                    return Err(e);
                },
            }
        } else {
            positionals.push(copy_string(tok));
            assert(views(positionals@) =~= st.positionals.push(toks[i as int]));
            i = i + 1;
        }
    }
    Ok((options, positionals, dry_run))
}

/// Binds positionals to the task's params.
fn bind(task: &Task, positionals: &Vec<String>) -> (r: Result<KeyedList<JsonValue>, ArgError>)
    requires
        positionals@.len() <= task.params@.len(),
    ensures
        match bind_params(task@.params, views(positionals@), 0, Map::empty()) {
            Ok(m) => r matches Ok(p) && p.wf() && p@ == m,
            Err(e) => r matches Err(err) && err@ == e,
        },
{
    let ghost params = task@.params;
    let ghost pos = views(positionals@);
    let mut out: KeyedList<JsonValue> = KeyedList::new();
    let mut idx: usize = 0;
    while idx < task.params.len()
        invariant
            idx <= task.params@.len(),
            params == task@.params,
            params.len() == task.params@.len(),
            pos == views(positionals@),
            pos.len() == positionals@.len(),
            out.wf(),
            bind_params(params, pos, 0, Map::empty()) == bind_params(params, pos, idx as int, out@),
        decreases task.params@.len() - idx,
    {
        let param = &task.params[idx];
        assert(params[idx as int] == param@);
        if idx < positionals.len() {
            let raw_value = &positionals[idx];
            assert(pos[idx as int] == raw_value@);
            match &param.enum_values {
                Some(allowed) => {
                    if !contains_string(allowed, raw_value.as_str()) {
                        let mut copied: Vec<String> = crate::text::copy_strings(allowed);
                        return Err(ArgError::NotAllowed {
                            value: copy_string(raw_value),
                            param: copy_string(&param.name),
                            allowed: copied,
                        });
                    }
                },
                None => {},
            }
            out.insert(copy_string(&param.name), JsonValue::Str(copy_string(raw_value)));
        } else {
            if param.required {
                return Err(ArgError::MissingRequired { param: copy_string(&param.name) });
            }
            out.insert(copy_string(&param.name), param.default.copy());
        }
        idx = idx + 1;
    }
    Ok(out)
}

/// Parse task-specific params/options against a task's declared schema.
/// Every refusal is a usage error whose message ends with the task's usage.
pub fn parse(task: &Task, raw: &[String]) -> (r: Result<ParsedArgs, RtError>)
    ensures
        match parse_spec(task@, views(raw@)) {
            Ok(v) => r matches Ok(p) && p.wf() && p@ == v,
            Err(e) => r matches Err(RtError::Usage(m)) && m@ == usage_error_text(e, task@),
        },
{
    let (mut options, positionals, dry_run) = match scan_tokens(task, raw) {
        Ok(s) => s,
        Err(e) => {
            return Err(e.into_usage_error(task));
        },
    };
    if positionals.len() > task.params.len() {
        let extra = &positionals[task.params.len()];
        assert(views(positionals@)[task.params@.len() as int] == extra@);
        let e = ArgError::UnexpectedArgument { value: copy_string(extra) };
        return Err(e.into_usage_error(task));
    }
    let params = match bind(task, &positionals) {
        Ok(p) => p,
        Err(e) => {
            return Err(e.into_usage_error(task));
        },
    };
    let ghost opts_view = task@.options;
    let ghost target = fill_defaults(opts_view, 0, options@);
    let mut k: usize = 0;
    while k < task.options.len()
        invariant
            k <= task.options@.len(),
            opts_view == task@.options,
            opts_view.len() == task.options@.len(),
            options.wf(),
            target == fill_defaults(opts_view, k as int, options@),
        decreases task.options@.len() - k,
    {
        let opt = &task.options[k];
        assert(opts_view[k as int] == opt@);
        if !options.contains_key(opt.name.as_str()) {
            options.insert(copy_string(&opt.name), default_option(opt));
        }
        k = k + 1;
    }
    Ok(ParsedArgs { params, options, dry_run })
}

/// The names of a list of params.
pub open spec fn param_names(params: Seq<ParamView>) -> Seq<Seq<char>> {
    params.map_values(|p: ParamView| p.name)
}

proof fn lemma_scan_sets_declared(options: Seq<OptionView>, raw: Seq<Seq<char>>, i: int, st: ScanState)
    requires
        forall|k: Seq<char>| #[trigger] st.options.contains_key(k) ==> option_names(options).contains(k),
    ensures
        scan(options, raw, i, st) matches Ok(out) ==> forall|k: Seq<char>| #[trigger] out.options.contains_key(k)
            ==> option_names(options).contains(k),
    decreases raw.len() - i,
{
    if 0 <= i < raw.len() {
        let tok = raw[i];
        if tok == "--dry-run"@ {
            lemma_scan_sets_declared(options, raw, i + 1, ScanState { dry_run: true, ..st });
        } else if has_prefix(tok, "--"@) {
            let body = raw[i].skip(2);
            let name = flag_name(body);
            lemma_first_match_some(option_names(options), name);
            match flag_outcome(options, raw, i, st) {
                Ok((j, next)) => {
                    let oi = first_match(option_names(options), name)->Some_0;
                    assert(option_names(options)[oi] == name);
                    assert forall|k: Seq<char>| #[trigger] next.options.contains_key(k) implies option_names(options).contains(k) by {
                        if k == name {
                            assert(option_names(options)[oi] == k);
                        } else {
                            assert(st.options.contains_key(k));
                        }
                    }
                    lemma_scan_sets_declared(options, raw, j, next);
                },
                Err(_) => {},
            }
        } else {
            lemma_scan_sets_declared(options, raw, i + 1, ScanState { positionals: st.positionals.push(tok), ..st });
        }
    }
}

proof fn lemma_fill_defaults_keys(options: Seq<OptionView>, idx: int, m: Map<Seq<char>, JsonVal>)
    requires
        0 <= idx <= options.len(),
    ensures
        forall|k: Seq<char>| #[trigger] fill_defaults(options, idx, m).contains_key(k) <==> (m.contains_key(k)
            || exists|j: int| idx <= j < options.len() && options[j].name == k),
    decreases options.len() - idx,
{
    if idx < options.len() {
        let o = options[idx];
        let next = if m.contains_key(o.name) { m } else { m.insert(o.name, default_value(o)) };
        lemma_fill_defaults_keys(options, idx + 1, next);
        assert(fill_defaults(options, idx, m) == fill_defaults(options, idx + 1, next));
        assert forall|k: Seq<char>| #[trigger] fill_defaults(options, idx, m).contains_key(k) <==> (m.contains_key(k)
            || exists|j: int| idx <= j < options.len() && options[j].name == k) by {
            assert(fill_defaults(options, idx + 1, next).contains_key(k) <==> (next.contains_key(k)
                || exists|j: int| idx + 1 <= j < options.len() && options[j].name == k));
            if fill_defaults(options, idx, m).contains_key(k) && !m.contains_key(k) {
                if next.contains_key(k) {
                    assert(options[idx].name == k);
                } else {
                    let j = choose|j: int| idx + 1 <= j < options.len() && options[j].name == k;
                    assert(idx <= j);
                }
            }
            if exists|j: int| idx <= j < options.len() && options[j].name == k {
                let j = choose|j: int| idx <= j < options.len() && options[j].name == k;
                if j == idx {
                    assert(next.contains_key(k));
                } else {
                    assert(idx + 1 <= j < options.len() && options[j].name == k);
                }
            }
        }
    }
}

proof fn lemma_bind_params_keys(params: Seq<ParamView>, pos: Seq<Seq<char>>, idx: int, m: Map<Seq<char>, JsonVal>)
    requires
        0 <= idx <= params.len(),
    ensures
        bind_params(params, pos, idx, m) matches Ok(out) ==> forall|k: Seq<char>| #[trigger] out.contains_key(k) <==> (
        m.contains_key(k) || exists|j: int| idx <= j < params.len() && params[j].name == k),
    decreases params.len() - idx,
{
    if idx < params.len() {
        let p = params[idx];
        let v = if idx < pos.len() { JsonVal::Str(pos[idx]) } else { p.default };
        let next = m.insert(p.name, v);
        lemma_bind_params_keys(params, pos, idx + 1, next);
        if let Ok(out) = bind_params(params, pos, idx, m) {
            assert(bind_params(params, pos, idx + 1, next) == Ok::<Map<Seq<char>, JsonVal>, ArgFailure>(out));
            assert forall|k: Seq<char>| #[trigger] out.contains_key(k) <==> (m.contains_key(k)
                || exists|j: int| idx <= j < params.len() && params[j].name == k) by {
                if out.contains_key(k) && !m.contains_key(k) {
                    if next.contains_key(k) {
                        assert(params[idx].name == k);
                    } else {
                        let j = choose|j: int| idx + 1 <= j < params.len() && params[j].name == k;
                        assert(idx <= j);
                    }
                }
                if exists|j: int| idx <= j < params.len() && params[j].name == k {
                    let j = choose|j: int| idx <= j < params.len() && params[j].name == k;
                    if j == idx {
                        assert(next.contains_key(k));
                    } else {
                        assert(idx + 1 <= j < params.len() && params[j].name == k);
                    }
                }
            }
        }
    }
}

/// An accepted command line gives the task exactly its declared options:
/// each one set from the command line or defaulted, and no other.
pub proof fn law_parsed_options_are_declared(t: TaskView, raw: Seq<Seq<char>>)
    ensures
        parse_spec(t, raw) matches Ok(v) ==> forall|k: Seq<char>| #[trigger] v.options.contains_key(k)
            <==> option_names(t.options).contains(k),
{
    let start = ScanState { options: Map::empty(), positionals: seq![], dry_run: false };
    lemma_scan_sets_declared(t.options, raw, 0, start);
    if let Ok(v) = parse_spec(t, raw) {
        let st = scan_all(t, raw)->Ok_0;
        lemma_fill_defaults_keys(t.options, 0, st.options);
        assert forall|k: Seq<char>| #[trigger] v.options.contains_key(k) <==> option_names(t.options).contains(k) by {
            if option_names(t.options).contains(k) {
                let j = choose|j: int| 0 <= j < option_names(t.options).len() && option_names(t.options)[j] == k;
                assert(t.options[j].name == k);
            }
            if v.options.contains_key(k) && !st.options.contains_key(k) {
                let j = choose|j: int| 0 <= j < t.options.len() && t.options[j].name == k;
                assert(option_names(t.options)[j] == k);
            }
        }
    }
}

/// An accepted command line gives the task exactly its declared params:
/// each one bound to a positional argument or defaulted, and no other.
pub proof fn law_parsed_params_are_declared(t: TaskView, raw: Seq<Seq<char>>)
    ensures
        parse_spec(t, raw) matches Ok(v) ==> forall|k: Seq<char>| #[trigger] v.params.contains_key(k)
            <==> param_names(t.params).contains(k),
{
    if let Ok(v) = parse_spec(t, raw) {
        let st = scan_all(t, raw)->Ok_0;
        lemma_bind_params_keys(t.params, st.positionals, 0, Map::empty());
        assert forall|k: Seq<char>| #[trigger] v.params.contains_key(k) <==> param_names(t.params).contains(k) by {
            if param_names(t.params).contains(k) {
                let j = choose|j: int| 0 <= j < param_names(t.params).len() && param_names(t.params)[j] == k;
                assert(t.params[j].name == k);
            }
            if v.params.contains_key(k) {
                let j = choose|j: int| 0 <= j < t.params.len() && t.params[j].name == k;
                assert(param_names(t.params)[j] == k);
            }
        }
    }
}

/// A token that never takes the token after it as a value: a positional
/// argument, `--dry-run`, an unknown option, a boolean option, or an option
/// given as `--name=value`.
pub open spec fn self_contained(options: Seq<OptionView>, tok: Seq<char>) -> bool {
    tok == "--dry-run"@ || !has_prefix(tok, "--"@) || match first_match(
        option_names(options),
        flag_name(tok.skip(2)),
    ) {
        None => true,
        Some(k) => options[k].option_type == OptionType::Boolean || flag_inline(tok.skip(2)) is Some,
    }
}

/// The tokens of `r1` from `i` on are the tokens of `r2` from `j` on.
pub open spec fn same_tail(r1: Seq<Seq<char>>, i: int, r2: Seq<Seq<char>>, j: int) -> bool {
    &&& 0 <= i <= r1.len()
    &&& 0 <= j <= r2.len()
    &&& r1.len() - i == r2.len() - j
    &&& forall|m: int| i <= m < r1.len() ==> #[trigger] r1[m] == r2[m - i + j]
}

/// Scanning depends only on the tokens from the current one on.
proof fn lemma_scan_suffix(options: Seq<OptionView>, r1: Seq<Seq<char>>, i: int, r2: Seq<Seq<char>>, j: int, st: ScanState)
    requires
        same_tail(r1, i, r2, j),
    ensures
        scan(options, r1, i, st) == scan(options, r2, j, st),
    decreases r1.len() - i,
{
    if i < r1.len() {
        assert(r1[i] == r2[j]);
        let tok = r1[i];
        if tok == "--dry-run"@ {
            lemma_scan_suffix(options, r1, i + 1, r2, j + 1, ScanState { dry_run: true, ..st });
        } else if has_prefix(tok, "--"@) {
            if i + 1 < r1.len() {
                assert(r1[i + 1] == r2[j + 1]);
            }
            let body = tok.skip(2);
            let name = flag_name(body);
            match first_match(option_names(options), name) {
                None => {},
                Some(oi) => {
                    match value_outcome(options[oi], name, flag_inline(body), r1, i) {
                        Err(_) => {},
                        Ok((n, v)) => {
                            let d = n - i;
                            assert(value_outcome(options[oi], name, flag_inline(body), r2, j) == Ok::<(int, JsonVal), ArgFailure>((j + d, v)));
                            lemma_scan_suffix(options, r1, n, r2, j + d, ScanState { options: st.options.insert(name, v), ..st });
                        },
                    }
                },
            }
        } else {
            lemma_scan_suffix(options, r1, i + 1, r2, j + 1, ScanState { positionals: st.positionals.push(tok), ..st });
        }
    }
}

proof fn lemma_first_index_at(s: Seq<char>, c: char, k: int)
    requires
        0 <= k < s.len(),
        s[k] == c,
        forall|j: int| 0 <= j < k ==> s[j] != c,
    ensures
        first_index_of(s, c) == Some(k),
{
    let w = choose|w: int| 0 <= w < s.len() && s[w] == c && forall|j: int| 0 <= j < w ==> s[j] != c;
    assert(0 <= w < s.len() && s[w] == c && forall|j: int| 0 <= j < w ==> s[j] != c);
    if w < k {
        assert(s[w] != c);
    } else if w > k {
        assert(s[k] != c);
    }
}

/// Whether `--name value` and `--name=value` can be compared: `name` is not
/// `dry-run` (which `--dry-run` always means), and the option that the
/// part of `name` before any `=` names, if there is one, takes a value and
/// is named by all of `name`.
pub open spec fn forms_comparable(options: Seq<OptionView>, name: Seq<char>) -> bool {
    &&& name != "dry-run"@
    &&& match first_match(option_names(options), flag_name(name)) {
        Some(k) => options[k].option_type != OptionType::Boolean && first_index_of(name, '=') is None,
        None => true,
    }
}

proof fn lemma_minimal_index(s: Seq<char>, c: char, k: int)
    requires
        0 <= k < s.len(),
        s[k] == c,
    ensures
        exists|m: int| 0 <= m < s.len() && s[m] == c && forall|j: int| 0 <= j < m ==> s[j] != c,
    decreases k,
{
    if exists|j: int| 0 <= j < k && s[j] == c {
        let j = choose|j: int| 0 <= j < k && s[j] == c;
        lemma_minimal_index(s, c, j);
    } else {
        assert(forall|j: int| 0 <= j < k ==> s[j] != c);
    }
}

proof fn lemma_first_index_some(s: Seq<char>, c: char)
    ensures
        match first_index_of(s, c) {
            Some(k) => 0 <= k < s.len() && s[k] == c && forall|j: int| 0 <= j < k ==> s[j] != c,
            None => forall|j: int| 0 <= j < s.len() ==> s[j] != c,
        },
{
    if exists|k: int| 0 <= k < s.len() && s[k] == c {
        let k = choose|k: int| 0 <= k < s.len() && s[k] == c;
        lemma_minimal_index(s, c, k);
    }
}

/// From token `p` on, `--name value` and `--name=value` scan alike, when
/// the tokens before them take no value from the token after.
#[verifier::rlimit(60)]
proof fn lemma_scan_forms(
    options: Seq<OptionView>,
    a: Seq<Seq<char>>,
    name: Seq<char>,
    v: Seq<char>,
    b: Seq<Seq<char>>,
    p: int,
    st: ScanState,
)
    requires
        forms_comparable(options, name),
        forall|q: int| 0 <= q < a.len() ==> self_contained(options, #[trigger] a[q]),
        0 <= p <= a.len(),
    ensures
        scan(options, a + seq!["--"@ + name, v] + b, p, st) == scan(options, a + seq!["--"@ + name + "="@ + v] + b, p, st),
    decreases a.len() - p,
{
    let r1 = a + seq!["--"@ + name, v] + b;
    let r2 = a + seq!["--"@ + name + "="@ + v] + b;
    reveal_strlit("--");
    reveal_strlit("=");
    reveal_strlit("--dry-run");
    reveal_strlit("dry-run");
    if p < a.len() {
        let tok = a[p];
        assert(r1[p] == tok && r2[p] == tok);
        assert(self_contained(options, tok));
        if tok == "--dry-run"@ {
            lemma_scan_forms(options, a, name, v, b, p + 1, ScanState { dry_run: true, ..st });
        } else if has_prefix(tok, "--"@) {
            let body = tok.skip(2);
            let nm = flag_name(body);
            match first_match(option_names(options), nm) {
                None => {},
                Some(oi) => {
                    assert(value_outcome(options[oi], nm, flag_inline(body), r1, p) == value_outcome(
                        options[oi],
                        nm,
                        flag_inline(body),
                        r2,
                        p,
                    ));
                    match value_outcome(options[oi], nm, flag_inline(body), r1, p) {
                        Err(_) => {},
                        Ok((n, val)) => {
                            assert(n == p + 1);
                            lemma_scan_forms(options, a, name, v, b, p + 1, ScanState { options: st.options.insert(nm, val), ..st });
                        },
                    }
                },
            }
        } else {
            lemma_scan_forms(options, a, name, v, b, p + 1, ScanState { positionals: st.positionals.push(tok), ..st });
        }
    } else {
        let t1 = "--"@ + name;
        let body2 = name + "="@ + v;
        let t2 = "--"@ + name + "="@ + v;
        assert(r1[p] == t1 && r1[p + 1] == v && r2[p] == t2);
        assert(t1.take(2) =~= "--"@ && t1.skip(2) =~= name);
        assert(t2.take(2) =~= "--"@ && t2.skip(2) =~= body2);
        assert(t1 != "--dry-run"@) by {
            if t1 == "--dry-run"@ {
                assert(t1.skip(2) =~= "dry-run"@);
            }
        }
        assert(body2[name.len() as int] == '=');
        assert(t2 != "--dry-run"@) by {
            if t2 == "--dry-run"@ {
                assert(t2[name.len() as int + 2] == '=');
            }
        }
        lemma_first_index_some(name, '=');
        match first_index_of(name, '=') {
            None => {
                assert forall|j: int| 0 <= j < name.len() implies body2[j] != '=' by {
                    assert(body2[j] == name[j]);
                }
                lemma_first_index_at(body2, '=', name.len() as int);
                assert(flag_name(name) == name);
                assert(flag_name(body2) =~= name);
            },
            Some(e) => {
                assert forall|j: int| 0 <= j < e implies body2[j] != '=' by {
                    assert(body2[j] == name[j]);
                }
                assert(body2[e] == name[e]);
                lemma_first_index_at(body2, '=', e);
                assert(flag_name(body2) =~= flag_name(name));
            },
        }
        let fname = flag_name(name);
        assert(flag_name(body2) == fname);
        match first_match(option_names(options), fname) {
            None => {},
            Some(k) => {
                assert(flag_inline(name) is None);
                assert(fname == name);
                assert(flag_inline(body2) == Some(v)) by {
                    assert(body2.skip(name.len() as int + 1) =~= v);
                }
                match value_outcome(options[k], name, None, r1, p) {
                    Err(_) => {
                        assert(value_outcome(options[k], name, Some(v), r2, p) == value_outcome(options[k], name, None, r1, p));
                    },
                    Ok((n, val)) => {
                        assert(n == p + 2);
                        assert(value_outcome(options[k], name, Some(v), r2, p) == Ok::<(int, JsonVal), ArgFailure>((p + 1, val)));
                        assert forall|m: int| p + 2 <= m < r1.len() implies #[trigger] r1[m] == r2[m - (p + 2) + (p + 1)] by {
                            assert(r1[m] == b[m - p - 2]);
                            assert(r2[m - 1] == b[m - p - 2]);
                        }
                        lemma_scan_suffix(options, r1, p + 2, r2, p + 1, ScanState { options: st.options.insert(name, val), ..st });
                    },
                }
            },
        }
    }
}

/// An option may be given as `--name value` or as `--name=value`: both
/// command lines parse to the same result, or fail with the same error,
/// when the tokens before the option take no value from the token after
/// them. Left out are `dry-run`, which `--dry-run` always means, a boolean
/// option, which takes no value, and a name with `=` whose part before the
/// `=` names an option; an unknown name fails alike in both forms.
pub proof fn law_option_forms_agree(t: TaskView, a: Seq<Seq<char>>, name: Seq<char>, v: Seq<char>, b: Seq<Seq<char>>)
    requires
        forms_comparable(t.options, name),
        forall|q: int| 0 <= q < a.len() ==> self_contained(t.options, #[trigger] a[q]),
    ensures
        parse_spec(t, a + seq!["--"@ + name, v] + b) == parse_spec(t, a + seq!["--"@ + name + "="@ + v] + b),
{
    let start = ScanState { options: Map::empty(), positionals: seq![], dry_run: false };
    lemma_scan_forms(t.options, a, name, v, b, 0, start);
}

/// Binding reaches a positional argument outside its param's allowed values
/// and refuses it there, unless an earlier argument was refused already.
proof fn lemma_bind_refuses_disallowed(params: Seq<ParamView>, pos: Seq<Seq<char>>, idx: int, m: Map<Seq<char>, JsonVal>, i: int)
    requires
        0 <= idx <= i,
        i < params.len(),
        i < pos.len(),
        params[i].enum_values matches Some(allowed) && !allowed.contains(pos[i]),
    ensures
        bind_params(params, pos, idx, m) matches Err(ArgFailure::NotAllowed { .. }),
    decreases i - idx,
{
    if idx < i {
        let p = params[idx];
        let next = m.insert(p.name, JsonVal::Str(pos[idx]));
        lemma_bind_refuses_disallowed(params, pos, idx + 1, next, i);
    }
}

/// A param with allowed values takes no other value, required or not: a
/// command line whose positional argument for such a param is not one of
/// them is refused, with `NotAllowed` unless it also has too many
/// positional arguments. So an accepted command line binds every such param
/// to one of its allowed values or to its default.
pub proof fn law_param_enum_enforced(t: TaskView, raw: Seq<Seq<char>>, i: int)
    requires
        scan_all(t, raw) is Ok,
        0 <= i < t.params.len(),
        i < scan_all(t, raw)->Ok_0.positionals.len(),
        t.params[i].enum_values matches Some(allowed) && !allowed.contains(scan_all(t, raw)->Ok_0.positionals[i]),
    ensures
        parse_spec(t, raw) is Err,
        scan_all(t, raw)->Ok_0.positionals.len() <= t.params.len() ==> parse_spec(t, raw) matches Err(
            ArgFailure::NotAllowed { .. },
        ),
{
    let st = scan_all(t, raw)->Ok_0;
    lemma_bind_refuses_disallowed(t.params, st.positionals, 0, Map::empty(), i);
}

} // verus!
