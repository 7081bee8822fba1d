//! How rt invokes Ruby: choosing the interpreter, describing it for the
//! cache, and the errors of starting it and of discovery.
use vstd::prelude::*;
use crate::error::RtError;
use crate::text::{copy_string, path_text, lossy_text, trim, trimmed, views, join};
use vstd::string::StringExecFns;
use vstd::string::StrSliceExecFns;
use vstd::utf8::encode_utf8;
use crate::json::hex_digit;

verus! {

/// How rt will invoke Ruby.
#[derive(Debug, Clone)]
pub struct RubyCommand {
    pub program: String,
    pub prep_args: Vec<String>,
    /// The Gemfile that `bundle exec` runs under, as path bytes.
    pub bundle_gemfile: Option<Vec<u8>>,
    /// When set, the child runs outside any Bundler or gem-path context.
    pub isolated: bool,
}

pub ghost struct RubyView {
    pub program: Seq<char>,
    pub prep_args: Seq<Seq<char>>,
    pub bundle_gemfile: Option<Seq<u8>>,
    pub isolated: bool,
}

impl View for RubyCommand {
    type V = RubyView;

    open spec fn view(&self) -> RubyView {
        RubyView {
            program: self.program@,
            prep_args: views(self.prep_args@),
            bundle_gemfile: match self.bundle_gemfile {
                Some(g) => Some(g@),
                None => None,
            },
            isolated: self.isolated,
        }
    }
}

/// Plain `ruby` on `PATH`.
pub open spec fn plain_ruby() -> RubyView {
    RubyView { program: "ruby"@, prep_args: seq![], bundle_gemfile: None, isolated: false }
}

/// Plain Ruby (`RT_RUBY` when set, else `ruby`) outside any Bundler or
/// gem-path context.
pub open spec fn isolated_ruby(rt_ruby: Option<Seq<char>>) -> RubyView {
    RubyView {
        program: match rt_ruby {
            Some(p) => p,
            None => "ruby"@,
        },
        prep_args: seq![],
        bundle_gemfile: None,
        isolated: true,
    }
}

/// The interpreter choice: `RT_RUBY` when set; else `bundle exec ruby` under
/// the Gemfile when there is one and `bundle` is available; else `ruby`.
pub open spec fn resolve_spec(rt_ruby: Option<Seq<char>>, gemfile: Option<Seq<u8>>, bundle_available: bool) -> RubyView {
    match rt_ruby {
        Some(p) => RubyView { program: p, prep_args: seq![], bundle_gemfile: None, isolated: false },
        None => match gemfile {
            Some(g) => if bundle_available {
                RubyView { program: "bundle"@, prep_args: seq!["exec"@, "ruby"@], bundle_gemfile: Some(g), isolated: false }
            } else {
                plain_ruby()
            },
            None => plain_ruby(),
        },
    }
}

/// The text recorded in the cache for an interpreter: program, arguments,
/// and ` @` with the Gemfile path when bundled, ` [unbundled]` otherwise.
pub open spec fn describe_spec(r: RubyView) -> Seq<char> {
    let base = join(seq![r.program] + r.prep_args, " "@);
    match r.bundle_gemfile {
        Some(g) => base + " @"@ + lossy_text(g),
        None => base + " [unbundled]"@,
    }
}

/// The warning shown when a Gemfile exists but `bundle` does not.
pub open spec fn missing_bundle_warning() -> Seq<char> {
    "found a Gemfile but `bundle` is not on PATH; falling back to plain ruby"@
}

fn bytes_copy(v: &Vec<u8>) -> (r: Vec<u8>)
    ensures
        r@ == v@,
{
    let mut r: Vec<u8> = Vec::new();
    let mut i: usize = 0;
    while i < v.len()
        invariant
            i <= v@.len(),
            r@ == v@.take(i as int),
        decreases v@.len() - i,
    {
        r.push(v[i]);
        assert(v@.take(i + 1) =~= v@.take(i as int).push(v@[i as int]));
        i = i + 1;
    }
    assert(v@.take(i as int) =~= v@);
    r
}

impl RubyCommand {
    /// Resolution order: `RT_RUBY`, then `bundle exec ruby` when a Gemfile
    /// is present and `bundle` runs, then plain `ruby`. Also returns the
    /// warning to show when a Gemfile is present but `bundle` is not.
    pub fn resolve(rt_ruby: Option<String>, gemfile: Option<Vec<u8>>, bundle_available: bool) -> (r: (RubyCommand, Option<String>))
        ensures
            r.0@ == resolve_spec(
                match rt_ruby { Some(p) => Some(p@), None => None },
                match gemfile { Some(g) => Some(g@), None => None },
                bundle_available,
            ),
            r.1 is Some <==> (rt_ruby is None && gemfile is Some && !bundle_available),
            r.1 matches Some(w) ==> w@ == missing_bundle_warning(),
    {
        if let Some(explicit) = rt_ruby {
            let r = RubyCommand { program: explicit, prep_args: Vec::new(), bundle_gemfile: None, isolated: false };
            assert(views(r.prep_args@) =~= seq![]);
            return (r, None);
        }
        match gemfile {
            Some(g) => {
                if bundle_available {
                    let mut prep_args: Vec<String> = Vec::new();
                    prep_args.push(String::from_str("exec"));
                    prep_args.push(String::from_str("ruby"));
                    let r = RubyCommand {
                        program: String::from_str("bundle"),
                        prep_args,
                        bundle_gemfile: Some(g),
                        isolated: false,
                    };
                    assert(views(r.prep_args@) =~= seq!["exec"@, "ruby"@]);
                    (r, None)
                } else {
                    let warning = String::from_str("found a Gemfile but `bundle` is not on PATH; falling back to plain ruby");
                    (RubyCommand::plain(), Some(warning))
                }
            },
            None => (RubyCommand::plain(), None),
        }
    }

    /// Plain `ruby` on `PATH`, no Bundler wrapping.
    pub fn plain() -> (r: RubyCommand)
        ensures
            r@ == plain_ruby(),
    {
        let r = RubyCommand { program: String::from_str("ruby"), prep_args: Vec::new(), bundle_gemfile: None, isolated: false };
        assert(views(r.prep_args@) =~= seq![]);
        r
    }

    /// Plain Ruby outside any inherited Bundler or gem-path context, for
    /// tasks that declare their own gems. Honours `RT_RUBY`.
    pub fn plain_isolated(rt_ruby: Option<String>) -> (r: RubyCommand)
        ensures
            r@ == isolated_ruby(match rt_ruby { Some(p) => Some(p@), None => None }),
    {
        let program = match rt_ruby {
            Some(p) => p,
            None => String::from_str("ruby"),
        };
        let r = RubyCommand { program, prep_args: Vec::new(), bundle_gemfile: None, isolated: true };
        assert(views(r.prep_args@) =~= seq![]);
        r
    }

    /// Whether this runs under `bundle exec`.
    pub fn is_bundle(&self) -> (r: bool)
        ensures
            r == self.bundle_gemfile is Some,
    {
        self.bundle_gemfile.is_some()
    }

    /// The program to start.
    pub fn program(&self) -> (r: &str)
        ensures
            r@ == self.program@,
    {
        self.program.as_str()
    }

    /// Stable text recorded in the cache; a change invalidates it.
    pub fn describe(&self) -> (r: String)
        ensures
            r@ == describe_spec(self@),
    {
        let mut s = copy_string(&self.program);
        let ghost all = seq![self.program@] + views(self.prep_args@);
        assert(all.take(1) =~= seq![self.program@]);
        let mut i: usize = 0;
        while i < self.prep_args.len()
            invariant
                i <= self.prep_args@.len(),
                all == seq![self.program@] + views(self.prep_args@),
                s@ == join(all.take(i + 1), " "@),
            decreases self.prep_args@.len() - i,
        {
            s.append(" ");
            s.append(self.prep_args[i].as_str());
            assert(all.take(i + 2).drop_last() =~= all.take(i + 1));
            assert(all[i + 1] == self.prep_args@[i as int]@);
            i = i + 1;
        }
        assert(all.take(i + 1) =~= all);
        match &self.bundle_gemfile {
            Some(g) => {
                s.append(" @");
                let text = path_text(g.as_slice());
                s.append(text.as_str());
            },
            None => {
                s.append(" [unbundled]");
            },
        }
        s
    }

    /// A copy of this command.
    pub fn copy(&self) -> (r: RubyCommand)
        ensures
            r@ == self@,
    {
        let gemfile = match &self.bundle_gemfile {
            Some(g) => Some(bytes_copy(g)),
            None => None,
        };
        RubyCommand {
            program: copy_string(&self.program),
            prep_args: crate::text::copy_strings(&self.prep_args),
            bundle_gemfile: gemfile,
            isolated: self.isolated,
        }
    }

    /// After discovery failed under this interpreter: a bundled interpreter
    /// is retried once as plain `ruby`, with a warning naming the failure;
    /// any other failure stands.
    pub fn fallback_after(&self, error: &RtError) -> (r: Option<(RubyCommand, String)>)
        ensures
            r is Some <==> self.bundle_gemfile is Some,
            r matches Some((cmd, warning)) ==> cmd@ == plain_ruby() && warning@ == "`bundle exec ruby` failed ("@
                + crate::error::error_text(*error) + "); retrying with plain ruby"@,
    {
        if self.is_bundle() {
            let mut warning = String::from_str("`bundle exec ruby` failed (");
            let text = error.to_text();
            warning.append(text.as_str());
            warning.append("); retrying with plain ruby");
            Some((RubyCommand::plain(), warning))
        } else {
            None
        }
    }
}

/// The error for a Ruby that could not be started.
pub open spec fn environment_error_text(program: Seq<char>, io_error: Seq<char>) -> Seq<char> {
    "could not start Ruby ("@ + program + "): "@ + io_error + ". Install Ruby or set RT_RUBY to a Ruby interpreter."@
}

/// The environment error for a Ruby that could not be started, given the
/// operating system's error text.
pub fn environment_error(ruby: &RubyCommand, io_error: &str) -> (r: RtError)
    ensures
        r matches RtError::Environment(m) && m@ == environment_error_text(ruby.program@, io_error@),
{
    let mut m = String::from_str("could not start Ruby (");
    m.append(ruby.program());
    m.append("): ");
    m.append(io_error);
    m.append(". Install Ruby or set RT_RUBY to a Ruby interpreter.");
    RtError::Environment(m)
}

/// The internal error for a harness that failed during discovery, carrying
/// its standard error without surrounding white space.
pub fn discovery_failure(stderr_text: &str) -> (r: RtError)
    ensures
        r matches RtError::Internal(m) && m@ == "harness failed during discovery: "@ + trimmed(stderr_text@),
{
    let mut m = String::from_str("harness failed during discovery: ");
    let t = trim(stderr_text);
    m.append(t.as_str());
    RtError::Internal(m)
}

/// The `.gitignore` rt keeps in a task home: it ignores only the generated
/// cache, harness and temporary files.
pub open spec fn generated_gitignore() -> Seq<char> {
    "/cache.json\n/harness-*.rb\n/*.tmp\n"@
}

/// What to write as the home's `.gitignore`: the generated patterns when
/// there is none or when it still holds the old catch-all `*`; nothing when
/// someone wrote their own.
pub fn gitignore_update(existing: Option<&str>) -> (r: Option<String>)
    ensures
        match existing {
            None => r matches Some(t) && t@ == generated_gitignore(),
            Some(e) => if e@ == "*\n"@ {
                r matches Some(t) && t@ == generated_gitignore()
            } else {
                r is None
            },
        },
{
    match existing {
        None => Some(String::from_str("/cache.json\n/harness-*.rb\n/*.tmp\n")),
        Some(e) => {
            if crate::text::str_eq(e, "*\n") {
                Some(String::from_str("/cache.json\n/harness-*.rb\n/*.tmp\n"))
            } else {
                None
            }
        },
    }
}

/// How to start Ruby on the harness: the program, its arguments before the
/// harness path, the Gemfile to name in `BUNDLE_GEMFILE`, and the
/// environment variables to remove.
#[derive(Debug, Clone)]
pub struct LaunchPlan {
    pub program: String,
    pub args: Vec<String>,
    pub gemfile: Option<Vec<u8>>,
    pub remove_env: Vec<Vec<u8>>,
}

/// The UTF-8 bytes of a variable name.
pub open spec fn env_key(name: Seq<char>) -> Seq<u8> {
    encode_utf8(name)
}

/// The inherited variables whose names begin with `BUNDLE_`, in order.
pub open spec fn bundler_keys(keys: Seq<Seq<u8>>) -> Seq<Seq<u8>>
    decreases keys.len(),
{
    if keys.len() == 0 {
        seq![]
    } else {
        let rest = bundler_keys(keys.drop_last());
        let k = keys.last();
        let p = env_key("BUNDLE_"@);
        if k.len() >= p.len() && k.take(p.len() as int) == p {
            rest.push(k)
        } else {
            rest
        }
    }
}

/// The variables removed for an interpreter, given the names of the
/// inherited variables: `RUBYOPT` and `RUBYLIB` always; for an isolated
/// Ruby also `BUNDLE_GEMFILE`, `GEM_HOME`, `GEM_PATH` and every `BUNDLE_*`.
pub open spec fn removed_env(r: RubyView, inherited: Seq<Seq<u8>>) -> Seq<Seq<u8>> {
    seq![env_key("RUBYOPT"@), env_key("RUBYLIB"@)] + if r.isolated {
        seq![env_key("BUNDLE_GEMFILE"@), env_key("GEM_HOME"@), env_key("GEM_PATH"@)] + bundler_keys(inherited)
    } else {
        seq![]
    }
}

fn bytes_of(s: &str) -> (r: Vec<u8>)
    ensures
        r@ == encode_utf8(s@),
{
    let b = s.as_bytes();
    let mut r: Vec<u8> = Vec::new();
    let mut i: usize = 0;
    while i < b.len()
        invariant
            i <= b@.len(),
            b@ == encode_utf8(s@),
            r@ == b@.take(i as int),
        decreases b@.len() - i,
    {
        r.push(b[i]);
        assert(b@.take(i + 1) =~= b@.take(i as int).push(b@[i as int]));
        i = i + 1;
    }
    assert(b@.take(i as int) =~= b@);
    r
}

fn has_byte_prefix(k: &Vec<u8>, p: &Vec<u8>) -> (r: bool)
    ensures
        r == (k@.len() >= p@.len() && k@.take(p@.len() as int) == p@),
{
    if k.len() < p.len() {
        return false;
    }
    let mut i: usize = 0;
    while i < p.len()
        invariant
            i <= p@.len(),
            p@.len() <= k@.len(),
            forall|j: int| 0 <= j < i ==> k@[j] == p@[j],
        decreases p@.len() - i,
    {
        if k[i] != p[i] {
            assert(k@.take(p@.len() as int)[i as int] != p@[i as int]);
            return false;
        }
        i = i + 1;
    }
    assert(k@.take(p@.len() as int) =~= p@);
    true
}

impl RubyCommand {
    /// How to start this interpreter, given the names of the variables the
    /// process inherits.
    pub fn launch_plan(&self, inherited: &Vec<Vec<u8>>) -> (r: LaunchPlan)
        ensures
            r.program@ == self@.program,
            views(r.args@) == self@.prep_args,
            (match r.gemfile { Some(g) => Some(g@), None => None }) == (if self.isolated {
                None
            } else {
                self@.bundle_gemfile
            }),
            r.remove_env@.map_values(|k: Vec<u8>| k@) == removed_env(self@, inherited@.map_values(|k: Vec<u8>| k@)),
    {
        let copy = self.copy();
        let gemfile = if self.isolated { None } else { copy.bundle_gemfile };
        let ghost keys = inherited@.map_values(|k: Vec<u8>| k@);
        let mut remove: Vec<Vec<u8>> = Vec::new();
        remove.push(bytes_of("RUBYOPT"));
        remove.push(bytes_of("RUBYLIB"));
        let ghost head = seq![env_key("RUBYOPT"@), env_key("RUBYLIB"@)];
        assert(remove@.map_values(|k: Vec<u8>| k@) =~= head);
        if self.isolated {
            remove.push(bytes_of("BUNDLE_GEMFILE"));
            remove.push(bytes_of("GEM_HOME"));
            remove.push(bytes_of("GEM_PATH"));
            let ghost fixed = head + seq![env_key("BUNDLE_GEMFILE"@), env_key("GEM_HOME"@), env_key("GEM_PATH"@)];
            assert(remove@.map_values(|k: Vec<u8>| k@) =~= fixed);
            let prefix = bytes_of("BUNDLE_");
            let mut i: usize = 0;
            while i < inherited.len()
                invariant
                    i <= inherited@.len(),
                    keys == inherited@.map_values(|k: Vec<u8>| k@),
                    prefix@ == env_key("BUNDLE_"@),
                    remove@.map_values(|k: Vec<u8>| k@) == fixed + bundler_keys(keys.take(i as int)),
                decreases inherited@.len() - i,
            {
                let ghost before = remove@;
                assert(keys.take(i + 1).drop_last() =~= keys.take(i as int));
                assert(keys[i as int] == inherited@[i as int]@);
                if has_byte_prefix(&inherited[i], &prefix) {
                    remove.push(bytes_copy(&inherited[i]));
                    assert(remove@.map_values(|k: Vec<u8>| k@) =~= before.map_values(|k: Vec<u8>| k@).push(keys[i as int]));
                }
                i = i + 1;
            }
            assert(keys.take(i as int) =~= keys);
        }
        LaunchPlan { program: copy.program, args: copy.prep_args, gemfile, remove_env: remove }
    }
}

/// The last `count` hexadecimal digits of `n`, most significant first.
pub open spec fn hex_digits(n: nat, count: nat) -> Seq<char>
    decreases count,
{
    if count == 0 {
        seq![]
    } else {
        hex_digits(n / 16, (count - 1) as nat).push(hex_digit(n % 16))
    }
}

/// The name of the harness file for a harness whose content hashes to
/// `hash`: `harness-`, the hash as sixteen hexadecimal digits, `.rb`.
pub open spec fn harness_file_spec(hash: u64) -> Seq<char> {
    "harness-"@ + hex_digits(hash as nat, 16) + ".rb"@
}

fn hex_char(d: u64) -> (c: char)
    requires
        d < 16,
    ensures
        c == hex_digit(d as nat),
{
    if d == 0 { '0' } else if d == 1 { '1' } else if d == 2 { '2' } else if d == 3 { '3' } else if d == 4 {
        '4'
    } else if d == 5 { '5' } else if d == 6 { '6' } else if d == 7 { '7' } else if d == 8 { '8' } else if d == 9 {
        '9'
    } else if d == 10 { 'a' } else if d == 11 { 'b' } else if d == 12 { 'c' } else if d == 13 { 'd' } else if d
        == 14 {
        'e'
    } else {
        'f'
    }
}

fn push_hex(out: &mut String, n: u64, count: usize)
    ensures
        final(out)@ == old(out)@ + hex_digits(n as nat, count as nat),
    decreases count,
{
    if count > 0 {
        push_hex(out, n / 16, count - 1);
        crate::text::push_char(out, hex_char(n % 16));
    } else {
        assert(old(out)@ + hex_digits(n as nat, 0) =~= old(out)@);
    }
}

/// The harness file name for a harness whose content hashes to `hash`.
pub fn harness_file_name(hash: u64) -> (r: String)
    ensures
        r@ == harness_file_spec(hash),
{
    let mut s = String::from_str("harness-");
    push_hex(&mut s, hash, 16);
    s.append(".rb");
    s
}

} // verus!
