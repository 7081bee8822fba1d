//! The machine-readable result of `rt run --json`: captured output streams,
//! completion status, exit code and structured error.
use vstd::prelude::*;
use vstd::utf8::{decode_utf8, valid_utf8};
use crate::error::{spec_exit_code, ExceptionDetail, RtError};
use crate::metadata::{error_views, LoadError, LoadErrorView};
use crate::text::{copy_string, copy_strings, decimal, decimal_text, views};
use vstd::string::StringExecFns;
use base64::Engine;

verus! {

/// Version of the run result schema.
pub const RUN_RESULT_SCHEMA_VERSION: u32 = 2;

/// How many raw bytes of each output stream a result keeps.
pub const CAPTURE_LIMIT: usize = 1048576;

/// The standard base64 alphabet.
pub open spec fn base64_char(v: int) -> char {
    if v < 26 {
        (65 + v) as char
    } else if v < 52 {
        (97 + v - 26) as char
    } else if v < 62 {
        (48 + v - 52) as char
    } else if v == 62 {
        '+'
    } else {
        '/'
    }
}

/// Standard base64 with `=` padding: every three bytes become four
/// characters of six bits each; a final one or two bytes are padded.
pub open spec fn base64_spec(s: Seq<u8>) -> Seq<char>
    decreases s.len(),
{
    let b0 = if s.len() > 0 { s[0] as int } else { 0 };
    let b1 = if s.len() > 1 { s[1] as int } else { 0 };
    let b2 = if s.len() > 2 { s[2] as int } else { 0 };
    if s.len() == 0 {
        seq![]
    } else if s.len() == 1 {
        seq![base64_char(b0 / 4), base64_char((b0 % 4) * 16), '=', '=']
    } else if s.len() == 2 {
        seq![base64_char(b0 / 4), base64_char((b0 % 4) * 16 + b1 / 16), base64_char((b1 % 16) * 4), '=']
    } else {
        seq![
            base64_char(b0 / 4),
            base64_char((b0 % 4) * 16 + b1 / 16),
            base64_char((b1 % 16) * 4 + b2 / 64),
            base64_char(b2 % 64),
        ] + base64_spec(s.skip(3))
    }
}

/// Encodes bytes as standard padded base64. Calls
/// `base64::engine::general_purpose::STANDARD.encode`, which the contract
/// states is RFC 4648 base64 with padding; the length bound keeps the
/// crate's output-size computation from overflowing, where it panics.
#[verifier::external_body]
fn base64_encode(bytes: &[u8]) -> (r: String)
    requires
        bytes@.len() / 3 * 4 + 4 <= usize::MAX,
    ensures
        r@ == base64_spec(bytes@),
{
    base64::engine::general_purpose::STANDARD.encode(bytes)
}

/// The text of bytes that are valid UTF-8. Calls `std::str::from_utf8`; the
/// contract states that it accepts exactly valid UTF-8 and decodes it.
#[verifier::external_body]
fn utf8_text(bytes: &[u8]) -> (r: Option<String>)
    ensures
        r is Some <==> valid_utf8(bytes@),
        r matches Some(s) ==> s@ == decode_utf8(bytes@),
{
    match std::str::from_utf8(bytes) {
        Ok(s) => Some(s.to_string()),
        Err(_) => None,
    }
}

/// The retained prefix of an output stream and the count of all its bytes.
#[derive(Debug, Clone)]
pub struct CapturedBytes {
    pub data: Vec<u8>,
    pub total_bytes: u64,
}

/// What capturing a whole stream keeps: its first `CAPTURE_LIMIT` bytes, and
/// its length.
pub open spec fn capture_of(stream: Seq<u8>) -> (Seq<u8>, nat) {
    (stream.take(if stream.len() <= CAPTURE_LIMIT { stream.len() as int } else { CAPTURE_LIMIT as int }), stream.len())
}

impl CapturedBytes {
    /// At most `CAPTURE_LIMIT` bytes are kept, and never more than were seen.
    pub open spec fn wf(&self) -> bool {
        self.data@.len() <= CAPTURE_LIMIT && self.data@.len() <= self.total_bytes
    }

    /// The kept bytes and the count, as a pair.
    pub open spec fn state(&self) -> (Seq<u8>, nat) {
        (self.data@, self.total_bytes as nat)
    }

    /// Nothing captured yet.
    pub fn empty() -> (r: CapturedBytes)
        ensures
            r.wf(),
            r.state() == capture_of(Seq::<u8>::empty()),
    {
        let r = CapturedBytes { data: Vec::new(), total_bytes: 0 };
        assert(r.data@ =~= Seq::<u8>::empty().take(0));
        r
    }

    /// A whole stream at once.
    pub fn from_stream(bytes: &[u8]) -> (r: CapturedBytes)
        requires
            bytes@.len() <= u64::MAX,
        ensures
            r.wf(),
            r.state() == capture_of(bytes@),
    {
        let mut c = CapturedBytes::empty();
        c.record(bytes);
        assert(Seq::<u8>::empty() + bytes@ =~= bytes@);
        proof { law_capture_appends(Seq::<u8>::empty(), bytes@); }
        c
    }

    /// Accounts for the next chunk of the stream: all of it is counted, and
    /// as much as fits under the limit is kept.
    pub fn record(&mut self, chunk: &[u8])
        requires
            old(self).wf(),
            old(self).total_bytes + chunk@.len() <= u64::MAX,
        ensures
            final(self).wf(),
            final(self).total_bytes == old(self).total_bytes + chunk@.len(),
            final(self).data@ == old(self).data@ + chunk@.take(
                if chunk@.len() <= CAPTURE_LIMIT - old(self).data@.len() { chunk@.len() as int }
                else { (CAPTURE_LIMIT - old(self).data@.len()) as int },
            ),
    {
        let room = CAPTURE_LIMIT - self.data.len();
        let keep = if chunk.len() <= room { chunk.len() } else { room };
        let ghost before = self.data@;
        let mut i: usize = 0;
        while i < keep
            invariant
                i <= keep,
                keep <= chunk@.len(),
                keep == (if chunk@.len() <= CAPTURE_LIMIT - before.len() { chunk@.len() as int } else { (CAPTURE_LIMIT - before.len()) as int }),
                before == old(self).data@,
                before.len() <= CAPTURE_LIMIT,
                before.len() <= old(self).total_bytes,
                self.total_bytes == old(self).total_bytes,
                old(self).total_bytes + chunk@.len() <= u64::MAX,
                self.data@ == before + chunk@.take(i as int),
            decreases keep - i,
        {
            self.data.push(chunk[i]);
            assert(chunk@.take(i + 1) =~= chunk@.take(i as int).push(chunk@[i as int]));
            assert(self.data@ =~= before + chunk@.take(i + 1));
            i = i + 1;
        }
        self.total_bytes = self.total_bytes + chunk.len() as u64;
    }
}

/// Capturing a stream chunk by chunk keeps exactly what capturing it whole
/// keeps: its first `CAPTURE_LIMIT` bytes and its full length.
pub proof fn law_capture_appends(stream: Seq<u8>, chunk: Seq<u8>)
    ensures
        ({
            let (kept, total) = capture_of(stream);
            let room = CAPTURE_LIMIT - kept.len();
            (kept + chunk.take(if chunk.len() <= room { chunk.len() as int } else { room as int }), total + chunk.len())
        }) == capture_of(stream + chunk),
{
    let (kept, total) = capture_of(stream);
    let room = CAPTURE_LIMIT - kept.len();
    let n = if chunk.len() <= room { chunk.len() as int } else { room as int };
    let whole = stream + chunk;
    let m = if whole.len() <= CAPTURE_LIMIT { whole.len() as int } else { CAPTURE_LIMIT as int };
    assert(kept + chunk.take(n) =~= whole.take(m));
}

/// How captured bytes are written in JSON.
#[derive(Debug, Clone, Copy, PartialEq, Eq, Structural)]
pub enum OutputEncoding {
    Utf8,
    Base64,
}

/// A captured stream as a run result reports it.
#[derive(Debug, Clone)]
pub struct CapturedOutput {
    pub encoding: OutputEncoding,
    pub data: String,
    pub total_bytes: u64,
    pub captured_bytes: u64,
    pub truncated: bool,
}

/// The report of captured bytes: the text when they are valid UTF-8,
/// base64 otherwise; the counts; truncated when bytes were dropped.
pub open spec fn output_spec(c: CapturedBytes, o: CapturedOutput) -> bool {
    reports(c.state(), o)
}

/// `o` reports a capture that kept the bytes `st.0` of `st.1` bytes seen.
pub open spec fn reports(st: (Seq<u8>, nat), o: CapturedOutput) -> bool {
    &&& (if valid_utf8(st.0) {
        o.encoding == OutputEncoding::Utf8 && o.data@ == decode_utf8(st.0)
    } else {
        o.encoding == OutputEncoding::Base64 && o.data@ == base64_spec(st.0)
    })
    &&& o.total_bytes == st.1
    &&& o.captured_bytes == st.0.len()
    &&& o.truncated == (st.1 != st.0.len())
}

impl CapturedOutput {
    /// The report of captured bytes.
    pub fn from_capture(c: CapturedBytes) -> (r: CapturedOutput)
        requires
            c.wf(),
        ensures
            output_spec(c, r),
    {
        let ghost cv = c;
        let captured = c.data.len() as u64;
        let truncated = c.total_bytes != captured;
        let (encoding, data) = match utf8_text(c.data.as_slice()) {
            Some(text) => (OutputEncoding::Utf8, text),
            None => (OutputEncoding::Base64, base64_encode(c.data.as_slice())),
        };
        CapturedOutput { encoding, data, total_bytes: c.total_bytes, captured_bytes: captured, truncated }
    }
}

/// The kind of a run error.
#[derive(Debug, Clone, Copy, PartialEq, Eq, Structural)]
pub enum ErrorKind {
    Usage,
    TaskException,
    TaskExit,
    Environment,
    Internal,
}

/// The error part of a run result.
#[derive(Debug, Clone)]
pub struct RunError {
    pub kind: ErrorKind,
    pub class: Option<String>,
    pub message: String,
    pub backtrace: Vec<String>,
}

pub ghost struct RunErrorView {
    pub kind: ErrorKind,
    pub class: Option<Seq<char>>,
    pub message: Seq<char>,
    pub backtrace: Seq<Seq<char>>,
}

impl View for RunError {
    type V = RunErrorView;

    open spec fn view(&self) -> RunErrorView {
        RunErrorView {
            kind: self.kind,
            class: crate::metadata::opt_view(self.class),
            message: self.message@,
            backtrace: views(self.backtrace@),
        }
    }
}

/// An exception reported with its class, message and backtrace.
pub open spec fn exception_error(kind: ErrorKind, d: ExceptionDetail) -> RunErrorView {
    RunErrorView { kind, class: Some(d.class@), message: d.message@, backtrace: views(d.backtrace@) }
}

/// An error reported by kind and message alone.
pub open spec fn plain_error(kind: ErrorKind, message: Seq<char>) -> RunErrorView {
    RunErrorView { kind, class: None, message, backtrace: seq![] }
}

/// How each rt error is reported: usage, task exception, internal and
/// environment errors by kind; a task's `exit 70` and `exit 74` as the
/// internal and environment failures those codes stand for; any other exit
/// code as `task_exit`.
pub open spec fn run_error_spec(e: RtError) -> RunErrorView {
    match e {
        RtError::Usage(m) => plain_error(ErrorKind::Usage, m@),
        RtError::Task(d) => exception_error(ErrorKind::TaskException, d),
        RtError::Internal(m) => plain_error(ErrorKind::Internal, "internal error: "@ + m@),
        RtError::Environment(m) => plain_error(ErrorKind::Environment, m@),
        RtError::EnvironmentFailure(d) => exception_error(ErrorKind::Environment, d),
        RtError::TaskExit(code) => if code == 70 {
            plain_error(ErrorKind::Internal, "task harness exited with code 70"@)
        } else if code == 74 {
            plain_error(ErrorKind::Environment, "task environment setup exited with code 74"@)
        } else {
            plain_error(ErrorKind::TaskExit, "task exited with code "@ + decimal(code as int))
        },
    }
}

impl RunError {
    /// A reported exception.
    pub fn task(kind: ErrorKind, failure: &ExceptionDetail) -> (r: RunError)
        ensures
            r@ == exception_error(kind, *failure),
    {
        RunError {
            kind,
            class: Some(copy_string(&failure.class)),
            message: copy_string(&failure.message),
            backtrace: copy_strings(&failure.backtrace),
        }
    }

    /// An error with a kind and message only.
    pub fn plain(kind: ErrorKind, message: String) -> (r: RunError)
        ensures
            r@ == plain_error(kind, message@),
    {
        let r = RunError { kind, class: None, message, backtrace: Vec::new() };
        assert(views(r.backtrace@) =~= seq![]);
        r
    }

    /// The run error that reports an rt error.
    pub fn from_rt_error(error: &RtError) -> (r: RunError)
        ensures
            r@ == run_error_spec(*error),
    {
        match error {
            RtError::Usage(message) => RunError::plain(ErrorKind::Usage, copy_string(message)),
            RtError::Task(failure) => RunError::task(ErrorKind::TaskException, failure),
            RtError::Internal(message) => {
                let mut m = String::from_str("internal error: ");
                m.append(message.as_str());
                RunError::plain(ErrorKind::Internal, m)
            },
            RtError::Environment(message) => RunError::plain(ErrorKind::Environment, copy_string(message)),
            RtError::EnvironmentFailure(failure) => RunError::task(ErrorKind::Environment, failure),
            RtError::TaskExit(code) => {
                if *code == 70 {
                    RunError::plain(ErrorKind::Internal, String::from_str("task harness exited with code 70"))
                } else if *code == 74 {
                    RunError::plain(ErrorKind::Environment, String::from_str("task environment setup exited with code 74"))
                } else {
                    let mut m = String::from_str("task exited with code ");
                    let digits = decimal_text(*code as i64);
                    m.append(digits.as_str());
                    RunError::plain(ErrorKind::TaskExit, m)
                }
            },
        }
    }
}

/// Whether a run succeeded.
#[derive(Debug, Clone, Copy, PartialEq, Eq, Structural)]
pub enum RunStatus {
    Success,
    Error,
}

/// The result of `rt run --json`.
#[derive(Debug, Clone)]
pub struct RunResult {
    pub schema_version: u32,
    pub task: String,
    pub status: RunStatus,
    pub exit_code: i32,
    pub stdout: CapturedOutput,
    pub stderr: CapturedOutput,
    pub error: Option<RunError>,
    pub load_errors: Vec<LoadError>,
}

/// `r` reports a successful run of `task` with these captures.
pub open spec fn succeeded(r: RunResult, task: Seq<char>, stdout: (Seq<u8>, nat), stderr: (Seq<u8>, nat), load_errors: Seq<LoadError>) -> bool {
    &&& r.schema_version == RUN_RESULT_SCHEMA_VERSION
    &&& r.task@ == task
    &&& r.status == RunStatus::Success
    &&& r.exit_code == 0
    &&& reports(stdout, r.stdout)
    &&& reports(stderr, r.stderr)
    &&& r.error is None
    &&& r.load_errors@ == load_errors
}

/// `r` reports a failed run of `task` that exits with `code` and reports
/// `error`, with these captures.
pub open spec fn failed(
    r: RunResult,
    task: Seq<char>,
    code: i32,
    error: RunErrorView,
    stdout: (Seq<u8>, nat),
    stderr: (Seq<u8>, nat),
    load_errors: Seq<LoadError>,
) -> bool {
    &&& r.schema_version == RUN_RESULT_SCHEMA_VERSION
    &&& r.task@ == task
    &&& r.status == RunStatus::Error
    &&& r.exit_code == code
    &&& reports(stdout, r.stdout)
    &&& reports(stderr, r.stderr)
    &&& (r.error matches Some(e) && e@ == error)
    &&& r.load_errors@ == load_errors
}

impl RunResult {
    /// A successful run: status `success`, exit code 0, no error.
    pub fn success(task: &str, stdout: CapturedBytes, stderr: CapturedBytes, load_errors: Vec<LoadError>) -> (r: RunResult)
        requires
            stdout.wf(),
            stderr.wf(),
        ensures
            succeeded(r, task@, stdout.state(), stderr.state(), load_errors@),
    {
        RunResult {
            schema_version: RUN_RESULT_SCHEMA_VERSION,
            task: String::from_str(task),
            status: RunStatus::Success,
            exit_code: 0,
            stdout: CapturedOutput::from_capture(stdout),
            stderr: CapturedOutput::from_capture(stderr),
            error: None,
            load_errors,
        }
    }

    /// A failed run: status `error`, the error's exit code, and the error
    /// reported by kind.
    pub fn error(task: &str, error: RtError, stdout: CapturedBytes, stderr: CapturedBytes, load_errors: Vec<LoadError>) -> (r: RunResult)
        requires
            stdout.wf(),
            stderr.wf(),
        ensures
            failed(r, task@, spec_exit_code(error), run_error_spec(error), stdout.state(), stderr.state(), load_errors@),
    {
        let exit_code = error.exit_code();
        RunResult {
            schema_version: RUN_RESULT_SCHEMA_VERSION,
            task: String::from_str(task),
            status: RunStatus::Error,
            exit_code,
            stdout: CapturedOutput::from_capture(stdout),
            stderr: CapturedOutput::from_capture(stderr),
            error: Some(RunError::from_rt_error(&error)),
            load_errors,
        }
    }
}

proof fn lemma_base64_char(v: int, w: int)
    requires
        0 <= v < 64,
        0 <= w < 64,
    ensures
        base64_char(v) != '=',
        base64_char(v) == base64_char(w) ==> v == w,
{
    assert(((65 + v) as char) as u32 == 65 + v) by {
        if v < 26 {
            assert((65 + v) as u32 == 65 + v);
        }
    }
}

proof fn lemma_base64_three(x0: u8, x1: u8, x2: u8, y0: u8, y1: u8, y2: u8)
    by (bit_vector)
    requires
        x0 / 4 == y0 / 4,
        (x0 % 4) * 16 + x1 / 16 == (y0 % 4) * 16 + y1 / 16,
        (x1 % 16) * 4 + x2 / 64 == (y1 % 16) * 4 + y2 / 64,
        x2 % 64 == y2 % 64,
    ensures
        x0 == y0,
        x1 == y1,
        x2 == y2,
{
}

proof fn lemma_base64_two(x0: u8, x1: u8, y0: u8, y1: u8)
    by (bit_vector)
    requires
        x0 / 4 == y0 / 4,
        (x0 % 4) * 16 + x1 / 16 == (y0 % 4) * 16 + y1 / 16,
        (x1 % 16) * 4 == (y1 % 16) * 4,
    ensures
        x0 == y0,
        x1 == y1,
{
}

proof fn lemma_base64_one(x0: u8, y0: u8)
    by (bit_vector)
    requires
        x0 / 4 == y0 / 4,
        (x0 % 4) * 16 == (y0 % 4) * 16,
    ensures
        x0 == y0,
{
}

/// The shape of an encoding: nothing for no bytes; otherwise four
/// characters, of which the last two are `=` for one byte, only the last
/// for two, and none for three or more.
proof fn lemma_base64_shape(s: Seq<u8>)
    ensures
        s.len() == 0 ==> base64_spec(s).len() == 0,
        s.len() > 0 ==> base64_spec(s).len() >= 4 && base64_spec(s)[0] != '=' && base64_spec(s)[1] != '=',
        s.len() == 1 ==> base64_spec(s)[2] == '=' && base64_spec(s)[3] == '=' && base64_spec(s).len() == 4,
        s.len() == 2 ==> base64_spec(s)[2] != '=' && base64_spec(s)[3] == '=' && base64_spec(s).len() == 4,
        s.len() >= 3 ==> base64_spec(s)[2] != '=' && base64_spec(s)[3] != '=',
{
    if s.len() > 0 {
        let b0 = s[0] as int;
        let b1 = if s.len() > 1 { s[1] as int } else { 0 };
        let b2 = if s.len() > 2 { s[2] as int } else { 0 };
        lemma_base64_char(b0 / 4, 0);
        lemma_base64_char((b0 % 4) * 16 + b1 / 16, 0);
        lemma_base64_char((b1 % 16) * 4 + b2 / 64, 0);
        lemma_base64_char((b1 % 16) * 4, 0);
        lemma_base64_char(b2 % 64, 0);
        lemma_base64_char((b0 % 4) * 16, 0);
    }
}

proof fn lemma_base64_injective(a: Seq<u8>, b: Seq<u8>)
    requires
        base64_spec(a) == base64_spec(b),
    ensures
        a == b,
    decreases a.len(),
{
    let e = base64_spec(a);
    lemma_base64_shape(a);
    lemma_base64_shape(b);
    if a.len() == 0 || b.len() == 0 {
        assert(a.len() == 0 && b.len() == 0);
        assert(a =~= b);
    } else {
        let x0 = a[0];
        let y0 = b[0];
        let x1 = if a.len() > 1 { a[1] } else { 0u8 };
        let y1 = if b.len() > 1 { b[1] } else { 0u8 };
        let x2 = if a.len() > 2 { a[2] } else { 0u8 };
        let y2 = if b.len() > 2 { b[2] } else { 0u8 };
        assert(a.len() == 1 <==> b.len() == 1);
        assert(a.len() == 2 <==> b.len() == 2);
        lemma_base64_char(x0 as int / 4, y0 as int / 4);
        lemma_base64_char((x0 as int % 4) * 16 + x1 as int / 16, (y0 as int % 4) * 16 + y1 as int / 16);
        if a.len() == 1 {
            lemma_base64_char((x0 as int % 4) * 16, (y0 as int % 4) * 16);
            lemma_base64_one(x0, y0);
            assert(a =~= b);
        } else if a.len() == 2 {
            lemma_base64_char((x1 as int % 16) * 4, (y1 as int % 16) * 4);
            lemma_base64_two(x0, x1, y0, y1);
            assert(a =~= b);
        } else {
            lemma_base64_char((x1 as int % 16) * 4 + x2 as int / 64, (y1 as int % 16) * 4 + y2 as int / 64);
            lemma_base64_char(x2 as int % 64, y2 as int % 64);
            lemma_base64_three(x0, x1, x2, y0, y1, y2);
            assert(base64_spec(a.skip(3)) =~= e.skip(4));
            assert(base64_spec(b.skip(3)) =~= e.skip(4));
            lemma_base64_injective(a.skip(3), b.skip(3));
            assert forall|k: int| 0 <= k < a.len() implies a[k] == b[k] by {
                if k >= 3 {
                    assert(a[k] == a.skip(3)[k - 3]);
                    assert(b[k] == b.skip(3)[k - 3]);
                }
            }
            assert(a =~= b);
        }
    }
}

/// The six-bit value of a base64 character.
pub open spec fn base64_value(c: char) -> int {
    if 'A' <= c && c <= 'Z' {
        c as int - 65
    } else if 'a' <= c && c <= 'z' {
        c as int - 97 + 26
    } else if '0' <= c && c <= '9' {
        c as int - 48 + 52
    } else if c == '+' {
        62
    } else {
        63
    }
}

/// Standard padded base64 decoding: every four characters give three bytes,
/// or fewer where the group ends in `=`.
pub open spec fn base64_decode_spec(t: Seq<char>) -> Seq<u8>
    decreases t.len(),
{
    if t.len() < 4 {
        seq![]
    } else {
        let v0 = base64_value(t[0]);
        let v1 = base64_value(t[1]);
        let v2 = base64_value(t[2]);
        let v3 = base64_value(t[3]);
        let b0 = (v0 * 4 + v1 / 16) as u8;
        if t[2] == '=' {
            seq![b0]
        } else if t[3] == '=' {
            seq![b0, ((v1 % 16) * 16 + v2 / 4) as u8]
        } else {
            seq![b0, ((v1 % 16) * 16 + v2 / 4) as u8, ((v2 % 4) * 64 + v3) as u8] + base64_decode_spec(t.skip(4))
        }
    }
}

proof fn lemma_base64_value(v: int)
    requires
        0 <= v < 64,
    ensures
        base64_value(base64_char(v)) == v,
{
    if v < 26 {
        assert(((65 + v) as char) as int == 65 + v);
    } else if v < 52 {
        assert(((97 + v - 26) as char) as int == 97 + v - 26);
    } else if v < 62 {
        assert(((48 + v - 52) as char) as int == 48 + v - 52);
    }
}

proof fn lemma_regroup_pair(hi: int, lo: int, k: int)
    by (nonlinear_arith)
    requires
        0 <= lo < k,
        0 <= hi,
        k > 0,
    ensures
        (hi * k + lo) / k == hi,
        (hi * k + lo) % k == lo,
{
}

proof fn lemma_base64_regroup(x0: int, x1: int, x2: int)
    requires
        0 <= x0 < 256,
        0 <= x1 < 256,
        0 <= x2 < 256,
    ensures
        (x0 / 4) * 4 + ((x0 % 4) * 16 + x1 / 16) / 16 == x0,
        (((x0 % 4) * 16 + x1 / 16) % 16) * 16 + ((x1 % 16) * 4 + x2 / 64) / 4 == x1,
        (((x1 % 16) * 4 + x2 / 64) % 4) * 64 + x2 % 64 == x2,
{
    lemma_regroup_pair(x0 % 4, x1 / 16, 16);
    lemma_regroup_pair(x1 % 16, x2 / 64, 4);
    vstd::arithmetic::div_mod::lemma_fundamental_div_mod(x0, 4);
    vstd::arithmetic::div_mod::lemma_fundamental_div_mod(x1, 16);
    vstd::arithmetic::div_mod::lemma_fundamental_div_mod(x2, 64);
}

/// Decoding an encoding gives back the bytes.
pub proof fn law_base64_round_trip(s: Seq<u8>)
    ensures
        base64_decode_spec(base64_spec(s)) == s,
    decreases s.len(),
{
    lemma_base64_shape(s);
    if s.len() == 0 {
        assert(base64_decode_spec(base64_spec(s)) =~= s);
    } else {
        let e = base64_spec(s);
        let x0 = s[0];
        let x1 = if s.len() > 1 { s[1] } else { 0u8 };
        let x2 = if s.len() > 2 { s[2] } else { 0u8 };
        lemma_base64_regroup(x0 as int, x1 as int, x2 as int);
        lemma_base64_value(x0 as int / 4);
        lemma_base64_value((x0 as int % 4) * 16 + x1 as int / 16);
        lemma_base64_value((x1 as int % 16) * 4 + x2 as int / 64);
        lemma_base64_value(x2 as int % 64);
        if s.len() == 1 {
            assert(e[1] == base64_char((x0 as int % 4) * 16 + x1 as int / 16));
            assert(base64_decode_spec(e) =~= s);
        } else if s.len() == 2 {
            assert(e[2] == base64_char((x1 as int % 16) * 4 + x2 as int / 64));
            assert(base64_decode_spec(e) =~= s);
        } else {
            assert(e.skip(4) =~= base64_spec(s.skip(3)));
            law_base64_round_trip(s.skip(3));
            assert(s =~= seq![x0, x1, x2] + s.skip(3));
            assert(base64_decode_spec(e) =~= s);
        }
    }
}

/// Nothing is lost in a report: two captures reported alike kept the same
/// bytes out of the same number. Text is the captured bytes decoded, and
/// base64 text decodes back to them.
pub proof fn law_report_determines_capture(st1: (Seq<u8>, nat), st2: (Seq<u8>, nat), o: CapturedOutput)
    requires
        reports(st1, o),
        reports(st2, o),
    ensures
        st1 == st2,
        o.encoding == OutputEncoding::Utf8 ==> vstd::utf8::encode_utf8(o.data@) == st1.0,
        o.encoding == OutputEncoding::Base64 ==> base64_decode_spec(o.data@) == st1.0,
{
    if o.encoding == OutputEncoding::Utf8 {
        vstd::utf8::decode_utf8_encode_utf8(st1.0);
        vstd::utf8::decode_utf8_encode_utf8(st2.0);
    } else {
        lemma_base64_injective(st1.0, st2.0);
        law_base64_round_trip(st1.0);
    }
}

} // verus!
