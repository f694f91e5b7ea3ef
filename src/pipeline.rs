//! One compile-and-run request: naming its temporary files, the compiler's
//! fixed flags, cutting the input into runs, and assembling the result from
//! what the compiler and the runs printed.
use vstd::prelude::*;
use vstd::utf8::{decode_utf8, valid_utf8};
use crate::diff::{diff, diff_text, line_changes};
use crate::text::{
    join, joined, normalized, remove_carriage_return, split, split_spec, views,
};
use rand::distributions::Alphanumeric;
use rand::Rng;

verus! {

/// The test input of a request: a text cut into runs at each delimiter.
#[derive(Debug)]
pub struct InputText {
    pub text: String,
    pub delimiter: String,
}

/// A request: the source code, its input, and the output it is expected to print.
#[derive(Debug)]
pub struct Program {
    pub code: String,
    pub input: InputText,
    pub output: String,
}

/// What the compiler printed on its standard output and standard error.
#[derive(Debug)]
pub struct Streams {
    pub out: String,
    pub err: String,
}

/// The answer to a request.
#[derive(Debug)]
pub struct Output {
    pub compiler: Streams,
    pub output: String,
    pub diff: String,
}

/// The paths of a request's source file and compiled binary.
#[derive(Debug)]
pub struct Artifacts {
    pub source: String,
    pub binary: String,
}

/// The number of characters in a temporary file name.
pub const NAME_LEN: usize = 7;

/// An ASCII letter or digit.
pub open spec fn is_alphanumeric(c: char) -> bool {
    ('A' <= c && c <= 'Z') || ('a' <= c && c <= 'z') || ('0' <= c && c <= '9')
}

/// Relies on `rand::Rng::sample` with `rand::distributions::Alphanumeric` on the
/// thread-local generator: it returns one of the 62 ASCII letters and digits.
#[verifier::external_body]
fn random_alphanumeric() -> (c: char)
    ensures
        is_alphanumeric(c),
{
    rand::thread_rng().sample(Alphanumeric)
}

/// A fresh random name for a request's temporary files: letters and digits only.
pub fn temp_name() -> (r: String)
    ensures
        r@.len() == NAME_LEN,
        forall|i: int| 0 <= i < r@.len() ==> is_alphanumeric(#[trigger] r@[i]),
{
    let mut name = String::new();
    let mut i: usize = 0;
    while i < NAME_LEN
        invariant
            i <= NAME_LEN,
            name@.len() == i,
            forall|k: int| 0 <= k < name@.len() ==> is_alphanumeric(#[trigger] name@[k]),
        decreases NAME_LEN - i,
    {
        let c = random_alphanumeric();
        let ghost before = name@;
        crate::text::push_char(&mut name, c);
        assert(forall|k: int| 0 <= k < before.len() ==> name@[k] == before[k]);
        i = i + 1;
    }
    name
}

/// The directory that holds the temporary files.
pub open spec fn temp_dir() -> Seq<char> {
    seq!['/', 't', 'm', 'p', '/']
}

/// The extension of a source file.
pub open spec fn source_ext() -> Seq<char> {
    seq!['.', 'c', 'p', 'p']
}

/// The binary lives at `/tmp/<name>`, the source beside it at `/tmp/<name>.cpp`.
pub fn artifact_paths(name: &str) -> (r: Artifacts)
    ensures
        r.binary@ == temp_dir() + name@,
        r.source@ == temp_dir() + name@ + source_ext(),
{
    proof {
        reveal_strlit("/tmp/");
        reveal_strlit(".cpp");
        assert("/tmp/"@ =~= temp_dir());
        assert(".cpp"@ =~= source_ext());
    }
    let mut binary = String::from_str("/tmp/");
    binary.append(name);
    let mut source = binary.clone();
    source.append(".cpp");
    Artifacts { source, binary }
}

/// The compiler's arguments, in order: the language standard, all warnings,
/// no optimization, and the output and source paths. Callers cannot change them.
pub fn compiler_args(a: &Artifacts) -> (r: Vec<String>)
    ensures
        views(r@) == seq![
            "-std=c++14"@,
            "-Wall"@,
            "-O0"@,
            "-o"@,
            a.binary@,
            a.source@,
        ],
{
    let mut args: Vec<String> = Vec::new();
    args.push(String::from_str("-std=c++14"));
    args.push(String::from_str("-Wall"));
    args.push(String::from_str("-O0"));
    args.push(String::from_str("-o"));
    args.push(a.binary.clone());
    args.push(a.source.clone());
    assert(views(args@) =~= seq![
        "-std=c++14"@,
        "-Wall"@,
        "-O0"@,
        "-o"@,
        a.binary@,
        a.source@,
    ]);
    args
}

/// Relies on `std::str::from_utf8`: it succeeds exactly on valid UTF-8, and then
/// holds the characters that the bytes encode.
#[verifier::external_body]
fn utf8_to_string(b: &[u8]) -> (r: Option<String>)
    ensures
        r is Some <==> valid_utf8(b@),
        r matches Some(s) ==> s@ == decode_utf8(b@),
{
    std::str::from_utf8(b).ok().map(String::from)
}

/// The text that `b` encodes when it is valid UTF-8, else the empty text.
pub open spec fn text_or_empty(b: Seq<u8>) -> Seq<char> {
    if valid_utf8(b) {
        decode_utf8(b)
    } else {
        Seq::empty()
    }
}

/// Decodes captured bytes as UTF-8, giving the empty text when they are not valid.
pub fn decode_or_empty(b: &Vec<u8>) -> (r: String)
    ensures
        r@ == text_or_empty(b@),
{
    match utf8_to_string(b.as_slice()) {
        Some(s) => s,
        None => String::new(),
    }
}

/// What one run printed: nothing when the run failed (`None`), else its
/// standard output decoded as UTF-8, or nothing when that is not valid.
pub open spec fn run_text(run: Option<Seq<u8>>) -> Seq<char> {
    match run {
        Some(b) => text_or_empty(b),
        None => Seq::empty(),
    }
}

/// The bytes captured by each run, in input order.
pub open spec fn run_views(runs: Seq<Option<Vec<u8>>>) -> Seq<Option<Seq<u8>>> {
    runs.map_values(|r: Option<Vec<u8>>| match r {
        Some(b) => Some(b@),
        None => None,
    })
}

/// The texts printed by the runs, in input order.
pub open spec fn run_texts(runs: Seq<Option<Seq<u8>>>) -> Seq<Seq<char>> {
    runs.map_values(|r: Option<Seq<u8>>| run_text(r))
}

/// The request's output: what the runs printed, joined with line breaks in
/// input order, without carriage returns.
pub open spec fn joined_output(runs: Seq<Option<Seq<u8>>>) -> Seq<char> {
    normalized(joined(run_texts(runs), seq!['\n']))
}

/// Cuts the request's input text into the inputs of the single runs.
pub fn split_inputs(input: &InputText) -> (r: Vec<String>)
    ensures
        views(r@) == split_spec(input.text@, input.delimiter@),
{
    split(input.text.as_str(), input.delimiter.as_str())
}

/// The text printed by one run; see [`run_text`].
pub fn run_output(run: &Option<Vec<u8>>) -> (r: String)
    ensures
        r@ == run_text(
            match run {
                Some(b) => Some(b@),
                None => None,
            },
        ),
{
    match run {
        Some(b) => decode_or_empty(b),
        None => String::new(),
    }
}

/// Assembles the answer to `program` from the compiler's captured streams and
/// each run's captured standard output (`None` for a run that failed), given in
/// input order. The runs' texts are joined in that order whatever order they
/// finished in; both the expected and the actual output lose their carriage
/// returns before they are compared line by line.
pub fn assemble(
    program: &Program,
    compiler_stdout: &Vec<u8>,
    compiler_stderr: &Vec<u8>,
    runs: &Vec<Option<Vec<u8>>>,
) -> (r: Output)
    ensures
        r.compiler.out@ == text_or_empty(compiler_stdout@),
        r.compiler.err@ == text_or_empty(compiler_stderr@),
        r.output@ == joined_output(run_views(runs@)),
        r.diff@ == diff_text(
            line_changes(normalized(program.output@), joined_output(run_views(runs@)), seq!['\n']),
        ),
        normalized(program.output@) == joined_output(run_views(runs@)) ==> r.diff@.len() == 0,
{
    let ghost rv = run_views(runs@);
    let mut texts: Vec<String> = Vec::new();
    let mut i: usize = 0;
    let n = runs.len();
    while i < n
        invariant
            n == runs@.len(),
            i <= n,
            rv == run_views(runs@),
            views(texts@) =~= run_texts(rv).subrange(0, i as int),
        decreases n - i,
    {
        let t = run_output(&runs[i]);
        let ghost texts0 = texts@;
        texts.push(t);
        assert(views(texts@) =~= views(texts0).push(t@));
        i = i + 1;
    }
    assert(run_texts(rv).subrange(0, n as int) =~= run_texts(rv));
    proof {
        reveal_strlit("\n");
        assert("\n"@ =~= seq!['\n']);
    }
    let output = remove_carriage_return(join(&texts, "\n"));
    let expected = remove_carriage_return(program.output.clone());
    let (diff_out, _) = diff(expected.as_str(), output.as_str());
    Output {
        compiler: Streams {
            out: decode_or_empty(compiler_stdout),
            err: decode_or_empty(compiler_stderr),
        },
        output,
        diff: diff_out,
    }
}

} // verus!
