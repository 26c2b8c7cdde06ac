//! Command lines and what commands leave behind.

use crate::lines;
use crate::lines::trim;
use crate::text;
use crate::text::lossy_text;
use vstd::prelude::*;
use vstd::string::*;

verus! {

/// What a finished command left behind. `success` is a zero exit code.
#[derive(Debug)]
pub struct CommandOutput {
    pub success: bool,
    pub code: Option<i32>,
    pub stdout: Vec<u8>,
    pub stderr: Vec<u8>,
}

#[verifier::ext_equal]
pub struct OutputModel {
    pub success: bool,
    pub code: Option<i32>,
    pub stdout: Seq<u8>,
    pub stderr: Seq<u8>,
}

impl DeepView for CommandOutput {
    type V = OutputModel;

    open spec fn deep_view(&self) -> OutputModel {
        OutputModel {
            success: self.success,
            code: self.code,
            stdout: self.stdout@,
            stderr: self.stderr@,
        }
    }
}

/// What came of an attempt to run a command: its output, or why it did not run.
#[derive(Debug)]
pub enum Reply {
    Output(CommandOutput),
    Failed(String),
}

#[verifier::ext_equal]
pub enum ReplyModel {
    Output(OutputModel),
    Failed(Seq<char>),
}

impl DeepView for Reply {
    type V = ReplyModel;

    open spec fn deep_view(&self) -> ReplyModel {
        match self {
            Reply::Output(output) => ReplyModel::Output(output.deep_view()),
            Reply::Failed(error) => ReplyModel::Failed(error@),
        }
    }
}

/// What to do next, given the replies so far: run one more command, or stop with
/// a result.
#[derive(Debug)]
pub enum Step<T> {
    Run(Vec<Vec<u8>>),
    Done(Result<T, String>),
}

#[verifier::ext_equal]
pub enum StepModel<M> {
    Run(Seq<Seq<u8>>),
    Done(Result<M, Seq<char>>),
}

impl<T: DeepView> DeepView for Step<T> {
    type V = StepModel<T::V>;

    open spec fn deep_view(&self) -> StepModel<T::V> {
        match self {
            Step::Run(arguments) => StepModel::Run(lines::byte_strings(arguments@)),
            Step::Done(Ok(value)) => StepModel::Done(Ok(value.deep_view())),
            Step::Done(Err(error)) => StepModel::Done(Err(error@)),
        }
    }
}

/// A step that stops with an error.
pub fn failed<T: DeepView>(error: String) -> (r: Step<T>)
    ensures
        r.deep_view() == StepModel::<T::V>::Done(Err(error@)),
{
    Step::Done(Err(error))
}

/// The concatenation of several texts.
pub fn concat2(a: &str, b: &str) -> (r: String)
    ensures
        r@ == a@ + b@,
{
    let mut r = a.to_owned();
    r.append(b);
    r
}

/// The bytes of a text.
pub fn bytes_of(source: &str) -> (r: Vec<u8>)
    ensures
        r@ == vstd::utf8::encode_utf8(source@),
{
    let bytes = source.as_bytes();
    let mut r: Vec<u8> = Vec::new();
    let mut i: usize = 0;
    while i < bytes.len()
        invariant
            i <= bytes@.len(),
            r@ == bytes@.take(i as int),
        decreases bytes@.len() - i,
    {
        r.push(bytes[i]);
        i = i + 1;
        assert(r@ =~= bytes@.take(i as int));
    }
    assert(bytes@.take(i as int) =~= bytes@);
    r
}

/// A copy of a byte string.
pub fn copy_of(bytes: &Vec<u8>) -> (r: Vec<u8>)
    ensures
        r@ == bytes@,
{
    let mut r: Vec<u8> = Vec::new();
    let mut i: usize = 0;
    while i < bytes.len()
        invariant
            i <= bytes@.len(),
            r@ == bytes@.take(i as int),
        decreases bytes@.len() - i,
    {
        r.push(bytes[i]);
        i = i + 1;
        assert(r@ =~= bytes@.take(i as int));
    }
    assert(bytes@.take(i as int) =~= bytes@);
    r
}

/// The bytes of each of several words.
pub open spec fn encoded(all: Seq<&'static str>) -> Seq<Seq<u8>> {
    all.map_values(|word: &'static str| vstd::utf8::encode_utf8(word@))
}

/// The arguments that several words make.
pub fn arguments_of(all: &[&'static str]) -> (r: Vec<Vec<u8>>)
    ensures
        lines::byte_strings(r@) == encoded(all@),
{
    let mut r: Vec<Vec<u8>> = Vec::new();
    let mut i: usize = 0;
    assert(lines::byte_strings(r@) =~= encoded(all@).take(0));
    while i < all.len()
        invariant
            i <= all@.len(),
            lines::byte_strings(r@) == encoded(all@).take(i as int),
        decreases all@.len() - i,
    {
        let ghost before = lines::byte_strings(r@);
        let bytes = bytes_of(all[i]);
        let ghost word = bytes@;
        r.push(bytes);
        assert(lines::byte_strings(r@) =~= before.push(word));
        assert(encoded(all@).take(i + 1) =~= encoded(all@).take(i as int).push(
            encoded(all@)[i as int],
        ));
        i = i + 1;
    }
    assert(encoded(all@).take(i as int) =~= encoded(all@));
    r
}

/// What the command says of its failure: a fixed text, and after a colon what it
/// wrote to its error stream, if that is more than white space.
pub open spec fn failure_text(stderr: Seq<u8>, fallback: Seq<char>) -> Seq<char> {
    let detail = lines::trimmed(text::utf8_lossy(stderr));
    if detail.len() == 0 {
        fallback
    } else {
        fallback + ": "@ + detail
    }
}

/// Describes the failure of a command.
pub fn command_error(output: &CommandOutput, fallback: &str) -> (r: String)
    ensures
        r@ == failure_text(output.stderr@, fallback@),
{
    let detail = trim(lossy_text(output.stderr.as_slice()).as_str());
    let mut r = fallback.to_owned();
    if detail.as_str().unicode_len() > 0 {
        r.append(": ");
        r.append(detail.as_str());
    }
    r
}

} // verus!
