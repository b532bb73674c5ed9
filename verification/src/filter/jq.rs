//! Filters written in jq.
//!
//! A program is compiled here and run elsewhere: it can read the clock and the
//! environment, and it need not end. What its outputs say is decided here.
use jaq_core::data::JustLut;
use jaq_core::load::{Arena, File, Loader};
use jaq_json::Val;
use vstd::prelude::*;

use crate::error::{Error, Fault, JqError, JqFault};

verus! {

/// A compiled jq program, of the jq engine `jaq`. Its type there is generic over
/// a trait of that crate, so it is kept opaque here as a whole.
#[verifier::external_body]
pub struct JqFilter {
    pub filter: jaq_core::Filter<JustLut<Val>>,
}

/// One output of a jq program.
#[derive(Debug)]
pub enum JqOutput {
    Null,
    Bool(bool),
    /// Any other value.
    Other,
    /// An error instead of a value.
    Failure,
}

/// Why a jq program does not compile, if it does not.
pub uninterp spec fn jq_fault(program: Seq<char>) -> Option<JqFault>;

/// The program from which a filter was compiled.
pub uninterp spec fn jq_program(filter: JqFilter) -> Seq<char>;

/// `jaq_core::load::Loader::load` and `jaq_core::Compiler::compile`, with the
/// definitions and functions of `jaq_core`, `jaq_std` and `jaq_json`. The
/// first reports what is no program, the second what is not defined; whether
/// and how they do depends on the program alone.
#[verifier::external_body]
fn compile_program(program: &str) -> (r: Result<JqFilter, JqError>)
    ensures
        match r {
            Ok(filter) => jq_fault(program@) is None && jq_program(filter) == program@,
            Err(e) => jq_fault(program@) == Some(e@),
        },
{
    let defs = jaq_core::defs().chain(jaq_std::defs()).chain(jaq_json::defs());
    let funs = jaq_core::funs().chain(jaq_std::funs()).chain(jaq_json::funs());
    let arena = Arena::default();
    let modules = Loader::new(defs)
        .load(&arena, File { path: (), code: program })
        .map_err(|e| JqError::Parse(format!("{:?}", e)))?;
    let compiler = jaq_core::Compiler::default().with_funs(funs);
    let filter = compiler.compile(modules).map_err(|e| JqError::Compile(format!("{:?}", e)))?;
    Ok(JqFilter { filter })
}

/// Compiled jq filter, ready for repeated evaluation.
pub struct CompiledJq {
    filter: JqFilter,
}

impl View for CompiledJq {
    type V = Seq<char>;

    /// The program.
    closed spec fn view(&self) -> Seq<char> {
        jq_program(self.filter)
    }
}

/// Why a jq expression is refused, if it is.
pub open spec fn expression_fault(expression: Seq<char>) -> Option<Fault> {
    match jq_fault(expression) {
        Some(reason) => Some(Fault::Jq { expression, reason }),
        None => None,
    }
}

impl CompiledJq {
    /// Compiles a jq program.
    pub fn compile(program: &str) -> (r: Result<CompiledJq, Error>)
        ensures
            match r {
                Ok(jq) => expression_fault(program@) is None && jq@ == program@,
                Err(e) => expression_fault(program@) == Some(e@),
            },
    {
        match compile_program(program) {
            Ok(filter) => Ok(CompiledJq { filter }),
            Err(reason) => Err(Error::Jq { expression: program.to_owned(), reason }),
        }
    }

    /// The program as the jq engine runs it.
    pub fn filter(&self) -> (r: &JqFilter)
        ensures
            jq_program(*r) == self@,
    {
        &self.filter
    }
}

// --- Outputs ---

/// An output counts as true unless it is null, false or an error.
pub open spec fn truthy(output: JqOutput) -> bool {
    match output {
        JqOutput::Null => false,
        JqOutput::Bool(b) => b,
        JqOutput::Other => true,
        JqOutput::Failure => false,
    }
}

/// Some output counts as true.
pub open spec fn some_truthy(outputs: Seq<JqOutput>) -> bool {
    exists|i: int| 0 <= i < outputs.len() && truthy(#[trigger] outputs[i])
}

/// What the outputs of a run say of its input, if they say anything yet: that it
/// passes as soon as one counts as true, and that it does not once the run has
/// ended and none did.
pub open spec fn verdict_of(outputs: Seq<JqOutput>, ended: bool) -> Option<bool> {
    if some_truthy(outputs) {
        Some(true)
    } else if ended {
        Some(false)
    } else {
        None
    }
}

/// Whether an output counts as true.
pub fn is_truthy_output(output: &JqOutput) -> (r: bool)
    ensures
        r == truthy(*output),
{
    match output {
        JqOutput::Null => false,
        JqOutput::Bool(b) => *b,
        JqOutput::Other => true,
        JqOutput::Failure => false,
    }
}

/// What was heard of a run.
pub struct HearingView {
    pub outputs: Seq<JqOutput>,
    pub ended: bool,
}

/// What was heard of a run, once there is another output, or none any more.
pub open spec fn heard(hearing: HearingView, output: Option<JqOutput>) -> HearingView {
    match output {
        Some(output) => HearingView { outputs: hearing.outputs.push(output), ..hearing },
        None => HearingView { ended: true, ..hearing },
    }
}

/// Hears the outputs of a run of a jq program, one at a time.
pub struct Hearing {
    passed: bool,
    ended: bool,
    outputs: Ghost<Seq<JqOutput>>,
}

impl View for Hearing {
    type V = HearingView;

    closed spec fn view(&self) -> HearingView {
        HearingView { outputs: self.outputs@, ended: self.ended }
    }
}

impl Hearing {
    #[verifier::type_invariant]
    spec fn knows_the_outputs(&self) -> bool {
        self.passed == some_truthy(self.outputs@)
    }

    /// The hearing of a run that has given no output yet.
    pub fn new() -> (r: Hearing)
        ensures
            r@ == (HearingView { outputs: Seq::empty(), ended: false }),
    {
        Hearing { passed: false, ended: false, outputs: Ghost(Seq::empty()) }
    }

    /// Hears the next output, or that there is none any more: what the outputs
    /// say of the input, if they say anything yet.
    pub fn hear(&mut self, output: Option<JqOutput>) -> (r: Option<bool>)
        ensures
            final(self)@ == heard(old(self)@, output),
            r == verdict_of(final(self)@.outputs, final(self)@.ended),
    {
        proof {
            use_type_invariant(&*self);
        }
        let ghost before = self.outputs@;
        match output {
            Some(output) => {
                let passed = self.passed || is_truthy_output(&output);
                let ghost after = before.push(output);
                proof {
                    if some_truthy(before) {
                        the_first_truthy_output_decides(before, seq![output], false);
                        assert(before + seq![output] =~= after);
                    }
                    assert(after[before.len() as int] == output);
                    if some_truthy(after) && !truthy(output) {
                        let i = choose|i: int|
                            0 <= i < after.len() && truthy(#[trigger] after[i]);
                        assert(before[i] == after[i]);
                    }
                }
                *self = Hearing { passed, ended: self.ended, outputs: Ghost(after) };
            },
            None => {
                *self = Hearing { passed: self.passed, ended: true, outputs: Ghost(before) };
            },
        }
        if self.passed {
            Some(true)
        } else if self.ended {
            Some(false)
        } else {
            None
        }
    }
}

// --- Laws ---

/// Outputs that are all null, false or errors refuse an input, and only once the
/// run has ended.
pub proof fn falsy_outputs_refuse(outputs: Seq<JqOutput>, ended: bool)
    requires
        forall|i: int| 0 <= i < outputs.len() ==> !truthy(#[trigger] outputs[i]),
    ensures
        verdict_of(outputs, ended) == if ended {
            Some(false)
        } else {
            None
        },
{
}

/// Once an output is neither null nor false nor an error, the input passes,
/// whatever else the run gives: no more outputs need be heard.
pub proof fn the_first_truthy_output_decides(
    outputs: Seq<JqOutput>,
    more: Seq<JqOutput>,
    ended: bool,
)
    requires
        some_truthy(outputs),
    ensures
        verdict_of(outputs + more, ended) == Some(true),
{
    let i = choose|i: int| 0 <= i < outputs.len() && truthy(#[trigger] outputs[i]);
    assert((outputs + more)[i] == outputs[i]);
}

/// A run passes its input as soon as it gave `true` or any value that is no
/// boolean and not null, whatever else it gave and whether or not it has ended.
pub proof fn one_true_output_passes(outputs: Seq<JqOutput>, ended: bool, i: int)
    requires
        0 <= i < outputs.len(),
        outputs[i] == JqOutput::Bool(true) || outputs[i] == JqOutput::Other,
    ensures
        verdict_of(outputs, ended) == Some(true),
{
    assert(truthy(outputs[i]));
}

/// A run that gave nothing but nulls, `false` and errors says nothing until it has
/// ended, and then refuses its input.
pub proof fn other_outputs_do_not_pass(outputs: Seq<JqOutput>)
    requires
        forall|i: int|
            0 <= i < outputs.len() ==> (#[trigger] outputs[i] == JqOutput::Null || outputs[i]
                == JqOutput::Bool(false) || outputs[i] == JqOutput::Failure),
    ensures
        verdict_of(outputs, false) is None,
        verdict_of(outputs, true) == Some(false),
{
    assert forall|i: int| 0 <= i < outputs.len() implies !truthy(#[trigger] outputs[i]) by {
        let output = outputs[i];
        assert(output == JqOutput::Null || output == JqOutput::Bool(false) || output
            == JqOutput::Failure);
    }
}

/// What is heard of a run grows output by output, until the run ends.
pub proof fn outputs_are_heard_in_order(hearing: HearingView, output: JqOutput)
    ensures
        heard(hearing, Some(output)).outputs == hearing.outputs.push(output),
        heard(hearing, Some(output)).ended == hearing.ended,
        heard(hearing, None).outputs == hearing.outputs,
        heard(hearing, None).ended,
{
}

/// An expression is refused exactly when it does not compile, with the expression
/// as it is and the reason.
pub proof fn refused_expressions_are_named(expression: Seq<char>)
    ensures
        jq_fault(expression) is None <==> expression_fault(expression) is None,
        jq_fault(expression) matches Some(reason) ==> expression_fault(expression) == Some(
            Fault::Jq { expression, reason },
        ),
{
}

} // verus!
