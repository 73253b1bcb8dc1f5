//! Decisions of the compile loop: what to do with the outcome of compiling
//! the watched shader.
use vstd::prelude::*;
use crate::program::UniformGroup;
use crate::reflect::{BindingInfo, ReflectError, binding_ok, error_for, grouped, uniform_groups};

verus! {

/// What compiling the shader file gave.
pub enum CompileOutcome {
    /// Bytecode whose reflected bindings are these.
    Compiled(Vec<BindingInfo>),
    /// The compiler rejected the source, with this diagnostic.
    Diagnostic(String),
    /// The compiler itself failed.
    BackendFailure(String),
}

/// What the compile loop does next.
pub enum CompileAction {
    /// Build a program with these uniform groups and hand it over.
    Publish(Vec<UniformGroup>),
    /// Log the layout error and wait for the next change.
    ReportLayout(ReflectError),
    /// Log the diagnostic and wait for the next change.
    ReportDiagnostic(String),
    /// Stop: the compiler is broken.
    Abort(String),
}

/// Authoring errors are reported and the loop goes on; only a failure of the
/// compiler itself stops it.
pub fn next_action(outcome: CompileOutcome) -> (r: CompileAction)
    ensures
        match outcome {
            CompileOutcome::Compiled(bs) => match r {
                CompileAction::Publish(groups) => {
                    &&& forall|i: int| 0 <= i < bs@.len() ==> #[trigger] binding_ok(bs@[i])
                    &&& grouped(groups@, bs@)
                },
                CompileAction::ReportLayout(e) => exists|i: int| {
                    &&& 0 <= i < bs@.len()
                    &&& (forall|j: int| 0 <= j < i ==> #[trigger] binding_ok(bs@[j]))
                    &&& !binding_ok(bs@[i])
                    &&& error_for(bs@[i], e)
                },
                _ => false,
            },
            CompileOutcome::Diagnostic(d) => r == CompileAction::ReportDiagnostic(d),
            CompileOutcome::BackendFailure(m) => r == CompileAction::Abort(m),
        },
{
    match outcome {
        CompileOutcome::Compiled(bs) => match uniform_groups(&bs) {
            Ok(groups) => CompileAction::Publish(groups),
            Err(e) => CompileAction::ReportLayout(e),
        },
        CompileOutcome::Diagnostic(d) => CompileAction::ReportDiagnostic(d),
        CompileOutcome::BackendFailure(m) => CompileAction::Abort(m),
    }
}

} // verus!
