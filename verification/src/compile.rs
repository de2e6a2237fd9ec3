use vstd::prelude::*;

verus! {

/// One mond module to compile.
pub struct CompileUnit<'a> {
    /// The name of the Erlang module to produce.
    pub output_module_name: &'a str,
    /// The module's mond source text.
    pub source: &'a str,
    /// How diagnostics name the source (its file name).
    pub source_label: String,
}

/// What the mond compiler reported for one unit.
pub struct CompileReport {
    /// Whether it reported an error.
    pub has_errors: bool,
    /// The Erlang source it produced, if any.
    pub output: Option<String>,
}

/// The result of compiling one unit.
pub struct CompileOutput {
    pub output_module_name: String,
    /// The Erlang source, present exactly when the unit compiled without error.
    pub erl_source: Option<String>,
    pub had_errors: bool,
}

/// Whether `out` is what compiling `unit` gives when the compiler reported
/// `report`: the unit failed when the compiler reported an error or produced
/// no output, and only a unit that did not fail keeps its Erlang source.
pub open spec fn is_output_of(out: CompileOutput, unit: CompileUnit, report: CompileReport) -> bool {
    &&& out.output_module_name@ == unit.output_module_name@
    &&& out.had_errors == (report.has_errors || report.output is None)
    &&& out.erl_source == if out.had_errors {
        None
    } else {
        report.output
    }
}

/// Turns what the compiler reported for `unit` into its compile output.
pub fn compile_unit(unit: &CompileUnit, report: &CompileReport) -> (out: CompileOutput)
    ensures
        is_output_of(out, *unit, *report),
{
    let had_errors = report.has_errors || report.output.is_none();
    let erl_source = if had_errors {
        None
    } else {
        match &report.output {
            Some(text) => Some(text.clone()),
            None => None,
        }
    };
    CompileOutput { output_module_name: unit.output_module_name.to_owned(), erl_source, had_errors }
}

/// Turns what the compiler reported for each unit (`reports[i]` for `units[i]`)
/// into the units' outputs, and says whether any unit failed.
pub fn compile_units(units: &[CompileUnit], reports: &[CompileReport]) -> (res: (
    Vec<CompileOutput>,
    bool,
))
    requires
        units@.len() == reports@.len(),
    ensures
        res.0@.len() == units@.len(),
        forall|i: int| 0 <= i < units@.len() ==> is_output_of(#[trigger] res.0@[i], units@[i], reports@[i]),
        res.1 == exists|i: int| 0 <= i < res.0@.len() && (#[trigger] res.0@[i]).had_errors,
{
    let mut had_error = false;
    let mut outputs: Vec<CompileOutput> = Vec::new();
    let n = units.len();
    let mut i: usize = 0;
    while i < n
        invariant
            n == units@.len(),
            n == reports@.len(),
            i <= n,
            outputs@.len() == i,
            forall|k: int| 0 <= k < i ==> is_output_of(#[trigger] outputs@[k], units@[k], reports@[k]),
            had_error == exists|k: int| 0 <= k < i && (#[trigger] outputs@[k]).had_errors,
        decreases n - i,
    {
        let output = compile_unit(&units[i], &reports[i]);
        let ghost prev = outputs@;
        let ghost prev_error = had_error;
        had_error = had_error || output.had_errors;
        outputs.push(output);
        proof {
            assert forall|k: int| 0 <= k < i implies #[trigger] outputs@[k] == prev[k] by {}
            if prev_error {
                let k = choose|k: int| 0 <= k < i && (#[trigger] prev[k]).had_errors;
                assert(outputs@[k] == prev[k]);
            }
            assert(outputs@[i as int].had_errors ==> exists|k: int| 0 <= k < i + 1 && (#[trigger] outputs@[k]).had_errors);
        }
        i = i + 1;
    }
    (outputs, had_error)
}

/// The name of the file that holds the Erlang source of a module.
pub fn erl_file_name(output_module_name: &str) -> (name: String)
    ensures
        name@ == output_module_name@ + ".erl"@,
{
    let mut name = output_module_name.to_owned();
    name.append(".erl");
    name
}

/// A compiled unit keeps its Erlang source exactly when it did not fail.
pub proof fn law_source_kept_iff_no_error(out: CompileOutput, unit: CompileUnit, report: CompileReport)
    requires
        is_output_of(out, unit, report),
    ensures
        out.erl_source is Some <==> !out.had_errors,
{
}

/// A batch of units failed exactly when some unit has no Erlang source: with
/// outputs and failure flag as `compile_units` gives them, the batch did not
/// fail if and only if every unit kept its Erlang source.
pub proof fn law_batch_ok_iff_all_sources(
    outputs: Seq<CompileOutput>,
    units: Seq<CompileUnit>,
    reports: Seq<CompileReport>,
    had_error: bool,
)
    requires
        outputs.len() == units.len(),
        units.len() == reports.len(),
        forall|i: int| 0 <= i < units.len() ==> is_output_of(#[trigger] outputs[i], units[i], reports[i]),
        had_error == exists|i: int| 0 <= i < outputs.len() && (#[trigger] outputs[i]).had_errors,
    ensures
        !had_error <==> forall|i: int| 0 <= i < outputs.len() ==> (#[trigger] outputs[i]).erl_source is Some,
{
    if had_error {
        let i = choose|i: int| 0 <= i < outputs.len() && (#[trigger] outputs[i]).had_errors;
        assert(is_output_of(outputs[i], units[i], reports[i]));
    } else {
        assert forall|i: int| 0 <= i < outputs.len() implies (#[trigger] outputs[i]).erl_source is Some by {
            assert(is_output_of(outputs[i], units[i], reports[i]));
        }
    }
}

/// What compiling a unit gives, in terms of the compiler's report: a reported
/// error, or no output, makes the unit fail with no Erlang source; otherwise it
/// succeeds with exactly the output; the module name is kept.
pub proof fn law_compile_unit_outcome(out: CompileOutput, unit: CompileUnit, report: CompileReport)
    requires
        is_output_of(out, unit, report),
    ensures
        out.output_module_name@ == unit.output_module_name@,
        report.has_errors ==> out.had_errors && out.erl_source is None,
        report.output is None ==> out.had_errors && out.erl_source is None,
        !report.has_errors && report.output is Some ==> !out.had_errors && out.erl_source
            == report.output,
{
}

} // verus!
