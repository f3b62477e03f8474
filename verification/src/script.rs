//! The scripts of a fetcher run: the ones that set the globals up, the wrapper
//! around the user's module, and what is reported of a script that fails.

use vstd::prelude::*;

use crate::scan;
use crate::scan::find_default_export;
use crate::text::{chars_of, join2, join3, string_of};

verus! {

/// Defines `setTimeout` and `clearTimeout` on top of the native functions.
pub const TIMER_SHIM: &'static str = r#"
((globalThis) => {
  "use strict";
  const { ObjectDefineProperty } = globalThis.__primordials;

  ObjectDefineProperty(globalThis, "setTimeout", {
    value: function setTimeout(callback, delay) {
      if (typeof callback !== "function") {
        throw new TypeError("setTimeout: first argument must be a function");
      }
      return __native_set_timeout(callback, delay || 0);
    },
    writable: false,
    enumerable: false,
    configurable: false,
  });

  ObjectDefineProperty(globalThis, "clearTimeout", {
    value: function clearTimeout(id) {
      __native_clear_timeout(id || 0);
    },
    writable: false,
    enumerable: false,
    configurable: false,
  });
})(globalThis);
"#;

/// What stands before the user's module.
pub const MODULE_HEAD: &'static str = r#"
        (function() {
            const __module = {};
            const __exports = {};
            (function(module, exports) {
                "#;

/// What stands behind the user's module.
pub const MODULE_TAIL: &'static str = r#"
            })(__module, __exports);

            // `module.exports = { ... }`, `exports.default = { ... }` (also what
            // `export default { ... }` becomes), or members of `exports`.
            return __module.exports || __exports.default || __exports;
        })()
        "#;

// ---- the user's module ----

/// A module as a function body: a default export at its top level becomes an
/// assignment to the exports, anything else stays as it is.
pub open spec fn module_body(script: Seq<char>) -> Seq<char> {
    match scan::default_export(script) {
        Some(found) => script.take(script.len() - found.len()) + "__exports.default ="@
            + scan::exported(found),
        None => script,
    }
}

/// The text of a module as it is compiled.
pub open spec fn module_text(script: Seq<char>) -> Seq<char> {
    MODULE_HEAD@ + module_body(script) + MODULE_TAIL@
}

/// A default export becomes an assignment wherever it stands at the top level of
/// a module: at its start or behind other code, with any whitespace between its
/// words. Nothing else is changed.
pub proof fn law_default_exports_are_assigned(
    front: Seq<char>,
    gap: Seq<char>,
    rest: Seq<char>,
)
    requires
        front.len() == 0 || scan::ends_at_top(front, scan::start()),
        gap.len() > 0,
        forall|i: int| 0 <= i < gap.len() ==> scan::is_blank(#[trigger] gap[i]),
        rest.len() > 0 ==> !scan::is_name_char(rest[0]),
    ensures
        module_body(front + ("export"@ + gap + "default"@ + rest)) == front
            + "__exports.default ="@ + rest,
{
    let found = "export"@ + gap + "default"@ + rest;
    let script = front + found;
    scan::law_any_whitespace_parts_the_words(gap, rest);
    if front.len() == 0 {
        reveal_strlit("export");
        assert(script =~= found);
        assert(scan::from_code(found) == found);
        scan::law_first_export_is_found(found);
    } else {
        scan::law_later_export_is_found(front, found);
    }
    assert(script.take(script.len() - found.len()) =~= front);
}

/// A default export behind whitespace and comments alone becomes an assignment,
/// whatever follows it.
pub proof fn law_first_export_is_assigned(script: Seq<char>)
    requires
        scan::starts_export(scan::from_code(script)),
    ensures
        module_body(script) == script.take(script.len() - scan::from_code(script).len())
            + "__exports.default ="@ + scan::exported(scan::from_code(script)),
{
    scan::law_first_export_is_found(script);
}

/// Whatever the module is, it runs in a function of its own, to which `module` and
/// `exports` are given, and what it has put there is the value of the whole.
pub proof fn law_a_module_is_given_its_exports(script: Seq<char>)
    ensures
        module_text(script) == r#"
        (function() {
            const __module = {};
            const __exports = {};
            (function(module, exports) {
                "#@ + module_body(script) + r#"
            })(__module, __exports);

            // `module.exports = { ... }`, `exports.default = { ... }` (also what
            // `export default { ... }` becomes), or members of `exports`.
            return __module.exports || __exports.default || __exports;
        })()
        "#@,
{
}

/// A module in which no default export is found is compiled as it is, all of it.
pub proof fn law_other_modules_stay_whole(script: Seq<char>)
    requires
        scan::default_export(script) is None,
    ensures
        module_body(script) == script,
        module_text(script) == MODULE_HEAD@ + script + MODULE_TAIL@,
{
}

/// A module without the word `export` in it is compiled as it is, all of it.
pub proof fn law_nothing_changes_without_an_export(script: Seq<char>)
    requires
        forall|i: int|
            0 <= i <= script.len() - 6 ==> #[trigger] script.subrange(i, i + 6) != "export"@,
    ensures
        module_body(script) == script,
        module_text(script) == MODULE_HEAD@ + script + MODULE_TAIL@,
{
    scan::law_an_export_is_part_of_the_script(script);
    if let Some(found) = scan::default_export(script) {
        let i = script.len() - found.len();
        reveal_strlit("export");
        assert(found.take(6) =~= script.subrange(i, i + 6));
    }
}

/// Where a module changes, the two words of its default export and what stands
/// between them become an assignment; the text before them and the text behind
/// them stay.
pub proof fn law_only_the_words_of_an_export_change(script: Seq<char>) -> (r: (
    Seq<char>,
    Seq<char>,
    Seq<char>,
))
    requires
        scan::default_export(script) is Some,
    ensures
        r.1.len() > 0,
        script == r.0 + "export"@ + r.1 + "default"@ + r.2,
        module_body(script) == r.0 + "__exports.default ="@ + r.2,
{
    scan::law_an_export_is_part_of_the_script(script);
    reveal_strlit("export");
    reveal_strlit("default");
    let found = scan::default_export(script)->0;
    let i = script.len() - found.len();
    let rest = scan::exported(found);
    let j = script.len() - rest.len() - 7;
    let front = script.take(i);
    let gap = script.subrange(i + 6, j);
    assert(found.take(6) =~= script.subrange(i, i + 6));
    assert(script =~= front + "export"@ + gap + "default"@ + rest);
    (front, gap, rest)
}

/// The text of the user's module as it is compiled: wrapped in a function that
/// is called at once and returns what the module exports.
pub fn wrap_module(script: &str) -> (r: String)
    ensures
        r@ == module_text(script@),
{
    let v = chars_of(script);
    match find_default_export(&v) {
        Some((from, to)) => {
            let front = string_of(&v, 0, from);
            let rest = string_of(&v, to, v.len());
            assert(front@ =~= script@.take(from as int));
            assert(rest@ =~= script@.skip(to as int));
            let body = join3(front.as_str(), "__exports.default =", rest.as_str());
            join3(MODULE_HEAD, body.as_str(), MODULE_TAIL)
        },
        None => join3(MODULE_HEAD, script, MODULE_TAIL),
    }
}

// ---- running a script ----

/// What came of compiling and running a script. An exception is given as text.
pub enum ScriptOutcome {
    /// The engine did not take the source text.
    NoSource,
    /// The script did not compile.
    NotCompiled { exception: Option<String> },
    /// The script did not run to its end.
    Failed { exception: Option<String> },
    /// The script ran; the engine keeps its value.
    Done,
}

/// What is reported of a script that came to `outcome`.
pub open spec fn script_report(filename: Seq<char>, outcome: ScriptOutcome) -> Option<Seq<char>> {
    match outcome {
        ScriptOutcome::NoSource => Some("Failed to create source string for "@ + filename),
        ScriptOutcome::NotCompiled { exception: Some(e) } => Some(filename + ": "@ + e@),
        ScriptOutcome::NotCompiled { exception: None } => Some("Failed to compile "@ + filename),
        ScriptOutcome::Failed { exception: Some(e) } => Some(filename + ": "@ + e@),
        ScriptOutcome::Failed { exception: None } => Some(filename + ": execution failed"@),
        ScriptOutcome::Done => None,
    }
}

/// Whether a script may be built upon: an error says what went wrong and in
/// which file.
pub fn run_script(filename: &str, outcome: ScriptOutcome) -> (r: Result<(), String>)
    ensures
        match script_report(filename@, outcome) {
            Some(message) => r matches Err(e) && e@ == message,
            None => r is Ok,
        },
{
    match outcome {
        ScriptOutcome::NoSource => Err(join2("Failed to create source string for ", filename)),
        ScriptOutcome::NotCompiled { exception } => match exception {
            Some(e) => Err(join3(filename, ": ", e.as_str())),
            None => Err(join2("Failed to compile ", filename)),
        },
        ScriptOutcome::Failed { exception } => match exception {
            Some(e) => Err(join3(filename, ": ", e.as_str())),
            None => Err(join2(filename, ": execution failed")),
        },
        ScriptOutcome::Done => Ok(()),
    }
}

/// A script that ran is not reported. Of any other it is said which file it is,
/// and what the exception is, where there is one.
pub proof fn law_a_failing_script_is_reported(filename: Seq<char>, outcome: ScriptOutcome)
    ensures
        script_report(filename, outcome) is None <==> outcome is Done,
        (outcome matches ScriptOutcome::NotCompiled { exception: Some(e) } ==> script_report(
            filename,
            outcome,
        ) == Some(filename + ": "@ + e@)),
        (outcome matches ScriptOutcome::Failed { exception: Some(e) } ==> script_report(
            filename,
            outcome,
        ) == Some(filename + ": "@ + e@)),
        (outcome matches ScriptOutcome::NotCompiled { exception: None } ==> script_report(
            filename,
            outcome,
        ) == Some("Failed to compile "@ + filename)),
        (outcome matches ScriptOutcome::Failed { exception: None } ==> script_report(filename, outcome)
            == Some(filename + ": execution failed"@)),
        outcome is NoSource ==> script_report(filename, outcome) == Some(
            "Failed to create source string for "@ + filename,
        ),
{
}

// ---- a script on its own ----

/// What came of evaluating a script on its own.
pub enum Evaluation {
    NoSource,
    NotCompiled,
    Failed,
    /// The value cannot be shown as text.
    NoText,
    Value { text: String },
}

/// The result of evaluating a script on its own: its value as text, or which
/// step failed.
pub fn execute_js(evaluation: Evaluation) -> (r: Result<String, String>)
    ensures
        match evaluation {
            Evaluation::NoSource => r matches Err(e) && e@ == "failed to create source string"@,
            Evaluation::NotCompiled => r matches Err(e) && e@ == "failed to compile script"@,
            Evaluation::Failed => r matches Err(e) && e@ == "script execution failed"@,
            Evaluation::NoText => r matches Err(e) && e@ == "failed to convert result to string"@,
            Evaluation::Value { text } => r matches Ok(s) && s@ == text@,
        },
{
    match evaluation {
        Evaluation::NoSource => Err("failed to create source string".to_string()),
        Evaluation::NotCompiled => Err("failed to compile script".to_string()),
        Evaluation::Failed => Err("script execution failed".to_string()),
        Evaluation::NoText => Err("failed to convert result to string".to_string()),
        Evaluation::Value { text } => Ok(text),
    }
}

} // verus!
