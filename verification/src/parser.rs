//! Import extraction: the module names a Python source file's
//! top-level import statements refer to.
use vstd::prelude::*;

use rustpython_parser::ast::{Mod, Stmt};

use crate::engine::DetectEngineError;
use crate::strutil::str_view;

verus! {

/// The module names of a Python source text's top-level import
/// statements, in document order: each imported module name of a plain
/// `import`, and the source module name of a `from ... import`.
/// Nothing, if the text is not valid Python.  The text alone decides.
pub uninterp spec fn imports_of(src: Seq<char>) -> Option<Seq<Seq<char>>>;

/// Relies on rustpython_parser::parse: parses the text as a Python
/// module and collects the imported module names as `imports_of`
/// describes; parsing is deterministic, so the result is a function of
/// the text alone.  A text that is not valid Python yields nothing.
#[verifier::external_body]
fn parse_imports(py_code: &str) -> (r: Option<Vec<String>>)
    ensures
        match r {
            Some(v) => imports_of(py_code@) == Some(v@.map_values(str_view())),
            None => imports_of(py_code@) is None,
        },
{
    let parsed = rustpython_parser::parse(py_code, rustpython_parser::Mode::Module, "<embedded>");
    let Ok(Mod::Module(m)) = parsed else { return None };
    let mut out: Vec<String> = Vec::new();
    for stmt in m.body {
        match stmt {
            Stmt::Import(s) => out.extend(s.names.into_iter().map(|a| a.name.to_string())),
            Stmt::ImportFrom(s) => out.extend(s.module.map(|name| name.to_string())),
            _ => {},
        }
    }
    Some(out)
}

/// Extracts the imports of a Python source text.  A text that cannot
/// be parsed is a parse error, distinguishable from a module that
/// imports nothing.
pub fn extract_dependencies(py_code: &str) -> (r: Result<Vec<String>, DetectEngineError>)
    ensures
        match r {
            Ok(v) => imports_of(py_code@) == Some(v@.map_values(str_view())),
            Err(e) => imports_of(py_code@) is None && e == DetectEngineError::Parsing,
        },
{
    match parse_imports(py_code) {
        Some(v) => Ok(v),
        None => Err(DetectEngineError::Parsing),
    }
}

} // verus!
