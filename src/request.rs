//! The two ways of asking for a fragment: a whole file, or one function with
//! the dependencies it names.
use vstd::prelude::*;
use crate::error::ExtractError;
use crate::extract::{contains_name, doc_function_body, extraction, names, outcome_of};
use crate::syntax::{has_syntax_errors, parse_file, source_decls};

verus! {

/// Fails exactly when the target is listed among its own dependencies.
pub fn check_usage(target: &str, deps: &Vec<String>) -> (r: Result<(), ExtractError>)
    ensures
        r is Err <==> names(deps@).contains(target@),
        r matches Err(e) ==> e is Usage,
{
    let t = String::from_str(target);
    if contains_name(deps, &t) {
        Err(ExtractError::Usage)
    } else {
        Ok(())
    }
}

/// Parses `source` and extracts `target` from its declarations.
pub fn extract_from_source(source: &str, target: &str, deps: &Option<Vec<String>>) -> (r: Result<String, ExtractError>)
    ensures
        has_syntax_errors(source@) ==> (r matches Err(ExtractError::Syntax)),
        !has_syntax_errors(source@) ==> outcome_of(r, target@) == Some(
            extraction(source_decls(source@), target@, *deps),
        ),
{
    match parse_file(source) {
        Err(e) => Err(e),
        Ok(decls) => doc_function_body(&decls, target, deps),
    }
}

/// The fragment of one function of `source` with the dependencies it names.
/// A target listed among its own dependencies fails before anything else.
pub fn function_body(source: &str, target: &str, deps: Vec<String>) -> (r: Result<String, ExtractError>)
    ensures
        names(deps@).contains(target@) ==> (r matches Err(ExtractError::Usage)),
        !names(deps@).contains(target@) && has_syntax_errors(source@) ==> (r matches Err(ExtractError::Syntax)),
        !names(deps@).contains(target@) && !has_syntax_errors(source@) ==> outcome_of(r, target@)
            == Some(extraction(source_decls(source@), target@, Some(deps))),
{
    match check_usage(target, &deps) {
        Err(e) => Err(e),
        Ok(()) => extract_from_source(source, target, &Some(deps)),
    }
}

/// The whole file as a fragment: every declaration, with the body of `main`.
pub fn source_file(source: &str) -> (r: Result<String, ExtractError>)
    ensures
        has_syntax_errors(source@) ==> (r matches Err(ExtractError::Syntax)),
        !has_syntax_errors(source@) ==> outcome_of(r, "main"@) == Some(
            extraction(source_decls(source@), "main"@, None),
        ),
{
    extract_from_source(source, "main", &None)
}

} // verus!
