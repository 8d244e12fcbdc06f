//! Reading a source file into top-level declarations, with the Rust parser of
//! `ra_ap_syntax`.
use vstd::prelude::*;
use ra_ap_syntax::ast::{self, HasModuleItem, HasName};
use ra_ap_syntax::AstNode;
use crate::decl::{DeclKind, DeclView, Declaration, decls_view, is_definition, str_view, strs_view};
use crate::error::ExtractError;

verus! {

#[verifier::external_type_specification]
#[verifier::external_body]
pub struct ExItem(ra_ap_syntax::ast::Item);

/// Whether the Rust parser reports errors on a text.
pub uninterp spec fn has_syntax_errors(text: Seq<char>) -> bool;

/// The top-level declarations the Rust parser finds in a text, in file order,
/// as plain values.
pub uninterp spec fn source_decls(text: Seq<char>) -> Seq<DeclView>;

/// The items of a parsed text, kept with the text they were parsed from. Only
/// `parse_source` makes one.
struct ParsedFile {
    items: Vec<ast::Item>,
    text: String,
}

/// The token texts among the elements of a type, as views.
pub open spec fn elements_view(o: Option<Vec<Option<String>>>) -> Option<Seq<Seq<char>>> {
    match o {
        Some(v) => Some(strs_view(present(v@))),
        None => None,
    }
}

/// Relies on `SourceFile::parse`, `Parse::errors` and `HasModuleItem::items`:
/// the top-level items of the parsed file, one for each declaration, or
/// nothing where the parser reports an error. Both depend on the text alone.
#[verifier::external_body]
fn parse_source(text: &str) -> (r: Option<ParsedFile>)
    ensures
        r is None <==> has_syntax_errors(text@),
        r matches Some(f) ==> f.text@ == text@ && f.items@.len() == source_decls(text@).len(),
{
    let parse = ra_ap_syntax::SourceFile::parse(text, ra_ap_syntax::Edition::Edition2021);
    if parse.errors().is_empty() {
        Some(ParsedFile { items: parse.tree().items().collect(), text: text.to_string() })
    } else {
        None
    }
}

/// Relies on the variants of `ast::Item`: the kind of an item that is not a
/// named definition.
#[verifier::external_body]
fn item_kind(f: &ParsedFile, i: usize) -> (r: Option<DeclKind>)
    requires
        i < f.items@.len(),
    ensures
        r is Some <==> !is_definition(source_decls(f.text@)[i as int].kind),
        r matches Some(k) ==> k == source_decls(f.text@)[i as int].kind,
{
    match &f.items[i] {
        ast::Item::Use(_) => Some(DeclKind::Import),
        ast::Item::Fn(_) => Some(DeclKind::Function),
        ast::Item::Impl(_) => Some(DeclKind::Impl),
        ast::Item::ExternBlock(_) => Some(DeclKind::ExternBlock),
        ast::Item::ExternCrate(_) => Some(DeclKind::ExternCrateRef),
        ast::Item::MacroCall(_) => Some(DeclKind::MacroInvocation),
        ast::Item::AsmExpr(_) => Some(DeclKind::MacroInvocation),
        ast::Item::Const(_) => Some(DeclKind::Const),
        ast::Item::Enum(_) => Some(DeclKind::Enum),
        _ => None,
    }
}

/// Relies on the variants of `ast::Item`: the kind of a named definition.
#[verifier::external_body]
fn definition_kind(f: &ParsedFile, i: usize) -> (r: Option<DeclKind>)
    requires
        i < f.items@.len(),
    ensures
        r is Some <==> is_definition(source_decls(f.text@)[i as int].kind),
        r matches Some(k) ==> k == source_decls(f.text@)[i as int].kind,
{
    match &f.items[i] {
        ast::Item::MacroDef(_) => Some(DeclKind::MacroDef),
        ast::Item::MacroRules(_) => Some(DeclKind::MacroRulesDef),
        ast::Item::Module(_) => Some(DeclKind::Module),
        ast::Item::Static(_) => Some(DeclKind::Static),
        ast::Item::Struct(_) => Some(DeclKind::Struct),
        ast::Item::Trait(_) => Some(DeclKind::Trait),
        ast::Item::TypeAlias(_) => Some(DeclKind::TypeAlias),
        ast::Item::Union(_) => Some(DeclKind::Union),
        _ => None,
    }
}

/// Relies on `AnyHasName` and `HasName::name`: the identifier an item declares.
#[verifier::external_body]
fn item_name(f: &ParsedFile, i: usize) -> (r: Option<String>)
    requires
        i < f.items@.len(),
    ensures
        str_view(r) == source_decls(f.text@)[i as int].name,
{
    ast::AnyHasName::cast(f.items[i].syntax().clone())
        .and_then(|n| n.name())
        .map(|n| n.text().to_string())
}

/// Relies on `Display` for `ast::Item`: the item's source text.
#[verifier::external_body]
fn item_text(f: &ParsedFile, i: usize) -> (r: String)
    requires
        i < f.items@.len(),
    ensures
        r@ == source_decls(f.text@)[i as int].text,
{
    f.items[i].to_string()
}

/// Relies on `ast::Fn::async_token`: whether an item is an `async` function.
#[verifier::external_body]
fn function_is_async(f: &ParsedFile, i: usize) -> (r: bool)
    requires
        i < f.items@.len(),
    ensures
        r == source_decls(f.text@)[i as int].is_async,
{
    match &f.items[i] {
        ast::Item::Fn(func) => func.async_token().is_some(),
        _ => false,
    }
}

/// Relies on `ast::Fn::body`: the text of a function's body block.
#[verifier::external_body]
fn function_body_text(f: &ParsedFile, i: usize) -> (r: Option<String>)
    requires
        i < f.items@.len(),
    ensures
        str_view(r) == source_decls(f.text@)[i as int].body,
{
    match &f.items[i] {
        ast::Item::Fn(func) => func.body().map(|b| b.to_string()),
        _ => None,
    }
}

/// Relies on `ast::Impl::self_ty` and rowan's `descendants_with_tokens`: each
/// element of the self type, with its text where it is a token.
#[verifier::external_body]
fn impl_self_elements(f: &ParsedFile, i: usize) -> (r: Option<Vec<Option<String>>>)
    requires
        i < f.items@.len(),
    ensures
        elements_view(r) == source_decls(f.text@)[i as int].self_ty,
{
    match &f.items[i] {
        ast::Item::Impl(im) => im.self_ty().map(|t| {
            t.syntax().descendants_with_tokens().map(|e| e.into_token().map(|k| k.text().to_string())).collect()
        }),
        _ => None,
    }
}

/// Relies on `ast::Impl::trait_` and rowan's `descendants_with_tokens`: each
/// element of the implemented trait, with its text where it is a token.
#[verifier::external_body]
fn impl_trait_elements(f: &ParsedFile, i: usize) -> (r: Option<Vec<Option<String>>>)
    requires
        i < f.items@.len(),
    ensures
        elements_view(r) == source_decls(f.text@)[i as int].trait_ty,
{
    match &f.items[i] {
        ast::Item::Impl(im) => im.trait_().map(|t| {
            t.syntax().descendants_with_tokens().map(|e| e.into_token().map(|k| k.text().to_string())).collect()
        }),
        _ => None,
    }
}

/// The texts that are present, in order.
pub open spec fn present(v: Seq<Option<String>>) -> Seq<String>
    decreases v.len(),
{
    if v.len() == 0 {
        seq![]
    } else {
        match v.last() {
            Some(s) => present(v.drop_last()).push(s),
            None => present(v.drop_last()),
        }
    }
}

/// The token texts among the elements of a type.
pub fn leaf_texts(v: Option<Vec<Option<String>>>) -> (r: Option<Vec<String>>)
    ensures
        match v {
            Some(es) => r matches Some(ts) && ts@ == present(es@),
            None => r is None,
        },
{
    match v {
        None => None,
        Some(es) => {
            let mut ts: Vec<String> = Vec::new();
            let mut k: usize = 0;
            while k < es.len()
                invariant
                    k <= es@.len(),
                    ts@ == present(es@.take(k as int)),
                decreases es@.len() - k,
            {
                assert(es@.take(k + 1).drop_last() =~= es@.take(k as int));
                match &es[k] {
                    Some(s) => ts.push(s.clone()),
                    None => {},
                }
                k = k + 1;
            }
            assert(es@.take(k as int) =~= es@);
            Some(ts)
        },
    }
}

/// The declaration of item `i`, as plain values.
fn declaration_of(f: &ParsedFile, i: usize) -> (r: Declaration)
    requires
        i < f.items@.len(),
    ensures
        r@ == source_decls(f.text@)[i as int],
{
    let kind = match item_kind(f, i) {
        Some(k) => k,
        None => match definition_kind(f, i) {
            Some(k) => k,
            None => {
                assert(false);
                DeclKind::Import
            },
        },
    };
    let r = Declaration {
        kind,
        name: item_name(f, i),
        text: item_text(f, i),
        is_async: function_is_async(f, i),
        body: function_body_text(f, i),
        self_ty: leaf_texts(impl_self_elements(f, i)),
        trait_ty: leaf_texts(impl_trait_elements(f, i)),
    };
    assert(r@ =~= source_decls(f.text@)[i as int]);
    r
}

/// The top-level declarations of a source text, in file order; fails with a
/// syntax error exactly where the parser reports one.
pub fn parse_file(text: &str) -> (r: Result<Vec<Declaration>, ExtractError>)
    ensures
        r is Err <==> has_syntax_errors(text@),
        r matches Err(e) ==> e is Syntax,
        r matches Ok(ds) ==> decls_view(ds@) == source_decls(text@),
{
    match parse_source(text) {
        None => Err(ExtractError::Syntax),
        Some(f) => {
            let ghost want = source_decls(text@);
            let mut ds: Vec<Declaration> = Vec::new();
            let mut k: usize = 0;
            while k < f.items.len()
                invariant
                    k <= f.items@.len(),
                    f.text@ == text@,
                    f.items@.len() == want.len(),
                    want == source_decls(text@),
                    decls_view(ds@) == want.take(k as int),
                decreases f.items@.len() - k,
            {
                let d = declaration_of(&f, k);
                let ghost before = ds@;
                ds.push(d);
                assert(decls_view(ds@) =~= want.take(k + 1)) by {
                    assert(decls_view(ds@) =~= decls_view(before).push(d@));
                }
                k = k + 1;
            }
            assert(want.take(k as int) =~= want);
            Ok(ds)
        },
    }
}

} // verus!
