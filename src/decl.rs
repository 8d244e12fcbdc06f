//! Top-level declarations of a source file, as plain values.
use vstd::prelude::*;

verus! {

/// The kinds of declaration that can stand at the top level of a file. A trait
/// alias is a `Trait`, as the parser reads it; `global_asm!` is a
/// `MacroInvocation`.
#[derive(Clone, Copy, PartialEq, Eq, Structural, Debug)]
pub enum DeclKind {
    Import,
    Function,
    Const,
    Enum,
    ExternBlock,
    ExternCrateRef,
    Impl,
    MacroInvocation,
    MacroRulesDef,
    MacroDef,
    Module,
    Static,
    Struct,
    Trait,
    TypeAlias,
    Union,
}

/// One top-level declaration: its kind, its name if it has one, and its text.
/// A function also carries whether it is `async` and the text of its body (with
/// its braces); an `impl` block carries the token texts of its self type and
/// of its trait.
#[derive(Clone, Debug)]
pub struct Declaration {
    pub kind: DeclKind,
    pub name: Option<String>,
    pub text: String,
    pub is_async: bool,
    pub body: Option<String>,
    pub self_ty: Option<Vec<String>>,
    pub trait_ty: Option<Vec<String>>,
}

pub ghost struct DeclView {
    pub kind: DeclKind,
    pub name: Option<Seq<char>>,
    pub text: Seq<char>,
    pub is_async: bool,
    pub body: Option<Seq<char>>,
    pub self_ty: Option<Seq<Seq<char>>>,
    pub trait_ty: Option<Seq<Seq<char>>>,
}

pub open spec fn str_view(o: Option<String>) -> Option<Seq<char>> {
    match o {
        Some(s) => Some(s@),
        None => None,
    }
}

pub open spec fn strs_view(v: Seq<String>) -> Seq<Seq<char>> {
    v.map_values(|s: String| s@)
}

pub open spec fn tokens_view(o: Option<Vec<String>>) -> Option<Seq<Seq<char>>> {
    match o {
        Some(v) => Some(strs_view(v@)),
        None => None,
    }
}

impl View for Declaration {
    type V = DeclView;

    open spec fn view(&self) -> DeclView {
        DeclView {
            kind: self.kind,
            name: str_view(self.name),
            text: self.text@,
            is_async: self.is_async,
            body: str_view(self.body),
            self_ty: tokens_view(self.self_ty),
            trait_ty: tokens_view(self.trait_ty),
        }
    }
}

pub open spec fn decls_view(ds: Seq<Declaration>) -> Seq<DeclView> {
    ds.map_values(|d: Declaration| d@)
}



/// The kinds that are named definitions: taken in when their name is requested.
pub open spec fn is_definition(k: DeclKind) -> bool {
    match k {
        DeclKind::MacroDef | DeclKind::MacroRulesDef | DeclKind::Module | DeclKind::Static
        | DeclKind::Struct | DeclKind::Trait | DeclKind::TypeAlias | DeclKind::Union => true,
        _ => false,
    }
}

} // verus!
