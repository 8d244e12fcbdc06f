//! Why an extraction fails, and where the failure is reported.
use vstd::prelude::*;

verus! {

/// Where a failure is reported in the request that caused it.
#[derive(Clone, Copy, PartialEq, Eq, Structural, Debug)]
pub enum Location {
    /// The literal that names the source file.
    PathLiteral,
    /// The request as a whole.
    CallSite,
    /// The identifier of the target function.
    TargetIdent,
}

#[derive(Clone, Debug)]
pub enum ExtractError {
    /// The source file could not be read; the message says why.
    FileRead { message: String },
    /// The source file does not parse.
    Syntax,
    /// No function of the file has the target's name.
    FunctionNotFound { name: String },
    /// Requested dependencies that no declaration matched, sorted by character.
    DependencyNotFound { missing: Vec<String> },
    /// The target function is also listed among its own dependencies.
    Usage,
}

/// The names joined with `, ` between each two.
pub open spec fn comma_list(ns: Seq<Seq<char>>) -> Seq<char>
    decreases ns.len(),
{
    if ns.len() == 0 {
        seq![]
    } else if ns.len() == 1 {
        ns[0]
    } else {
        comma_list(ns.drop_last()) + seq![',', ' '] + ns.last()
    }
}

pub open spec fn error_message(e: ExtractError) -> Seq<char> {
    match e {
        ExtractError::FileRead { message } => message@,
        ExtractError::Syntax => "Errors in source file"@,
        ExtractError::FunctionNotFound { name } => name@ + " not found"@,
        ExtractError::DependencyNotFound { missing } => "Not all dependencies were found: ["@
            + comma_list(missing@.map_values(|s: String| s@)) + "]"@,
        ExtractError::Usage => "Function body can't be in dependencies"@,
    }
}

impl ExtractError {
    pub open spec fn spec_location(&self) -> Location {
        match self {
            ExtractError::FileRead { .. } => Location::PathLiteral,
            ExtractError::Syntax => Location::PathLiteral,
            ExtractError::FunctionNotFound { .. } => Location::TargetIdent,
            ExtractError::DependencyNotFound { .. } => Location::CallSite,
            ExtractError::Usage => Location::TargetIdent,
        }
    }

    pub fn location(&self) -> (r: Location)
        ensures
            r == self.spec_location(),
    {
        match self {
            ExtractError::FileRead { .. } => Location::PathLiteral,
            ExtractError::Syntax => Location::PathLiteral,
            ExtractError::FunctionNotFound { .. } => Location::TargetIdent,
            ExtractError::DependencyNotFound { .. } => Location::CallSite,
            ExtractError::Usage => Location::TargetIdent,
        }
    }

    /// The text of the diagnostic.
    pub fn message(&self) -> (r: String)
        ensures
            r@ == error_message(*self),
    {
        match self {
            ExtractError::FileRead { message } => message.clone(),
            ExtractError::Syntax => String::from_str("Errors in source file"),
            ExtractError::FunctionNotFound { name } => {
                let mut m = name.clone();
                m.append(" not found");
                m
            },
            ExtractError::DependencyNotFound { missing } => {
                let ghost ns = missing@.map_values(|s: String| s@);
                let mut m = String::from_str("Not all dependencies were found: [");
                let ghost head = m@;
                let mut k: usize = 0;
                while k < missing.len()
                    invariant
                        k <= missing@.len(),
                        ns == missing@.map_values(|s: String| s@),
                        m@ == head + comma_list(ns.take(k as int)),
                    decreases missing@.len() - k,
                {
                    assert(ns.take(k + 1).drop_last() =~= ns.take(k as int));
                    proof {
                        reveal_strlit(", ");
                    }
                    assert(ns[k as int] == missing@[k as int]@);
                    if k > 0 {
                        m.append(", ");
                    }
                    m.append(missing[k].as_str());
                    k = k + 1;
                    assert(m@ =~= head + comma_list(ns.take(k as int)));
                }
                assert(ns.take(k as int) =~= ns);
                m.append("]");
                m
            },
            ExtractError::Usage => String::from_str("Function body can't be in dependencies"),
        }
    }
}

} // verus!
