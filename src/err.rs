use vstd::prelude::*;

verus! {

/// Every error that the pipeline reports, by phase. `InvalidCode` is a
/// program that refers to a symbol, region or instruction that does not exist.
#[derive(Debug, PartialEq, Eq, Clone, Copy, Structural)]
pub enum ErrKind {
    LexErr,
    ParseErr,
    JumpNoLoop,
    ReDeclare,
    NoDeclare,
    ReImpl,
    FuncNoImpl,
    NoMainFunc,
    TypeErr,
    GlobalNeedConst,
    FormatErr,
    StackOverFlow,
    DivideZero,
    InvalidCode,
}

/// A result that is not a lexical error: phases after the lexer report
/// errors of their own.
pub open spec fn no_lex_err<T>(r: Result<T, ErrKind>) -> bool {
    r is Err ==> r->Err_0 != ErrKind::LexErr
}

/// The name of an error kind, as it is written in the source.
pub open spec fn err_name(e: ErrKind) -> Seq<char> {
    match e {
        ErrKind::LexErr => "LexErr"@,
        ErrKind::ParseErr => "ParseErr"@,
        ErrKind::JumpNoLoop => "JumpNoLoop"@,
        ErrKind::ReDeclare => "ReDeclare"@,
        ErrKind::NoDeclare => "NoDeclare"@,
        ErrKind::ReImpl => "ReImpl"@,
        ErrKind::FuncNoImpl => "FuncNoImpl"@,
        ErrKind::NoMainFunc => "NoMainFunc"@,
        ErrKind::TypeErr => "TypeErr"@,
        ErrKind::GlobalNeedConst => "GlobalNeedConst"@,
        ErrKind::FormatErr => "FormatErr"@,
        ErrKind::StackOverFlow => "StackOverFlow"@,
        ErrKind::DivideZero => "DivideZero"@,
        ErrKind::InvalidCode => "InvalidCode"@,
    }
}

impl ErrKind {
    /// The name of the error kind.
    pub fn to_string(&self) -> (r: String)
        ensures
            r@ == err_name(*self),
    {
        let s: &str = match self {
            ErrKind::LexErr => "LexErr",
            ErrKind::ParseErr => "ParseErr",
            ErrKind::JumpNoLoop => "JumpNoLoop",
            ErrKind::ReDeclare => "ReDeclare",
            ErrKind::NoDeclare => "NoDeclare",
            ErrKind::ReImpl => "ReImpl",
            ErrKind::FuncNoImpl => "FuncNoImpl",
            ErrKind::NoMainFunc => "NoMainFunc",
            ErrKind::TypeErr => "TypeErr",
            ErrKind::GlobalNeedConst => "GlobalNeedConst",
            ErrKind::FormatErr => "FormatErr",
            ErrKind::StackOverFlow => "StackOverFlow",
            ErrKind::DivideZero => "DivideZero",
            ErrKind::InvalidCode => "InvalidCode",
        };
        s.to_owned()
    }
}

} // verus!
