//! The parser: turns one source line into a typed [`Command`], and a file's
//! worth of lines into a command sequence, failing fast with the 1-based
//! number of the first bad line.
//!
//! Each runtime parser is specified against a spec-level parser over
//! `Seq<char>`; the spec parsers are the reference semantics of the source
//! language's grammar.

use vstd::prelude::*;

use crate::text::{
    find_char, is_space_char, parse_uint_bounded, rfind_char, spec_find, spec_parse_uint,
    spec_rfind, spec_trim, trim,
};

verus! {

// ---------------------------------------------------------------------------
// Data model
// ---------------------------------------------------------------------------

/// One of the four registers.
#[derive(Clone, Copy, Debug, PartialEq, Eq, Structural)]
pub enum Variable {
    A,
    B,
    C,
    D,
}

/// An operand: either a register reference or a literal number.
#[derive(Clone, Copy, Debug, PartialEq, Eq, Structural)]
pub enum VarOrNum {
    Variable(Variable),
    Num(u32),
}

/// A jump target: fall through, terminate, or a 1-based source line.
#[derive(Clone, Copy, Debug, PartialEq, Eq, PartialOrd, Ord, Structural)]
pub enum JumpDest {
    Next,
    End,
    Nth(usize),
}

/// A relational operator.
#[derive(Clone, Copy, Debug, PartialEq, Eq, PartialOrd, Ord, Structural)]
pub enum Comp {
    Lt,
    Le,
    Eq,
    Ne,
    Gt,
    Ge,
}

/// The test `a COMP b` of a conditional jump.
#[derive(Clone, Copy, Debug, PartialEq, Eq, Structural)]
pub struct Condition {
    pub a: Variable,
    pub comp: Comp,
    pub b: VarOrNum,
}

/// One instruction of the language.
#[derive(Clone, Debug, PartialEq, Eq)]
pub enum Command {
    Pvr(Variable),
    Ptx(String),
    Nln,
    Ltv(Variable),
    Assign(Variable, VarOrNum),
    Add(Variable, VarOrNum),
    Sub(Variable, VarOrNum),
    Ifj(Condition, JumpDest, JumpDest),
    Jmp(JumpDest),
}

/// The mathematical value of a [`Command`]: the same shape, with the printed
/// text abstracted to a character sequence.
pub ghost enum CommandV {
    Pvr(Variable),
    Ptx(Seq<char>),
    Nln,
    Ltv(Variable),
    Assign(Variable, VarOrNum),
    Add(Variable, VarOrNum),
    Sub(Variable, VarOrNum),
    Ifj(Condition, JumpDest, JumpDest),
    Jmp(JumpDest),
}

impl View for Command {
    type V = CommandV;

    open spec fn view(&self) -> CommandV {
        match self {
            Command::Pvr(v) => CommandV::Pvr(*v),
            Command::Ptx(t) => CommandV::Ptx(t@),
            Command::Nln => CommandV::Nln,
            Command::Ltv(v) => CommandV::Ltv(*v),
            Command::Assign(v, o) => CommandV::Assign(*v, *o),
            Command::Add(v, o) => CommandV::Add(*v, *o),
            Command::Sub(v, o) => CommandV::Sub(*v, *o),
            Command::Ifj(c, t, e) => CommandV::Ifj(*c, *t, *e),
            Command::Jmp(d) => CommandV::Jmp(*d),
        }
    }
}

// ---------------------------------------------------------------------------
// Error model
// ---------------------------------------------------------------------------

/// Why a token failed to parse as a [`Variable`].
#[derive(Clone, Copy, Debug, PartialEq, Eq, Structural)]
pub enum VariableFromStrError {
    InvalidVariable,
}

/// Why a token failed to parse as a [`VarOrNum`].
#[derive(Clone, Copy, Debug, PartialEq, Eq, Structural)]
pub enum VarOrNumFromStrError {
    ParseFailed,
}

/// Why a token failed to parse as a [`JumpDest`].
#[derive(Clone, Copy, Debug, PartialEq, Eq, Structural)]
pub enum JumpDestFromStrError {
    ParseFailed,
    IsZero,
}

/// Why a token failed to parse as a [`Comp`].
#[derive(Clone, Copy, Debug, PartialEq, Eq, Structural)]
pub enum CompFromStrError {
    ParseFailed,
}

/// Why a quoted string literal failed to parse.
#[derive(Clone, Copy, Debug, PartialEq, Eq, Structural)]
pub enum ParsePtxStr {
    NoQuotation,
    InvalidEscape(char),
}

/// Why a condition failed to parse.
#[derive(Clone, Copy, Debug, PartialEq, Eq, Structural)]
pub enum ConditionFromStrError {
    NotEnoughSegments,
    VariableParseError(VariableFromStrError),
    CompParseError(CompFromStrError),
    VarOrNumParseError(VarOrNumFromStrError),
}

/// The specific cause of a line failing to parse as a [`Command`].
#[derive(Clone, Copy, Debug, PartialEq, Eq, Structural)]
pub enum CommandFromStrErrorKind {
    CommandName,
    Text(ParsePtxStr),
    Variable(VariableFromStrError),
    VarOrNum(VarOrNumFromStrError),
    SetInvocation,
    JumpDest(JumpDestFromStrError),
    AddInvocation,
    SubInvocation,
    IfjInvocation,
    Condition(ConditionFromStrError),
}

/// A parse failure tagged with the 1-based number of the failing line.
#[derive(Clone, Copy, Debug, PartialEq, Eq, Structural)]
pub struct CommandFromStrError {
    pub line: usize,
    pub source: CommandFromStrErrorKind,
}

impl From<(usize, CommandFromStrErrorKind)> for CommandFromStrError {
    fn from(value: (usize, CommandFromStrErrorKind)) -> (r: CommandFromStrError) {
        CommandFromStrError { line: value.0, source: value.1 }
    }
}

impl vstd::std_specs::convert::FromSpecImpl<(usize, CommandFromStrErrorKind)> for CommandFromStrError {
    open spec fn obeys_from_spec() -> bool {
        true
    }

    open spec fn from_spec(value: (usize, CommandFromStrErrorKind)) -> CommandFromStrError {
        CommandFromStrError { line: value.0, source: value.1 }
    }
}

// ---------------------------------------------------------------------------
// Spec-level token parsers
// ---------------------------------------------------------------------------

/// The register a token names: exactly one of the letters `A` to `D`.
pub open spec fn spec_parse_variable(s: Seq<char>) -> Result<Variable, VariableFromStrError> {
    if s == seq!['A'] {
        Ok(Variable::A)
    } else if s == seq!['B'] {
        Ok(Variable::B)
    } else if s == seq!['C'] {
        Ok(Variable::C)
    } else if s == seq!['D'] {
        Ok(Variable::D)
    } else {
        Err(VariableFromStrError::InvalidVariable)
    }
}

/// An operand token: a register letter, else an unsigned 32-bit number.
pub open spec fn spec_parse_var_or_num(s: Seq<char>) -> Result<VarOrNum, VarOrNumFromStrError> {
    match spec_parse_variable(s) {
        Ok(v) => Ok(VarOrNum::Variable(v)),
        Err(_) => match spec_parse_uint(s) {
            Some(n) => if n <= u32::MAX {
                Ok(VarOrNum::Num(n as u32))
            } else {
                Err(VarOrNumFromStrError::ParseFailed)
            },
            None => Err(VarOrNumFromStrError::ParseFailed),
        },
    }
}

/// A jump-destination token: `NXT`/`NEXT`, `END`, or a positive line number.
/// The literal `0` is rejected as its own error.
pub open spec fn spec_parse_jump_dest(s: Seq<char>) -> Result<JumpDest, JumpDestFromStrError> {
    if s == seq!['N', 'X', 'T'] || s == seq!['N', 'E', 'X', 'T'] {
        Ok(JumpDest::Next)
    } else if s == seq!['E', 'N', 'D'] {
        Ok(JumpDest::End)
    } else {
        match spec_parse_uint(s) {
            Some(n) => if n > usize::MAX {
                Err(JumpDestFromStrError::ParseFailed)
            } else if n == 0 {
                Err(JumpDestFromStrError::IsZero)
            } else {
                Ok(JumpDest::Nth(n as usize))
            },
            None => Err(JumpDestFromStrError::ParseFailed),
        }
    }
}

/// A comparator token, in symbolic (`<=`) or mnemonic (`LE`) spelling.
pub open spec fn spec_parse_comp(s: Seq<char>) -> Result<Comp, CompFromStrError> {
    if s == seq!['<'] || s == seq!['L', 'T'] {
        Ok(Comp::Lt)
    } else if s == seq!['<', '='] || s == seq!['L', 'E'] {
        Ok(Comp::Le)
    } else if s == seq!['='] || s == seq!['E', 'Q'] {
        Ok(Comp::Eq)
    } else if s == seq!['!', '='] || s == seq!['N', 'E'] {
        Ok(Comp::Ne)
    } else if s == seq!['>'] || s == seq!['G', 'T'] {
        Ok(Comp::Gt)
    } else if s == seq!['>', '='] || s == seq!['G', 'E'] {
        Ok(Comp::Ge)
    } else {
        Err(CompFromStrError::ParseFailed)
    }
}

// ---------------------------------------------------------------------------
// Runtime token parsers
// ---------------------------------------------------------------------------

impl Variable {
    /// Parses a register letter.
    pub fn from_str(s: &str) -> (r: Result<Variable, VariableFromStrError>)
        ensures
            r == spec_parse_variable(s@),
    {
        if s.unicode_len() == 1 {
            let c = s.get_char(0);
            proof {
                assert(s@ =~= seq![c]);
            }
            if c == 'A' {
                Ok(Variable::A)
            } else if c == 'B' {
                Ok(Variable::B)
            } else if c == 'C' {
                Ok(Variable::C)
            } else if c == 'D' {
                Ok(Variable::D)
            } else {
                Err(VariableFromStrError::InvalidVariable)
            }
        } else {
            Err(VariableFromStrError::InvalidVariable)
        }
    }
}

impl VarOrNum {
    /// Parses an operand token: a register letter first, else a number.
    pub fn from_str(s: &str) -> (r: Result<VarOrNum, VarOrNumFromStrError>)
        ensures
            r == spec_parse_var_or_num(s@),
    {
        match Variable::from_str(s) {
            Ok(v) => Ok(VarOrNum::Variable(v)),
            Err(_) => match parse_uint_bounded(s, 0xFFFF_FFFFu64) {
                Some(n) => Ok(VarOrNum::Num(n as u32)),
                None => Err(VarOrNumFromStrError::ParseFailed),
            },
        }
    }
}

impl JumpDest {
    /// Parses a jump-destination token.
    pub fn from_str(s: &str) -> (r: Result<JumpDest, JumpDestFromStrError>)
        ensures
            r == spec_parse_jump_dest(s@),
    {
        let n = s.unicode_len();
        if n == 3 && s.get_char(0) == 'N' && s.get_char(1) == 'X' && s.get_char(2) == 'T' {
            proof {
                assert(s@ =~= seq!['N', 'X', 'T']);
            }
            Ok(JumpDest::Next)
        } else if n == 4 && s.get_char(0) == 'N' && s.get_char(1) == 'E' && s.get_char(2) == 'X'
            && s.get_char(3) == 'T' {
            proof {
                assert(s@ =~= seq!['N', 'E', 'X', 'T']);
            }
            Ok(JumpDest::Next)
        } else if n == 3 && s.get_char(0) == 'E' && s.get_char(1) == 'N' && s.get_char(2) == 'D' {
            proof {
                assert(s@ =~= seq!['E', 'N', 'D']);
            }
            Ok(JumpDest::End)
        } else {
            match parse_uint_bounded(s, usize::MAX as u64) {
                Some(v) => if v == 0 {
                    Err(JumpDestFromStrError::IsZero)
                } else {
                    Ok(JumpDest::Nth(v as usize))
                },
                None => Err(JumpDestFromStrError::ParseFailed),
            }
        }
    }
}

impl Comp {
    /// Parses a comparator token.
    pub fn from_str(s: &str) -> (r: Result<Comp, CompFromStrError>)
        ensures
            r == spec_parse_comp(s@),
    {
        let n = s.unicode_len();
        if n == 1 {
            let c = s.get_char(0);
            proof {
                assert(s@ =~= seq![c]);
            }
            if c == '<' {
                Ok(Comp::Lt)
            } else if c == '=' {
                Ok(Comp::Eq)
            } else if c == '>' {
                Ok(Comp::Gt)
            } else {
                Err(CompFromStrError::ParseFailed)
            }
        } else if n == 2 {
            let c0 = s.get_char(0);
            let c1 = s.get_char(1);
            proof {
                assert(s@ =~= seq![c0, c1]);
            }
            if c0 == '<' && c1 == '=' {
                Ok(Comp::Le)
            } else if c0 == '!' && c1 == '=' {
                Ok(Comp::Ne)
            } else if c0 == '>' && c1 == '=' {
                Ok(Comp::Ge)
            } else if c0 == 'L' && c1 == 'T' {
                Ok(Comp::Lt)
            } else if c0 == 'L' && c1 == 'E' {
                Ok(Comp::Le)
            } else if c0 == 'E' && c1 == 'Q' {
                Ok(Comp::Eq)
            } else if c0 == 'N' && c1 == 'E' {
                Ok(Comp::Ne)
            } else if c0 == 'G' && c1 == 'T' {
                Ok(Comp::Gt)
            } else if c0 == 'G' && c1 == 'E' {
                Ok(Comp::Ge)
            } else {
                Err(CompFromStrError::ParseFailed)
            }
        } else {
            Err(CompFromStrError::ParseFailed)
        }
    }
}

// ---------------------------------------------------------------------------
// Conditions
// ---------------------------------------------------------------------------

/// A condition `VAR COMP OPERAND`, split from the left into exactly three
/// space-separated segments; the third segment is the remainder and may not
/// itself contain spaces that survive operand parsing.
pub open spec fn spec_parse_condition(s: Seq<char>) -> Result<Condition, ConditionFromStrError> {
    let i1 = spec_find(s, ' ');
    let a_text = if i1 < 0 {
        s
    } else {
        s.subrange(0, i1)
    };
    match spec_parse_variable(a_text) {
        Err(e) => Err(ConditionFromStrError::VariableParseError(e)),
        Ok(a) => if i1 < 0 {
            Err(ConditionFromStrError::NotEnoughSegments)
        } else {
            let rest = s.subrange(i1 + 1, s.len() as int);
            let i2 = spec_find(rest, ' ');
            let comp_text = if i2 < 0 {
                rest
            } else {
                rest.subrange(0, i2)
            };
            match spec_parse_comp(comp_text) {
                Err(e) => Err(ConditionFromStrError::CompParseError(e)),
                Ok(comp) => if i2 < 0 {
                    Err(ConditionFromStrError::NotEnoughSegments)
                } else {
                    let b_text = rest.subrange(i2 + 1, rest.len() as int);
                    match spec_parse_var_or_num(b_text) {
                        Err(e) => Err(ConditionFromStrError::VarOrNumParseError(e)),
                        Ok(b) => Ok(Condition { a, comp, b }),
                    }
                },
            }
        },
    }
}

impl Condition {
    /// Parses a condition.
    pub fn from_str(s: &str) -> (r: Result<Condition, ConditionFromStrError>)
        ensures
            r == spec_parse_condition(s@),
    {
        let n = s.unicode_len();
        let (a_text, rest_opt) = match find_char(s, ' ') {
            Some(i1) => (s.substring_char(0, i1), Some(s.substring_char(i1 + 1, n))),
            None => (s, None),
        };
        let a = match Variable::from_str(a_text) {
            Ok(a) => a,
            Err(e) => {
                return Err(ConditionFromStrError::VariableParseError(e));
            },
        };
        let rest = match rest_opt {
            Some(rest) => rest,
            None => {
                return Err(ConditionFromStrError::NotEnoughSegments);
            },
        };
        let m = rest.unicode_len();
        let (comp_text, b_opt) = match find_char(rest, ' ') {
            Some(i2) => (rest.substring_char(0, i2), Some(rest.substring_char(i2 + 1, m))),
            None => (rest, None),
        };
        let comp = match Comp::from_str(comp_text) {
            Ok(c) => c,
            Err(e) => {
                return Err(ConditionFromStrError::CompParseError(e));
            },
        };
        let b_text = match b_opt {
            Some(b_text) => b_text,
            None => {
                return Err(ConditionFromStrError::NotEnoughSegments);
            },
        };
        match VarOrNum::from_str(b_text) {
            Ok(b) => Ok(Condition { a, comp, b }),
            Err(e) => Err(ConditionFromStrError::VarOrNumParseError(e)),
        }
    }
}

// ---------------------------------------------------------------------------
// Quoted string literals
// ---------------------------------------------------------------------------

/// The body of a quoted literal: characters after the opening quote are
/// copied into `acc` until an unescaped closing quote; `\"` and `\\` are the
/// only escapes.  Running out of characters is a missing-quotation error.
pub open spec fn spec_ptx_body(s: Seq<char>, acc: Seq<char>) -> Result<Seq<char>, ParsePtxStr>
    decreases s.len(),
{
    if s.len() == 0 {
        Err(ParsePtxStr::NoQuotation)
    } else if s[0] == '\\' {
        if s.len() == 1 {
            Err(ParsePtxStr::NoQuotation)
        } else if s[1] == '"' || s[1] == '\\' {
            spec_ptx_body(s.subrange(2, s.len() as int), acc.push(s[1]))
        } else {
            Err(ParsePtxStr::InvalidEscape(s[1]))
        }
    } else if s[0] == '"' {
        Ok(acc)
    } else {
        spec_ptx_body(s.subrange(1, s.len() as int), acc.push(s[0]))
    }
}

/// A quoted string literal: after trimming, the text must open with `"`; the
/// value is the unescaped body up to the first unescaped `"`.
pub open spec fn spec_parse_ptx(s: Seq<char>) -> Result<Seq<char>, ParsePtxStr> {
    let t = spec_trim(s);
    if t.len() == 0 || t[0] != '"' {
        Err(ParsePtxStr::NoQuotation)
    } else {
        spec_ptx_body(t.subrange(1, t.len() as int), Seq::empty())
    }
}

/// Parses a quoted string literal into the text it denotes.
pub fn parse_ptx_str(s: &str) -> (r: Result<String, ParsePtxStr>)
    ensures
        match r {
            Ok(text) => spec_parse_ptx(s@) == Ok::<Seq<char>, ParsePtxStr>(text@),
            Err(e) => spec_parse_ptx(s@) == Err::<Seq<char>, ParsePtxStr>(e),
        },
{
    let t = trim(s);
    let n = t.unicode_len();
    if n == 0 || t.get_char(0) != '"' {
        return Err(ParsePtxStr::NoQuotation);
    }
    let ghost body = t@.subrange(1, t@.len() as int);
    let mut out = String::new();
    let mut i: usize = 1;
    while i < n
        invariant
            n == t@.len(),
            1 <= i <= n,
            t@ == spec_trim(s@),
            t@[0] == '"',
            body == t@.subrange(1, t@.len() as int),
            spec_ptx_body(body, Seq::empty()) == spec_ptx_body(
                t@.subrange(i as int, t@.len() as int),
                out@,
            ),
        decreases n - i,
    {
        let ghost tail = t@.subrange(i as int, t@.len() as int);
        proof {
            assert(forall|j: int| 0 <= j < tail.len() ==> tail[j] == t@[i + j]);
        }
        let c = t.get_char(i);
        if c == '\\' {
            if i + 1 == n {
                proof {
                    assert(tail.len() == 1);
                }
                return Err(ParsePtxStr::NoQuotation);
            }
            let c2 = t.get_char(i + 1);
            if c2 == '"' || c2 == '\\' {
                out.push(c2);
                proof {
                    assert(tail.subrange(2, tail.len() as int) =~= t@.subrange(
                        i + 2,
                        t@.len() as int,
                    ));
                }
                i = i + 2;
            } else {
                return Err(ParsePtxStr::InvalidEscape(c2));
            }
        } else if c == '"' {
            return Ok(out);
        } else {
            out.push(c);
            proof {
                assert(tail.subrange(1, tail.len() as int) =~= t@.subrange(
                    i + 1,
                    t@.len() as int,
                ));
            }
            i = i + 1;
        }
    }
    proof {
        assert(t@.subrange(n as int, n as int).len() == 0);
    }
    Err(ParsePtxStr::NoQuotation)
}

// ---------------------------------------------------------------------------
// Whole commands
// ---------------------------------------------------------------------------

/// The `VAR OPERAND` argument pair of `SET`, `ADD` and `SUB`; a missing
/// second token is reported as `missing`, the mnemonic's own invocation
/// error.
pub open spec fn spec_parse_assign_args(rest: Seq<char>, missing: CommandFromStrErrorKind) -> Result<
    (Variable, VarOrNum),
    CommandFromStrErrorKind,
> {
    let j = spec_find(rest, ' ');
    if j < 0 {
        Err(missing)
    } else {
        match spec_parse_variable(rest.subrange(0, j)) {
            Err(e) => Err(CommandFromStrErrorKind::Variable(e)),
            Ok(var) => match spec_parse_var_or_num(rest.subrange(j + 1, rest.len() as int)) {
                Err(e) => Err(CommandFromStrErrorKind::VarOrNum(e)),
                Ok(von) => Ok((var, von)),
            },
        }
    }
}

/// One line's worth of text as a command: dispatch on the first
/// space-separated token.  A line without a space is either the bare `NLN`
/// or an invalid command name.
pub open spec fn spec_parse_command(s: Seq<char>) -> Result<CommandV, CommandFromStrErrorKind> {
    let i = spec_find(s, ' ');
    if i < 0 {
        if s == seq!['N', 'L', 'N'] {
            Ok(CommandV::Nln)
        } else {
            Err(CommandFromStrErrorKind::CommandName)
        }
    } else {
        let name = s.subrange(0, i);
        let rest = s.subrange(i + 1, s.len() as int);
        if name == seq!['P', 'V', 'R'] {
            match spec_parse_variable(rest) {
                Ok(v) => Ok(CommandV::Pvr(v)),
                Err(e) => Err(CommandFromStrErrorKind::Variable(e)),
            }
        } else if name == seq!['P', 'T', 'X'] {
            match spec_parse_ptx(rest) {
                Ok(t) => Ok(CommandV::Ptx(t)),
                Err(e) => Err(CommandFromStrErrorKind::Text(e)),
            }
        } else if name == seq!['L', 'T', 'V'] {
            match spec_parse_variable(rest) {
                Ok(v) => Ok(CommandV::Ltv(v)),
                Err(e) => Err(CommandFromStrErrorKind::Variable(e)),
            }
        } else if name == seq!['S', 'E', 'T'] {
            match spec_parse_assign_args(rest, CommandFromStrErrorKind::SetInvocation) {
                Ok((var, von)) => Ok(CommandV::Assign(var, von)),
                Err(e) => Err(e),
            }
        } else if name == seq!['A', 'D', 'D'] {
            match spec_parse_assign_args(rest, CommandFromStrErrorKind::AddInvocation) {
                Ok((var, von)) => Ok(CommandV::Add(var, von)),
                Err(e) => Err(e),
            }
        } else if name == seq!['S', 'U', 'B'] {
            match spec_parse_assign_args(rest, CommandFromStrErrorKind::SubInvocation) {
                Ok((var, von)) => Ok(CommandV::Sub(var, von)),
                Err(e) => Err(e),
            }
        } else if name == seq!['I', 'F', 'J'] || name == seq!['I', 'F'] {
            spec_parse_ifj_args(rest)
        } else if name == seq!['J', 'M', 'P'] {
            match spec_parse_jump_dest(rest) {
                Ok(d) => Ok(CommandV::Jmp(d)),
                Err(e) => Err(CommandFromStrErrorKind::JumpDest(e)),
            }
        } else {
            Err(CommandFromStrErrorKind::CommandName)
        }
    }
}

/// The arguments of a conditional jump, split from the right: the last token
/// is the else-destination, the one before it the then-destination, and the
/// remainder (which may contain spaces) is the condition.
pub open spec fn spec_parse_ifj_args(rest: Seq<char>) -> Result<CommandV, CommandFromStrErrorKind> {
    let j2 = spec_rfind(rest, ' ');
    let else_text = if j2 < 0 {
        rest
    } else {
        rest.subrange(j2 + 1, rest.len() as int)
    };
    match spec_parse_jump_dest(else_text) {
        Err(e) => Err(CommandFromStrErrorKind::JumpDest(e)),
        Ok(else_dest) => if j2 < 0 {
            Err(CommandFromStrErrorKind::IfjInvocation)
        } else {
            let remaining = rest.subrange(0, j2);
            let j1 = spec_rfind(remaining, ' ');
            let then_text = if j1 < 0 {
                remaining
            } else {
                remaining.subrange(j1 + 1, remaining.len() as int)
            };
            match spec_parse_jump_dest(then_text) {
                Err(e) => Err(CommandFromStrErrorKind::JumpDest(e)),
                Ok(then_dest) => if j1 < 0 {
                    Err(CommandFromStrErrorKind::IfjInvocation)
                } else {
                    match spec_parse_condition(remaining.subrange(0, j1)) {
                        Err(e) => Err(CommandFromStrErrorKind::Condition(e)),
                        Ok(c) => Ok(CommandV::Ifj(c, then_dest, else_dest)),
                    }
                },
            }
        },
    }
}

/// The result of a runtime command parse, lifted to the spec level.
pub open spec fn cmd_res_view(r: Result<Command, CommandFromStrErrorKind>) -> Result<
    CommandV,
    CommandFromStrErrorKind,
> {
    match r {
        Ok(c) => Ok(c@),
        Err(e) => Err(e),
    }
}

fn parse_assign_args(rest: &str, missing: CommandFromStrErrorKind) -> (r: Result<
    (Variable, VarOrNum),
    CommandFromStrErrorKind,
>)
    ensures
        r == spec_parse_assign_args(rest@, missing),
{
    let m = rest.unicode_len();
    match find_char(rest, ' ') {
        None => Err(missing),
        Some(j) => {
            let var_text = rest.substring_char(0, j);
            let von_text = rest.substring_char(j + 1, m);
            match Variable::from_str(var_text) {
                Err(e) => Err(CommandFromStrErrorKind::Variable(e)),
                Ok(var) => match VarOrNum::from_str(von_text) {
                    Err(e) => Err(CommandFromStrErrorKind::VarOrNum(e)),
                    Ok(von) => Ok((var, von)),
                },
            }
        },
    }
}

fn parse_ifj_args(rest: &str) -> (r: Result<Command, CommandFromStrErrorKind>)
    ensures
        cmd_res_view(r) == spec_parse_ifj_args(rest@),
{
    let m = rest.unicode_len();
    let (else_text, remaining_opt) = match rfind_char(rest, ' ') {
        Some(j2) => (rest.substring_char(j2 + 1, m), Some(rest.substring_char(0, j2))),
        None => (rest, None),
    };
    let else_dest = match JumpDest::from_str(else_text) {
        Ok(d) => d,
        Err(e) => {
            return Err(CommandFromStrErrorKind::JumpDest(e));
        },
    };
    let remaining = match remaining_opt {
        Some(r) => r,
        None => {
            return Err(CommandFromStrErrorKind::IfjInvocation);
        },
    };
    let k = remaining.unicode_len();
    let (then_text, cond_opt) = match rfind_char(remaining, ' ') {
        Some(j1) => (remaining.substring_char(j1 + 1, k), Some(remaining.substring_char(0, j1))),
        None => (remaining, None),
    };
    let then_dest = match JumpDest::from_str(then_text) {
        Ok(d) => d,
        Err(e) => {
            return Err(CommandFromStrErrorKind::JumpDest(e));
        },
    };
    let cond_text = match cond_opt {
        Some(c) => c,
        None => {
            return Err(CommandFromStrErrorKind::IfjInvocation);
        },
    };
    match Condition::from_str(cond_text) {
        Ok(c) => Ok(Command::Ifj(c, then_dest, else_dest)),
        Err(e) => Err(CommandFromStrErrorKind::Condition(e)),
    }
}

impl Command {
    /// Parses one trimmed line of source text as a command.
    #[verifier::rlimit(60)]
    pub fn from_str(s: &str) -> (r: Result<Command, CommandFromStrErrorKind>)
        ensures
            cmd_res_view(r) == spec_parse_command(s@),
    {
        let n = s.unicode_len();
        let i = match find_char(s, ' ') {
            Some(i) => i,
            None => {
                if n == 3 && s.get_char(0) == 'N' && s.get_char(1) == 'L' && s.get_char(2) == 'N' {
                    proof {
                        assert(s@ =~= seq!['N', 'L', 'N']);
                    }
                    return Ok(Command::Nln);
                }
                return Err(CommandFromStrErrorKind::CommandName);
            },
        };
        let name = s.substring_char(0, i);
        let rest = s.substring_char(i + 1, n);
        let ln = name.unicode_len();
        if ln == 3 && name.get_char(0) == 'P' && name.get_char(1) == 'V' && name.get_char(2) == 'R' {
            proof {
                assert(name@ =~= seq!['P', 'V', 'R']);
            }
            match Variable::from_str(rest) {
                Ok(v) => Ok(Command::Pvr(v)),
                Err(e) => Err(CommandFromStrErrorKind::Variable(e)),
            }
        } else if ln == 3 && name.get_char(0) == 'P' && name.get_char(1) == 'T' && name.get_char(2)
            == 'X' {
            proof {
                assert(name@ =~= seq!['P', 'T', 'X']);
            }
            match parse_ptx_str(rest) {
                Ok(t) => Ok(Command::Ptx(t)),
                Err(e) => Err(CommandFromStrErrorKind::Text(e)),
            }
        } else if ln == 3 && name.get_char(0) == 'L' && name.get_char(1) == 'T' && name.get_char(2)
            == 'V' {
            proof {
                assert(name@ =~= seq!['L', 'T', 'V']);
            }
            match Variable::from_str(rest) {
                Ok(v) => Ok(Command::Ltv(v)),
                Err(e) => Err(CommandFromStrErrorKind::Variable(e)),
            }
        } else if ln == 3 && name.get_char(0) == 'S' && name.get_char(1) == 'E' && name.get_char(2)
            == 'T' {
            proof {
                assert(name@ =~= seq!['S', 'E', 'T']);
            }
            match parse_assign_args(rest, CommandFromStrErrorKind::SetInvocation) {
                Ok((var, von)) => Ok(Command::Assign(var, von)),
                Err(e) => Err(e),
            }
        } else if ln == 3 && name.get_char(0) == 'A' && name.get_char(1) == 'D' && name.get_char(2)
            == 'D' {
            proof {
                assert(name@ =~= seq!['A', 'D', 'D']);
            }
            match parse_assign_args(rest, CommandFromStrErrorKind::AddInvocation) {
                Ok((var, von)) => Ok(Command::Add(var, von)),
                Err(e) => Err(e),
            }
        } else if ln == 3 && name.get_char(0) == 'S' && name.get_char(1) == 'U' && name.get_char(2)
            == 'B' {
            proof {
                assert(name@ =~= seq!['S', 'U', 'B']);
            }
            match parse_assign_args(rest, CommandFromStrErrorKind::SubInvocation) {
                Ok((var, von)) => Ok(Command::Sub(var, von)),
                Err(e) => Err(e),
            }
        } else if (ln == 3 && name.get_char(0) == 'I' && name.get_char(1) == 'F' && name.get_char(2)
            == 'J') || (ln == 2 && name.get_char(0) == 'I' && name.get_char(1) == 'F') {
            proof {
                if name@.len() == 3 {
                    assert(name@ =~= seq!['I', 'F', 'J']);
                } else {
                    assert(name@ =~= seq!['I', 'F']);
                }
            }
            parse_ifj_args(rest)
        } else if ln == 3 && name.get_char(0) == 'J' && name.get_char(1) == 'M' && name.get_char(2)
            == 'P' {
            proof {
                assert(name@ =~= seq!['J', 'M', 'P']);
            }
            match JumpDest::from_str(rest) {
                Ok(d) => Ok(Command::Jmp(d)),
                Err(e) => Err(CommandFromStrErrorKind::JumpDest(e)),
            }
        } else {
            Err(CommandFromStrErrorKind::CommandName)
        }
    }
}

// ---------------------------------------------------------------------------
// Lines and whole programs
// ---------------------------------------------------------------------------

/// The text before the first `#`, or the whole line when it has none:
/// everything from the first `#` on is a comment.
pub open spec fn spec_strip_comment(s: Seq<char>) -> Seq<char> {
    let i = spec_find(s, '#');
    if i < 0 {
        s
    } else {
        s.subrange(0, i)
    }
}

/// One physical source line as a command: the comment is stripped, the
/// remainder trimmed, and the result parsed.
pub open spec fn spec_parse_line(s: Seq<char>) -> Result<CommandV, CommandFromStrErrorKind> {
    spec_parse_command(spec_trim(spec_strip_comment(s)))
}

/// Parses one physical source line.
pub fn parse_line(line: &str) -> (r: Result<Command, CommandFromStrErrorKind>)
    ensures
        cmd_res_view(r) == spec_parse_line(line@),
{
    let code = match find_char(line, '#') {
        Some(i) => line.substring_char(0, i),
        None => line,
    };
    let trimmed = trim(code);
    Command::from_str(trimmed)
}

/// Whether a jump destination is representable: a numbered destination is a
/// 1-based line index, so it is at least 1.
pub open spec fn dest_wf(d: JumpDest) -> bool {
    match d {
        JumpDest::Nth(n) => n >= 1,
        _ => true,
    }
}

/// Whether every jump destination a command carries is well formed.
pub open spec fn command_wf(c: CommandV) -> bool {
    match c {
        CommandV::Ifj(_, then_dest, else_dest) => dest_wf(then_dest) && dest_wf(else_dest),
        CommandV::Jmp(d) => dest_wf(d),
        _ => true,
    }
}

/// Whether every command of a program is well formed.  The parser only
/// produces such programs.
pub open spec fn prog_wf(cs: Seq<Command>) -> bool {
    forall|i: int| 0 <= i < cs.len() ==> command_wf(cs[i]@)
}

/// Decides [`prog_wf`] at runtime, for callers that obtained a program
/// from somewhere other than the parser.
pub fn check_wf(commands: &Vec<Command>) -> (b: bool)
    ensures
        b == prog_wf(commands@),
{
    let mut i: usize = 0;
    while i < commands.len()
        invariant
            0 <= i <= commands@.len(),
            forall|j: int| 0 <= j < i ==> command_wf(commands@[j]@),
        decreases commands@.len() - i,
    {
        let ok = match &commands[i] {
            Command::Ifj(_, then_dest, else_dest) => {
                let t = match then_dest {
                    JumpDest::Nth(n) => *n >= 1,
                    _ => true,
                };
                let e = match else_dest {
                    JumpDest::Nth(n) => *n >= 1,
                    _ => true,
                };
                t && e
            },
            Command::Jmp(d) => match d {
                JumpDest::Nth(n) => *n >= 1,
                _ => true,
            },
            _ => true,
        };
        if !ok {
            return false;
        }
        i = i + 1;
    }
    true
}

/// The destination `0` is rejected at parse time for every jump-producing
/// command: whatever the parser accepts — an unconditional jump or either
/// branch of a conditional one — carries only positive numbered
/// destinations.
pub proof fn lemma_parsed_command_wf(s: Seq<char>)
    ensures
        spec_parse_jump_dest(s) matches Ok(d) ==> dest_wf(d),
        spec_parse_command(s) matches Ok(c) ==> command_wf(c),
{
}

/// Parsing a line with a trailing comment gives the same result as parsing
/// the line with the comment stripped.
pub proof fn lemma_comment_stripping(code: Seq<char>, comment: Seq<char>)
    requires
        forall|i: int| 0 <= i < code.len() ==> code[i] != '#',
    ensures
        spec_parse_line(code + seq!['#'] + comment) == spec_parse_line(code),
{
    let full = code + seq!['#'] + comment;
    assert(full[code.len() as int] == '#');
    assert(forall|i: int| 0 <= i < code.len() ==> full[i] == code[i]);
    crate::text::lemma_find_at(full, '#', code.len() as int);
    assert(full.subrange(0, code.len() as int) =~= code);
    if spec_find(code, '#') >= 0 {
        crate::text::lemma_find_char(code, '#');
    }
}

/// Parses a file's worth of physical lines into a program, stopping at the
/// first line that fails and reporting its 1-based number.  Every physical
/// line occupies a line-number slot and must parse; a blank or comment-only
/// line trims to the empty string, which is no command, so it fails with an
/// invalid-command-name error.
pub fn parse_lines(lines: &Vec<String>) -> (r: Result<Vec<Command>, CommandFromStrError>)
    requires
        lines@.len() < usize::MAX,
    ensures
        match r {
            Ok(cmds) => cmds@.len() == lines@.len() && prog_wf(cmds@) && (forall|i: int|
                0 <= i < lines@.len() ==> spec_parse_line(lines@[i]@) == Ok::<
                    CommandV,
                    CommandFromStrErrorKind,
                >(cmds@[i]@)),
            Err(e) => 1 <= e.line <= lines@.len() && spec_parse_line(lines@[e.line - 1]@) == Err::<
                CommandV,
                CommandFromStrErrorKind,
            >(e.source) && (forall|i: int|
                0 <= i < e.line - 1 ==> spec_parse_line(lines@[i]@) is Ok),
        },
{
    let mut cmds: Vec<Command> = Vec::new();
    let mut i: usize = 0;
    while i < lines.len()
        invariant
            lines@.len() < usize::MAX,
            cmds@.len() == i as int,
            0 <= i <= lines@.len(),
            forall|j: int|
                0 <= j < i ==> spec_parse_line(lines@[j]@) == Ok::<
                    CommandV,
                    CommandFromStrErrorKind,
                >(cmds@[j]@),
            forall|j: int| 0 <= j < i ==> command_wf(cmds@[j]@),
        decreases lines@.len() - i,
    {
        match parse_line(lines[i].as_str()) {
            Ok(c) => {
                proof {
                    lemma_parsed_command_wf(spec_trim(spec_strip_comment(lines@[i as int]@)));
                }
                cmds.push(c);
            },
            Err(kind) => {
                return Err(CommandFromStrError::from((i + 1, kind)));
            },
        }
        i = i + 1;
    }
    Ok(cmds)
}

} // verus!
