use vstd::prelude::*;

verus! {

/// A literal as it appears in an API definition.
#[derive(Clone, Debug)]
pub enum LiteralValue {
    I64(&'static str),
    F64(&'static str),
    String(&'static str),
    Bool(bool),
}

/// Operators of API expressions.
#[derive(Clone, Copy, Debug, PartialEq, Eq, Structural)]
pub enum Op {
    Add,
    Sub,
    Mul,
    Div,
    Rem,
    And,
    Or,
    BitXor,
    BitAnd,
    BitOr,
    Shl,
    Shr,
    Eq,
    Lt,
    Le,
    Ne,
    Ge,
    Gt,
    Not,
    Neg,
}

impl Op {
    /// The operator's symbol.
    pub open spec fn spec_symbol(&self) -> &'static str {
        match self {
            Op::Add => "+",
            Op::Sub => "-",
            Op::Mul => "*",
            Op::Div => "/",
            Op::Rem => "%",
            Op::And => "&&",
            Op::Or => "||",
            Op::BitXor => "^",
            Op::BitAnd => "&",
            Op::BitOr => "|",
            Op::Shl => "<<",
            Op::Shr => ">>",
            Op::Eq => "==",
            Op::Lt => "<",
            Op::Le => "<=",
            Op::Ne => "!=",
            Op::Ge => ">=",
            Op::Gt => ">",
            Op::Not => "!",
            Op::Neg => "-",
        }
    }

    /// The operator's symbol as it is displayed.
    pub fn to_string(&self) -> (result: String)
        ensures
            result@ == self.spec_symbol()@,
    {
        let s: &'static str = match self {
            Op::Add => "+",
            Op::Sub => "-",
            Op::Mul => "*",
            Op::Div => "/",
            Op::Rem => "%",
            Op::And => "&&",
            Op::Or => "||",
            Op::BitXor => "^",
            Op::BitAnd => "&",
            Op::BitOr => "|",
            Op::Shl => "<<",
            Op::Shr => ">>",
            Op::Eq => "==",
            Op::Lt => "<",
            Op::Le => "<=",
            Op::Ne => "!=",
            Op::Ge => ">=",
            Op::Gt => ">",
            Op::Not => "!",
            Op::Neg => "-",
        };
        s.to_owned()
    }
}

/// Operators are told apart by their symbols: two operators display alike
/// exactly when they are the same operator, or when they are subtraction and
/// negation, which share the minus sign.
pub proof fn law_symbols_distinct(a: Op, b: Op)
    ensures
        a.spec_symbol()@ == b.spec_symbol()@ <==> (a == b || (a == Op::Sub && b == Op::Neg) || (a
            == Op::Neg && b == Op::Sub)),
{
        reveal_strlit("+");
        reveal_strlit("-");
        reveal_strlit("*");
        reveal_strlit("/");
        reveal_strlit("%");
        reveal_strlit("&&");
        reveal_strlit("||");
        reveal_strlit("^");
        reveal_strlit("&");
        reveal_strlit("|");
        reveal_strlit("<<");
        reveal_strlit(">>");
        reveal_strlit("==");
        reveal_strlit("<");
        reveal_strlit("<=");
        reveal_strlit("!=");
        reveal_strlit(">=");
        reveal_strlit(">");
        reveal_strlit("!");
    let sa = a.spec_symbol()@;
    let sb = b.spec_symbol()@;
    if sa == sb {
        assert(sa.len() == sb.len());
        assert(sa[0] == sb[0]);
        if sa.len() > 1 {
            assert(sa[1] == sb[1]);
        }
        match a {
            Op::Add => {},
            Op::Sub => {},
            Op::Mul => {},
            Op::Div => {},
            Op::Rem => {},
            Op::And => {},
            Op::Or => {},
            Op::BitXor => {},
            Op::BitAnd => {},
            Op::BitOr => {},
            Op::Shl => {},
            Op::Shr => {},
            Op::Eq => {},
            Op::Lt => {},
            Op::Le => {},
            Op::Ne => {},
            Op::Ge => {},
            Op::Gt => {},
            Op::Not => {},
            Op::Neg => {},
        }
    }
}

/// The unary operators display as one character each: negation as the minus
/// sign and logical not as the exclamation mark.
pub proof fn law_unary_symbols()
    ensures
        Op::Neg.spec_symbol()@ == seq!['-'],
        Op::Not.spec_symbol()@ == seq!['!'],
{
    reveal_strlit("-");
    reveal_strlit("!");
}

} // verus!
