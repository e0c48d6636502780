use vstd::prelude::*;

verus! {

/// Operators of expressions in API definitions, including compound
/// assignments and dereference.
#[derive(Clone, Copy, Debug, PartialEq, Eq, Structural)]
pub enum Op {
    Add,
    AddAssign,
    Sub,
    SubAssign,
    Mul,
    MulAssign,
    Div,
    DivAssign,
    Rem,
    RemAssign,
    And,
    Or,
    BitXor,
    BitXorAssign,
    BitAnd,
    BitAndAssign,
    BitOr,
    BitOrAssign,
    Shl,
    ShlAssign,
    Shr,
    ShrAssign,
    Eq,
    Lt,
    Le,
    Ne,
    Ge,
    Gt,
    Not,
    Neg,
    Deref,
}

impl Op {
    /// The operator's symbol.
    pub open spec fn spec_symbol(&self) -> &'static str {
        match self {
            Op::Add => "+",
            Op::AddAssign => "+=",
            Op::Sub => "-",
            Op::SubAssign => "-=",
            Op::Mul => "*",
            Op::MulAssign => "*=",
            Op::Div => "/",
            Op::DivAssign => "/=",
            Op::Rem => "%",
            Op::RemAssign => "%=",
            Op::And => "&&",
            Op::Or => "||",
            Op::BitXor => "^",
            Op::BitXorAssign => "^=",
            Op::BitAnd => "&",
            Op::BitAndAssign => "&=",
            Op::BitOr => "|",
            Op::BitOrAssign => "|=",
            Op::Shl => "<<",
            Op::ShlAssign => "<<=",
            Op::Shr => ">>",
            Op::ShrAssign => ">>=",
            Op::Eq => "==",
            Op::Lt => "<",
            Op::Le => "<=",
            Op::Ne => "!=",
            Op::Ge => ">=",
            Op::Gt => ">",
            Op::Not => "!",
            Op::Neg => "-",
            Op::Deref => "*",
        }
    }

    /// The operator's symbol as it is displayed.
    pub fn to_string(&self) -> (result: String)
        ensures
            result@ == self.spec_symbol()@,
    {
        let s: &'static str = match self {
            Op::Add => "+",
            Op::AddAssign => "+=",
            Op::Sub => "-",
            Op::SubAssign => "-=",
            Op::Mul => "*",
            Op::MulAssign => "*=",
            Op::Div => "/",
            Op::DivAssign => "/=",
            Op::Rem => "%",
            Op::RemAssign => "%=",
            Op::And => "&&",
            Op::Or => "||",
            Op::BitXor => "^",
            Op::BitXorAssign => "^=",
            Op::BitAnd => "&",
            Op::BitAndAssign => "&=",
            Op::BitOr => "|",
            Op::BitOrAssign => "|=",
            Op::Shl => "<<",
            Op::ShlAssign => "<<=",
            Op::Shr => ">>",
            Op::ShrAssign => ">>=",
            Op::Eq => "==",
            Op::Lt => "<",
            Op::Le => "<=",
            Op::Ne => "!=",
            Op::Ge => ">=",
            Op::Gt => ">",
            Op::Not => "!",
            Op::Neg => "-",
            Op::Deref => "*",
        };
        s.to_owned()
    }
}

/// Operators are told apart by their symbols: two operators display alike
/// exactly when they are the same operator, or when they are subtraction and
/// negation (the minus sign), or multiplication and dereference (the star).
pub proof fn law_symbols_distinct(a: Op, b: Op)
    ensures
        a.spec_symbol()@ == b.spec_symbol()@ <==> (a == b || (a == Op::Sub && b == Op::Neg) || (a
            == Op::Neg && b == Op::Sub) || (a == Op::Mul && b == Op::Deref) || (a == Op::Deref && b
            == Op::Mul)),
{
    reveal_strlit("+");
    reveal_strlit("+=");
    reveal_strlit("-");
    reveal_strlit("-=");
    reveal_strlit("*");
    reveal_strlit("*=");
    reveal_strlit("/");
    reveal_strlit("/=");
    reveal_strlit("%");
    reveal_strlit("%=");
    reveal_strlit("&&");
    reveal_strlit("||");
    reveal_strlit("^");
    reveal_strlit("^=");
    reveal_strlit("&");
    reveal_strlit("&=");
    reveal_strlit("|");
    reveal_strlit("|=");
    reveal_strlit("<<");
    reveal_strlit("<<=");
    reveal_strlit(">>");
    reveal_strlit(">>=");
    reveal_strlit("==");
    reveal_strlit("<");
    reveal_strlit("<=");
    reveal_strlit("!=");
    reveal_strlit(">=");
    reveal_strlit(">");
    reveal_strlit("!");
    let sa = a.spec_symbol()@;
    let sb = b.spec_symbol()@;
    if sa == sb {
        assert(sa.len() == sb.len());
        assert(sa[0] == sb[0]);
        if sa.len() > 1 {
            assert(sa[1] == sb[1]);
        }
        if sa.len() > 2 {
            assert(sa[2] == sb[2]);
        }
        match a {
            Op::Add => {},
            Op::AddAssign => {},
            Op::Sub => {},
            Op::SubAssign => {},
            Op::Mul => {},
            Op::MulAssign => {},
            Op::Div => {},
            Op::DivAssign => {},
            Op::Rem => {},
            Op::RemAssign => {},
            Op::And => {},
            Op::Or => {},
            Op::BitXor => {},
            Op::BitXorAssign => {},
            Op::BitAnd => {},
            Op::BitAndAssign => {},
            Op::BitOr => {},
            Op::BitOrAssign => {},
            Op::Shl => {},
            Op::ShlAssign => {},
            Op::Shr => {},
            Op::ShrAssign => {},
            Op::Eq => {},
            Op::Lt => {},
            Op::Le => {},
            Op::Ne => {},
            Op::Ge => {},
            Op::Gt => {},
            Op::Not => {},
            Op::Neg => {},
            Op::Deref => {},
        }
    }
}

/// The unary operators display as one character each: negation as the minus
/// sign, logical not as the exclamation mark and dereference as the star.
pub proof fn law_unary_symbols()
    ensures
        Op::Neg.spec_symbol()@ == seq!['-'],
        Op::Not.spec_symbol()@ == seq!['!'],
        Op::Deref.spec_symbol()@ == seq!['*'],
{
    reveal_strlit("-");
    reveal_strlit("!");
    reveal_strlit("*");
}

} // verus!
