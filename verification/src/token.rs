//! The tokens of the expression language.
use vstd::prelude::*;
use vstd::string::StringExecFns;
use crate::decimal::{decimal_string, decimal_text};

verus! {

/// An arithmetic operator. Each stands for one instruction.
#[derive(Debug, Clone, Copy, PartialEq, Eq, Structural)]
pub enum Operator {
    Add,
    Sub,
}

impl Operator {
    /// The character that denotes the operator in an expression.
    pub open spec fn symbol(self) -> char {
        match self {
            Operator::Add => '+',
            Operator::Sub => '-',
        }
    }

    /// The mnemonic of the operator's instruction, as a sequence of characters.
    pub open spec fn mnemonic(self) -> Seq<char> {
        match self {
            Operator::Add => "add"@,
            Operator::Sub => "sub"@,
        }
    }

    /// The name of the operator.
    pub open spec fn name(self) -> Seq<char> {
        match self {
            Operator::Add => "Add"@,
            Operator::Sub => "Sub"@,
        }
    }

    /// The mnemonic of the operator's instruction.
    pub fn opcode(&self) -> (r: &'static str)
        ensures
            r@ == self.mnemonic(),
    {
        match self {
            Operator::Add => "add",
            Operator::Sub => "sub",
        }
    }
}

/// The two operators have different mnemonics: an instruction tells which operator it
/// applies.
pub proof fn lemma_mnemonic_tells_operator(a: Operator, b: Operator)
    requires
        a.mnemonic() == b.mnemonic(),
    ensures
        a == b,
{
    reveal_strlit("add");
    reveal_strlit("sub");
    assert("add"@[0] == 'a');
    assert("sub"@[0] == 's');
}

/// The operator that `c` denotes, if it denotes one.
pub open spec fn operator_of(c: char) -> Option<Operator> {
    if c == '+' {
        Some(Operator::Add)
    } else if c == '-' {
        Some(Operator::Sub)
    } else {
        None
    }
}

/// The three shapes of a token.
#[derive(Debug, Clone, Copy, PartialEq, Eq, Structural)]
pub enum TokenKind {
    TkReserved,
    TkNum,
    TkEof,
}

impl TokenKind {
    /// The name of the shape.
    pub open spec fn name(self) -> Seq<char> {
        match self {
            TokenKind::TkReserved => "TkReserved"@,
            TokenKind::TkNum => "TkNum"@,
            TokenKind::TkEof => "TkEof"@,
        }
    }
}

impl Default for TokenKind {
    fn default() -> (r: Self)
        ensures
            r == TokenKind::TkEof,
    {
        TokenKind::TkEof
    }
}

/// A token: a numeric literal with its value, a reserved operator, or the end marker
/// that closes every token sequence.
#[derive(Debug, Clone, Copy, PartialEq, Eq, Structural)]
pub enum Token {
    Num(i64),
    Reserved(Operator),
    Eof,
}

impl Default for Token {
    fn default() -> (r: Self)
        ensures
            r == Token::Eof,
    {
        Token::Eof
    }
}

impl Token {
    /// The shape of the token.
    pub open spec fn spec_kind(&self) -> TokenKind {
        match *self {
            Token::Num(_) => TokenKind::TkNum,
            Token::Reserved(_) => TokenKind::TkReserved,
            Token::Eof => TokenKind::TkEof,
        }
    }

    /// The shape of the token.
    #[verifier::when_used_as_spec(spec_kind)]
    pub fn kind(&self) -> (r: TokenKind)
        ensures
            r == self.spec_kind(),
    {
        match self {
            Token::Num(_) => TokenKind::TkNum,
            Token::Reserved(_) => TokenKind::TkReserved,
            Token::Eof => TokenKind::TkEof,
        }
    }

    /// The value of a numeric literal; `None` for the other tokens.
    pub fn val(&self) -> (r: Option<i64>)
        ensures
            r == (match *self {
                Token::Num(v) => Some(v),
                _ => None,
            }),
    {
        match self {
            Token::Num(v) => Some(*v),
            _ => None,
        }
    }

    /// The operator of a reserved token; `None` for the other tokens.
    pub fn operator(&self) -> (r: Option<Operator>)
        ensures
            r == (match *self {
                Token::Reserved(op) => Some(op),
                _ => None,
            }),
    {
        match self {
            Token::Reserved(op) => Some(*op),
            _ => None,
        }
    }

    /// What `describe` writes of the token: its shape, its value and its operator, each
    /// behind its name, the last two as `Some(..)` or `None`.
    pub open spec fn description(self) -> Seq<char> {
        "kind: "@ + self.spec_kind().name() + ", val: "@ + (match self {
            Token::Num(v) => "Some("@ + decimal_text(v as int) + ")"@,
            _ => "None"@,
        }) + ", operator: "@ + (match self {
            Token::Reserved(operator) => "Some("@ + operator.name() + ")"@,
            _ => "None"@,
        })
    }

    /// Describes the token in one line, for a diagnostic.
    pub fn describe(&self) -> (r: String)
        ensures
            r@ == self.description(),
    {
        let mut line = "kind: ".to_owned();
        match self {
            Token::Num(_) => line.append("TkNum"),
            Token::Reserved(_) => line.append("TkReserved"),
            Token::Eof => line.append("TkEof"),
        }
        line.append(", val: ");
        match self {
            Token::Num(v) => {
                line.append("Some(");
                line.append(decimal_string(*v).as_str());
                line.append(")");
            },
            _ => line.append("None"),
        }
        line.append(", operator: ");
        match self {
            Token::Reserved(Operator::Add) => line.append("Some(Add)"),
            Token::Reserved(Operator::Sub) => line.append("Some(Sub)"),
            _ => line.append("None"),
        }
        proof {
            reveal_strlit("Some(Add)");
            reveal_strlit("Some(Sub)");
            reveal_strlit("Some(");
            reveal_strlit("Add");
            reveal_strlit("Sub");
            reveal_strlit(")");
            assert("Some(Add)"@ =~= "Some("@ + "Add"@ + ")"@);
            assert("Some(Sub)"@ =~= "Some("@ + "Sub"@ + ")"@);
            assert(line@ =~= self.description());
        }
        line
    }
}

} // verus!
