//! Expression trees for a parser over the token stream, and their text.
use vstd::prelude::*;
use crate::text::push_char;

verus! {

/// A binary arithmetic operator.
#[derive(Debug, Clone, Copy, PartialEq, Eq)]
pub enum Op {
    Add,
    Sub,
    Mul,
    Div,
    Mod,
}

/// An expression: an integer, a variable, or an operator applied to two
/// operands.
#[derive(Debug, PartialEq)]
pub enum Expr {
    Int(i64),
    Var(String),
    Binary { op: Op, lhs: Box<Expr>, rhs: Box<Expr> },
}

/// The symbol that writes an operator.
pub open spec fn op_symbol(op: Op) -> char {
    match op {
        Op::Add => '+',
        Op::Sub => '-',
        Op::Mul => '*',
        Op::Div => '/',
        Op::Mod => '%',
    }
}

/// The character of a decimal digit.
pub open spec fn digit_char(d: nat) -> char {
    (d + '0' as nat) as char
}

/// The decimal digits of `m`, without leading zeros.
pub open spec fn nat_text(m: nat) -> Seq<char>
    decreases m,
{
    if m < 10 {
        seq![digit_char(m)]
    } else {
        nat_text(m / 10).push(digit_char(m % 10))
    }
}

/// An integer in decimal, with a leading `-` when it is negative.
pub open spec fn int_text(n: int) -> Seq<char> {
    if n < 0 {
        seq!['-'] + nat_text((-n) as nat)
    } else {
        nat_text(n as nat)
    }
}

/// An expression in prefix form: `(op lhs rhs)` for an application.
pub open spec fn expr_text(e: Expr) -> Seq<char>
    decreases e,
{
    match e {
        Expr::Int(n) => int_text(n as int),
        Expr::Var(a) => a@,
        Expr::Binary { op, lhs, rhs } => seq!['(', op_symbol(op), ' '] + expr_text(*lhs) + seq![' ']
            + expr_text(*rhs) + seq![')'],
    }
}

fn digit_of(d: u64) -> (c: char)
    requires
        d < 10,
    ensures
        c == digit_char(d as nat),
{
    let c = match d {
        0 => '0',
        1 => '1',
        2 => '2',
        3 => '3',
        4 => '4',
        5 => '5',
        6 => '6',
        7 => '7',
        8 => '8',
        _ => '9',
    };
    c
}

fn push_digits(out: &mut String, m: u64)
    ensures
        final(out)@ == old(out)@ + nat_text(m as nat),
    decreases m,
{
    if m >= 10 {
        push_digits(out, m / 10);
    }
    push_char(out, digit_of(m % 10));
}

impl Op {
    /// The operator's symbol, as text.
    pub fn to_text(&self) -> (r: String)
        ensures
            r@ == seq![op_symbol(*self)],
    {
        let mut s = String::new();
        let c = match self {
            Op::Add => '+',
            Op::Sub => '-',
            Op::Mul => '*',
            Op::Div => '/',
            Op::Mod => '%',
        };
        push_char(&mut s, c);
        assert(s@ =~= seq![op_symbol(*self)]);
        s
    }
}

impl Expr {
    /// The expression in prefix form: integers in decimal, variables by
    /// name, and `(op lhs rhs)` for an application.
    pub fn to_text(&self) -> (r: String)
        ensures
            r@ == expr_text(*self),
        decreases *self,
    {
        match self {
            Expr::Int(n) => {
                let mut s = String::new();
                let m: u64 = if *n < 0 {
                    push_char(&mut s, '-');
                    (-(*n + 1)) as u64 + 1
                } else {
                    *n as u64
                };
                push_digits(&mut s, m);
                assert(s@ =~= int_text(*n as int));
                s
            },
            Expr::Var(a) => a.clone(),
            Expr::Binary { op, lhs, rhs } => {
                let mut s = String::new();
                push_char(&mut s, '(');
                push_char(&mut s, op_symbol_of(op));
                push_char(&mut s, ' ');
                let l = lhs.to_text();
                s.append(l.as_str());
                push_char(&mut s, ' ');
                let r = rhs.to_text();
                s.append(r.as_str());
                push_char(&mut s, ')');
                assert(s@ =~= expr_text(*self));
                s
            },
        }
    }
}

fn op_symbol_of(op: &Op) -> (c: char)
    ensures
        c == op_symbol(*op),
{
    match op {
        Op::Add => '+',
        Op::Sub => '-',
        Op::Mul => '*',
        Op::Div => '/',
        Op::Mod => '%',
    }
}

} // verus!
