//! Expression nodes.
//!
//! Every composite node exclusively owns its children.  `Clone` is written by
//! hand so that verified code knows a clone equals the original, node for node.

use vstd::prelude::*;

verus! {

/// An expression of the language.
#[derive(PartialEq, Eq, Debug)]
pub enum Expr {
    Int(Int),
    Str(Str),
    Unit,
    Bool(Bool),
    Var(Var),
    BinOp(BinOp),
    Let(Let),
    Fun(Fun),
    App(App),
    If(If),
}

/// An integer literal.
#[derive(PartialEq, Eq, Debug)]
pub struct Int {
    pub n: i64,
}

/// A string literal.
#[derive(PartialEq, Eq, Debug)]
pub struct Str {
    pub s: String,
}

/// A boolean literal.
#[derive(PartialEq, Eq, Debug)]
pub struct Bool {
    pub b: bool,
}

/// A reference to a name in scope.
#[derive(PartialEq, Eq, Debug)]
pub struct Var {
    pub name: String,
}

/// A binary operation over two subexpressions.
#[derive(PartialEq, Eq, Debug)]
pub struct BinOp {
    pub left: Box<Expr>,
    pub right: Box<Expr>,
    pub kind: BinOpKind,
}

/// An expression-level binding: `let name = value in body`, possibly
/// recursive.
#[derive(PartialEq, Eq, Debug)]
pub struct Let {
    pub name: String,
    pub value: Box<Expr>,
    pub body: Box<Expr>,
    pub rec: bool,
}

/// A function literal `fun arg -> body`.
#[derive(PartialEq, Eq, Debug)]
pub struct Fun {
    pub arg: String,
    pub body: Box<Expr>,
}

/// An application of a function expression to an argument expression.
#[derive(PartialEq, Eq, Debug)]
pub struct App {
    pub fun: Box<Expr>,
    pub arg: Box<Expr>,
}

/// A conditional `if check then then else els`.
#[derive(PartialEq, Eq, Debug)]
pub struct If {
    pub check: Box<Expr>,
    pub thn: Box<Expr>,
    pub els: Box<Expr>,
}

/// The kinds of binary operation.  The arithmetic kinds work on integers;
/// `Eql` compares two values of one common type.
#[derive(PartialEq, Eq, Structural, Debug, Clone, Copy)]
pub enum BinOpKind {
    Add,
    Sub,
    Mul,
    Div,
    Rem,
    Eql,
}

impl Clone for Int {
    fn clone(&self) -> (r: Int)
        ensures
            r == *self,
    {
        Int { n: self.n }
    }
}

impl Clone for Str {
    fn clone(&self) -> (r: Str)
        ensures
            r == *self,
    {
        Str { s: self.s.clone() }
    }
}

impl Clone for Bool {
    fn clone(&self) -> (r: Bool)
        ensures
            r == *self,
    {
        Bool { b: self.b }
    }
}

impl Clone for Var {
    fn clone(&self) -> (r: Var)
        ensures
            r == *self,
    {
        Var { name: self.name.clone() }
    }
}

impl Clone for Fun {
    fn clone(&self) -> (r: Fun)
        ensures
            r == *self,
        decreases *self,
    {
        Fun { arg: self.arg.clone(), body: Box::new((&*self.body).clone()) }
    }
}

impl Clone for Expr {
    fn clone(&self) -> (r: Expr)
        ensures
            r == *self,
        decreases *self,
    {
        match self {
            Expr::Int(i) => Expr::Int(i.clone()),
            Expr::Str(s) => Expr::Str(s.clone()),
            Expr::Unit => Expr::Unit,
            Expr::Bool(b) => Expr::Bool(b.clone()),
            Expr::Var(v) => Expr::Var(v.clone()),
            Expr::BinOp(b) => Expr::BinOp(
                BinOp {
                    left: Box::new((&*b.left).clone()),
                    right: Box::new((&*b.right).clone()),
                    kind: b.kind,
                },
            ),
            Expr::Let(l) => Expr::Let(
                Let {
                    name: l.name.clone(),
                    value: Box::new((&*l.value).clone()),
                    body: Box::new((&*l.body).clone()),
                    rec: l.rec,
                },
            ),
            Expr::Fun(f) => Expr::Fun(f.clone()),
            Expr::App(a) => Expr::App(
                App { fun: Box::new((&*a.fun).clone()), arg: Box::new((&*a.arg).clone()) },
            ),
            Expr::If(i) => Expr::If(
                If {
                    check: Box::new((&*i.check).clone()),
                    thn: Box::new((&*i.thn).clone()),
                    els: Box::new((&*i.els).clone()),
                },
            ),
        }
    }
}

} // verus!
