//! Rendering expressions and integers back to source-like text.

use vstd::prelude::*;
use vstd::string::StringExecFns;

use crate::ast::expr::{BinOpKind, Expr};

verus! {

/// The decimal digit character for `d`.
pub open spec fn dec_digit_char(d: nat) -> char {
    if d == 0 {
        '0'
    } else if d == 1 {
        '1'
    } else if d == 2 {
        '2'
    } else if d == 3 {
        '3'
    } else if d == 4 {
        '4'
    } else if d == 5 {
        '5'
    } else if d == 6 {
        '6'
    } else if d == 7 {
        '7'
    } else if d == 8 {
        '8'
    } else {
        '9'
    }
}

/// The decimal digits of `m`, most significant first; empty for zero.
pub open spec fn dec_digits(m: nat) -> Seq<char>
    decreases m,
{
    if m == 0 {
        Seq::empty()
    } else {
        dec_digits(m / 10).push(dec_digit_char(m % 10))
    }
}

/// The usual decimal rendering of an integer.
pub open spec fn int_rendered(n: int) -> Seq<char> {
    if n == 0 {
        seq!['0']
    } else if n > 0 {
        dec_digits(n as nat)
    } else {
        seq!['-'] + dec_digits((-n) as nat)
    }
}

/// The one-character string for a decimal digit.
fn digit_str(d: u64) -> (r: &'static str)
    requires
        d < 10,
    ensures
        r@ == seq![dec_digit_char(d as nat)],
{
    proof {
        reveal_strlit("0");
        reveal_strlit("1");
        reveal_strlit("2");
        reveal_strlit("3");
        reveal_strlit("4");
        reveal_strlit("5");
        reveal_strlit("6");
        reveal_strlit("7");
        reveal_strlit("8");
        reveal_strlit("9");
    }
    if d == 0 {
        "0"
    } else if d == 1 {
        "1"
    } else if d == 2 {
        "2"
    } else if d == 3 {
        "3"
    } else if d == 4 {
        "4"
    } else if d == 5 {
        "5"
    } else if d == 6 {
        "6"
    } else if d == 7 {
        "7"
    } else if d == 8 {
        "8"
    } else {
        "9"
    }
}

/// The digit characters of `ds`, read back to front.
spec fn rev_digit_chars(ds: Seq<u64>) -> Seq<char> {
    Seq::new(ds.len(), |i: int| dec_digit_char(ds[ds.len() - 1 - i] as nat))
}

/// Render an unsigned number in decimal.
fn u64_to_dec_string(m0: u64) -> (s: String)
    ensures
        s@ == int_rendered(m0 as int),
{
    if m0 == 0 {
        proof {
            reveal_strlit("0");
        }
        let s = String::from_str("0");
        proof {
            assert(s@ =~= int_rendered(0));
        }
        return s;
    }
    let mut m = m0;
    let mut ds: Vec<u64> = Vec::new();
    while m > 0
        invariant
            forall|j: int| 0 <= j < ds@.len() ==> #[trigger] ds@[j] < 10,
            dec_digits(m0 as nat) == dec_digits(m as nat) + rev_digit_chars(ds@),
        decreases m,
    {
        let d = m % 10;
        let ghost ds_before = ds@;
        let ghost m_before = m as nat;
        ds.push(d);
        m = m / 10;
        proof {
            assert(rev_digit_chars(ds@) =~= seq![dec_digit_char(m_before % 10)]
                + rev_digit_chars(ds_before));
            assert(dec_digits(m_before) == dec_digits(m_before / 10).push(
                dec_digit_char(m_before % 10),
            ));
            assert(dec_digits(m as nat) + rev_digit_chars(ds@) =~= dec_digits(m_before)
                + rev_digit_chars(ds_before));
        }
    }
    let mut s = String::new();
    let mut i: usize = ds.len();
    while i > 0
        invariant
            i <= ds@.len(),
            forall|j: int| 0 <= j < ds@.len() ==> #[trigger] ds@[j] < 10,
            s@ =~= rev_digit_chars(ds@).take(ds@.len() - i),
        decreases i,
    {
        i = i - 1;
        s.append(digit_str(ds[i]));
        proof {
            assert(s@ =~= rev_digit_chars(ds@).take(ds@.len() - i));
        }
    }
    proof {
        assert(s@ =~= rev_digit_chars(ds@));
    }
    s
}

/// Render a signed integer in decimal.
pub fn i64_to_string(n: i64) -> (s: String)
    ensures
        s@ == int_rendered(n as int),
{
    if n >= 0 {
        u64_to_dec_string(n as u64)
    } else {
        let mag: u64 = (-(n as i128)) as u64;
        proof {
            reveal_strlit("-");
        }
        let mut s = String::from_str("-");
        let digits = u64_to_dec_string(mag);
        s.append(digits.as_str());
        proof {
            assert(s@ =~= int_rendered(n as int));
        }
        s
    }
}

/// The rendering of a whole expression, as [`pretty`] produces it.
pub open spec fn pretty_spec(e: Expr) -> Seq<char>
    decreases e,
{
    match e {
        Expr::Int(i) => int_rendered(i.n as int),
        Expr::Str(s) => seq!['"'] + s.s@ + seq!['"'],
        Expr::Unit => "()"@,
        Expr::Bool(b) => if b.b {
            "true"@
        } else {
            "false"@
        },
        Expr::Var(v) => v.name@,
        Expr::BinOp(b) => pretty_spec(*b.left) + seq![' '] + kind_rendered(b.kind) + seq![' ']
            + pretty_spec(*b.right),
        Expr::Let(l) => "let "@ + l.name@ + " = "@ + pretty_spec(*l.value) + " in "@ + pretty_spec(
            *l.body,
        ),
        Expr::Fun(f) => "fun "@ + f.arg@ + " -> "@ + pretty_spec(*f.body),
        Expr::App(a) => seq!['('] + pretty_spec(*a.fun) + ") ("@ + pretty_spec(*a.arg) + seq![')'],
        Expr::If(i) => "if "@ + pretty_spec(*i.check) + " then "@ + pretty_spec(*i.thn)
            + " else "@ + pretty_spec(*i.els),
    }
}

/// The operator symbol for a [`BinOpKind`].
pub open spec fn kind_rendered(k: BinOpKind) -> Seq<char> {
    match k {
        BinOpKind::Add => "+"@,
        BinOpKind::Sub => "-"@,
        BinOpKind::Mul => "*"@,
        BinOpKind::Div => "/"@,
        BinOpKind::Rem => "%"@,
        BinOpKind::Eql => "=="@,
    }
}

/// The operator symbol as a string.
pub fn kind_to_string(k: BinOpKind) -> (s: String)
    ensures
        s@ == kind_rendered(k),
{
    proof {
        reveal_strlit("+");
        reveal_strlit("-");
        reveal_strlit("*");
        reveal_strlit("/");
        reveal_strlit("%");
        reveal_strlit("==");
    }
    match k {
        BinOpKind::Add => String::from_str("+"),
        BinOpKind::Sub => String::from_str("-"),
        BinOpKind::Mul => String::from_str("*"),
        BinOpKind::Div => String::from_str("/"),
        BinOpKind::Rem => String::from_str("%"),
        BinOpKind::Eql => String::from_str("=="),
    }
}

/// Render an expression back to source-like text.
pub fn pretty(e: &Expr) -> (s: String)
    ensures
        s@ == pretty_spec(*e),
    decreases *e,
{
    match e {
        Expr::Int(i) => i64_to_string(i.n),
        Expr::Str(st) => {
            proof {
                reveal_strlit("\"");
            }
            let mut s = String::from_str("\"");
            s.append(st.s.as_str());
            s.append("\"");
            proof {
                assert(s@ =~= pretty_spec(*e));
            }
            s
        },
        Expr::Unit => {
            proof {
                reveal_strlit("()");
            }
            String::from_str("()")
        },
        Expr::Bool(b) => {
            proof {
                reveal_strlit("true");
                reveal_strlit("false");
            }
            if b.b {
                String::from_str("true")
            } else {
                String::from_str("false")
            }
        },
        Expr::Var(v) => v.name.clone(),
        Expr::BinOp(b) => {
            proof {
                reveal_strlit(" ");
            }
            let mut s = pretty(&*b.left);
            s.append(" ");
            let op = kind_to_string(b.kind);
            s.append(op.as_str());
            s.append(" ");
            let right = pretty(&*b.right);
            s.append(right.as_str());
            proof {
                assert(s@ =~= pretty_spec(*e));
            }
            s
        },
        Expr::Let(l) => {
            proof {
                reveal_strlit("let ");
                reveal_strlit(" = ");
                reveal_strlit(" in ");
            }
            let mut s = String::from_str("let ");
            s.append(l.name.as_str());
            s.append(" = ");
            let value = pretty(&*l.value);
            s.append(value.as_str());
            s.append(" in ");
            let body = pretty(&*l.body);
            s.append(body.as_str());
            proof {
                assert(s@ =~= pretty_spec(*e));
            }
            s
        },
        Expr::Fun(f) => {
            proof {
                reveal_strlit("fun ");
                reveal_strlit(" -> ");
            }
            let mut s = String::from_str("fun ");
            s.append(f.arg.as_str());
            s.append(" -> ");
            let body = pretty(&*f.body);
            s.append(body.as_str());
            proof {
                assert(s@ =~= pretty_spec(*e));
            }
            s
        },
        Expr::App(a) => {
            proof {
                reveal_strlit("(");
                reveal_strlit(") (");
                reveal_strlit(")");
            }
            let mut s = String::from_str("(");
            let fun = pretty(&*a.fun);
            s.append(fun.as_str());
            s.append(") (");
            let arg = pretty(&*a.arg);
            s.append(arg.as_str());
            s.append(")");
            proof {
                assert(s@ =~= pretty_spec(*e));
            }
            s
        },
        Expr::If(i) => {
            proof {
                reveal_strlit("if ");
                reveal_strlit(" then ");
                reveal_strlit(" else ");
            }
            let mut s = String::from_str("if ");
            let check = pretty(&*i.check);
            s.append(check.as_str());
            s.append(" then ");
            let thn = pretty(&*i.thn);
            s.append(thn.as_str());
            s.append(" else ");
            let els = pretty(&*i.els);
            s.append(els.as_str());
            proof {
                assert(s@ =~= pretty_spec(*e));
            }
            s
        },
    }
}

} // verus!
