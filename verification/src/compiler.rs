//! The lowering engine: walks the abstract syntax tree, allocates storage
//! addresses, mangles names for hygiene, and emits flat instruction
//! sequences, including the function-call convention.

use vstd::prelude::*;
use vstd::string::StringExecFns;
use crate::data::{DATA, DataV, int_text, int_to_text};
use crate::interpreter::{Operation, OpV, ops_v};
use crate::names::NameTable;

verus! {

/// One statement of the source language.
#[allow(non_camel_case_types)]
#[derive(Debug)]
pub enum Instruction {
    SET { name: String, value: Expression },
    ASSIGN { name: String, value: Expression },
    PRINT { value: Expression },
    BLOCK { instruction: Vec<Instruction> },
    IF { condition: Expression, instruction: Vec<Instruction> },
    EXIT,
    FUNCTION { name: String, args: Vec<String>, instruction: Vec<Instruction> },
    RETURN { value: Expression },
    LOOP { instruction: Vec<Instruction> },
    WHILE { condition: Expression, instruction: Vec<Instruction> },
    DROP { name: String },
    HALT,
}

/// One expression of the source language.
#[allow(non_camel_case_types)]
#[derive(Debug)]
pub enum Expression {
    Number(i32),
    CALL(String, Vec<Expression>),
    Bool(bool),
    Text(String),
    Variable(String),
    Add(Box<Expression>, Box<Expression>),
    Sub(Box<Expression>, Box<Expression>),
    Mul(Box<Expression>, Box<Expression>),
    Div(Box<Expression>, Box<Expression>),
    EQ(Box<Expression>, Box<Expression>),
    NOT(Box<Expression>),
    GREATER(Box<Expression>, Box<Expression>),
}

/// The mathematical model of a statement.
pub enum InstrV {
    SET { name: Seq<char>, value: ExprV },
    ASSIGN { name: Seq<char>, value: ExprV },
    PRINT { value: ExprV },
    BLOCK { body: Seq<InstrV> },
    IF { condition: ExprV, body: Seq<InstrV> },
    EXIT,
    FUNCTION { name: Seq<char>, args: Seq<Seq<char>>, body: Seq<InstrV> },
    RETURN { value: ExprV },
    LOOP { body: Seq<InstrV> },
    WHILE { condition: ExprV, body: Seq<InstrV> },
    DROP { name: Seq<char> },
    HALT,
}

/// The mathematical model of an expression.
pub enum ExprV {
    Number(i32),
    CALL(Seq<char>, Seq<ExprV>),
    Bool(bool),
    Text(Seq<char>),
    Variable(Seq<char>),
    Add(Box<ExprV>, Box<ExprV>),
    Sub(Box<ExprV>, Box<ExprV>),
    Mul(Box<ExprV>, Box<ExprV>),
    Div(Box<ExprV>, Box<ExprV>),
    EQ(Box<ExprV>, Box<ExprV>),
    NOT(Box<ExprV>),
    GREATER(Box<ExprV>, Box<ExprV>),
}

/// The view of a list of expressions.
pub open spec fn exprs_view(s: Seq<Expression>) -> Seq<ExprV>
    decreases s,
{
    if s.len() == 0 {
        Seq::empty()
    } else {
        exprs_view(s.drop_last()).push(s.last()@)
    }
}

/// The view of a list of statements.
pub open spec fn insts_view(s: Seq<Instruction>) -> Seq<InstrV>
    decreases s,
{
    if s.len() == 0 {
        Seq::empty()
    } else {
        insts_view(s.drop_last()).push(s.last()@)
    }
}

/// The list views are pointwise views.
pub proof fn lemma_exprs_view(s: Seq<Expression>)
    ensures
        exprs_view(s).len() == s.len(),
        forall|i: int| 0 <= i < s.len() ==> exprs_view(s)[i] == s[i]@,
    decreases s,
{
    if s.len() > 0 {
        lemma_exprs_view(s.drop_last());
        assert(exprs_view(s) == exprs_view(s.drop_last()).push(s.last()@));
        assert(exprs_view(s).len() == s.len());
        assert forall|i: int| 0 <= i < s.len() implies exprs_view(s)[i] == s[i]@ by {
            if i < s.len() - 1 {
                assert(exprs_view(s)[i] == exprs_view(s.drop_last())[i]);
                assert(s.drop_last()[i] == s[i]);
            }
        }
    }
}

/// The list views are pointwise views.
pub proof fn lemma_insts_view(s: Seq<Instruction>)
    ensures
        insts_view(s).len() == s.len(),
        forall|i: int| 0 <= i < s.len() ==> insts_view(s)[i] == s[i]@,
    decreases s,
{
    if s.len() > 0 {
        lemma_insts_view(s.drop_last());
        assert(insts_view(s) == insts_view(s.drop_last()).push(s.last()@));
        assert(insts_view(s).len() == s.len());
        assert forall|i: int| 0 <= i < s.len() implies insts_view(s)[i] == s[i]@ by {
            if i < s.len() - 1 {
                assert(insts_view(s)[i] == insts_view(s.drop_last())[i]);
                assert(s.drop_last()[i] == s[i]);
            }
        }
    }
}

/// The view of a list of names.
pub open spec fn names_v(s: Seq<String>) -> Seq<Seq<char>> {
    s.map_values(|x: String| x@)
}

impl View for Expression {
    type V = ExprV;

    open spec fn view(&self) -> ExprV
        decreases self,
    {
        match self {
            Expression::Number(n) => ExprV::Number(*n),
            Expression::CALL(name, args) => ExprV::CALL(name@, exprs_view(args@)),
            Expression::Bool(b) => ExprV::Bool(*b),
            Expression::Text(s) => ExprV::Text(s@),
            Expression::Variable(v) => ExprV::Variable(v@),
            Expression::Add(a, b) => ExprV::Add(Box::new((**a)@), Box::new((**b)@)),
            Expression::Sub(a, b) => ExprV::Sub(Box::new((**a)@), Box::new((**b)@)),
            Expression::Mul(a, b) => ExprV::Mul(Box::new((**a)@), Box::new((**b)@)),
            Expression::Div(a, b) => ExprV::Div(Box::new((**a)@), Box::new((**b)@)),
            Expression::EQ(a, b) => ExprV::EQ(Box::new((**a)@), Box::new((**b)@)),
            Expression::NOT(a) => ExprV::NOT(Box::new((**a)@)),
            Expression::GREATER(a, b) => ExprV::GREATER(Box::new((**a)@), Box::new((**b)@)),
        }
    }
}

impl View for Instruction {
    type V = InstrV;

    open spec fn view(&self) -> InstrV
        decreases self,
    {
        match self {
            Instruction::SET { name, value } => InstrV::SET { name: name@, value: value@ },
            Instruction::ASSIGN { name, value } => InstrV::ASSIGN { name: name@, value: value@ },
            Instruction::PRINT { value } => InstrV::PRINT { value: value@ },
            Instruction::BLOCK { instruction } => InstrV::BLOCK { body: insts_view(instruction@) },
            Instruction::IF { condition, instruction } => InstrV::IF {
                condition: condition@,
                body: insts_view(instruction@),
            },
            Instruction::EXIT => InstrV::EXIT,
            Instruction::FUNCTION { name, args, instruction } => InstrV::FUNCTION {
                name: name@,
                args: names_v(args@),
                body: insts_view(instruction@),
            },
            Instruction::RETURN { value } => InstrV::RETURN { value: value@ },
            Instruction::LOOP { instruction } => InstrV::LOOP { body: insts_view(instruction@) },
            Instruction::WHILE { condition, instruction } => InstrV::WHILE {
                condition: condition@,
                body: insts_view(instruction@),
            },
            Instruction::DROP { name } => InstrV::DROP { name: name@ },
            Instruction::HALT => InstrV::HALT,
        }
    }
}

// ---------------------------------------------------------------------------
// Sizes, used as termination measures across the hygiene rewrite
// ---------------------------------------------------------------------------

/// The size of an expression tree.
pub open spec fn expr_size(e: ExprV) -> nat
    decreases e,
{
    match e {
        ExprV::CALL(_, args) => 1 + exprs_size(args),
        ExprV::Add(a, b) => 1 + expr_size(*a) + expr_size(*b),
        ExprV::Sub(a, b) => 1 + expr_size(*a) + expr_size(*b),
        ExprV::Mul(a, b) => 1 + expr_size(*a) + expr_size(*b),
        ExprV::Div(a, b) => 1 + expr_size(*a) + expr_size(*b),
        ExprV::EQ(a, b) => 1 + expr_size(*a) + expr_size(*b),
        ExprV::GREATER(a, b) => 1 + expr_size(*a) + expr_size(*b),
        ExprV::NOT(a) => 1 + expr_size(*a),
        _ => 1,
    }
}

/// The joint size of a list of expressions.
pub open spec fn exprs_size(s: Seq<ExprV>) -> nat
    decreases s,
{
    if s.len() == 0 {
        0
    } else {
        1 + expr_size(s[0]) + exprs_size(s.drop_first())
    }
}

/// The size of a statement tree.
pub open spec fn inst_size(i: InstrV) -> nat
    decreases i,
{
    match i {
        InstrV::SET { value, .. } => 1 + expr_size(value),
        InstrV::ASSIGN { value, .. } => 1 + expr_size(value),
        InstrV::PRINT { value } => 1 + expr_size(value),
        InstrV::RETURN { value } => 1 + expr_size(value),
        InstrV::BLOCK { body } => 1 + insts_size(body),
        InstrV::LOOP { body } => 1 + insts_size(body),
        InstrV::FUNCTION { body, .. } => 1 + insts_size(body),
        InstrV::IF { condition, body } => 1 + expr_size(condition) + insts_size(body),
        InstrV::WHILE { condition, body } => 1 + expr_size(condition) + insts_size(body),
        _ => 1,
    }
}

/// The joint size of a list of statements.
pub open spec fn insts_size(s: Seq<InstrV>) -> nat
    decreases s,
{
    if s.len() == 0 {
        0
    } else {
        1 + inst_size(s[0]) + insts_size(s.drop_first())
    }
}

// ---------------------------------------------------------------------------
// The hygiene rewrite
// ---------------------------------------------------------------------------

/// A name with the function's unique tag appended.
pub open spec fn mangle(name: Seq<char>, tag: i32) -> Seq<char> {
    name + int_text(tag as int)
}

/// Every name of the list with the tag appended.
pub open spec fn mangle_all(names: Seq<Seq<char>>, tag: i32) -> Seq<Seq<char>> {
    Seq::new(names.len(), |i: int| mangle(names[i], tag))
}

/// A use site keeps its name unless the name stands in the locally-declared
/// set accumulated so far; then the tag is appended.
pub open spec fn rename_use(name: Seq<char>, tag: i32, of: Seq<Seq<char>>) -> Seq<char> {
    if of.contains(name) {
        mangle(name, tag)
    } else {
        name
    }
}

/// The hygiene rewrite of an expression: use sites (variable references and
/// call targets) are renamed exactly when their name was declared earlier in
/// the walk; the set of declared names is not changed by expressions.
pub open spec fn rename_expr(e: ExprV, tag: i32, of: Seq<Seq<char>>) -> ExprV
    decreases e,
{
    match e {
        ExprV::CALL(name, args) => ExprV::CALL(
            rename_use(name, tag, of),
            rename_exprs(args, tag, of),
        ),
        ExprV::Variable(name) => ExprV::Variable(rename_use(name, tag, of)),
        ExprV::Add(a, b) => ExprV::Add(
            Box::new(rename_expr(*a, tag, of)),
            Box::new(rename_expr(*b, tag, of)),
        ),
        ExprV::Sub(a, b) => ExprV::Sub(
            Box::new(rename_expr(*a, tag, of)),
            Box::new(rename_expr(*b, tag, of)),
        ),
        ExprV::Mul(a, b) => ExprV::Mul(
            Box::new(rename_expr(*a, tag, of)),
            Box::new(rename_expr(*b, tag, of)),
        ),
        ExprV::Div(a, b) => ExprV::Div(
            Box::new(rename_expr(*a, tag, of)),
            Box::new(rename_expr(*b, tag, of)),
        ),
        ExprV::EQ(a, b) => ExprV::EQ(
            Box::new(rename_expr(*a, tag, of)),
            Box::new(rename_expr(*b, tag, of)),
        ),
        ExprV::NOT(a) => ExprV::NOT(Box::new(rename_expr(*a, tag, of))),
        ExprV::GREATER(a, b) => ExprV::GREATER(
            Box::new(rename_expr(*a, tag, of)),
            Box::new(rename_expr(*b, tag, of)),
        ),
        _ => e,
    }
}

/// The hygiene rewrite of a list of expressions.
pub open spec fn rename_exprs(s: Seq<ExprV>, tag: i32, of: Seq<Seq<char>>) -> Seq<ExprV>
    decreases s,
{
    if s.len() == 0 {
        Seq::empty()
    } else {
        seq![rename_expr(s[0], tag, of)] + rename_exprs(s.drop_first(), tag, of)
    }
}

/// The hygiene rewrite of a statement, together with the locally-declared
/// set after it: declaration sites (`Set` targets and nested `Function`
/// names) are always renamed and add their original name to the set; use
/// sites (`Assign` and `Drop` targets, and everything inside expressions)
/// are renamed only when the name is already in the set.
pub open spec fn rename_inst(i: InstrV, tag: i32, of: Seq<Seq<char>>) -> (InstrV, Seq<Seq<char>>)
    decreases i,
{
    match i {
        InstrV::SET { name, value } => {
            let of1 = of.push(name);
            (InstrV::SET { name: mangle(name, tag), value: rename_expr(value, tag, of1) }, of1)
        },
        InstrV::ASSIGN { name, value } => (
            InstrV::ASSIGN { name: rename_use(name, tag, of), value: rename_expr(value, tag, of) },
            of,
        ),
        InstrV::PRINT { value } => (InstrV::PRINT { value: rename_expr(value, tag, of) }, of),
        InstrV::BLOCK { body } => {
            let r = rename_insts(body, tag, of);
            (InstrV::BLOCK { body: r.0 }, r.1)
        },
        InstrV::IF { condition, body } => {
            let c = rename_expr(condition, tag, of);
            let r = rename_insts(body, tag, of);
            (InstrV::IF { condition: c, body: r.0 }, r.1)
        },
        InstrV::WHILE { condition, body } => {
            let c = rename_expr(condition, tag, of);
            let r = rename_insts(body, tag, of);
            (InstrV::WHILE { condition: c, body: r.0 }, r.1)
        },
        InstrV::LOOP { body } => {
            let r = rename_insts(body, tag, of);
            (InstrV::LOOP { body: r.0 }, r.1)
        },
        InstrV::DROP { name } => (InstrV::DROP { name: rename_use(name, tag, of) }, of),
        InstrV::FUNCTION { name, args, body } => {
            let of1 = of.push(name);
            let r = rename_insts(body, tag, of1);
            (InstrV::FUNCTION { name: mangle(name, tag), args, body: r.0 }, r.1)
        },
        InstrV::RETURN { value } => (InstrV::RETURN { value: rename_expr(value, tag, of) }, of),
        _ => (i, of),
    }
}

/// The hygiene rewrite of a list of statements, left to right, threading the
/// locally-declared set through.
pub open spec fn rename_insts(s: Seq<InstrV>, tag: i32, of: Seq<Seq<char>>) -> (
    Seq<InstrV>,
    Seq<Seq<char>>,
)
    decreases s,
{
    if s.len() == 0 {
        (Seq::empty(), of)
    } else {
        let h = rename_inst(s[0], tag, of);
        let t = rename_insts(s.drop_first(), tag, h.1);
        (seq![h.0] + t.0, t.1)
    }
}

// ---------------------------------------------------------------------------
// The rewrite keeps sizes, so lowering the rewritten tree terminates
// ---------------------------------------------------------------------------

pub proof fn lemma_rename_expr_size(e: ExprV, tag: i32, of: Seq<Seq<char>>)
    ensures
        expr_size(rename_expr(e, tag, of)) == expr_size(e),
    decreases e,
{
    match e {
        ExprV::CALL(name, args) => {
            lemma_rename_exprs_size(args, tag, of);
        },
        ExprV::Add(a, b) => {
            lemma_rename_expr_size(*a, tag, of);
            lemma_rename_expr_size(*b, tag, of);
        },
        ExprV::Sub(a, b) => {
            lemma_rename_expr_size(*a, tag, of);
            lemma_rename_expr_size(*b, tag, of);
        },
        ExprV::Mul(a, b) => {
            lemma_rename_expr_size(*a, tag, of);
            lemma_rename_expr_size(*b, tag, of);
        },
        ExprV::Div(a, b) => {
            lemma_rename_expr_size(*a, tag, of);
            lemma_rename_expr_size(*b, tag, of);
        },
        ExprV::EQ(a, b) => {
            lemma_rename_expr_size(*a, tag, of);
            lemma_rename_expr_size(*b, tag, of);
        },
        ExprV::NOT(a) => {
            lemma_rename_expr_size(*a, tag, of);
        },
        ExprV::GREATER(a, b) => {
            lemma_rename_expr_size(*a, tag, of);
            lemma_rename_expr_size(*b, tag, of);
        },
        _ => {},
    }
}

pub proof fn lemma_rename_exprs_size(s: Seq<ExprV>, tag: i32, of: Seq<Seq<char>>)
    ensures
        exprs_size(rename_exprs(s, tag, of)) == exprs_size(s),
    decreases s,
{
    if s.len() > 0 {
        lemma_rename_expr_size(s[0], tag, of);
        lemma_rename_exprs_size(s.drop_first(), tag, of);
        let r = rename_exprs(s, tag, of);
        assert(r.drop_first() =~= rename_exprs(s.drop_first(), tag, of));
        assert(r[0] == rename_expr(s[0], tag, of));
    }
}

pub proof fn lemma_rename_inst_size(i: InstrV, tag: i32, of: Seq<Seq<char>>)
    ensures
        inst_size(rename_inst(i, tag, of).0) == inst_size(i),
    decreases i,
{
    match i {
        InstrV::SET { name, value } => {
            lemma_rename_expr_size(value, tag, of.push(name));
        },
        InstrV::ASSIGN { name, value } => {
            lemma_rename_expr_size(value, tag, of);
        },
        InstrV::PRINT { value } => {
            lemma_rename_expr_size(value, tag, of);
        },
        InstrV::RETURN { value } => {
            lemma_rename_expr_size(value, tag, of);
        },
        InstrV::BLOCK { body } => {
            lemma_rename_insts_size(body, tag, of);
        },
        InstrV::LOOP { body } => {
            lemma_rename_insts_size(body, tag, of);
        },
        InstrV::IF { condition, body } => {
            lemma_rename_expr_size(condition, tag, of);
            lemma_rename_insts_size(body, tag, of);
        },
        InstrV::WHILE { condition, body } => {
            lemma_rename_expr_size(condition, tag, of);
            lemma_rename_insts_size(body, tag, of);
        },
        InstrV::FUNCTION { name, args, body } => {
            lemma_rename_insts_size(body, tag, of.push(name));
        },
        _ => {},
    }
}

pub proof fn lemma_rename_insts_size(s: Seq<InstrV>, tag: i32, of: Seq<Seq<char>>)
    ensures
        insts_size(rename_insts(s, tag, of).0) == insts_size(s),
        rename_insts(s, tag, of).0.len() == s.len(),
    decreases s,
{
    if s.len() > 0 {
        let h = rename_inst(s[0], tag, of);
        lemma_rename_inst_size(s[0], tag, of);
        lemma_rename_insts_size(s.drop_first(), tag, h.1);
        let r = rename_insts(s, tag, of);
        assert(r.0.drop_first() =~= rename_insts(s.drop_first(), tag, h.1).0);
        assert(r.0[0] == h.0);
    }
}

// ---------------------------------------------------------------------------
// The hygiene rewrite, executed
// ---------------------------------------------------------------------------

/// Whether the name stands in the list.
fn contains_name(of: &Vec<String>, name: &String) -> (r: bool)
    ensures
        r == names_v(of@).contains(name@),
{
    let n = of.len();
    let mut i: usize = 0;
    while i < n
        invariant
            i <= n,
            n == of@.len(),
            forall|k: int| 0 <= k < i ==> names_v(of@)[k] != name@,
        decreases n - i,
    {
        if of[i].eq(name) {
            proof {
                assert(names_v(of@)[i as int] == name@);
            }
            return true;
        }
        proof {
            assert(names_v(of@)[i as int] == of@[i as int]@);
        }
        i += 1;
    }
    false
}

/// The name with the tag appended.
fn mangled(name: &String, tag: i32) -> (r: String)
    ensures
        r@ == mangle(name@, tag),
{
    let mut r = name.clone();
    let t = int_to_text(tag);
    r.append(t.as_str());
    r
}

/// A copy of a list of names, equal to it in the model.
pub(crate) fn clone_names(v: &Vec<String>) -> (r: Vec<String>)
    ensures
        names_v(r@) == names_v(v@),
{
    let n = v.len();
    let mut r: Vec<String> = Vec::new();
    let mut i: usize = 0;
    while i < n
        invariant
            i <= n,
            n == v@.len(),
            r@.len() == i,
            forall|k: int| 0 <= k < i ==> r@[k]@ == v@[k]@,
        decreases n - i,
    {
        r.push(v[i].clone());
        i += 1;
    }
    proof {
        assert(names_v(r@) =~= names_v(v@));
    }
    r
}

impl Expression {
    /// The hygiene rewrite of this expression, as `rename_expr` describes;
    /// the locally-declared list is read and left as it was.
    pub fn change_name(&self, add: i32, of: &mut Vec<String>) -> (r: Expression)
        ensures
            r@ == rename_expr(self@, add, names_v(old(of)@)),
            final(of)@ == old(of)@,
        decreases expr_size(self@),
    {
        match self {
            Expression::Number(n) => Expression::Number(*n),
            Expression::Bool(b) => Expression::Bool(*b),
            Expression::Text(s) => Expression::Text(s.clone()),
            Expression::Variable(name) => {
                if contains_name(of, name) {
                    Expression::Variable(mangled(name, add))
                } else {
                    Expression::Variable(name.clone())
                }
            },
            Expression::CALL(name, data) => {
                let new_name = if contains_name(of, name) {
                    mangled(name, add)
                } else {
                    name.clone()
                };
                proof {
                    lemma_exprs_view(data@);
                    assert(exprs_view(data@).skip(0) =~= exprs_view(data@));
                }
                let new_data = rename_expr_list(data, 0, add, of);
                Expression::CALL(new_name, new_data)
            },
            Expression::Add(a, b) => Expression::Add(
                Box::new(a.change_name(add, of)),
                Box::new(b.change_name(add, of)),
            ),
            Expression::Sub(a, b) => Expression::Sub(
                Box::new(a.change_name(add, of)),
                Box::new(b.change_name(add, of)),
            ),
            Expression::Mul(a, b) => Expression::Mul(
                Box::new(a.change_name(add, of)),
                Box::new(b.change_name(add, of)),
            ),
            Expression::Div(a, b) => Expression::Div(
                Box::new(a.change_name(add, of)),
                Box::new(b.change_name(add, of)),
            ),
            Expression::EQ(a, b) => Expression::EQ(
                Box::new(a.change_name(add, of)),
                Box::new(b.change_name(add, of)),
            ),
            Expression::NOT(a) => Expression::NOT(Box::new(a.change_name(add, of))),
            Expression::GREATER(a, b) => Expression::GREATER(
                Box::new(a.change_name(add, of)),
                Box::new(b.change_name(add, of)),
            ),
        }
    }
}

/// The hygiene rewrite of the expressions from position `i` on.
fn rename_expr_list(data: &Vec<Expression>, i: usize, add: i32, of: &mut Vec<String>) -> (r: Vec<
    Expression,
>)
    requires
        i <= data@.len(),
    ensures
        exprs_view(r@) == rename_exprs(exprs_view(data@).skip(i as int), add, names_v(old(of)@)),
        final(of)@ == old(of)@,
    decreases exprs_size(exprs_view(data@).skip(i as int)),
{
    proof {
        lemma_exprs_view(data@);
    }
    if i >= data.len() {
        let r: Vec<Expression> = Vec::new();
        proof {
            assert(exprs_view(data@).skip(i as int) =~= Seq::<ExprV>::empty());
            assert(exprs_view(r@) =~= Seq::<ExprV>::empty());
        }
        r
    } else {
        let ghost whole = exprs_view(data@).skip(i as int);
        proof {
            assert(whole[0] == data@[i as int]@);
            assert(whole.drop_first() =~= exprs_view(data@).skip(i + 1));
        }
        let h = data[i].change_name(add, of);
        let mut rest = rename_expr_list(data, i + 1, add, of);
        let ghost restv = rest@;
        let mut out: Vec<Expression> = Vec::new();
        out.push(h);
        out.append(&mut rest);
        proof {
            lemma_exprs_view(out@);
            lemma_exprs_view(restv);
            assert(exprs_view(out@) =~= seq![out@[0]@] + exprs_view(restv));
        }
        out
    }
}

impl Instruction {
    /// The hygiene rewrite of this statement, as `rename_inst` describes;
    /// declarations it holds are appended to the locally-declared list.
    pub fn change_name(&self, add: i32, of: &mut Vec<String>) -> (r: Instruction)
        ensures
            r@ == rename_inst(self@, add, names_v(old(of)@)).0,
            names_v(final(of)@) == rename_inst(self@, add, names_v(old(of)@)).1,
        decreases inst_size(self@),
    {
        match self {
            Instruction::HALT => Instruction::HALT,
            Instruction::EXIT => Instruction::EXIT,
            Instruction::SET { name, value } => {
                of.push(name.clone());
                proof {
                    assert(names_v(of@) =~= names_v(old(of)@).push(name@));
                }
                let new_name = mangled(name, add);
                let new_value = value.change_name(add, of);
                Instruction::SET { name: new_name, value: new_value }
            },
            Instruction::ASSIGN { name, value } => {
                let new_name = if contains_name(of, name) {
                    mangled(name, add)
                } else {
                    name.clone()
                };
                let new_value = value.change_name(add, of);
                Instruction::ASSIGN { name: new_name, value: new_value }
            },
            Instruction::PRINT { value } => Instruction::PRINT {
                value: value.change_name(add, of),
            },
            Instruction::DROP { name } => {
                if contains_name(of, name) {
                    Instruction::DROP { name: mangled(name, add) }
                } else {
                    Instruction::DROP { name: name.clone() }
                }
            },
            Instruction::RETURN { value } => Instruction::RETURN {
                value: value.change_name(add, of),
            },
            Instruction::BLOCK { instruction } => {
                proof {
                    lemma_insts_view(instruction@);
                    assert(insts_view(instruction@).skip(0) =~= insts_view(instruction@));
                }
                let body = rename_inst_list(instruction, 0, add, of);
                Instruction::BLOCK { instruction: body }
            },
            Instruction::LOOP { instruction } => {
                proof {
                    lemma_insts_view(instruction@);
                    assert(insts_view(instruction@).skip(0) =~= insts_view(instruction@));
                }
                let body = rename_inst_list(instruction, 0, add, of);
                Instruction::LOOP { instruction: body }
            },
            Instruction::IF { condition, instruction } => {
                let c = condition.change_name(add, of);
                proof {
                    lemma_insts_view(instruction@);
                    assert(insts_view(instruction@).skip(0) =~= insts_view(instruction@));
                }
                let body = rename_inst_list(instruction, 0, add, of);
                Instruction::IF { condition: c, instruction: body }
            },
            Instruction::WHILE { condition, instruction } => {
                let c = condition.change_name(add, of);
                proof {
                    lemma_insts_view(instruction@);
                    assert(insts_view(instruction@).skip(0) =~= insts_view(instruction@));
                }
                let body = rename_inst_list(instruction, 0, add, of);
                Instruction::WHILE { condition: c, instruction: body }
            },
            Instruction::FUNCTION { name, args, instruction } => {
                of.push(name.clone());
                proof {
                    assert(names_v(of@) =~= names_v(old(of)@).push(name@));
                }
                let new_name = mangled(name, add);
                proof {
                    lemma_insts_view(instruction@);
                    assert(insts_view(instruction@).skip(0) =~= insts_view(instruction@));
                }
                let body = rename_inst_list(instruction, 0, add, of);
                Instruction::FUNCTION {
                    name: new_name,
                    args: clone_names(args),
                    instruction: body,
                }
            },
        }
    }
}

/// The hygiene rewrite of the statements from position `i` on, threading the
/// locally-declared list through.
fn rename_inst_list(insts: &Vec<Instruction>, i: usize, add: i32, of: &mut Vec<String>) -> (r: Vec<
    Instruction,
>)
    requires
        i <= insts@.len(),
    ensures
        insts_view(r@) == rename_insts(
            insts_view(insts@).skip(i as int),
            add,
            names_v(old(of)@),
        ).0,
        names_v(final(of)@) == rename_insts(
            insts_view(insts@).skip(i as int),
            add,
            names_v(old(of)@),
        ).1,
    decreases insts_size(insts_view(insts@).skip(i as int)),
{
    proof {
        lemma_insts_view(insts@);
    }
    if i >= insts.len() {
        let r: Vec<Instruction> = Vec::new();
        proof {
            assert(insts_view(insts@).skip(i as int) =~= Seq::<InstrV>::empty());
            assert(insts_view(r@) =~= Seq::<InstrV>::empty());
        }
        r
    } else {
        let ghost whole = insts_view(insts@).skip(i as int);
        proof {
            assert(whole[0] == insts@[i as int]@);
            assert(whole.drop_first() =~= insts_view(insts@).skip(i + 1));
        }
        let h = insts[i].change_name(add, of);
        let mut rest = rename_inst_list(insts, i + 1, add, of);
        let ghost restv = rest@;
        let mut out: Vec<Instruction> = Vec::new();
        out.push(h);
        out.append(&mut rest);
        proof {
            lemma_insts_view(out@);
            lemma_insts_view(restv);
            assert(insts_view(out@) =~= seq![out@[0]@] + insts_view(restv));
        }
        out
    }
}

/// Splitting a statement list for the rewrite: the sizes of the pieces are
/// bounded by the whole.
pub proof fn lemma_insts_size_split(s: Seq<InstrV>)
    requires
        s.len() > 0,
    ensures
        insts_size(s) == insts_size(s.drop_last()) + 1 + inst_size(s.last()),
    decreases s,
{
    if s.len() == 1 {
        assert(s.drop_last() =~= Seq::<InstrV>::empty());
        assert(s.drop_first() =~= Seq::<InstrV>::empty());
    } else {
        lemma_insts_size_split(s.drop_first());
        assert(s.drop_first().drop_last() =~= s.drop_last().drop_first());
        assert(s.drop_first().last() == s.last());
        assert(s.drop_last()[0] == s[0]);
    }
}

// ---------------------------------------------------------------------------
// Compiler state and errors
// ---------------------------------------------------------------------------

/// A registered function: its mangled parameter names, the fixed address of
/// its result slot, and the label of its entry point.
#[allow(non_camel_case_types)]
#[derive(Debug, Clone)]
pub struct FUNCTION {
    pub name: String,
    pub args: Vec<String>,
    pub return_addr: i32,
    pub addr: i32,
}

/// The model of a registered function.
#[verifier::ext_equal]
pub struct FuncV {
    pub name: Seq<char>,
    pub args: Seq<Seq<char>>,
    pub return_addr: i32,
    pub addr: i32,
}

impl View for FUNCTION {
    type V = FuncV;

    open spec fn view(&self) -> FuncV {
        FuncV {
            name: self.name@,
            args: names_v(self.args@),
            return_addr: self.return_addr,
            addr: self.addr,
        }
    }
}

/// A fatal lowering condition, named after the offending name where there is
/// one.
#[derive(Debug, Clone)]
pub enum CompileError {
    /// A variable was assigned, dropped or read without being bound.
    UndefinedVariable(String),
    /// A call named a function that was never defined.
    UndefinedFunction(String),
    /// A return stood anywhere but as the last statement of a function body.
    MisplacedReturn,
    /// A function was defined with an empty body.
    EmptyFunction(String),
    /// The address counter ran out of fresh addresses.
    AddressSpaceExhausted,
}

/// The model of a lowering error.
pub enum CErrV {
    UndefinedVariable(Seq<char>),
    UndefinedFunction(Seq<char>),
    MisplacedReturn,
    EmptyFunction(Seq<char>),
    AddressSpaceExhausted,
}

impl View for CompileError {
    type V = CErrV;

    open spec fn view(&self) -> CErrV {
        match self {
            CompileError::UndefinedVariable(n) => CErrV::UndefinedVariable(n@),
            CompileError::UndefinedFunction(n) => CErrV::UndefinedFunction(n@),
            CompileError::MisplacedReturn => CErrV::MisplacedReturn,
            CompileError::EmptyFunction(n) => CErrV::EmptyFunction(n@),
            CompileError::AddressSpaceExhausted => CErrV::AddressSpaceExhausted,
        }
    }
}

/// The model of the lowering engine's persistent state: the variable table,
/// the function table, the address counter, and the function bodies emitted
/// so far.
#[verifier::ext_equal]
pub struct CompSt {
    pub vars: Map<Seq<char>, i32>,
    pub funcs: Map<Seq<char>, FuncV>,
    pub caddr: i32,
    pub fnprog: Seq<OpV>,
}

/// A fresh address from the counter; every allocation is distinct for the
/// compiler's whole lifetime.
pub open spec fn fresh_addr(st: CompSt) -> Result<(i32, CompSt), CErrV> {
    if st.caddr == i32::MAX {
        Err(CErrV::AddressSpaceExhausted)
    } else {
        Ok((st.caddr, CompSt { caddr: (st.caddr + 1) as i32, ..st }))
    }
}

/// Two fresh addresses.
pub open spec fn fresh_addr2(st: CompSt) -> Result<(i32, i32, CompSt), CErrV> {
    match fresh_addr(st) {
        Err(e) => Err(e),
        Ok((x, st1)) => match fresh_addr(st1) {
            Err(e) => Err(e),
            Ok((y, st2)) => Ok((x, y, st2)),
        },
    }
}

// ---------------------------------------------------------------------------
// Lowering, specified
// ---------------------------------------------------------------------------

/// Lowering an expression into a destination address: a binary operator draws
/// two fresh addresses, lowers each operand into its own, and combines them
/// into the destination; a literal is stored directly; a variable reference
/// stores a pointer to the variable's bound address, resolved at run time.
pub open spec fn compile_expr(e: ExprV, addr: i32, st: CompSt) -> Result<
    (Seq<OpV>, CompSt),
    CErrV,
>
    decreases expr_size(e),
{
    match e {
        ExprV::Number(n) => Ok(
            (seq![OpV::SET { name: DataV::Number(addr), value: DataV::Number(n) }], st),
        ),
        ExprV::Bool(b) => Ok(
            (seq![OpV::SET { name: DataV::Number(addr), value: DataV::Bool(b) }], st),
        ),
        ExprV::Text(s) => Ok(
            (seq![OpV::SET { name: DataV::Number(addr), value: DataV::Text(s) }], st),
        ),
        ExprV::Variable(v) => if st.vars.contains_key(v) {
            Ok((seq![OpV::SET { name: DataV::Number(addr), value: DataV::Pointer(st.vars[v]) }], st))
        } else {
            Err(CErrV::UndefinedVariable(v))
        },
        ExprV::Add(a, b) => match compile_operands(*a, *b, st) {
            Err(e) => Err(e),
            Ok((aa, ab, ops, st4)) => Ok(
                (
                    ops + seq![
                        OpV::ADD {
                            name: DataV::Pointer(aa),
                            value: DataV::Pointer(ab),
                            ret: DataV::Number(addr),
                        },
                    ],
                    st4,
                ),
            ),
        },
        ExprV::Sub(a, b) => match compile_operands(*a, *b, st) {
            Err(e) => Err(e),
            Ok((aa, ab, ops, st4)) => Ok(
                (
                    ops + seq![
                        OpV::SUB {
                            name: DataV::Pointer(aa),
                            value: DataV::Pointer(ab),
                            ret: DataV::Number(addr),
                        },
                    ],
                    st4,
                ),
            ),
        },
        ExprV::Mul(a, b) => match compile_operands(*a, *b, st) {
            Err(e) => Err(e),
            Ok((aa, ab, ops, st4)) => Ok(
                (
                    ops + seq![
                        OpV::MUL {
                            name: DataV::Pointer(aa),
                            value: DataV::Pointer(ab),
                            ret: DataV::Number(addr),
                        },
                    ],
                    st4,
                ),
            ),
        },
        ExprV::Div(a, b) => match compile_operands(*a, *b, st) {
            Err(e) => Err(e),
            Ok((aa, ab, ops, st4)) => Ok(
                (
                    ops + seq![
                        OpV::DIV {
                            name: DataV::Pointer(aa),
                            value: DataV::Pointer(ab),
                            ret: DataV::Number(addr),
                        },
                    ],
                    st4,
                ),
            ),
        },
        ExprV::EQ(a, b) => match compile_operands(*a, *b, st) {
            Err(e) => Err(e),
            Ok((aa, ab, ops, st4)) => Ok(
                (
                    ops + seq![
                        OpV::EQ {
                            name: DataV::Pointer(aa),
                            value: DataV::Pointer(ab),
                            ret: DataV::Number(addr),
                        },
                    ],
                    st4,
                ),
            ),
        },
        ExprV::GREATER(a, b) => match compile_operands(*a, *b, st) {
            Err(e) => Err(e),
            Ok((aa, ab, ops, st4)) => Ok(
                (
                    ops + seq![
                        OpV::GREATER {
                            name: DataV::Pointer(aa),
                            value: DataV::Pointer(ab),
                            ret: DataV::Number(addr),
                        },
                    ],
                    st4,
                ),
            ),
        },
        ExprV::NOT(a) => match fresh_addr(st) {
            Err(e) => Err(e),
            Ok((aa, st1)) => match compile_expr(*a, aa, st1) {
                Err(e) => Err(e),
                Ok((ops, st2)) => Ok(
                    (
                        ops + seq![OpV::NOT { name: DataV::Pointer(aa), ret: DataV::Number(addr) }],
                        st2,
                    ),
                ),
            },
        },
        ExprV::CALL(name, args) => if !st.funcs.contains_key(name) {
            Err(CErrV::UndefinedFunction(name))
        } else {
            let f = st.funcs[name];
            match compile_args(args, f.args, st) {
                Err(e) => Err(e),
                Ok((aops, st1)) => Ok(
                    (
                        seq![OpV::SET { name: DataV::Number(f.return_addr), value: DataV::Number(addr) }]
                            + aops + seq![OpV::CALL { name: DataV::Number(f.addr) }],
                        st1,
                    ),
                ),
            }
        },
    }
}

/// The two operands of a binary operator, each lowered into a fresh address.
pub open spec fn compile_operands(a: ExprV, b: ExprV, st: CompSt) -> Result<
    (i32, i32, Seq<OpV>, CompSt),
    CErrV,
>
    decreases expr_size(a) + expr_size(b), 1int,
{
    match fresh_addr2(st) {
        Err(e) => Err(e),
        Ok((aa, ab, st2)) => match compile_expr(a, aa, st2) {
            Err(e) => Err(e),
            Ok((ops_a, st3)) => match compile_expr(b, ab, st3) {
                Err(e) => Err(e),
                Ok((ops_b, st4)) => Ok((aa, ab, ops_a + ops_b, st4)),
            },
        },
    }
}

/// Lowering the arguments of a call, each into the fixed slot of its mangled
/// parameter; extra arguments or parameters beyond the shorter list are
/// ignored.
pub open spec fn compile_args(args: Seq<ExprV>, params: Seq<Seq<char>>, st: CompSt) -> Result<
    (Seq<OpV>, CompSt),
    CErrV,
>
    decreases exprs_size(args),
{
    if args.len() == 0 || params.len() == 0 {
        Ok((Seq::empty(), st))
    } else if !st.vars.contains_key(params[0]) {
        Err(CErrV::UndefinedVariable(params[0]))
    } else {
        match compile_expr(args[0], st.vars[params[0]], st) {
            Err(e) => Err(e),
            Ok((ops0, st1)) => match compile_args(args.drop_first(), params.drop_first(), st1) {
                Err(e) => Err(e),
                Ok((rest, st2)) => Ok((ops0 + rest, st2)),
            },
        }
    }
}

/// Binding each mangled parameter name to its own fresh, fixed address at
/// definition time; every call site lowers its arguments into these shared
/// slots.
pub open spec fn bind_params(ps: Seq<Seq<char>>, st: CompSt) -> Result<CompSt, CErrV>
    decreases ps.len(),
{
    if ps.len() == 0 {
        Ok(st)
    } else {
        match fresh_addr(st) {
            Err(e) => Err(e),
            Ok((a, st1)) => bind_params(
                ps.drop_first(),
                CompSt { vars: st1.vars.insert(ps[0], a), ..st1 },
            ),
        }
    }
}

/// The label instruction opening a function body.
pub open spec fn entry_ops(entry: i32) -> Seq<OpV> {
    seq![OpV::POINT { name: DataV::Number(entry) }]
}

/// Lowering one statement: the instructions it contributes to the enclosing
/// sequence, and the compiler state after it. A function definition
/// contributes nothing in place: its lowered body is appended to the state's
/// collected function bodies, which the whole program places after its halt.
pub open spec fn compile_inst(i: InstrV, st: CompSt) -> Result<(Seq<OpV>, CompSt), CErrV>
    decreases inst_size(i),
    via compile_inst_dec
{
    match i {
        InstrV::HALT => Ok((seq![OpV::HALT], st)),
        InstrV::EXIT => Ok((seq![OpV::RET], st)),
        InstrV::RETURN { .. } => Err(CErrV::MisplacedReturn),
        InstrV::DROP { name } => if st.vars.contains_key(name) {
            Ok(
                (
                    seq![OpV::DROP { name: DataV::Number(st.vars[name]) }],
                    CompSt { vars: st.vars.remove(name), ..st },
                ),
            )
        } else {
            Err(CErrV::UndefinedVariable(name))
        },
        InstrV::SET { name, value } => match fresh_addr(st) {
            Err(e) => Err(e),
            Ok((addr, st1)) => compile_expr(
                value,
                addr,
                CompSt { vars: st1.vars.insert(name, addr), ..st1 },
            ),
        },
        InstrV::ASSIGN { name, value } => if st.vars.contains_key(name) {
            compile_expr(value, st.vars[name], st)
        } else {
            Err(CErrV::UndefinedVariable(name))
        },
        InstrV::PRINT { value } => match fresh_addr(st) {
            Err(e) => Err(e),
            Ok((addr, st1)) => match compile_expr(value, addr, st1) {
                Err(e) => Err(e),
                Ok((ops, st2)) => Ok(
                    (ops + seq![OpV::PRINT { value: DataV::Pointer(addr) }], st2),
                ),
            },
        },
        InstrV::BLOCK { body } => compile_insts(body, st),
        InstrV::LOOP { body } => match fresh_addr(st) {
            Err(e) => Err(e),
            Ok((l, st1)) => match compile_insts(body, st1) {
                Err(e) => Err(e),
                Ok((bops, st2)) => Ok(
                    (
                        seq![OpV::POINT { name: DataV::Number(l) }] + bops + seq![
                            OpV::JUMP { name: DataV::Number(l) },
                        ],
                        st2,
                    ),
                ),
            },
        },
        InstrV::IF { condition, body } => match fresh_addr2(st) {
            Err(e) => Err(e),
            Ok((addr, addr_a, st2)) => match compile_expr(condition, addr_a, st2) {
                Err(e) => Err(e),
                Ok((cops, st3)) => match fresh_addr(st3) {
                    Err(e) => Err(e),
                    Ok((jump_addr, st4)) => match compile_insts(body, st4) {
                        Err(e) => Err(e),
                        Ok((bops, st5)) => Ok(
                            (
                                cops + seq![
                                    OpV::NOT {
                                        name: DataV::Pointer(addr_a),
                                        ret: DataV::Number(addr),
                                    },
                                    OpV::JUMP_IF {
                                        name: DataV::Number(jump_addr),
                                        condition: DataV::Pointer(addr),
                                    },
                                ] + bops + seq![OpV::POINT { name: DataV::Number(jump_addr) }],
                                st5,
                            ),
                        ),
                    },
                },
            },
        },
        InstrV::WHILE { condition, body } => match fresh_addr2(st) {
            Err(e) => Err(e),
            Ok((jump_start, jump_end, st2)) => match fresh_addr2(st2) {
                Err(e) => Err(e),
                Ok((cond_addr, addr_a, st4)) => match compile_expr(condition, addr_a, st4) {
                    Err(e) => Err(e),
                    Ok((cops, st5)) => match compile_insts(body, st5) {
                        Err(e) => Err(e),
                        Ok((bops, st6)) => Ok(
                            (
                                seq![OpV::POINT { name: DataV::Number(jump_start) }] + cops + seq![
                                    OpV::NOT {
                                        name: DataV::Pointer(addr_a),
                                        ret: DataV::Number(cond_addr),
                                    },
                                    OpV::JUMP_IF {
                                        name: DataV::Number(jump_end),
                                        condition: DataV::Pointer(cond_addr),
                                    },
                                ] + bops + seq![
                                    OpV::JUMP { name: DataV::Number(jump_start) },
                                    OpV::POINT { name: DataV::Number(jump_end) },
                                ],
                                st6,
                            ),
                        ),
                    },
                },
            },
        },
        InstrV::FUNCTION { name, args, body } => if body.len() == 0 {
            Err(CErrV::EmptyFunction(name))
        } else {
            match fresh_addr(st) {
                Err(e) => Err(e),
                Ok((tag, st1)) => {
                    let margs = mangle_all(args, tag);
                    match fresh_addr2(st1) {
                        Err(e) => Err(e),
                        Ok((ret_slot, entry, st3)) => {
                            let f = FuncV { name, args: margs, return_addr: ret_slot, addr: entry };
                            let st4 = CompSt { funcs: st3.funcs.insert(name, f), ..st3 };
                            match bind_params(margs, st4) {
                                Err(e) => Err(e),
                                Ok(st5) => {
                                    let rbody = rename_insts(body, tag, args).0;
                                    match compile_insts(rbody.drop_last(), st5) {
                                        Err(e) => Err(e),
                                        Ok((bops, st6)) => match rbody.last() {
                                            InstrV::RETURN { value } => match fresh_addr(st6) {
                                                Err(e) => Err(e),
                                                Ok((scratch, st7)) => match compile_expr(
                                                    value,
                                                    scratch,
                                                    st7,
                                                ) {
                                                    Err(e) => Err(e),
                                                    Ok((vops, st8)) => Ok(
                                                        (
                                                            Seq::empty(),
                                                            CompSt {
                                                                fnprog: st8.fnprog + entry_ops(
                                                                    entry,
                                                                ) + bops + vops + seq![
                                                                    OpV::SET {
                                                                        name: DataV::Pointer(
                                                                            ret_slot,
                                                                        ),
                                                                        value: DataV::Pointer(
                                                                            scratch,
                                                                        ),
                                                                    },
                                                                    OpV::RET,
                                                                ],
                                                                ..st8
                                                            },
                                                        ),
                                                    ),
                                                },
                                            },
                                            last => match compile_inst(last, st6) {
                                                Err(e) => Err(e),
                                                Ok((lops, st7)) => Ok(
                                                    (
                                                        Seq::empty(),
                                                        CompSt {
                                                            fnprog: st7.fnprog + entry_ops(entry)
                                                                + bops + lops + seq![OpV::RET],
                                                            ..st7
                                                        },
                                                    ),
                                                ),
                                            },
                                        },
                                    }
                                },
                            }
                        },
                    }
                },
            }
        },
    }
}

/// Lowering a sequence of statements in order, threading the state through
/// and concatenating what they contribute.
pub open spec fn compile_insts(s: Seq<InstrV>, st: CompSt) -> Result<(Seq<OpV>, CompSt), CErrV>
    decreases insts_size(s),
{
    if s.len() == 0 {
        Ok((Seq::empty(), st))
    } else {
        match compile_inst(s[0], st) {
            Err(e) => Err(e),
            Ok((ops0, st1)) => match compile_insts(s.drop_first(), st1) {
                Err(e) => Err(e),
                Ok((rest, st2)) => Ok((ops0 + rest, st2)),
            },
        }
    }
}

#[via_fn]
proof fn compile_inst_dec(i: InstrV, st: CompSt) {
    match i {
        InstrV::FUNCTION { name, args, body } => {
            if body.len() > 0 {
                match fresh_addr(st) {
                    Ok((tag, st1)) => {
                        lemma_rename_insts_size(body, tag, args);
                        let rbody = rename_insts(body, tag, args).0;
                        lemma_insts_size_split(rbody);
                    },
                    _ => {},
                }
            }
        },
        _ => {},
    }
}

/// Lowering a whole submission: the statements in order, a closing halt, and
/// then every function body collected so far, so that entry labels resolve
/// and the bodies run only when called; when any bodies stand, one more halt
/// closes the program, so the lowered program always ends with a halt.
pub open spec fn compile_program(insts: Seq<InstrV>, st: CompSt) -> Result<
    (Seq<OpV>, CompSt),
    CErrV,
> {
    match compile_insts(insts, st) {
        Err(e) => Err(e),
        Ok((main, st1)) => if st1.fnprog.len() == 0 {
            Ok((main + seq![OpV::HALT], st1))
        } else {
            Ok((main + seq![OpV::HALT] + st1.fnprog + seq![OpV::HALT], st1))
        },
    }
}

// ---------------------------------------------------------------------------
// The lowering engine, executed
// ---------------------------------------------------------------------------

/// The lowering engine. Its variable table, function table, address counter
/// and collected function bodies persist across repeated invocations.
pub struct Compiler {
    pub instructions: Vec<Instruction>,
    pub program: Vec<Operation>,
    pub fuctions_programms: Vec<Operation>,
    pub functions: NameTable<FUNCTION>,
    pub vars: NameTable<i32>,
    pub caddr: i32,
}

/// A copy of a list of instructions, equal to it in the model.
pub(crate) fn dup_ops(v: &Vec<Operation>) -> (r: Vec<Operation>)
    ensures
        ops_v(r@) == ops_v(v@),
{
    let n = v.len();
    let mut r: Vec<Operation> = Vec::new();
    let mut i: usize = 0;
    while i < n
        invariant
            i <= n,
            n == v@.len(),
            r@.len() == i,
            forall|k: int| 0 <= k < i ==> r@[k]@ == v@[k]@,
        decreases n - i,
    {
        let op = v[i].dup();
        r.push(op);
        i += 1;
    }
    proof {
        assert(ops_v(r@) =~= ops_v(v@));
    }
    r
}

/// Every name of the list with the tag appended.
fn mangle_names(args: &Vec<String>, tag: i32) -> (r: Vec<String>)
    ensures
        names_v(r@) == mangle_all(names_v(args@), tag),
{
    let n = args.len();
    let mut r: Vec<String> = Vec::new();
    let mut i: usize = 0;
    while i < n
        invariant
            i <= n,
            n == args@.len(),
            r@.len() == i,
            forall|k: int| 0 <= k < i ==> r@[k]@ == mangle(args@[k]@, tag),
        decreases n - i,
    {
        let m = mangled(&args[i], tag);
        r.push(m);
        i += 1;
    }
    proof {
        assert(names_v(r@) =~= mangle_all(names_v(args@), tag));
    }
    r
}

impl Compiler {
    /// The model of the engine's persistent state.
    pub open spec fn st(&self) -> CompSt {
        CompSt {
            vars: self.vars@,
            funcs: self.functions@,
            caddr: self.caddr,
            fnprog: ops_v(self.fuctions_programms@),
        }
    }

    /// A fresh address, strictly increasing, never reused.
    pub fn new_addr(&mut self) -> (r: Result<i32, CompileError>)
        ensures
            match fresh_addr(old(self).st()) {
                Ok(p) => r matches Ok(a) && a == p.0 && final(self).st() == p.1,
                Err(e) => r matches Err(e2) && e2@ == e,
            },
            final(self).program == old(self).program,
            final(self).instructions == old(self).instructions,
    {
        if self.caddr == i32::MAX {
            return Err(CompileError::AddressSpaceExhausted);
        }
        let addr = self.caddr;
        self.caddr = self.caddr + 1;
        proof {
            assert(self.st() =~~= fresh_addr(old(self).st())->Ok_0.1);
        }
        Ok(addr)
    }

    /// A fresh address bound to the name, shadowing any earlier binding.
    pub fn new_var(&mut self, name: String) -> (r: Result<i32, CompileError>)
        ensures
            match fresh_addr(old(self).st()) {
                Ok(p) => r matches Ok(a) && a == p.0 && final(self).st() == (CompSt {
                    vars: p.1.vars.insert(name@, p.0),
                    ..p.1
                }),
                Err(e) => r matches Err(e2) && e2@ == e,
            },
            final(self).program == old(self).program,
            final(self).instructions == old(self).instructions,
    {
        let addr = match self.new_addr() {
            Ok(a) => a,
            Err(e) => {
                return Err(e);
            },
        };
        self.vars.insert(name, addr);
        proof {
            assert(self.st() =~~= (CompSt {
                vars: fresh_addr(old(self).st())->Ok_0.1.vars.insert(name@, addr),
                ..fresh_addr(old(self).st())->Ok_0.1
            }));
        }
        Ok(addr)
    }
}

impl Expression {
    /// Lowers this expression into the destination address, as `compile_expr`
    /// describes: the instruction sequence that computes it, with the
    /// compiler's state advanced past every address the lowering drew.
    pub fn to_addr(&self, addr: i32, compiler: &mut Compiler) -> (r: Result<
        Vec<Operation>,
        CompileError,
    >)
        ensures
            match compile_expr(self@, addr, old(compiler).st()) {
                Ok(p) => r matches Ok(ops) && ops_v(ops@) == p.0 && final(compiler).st() == p.1,
                Err(e) => r matches Err(e2) && e2@ == e,
            },
            final(compiler).program == old(compiler).program,
            final(compiler).instructions == old(compiler).instructions,
        decreases expr_size(self@),
    {
        match self {
            Expression::Number(n) => {
                let ops = vec![
                    Operation::SET { name: DATA::Number(addr), value: DATA::Number(*n) },
                ];
                proof {
                    assert(ops_v(ops@) =~= compile_expr(self@, addr, compiler.st())->Ok_0.0);
                }
                Ok(ops)
            },
            Expression::Bool(b) => {
                let ops = vec![Operation::SET { name: DATA::Number(addr), value: DATA::Bool(*b) }];
                proof {
                    assert(ops_v(ops@) =~= compile_expr(self@, addr, compiler.st())->Ok_0.0);
                }
                Ok(ops)
            },
            Expression::Text(s) => {
                let ops = vec![
                    Operation::SET { name: DATA::Number(addr), value: DATA::Text(s.clone()) },
                ];
                proof {
                    assert(ops_v(ops@) =~= compile_expr(self@, addr, compiler.st())->Ok_0.0);
                }
                Ok(ops)
            },
            Expression::Variable(v) => {
                match compiler.vars.get(v) {
                    Some(a) => {
                        let ops = vec![
                            Operation::SET { name: DATA::Number(addr), value: DATA::POINTER(*a) },
                        ];
                        proof {
                            assert(ops_v(ops@) =~= compile_expr(
                                self@,
                                addr,
                                compiler.st(),
                            )->Ok_0.0);
                        }
                        Ok(ops)
                    },
                    None => Err(CompileError::UndefinedVariable(v.clone())),
                }
            },
            Expression::Add(a, b) => {
                match compile_operands_exec(a, b, compiler) {
                    Err(e) => Err(e),
                    Ok((aa, ab, mut ops)) => {
                        let ghost partial = ops@;
                        ops.push(
                            Operation::ADD {
                                name: DATA::POINTER(aa),
                                value: DATA::POINTER(ab),
                                ret: DATA::Number(addr),
                            },
                        );
                        proof {
                            assert(ops_v(ops@) =~= ops_v(partial) + seq![
                                OpV::ADD {
                                    name: DataV::Pointer(aa),
                                    value: DataV::Pointer(ab),
                                    ret: DataV::Number(addr),
                                },
                            ]);
                        }
                        Ok(ops)
                    },
                }
            },
            Expression::Sub(a, b) => {
                match compile_operands_exec(a, b, compiler) {
                    Err(e) => Err(e),
                    Ok((aa, ab, mut ops)) => {
                        let ghost partial = ops@;
                        ops.push(
                            Operation::SUB {
                                name: DATA::POINTER(aa),
                                value: DATA::POINTER(ab),
                                ret: DATA::Number(addr),
                            },
                        );
                        proof {
                            assert(ops_v(ops@) =~= ops_v(partial) + seq![
                                OpV::SUB {
                                    name: DataV::Pointer(aa),
                                    value: DataV::Pointer(ab),
                                    ret: DataV::Number(addr),
                                },
                            ]);
                        }
                        Ok(ops)
                    },
                }
            },
            Expression::Mul(a, b) => {
                match compile_operands_exec(a, b, compiler) {
                    Err(e) => Err(e),
                    Ok((aa, ab, mut ops)) => {
                        let ghost partial = ops@;
                        ops.push(
                            Operation::MUL {
                                name: DATA::POINTER(aa),
                                value: DATA::POINTER(ab),
                                ret: DATA::Number(addr),
                            },
                        );
                        proof {
                            assert(ops_v(ops@) =~= ops_v(partial) + seq![
                                OpV::MUL {
                                    name: DataV::Pointer(aa),
                                    value: DataV::Pointer(ab),
                                    ret: DataV::Number(addr),
                                },
                            ]);
                        }
                        Ok(ops)
                    },
                }
            },
            Expression::Div(a, b) => {
                match compile_operands_exec(a, b, compiler) {
                    Err(e) => Err(e),
                    Ok((aa, ab, mut ops)) => {
                        let ghost partial = ops@;
                        ops.push(
                            Operation::DIV {
                                name: DATA::POINTER(aa),
                                value: DATA::POINTER(ab),
                                ret: DATA::Number(addr),
                            },
                        );
                        proof {
                            assert(ops_v(ops@) =~= ops_v(partial) + seq![
                                OpV::DIV {
                                    name: DataV::Pointer(aa),
                                    value: DataV::Pointer(ab),
                                    ret: DataV::Number(addr),
                                },
                            ]);
                        }
                        Ok(ops)
                    },
                }
            },
            Expression::EQ(a, b) => {
                match compile_operands_exec(a, b, compiler) {
                    Err(e) => Err(e),
                    Ok((aa, ab, mut ops)) => {
                        let ghost partial = ops@;
                        ops.push(
                            Operation::EQ {
                                name: DATA::POINTER(aa),
                                value: DATA::POINTER(ab),
                                ret: DATA::Number(addr),
                            },
                        );
                        proof {
                            assert(ops_v(ops@) =~= ops_v(partial) + seq![
                                OpV::EQ {
                                    name: DataV::Pointer(aa),
                                    value: DataV::Pointer(ab),
                                    ret: DataV::Number(addr),
                                },
                            ]);
                        }
                        Ok(ops)
                    },
                }
            },
            Expression::GREATER(a, b) => {
                match compile_operands_exec(a, b, compiler) {
                    Err(e) => Err(e),
                    Ok((aa, ab, mut ops)) => {
                        let ghost partial = ops@;
                        ops.push(
                            Operation::GREATER {
                                name: DATA::POINTER(aa),
                                value: DATA::POINTER(ab),
                                ret: DATA::Number(addr),
                            },
                        );
                        proof {
                            assert(ops_v(ops@) =~= ops_v(partial) + seq![
                                OpV::GREATER {
                                    name: DataV::Pointer(aa),
                                    value: DataV::Pointer(ab),
                                    ret: DataV::Number(addr),
                                },
                            ]);
                        }
                        Ok(ops)
                    },
                }
            },
            Expression::NOT(a) => {
                let aa = match compiler.new_addr() {
                    Ok(v) => v,
                    Err(e) => {
                        return Err(e);
                    },
                };
                let mut ops = match a.to_addr(aa, compiler) {
                    Ok(v) => v,
                    Err(e) => {
                        return Err(e);
                    },
                };
                let ghost partial = ops@;
                ops.push(Operation::NOT { name: DATA::POINTER(aa), ret: DATA::Number(addr) });
                proof {
                    assert(ops_v(ops@) =~= ops_v(partial) + seq![
                        OpV::NOT { name: DataV::Pointer(aa), ret: DataV::Number(addr) },
                    ]);
                }
                Ok(ops)
            },
            Expression::CALL(name, args) => {
                let picked = match compiler.functions.get(name) {
                    Some(f) => (f.return_addr, f.addr, clone_names(&f.args)),
                    None => {
                        return Err(CompileError::UndefinedFunction(name.clone()));
                    },
                };
                let (return_addr, faddr, params) = picked;
                proof {
                    lemma_exprs_view(args@);
                    assert(exprs_view(args@).skip(0) =~= exprs_view(args@));
                    assert(names_v(params@).skip(0) =~= names_v(params@));
                }
                let mut ops = vec![
                    Operation::SET { name: DATA::Number(return_addr), value: DATA::Number(addr) },
                ];
                let mut aops = match compile_call_args(args, &params, 0, compiler) {
                    Ok(v) => v,
                    Err(e) => {
                        return Err(e);
                    },
                };
                let ghost av = aops@;
                ops.append(&mut aops);
                ops.push(Operation::CALL { name: DATA::Number(faddr) });
                proof {
                    assert(ops_v(ops@) =~= seq![
                        OpV::SET { name: DataV::Number(return_addr), value: DataV::Number(addr) },
                    ] + ops_v(av) + seq![OpV::CALL { name: DataV::Number(faddr) }]);
                }
                Ok(ops)
            },
        }
    }
}

/// Two fresh addresses and both operands lowered into them, in order.
fn compile_operands_exec(a: &Expression, b: &Expression, compiler: &mut Compiler) -> (r: Result<
    (i32, i32, Vec<Operation>),
    CompileError,
>)
    ensures
        match compile_operands(a@, b@, old(compiler).st()) {
            Ok(p) => r matches Ok(t) && t.0 == p.0 && t.1 == p.1 && ops_v(t.2@) == p.2
                && final(compiler).st() == p.3,
            Err(e) => r matches Err(e2) && e2@ == e,
        },
        final(compiler).program == old(compiler).program,
        final(compiler).instructions == old(compiler).instructions,
    decreases expr_size(a@) + expr_size(b@), 1int,
{
    let aa = match compiler.new_addr() {
        Ok(v) => v,
        Err(e) => {
            return Err(e);
        },
    };
    let ab = match compiler.new_addr() {
        Ok(v) => v,
        Err(e) => {
            return Err(e);
        },
    };
    let mut ops_a = match a.to_addr(aa, compiler) {
        Ok(v) => v,
        Err(e) => {
            return Err(e);
        },
    };
    let ghost oav = ops_a@;
    let mut ops_b = match b.to_addr(ab, compiler) {
        Ok(v) => v,
        Err(e) => {
            return Err(e);
        },
    };
    let ghost obv = ops_b@;
    ops_a.append(&mut ops_b);
    proof {
        assert(ops_v(ops_a@) =~= ops_v(oav) + ops_v(obv));
    }
    Ok((aa, ab, ops_a))
}

/// Lowers the call arguments from position `i` on, each into the fixed slot
/// of its mangled parameter.
fn compile_call_args(
    args: &Vec<Expression>,
    params: &Vec<String>,
    i: usize,
    compiler: &mut Compiler,
) -> (r: Result<Vec<Operation>, CompileError>)
    requires
        i <= args@.len(),
        i <= params@.len(),
    ensures
        match compile_args(
            exprs_view(args@).skip(i as int),
            names_v(params@).skip(i as int),
            old(compiler).st(),
        ) {
            Ok(p) => r matches Ok(ops) && ops_v(ops@) == p.0 && final(compiler).st() == p.1,
            Err(e) => r matches Err(e2) && e2@ == e,
        },
        final(compiler).program == old(compiler).program,
        final(compiler).instructions == old(compiler).instructions,
    decreases exprs_size(exprs_view(args@).skip(i as int)), 0int,
{
    proof {
        lemma_exprs_view(args@);
    }
    if i >= args.len() || i >= params.len() {
        let r: Vec<Operation> = Vec::new();
        proof {
            if i >= args.len() {
                assert(exprs_view(args@).skip(i as int) =~= Seq::<ExprV>::empty());
            } else {
                assert(names_v(params@).skip(i as int) =~= Seq::<Seq<char>>::empty());
            }
            assert(ops_v(r@) =~= Seq::<OpV>::empty());
        }
        Ok(r)
    } else {
        let ghost argsv = exprs_view(args@).skip(i as int);
        let ghost paramsv = names_v(params@).skip(i as int);
        proof {
            assert(argsv[0] == args@[i as int]@);
            assert(paramsv[0] == params@[i as int]@);
            assert(argsv.drop_first() =~= exprs_view(args@).skip(i + 1));
            assert(paramsv.drop_first() =~= names_v(params@).skip(i + 1));
        }
        let slot = match compiler.vars.get(&params[i]) {
            Some(s) => *s,
            None => {
                return Err(CompileError::UndefinedVariable(params[i].clone()));
            },
        };
        let mut ops0 = match args[i].to_addr(slot, compiler) {
            Ok(v) => v,
            Err(e) => {
                return Err(e);
            },
        };
        let ghost o0 = ops0@;
        let mut rest = match compile_call_args(args, params, i + 1, compiler) {
            Ok(v) => v,
            Err(e) => {
                return Err(e);
            },
        };
        let ghost r0 = rest@;
        ops0.append(&mut rest);
        proof {
            assert(ops_v(ops0@) =~= ops_v(o0) + ops_v(r0));
        }
        Ok(ops0)
    }
}

impl Compiler {
    /// Lowers one statement against the engine's persistent state, as
    /// `compile_inst` describes.
    #[verifier::loop_isolation(false)]
    #[verifier::rlimit(100)]
    pub fn compile_instruction(&mut self, inst: Instruction) -> (r: Result<
        Vec<Operation>,
        CompileError,
    >)
        ensures
            match compile_inst(inst@, old(self).st()) {
                Ok(p) => r matches Ok(ops) && ops_v(ops@) == p.0 && final(self).st() == p.1,
                Err(e) => r matches Err(e2) && e2@ == e,
            },
            final(self).program == old(self).program,
            final(self).instructions == old(self).instructions,
        decreases inst_size(inst@),
    {
        match inst {
            Instruction::HALT => {
                let ops = vec![Operation::HALT];
                proof {
                    assert(ops_v(ops@) =~= seq![OpV::HALT]);
                }
                Ok(ops)
            },
            Instruction::EXIT => {
                let ops = vec![Operation::RET];
                proof {
                    assert(ops_v(ops@) =~= seq![OpV::RET]);
                }
                Ok(ops)
            },
            Instruction::RETURN { value: _ } => Err(CompileError::MisplacedReturn),
            Instruction::DROP { name } => {
                let addr = match self.vars.get(&name) {
                    Some(a) => *a,
                    None => {
                        return Err(CompileError::UndefinedVariable(name));
                    },
                };
                self.vars.remove(&name);
                let ops = vec![Operation::DROP { name: DATA::Number(addr) }];
                proof {
                    assert(ops_v(ops@) =~= seq![OpV::DROP { name: DataV::Number(addr) }]);
                    assert(self.st() =~~= compile_inst(inst@, old(self).st())->Ok_0.1);
                }
                Ok(ops)
            },
            Instruction::SET { name, value } => {
                let addr = match self.new_var(name) {
                    Ok(a) => a,
                    Err(e) => {
                        return Err(e);
                    },
                };
                value.to_addr(addr, self)
            },
            Instruction::ASSIGN { name, value } => {
                let addr = match self.vars.get(&name) {
                    Some(a) => *a,
                    None => {
                        return Err(CompileError::UndefinedVariable(name));
                    },
                };
                value.to_addr(addr, self)
            },
            Instruction::PRINT { value } => {
                let addr = match self.new_addr() {
                    Ok(a) => a,
                    Err(e) => {
                        return Err(e);
                    },
                };
                let mut ops = match value.to_addr(addr, self) {
                    Ok(v) => v,
                    Err(e) => {
                        return Err(e);
                    },
                };
                let ghost partial = ops@;
                ops.push(Operation::PRINT { value: DATA::POINTER(addr) });
                proof {
                    assert(ops_v(ops@) =~= ops_v(partial) + seq![
                        OpV::PRINT { value: DataV::Pointer(addr) },
                    ]);
                }
                Ok(ops)
            },
            Instruction::BLOCK { instruction } => {
                proof {
                    lemma_insts_view(instruction@);
                }
                compile_range(instruction, self)
            },
            Instruction::LOOP { instruction } => {
                let l = match self.new_addr() {
                    Ok(a) => a,
                    Err(e) => {
                        return Err(e);
                    },
                };
                proof {
                    lemma_insts_view(instruction@);
                }
                let mut bops = match compile_range(instruction, self) {
                    Ok(v) => v,
                    Err(e) => {
                        return Err(e);
                    },
                };
                let ghost bv = bops@;
                let mut ops = vec![Operation::POINT { name: DATA::Number(l) }];
                ops.append(&mut bops);
                ops.push(Operation::JUMP { name: DATA::Number(l) });
                proof {
                    assert(ops_v(ops@) =~= seq![OpV::POINT { name: DataV::Number(l) }] + ops_v(bv)
                        + seq![OpV::JUMP { name: DataV::Number(l) }]);
                }
                Ok(ops)
            },
            Instruction::IF { condition, instruction } => {
                let addr = match self.new_addr() {
                    Ok(a) => a,
                    Err(e) => {
                        return Err(e);
                    },
                };
                let addr_a = match self.new_addr() {
                    Ok(a) => a,
                    Err(e) => {
                        return Err(e);
                    },
                };
                let mut cops = match condition.to_addr(addr_a, self) {
                    Ok(v) => v,
                    Err(e) => {
                        return Err(e);
                    },
                };
                let jump_addr = match self.new_addr() {
                    Ok(a) => a,
                    Err(e) => {
                        return Err(e);
                    },
                };
                proof {
                    lemma_insts_view(instruction@);
                }
                let mut bops = match compile_range(instruction, self) {
                    Ok(v) => v,
                    Err(e) => {
                        return Err(e);
                    },
                };
                let ghost cv = cops@;
                let ghost bv = bops@;
                cops.push(Operation::NOT { name: DATA::POINTER(addr_a), ret: DATA::Number(addr) });
                cops.push(
                    Operation::JUMP_IF {
                        name: DATA::Number(jump_addr),
                        condition: DATA::POINTER(addr),
                    },
                );
                cops.append(&mut bops);
                cops.push(Operation::POINT { name: DATA::Number(jump_addr) });
                proof {
                    assert(ops_v(cops@) =~= ops_v(cv) + seq![
                        OpV::NOT { name: DataV::Pointer(addr_a), ret: DataV::Number(addr) },
                        OpV::JUMP_IF {
                            name: DataV::Number(jump_addr),
                            condition: DataV::Pointer(addr),
                        },
                    ] + ops_v(bv) + seq![OpV::POINT { name: DataV::Number(jump_addr) }]);
                }
                Ok(cops)
            },
            Instruction::WHILE { condition, instruction } => {
                let jump_start = match self.new_addr() {
                    Ok(a) => a,
                    Err(e) => {
                        return Err(e);
                    },
                };
                let jump_end = match self.new_addr() {
                    Ok(a) => a,
                    Err(e) => {
                        return Err(e);
                    },
                };
                let cond_addr = match self.new_addr() {
                    Ok(a) => a,
                    Err(e) => {
                        return Err(e);
                    },
                };
                let addr_a = match self.new_addr() {
                    Ok(a) => a,
                    Err(e) => {
                        return Err(e);
                    },
                };
                let mut cops = match condition.to_addr(addr_a, self) {
                    Ok(v) => v,
                    Err(e) => {
                        return Err(e);
                    },
                };
                proof {
                    lemma_insts_view(instruction@);
                }
                let mut bops = match compile_range(instruction, self) {
                    Ok(v) => v,
                    Err(e) => {
                        return Err(e);
                    },
                };
                let ghost cv = cops@;
                let ghost bv = bops@;
                let mut ops = vec![Operation::POINT { name: DATA::Number(jump_start) }];
                ops.append(&mut cops);
                ops.push(
                    Operation::NOT { name: DATA::POINTER(addr_a), ret: DATA::Number(cond_addr) },
                );
                ops.push(
                    Operation::JUMP_IF {
                        name: DATA::Number(jump_end),
                        condition: DATA::POINTER(cond_addr),
                    },
                );
                ops.append(&mut bops);
                ops.push(Operation::JUMP { name: DATA::Number(jump_start) });
                ops.push(Operation::POINT { name: DATA::Number(jump_end) });
                proof {
                    assert(ops_v(ops@) =~= seq![OpV::POINT { name: DataV::Number(jump_start) }]
                        + ops_v(cv) + seq![
                        OpV::NOT { name: DataV::Pointer(addr_a), ret: DataV::Number(cond_addr) },
                        OpV::JUMP_IF {
                            name: DataV::Number(jump_end),
                            condition: DataV::Pointer(cond_addr),
                        },
                    ] + ops_v(bv) + seq![
                        OpV::JUMP { name: DataV::Number(jump_start) },
                        OpV::POINT { name: DataV::Number(jump_end) },
                    ]);
                }
                Ok(ops)
            },
            Instruction::FUNCTION { name, args, instruction } => {
                if instruction.len() == 0 {
                    proof {
                        lemma_insts_view(instruction@);
                    }
                    return Err(CompileError::EmptyFunction(name));
                }
                let ghost bodyv = insts_view(instruction@);
                let ghost argsv = names_v(args@);
                proof {
                    lemma_insts_view(instruction@);
                }
                let tag = match self.new_addr() {
                    Ok(a) => a,
                    Err(e) => {
                        return Err(e);
                    },
                };
                let margs = mangle_names(&args, tag);
                let ret_slot = match self.new_addr() {
                    Ok(a) => a,
                    Err(e) => {
                        return Err(e);
                    },
                };
                let entry = match self.new_addr() {
                    Ok(a) => a,
                    Err(e) => {
                        return Err(e);
                    },
                };
                let func = FUNCTION {
                    name: name.clone(),
                    args: clone_names(&margs),
                    return_addr: ret_slot,
                    addr: entry,
                };
                proof {
                    assert(func@ =~~= (FuncV {
                        name: name@,
                        args: mangle_all(argsv, tag),
                        return_addr: ret_slot,
                        addr: entry,
                    }));
                }
                self.functions.insert(name.clone(), func);
                let ghost margsv = names_v(margs@);
                let ghost st_bind0 = self.st();
                proof {
                    assert(margsv.skip(0) =~= margsv);
                }
                let mut bi: usize = 0;
                while bi < margs.len()
                    invariant
                        bi <= margs@.len(),
                        bind_params(margsv.skip(bi as int), self.st()) == bind_params(
                            margsv,
                            st_bind0,
                        ),
                        self.program == old(self).program,
                        self.instructions == old(self).instructions,
                    decreases margs@.len() - bi,
                {
                    proof {
                        assert(margsv.skip(bi as int)[0] == margs@[bi as int]@);
                        assert(margsv.skip(bi as int).drop_first() =~= margsv.skip(bi + 1));
                    }
                    match self.new_var(margs[bi].clone()) {
                        Ok(_) => {},
                        Err(e) => {
                            return Err(e);
                        },
                    }
                    bi += 1;
                }
                proof {
                    assert(margsv.skip(margs@.len() as int) =~= Seq::<Seq<char>>::empty());
                }
                let mut of = clone_names(&args);
                proof {
                    assert(insts_view(instruction@).skip(0) =~= bodyv);
                }
                let mut rbody = rename_inst_list(&instruction, 0, tag, &mut of);
                let ghost rb = rename_insts(bodyv, tag, argsv).0;
                proof {
                    lemma_rename_insts_size(bodyv, tag, argsv);
                    lemma_insts_view(rbody@);
                    lemma_insts_size_split(rb);
                }
                let last = match rbody.pop() {
                    Some(l) => l,
                    None => {
                        proof {
                            assert(false);
                        }
                        return Err(CompileError::MisplacedReturn);
                    },
                };
                proof {
                    lemma_insts_view(rbody@);
                    assert(insts_view(rbody@) =~= rb.drop_last());
                    assert(last@ == rb.last());
                }
                let mut bops = match compile_range(rbody, self) {
                    Ok(v) => v,
                    Err(e) => {
                        return Err(e);
                    },
                };
                let ghost bv = bops@;
                match last {
                    Instruction::RETURN { value } => {
                        let scratch = match self.new_addr() {
                            Ok(a) => a,
                            Err(e) => {
                                return Err(e);
                            },
                        };
                        let mut vops = match value.to_addr(scratch, self) {
                            Ok(v) => v,
                            Err(e) => {
                                return Err(e);
                            },
                        };
                        let ghost vv = vops@;
                        let ghost st8 = self.st();
                        self.fuctions_programms.push(
                            Operation::POINT { name: DATA::Number(entry) },
                        );
                        self.fuctions_programms.append(&mut bops);
                        self.fuctions_programms.append(&mut vops);
                        self.fuctions_programms.push(
                            Operation::SET {
                                name: DATA::POINTER(ret_slot),
                                value: DATA::POINTER(scratch),
                            },
                        );
                        self.fuctions_programms.push(Operation::RET);
                        proof {
                            assert(ops_v(self.fuctions_programms@) =~= st8.fnprog + entry_ops(
                                entry,
                            ) + ops_v(bv) + ops_v(vv) + seq![
                                OpV::SET {
                                    name: DataV::Pointer(ret_slot),
                                    value: DataV::Pointer(scratch),
                                },
                                OpV::RET,
                            ]);
                            assert(self.st() =~~= (CompSt {
                                fnprog: st8.fnprog + entry_ops(entry) + ops_v(bv) + ops_v(vv)
                                    + seq![
                                    OpV::SET {
                                        name: DataV::Pointer(ret_slot),
                                        value: DataV::Pointer(scratch),
                                    },
                                    OpV::RET,
                                ],
                                ..st8
                            }));
                        }
                        let r: Vec<Operation> = Vec::new();
                        proof {
                            assert(ops_v(r@) =~= Seq::<OpV>::empty());
                        }
                        Ok(r)
                    },
                    other => {
                        let mut lops = match self.compile_instruction(other) {
                            Ok(v) => v,
                            Err(e) => {
                                return Err(e);
                            },
                        };
                        let ghost lv = lops@;
                        let ghost st7 = self.st();
                        self.fuctions_programms.push(
                            Operation::POINT { name: DATA::Number(entry) },
                        );
                        self.fuctions_programms.append(&mut bops);
                        self.fuctions_programms.append(&mut lops);
                        self.fuctions_programms.push(Operation::RET);
                        proof {
                            assert(ops_v(self.fuctions_programms@) =~= st7.fnprog + entry_ops(
                                entry,
                            ) + ops_v(bv) + ops_v(lv) + seq![OpV::RET]);
                            assert(self.st() =~~= (CompSt {
                                fnprog: st7.fnprog + entry_ops(entry) + ops_v(bv) + ops_v(lv)
                                    + seq![OpV::RET],
                                ..st7
                            }));
                        }
                        let r: Vec<Operation> = Vec::new();
                        proof {
                            assert(ops_v(r@) =~= Seq::<OpV>::empty());
                        }
                        Ok(r)
                    },
                }
            },
        }
    }
}

/// Lowers a list of statements in order, as `compile_insts` describes.
fn compile_range(v: Vec<Instruction>, compiler: &mut Compiler) -> (r: Result<
    Vec<Operation>,
    CompileError,
>)
    ensures
        match compile_insts(insts_view(v@), old(compiler).st()) {
            Ok(p) => r matches Ok(ops) && ops_v(ops@) == p.0 && final(compiler).st() == p.1,
            Err(e) => r matches Err(e2) && e2@ == e,
        },
        final(compiler).program == old(compiler).program,
        final(compiler).instructions == old(compiler).instructions,
    decreases insts_size(insts_view(v@)),
{
    proof {
        lemma_insts_view(v@);
    }
    let mut v = v;
    if v.len() == 0 {
        let r: Vec<Operation> = Vec::new();
        proof {
            assert(insts_view(v@) =~= Seq::<InstrV>::empty());
            assert(ops_v(r@) =~= Seq::<OpV>::empty());
        }
        Ok(r)
    } else {
        let ghost whole = insts_view(v@);
        let h = v.remove(0);
        proof {
            assert(h@ == whole[0]);
            lemma_insts_view(v@);
            assert(insts_view(v@) =~= whole.drop_first());
        }
        let mut ops0 = match compiler.compile_instruction(h) {
            Ok(o) => o,
            Err(e) => {
                return Err(e);
            },
        };
        let ghost o0 = ops0@;
        let mut rest = match compile_range(v, compiler) {
            Ok(o) => o,
            Err(e) => {
                return Err(e);
            },
        };
        let ghost r0 = rest@;
        ops0.append(&mut rest);
        proof {
            assert(ops_v(ops0@) =~= ops_v(o0) + ops_v(r0));
        }
        Ok(ops0)
    }
}

impl Compiler {
    /// Lowers the statements held in `instructions` (consuming them), appends
    /// the result to `program` followed by a halt and the collected function
    /// bodies, as `compile_program` describes.
    pub fn compile_instructions(&mut self) -> (r: Result<(), CompileError>)
        ensures
            match compile_program(insts_view(old(self).instructions@), old(self).st()) {
                Ok(p) => r is Ok && ops_v(final(self).program@) == ops_v(old(self).program@) + p.0
                    && final(self).st() == p.1 && final(self).instructions@.len() == 0,
                Err(e) => r matches Err(e2) && e2@ == e,
            },
    {
        let mut insts: Vec<Instruction> = Vec::new();
        core::mem::swap(&mut insts, &mut self.instructions);
        let ghost progv = ops_v(self.program@);
        let mut main = match compile_range(insts, self) {
            Ok(o) => o,
            Err(e) => {
                return Err(e);
            },
        };
        let ghost mv = main@;
        self.program.append(&mut main);
        self.program.push(Operation::HALT);
        let ghost st1 = self.st();
        let n = self.fuctions_programms.len();
        let mut i: usize = 0;
        while i < n
            invariant
                i <= n,
                n == self.fuctions_programms@.len(),
                self.st() == st1,
                self.instructions@.len() == 0,
                ops_v(self.program@) == progv + ops_v(mv) + seq![OpV::HALT] + ops_v(
                    self.fuctions_programms@.take(i as int),
                ),
            decreases n - i,
        {
            proof {
                assert(self.fuctions_programms@.take(i + 1).drop_last()
                    =~= self.fuctions_programms@.take(i as int));
            }
            let ghost prevprog = self.program@;
            let op = self.fuctions_programms[i].dup();
            self.program.push(op);
            proof {
                assert(ops_v(self.program@) =~= ops_v(prevprog).push(self.fuctions_programms@[i
                    as int]@));
                assert(self.fuctions_programms@.take(i + 1).last() == self.fuctions_programms@[i
                    as int]);
                assert(ops_v(self.fuctions_programms@.take(i + 1)) =~= ops_v(
                    self.fuctions_programms@.take(i as int),
                ).push(self.fuctions_programms@[i as int]@));
                assert(ops_v(self.program@) =~= progv + ops_v(mv) + seq![OpV::HALT] + ops_v(
                    self.fuctions_programms@.take(i + 1),
                ));
            }
            i += 1;
        }
        proof {
            assert(self.fuctions_programms@.take(n as int) =~= self.fuctions_programms@);
        }
        if self.fuctions_programms.len() > 0 {
            let ghost prevp = self.program@;
            self.program.push(Operation::HALT);
            proof {
                assert(st1.fnprog.len() == self.fuctions_programms@.len());
                assert(ops_v(self.program@) =~= ops_v(prevp).push(OpV::HALT));
                assert(ops_v(prevp) == progv + ops_v(mv) + seq![OpV::HALT] + st1.fnprog);
                assert(ops_v(self.program@) =~= progv + (ops_v(mv) + seq![OpV::HALT] + st1.fnprog
                    + seq![OpV::HALT]));
            }
        } else {
            proof {
                assert(st1.fnprog.len() == self.fuctions_programms@.len());
                assert(ops_v(self.program@) =~= progv + (ops_v(mv) + seq![OpV::HALT]));
            }
        }
        Ok(())
    }

    /// Lowers one whole program with a fresh engine.
    pub fn compile(p: Vec<Instruction>) -> (r: Result<Vec<Operation>, CompileError>)
        ensures
            ({
                let st0 = CompSt {
                    vars: Map::empty(),
                    funcs: Map::empty(),
                    caddr: 0,
                    fnprog: Seq::empty(),
                };
                match compile_program(insts_view(p@), st0) {
                    Ok(pr) => r matches Ok(ops) && ops_v(ops@) == pr.0,
                    Err(e) => r matches Err(e2) && e2@ == e,
                }
            }),
    {
        let mut compiler = Compiler {
            instructions: p,
            program: Vec::new(),
            vars: NameTable::new(),
            caddr: 0,
            functions: NameTable::new(),
            fuctions_programms: Vec::new(),
        };
        proof {
            assert(compiler.st() =~~= (CompSt {
                vars: Map::<Seq<char>, i32>::empty(),
                funcs: Map::<Seq<char>, FuncV>::empty(),
                caddr: 0,
                fnprog: Seq::empty(),
            }));
            assert(ops_v(compiler.program@) =~= Seq::<OpV>::empty());
        }
        match compiler.compile_instructions() {
            Ok(_) => {
                proof {
                    assert(Seq::<OpV>::empty() + compile_program(
                        insts_view(p@),
                        CompSt {
                            vars: Map::empty(),
                            funcs: Map::empty(),
                            caddr: 0,
                            fnprog: Seq::empty(),
                        },
                    )->Ok_0.0 =~= compile_program(
                        insts_view(p@),
                        CompSt {
                            vars: Map::empty(),
                            funcs: Map::empty(),
                            caddr: 0,
                            fnprog: Seq::empty(),
                        },
                    )->Ok_0.0);
                }
                Ok(compiler.program)
            },
            Err(e) => Err(e),
        }
    }

    /// A fresh engine whose state persists across repeated lowering calls.
    pub fn continues() -> (r: Compiler)
        ensures
            r.st() == (CompSt {
                vars: Map::<Seq<char>, i32>::empty(),
                funcs: Map::<Seq<char>, FuncV>::empty(),
                caddr: 0,
                fnprog: Seq::<OpV>::empty(),
            }),
            r.program@.len() == 0,
            r.instructions@.len() == 0,
    {
        let r = Compiler {
            instructions: Vec::new(),
            program: Vec::new(),
            vars: NameTable::new(),
            caddr: 0,
            functions: NameTable::new(),
            fuctions_programms: Vec::new(),
        };
        proof {
            assert(r.st() =~~= (CompSt {
                vars: Map::<Seq<char>, i32>::empty(),
                funcs: Map::<Seq<char>, FuncV>::empty(),
                caddr: 0,
                fnprog: Seq::<OpV>::empty(),
            }));
        }
        r
    }

    /// Lowers one more submission against the engine's persistent state and
    /// hands back the resulting program, which is also left in `program`.
    pub fn continues_compile(&mut self, p: Vec<Instruction>) -> (r: Result<
        Vec<Operation>,
        CompileError,
    >)
        ensures
            match compile_program(insts_view(p@), old(self).st()) {
                Ok(pr) => r matches Ok(ops) && ops_v(ops@) == pr.0 && final(self).st() == pr.1
                    && ops_v(final(self).program@) == pr.0,
                Err(e) => r matches Err(e2) && e2@ == e,
            },
    {
        self.instructions = p;
        self.program = Vec::new();
        proof {
            assert(ops_v(self.program@) =~= Seq::<OpV>::empty());
        }
        match self.compile_instructions() {
            Ok(_) => {
                proof {
                    assert(Seq::<OpV>::empty() + compile_program(
                        insts_view(p@),
                        old(self).st(),
                    )->Ok_0.0 =~= compile_program(insts_view(p@), old(self).st())->Ok_0.0);
                }
                Ok(dup_ops(&self.program))
            },
            Err(e) => Err(e),
        }
    }
}

/// A lowered program always ends with a halt instruction: the one that
/// closes the top-level statements, or, when function bodies follow it, the
/// one that closes the whole program after them.
pub proof fn lemma_compiled_program_ends_with_halt(insts: Seq<InstrV>, st: CompSt)
    requires
        compile_program(insts, st) is Ok,
    ensures
        compile_program(insts, st)->Ok_0.0.len() >= 1,
        compile_program(insts, st)->Ok_0.0.last() == OpV::HALT,
{
    let main = compile_insts(insts, st)->Ok_0.0;
    let st1 = compile_insts(insts, st)->Ok_0.1;
    if st1.fnprog.len() == 0 {
        assert((main + seq![OpV::HALT]).last() == OpV::HALT);
    } else {
        assert((main + seq![OpV::HALT] + st1.fnprog + seq![OpV::HALT]).last() == OpV::HALT);
    }
}

// ---------------------------------------------------------------------------
// Laws of the hygiene walk
// ---------------------------------------------------------------------------

/// A name used before any local declaration keeps its outer meaning: the
/// hygiene walk leaves a variable reference unrenamed when its name does not
/// yet stand in the locally-declared set, so it resolves to the enclosing
/// binding, never to a later local one.
pub proof fn lemma_hygiene_use_before_declaration(name: Seq<char>, tag: i32, of: Seq<Seq<char>>)
    requires
        !of.contains(name),
    ensures
        rename_expr(ExprV::Variable(name), tag, of) == ExprV::Variable(name),
{
}

/// A declaration shadows from then on: lowering `Let` pushes the original
/// name onto the locally-declared set, and any later use of that name is
/// renamed to the function's own copy.
pub proof fn lemma_hygiene_declaration_shadows(
    name: Seq<char>,
    value: ExprV,
    tag: i32,
    of: Seq<Seq<char>>,
)
    ensures
        rename_inst(InstrV::SET { name, value }, tag, of).1 == of.push(name),
        rename_expr(ExprV::Variable(name), tag, of.push(name)) == ExprV::Variable(
            mangle(name, tag),
        ),
{
    assert(of.push(name)[of.len() as int] == name);
    assert(of.push(name).contains(name));
}

} // verus!
