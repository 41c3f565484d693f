//! The textual form of the intermediate representation: one instruction per
//! line, terminated by `;`, with space-separated opcode and operands, and a
//! parser that reads that form back.

use vstd::prelude::*;
use vstd::string::{StrSliceExecFns, StringExecFns};
use crate::data::{DATA, DataV, parse_literal, data_fancy, push_char, int_text, is_digit, lemma_int_text_chars, lemma_dec_digits, lemma_value_text_round_trip};
use crate::interpreter::{Interpreter, Operation, OpV, RunError, VmV, StepV, ops_v, vm_iter,
    label_map, strip_labels, labels_ok, lines_v};
use crate::compiler::names_v;

verus! {

// ---------------------------------------------------------------------------
// Splitting text
// ---------------------------------------------------------------------------

/// The position of the first occurrence of the character, or -1.
pub open spec fn find_char(s: Seq<char>, c: char) -> int
    decreases s.len(),
{
    if s.len() == 0 {
        -1
    } else if s[0] == c {
        0
    } else {
        let r = find_char(s.drop_first(), c);
        if r < 0 {
            -1
        } else {
            r + 1
        }
    }
}

/// The position is a position: at least -1, below the length.
pub proof fn lemma_find_char(s: Seq<char>, c: char)
    ensures
        -1 <= find_char(s, c) < s.len(),
    decreases s.len(),
{
    if s.len() > 0 && s[0] != c {
        lemma_find_char(s.drop_first(), c);
    }
}

/// The pieces of the text between occurrences of the separator; empty pieces
/// are kept, and there is always at least one piece.
pub open spec fn split_on(s: Seq<char>, c: char) -> Seq<Seq<char>>
    decreases s.len(),
    via split_on_dec
{
    let f = find_char(s, c);
    if f < 0 {
        seq![s]
    } else {
        seq![s.take(f)] + split_on(s.skip(f + 1), c)
    }
}

#[via_fn]
proof fn split_on_dec(s: Seq<char>, c: char) {
    lemma_find_char(s, c);
}

/// A piece joined onto the front of the first piece of a split.
pub open spec fn prepend_first(p: Seq<char>, pieces: Seq<Seq<char>>) -> Seq<Seq<char>> {
    if pieces.len() == 0 {
        seq![p]
    } else {
        seq![p + pieces[0]] + pieces.drop_first()
    }
}

proof fn lemma_split_cons(s: Seq<char>, c: char)
    requires
        s.len() > 0,
    ensures
        split_on(s, c) == if s[0] == c {
            seq![Seq::<char>::empty()] + split_on(s.drop_first(), c)
        } else {
            prepend_first(seq![s[0]], split_on(s.drop_first(), c))
        },
{
    lemma_find_char(s, c);
    lemma_find_char(s.drop_first(), c);
    let f = find_char(s, c);
    if s[0] == c {
        assert(f == 0);
        assert(s.take(0) =~= Seq::<char>::empty());
        assert(s.skip(1) =~= s.drop_first());
        assert(split_on(s, c) =~= seq![Seq::<char>::empty()] + split_on(s.drop_first(), c));
    } else {
        let f2 = find_char(s.drop_first(), c);
        if f2 < 0 {
            assert(f < 0);
            assert(seq![s[0]] + s.drop_first() =~= s);
            assert(split_on(s, c) =~= prepend_first(seq![s[0]], split_on(s.drop_first(), c)));
        } else {
            assert(f == f2 + 1);
            assert(seq![s[0]] + s.drop_first().take(f2) =~= s.take(f2 + 1));
            assert(s.drop_first().skip(f2 + 1) =~= s.skip(f2 + 2));
            assert(split_on(s, c) =~= prepend_first(seq![s[0]], split_on(s.drop_first(), c)));
        }
    }
}

/// Splits the text on the separator; empty pieces are kept.
pub(crate) fn split_char(s: &str, c: char) -> (r: Vec<String>)
    ensures
        names_v(r@) == split_on(s@, c),
{
    let n = s.unicode_len();
    let mut out: Vec<String> = Vec::new();
    let mut cur = String::new();
    let mut i: usize = 0;
    proof {
        assert(s@.skip(0) =~= s@);
        assert(split_on(s@, c).len() >= 1);
        assert(cur@ + split_on(s@, c)[0] =~= split_on(s@, c)[0]);
        assert(prepend_first(cur@, split_on(s@, c)) =~= split_on(s@, c));
        assert(names_v(out@) + prepend_first(cur@, split_on(s@, c)) =~= split_on(s@, c));
    }
    while i < n
        invariant
            i <= n,
            n == s@.len(),
            split_on(s@, c) == names_v(out@) + prepend_first(
                cur@,
                split_on(s@.skip(i as int), c),
            ),
        decreases n - i,
    {
        let ch = s.get_char(i);
        proof {
            lemma_split_cons(s@.skip(i as int), c);
            assert(s@.skip(i as int)[0] == s@[i as int]);
            assert(s@.skip(i as int).drop_first() =~= s@.skip(i + 1));
        }
        let ghost rest = split_on(s@.skip(i + 1), c);
        proof {
            assert(rest.len() >= 1);
        }
        if ch == c {
            let ghost outv = out@;
            let done = cur;
            cur = String::new();
            let ghost donev = done@;
            out.push(done);
            proof {
                assert(names_v(out@) =~= names_v(outv).push(donev));
                assert(donev + Seq::<char>::empty() =~= donev);
                assert(prepend_first(donev, seq![Seq::<char>::empty()] + rest) =~= seq![donev]
                    + rest);
                assert(Seq::<char>::empty() + rest[0] =~= rest[0]);
                assert(prepend_first(cur@, rest) =~= rest);
                assert(names_v(out@) + prepend_first(cur@, rest) =~= names_v(outv) + (seq![donev]
                    + rest));
            }
        } else {
            let ghost curv = cur@;
            push_char(&mut cur, ch);
            proof {
                assert(prepend_first(seq![ch], rest) =~= seq![seq![ch] + rest[0]]
                    + rest.drop_first());
                assert(curv + (seq![ch] + rest[0]) =~= cur@ + rest[0]);
                assert(prepend_first(curv, prepend_first(seq![ch], rest)) =~= prepend_first(
                    cur@,
                    rest,
                ));
            }
        }
        i += 1;
    }
    proof {
        assert(s@.skip(n as int) =~= Seq::<char>::empty());
        assert(split_on(Seq::<char>::empty(), c) =~= seq![Seq::<char>::empty()]);
        assert(cur@ + Seq::<char>::empty() =~= cur@);
        assert(prepend_first(cur@, split_on(s@.skip(n as int), c)) =~= seq![cur@]);
    }
    let ghost outv = out@;
    let ghost curv = cur@;
    out.push(cur);
    proof {
        assert(names_v(out@) =~= names_v(outv).push(curv));
        assert(names_v(outv) + seq![curv] =~= names_v(outv).push(curv));
    }
    out
}

/// The text with its leading spaces and line breaks removed.
pub open spec fn trim_lead(s: Seq<char>) -> Seq<char>
    decreases s.len(),
{
    if s.len() > 0 && (s[0] == ' ' || s[0] == '\n') {
        trim_lead(s.drop_first())
    } else {
        s
    }
}

fn trim_lead_exec(s: &String) -> (r: String)
    ensures
        r@ == trim_lead(s@),
{
    let n = s.as_str().unicode_len();
    let mut i: usize = 0;
    proof {
        assert(s@.skip(0) =~= s@);
    }
    loop
        invariant
            i <= n,
            n == s@.len(),
            trim_lead(s@) == trim_lead(s@.skip(i as int)),
        decreases n - i,
    {
        if i >= n {
            proof {
                assert(s@.skip(i as int) =~= Seq::<char>::empty());
            }
            let r = s.as_str().substring_char(i, n).to_owned();
            proof {
                assert(r@ =~= s@.skip(i as int));
            }
            return r;
        }
        let c = s.as_str().get_char(i);
        proof {
            assert(s@.skip(i as int)[0] == s@[i as int]);
        }
        if !(c == ' ' || c == '\n') {
            proof {
                assert(trim_lead(s@.skip(i as int)) =~= s@.skip(i as int));
            }
            let r = s.as_str().substring_char(i, n).to_owned();
            proof {
                assert(r@ =~= s@.skip(i as int));
            }
            return r;
        }
        proof {
            assert(s@.skip(i as int).drop_first() =~= s@.skip(i + 1));
        }
        i += 1;
    }
}

// ---------------------------------------------------------------------------
// Instruction constructors from value literals
// ---------------------------------------------------------------------------

/// A store instruction from two literals; the destination literal is read
/// first, and a bad literal is handed back as the error.
pub fn set(value: String, name: String) -> (r: Result<Operation, String>)
    ensures
        match (parse_literal(name@), parse_literal(value@)) {
            (Some(n), Some(v)) => r matches Ok(op) && op@ == (OpV::SET { name: n, value: v }),
            (None, _) => r matches Err(t) && t@ == name@,
            (Some(_), None) => r matches Err(t) && t@ == value@,
        },
{
    let n = match DATA::from_string(name) {
        Ok(d) => d,
        Err(t) => {
            return Err(t);
        },
    };
    let v = match DATA::from_string(value) {
        Ok(d) => d,
        Err(t) => {
            return Err(t);
        },
    };
    Ok(Operation::SET { name: n, value: v })
}

/// A label instruction from a literal.
pub fn point(name: String) -> (r: Result<Operation, String>)
    ensures
        match parse_literal(name@) {
            Some(n) => r matches Ok(op) && op@ == (OpV::POINT { name: n }),
            None => r matches Err(t) && t@ == name@,
        },
{
    match DATA::from_string(name) {
        Ok(d) => Ok(Operation::POINT { name: d }),
        Err(t) => Err(t),
    }
}

/// A jump instruction from a literal.
pub fn jump(name: String) -> (r: Result<Operation, String>)
    ensures
        match parse_literal(name@) {
            Some(n) => r matches Ok(op) && op@ == (OpV::JUMP { name: n }),
            None => r matches Err(t) && t@ == name@,
        },
{
    match DATA::from_string(name) {
        Ok(d) => Ok(Operation::JUMP { name: d }),
        Err(t) => Err(t),
    }
}

/// A print instruction from a literal.
pub fn print(name: String) -> (r: Result<Operation, String>)
    ensures
        match parse_literal(name@) {
            Some(n) => r matches Ok(op) && op@ == (OpV::PRINT { value: n }),
            None => r matches Err(t) && t@ == name@,
        },
{
    match DATA::from_string(name) {
        Ok(d) => Ok(Operation::PRINT { value: d }),
        Err(t) => Err(t),
    }
}

/// A call instruction from a literal.
pub fn call(name: String) -> (r: Result<Operation, String>)
    ensures
        match parse_literal(name@) {
            Some(n) => r matches Ok(op) && op@ == (OpV::CALL { name: n }),
            None => r matches Err(t) && t@ == name@,
        },
{
    match DATA::from_string(name) {
        Ok(d) => Ok(Operation::CALL { name: d }),
        Err(t) => Err(t),
    }
}

/// A return instruction.
pub fn ret() -> (r: Operation)
    ensures
        r@ == OpV::RET,
{
    Operation::RET
}

/// A halt instruction.
pub fn halt() -> (r: Operation)
    ensures
        r@ == OpV::HALT,
{
    Operation::HALT
}

/// A conditional jump from two literals.
pub fn jump_if(name: String, condition: String) -> (r: Result<Operation, String>)
    ensures
        match (parse_literal(name@), parse_literal(condition@)) {
            (Some(n), Some(c)) => r matches Ok(op) && op@ == (OpV::JUMP_IF {
                name: n,
                condition: c,
            }),
            (None, _) => r matches Err(t) && t@ == name@,
            (Some(_), None) => r matches Err(t) && t@ == condition@,
        },
{
    let n = match DATA::from_string(name) {
        Ok(d) => d,
        Err(t) => {
            return Err(t);
        },
    };
    let c = match DATA::from_string(condition) {
        Ok(d) => d,
        Err(t) => {
            return Err(t);
        },
    };
    Ok(Operation::JUMP_IF { name: n, condition: c })
}

/// The three operands of a comparison or arithmetic instruction.
fn three(name: String, value: String, ret3: String) -> (r: Result<(DATA, DATA, DATA), String>)
    ensures
        match (parse_literal(name@), parse_literal(value@), parse_literal(ret3@)) {
            (Some(n), Some(v), Some(d)) => r matches Ok(t) && t.0@ == n && t.1@ == v && t.2@ == d,
            (None, _, _) => r matches Err(t) && t@ == name@,
            (Some(_), None, _) => r matches Err(t) && t@ == value@,
            (Some(_), Some(_), None) => r matches Err(t) && t@ == ret3@,
        },
{
    let n = match DATA::from_string(name) {
        Ok(d) => d,
        Err(t) => {
            return Err(t);
        },
    };
    let v = match DATA::from_string(value) {
        Ok(d) => d,
        Err(t) => {
            return Err(t);
        },
    };
    let d = match DATA::from_string(ret3) {
        Ok(d) => d,
        Err(t) => {
            return Err(t);
        },
    };
    Ok((n, v, d))
}

/// An equality test from three literals.
pub fn eq(name: String, value: String, ret3: String) -> (r: Result<Operation, String>)
    ensures
        match (parse_literal(name@), parse_literal(value@), parse_literal(ret3@)) {
            (Some(n), Some(v), Some(d)) => r matches Ok(op) && op@ == (OpV::EQ {
                name: n,
                value: v,
                ret: d,
            }),
            (None, _, _) => r matches Err(t) && t@ == name@,
            (Some(_), None, _) => r matches Err(t) && t@ == value@,
            (Some(_), Some(_), None) => r matches Err(t) && t@ == ret3@,
        },
{
    match three(name, value, ret3) {
        Ok(t) => Ok(Operation::EQ { name: t.0, value: t.1, ret: t.2 }),
        Err(t) => Err(t),
    }
}

/// A negation from two literals.
pub fn not(name: String, ret2: String) -> (r: Result<Operation, String>)
    ensures
        match (parse_literal(name@), parse_literal(ret2@)) {
            (Some(n), Some(d)) => r matches Ok(op) && op@ == (OpV::NOT { name: n, ret: d }),
            (None, _) => r matches Err(t) && t@ == name@,
            (Some(_), None) => r matches Err(t) && t@ == ret2@,
        },
{
    let n = match DATA::from_string(name) {
        Ok(d) => d,
        Err(t) => {
            return Err(t);
        },
    };
    let d = match DATA::from_string(ret2) {
        Ok(d) => d,
        Err(t) => {
            return Err(t);
        },
    };
    Ok(Operation::NOT { name: n, ret: d })
}

/// An addition from three literals.
pub fn add(name: String, value: String, ret3: String) -> (r: Result<Operation, String>)
    ensures
        match (parse_literal(name@), parse_literal(value@), parse_literal(ret3@)) {
            (Some(n), Some(v), Some(d)) => r matches Ok(op) && op@ == (OpV::ADD {
                name: n,
                value: v,
                ret: d,
            }),
            (None, _, _) => r matches Err(t) && t@ == name@,
            (Some(_), None, _) => r matches Err(t) && t@ == value@,
            (Some(_), Some(_), None) => r matches Err(t) && t@ == ret3@,
        },
{
    match three(name, value, ret3) {
        Ok(t) => Ok(Operation::ADD { name: t.0, value: t.1, ret: t.2 }),
        Err(t) => Err(t),
    }
}

/// A subtraction from three literals.
pub fn sub(name: String, value: String, ret3: String) -> (r: Result<Operation, String>)
    ensures
        match (parse_literal(name@), parse_literal(value@), parse_literal(ret3@)) {
            (Some(n), Some(v), Some(d)) => r matches Ok(op) && op@ == (OpV::SUB {
                name: n,
                value: v,
                ret: d,
            }),
            (None, _, _) => r matches Err(t) && t@ == name@,
            (Some(_), None, _) => r matches Err(t) && t@ == value@,
            (Some(_), Some(_), None) => r matches Err(t) && t@ == ret3@,
        },
{
    match three(name, value, ret3) {
        Ok(t) => Ok(Operation::SUB { name: t.0, value: t.1, ret: t.2 }),
        Err(t) => Err(t),
    }
}

/// A multiplication from three literals.
pub fn mul(name: String, value: String, ret3: String) -> (r: Result<Operation, String>)
    ensures
        match (parse_literal(name@), parse_literal(value@), parse_literal(ret3@)) {
            (Some(n), Some(v), Some(d)) => r matches Ok(op) && op@ == (OpV::MUL {
                name: n,
                value: v,
                ret: d,
            }),
            (None, _, _) => r matches Err(t) && t@ == name@,
            (Some(_), None, _) => r matches Err(t) && t@ == value@,
            (Some(_), Some(_), None) => r matches Err(t) && t@ == ret3@,
        },
{
    match three(name, value, ret3) {
        Ok(t) => Ok(Operation::MUL { name: t.0, value: t.1, ret: t.2 }),
        Err(t) => Err(t),
    }
}

/// A division from three literals.
pub fn div(name: String, value: String, ret3: String) -> (r: Result<Operation, String>)
    ensures
        match (parse_literal(name@), parse_literal(value@), parse_literal(ret3@)) {
            (Some(n), Some(v), Some(d)) => r matches Ok(op) && op@ == (OpV::DIV {
                name: n,
                value: v,
                ret: d,
            }),
            (None, _, _) => r matches Err(t) && t@ == name@,
            (Some(_), None, _) => r matches Err(t) && t@ == value@,
            (Some(_), Some(_), None) => r matches Err(t) && t@ == ret3@,
        },
{
    match three(name, value, ret3) {
        Ok(t) => Ok(Operation::DIV { name: t.0, value: t.1, ret: t.2 }),
        Err(t) => Err(t),
    }
}

// ---------------------------------------------------------------------------
// Reading the textual form
// ---------------------------------------------------------------------------

/// One `;`-terminated segment read as an instruction: leading spaces and line
/// breaks are dropped, a blank segment or a `//` comment is a no-op, and the
/// space-separated tokens after the opcode are value literals. The error
/// carries the offending text: an unknown opcode, a bad literal, or the whole
/// segment when operands are missing.
pub open spec fn parse_ir_line(seg: Seq<char>) -> Result<OpV, Seq<char>> {
    let t = trim_lead(seg);
    let toks = split_on(t, ' ');
    let op = toks[0];
    if op.len() == 0 {
        Ok(OpV::NOP)
    } else if op.len() >= 2 && op[0] == '/' && op[1] == '/' {
        Ok(OpV::NOP)
    } else if op == "set"@ {
        if toks.len() < 3 {
            Err(t)
        } else {
            match (parse_literal(toks[1]), parse_literal(toks[2])) {
                (Some(n), Some(v)) => Ok(OpV::SET { name: n, value: v }),
                (None, _) => Err(toks[1]),
                (Some(_), None) => Err(toks[2]),
            }
        }
    } else if op == "point"@ {
        if toks.len() < 2 {
            Err(t)
        } else {
            match parse_literal(toks[1]) {
                Some(n) => Ok(OpV::POINT { name: n }),
                None => Err(toks[1]),
            }
        }
    } else if op == "jump"@ {
        if toks.len() < 2 {
            Err(t)
        } else {
            match parse_literal(toks[1]) {
                Some(n) => Ok(OpV::JUMP { name: n }),
                None => Err(toks[1]),
            }
        }
    } else if op == "print"@ {
        if toks.len() < 2 {
            Err(t)
        } else {
            match parse_literal(toks[1]) {
                Some(n) => Ok(OpV::PRINT { value: n }),
                None => Err(toks[1]),
            }
        }
    } else if op == "call"@ {
        if toks.len() < 2 {
            Err(t)
        } else {
            match parse_literal(toks[1]) {
                Some(n) => Ok(OpV::CALL { name: n }),
                None => Err(toks[1]),
            }
        }
    } else if op == "ret"@ {
        Ok(OpV::RET)
    } else if op == "halt"@ {
        Ok(OpV::HALT)
    } else if op == "jump_if"@ {
        if toks.len() < 3 {
            Err(t)
        } else {
            match (parse_literal(toks[1]), parse_literal(toks[2])) {
                (Some(n), Some(c)) => Ok(OpV::JUMP_IF { name: n, condition: c }),
                (None, _) => Err(toks[1]),
                (Some(_), None) => Err(toks[2]),
            }
        }
    } else if op == "eq"@ {
        if toks.len() < 4 {
            Err(t)
        } else {
            match (parse_literal(toks[1]), parse_literal(toks[2]), parse_literal(toks[3])) {
                (Some(n), Some(v), Some(d)) => Ok(OpV::EQ { name: n, value: v, ret: d }),
                (None, _, _) => Err(toks[1]),
                (Some(_), None, _) => Err(toks[2]),
                (Some(_), Some(_), None) => Err(toks[3]),
            }
        }
    } else if op == "not"@ {
        if toks.len() < 3 {
            Err(t)
        } else {
            match (parse_literal(toks[1]), parse_literal(toks[2])) {
                (Some(n), Some(d)) => Ok(OpV::NOT { name: n, ret: d }),
                (None, _) => Err(toks[1]),
                (Some(_), None) => Err(toks[2]),
            }
        }
    } else if op == "add"@ {
        if toks.len() < 4 {
            Err(t)
        } else {
            match (parse_literal(toks[1]), parse_literal(toks[2]), parse_literal(toks[3])) {
                (Some(n), Some(v), Some(d)) => Ok(OpV::ADD { name: n, value: v, ret: d }),
                (None, _, _) => Err(toks[1]),
                (Some(_), None, _) => Err(toks[2]),
                (Some(_), Some(_), None) => Err(toks[3]),
            }
        }
    } else if op == "sub"@ {
        if toks.len() < 4 {
            Err(t)
        } else {
            match (parse_literal(toks[1]), parse_literal(toks[2]), parse_literal(toks[3])) {
                (Some(n), Some(v), Some(d)) => Ok(OpV::SUB { name: n, value: v, ret: d }),
                (None, _, _) => Err(toks[1]),
                (Some(_), None, _) => Err(toks[2]),
                (Some(_), Some(_), None) => Err(toks[3]),
            }
        }
    } else if op == "mul"@ {
        if toks.len() < 4 {
            Err(t)
        } else {
            match (parse_literal(toks[1]), parse_literal(toks[2]), parse_literal(toks[3])) {
                (Some(n), Some(v), Some(d)) => Ok(OpV::MUL { name: n, value: v, ret: d }),
                (None, _, _) => Err(toks[1]),
                (Some(_), None, _) => Err(toks[2]),
                (Some(_), Some(_), None) => Err(toks[3]),
            }
        }
    } else if op == "div"@ {
        if toks.len() < 4 {
            Err(t)
        } else {
            match (parse_literal(toks[1]), parse_literal(toks[2]), parse_literal(toks[3])) {
                (Some(n), Some(v), Some(d)) => Ok(OpV::DIV { name: n, value: v, ret: d }),
                (None, _, _) => Err(toks[1]),
                (Some(_), None, _) => Err(toks[2]),
                (Some(_), Some(_), None) => Err(toks[3]),
            }
        }
    } else {
        Err(op)
    }
}

/// The instructions of the `;`-separated segments, in order; the first bad
/// segment aborts the read.
pub open spec fn parse_ir(segs: Seq<Seq<char>>) -> Result<Seq<OpV>, Seq<char>>
    decreases segs.len(),
{
    if segs.len() == 0 {
        Ok(Seq::empty())
    } else {
        match parse_ir_line(segs[0]) {
            Err(e) => Err(e),
            Ok(op) => match parse_ir(segs.drop_first()) {
                Err(e) => Err(e),
                Ok(rest) => Ok(seq![op] + rest),
            },
        }
    }
}

/// Whether the token equals the literal.
fn tok_is(t: &String, lit: &str) -> (r: bool)
    ensures
        r == (t@ == lit@),
{
    let l = lit.to_owned();
    t.eq(&l)
}

fn parse_line(seg: &String) -> (r: Result<Operation, String>)
    ensures
        match parse_ir_line(seg@) {
            Ok(op) => r matches Ok(o) && o@ == op,
            Err(t) => r matches Err(e) && e@ == t,
        },
{
    let t = trim_lead_exec(seg);
    let toks = split_char(t.as_str(), ' ');
    proof {
        assert(names_v(toks@).len() >= 1);
        assert(forall|k: int| 0 <= k < toks@.len() ==> names_v(toks@)[k] == toks@[k]@);
    }
    let op_len = toks[0].as_str().unicode_len();
    if op_len == 0 {
        return Ok(Operation::NOP);
    }
    if op_len >= 2 && toks[0].as_str().get_char(0) == '/' && toks[0].as_str().get_char(1) == '/' {
        return Ok(Operation::NOP);
    }
    if tok_is(&toks[0], "set") {
        if toks.len() < 3 {
            return Err(t);
        }
        return set(toks[2].clone(), toks[1].clone());
    }
    if tok_is(&toks[0], "point") {
        if toks.len() < 2 {
            return Err(t);
        }
        return point(toks[1].clone());
    }
    if tok_is(&toks[0], "jump") {
        if toks.len() < 2 {
            return Err(t);
        }
        return jump(toks[1].clone());
    }
    if tok_is(&toks[0], "print") {
        if toks.len() < 2 {
            return Err(t);
        }
        return print(toks[1].clone());
    }
    if tok_is(&toks[0], "call") {
        if toks.len() < 2 {
            return Err(t);
        }
        return call(toks[1].clone());
    }
    if tok_is(&toks[0], "ret") {
        return Ok(ret());
    }
    if tok_is(&toks[0], "halt") {
        return Ok(halt());
    }
    if tok_is(&toks[0], "jump_if") {
        if toks.len() < 3 {
            return Err(t);
        }
        return jump_if(toks[1].clone(), toks[2].clone());
    }
    if tok_is(&toks[0], "eq") {
        if toks.len() < 4 {
            return Err(t);
        }
        return eq(toks[1].clone(), toks[2].clone(), toks[3].clone());
    }
    if tok_is(&toks[0], "not") {
        if toks.len() < 3 {
            return Err(t);
        }
        return not(toks[1].clone(), toks[2].clone());
    }
    if tok_is(&toks[0], "add") {
        if toks.len() < 4 {
            return Err(t);
        }
        return crate::easy::add(toks[1].clone(), toks[2].clone(), toks[3].clone());
    }
    if tok_is(&toks[0], "sub") {
        if toks.len() < 4 {
            return Err(t);
        }
        return crate::easy::sub(toks[1].clone(), toks[2].clone(), toks[3].clone());
    }
    if tok_is(&toks[0], "mul") {
        if toks.len() < 4 {
            return Err(t);
        }
        return crate::easy::mul(toks[1].clone(), toks[2].clone(), toks[3].clone());
    }
    if tok_is(&toks[0], "div") {
        if toks.len() < 4 {
            return Err(t);
        }
        return div(toks[1].clone(), toks[2].clone(), toks[3].clone());
    }
    Err(toks[0].clone())
}

fn parse_lines(segs: &Vec<String>, i: usize) -> (r: Result<Vec<Operation>, String>)
    requires
        i <= segs@.len(),
    ensures
        match parse_ir(names_v(segs@).skip(i as int)) {
            Ok(ops) => r matches Ok(v) && ops_v(v@) == ops,
            Err(t) => r matches Err(e) && e@ == t,
        },
    decreases segs@.len() - i,
{
    if i >= segs.len() {
        let r: Vec<Operation> = Vec::new();
        proof {
            assert(names_v(segs@).skip(i as int) =~= Seq::<Seq<char>>::empty());
            assert(ops_v(r@) =~= Seq::<OpV>::empty());
        }
        Ok(r)
    } else {
        proof {
            assert(names_v(segs@).skip(i as int)[0] == segs@[i as int]@);
            assert(names_v(segs@).skip(i as int).drop_first() =~= names_v(segs@).skip(i + 1));
        }
        let op = match parse_line(&segs[i]) {
            Ok(o) => o,
            Err(e) => {
                return Err(e);
            },
        };
        let mut rest = match parse_lines(segs, i + 1) {
            Ok(v) => v,
            Err(e) => {
                return Err(e);
            },
        };
        let ghost rv = rest@;
        let mut out: Vec<Operation> = Vec::new();
        out.push(op);
        out.append(&mut rest);
        proof {
            assert(ops_v(out@) =~= seq![out@[0]@] + ops_v(rv));
        }
        Ok(out)
    }
}

/// Reads a whole textual program: one instruction per `;`-terminated
/// segment.
pub fn from_string(s: String) -> (r: Result<Vec<Operation>, String>)
    ensures
        match parse_ir(split_on(s@, ';')) {
            Ok(ops) => r matches Ok(v) && ops_v(v@) == ops,
            Err(t) => r matches Err(e) && e@ == t,
        },
{
    let segs = split_char(s.as_str(), ';');
    proof {
        assert(names_v(segs@).skip(0) =~= names_v(segs@));
    }
    parse_lines(&segs, 0)
}

// ---------------------------------------------------------------------------
// Writing the textual form
// ---------------------------------------------------------------------------

/// The textual line of one instruction.
pub open spec fn render_op(op: OpV) -> Seq<char> {
    match op {
        OpV::DROP { name } => "drop "@ + data_fancy(name) + ";"@,
        OpV::GREATER { name, value, ret } => "greater "@ + data_fancy(name) + " "@ + data_fancy(
            value,
        ) + " "@ + data_fancy(ret) + ";"@,
        OpV::HALT => "halt;"@,
        OpV::ADD { name, value, ret } => "add "@ + data_fancy(name) + " "@ + data_fancy(value)
            + " "@ + data_fancy(ret) + ";"@,
        OpV::SUB { name, value, ret } => "sub "@ + data_fancy(name) + " "@ + data_fancy(value)
            + " "@ + data_fancy(ret) + ";"@,
        OpV::MUL { name, value, ret } => "mul "@ + data_fancy(name) + " "@ + data_fancy(value)
            + " "@ + data_fancy(ret) + ";"@,
        OpV::DIV { name, value, ret } => "div "@ + data_fancy(name) + " "@ + data_fancy(value)
            + " "@ + data_fancy(ret) + ";"@,
        OpV::NOT { name, ret } => "not "@ + data_fancy(name) + " "@ + data_fancy(ret) + ";"@,
        OpV::EQ { name, value, ret } => "eq "@ + data_fancy(name) + " "@ + data_fancy(value) + " "@
            + data_fancy(ret) + ";"@,
        OpV::JUMP_IF { name, condition } => "jump_if "@ + data_fancy(name) + " "@ + data_fancy(
            condition,
        ) + ";"@,
        OpV::SET { name, value } => "set "@ + data_fancy(name) + " "@ + data_fancy(value) + ";"@,
        OpV::POINT { name } => "point "@ + data_fancy(name) + ";"@,
        OpV::JUMP { name } => "jump "@ + data_fancy(name) + ";"@,
        OpV::PRINT { value } => "print "@ + data_fancy(value) + ";"@,
        OpV::CALL { name } => "call "@ + data_fancy(name) + ";"@,
        OpV::RET => "ret;"@,
        OpV::NOP => "NOP;"@,
    }
}

/// The textual lines of a program, joined by line breaks.
pub open spec fn render_ops(ops: Seq<OpV>) -> Seq<char>
    decreases ops.len(),
{
    if ops.len() == 0 {
        Seq::empty()
    } else if ops.len() == 1 {
        render_op(ops[0])
    } else {
        render_op(ops[0]) + "\n"@ + render_ops(ops.drop_first())
    }
}

fn render1(kw: &str, a: &DATA) -> (r: String)
    ensures
        r@ == kw@ + data_fancy(a@) + ";"@,
{
    let mut s = kw.to_owned();
    let fa = a.fancy_string();
    s.append(fa.as_str());
    s.append(";");
    s
}

fn render2(kw: &str, a: &DATA, b: &DATA) -> (r: String)
    ensures
        r@ == kw@ + data_fancy(a@) + " "@ + data_fancy(b@) + ";"@,
{
    let mut s = kw.to_owned();
    let fa = a.fancy_string();
    s.append(fa.as_str());
    s.append(" ");
    let fb = b.fancy_string();
    s.append(fb.as_str());
    s.append(";");
    s
}

fn render3(kw: &str, a: &DATA, b: &DATA, c: &DATA) -> (r: String)
    ensures
        r@ == kw@ + data_fancy(a@) + " "@ + data_fancy(b@) + " "@ + data_fancy(c@) + ";"@,
{
    let mut s = kw.to_owned();
    let fa = a.fancy_string();
    s.append(fa.as_str());
    s.append(" ");
    let fb = b.fancy_string();
    s.append(fb.as_str());
    s.append(" ");
    let fc = c.fancy_string();
    s.append(fc.as_str());
    s.append(";");
    s
}

fn render_op_exec(op: &Operation) -> (r: String)
    ensures
        r@ == render_op(op@),
{
    match op {
        Operation::DROP { name } => render1("drop ", name),
        Operation::GREATER { name, value, ret } => render3("greater ", name, value, ret),
        Operation::HALT => "halt;".to_owned(),
        Operation::ADD { name, value, ret } => render3("add ", name, value, ret),
        Operation::SUB { name, value, ret } => render3("sub ", name, value, ret),
        Operation::MUL { name, value, ret } => render3("mul ", name, value, ret),
        Operation::DIV { name, value, ret } => render3("div ", name, value, ret),
        Operation::NOT { name, ret } => render2("not ", name, ret),
        Operation::EQ { name, value, ret } => render3("eq ", name, value, ret),
        Operation::JUMP_IF { name, condition } => render2("jump_if ", name, condition),
        Operation::SET { name, value } => render2("set ", name, value),
        Operation::POINT { name } => render1("point ", name),
        Operation::JUMP { name } => render1("jump ", name),
        Operation::PRINT { value } => render1("print ", value),
        Operation::CALL { name } => render1("call ", name),
        Operation::RET => "ret;".to_owned(),
        Operation::NOP => "NOP;".to_owned(),
    }
}

fn render_from(v: &Vec<Operation>, i: usize) -> (r: String)
    requires
        i <= v@.len(),
    ensures
        r@ == render_ops(ops_v(v@).skip(i as int)),
    decreases v@.len() - i,
{
    if i >= v.len() {
        let r = String::new();
        proof {
            assert(ops_v(v@).skip(i as int) =~= Seq::<OpV>::empty());
        }
        r
    } else if i + 1 == v.len() {
        let r = render_op_exec(&v[i]);
        proof {
            assert(ops_v(v@).skip(i as int) =~= seq![v@[i as int]@]);
        }
        r
    } else {
        proof {
            assert(ops_v(v@).skip(i as int)[0] == v@[i as int]@);
            assert(ops_v(v@).skip(i as int).drop_first() =~= ops_v(v@).skip(i + 1));
        }
        let mut s = render_op_exec(&v[i]);
        s.append("\n");
        let rest = render_from(v, i + 1);
        s.append(rest.as_str());
        s
    }
}

/// The textual form of a program: one instruction per line.
pub fn fancy_string(operations: Vec<Operation>) -> (r: String)
    ensures
        r@ == render_ops(ops_v(operations@)),
{
    proof {
        assert(ops_v(operations@).skip(0) =~= ops_v(operations@));
    }
    render_from(&operations, 0)
}

// ---------------------------------------------------------------------------
// Running textual programs
// ---------------------------------------------------------------------------

/// What stopped a textual run: the text could not be read, or the machine met
/// a fatal condition.
#[derive(Debug)]
pub enum EasyError {
    Parse(String),
    Run(RunError),
}

/// Reads a textual program and runs it on a fresh engine, handing back every
/// line it printed beside the result.
pub fn run(s: String) -> (r: (Vec<String>, Result<(), EasyError>))
    ensures
        ({
            match parse_ir(split_on(s@, ';')) {
                Err(t) => r.1 matches Err(e) && (e matches EasyError::Parse(p) && p@ == t)
                    && r.0@.len() == 0,
                Ok(ops) => {
                    let init = VmV {
                        store: Map::empty(),
                        points: label_map(Map::empty(), ops),
                        prog: strip_labels(ops),
                        stack: seq![0usize],
                        output: Seq::empty(),
                    };
                    if labels_ok(ops) {
                        match r.1 {
                            Ok(_) => exists|n: nat, f: VmV|
                                vm_iter(init, n) == StepV::Done(f) && lines_v(r.0) == f.output,
                            Err(e) => e matches EasyError::Run(e2) && ((e2 == RunError::StepLimit
                                && exists|f: VmV|
                                vm_iter(init, u64::MAX as nat) == StepV::More(f) && lines_v(r.0)
                                    == f.output) || exists|n: nat, f: VmV|
                                vm_iter(init, n) == StepV::Fail(f, e2) && lines_v(r.0)
                                    == f.output),
                        }
                    } else {
                        r.1 matches Err(e) && (e matches EasyError::Run(e2) && e2
                            == RunError::NotANumber) && r.0@.len() == 0
                    }
                },
            }
        }),
{
    let ops = match from_string(s) {
        Ok(o) => o,
        Err(t) => {
            return (Vec::new(), Err(EasyError::Parse(t)));
        },
    };
    let result = Interpreter::run(ops);
    let (out, res) = result;
    match res {
        Ok(_) => (out, Ok(())),
        Err(e) => (out, Err(EasyError::Run(e))),
    }
}

// ---------------------------------------------------------------------------
// The textual form is lossless
// ---------------------------------------------------------------------------

/// Whether a value's source-like text survives tokenising: text values may
/// hold neither the instruction terminator nor the operand separator; every
/// other value renders as sign, digits, `&` or a keyword, which always
/// survive.
pub open spec fn plain_data(d: DataV) -> bool {
    match d {
        DataV::Text(t) => forall|i: int| 0 <= i < t.len() ==> t[i] != ';' && #[trigger] t[i] != ' ',
        _ => true,
    }
}

/// Whether an instruction can be carried by the textual form: one of the
/// opcodes the form has words for, with operands that survive tokenising.
pub open spec fn renderable(op: OpV) -> bool {
    match op {
        OpV::NOP => false,
        OpV::DROP { .. } => false,
        OpV::GREATER { .. } => false,
        OpV::SET { name, value } => plain_data(name) && plain_data(value),
        OpV::POINT { name } => plain_data(name),
        OpV::JUMP { name } => plain_data(name),
        OpV::PRINT { value } => plain_data(value),
        OpV::CALL { name } => plain_data(name),
        OpV::RET => true,
        OpV::HALT => true,
        OpV::JUMP_IF { name, condition } => plain_data(name) && plain_data(condition),
        OpV::EQ { name, value, ret } => plain_data(name) && plain_data(value) && plain_data(ret),
        OpV::NOT { name, ret } => plain_data(name) && plain_data(ret),
        OpV::ADD { name, value, ret } => plain_data(name) && plain_data(value) && plain_data(ret),
        OpV::SUB { name, value, ret } => plain_data(name) && plain_data(value) && plain_data(ret),
        OpV::MUL { name, value, ret } => plain_data(name) && plain_data(value) && plain_data(ret),
        OpV::DIV { name, value, ret } => plain_data(name) && plain_data(value) && plain_data(ret),
    }
}

/// Whether the text avoids the given character everywhere.
pub open spec fn avoids(s: Seq<char>, c: char) -> bool {
    forall|i: int| 0 <= i < s.len() ==> #[trigger] s[i] != c
}

/// A plain value's source-like text is nonempty and avoids the separator,
/// the terminator and the line break.
proof fn lemma_fancy_plain(d: DataV)
    requires
        plain_data(d),
    ensures
        data_fancy(d).len() >= 1,
        avoids(data_fancy(d), ' '),
        avoids(data_fancy(d), ';'),
{
    let s = data_fancy(d);
    match d {
        DataV::Number(n) => {
            lemma_int_text_chars(n as int);
            assert forall|i: int| 0 <= i < s.len() implies s[i] != ' ' && s[i] != ';' by {
                assert(s[i] == '-' || is_digit(s[i]));
            }
            lemma_dec_digits((if n < 0 {
                -(n as int)
            } else {
                n as int
            }) as nat);
        },
        DataV::Pointer(p) => {
            lemma_int_text_chars(p as int);
            assert forall|i: int| 0 <= i < s.len() implies s[i] != ' ' && s[i] != ';' by {
                if i == 0 {
                    assert(s[0] == '&');
                } else {
                    assert(s[i] == int_text_at(p as int, i - 1));
                    assert(s[i] == '-' || is_digit(s[i]));
                }
            }
        },
        DataV::Bool(b) => {
            if b {
                assert(s =~= seq!['t', 'r', 'u', 'e']);
            } else {
                assert(s =~= seq!['f', 'a', 'l', 's', 'e']);
            }
        },
        DataV::Text(t) => {
            assert(s == seq!['"'] + t + seq!['"']);
            assert forall|i: int| 0 <= i < s.len() implies s[i] != ' ' && s[i] != ';' by {
                if i == 0 || i == s.len() - 1 {
                    assert(s[i] == '"');
                } else {
                    assert(s[i] == t[i - 1]);
                }
            }
        },
    }
}

/// A position of an integer's text.
pub open spec fn int_text_at(n: int, i: int) -> char {
    int_text(n)[i]
}

/// A text that avoids the separator splits into itself alone.
proof fn lemma_split_whole(s: Seq<char>, c: char)
    requires
        avoids(s, c),
    ensures
        split_on(s, c) == seq![s],
    decreases s.len(),
{
    lemma_find_char(s, c);
    assert(find_char(s, c) < 0) by {
        lemma_find_char_misses(s, c);
    }
}

/// A text that avoids the character does not contain it.
proof fn lemma_find_char_misses(s: Seq<char>, c: char)
    requires
        avoids(s, c),
    ensures
        find_char(s, c) < 0,
    decreases s.len(),
{
    if s.len() > 0 {
        assert(s[0] != c);
        assert(avoids(s.drop_first(), c)) by {
            assert(forall|i: int|
                0 <= i < s.drop_first().len() ==> #[trigger] s.drop_first()[i] == s[i + 1]);
        }
        lemma_find_char_misses(s.drop_first(), c);
    }
}

/// Splitting at the first separator: a separator-free head splits off whole.
proof fn lemma_split_concat(a: Seq<char>, b: Seq<char>, c: char)
    requires
        avoids(a, c),
    ensures
        split_on(a + seq![c] + b, c) == seq![a] + split_on(b, c),
    decreases a.len(),
{
    let s = a + seq![c] + b;
    lemma_split_cons(s, c);
    if a.len() == 0 {
        assert(s[0] == c);
        assert(s.drop_first() =~= b);
        assert(a =~= Seq::<char>::empty());
        assert(split_on(s, c) =~= seq![a] + split_on(b, c));
    } else {
        assert(s[0] == a[0]);
        assert(s[0] != c);
        assert(avoids(a.drop_first(), c)) by {
            assert(forall|i: int|
                0 <= i < a.drop_first().len() ==> #[trigger] a.drop_first()[i] == a[i + 1]);
        }
        assert(s.drop_first() =~= a.drop_first() + seq![c] + b);
        lemma_split_concat(a.drop_first(), b, c);
        let inner = seq![a.drop_first()] + split_on(b, c);
        assert(inner.len() >= 1);
        assert(prepend_first(seq![s[0]], inner) =~= seq![seq![a[0]] + a.drop_first()] + split_on(
            b,
            c,
        ));
        assert(seq![a[0]] + a.drop_first() =~= a);
        assert(split_on(s, c) =~= seq![a] + split_on(b, c));
    }
}

/// A leading line break falls to the trim.
proof fn lemma_trim_newline(s: Seq<char>)
    ensures
        trim_lead(seq!['\n'] + s) == trim_lead(s),
{
    let t = seq!['\n'] + s;
    assert(t[0] == '\n');
    assert(t.drop_first() =~= s);
}

/// The concrete characters of every opcode word of the textual form.
proof fn lemma_opcode_texts()
    ensures
        "set"@ == seq!['s', 'e', 't'],
        "set "@ == seq!['s', 'e', 't', ' '],
        "point"@ == seq!['p', 'o', 'i', 'n', 't'],
        "point "@ == seq!['p', 'o', 'i', 'n', 't', ' '],
        "jump"@ == seq!['j', 'u', 'm', 'p'],
        "jump "@ == seq!['j', 'u', 'm', 'p', ' '],
        "print"@ == seq!['p', 'r', 'i', 'n', 't'],
        "print "@ == seq!['p', 'r', 'i', 'n', 't', ' '],
        "call"@ == seq!['c', 'a', 'l', 'l'],
        "call "@ == seq!['c', 'a', 'l', 'l', ' '],
        "ret"@ == seq!['r', 'e', 't'],
        "ret;"@ == seq!['r', 'e', 't', ';'],
        "halt"@ == seq!['h', 'a', 'l', 't'],
        "halt;"@ == seq!['h', 'a', 'l', 't', ';'],
        "jump_if"@ == seq!['j', 'u', 'm', 'p', '_', 'i', 'f'],
        "jump_if "@ == seq!['j', 'u', 'm', 'p', '_', 'i', 'f', ' '],
        "eq"@ == seq!['e', 'q'],
        "eq "@ == seq!['e', 'q', ' '],
        "not"@ == seq!['n', 'o', 't'],
        "not "@ == seq!['n', 'o', 't', ' '],
        "add"@ == seq!['a', 'd', 'd'],
        "add "@ == seq!['a', 'd', 'd', ' '],
        "sub"@ == seq!['s', 'u', 'b'],
        "sub "@ == seq!['s', 'u', 'b', ' '],
        "mul"@ == seq!['m', 'u', 'l'],
        "mul "@ == seq!['m', 'u', 'l', ' '],
        "div"@ == seq!['d', 'i', 'v'],
        "div "@ == seq!['d', 'i', 'v', ' '],
        ";"@ == seq![';'],
        " "@ == seq![' '],
        "\n"@ == seq!['\n'],
{
    reveal_strlit("set");
    reveal_strlit("set ");
    reveal_strlit("point");
    reveal_strlit("point ");
    reveal_strlit("jump");
    reveal_strlit("jump ");
    reveal_strlit("print");
    reveal_strlit("print ");
    reveal_strlit("call");
    reveal_strlit("call ");
    reveal_strlit("ret");
    reveal_strlit("ret;");
    reveal_strlit("halt");
    reveal_strlit("halt;");
    reveal_strlit("jump_if");
    reveal_strlit("jump_if ");
    reveal_strlit("eq");
    reveal_strlit("eq ");
    reveal_strlit("not");
    reveal_strlit("not ");
    reveal_strlit("add");
    reveal_strlit("add ");
    reveal_strlit("sub");
    reveal_strlit("sub ");
    reveal_strlit("mul");
    reveal_strlit("mul ");
    reveal_strlit("div");
    reveal_strlit("div ");
    reveal_strlit(";");
    reveal_strlit(" ");
    reveal_strlit("\n");
    assert("set"@ =~= seq!['s', 'e', 't']);
    assert("set "@ =~= seq!['s', 'e', 't', ' ']);
    assert("point"@ =~= seq!['p', 'o', 'i', 'n', 't']);
    assert("point "@ =~= seq!['p', 'o', 'i', 'n', 't', ' ']);
    assert("jump"@ =~= seq!['j', 'u', 'm', 'p']);
    assert("jump "@ =~= seq!['j', 'u', 'm', 'p', ' ']);
    assert("print"@ =~= seq!['p', 'r', 'i', 'n', 't']);
    assert("print "@ =~= seq!['p', 'r', 'i', 'n', 't', ' ']);
    assert("call"@ =~= seq!['c', 'a', 'l', 'l']);
    assert("call "@ =~= seq!['c', 'a', 'l', 'l', ' ']);
    assert("ret"@ =~= seq!['r', 'e', 't']);
    assert("ret;"@ =~= seq!['r', 'e', 't', ';']);
    assert("halt"@ =~= seq!['h', 'a', 'l', 't']);
    assert("halt;"@ =~= seq!['h', 'a', 'l', 't', ';']);
    assert("jump_if"@ =~= seq!['j', 'u', 'm', 'p', '_', 'i', 'f']);
    assert("jump_if "@ =~= seq!['j', 'u', 'm', 'p', '_', 'i', 'f', ' ']);
    assert("eq"@ =~= seq!['e', 'q']);
    assert("eq "@ =~= seq!['e', 'q', ' ']);
    assert("not"@ =~= seq!['n', 'o', 't']);
    assert("not "@ =~= seq!['n', 'o', 't', ' ']);
    assert("add"@ =~= seq!['a', 'd', 'd']);
    assert("add "@ =~= seq!['a', 'd', 'd', ' ']);
    assert("sub"@ =~= seq!['s', 'u', 'b']);
    assert("sub "@ =~= seq!['s', 'u', 'b', ' ']);
    assert("mul"@ =~= seq!['m', 'u', 'l']);
    assert("mul "@ =~= seq!['m', 'u', 'l', ' ']);
    assert("div"@ =~= seq!['d', 'i', 'v']);
    assert("div "@ =~= seq!['d', 'i', 'v', ' ']);
    assert(";"@ =~= seq![';']);
    assert(" "@ =~= seq![' ']);
    assert("\n"@ =~= seq!['\n']);
}

/// Avoiding a character survives joining.
proof fn lemma_avoids_concat(a: Seq<char>, b: Seq<char>, c: char)
    requires
        avoids(a, c),
        avoids(b, c),
    ensures
        avoids(a + b, c),
{
    assert forall|i: int| 0 <= i < (a + b).len() implies (a + b)[i] != c by {
        if i < a.len() {
            assert((a + b)[i] == a[i]);
        } else {
            assert((a + b)[i] == b[i - a.len()]);
        }
    }
}

/// One keyword and one operand tokenise as themselves.
proof fn lemma_tokens1(kw: Seq<char>, a: DataV)
    requires
        avoids(kw, ' '),
        plain_data(a),
    ensures
        split_on(kw + seq![' '] + data_fancy(a), ' ') == seq![kw, data_fancy(a)],
{
    lemma_fancy_plain(a);
    lemma_split_concat(kw, data_fancy(a), ' ');
    lemma_split_whole(data_fancy(a), ' ');
    assert(seq![kw] + seq![data_fancy(a)] =~= seq![kw, data_fancy(a)]);
}

/// One keyword and two operands tokenise as themselves.
proof fn lemma_tokens2(kw: Seq<char>, a: DataV, b: DataV)
    requires
        avoids(kw, ' '),
        plain_data(a),
        plain_data(b),
    ensures
        split_on(kw + seq![' '] + (data_fancy(a) + seq![' '] + data_fancy(b)), ' ') == seq![
            kw,
            data_fancy(a),
            data_fancy(b),
        ],
{
    lemma_fancy_plain(a);
    lemma_fancy_plain(b);
    lemma_split_concat(kw, data_fancy(a) + seq![' '] + data_fancy(b), ' ');
    lemma_split_concat(data_fancy(a), data_fancy(b), ' ');
    lemma_split_whole(data_fancy(b), ' ');
    assert(seq![kw] + (seq![data_fancy(a)] + seq![data_fancy(b)]) =~= seq![
        kw,
        data_fancy(a),
        data_fancy(b),
    ]);
}

/// One keyword and three operands tokenise as themselves.
proof fn lemma_tokens3(kw: Seq<char>, a: DataV, b: DataV, d: DataV)
    requires
        avoids(kw, ' '),
        plain_data(a),
        plain_data(b),
        plain_data(d),
    ensures
        split_on(
            kw + seq![' '] + (data_fancy(a) + seq![' '] + (data_fancy(b) + seq![' '] + data_fancy(
                d,
            ))),
            ' ',
        ) == seq![kw, data_fancy(a), data_fancy(b), data_fancy(d)],
{
    lemma_fancy_plain(a);
    lemma_fancy_plain(b);
    lemma_fancy_plain(d);
    lemma_split_concat(
        kw,
        data_fancy(a) + seq![' '] + (data_fancy(b) + seq![' '] + data_fancy(d)),
        ' ',
    );
    lemma_split_concat(data_fancy(a), data_fancy(b) + seq![' '] + data_fancy(d), ' ');
    lemma_split_concat(data_fancy(b), data_fancy(d), ' ');
    lemma_split_whole(data_fancy(d), ' ');
    assert(seq![kw] + (seq![data_fancy(a)] + (seq![data_fancy(b)] + seq![data_fancy(d)])) =~= seq![
        kw,
        data_fancy(a),
        data_fancy(b),
        data_fancy(d),
    ]);
}

/// The textual line of an instruction without its closing terminator.
pub open spec fn render_body(op: OpV) -> Seq<char> {
    match op {
        OpV::DROP { name } => "drop "@ + data_fancy(name),
        OpV::GREATER { name, value, ret } => "greater "@ + data_fancy(name) + " "@ + data_fancy(
            value,
        ) + " "@ + data_fancy(ret),
        OpV::HALT => "halt"@,
        OpV::ADD { name, value, ret } => "add "@ + data_fancy(name) + " "@ + data_fancy(value)
            + " "@ + data_fancy(ret),
        OpV::SUB { name, value, ret } => "sub "@ + data_fancy(name) + " "@ + data_fancy(value)
            + " "@ + data_fancy(ret),
        OpV::MUL { name, value, ret } => "mul "@ + data_fancy(name) + " "@ + data_fancy(value)
            + " "@ + data_fancy(ret),
        OpV::DIV { name, value, ret } => "div "@ + data_fancy(name) + " "@ + data_fancy(value)
            + " "@ + data_fancy(ret),
        OpV::NOT { name, ret } => "not "@ + data_fancy(name) + " "@ + data_fancy(ret),
        OpV::EQ { name, value, ret } => "eq "@ + data_fancy(name) + " "@ + data_fancy(value) + " "@
            + data_fancy(ret),
        OpV::JUMP_IF { name, condition } => "jump_if "@ + data_fancy(name) + " "@ + data_fancy(
            condition,
        ),
        OpV::SET { name, value } => "set "@ + data_fancy(name) + " "@ + data_fancy(value),
        OpV::POINT { name } => "point "@ + data_fancy(name),
        OpV::JUMP { name } => "jump "@ + data_fancy(name),
        OpV::PRINT { value } => "print "@ + data_fancy(value),
        OpV::CALL { name } => "call "@ + data_fancy(name),
        OpV::RET => "ret"@,
        OpV::NOP => "NOP"@,
    }
}

/// A rendered line is its body followed by the terminator.
proof fn lemma_render_body(op: OpV)
    ensures
        render_op(op) == render_body(op) + seq![';'],
{
    lemma_opcode_texts();
    reveal_strlit("drop ");
    reveal_strlit("greater ");
    reveal_strlit("NOP;");
    reveal_strlit("NOP");
    assert("NOP;"@ =~= "NOP"@ + seq![';']);
    match op {
        OpV::HALT => {
            assert(render_op(op) =~= render_body(op) + seq![';']);
        },
        OpV::RET => {
            assert(render_op(op) =~= render_body(op) + seq![';']);
        },
        _ => {
            assert(render_op(op) =~= render_body(op) + seq![';']);
        },
    }
}

#[verifier::rlimit(100)]
#[verifier::spinoff_prover]
proof fn lemma_chain_ret(t: Seq<char>, toks: Seq<Seq<char>>)
    requires
        trim_lead(t) == t,
        split_on(t, ' ') == toks,
        toks.len() == 1,
        toks[0] == "ret"@,

    ensures
        parse_ir_line(t) == Ok::<OpV, Seq<char>>(OpV::RET),
{
    lemma_opcode_texts();
    assert(toks[0].len() == 3);
    assert(toks[0][0] == 'r');
    assert(toks[0] != "set"@) by {
        assert(toks[0][0] == 'r');
        assert("set"@[0] == 's');
    }
    assert(toks[0] != "point"@) by { assert("point"@.len() == 5); }
    assert(toks[0] != "jump"@) by { assert("jump"@.len() == 4); }
    assert(toks[0] != "print"@) by { assert("print"@.len() == 5); }
    assert(toks[0] != "call"@) by { assert("call"@.len() == 4); }
    assert(parse_ir_line(t) == Ok::<OpV, Seq<char>>(OpV::RET));
}

#[verifier::rlimit(100)]
#[verifier::spinoff_prover]
proof fn lemma_chain_halt(t: Seq<char>, toks: Seq<Seq<char>>)
    requires
        trim_lead(t) == t,
        split_on(t, ' ') == toks,
        toks.len() == 1,
        toks[0] == "halt"@,

    ensures
        parse_ir_line(t) == Ok::<OpV, Seq<char>>(OpV::HALT),
{
    lemma_opcode_texts();
    assert(toks[0].len() == 4);
    assert(toks[0][0] == 'h');
    assert(toks[0] != "set"@) by { assert("set"@.len() == 3); }
    assert(toks[0] != "point"@) by { assert("point"@.len() == 5); }
    assert(toks[0] != "jump"@) by {
        assert(toks[0][0] == 'h');
        assert("jump"@[0] == 'j');
    }
    assert(toks[0] != "print"@) by { assert("print"@.len() == 5); }
    assert(toks[0] != "call"@) by {
        assert(toks[0][0] == 'h');
        assert("call"@[0] == 'c');
    }
    assert(toks[0] != "ret"@) by { assert("ret"@.len() == 3); }
    assert(parse_ir_line(t) == Ok::<OpV, Seq<char>>(OpV::HALT));
}

#[verifier::rlimit(100)]
#[verifier::spinoff_prover]
proof fn lemma_chain_point(t: Seq<char>, toks: Seq<Seq<char>>, name: DataV)
    requires
        trim_lead(t) == t,
        split_on(t, ' ') == toks,
        toks.len() == 2,
        toks[0] == "point"@,
        parse_literal(toks[1]) == Some(name),
    ensures
        parse_ir_line(t) == Ok::<OpV, Seq<char>>(OpV::POINT { name }),
{
    lemma_opcode_texts();
    assert(toks[0].len() == 5);
    assert(toks[0][0] == 'p');
    assert(toks[0] != "set"@) by { assert("set"@.len() == 3); }
    assert(parse_ir_line(t) == Ok::<OpV, Seq<char>>(OpV::POINT { name }));
}

#[verifier::rlimit(100)]
#[verifier::spinoff_prover]
proof fn lemma_chain_jump(t: Seq<char>, toks: Seq<Seq<char>>, name: DataV)
    requires
        trim_lead(t) == t,
        split_on(t, ' ') == toks,
        toks.len() == 2,
        toks[0] == "jump"@,
        parse_literal(toks[1]) == Some(name),
    ensures
        parse_ir_line(t) == Ok::<OpV, Seq<char>>(OpV::JUMP { name }),
{
    lemma_opcode_texts();
    assert(toks[0].len() == 4);
    assert(toks[0][0] == 'j');
    assert(toks[0] != "set"@) by { assert("set"@.len() == 3); }
    assert(toks[0] != "point"@) by { assert("point"@.len() == 5); }
    assert(parse_ir_line(t) == Ok::<OpV, Seq<char>>(OpV::JUMP { name }));
}

#[verifier::rlimit(100)]
#[verifier::spinoff_prover]
proof fn lemma_chain_print(t: Seq<char>, toks: Seq<Seq<char>>, value: DataV)
    requires
        trim_lead(t) == t,
        split_on(t, ' ') == toks,
        toks.len() == 2,
        toks[0] == "print"@,
        parse_literal(toks[1]) == Some(value),
    ensures
        parse_ir_line(t) == Ok::<OpV, Seq<char>>(OpV::PRINT { value }),
{
    lemma_opcode_texts();
    assert(toks[0].len() == 5);
    assert(toks[0][0] == 'p');
    assert(toks[0] != "set"@) by { assert("set"@.len() == 3); }
    assert(toks[0] != "point"@) by {
        assert(toks[0][1] == 'r');
        assert("point"@[1] == 'o');
    }
    assert(toks[0] != "jump"@) by { assert("jump"@.len() == 4); }
    assert(parse_ir_line(t) == Ok::<OpV, Seq<char>>(OpV::PRINT { value }));
}

#[verifier::rlimit(100)]
#[verifier::spinoff_prover]
proof fn lemma_chain_call(t: Seq<char>, toks: Seq<Seq<char>>, name: DataV)
    requires
        trim_lead(t) == t,
        split_on(t, ' ') == toks,
        toks.len() == 2,
        toks[0] == "call"@,
        parse_literal(toks[1]) == Some(name),
    ensures
        parse_ir_line(t) == Ok::<OpV, Seq<char>>(OpV::CALL { name }),
{
    lemma_opcode_texts();
    assert(toks[0].len() == 4);
    assert(toks[0][0] == 'c');
    assert(toks[0] != "set"@) by { assert("set"@.len() == 3); }
    assert(toks[0] != "point"@) by { assert("point"@.len() == 5); }
    assert(toks[0] != "jump"@) by {
        assert(toks[0][0] == 'c');
        assert("jump"@[0] == 'j');
    }
    assert(toks[0] != "print"@) by { assert("print"@.len() == 5); }
    assert(parse_ir_line(t) == Ok::<OpV, Seq<char>>(OpV::CALL { name }));
}

#[verifier::rlimit(100)]
#[verifier::spinoff_prover]
proof fn lemma_chain_set(t: Seq<char>, toks: Seq<Seq<char>>, name: DataV, value: DataV)
    requires
        trim_lead(t) == t,
        split_on(t, ' ') == toks,
        toks.len() == 3,
        toks[0] == "set"@,
        parse_literal(toks[1]) == Some(name),
        parse_literal(toks[2]) == Some(value),
    ensures
        parse_ir_line(t) == Ok::<OpV, Seq<char>>(OpV::SET { name, value }),
{
    lemma_opcode_texts();
    assert(toks[0].len() == 3);
    assert(toks[0][0] == 's');

    assert(parse_ir_line(t) == Ok::<OpV, Seq<char>>(OpV::SET { name, value }));
}

#[verifier::rlimit(100)]
#[verifier::spinoff_prover]
proof fn lemma_chain_jumpif(t: Seq<char>, toks: Seq<Seq<char>>, name: DataV, condition: DataV)
    requires
        trim_lead(t) == t,
        split_on(t, ' ') == toks,
        toks.len() == 3,
        toks[0] == "jump_if"@,
        parse_literal(toks[1]) == Some(name),
        parse_literal(toks[2]) == Some(condition),
    ensures
        parse_ir_line(t) == Ok::<OpV, Seq<char>>(OpV::JUMP_IF { name, condition }),
{
    lemma_opcode_texts();
    assert(toks[0].len() == 7);
    assert(toks[0][0] == 'j');
    assert(toks[0] != "set"@) by { assert("set"@.len() == 3); }
    assert(toks[0] != "point"@) by { assert("point"@.len() == 5); }
    assert(toks[0] != "jump"@) by { assert("jump"@.len() == 4); }
    assert(toks[0] != "print"@) by { assert("print"@.len() == 5); }
    assert(toks[0] != "call"@) by { assert("call"@.len() == 4); }
    assert(toks[0] != "ret"@) by { assert("ret"@.len() == 3); }
    assert(toks[0] != "halt"@) by { assert("halt"@.len() == 4); }
    assert(parse_ir_line(t) == Ok::<OpV, Seq<char>>(OpV::JUMP_IF { name, condition }));
}

#[verifier::rlimit(100)]
#[verifier::spinoff_prover]
proof fn lemma_chain_not(t: Seq<char>, toks: Seq<Seq<char>>, name: DataV, ret2: DataV)
    requires
        trim_lead(t) == t,
        split_on(t, ' ') == toks,
        toks.len() == 3,
        toks[0] == "not"@,
        parse_literal(toks[1]) == Some(name),
        parse_literal(toks[2]) == Some(ret2),
    ensures
        parse_ir_line(t) == Ok::<OpV, Seq<char>>(OpV::NOT { name, ret: ret2 }),
{
    lemma_opcode_texts();
    assert(toks[0].len() == 3);
    assert(toks[0][0] == 'n');
    assert(toks[0] != "set"@) by {
        assert(toks[0][0] == 'n');
        assert("set"@[0] == 's');
    }
    assert(toks[0] != "point"@) by { assert("point"@.len() == 5); }
    assert(toks[0] != "jump"@) by { assert("jump"@.len() == 4); }
    assert(toks[0] != "print"@) by { assert("print"@.len() == 5); }
    assert(toks[0] != "call"@) by { assert("call"@.len() == 4); }
    assert(toks[0] != "ret"@) by {
        assert(toks[0][0] == 'n');
        assert("ret"@[0] == 'r');
    }
    assert(toks[0] != "halt"@) by { assert("halt"@.len() == 4); }
    assert(toks[0] != "jump_if"@) by { assert("jump_if"@.len() == 7); }
    assert(toks[0] != "eq"@) by { assert("eq"@.len() == 2); }
    assert(parse_ir_line(t) == Ok::<OpV, Seq<char>>(OpV::NOT { name, ret: ret2 }));
}

#[verifier::rlimit(100)]
#[verifier::spinoff_prover]
proof fn lemma_chain_eq(t: Seq<char>, toks: Seq<Seq<char>>, name: DataV, value: DataV, ret3: DataV)
    requires
        trim_lead(t) == t,
        split_on(t, ' ') == toks,
        toks.len() == 4,
        toks[0] == "eq"@,
        parse_literal(toks[1]) == Some(name),
        parse_literal(toks[2]) == Some(value),
        parse_literal(toks[3]) == Some(ret3),
    ensures
        parse_ir_line(t) == Ok::<OpV, Seq<char>>(OpV::EQ { name, value, ret: ret3 }),
{
    lemma_opcode_texts();
    assert(toks[0].len() == 2);
    assert(toks[0][0] == 'e');
    assert(toks[0] != "set"@) by { assert("set"@.len() == 3); }
    assert(toks[0] != "point"@) by { assert("point"@.len() == 5); }
    assert(toks[0] != "jump"@) by { assert("jump"@.len() == 4); }
    assert(toks[0] != "print"@) by { assert("print"@.len() == 5); }
    assert(toks[0] != "call"@) by { assert("call"@.len() == 4); }
    assert(toks[0] != "ret"@) by { assert("ret"@.len() == 3); }
    assert(toks[0] != "halt"@) by { assert("halt"@.len() == 4); }
    assert(toks[0] != "jump_if"@) by { assert("jump_if"@.len() == 7); }
    assert(parse_ir_line(t) == Ok::<OpV, Seq<char>>(OpV::EQ { name, value, ret: ret3 }));
}

#[verifier::rlimit(100)]
#[verifier::spinoff_prover]
proof fn lemma_chain_add(t: Seq<char>, toks: Seq<Seq<char>>, name: DataV, value: DataV, ret3: DataV)
    requires
        trim_lead(t) == t,
        split_on(t, ' ') == toks,
        toks.len() == 4,
        toks[0] == "add"@,
        parse_literal(toks[1]) == Some(name),
        parse_literal(toks[2]) == Some(value),
        parse_literal(toks[3]) == Some(ret3),
    ensures
        parse_ir_line(t) == Ok::<OpV, Seq<char>>(OpV::ADD { name, value, ret: ret3 }),
{
    lemma_opcode_texts();
    assert(toks[0].len() == 3);
    assert(toks[0][0] == 'a');
    assert(toks[0] != "set"@) by {
        assert(toks[0][0] == 'a');
        assert("set"@[0] == 's');
    }
    assert(toks[0] != "point"@) by { assert("point"@.len() == 5); }
    assert(toks[0] != "jump"@) by { assert("jump"@.len() == 4); }
    assert(toks[0] != "print"@) by { assert("print"@.len() == 5); }
    assert(toks[0] != "call"@) by { assert("call"@.len() == 4); }
    assert(toks[0] != "ret"@) by {
        assert(toks[0][0] == 'a');
        assert("ret"@[0] == 'r');
    }
    assert(toks[0] != "halt"@) by { assert("halt"@.len() == 4); }
    assert(toks[0] != "jump_if"@) by { assert("jump_if"@.len() == 7); }
    assert(toks[0] != "eq"@) by { assert("eq"@.len() == 2); }
    assert(toks[0] != "not"@) by {
        assert(toks[0][0] == 'a');
        assert("not"@[0] == 'n');
    }
    assert(parse_ir_line(t) == Ok::<OpV, Seq<char>>(OpV::ADD { name, value, ret: ret3 }));
}

#[verifier::rlimit(100)]
#[verifier::spinoff_prover]
proof fn lemma_chain_sub(t: Seq<char>, toks: Seq<Seq<char>>, name: DataV, value: DataV, ret3: DataV)
    requires
        trim_lead(t) == t,
        split_on(t, ' ') == toks,
        toks.len() == 4,
        toks[0] == "sub"@,
        parse_literal(toks[1]) == Some(name),
        parse_literal(toks[2]) == Some(value),
        parse_literal(toks[3]) == Some(ret3),
    ensures
        parse_ir_line(t) == Ok::<OpV, Seq<char>>(OpV::SUB { name, value, ret: ret3 }),
{
    lemma_opcode_texts();
    assert(toks[0].len() == 3);
    assert(toks[0][0] == 's');
    assert(toks[0] != "set"@) by {
        assert(toks[0][1] == 'u');
        assert("set"@[1] == 'e');
    }
    assert(toks[0] != "point"@) by { assert("point"@.len() == 5); }
    assert(toks[0] != "jump"@) by { assert("jump"@.len() == 4); }
    assert(toks[0] != "print"@) by { assert("print"@.len() == 5); }
    assert(toks[0] != "call"@) by { assert("call"@.len() == 4); }
    assert(toks[0] != "ret"@) by {
        assert(toks[0][0] == 's');
        assert("ret"@[0] == 'r');
    }
    assert(toks[0] != "halt"@) by { assert("halt"@.len() == 4); }
    assert(toks[0] != "jump_if"@) by { assert("jump_if"@.len() == 7); }
    assert(toks[0] != "eq"@) by { assert("eq"@.len() == 2); }
    assert(toks[0] != "not"@) by {
        assert(toks[0][0] == 's');
        assert("not"@[0] == 'n');
    }
    assert(toks[0] != "add"@) by {
        assert(toks[0][0] == 's');
        assert("add"@[0] == 'a');
    }
    assert(parse_ir_line(t) == Ok::<OpV, Seq<char>>(OpV::SUB { name, value, ret: ret3 }));
}

#[verifier::rlimit(100)]
#[verifier::spinoff_prover]
proof fn lemma_chain_mul(t: Seq<char>, toks: Seq<Seq<char>>, name: DataV, value: DataV, ret3: DataV)
    requires
        trim_lead(t) == t,
        split_on(t, ' ') == toks,
        toks.len() == 4,
        toks[0] == "mul"@,
        parse_literal(toks[1]) == Some(name),
        parse_literal(toks[2]) == Some(value),
        parse_literal(toks[3]) == Some(ret3),
    ensures
        parse_ir_line(t) == Ok::<OpV, Seq<char>>(OpV::MUL { name, value, ret: ret3 }),
{
    lemma_opcode_texts();
    assert(toks[0].len() == 3);
    assert(toks[0][0] == 'm');
    assert(toks[0] != "set"@) by {
        assert(toks[0][0] == 'm');
        assert("set"@[0] == 's');
    }
    assert(toks[0] != "point"@) by { assert("point"@.len() == 5); }
    assert(toks[0] != "jump"@) by { assert("jump"@.len() == 4); }
    assert(toks[0] != "print"@) by { assert("print"@.len() == 5); }
    assert(toks[0] != "call"@) by { assert("call"@.len() == 4); }
    assert(toks[0] != "ret"@) by {
        assert(toks[0][0] == 'm');
        assert("ret"@[0] == 'r');
    }
    assert(toks[0] != "halt"@) by { assert("halt"@.len() == 4); }
    assert(toks[0] != "jump_if"@) by { assert("jump_if"@.len() == 7); }
    assert(toks[0] != "eq"@) by { assert("eq"@.len() == 2); }
    assert(toks[0] != "not"@) by {
        assert(toks[0][0] == 'm');
        assert("not"@[0] == 'n');
    }
    assert(toks[0] != "add"@) by {
        assert(toks[0][0] == 'm');
        assert("add"@[0] == 'a');
    }
    assert(toks[0] != "sub"@) by {
        assert(toks[0][0] == 'm');
        assert("sub"@[0] == 's');
    }
    assert(parse_ir_line(t) == Ok::<OpV, Seq<char>>(OpV::MUL { name, value, ret: ret3 }));
}

#[verifier::rlimit(100)]
#[verifier::spinoff_prover]
proof fn lemma_chain_div(t: Seq<char>, toks: Seq<Seq<char>>, name: DataV, value: DataV, ret3: DataV)
    requires
        trim_lead(t) == t,
        split_on(t, ' ') == toks,
        toks.len() == 4,
        toks[0] == "div"@,
        parse_literal(toks[1]) == Some(name),
        parse_literal(toks[2]) == Some(value),
        parse_literal(toks[3]) == Some(ret3),
    ensures
        parse_ir_line(t) == Ok::<OpV, Seq<char>>(OpV::DIV { name, value, ret: ret3 }),
{
    lemma_opcode_texts();
    assert(toks[0].len() == 3);
    assert(toks[0][0] == 'd');
    assert(toks[0] != "set"@) by {
        assert(toks[0][0] == 'd');
        assert("set"@[0] == 's');
    }
    assert(toks[0] != "point"@) by { assert("point"@.len() == 5); }
    assert(toks[0] != "jump"@) by { assert("jump"@.len() == 4); }
    assert(toks[0] != "print"@) by { assert("print"@.len() == 5); }
    assert(toks[0] != "call"@) by { assert("call"@.len() == 4); }
    assert(toks[0] != "ret"@) by {
        assert(toks[0][0] == 'd');
        assert("ret"@[0] == 'r');
    }
    assert(toks[0] != "halt"@) by { assert("halt"@.len() == 4); }
    assert(toks[0] != "jump_if"@) by { assert("jump_if"@.len() == 7); }
    assert(toks[0] != "eq"@) by { assert("eq"@.len() == 2); }
    assert(toks[0] != "not"@) by {
        assert(toks[0][0] == 'd');
        assert("not"@[0] == 'n');
    }
    assert(toks[0] != "add"@) by {
        assert(toks[0][0] == 'd');
        assert("add"@[0] == 'a');
    }
    assert(toks[0] != "sub"@) by {
        assert(toks[0][0] == 'd');
        assert("sub"@[0] == 's');
    }
    assert(toks[0] != "mul"@) by {
        assert(toks[0][0] == 'd');
        assert("mul"@[0] == 'm');
    }
    assert(parse_ir_line(t) == Ok::<OpV, Seq<char>>(OpV::DIV { name, value, ret: ret3 }));
}

#[verifier::rlimit(100)]
#[verifier::spinoff_prover]
proof fn lemma_body1(kw: Seq<char>, a: DataV)
    requires
        avoids(kw, ' '),
        avoids(kw, ';'),
        kw.len() >= 1,
        !(kw[0] == ' ' || kw[0] == '\n'),
        plain_data(a),
    ensures
        ({
            let body = kw + seq![' '] + data_fancy(a);
            &&& avoids(body, ';')
            &&& trim_lead(body) == body
            &&& split_on(body, ' ') == seq![kw, data_fancy(a)]
        }),
{
    let fa = data_fancy(a);
    let body = kw + seq![' '] + fa;
    lemma_fancy_plain(a);
    assert(avoids(seq![' '], ';'));
    lemma_avoids_concat(kw, seq![' '], ';');
    lemma_avoids_concat(kw + seq![' '], fa, ';');
    assert(body[0] == kw[0]);
    assert(trim_lead(body) == body);
    lemma_tokens1(kw, a);
}

#[verifier::rlimit(100)]
#[verifier::spinoff_prover]
proof fn lemma_body2(kw: Seq<char>, a: DataV, b: DataV)
    requires
        avoids(kw, ' '),
        avoids(kw, ';'),
        kw.len() >= 1,
        !(kw[0] == ' ' || kw[0] == '\n'),
        plain_data(a),
        plain_data(b),
    ensures
        ({
            let body = kw + seq![' '] + (data_fancy(a) + seq![' '] + data_fancy(b));
            &&& avoids(body, ';')
            &&& trim_lead(body) == body
            &&& split_on(body, ' ') == seq![kw, data_fancy(a), data_fancy(b)]
        }),
{
    let fa = data_fancy(a);
    let fb = data_fancy(b);
    let body = kw + seq![' '] + (fa + seq![' '] + fb);
    lemma_fancy_plain(a);
    lemma_fancy_plain(b);
    assert(avoids(seq![' '], ';'));
    lemma_avoids_concat(fa, seq![' '], ';');
    lemma_avoids_concat(fa + seq![' '], fb, ';');
    lemma_avoids_concat(kw, seq![' '], ';');
    lemma_avoids_concat(kw + seq![' '], fa + seq![' '] + fb, ';');
    assert(body =~= kw + seq![' '] + (fa + seq![' '] + fb));
    assert(avoids(body, ';'));
    assert(body[0] == kw[0]);
    assert(trim_lead(body) == body);
    lemma_tokens2(kw, a, b);
}

#[verifier::rlimit(100)]
#[verifier::spinoff_prover]
proof fn lemma_body3(kw: Seq<char>, a: DataV, b: DataV, d: DataV)
    requires
        avoids(kw, ' '),
        avoids(kw, ';'),
        kw.len() >= 1,
        !(kw[0] == ' ' || kw[0] == '\n'),
        plain_data(a),
        plain_data(b),
        plain_data(d),
    ensures
        ({
            let body = kw + seq![' '] + (data_fancy(a) + seq![' '] + (data_fancy(b) + seq![' ']
                + data_fancy(d)));
            &&& avoids(body, ';')
            &&& trim_lead(body) == body
            &&& split_on(body, ' ') == seq![kw, data_fancy(a), data_fancy(b), data_fancy(d)]
        }),
{
    let fa = data_fancy(a);
    let fb = data_fancy(b);
    let fd = data_fancy(d);
    let body = kw + seq![' '] + (fa + seq![' '] + (fb + seq![' '] + fd));
    lemma_fancy_plain(a);
    lemma_fancy_plain(b);
    lemma_fancy_plain(d);
    assert(avoids(seq![' '], ';'));
    lemma_avoids_concat(fb, seq![' '], ';');
    lemma_avoids_concat(fb + seq![' '], fd, ';');
    lemma_avoids_concat(fa, seq![' '], ';');
    lemma_avoids_concat(fa + seq![' '], fb + seq![' '] + fd, ';');
    lemma_avoids_concat(kw, seq![' '], ';');
    lemma_avoids_concat(kw + seq![' '], fa + seq![' '] + (fb + seq![' '] + fd), ';');
    assert(fa + seq![' '] + (fb + seq![' '] + fd) =~= fa + seq![' '] + (fb + seq![' '] + fd));
    assert(avoids(fa + seq![' '] + (fb + seq![' '] + fd), ';')) by {
        assert(fa + seq![' '] + (fb + seq![' '] + fd) =~= (fa + seq![' ']) + ((fb + seq![' '])
            + fd));
    }
    assert(avoids(body, ';'));
    assert(body[0] == kw[0]);
    assert(trim_lead(body) == body);
    lemma_tokens3(kw, a, b, d);
}

#[verifier::rlimit(100)]
#[verifier::spinoff_prover]
proof fn lemma_line_rt_ret()
    ensures
        avoids(render_body(OpV::RET), ';'),
        trim_lead(render_body(OpV::RET)) == render_body(OpV::RET),
        parse_ir_line(render_body(OpV::RET)) == Ok::<OpV, Seq<char>>(OpV::RET),
{
    lemma_opcode_texts();
    let op = OpV::RET;
    let body = render_body(op);
    assert(avoids(body, ';'));
    assert(body[0] == 'r');
    assert(trim_lead(body) == body);
    lemma_split_whole("ret"@, ' ');
    let toks = split_on(body, ' ');
    assert(toks == seq!["ret"@]);
    lemma_chain_ret(body, toks);
}

#[verifier::rlimit(100)]
#[verifier::spinoff_prover]
proof fn lemma_line_rt_halt()
    ensures
        avoids(render_body(OpV::HALT), ';'),
        trim_lead(render_body(OpV::HALT)) == render_body(OpV::HALT),
        parse_ir_line(render_body(OpV::HALT)) == Ok::<OpV, Seq<char>>(OpV::HALT),
{
    lemma_opcode_texts();
    let op = OpV::HALT;
    let body = render_body(op);
    assert(avoids(body, ';'));
    assert(body[0] == 'h');
    assert(trim_lead(body) == body);
    lemma_split_whole("halt"@, ' ');
    let toks = split_on(body, ' ');
    assert(toks == seq!["halt"@]);
    lemma_chain_halt(body, toks);
}

#[verifier::rlimit(100)]
#[verifier::spinoff_prover]
proof fn lemma_line_rt_point(name: DataV)
    requires
        plain_data(name),
    ensures
        avoids(render_body(OpV::POINT { name }), ';'),
        trim_lead(render_body(OpV::POINT { name })) == render_body(OpV::POINT { name }),
        parse_ir_line(render_body(OpV::POINT { name })) == Ok::<OpV, Seq<char>>(OpV::POINT { name }),
{
    lemma_opcode_texts();
    let op = OpV::POINT { name };
    let body = render_body(op);
    assert(avoids("point"@, ' '));
    assert(avoids("point"@, ';'));
    lemma_body1("point"@, name);
    assert(body =~= "point"@ + seq![' '] + data_fancy(name));
    lemma_value_text_round_trip(name);
    let toks = split_on(body, ' ');
    assert(toks == seq!["point"@, data_fancy(name)]);
    lemma_chain_point(body, toks, name);
}

#[verifier::rlimit(100)]
#[verifier::spinoff_prover]
proof fn lemma_line_rt_jump(name: DataV)
    requires
        plain_data(name),
    ensures
        avoids(render_body(OpV::JUMP { name }), ';'),
        trim_lead(render_body(OpV::JUMP { name })) == render_body(OpV::JUMP { name }),
        parse_ir_line(render_body(OpV::JUMP { name })) == Ok::<OpV, Seq<char>>(OpV::JUMP { name }),
{
    lemma_opcode_texts();
    let op = OpV::JUMP { name };
    let body = render_body(op);
    assert(avoids("jump"@, ' '));
    assert(avoids("jump"@, ';'));
    lemma_body1("jump"@, name);
    assert(body =~= "jump"@ + seq![' '] + data_fancy(name));
    lemma_value_text_round_trip(name);
    let toks = split_on(body, ' ');
    assert(toks == seq!["jump"@, data_fancy(name)]);
    lemma_chain_jump(body, toks, name);
}

#[verifier::rlimit(100)]
#[verifier::spinoff_prover]
proof fn lemma_line_rt_print(value: DataV)
    requires
        plain_data(value),
    ensures
        avoids(render_body(OpV::PRINT { value }), ';'),
        trim_lead(render_body(OpV::PRINT { value })) == render_body(OpV::PRINT { value }),
        parse_ir_line(render_body(OpV::PRINT { value })) == Ok::<OpV, Seq<char>>(OpV::PRINT { value }),
{
    lemma_opcode_texts();
    let op = OpV::PRINT { value };
    let body = render_body(op);
    assert(avoids("print"@, ' '));
    assert(avoids("print"@, ';'));
    lemma_body1("print"@, value);
    assert(body =~= "print"@ + seq![' '] + data_fancy(value));
    lemma_value_text_round_trip(value);
    let toks = split_on(body, ' ');
    assert(toks == seq!["print"@, data_fancy(value)]);
    lemma_chain_print(body, toks, value);
}

#[verifier::rlimit(100)]
#[verifier::spinoff_prover]
proof fn lemma_line_rt_call(name: DataV)
    requires
        plain_data(name),
    ensures
        avoids(render_body(OpV::CALL { name }), ';'),
        trim_lead(render_body(OpV::CALL { name })) == render_body(OpV::CALL { name }),
        parse_ir_line(render_body(OpV::CALL { name })) == Ok::<OpV, Seq<char>>(OpV::CALL { name }),
{
    lemma_opcode_texts();
    let op = OpV::CALL { name };
    let body = render_body(op);
    assert(avoids("call"@, ' '));
    assert(avoids("call"@, ';'));
    lemma_body1("call"@, name);
    assert(body =~= "call"@ + seq![' '] + data_fancy(name));
    lemma_value_text_round_trip(name);
    let toks = split_on(body, ' ');
    assert(toks == seq!["call"@, data_fancy(name)]);
    lemma_chain_call(body, toks, name);
}

#[verifier::rlimit(100)]
#[verifier::spinoff_prover]
proof fn lemma_line_rt_set(name: DataV, value: DataV)
    requires
        plain_data(name),
        plain_data(value),
    ensures
        avoids(render_body(OpV::SET { name, value }), ';'),
        trim_lead(render_body(OpV::SET { name, value })) == render_body(OpV::SET { name, value }),
        parse_ir_line(render_body(OpV::SET { name, value })) == Ok::<OpV, Seq<char>>(OpV::SET { name, value }),
{
    reveal_strlit("set");
    reveal_strlit("set ");
    reveal_strlit(" ");
    assert("set "@ =~= "set"@ + seq![' ']);
    assert(" "@ =~= seq![' ']);
    assert("set"@ =~= seq!['s', 'e', 't']);
    let op = OpV::SET { name, value };
    let body = render_body(op);
    assert(avoids("set"@, ' '));
    assert(avoids("set"@, ';'));
    lemma_body2("set"@, name, value);
    assert(body =~= "set"@ + seq![' '] + (data_fancy(name) + seq![' '] + data_fancy(value)));
    lemma_value_text_round_trip(name);
    lemma_value_text_round_trip(value);
    let toks = split_on(body, ' ');
    assert(toks == seq!["set"@, data_fancy(name), data_fancy(value)]);
    lemma_chain_set(body, toks, name, value);
}

#[verifier::rlimit(100)]
#[verifier::spinoff_prover]
proof fn lemma_line_rt_jumpif(name: DataV, condition: DataV)
    requires
        plain_data(name),
        plain_data(condition),
    ensures
        avoids(render_body(OpV::JUMP_IF { name, condition }), ';'),
        trim_lead(render_body(OpV::JUMP_IF { name, condition })) == render_body(OpV::JUMP_IF { name, condition }),
        parse_ir_line(render_body(OpV::JUMP_IF { name, condition })) == Ok::<OpV, Seq<char>>(OpV::JUMP_IF { name, condition }),
{
    reveal_strlit("jump_if");
    reveal_strlit("jump_if ");
    reveal_strlit(" ");
    assert("jump_if "@ =~= "jump_if"@ + seq![' ']);
    assert(" "@ =~= seq![' ']);
    assert("jump_if"@ =~= seq!['j', 'u', 'm', 'p', '_', 'i', 'f']);
    let op = OpV::JUMP_IF { name, condition };
    let body = render_body(op);
    assert(avoids("jump_if"@, ' '));
    assert(avoids("jump_if"@, ';'));
    lemma_body2("jump_if"@, name, condition);
    assert(body =~= "jump_if"@ + seq![' '] + (data_fancy(name) + seq![' '] + data_fancy(condition)));
    lemma_value_text_round_trip(name);
    lemma_value_text_round_trip(condition);
    let toks = split_on(body, ' ');
    assert(toks == seq!["jump_if"@, data_fancy(name), data_fancy(condition)]);
    lemma_chain_jumpif(body, toks, name, condition);
}

#[verifier::rlimit(100)]
#[verifier::spinoff_prover]
proof fn lemma_line_rt_not(name: DataV, ret2: DataV)
    requires
        plain_data(name),
        plain_data(ret2),
    ensures
        avoids(render_body(OpV::NOT { name, ret: ret2 }), ';'),
        trim_lead(render_body(OpV::NOT { name, ret: ret2 })) == render_body(OpV::NOT { name, ret: ret2 }),
        parse_ir_line(render_body(OpV::NOT { name, ret: ret2 })) == Ok::<OpV, Seq<char>>(OpV::NOT { name, ret: ret2 }),
{
    reveal_strlit("not");
    reveal_strlit("not ");
    reveal_strlit(" ");
    assert("not "@ =~= "not"@ + seq![' ']);
    assert(" "@ =~= seq![' ']);
    assert("not"@ =~= seq!['n', 'o', 't']);
    let op = OpV::NOT { name, ret: ret2 };
    let body = render_body(op);
    assert(avoids("not"@, ' '));
    assert(avoids("not"@, ';'));
    lemma_body2("not"@, name, ret2);
    assert(body =~= "not"@ + seq![' '] + (data_fancy(name) + seq![' '] + data_fancy(ret2)));
    lemma_value_text_round_trip(name);
    lemma_value_text_round_trip(ret2);
    let toks = split_on(body, ' ');
    assert(toks == seq!["not"@, data_fancy(name), data_fancy(ret2)]);
    lemma_chain_not(body, toks, name, ret2);
}

#[verifier::rlimit(100)]
#[verifier::spinoff_prover]
proof fn lemma_line_rt_eq(name: DataV, value: DataV, ret3: DataV)
    requires
        plain_data(name),
        plain_data(value),
        plain_data(ret3),
    ensures
        avoids(render_body(OpV::EQ { name, value, ret: ret3 }), ';'),
        trim_lead(render_body(OpV::EQ { name, value, ret: ret3 })) == render_body(OpV::EQ { name, value, ret: ret3 }),
        parse_ir_line(render_body(OpV::EQ { name, value, ret: ret3 })) == Ok::<OpV, Seq<char>>(OpV::EQ { name, value, ret: ret3 }),
{
    lemma_opcode_texts();
    let op = OpV::EQ { name, value, ret: ret3 };
    let body = render_body(op);
    assert(avoids("eq"@, ' '));
    assert(avoids("eq"@, ';'));
    lemma_body3("eq"@, name, value, ret3);
    assert(body =~= "eq"@ + seq![' '] + (data_fancy(name) + seq![' '] + (data_fancy(value)
        + seq![' '] + data_fancy(ret3))));
    lemma_value_text_round_trip(name);
    lemma_value_text_round_trip(value);
    lemma_value_text_round_trip(ret3);
    let toks = split_on(body, ' ');
    assert(toks == seq!["eq"@, data_fancy(name), data_fancy(value), data_fancy(ret3)]);
    lemma_chain_eq(body, toks, name, value, ret3);
}

#[verifier::rlimit(100)]
#[verifier::spinoff_prover]
proof fn lemma_line_rt_add(name: DataV, value: DataV, ret3: DataV)
    requires
        plain_data(name),
        plain_data(value),
        plain_data(ret3),
    ensures
        avoids(render_body(OpV::ADD { name, value, ret: ret3 }), ';'),
        trim_lead(render_body(OpV::ADD { name, value, ret: ret3 })) == render_body(OpV::ADD { name, value, ret: ret3 }),
        parse_ir_line(render_body(OpV::ADD { name, value, ret: ret3 })) == Ok::<OpV, Seq<char>>(OpV::ADD { name, value, ret: ret3 }),
{
    lemma_opcode_texts();
    let op = OpV::ADD { name, value, ret: ret3 };
    let body = render_body(op);
    assert(avoids("add"@, ' '));
    assert(avoids("add"@, ';'));
    lemma_body3("add"@, name, value, ret3);
    assert(body =~= "add"@ + seq![' '] + (data_fancy(name) + seq![' '] + (data_fancy(value)
        + seq![' '] + data_fancy(ret3))));
    lemma_value_text_round_trip(name);
    lemma_value_text_round_trip(value);
    lemma_value_text_round_trip(ret3);
    let toks = split_on(body, ' ');
    assert(toks == seq!["add"@, data_fancy(name), data_fancy(value), data_fancy(ret3)]);
    lemma_chain_add(body, toks, name, value, ret3);
}

#[verifier::rlimit(100)]
#[verifier::spinoff_prover]
proof fn lemma_line_rt_sub(name: DataV, value: DataV, ret3: DataV)
    requires
        plain_data(name),
        plain_data(value),
        plain_data(ret3),
    ensures
        avoids(render_body(OpV::SUB { name, value, ret: ret3 }), ';'),
        trim_lead(render_body(OpV::SUB { name, value, ret: ret3 })) == render_body(OpV::SUB { name, value, ret: ret3 }),
        parse_ir_line(render_body(OpV::SUB { name, value, ret: ret3 })) == Ok::<OpV, Seq<char>>(OpV::SUB { name, value, ret: ret3 }),
{
    lemma_opcode_texts();
    let op = OpV::SUB { name, value, ret: ret3 };
    let body = render_body(op);
    assert(avoids("sub"@, ' '));
    assert(avoids("sub"@, ';'));
    lemma_body3("sub"@, name, value, ret3);
    assert(body =~= "sub"@ + seq![' '] + (data_fancy(name) + seq![' '] + (data_fancy(value)
        + seq![' '] + data_fancy(ret3))));
    lemma_value_text_round_trip(name);
    lemma_value_text_round_trip(value);
    lemma_value_text_round_trip(ret3);
    let toks = split_on(body, ' ');
    assert(toks == seq!["sub"@, data_fancy(name), data_fancy(value), data_fancy(ret3)]);
    lemma_chain_sub(body, toks, name, value, ret3);
}

#[verifier::rlimit(100)]
#[verifier::spinoff_prover]
proof fn lemma_line_rt_mul(name: DataV, value: DataV, ret3: DataV)
    requires
        plain_data(name),
        plain_data(value),
        plain_data(ret3),
    ensures
        avoids(render_body(OpV::MUL { name, value, ret: ret3 }), ';'),
        trim_lead(render_body(OpV::MUL { name, value, ret: ret3 })) == render_body(OpV::MUL { name, value, ret: ret3 }),
        parse_ir_line(render_body(OpV::MUL { name, value, ret: ret3 })) == Ok::<OpV, Seq<char>>(OpV::MUL { name, value, ret: ret3 }),
{
    lemma_opcode_texts();
    let op = OpV::MUL { name, value, ret: ret3 };
    let body = render_body(op);
    assert(avoids("mul"@, ' '));
    assert(avoids("mul"@, ';'));
    lemma_body3("mul"@, name, value, ret3);
    assert(body =~= "mul"@ + seq![' '] + (data_fancy(name) + seq![' '] + (data_fancy(value)
        + seq![' '] + data_fancy(ret3))));
    lemma_value_text_round_trip(name);
    lemma_value_text_round_trip(value);
    lemma_value_text_round_trip(ret3);
    let toks = split_on(body, ' ');
    assert(toks == seq!["mul"@, data_fancy(name), data_fancy(value), data_fancy(ret3)]);
    lemma_chain_mul(body, toks, name, value, ret3);
}

#[verifier::rlimit(100)]
#[verifier::spinoff_prover]
proof fn lemma_line_rt_div(name: DataV, value: DataV, ret3: DataV)
    requires
        plain_data(name),
        plain_data(value),
        plain_data(ret3),
    ensures
        avoids(render_body(OpV::DIV { name, value, ret: ret3 }), ';'),
        trim_lead(render_body(OpV::DIV { name, value, ret: ret3 })) == render_body(OpV::DIV { name, value, ret: ret3 }),
        parse_ir_line(render_body(OpV::DIV { name, value, ret: ret3 })) == Ok::<OpV, Seq<char>>(OpV::DIV { name, value, ret: ret3 }),
{
    lemma_opcode_texts();
    let op = OpV::DIV { name, value, ret: ret3 };
    let body = render_body(op);
    assert(avoids("div"@, ' '));
    assert(avoids("div"@, ';'));
    lemma_body3("div"@, name, value, ret3);
    assert(body =~= "div"@ + seq![' '] + (data_fancy(name) + seq![' '] + (data_fancy(value)
        + seq![' '] + data_fancy(ret3))));
    lemma_value_text_round_trip(name);
    lemma_value_text_round_trip(value);
    lemma_value_text_round_trip(ret3);
    let toks = split_on(body, ' ');
    assert(toks == seq!["div"@, data_fancy(name), data_fancy(value), data_fancy(ret3)]);
    lemma_chain_div(body, toks, name, value, ret3);
}

/// A rendered line reads back as the instruction it came from: the line's
/// body is terminator-free, survives trimming, and parses to the same
/// instruction.
pub proof fn lemma_line_round_trip(op: OpV)
    requires
        renderable(op),
    ensures
        avoids(render_body(op), ';'),
        trim_lead(render_body(op)) == render_body(op),
        parse_ir_line(render_body(op)) == Ok::<OpV, Seq<char>>(op),
{
    match op {
        OpV::RET => lemma_line_rt_ret(),
        OpV::HALT => lemma_line_rt_halt(),
        OpV::POINT { name } => lemma_line_rt_point(name),
        OpV::JUMP { name } => lemma_line_rt_jump(name),
        OpV::PRINT { value } => lemma_line_rt_print(value),
        OpV::CALL { name } => lemma_line_rt_call(name),
        OpV::SET { name, value } => lemma_line_rt_set(name, value),
        OpV::JUMP_IF { name, condition } => lemma_line_rt_jumpif(name, condition),
        OpV::NOT { name, ret } => lemma_line_rt_not(name, ret),
        OpV::EQ { name, value, ret } => lemma_line_rt_eq(name, value, ret),
        OpV::ADD { name, value, ret } => lemma_line_rt_add(name, value, ret),
        OpV::SUB { name, value, ret } => lemma_line_rt_sub(name, value, ret),
        OpV::MUL { name, value, ret } => lemma_line_rt_mul(name, value, ret),
        OpV::DIV { name, value, ret } => lemma_line_rt_div(name, value, ret),
        _ => {
            assert(false);
        },
    }
}

/// Segments with equal trims read as the same instruction.
proof fn lemma_line_trim_equal(a: Seq<char>, b: Seq<char>)
    requires
        trim_lead(a) == trim_lead(b),
    ensures
        parse_ir_line(a) == parse_ir_line(b),
{
}

/// A blank segment reads as a single no-op.
proof fn lemma_parse_blank_segment()
    ensures
        parse_ir(seq![Seq::<char>::empty()]) == Ok::<Seq<OpV>, Seq<char>>(seq![OpV::NOP]),
{
    let segs = seq![Seq::<char>::empty()];
    let e = Seq::<char>::empty();
    assert(trim_lead(e) == e);
    assert(split_on(e, ' ') =~= seq![e]);
    assert(split_on(e, ' ')[0].len() == 0);
    assert(parse_ir_line(e) == Ok::<OpV, Seq<char>>(OpV::NOP));
    assert(segs.drop_first() =~= Seq::<Seq<char>>::empty());
    assert(parse_ir(segs.drop_first()) == Ok::<Seq<OpV>, Seq<char>>(Seq::empty()));
    assert(seq![OpV::NOP] + Seq::<OpV>::empty() =~= seq![OpV::NOP]);
}

/// The textual form is lossless: reading a rendered program back yields the
/// same instructions, followed by one no-op for the blank piece after the
/// final terminator.
#[verifier::rlimit(100)]
pub proof fn lemma_ir_text_round_trip(ops: Seq<OpV>)
    requires
        forall|i: int| 0 <= i < ops.len() ==> renderable(#[trigger] ops[i]),
    ensures
        parse_ir(split_on(render_ops(ops), ';')) == Ok::<Seq<OpV>, Seq<char>>(
            ops.push(OpV::NOP),
        ),
    decreases ops.len(),
{
    lemma_opcode_texts();
    if ops.len() == 0 {
        assert(render_ops(ops) == Seq::<char>::empty());
        assert(split_on(Seq::<char>::empty(), ';') =~= seq![Seq::<char>::empty()]);
        lemma_parse_blank_segment();
        assert(ops.push(OpV::NOP) =~= seq![OpV::NOP]);
    } else if ops.len() == 1 {
        let op = ops[0];
        lemma_line_round_trip(op);
        lemma_render_body(op);
        let body = render_body(op);
        assert(render_ops(ops) == render_op(op));
        assert(render_op(op) =~= body + seq![';'] + Seq::<char>::empty());
        lemma_split_concat(body, Seq::<char>::empty(), ';');
        assert(split_on(Seq::<char>::empty(), ';') =~= seq![Seq::<char>::empty()]);
        let segs = split_on(render_ops(ops), ';');
        assert(segs == seq![body] + seq![Seq::<char>::empty()]);
        assert(segs[0] == body);
        assert(segs.drop_first() =~= seq![Seq::<char>::empty()]);
        lemma_parse_blank_segment();
        assert(parse_ir(segs) == Ok::<Seq<OpV>, Seq<char>>(seq![op] + seq![OpV::NOP]));
        assert(seq![op] + seq![OpV::NOP] =~= ops.push(OpV::NOP));
    } else {
        let op = ops[0];
        let rest = ops.drop_first();
        assert(forall|i: int| 0 <= i < rest.len() ==> renderable(#[trigger] rest[i])) by {
            assert(forall|i: int| 0 <= i < rest.len() ==> rest[i] == ops[i + 1]);
        }
        lemma_ir_text_round_trip(rest);
        lemma_line_round_trip(op);
        lemma_render_body(op);
        let body = render_body(op);
        let tail = seq!['\n'] + render_ops(rest);
        assert(render_ops(ops) == render_op(op) + "\n"@ + render_ops(rest));
        assert(render_ops(ops) =~= body + seq![';'] + tail);
        lemma_split_concat(body, tail, ';');
        let segs = split_on(render_ops(ops), ';');
        let inner = split_on(tail, ';');
        assert(segs == seq![body] + inner);
        assert(tail[0] == '\n');
        lemma_split_cons(tail, ';');
        assert(tail.drop_first() =~= render_ops(rest));
        let s2 = split_on(render_ops(rest), ';');
        assert(inner == prepend_first(seq!['\n'], s2));
        assert(s2.len() >= 1);
        assert(inner == seq![seq!['\n'] + s2[0]] + s2.drop_first());
        lemma_trim_newline(s2[0]);
        lemma_line_trim_equal(seq!['\n'] + s2[0], s2[0]);
        assert(inner[0] == seq!['\n'] + s2[0]);
        assert(inner.drop_first() =~= s2.drop_first());
        assert(parse_ir(inner) == parse_ir(s2)) by {
            assert(parse_ir_line(inner[0]) == parse_ir_line(s2[0]));
        }
        assert(parse_ir(s2) == Ok::<Seq<OpV>, Seq<char>>(rest.push(OpV::NOP)));
        assert(segs[0] == body);
        assert(segs.drop_first() =~= inner);
        assert(parse_ir(segs) == Ok::<Seq<OpV>, Seq<char>>(seq![op] + rest.push(OpV::NOP)));
        assert(seq![op] + rest.push(OpV::NOP) =~= ops.push(OpV::NOP));
    }
}

} // verus!