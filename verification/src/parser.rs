//! The front end: source text to statements. A bracket-matching pass groups
//! `;`-separated statements into nested blocks, and a prefix-operator reader
//! turns statement text into expressions.

use vstd::prelude::*;
use vstd::string::{StrSliceExecFns, StringExecFns};
use crate::compiler::{Expression, ExprV, Instruction, InstrV, exprs_view, insts_view, names_v,
    lemma_exprs_view, lemma_insts_view};
use crate::data::{push_char, parse_i32, text_is_i32, text_int_val};
use crate::easy::{find_char, lemma_find_char};

verus! {

// ---------------------------------------------------------------------------
// Character scanning
// ---------------------------------------------------------------------------

/// Whether the character occurs before any quote.
pub open spec fn contains_before_quote(s: Seq<char>, c: char) -> bool
    decreases s.len(),
{
    if s.len() == 0 {
        false
    } else if s[0] == c {
        true
    } else if s[0] == '"' {
        false
    } else {
        contains_before_quote(s.drop_first(), c)
    }
}

/// Whether the character occurs in the text at all, before any quote.
pub fn smart_contain(s: String, c: char) -> (r: bool)
    ensures
        r == contains_before_quote(s@, c),
{
    let n = s.as_str().unicode_len();
    let mut i: usize = 0;
    proof {
        assert(s@.skip(0) =~= s@);
    }
    loop
        invariant
            i <= n,
            n == s@.len(),
            contains_before_quote(s@, c) == contains_before_quote(s@.skip(i as int), c),
        decreases n - i,
    {
        if i >= n {
            proof {
                assert(s@.skip(i as int) =~= Seq::<char>::empty());
            }
            return false;
        }
        let ch = s.as_str().get_char(i);
        proof {
            assert(s@.skip(i as int)[0] == s@[i as int]);
            assert(s@.skip(i as int).drop_first() =~= s@.skip(i + 1));
        }
        if ch == c {
            return true;
        }
        if ch == '"' {
            return false;
        }
        i += 1;
    }
}

/// Splitting on a separator, honouring quotes and parentheses: a separator
/// inside quotes or inside parentheses does not split, quotes and parentheses
/// themselves are dropped from the pieces, and the separator is dropped too.
pub open spec fn smart_pieces(
    s: Seq<char>,
    c: char,
    quote: int,
    depth: int,
    cur: Seq<char>,
) -> Seq<Seq<char>>
    decreases s.len(),
{
    if s.len() == 0 {
        seq![cur]
    } else {
        let n = s[0];
        let rest = s.drop_first();
        if n == c && quote == 0 && depth == 0 {
            seq![cur] + smart_pieces(rest, c, quote, depth, Seq::empty())
        } else if n == '"' {
            smart_pieces(
                rest,
                c,
                if quote > 0 {
                    quote - 1
                } else {
                    quote + 1
                },
                depth,
                cur,
            )
        } else if n == '(' {
            smart_pieces(rest, c, quote, depth + 1, cur)
        } else if n == ')' {
            smart_pieces(rest, c, quote, depth - 1, cur)
        } else {
            smart_pieces(rest, c, quote, depth, cur.push(n))
        }
    }
}

/// Splits the text on the separator, honouring quotes and parentheses.
pub fn smart_split(s: String, c: char) -> (r: Vec<String>)
    ensures
        names_v(r@) == smart_pieces(s@, c, 0, 0, Seq::empty()),
{
    let n = s.as_str().unicode_len();
    let mut out: Vec<String> = Vec::new();
    let mut cur = String::new();
    let mut quote: i128 = 0;
    let mut depth: i128 = 0;
    let mut i: usize = 0;
    proof {
        assert(s@.skip(0) =~= s@);
        assert(names_v(out@) =~= Seq::<Seq<char>>::empty());
        assert(names_v(out@) + smart_pieces(s@, c, 0, 0, cur@) =~= smart_pieces(
            s@,
            c,
            0,
            0,
            cur@,
        ));
    }
    while i < n
        invariant
            i <= n,
            n == s@.len(),
            -(i as int) <= quote <= i as int,
            -(i as int) <= depth <= i as int,
            smart_pieces(s@, c, 0, 0, Seq::empty()) == names_v(out@) + smart_pieces(
                s@.skip(i as int),
                c,
                quote as int,
                depth as int,
                cur@,
            ),
        decreases n - i,
    {
        let ch = s.as_str().get_char(i);
        proof {
            assert(s@.skip(i as int)[0] == s@[i as int]);
            assert(s@.skip(i as int).drop_first() =~= s@.skip(i + 1));
        }
        if ch == c && quote == 0 && depth == 0 {
            let ghost outv = out@;
            let done = cur;
            cur = String::new();
            let ghost donev = done@;
            out.push(done);
            proof {
                assert(names_v(out@) =~= names_v(outv).push(donev));
                assert(names_v(outv) + (seq![donev] + smart_pieces(
                    s@.skip(i + 1),
                    c,
                    quote as int,
                    depth as int,
                    cur@,
                )) =~= names_v(out@) + smart_pieces(
                    s@.skip(i + 1),
                    c,
                    quote as int,
                    depth as int,
                    cur@,
                ));
            }
        } else if ch == '"' {
            if quote > 0 {
                quote = quote - 1;
            } else {
                quote = quote + 1;
            }
        } else if ch == '(' {
            depth = depth + 1;
        } else if ch == ')' {
            depth = depth - 1;
        } else {
            push_char(&mut cur, ch);
        }
        i += 1;
    }
    proof {
        assert(s@.skip(n as int) =~= Seq::<char>::empty());
    }
    let ghost outv = out@;
    let ghost curv = cur@;
    out.push(cur);
    proof {
        assert(names_v(out@) =~= names_v(outv).push(curv));
        assert(names_v(outv) + seq![curv] =~= names_v(outv).push(curv));
    }
    out
}

/// The text with spaces and line breaks outside quotes removed.
pub open spec fn trimmed(s: Seq<char>, in_quote: bool) -> Seq<char>
    decreases s.len(),
{
    if s.len() == 0 {
        Seq::empty()
    } else {
        let n = s[0];
        let q = if n == '"' {
            !in_quote
        } else {
            in_quote
        };
        if (n == ' ' || n == '\n') && !q {
            trimmed(s.drop_first(), q)
        } else {
            seq![n] + trimmed(s.drop_first(), q)
        }
    }
}

/// Removes spaces and line breaks that stand outside quotes.
pub fn smart_trim(s: String) -> (r: String)
    ensures
        r@ == trimmed(s@, false),
{
    let n = s.as_str().unicode_len();
    let mut out = String::new();
    let mut in_quote = false;
    let mut i: usize = 0;
    proof {
        assert(s@.skip(0) =~= s@);
        assert(out@ + trimmed(s@, false) =~= trimmed(s@, false));
    }
    while i < n
        invariant
            i <= n,
            n == s@.len(),
            trimmed(s@, false) == out@ + trimmed(s@.skip(i as int), in_quote),
        decreases n - i,
    {
        let ch = s.as_str().get_char(i);
        proof {
            assert(s@.skip(i as int)[0] == s@[i as int]);
            assert(s@.skip(i as int).drop_first() =~= s@.skip(i + 1));
        }
        let q = if ch == '"' {
            !in_quote
        } else {
            in_quote
        };
        if (ch == ' ' || ch == '\n') && !q {
        } else {
            let ghost outv = out@;
            push_char(&mut out, ch);
            proof {
                assert(outv + (seq![ch] + trimmed(s@.skip(i + 1), q)) =~= out@ + trimmed(
                    s@.skip(i + 1),
                    q,
                ));
            }
        }
        in_quote = q;
        i += 1;
    }
    proof {
        assert(s@.skip(n as int) =~= Seq::<char>::empty());
        assert(out@ + trimmed(s@.skip(n as int), in_quote) =~= out@);
    }
    out
}

// ---------------------------------------------------------------------------
// Expressions from text
// ---------------------------------------------------------------------------

/// The joint length of a list of texts, one extra for each piece.
pub open spec fn texts_len(ps: Seq<Seq<char>>) -> nat
    decreases ps.len(),
{
    if ps.len() == 0 {
        0
    } else {
        ps[0].len() + 1 + texts_len(ps.drop_first())
    }
}

proof fn lemma_smart_pieces_len(s: Seq<char>, c: char, quote: int, depth: int, cur: Seq<char>)
    ensures
        texts_len(smart_pieces(s, c, quote, depth, cur)) <= cur.len() + s.len() + 1,
    decreases s.len(),
{
    assert(texts_len(Seq::<Seq<char>>::empty()) == 0);
    if s.len() == 0 {
        let r = smart_pieces(s, c, quote, depth, cur);
        assert(r[0] == cur);
        assert(r.drop_first() =~= Seq::<Seq<char>>::empty());
        assert(texts_len(r) == cur.len() + 1);
    } else {
        let n = s[0];
        let rest = s.drop_first();
        if n == c && quote == 0 && depth == 0 {
            lemma_smart_pieces_len(rest, c, quote, depth, Seq::empty());
            let inner = smart_pieces(rest, c, quote, depth, Seq::empty());
            let r = seq![cur] + inner;
            assert(r[0] == cur);
            assert(r.drop_first() =~= inner);
        } else if n == '"' {
            lemma_smart_pieces_len(
                rest,
                c,
                if quote > 0 {
                    quote - 1
                } else {
                    quote + 1
                },
                depth,
                cur,
            );
        } else if n == '(' {
            lemma_smart_pieces_len(rest, c, quote, depth + 1, cur);
        } else if n == ')' {
            lemma_smart_pieces_len(rest, c, quote, depth - 1, cur);
        } else {
            lemma_smart_pieces_len(rest, c, quote, depth, cur.push(n));
        }
    }
}

proof fn lemma_texts_len_piece(ps: Seq<Seq<char>>, k: int)
    requires
        0 <= k < ps.len(),
    ensures
        ps[k].len() + 1 <= texts_len(ps),
    decreases ps.len(),
{
    if k > 0 {
        lemma_texts_len_piece(ps.drop_first(), k - 1);
    }
}

proof fn lemma_cbq_find(s: Seq<char>, c: char)
    requires
        contains_before_quote(s, c),
    ensures
        0 <= find_char(s, c) < s.len(),
    decreases s.len(),
{
    if s.len() > 0 && s[0] != c {
        lemma_cbq_find(s.drop_first(), c);
    }
}

/// An expression read from statement text: a name followed by parenthesised
/// arguments is a call; a leading `+`, `-`, `*`, `/`, `>`, `==` or `!` takes
/// comma-separated operands; then integer, boolean and quoted literals; any
/// other text names a variable.
pub open spec fn expr_of_text(s: Seq<char>) -> Option<ExprV>
    decreases s.len(), 1int,
    via expr_of_text_dec
{
    if contains_before_quote(s, '(') {
        let pos = find_char(s, '(');
        if pos + 1 > s.len() - 1 {
            None
        } else {
            let name = s.take(pos);
            let pieces = smart_pieces(s.subrange(pos + 1, s.len() - 1), ',', 0, 0, Seq::empty());
            match exprs_of_texts(pieces) {
                Some(args) => Some(ExprV::CALL(name, args)),
                None => None,
            }
        }
    } else if s.len() >= 1 && s[0] == '+' {
        match two_sub(s.skip(1)) {
            Some(p) => Some(ExprV::Add(Box::new(p.0), Box::new(p.1))),
            None => None,
        }
    } else if s.len() >= 1 && s[0] == '-' {
        match two_sub(s.skip(1)) {
            Some(p) => Some(ExprV::Sub(Box::new(p.0), Box::new(p.1))),
            None => None,
        }
    } else if s.len() >= 1 && s[0] == '*' {
        match two_sub(s.skip(1)) {
            Some(p) => Some(ExprV::Mul(Box::new(p.0), Box::new(p.1))),
            None => None,
        }
    } else if s.len() >= 1 && s[0] == '/' {
        match two_sub(s.skip(1)) {
            Some(p) => Some(ExprV::Div(Box::new(p.0), Box::new(p.1))),
            None => None,
        }
    } else if s.len() >= 1 && s[0] == '>' {
        match two_sub(s.skip(1)) {
            Some(p) => Some(ExprV::GREATER(Box::new(p.0), Box::new(p.1))),
            None => None,
        }
    } else if s.len() >= 2 && s[0] == '=' && s[1] == '=' {
        match two_sub(s.skip(2)) {
            Some(p) => Some(ExprV::EQ(Box::new(p.0), Box::new(p.1))),
            None => None,
        }
    } else if s.len() >= 1 && s[0] == '!' {
        match expr_of_text(s.skip(1)) {
            Some(e) => Some(ExprV::NOT(Box::new(e))),
            None => None,
        }
    } else if text_is_i32(s) {
        Some(ExprV::Number(text_int_val(s) as i32))
    } else if s == "false"@ {
        Some(ExprV::Bool(false))
    } else if s == "true"@ {
        Some(ExprV::Bool(true))
    } else if s.len() >= 1 && s[0] == '"' && s.last() == '"' {
        if s.len() >= 2 {
            Some(ExprV::Text(s.subrange(1, s.len() - 1)))
        } else {
            None
        }
    } else {
        Some(ExprV::Variable(s))
    }
}

/// Two comma-separated operands read from the text after an operator.
pub open spec fn two_sub(t: Seq<char>) -> Option<(ExprV, ExprV)>
    decreases t.len(), 2int,
    via two_sub_dec
{
    let pieces = smart_pieces(t, ',', 0, 0, Seq::empty());
    if pieces.len() == 2 {
        match (expr_of_text(pieces[0]), expr_of_text(pieces[1])) {
            (Some(l), Some(r)) => Some((l, r)),
            _ => None,
        }
    } else {
        None
    }
}

/// Expressions read from each text of the list; one bad text spoils all.
pub open spec fn exprs_of_texts(ps: Seq<Seq<char>>) -> Option<Seq<ExprV>>
    decreases texts_len(ps), 0int,
    via exprs_of_texts_dec
{
    if ps.len() == 0 {
        Some(Seq::empty())
    } else {
        match expr_of_text(ps[0]) {
            None => None,
            Some(e) => match exprs_of_texts(ps.drop_first()) {
                None => None,
                Some(rest) => Some(seq![e] + rest),
            },
        }
    }
}

#[via_fn]
proof fn expr_of_text_dec(s: Seq<char>) {
    if contains_before_quote(s, '(') {
        lemma_cbq_find(s, '(');
        let pos = find_char(s, '(');
        if pos + 1 <= s.len() - 1 {
            lemma_smart_pieces_len(s.subrange(pos + 1, s.len() - 1), ',', 0, 0, Seq::empty());
        }
    }
}

#[via_fn]
proof fn two_sub_dec(t: Seq<char>) {
    lemma_smart_pieces_len(t, ',', 0, 0, Seq::empty());
    let pieces = smart_pieces(t, ',', 0, 0, Seq::empty());
    if pieces.len() == 2 {
        lemma_texts_len_piece(pieces, 0);
        lemma_texts_len_piece(pieces, 1);
    }
}

#[via_fn]
proof fn exprs_of_texts_dec(ps: Seq<Seq<char>>) {
    if ps.len() > 0 {
        lemma_texts_len_piece(ps, 0);
    }
}

/// The position of the first occurrence of the character.
fn find_char_exec(s: &str, c: char) -> (r: Option<usize>)
    ensures
        match r {
            Some(p) => find_char(s@, c) == p as int && p < s@.len(),
            None => find_char(s@, c) < 0,
        },
{
    let n = s.unicode_len();
    let mut i: usize = 0;
    proof {
        assert(s@.skip(0) =~= s@);
    }
    loop
        invariant
            i <= n,
            n == s@.len(),
            find_char(s@, c) == (if find_char(s@.skip(i as int), c) < 0 {
                -1int
            } else {
                find_char(s@.skip(i as int), c) + i
            }),
        decreases n - i,
    {
        if i >= n {
            proof {
                assert(s@.skip(i as int) =~= Seq::<char>::empty());
            }
            return None;
        }
        let ch = s.get_char(i);
        proof {
            assert(s@.skip(i as int)[0] == s@[i as int]);
            assert(s@.skip(i as int).drop_first() =~= s@.skip(i + 1));
            lemma_find_char(s@.skip(i + 1), c);
        }
        if ch == c {
            return Some(i);
        }
        i += 1;
    }
}

/// Whether the text begins with the character.
fn first_is(s: &str, c: char) -> (r: bool)
    ensures
        r == (s@.len() >= 1 && s@[0] == c),
{
    if s.unicode_len() >= 1 {
        s.get_char(0) == c
    } else {
        false
    }
}

/// Whether the text equals the literal.
fn text_is(t: &String, lit: &str) -> (r: bool)
    ensures
        r == (t@ == lit@),
{
    let l = lit.to_owned();
    t.eq(&l)
}

/// Reads an expression from statement text, as `expr_of_text` describes;
/// text that reads as no expression gives nothing.
pub fn to_expression(input: String) -> (r: Option<Expression>)
    ensures
        match expr_of_text(input@) {
            Some(e) => r matches Some(x) && x@ == e,
            None => r is None,
        },
    decreases input@.len(), 1int,
{
    if smart_contain(input.clone(), '(') {
        proof {
            lemma_cbq_find(input@, '(');
        }
        let pos = match find_char_exec(input.as_str(), '(') {
            Some(p) => p,
            None => {
                proof {
                    assert(false);
                }
                return None;
            },
        };
        let n = input.as_str().unicode_len();
        if pos + 1 > n - 1 {
            return None;
        }
        let name = input.as_str().substring_char(0, pos).to_owned();
        proof {
            assert(name@ =~= input@.take(pos as int));
        }
        let argstext = input.as_str().substring_char(pos + 1, n - 1).to_owned();
        proof {
            assert(argstext@ =~= input@.subrange(pos + 1, input@.len() - 1));
            lemma_smart_pieces_len(argstext@, ',', 0, 0, Seq::empty());
        }
        let pieces = smart_split(argstext, ',');
        proof {
            assert(names_v(pieces@).skip(0) =~= names_v(pieces@));
        }
        match parse_expr_list(&pieces, 0) {
            Some(a) => Some(Expression::CALL(name, a)),
            None => None,
        }
    } else if first_is(input.as_str(), '+') {
        let t = tail_from(&input, 1);
        match two_sub_exec(t) {
            Some(p) => Some(Expression::Add(Box::new(p.0), Box::new(p.1))),
            None => None,
        }
    } else if first_is(input.as_str(), '-') {
        let t = tail_from(&input, 1);
        match two_sub_exec(t) {
            Some(p) => Some(Expression::Sub(Box::new(p.0), Box::new(p.1))),
            None => None,
        }
    } else if first_is(input.as_str(), '*') {
        let t = tail_from(&input, 1);
        match two_sub_exec(t) {
            Some(p) => Some(Expression::Mul(Box::new(p.0), Box::new(p.1))),
            None => None,
        }
    } else if first_is(input.as_str(), '/') {
        let t = tail_from(&input, 1);
        match two_sub_exec(t) {
            Some(p) => Some(Expression::Div(Box::new(p.0), Box::new(p.1))),
            None => None,
        }
    } else if first_is(input.as_str(), '>') {
        let t = tail_from(&input, 1);
        match two_sub_exec(t) {
            Some(p) => Some(Expression::GREATER(Box::new(p.0), Box::new(p.1))),
            None => None,
        }
    } else if input.as_str().unicode_len() >= 2 && input.as_str().get_char(0) == '='
        && input.as_str().get_char(1) == '=' {
        let t = tail_from(&input, 2);
        match two_sub_exec(t) {
            Some(p) => Some(Expression::EQ(Box::new(p.0), Box::new(p.1))),
            None => None,
        }
    } else if first_is(input.as_str(), '!') {
        let t = tail_from(&input, 1);
        match to_expression(t) {
            Some(e) => Some(Expression::NOT(Box::new(e))),
            None => None,
        }
    } else {
        match parse_i32(input.as_str()) {
            Some(v) => Some(Expression::Number(v)),
            None => {
                if text_is(&input, "false") {
                    Some(Expression::Bool(false))
                } else if text_is(&input, "true") {
                    Some(Expression::Bool(true))
                } else {
                    let n = input.as_str().unicode_len();
                    if n >= 1 && input.as_str().get_char(0) == '"' && input.as_str().get_char(
                        n - 1,
                    ) == '"' {
                        if n >= 2 {
                            let inner = input.as_str().substring_char(1, n - 1).to_owned();
                            proof {
                                assert(inner@ =~= input@.subrange(1, input@.len() - 1));
                            }
                            Some(Expression::Text(inner))
                        } else {
                            None
                        }
                    } else {
                        Some(Expression::Variable(input))
                    }
                }
            },
        }
    }
}

/// The text from the given character position on.
fn tail_from(s: &String, k: usize) -> (r: String)
    requires
        k <= s@.len(),
    ensures
        r@ == s@.skip(k as int),
{
    let n = s.as_str().unicode_len();
    let r = s.as_str().substring_char(k, n).to_owned();
    proof {
        assert(r@ =~= s@.skip(k as int));
    }
    r
}

/// Two comma-separated operands, as `two_sub` describes.
fn two_sub_exec(t: String) -> (r: Option<(Expression, Expression)>)
    ensures
        match two_sub(t@) {
            Some(p) => r matches Some(x) && x.0@ == p.0 && x.1@ == p.1,
            None => r is None,
        },
    decreases t@.len(), 2int,
{
    let ghost tv = t@;
    proof {
        lemma_smart_pieces_len(tv, ',', 0, 0, Seq::empty());
    }
    let pieces = smart_split(t, ',');
    if pieces.len() == 2 {
        proof {
            assert(names_v(pieces@)[0] == pieces@[0]@);
            assert(names_v(pieces@)[1] == pieces@[1]@);
            lemma_texts_len_piece(names_v(pieces@), 0);
            lemma_texts_len_piece(names_v(pieces@), 1);
        }
        let l = match to_expression(pieces[0].clone()) {
            Some(l) => l,
            None => {
                return None;
            },
        };
        let r2 = match to_expression(pieces[1].clone()) {
            Some(r2) => r2,
            None => {
                return None;
            },
        };
        Some((l, r2))
    } else {
        None
    }
}

/// Expressions from each text of the list from position `i` on, as
/// `exprs_of_texts` describes.
fn parse_expr_list(pieces: &Vec<String>, i: usize) -> (r: Option<Vec<Expression>>)
    requires
        i <= pieces@.len(),
    ensures
        match exprs_of_texts(names_v(pieces@).skip(i as int)) {
            Some(es) => r matches Some(v) && exprs_view(v@) == es,
            None => r is None,
        },
    decreases texts_len(names_v(pieces@).skip(i as int)), 0int,
{
    if i >= pieces.len() {
        let r: Vec<Expression> = Vec::new();
        proof {
            assert(names_v(pieces@).skip(i as int) =~= Seq::<Seq<char>>::empty());
            assert(exprs_view(r@) =~= Seq::<ExprV>::empty());
        }
        Some(r)
    } else {
        let ghost whole = names_v(pieces@).skip(i as int);
        proof {
            assert(whole[0] == pieces@[i as int]@);
            assert(whole.drop_first() =~= names_v(pieces@).skip(i + 1));
            lemma_texts_len_piece(whole, 0);
        }
        let e = match to_expression(pieces[i].clone()) {
            Some(e) => e,
            None => {
                return None;
            },
        };
        let mut rest = match parse_expr_list(pieces, i + 1) {
            Some(v) => v,
            None => {
                return None;
            },
        };
        let ghost rv = rest@;
        let mut out: Vec<Expression> = Vec::new();
        out.push(e);
        out.append(&mut rest);
        proof {
            lemma_exprs_view(out@);
            lemma_exprs_view(rv);
            assert(exprs_view(out@) =~= seq![out@[0]@] + exprs_view(rv));
        }
        Some(out)
    }
}

// ---------------------------------------------------------------------------
// Grouping text into blocks
// ---------------------------------------------------------------------------

/// A grouping of source text: statements separated by `;`, with `{`-`}`
/// bracketed groups nested inside.
#[derive(Debug)]
pub enum Block {
    Block(Vec<Block>),
    Text(String),
}

/// The mathematical model of a grouping.
pub enum BlockV {
    Block(Seq<BlockV>),
    Text(Seq<char>),
}

/// The view of a list of groupings.
pub open spec fn blocks_view(s: Seq<Block>) -> Seq<BlockV>
    decreases s,
{
    if s.len() == 0 {
        Seq::empty()
    } else {
        blocks_view(s.drop_last()).push(s.last()@)
    }
}

/// The list view is the pointwise view.
pub proof fn lemma_blocks_view(s: Seq<Block>)
    ensures
        blocks_view(s).len() == s.len(),
        forall|i: int| 0 <= i < s.len() ==> blocks_view(s)[i] == s[i]@,
    decreases s,
{
    if s.len() > 0 {
        lemma_blocks_view(s.drop_last());
        assert(blocks_view(s) == blocks_view(s.drop_last()).push(s.last()@));
        assert(blocks_view(s).len() == s.len());
        assert forall|i: int| 0 <= i < s.len() implies blocks_view(s)[i] == s[i]@ by {
            if i < s.len() - 1 {
                assert(blocks_view(s)[i] == blocks_view(s.drop_last())[i]);
                assert(s.drop_last()[i] == s[i]);
            }
        }
    }
}

impl View for Block {
    type V = BlockV;

    open spec fn view(&self) -> BlockV
        decreases self,
    {
        match self {
            Block::Block(b) => BlockV::Block(blocks_view(b@)),
            Block::Text(s) => BlockV::Text(s@),
        }
    }
}

/// The text of a text grouping.
pub open spec fn text_of(b: BlockV) -> Seq<char> {
    match b {
        BlockV::Text(t) => t,
        _ => arbitrary(),
    }
}

/// The groupings with blank texts removed.
pub open spec fn drop_blanks(bs: Seq<BlockV>) -> Seq<BlockV>
    decreases bs.len(),
{
    if bs.len() == 0 {
        Seq::empty()
    } else {
        let front = drop_blanks(bs.drop_last());
        if bs.last() is Text && text_of(bs.last()).len() == 0 {
            front
        } else {
            front.push(bs.last())
        }
    }
}

/// The view of a stack of open groupings.
pub open spec fn stacks_view(s: Seq<Vec<Block>>) -> Seq<Seq<BlockV>>
    decreases s,
{
    if s.len() == 0 {
        Seq::empty()
    } else {
        stacks_view(s.drop_last()).push(blocks_view(s.last()@))
    }
}

/// Grouping source text, one character at a time: `{` opens a nested group,
/// `}` closes the innermost open group (at the top level it ends the whole
/// grouping, dropping what follows), `;` starts a new statement, and any
/// other character extends the current statement text. Blank statement texts
/// are dropped when a group closes, and groups left open at the end of the
/// text are closed.
pub open spec fn blockify(s: Seq<char>, stack: Seq<Seq<BlockV>>, acc: Seq<BlockV>) -> BlockV
    decreases s.len(), stack.len(),
{
    if s.len() == 0 {
        if stack.len() == 0 {
            BlockV::Block(drop_blanks(acc))
        } else {
            blockify(s, stack.drop_last(), stack.last().push(BlockV::Block(drop_blanks(acc))))
        }
    } else {
        let c = s[0];
        let rest = s.drop_first();
        if c == '{' {
            blockify(rest, stack.push(acc), seq![BlockV::Text(Seq::empty())])
        } else if c == '}' {
            if stack.len() == 0 {
                BlockV::Block(drop_blanks(acc))
            } else {
                blockify(
                    rest,
                    stack.drop_last(),
                    stack.last().push(BlockV::Block(drop_blanks(acc))),
                )
            }
        } else if c == ';' {
            blockify(rest, stack, acc.push(BlockV::Text(Seq::empty())))
        } else {
            if acc.len() > 0 && acc.last() is Text {
                blockify(
                    rest,
                    stack,
                    acc.drop_last().push(BlockV::Text(text_of(acc.last()).push(c))),
                )
            } else {
                blockify(rest, stack, acc.push(BlockV::Text(seq![c])))
            }
        }
    }
}

/// The groupings with blank texts removed.
fn filter_blocks(v: Vec<Block>) -> (r: Vec<Block>)
    ensures
        blocks_view(r@) == drop_blanks(blocks_view(v@)),
{
    let ghost orig = blocks_view(v@);
    proof {
        lemma_blocks_view(v@);
    }
    let mut v = v;
    let mut kept: Vec<Block> = Vec::new();
    let ghost j: int = 0;
    proof {
        assert(orig.take(0) =~= Seq::<BlockV>::empty());
        assert(blocks_view(kept@) =~= drop_blanks(orig.take(0)));
    }
    while v.len() > 0
        invariant
            0 <= j <= orig.len(),
            v@.len() == orig.len() - j,
            forall|k: int| 0 <= k < v@.len() ==> v@[k]@ == orig[j + k],
            blocks_view(kept@) == drop_blanks(orig.take(j)),
        decreases v@.len(),
    {
        proof {
            assert(orig.take(j + 1).drop_last() =~= orig.take(j));
            assert(orig.take(j + 1).last() == orig[j]);
            assert(v@[0]@ == orig[j]);
        }
        let blank = match &v[0] {
            Block::Text(t) => t.as_str().unicode_len() == 0,
            _ => false,
        };
        let ghost prevv = v@;
        let h = v.remove(0);
        proof {
            assert(v@ =~= prevv.skip(1));
            assert(forall|k: int| 0 <= k < v@.len() ==> v@[k] == prevv[k + 1]);
        }
        if !blank {
            let ghost prev = kept@;
            kept.push(h);
            proof {
                assert(kept@.drop_last() =~= prev);
                assert(blocks_view(kept@) =~= drop_blanks(orig.take(j)).push(orig[j]));
            }
        }
        proof {
            j = j + 1;
        }
    }
    proof {
        assert(orig.take(j) =~= orig);
    }
    kept
}

/// Groups the whole text, as `blockify` describes.
pub fn to_block(s: &str) -> (r: Block)
    ensures
        r@ == blockify(s@, Seq::empty(), seq![BlockV::Text(Seq::empty())]),
{
    let n = s.unicode_len();
    let mut stack: Vec<Vec<Block>> = Vec::new();
    let mut acc: Vec<Block> = Vec::new();
    acc.push(Block::Text(String::new()));
    let mut i: usize = 0;
    proof {
        assert(s@.skip(0) =~= s@);
        assert(stacks_view(stack@) =~= Seq::<Seq<BlockV>>::empty());
        lemma_blocks_view(acc@);
        assert(blocks_view(acc@) =~= seq![BlockV::Text(Seq::empty())]);
    }
    while i < n
        invariant
            i <= n,
            n == s@.len(),
            blockify(s@.skip(i as int), stacks_view(stack@), blocks_view(acc@)) == blockify(
                s@,
                Seq::empty(),
                seq![BlockV::Text(Seq::empty())],
            ),
        decreases n - i,
    {
        let c = s.get_char(i);
        let ghost av0 = blocks_view(acc@);
        let ghost sv0 = stacks_view(stack@);
        proof {
            assert(s@.skip(i as int)[0] == s@[i as int]);
            assert(s@.skip(i as int).drop_first() =~= s@.skip(i + 1));
        }
        if c == '{' {
            let ghost stv = stack@;
            let ghost accv = blocks_view(acc@);
            stack.push(acc);
            acc = Vec::new();
            acc.push(Block::Text(String::new()));
            proof {
                assert(stack@.drop_last() =~= stv);
                assert(stacks_view(stack@) =~= stacks_view(stv).push(accv));
                lemma_blocks_view(acc@);
                assert(blocks_view(acc@) =~= seq![BlockV::Text(Seq::empty())]);
                assert(blockify(s@.skip(i as int), sv0, av0) == blockify(
                    s@.skip(i + 1),
                    stacks_view(stack@),
                    blocks_view(acc@),
                ));
            }
        } else if c == '}' {
            let ghost accv = blocks_view(acc@);
            let ghost stv0 = stack@;
            let fb = filter_blocks(acc);
            match stack.pop() {
                Some(parent) => {
                    let ghost pv = blocks_view(parent@);
                    proof {
                        assert(stv0.drop_last() =~= stack@);
                        assert(stacks_view(stv0) == stacks_view(stack@).push(pv));
                    }
                    let mut parent = parent;
                    let ghost prevp = parent@;
                    let nb = Block::Block(fb);
                    proof {
                        assert(nb@ == BlockV::Block(drop_blanks(accv)));
                    }
                    parent.push(nb);
                    acc = parent;
                    proof {
                        assert(acc@.drop_last() =~= prevp);
                        assert(acc@.last()@ == BlockV::Block(drop_blanks(accv)));
                        assert(blocks_view(acc@) == blocks_view(acc@.drop_last()).push(
                            acc@.last()@,
                        ));
                        assert(blocks_view(acc@.drop_last()) == blocks_view(prevp));
                        assert(blocks_view(acc@) =~= pv.push(
                            BlockV::Block(drop_blanks(accv)),
                        ));
                        assert(accv == av0);
                        assert(sv0 == stacks_view(stack@).push(pv));
                        assert(sv0.len() > 0);
                        assert(sv0.drop_last() == stacks_view(stack@));
                        assert(sv0.last() == pv);
                        assert(blockify(s@.skip(i as int), sv0, av0) == blockify(
                            s@.skip(i + 1),
                            stacks_view(stack@),
                            blocks_view(acc@),
                        ));
                    }
                },
                None => {
                    proof {
                        assert(stacks_view(stack@).len() == 0);
                    }
                    return Block::Block(fb);
                },
            }
        } else if c == ';' {
            let ghost prev = acc@;
            acc.push(Block::Text(String::new()));
            proof {
                assert(acc@.drop_last() =~= prev);
                assert(blocks_view(acc@) == av0.push(BlockV::Text(Seq::empty())));
                assert(blockify(s@.skip(i as int), sv0, av0) == blockify(
                    s@.skip(i + 1),
                    stacks_view(stack@),
                    blocks_view(acc@),
                ));
            }
        } else {
            let ghost prevacc = acc@;
            let tail = acc.pop();
            match tail {
                Some(Block::Text(t)) => {
                    let ghost tv = t@;
                    let ghost accv = acc@;
                    proof {
                        assert(prevacc.last() == tail->Some_0);
                        assert(av0 == blocks_view(prevacc.drop_last()).push(
                            prevacc.last()@,
                        ));
                        assert(av0.last() == BlockV::Text(tv));
                        assert(accv =~= prevacc.drop_last());
                        assert(av0.drop_last() == blocks_view(accv));
                    }
                    let mut t = t;
                    push_char(&mut t, c);
                    acc.push(Block::Text(t));
                    proof {
                        assert(acc@.drop_last() =~= accv);
                        assert(acc@.last()@ == BlockV::Text(tv.push(c)));
                        assert(blocks_view(acc@) == blocks_view(acc@.drop_last()).push(
                            acc@.last()@,
                        ));
                        assert(blocks_view(acc@.drop_last()) == blocks_view(accv));
                        assert(blocks_view(acc@) == av0.drop_last().push(
                            BlockV::Text(tv.push(c)),
                        ));
                        assert(blockify(s@.skip(i as int), sv0, av0) == blockify(
                            s@.skip(i + 1),
                            stacks_view(stack@),
                            blocks_view(acc@),
                        ));
                    }
                },
                Some(b) => {
                    let ghost accv0 = acc@;
                    proof {
                        assert(prevacc.last() == tail->Some_0);
                        assert(av0 == blocks_view(prevacc.drop_last()).push(
                            prevacc.last()@,
                        ));
                        assert(!(av0.last() is Text));
                    }
                    acc.push(b);
                    let ghost accv1 = acc@;
                    let mut t = String::new();
                    push_char(&mut t, c);
                    acc.push(Block::Text(t));
                    proof {
                        assert(acc@.drop_last() =~= accv1);
                        assert(accv1.drop_last() =~= accv0);
                        assert(accv1 =~= prevacc);
                        assert(blocks_view(accv1) == av0);
                        assert(t@ =~= seq![c]);
                        assert(acc@.last()@ == BlockV::Text(seq![c]));
                        assert(blocks_view(acc@) == blocks_view(acc@.drop_last()).push(
                            acc@.last()@,
                        ));
                        assert(blocks_view(acc@.drop_last()) == blocks_view(accv1));
                        assert(blocks_view(acc@) == av0.push(BlockV::Text(seq![c])));
                        assert(blockify(s@.skip(i as int), sv0, av0) == blockify(
                            s@.skip(i + 1),
                            stacks_view(stack@),
                            blocks_view(acc@),
                        ));
                    }
                },
                None => {
                    proof {
                        assert(av0.len() == 0);
                    }
                    let mut t = String::new();
                    push_char(&mut t, c);
                    acc.push(Block::Text(t));
                    proof {
                        assert(acc@.drop_last() =~= Seq::<Block>::empty());
                        assert(t@ =~= seq![c]);
                        assert(acc@.last()@ == BlockV::Text(seq![c]));
                        assert(blocks_view(acc@) == blocks_view(acc@.drop_last()).push(
                            acc@.last()@,
                        ));
                        assert(blocks_view(Seq::<Block>::empty()) =~= Seq::<BlockV>::empty());
                        assert(av0 =~= Seq::<BlockV>::empty());
                        assert(blocks_view(acc@) =~= av0.push(BlockV::Text(seq![c])));
                        assert(blockify(s@.skip(i as int), sv0, av0) == blockify(
                            s@.skip(i + 1),
                            stacks_view(stack@),
                            blocks_view(acc@),
                        ));
                    }
                },
            }
        }
        i += 1;
    }
    proof {
        assert(s@.skip(n as int) =~= Seq::<char>::empty());
    }
    loop
        invariant
            blockify(
                Seq::<char>::empty(),
                stacks_view(stack@),
                blocks_view(acc@),
            ) == blockify(s@, Seq::empty(), seq![BlockV::Text(Seq::empty())]),
        decreases stack@.len(),
    {
        let ghost accv = blocks_view(acc@);
        let ghost stv0 = stack@;
        let ghost sv0 = stacks_view(stack@);
        let fb = filter_blocks(acc);
        match stack.pop() {
            Some(parent) => {
                let ghost pv = blocks_view(parent@);
                proof {
                    assert(stv0.drop_last() =~= stack@);
                    assert(stacks_view(stv0) == stacks_view(stack@).push(pv));
                }
                let mut parent = parent;
                let ghost prevp = parent@;
                let nb = Block::Block(fb);
                proof {
                    assert(nb@ == BlockV::Block(drop_blanks(accv)));
                }
                parent.push(nb);
                acc = parent;
                proof {
                    assert(acc@.drop_last() =~= prevp);
                    assert(acc@.last()@ == BlockV::Block(drop_blanks(accv)));
                    assert(blocks_view(acc@) == blocks_view(acc@.drop_last()).push(acc@.last()@));
                    assert(blocks_view(acc@.drop_last()) == blocks_view(prevp));
                    assert(blocks_view(acc@) =~= pv.push(BlockV::Block(drop_blanks(accv))));
                    assert(sv0 == stacks_view(stack@).push(pv));
                    assert(sv0.len() > 0);
                    assert(sv0.drop_last() == stacks_view(stack@));
                    assert(sv0.last() == pv);
                    assert(blockify(Seq::<char>::empty(), sv0, accv) == blockify(
                        Seq::<char>::empty(),
                        stacks_view(stack@),
                        blocks_view(acc@),
                    ));
                }
            },
            None => {
                proof {
                    assert(stacks_view(stack@).len() == 0);
                }
                return Block::Block(fb);
            },
        }
    }
}

impl Block {
    /// The inner groupings of a bracketed group; a statement text has none.
    pub fn into_vec(self) -> (r: Option<Vec<Block>>)
        ensures
            match self@ {
                BlockV::Block(bs) => r matches Some(v) && blocks_view(v@) == bs,
                BlockV::Text(_) => r is None,
            },
    {
        match self {
            Block::Block(b) => Some(b),
            Block::Text(_) => None,
        }
    }
}

// ---------------------------------------------------------------------------
// Statements from blocks
// ---------------------------------------------------------------------------

/// A fatal condition met while reading statements.
#[derive(Debug)]
pub enum ParseError {
    /// Text where an expression was expected read as none.
    BadExpression(String),
    /// A `while` or `if` head was not followed by a bracketed group.
    MissingBlock,
    /// A statement text that no statement form matches.
    UnknownStatement(String),
}

/// The model of a reading error.
pub enum PErrV {
    BadExpression(Seq<char>),
    MissingBlock,
    UnknownStatement(Seq<char>),
}

impl View for ParseError {
    type V = PErrV;

    open spec fn view(&self) -> PErrV {
        match self {
            ParseError::BadExpression(t) => PErrV::BadExpression(t@),
            ParseError::MissingBlock => PErrV::MissingBlock,
            ParseError::UnknownStatement(t) => PErrV::UnknownStatement(t@),
        }
    }
}

/// Whether the text begins with the prefix.
pub open spec fn text_has_prefix(s: Seq<char>, p: Seq<char>) -> bool {
    s.len() >= p.len() && s.take(p.len() as int) == p
}

/// The size of a grouping tree.
pub open spec fn blk_size(b: BlockV) -> nat
    decreases b,
{
    match b {
        BlockV::Text(_) => 1,
        BlockV::Block(bs) => 1 + blks_size(bs),
    }
}

/// The joint size of a list of groupings.
pub open spec fn blks_size(bs: Seq<BlockV>) -> nat
    decreases bs,
{
    if bs.len() == 0 {
        0
    } else {
        1 + blk_size(bs[0]) + blks_size(bs.drop_first())
    }
}

/// The inner groupings of a bracketed group.
pub open spec fn blocks_of(b: BlockV) -> Seq<BlockV> {
    match b {
        BlockV::Block(bs) => bs,
        _ => arbitrary(),
    }
}

/// The statements read from a list of groupings: a nested group contributes
/// its statements in place; a text is one statement. `print` takes an
/// expression; `let` binds, and is silently dropped when malformed; `while`
/// and `if` take their condition from the text and their body from the next
/// grouping; text with `=` assigns, and is silently dropped when malformed;
/// anything else is a fatal condition.
pub open spec fn stmts_of_blocks(b: Seq<BlockV>) -> Result<Seq<InstrV>, PErrV>
    decreases blks_size(b),
    via stmts_of_blocks_dec
{
    if b.len() == 0 {
        Ok(Seq::empty())
    } else {
        match b[0] {
            BlockV::Block(inner) => match stmts_of_blocks(inner) {
                Err(e) => Err(e),
                Ok(first) => match stmts_of_blocks(b.drop_first()) {
                    Err(e) => Err(e),
                    Ok(rest) => Ok(first + rest),
                },
            },
            BlockV::Text(s) => {
                if text_has_prefix(s, "print"@) {
                    let t = s.skip("print"@.len() as int);
                    match expr_of_text(t) {
                        None => Err(PErrV::BadExpression(t)),
                        Some(v) => match stmts_of_blocks(b.drop_first()) {
                            Err(e) => Err(e),
                            Ok(rest) => Ok(seq![InstrV::PRINT { value: v }] + rest),
                        },
                    }
                } else if text_has_prefix(s, "let"@) {
                    let pieces = smart_pieces(
                        s.skip("let"@.len() as int),
                        '=',
                        0,
                        0,
                        Seq::empty(),
                    );
                    if pieces.len() == 2 {
                        match expr_of_text(pieces[1]) {
                            Some(v) => match stmts_of_blocks(b.drop_first()) {
                                Err(e) => Err(e),
                                Ok(rest) => Ok(
                                    seq![InstrV::SET { name: pieces[0], value: v }] + rest,
                                ),
                            },
                            None => stmts_of_blocks(b.drop_first()),
                        }
                    } else {
                        stmts_of_blocks(b.drop_first())
                    }
                } else if text_has_prefix(s, "while"@) {
                    let t = s.skip("while"@.len() as int);
                    match expr_of_text(t) {
                        None => Err(PErrV::BadExpression(t)),
                        Some(c) => if b.len() < 2 || !(b[1] is Block) {
                            Err(PErrV::MissingBlock)
                        } else {
                            match stmts_of_blocks(blocks_of(b[1])) {
                                Err(e) => Err(e),
                                Ok(body) => match stmts_of_blocks(b.skip(2)) {
                                    Err(e) => Err(e),
                                    Ok(rest) => Ok(
                                        seq![InstrV::WHILE { condition: c, body }] + rest,
                                    ),
                                },
                            }
                        },
                    }
                } else if text_has_prefix(s, "if"@) {
                    let t = s.skip("if"@.len() as int);
                    match expr_of_text(t) {
                        None => Err(PErrV::BadExpression(t)),
                        Some(c) => if b.len() < 2 || !(b[1] is Block) {
                            Err(PErrV::MissingBlock)
                        } else {
                            match stmts_of_blocks(blocks_of(b[1])) {
                                Err(e) => Err(e),
                                Ok(body) => match stmts_of_blocks(b.skip(2)) {
                                    Err(e) => Err(e),
                                    Ok(rest) => Ok(
                                        seq![InstrV::IF { condition: c, body }] + rest,
                                    ),
                                },
                            }
                        },
                    }
                } else if find_char(s, '=') >= 0 {
                    let pieces = smart_pieces(s, '=', 0, 0, Seq::empty());
                    if pieces.len() == 2 {
                        match expr_of_text(pieces[1]) {
                            Some(v) => match stmts_of_blocks(b.drop_first()) {
                                Err(e) => Err(e),
                                Ok(rest) => Ok(
                                    seq![InstrV::ASSIGN { name: pieces[0], value: v }] + rest,
                                ),
                            },
                            None => stmts_of_blocks(b.drop_first()),
                        }
                    } else {
                        stmts_of_blocks(b.drop_first())
                    }
                } else {
                    Err(PErrV::UnknownStatement(s))
                }
            },
        }
    }
}

#[via_fn]
proof fn stmts_of_blocks_dec(b: Seq<BlockV>) {
    if b.len() > 0 {
        assert(blks_size(b) == 1 + blk_size(b[0]) + blks_size(b.drop_first()));
        match b[0] {
            BlockV::Block(inner) => {
                assert(blk_size(b[0]) == 1 + blks_size(inner));
            },
            _ => {},
        }
        if b.len() >= 2 {
            assert(b.drop_first()[0] == b[1]);
            assert(b.drop_first().drop_first() =~= b.skip(2));
            assert(blks_size(b.drop_first()) == 1 + blk_size(b[1]) + blks_size(b.skip(2)));
            match b[1] {
                BlockV::Block(inner) => {
                    assert(blk_size(b[1]) == 1 + blks_size(inner));
                },
                _ => {},
            }
        }
    }
}

/// Whether the text begins with the prefix.
fn has_prefix(s: &String, p: &str) -> (r: bool)
    ensures
        r == text_has_prefix(s@, p@),
{
    let sn = s.as_str().unicode_len();
    let pn = p.unicode_len();
    if sn < pn {
        return false;
    }
    let mut k: usize = 0;
    while k < pn
        invariant
            k <= pn,
            pn == p@.len(),
            sn == s@.len(),
            sn >= pn,
            forall|j: int| 0 <= j < k ==> s@[j] == p@[j],
        decreases pn - k,
    {
        if s.as_str().get_char(k) != p.get_char(k) {
            proof {
                assert(s@.take(p@.len() as int)[k as int] != p@[k as int]);
            }
            return false;
        }
        k += 1;
    }
    proof {
        assert(s@.take(p@.len() as int) =~= p@);
    }
    true
}

/// Reads the statements of a list of groupings, as `stmts_of_blocks`
/// describes.
pub fn parse_block(b: Vec<Block>) -> (r: Result<Vec<Instruction>, ParseError>)
    ensures
        match stmts_of_blocks(blocks_view(b@)) {
            Ok(is) => r matches Ok(v) && insts_view(v@) == is,
            Err(e) => r matches Err(e2) && e2@ == e,
        },
    decreases blks_size(blocks_view(b@)),
{
    let ghost whole = blocks_view(b@);
    proof {
        lemma_blocks_view(b@);
    }
    let mut b = b;
    if b.len() == 0 {
        let r: Vec<Instruction> = Vec::new();
        proof {
            assert(whole =~= Seq::<BlockV>::empty());
            assert(insts_view(r@) =~= Seq::<InstrV>::empty());
        }
        return Ok(r);
    }
    let ghost prevb = b@;
    let h = b.remove(0);
    proof {
        assert(h@ == whole[0]);
        assert(b@ =~= prevb.skip(1));
        lemma_blocks_view(b@);
        assert(blocks_view(b@) =~= whole.drop_first());
    }
    match h {
        Block::Block(inner) => {
            proof {
                assert(whole[0] == BlockV::Block(blocks_view(inner@)));
                assert(blks_size(whole) == 1 + blk_size(whole[0]) + blks_size(
                    whole.drop_first(),
                ));
                assert(blk_size(whole[0]) == 1 + blks_size(blocks_view(inner@)));
            }
            let mut first = match parse_block(inner) {
                Ok(v) => v,
                Err(e) => {
                    return Err(e);
                },
            };
            let ghost fv = first@;
            let mut rest = match parse_block(b) {
                Ok(v) => v,
                Err(e) => {
                    return Err(e);
                },
            };
            let ghost rv = rest@;
            first.append(&mut rest);
            proof {
                lemma_insts_view(first@);
                lemma_insts_view(fv);
                lemma_insts_view(rv);
                assert(insts_view(first@) =~= insts_view(fv) + insts_view(rv));
            }
            Ok(first)
        },
        Block::Text(s) => {
            if has_prefix(&s, "print") {
                let plen = "print".unicode_len();
                proof {
                    assert(plen == "print"@.len());
                }
                let t = tail_from(&s, plen);
                let v = match to_expression(t.clone()) {
                    Some(v) => v,
                    None => {
                        return Err(ParseError::BadExpression(t));
                    },
                };
                let mut out: Vec<Instruction> = Vec::new();
                out.push(Instruction::PRINT { value: v });
                let mut rest = match parse_block(b) {
                    Ok(v) => v,
                    Err(e) => {
                        return Err(e);
                    },
                };
                let ghost rv = rest@;
                out.append(&mut rest);
                proof {
                    lemma_insts_view(out@);
                    lemma_insts_view(rv);
                    assert(insts_view(out@) =~= seq![out@[0]@] + insts_view(rv));
                }
                Ok(out)
            } else if has_prefix(&s, "let") {
                let plen = "let".unicode_len();
                let t = tail_from(&s, plen);
                let pieces = smart_split(t, '=');
                if pieces.len() == 2 {
                    proof {
                        assert(names_v(pieces@)[0] == pieces@[0]@);
                        assert(names_v(pieces@)[1] == pieces@[1]@);
                    }
                    match to_expression(pieces[1].clone()) {
                        Some(v) => {
                            let mut out: Vec<Instruction> = Vec::new();
                            out.push(Instruction::SET { name: pieces[0].clone(), value: v });
                            let mut rest = match parse_block(b) {
                                Ok(v) => v,
                                Err(e) => {
                                    return Err(e);
                                },
                            };
                            let ghost rv = rest@;
                            out.append(&mut rest);
                            proof {
                                lemma_insts_view(out@);
                                lemma_insts_view(rv);
                                assert(insts_view(out@) =~= seq![out@[0]@] + insts_view(rv));
                            }
                            Ok(out)
                        },
                        None => parse_block(b),
                    }
                } else {
                    parse_block(b)
                }
            } else if has_prefix(&s, "while") {
                let plen = "while".unicode_len();
                let t = tail_from(&s, plen);
                let c = match to_expression(t.clone()) {
                    Some(c) => c,
                    None => {
                        return Err(ParseError::BadExpression(t));
                    },
                };
                if b.len() == 0 {
                    return Err(ParseError::MissingBlock);
                }
                let ghost prevb2 = b@;
                let nb = b.remove(0);
                proof {
                    assert(nb@ == whole[1]);
                    assert(b@ =~= prevb2.skip(1));
                    lemma_blocks_view(b@);
                    assert(blocks_view(b@) =~= whole.skip(2));
                }
                let inner = match nb {
                    Block::Block(inner) => inner,
                    Block::Text(_) => {
                        return Err(ParseError::MissingBlock);
                    },
                };
                proof {
                    assert(whole[1] == BlockV::Block(blocks_view(inner@)));
                    assert(whole.drop_first()[0] == whole[1]);
                    assert(whole.drop_first().drop_first() =~= whole.skip(2));
                    assert(blks_size(whole) == 1 + blk_size(whole[0]) + blks_size(
                        whole.drop_first(),
                    ));
                    assert(blks_size(whole.drop_first()) == 1 + blk_size(whole[1]) + blks_size(
                        whole.skip(2),
                    ));
                    assert(blk_size(whole[1]) == 1 + blks_size(blocks_view(inner@)));
                }
                let body = match parse_block(inner) {
                    Ok(v) => v,
                    Err(e) => {
                        return Err(e);
                    },
                };
                let mut out: Vec<Instruction> = Vec::new();
                out.push(Instruction::WHILE { condition: c, instruction: body });
                let mut rest = match parse_block(b) {
                    Ok(v) => v,
                    Err(e) => {
                        return Err(e);
                    },
                };
                let ghost rv = rest@;
                out.append(&mut rest);
                proof {
                    lemma_insts_view(out@);
                    lemma_insts_view(rv);
                    assert(insts_view(out@) =~= seq![out@[0]@] + insts_view(rv));
                }
                Ok(out)
            } else if has_prefix(&s, "if") {
                let plen = "if".unicode_len();
                let t = tail_from(&s, plen);
                let c = match to_expression(t.clone()) {
                    Some(c) => c,
                    None => {
                        return Err(ParseError::BadExpression(t));
                    },
                };
                if b.len() == 0 {
                    return Err(ParseError::MissingBlock);
                }
                let ghost prevb2 = b@;
                let nb = b.remove(0);
                proof {
                    assert(nb@ == whole[1]);
                    assert(b@ =~= prevb2.skip(1));
                    lemma_blocks_view(b@);
                    assert(blocks_view(b@) =~= whole.skip(2));
                }
                let inner = match nb {
                    Block::Block(inner) => inner,
                    Block::Text(_) => {
                        return Err(ParseError::MissingBlock);
                    },
                };
                proof {
                    assert(whole[1] == BlockV::Block(blocks_view(inner@)));
                    assert(whole.drop_first()[0] == whole[1]);
                    assert(whole.drop_first().drop_first() =~= whole.skip(2));
                    assert(blks_size(whole) == 1 + blk_size(whole[0]) + blks_size(
                        whole.drop_first(),
                    ));
                    assert(blks_size(whole.drop_first()) == 1 + blk_size(whole[1]) + blks_size(
                        whole.skip(2),
                    ));
                    assert(blk_size(whole[1]) == 1 + blks_size(blocks_view(inner@)));
                }
                let body = match parse_block(inner) {
                    Ok(v) => v,
                    Err(e) => {
                        return Err(e);
                    },
                };
                let mut out: Vec<Instruction> = Vec::new();
                out.push(Instruction::IF { condition: c, instruction: body });
                let mut rest = match parse_block(b) {
                    Ok(v) => v,
                    Err(e) => {
                        return Err(e);
                    },
                };
                let ghost rv = rest@;
                out.append(&mut rest);
                proof {
                    lemma_insts_view(out@);
                    lemma_insts_view(rv);
                    assert(insts_view(out@) =~= seq![out@[0]@] + insts_view(rv));
                }
                Ok(out)
            } else if match find_char_exec(s.as_str(), '=') {
                Some(_) => true,
                None => false,
            } {
                let pieces = smart_split(s, '=');
                if pieces.len() == 2 {
                    proof {
                        assert(names_v(pieces@)[0] == pieces@[0]@);
                        assert(names_v(pieces@)[1] == pieces@[1]@);
                    }
                    match to_expression(pieces[1].clone()) {
                        Some(v) => {
                            let mut out: Vec<Instruction> = Vec::new();
                            out.push(Instruction::ASSIGN { name: pieces[0].clone(), value: v });
                            let mut rest = match parse_block(b) {
                                Ok(v) => v,
                                Err(e) => {
                                    return Err(e);
                                },
                            };
                            let ghost rv = rest@;
                            out.append(&mut rest);
                            proof {
                                lemma_insts_view(out@);
                                lemma_insts_view(rv);
                                assert(insts_view(out@) =~= seq![out@[0]@] + insts_view(rv));
                            }
                            Ok(out)
                        },
                        None => parse_block(b),
                    }
                } else {
                    parse_block(b)
                }
            } else {
                Err(ParseError::UnknownStatement(s))
            }
        },
    }
}

/// The statements of a whole submission, as `parse` performs it: trim, group,
/// read.
pub open spec fn program_of_text(s: Seq<char>) -> Result<Seq<InstrV>, PErrV> {
    stmts_of_blocks(
        seq![
            blockify(trimmed(s, false), Seq::empty(), seq![BlockV::Text(Seq::empty())]),
        ],
    )
}

/// Reads a whole submission: trims it, groups it into blocks, and reads the
/// statements.
pub fn parse(s: String) -> (r: Result<Vec<Instruction>, ParseError>)
    ensures
        match program_of_text(s@) {
            Ok(is) => r matches Ok(v) && insts_view(v@) == is,
            Err(e) => r matches Err(e2) && e2@ == e,
        },
{
    let t = smart_trim(s);
    let block = to_block(t.as_str());
    let mut top: Vec<Block> = Vec::new();
    top.push(block);
    proof {
        lemma_blocks_view(top@);
        assert(blocks_view(top@) =~= seq![top@[0]@]);
    }
    parse_block(top)
}

} // verus!
