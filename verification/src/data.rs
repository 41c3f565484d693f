//! The tagged value that flows through both the intermediate representation
//! and the runtime store, together with its textual forms.

use vstd::prelude::*;
use vstd::string::StrSliceExecFns;

verus! {

/// A runtime value: a number, a boolean, an address into the value store, or
/// a piece of text.
#[allow(non_camel_case_types)]
#[derive(Debug, Clone, PartialEq)]
pub enum DATA {
    Number(i32),
    Bool(bool),
    POINTER(i32),
    Text(String),
}

/// The mathematical model of a `DATA` value: text is a sequence of characters.
pub enum DataV {
    Number(i32),
    Bool(bool),
    Pointer(i32),
    Text(Seq<char>),
}

impl View for DATA {
    type V = DataV;

    open spec fn view(&self) -> DataV {
        match self {
            DATA::Number(n) => DataV::Number(*n),
            DATA::Bool(b) => DataV::Bool(*b),
            DATA::POINTER(p) => DataV::Pointer(*p),
            DATA::Text(s) => DataV::Text(s@),
        }
    }
}

/// Whether the value is text; arithmetic on text is a fatal condition.
pub open spec fn data_is_text(d: DataV) -> bool {
    d is Text
}

/// The numeric coercion: booleans become 0 or 1, addresses their number.
pub open spec fn data_i32(d: DataV) -> i32 {
    match d {
        DataV::Number(n) => n,
        DataV::Bool(b) => if b {
            1i32
        } else {
            0i32
        },
        DataV::Pointer(p) => p,
        DataV::Text(_) => arbitrary(),
    }
}

// ---------------------------------------------------------------------------
// Decimal text of an integer
// ---------------------------------------------------------------------------

/// The character for one decimal digit.
pub open spec fn digit_char(d: int) -> char {
    if d == 0 {
        '0'
    } else if d == 1 {
        '1'
    } else if d == 2 {
        '2'
    } else if d == 3 {
        '3'
    } else if d == 4 {
        '4'
    } else if d == 5 {
        '5'
    } else if d == 6 {
        '6'
    } else if d == 7 {
        '7'
    } else if d == 8 {
        '8'
    } else {
        '9'
    }
}

/// The decimal digits of a nonnegative integer, most significant first.
pub open spec fn dec_digits(n: nat) -> Seq<char>
    decreases n,
{
    if n < 10 {
        seq![digit_char(n as int)]
    } else {
        dec_digits(n / 10).push(digit_char((n % 10) as int))
    }
}

/// The decimal text of an integer, with a leading minus sign when negative.
pub open spec fn int_text(n: int) -> Seq<char> {
    if n < 0 {
        seq!['-'] + dec_digits((-n) as nat)
    } else {
        dec_digits(n as nat)
    }
}

/// Relies on String::push: appends exactly the given character to the string.
#[verifier::external_body]
pub(crate) fn push_char(s: &mut String, c: char)
    ensures
        final(s)@ == old(s)@.push(c),
{
    s.push(c);
}

/// The character for a digit below ten.
pub(crate) fn digit_to_char(d: u32) -> (c: char)
    requires
        d < 10,
    ensures
        c == digit_char(d as int),
{
    if d == 0 {
        '0'
    } else if d == 1 {
        '1'
    } else if d == 2 {
        '2'
    } else if d == 3 {
        '3'
    } else if d == 4 {
        '4'
    } else if d == 5 {
        '5'
    } else if d == 6 {
        '6'
    } else if d == 7 {
        '7'
    } else if d == 8 {
        '8'
    } else {
        '9'
    }
}

fn push_dec(s: &mut String, m: u32)
    ensures
        final(s)@ == old(s)@ + dec_digits(m as nat),
    decreases m,
{
    if m < 10 {
        push_char(s, digit_to_char(m));
        assert(final(s)@ =~= old(s)@ + dec_digits(m as nat));
    } else {
        push_dec(s, m / 10);
        push_char(s, digit_to_char(m % 10));
        assert(final(s)@ =~= old(s)@ + dec_digits(m as nat));
    }
}

/// The decimal text of a 32-bit integer.
pub fn int_to_text(n: i32) -> (s: String)
    ensures
        s@ == int_text(n as int),
{
    let mut s = String::new();
    if n < 0 {
        push_char(&mut s, '-');
        let m: u32 = if n == i32::MIN {
            2147483648u32
        } else {
            (-n) as u32
        };
        assert(m as nat == (-(n as int)) as nat);
        push_dec(&mut s, m);
        assert(s@ =~= int_text(n as int));
    } else {
        push_dec(&mut s, n as u32);
        assert(s@ =~= int_text(n as int));
    }
    s
}

// ---------------------------------------------------------------------------
// Reading an integer back from decimal text
// ---------------------------------------------------------------------------

/// Whether the character is a decimal digit.
pub open spec fn is_digit(c: char) -> bool {
    48 <= c as u32 <= 57
}

/// The numeric value of one digit character.
pub open spec fn digit_val(c: char) -> int {
    c as u32 - 48
}

/// Whether every character of the sequence is a decimal digit.
pub open spec fn all_digits(s: Seq<char>) -> bool {
    forall|i: int| 0 <= i < s.len() ==> is_digit(s[i])
}

/// The value of a sequence of decimal digits, most significant first.
pub open spec fn dec_val(s: Seq<char>) -> int
    decreases s.len(),
{
    if s.len() == 0 {
        0
    } else {
        dec_val(s.drop_last()) * 10 + digit_val(s.last())
    }
}

/// Whether the text has the shape of an integer: an optional sign followed by
/// at least one digit.
pub open spec fn int_shape(s: Seq<char>) -> bool {
    if s.len() == 0 {
        false
    } else if s[0] == '-' || s[0] == '+' {
        s.len() > 1 && all_digits(s.skip(1))
    } else {
        all_digits(s)
    }
}

/// The signed value of integer-shaped text.
pub open spec fn text_int_val(s: Seq<char>) -> int {
    if s.len() > 0 && s[0] == '-' {
        -dec_val(s.skip(1))
    } else if s.len() > 0 && s[0] == '+' {
        dec_val(s.skip(1))
    } else {
        dec_val(s)
    }
}

/// Whether the text denotes a 32-bit integer: right shape, value in range.
pub open spec fn text_is_i32(s: Seq<char>) -> bool {
    int_shape(s) && i32::MIN <= text_int_val(s) <= i32::MAX
}

pub proof fn lemma_dec_val_nonneg(s: Seq<char>)
    requires
        all_digits(s),
    ensures
        dec_val(s) >= 0,
    decreases s.len(),
{
    if s.len() > 0 {
        assert(all_digits(s.drop_last()));
        lemma_dec_val_nonneg(s.drop_last());
    }
}

/// A prefix of a digit string never has a larger value than the whole.
pub proof fn lemma_dec_val_prefix(s: Seq<char>, i: int)
    requires
        all_digits(s),
        0 <= i <= s.len(),
    ensures
        dec_val(s.take(i)) <= dec_val(s),
    decreases s.len() - i,
{
    if i < s.len() {
        lemma_dec_val_prefix(s, i + 1);
        assert(s.take(i + 1).drop_last() =~= s.take(i));
        assert(s.take(i + 1).last() == s[i]);
        assert(all_digits(s.take(i)));
        lemma_dec_val_nonneg(s.take(i));
        assert(dec_val(s.take(i + 1)) == dec_val(s.take(i)) * 10 + digit_val(s[i]));
        assert(dec_val(s.take(i)) * 10 >= dec_val(s.take(i))) by (nonlinear_arith)
            requires
                dec_val(s.take(i)) >= 0,
        ;
    } else {
        assert(s.take(i) =~= s);
    }
}

/// Reads a 32-bit integer from decimal text; `None` exactly when the text is
/// not the decimal form of an `i32`.
pub fn parse_i32(s: &str) -> (r: Option<i32>)
    ensures
        match r {
            Some(v) => text_is_i32(s@) && v as int == text_int_val(s@),
            None => !text_is_i32(s@),
        },
{
    let n = s.unicode_len();
    if n == 0 {
        return None;
    }
    let c0 = s.get_char(0);
    let neg = c0 == '-';
    let start: usize = if c0 == '-' || c0 == '+' {
        1
    } else {
        0
    };
    if start >= n {
        return None;
    }
    let ghost digits = if start == 1 {
        s@.skip(1)
    } else {
        s@
    };
    let mut acc: u64 = 0;
    let mut i: usize = start;
    while i < n
        invariant
            start <= i <= n,
            n == s@.len(),
            0 < n,
            start == 0 || start == 1,
            start == 1 ==> (s@[0] == '-' || s@[0] == '+'),
            start == 0 ==> !(s@[0] == '-' || s@[0] == '+'),
            digits == if start == 1 {
                s@.skip(1)
            } else {
                s@
            },
            all_digits(digits.take(i - start)),
            acc == dec_val(digits.take(i - start)),
            acc <= 2147483648,
        decreases n - i,
    {
        let c = s.get_char(i);
        let cv = c as u32;
        if cv < 48 || cv > 57 {
            assert(!is_digit(s@[i as int]));
            assert(!int_shape(s@)) by {
                if int_shape(s@) {
                    if start == 1 {
                        assert(is_digit(s@.skip(1)[i - 1]));
                    } else {
                        assert(is_digit(s@[i as int]));
                    }
                }
            }
            return None;
        }
        let d: u64 = (cv - 48) as u64;
        acc = acc * 10 + d;
        proof {
            assert(digits.take(i - start + 1).drop_last() =~= digits.take(i - start));
            assert(digits.take(i - start + 1).last() == digits[i - start]);
            assert(all_digits(digits.take(i - start + 1)));
        }
        if acc > 2147483648 {
            proof {
                if int_shape(s@) {
                    assert(all_digits(digits));
                    lemma_dec_val_prefix(digits, i + 1 - start);
                    lemma_dec_val_nonneg(digits.skip(1));
                    assert(dec_val(digits) >= acc);
                    assert(!(i32::MIN <= text_int_val(s@) <= i32::MAX));
                }
            }
            return None;
        }
        i += 1;
    }
    proof {
        assert(digits.take(i - start) =~= digits);
        assert(int_shape(s@));
    }
    if neg {
        if acc == 2147483648 {
            Some(i32::MIN)
        } else {
            Some(-((acc as u32) as i32))
        }
    } else {
        if acc > 2147483647 {
            proof {
                assert(text_int_val(s@) == dec_val(digits));
            }
            None
        } else {
            Some(acc as u32 as i32)
        }
    }
}

// ---------------------------------------------------------------------------
// Display forms
// ---------------------------------------------------------------------------

/// The plain display text of a value, as printing shows it: numbers and
/// addresses in decimal, booleans as `true`/`false`, text as itself.
pub open spec fn data_display(d: DataV) -> Seq<char> {
    match d {
        DataV::Number(n) => int_text(n as int),
        DataV::Bool(b) => if b {
            seq!['t', 'r', 'u', 'e']
        } else {
            seq!['f', 'a', 'l', 's', 'e']
        },
        DataV::Pointer(p) => int_text(p as int),
        DataV::Text(s) => s,
    }
}

/// The source-like text of a value: addresses as `&N`, text in quotes.
pub open spec fn data_fancy(d: DataV) -> Seq<char> {
    match d {
        DataV::Number(n) => int_text(n as int),
        DataV::Bool(b) => if b {
            seq!['t', 'r', 'u', 'e']
        } else {
            seq!['f', 'a', 'l', 's', 'e']
        },
        DataV::Pointer(p) => seq!['&'] + int_text(p as int),
        DataV::Text(s) => seq!['"'] + s + seq!['"'],
    }
}

fn bool_text(b: bool) -> (s: String)
    ensures
        s@ == (if b {
            seq!['t', 'r', 'u', 'e']
        } else {
            seq!['f', 'a', 'l', 's', 'e']
        }),
{
    let mut s = String::new();
    if b {
        push_char(&mut s, 't');
        push_char(&mut s, 'r');
        push_char(&mut s, 'u');
        push_char(&mut s, 'e');
        assert(s@ =~= seq!['t', 'r', 'u', 'e']);
    } else {
        push_char(&mut s, 'f');
        push_char(&mut s, 'a');
        push_char(&mut s, 'l');
        push_char(&mut s, 's');
        push_char(&mut s, 'e');
        assert(s@ =~= seq!['f', 'a', 'l', 's', 'e']);
    }
    s
}

impl DATA {
    /// A copy of this value, equal to it in the model.
    pub fn dup(&self) -> (r: DATA)
        ensures
            r@ == self@,
    {
        match self {
            DATA::Number(n) => DATA::Number(*n),
            DATA::Bool(b) => DATA::Bool(*b),
            DATA::POINTER(p) => DATA::POINTER(*p),
            DATA::Text(s) => DATA::Text(s.clone()),
        }
    }

    /// The plain display text of this value.
    pub fn to_string(&self) -> (s: String)
        ensures
            s@ == data_display(self@),
    {
        match self {
            DATA::Number(n) => int_to_text(*n),
            DATA::Bool(b) => bool_text(*b),
            DATA::POINTER(p) => int_to_text(*p),
            DATA::Text(s) => s.clone(),
        }
    }

    /// The source-like text of this value.
    pub fn fancy_string(&self) -> (s: String)
        ensures
            s@ == data_fancy(self@),
    {
        match self {
            DATA::Number(n) => int_to_text(*n),
            DATA::Bool(b) => bool_text(*b),
            DATA::POINTER(p) => {
                let mut s = String::new();
                push_char(&mut s, '&');
                let t = int_to_text(*p);
                s.append(t.as_str());
                assert(s@ =~= data_fancy(self@));
                s
            },
            DATA::Text(t) => {
                let mut s = String::new();
                push_char(&mut s, '"');
                s.append(t.as_str());
                push_char(&mut s, '"');
                assert(s@ =~= data_fancy(self@));
                s
            },
        }
    }
}

// ---------------------------------------------------------------------------
// Reading a value literal
// ---------------------------------------------------------------------------

/// The value a literal denotes, if it denotes one: quoted text, `&N` as an
/// address, `true`/`false`, or a decimal number.
pub open spec fn parse_literal(s: Seq<char>) -> Option<DataV> {
    if s.len() >= 1 && s[0] == '"' && s.last() == '"' {
        if s.len() >= 2 {
            Some(DataV::Text(s.subrange(1, s.len() - 1)))
        } else {
            None
        }
    } else if s.len() >= 1 && s[0] == '&' {
        if text_is_i32(s.skip(1)) {
            Some(DataV::Pointer(text_int_val(s.skip(1)) as i32))
        } else {
            None
        }
    } else if s =~= seq!['t', 'r', 'u', 'e'] {
        Some(DataV::Bool(true))
    } else if s =~= seq!['f', 'a', 'l', 's', 'e'] {
        Some(DataV::Bool(false))
    } else if text_is_i32(s) {
        Some(DataV::Number(text_int_val(s) as i32))
    } else {
        None
    }
}

/// Decimal digits carry their value: the digit string of a nonnegative
/// integer is nonempty, all digits, and reads back as the same integer.
pub proof fn lemma_dec_digits(m: nat)
    ensures
        dec_digits(m).len() >= 1,
        all_digits(dec_digits(m)),
        dec_val(dec_digits(m)) == m,
    decreases m,
{
    if m < 10 {
        let s = dec_digits(m);
        assert(s =~= seq![digit_char(m as int)]);
        assert(s.drop_last() =~= Seq::<char>::empty());
        assert(dec_val(Seq::<char>::empty()) == 0);
        assert(is_digit(digit_char(m as int)));
        assert(digit_val(digit_char(m as int)) == m);
        assert(s.last() == digit_char(m as int));
        assert(dec_val(s) == dec_val(s.drop_last()) * 10 + digit_val(s.last()));
    } else {
        lemma_dec_digits(m / 10);
        let front = dec_digits(m / 10);
        let s = dec_digits(m);
        assert(s == front.push(digit_char((m % 10) as int)));
        assert(s.drop_last() =~= front);
        assert(s.last() == digit_char((m % 10) as int));
        assert(is_digit(digit_char((m % 10) as int)));
        assert(digit_val(digit_char((m % 10) as int)) == m % 10);
        assert(all_digits(s)) by {
            assert(forall|i: int| 0 <= i < front.len() ==> s[i] == front[i]);
        }
        assert(dec_val(s) == dec_val(front) * 10 + (m % 10));
        vstd::arithmetic::div_mod::lemma_fundamental_div_mod(m as int, 10);
    }
}

/// The decimal text of a 32-bit integer reads back as the same integer.
pub proof fn lemma_int_text_round_trip(n: i32)
    ensures
        text_is_i32(int_text(n as int)),
        text_int_val(int_text(n as int)) == n as int,
{
    if n < 0 {
        let m = (-(n as int)) as nat;
        lemma_dec_digits(m);
        let s = int_text(n as int);
        assert(s == seq!['-'] + dec_digits(m));
        assert(s[0] == '-');
        assert(s.skip(1) =~= dec_digits(m));
        assert(int_shape(s));
        assert(text_int_val(s) == -dec_val(dec_digits(m)));
    } else {
        let m = (n as int) as nat;
        lemma_dec_digits(m);
        let s = int_text(n as int);
        assert(s == dec_digits(m));
        assert(is_digit(s[0]));
        assert(!(s[0] == '-' || s[0] == '+'));
        assert(int_shape(s));
        assert(text_int_val(s) == dec_val(dec_digits(m)));
    }
}

/// The textual form of a value is lossless: reading a value's source-like
/// text back yields the value itself, whatever the value.
pub proof fn lemma_value_text_round_trip(d: DataV)
    ensures
        parse_literal(data_fancy(d)) == Some(d),
{
    let s = data_fancy(d);
    match d {
        DataV::Text(t) => {
            assert(s == seq!['"'] + t + seq!['"']);
            assert(s.len() == t.len() + 2);
            assert(s[0] == '"');
            assert(s.last() == '"');
            assert(s.subrange(1, s.len() - 1) =~= t);
        },
        DataV::Pointer(p) => {
            lemma_int_text_round_trip(p);
            assert(s == seq!['&'] + int_text(p as int));
            assert(s[0] == '&');
            lemma_dec_digits_first(p as int);
            assert(s.last() == int_text(p as int).last());
            assert(is_digit(s.last()));
            assert(!(s.len() >= 1 && s[0] == '"' && s.last() == '"'));
            assert(s.skip(1) =~= int_text(p as int));
            assert(text_int_val(s.skip(1)) == p as int);
        },
        DataV::Bool(b) => {
            if b {
                assert(s =~= seq!['t', 'r', 'u', 'e']);
                assert(s[0] != '"' && s[0] != '&');
            } else {
                assert(s =~= seq!['f', 'a', 'l', 's', 'e']);
                assert(s[0] != '"' && s[0] != '&');
                assert(!(s =~= seq!['t', 'r', 'u', 'e']));
            }
        },
        DataV::Number(n) => {
            lemma_int_text_round_trip(n);
            assert(s == int_text(n as int));
            lemma_dec_digits_first(n as int);
            assert(s[0] == '-' || is_digit(s[0]));
            assert(s[0] != '"' && s[0] != '&');
            assert(is_digit(s.last()));
            assert(!(s.len() >= 1 && s[0] == '"' && s.last() == '"'));
            assert(!(s =~= seq!['t', 'r', 'u', 'e'])) by {
                if s =~= seq!['t', 'r', 'u', 'e'] {
                    assert(s[0] == 't');
                }
            }
            assert(!(s =~= seq!['f', 'a', 'l', 's', 'e'])) by {
                if s =~= seq!['f', 'a', 'l', 's', 'e'] {
                    assert(s[0] == 'f');
                }
            }
            assert(text_int_val(s) == n as int);
        },
    }
}

/// An integer's text holds nothing but a leading minus sign and digits.
pub proof fn lemma_int_text_chars(n: int)
    ensures
        forall|i: int|
            0 <= i < int_text(n).len() ==> int_text(n)[i] == '-' || is_digit(#[trigger] int_text(
                n,
            )[i]),
{
    if n < 0 {
        lemma_dec_digits((-n) as nat);
        let digits = dec_digits((-n) as nat);
        assert(int_text(n) == seq!['-'] + digits);
        assert(forall|i: int|
            1 <= i < int_text(n).len() ==> #[trigger] int_text(n)[i] == digits[i - 1]);
    } else {
        lemma_dec_digits(n as nat);
        assert(int_text(n) == dec_digits(n as nat));
    }
}

/// An integer's text begins with a minus sign or a digit and ends with a
/// digit.
proof fn lemma_dec_digits_first(n: int)
    ensures
        int_text(n).len() >= 1,
        n < 0 ==> int_text(n)[0] == '-',
        n >= 0 ==> is_digit(int_text(n)[0]),
        is_digit(int_text(n).last()),
    decreases (if n < 0 {
        -n
    } else {
        n
    }),
{
    if n < 0 {
        lemma_dec_digits((-n) as nat);
        let digits = dec_digits((-n) as nat);
        assert(int_text(n) == seq!['-'] + digits);
        assert(int_text(n).last() == digits.last());
        assert(is_digit(digits[digits.len() - 1]));
    } else {
        lemma_dec_digits(n as nat);
        let digits = dec_digits(n as nat);
        assert(int_text(n) == digits);
        assert(is_digit(digits[0]));
        assert(is_digit(digits[digits.len() - 1]));
    }
}

impl DATA {
    /// Reads a value literal; fails exactly on text that denotes none.
    pub fn from_string(s: String) -> (r: Result<DATA, String>)
        ensures
            match parse_literal(s@) {
                Some(d) => r matches Ok(v) && v@ == d,
                None => r matches Err(e) && e@ == s@,
            },
    {
        let n = s.as_str().unicode_len();
        if n >= 1 && s.as_str().get_char(0) == '"' && s.as_str().get_char(n - 1) == '"' {
            if n >= 2 {
                let inner = s.as_str().substring_char(1, n - 1).to_owned();
                Ok(DATA::Text(inner))
            } else {
                Err(s)
            }
        } else if n >= 1 && s.as_str().get_char(0) == '&' {
            let rest = s.as_str().substring_char(1, n);
            assert(rest@ =~= s@.skip(1));
            match parse_i32(rest) {
                Some(v) => Ok(DATA::POINTER(v)),
                None => Err(s),
            }
        } else {
            let is_true = n == 4 && s.as_str().get_char(0) == 't' && s.as_str().get_char(1) == 'r'
                && s.as_str().get_char(2) == 'u' && s.as_str().get_char(3) == 'e';
            let is_false = n == 5 && s.as_str().get_char(0) == 'f' && s.as_str().get_char(1) == 'a'
                && s.as_str().get_char(2) == 'l' && s.as_str().get_char(3) == 's' && s.as_str().get_char(
                4,
            ) == 'e';
            if is_true {
                assert(s@ =~= seq!['t', 'r', 'u', 'e']);
                Ok(DATA::Bool(true))
            } else if is_false {
                assert(s@ =~= seq!['f', 'a', 'l', 's', 'e']);
                Ok(DATA::Bool(false))
            } else {
                proof {
                    if s@ =~= seq!['t', 'r', 'u', 'e'] {
                        assert(is_true);
                    }
                    if s@ =~= seq!['f', 'a', 'l', 's', 'e'] {
                        assert(is_false);
                    }
                }
                match parse_i32(s.as_str()) {
                    Some(v) => Ok(DATA::Number(v)),
                    None => Err(s),
                }
            }
        }
    }
}

} // verus!
