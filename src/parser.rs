//! The parser from text to one value. Recognizers are tried in a fixed order:
//! integer, special word, string, symbol, bracketed form.
use vstd::prelude::*;

use crate::error::{ParseFault, ParserError};
use crate::semantics::fits_i32;
use crate::text::{chars_of, string_of};
use crate::value::{lemma_models, models, Quote, Symbol, SymbolModel, Value, ValueModel};

verus! {

pub open spec fn is_digit(c: char) -> bool {
    '0' <= c <= '9'
}

pub open spec fn digit_value(c: char) -> nat {
    (c as u32 - '0' as u32) as nat
}

/// The number that a string of decimal digits writes.
pub open spec fn digits_value(d: Seq<char>) -> nat
    decreases d.len(),
{
    if d.len() == 0 {
        0
    } else {
        digits_value(d.drop_last()) * 10 + digit_value(d.last())
    }
}

/// The length of a leading sign.
pub open spec fn sign_len(s: Seq<char>) -> int {
    if s.len() > 0 && (s[0] == '+' || s[0] == '-') {
        1
    } else {
        0
    }
}

/// `[+-]?[0-9]+`
pub open spec fn is_integer_text(s: Seq<char>) -> bool {
    &&& s.len() > sign_len(s)
    &&& forall|i: int| sign_len(s) <= i < s.len() ==> is_digit(#[trigger] s[i])
}

pub open spec fn integer_text_value(s: Seq<char>) -> int {
    let m = digits_value(s.subrange(sign_len(s), s.len() as int)) as int;
    if s[0] == '-' {
        -m
    } else {
        m
    }
}

/// An integer literal: its value where it fits in 32 signed bits.
pub open spec fn integer_text(s: Seq<char>) -> Result<ValueModel, ParseFault> {
    let v = integer_text_value(s);
    if fits_i32(v) {
        Ok(ValueModel::Integer(v as i32))
    } else {
        Err(ParseFault::IntegerOverflow)
    }
}

/// What an escape sequence `\c` stands for.
pub open spec fn unescape(c: char) -> Option<char> {
    if c == '"' {
        Some('"')
    } else if c == 'n' {
        Some('\n')
    } else if c == 't' {
        Some('\t')
    } else if c == '\\' {
        Some('\\')
    } else {
        None
    }
}

pub open spec fn is_string_text(s: Seq<char>) -> bool {
    s.len() >= 2 && s[0] == '"' && s.last() == '"'
}

pub open spec fn closed_early() -> Seq<char> {
    "String literal closed early"@
}

pub open spec fn unterminated() -> Seq<char> {
    "Reached the end of string literal"@
}

/// The rest of a string literal after its opening quote, with `acc` read so
/// far; `escaping` where a backslash came last.
pub open spec fn string_text(rest: Seq<char>, escaping: bool, acc: Seq<char>) -> Result<ValueModel, ParseFault>
    decreases rest.len(),
{
    if rest.len() == 0 {
        Err(ParseFault::MalformedInput(unterminated()))
    } else {
        let c = rest[0];
        if escaping {
            match unescape(c) {
                Some(d) => string_text(rest.drop_first(), false, acc.push(d)),
                None => Err(ParseFault::InvalidEscapeSequence(c)),
            }
        } else if c == '\\' {
            string_text(rest.drop_first(), true, acc)
        } else if c == '"' {
            if rest.len() == 1 {
                Ok(ValueModel::Str(acc))
            } else {
                Err(ParseFault::MalformedInput(closed_early()))
            }
        } else {
            string_text(rest.drop_first(), false, acc.push(c))
        }
    }
}

/// Letters, digits and the punctuation `! # $ % & * + - . / : ; < = > ? @ ^ _ ` ~ |`.
pub open spec fn is_symbol_char(c: char) -> bool {
    ||| 'a' <= c <= 'z'
    ||| 'A' <= c <= 'Z'
    ||| '0' <= c <= '9'
    ||| c == '!' || c == '#' || c == '$' || c == '%' || c == '&'
    ||| c == '*' || c == '+' || c == '-' || c == '.' || c == '/'
    ||| c == ':' || c == ';' || c == '<' || c == '=' || c == '>' || c == '?' || c == '@'
    ||| c == '^' || c == '_' || c == '`' || c == '~' || c == '|'
}

/// The length of a leading quote marker: `'` for Single, `,` for Eval.
pub open spec fn quote_len(s: Seq<char>) -> int {
    if s.len() > 0 && (s[0] == '\'' || s[0] == ',') {
        1
    } else {
        0
    }
}

pub open spec fn quote_of(s: Seq<char>) -> Quote {
    if s.len() > 0 && s[0] == '\'' {
        Quote::Single
    } else if s.len() > 0 && s[0] == ',' {
        Quote::Eval
    } else {
        Quote::Unquoted
    }
}

pub open spec fn is_symbol_text(s: Seq<char>) -> bool {
    &&& s.len() > quote_len(s)
    &&& forall|i: int| quote_len(s) <= i < s.len() ==> is_symbol_char(#[trigger] s[i])
}

/// A name longer than three characters that ends in `...` marks a rest
/// parameter.
pub open spec fn rest_marked(body: Seq<char>) -> bool {
    body.len() > 3 && body.subrange(body.len() - 3, body.len() as int) == seq!['.', '.', '.']
}

pub open spec fn symbol_text(s: Seq<char>) -> SymbolModel {
    let body = s.subrange(quote_len(s), s.len() as int);
    if rest_marked(body) {
        SymbolModel { name: body.subrange(0, body.len() - 3), quote: quote_of(s), rest: true }
    } else {
        SymbolModel { name: body, quote: quote_of(s), rest: false }
    }
}

pub open spec fn closer_of(c: char) -> char {
    if c == '(' {
        ')'
    } else {
        ']'
    }
}

/// Whether `s` from index `i` on closes the brackets in `stack` (expected
/// closers, innermost last) and its own, each by the right closer.
pub open spec fn balanced_from(s: Seq<char>, i: int, stack: Seq<char>) -> bool
    decreases s.len() - i,
{
    if i >= s.len() {
        stack.len() == 0
    } else if s[i] == '(' || s[i] == '[' {
        balanced_from(s, i + 1, stack.push(closer_of(s[i])))
    } else if s[i] == ')' || s[i] == ']' {
        stack.len() > 0 && stack.last() == s[i] && balanced_from(s, i + 1, stack.drop_last())
    } else {
        balanced_from(s, i + 1, stack)
    }
}

pub open spec fn is_bracket_text(s: Seq<char>) -> bool {
    s.len() >= 2 && (s[0] == '(' || s[0] == '[') && balanced_from(s, 0, Seq::empty())
}

/// Whitespace and closing brackets end a piece of a bracketed form.
pub open spec fn is_separator(c: char) -> bool {
    c == ' ' || c == '\t' || c == '\n' || c == '\r' || c == ')' || c == ']'
}

/// The elements of a bracketed form's interior `buffer` from index `i` on,
/// with `elements` read so far and `element` the piece being gathered. A
/// piece is parsed at each separator; where no recognizer takes it, the
/// separator joins it and gathering goes on. A piece left at the end is
/// dropped.
pub open spec fn elements_text(
    buffer: Seq<char>,
    i: int,
    elements: Seq<ValueModel>,
    element: Seq<char>,
) -> Result<Seq<ValueModel>, ParseFault>
    decreases buffer.len(), buffer.len() - i + 1,
{
    if i >= buffer.len() || i < 0 || element.len() > i {
        Ok(elements)
    } else {
        let c = buffer[i];
        if is_separator(c) {
            if element.len() == 0 {
                elements_text(buffer, i + 1, elements, element)
            } else {
                match parse_text(element) {
                    Ok(v) => elements_text(buffer, i + 1, elements.push(v), Seq::empty()),
                    Err(ParseFault::NoMatchingParser) => elements_text(buffer, i + 1, elements, element.push(c)),
                    Err(x) => Err(x),
                }
            }
        } else {
            elements_text(buffer, i + 1, elements, element.push(c))
        }
    }
}

/// What `s` parses to.
pub open spec fn parse_text(s: Seq<char>) -> Result<ValueModel, ParseFault>
    decreases s.len(), 0int,
{
    if is_integer_text(s) {
        integer_text(s)
    } else if s == seq!['t'] {
        Ok(ValueModel::T)
    } else if s == seq!['n', 'i', 'l'] {
        Ok(ValueModel::Nil)
    } else if is_string_text(s) {
        string_text(s.drop_first(), false, Seq::empty())
    } else if is_symbol_text(s) {
        Ok(ValueModel::Symbol(symbol_text(s)))
    } else if is_bracket_text(s) {
        match elements_text(s.drop_first(), 0, Seq::empty(), Seq::empty()) {
            Err(x) => Err(x),
            Ok(elements) => if s.last() == ')' {
                if elements.len() == 0 {
                    Err(ParseFault::EmptyFuncall)
                } else {
                    match elements[0] {
                        ValueModel::Symbol(head) => if head.quote == Quote::Unquoted {
                            Ok(ValueModel::Funcall(head, elements.drop_first()))
                        } else {
                            Err(ParseFault::InvalidFuncall)
                        },
                        _ => Err(ParseFault::InvalidFuncall),
                    }
                }
            } else {
                Ok(ValueModel::List(elements))
            },
        }
    } else {
        Err(ParseFault::NoMatchingParser)
    }
}

pub type ParserCheckResult = Result<(), ParserError>;

pub type ParserResult = Result<Value, ParserError>;

pub open spec fn parse_model(r: ParserResult) -> Result<ValueModel, ParseFault> {
    match r {
        Ok(v) => Ok(v.model()),
        Err(x) => Err(x.model()),
    }
}

/// A number read digit by digit never shrinks.
proof fn lemma_digits_prefix(d: Seq<char>, k: int)
    requires
        0 <= k <= d.len(),
    ensures
        digits_value(d.subrange(0, k)) <= digits_value(d),
    decreases d.len() - k,
{
    if k < d.len() {
        lemma_digits_prefix(d, k + 1);
        assert(d.subrange(0, k + 1).drop_last() =~= d.subrange(0, k));
    } else {
        assert(d.subrange(0, k) =~= d);
    }
}

fn is_integer(cs: &Vec<char>) -> (r: bool)
    ensures
        r == is_integer_text(cs@),
{
    let start: usize = if cs.len() > 0 && (cs[0] == '+' || cs[0] == '-') {
        1
    } else {
        0
    };
    if cs.len() <= start {
        return false;
    }
    let mut i: usize = start;
    while i < cs.len()
        invariant
            start == sign_len(cs@),
            start <= i <= cs@.len(),
            forall|j: int| start <= j < i ==> is_digit(#[trigger] cs@[j]),
        decreases cs@.len() - i,
    {
        if !('0' <= cs[i] && cs[i] <= '9') {
            return false;
        }
        i += 1;
    }
    true
}

/// The value of an integer literal, or the overflow error.
fn read_integer(cs: &Vec<char>) -> (r: Result<Value, ParserError>)
    requires
        is_integer_text(cs@),
    ensures
        parse_model(r) == integer_text(cs@),
{
    let start: usize = if cs[0] == '+' || cs[0] == '-' {
        1
    } else {
        0
    };
    let ghost d = cs@.subrange(start as int, cs@.len() as int);
    let mut m: u64 = 0;
    let mut i: usize = start;
    while i < cs.len()
        invariant
            start == sign_len(cs@),
            start <= i <= cs@.len(),
            is_integer_text(cs@),
            d == cs@.subrange(start as int, cs@.len() as int),
            m as nat == digits_value(cs@.subrange(start as int, i as int)),
            m <= 0x8000_0000,
        decreases cs@.len() - i,
    {
        assert(is_digit(cs@[i as int]));
        let digit = (cs[i] as u32 - '0' as u32) as u64;
        assert(cs@.subrange(start as int, i + 1).drop_last() =~= cs@.subrange(start as int, i as int));
        let next = m * 10 + digit;
        if next > 0x8000_0000 {
            proof {
                assert(cs@.subrange(start as int, i + 1) =~= d.subrange(0, i + 1 - start));
                lemma_digits_prefix(d, i + 1 - start);
            }
            return Err(ParserError::IntegerOverflow);
        }
        m = next;
        i += 1;
    }
    if cs[0] == '-' {
        Ok(Value::Integer((-(m as i64)) as i32))
    } else if m > 0x7fff_ffff {
        Err(ParserError::IntegerOverflow)
    } else {
        Ok(Value::Integer(m as i32))
    }
}

fn unescape_char(c: char) -> (r: Option<char>)
    ensures
        r == unescape(c),
{
    if c == '"' {
        Some('"')
    } else if c == 'n' {
        Some('\n')
    } else if c == 't' {
        Some('\t')
    } else if c == '\\' {
        Some('\\')
    } else {
        None
    }
}

/// A string literal, given that it starts and ends with a double quote.
fn read_string(cs: &Vec<char>) -> (r: Result<Value, ParserError>)
    requires
        is_string_text(cs@),
    ensures
        parse_model(r) == string_text(cs@.drop_first(), false, Seq::empty()),
{
    let ghost n = cs@.len() as int;
    assert(cs@.drop_first() =~= cs@.subrange(1, n));
    let mut acc: Vec<char> = Vec::new();
    let mut escaping = false;
    let mut i: usize = 1;
    while i < cs.len()
        invariant
            1 <= i <= cs@.len(),
            n == cs@.len(),
            string_text(cs@.drop_first(), false, Seq::empty()) == string_text(cs@.subrange(i as int, n), escaping, acc@),
        decreases cs@.len() - i,
    {
        let c = cs[i];
        let ghost rest = cs@.subrange(i as int, n);
        assert(rest[0] == c);
        assert(rest.drop_first() =~= cs@.subrange(i + 1, n));
        if escaping {
            match unescape_char(c) {
                Some(d) => {
                    acc.push(d);
                    escaping = false;
                },
                None => {
                    return Err(ParserError::InvalidEscapeSequence(c));
                },
            }
        } else if c == '\\' {
            escaping = true;
        } else if c == '"' {
            if i == cs.len() - 1 {
                return Ok(Value::String(string_of(&acc)));
            } else {
                return Err(ParserError::MalformedInput("String literal closed early".to_owned()));
            }
        } else {
            acc.push(c);
        }
        i += 1;
    }
    assert(cs@.subrange(i as int, n).len() == 0);
    Err(ParserError::MalformedInput("Reached the end of string literal".to_owned()))
}

fn is_symbol_char_exec(c: char) -> (r: bool)
    ensures
        r == is_symbol_char(c),
{
    ('a' <= c && c <= 'z') || ('A' <= c && c <= 'Z') || ('0' <= c && c <= '9') || c == '!'
        || c == '#' || c == '$' || c == '%' || c == '&' || c == '*' || c == '+' || c == '-'
        || c == '.' || c == '/' || c == ':' || c == ';' || c == '<' || c == '=' || c == '>'
        || c == '?' || c == '@' || c == '^' || c == '_' || c == '`' || c == '~' || c == '|'
}

fn is_symbol(cs: &Vec<char>) -> (r: bool)
    ensures
        r == is_symbol_text(cs@),
{
    let start: usize = if cs.len() > 0 && (cs[0] == '\'' || cs[0] == ',') {
        1
    } else {
        0
    };
    if cs.len() <= start {
        return false;
    }
    let mut i: usize = start;
    while i < cs.len()
        invariant
            start == quote_len(cs@),
            start <= i <= cs@.len(),
            forall|j: int| start <= j < i ==> is_symbol_char(#[trigger] cs@[j]),
        decreases cs@.len() - i,
    {
        if !is_symbol_char_exec(cs[i]) {
            return false;
        }
        i += 1;
    }
    true
}

/// The characters of `cs` from `from` to `to`.
fn chars_between(cs: &Vec<char>, from: usize, to: usize) -> (r: Vec<char>)
    requires
        from <= to <= cs@.len(),
    ensures
        r@ == cs@.subrange(from as int, to as int),
{
    let mut r: Vec<char> = Vec::new();
    let mut i: usize = from;
    while i < to
        invariant
            from <= i <= to,
            to <= cs@.len(),
            r@ == cs@.subrange(from as int, i as int),
        decreases to - i,
    {
        r.push(cs[i]);
        i += 1;
        assert(r@ =~= cs@.subrange(from as int, i as int));
    }
    r
}

/// A symbol literal, given that it is one.
fn read_symbol(cs: &Vec<char>) -> (r: Symbol)
    requires
        is_symbol_text(cs@),
    ensures
        r@ == symbol_text(cs@),
{
    let (start, quote) = if cs[0] == '\'' {
        (1, Quote::Single)
    } else if cs[0] == ',' {
        (1, Quote::Eval)
    } else {
        (0, Quote::Unquoted)
    };
    let n = cs.len();
    let ghost body = cs@.subrange(start as int, n as int);
    let rest = n - start > 3 && cs[n - 3] == '.' && cs[n - 2] == '.' && cs[n - 1] == '.';
    proof {
        if n - start > 3 {
            let tail = body.subrange(body.len() - 3, body.len() as int);
            assert(tail[0] == cs@[n - 3]);
            assert(tail[1] == cs@[n - 2]);
            assert(tail[2] == cs@[n - 1]);
            if rest {
                assert(tail =~= seq!['.', '.', '.']);
            }
        }
    }
    assert(rest == rest_marked(body));
    let end = if rest {
        n - 3
    } else {
        n
    };
    let name = chars_between(cs, start, end);
    assert(name@ =~= if rest { body.subrange(0, body.len() - 3) } else { body });
    Symbol::new(string_of(&name), quote, rest)
}

/// Whether every bracket of `cs` is closed by the right closer.
fn is_balanced(cs: &Vec<char>) -> (r: bool)
    ensures
        r == balanced_from(cs@, 0, Seq::empty()),
{
    let mut stack: Vec<char> = Vec::new();
    let mut i: usize = 0;
    while i < cs.len()
        invariant
            i <= cs@.len(),
            balanced_from(cs@, 0, Seq::empty()) == balanced_from(cs@, i as int, stack@),
        decreases cs@.len() - i,
    {
        let c = cs[i];
        if c == '(' {
            stack.push(')');
        } else if c == '[' {
            stack.push(']');
        } else if c == ')' || c == ']' {
            match stack.pop() {
                Some(expected) => {
                    if expected != c {
                        return false;
                    }
                },
                None => {
                    return false;
                },
            }
        }
        i += 1;
    }
    stack.len() == 0
}

fn is_separator_exec(c: char) -> (r: bool)
    ensures
        r == is_separator(c),
{
    c == ' ' || c == '\t' || c == '\n' || c == '\r' || c == ')' || c == ']'
}

/// A bracketed form, given that it is balanced and starts with a bracket.
fn read_bracket(cs: &Vec<char>) -> (r: Result<Value, ParserError>)
    requires
        is_bracket_text(cs@),
    ensures
        parse_model(r) == match elements_text(cs@.drop_first(), 0, Seq::empty(), Seq::empty()) {
            Err(x) => Err(x),
            Ok(elements) => if cs@.last() == ')' {
                if elements.len() == 0 {
                    Err(ParseFault::EmptyFuncall)
                } else {
                    match elements[0] {
                        ValueModel::Symbol(head) => if head.quote == Quote::Unquoted {
                            Ok(ValueModel::Funcall(head, elements.drop_first()))
                        } else {
                            Err(ParseFault::InvalidFuncall)
                        },
                        _ => Err(ParseFault::InvalidFuncall),
                    }
                }
            } else {
                Ok(ValueModel::List(elements))
            },
        },
    decreases cs@.len(), 0nat,
{
    let ghost buffer = cs@.drop_first();
    let mut elements: Vec<Value> = Vec::new();
    let mut element: Vec<char> = Vec::new();
    proof {
        lemma_models(elements@);
        assert(models(elements@) =~= Seq::<ValueModel>::empty());
        assert(element@ =~= Seq::<char>::empty());
    }
    let mut j: usize = 1;
    while j < cs.len()
        invariant
            1 <= j <= cs@.len(),
            buffer == cs@.drop_first(),
            element@.len() <= j - 1,
            elements_text(buffer, 0, Seq::empty(), Seq::empty())
                == elements_text(buffer, j - 1, models(elements@), element@),
        decreases cs@.len() - j,
    {
        let c = cs[j];
        assert(buffer[j - 1] == c);
        if is_separator_exec(c) {
            if element.len() > 0 {
                match parse_chars(&element) {
                    Ok(v) => {
                        let ghost before = models(elements@);
                        let ghost vm = v.model();
                        elements.push(v);
                        proof {
                            lemma_models(elements@);
                            assert(models(elements@) =~= before.push(vm));
                        }
                        element = Vec::new();
                    },
                    Err(ParserError::NoMatchingParser) => {
                        element.push(c);
                    },
                    Err(x) => {
                        return Err(x);
                    },
                }
            }
        } else {
            element.push(c);
        }
        j += 1;
    }
    let ghost found = models(elements@);
    proof {
        lemma_models(elements@);
        assert(elements_text(buffer, j - 1, found, element@) == Ok::<Seq<ValueModel>, ParseFault>(found));
    }
    if cs[cs.len() - 1] == ')' {
        if elements.len() == 0 {
            return Err(ParserError::EmptyFuncall);
        }
        let head = elements.remove(0);
        proof {
            lemma_models(elements@);
            assert(models(elements@) =~= found.drop_first());
            assert(head.model() == found[0]);
        }
        match head {
            Value::Symbol(symbol) => {
                if symbol.quote == Quote::Unquoted {
                    Ok(Value::Funcall(symbol, elements))
                } else {
                    Err(ParserError::InvalidFuncall)
                }
            },
            _ => Err(ParserError::InvalidFuncall),
        }
    } else {
        Ok(Value::List(elements))
    }
}

/// Parses the characters `cs`.
fn parse_chars(cs: &Vec<char>) -> (r: Result<Value, ParserError>)
    ensures
        parse_model(r) == parse_text(cs@),
    decreases cs@.len(), 1nat,
{
    if is_integer(cs) {
        return read_integer(cs);
    }
    if cs.len() == 1 && cs[0] == 't' {
        assert(cs@ =~= seq!['t']);
        return Ok(Value::T);
    }
    if cs.len() == 3 && cs[0] == 'n' && cs[1] == 'i' && cs[2] == 'l' {
        assert(cs@ =~= seq!['n', 'i', 'l']);
        return Ok(Value::Nil);
    }
    assert(cs@ != seq!['t']) by {
        if cs@ == seq!['t'] {
            assert(cs@[0] == 't');
        }
    }
    assert(cs@ != seq!['n', 'i', 'l']) by {
        if cs@ == seq!['n', 'i', 'l'] {
            assert(cs@[1] == 'i');
        }
    }
    if cs.len() >= 2 && cs[0] == '"' && cs[cs.len() - 1] == '"' {
        return read_string(cs);
    }
    if is_symbol(cs) {
        return Ok(Value::Symbol(read_symbol(cs)));
    }
    if cs.len() >= 2 && (cs[0] == '(' || cs[0] == '[') && is_balanced(cs) {
        return read_bracket(cs);
    }
    Err(ParserError::NoMatchingParser)
}

/// A recognizer of one kind of text: `has_next` says whether it takes a
/// text, and `parse` reads a text that it takes.
pub trait Parser {
    /// The texts that this recognizer takes.
    spec fn takes(&self, s: Seq<char>) -> bool;

    /// What this recognizer reads a text that it takes as.
    spec fn reads(&self, s: Seq<char>) -> Result<ValueModel, ParseFault>;

    fn has_next(&self, buffer: &String) -> (r: ParserCheckResult)
        ensures
            r is Ok <==> self.takes(buffer@),
    ;

    fn parse(&self, buffer: &String) -> (r: ParserResult)
        requires
            self.takes(buffer@),
        ensures
            parse_model(r) == self.reads(buffer@),
    ;
}

/// Integer literals: an optional sign and decimal digits.
pub struct IntegerParser;

/// The words `t` and `nil`.
pub struct SpecialParser;

/// String literals in double quotes.
pub struct StringParser;

/// Symbols, with an optional quote marker and rest marker.
pub struct SymbolParser;

/// Bracketed forms: calls in parentheses, lists in square brackets.
pub struct BracketParser;

impl IntegerParser {
    pub fn new() -> Self {
        IntegerParser
    }
}

impl SpecialParser {
    pub fn new() -> Self {
        SpecialParser
    }
}

impl StringParser {
    pub fn new() -> Self {
        StringParser
    }
}

impl SymbolParser {
    pub fn new() -> Self {
        SymbolParser
    }
}

impl BracketParser {
    pub fn new() -> Self {
        BracketParser
    }
}

impl Parser for IntegerParser {
    open spec fn takes(&self, s: Seq<char>) -> bool {
        is_integer_text(s)
    }

    open spec fn reads(&self, s: Seq<char>) -> Result<ValueModel, ParseFault> {
        integer_text(s)
    }

    fn has_next(&self, buffer: &String) -> (r: ParserCheckResult) {
        if is_integer(&chars_of(buffer.as_str())) {
            Ok(())
        } else {
            Err(ParserError::MalformedInput("Not an integer".to_owned()))
        }
    }

    fn parse(&self, buffer: &String) -> (r: ParserResult) {
        read_integer(&chars_of(buffer.as_str()))
    }
}

impl Parser for SpecialParser {
    open spec fn takes(&self, s: Seq<char>) -> bool {
        s == seq!['t'] || s == seq!['n', 'i', 'l']
    }

    open spec fn reads(&self, s: Seq<char>) -> Result<ValueModel, ParseFault> {
        if s == seq!['t'] {
            Ok(ValueModel::T)
        } else {
            Ok(ValueModel::Nil)
        }
    }

    fn has_next(&self, buffer: &String) -> (r: ParserCheckResult) {
        let cs = chars_of(buffer.as_str());
        if cs.len() == 1 && cs[0] == 't' {
            assert(cs@ =~= seq!['t']);
            Ok(())
        } else if cs.len() == 3 && cs[0] == 'n' && cs[1] == 'i' && cs[2] == 'l' {
            assert(cs@ =~= seq!['n', 'i', 'l']);
            Ok(())
        } else {
            assert(cs@ != seq!['t']) by {
                if cs@ == seq!['t'] {
                    assert(cs@[0] == 't');
                }
            }
            assert(cs@ != seq!['n', 'i', 'l']) by {
                if cs@ == seq!['n', 'i', 'l'] {
                    assert(cs@[1] == 'i');
                }
            }
            Err(ParserError::MalformedInput("Not a special token".to_owned()))
        }
    }

    fn parse(&self, buffer: &String) -> (r: ParserResult) {
        let cs = chars_of(buffer.as_str());
        if cs.len() == 1 {
            assert(cs@ =~= seq!['t']);
            Ok(Value::T)
        } else {
            assert(cs@ != seq!['t']);
            Ok(Value::Nil)
        }
    }
}

impl Parser for StringParser {
    open spec fn takes(&self, s: Seq<char>) -> bool {
        is_string_text(s)
    }

    open spec fn reads(&self, s: Seq<char>) -> Result<ValueModel, ParseFault> {
        string_text(s.drop_first(), false, Seq::empty())
    }

    fn has_next(&self, buffer: &String) -> (r: ParserCheckResult) {
        let cs = chars_of(buffer.as_str());
        if cs.len() >= 2 && cs[0] == '"' && cs[cs.len() - 1] == '"' {
            Ok(())
        } else {
            Err(ParserError::MalformedInput("Must be enclosed in double quotes".to_owned()))
        }
    }

    fn parse(&self, buffer: &String) -> (r: ParserResult) {
        read_string(&chars_of(buffer.as_str()))
    }
}

impl Parser for SymbolParser {
    open spec fn takes(&self, s: Seq<char>) -> bool {
        is_symbol_text(s)
    }

    open spec fn reads(&self, s: Seq<char>) -> Result<ValueModel, ParseFault> {
        Ok(ValueModel::Symbol(symbol_text(s)))
    }

    fn has_next(&self, buffer: &String) -> (r: ParserCheckResult) {
        if is_symbol(&chars_of(buffer.as_str())) {
            Ok(())
        } else {
            Err(ParserError::MalformedInput("Illegal characters in symbol name".to_owned()))
        }
    }

    fn parse(&self, buffer: &String) -> (r: ParserResult) {
        Ok(Value::Symbol(read_symbol(&chars_of(buffer.as_str()))))
    }
}

impl Parser for BracketParser {
    open spec fn takes(&self, s: Seq<char>) -> bool {
        is_bracket_text(s)
    }

    open spec fn reads(&self, s: Seq<char>) -> Result<ValueModel, ParseFault> {
        match elements_text(s.drop_first(), 0, Seq::empty(), Seq::empty()) {
            Err(x) => Err(x),
            Ok(elements) => if s.last() == ')' {
                if elements.len() == 0 {
                    Err(ParseFault::EmptyFuncall)
                } else {
                    match elements[0] {
                        ValueModel::Symbol(head) => if head.quote == Quote::Unquoted {
                            Ok(ValueModel::Funcall(head, elements.drop_first()))
                        } else {
                            Err(ParseFault::InvalidFuncall)
                        },
                        _ => Err(ParseFault::InvalidFuncall),
                    }
                }
            } else {
                Ok(ValueModel::List(elements))
            },
        }
    }

    fn has_next(&self, buffer: &String) -> (r: ParserCheckResult) {
        let cs = chars_of(buffer.as_str());
        if cs.len() < 2 {
            Err(ParserError::MalformedInput("Too short".to_owned()))
        } else if cs[0] != '(' && cs[0] != '[' {
            Err(ParserError::MalformedInput("Not a list".to_owned()))
        } else if !is_balanced(&cs) {
            Err(ParserError::UnmatchedParentheses)
        } else {
            Ok(())
        }
    }

    fn parse(&self, buffer: &String) -> (r: ParserResult) {
        read_bracket(&chars_of(buffer.as_str()))
    }
}

/// Parses one value from `buffer`: the first recognizer that takes it, in
/// the order integer, special word, string, symbol, bracketed form, reads it;
/// where none takes it, the result is `NoMatchingParser`.
pub fn parse(buffer: &String) -> (r: ParserResult)
    ensures
        parse_model(r) == parse_text(buffer@),
{
    let integer = IntegerParser::new();
    if integer.has_next(buffer).is_ok() {
        return integer.parse(buffer);
    }
    let special = SpecialParser::new();
    if special.has_next(buffer).is_ok() {
        return special.parse(buffer);
    }
    let string = StringParser::new();
    if string.has_next(buffer).is_ok() {
        return string.parse(buffer);
    }
    let symbol = SymbolParser::new();
    if symbol.has_next(buffer).is_ok() {
        return symbol.parse(buffer);
    }
    let bracket = BracketParser::new();
    if bracket.has_next(buffer).is_ok() {
        return bracket.parse(buffer);
    }
    Err(ParserError::NoMatchingParser)
}

} // verus!
