//! The lexer and parser for assembly source text.
//!
//! The source is scanned left to right, one character of lookahead, no
//! backtracking. A line beginning with a letter is a command (mnemonic, then
//! whitespace-separated argument tokens until newline or `;`); a line
//! beginning with `.` is a label (`:` characters inside the name are
//! dropped); a line beginning with `;` is a comment; blank lines are
//! skipped; any other leading character aborts parsing.
//!
//! Argument tokens are classified by their first character: a digit starts
//! a numeral, `"` a string literal (closing quote required), `.` a label
//! reference, `&` an absolute address literal.
//!
//! The whole grammar is stated as spec-level functions over the character
//! sequence ([`spec_parse`] and its helpers); the executable parser is
//! proved to return exactly what they say.

use vstd::prelude::*;
use vstd::string::StrSliceExecFns;
use vstd::string::StringExecFns;

verus! {

/// Whitespace inside a line.
pub open spec fn is_line_ws(c: char) -> bool {
    c == ' ' || c == '\t'
}

/// Whitespace including the line break.
pub open spec fn is_ws(c: char) -> bool {
    c == ' ' || c == '\t' || c == '\n'
}

/// An ASCII letter, the lead of a command line.
pub open spec fn is_letter(c: char) -> bool {
    ('a' <= c && c <= 'z') || ('A' <= c && c <= 'Z')
}

/// An ASCII digit.
pub open spec fn is_digit(c: char) -> bool {
    '0' <= c && c <= '9'
}

/// The first index at or past `i` that does not hold line whitespace.
pub open spec fn sk_line_ws(s: Seq<char>, i: nat) -> nat
    decreases s.len() - i,
{
    if i < s.len() && is_line_ws(s[i as int]) {
        sk_line_ws(s, (i + 1) as nat)
    } else {
        i
    }
}

/// The first index at or past `i` that does not hold whitespace.
pub open spec fn sk_ws(s: Seq<char>, i: nat) -> nat
    decreases s.len() - i,
{
    if i < s.len() && is_ws(s[i as int]) {
        sk_ws(s, (i + 1) as nat)
    } else {
        i
    }
}

/// Where a mnemonic ends: the next whitespace or the end of input.
pub open spec fn mn_end(s: Seq<char>, i: nat) -> nat
    decreases s.len() - i,
{
    if i < s.len() && !is_ws(s[i as int]) {
        mn_end(s, (i + 1) as nat)
    } else {
        i
    }
}

/// Where an argument token ends: the next whitespace, `;`, or the end of
/// input.
pub open spec fn arg_end(s: Seq<char>, i: nat) -> nat
    decreases s.len() - i,
{
    if i < s.len() && !is_ws(s[i as int]) && s[i as int] != ';' {
        arg_end(s, (i + 1) as nat)
    } else {
        i
    }
}

/// Where a label token ends: the next whitespace or the end of input.
pub open spec fn label_end(s: Seq<char>, i: nat) -> nat
    decreases s.len() - i,
{
    if i < s.len() && !is_ws(s[i as int]) {
        label_end(s, (i + 1) as nat)
    } else {
        i
    }
}

/// Where the line ends: the next newline or the end of input.
pub open spec fn line_end(s: Seq<char>, i: nat) -> nat
    decreases s.len() - i,
{
    if i < s.len() && s[i as int] != '\n' {
        line_end(s, (i + 1) as nat)
    } else {
        i
    }
}

/// The name with its cosmetic `:` separators dropped.
pub open spec fn strip_colons(s: Seq<char>) -> Seq<char>
    decreases s.len(),
{
    if s.len() == 0 {
        Seq::empty()
    } else {
        strip_colons(s.drop_last()) + (if s.last() == ':' {
            Seq::<char>::empty()
        } else {
            seq![s.last()]
        })
    }
}

/// The value of a run of decimal digits.
pub open spec fn dec_val(s: Seq<char>) -> nat
    decreases s.len(),
{
    if s.len() == 0 {
        0
    } else {
        (dec_val(s.drop_last()) * 10 + (s.last() as int - '0' as int)) as nat
    }
}

/// The scanners stay within the input and never move backwards.
pub proof fn lemma_sk_line_ws_bounds(s: Seq<char>, i: nat)
    requires
        i <= s.len(),
    ensures
        i <= sk_line_ws(s, i) <= s.len(),
    decreases s.len() - i,
{
    if i < s.len() && is_line_ws(s[i as int]) {
        lemma_sk_line_ws_bounds(s, (i + 1) as nat);
    }
}

pub proof fn lemma_sk_ws_bounds(s: Seq<char>, i: nat)
    requires
        i <= s.len(),
    ensures
        i <= sk_ws(s, i) <= s.len(),
    decreases s.len() - i,
{
    if i < s.len() && is_ws(s[i as int]) {
        lemma_sk_ws_bounds(s, (i + 1) as nat);
    }
}

pub proof fn lemma_mn_end_bounds(s: Seq<char>, i: nat)
    requires
        i <= s.len(),
    ensures
        i <= mn_end(s, i) <= s.len(),
    decreases s.len() - i,
{
    if i < s.len() && !is_ws(s[i as int]) {
        lemma_mn_end_bounds(s, (i + 1) as nat);
    }
}

pub proof fn lemma_arg_end_bounds(s: Seq<char>, i: nat)
    requires
        i <= s.len(),
    ensures
        i <= arg_end(s, i) <= s.len(),
    decreases s.len() - i,
{
    if i < s.len() && !is_ws(s[i as int]) && s[i as int] != ';' {
        lemma_arg_end_bounds(s, (i + 1) as nat);
    }
}

pub proof fn lemma_label_end_bounds(s: Seq<char>, i: nat)
    requires
        i <= s.len(),
    ensures
        i <= label_end(s, i) <= s.len(),
    decreases s.len() - i,
{
    if i < s.len() && !is_ws(s[i as int]) {
        lemma_label_end_bounds(s, (i + 1) as nat);
    }
}

pub proof fn lemma_line_end_bounds(s: Seq<char>, i: nat)
    requires
        i <= s.len(),
    ensures
        i <= line_end(s, i) <= s.len(),
    decreases s.len() - i,
{
    if i < s.len() && s[i as int] != '\n' {
        lemma_line_end_bounds(s, (i + 1) as nat);
    }
}

/// An operand literal as the lexer classifies it.
#[derive(Debug, Clone, PartialEq, Eq)]
pub enum Value {
    /// A label reference, kept verbatim (leading `.` included).
    Label(String),
    /// An absolute address literal, written `&digits`.
    Addr(u64),
    /// A numeral that fits a signed 64-bit integer.
    Int(i64),
    /// A numeral that only fits an unsigned 64-bit integer.
    Uint(u64),
    /// A quoted string literal, quotes removed.
    Str(String),
}

/// A syntax node. Nodes are produced in source order, which is program
/// order; `Tree` is the flat root holding them.
#[derive(Debug, PartialEq, Eq)]
pub enum AstNode {
    Tree(String, Vec<AstNode>),
    Cmd(String, Vec<Value>),
    Label(String),
    Comment(String),
}

/// A compile-time error, from the lexer, the parser, or the assembler. Any
/// one of these aborts the entire compilation with no partial output.
#[derive(Debug, Clone, PartialEq, Eq)]
pub enum CompileError {
    /// A line starts with a character that opens nothing, or a token starts
    /// with one that classifies as nothing.
    UnexpectedChar(char),
    /// A string literal with no closing quote.
    UnterminatedString(String),
    /// A digit-led token that is not a plain decimal numeral in range.
    MalformedNumeral(String),
    /// An `&`-led token that is not `&digits` in range.
    MalformedAddress(String),
    /// A command whose mnemonic names no instruction.
    UnknownMnemonic(String),
    /// A command with the wrong number of arguments: the mnemonic, the
    /// expected count, and the count found.
    WrongArgCount(String, u64, u64),
    /// An operand kind the mnemonic does not accept.
    UnsupportedOperand(String, Value),
    /// A label name defined twice.
    DuplicateLabel(String),
    /// A label referenced but never defined.
    UndefinedLabel(String),
    /// The program's encoded size left the 64-bit range.
    ProgramTooLarge,
}

/// The mathematical shadow of a [`Value`].
pub ghost enum GValue {
    Label(Seq<char>),
    Addr(u64),
    Int(i64),
    Uint(u64),
    Str(Seq<char>),
}

/// The mathematical shadow of a flat [`AstNode`].
pub ghost enum GNode {
    Cmd(Seq<char>, Seq<GValue>),
    Label(Seq<char>),
    Comment(Seq<char>),
}

/// The mathematical shadow of a [`CompileError`].
pub ghost enum GErr {
    UnexpectedChar(char),
    UnterminatedString(Seq<char>),
    MalformedNumeral(Seq<char>),
    MalformedAddress(Seq<char>),
    UnknownMnemonic(Seq<char>),
    WrongArgCount(Seq<char>, u64, u64),
    UnsupportedOperand(Seq<char>, GValue),
    DuplicateLabel(Seq<char>),
    UndefinedLabel(Seq<char>),
    ProgramTooLarge,
}

/// What a value is, mathematically.
pub open spec fn value_view(v: Value) -> GValue {
    match v {
        Value::Label(s) => GValue::Label(s@),
        Value::Addr(a) => GValue::Addr(a),
        Value::Int(n) => GValue::Int(n),
        Value::Uint(n) => GValue::Uint(n),
        Value::Str(s) => GValue::Str(s@),
    }
}

/// What a list of values is, mathematically.
pub open spec fn vals_view(vs: Seq<Value>) -> Seq<GValue> {
    Seq::new(vs.len(), |q: int| value_view(vs[q]))
}

/// What a flat node is, mathematically; the root `Tree` has no shadow.
pub open spec fn node_view(n: AstNode) -> Option<GNode> {
    match n {
        AstNode::Cmd(c, args) => Some(GNode::Cmd(c@, vals_view(args@))),
        AstNode::Label(s) => Some(GNode::Label(s@)),
        AstNode::Comment(s) => Some(GNode::Comment(s@)),
        AstNode::Tree(_, _) => None,
    }
}

/// What an error is, mathematically.
pub open spec fn err_view(e: CompileError) -> GErr {
    match e {
        CompileError::UnexpectedChar(c) => GErr::UnexpectedChar(c),
        CompileError::UnterminatedString(s) => GErr::UnterminatedString(s@),
        CompileError::MalformedNumeral(s) => GErr::MalformedNumeral(s@),
        CompileError::MalformedAddress(s) => GErr::MalformedAddress(s@),
        CompileError::UnknownMnemonic(s) => GErr::UnknownMnemonic(s@),
        CompileError::WrongArgCount(s, a, b) => GErr::WrongArgCount(s@, a, b),
        CompileError::UnsupportedOperand(s, v) => GErr::UnsupportedOperand(s@, value_view(v)),
        CompileError::DuplicateLabel(s) => GErr::DuplicateLabel(s@),
        CompileError::UndefinedLabel(s) => GErr::UndefinedLabel(s@),
        CompileError::ProgramTooLarge => GErr::ProgramTooLarge,
    }
}

/// How an argument token reads as a value, by its first character.
pub open spec fn value_of_token(t: Seq<char>) -> Result<GValue, GErr>
    recommends
        t.len() >= 1,
{
    let c0 = t[0];
    if is_digit(c0) {
        if forall|q: int| 0 <= q < t.len() ==> is_digit(#[trigger] t[q]) {
            let v = dec_val(t);
            if v <= i64::MAX as nat {
                Ok(GValue::Int(v as i64))
            } else if v <= u64::MAX as nat {
                Ok(GValue::Uint(v as u64))
            } else {
                Err(GErr::MalformedNumeral(t))
            }
        } else {
            Err(GErr::MalformedNumeral(t))
        }
    } else if c0 == '"' {
        if t.len() >= 2 && t.last() == '"' {
            Ok(GValue::Str(t.subrange(1, t.len() - 1)))
        } else {
            Err(GErr::UnterminatedString(t))
        }
    } else if c0 == '.' {
        Ok(GValue::Label(t))
    } else if c0 == '&' {
        let rest = t.subrange(1, t.len() as int);
        if rest.len() >= 1 && (forall|q: int| 0 <= q < rest.len() ==> is_digit(#[trigger] rest[q]))
            && dec_val(rest) <= u64::MAX as nat {
            Ok(GValue::Addr(dec_val(rest) as u64))
        } else {
            Err(GErr::MalformedAddress(t))
        }
    } else {
        Err(GErr::UnexpectedChar(c0))
    }
}

/// Parse a label line at `i` (which holds `.`): the name runs to the next
/// whitespace, `:` characters dropped; a space or tab terminator is
/// consumed together with any following whitespace.
pub open spec fn parse_label_at(s: Seq<char>, i: nat) -> (GNode, nat) {
    let e = label_end(s, i);
    let name = strip_colons(s.subrange(i as int, e as int));
    let next = if e == s.len() {
        e
    } else if s[e as int] == '\n' {
        (e + 1) as nat
    } else {
        sk_ws(s, (e + 1) as nat)
    };
    (GNode::Label(name), next)
}

/// Parse a comment line at `i` (which holds `;`): the body runs to the end
/// of the line; the newline is consumed.
pub open spec fn parse_comment_at(s: Seq<char>, i: nat) -> (GNode, nat) {
    let e = line_end(s, (i + 1) as nat);
    let body = s.subrange((i + 1) as int, e as int);
    let next = if e < s.len() {
        (e + 1) as nat
    } else {
        e
    };
    (GNode::Comment(body), next)
}

/// Parse the whitespace-separated argument tokens from `i` to the end of
/// the command (newline, `;`, or end of input, which is not consumed).
pub open spec fn parse_args_at(s: Seq<char>, i: nat) -> Result<(Seq<GValue>, nat), GErr>
    decreases s.len() - i,
    when i <= s.len()
    via parse_args_at_decreases
{
    let e = arg_end(s, i);
    if e == i {
        Ok((Seq::empty(), i))
    } else {
        match value_of_token(s.subrange(i as int, e as int)) {
            Err(g) => Err(g),
            Ok(v) => if e < s.len() && is_line_ws(s[e as int]) {
                match parse_args_at(s, sk_line_ws(s, e)) {
                    Err(g) => Err(g),
                    Ok((rest, k)) => Ok((seq![v] + rest, k)),
                }
            } else {
                Ok((seq![v], e))
            },
        }
    }
}

#[via_fn]
proof fn parse_args_at_decreases(s: Seq<char>, i: nat) {
    lemma_arg_end_bounds(s, i);
    let e = arg_end(s, i);
    if e != i && e < s.len() && is_line_ws(s[e as int]) {
        lemma_sk_line_ws_bounds(s, e);
    }
}

/// Parse a command line at `i` (which holds a letter): the mnemonic runs to
/// the next whitespace, then the argument tokens follow.
pub open spec fn parse_cmd_at(s: Seq<char>, i: nat) -> Result<(GNode, nat), GErr>
    recommends
        i <= s.len(),
{
    let e = mn_end(s, i);
    let name = s.subrange(i as int, e as int);
    match parse_args_at(s, sk_line_ws(s, e)) {
        Err(g) => Err(g),
        Ok((args, k)) => Ok((GNode::Cmd(name, args), k)),
    }
}

/// Parse the flat node list from `i`: dispatch on the first character of
/// each line, skipping whitespace between nodes.
pub open spec fn parse_nodes_at(s: Seq<char>, i: nat) -> Result<Seq<GNode>, GErr>
    decreases s.len() - i,
    when i <= s.len()
    via parse_nodes_at_decreases
{
    if i >= s.len() {
        Ok(Seq::empty())
    } else {
        let c = s[i as int];
        if c == '\n' {
            parse_nodes_at(s, (i + 1) as nat)
        } else if is_letter(c) {
            match parse_cmd_at(s, i) {
                Err(g) => Err(g),
                Ok((n, j)) => match parse_nodes_at(s, sk_ws(s, j)) {
                    Err(g) => Err(g),
                    Ok(rest) => Ok(seq![n] + rest),
                },
            }
        } else if c == '.' {
            let (n, j) = parse_label_at(s, i);
            match parse_nodes_at(s, sk_ws(s, j)) {
                Err(g) => Err(g),
                Ok(rest) => Ok(seq![n] + rest),
            }
        } else if c == ';' {
            let (n, j) = parse_comment_at(s, i);
            match parse_nodes_at(s, sk_ws(s, j)) {
                Err(g) => Err(g),
                Ok(rest) => Ok(seq![n] + rest),
            }
        } else {
            Err(GErr::UnexpectedChar(c))
        }
    }
}

/// Argument parsing stays within the input and never moves backwards.
pub proof fn lemma_parse_args_at_bounds(s: Seq<char>, i: nat)
    requires
        i <= s.len(),
    ensures
        parse_args_at(s, i) matches Ok((_, k)) ==> i <= k <= s.len(),
    decreases s.len() - i,
{
    lemma_arg_end_bounds(s, i);
    let e = arg_end(s, i);
    if e != i && e < s.len() && is_line_ws(s[e as int]) {
        lemma_sk_line_ws_bounds(s, e);
        lemma_parse_args_at_bounds(s, sk_line_ws(s, e));
    }
}

/// A command line consumes at least its first character.
pub proof fn lemma_parse_cmd_at_bounds(s: Seq<char>, i: nat)
    requires
        i < s.len(),
        !is_ws(s[i as int]),
    ensures
        parse_cmd_at(s, i) matches Ok((_, k)) ==> i < k <= s.len(),
{
    lemma_mn_end_bounds(s, i);
    lemma_mn_end_bounds(s, (i + 1) as nat);
    let e = mn_end(s, i);
    assert(e == mn_end(s, (i + 1) as nat));
    lemma_sk_line_ws_bounds(s, e);
    lemma_parse_args_at_bounds(s, sk_line_ws(s, e));
}

/// A label line consumes at least its first character.
pub proof fn lemma_parse_label_at_bounds(s: Seq<char>, i: nat)
    requires
        i < s.len(),
        !is_ws(s[i as int]),
    ensures
        i < parse_label_at(s, i).1 <= s.len(),
{
    lemma_label_end_bounds(s, i);
    lemma_label_end_bounds(s, (i + 1) as nat);
    let e = label_end(s, i);
    assert(e == label_end(s, (i + 1) as nat));
    if e < s.len() && s[e as int] != '\n' {
        lemma_sk_ws_bounds(s, (e + 1) as nat);
    }
}

/// A comment line consumes at least its first character.
pub proof fn lemma_parse_comment_at_bounds(s: Seq<char>, i: nat)
    requires
        i < s.len(),
    ensures
        i < parse_comment_at(s, i).1 <= s.len(),
{
    lemma_line_end_bounds(s, (i + 1) as nat);
}

#[via_fn]
proof fn parse_nodes_at_decreases(s: Seq<char>, i: nat) {
    if i < s.len() {
        let c = s[i as int];
        if is_letter(c) {
            lemma_parse_cmd_at_bounds(s, i);
            match parse_cmd_at(s, i) {
                Ok((_, j)) => lemma_sk_ws_bounds(s, j),
                Err(_) => (),
            }
        } else if c == '.' {
            lemma_parse_label_at_bounds(s, i);
            lemma_sk_ws_bounds(s, parse_label_at(s, i).1);
        } else if c == ';' {
            lemma_parse_comment_at_bounds(s, i);
            lemma_sk_ws_bounds(s, parse_comment_at(s, i).1);
        }
    }
}

/// The whole source: leading whitespace, then the node list.
pub open spec fn spec_parse(s: Seq<char>) -> Result<Seq<GNode>, GErr> {
    parse_nodes_at(s, sk_ws(s, 0))
}

/// Skip spaces and tabs from `i`.
pub fn consumeln_ws(s: &str, i: usize) -> (j: usize)
    requires
        i <= s@.len(),
    ensures
        j as nat == sk_line_ws(s@, i as nat),
        i <= j <= s@.len(),
{
    let n = s.unicode_len();
    let mut j: usize = i;
    while j < n
        invariant
            i <= j <= n,
            n == s@.len(),
            sk_line_ws(s@, i as nat) == sk_line_ws(s@, j as nat),
        ensures
            i <= j <= n,
            sk_line_ws(s@, i as nat) == j as nat,
        decreases n - j,
    {
        let c = s.get_char(j);
        if !(c == ' ' || c == '\t') {
            break ;
        }
        j = j + 1;
    }
    j
}

/// Skip spaces, tabs and newlines from `i`.
pub fn consume_ws(s: &str, i: usize) -> (j: usize)
    requires
        i <= s@.len(),
    ensures
        j as nat == sk_ws(s@, i as nat),
        i <= j <= s@.len(),
{
    let n = s.unicode_len();
    let mut j: usize = i;
    while j < n
        invariant
            i <= j <= n,
            n == s@.len(),
            sk_ws(s@, i as nat) == sk_ws(s@, j as nat),
        ensures
            i <= j <= n,
            sk_ws(s@, i as nat) == j as nat,
        decreases n - j,
    {
        let c = s.get_char(j);
        if !(c == ' ' || c == '\t' || c == '\n') {
            break ;
        }
        j = j + 1;
    }
    j
}

/// Scan to the end of a mnemonic.
fn scan_mn_end(s: &str, i: usize) -> (j: usize)
    requires
        i <= s@.len(),
    ensures
        j as nat == mn_end(s@, i as nat),
        i <= j <= s@.len(),
{
    let n = s.unicode_len();
    let mut j: usize = i;
    while j < n
        invariant
            i <= j <= n,
            n == s@.len(),
            mn_end(s@, i as nat) == mn_end(s@, j as nat),
        ensures
            i <= j <= n,
            mn_end(s@, i as nat) == j as nat,
        decreases n - j,
    {
        let c = s.get_char(j);
        if c == ' ' || c == '\t' || c == '\n' {
            break ;
        }
        j = j + 1;
    }
    j
}

/// Scan to the end of an argument token.
fn scan_arg_end(s: &str, i: usize) -> (j: usize)
    requires
        i <= s@.len(),
    ensures
        j as nat == arg_end(s@, i as nat),
        i <= j <= s@.len(),
{
    let n = s.unicode_len();
    let mut j: usize = i;
    while j < n
        invariant
            i <= j <= n,
            n == s@.len(),
            arg_end(s@, i as nat) == arg_end(s@, j as nat),
        ensures
            i <= j <= n,
            arg_end(s@, i as nat) == j as nat,
        decreases n - j,
    {
        let c = s.get_char(j);
        if c == ' ' || c == '\t' || c == '\n' || c == ';' {
            break ;
        }
        j = j + 1;
    }
    j
}

/// Scan to the end of a label token.
fn scan_label_end(s: &str, i: usize) -> (j: usize)
    requires
        i <= s@.len(),
    ensures
        j as nat == label_end(s@, i as nat),
        i <= j <= s@.len(),
{
    let n = s.unicode_len();
    let mut j: usize = i;
    while j < n
        invariant
            i <= j <= n,
            n == s@.len(),
            label_end(s@, i as nat) == label_end(s@, j as nat),
        ensures
            i <= j <= n,
            label_end(s@, i as nat) == j as nat,
        decreases n - j,
    {
        let c = s.get_char(j);
        if c == ' ' || c == '\t' || c == '\n' {
            break ;
        }
        j = j + 1;
    }
    j
}

/// Scan to the end of the line.
fn scan_line_end(s: &str, i: usize) -> (j: usize)
    requires
        i <= s@.len(),
    ensures
        j as nat == line_end(s@, i as nat),
        i <= j <= s@.len(),
{
    let n = s.unicode_len();
    let mut j: usize = i;
    while j < n
        invariant
            i <= j <= n,
            n == s@.len(),
            line_end(s@, i as nat) == line_end(s@, j as nat),
        ensures
            i <= j <= n,
            line_end(s@, i as nat) == j as nat,
        decreases n - j,
    {
        let c = s.get_char(j);
        if c == '\n' {
            break ;
        }
        j = j + 1;
    }
    j
}

/// Read a run of decimal digits as a 64-bit value; `None` when a character
/// is not a digit or the value leaves the 64-bit range.
fn scan_decimal(s: &str, from: usize, to: usize) -> (r: Option<u64>)
    requires
        from <= to <= s@.len(),
    ensures
        ({
            let t = s@.subrange(from as int, to as int);
            match r {
                Some(v) => (forall|q: int| 0 <= q < t.len() ==> is_digit(#[trigger] t[q]))
                    && v as nat == dec_val(t),
                None => !((forall|q: int| 0 <= q < t.len() ==> is_digit(#[trigger] t[q]))
                    && dec_val(t) <= u64::MAX as nat),
            }
        }),
{
    let ghost t = s@.subrange(from as int, to as int);
    let mut acc: u64 = 0;
    let mut k: usize = from;
    while k < to
        invariant
            from <= k <= to <= s@.len(),
            t == s@.subrange(from as int, to as int),
            forall|q: int| 0 <= q < k - from ==> is_digit(#[trigger] t[q]),
            acc as nat == dec_val(t.subrange(0, k - from)),
        decreases to - k,
    {
        let c = s.get_char(k);
        if !(c >= '0' && c <= '9') {
            proof {
                assert(!is_digit(t[k - from]));
            }
            return None;
        }
        let d = (c as u32 - 48) as u64;
        proof {
            assert(t.subrange(0, k + 1 - from as int).drop_last() =~= t.subrange(
                0,
                k - from as int,
            ));
            assert(t.subrange(0, k + 1 - from as int).last() == t[k - from]);
        }
        if acc > (u64::MAX - d) / 10 {
            proof {
                let cur = t.subrange(0, k + 1 - from as int);
                assert(dec_val(cur) == dec_val(t.subrange(0, k - from as int)) * 10 + (t[k
                    - from] as int - '0' as int));
                assert(dec_val(cur) > u64::MAX as nat) by (nonlinear_arith)
                    requires
                        dec_val(cur) == dec_val(t.subrange(0, k - from as int)) * 10 + (t[k
                            - from] as int - '0' as int),
                        dec_val(t.subrange(0, k - from as int)) == acc as nat,
                        acc > (u64::MAX - (t[k - from] as int - '0' as int)) / 10,
                        0 <= t[k - from] as int - '0' as int <= 9,
                ;
                if forall|q: int| 0 <= q < t.len() ==> is_digit(#[trigger] t[q]) {
                    assert(forall|q: int|
                        0 <= q < t.len() ==> '0' as int <= #[trigger] t[q] as int);
                    lemma_dec_val_mono(t, (k + 1 - from) as nat, t.len() as nat);
                    assert(t.subrange(0, t.len() as int) =~= t);
                }
            }
            return None;
        }
        acc = acc * 10 + d;
        proof {
            assert(acc as nat == dec_val(t.subrange(0, k + 1 - from as int)));
        }
        k = k + 1;
    }
    proof {
        assert(t.subrange(0, t.len() as int) =~= t);
    }
    Some(acc)
}

impl Value {
    /// Classify one argument token by its first character: a digit starts
    /// a numeral, `"` a string, `.` a label reference, `&` an address
    /// literal; anything else is rejected.
    pub fn parse(t: &str) -> (r: Result<Value, CompileError>)
        requires
            t@.len() >= 1,
        ensures
            ({
                let sp = value_of_token(t@);
                match r {
                    Ok(v) => sp == Ok::<GValue, GErr>(value_view(v)),
                    Err(e) => sp == Err::<GValue, GErr>(err_view(e)),
                }
            }),
    {
        let n = t.unicode_len();
        let c0 = t.get_char(0);
        if c0 >= '0' && c0 <= '9' {
            match scan_decimal(t, 0, n) {
                Some(v) => {
                    proof {
                        assert(t@.subrange(0, n as int) =~= t@);
                    }
                    if v <= i64::MAX as u64 {
                        Ok(Value::Int(v as i64))
                    } else {
                        Ok(Value::Uint(v))
                    }
                },
                None => {
                    proof {
                        assert(t@.subrange(0, n as int) =~= t@);
                    }
                    Err(CompileError::MalformedNumeral(String::from_str(t)))
                },
            }
        } else if c0 == '"' {
            if n >= 2 && t.get_char(n - 1) == '"' {
                proof {
                    assert(t@.last() == t@[n - 1]);
                }
                Ok(Value::Str(String::from_str(t.substring_char(1, n - 1))))
            } else {
                Err(CompileError::UnterminatedString(String::from_str(t)))
            }
        } else if c0 == '.' {
            Ok(Value::Label(String::from_str(t)))
        } else if c0 == '&' {
            match scan_decimal(t, 1, n) {
                Some(v) => {
                    proof {
                        assert(t@.subrange(1, n as int) =~= t@.subrange(1, t@.len() as int));
                    }
                    if n >= 2 {
                        Ok(Value::Addr(v))
                    } else {
                        Err(CompileError::MalformedAddress(String::from_str(t)))
                    }
                },
                None => {
                    proof {
                        assert(t@.subrange(1, n as int) =~= t@.subrange(1, t@.len() as int));
                    }
                    Err(CompileError::MalformedAddress(String::from_str(t)))
                },
            }
        } else {
            Err(CompileError::UnexpectedChar(c0))
        }
    }
}

impl AstNode {
    /// Parse a label line.
    pub fn parse_label(s: &str, i: usize) -> (r: (AstNode, usize))
        requires
            i < s@.len(),
            s@[i as int] == '.',
        ensures
            node_view(r.0) == Some(parse_label_at(s@, i as nat).0),
            r.1 as nat == parse_label_at(s@, i as nat).1,
            i < r.1 <= s@.len(),
    {
        proof {
            lemma_parse_label_at_bounds(s@, i as nat);
        }
        let n = s.unicode_len();
        let e = scan_label_end(s, i);
        let mut name = String::new();
        let mut k: usize = i;
        while k < e
            invariant
                i <= k <= e <= n,
                n == s@.len(),
                name@ == strip_colons(s@.subrange(i as int, k as int)),
            decreases e - k,
        {
            let c = s.get_char(k);
            proof {
                assert(s@.subrange(i as int, k + 1 as int).drop_last() =~= s@.subrange(
                    i as int,
                    k as int,
                ));
                assert(s@.subrange(i as int, k + 1 as int).last() == s@[k as int]);
            }
            if c != ':' {
                let piece = s.substring_char(k, k + 1);
                name.append(piece);
                proof {
                    assert(piece@ =~= seq![s@[k as int]]);
                }
            }
            k = k + 1;
        }
        let next: usize = if e == n {
            e
        } else {
            let c = s.get_char(e);
            if c == '\n' {
                e + 1
            } else {
                consume_ws(s, e + 1)
            }
        };
        (AstNode::Label(name), next)
    }

    /// Parse a comment line.
    pub fn parse_comment(s: &str, i: usize) -> (r: (AstNode, usize))
        requires
            i < s@.len(),
            s@[i as int] == ';',
        ensures
            node_view(r.0) == Some(parse_comment_at(s@, i as nat).0),
            r.1 as nat == parse_comment_at(s@, i as nat).1,
            i < r.1 <= s@.len(),
    {
        proof {
            lemma_parse_comment_at_bounds(s@, i as nat);
        }
        let n = s.unicode_len();
        let e = scan_line_end(s, i + 1);
        let body = String::from_str(s.substring_char(i + 1, e));
        let next: usize = if e < n {
            e + 1
        } else {
            e
        };
        (AstNode::Comment(body), next)
    }

    /// Parse a command line: the mnemonic, then its argument tokens.
    pub fn parse_cmd(s: &str, i: usize) -> (r: Result<(AstNode, usize), CompileError>)
        requires
            i <= s@.len(),
        ensures
            ({
                let sp = parse_cmd_at(s@, i as nat);
                match r {
                    Ok((node, k)) => sp matches Ok(g)
                        && node_view(node) == Some(g.0)
                        && k as nat == g.1
                        && i <= k <= s@.len(),
                    Err(e) => sp == Err::<(GNode, nat), GErr>(err_view(e)),
                }
            }),
    {
        let e = scan_mn_end(s, i);
        let name = String::from_str(s.substring_char(i, e));
        let j = consumeln_ws(s, e);
        match parse_args(s, j) {
            Ok((args, k)) => Ok((AstNode::Cmd(name, args), k)),
            Err(er) => Err(er),
        }
    }
}

/// Parse the argument tokens of one command.
fn parse_args(s: &str, i: usize) -> (r: Result<(Vec<Value>, usize), CompileError>)
    requires
        i <= s@.len(),
    ensures
        ({
            let sp = parse_args_at(s@, i as nat);
            match r {
                Ok((vs, k)) => sp == Ok::<(Seq<GValue>, nat), GErr>((vals_view(vs@), k as nat)) && i
                    <= k <= s@.len(),
                Err(e) => sp == Err::<(Seq<GValue>, nat), GErr>(err_view(e)),
            }
        }),
    decreases s@.len() - i,
{
    let n = s.unicode_len();
    let e = scan_arg_end(s, i);
    if e == i {
        let vs: Vec<Value> = Vec::new();
        proof {
            assert(vals_view(vs@) =~= Seq::<GValue>::empty());
        }
        return Ok((vs, i));
    }
    let tok = s.substring_char(i, e);
    proof {
        assert(tok@ == s@.subrange(i as int, e as int));
    }
    let v = match Value::parse(tok) {
        Ok(v) => v,
        Err(er) => {
            return Err(er);
        },
    };
    let has_more = e < n && {
        let c = s.get_char(e);
        c == ' ' || c == '\t'
    };
    if has_more {
        let j2 = consumeln_ws(s, e);
        match parse_args(s, j2) {
            Ok((rest, k)) => {
                let ghost r0 = rest@;
                let mut vs: Vec<Value> = Vec::new();
                vs.push(v);
                let mut tail = rest;
                vs.append(&mut tail);
                proof {
                    assert(vs@ =~= seq![v] + r0);
                    assert forall|q: int| 0 <= q < vals_view(vs@).len() implies vals_view(vs@)[q]
                        == (seq![value_view(v)] + vals_view(r0))[q] by {
                        if q > 0 {
                            assert(vs@[q] == r0[q - 1]);
                        }
                    }
                    assert(vals_view(vs@) =~= seq![value_view(v)] + vals_view(r0));
                }
                Ok((vs, k))
            },
            Err(er) => Err(er),
        }
    } else {
        let mut vs: Vec<Value> = Vec::new();
        vs.push(v);
        proof {
            assert(vals_view(vs@) =~= seq![value_view(v)]);
        }
        Ok((vs, e))
    }
}

/// Prepend one node to a node list.
fn cons_node(node: AstNode, rest: Vec<AstNode>) -> (r: Vec<AstNode>)
    ensures
        r@ =~= seq![node] + rest@,
{
    let mut ns: Vec<AstNode> = Vec::new();
    ns.push(node);
    let mut tail = rest;
    ns.append(&mut tail);
    ns
}

/// Parse the flat node list from `i`.
fn parse_nodes(s: &str, i: usize) -> (r: Result<Vec<AstNode>, CompileError>)
    requires
        i <= s@.len(),
    ensures
        ({
            let sp = parse_nodes_at(s@, i as nat);
            match r {
                Ok(ns) => sp matches Ok(gns) && ns@.len() == gns.len() && (forall|q: int|
                    0 <= q < gns.len() ==> node_view(ns@[q]) == Some(gns[q])),
                Err(e) => sp == Err::<Seq<GNode>, GErr>(err_view(e)),
            }
        }),
    decreases s@.len() - i,
{
    let n = s.unicode_len();
    if i >= n {
        return Ok(Vec::new());
    }
    let c = s.get_char(i);
    if c == '\n' {
        parse_nodes(s, i + 1)
    } else if (c >= 'a' && c <= 'z') || (c >= 'A' && c <= 'Z') {
        proof {
            lemma_parse_cmd_at_bounds(s@, i as nat);
        }
        match AstNode::parse_cmd(s, i) {
            Ok((node, j)) => {
                let j2 = consume_ws(s, j);
                match parse_nodes(s, j2) {
                    Ok(rest) => Ok(cons_node(node, rest)),
                    Err(er) => Err(er),
                }
            },
            Err(er) => Err(er),
        }
    } else if c == '.' {
        let (node, j) = AstNode::parse_label(s, i);
        let j2 = consume_ws(s, j);
        match parse_nodes(s, j2) {
            Ok(rest) => Ok(cons_node(node, rest)),
            Err(er) => Err(er),
        }
    } else if c == ';' {
        let (node, j) = AstNode::parse_comment(s, i);
        let j2 = consume_ws(s, j);
        match parse_nodes(s, j2) {
            Ok(rest) => Ok(cons_node(node, rest)),
            Err(er) => Err(er),
        }
    } else {
        Err(CompileError::UnexpectedChar(c))
    }
}

/// Parse assembly source into its flat syntax tree. The nodes are exactly
/// what the spec-level grammar gives for the text, in source order, and any
/// lex or syntax error aborts with that error.
pub fn parse(src: &str) -> (r: Result<AstNode, CompileError>)
    ensures
        ({
            let sp = spec_parse(src@);
            match r {
                Ok(t) => sp matches Ok(gns) && t matches AstNode::Tree(name, ns) && name@
                    == "anon"@ && ns@.len() == gns.len() && (forall|q: int|
                    0 <= q < gns.len() ==> node_view(ns@[q]) == Some(gns[q])),
                Err(e) => sp matches Err(ge) && err_view(e) == ge,
            }
        }),
{
    let j0 = consume_ws(src, 0);
    match parse_nodes(src, j0) {
        Ok(ns) => Ok(AstNode::Tree(String::from_str("anon"), ns)),
        Err(e) => Err(e),
    }
}

/// A longer digit run never has a smaller value.
pub proof fn lemma_dec_val_mono(s: Seq<char>, j: nat, k: nat)
    requires
        j <= k <= s.len(),
        forall|q: int| 0 <= q < s.len() ==> '0' as int <= #[trigger] s[q] as int,
    ensures
        dec_val(s.subrange(0, j as int)) <= dec_val(s.subrange(0, k as int)),
    decreases k - j,
{
    if j < k {
        let prev = s.subrange(0, (k - 1) as int);
        let cur = s.subrange(0, k as int);
        assert(cur.drop_last() =~= prev);
        assert(dec_val(cur) == (dec_val(prev) * 10 + (cur.last() as int - '0' as int)) as nat);
        assert(dec_val(prev) <= dec_val(prev) * 10) by (nonlinear_arith);
        lemma_dec_val_mono(s, j, (k - 1) as nat);
    }
}

} // verus!
