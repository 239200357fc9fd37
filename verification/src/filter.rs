//! The filter grammar of RFC 7644 §3.4.2.2 and the PATCH path grammar of §3.5.2: parsing only.
//!
//! The grammar nests without a bound of its own: a value path holds a filter that may hold another
//! value path, and so on. Filters come from outside, so the parser stops at [`MAX_DEPTH`] with
//! [`FilterError::TooDeep`] instead of recursing further, and no filter that it returns is deeper
//! than that.

use crate::number;
use crate::number::{double_is_same, parse_double, parse_double_debug, scan_digits, INFINITY_BITS, SIGN_BIT};
use crate::text;
use crate::text::{chars_of, copy_optional, joined, text_of, to_ascii_lower, to_quoted, same_text};
use vstd::prelude::*;

verus! {

/// Grouping and logical nesting deeper than this is rejected.
pub const MAX_DEPTH: usize = 32;

/// A comparison operator.
#[derive(Clone, Copy, Debug, PartialEq, Eq, Structural)]
pub enum CompareOp {
    Eq,
    Ne,
    Co,
    Sw,
    Ew,
    Gt,
    Ge,
    Lt,
    Le,
}

/// `compValue = false / null / true / number / string`: a JSON scalar, never an object or array.
#[derive(Debug)]
pub enum CompValue {
    False,
    Null,
    True,
    /// The bit pattern of the nearest double, and the literal as it was written: a caller may
    /// apply precision rules of its own to the literal.
    Number(u64, String),
    String(String),
}

/// `attrPath = [URI ":"] ATTRNAME *1subAttr`. The URI is a schema URN, kept as it is.
#[derive(Debug, PartialEq)]
pub struct AttrPath {
    pub schema_uri: Option<String>,
    pub attr_name: String,
    pub sub_attr: Option<String>,
}

/// A parsed filter.
#[derive(Debug, PartialEq)]
pub enum Filter {
    /// `attrPath SP "pr"`
    Present(AttrPath),
    /// `attrPath SP compareOp SP compValue`
    Compare(AttrPath, CompareOp, CompValue),
    And(Box<Filter>, Box<Filter>),
    Or(Box<Filter>, Box<Filter>),
    Not(Box<Filter>),
    /// `attrPath "[" valFilter "]"`: entries of a multi-valued complex attribute, chosen by a
    /// filter over their sub-attributes.
    ValuePath(AttrPath, Box<Filter>),
}

/// Why a filter or a path could not be parsed.
#[derive(Debug, PartialEq)]
pub enum FilterError {
    /// Nesting of groups, logical operators or value paths beyond [`MAX_DEPTH`].
    TooDeep,
    UnexpectedEnd,
    UnexpectedToken(String),
    InvalidNumber(String),
    UnterminatedString,
}

/// `PATH = attrPath / valuePath [subAttr]`, the target of a PATCH operation.
#[derive(Debug, PartialEq)]
pub struct PatchPath {
    pub attr_path: AttrPath,
    /// The filter in brackets that chooses entries of a multi-valued attribute.
    pub value_filter: Option<Filter>,
    /// The sub-attribute after the closing bracket. Without brackets the sub-attribute is
    /// `attr_path.sub_attr`; a path with both a dotted sub-attribute before the bracket and a
    /// filter is never produced.
    pub sub_attr_after_filter: Option<String>,
}

/// A token of the filter grammar.
#[derive(Debug)]
pub enum Token {
    Ident(String),
    Number(u64, String),
    String(String),
    True,
    False,
    Null,
    And,
    Or,
    Not,
    Pr,
    CompareOp(CompareOp),
    LParen,
    RParen,
    LBracket,
    RBracket,
    Dot,
    Colon,
}

/// An attribute path, as contracts speak of it.
#[verifier::ext_equal]
pub struct PathModel {
    pub schema_uri: Option<Seq<char>>,
    pub attr_name: Seq<char>,
    pub sub_attr: Option<Seq<char>>,
}

/// A comparison value, as contracts speak of it.
#[verifier::ext_equal]
pub enum CompModel {
    False,
    Null,
    True,
    Number(u64, Seq<char>),
    String(Seq<char>),
}

/// A filter, as contracts speak of it.
#[verifier::ext_equal]
pub enum FilterModel {
    Present(PathModel),
    Compare(PathModel, CompareOp, CompModel),
    And(Box<FilterModel>, Box<FilterModel>),
    Or(Box<FilterModel>, Box<FilterModel>),
    Not(Box<FilterModel>),
    ValuePath(PathModel, Box<FilterModel>),
}

/// A parse error, as contracts speak of it.
#[verifier::ext_equal]
pub enum ErrorModel {
    TooDeep,
    UnexpectedEnd,
    UnexpectedToken(Seq<char>),
    InvalidNumber(Seq<char>),
    UnterminatedString,
}

/// A PATCH path, as contracts speak of it.
#[verifier::ext_equal]
pub struct PatchPathModel {
    pub attr_path: PathModel,
    pub value_filter: Option<FilterModel>,
    pub sub_attr_after_filter: Option<Seq<char>>,
}

/// A token, as contracts speak of it.
#[verifier::ext_equal]
pub enum TokenModel {
    Ident(Seq<char>),
    Number(u64, Seq<char>),
    String(Seq<char>),
    True,
    False,
    Null,
    And,
    Or,
    Not,
    Pr,
    CompareOp(CompareOp),
    LParen,
    RParen,
    LBracket,
    RBracket,
    Dot,
    Colon,
}

impl View for AttrPath {
    type V = PathModel;

    open spec fn view(&self) -> PathModel {
        PathModel {
            schema_uri: text::optional_text(self.schema_uri),
            attr_name: self.attr_name@,
            sub_attr: text::optional_text(self.sub_attr),
        }
    }
}

impl View for CompValue {
    type V = CompModel;

    open spec fn view(&self) -> CompModel {
        match self {
            CompValue::False => CompModel::False,
            CompValue::Null => CompModel::Null,
            CompValue::True => CompModel::True,
            CompValue::Number(bits, literal) => CompModel::Number(*bits, literal@),
            CompValue::String(s) => CompModel::String(s@),
        }
    }
}

impl View for Filter {
    type V = FilterModel;

    open spec fn view(&self) -> FilterModel
        decreases self,
    {
        match self {
            Filter::Present(path) => FilterModel::Present(path@),
            Filter::Compare(path, op, value) => FilterModel::Compare(path@, *op, value@),
            Filter::And(a, b) => FilterModel::And(Box::new((**a).view()), Box::new((**b).view())),
            Filter::Or(a, b) => FilterModel::Or(Box::new((**a).view()), Box::new((**b).view())),
            Filter::Not(a) => FilterModel::Not(Box::new((**a).view())),
            Filter::ValuePath(path, a) => FilterModel::ValuePath(path@, Box::new((**a).view())),
        }
    }
}

impl View for FilterError {
    type V = ErrorModel;

    open spec fn view(&self) -> ErrorModel {
        match self {
            FilterError::TooDeep => ErrorModel::TooDeep,
            FilterError::UnexpectedEnd => ErrorModel::UnexpectedEnd,
            FilterError::UnexpectedToken(t) => ErrorModel::UnexpectedToken(t@),
            FilterError::InvalidNumber(t) => ErrorModel::InvalidNumber(t@),
            FilterError::UnterminatedString => ErrorModel::UnterminatedString,
        }
    }
}

impl View for PatchPath {
    type V = PatchPathModel;

    open spec fn view(&self) -> PatchPathModel {
        PatchPathModel {
            attr_path: self.attr_path@,
            value_filter: (match self.value_filter {
                Some(f) => Some(f@),
                None => None,
            }),
            sub_attr_after_filter: text::optional_text(self.sub_attr_after_filter),
        }
    }
}

impl View for Token {
    type V = TokenModel;

    open spec fn view(&self) -> TokenModel {
        match self {
            Token::Ident(s) => TokenModel::Ident(s@),
            Token::Number(bits, literal) => TokenModel::Number(*bits, literal@),
            Token::String(s) => TokenModel::String(s@),
            Token::True => TokenModel::True,
            Token::False => TokenModel::False,
            Token::Null => TokenModel::Null,
            Token::And => TokenModel::And,
            Token::Or => TokenModel::Or,
            Token::Not => TokenModel::Not,
            Token::Pr => TokenModel::Pr,
            Token::CompareOp(op) => TokenModel::CompareOp(*op),
            Token::LParen => TokenModel::LParen,
            Token::RParen => TokenModel::RParen,
            Token::LBracket => TokenModel::LBracket,
            Token::RBracket => TokenModel::RBracket,
            Token::Dot => TokenModel::Dot,
            Token::Colon => TokenModel::Colon,
        }
    }
}

/// Whether two comparison values are the same: numbers as doubles and as they were written, so that
/// zeros of either sign are the same and what is no number is not even the same as itself.
pub open spec fn same_comp_value(a: CompModel, b: CompModel) -> bool {
    match (a, b) {
        (CompModel::Number(x, left), CompModel::Number(y, right)) => number::double_same(x, y)
            && left == right,
        _ => a == b,
    }
}

impl PartialEq for CompValue {
    fn eq(&self, other: &CompValue) -> (r: bool) {
        match (self, other) {
            (CompValue::False, CompValue::False) => true,
            (CompValue::Null, CompValue::Null) => true,
            (CompValue::True, CompValue::True) => true,
            (CompValue::Number(x, left), CompValue::Number(y, right)) => double_is_same(*x, *y)
                && same_text(left.as_str(), right.as_str()),
            (CompValue::String(x), CompValue::String(y)) => same_text(x.as_str(), y.as_str()),
            _ => false,
        }
    }
}

impl vstd::std_specs::cmp::PartialEqSpecImpl for CompValue {
    open spec fn obeys_eq_spec() -> bool {
        true
    }

    open spec fn eq_spec(&self, other: &CompValue) -> bool {
        same_comp_value(self@, other@)
    }
}

/// Whether two tokens are the same; numbers as for [`same_comp_value`].
pub open spec fn same_token(a: TokenModel, b: TokenModel) -> bool {
    match (a, b) {
        (TokenModel::Number(x, left), TokenModel::Number(y, right)) => number::double_same(x, y)
            && left == right,
        _ => a == b,
    }
}

impl PartialEq for Token {
    fn eq(&self, other: &Token) -> (r: bool) {
        match (self, other) {
            (Token::Ident(x), Token::Ident(y)) => same_text(x.as_str(), y.as_str()),
            (Token::Number(x, left), Token::Number(y, right)) => double_is_same(*x, *y)
                && same_text(left.as_str(), right.as_str()),
            (Token::String(x), Token::String(y)) => same_text(x.as_str(), y.as_str()),
            (Token::CompareOp(x), Token::CompareOp(y)) => *x == *y,
            (Token::True, Token::True) => true,
            (Token::False, Token::False) => true,
            (Token::Null, Token::Null) => true,
            (Token::And, Token::And) => true,
            (Token::Or, Token::Or) => true,
            (Token::Not, Token::Not) => true,
            (Token::Pr, Token::Pr) => true,
            (Token::LParen, Token::LParen) => true,
            (Token::RParen, Token::RParen) => true,
            (Token::LBracket, Token::LBracket) => true,
            (Token::RBracket, Token::RBracket) => true,
            (Token::Dot, Token::Dot) => true,
            (Token::Colon, Token::Colon) => true,
            _ => false,
        }
    }
}

impl vstd::std_specs::cmp::PartialEqSpecImpl for Token {
    open spec fn obeys_eq_spec() -> bool {
        true
    }

    open spec fn eq_spec(&self, other: &Token) -> bool {
        same_token(self@, other@)
    }
}

/// An attribute path as text.
pub open spec fn path_text(path: PathModel) -> Seq<char> {
    let prefix = match path.schema_uri {
        Some(uri) => uri + ":"@,
        None => Seq::empty(),
    };
    let suffix = match path.sub_attr {
        Some(sub) => "."@ + sub,
        None => Seq::empty(),
    };
    prefix + path.attr_name + suffix
}

impl AttrPath {
    /// The path as it is written in a filter.
    pub fn to_string(&self) -> (r: String)
        ensures
            r@ == path_text(self@),
    {
        let mut out = match &self.schema_uri {
            Some(uri) => joined(uri.as_str(), ":"),
            None => String::new(),
        };
        let ghost prefix = out@;
        out = joined(&out, self.attr_name.as_str());
        match &self.sub_attr {
            Some(sub) => {
                let suffix = joined(".", sub.as_str());
                joined(&out, &suffix)
            },
            None => {
                assert(out@ + Seq::<char>::empty() =~= out@);
                out
            },
        }
    }
}

/// What an error says to a reader.
pub open spec fn error_text(e: ErrorModel) -> Seq<char> {
    match e {
        ErrorModel::TooDeep => "filter nesting exceeds the maximum depth"@,
        ErrorModel::UnexpectedEnd => "unexpected end of filter expression"@,
        ErrorModel::UnexpectedToken(t) => "unexpected token: "@ + t,
        ErrorModel::InvalidNumber(t) => "invalid number literal: "@ + t,
        ErrorModel::UnterminatedString => "unterminated string literal"@,
    }
}

impl FilterError {
    /// What the error says to a reader.
    pub fn to_string(&self) -> (r: String)
        ensures
            r@ == error_text(self@),
    {
        match self {
            FilterError::TooDeep => "filter nesting exceeds the maximum depth".to_owned(),
            FilterError::UnexpectedEnd => "unexpected end of filter expression".to_owned(),
            FilterError::UnexpectedToken(t) => joined("unexpected token: ", t.as_str()),
            FilterError::InvalidNumber(t) => joined("invalid number literal: ", t.as_str()),
            FilterError::UnterminatedString => "unterminated string literal".to_owned(),
        }
    }
}

impl Clone for AttrPath {
    fn clone(&self) -> (r: Self)
        ensures
            r@ == self@,
    {
        AttrPath {
            schema_uri: copy_optional(&self.schema_uri),
            attr_name: self.attr_name.clone(),
            sub_attr: copy_optional(&self.sub_attr),
        }
    }
}

impl Clone for CompValue {
    fn clone(&self) -> (r: Self)
        ensures
            r@ == self@,
    {
        match self {
            CompValue::False => CompValue::False,
            CompValue::Null => CompValue::Null,
            CompValue::True => CompValue::True,
            CompValue::Number(bits, literal) => CompValue::Number(*bits, literal.clone()),
            CompValue::String(s) => CompValue::String(s.clone()),
        }
    }
}

impl Clone for Filter {
    fn clone(&self) -> (r: Self)
        ensures
            r@ == self@,
        decreases self,
    {
        match self {
            Filter::Present(path) => Filter::Present(path.clone()),
            Filter::Compare(path, op, value) => Filter::Compare(path.clone(), *op, value.clone()),
            Filter::And(a, b) => Filter::And(
                Box::new((&**a).clone()),
                Box::new((&**b).clone()),
            ),
            Filter::Or(a, b) => Filter::Or(Box::new((&**a).clone()), Box::new((&**b).clone())),
            Filter::Not(a) => Filter::Not(Box::new((&**a).clone())),
            Filter::ValuePath(path, a) => Filter::ValuePath(
                path.clone(),
                Box::new((&**a).clone()),
            ),
        }
    }
}

impl Clone for FilterError {
    fn clone(&self) -> (r: Self)
        ensures
            r@ == self@,
    {
        match self {
            FilterError::TooDeep => FilterError::TooDeep,
            FilterError::UnexpectedEnd => FilterError::UnexpectedEnd,
            FilterError::UnexpectedToken(t) => FilterError::UnexpectedToken(t.clone()),
            FilterError::InvalidNumber(t) => FilterError::InvalidNumber(t.clone()),
            FilterError::UnterminatedString => FilterError::UnterminatedString,
        }
    }
}

impl Clone for PatchPath {
    fn clone(&self) -> (r: Self)
        ensures
            r@ == self@,
    {
        PatchPath {
            attr_path: self.attr_path.clone(),
            value_filter: (match &self.value_filter {
                Some(f) => Some(f.clone()),
                None => None,
            }),
            sub_attr_after_filter: copy_optional(&self.sub_attr_after_filter),
        }
    }
}

/// The tokens that a sequence of exec tokens stands for.
pub open spec fn token_views(tokens: Seq<Token>) -> Seq<TokenModel> {
    Seq::new(tokens.len(), |i: int| tokens[i]@)
}

// ---- Lexical structure ----

/// Whether `c` separates tokens.
pub open spec fn is_blank(c: char) -> bool {
    c == ' ' || c == '\t' || c == '\n' || c == '\r'
}

/// Whether `c` is an ASCII letter.
pub open spec fn is_letter(c: char) -> bool {
    ('a' <= c && c <= 'z') || ('A' <= c && c <= 'Z')
}

/// Whether a word can begin with `c`.
pub open spec fn starts_word(c: char) -> bool {
    is_letter(c) || c == '_' || c == '$' || c == '/'
}

/// Whether a word can go on with `c`.
pub open spec fn continues_word(c: char) -> bool {
    is_letter(c) || number::is_digit(c) || c == '-' || c == '_' || c == '/'
}

/// The end of the run of word characters at `i`.
pub open spec fn word_end(s: Seq<char>, i: int) -> int
    decreases s.len() - i,
{
    if 0 <= i < s.len() && continues_word(s[i]) {
        word_end(s, i + 1)
    } else {
        i
    }
}

/// What an escape sequence stands for, by the character after the backslash; an unknown one is
/// kept as it is.
pub open spec fn unescaped(c: char) -> Seq<char> {
    if c == '"' || c == '\\' || c == '/' {
        seq![c]
    } else if c == 'n' {
        seq!['\n']
    } else if c == 't' {
        seq!['\t']
    } else if c == 'r' {
        seq!['\r']
    } else {
        seq!['\\', c]
    }
}

/// The text of a string literal whose content starts at `i`, and the position after its closing
/// quote; `None` where the quote is missing.
pub open spec fn string_at(s: Seq<char>, i: int) -> Option<(Seq<char>, int)>
    decreases s.len() - i,
{
    if i < 0 || i >= s.len() {
        None
    } else if s[i] == '"' {
        Some((Seq::empty(), i + 1))
    } else if s[i] == '\\' && i + 1 < s.len() {
        match string_at(s, i + 2) {
            Some((rest, end)) => Some((unescaped(s[i + 1]) + rest, end)),
            None => None,
        }
    } else {
        match string_at(s, i + 1) {
            Some((rest, end)) => Some((seq![s[i]] + rest, end)),
            None => None,
        }
    }
}

/// Where the integer part of a number literal at `i` ends.
pub open spec fn integer_part_end(s: Seq<char>, i: int) -> int {
    number::digits_end(s, if s[i] == '-' { i + 1 } else { i })
}

/// Where the fraction of a number literal at `i` ends.
pub open spec fn fraction_end(s: Seq<char>, i: int) -> int {
    let at = integer_part_end(s, i);
    if at < s.len() && s[at] == '.' {
        number::digits_end(s, at + 1)
    } else {
        at
    }
}

/// Whether a number literal at `i` has an exponent marker.
pub open spec fn has_exponent(s: Seq<char>, i: int) -> bool {
    let at = fraction_end(s, i);
    at < s.len() && (s[at] == 'e' || s[at] == 'E')
}

/// Where the digits of the exponent of a number literal at `i` begin.
pub open spec fn exponent_start(s: Seq<char>, i: int) -> int {
    let at = fraction_end(s, i) + 1;
    if at < s.len() && (s[at] == '+' || s[at] == '-') {
        at + 1
    } else {
        at
    }
}

/// Where a number literal at `i` ends.
pub open spec fn number_end(s: Seq<char>, i: int) -> int {
    if has_exponent(s, i) {
        number::digits_end(s, exponent_start(s, i))
    } else {
        fraction_end(s, i)
    }
}

/// Whether a number literal at `i` is complete: an exponent marker is followed by digits.
pub open spec fn number_complete(s: Seq<char>, i: int) -> bool {
    has_exponent(s, i) ==> number_end(s, i) > exponent_start(s, i)
}

/// The bit pattern of the double that a number literal stands for: the nearest finite one, or the
/// infinity of its sign.
pub open spec fn literal_bits(literal: Seq<char>) -> u64 {
    bits_or_infinity(number::nearest_double(literal), literal)
}

/// A finite double where there is one, else the infinity of the literal's sign.
pub open spec fn bits_or_infinity(nearest: Option<u64>, literal: Seq<char>) -> u64 {
    match nearest {
        Some(bits) => bits,
        None => if literal.len() > 0 && literal[0] == '-' {
            (INFINITY_BITS + SIGN_BIT) as u64
        } else {
            INFINITY_BITS
        },
    }
}

/// The token that a word stands for: a keyword in any case of its letters, or an identifier.
pub open spec fn word_token(word: Seq<char>) -> TokenModel {
    let w = text::ascii_lower(word);
    if w == "and"@ {
        TokenModel::And
    } else if w == "or"@ {
        TokenModel::Or
    } else if w == "not"@ {
        TokenModel::Not
    } else if w == "pr"@ {
        TokenModel::Pr
    } else if w == "eq"@ {
        TokenModel::CompareOp(CompareOp::Eq)
    } else if w == "ne"@ {
        TokenModel::CompareOp(CompareOp::Ne)
    } else if w == "co"@ {
        TokenModel::CompareOp(CompareOp::Co)
    } else if w == "sw"@ {
        TokenModel::CompareOp(CompareOp::Sw)
    } else if w == "ew"@ {
        TokenModel::CompareOp(CompareOp::Ew)
    } else if w == "gt"@ {
        TokenModel::CompareOp(CompareOp::Gt)
    } else if w == "ge"@ {
        TokenModel::CompareOp(CompareOp::Ge)
    } else if w == "lt"@ {
        TokenModel::CompareOp(CompareOp::Lt)
    } else if w == "le"@ {
        TokenModel::CompareOp(CompareOp::Le)
    } else if w == "true"@ {
        TokenModel::True
    } else if w == "false"@ {
        TokenModel::False
    } else if w == "null"@ {
        TokenModel::Null
    } else {
        TokenModel::Ident(word)
    }
}

/// The token of a single punctuation character.
pub open spec fn punctuation(c: char) -> Option<TokenModel> {
    if c == '(' {
        Some(TokenModel::LParen)
    } else if c == ')' {
        Some(TokenModel::RParen)
    } else if c == '[' {
        Some(TokenModel::LBracket)
    } else if c == ']' {
        Some(TokenModel::RBracket)
    } else if c == '.' {
        Some(TokenModel::Dot)
    } else if c == ':' {
        Some(TokenModel::Colon)
    } else {
        None
    }
}

/// Whether a number literal begins at `i`.
pub open spec fn starts_number(s: Seq<char>, i: int) -> bool {
    number::is_digit(s[i]) || (s[i] == '-' && i + 1 < s.len() && number::is_digit(s[i + 1]))
}

/// The token that begins at `i`, and the position after it.
pub open spec fn token_at(s: Seq<char>, i: int) -> Result<(TokenModel, int), ErrorModel> {
    let c = s[i];
    if punctuation(c) is Some {
        Ok((punctuation(c)->0, i + 1))
    } else if c == '"' {
        match string_at(s, i + 1) {
            Some((content, end)) => Ok((TokenModel::String(content), end)),
            None => Err(ErrorModel::UnterminatedString),
        }
    } else if starts_number(s, i) {
        let end = number_end(s, i);
        let literal = s.subrange(i, end);
        if number_complete(s, i) {
            Ok((TokenModel::Number(literal_bits(literal), literal), end))
        } else {
            Err(ErrorModel::InvalidNumber(literal))
        }
    } else if starts_word(c) {
        let end = word_end(s, i + 1);
        Ok((word_token(s.subrange(i, end)), end))
    } else {
        Err(ErrorModel::UnexpectedToken(seq![c]))
    }
}

/// The tokens of the text from `i` on, or the error at the first place where no token begins.
pub open spec fn tokens_from(s: Seq<char>, i: int) -> Result<Seq<TokenModel>, ErrorModel>
    decreases s.len() - i,
{
    if i < 0 || i >= s.len() {
        Ok(Seq::empty())
    } else if is_blank(s[i]) {
        tokens_from(s, i + 1)
    } else {
        match token_at(s, i) {
            Err(e) => Err(e),
            Ok((token, end)) => {
                proof {
                    lemma_token_end(s, i);
                }
                match tokens_from(s, end) {
                    Err(e) => Err(e),
                    Ok(rest) => Ok(seq![token] + rest),
                }
            },
        }
    }
}

/// The tokens of a text.
pub open spec fn lexed(s: Seq<char>) -> Result<Seq<TokenModel>, ErrorModel> {
    tokens_from(s, 0)
}

proof fn lemma_word_end(s: Seq<char>, i: int)
    requires
        0 <= i <= s.len(),
    ensures
        i <= word_end(s, i) <= s.len(),
    decreases s.len() - i,
{
    if i < s.len() && continues_word(s[i]) {
        lemma_word_end(s, i + 1);
    }
}

proof fn lemma_string_end(s: Seq<char>, i: int)
    ensures
        string_at(s, i) matches Some((_, end)) ==> i < end <= s.len(),
    decreases s.len() - i,
{
    if 0 <= i < s.len() && s[i] != '"' {
        lemma_string_end(s, i + 1);
        if i + 1 < s.len() {
            lemma_string_end(s, i + 2);
        }
    }
}

/// Every token takes up at least one character and ends inside the text.
pub proof fn lemma_token_end(s: Seq<char>, i: int)
    requires
        0 <= i < s.len(),
    ensures
        token_at(s, i) matches Ok((_, end)) ==> i < end <= s.len(),
{
    lemma_string_end(s, i + 1);
    lemma_word_end(s, i + 1);
    if starts_number(s, i) {
        let start = if s[i] == '-' {
            i + 1
        } else {
            i
        };
        number::lemma_digits_end(s, start + 1);
        let whole = integer_part_end(s, i);
        if whole < s.len() {
            number::lemma_digits_end(s, whole + 1);
        }
        let fraction = fraction_end(s, i);
        if fraction < s.len() {
            number::lemma_digits_end(s, exponent_start(s, i));
        }
    }
}

/// Tokens already read, followed by what the rest of the text gives.
spec fn after_tokens(
    tokens: Seq<TokenModel>,
    rest: Result<Seq<TokenModel>, ErrorModel>,
) -> Result<Seq<TokenModel>, ErrorModel> {
    match rest {
        Ok(more) => Ok(tokens + more),
        Err(e) => Err(e),
    }
}

fn is_ascii_letter(c: char) -> (r: bool)
    ensures
        r == is_letter(c),
{
    ('a' <= c && c <= 'z') || ('A' <= c && c <= 'Z')
}

fn scan_word(chars: &Vec<char>, from: usize) -> (end: usize)
    requires
        from <= chars.len(),
    ensures
        end == word_end(chars@, from as int),
        from <= end <= chars.len(),
{
    let mut i: usize = from;
    while i < chars.len()
        invariant
            from <= i <= chars.len(),
            word_end(chars@, from as int) == word_end(chars@, i as int),
        decreases chars.len() - i,
    {
        let c = chars[i];
        if is_ascii_letter(c) || ('0' <= c && c <= '9') || c == '-' || c == '_' || c == '/' {
            i += 1;
        } else {
            return i;
        }
    }
    i
}

fn scan_string(chars: &Vec<char>, from: usize) -> (r: Option<(String, usize)>)
    requires
        from <= chars.len(),
    ensures
        (match r {
            Some((content, end)) => Some((content@, end as int)),
            None => None,
        }) == string_at(chars@, from as int),
        r matches Some((_, end)) ==> from < end <= chars.len(),
{
    let mut content = String::new();
    let mut i: usize = from;
    while i < chars.len()
        invariant
            from <= i <= chars.len(),
            string_at(chars@, from as int) == (match string_at(chars@, i as int) {
                Some((rest, end)) => Some((content@ + rest, end)),
                None => None,
            }),
        decreases chars.len() - i,
    {
        let c = chars[i];
        let ghost before = content@;
        if c == '"' {
            assert(content@ + Seq::<char>::empty() =~= content@);
            return Some((content, i + 1));
        } else if c == '\\' && i + 1 < chars.len() {
            let next = chars[i + 1];
            if next == '"' || next == '\\' || next == '/' {
                content.push(next);
            } else if next == 'n' {
                content.push('\n');
            } else if next == 't' {
                content.push('\t');
            } else if next == 'r' {
                content.push('\r');
            } else {
                content.push('\\');
                content.push(next);
            }
            assert(content@ =~= before + unescaped(next));
            proof {
                if let Some((rest, end)) = string_at(chars@, i + 2) {
                    assert(before + (unescaped(next) + rest) =~= content@ + rest);
                }
            }
            i += 2;
        } else {
            content.push(c);
            proof {
                if let Some((rest, end)) = string_at(chars@, i + 1) {
                    assert(before + (seq![c] + rest) =~= content@ + rest);
                }
            }
            i += 1;
        }
    }
    None
}

/// The token of a number literal, given the finite double nearest to it where there is one.
pub fn number_token(nearest: Option<u64>, literal: String) -> (token: Token)
    ensures
        token@ == TokenModel::Number(bits_or_infinity(nearest, literal@), literal@),
{
    let bits: u64 = match nearest {
        Some(bits) => bits,
        None => {
            let chars = chars_of(literal.as_str());
            if chars.len() > 0 && chars[0] == '-' {
                INFINITY_BITS + SIGN_BIT
            } else {
                INFINITY_BITS
            }
        },
    };
    Token::Number(bits, literal)
}

fn scan_number(chars: &Vec<char>, from: usize) -> (r: Result<(Token, usize), FilterError>)
    requires
        from < chars.len(),
        starts_number(chars@, from as int),
    ensures
        (match r {
            Ok((token, end)) => Ok((token@, end as int)),
            Err(e) => Err(e@),
        }) == (if number_complete(chars@, from as int) {
            let literal = chars@.subrange(from as int, number_end(chars@, from as int));
            Ok(
                (
                    TokenModel::Number(literal_bits(literal), literal),
                    number_end(chars@, from as int),
                ),
            )
        } else {
            Err(
                ErrorModel::InvalidNumber(
                    chars@.subrange(from as int, number_end(chars@, from as int)),
                ),
            )
        }),
        r matches Ok((_, end)) ==> from < end <= chars.len(),
{
    let mut i: usize = from;
    if chars[i] == '-' {
        i += 1;
    }
    proof {
        number::lemma_digits_end(chars@, i + 1);
    }
    i = scan_digits(chars, i);
    if i < chars.len() && chars[i] == '.' {
        i = scan_digits(chars, i + 1);
    }
    let mut complete = true;
    if i < chars.len() && (chars[i] == 'e' || chars[i] == 'E') {
        i += 1;
        if i < chars.len() && (chars[i] == '+' || chars[i] == '-') {
            i += 1;
        }
        let end: usize = scan_digits(chars, i);
        complete = end > i;
        i = end;
    }
    let literal = text_of(chars, from, i);
    if complete {
        Ok((number_token(parse_double(literal.as_str()), literal), i))
    } else {
        Err(FilterError::InvalidNumber(literal))
    }
}

fn keyword_token(word: String) -> (token: Token)
    ensures
        token@ == word_token(word@),
{
    let lower = to_ascii_lower(word.as_str());
    let w = lower.as_str();
    if same_text(w, "and") {
        Token::And
    } else if same_text(w, "or") {
        Token::Or
    } else if same_text(w, "not") {
        Token::Not
    } else if same_text(w, "pr") {
        Token::Pr
    } else if same_text(w, "eq") {
        Token::CompareOp(CompareOp::Eq)
    } else if same_text(w, "ne") {
        Token::CompareOp(CompareOp::Ne)
    } else if same_text(w, "co") {
        Token::CompareOp(CompareOp::Co)
    } else if same_text(w, "sw") {
        Token::CompareOp(CompareOp::Sw)
    } else if same_text(w, "ew") {
        Token::CompareOp(CompareOp::Ew)
    } else if same_text(w, "gt") {
        Token::CompareOp(CompareOp::Gt)
    } else if same_text(w, "ge") {
        Token::CompareOp(CompareOp::Ge)
    } else if same_text(w, "lt") {
        Token::CompareOp(CompareOp::Lt)
    } else if same_text(w, "le") {
        Token::CompareOp(CompareOp::Le)
    } else if same_text(w, "true") {
        Token::True
    } else if same_text(w, "false") {
        Token::False
    } else if same_text(w, "null") {
        Token::Null
    } else {
        Token::Ident(word)
    }
}

fn scan_token(chars: &Vec<char>, i: usize) -> (r: Result<(Token, usize), FilterError>)
    requires
        i < chars.len(),
    ensures
        (match r {
            Ok((token, end)) => Ok((token@, end as int)),
            Err(e) => Err(e@),
        }) == token_at(chars@, i as int),
        r matches Ok((_, end)) ==> i < end <= chars.len(),
{
    let c = chars[i];
    match c {
        '(' => Ok((Token::LParen, i + 1)),
        ')' => Ok((Token::RParen, i + 1)),
        '[' => Ok((Token::LBracket, i + 1)),
        ']' => Ok((Token::RBracket, i + 1)),
        '.' => Ok((Token::Dot, i + 1)),
        ':' => Ok((Token::Colon, i + 1)),
        '"' => match scan_string(chars, i + 1) {
            Some((content, end)) => Ok((Token::String(content), end)),
            None => Err(FilterError::UnterminatedString),
        },
        _ => if ('0' <= c && c <= '9') || (c == '-' && i + 1 < chars.len() && '0' <= chars[i + 1]
            && chars[i + 1] <= '9') {
            scan_number(chars, i)
        } else if is_ascii_letter(c) || c == '_' || c == '$' || c == '/' {
            let end: usize = scan_word(chars, i + 1);
            Ok((keyword_token(text_of(chars, i, end)), end))
        } else {
            let mut shown = String::new();
            shown.push(c);
            assert(shown@ =~= seq![c]);
            Err(FilterError::UnexpectedToken(shown))
        },
    }
}

/// Splits a filter into its tokens.
pub fn tokenize(input: &str) -> (r: Result<Vec<Token>, FilterError>)
    ensures
        (match r {
            Ok(tokens) => Ok(token_views(tokens@)),
            Err(e) => Err(e@),
        }) == lexed(input@),
{
    let chars = chars_of(input);
    let mut tokens: Vec<Token> = Vec::new();
    let mut i: usize = 0;
    proof {
        if let Ok(more) = tokens_from(input@, 0) {
            assert(token_views(tokens@) + more =~= more);
        }
    }
    while i < chars.len()
        invariant
            i <= chars.len(),
            chars@ == input@,
            lexed(input@) == after_tokens(token_views(tokens@), tokens_from(input@, i as int)),
        decreases chars.len() - i,
    {
        let c = chars[i];
        if c == ' ' || c == '\t' || c == '\n' || c == '\r' {
            i += 1;
        } else {
            match scan_token(&chars, i) {
                Ok((token, end)) => {
                    let ghost before = token_views(tokens@);
                    let ghost shown = token@;
                    tokens.push(token);
                    proof {
                        assert(token_views(tokens@) =~= before.push(shown));
                        if let Ok(more) = tokens_from(input@, end as int) {
                            assert(before + (seq![shown] + more) =~= token_views(tokens@) + more);
                        }
                    }
                    i = end;
                },
                Err(e) => {
                    return Err(e);
                },
            }
        }
    }
    assert(token_views(tokens@) + Seq::<TokenModel>::empty() =~= token_views(tokens@));
    Ok(tokens)
}

// ---- How tokens are shown in errors ----

/// The name of a comparison operator, as errors show it.
pub open spec fn op_name(op: CompareOp) -> Seq<char> {
    match op {
        CompareOp::Eq => "Eq"@,
        CompareOp::Ne => "Ne"@,
        CompareOp::Co => "Co"@,
        CompareOp::Sw => "Sw"@,
        CompareOp::Ew => "Ew"@,
        CompareOp::Gt => "Gt"@,
        CompareOp::Ge => "Ge"@,
        CompareOp::Lt => "Lt"@,
        CompareOp::Le => "Le"@,
    }
}

/// The double of a number literal, as errors show it.
pub open spec fn literal_debug(literal: Seq<char>) -> Seq<char> {
    match number::nearest_double_debug(literal) {
        Some(shown) => shown,
        None => if literal.len() > 0 && literal[0] == '-' {
            "-inf"@
        } else {
            "inf"@
        },
    }
}

/// A token, as errors show it.
pub open spec fn token_debug(token: TokenModel) -> Seq<char> {
    match token {
        TokenModel::Ident(s) => "Ident("@ + text::quoted(s) + ")"@,
        TokenModel::Number(_, literal) => "Number("@ + literal_debug(literal) + ", "@
            + text::quoted(literal) + ")"@,
        TokenModel::String(s) => "String("@ + text::quoted(s) + ")"@,
        TokenModel::True => "True"@,
        TokenModel::False => "False"@,
        TokenModel::Null => "Null"@,
        TokenModel::And => "And"@,
        TokenModel::Or => "Or"@,
        TokenModel::Not => "Not"@,
        TokenModel::Pr => "Pr"@,
        TokenModel::CompareOp(op) => "CompareOp("@ + op_name(op) + ")"@,
        TokenModel::LParen => "LParen"@,
        TokenModel::RParen => "RParen"@,
        TokenModel::LBracket => "LBracket"@,
        TokenModel::RBracket => "RBracket"@,
        TokenModel::Dot => "Dot"@,
        TokenModel::Colon => "Colon"@,
    }
}

/// The token at a position, where there is one.
pub open spec fn nth_token(t: Seq<TokenModel>, p: int) -> Option<TokenModel> {
    if 0 <= p < t.len() {
        Some(t[p])
    } else {
        None
    }
}

/// The error for a token that no rule of the grammar takes at `p`, or for the end of the input.
pub open spec fn unexpected_at(t: Seq<TokenModel>, p: int) -> ErrorModel {
    match nth_token(t, p) {
        Some(token) => ErrorModel::UnexpectedToken("Some("@ + token_debug(token) + ")"@),
        None => ErrorModel::UnexpectedToken("None"@),
    }
}

// ---- Syntax ----

/// The texts with `:` between each two.
pub open spec fn colon_joined(segments: Seq<Seq<char>>) -> Seq<char>
    decreases segments.len(),
{
    if segments.len() == 0 {
        Seq::empty()
    } else if segments.len() == 1 {
        segments[0]
    } else {
        colon_joined(segments.drop_last()) + ":"@ + segments.last()
    }
}

/// The text that an attribute path segment contributes: that of an identifier or, for the version
/// in a schema URN, of a number.
pub open spec fn segment_text(token: TokenModel) -> Option<Seq<char>> {
    match token {
        TokenModel::Ident(s) => Some(s),
        TokenModel::Number(_, literal) => Some(literal),
        _ => None,
    }
}

/// The segments of an attribute path: those before `p`, and every `:` and segment from `p` on.
pub open spec fn segments_at(t: Seq<TokenModel>, p: int, before: Seq<Seq<char>>) -> Result<
    (Seq<Seq<char>>, int),
    ErrorModel,
>
    decreases t.len() - p,
{
    if nth_token(t, p) == Some(TokenModel::Colon) {
        match nth_token(t, p + 1) {
            Some(token) => match segment_text(token) {
                Some(segment) => segments_at(t, p + 2, before.push(segment)),
                None => Err(unexpected_at(t, p + 1)),
            },
            None => Err(unexpected_at(t, p + 1)),
        }
    } else {
        Ok((before, p))
    }
}

/// The path that segments and an optional sub-attribute make: the last segment names the
/// attribute, those before it are the schema URN.
pub open spec fn path_of(segments: Seq<Seq<char>>, sub_attr: Option<Seq<char>>) -> PathModel {
    PathModel {
        schema_uri: if segments.len() <= 1 {
            None
        } else {
            Some(colon_joined(segments.drop_last()))
        },
        attr_name: segments.last(),
        sub_attr,
    }
}

/// The attribute path at `p`, and the position after it.
pub open spec fn path_at(t: Seq<TokenModel>, p: int) -> Result<(PathModel, int), ErrorModel> {
    match nth_token(t, p) {
        Some(TokenModel::Ident(first)) => match segments_at(t, p + 1, seq![first]) {
            Err(e) => Err(e),
            Ok((segments, q)) => if nth_token(t, q) == Some(TokenModel::Dot) {
                match nth_token(t, q + 1) {
                    Some(TokenModel::Ident(sub)) => Ok((path_of(segments, Some(sub)), q + 2)),
                    _ => Err(unexpected_at(t, q + 1)),
                }
            } else {
                Ok((path_of(segments, None), q))
            },
        },
        _ => Err(unexpected_at(t, p)),
    }
}

/// The comparison value that a token stands for.
pub open spec fn comp_value_of(token: TokenModel) -> Option<CompModel> {
    match token {
        TokenModel::True => Some(CompModel::True),
        TokenModel::False => Some(CompModel::False),
        TokenModel::Null => Some(CompModel::Null),
        TokenModel::Number(bits, literal) => Some(CompModel::Number(bits, literal)),
        TokenModel::String(s) => Some(CompModel::String(s)),
        _ => None,
    }
}

/// The comparison value at `p`, and the position after it.
pub open spec fn comp_value_at(t: Seq<TokenModel>, p: int) -> Result<(CompModel, int), ErrorModel> {
    match nth_token(t, p) {
        Some(token) => match comp_value_of(token) {
            Some(value) => Ok((value, p + 1)),
            None => Err(unexpected_at(t, p)),
        },
        None => Err(unexpected_at(t, p)),
    }
}

/// How deep a filter nests.
pub open spec fn depth_of(f: FilterModel) -> nat
    decreases f,
{
    match f {
        FilterModel::Present(_) | FilterModel::Compare(_, _, _) => 0,
        FilterModel::Not(a) => 1 + depth_of(*a),
        FilterModel::ValuePath(_, a) => 1 + depth_of(*a),
        FilterModel::And(a, b) => 1 + (if depth_of(*a) < depth_of(*b) {
            depth_of(*b)
        } else {
            depth_of(*a)
        }),
        FilterModel::Or(a, b) => 1 + (if depth_of(*a) < depth_of(*b) {
            depth_of(*b)
        } else {
            depth_of(*a)
        }),
    }
}

/// The error where `p` does not hold the token `wanted`.
pub open spec fn missing_at(t: Seq<TokenModel>, p: int, wanted: TokenModel) -> Option<ErrorModel> {
    match nth_token(t, p) {
        None => Some(ErrorModel::UnexpectedEnd),
        Some(token) => if token == wanted {
            None
        } else {
            Some(ErrorModel::UnexpectedToken(token_debug(token)))
        },
    }
}

/// The filter `f`, given that the token `wanted` closes it at `p`.
pub open spec fn closed_at(t: Seq<TokenModel>, p: int, wanted: TokenModel, f: FilterModel) -> Result<
    (FilterModel, int),
    ErrorModel,
> {
    match missing_at(t, p, wanted) {
        Some(e) => Err(e),
        None => Ok((f, p + 1)),
    }
}

/// The chain of `or` operands at `p`, inside `d` groups.
pub open spec fn or_at(t: Seq<TokenModel>, p: int, d: int) -> Result<(FilterModel, int), ErrorModel>
    decreases t.len() - p, 5int,
{
    if d > MAX_DEPTH {
        Err(ErrorModel::TooDeep)
    } else {
        match and_at(t, p, d) {
            Err(e) => Err(e),
            // Every operand takes up at least one token.
            Ok((left, q)) => if p < q <= t.len() {
                or_from(t, q, d, left)
            } else {
                Err(ErrorModel::UnexpectedEnd)
            },
        }
    }
}

/// The chain of `or` operands that goes on at `p` after `left`; it groups to the left.
pub open spec fn or_from(t: Seq<TokenModel>, p: int, d: int, left: FilterModel) -> Result<
    (FilterModel, int),
    ErrorModel,
>
    decreases t.len() - p, 4int,
{
    if nth_token(t, p) == Some(TokenModel::Or) {
        match and_at(t, p + 1, d) {
            Err(e) => Err(e),
            Ok((right, q)) => {
                let f = FilterModel::Or(Box::new(left), Box::new(right));
                if depth_of(f) > MAX_DEPTH {
                    Err(ErrorModel::TooDeep)
                } else if p < q <= t.len() {
                    or_from(t, q, d, f)
                } else {
                    Err(ErrorModel::UnexpectedEnd)
                }
            },
        }
    } else {
        Ok((left, p))
    }
}

/// The chain of `and` operands at `p`, inside `d` groups.
pub open spec fn and_at(t: Seq<TokenModel>, p: int, d: int) -> Result<
    (FilterModel, int),
    ErrorModel,
>
    decreases t.len() - p, 3int,
{
    match operand_at(t, p, d) {
        Err(e) => Err(e),
        Ok((left, q)) => if depth_of(left) > MAX_DEPTH {
            Err(ErrorModel::TooDeep)
        } else if p < q <= t.len() {
            and_from(t, q, d, left)
        } else {
            Err(ErrorModel::UnexpectedEnd)
        },
    }
}

/// The chain of `and` operands that goes on at `p` after `left`; it groups to the left.
pub open spec fn and_from(t: Seq<TokenModel>, p: int, d: int, left: FilterModel) -> Result<
    (FilterModel, int),
    ErrorModel,
>
    decreases t.len() - p, 2int,
{
    if nth_token(t, p) == Some(TokenModel::And) {
        match operand_at(t, p + 1, d) {
            Err(e) => Err(e),
            Ok((right, q)) => {
                let f = FilterModel::And(Box::new(left), Box::new(right));
                if depth_of(f) > MAX_DEPTH {
                    Err(ErrorModel::TooDeep)
                } else if p < q <= t.len() {
                    and_from(t, q, d, f)
                } else {
                    Err(ErrorModel::UnexpectedEnd)
                }
            },
        }
    } else {
        Ok((left, p))
    }
}

/// A single operand at `p`: a negated group, a group, or an expression over one attribute.
pub open spec fn operand_at(t: Seq<TokenModel>, p: int, d: int) -> Result<
    (FilterModel, int),
    ErrorModel,
>
    decreases t.len() - p, 1int,
{
    if nth_token(t, p) == Some(TokenModel::Not) {
        match missing_at(t, p + 1, TokenModel::LParen) {
            Some(e) => Err(e),
            None => match or_at(t, p + 2, d + 1) {
                Err(e) => Err(e),
                Ok((f, q)) => closed_at(t, q, TokenModel::RParen, FilterModel::Not(Box::new(f))),
            },
        }
    } else if nth_token(t, p) == Some(TokenModel::LParen) {
        match or_at(t, p + 1, d + 1) {
            Err(e) => Err(e),
            Ok((f, q)) => closed_at(t, q, TokenModel::RParen, f),
        }
    } else {
        expression_at(t, p, d)
    }
}

/// An expression over one attribute at `p`: a value path, a presence test or a comparison.
pub open spec fn expression_at(t: Seq<TokenModel>, p: int, d: int) -> Result<
    (FilterModel, int),
    ErrorModel,
>
    decreases t.len() - p, 0int,
{
    match path_at(t, p) {
        Err(e) => Err(e),
        Ok((path, q)) => match nth_token(t, q) {
            Some(TokenModel::LBracket) => {
                proof {
                    lemma_path_end(t, p);
                }
                match or_at(t, q + 1, d + 1) {
                    Err(e) => Err(e),
                    Ok((f, r)) => closed_at(
                        t,
                        r,
                        TokenModel::RBracket,
                        FilterModel::ValuePath(path, Box::new(f)),
                    ),
                }
            },
            Some(TokenModel::Pr) => Ok((FilterModel::Present(path), q + 1)),
            Some(TokenModel::CompareOp(op)) => match comp_value_at(t, q + 1) {
                Err(e) => Err(e),
                Ok((value, r)) => Ok((FilterModel::Compare(path, op, value), r)),
            },
            _ => Err(unexpected_at(t, q)),
        },
    }
}

/// The filter that a whole token sequence spells.
pub open spec fn filter_of(t: Seq<TokenModel>) -> Result<FilterModel, ErrorModel> {
    match or_at(t, 0, 0) {
        Err(e) => Err(e),
        Ok((f, q)) => if q == t.len() {
            Ok(f)
        } else {
            Err(ErrorModel::UnexpectedToken(token_debug(t[q])))
        },
    }
}

/// The filter that a text spells.
pub open spec fn parsed(s: Seq<char>) -> Result<FilterModel, ErrorModel> {
    match lexed(s) {
        Err(e) => Err(e),
        Ok(t) => filter_of(t),
    }
}

/// The filter in brackets and the sub-attribute behind it, from the opening bracket at `p` on.
pub open spec fn bracket_at(t: Seq<TokenModel>, p: int) -> Result<
    (FilterModel, Option<Seq<char>>, int),
    ErrorModel,
> {
    match or_at(t, p + 1, 1) {
        Err(e) => Err(e),
        Ok((f, q)) => match missing_at(t, q, TokenModel::RBracket) {
            Some(e) => Err(e),
            None => if nth_token(t, q + 1) == Some(TokenModel::Dot) {
                match nth_token(t, q + 2) {
                    Some(TokenModel::Ident(sub)) => Ok((f, Some(sub), q + 3)),
                    _ => Err(unexpected_at(t, q + 2)),
                }
            } else {
                Ok((f, None, q + 1))
            },
        },
    }
}

/// The PATCH path that a whole token sequence spells.
pub open spec fn patch_path_of(t: Seq<TokenModel>) -> Result<PatchPathModel, ErrorModel> {
    match path_at(t, 0) {
        Err(e) => Err(e),
        Ok((attr_path, p)) => if nth_token(t, p) == Some(TokenModel::LBracket) {
            if attr_path.sub_attr is Some {
                Err(ErrorModel::UnexpectedToken("LBracket"@))
            } else {
                match bracket_at(t, p) {
                    Err(e) => Err(e),
                    Ok((f, sub, q)) => if q == t.len() {
                        Ok(
                            PatchPathModel {
                                attr_path,
                                value_filter: Some(f),
                                sub_attr_after_filter: sub,
                            },
                        )
                    } else {
                        Err(ErrorModel::UnexpectedToken(token_debug(t[q])))
                    },
                }
            }
        } else if p == t.len() {
            Ok(PatchPathModel { attr_path, value_filter: None, sub_attr_after_filter: None })
        } else {
            Err(ErrorModel::UnexpectedToken(token_debug(t[p])))
        },
    }
}

/// The PATCH path that a text spells.
pub open spec fn parsed_patch_path(s: Seq<char>) -> Result<PatchPathModel, ErrorModel> {
    match lexed(s) {
        Err(e) => Err(e),
        Ok(t) => patch_path_of(t),
    }
}

proof fn lemma_segments_end(t: Seq<TokenModel>, p: int, before: Seq<Seq<char>>)
    requires
        0 <= p <= t.len(),
        before.len() > 0,
    ensures
        segments_at(t, p, before) matches Ok((segments, q)) ==> p <= q <= t.len() && segments.len()
            > 0,
    decreases t.len() - p,
{
    if nth_token(t, p) == Some(TokenModel::Colon) && p + 1 < t.len() {
        if let Some(segment) = segment_text(t[p + 1]) {
            lemma_segments_end(t, p + 2, before.push(segment));
        }
    }
}

/// An attribute path takes up at least one token and ends inside the sequence.
pub proof fn lemma_path_end(t: Seq<TokenModel>, p: int)
    ensures
        path_at(t, p) matches Ok((_, q)) ==> 0 <= p < q <= t.len(),
{
    if let Some(TokenModel::Ident(first)) = nth_token(t, p) {
        lemma_segments_end(t, p + 1, seq![first]);
    }
}

fn op_debug(op: CompareOp) -> (r: &'static str)
    ensures
        r@ == op_name(op),
{
    match op {
        CompareOp::Eq => "Eq",
        CompareOp::Ne => "Ne",
        CompareOp::Co => "Co",
        CompareOp::Sw => "Sw",
        CompareOp::Ew => "Ew",
        CompareOp::Gt => "Gt",
        CompareOp::Ge => "Ge",
        CompareOp::Lt => "Lt",
        CompareOp::Le => "Le",
    }
}

fn show_literal(literal: &str) -> (r: String)
    ensures
        r@ == literal_debug(literal@),
{
    match parse_double_debug(literal) {
        Some(shown) => shown,
        None => {
            let chars = chars_of(literal);
            if chars.len() > 0 && chars[0] == '-' {
                "-inf".to_owned()
            } else {
                "inf".to_owned()
            }
        },
    }
}

fn show_token(token: &Token) -> (r: String)
    ensures
        r@ == token_debug(token@),
{
    match token {
        Token::Ident(s) => joined(&joined("Ident(", &to_quoted(s.as_str())), ")"),
        Token::Number(_, literal) => {
            let start = joined("Number(", &show_literal(literal.as_str()));
            joined(&joined(&joined(&start, ", "), &to_quoted(literal.as_str())), ")")
        },
        Token::String(s) => joined(&joined("String(", &to_quoted(s.as_str())), ")"),
        Token::True => "True".to_owned(),
        Token::False => "False".to_owned(),
        Token::Null => "Null".to_owned(),
        Token::And => "And".to_owned(),
        Token::Or => "Or".to_owned(),
        Token::Not => "Not".to_owned(),
        Token::Pr => "Pr".to_owned(),
        Token::CompareOp(op) => joined(&joined("CompareOp(", op_debug(*op)), ")"),
        Token::LParen => "LParen".to_owned(),
        Token::RParen => "RParen".to_owned(),
        Token::LBracket => "LBracket".to_owned(),
        Token::RBracket => "RBracket".to_owned(),
        Token::Dot => "Dot".to_owned(),
        Token::Colon => "Colon".to_owned(),
    }
}

/// A position in a token sequence.
struct Parser<'a> {
    tokens: &'a Vec<Token>,
    pos: usize,
}

impl<'a> Parser<'a> {
    spec fn t(&self) -> Seq<TokenModel> {
        token_views(self.tokens@)
    }

    spec fn valid(&self) -> bool {
        self.pos <= self.tokens.len()
    }

    fn peek(&self) -> (token: Option<&'a Token>)
        requires
            self.valid(),
        ensures
            (match token {
                Some(x) => Some(x@),
                None => None,
            }) == nth_token(self.t(), self.pos as int),
    {
        if self.pos < self.tokens.len() {
            Some(&self.tokens[self.pos])
        } else {
            None
        }
    }

    fn advance(&mut self) -> (token: Option<&'a Token>)
        requires
            old(self).valid(),
        ensures
            final(self).valid(),
            final(self).tokens == old(self).tokens,
            (match token {
                Some(x) => Some(x@),
                None => None,
            }) == nth_token(old(self).t(), old(self).pos as int),
            final(self).pos == (if token is Some {
                old(self).pos + 1
            } else {
                old(self).pos as int
            }),
    {
        let token = self.peek();
        if token.is_some() {
            self.pos = self.pos + 1;
        }
        token
    }

    fn unexpected(token: Option<&Token>) -> (e: FilterError)
        ensures
            e@ == (match token {
                Some(x) => ErrorModel::UnexpectedToken("Some("@ + token_debug(x@) + ")"@),
                None => ErrorModel::UnexpectedToken("None"@),
            }),
    {
        match token {
            Some(x) => FilterError::UnexpectedToken(joined(&joined("Some(", &show_token(x)), ")")),
            None => FilterError::UnexpectedToken("None".to_owned()),
        }
    }

    fn check_depth(depth: usize) -> (r: Result<(), FilterError>)
        ensures
            r is Ok <==> depth <= MAX_DEPTH,
            r matches Err(e) ==> e == FilterError::TooDeep,
    {
        if depth > MAX_DEPTH {
            Err(FilterError::TooDeep)
        } else {
            Ok(())
        }
    }

    fn filter_depth(f: &Filter) -> (depth: usize)
        requires
            depth_of(f@) <= MAX_DEPTH + 2,
        ensures
            depth == depth_of(f@),
        decreases f,
    {
        match f {
            Filter::Present(_) => 0,
            Filter::Compare(_, _, _) => 0,
            Filter::Not(a) => 1 + Self::filter_depth(a),
            Filter::ValuePath(_, a) => 1 + Self::filter_depth(a),
            Filter::And(a, b) => {
                let x: usize = Self::filter_depth(a);
                let y: usize = Self::filter_depth(b);
                1 + (if x < y {
                    y
                } else {
                    x
                })
            },
            Filter::Or(a, b) => {
                let x: usize = Self::filter_depth(a);
                let y: usize = Self::filter_depth(b);
                1 + (if x < y {
                    y
                } else {
                    x
                })
            },
        }
    }

    /// Takes the opening parenthesis, or the closing parenthesis or bracket, that must stand here.
    fn expect(&mut self, expected: Token) -> (r: Result<(), FilterError>)
        requires
            old(self).valid(),
            expected is LParen || expected is RParen || expected is RBracket,
        ensures
            final(self).valid(),
            final(self).tokens == old(self).tokens,
            (match r {
                Ok(_) => None,
                Err(e) => Some(e@),
            }) == missing_at(old(self).t(), old(self).pos as int, expected@),
            r is Ok ==> final(self).pos == old(self).pos + 1,
    {
        match self.advance() {
            Some(token) => {
                let found = match (token, &expected) {
                    (Token::LParen, Token::LParen) => true,
                    (Token::RParen, Token::RParen) => true,
                    (Token::RBracket, Token::RBracket) => true,
                    _ => false,
                };
                if found {
                    Ok(())
                } else {
                    Err(FilterError::UnexpectedToken(show_token(token)))
                }
            },
            None => Err(FilterError::UnexpectedEnd),
        }
    }

    fn parse_attr_path(&mut self) -> (r: Result<AttrPath, FilterError>)
        requires
            old(self).valid(),
        ensures
            final(self).valid(),
            final(self).tokens == old(self).tokens,
            (match r {
                Ok(path) => Ok((path@, final(self).pos as int)),
                Err(e) => Err(e@),
            }) == path_at(old(self).t(), old(self).pos as int),
    {
        let ghost t = self.t();
        let ghost start = self.pos as int;
        let first = match self.advance() {
            Some(Token::Ident(s)) => s.clone(),
            other => {
                return Err(Self::unexpected(other));
            },
        };
        // The schema URN so far, and the segment that is the attribute's name unless another
        // follows.
        let mut schema_uri: Option<String> = None;
        let mut attr_name = first;
        let ghost mut segments = seq![first@];
        proof {
            assert(segments.drop_last() =~= Seq::<Seq<char>>::empty());
        }
        while matches!(self.peek(), Some(Token::Colon))
            invariant
                self.valid(),
                self.tokens == old(self).tokens,
                t == old(self).t(),
                start == old(self).pos,
                nth_token(t, start) == Some(TokenModel::Ident(first@)),
                segments.len() > 0,
                path_of(segments, None) == (PathModel {
                    schema_uri: text::optional_text(schema_uri),
                    attr_name: attr_name@,
                    sub_attr: None,
                }),
                segments_at(t, start + 1, seq![first@]) == segments_at(
                    t,
                    self.pos as int,
                    segments,
                ),
            decreases self.tokens.len() - self.pos,
        {
            self.advance();
            let next = match self.advance() {
                Some(Token::Ident(s)) => s.clone(),
                Some(Token::Number(_, literal)) => literal.clone(),
                other => {
                    return Err(Self::unexpected(other));
                },
            };
            let ghost before = segments;
            proof {
                segments = segments.push(next@);
                assert(segments.drop_last() =~= before);
                if before.len() == 1 {
                    assert(colon_joined(before) == before[0]);
                }
            }
            schema_uri = match schema_uri {
                Some(uri) => Some(joined(&joined(&uri, ":"), &attr_name)),
                None => Some(attr_name),
            };
            attr_name = next;
        }
        let sub_attr = if matches!(self.peek(), Some(Token::Dot)) {
            self.advance();
            match self.advance() {
                Some(Token::Ident(s)) => Some(s.clone()),
                other => {
                    return Err(Self::unexpected(other));
                },
            }
        } else {
            None
        };
        Ok(AttrPath { schema_uri, attr_name, sub_attr })
    }

    fn parse_comp_value(&mut self) -> (r: Result<CompValue, FilterError>)
        requires
            old(self).valid(),
        ensures
            final(self).valid(),
            final(self).tokens == old(self).tokens,
            (match r {
                Ok(value) => Ok((value@, final(self).pos as int)),
                Err(e) => Err(e@),
            }) == comp_value_at(old(self).t(), old(self).pos as int),
            r is Ok ==> final(self).pos == old(self).pos + 1,
    {
        match self.advance() {
            Some(Token::True) => Ok(CompValue::True),
            Some(Token::False) => Ok(CompValue::False),
            Some(Token::Null) => Ok(CompValue::Null),
            Some(Token::Number(bits, literal)) => Ok(CompValue::Number(*bits, literal.clone())),
            Some(Token::String(s)) => Ok(CompValue::String(s.clone())),
            other => Err(Self::unexpected(other)),
        }
    }

    /// `FILTER`: with the precedence of RFC 7644, `not` before `and` before `or`, as levels of the
    /// grammar.
    fn parse_filter(&mut self, depth: usize) -> (r: Result<Filter, FilterError>)
        requires
            old(self).valid(),
            depth <= MAX_DEPTH + 1,
        ensures
            final(self).valid(),
            final(self).tokens == old(self).tokens,
            (match r {
                Ok(f) => Ok((f@, final(self).pos as int)),
                Err(e) => Err(e@),
            }) == or_at(old(self).t(), old(self).pos as int, depth as int),
            r matches Ok(f) ==> old(self).pos < final(self).pos && depth_of(f@) <= MAX_DEPTH,
        decreases old(self).tokens.len() - old(self).pos, 4int,
    {
        match Self::check_depth(depth) {
            Ok(_) => self.parse_or(depth),
            Err(e) => Err(e),
        }
    }

    fn parse_or(&mut self, depth: usize) -> (r: Result<Filter, FilterError>)
        requires
            old(self).valid(),
            depth <= MAX_DEPTH,
        ensures
            final(self).valid(),
            final(self).tokens == old(self).tokens,
            (match r {
                Ok(f) => Ok((f@, final(self).pos as int)),
                Err(e) => Err(e@),
            }) == or_at(old(self).t(), old(self).pos as int, depth as int),
            r matches Ok(f) ==> old(self).pos < final(self).pos && depth_of(f@) <= MAX_DEPTH,
        decreases old(self).tokens.len() - old(self).pos, 3int,
    {
        let ghost t = self.t();
        let ghost start = self.pos as int;
        let mut left = match self.parse_and(depth) {
            Ok(f) => f,
            Err(e) => {
                return Err(e);
            },
        };
        while matches!(self.peek(), Some(Token::Or))
            invariant
                self.valid(),
                self.tokens == old(self).tokens,
                t == old(self).t(),
                start == old(self).pos,
                start < self.pos,
                depth <= MAX_DEPTH,
                depth_of(left@) <= MAX_DEPTH,
                or_at(t, start, depth as int) == or_from(t, self.pos as int, depth as int, left@),
            decreases self.tokens.len() - self.pos,
        {
            self.advance();
            let right = match self.parse_and(depth) {
                Ok(f) => f,
                Err(e) => {
                    return Err(e);
                },
            };
            left = Filter::Or(Box::new(left), Box::new(right));
            match Self::check_depth(Self::filter_depth(&left)) {
                Ok(_) => {},
                Err(e) => {
                    return Err(e);
                },
            }
        }
        Ok(left)
    }

    fn parse_and(&mut self, depth: usize) -> (r: Result<Filter, FilterError>)
        requires
            old(self).valid(),
            depth <= MAX_DEPTH,
        ensures
            final(self).valid(),
            final(self).tokens == old(self).tokens,
            (match r {
                Ok(f) => Ok((f@, final(self).pos as int)),
                Err(e) => Err(e@),
            }) == and_at(old(self).t(), old(self).pos as int, depth as int),
            r matches Ok(f) ==> old(self).pos < final(self).pos && depth_of(f@) <= MAX_DEPTH,
        decreases old(self).tokens.len() - old(self).pos, 2int,
    {
        let ghost t = self.t();
        let ghost start = self.pos as int;
        let mut left = match self.parse_filter_unary(depth) {
            Ok(f) => f,
            Err(e) => {
                return Err(e);
            },
        };
        match Self::check_depth(Self::filter_depth(&left)) {
            Ok(_) => {},
            Err(e) => {
                return Err(e);
            },
        }
        while matches!(self.peek(), Some(Token::And))
            invariant
                self.valid(),
                self.tokens == old(self).tokens,
                t == old(self).t(),
                start == old(self).pos,
                start < self.pos,
                depth <= MAX_DEPTH,
                depth_of(left@) <= MAX_DEPTH,
                and_at(t, start, depth as int) == and_from(t, self.pos as int, depth as int, left@),
            decreases self.tokens.len() - self.pos,
        {
            self.advance();
            let right = match self.parse_filter_unary(depth) {
                Ok(f) => f,
                Err(e) => {
                    return Err(e);
                },
            };
            left = Filter::And(Box::new(left), Box::new(right));
            match Self::check_depth(Self::filter_depth(&left)) {
                Ok(_) => {},
                Err(e) => {
                    return Err(e);
                },
            }
        }
        Ok(left)
    }

    fn parse_filter_unary(&mut self, depth: usize) -> (r: Result<Filter, FilterError>)
        requires
            old(self).valid(),
            depth <= MAX_DEPTH,
        ensures
            final(self).valid(),
            final(self).tokens == old(self).tokens,
            (match r {
                Ok(f) => Ok((f@, final(self).pos as int)),
                Err(e) => Err(e@),
            }) == operand_at(old(self).t(), old(self).pos as int, depth as int),
            r matches Ok(f) ==> old(self).pos < final(self).pos && depth_of(f@) <= MAX_DEPTH + 1,
        decreases old(self).tokens.len() - old(self).pos, 1int,
    {
        if matches!(self.peek(), Some(Token::Not)) {
            self.advance();
            match self.expect(Token::LParen) {
                Ok(_) => {},
                Err(e) => {
                    return Err(e);
                },
            }
            let inner = match self.parse_filter(depth + 1) {
                Ok(f) => f,
                Err(e) => {
                    return Err(e);
                },
            };
            return match self.expect(Token::RParen) {
                Ok(_) => Ok(Filter::Not(Box::new(inner))),
                Err(e) => Err(e),
            };
        }
        if matches!(self.peek(), Some(Token::LParen)) {
            self.advance();
            let inner = match self.parse_filter(depth + 1) {
                Ok(f) => f,
                Err(e) => {
                    return Err(e);
                },
            };
            return match self.expect(Token::RParen) {
                Ok(_) => Ok(inner),
                Err(e) => Err(e),
            };
        }
        self.parse_attr_exp_or_value_path(depth)
    }

    fn parse_attr_exp_or_value_path(&mut self, depth: usize) -> (r: Result<Filter, FilterError>)
        requires
            old(self).valid(),
            depth <= MAX_DEPTH,
        ensures
            final(self).valid(),
            final(self).tokens == old(self).tokens,
            (match r {
                Ok(f) => Ok((f@, final(self).pos as int)),
                Err(e) => Err(e@),
            }) == expression_at(old(self).t(), old(self).pos as int, depth as int),
            r matches Ok(f) ==> old(self).pos < final(self).pos && depth_of(f@) <= MAX_DEPTH + 1,
        decreases old(self).tokens.len() - old(self).pos, 0int,
    {
        proof {
            lemma_path_end(self.t(), self.pos as int);
        }
        let path = match self.parse_attr_path() {
            Ok(path) => path,
            Err(e) => {
                return Err(e);
            },
        };
        if matches!(self.peek(), Some(Token::LBracket)) {
            self.advance();
            let inner = match self.parse_val_filter(depth + 1) {
                Ok(f) => f,
                Err(e) => {
                    return Err(e);
                },
            };
            return match self.expect(Token::RBracket) {
                Ok(_) => Ok(Filter::ValuePath(path, Box::new(inner))),
                Err(e) => Err(e),
            };
        }
        match self.advance() {
            Some(Token::Pr) => Ok(Filter::Present(path)),
            Some(Token::CompareOp(op)) => {
                let op = *op;
                match self.parse_comp_value() {
                    Ok(value) => Ok(Filter::Compare(path, op, value)),
                    Err(e) => Err(e),
                }
            },
            other => Err(Self::unexpected(other)),
        }
    }

    /// `valFilter`: the same grammar as a filter, one level deeper.
    fn parse_val_filter(&mut self, depth: usize) -> (r: Result<Filter, FilterError>)
        requires
            old(self).valid(),
            depth <= MAX_DEPTH + 1,
        ensures
            final(self).valid(),
            final(self).tokens == old(self).tokens,
            (match r {
                Ok(f) => Ok((f@, final(self).pos as int)),
                Err(e) => Err(e@),
            }) == or_at(old(self).t(), old(self).pos as int, depth as int),
            r matches Ok(f) ==> old(self).pos < final(self).pos && depth_of(f@) <= MAX_DEPTH,
        decreases old(self).tokens.len() - old(self).pos, 5int,
    {
        self.parse_filter(depth)
    }
}

/// Parses a filter.
pub fn parse(input: &str) -> (r: Result<Filter, FilterError>)
    ensures
        (match r {
            Ok(f) => Ok(f@),
            Err(e) => Err(e@),
        }) == parsed(input@),
        r matches Ok(f) ==> depth_of(f@) <= MAX_DEPTH,
{
    let tokens = match tokenize(input) {
        Ok(tokens) => tokens,
        Err(e) => {
            return Err(e);
        },
    };
    let mut parser = Parser { tokens: &tokens, pos: 0 };
    let filter = match parser.parse_filter(0) {
        Ok(f) => f,
        Err(e) => {
            return Err(e);
        },
    };
    if parser.pos != tokens.len() {
        return Err(FilterError::UnexpectedToken(show_token(&tokens[parser.pos])));
    }
    Ok(filter)
}

/// Parses the path of a PATCH operation.
pub fn parse_patch_path(input: &str) -> (r: Result<PatchPath, FilterError>)
    ensures
        (match r {
            Ok(path) => Ok(path@),
            Err(e) => Err(e@),
        }) == parsed_patch_path(input@),
        r matches Ok(path) ==> {
            &&& path.value_filter matches Some(f) ==> depth_of(f@) <= MAX_DEPTH
            &&& !(path.attr_path.sub_attr is Some && path.value_filter is Some)
            &&& path.sub_attr_after_filter is Some ==> path.value_filter is Some
        },
{
    let tokens = match tokenize(input) {
        Ok(tokens) => tokens,
        Err(e) => {
            return Err(e);
        },
    };
    let mut parser = Parser { tokens: &tokens, pos: 0 };
    let attr_path = match parser.parse_attr_path() {
        Ok(path) => path,
        Err(e) => {
            return Err(e);
        },
    };
    if attr_path.sub_attr.is_some() && matches!(parser.peek(), Some(Token::LBracket)) {
        // A dotted sub-attribute may only follow a bracket filter, never precede one.
        return Err(FilterError::UnexpectedToken(show_token(&Token::LBracket)));
    }
    let (value_filter, sub_attr_after_filter) = if matches!(parser.peek(), Some(Token::LBracket)) {
        parser.advance();
        let inner = match parser.parse_val_filter(1) {
            Ok(f) => f,
            Err(e) => {
                return Err(e);
            },
        };
        match parser.expect(Token::RBracket) {
            Ok(_) => {},
            Err(e) => {
                return Err(e);
            },
        }
        let trailing = if matches!(parser.peek(), Some(Token::Dot)) {
            parser.advance();
            match parser.advance() {
                Some(Token::Ident(s)) => Some(s.clone()),
                other => {
                    return Err(Parser::unexpected(other));
                },
            }
        } else {
            None
        };
        (Some(inner), trailing)
    } else {
        (None, None)
    };
    if parser.pos != tokens.len() {
        return Err(FilterError::UnexpectedToken(show_token(&tokens[parser.pos])));
    }
    Ok(PatchPath { attr_path, value_filter, sub_attr_after_filter })
}

} // verus!
