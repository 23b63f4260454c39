//! The token model: a closed set of lexical categories with per-variant
//! payloads, the fixed keyword set, and the character-class predicates used
//! by the tokenizer's multi-character lexeme scans.

use vstd::prelude::*;

verus! {

/// True iff `c` may occur in a keyword: keywords are lowercase words.
pub open spec fn spec_keyword_char(c: char) -> bool {
    'a' <= c <= 'z'
}

/// The identifier grammar, one character at a time: the first character of an
/// identifier is a letter or an underscore; later characters may also be
/// digits.
pub open spec fn spec_identifier_char(c: char, beginning: bool) -> bool {
    ||| 'a' <= c <= 'z'
    ||| 'A' <= c <= 'Z'
    ||| c == '_'
    ||| (!beginning && '0' <= c <= '9')
}

/// The fixed keyword set: the type name `u8` and the statement keyword
/// `return`. Membership is by exact match, never by prefix.
pub open spec fn spec_is_keyword(s: Seq<char>) -> bool {
    ||| s == seq!['u', '8']
    ||| s == seq!['r', 'e', 't', 'u', 'r', 'n']
}

/// True iff `string` is one of the language's reserved words.
pub fn is_keyword(string: &str) -> (r: bool)
    ensures
        r == spec_is_keyword(string@),
{
    let len = string.unicode_len();
    if len == 2 {
        let r = string.get_char(0) == 'u' && string.get_char(1) == '8';
        proof {
            if r {
                assert(string@ =~= seq!['u', '8']);
            } else {
                assert(string@ != seq!['r', 'e', 't', 'u', 'r', 'n']);
            }
        }
        r
    } else if len == 6 {
        let r = string.get_char(0) == 'r' && string.get_char(1) == 'e' && string.get_char(2)
            == 't' && string.get_char(3) == 'u' && string.get_char(4) == 'r' && string.get_char(5)
            == 'n';
        proof {
            if r {
                assert(string@ =~= seq!['r', 'e', 't', 'u', 'r', 'n']);
            } else {
                assert(string@ != seq!['u', '8']);
            }
        }
        r
    } else {
        false
    }
}

/// The identifier grammar over a whole lexeme: non-empty, an
/// identifier-start character first, identifier-continue characters after.
pub open spec fn spec_identifier_text(t: Seq<char>) -> bool {
    &&& t.len() >= 1
    &&& spec_identifier_char(t[0], true)
    &&& forall|k: int| 1 <= k < t.len() ==> spec_identifier_char(#[trigger] t[k], false)
}

/// A character the greedy lexeme scan may start on: an identifier-start
/// character or a keyword character.
pub open spec fn spec_word_start(c: char) -> bool {
    spec_identifier_char(c, true) || spec_keyword_char(c)
}

/// A character the greedy lexeme scan keeps consuming: an
/// identifier-continue character or a keyword character.
pub open spec fn spec_word_continue(c: char) -> bool {
    spec_identifier_char(c, false) || spec_keyword_char(c)
}

/// Whether a bracket-family token opens or closes; shared structurally by the
/// three independent bracket families.
#[derive(Copy, Clone, Debug, PartialEq, Eq, Structural)]
pub enum BracketType {
    Opening,
    Closing,
}

/// The closed set of operator kinds; each lexeme maps to exactly one kind.
#[derive(Copy, Clone, Debug, PartialEq, Eq, Structural)]
pub enum OperatorType {
    /// `::`
    ScopeAccessor,
    /// `->`
    MemberAccessor,
    /// `<`
    GenericBlockBegin,
    /// `>`
    GenericBlockEnd,
    /// `:`
    TypeSpecifier,
    /// `->`
    ReturnType,
    /// `,`
    CommaSeparator,
    /// `;`
    StatementTerminator,
    /// `+`
    Addition,
    /// `-`
    Subtraction,
    /// `*`
    Multiplication,
    /// `/`
    Division,
    /// `%`
    Modulo,
    /// `==`
    Equals,
    /// `!=`
    NotEquals,
    /// `<`
    LessThan,
    /// `<=`
    LessThanOrEqual,
    /// `>`
    GreaterThan,
    /// `>=`
    GreaterThanOrEqual,
    /// `&&`
    LogicalAnd,
    /// `||`
    LogicalOr,
    /// `!`
    LogicalNot,
    /// `&`
    BitwiseAnd,
    /// `^`
    BitwiseXOr,
    /// `|`
    BitwiseOr,
    /// `~`
    BitwiseNot,
    /// `>>`
    BitwiseRightShift,
    /// `<<`
    BitwiseLeftShift,
    /// `=`
    ValueAssignment,
    /// `+=`
    AdditionAssignment,
    /// `-=`
    SubtractionAssignment,
    /// `*=`
    MultiplicationAssignment,
    /// `/=`
    DivisionAssignment,
    /// `%=`
    ModuloAssignment,
    /// `++`
    Increment,
    /// `--`
    Decrement,
    /// `>>=`
    BitwiseRightShiftAssignment,
    /// `<<=`
    BitwiseLeftShiftAssignment,
    /// `&=`
    BitwiseAndAssignment,
    /// `^=`
    BitwiseXOrAssignment,
    /// `|=`
    BitwiseOrAssignment,
}

/// Marks the unique, final token of every tokenization.
#[derive(Debug)]
pub struct EndOfFile;

impl Default for EndOfFile {
    fn default() -> (r: Self)
        ensures
            r == (EndOfFile {}),
    {
        EndOfFile {}
    }
}

/// One token per `\n` character consumed.
#[derive(Debug)]
pub struct NewLine;

impl Default for NewLine {
    fn default() -> (r: Self)
        ensures
            r == (NewLine {}),
    {
        NewLine {}
    }
}

/// One token per maximal run of consecutive space characters; the run length
/// is not retained.
#[derive(Debug)]
pub struct Whitespace;

impl Default for Whitespace {
    fn default() -> (r: Self)
        ensures
            r == (Whitespace {}),
    {
        Whitespace {}
    }
}

/// A reserved word of the language.
#[derive(Debug)]
pub struct Keyword {
    pub keyword: String,
}

impl Keyword {
    /// The text of a keyword, as a sequence of characters.
    pub open spec fn view(&self) -> Seq<char> {
        self.keyword@
    }

    /// True iff `character` may occur in a keyword.
    pub fn is_valid_char(character: &char) -> (r: bool)
        ensures
            r == spec_keyword_char(*character),
    {
        'a' <= *character && *character <= 'z'
    }

    /// The keyword's text.
    pub fn keyword(&self) -> (r: String)
        ensures
            r@ == self@,
    {
        self.keyword.clone()
    }
}

impl From<String> for Keyword {
    fn from(string: String) -> (r: Self) {
        Keyword { keyword: string }
    }
}

impl vstd::std_specs::convert::FromSpecImpl<String> for Keyword {
    open spec fn obeys_from_spec() -> bool {
        true
    }

    open spec fn from_spec(string: String) -> Keyword {
        Keyword { keyword: string }
    }
}

/// A name that matches the identifier grammar and is not a reserved word.
#[derive(Debug)]
pub struct Identifier {
    pub identifier: String,
}

impl Identifier {
    /// The text of an identifier, as a sequence of characters.
    pub open spec fn view(&self) -> Seq<char> {
        self.identifier@
    }

    /// True iff `character` may occur in an identifier at the given place:
    /// `beginning` says whether it would be the first character.
    pub fn is_valid_char(character: &char, beginning: bool) -> (r: bool)
        ensures
            r == spec_identifier_char(*character, beginning),
    {
        ('a' <= *character && *character <= 'z') || ('A' <= *character && *character <= 'Z') || (
        *character == '_') || (if beginning {
            false
        } else {
            '0' <= *character && *character <= '9'
        })
    }

    /// The identifier's text.
    pub fn identifier(&self) -> (r: String)
        ensures
            r@ == self@,
    {
        self.identifier.clone()
    }
}

impl From<String> for Identifier {
    fn from(string: String) -> (r: Self) {
        Identifier { identifier: string }
    }
}

impl vstd::std_specs::convert::FromSpecImpl<String> for Identifier {
    open spec fn obeys_from_spec() -> bool {
        true
    }

    open spec fn from_spec(string: String) -> Identifier {
        Identifier { identifier: string }
    }
}

/// A round bracket, `(` or `)`.
#[derive(Copy, Clone, Debug)]
pub struct Parenthesis {
    pub bracket_type: BracketType,
}

impl Parenthesis {
    /// The direction this token was built with.
    pub open spec fn view(&self) -> BracketType {
        self.bracket_type
    }

    /// Whether this parenthesis opens or closes.
    pub fn bracket_type(&self) -> (r: BracketType)
        ensures
            r == self@,
    {
        self.bracket_type
    }

    /// An opening parenthesis.
    pub fn open() -> (r: Self)
        ensures
            r@ == BracketType::Opening,
    {
        Parenthesis::from(BracketType::Opening)
    }

    /// A closing parenthesis.
    pub fn close() -> (r: Self)
        ensures
            r@ == BracketType::Closing,
    {
        Parenthesis::from(BracketType::Closing)
    }
}

impl From<BracketType> for Parenthesis {
    fn from(bracket_type: BracketType) -> (r: Self) {
        Parenthesis { bracket_type }
    }
}

impl vstd::std_specs::convert::FromSpecImpl<BracketType> for Parenthesis {
    open spec fn obeys_from_spec() -> bool {
        true
    }

    open spec fn from_spec(bracket_type: BracketType) -> Parenthesis {
        Parenthesis { bracket_type }
    }
}

/// A square bracket, `[` or `]`.
#[derive(Copy, Clone, Debug)]
pub struct Bracket {
    pub bracket_type: BracketType,
}

impl Bracket {
    /// The direction this token was built with.
    pub open spec fn view(&self) -> BracketType {
        self.bracket_type
    }

    /// Whether this bracket opens or closes.
    pub fn bracket_type(&self) -> (r: BracketType)
        ensures
            r == self@,
    {
        self.bracket_type
    }

    /// An opening bracket.
    pub fn open() -> (r: Self)
        ensures
            r@ == BracketType::Opening,
    {
        Bracket::from(BracketType::Opening)
    }

    /// A closing bracket.
    pub fn close() -> (r: Self)
        ensures
            r@ == BracketType::Closing,
    {
        Bracket::from(BracketType::Closing)
    }
}

impl From<BracketType> for Bracket {
    fn from(bracket_type: BracketType) -> (r: Self) {
        Bracket { bracket_type }
    }
}

impl vstd::std_specs::convert::FromSpecImpl<BracketType> for Bracket {
    open spec fn obeys_from_spec() -> bool {
        true
    }

    open spec fn from_spec(bracket_type: BracketType) -> Bracket {
        Bracket { bracket_type }
    }
}

/// A curly brace, `{` or `}`.
#[derive(Copy, Clone, Debug)]
pub struct Brace {
    pub bracket_type: BracketType,
}

impl Brace {
    /// The direction this token was built with.
    pub open spec fn view(&self) -> BracketType {
        self.bracket_type
    }

    /// Whether this brace opens or closes.
    pub fn bracket_type(&self) -> (r: BracketType)
        ensures
            r == self@,
    {
        self.bracket_type
    }

    /// An opening brace.
    pub fn open() -> (r: Self)
        ensures
            r@ == BracketType::Opening,
    {
        Brace::from(BracketType::Opening)
    }

    /// A closing brace.
    pub fn close() -> (r: Self)
        ensures
            r@ == BracketType::Closing,
    {
        Brace::from(BracketType::Closing)
    }
}

impl From<BracketType> for Brace {
    fn from(bracket_type: BracketType) -> (r: Self) {
        Brace { bracket_type }
    }
}

impl vstd::std_specs::convert::FromSpecImpl<BracketType> for Brace {
    open spec fn obeys_from_spec() -> bool {
        true
    }

    open spec fn from_spec(bracket_type: BracketType) -> Brace {
        Brace { bracket_type }
    }
}

/// An operator token, carrying its kind.
#[derive(Copy, Clone, Debug)]
pub struct Operator {
    pub operator_type: OperatorType,
}

impl Operator {
    /// The kind this token was built with.
    pub open spec fn view(&self) -> OperatorType {
        self.operator_type
    }

    /// The operator's kind.
    pub fn operator_type(&self) -> (r: OperatorType)
        ensures
            r == self@,
    {
        self.operator_type
    }
}

impl From<OperatorType> for Operator {
    fn from(operator_type: OperatorType) -> (r: Self) {
        Operator { operator_type }
    }
}

impl vstd::std_specs::convert::FromSpecImpl<OperatorType> for Operator {
    open spec fn obeys_from_spec() -> bool {
        true
    }

    open spec fn from_spec(operator_type: OperatorType) -> Operator {
        Operator { operator_type }
    }
}

/// One lexical unit: a closed tagged-variant type with one case per token
/// kind and kind-specific payload.
#[derive(Debug)]
pub enum Token {
    EndOfFile(EndOfFile),
    NewLine(NewLine),
    Whitespace(Whitespace),
    Keyword(Keyword),
    Identifier(Identifier),
    Parenthesis(Parenthesis),
    Bracket(Bracket),
    Brace(Brace),
    Operator(Operator),
}

/// The mathematical model of a token: the same closed set of categories,
/// with text payloads as character sequences.
pub enum TokenModel {
    EndOfFile,
    NewLine,
    Whitespace,
    Keyword(Seq<char>),
    Identifier(Seq<char>),
    Parenthesis(BracketType),
    Bracket(BracketType),
    Brace(BracketType),
    Operator(OperatorType),
}

impl View for Token {
    type V = TokenModel;

    open spec fn view(&self) -> TokenModel {
        match self {
            Token::EndOfFile(_) => TokenModel::EndOfFile,
            Token::NewLine(_) => TokenModel::NewLine,
            Token::Whitespace(_) => TokenModel::Whitespace,
            Token::Keyword(k) => TokenModel::Keyword(k@),
            Token::Identifier(i) => TokenModel::Identifier(i@),
            Token::Parenthesis(p) => TokenModel::Parenthesis(p@),
            Token::Bracket(b) => TokenModel::Bracket(b@),
            Token::Brace(b) => TokenModel::Brace(b@),
            Token::Operator(o) => TokenModel::Operator(o@),
        }
    }
}

/// Variant identity: true iff the two models are of the same token kind,
/// whatever their payloads.
pub open spec fn spec_same_kind(a: TokenModel, b: TokenModel) -> bool {
    match (a, b) {
        (TokenModel::EndOfFile, TokenModel::EndOfFile) => true,
        (TokenModel::NewLine, TokenModel::NewLine) => true,
        (TokenModel::Whitespace, TokenModel::Whitespace) => true,
        (TokenModel::Keyword(_), TokenModel::Keyword(_)) => true,
        (TokenModel::Identifier(_), TokenModel::Identifier(_)) => true,
        (TokenModel::Parenthesis(_), TokenModel::Parenthesis(_)) => true,
        (TokenModel::Bracket(_), TokenModel::Bracket(_)) => true,
        (TokenModel::Brace(_), TokenModel::Brace(_)) => true,
        (TokenModel::Operator(_), TokenModel::Operator(_)) => true,
        _ => false,
    }
}

impl Token {
    /// Coarse token equality: two tokens are compared by kind alone, not by
    /// payload. This deliberately mirrors the token model's identity rule.
    pub fn same_kind(&self, other: &Token) -> (r: bool)
        ensures
            r == spec_same_kind(self@, other@),
    {
        match (self, other) {
            (Token::EndOfFile(_), Token::EndOfFile(_)) => true,
            (Token::NewLine(_), Token::NewLine(_)) => true,
            (Token::Whitespace(_), Token::Whitespace(_)) => true,
            (Token::Keyword(_), Token::Keyword(_)) => true,
            (Token::Identifier(_), Token::Identifier(_)) => true,
            (Token::Parenthesis(_), Token::Parenthesis(_)) => true,
            (Token::Bracket(_), Token::Bracket(_)) => true,
            (Token::Brace(_), Token::Brace(_)) => true,
            (Token::Operator(_), Token::Operator(_)) => true,
            _ => false,
        }
    }
}

} // verus!
