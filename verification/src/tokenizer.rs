//! The tokenizer and its caret tracker.

use vstd::prelude::*;

use crate::token::{
    is_keyword,
    spec_identifier_char,
    spec_identifier_text,
    spec_is_keyword,
    spec_word_continue,
    spec_word_start,
    Brace,
    BracketType,
    EndOfFile,
    Identifier,
    Keyword,
    NewLine,
    Operator,
    OperatorType,
    Parenthesis,
    Token,
    TokenModel,
    Whitespace,
};

verus! {

/// Relies on String::push: appends the given character to the end of the
/// string.
pub assume_specification[ String::push ](s: &mut String, ch: char)
    ensures
        final (s)@ == old(s)@.push(ch),
;

/// The tokenizer's read cursor: 1-based line and column, advanced one
/// character at a time and never decremented within a pass.
#[derive(Clone, Copy, Debug, PartialEq, Eq, Structural)]
pub struct CaretPos {
    pub line: usize,
    pub column: usize,
}

/// How one character moves the caret: consuming any character first advances
/// the column by one; consuming a newline then starts the next line, so its
/// net effect is a new line with the column back at 1. End of input (no
/// character) leaves the caret where it was.
pub open spec fn spec_process_char(p: CaretPos, c: Option<char>) -> CaretPos {
    match c {
        Option::None => p,
        Option::Some(ch) => if ch == '\n' {
            CaretPos { line: (p.line + 1) as usize, column: 1 }
        } else {
            CaretPos { line: p.line, column: (p.column + 1) as usize }
        },
    }
}

/// The decimal digit character for `d`.
pub open spec fn spec_dec_digit(d: nat) -> char
    recommends
        d < 10,
{
    if d == 0 {
        '0'
    } else if d == 1 {
        '1'
    } else if d == 2 {
        '2'
    } else if d == 3 {
        '3'
    } else if d == 4 {
        '4'
    } else if d == 5 {
        '5'
    } else if d == 6 {
        '6'
    } else if d == 7 {
        '7'
    } else if d == 8 {
        '8'
    } else {
        '9'
    }
}

/// The decimal rendering of `n`, most significant digit first, with no
/// leading zero except for `n == 0` itself.
pub open spec fn spec_dec(n: nat) -> Seq<char>
    decreases n,
{
    if n < 10 {
        seq![spec_dec_digit(n)]
    } else {
        spec_dec(n / 10).push(spec_dec_digit(n % 10))
    }
}

/// The caret's diagnostic rendering: `:<line>:<column>`.
pub open spec fn spec_caret_display(p: CaretPos) -> Seq<char> {
    seq![':'] + spec_dec(p.line as nat) + seq![':'] + spec_dec(p.column as nat)
}

/// The decimal digit character for `d`.
fn dec_digit(d: usize) -> (r: char)
    requires
        d < 10,
    ensures
        r == spec_dec_digit(d as nat),
{
    if d == 0 {
        '0'
    } else if d == 1 {
        '1'
    } else if d == 2 {
        '2'
    } else if d == 3 {
        '3'
    } else if d == 4 {
        '4'
    } else if d == 5 {
        '5'
    } else if d == 6 {
        '6'
    } else if d == 7 {
        '7'
    } else if d == 8 {
        '8'
    } else {
        '9'
    }
}

/// Appends the decimal rendering of `n` to `out`.
fn push_dec(n: usize, out: &mut String)
    ensures
        final (out)@ == old(out)@ + spec_dec(n as nat),
    decreases n,
{
    if n >= 10 {
        push_dec(n / 10, out);
    }
    let d = dec_digit(n % 10);
    out.push(d);
    proof {
        assert(out@ =~= old(out)@ + spec_dec(n as nat));
    }
}

impl CaretPos {
    /// A caret position is always 1-based.
    pub open spec fn wf(&self) -> bool {
        1 <= self.line && 1 <= self.column
    }

    fn reset_column(&mut self)
        ensures
            final (self).line == old(self).line,
            final (self).column == 1,
    {
        self.column = 1;
    }

    fn increment_line(&mut self)
        requires
            old(self).line < usize::MAX,
        ensures
            final (self).line == old(self).line + 1,
            final (self).column == old(self).column,
    {
        self.line = self.line + 1;
    }

    fn increment_column(&mut self)
        requires
            old(self).column < usize::MAX,
        ensures
            final (self).line == old(self).line,
            final (self).column == old(self).column + 1,
    {
        self.column = self.column + 1;
    }

    fn new_line(&mut self)
        requires
            old(self).line < usize::MAX,
        ensures
            final (self).line == old(self).line + 1,
            final (self).column == 1,
    {
        self.increment_line();
        self.reset_column();
    }

    /// The current line, 1-based.
    pub fn get_line(&self) -> (r: usize)
        ensures
            r == self.line,
    {
        self.line
    }

    /// The current column, 1-based.
    pub fn get_column(&self) -> (r: usize)
        ensures
            r == self.column,
    {
        self.column
    }

    /// Consumes one character, or the end-of-input signal (`None`), which
    /// leaves the position untouched.
    pub fn process_char(&mut self, c: Option<char>)
        requires
            c is Some ==> old(self).column < usize::MAX,
            c == Some('\n') ==> old(self).line < usize::MAX,
        ensures
            *final (self) == spec_process_char(*old(self), c),
    {
        if c.is_none() {
            return ;
        }
        self.increment_column();
        if let Some('\n') = c {
            self.new_line();
        }
    }

    /// The diagnostic rendering `:<line>:<column>`, for embedding in error
    /// messages.
    pub fn display_string(&self) -> (r: String)
        ensures
            r@ == spec_caret_display(*self),
    {
        let mut out = String::new();
        out.push(':');
        push_dec(self.line, &mut out);
        out.push(':');
        push_dec(self.column, &mut out);
        proof {
            assert(out@ =~= spec_caret_display(*self));
        }
        out
    }
}

/// The caret tracker's invariant: processing any character (or the
/// end-of-input signal) keeps the position 1-based and never decreases the
/// line; the column only ever falls back to 1, and only on a newline.
pub proof fn lemma_process_char_keeps_wf(p: CaretPos, c: Option<char>)
    requires
        p.wf(),
        c is Some ==> p.column < usize::MAX,
        c == Some('\n') ==> p.line < usize::MAX,
    ensures
        spec_process_char(p, c).wf(),
        spec_process_char(p, c).line >= p.line,
        spec_process_char(p, c).column < p.column ==> c == Some('\n')
            && spec_process_char(p, c).column == 1,
{
}

impl Default for CaretPos {
    /// The caret starts at line 1, column 1.
    fn default() -> (r: Self)
        ensures
            r == (CaretPos { line: 1, column: 1 }),
    {
        CaretPos { line: 1, column: 1 }
    }
}

impl From<(usize, usize)> for CaretPos {
    fn from(pos: (usize, usize)) -> (r: Self) {
        CaretPos { line: pos.0, column: pos.1 }
    }
}

impl vstd::std_specs::convert::FromSpecImpl<(usize, usize)> for CaretPos {
    open spec fn obeys_from_spec() -> bool {
        true
    }

    open spec fn from_spec(pos: (usize, usize)) -> CaretPos {
        CaretPos { line: pos.0, column: pos.1 }
    }
}

/// A structured, recoverable lexical error: the one defined failure of
/// tokenization, carrying the offending character and the caret's position
/// when the character was rejected.
#[derive(Clone, Copy, Debug, PartialEq, Eq, Structural)]
pub enum LexError {
    UnrecognizedCharacter { character: char, position: CaretPos },
}

/// The mathematical model of a lexical error, with unbounded coordinates.
pub struct LexErrorModel {
    pub character: char,
    pub line: int,
    pub column: int,
}

impl View for LexError {
    type V = LexErrorModel;

    open spec fn view(&self) -> LexErrorModel {
        match self {
            LexError::UnrecognizedCharacter { character, position } => LexErrorModel {
                character: *character,
                line: position.line as int,
                column: position.column as int,
            },
        }
    }
}

/// The length of the run of space characters at the head of `s`.
pub open spec fn space_run_len(s: Seq<char>) -> nat
    decreases s.len(),
{
    if s.len() == 0 || s[0] != ' ' {
        0
    } else {
        1 + space_run_len(s.skip(1))
    }
}

/// The length of the run of scan-continue characters at the head of `s`.
pub open spec fn word_run_len(s: Seq<char>) -> nat
    decreases s.len(),
{
    if s.len() == 0 || !spec_word_continue(s[0]) {
        0
    } else {
        1 + word_run_len(s.skip(1))
    }
}

pub proof fn lemma_space_run_len_le(s: Seq<char>)
    ensures
        space_run_len(s) <= s.len(),
    decreases s.len(),
{
    if !(s.len() == 0 || s[0] != ' ') {
        lemma_space_run_len_le(s.skip(1));
    }
}

pub proof fn lemma_word_run_len_le(s: Seq<char>)
    ensures
        word_run_len(s) <= s.len(),
    decreases s.len(),
{
    if !(s.len() == 0 || !spec_word_continue(s[0])) {
        lemma_word_run_len_le(s.skip(1));
    }
}

/// The head run of spaces is exactly `k` long when the first `k` characters
/// are spaces and the next one, if any, is not.
pub proof fn lemma_space_run_len_exact(s: Seq<char>, k: int)
    requires
        0 <= k <= s.len(),
        forall|j: int| 0 <= j < k ==> s[j] == ' ',
        k == s.len() || s[k] != ' ',
    ensures
        space_run_len(s) == k,
    decreases k,
{
    if k == 0 {
    } else {
        assert(s[0] == ' ');
        assert forall|j: int| 0 <= j < k - 1 implies s.skip(1)[j] == ' ' by {
            assert(s.skip(1)[j] == s[j + 1]);
        }
        lemma_space_run_len_exact(s.skip(1), k - 1);
    }
}

/// The head run of scan-continue characters is exactly `k` long when the
/// first `k` characters continue a word and the next one, if any, does not.
pub proof fn lemma_word_run_len_exact(s: Seq<char>, k: int)
    requires
        0 <= k <= s.len(),
        forall|j: int| 0 <= j < k ==> spec_word_continue(s[j]),
        k == s.len() || !spec_word_continue(s[k]),
    ensures
        word_run_len(s) == k,
    decreases k,
{
    if k == 0 {
    } else {
        assert(spec_word_continue(s[0]));
        assert forall|j: int| 0 <= j < k - 1 implies spec_word_continue(s.skip(1)[j]) by {
            assert(s.skip(1)[j] == s[j + 1]);
        }
        lemma_word_run_len_exact(s.skip(1), k - 1);
    }
}

/// Prepends one token to the result of lexing the rest of the input; an
/// error in the rest is the whole result.
pub open spec fn lex_cons(t: TokenModel, rest: Result<Seq<TokenModel>, LexErrorModel>) -> Result<
    Seq<TokenModel>,
    LexErrorModel,
> {
    match rest {
        Ok(ts) => Ok(seq![t] + ts),
        Err(e) => Err(e),
    }
}

/// The token sequence of `s`, lexed from caret position `(line, col)`: the
/// classification rules of the tokenizer, applied left to right with one
/// character of lookahead, ending in exactly one `EndOfFile`. A character
/// matching no rule is the error, reported at the caret's position after
/// consuming it.
pub open spec fn spec_lex(s: Seq<char>, line: int, col: int) -> Result<
    Seq<TokenModel>,
    LexErrorModel,
>
    decreases s.len(),
    via spec_lex_decreases
{
    if s.len() == 0 {
        Ok(seq![TokenModel::EndOfFile])
    } else {
        let c = s[0];
        if c == '(' {
            lex_cons(
                TokenModel::Parenthesis(BracketType::Opening),
                spec_lex(s.skip(1), line, col + 1),
            )
        } else if c == ')' {
            lex_cons(
                TokenModel::Parenthesis(BracketType::Closing),
                spec_lex(s.skip(1), line, col + 1),
            )
        } else if c == '<' {
            lex_cons(
                TokenModel::Operator(OperatorType::GenericBlockBegin),
                spec_lex(s.skip(1), line, col + 1),
            )
        } else if c == '>' {
            lex_cons(
                TokenModel::Operator(OperatorType::GenericBlockEnd),
                spec_lex(s.skip(1), line, col + 1),
            )
        } else if c == ';' {
            lex_cons(
                TokenModel::Operator(OperatorType::StatementTerminator),
                spec_lex(s.skip(1), line, col + 1),
            )
        } else if c == ':' {
            lex_cons(
                TokenModel::Operator(OperatorType::TypeSpecifier),
                spec_lex(s.skip(1), line, col + 1),
            )
        } else if c == ',' {
            lex_cons(
                TokenModel::Operator(OperatorType::CommaSeparator),
                spec_lex(s.skip(1), line, col + 1),
            )
        } else if c == '-' && s.len() >= 2 && s[1] == '>' {
            lex_cons(
                TokenModel::Operator(OperatorType::ReturnType),
                spec_lex(s.skip(2), line, col + 2),
            )
        } else if c == '+' {
            lex_cons(
                TokenModel::Operator(OperatorType::Addition),
                spec_lex(s.skip(1), line, col + 1),
            )
        } else if c == '{' {
            lex_cons(TokenModel::Brace(BracketType::Opening), spec_lex(s.skip(1), line, col + 1))
        } else if c == '}' {
            lex_cons(TokenModel::Brace(BracketType::Closing), spec_lex(s.skip(1), line, col + 1))
        } else if c == ' ' {
            let n = 1 + space_run_len(s.skip(1));
            lex_cons(TokenModel::Whitespace, spec_lex(s.skip(n as int), line, col + n))
        } else if c == '\n' {
            lex_cons(TokenModel::NewLine, spec_lex(s.skip(1), line + 1, 1))
        } else if spec_word_start(c) {
            let n = 1 + word_run_len(s.skip(1));
            let text = s.take(n as int);
            lex_cons(
                if spec_is_keyword(text) {
                    TokenModel::Keyword(text)
                } else {
                    TokenModel::Identifier(text)
                },
                spec_lex(s.skip(n as int), line, col + n),
            )
        } else {
            Err(LexErrorModel { character: c, line: line, column: col + 1 })
        }
    }
}

#[via_fn]
proof fn spec_lex_decreases(s: Seq<char>, line: int, col: int) {
    if s.len() > 0 {
        lemma_space_run_len_le(s.skip(1));
        lemma_word_run_len_le(s.skip(1));
    }
}

/// The line the caret is on after consuming `s`, starting from `line`.
pub open spec fn spec_line_after(s: Seq<char>, line: int) -> int
    decreases s.len(),
{
    if s.len() == 0 {
        line
    } else {
        spec_line_after(s.skip(1), if s[0] == '\n' { line + 1 } else { line })
    }
}

/// The column the caret is on after consuming `s`, starting from `col`.
pub open spec fn spec_col_after(s: Seq<char>, col: int) -> int
    decreases s.len(),
{
    if s.len() == 0 {
        col
    } else {
        spec_col_after(s.skip(1), if s[0] == '\n' { 1 } else { col + 1 })
    }
}

/// Consuming one more character advances the final position by that one
/// character.
pub proof fn lemma_pos_after_push(s: Seq<char>, line: int, col: int, ch: char)
    ensures
        spec_line_after(s.push(ch), line) == if ch == '\n' {
            spec_line_after(s, line) + 1
        } else {
            spec_line_after(s, line)
        },
        spec_col_after(s.push(ch), col) == if ch == '\n' {
            1
        } else {
            spec_col_after(s, col) + 1
        },
    decreases s.len(),
{
    reveal_with_fuel(spec_line_after, 2);
    reveal_with_fuel(spec_col_after, 2);
    if s.len() == 0 {
        assert(s.push(ch)[0] == ch);
        assert(s.push(ch).skip(1) =~= Seq::<char>::empty());
    } else {
        assert(s.push(ch)[0] == s[0]);
        assert(s.push(ch).skip(1) =~= s.skip(1).push(ch));
        lemma_pos_after_push(
            s.skip(1),
            if s[0] == '\n' { line + 1 } else { line },
            if s[0] == '\n' { 1 } else { col + 1 },
            ch,
        );
    }
}

/// The number of newline characters in `s`.
pub open spec fn newline_count(s: Seq<char>) -> nat
    decreases s.len(),
{
    if s.len() == 0 {
        0
    } else {
        (if s[0] == '\n' { 1nat } else { 0nat }) + newline_count(s.skip(1))
    }
}

/// The number of characters after the last newline of `s`; all of `s` when it
/// has no newline.
pub open spec fn last_line_len(s: Seq<char>) -> nat
    decreases s.len(),
    via last_line_len_decreases
{
    if newline_count(s) == 0 {
        s.len()
    } else {
        last_line_len(s.skip(1))
    }
}

#[via_fn]
proof fn last_line_len_decreases(s: Seq<char>) {
    if s.len() == 0 {
        assert(newline_count(s) == 0);
    }
}

/// Position accounting: after consuming `s`, the caret's line has grown by
/// exactly the number of newlines consumed, and its column is 1 plus the
/// number of characters consumed after the last newline — or the starting
/// column plus all of `s` when no newline was consumed.
pub proof fn lemma_position_accounting(s: Seq<char>, line: int, col: int)
    ensures
        spec_line_after(s, line) == line + newline_count(s),
        spec_col_after(s, col) == if newline_count(s) == 0 {
            col + s.len()
        } else {
            1 + last_line_len(s) as int
        },
    decreases s.len(),
{
    if s.len() > 0 {
        lemma_position_accounting(
            s.skip(1),
            if s[0] == '\n' { line + 1 } else { line },
            if s[0] == '\n' { 1 } else { col + 1 },
        );
    }
}

/// The models of a sequence of tokens.
pub open spec fn views_of(ts: Seq<Token>) -> Seq<TokenModel> {
    ts.map_values(|t: Token| t@)
}

/// Prepends an already-lexed prefix to the result of lexing the rest of the
/// input; an error in the rest is the whole result.
pub open spec fn lex_app(
    prefix: Seq<TokenModel>,
    rest: Result<Seq<TokenModel>, LexErrorModel>,
) -> Result<Seq<TokenModel>, LexErrorModel> {
    match rest {
        Ok(ts) => Ok(prefix + ts),
        Err(e) => Err(e),
    }
}

proof fn lemma_views_of_push(ts: Seq<Token>, t: Token)
    ensures
        views_of(ts.push(t)) == views_of(ts).push(t@),
{
    assert(views_of(ts.push(t)) =~= views_of(ts).push(t@));
}

proof fn lemma_lex_app_push(
    prefix: Seq<TokenModel>,
    t: TokenModel,
    rest: Result<Seq<TokenModel>, LexErrorModel>,
)
    ensures
        lex_app(prefix, lex_cons(t, rest)) == lex_app(prefix.push(t), rest),
{
    match rest {
        Ok(ts) => {
            assert(prefix + (seq![t] + ts) =~= prefix.push(t) + ts);
        },
        Err(_) => {},
    }
}

/// Consuming the character at index `i` advances the position after the
/// consumed prefix by that one character.
proof fn lemma_take_step(s: Seq<char>, i: int, line0: int, col0: int)
    requires
        0 <= i < s.len(),
    ensures
        spec_line_after(s.take(i + 1), line0) == if s[i] == '\n' {
            spec_line_after(s.take(i), line0) + 1
        } else {
            spec_line_after(s.take(i), line0)
        },
        spec_col_after(s.take(i + 1), col0) == if s[i] == '\n' {
            1
        } else {
            spec_col_after(s.take(i), col0) + 1
        },
{
    assert(s.take(i + 1) =~= s.take(i).push(s[i]));
    lemma_pos_after_push(s.take(i), line0, col0, s[i]);
}

/// True iff the greedy lexeme scan keeps consuming on `c`.
fn is_word_continue_char(c: char) -> (r: bool)
    ensures
        r == spec_word_continue(c),
{
    Identifier::is_valid_char(&c, false) || Keyword::is_valid_char(&c)
}

/// The single-pass classification loop; it owns the caret tracker that its
/// `tokenize` pass drives.
pub struct Tokenizer {
    pub caret_pos: CaretPos,
}

impl Tokenizer {
    /// A frozen snapshot of the tracker's current position.
    pub fn get_caret_pos(&self) -> (r: CaretPos)
        ensures
            r == self.caret_pos,
    {
        self.caret_pos
    }

    /// Converts the whole of `source` into its ordered token sequence, left
    /// to right with one character of lookahead, driving the caret tracker
    /// over every character consumed. Returns either the complete,
    /// EndOfFile-terminated sequence — the tracker then sits past the end of
    /// the input — or the single structured lexical error, whose position the
    /// tracker then holds; never a partial sequence.
    pub fn tokenize(&mut self, source: &str) -> (r: Result<Vec<Token>, LexError>)
        requires
            old(self).caret_pos.line + source@.len() <= usize::MAX,
            old(self).caret_pos.column + source@.len() <= usize::MAX,
        ensures
            match r {
                Ok(tokens) => {
                    &&& Ok::<Seq<TokenModel>, LexErrorModel>(views_of(tokens@)) == spec_lex(
                        source@,
                        old(self).caret_pos.line as int,
                        old(self).caret_pos.column as int,
                    )
                    &&& final (self).caret_pos.line as int == spec_line_after(
                        source@,
                        old(self).caret_pos.line as int,
                    )
                    &&& final (self).caret_pos.column as int == spec_col_after(
                        source@,
                        old(self).caret_pos.column as int,
                    )
                },
                Err(e) => {
                    &&& Err::<Seq<TokenModel>, LexErrorModel>(e@) == spec_lex(
                        source@,
                        old(self).caret_pos.line as int,
                        old(self).caret_pos.column as int,
                    )
                    &&& final (self).caret_pos.line as int == e@.line
                    &&& final (self).caret_pos.column as int == e@.column
                },
            },
    {
        let ghost s = source@;
        let ghost line0 = self.caret_pos.line as int;
        let ghost col0 = self.caret_pos.column as int;
        let len = source.unicode_len();
        let mut tokens: Vec<Token> = Vec::new();
        let mut i: usize = 0;
        proof {
            assert(s.skip(0) =~= s);
            assert(views_of(tokens@) =~= Seq::<TokenModel>::empty());
            if let Ok(ts) = spec_lex(s, line0, col0) {
                assert(Seq::<TokenModel>::empty() + ts =~= ts);
            }
        }
        while i < len
            invariant
                i <= len,
                len == s.len(),
                s == source@,
                line0 == old(self).caret_pos.line as int,
                col0 == old(self).caret_pos.column as int,
                self.caret_pos.line + (len - i) <= usize::MAX,
                self.caret_pos.column + (len - i) <= usize::MAX,
                self.caret_pos.line as int == spec_line_after(s.take(i as int), line0),
                self.caret_pos.column as int == spec_col_after(s.take(i as int), col0),
                lex_app(
                    views_of(tokens@),
                    spec_lex(
                        s.skip(i as int),
                        self.caret_pos.line as int,
                        self.caret_pos.column as int,
                    ),
                ) == spec_lex(s, line0, col0),
            decreases len - i,
        {
            let ghost i_b = i as int;
            let ghost line_b = self.caret_pos.line as int;
            let ghost col_b = self.caret_pos.column as int;
            let ghost toks_b = tokens@;
            let ghost prefix_b = views_of(tokens@);
            let ghost rem = s.skip(i_b);
            let c = source.get_char(i);
            self.caret_pos.process_char(Some(c));
            i = i + 1;
            proof {
                lemma_take_step(s, i_b, line0, col0);
                assert(rem[0] == c);
                assert(rem.skip(1) =~= s.skip(i as int));
            }
            if c == '(' {
                tokens.push(Token::Parenthesis(Parenthesis::open()));
                proof {
                    lemma_views_of_push(toks_b, tokens@.last());
                    lemma_lex_app_push(
                        prefix_b,
                        TokenModel::Parenthesis(BracketType::Opening),
                        spec_lex(s.skip(i as int), line_b, col_b + 1),
                    );
                }
            } else if c == ')' {
                tokens.push(Token::Parenthesis(Parenthesis::close()));
                proof {
                    lemma_views_of_push(toks_b, tokens@.last());
                    lemma_lex_app_push(
                        prefix_b,
                        TokenModel::Parenthesis(BracketType::Closing),
                        spec_lex(s.skip(i as int), line_b, col_b + 1),
                    );
                }
            } else if c == '<' {
                tokens.push(Token::Operator(Operator::from(OperatorType::GenericBlockBegin)));
                proof {
                    lemma_views_of_push(toks_b, tokens@.last());
                    lemma_lex_app_push(
                        prefix_b,
                        TokenModel::Operator(OperatorType::GenericBlockBegin),
                        spec_lex(s.skip(i as int), line_b, col_b + 1),
                    );
                }
            } else if c == '>' {
                tokens.push(Token::Operator(Operator::from(OperatorType::GenericBlockEnd)));
                proof {
                    lemma_views_of_push(toks_b, tokens@.last());
                    lemma_lex_app_push(
                        prefix_b,
                        TokenModel::Operator(OperatorType::GenericBlockEnd),
                        spec_lex(s.skip(i as int), line_b, col_b + 1),
                    );
                }
            } else if c == ';' {
                tokens.push(Token::Operator(Operator::from(OperatorType::StatementTerminator)));
                proof {
                    lemma_views_of_push(toks_b, tokens@.last());
                    lemma_lex_app_push(
                        prefix_b,
                        TokenModel::Operator(OperatorType::StatementTerminator),
                        spec_lex(s.skip(i as int), line_b, col_b + 1),
                    );
                }
            } else if c == ':' {
                tokens.push(Token::Operator(Operator::from(OperatorType::TypeSpecifier)));
                proof {
                    lemma_views_of_push(toks_b, tokens@.last());
                    lemma_lex_app_push(
                        prefix_b,
                        TokenModel::Operator(OperatorType::TypeSpecifier),
                        spec_lex(s.skip(i as int), line_b, col_b + 1),
                    );
                }
            } else if c == ',' {
                tokens.push(Token::Operator(Operator::from(OperatorType::CommaSeparator)));
                proof {
                    lemma_views_of_push(toks_b, tokens@.last());
                    lemma_lex_app_push(
                        prefix_b,
                        TokenModel::Operator(OperatorType::CommaSeparator),
                        spec_lex(s.skip(i as int), line_b, col_b + 1),
                    );
                }
            } else if c == '-' && i < len && source.get_char(i) == '>' {
                self.caret_pos.process_char(Some('>'));
                i = i + 1;
                tokens.push(Token::Operator(Operator::from(OperatorType::ReturnType)));
                proof {
                    lemma_take_step(s, i_b + 1, line0, col0);
                    assert(rem.len() >= 2 && rem[1] == '>');
                    assert(rem.skip(2) =~= s.skip(i as int));
                    lemma_views_of_push(toks_b, tokens@.last());
                    lemma_lex_app_push(
                        prefix_b,
                        TokenModel::Operator(OperatorType::ReturnType),
                        spec_lex(s.skip(i as int), line_b, col_b + 2),
                    );
                }
            } else if c == '+' {
                tokens.push(Token::Operator(Operator::from(OperatorType::Addition)));
                proof {
                    lemma_views_of_push(toks_b, tokens@.last());
                    lemma_lex_app_push(
                        prefix_b,
                        TokenModel::Operator(OperatorType::Addition),
                        spec_lex(s.skip(i as int), line_b, col_b + 1),
                    );
                }
            } else if c == '{' {
                tokens.push(Token::Brace(Brace::open()));
                proof {
                    lemma_views_of_push(toks_b, tokens@.last());
                    lemma_lex_app_push(
                        prefix_b,
                        TokenModel::Brace(BracketType::Opening),
                        spec_lex(s.skip(i as int), line_b, col_b + 1),
                    );
                }
            } else if c == '}' {
                tokens.push(Token::Brace(Brace::close()));
                proof {
                    lemma_views_of_push(toks_b, tokens@.last());
                    lemma_lex_app_push(
                        prefix_b,
                        TokenModel::Brace(BracketType::Closing),
                        spec_lex(s.skip(i as int), line_b, col_b + 1),
                    );
                }
            } else if c == ' ' {
                while i < len && source.get_char(i) == ' '
                    invariant
                        i_b < i <= len,
                        len == s.len(),
                        s == source@,
                        forall|j: int| i_b < j < i ==> s[j] == ' ',
                        self.caret_pos.line + (len - i) <= usize::MAX,
                        self.caret_pos.column + (len - i) <= usize::MAX,
                        self.caret_pos.line as int == spec_line_after(s.take(i as int), line0),
                        self.caret_pos.column as int == spec_col_after(s.take(i as int), col0),
                        self.caret_pos.line as int == line_b,
                        self.caret_pos.column as int == col_b + (i - i_b),
                    decreases len - i,
                {
                    let ghost i_c = i as int;
                    self.caret_pos.process_char(Some(' '));
                    i = i + 1;
                    proof {
                        lemma_take_step(s, i_c, line0, col0);
                    }
                }
                tokens.push(Token::Whitespace(Whitespace::default()));
                proof {
                    let n = i - i_b;
                    assert forall|j: int| 0 <= j < n - 1 implies #[trigger] s.skip(i_b + 1)[j] == ' ' by {
                        assert(s.skip(i_b + 1)[j] == s[i_b + 1 + j]);
                    }
                    lemma_space_run_len_exact(s.skip(i_b + 1), n - 1);
                    assert(rem.skip(1) =~= s.skip(i_b + 1));
                    assert(space_run_len(rem.skip(1)) == n - 1);
                    assert(rem.skip(n) =~= s.skip(i as int));
                    lemma_views_of_push(toks_b, tokens@.last());
                    lemma_lex_app_push(
                        prefix_b,
                        TokenModel::Whitespace,
                        spec_lex(s.skip(i as int), line_b, col_b + n),
                    );
                }
            } else if c == '\n' {
                tokens.push(Token::NewLine(NewLine::default()));
                proof {
                    lemma_views_of_push(toks_b, tokens@.last());
                    lemma_lex_app_push(
                        prefix_b,
                        TokenModel::NewLine,
                        spec_lex(s.skip(i as int), line_b + 1, 1),
                    );
                }
            } else if Identifier::is_valid_char(&c, true) || Keyword::is_valid_char(&c) {
                let start = i - 1;
                while i < len && is_word_continue_char(source.get_char(i))
                    invariant
                        i_b < i <= len,
                        len == s.len(),
                        s == source@,
                        forall|j: int| i_b < j < i ==> spec_word_continue(s[j]),
                        self.caret_pos.line + (len - i) <= usize::MAX,
                        self.caret_pos.column + (len - i) <= usize::MAX,
                        self.caret_pos.line as int == spec_line_after(s.take(i as int), line0),
                        self.caret_pos.column as int == spec_col_after(s.take(i as int), col0),
                        self.caret_pos.line as int == line_b,
                        self.caret_pos.column as int == col_b + (i - i_b),
                    decreases len - i,
                {
                    let ghost i_c = i as int;
                    let p = source.get_char(i);
                    self.caret_pos.process_char(Some(p));
                    i = i + 1;
                    proof {
                        lemma_take_step(s, i_c, line0, col0);
                    }
                }
                let text = source.substring_char(start, i);
                let matched = is_keyword(text);
                let word = String::from_str(text);
                if matched {
                    tokens.push(Token::Keyword(Keyword::from(word)));
                } else {
                    tokens.push(Token::Identifier(Identifier::from(word)));
                }
                proof {
                    let n = i - i_b;
                    assert forall|j: int| 0 <= j < n - 1 implies spec_word_continue(
                        #[trigger] s.skip(i_b + 1)[j],
                    ) by {
                        assert(s.skip(i_b + 1)[j] == s[i_b + 1 + j]);
                    }
                    lemma_word_run_len_exact(s.skip(i_b + 1), n - 1);
                    assert(rem.skip(1) =~= s.skip(i_b + 1));
                    assert(word_run_len(rem.skip(1)) == n - 1);
                    assert(rem.skip(n) =~= s.skip(i as int));
                    assert(rem.take(n) =~= text@);
                    lemma_views_of_push(toks_b, tokens@.last());
                    lemma_lex_app_push(
                        prefix_b,
                        if spec_is_keyword(text@) {
                            TokenModel::Keyword(text@)
                        } else {
                            TokenModel::Identifier(text@)
                        },
                        spec_lex(s.skip(i as int), line_b, col_b + n),
                    );
                }
            } else {
                let err = LexError::UnrecognizedCharacter {
                    character: c,
                    position: self.caret_pos,
                };
                proof {
                    assert(spec_lex(rem, line_b, col_b) == Err::<Seq<TokenModel>, LexErrorModel>(
                        LexErrorModel { character: c, line: line_b, column: col_b + 1 },
                    ));
                    assert(spec_lex(s, line0, col0) == Err::<Seq<TokenModel>, LexErrorModel>(
                        err@,
                    ));
                }
                return Err(err);
            }
        }
        self.caret_pos.process_char(None);
        let ghost toks_e = tokens@;
        tokens.push(Token::EndOfFile(EndOfFile::default()));
        proof {
            assert(s.take(len as int) =~= s);
            assert(s.skip(len as int) =~= Seq::<char>::empty());
            lemma_views_of_push(toks_e, tokens@.last());
            assert(views_of(toks_e) + seq![TokenModel::EndOfFile] =~= views_of(tokens@));
        }
        Ok(tokens)
    }
}

impl Default for Tokenizer {
    /// A fresh tokenizer starts its caret at line 1, column 1.
    fn default() -> (r: Self)
        ensures
            r.caret_pos == (CaretPos { line: 1, column: 1 }),
    {
        Tokenizer { caret_pos: CaretPos::default() }
    }
}

proof fn lemma_cons_preserves_eof(t: TokenModel, rest: Seq<TokenModel>)
    requires
        t != TokenModel::EndOfFile,
        rest.len() >= 1,
        rest.last() == TokenModel::EndOfFile,
        forall|k: int| 0 <= k < rest.len() - 1 ==> rest[k] != TokenModel::EndOfFile,
    ensures
        (seq![t] + rest).len() >= 1,
        (seq![t] + rest).last() == TokenModel::EndOfFile,
        forall|k: int|
            0 <= k < (seq![t] + rest).len() - 1 ==> (seq![t] + rest)[k] != TokenModel::EndOfFile,
{
    let joined = seq![t] + rest;
    assert(joined.last() == rest.last());
    assert forall|k: int| 0 <= k < joined.len() - 1 implies joined[k] != TokenModel::EndOfFile by {
        if k > 0 {
            assert(joined[k] == rest[k - 1]);
        }
    }
}

/// EndOfFile invariant: lexing any finite input, from any position, either
/// fails or yields a token sequence of length at least 1 whose last element
/// is EndOfFile — and EndOfFile occurs nowhere else in the sequence.
pub proof fn lemma_lex_end_of_file_invariant(s: Seq<char>, line: int, col: int)
    ensures
        spec_lex(s, line, col) matches Ok(ts) ==> {
            &&& ts.len() >= 1
            &&& ts.last() == TokenModel::EndOfFile
            &&& forall|k: int| 0 <= k < ts.len() - 1 ==> ts[k] != TokenModel::EndOfFile
        },
    decreases s.len(),
{
    if s.len() == 0 {
        assert(spec_lex(s, line, col) == Ok::<Seq<TokenModel>, LexErrorModel>(
            seq![TokenModel::EndOfFile],
        ));
    } else {
        let c = s[0];
        if c == '(' || c == ')' || c == '<' || c == '>' || c == ';' || c == ':' || c == ','
            || c == '+' || c == '{' || c == '}' {
            lemma_lex_end_of_file_invariant(s.skip(1), line, col + 1);
            if let Ok(rest) = spec_lex(s.skip(1), line, col + 1) {
                if c == '(' {
                    lemma_cons_preserves_eof(TokenModel::Parenthesis(BracketType::Opening), rest);
                } else if c == ')' {
                    lemma_cons_preserves_eof(TokenModel::Parenthesis(BracketType::Closing), rest);
                } else if c == '<' {
                    lemma_cons_preserves_eof(
                        TokenModel::Operator(OperatorType::GenericBlockBegin),
                        rest,
                    );
                } else if c == '>' {
                    lemma_cons_preserves_eof(
                        TokenModel::Operator(OperatorType::GenericBlockEnd),
                        rest,
                    );
                } else if c == ';' {
                    lemma_cons_preserves_eof(
                        TokenModel::Operator(OperatorType::StatementTerminator),
                        rest,
                    );
                } else if c == ':' {
                    lemma_cons_preserves_eof(
                        TokenModel::Operator(OperatorType::TypeSpecifier),
                        rest,
                    );
                } else if c == ',' {
                    lemma_cons_preserves_eof(
                        TokenModel::Operator(OperatorType::CommaSeparator),
                        rest,
                    );
                } else if c == '+' {
                    lemma_cons_preserves_eof(TokenModel::Operator(OperatorType::Addition), rest);
                } else if c == '{' {
                    lemma_cons_preserves_eof(TokenModel::Brace(BracketType::Opening), rest);
                } else {
                    lemma_cons_preserves_eof(TokenModel::Brace(BracketType::Closing), rest);
                }
            }
        } else if c == '-' && s.len() >= 2 && s[1] == '>' {
            lemma_lex_end_of_file_invariant(s.skip(2), line, col + 2);
            if let Ok(rest) = spec_lex(s.skip(2), line, col + 2) {
                lemma_cons_preserves_eof(TokenModel::Operator(OperatorType::ReturnType), rest);
            }
        } else if c == ' ' {
            lemma_space_run_len_le(s.skip(1));
            let n = 1 + space_run_len(s.skip(1));
            lemma_lex_end_of_file_invariant(s.skip(n as int), line, col + n);
            if let Ok(rest) = spec_lex(s.skip(n as int), line, col + n) {
                lemma_cons_preserves_eof(TokenModel::Whitespace, rest);
            }
        } else if c == '\n' {
            lemma_lex_end_of_file_invariant(s.skip(1), line + 1, 1);
            if let Ok(rest) = spec_lex(s.skip(1), line + 1, 1) {
                lemma_cons_preserves_eof(TokenModel::NewLine, rest);
            }
        } else if spec_word_start(c) {
            lemma_word_run_len_le(s.skip(1));
            let n = 1 + word_run_len(s.skip(1));
            let text = s.take(n as int);
            lemma_lex_end_of_file_invariant(s.skip(n as int), line, col + n);
            if let Ok(rest) = spec_lex(s.skip(n as int), line, col + n) {
                if spec_is_keyword(text) {
                    lemma_cons_preserves_eof(TokenModel::Keyword(text), rest);
                } else {
                    lemma_cons_preserves_eof(TokenModel::Identifier(text), rest);
                }
            }
        }
    }
}

/// Well-formed token text: Keyword text is always a member of the fixed
/// keyword set; Identifier text always matches the identifier grammar and is
/// never a keyword; both are non-empty. Other kinds carry no text.
pub open spec fn spec_token_text_ok(t: TokenModel) -> bool {
    match t {
        TokenModel::Keyword(text) => spec_is_keyword(text) && spec_identifier_text(text),
        TokenModel::Identifier(text) => !spec_is_keyword(text) && spec_identifier_text(text),
        _ => true,
    }
}

proof fn lemma_word_run_chars(s: Seq<char>)
    ensures
        forall|k: int| 0 <= k < word_run_len(s) ==> spec_word_continue(#[trigger] s[k]),
    decreases s.len(),
{
    lemma_word_run_len_le(s);
    if !(s.len() == 0 || !spec_word_continue(s[0])) {
        lemma_word_run_chars(s.skip(1));
        assert forall|k: int| 0 <= k < word_run_len(s) implies spec_word_continue(
            #[trigger] s[k],
        ) by {
            if k > 0 {
                assert(s.skip(1)[k - 1] == s[k]);
                assert(0 <= k - 1 < word_run_len(s.skip(1)));
            }
        }
    }
}

/// Token-text invariant: in every successful lex, from any position, each
/// Keyword token's text is a member of the fixed keyword set, and each
/// Identifier token's text matches the identifier grammar and is not a
/// keyword; both are always non-empty.
pub proof fn lemma_lex_token_texts(s: Seq<char>, line: int, col: int)
    ensures
        spec_lex(s, line, col) matches Ok(ts) ==> forall|k: int|
            0 <= k < ts.len() ==> spec_token_text_ok(#[trigger] ts[k]),
    decreases s.len(),
{
    if s.len() == 0 {
    } else {
        let c = s[0];
        if c == '(' || c == ')' || c == '<' || c == '>' || c == ';' || c == ':' || c == ','
            || c == '+' || c == '{' || c == '}' {
            lemma_lex_token_texts(s.skip(1), line, col + 1);
            if let Ok(rest) = spec_lex(s.skip(1), line, col + 1) {
                if let Ok(ts) = spec_lex(s, line, col) {
                    assert forall|k: int| 0 <= k < ts.len() implies spec_token_text_ok(
                        #[trigger] ts[k],
                    ) by {
                        if k > 0 {
                            assert(ts[k] == rest[k - 1]);
                        }
                    }
                }
            }
        } else if c == '-' && s.len() >= 2 && s[1] == '>' {
            lemma_lex_token_texts(s.skip(2), line, col + 2);
            if let Ok(rest) = spec_lex(s.skip(2), line, col + 2) {
                if let Ok(ts) = spec_lex(s, line, col) {
                    assert forall|k: int| 0 <= k < ts.len() implies spec_token_text_ok(
                        #[trigger] ts[k],
                    ) by {
                        if k > 0 {
                            assert(ts[k] == rest[k - 1]);
                        }
                    }
                }
            }
        } else if c == ' ' {
            lemma_space_run_len_le(s.skip(1));
            let n = 1 + space_run_len(s.skip(1));
            lemma_lex_token_texts(s.skip(n as int), line, col + n);
            if let Ok(rest) = spec_lex(s.skip(n as int), line, col + n) {
                if let Ok(ts) = spec_lex(s, line, col) {
                    assert forall|k: int| 0 <= k < ts.len() implies spec_token_text_ok(
                        #[trigger] ts[k],
                    ) by {
                        if k > 0 {
                            assert(ts[k] == rest[k - 1]);
                        }
                    }
                }
            }
        } else if c == '\n' {
            lemma_lex_token_texts(s.skip(1), line + 1, 1);
            if let Ok(rest) = spec_lex(s.skip(1), line + 1, 1) {
                if let Ok(ts) = spec_lex(s, line, col) {
                    assert forall|k: int| 0 <= k < ts.len() implies spec_token_text_ok(
                        #[trigger] ts[k],
                    ) by {
                        if k > 0 {
                            assert(ts[k] == rest[k - 1]);
                        }
                    }
                }
            }
        } else if spec_word_start(c) {
            lemma_word_run_len_le(s.skip(1));
            lemma_word_run_chars(s.skip(1));
            let n = 1 + word_run_len(s.skip(1));
            let text = s.take(n as int);
            assert(spec_identifier_text(text)) by {
                assert(text[0] == s[0]);
                assert forall|k: int| 1 <= k < text.len() implies spec_identifier_char(
                    #[trigger] text[k],
                    false,
                ) by {
                    assert(text[k] == s[k]);
                    assert(s.skip(1)[k - 1] == s[k]);
                    assert(0 <= k - 1 < word_run_len(s.skip(1)));
                }
            }
            lemma_lex_token_texts(s.skip(n as int), line, col + n);
            if let Ok(rest) = spec_lex(s.skip(n as int), line, col + n) {
                if let Ok(ts) = spec_lex(s, line, col) {
                    assert forall|k: int| 0 <= k < ts.len() implies spec_token_text_ok(
                        #[trigger] ts[k],
                    ) by {
                        if k > 0 {
                            assert(ts[k] == rest[k - 1]);
                        }
                    }
                }
            }
        }
    }
}

/// Keyword precedence: a bare string from the fixed keyword set, followed by
/// end of input, lexes to a Keyword token — never an Identifier, though the
/// string satisfies the identifier grammar — and then EndOfFile.
pub proof fn lemma_keyword_precedence(s: Seq<char>, line: int, col: int)
    requires
        spec_is_keyword(s),
    ensures
        spec_lex(s, line, col) == Ok::<Seq<TokenModel>, LexErrorModel>(
            seq![TokenModel::Keyword(s), TokenModel::EndOfFile],
        ),
{
    assert(Seq::<char>::empty().len() == 0);
    assert(word_run_len(Seq::<char>::empty()) == 0);
    if s == seq!['u', '8'] {
        assert(s.skip(1) =~= seq!['8']);
        assert(seq!['8'].skip(1) =~= Seq::<char>::empty());
        assert(word_run_len(seq!['8']) == 1);
        assert(s.take(2) =~= s);
        assert(s.skip(2) =~= Seq::<char>::empty());
        assert(spec_lex(Seq::<char>::empty(), line, col + 2)
            == Ok::<Seq<TokenModel>, LexErrorModel>(seq![TokenModel::EndOfFile]));
        assert(seq![TokenModel::Keyword(s)] + seq![TokenModel::EndOfFile] =~= seq![
            TokenModel::Keyword(s),
            TokenModel::EndOfFile,
        ]);
    } else {
        assert(s == seq!['r', 'e', 't', 'u', 'r', 'n']);
        assert(seq!['n'].skip(1) =~= Seq::<char>::empty());
        assert(word_run_len(seq!['n']) == 1);
        assert(seq!['r', 'n'].skip(1) =~= seq!['n']);
        assert(word_run_len(seq!['r', 'n']) == 2);
        assert(seq!['u', 'r', 'n'].skip(1) =~= seq!['r', 'n']);
        assert(word_run_len(seq!['u', 'r', 'n']) == 3);
        assert(seq!['t', 'u', 'r', 'n'].skip(1) =~= seq!['u', 'r', 'n']);
        assert(word_run_len(seq!['t', 'u', 'r', 'n']) == 4);
        assert(seq!['e', 't', 'u', 'r', 'n'].skip(1) =~= seq!['t', 'u', 'r', 'n']);
        assert(word_run_len(seq!['e', 't', 'u', 'r', 'n']) == 5);
        assert(s.skip(1) =~= seq!['e', 't', 'u', 'r', 'n']);
        assert(word_run_len(s.skip(1)) == 5);
        assert(s.take(6) =~= s);
        assert(s.skip(6) =~= Seq::<char>::empty());
        assert(spec_lex(Seq::<char>::empty(), line, col + 6)
            == Ok::<Seq<TokenModel>, LexErrorModel>(seq![TokenModel::EndOfFile]));
        assert(seq![TokenModel::Keyword(s)] + seq![TokenModel::EndOfFile] =~= seq![
            TokenModel::Keyword(s),
            TokenModel::EndOfFile,
        ]);
    }
}

/// Whitespace collapsing: a maximal run of `n >= 1` consecutive spaces lexes
/// to exactly one Whitespace token, whatever `n`; the rest of the input is
/// lexed after it with only the column advanced. Runs of `n` and `n + 1`
/// spaces are therefore indistinguishable in the token output.
pub proof fn lemma_whitespace_collapsing(n: nat, rest: Seq<char>, line: int, col: int)
    requires
        n >= 1,
        rest.len() == 0 || rest[0] != ' ',
    ensures
        spec_lex(Seq::new(n, |k: int| ' ') + rest, line, col) == lex_cons(
            TokenModel::Whitespace,
            spec_lex(rest, line, col + n),
        ),
{
    let s = Seq::new(n, |k: int| ' ') + rest;
    assert(s[0] == ' ');
    assert forall|j: int| 0 <= j < n - 1 implies s.skip(1)[j] == ' ' by {
        assert(s.skip(1)[j] == s[j + 1]);
    }
    if rest.len() > 0 {
        assert(s.skip(1)[n - 1] == s[n as int] == rest[0]);
    }
    lemma_space_run_len_exact(s.skip(1), n as int - 1);
    assert(space_run_len(s.skip(1)) == n - 1);
    assert(s.skip(n as int) =~= rest);
}

/// Lookahead disambiguation: input beginning with the two-character lexeme
/// `->` always lexes to a single ReturnType operator token before the rest —
/// never to two separate tokens.
pub proof fn lemma_lookahead_return_type(rest: Seq<char>, line: int, col: int)
    ensures
        spec_lex(seq!['-', '>'] + rest, line, col) == lex_cons(
            TokenModel::Operator(OperatorType::ReturnType),
            spec_lex(rest, line, col + 2),
        ),
{
    let s = seq!['-', '>'] + rest;
    assert(s[0] == '-');
    assert(s[1] == '>');
    assert(s.skip(2) =~= rest);
}

} // verus!
