//! Reading Specctra files: a tokenizer over the characters of a file, and the
//! readers that build values out of its tokens.

use vstd::prelude::*;

use super::structure::Parser;
use super::common::{
    ascii_lower, equals_lowered, expect_any_start_spec, expect_end_spec, expect_leaf_spec,
    expect_start_spec, ListToken, TokenView,
};

verus! {

/// `std::io::Error`, declared so that a parse error can carry the error of a failed
/// read. It is carried through as is: nothing is assumed of what it holds.
#[verifier::external_type_specification]
#[verifier::external_body]
pub struct ExIoError(std::io::Error);

/// Why a file could not be read.
#[derive(Debug)]
pub enum ParseError {
    /// The file ended in the middle of a token or a list.
    Eof,
    /// The file could not be read.
    Io(std::io::Error),
    /// Something else than the named thing was found.
    Expected(&'static str),
    /// Something else than the start of the named list was found.
    ExpectedStartOfList(&'static str),
}

/// What a parse error says, with its texts as sequences of characters.
pub enum ParseErrorView {
    Eof,
    Io,
    Expected(Seq<char>),
    ExpectedStartOfList(Seq<char>),
}

impl View for ParseError {
    type V = ParseErrorView;

    open spec fn view(&self) -> ParseErrorView {
        match self {
            ParseError::Eof => ParseErrorView::Eof,
            ParseError::Io(_) => ParseErrorView::Io,
            ParseError::Expected(what) => ParseErrorView::Expected(what@),
            ParseError::ExpectedStartOfList(name) => ParseErrorView::ExpectedStartOfList(name@),
        }
    }
}

impl ParseError {
    /// The error, found at `context` (a line and a column).
    pub fn add_context(self, context: (usize, usize)) -> (r: ParseErrorContext)
        ensures
            r@ == (self@, context),
    {
        ParseErrorContext { error: self, context }
    }
}

/// A parse error with the line and the column where it was found.
#[derive(Debug)]
pub struct ParseErrorContext {
    error: ParseError,
    context: (usize, usize),
}

impl View for ParseErrorContext {
    type V = (ParseErrorView, (usize, usize));

    closed spec fn view(&self) -> (ParseErrorView, (usize, usize)) {
        (self.error@, self.context)
    }
}

impl ParseErrorContext {
    /// The error.
    pub fn error(&self) -> (r: &ParseError)
        ensures
            r@ == self@.0,
    {
        &self.error
    }

    /// The line and the column where the error was found.
    pub fn context(&self) -> (r: (usize, usize))
        ensures
            r == self@.1,
    {
        self.context
    }

    /// The error and where it was found, taken apart.
    pub fn into_parts(self) -> (r: (ParseError, (usize, usize)))
        ensures
            r.0@ == self@.0,
            r.1 == self@.1,
    {
        (self.error, self.context)
    }
}

/// A token together with the line and the column where it starts.
#[derive(Debug)]
pub struct InputToken {
    pub token: ListToken,
    context: (usize, usize),
}

impl View for InputToken {
    type V = (TokenView, (usize, usize));

    closed spec fn view(&self) -> (TokenView, (usize, usize)) {
        (self.token@, self.context)
    }
}

impl InputToken {
    pub fn new(token: ListToken, context: (usize, usize)) -> (r: Self)
        ensures
            r@ == (token@, context),
    {
        Self { token, context }
    }

    /// The start of a list named `name`; an error carries the token's place.
    pub fn expect_start(self, name: &'static str) -> (r: Result<(), ParseErrorContext>)
        ensures
            match (r, expect_start_spec(self@.0, name@)) {
                (Ok(()), Ok(())) => true,
                (Err(e), Err(v)) => e@ == (v, self@.1),
                _ => false,
            },
    {
        let InputToken { token, context } = self;
        match token.expect_start(name) {
            Ok(()) => Ok(()),
            Err(err) => Err(err.add_context(context)),
        }
    }

    /// The start of any list, whose name is returned; an error carries the token's place.
    pub fn expect_any_start(self) -> (r: Result<String, ParseErrorContext>)
        ensures
            match (r, expect_any_start_spec(self@.0)) {
                (Ok(s), Ok(v)) => s@ == v,
                (Err(e), Err(v)) => e@ == (v, self@.1),
                _ => false,
            },
    {
        let InputToken { token, context } = self;
        match token.expect_any_start() {
            Ok(name) => Ok(name),
            Err(err) => Err(err.add_context(context)),
        }
    }

    /// A leaf, whose value is returned; an error carries the token's place.
    pub fn expect_leaf(self) -> (r: Result<String, ParseErrorContext>)
        ensures
            match (r, expect_leaf_spec(self@.0)) {
                (Ok(s), Ok(v)) => s@ == v,
                (Err(e), Err(v)) => e@ == (v, self@.1),
                _ => false,
            },
    {
        let InputToken { token, context } = self;
        match token.expect_leaf() {
            Ok(value) => Ok(value),
            Err(err) => Err(err.add_context(context)),
        }
    }

    /// The end of a list; an error carries the token's place.
    pub fn expect_end(self) -> (r: Result<(), ParseErrorContext>)
        ensures
            match (r, expect_end_spec(self@.0)) {
                (Ok(()), Ok(())) => true,
                (Err(e), Err(v)) => e@ == (v, self@.1),
                _ => false,
            },
    {
        let InputToken { token, context } = self;
        match token.expect_end() {
            Ok(()) => Ok(()),
            Err(err) => Err(err.add_context(context)),
        }
    }
}

// ---------------------------------------------------------------------------
// The tokens of a text, as mathematics.
// ---------------------------------------------------------------------------

/// Space between tokens.
pub open spec fn is_space(c: char) -> bool {
    c == ' ' || c == '\r' || c == '\n'
}

/// A character that ends a string written without quotes.
pub open spec fn ends_unquoted(c: char) -> bool {
    is_space(c) || c == '(' || c == ')'
}

/// The first position at or after `i` that does not hold a space.
pub open spec fn skip_space(s: Seq<char>, i: int) -> int
    decreases s.len() - i,
{
    if 0 <= i < s.len() && is_space(s[i]) {
        skip_space(s, i + 1)
    } else {
        i
    }
}

/// The first position at or after `i` that ends a string written without quotes.
pub open spec fn unquoted_end(s: Seq<char>, i: int) -> int
    decreases s.len() - i,
{
    if 0 <= i < s.len() && !ends_unquoted(s[i]) {
        unquoted_end(s, i + 1)
    } else {
        i
    }
}

/// The first position at or after `i` that holds the quote `q`, or a space where
/// spaces are not allowed in quoted strings.
pub open spec fn quoted_end(s: Seq<char>, i: int, q: char, space: bool) -> int
    decreases s.len() - i,
{
    if 0 <= i < s.len() && s[i] != q && (space || s[i] != ' ') {
        quoted_end(s, i + 1, q, space)
    } else {
        i
    }
}

/// The number of line breaks in `p`.
pub open spec fn newlines(p: Seq<char>) -> nat
    decreases p.len(),
{
    if p.len() == 0 {
        0
    } else {
        newlines(p.drop_last()) + (if p.last() == '\n' {
            1nat
        } else {
            0nat
        })
    }
}

/// The number of characters after the last line break of `p`.
pub open spec fn column_of(p: Seq<char>) -> nat
    decreases p.len(),
{
    if p.len() == 0 {
        0
    } else if p.last() == '\n' {
        0
    } else {
        column_of(p.drop_last()) + 1
    }
}

/// The line (counted from one) and the column (counted from zero) after the first
/// `i` characters of `s`.
pub open spec fn context_at(s: Seq<char>, i: int) -> (usize, usize) {
    ((1 + newlines(s.take(i))) as usize, column_of(s.take(i)) as usize)
}

/// A string without quotes starting at `i`: its characters and the position after
/// it, or the error and the position where it arises.
pub open spec fn lex_unquoted(s: Seq<char>, i: int) -> Result<(Seq<char>, int), (ParseErrorView, int)> {
    let j = unquoted_end(s, i);
    if j >= s.len() {
        Err((ParseErrorView::Eof, j))
    } else if j == i {
        Err((ParseErrorView::Expected("string (unquoted)"@), i))
    } else {
        Ok((s.subrange(i, j), j))
    }
}

/// A string in the quotes `q` whose opening quote is at `i`.
pub open spec fn lex_quoted(s: Seq<char>, i: int, q: char, space: bool) -> Result<
    (Seq<char>, int),
    (ParseErrorView, int),
> {
    let j = quoted_end(s, i + 1, q, space);
    if j >= s.len() {
        Err((ParseErrorView::Eof, j))
    } else if !space && s[j] == ' ' {
        Err((ParseErrorView::Expected("quoted string without spaces"@), j))
    } else {
        Ok((s.subrange(i + 1, j), j + 1))
    }
}

/// A string starting at `i`, in quotes where `quote` is set and the string opens
/// with it.
pub open spec fn lex_string(s: Seq<char>, i: int, quote: Option<char>, space: bool) -> Result<
    (Seq<char>, int),
    (ParseErrorView, int),
> {
    if i >= s.len() {
        Err((ParseErrorView::Eof, i))
    } else if quote is Some && s[i] == quote->0 {
        lex_quoted(s, i, quote->0, space)
    } else {
        lex_unquoted(s, i)
    }
}

/// The token after position `i`: the token, where it starts, and the position
/// after it; or the error and the position where it arises.
pub open spec fn lex_token(s: Seq<char>, i: int, quote: Option<char>, space: bool) -> Result<
    (TokenView, (usize, usize), int),
    (ParseErrorView, int),
> {
    let j = skip_space(s, i);
    if j >= s.len() {
        Err((ParseErrorView::Eof, j))
    } else if s[j] == '(' {
        match lex_string(s, skip_space(s, j + 1), quote, space) {
            Ok((name, n)) => Ok((TokenView::Start(name), context_at(s, j), n)),
            Err(e) => Err(e),
        }
    } else if s[j] == ')' {
        Ok((TokenView::End, context_at(s, j), j + 1))
    } else {
        match lex_string(s, j, quote, space) {
            Ok((value, n)) => Ok((TokenView::Leaf(value), context_at(s, j), n)),
            Err(e) => Err(e),
        }
    }
}

/// Where a tokenizer stands: the position of the next character, the token put
/// back (if any), the quote character and whether quoted strings may hold spaces.
pub struct TokState {
    pub pos: int,
    pub cached: Option<(TokenView, (usize, usize))>,
    pub quote: Option<char>,
    pub space: bool,
}

/// `st` at another position.
pub open spec fn at_pos(st: TokState, pos: int) -> TokState {
    TokState { pos, cached: st.cached, quote: st.quote, space: st.space }
}

/// `st` with `cached` as the token put back.
pub open spec fn with_cached(st: TokState, cached: Option<(TokenView, (usize, usize))>) -> TokState {
    TokState { pos: st.pos, cached, quote: st.quote, space: st.space }
}

/// The next token: the one put back, or else the next one of the text.
pub open spec fn next_token(s: Seq<char>, st: TokState) -> Result<
    ((TokenView, (usize, usize)), TokState),
    (ParseErrorView, (usize, usize)),
> {
    match st.cached {
        Some(t) => Ok((t, with_cached(st, None))),
        None => match lex_token(s, st.pos, st.quote, st.space) {
            Ok((token, context, n)) => Ok(((token, context), at_pos(st, n))),
            Err((e, p)) => Err((e, context_at(s, p))),
        },
    }
}

/// How much is left to read: two for each character and one for a token put back.
pub open spec fn measure(s: Seq<char>, st: TokState) -> int {
    2 * (s.len() - st.pos) + if st.cached is Some {
        1int
    } else {
        0int
    }
}

/// The next token is a leaf.
pub open spec fn leaf_pending(s: Seq<char>, st: TokState) -> bool {
    next_token(s, st) matches Ok((token, _)) && token.0 is Leaf
}

// ---------------------------------------------------------------------------
// Lemmas on the tokens of a text.
// ---------------------------------------------------------------------------

proof fn lemma_context_step(s: Seq<char>, i: int)
    requires
        0 <= i < s.len(),
    ensures
        newlines(s.take(i + 1)) == newlines(s.take(i)) + (if s[i] == '\n' {
            1nat
        } else {
            0nat
        }),
        column_of(s.take(i + 1)) == (if s[i] == '\n' {
            0
        } else {
            column_of(s.take(i)) + 1
        }),
{
    assert(s.take(i + 1).drop_last() =~= s.take(i));
}

proof fn lemma_context_bounds(p: Seq<char>)
    ensures
        newlines(p) <= p.len(),
        column_of(p) <= p.len(),
    decreases p.len(),
{
    if p.len() > 0 {
        lemma_context_bounds(p.drop_last());
    }
}

proof fn lemma_skip_space_bounds(s: Seq<char>, i: int)
    requires
        0 <= i <= s.len(),
    ensures
        i <= skip_space(s, i) <= s.len(),
        skip_space(s, i) < s.len() ==> !is_space(s[skip_space(s, i)]),
    decreases s.len() - i,
{
    if i < s.len() && is_space(s[i]) {
        lemma_skip_space_bounds(s, i + 1);
    }
}

proof fn lemma_unquoted_end_bounds(s: Seq<char>, i: int)
    requires
        0 <= i <= s.len(),
    ensures
        i <= unquoted_end(s, i) <= s.len(),
    decreases s.len() - i,
{
    if i < s.len() && !ends_unquoted(s[i]) {
        lemma_unquoted_end_bounds(s, i + 1);
    }
}

proof fn lemma_quoted_end_bounds(s: Seq<char>, i: int, q: char, space: bool)
    requires
        0 <= i <= s.len(),
    ensures
        i <= quoted_end(s, i, q, space) <= s.len(),
    decreases s.len() - i,
{
    if i < s.len() && s[i] != q && (space || s[i] != ' ') {
        lemma_quoted_end_bounds(s, i + 1, q, space);
    }
}

/// A token that is read moves the position forward, and not past the end.
proof fn lemma_lex_token_advances(s: Seq<char>, i: int, quote: Option<char>, space: bool)
    requires
        0 <= i <= s.len(),
    ensures
        lex_token(s, i, quote, space) matches Ok((_, _, n)) ==> i < n <= s.len(),
{
    let j = skip_space(s, i);
    lemma_skip_space_bounds(s, i);
    if j < s.len() {
        let k = if s[j] == '(' {
            skip_space(s, j + 1)
        } else {
            j
        };
        lemma_skip_space_bounds(s, j + 1);
        if k < s.len() {
            lemma_unquoted_end_bounds(s, k);
            lemma_quoted_end_bounds(s, k + 1, quote->0, space);
        }
    }
}

/// Reading the next token makes what is left to read smaller.
pub proof fn lemma_next_token_measure(s: Seq<char>, st: TokState)
    requires
        0 <= st.pos <= s.len(),
    ensures
        next_token(s, st) matches Ok((_, after)) ==> {
            &&& measure(s, after) < measure(s, st)
            &&& 0 <= after.pos <= s.len()
            &&& after.cached is None
        },
{
    if st.cached is None {
        lemma_lex_token_advances(s, st.pos, st.quote, st.space);
    }
}

/// One token of lookahead: putting back the token just consumed leaves the stream of
/// tokens as it was, so that the next token and the state after it are the same.
pub proof fn lemma_return_restores_stream(s: Seq<char>, st: TokState)
    requires
        next_token(s, st) is Ok,
    ensures
        ({
            let (token, after) = next_token(s, st)->Ok_0;
            next_token(s, with_cached(after, Some(token))) == next_token(s, st)
        }),
{
}

proof fn lemma_unquoted_end_scan(s: Seq<char>, i: int)
    requires
        0 <= i <= s.len(),
    ensures
        i <= unquoted_end(s, i) <= s.len(),
        forall|k: int| i <= k < unquoted_end(s, i) ==> !ends_unquoted(#[trigger] s[k]),
        unquoted_end(s, i) < s.len() ==> ends_unquoted(s[unquoted_end(s, i)]),
    decreases s.len() - i,
{
    lemma_unquoted_end_bounds(s, i);
    if i < s.len() && !ends_unquoted(s[i]) {
        lemma_unquoted_end_scan(s, i + 1);
    }
}

/// A string read without quotes is never empty and holds no space, carriage return,
/// line feed or parenthesis; the character right after it is one of these, so that it
/// runs as far as it can.
pub proof fn lemma_unquoted_tokens_hold_no_delimiters(s: Seq<char>, i: int, space: bool)
    requires
        0 <= i <= s.len(),
    ensures
        lex_token(s, i, None, space) matches Ok((token, _, n)) ==> match token {
            TokenView::Leaf(v) | TokenView::Start(v) => {
                &&& v.len() > 0
                &&& forall|k: int|
                    0 <= k < v.len() ==> #[trigger] v[k] != ' ' && v[k] != '\r' && v[k] != '\n'
                        && v[k] != '(' && v[k] != ')'
                &&& n < s.len()
                &&& (s[n] == ' ' || s[n] == '\r' || s[n] == '\n' || s[n] == '(' || s[n] == ')')
            },
            TokenView::End => true,
        },
{
    let j = skip_space(s, i);
    lemma_skip_space_bounds(s, i);
    if j < s.len() {
        let k = if s[j] == '(' {
            skip_space(s, j + 1)
        } else {
            j
        };
        lemma_skip_space_bounds(s, j + 1);
        if k <= s.len() {
            lemma_unquoted_end_scan(s, k);
            let e = unquoted_end(s, k);
            if e < s.len() && e != k {
                let v = s.subrange(k, e);
                assert forall|m: int| 0 <= m < v.len() implies #[trigger] v[m] != ' ' && v[m]
                    != '\r' && v[m] != '\n' && v[m] != '(' && v[m] != ')' by {
                    assert(v[m] == s[k + m]);
                    assert(!ends_unquoted(s[k + m]));
                }
            }
        }
    }
}

proof fn lemma_quoted_end_scan(s: Seq<char>, i: int, q: char, space: bool)
    requires
        0 <= i <= s.len(),
    ensures
        i <= quoted_end(s, i, q, space) <= s.len(),
        forall|k: int|
            i <= k < quoted_end(s, i, q, space) ==> #[trigger] s[k] != q && (space || s[k]
                != ' '),
        quoted_end(s, i, q, space) < s.len() ==> (s[quoted_end(s, i, q, space)] == q || (!space
            && s[quoted_end(s, i, q, space)] == ' ')),
    decreases s.len() - i,
{
    lemma_quoted_end_bounds(s, i, q, space);
    if i < s.len() && s[i] != q && (space || s[i] != ' ') {
        lemma_quoted_end_scan(s, i + 1, q, space);
    }
}

/// A string that opens with the quote character runs to the first quote after it: its
/// value is what stands between the two quotes, holds no quote, and holds no space
/// where spaces are not allowed in quoted strings; reading goes on right after the
/// closing quote. Where spaces are not allowed and one comes before the closing quote,
/// the string is refused at that space.
pub proof fn lemma_quoted_string_ends_at_quote(s: Seq<char>, i: int, q: char, space: bool)
    requires
        0 <= i < s.len(),
        s[i] == q,
    ensures
        lex_string(s, i, Some(q), space) matches Ok((v, n)) ==> {
            &&& n == i + v.len() + 2
            &&& n <= s.len()
            &&& s[n - 1] == q
            &&& v == s.subrange(i + 1, n - 1)
            &&& forall|k: int|
                0 <= k < v.len() ==> #[trigger] v[k] != q && (space || v[k] != ' ')
        },
        lex_string(s, i, Some(q), space) matches Err((ParseErrorView::Expected(_), p)) ==> {
            &&& !space
            &&& i < p < s.len()
            &&& s[p] == ' '
            &&& forall|k: int| i < k < p ==> #[trigger] s[k] != q && s[k] != ' '
        },
{
    lemma_quoted_end_scan(s, i + 1, q, space);
    let j = quoted_end(s, i + 1, q, space);
    if j < s.len() && !(!space && s[j] == ' ') {
        let v = s.subrange(i + 1, j);
        assert forall|k: int| 0 <= k < v.len() implies #[trigger] v[k] != q && (space || v[k]
            != ' ') by {
            assert(v[k] == s[i + 1 + k]);
        }
    }
}

// ---------------------------------------------------------------------------
// The tokenizer.
// ---------------------------------------------------------------------------

/// `String::push`, which appends the character `c` at the end of `s`: the contract
/// claims that the characters of `s` afterwards are those before, followed by `c`.
#[verifier::external_body]
fn push_char(s: &mut String, c: char)
    ensures
        final(s)@ == old(s)@.push(c),
{
    s.push(c);
}

fn is_space_char(c: char) -> (r: bool)
    ensures
        r == is_space(c),
{
    c == ' ' || c == '\r' || c == '\n'
}

fn ends_unquoted_char(c: char) -> (r: bool)
    ensures
        r == ends_unquoted(c),
{
    c == ' ' || c == '(' || c == ')' || c == '\r' || c == '\n'
}

/// Splits the characters of a Specctra file into tokens, with one token of
/// lookahead.
pub struct ListTokenizer {
    input: Vec<char>,
    pos: usize,
    cached_token: Option<InputToken>,
    space_in_quoted: bool,
    quote_char: Option<char>,
    line: usize,
    column: usize,
}

impl ListTokenizer {
    /// The tokenizer's fields agree: the position lies in the text, and the line
    /// and the column are those of the position.
    pub closed spec fn wf(&self) -> bool {
        &&& self.input@.len() < usize::MAX
        &&& self.pos <= self.input@.len()
        &&& self.line == 1 + newlines(self.input@.take(self.pos as int))
        &&& self.column == column_of(self.input@.take(self.pos as int))
    }

    /// The text being read.
    pub closed spec fn input(&self) -> Seq<char> {
        self.input@
    }

    /// Where the tokenizer stands.
    pub closed spec fn state(&self) -> TokState {
        TokState {
            pos: self.pos as int,
            cached: match self.cached_token {
                Some(t) => Some(t@),
                None => None,
            },
            quote: self.quote_char,
            space: self.space_in_quoted,
        }
    }

    /// A well-formed tokenizer stands inside its text.
    pub proof fn lemma_wf(&self)
        requires
            self.wf(),
        ensures
            0 <= self.state().pos <= self.input().len(),
    {
    }

    /// A tokenizer at the start of `input`, with no quote character and no spaces
    /// allowed in quoted strings.
    pub fn new(input: Vec<char>) -> (r: Self)
        requires
            input@.len() < usize::MAX,
        ensures
            r.wf(),
            r.input() == input@,
            r.state() == (TokState { pos: 0, cached: None, quote: None, space: false }),
    {
        proof {
            assert(input@.take(0) =~= Seq::<char>::empty());
        }
        Self {
            input,
            pos: 0,
            cached_token: None,
            space_in_quoted: false,
            quote_char: None,
            line: 1,
            column: 0,
        }
    }

    /// The line and the column of the next character.
    pub fn context(&self) -> (r: (usize, usize))
        requires
            self.wf(),
        ensures
            r == context_at(self.input(), self.state().pos),
    {
        (self.line, self.column)
    }

    fn add_context(&self, error: ParseError) -> (r: ParseErrorContext)
        requires
            self.wf(),
        ensures
            r@ == (error@, context_at(self.input(), self.state().pos)),
    {
        ParseErrorContext { error, context: (self.line, self.column) }
    }

    fn next_char(&mut self) -> (c: char)
        requires
            old(self).wf(),
            old(self).pos < old(self).input@.len(),
        ensures
            final(self).wf(),
            final(self).input@ == old(self).input@,
            final(self).pos == old(self).pos + 1,
            final(self).state() == at_pos(old(self).state(), final(self).pos as int),
            c == old(self).input@[old(self).pos as int],
    {
        proof {
            lemma_context_step(self.input@, self.pos as int);
            lemma_context_bounds(self.input@.take(self.pos as int));
        }
        let c = self.input[self.pos];
        if c == '\n' {
            self.line = self.line + 1;
            self.column = 0;
        } else {
            self.column = self.column + 1;
        }
        self.pos = self.pos + 1;
        c
    }

    fn skip_whitespace(&mut self) -> (r: Result<(), ParseErrorContext>)
        requires
            old(self).wf(),
        ensures
            final(self).wf(),
            final(self).input@ == old(self).input@,
            final(self).state() == at_pos(old(self).state(), final(self).pos as int),
            match r {
                Ok(()) => final(self).pos == skip_space(old(self).input@, old(self).pos as int)
                    && final(self).pos < old(self).input@.len(),
                Err(e) => skip_space(old(self).input@, old(self).pos as int) >= old(
                    self,
                ).input@.len() && e@ == (ParseErrorView::Eof, context_at(
                    old(self).input@,
                    skip_space(old(self).input@, old(self).pos as int),
                )),
            },
    {
        let ghost s = self.input@;
        let ghost st0 = self.state();
        let ghost start = self.pos as int;
        while self.pos < self.input.len() && is_space_char(self.input[self.pos])
            invariant
                self.wf(),
                self.input@ == s,
                self.state() == at_pos(st0, self.pos as int),
                start <= self.pos <= s.len(),
                skip_space(s, self.pos as int) == skip_space(s, start),
            decreases s.len() - self.pos,
        {
            self.next_char();
        }
        if self.pos >= self.input.len() {
            Err(self.add_context(ParseError::Eof))
        } else {
            Ok(())
        }
    }

    fn read_unquoted(&mut self) -> (r: Result<String, ParseErrorContext>)
        requires
            old(self).wf(),
        ensures
            final(self).wf(),
            final(self).input@ == old(self).input@,
            final(self).state() == at_pos(old(self).state(), final(self).pos as int),
            match (r, lex_unquoted(old(self).input@, old(self).pos as int)) {
                (Ok(v), Ok((w, n))) => v@ == w && final(self).pos == n,
                (Err(e), Err((ev, p))) => e@ == (ev, context_at(old(self).input@, p)),
                _ => false,
            },
    {
        let ghost s = self.input@;
        let ghost st0 = self.state();
        let start: usize = self.pos;
        let mut string = String::new();
        while self.pos < self.input.len() && !ends_unquoted_char(self.input[self.pos])
            invariant
                self.wf(),
                self.input@ == s,
                self.state() == at_pos(st0, self.pos as int),
                start <= self.pos <= s.len(),
                unquoted_end(s, self.pos as int) == unquoted_end(s, start as int),
                string@ == s.subrange(start as int, self.pos as int),
            decreases s.len() - self.pos,
        {
            let c = self.next_char();
            push_char(&mut string, c);
            assert(string@ =~= s.subrange(start as int, self.pos as int));
        }
        if self.pos >= self.input.len() {
            Err(self.add_context(ParseError::Eof))
        } else if self.pos == start {
            Err(self.add_context(ParseError::Expected("string (unquoted)")))
        } else {
            Ok(string)
        }
    }

    fn read_quoted(&mut self, quote: char) -> (r: Result<String, ParseErrorContext>)
        requires
            old(self).wf(),
            old(self).pos < old(self).input@.len(),
            old(self).input@[old(self).pos as int] == quote,
        ensures
            final(self).wf(),
            final(self).input@ == old(self).input@,
            final(self).state() == at_pos(old(self).state(), final(self).pos as int),
            match (
                r,
                lex_quoted(
                    old(self).input@,
                    old(self).pos as int,
                    quote,
                    old(self).space_in_quoted,
                ),
            ) {
                (Ok(v), Ok((w, n))) => v@ == w && final(self).pos == n,
                (Err(e), Err((ev, p))) => e@ == (ev, context_at(old(self).input@, p)),
                _ => false,
            },
    {
        let ghost s = self.input@;
        let ghost st0 = self.state();
        let space = self.space_in_quoted;
        self.next_char();
        let start: usize = self.pos;
        let mut string = String::new();
        while self.pos < self.input.len() && self.input[self.pos] != quote && (space
            || self.input[self.pos] != ' ')
            invariant
                self.wf(),
                self.input@ == s,
                self.state() == at_pos(st0, self.pos as int),
                self.space_in_quoted == space,
                start <= self.pos <= s.len(),
                quoted_end(s, self.pos as int, quote, space) == quoted_end(
                    s,
                    start as int,
                    quote,
                    space,
                ),
                string@ == s.subrange(start as int, self.pos as int),
            decreases s.len() - self.pos,
        {
            let c = self.next_char();
            push_char(&mut string, c);
            assert(string@ =~= s.subrange(start as int, self.pos as int));
        }
        if self.pos >= self.input.len() {
            Err(self.add_context(ParseError::Eof))
        } else if !space && self.input[self.pos] == ' ' {
            Err(self.add_context(ParseError::Expected("quoted string without spaces")))
        } else {
            self.next_char();
            Ok(string)
        }
    }

    fn read_string(&mut self) -> (r: Result<String, ParseErrorContext>)
        requires
            old(self).wf(),
        ensures
            final(self).wf(),
            final(self).input@ == old(self).input@,
            final(self).state() == at_pos(old(self).state(), final(self).pos as int),
            match (
                r,
                lex_string(
                    old(self).input@,
                    old(self).pos as int,
                    old(self).quote_char,
                    old(self).space_in_quoted,
                ),
            ) {
                (Ok(v), Ok((w, n))) => v@ == w && final(self).pos == n,
                (Err(e), Err((ev, p))) => e@ == (ev, context_at(old(self).input@, p)),
                _ => false,
            },
    {
        if let Some(quote) = self.quote_char {
            if self.pos >= self.input.len() {
                return Err(self.add_context(ParseError::Eof));
            }
            if self.input[self.pos] == quote {
                return self.read_quoted(quote);
            }
        }
        if self.pos >= self.input.len() {
            proof {
                assert(unquoted_end(self.input@, self.pos as int) == self.pos);
            }
        }
        self.read_unquoted()
    }

    fn read_token(&mut self) -> (r: Result<InputToken, ParseErrorContext>)
        requires
            old(self).wf(),
        ensures
            final(self).wf(),
            final(self).input@ == old(self).input@,
            final(self).state() == at_pos(old(self).state(), final(self).pos as int),
            match (
                r,
                lex_token(
                    old(self).input@,
                    old(self).pos as int,
                    old(self).quote_char,
                    old(self).space_in_quoted,
                ),
            ) {
                (Ok(t), Ok((tv, c, n))) => t@ == (tv, c) && final(self).pos == n,
                (Err(e), Err((ev, p))) => e@ == (ev, context_at(old(self).input@, p)),
                _ => false,
            },
    {
        match self.skip_whitespace() {
            Ok(()) => {},
            Err(e) => {
                return Err(e);
            },
        }
        let context = self.context();
        let c = self.input[self.pos];
        if c == '(' {
            self.next_char();
            match self.skip_whitespace() {
                Ok(()) => {},
                Err(e) => {
                    return Err(e);
                },
            }
            match self.read_string() {
                Ok(name) => Ok(InputToken::new(ListToken::Start { name }, context)),
                Err(e) => Err(e),
            }
        } else if c == ')' {
            self.next_char();
            Ok(InputToken::new(ListToken::End, context))
        } else {
            match self.read_string() {
                Ok(value) => Ok(InputToken::new(ListToken::Leaf { value }, context)),
                Err(e) => Err(e),
            }
        }
    }

    /// The next token: the one put back, if any, or else the next one of the text.
    pub fn consume_token(&mut self) -> (r: Result<InputToken, ParseErrorContext>)
        requires
            old(self).wf(),
        ensures
            final(self).wf(),
            final(self).input() == old(self).input(),
            match (r, next_token(old(self).input(), old(self).state())) {
                (Ok(t), Ok((tv, after))) => t@ == tv && final(self).state() == after,
                (Err(e), Err(ev)) => e@ == ev,
                _ => false,
            },
            r is Ok ==> measure(final(self).input(), final(self).state()) < measure(
                old(self).input(),
                old(self).state(),
            ),
    {
        proof {
            lemma_next_token_measure(self.input@, self.state());
        }
        let mut cached: Option<InputToken> = None;
        std::mem::swap(&mut cached, &mut self.cached_token);
        match cached {
            Some(token) => Ok(token),
            None => self.read_token(),
        }
    }

    /// Puts `token` back, to be the next token consumed.
    pub fn return_token(&mut self, token: InputToken)
        requires
            old(self).wf(),
        ensures
            final(self).wf(),
            final(self).input() == old(self).input(),
            final(self).state() == with_cached(old(self).state(), Some(token@)),
    {
        self.cached_token = Some(token);
    }
}


// ---------------------------------------------------------------------------
// Reading values.
// ---------------------------------------------------------------------------

/// What a reading gives: the value and where the tokenizer then stands, or the
/// error and its place.
pub type Outcome<V> = Result<(V, TokState), (ParseErrorView, (usize, usize))>;

/// The result of a reading, and the tokenizer's state after it, are `expected`.
pub open spec fn reads_as<T: DeepView>(
    expected: Outcome<T::V>,
    r: Result<T, ParseErrorContext>,
    after: TokState,
) -> bool {
    match (r, expected) {
        (Ok(v), Ok((w, st))) => v.deep_view() == w && after == st,
        (Err(e), Err(ev)) => e@ == ev,
        _ => false,
    }
}

/// A type whose values can be read from a Specctra file.
pub trait ReadDsn: Sized + DeepView {
    /// What reading a value of this type from `st`, over the text `s`, gives.
    spec fn read_spec(s: Seq<char>, st: TokState) -> Outcome<<Self as DeepView>::V>;

    /// Whether reading a value of this type, when the next token is a leaf, consumes
    /// that leaf for good.
    spec fn consumes_leaf() -> bool;

    fn read_dsn(tokenizer: &mut ListTokenizer) -> (r: Result<Self, ParseErrorContext>)
        requires
            old(tokenizer).wf(),
        ensures
            final(tokenizer).wf(),
            final(tokenizer).input() == old(tokenizer).input(),
            reads_as(
                Self::read_spec(old(tokenizer).input(), old(tokenizer).state()),
                r,
                final(tokenizer).state(),
            ),
            r is Ok ==> measure(final(tokenizer).input(), final(tokenizer).state()) <= measure(
                old(tokenizer).input(),
                old(tokenizer).state(),
            ),
            r is Ok && Self::consumes_leaf() && leaf_pending(
                old(tokenizer).input(),
                old(tokenizer).state(),
            ) ==> measure(final(tokenizer).input(), final(tokenizer).state()) < measure(
                old(tokenizer).input(),
                old(tokenizer).state(),
            ),
    ;
}

/// The next token is the start of a list named `name` (in any case of its ASCII
/// letters): the state after it.
pub open spec fn start_after(s: Seq<char>, st: TokState, name: Seq<char>) -> Result<
    TokState,
    (ParseErrorView, (usize, usize)),
> {
    match next_token(s, st) {
        Err(e) => Err(e),
        Ok((token, after)) => match expect_start_spec(token.0, name) {
            Ok(()) => Ok(after),
            Err(ev) => Err((ev, token.1)),
        },
    }
}

/// The next token ends a list: the state after it.
pub open spec fn end_after(s: Seq<char>, st: TokState) -> Result<
    TokState,
    (ParseErrorView, (usize, usize)),
> {
    match next_token(s, st) {
        Err(e) => Err(e),
        Ok((token, after)) => match expect_end_spec(token.0) {
            Ok(()) => Ok(after),
            Err(ev) => Err((ev, token.1)),
        },
    }
}

/// The next token is a leaf: its value and the state after it.
pub open spec fn leaf_after(s: Seq<char>, st: TokState) -> Outcome<Seq<char>> {
    match next_token(s, st) {
        Err(e) => Err(e),
        Ok((token, after)) => match expect_leaf_spec(token.0) {
            Ok(value) => Ok((value, after)),
            Err(ev) => Err((ev, token.1)),
        },
    }
}

/// A list named `name` holding one value of type `T`.
pub open spec fn read_named_spec<T: ReadDsn>(s: Seq<char>, st: TokState, name: Seq<char>) -> Outcome<
    T::V,
> {
    match start_after(s, st, name) {
        Err(e) => Err(e),
        Ok(st1) => match T::read_spec(s, st1) {
            Err(e) => Err(e),
            Ok((v, st2)) => match end_after(s, st2) {
                Err(e) => Err(e),
                Ok(st3) => Ok((v, st3)),
            },
        },
    }
}

/// A list named exactly `name` holding one value of type `T`, if the next token
/// starts it; otherwise nothing, with that token put back.
pub open spec fn read_optional_spec<T: ReadDsn>(
    s: Seq<char>,
    st: TokState,
    name: Seq<char>,
) -> Outcome<Option<T::V>> {
    match next_token(s, st) {
        Err(e) => Err(e),
        Ok((token, st1)) => if token.0 == TokenView::Start(name) {
            match T::read_spec(s, st1) {
                Err(e) => Err(e),
                Ok((v, st2)) => match end_after(s, st2) {
                    Err(e) => Err(e),
                    Ok(st3) => Ok((Some(v), st3)),
                },
            }
        } else {
            Ok((None, with_cached(st1, Some(token))))
        },
    }
}

/// Looking for an optional list that is not there consumes nothing: the stream of
/// tokens after it is the stream before it.
pub proof fn lemma_absent_optional_keeps_stream<T: ReadDsn>(
    s: Seq<char>,
    st: TokState,
    name: Seq<char>,
)
    requires
        read_optional_spec::<T>(s, st, name) matches Ok((None, _)),
    ensures
        next_token(s, read_optional_spec::<T>(s, st, name)->Ok_0.1) == next_token(s, st),
{
    lemma_return_restores_stream(s, st);
}

/// `pre` before the values of `out`.
pub open spec fn prepend<V>(pre: Seq<V>, out: Outcome<Seq<V>>) -> Outcome<Seq<V>> {
    match out {
        Ok((vs, st)) => Ok((pre + vs, st)),
        Err(e) => Err(e),
    }
}

/// Values of type `T` for as long as the next token is a leaf; the token after them
/// is put back. `fuel` bounds the number of values.
pub open spec fn read_array_spec<T: ReadDsn>(s: Seq<char>, st: TokState, fuel: nat) -> Outcome<
    Seq<T::V>,
>
    decreases fuel,
{
    match next_token(s, st) {
        Err(e) => Err(e),
        Ok((token, st1)) => if token.0 is Leaf {
            if fuel == 0 {
                Err((ParseErrorView::Eof, token.1))
            } else {
                match T::read_spec(s, with_cached(st1, Some(token))) {
                    Err(e) => Err(e),
                    Ok((v, st2)) => prepend(
                        seq![v],
                        read_array_spec::<T>(s, st2, (fuel - 1) as nat),
                    ),
                }
            }
        } else {
            Ok((Seq::empty(), with_cached(st1, Some(token))))
        },
    }
}

/// The names of `names`, as sequences of characters.
pub open spec fn name_views(names: Seq<&'static str>) -> Seq<Seq<char>> {
    names.map_values(|n: &'static str| n@)
}

/// Lists, each holding one value of type `T`, for as long as the next token starts
/// a list whose name, with its ASCII capitals in lower case, is one of `names`; the
/// token after them is put back. `fuel` bounds the number of lists.
pub open spec fn read_alias_array_spec<T: ReadDsn>(
    s: Seq<char>,
    st: TokState,
    names: Seq<Seq<char>>,
    fuel: nat,
) -> Outcome<Seq<T::V>>
    decreases fuel,
{
    match next_token(s, st) {
        Err(e) => Err(e),
        Ok((token, st1)) => if token.0 is Start && names.contains(ascii_lower(token.0->Start_0)) {
            if fuel == 0 {
                Err((ParseErrorView::Eof, token.1))
            } else {
                match T::read_spec(s, st1) {
                    Err(e) => Err(e),
                    Ok((v, st2)) => match end_after(s, st2) {
                        Err(e) => Err(e),
                        Ok(st3) => prepend(
                            seq![v],
                            read_alias_array_spec::<T>(s, st3, names, (fuel - 1) as nat),
                        ),
                    },
                }
            }
        } else {
            Ok((Seq::empty(), with_cached(st1, Some(token))))
        },
    }
}

/// Whether `actual` is exactly `name`.
fn equals_str(actual: &String, name: &str) -> (r: bool)
    ensures
        r == (actual@ == name@),
{
    let owned = name.to_owned();
    *actual == owned
}

impl ListTokenizer {
    /// A value of type `T`.
    pub fn read_value<T: ReadDsn>(&mut self) -> (r: Result<T, ParseErrorContext>)
        requires
            old(self).wf(),
        ensures
            final(self).wf(),
            final(self).input() == old(self).input(),
            reads_as(T::read_spec(old(self).input(), old(self).state()), r, final(self).state()),
            r is Ok ==> measure(final(self).input(), final(self).state()) <= measure(
                old(self).input(),
                old(self).state(),
            ),
            r is Ok && T::consumes_leaf() && leaf_pending(old(self).input(), old(self).state())
                ==> measure(final(self).input(), final(self).state()) < measure(
                old(self).input(),
                old(self).state(),
            ),
    {
        T::read_dsn(self)
    }

    /// A list named `name` (in any case of its ASCII letters) holding one value of
    /// type `T`.
    pub fn read_named<T: ReadDsn>(&mut self, name: &'static str) -> (r: Result<
        T,
        ParseErrorContext,
    >)
        requires
            old(self).wf(),
        ensures
            final(self).wf(),
            final(self).input() == old(self).input(),
            reads_as(
                read_named_spec::<T>(old(self).input(), old(self).state(), name@),
                r,
                final(self).state(),
            ),
            r is Ok ==> measure(final(self).input(), final(self).state()) < measure(
                old(self).input(),
                old(self).state(),
            ),
    {
        match self.consume_token() {
            Ok(token) => match token.expect_start(name) {
                Ok(()) => {},
                Err(e) => {
                    return Err(e);
                },
            },
            Err(e) => {
                return Err(e);
            },
        }
        let value = match self.read_value::<T>() {
            Ok(value) => value,
            Err(e) => {
                return Err(e);
            },
        };
        match self.consume_token() {
            Ok(token) => match token.expect_end() {
                Ok(()) => Ok(value),
                Err(e) => Err(e),
            },
            Err(e) => Err(e),
        }
    }

    /// A list named exactly `name` holding one value of type `T`, if the next token
    /// starts it; otherwise nothing, and the token is put back.
    pub fn read_optional<T: ReadDsn>(&mut self, name: &'static str) -> (r: Result<
        Option<T>,
        ParseErrorContext,
    >)
        requires
            old(self).wf(),
        ensures
            final(self).wf(),
            final(self).input() == old(self).input(),
            reads_as(
                read_optional_spec::<T>(old(self).input(), old(self).state(), name@),
                r,
                final(self).state(),
            ),
            r is Ok ==> measure(final(self).input(), final(self).state()) <= measure(
                old(self).input(),
                old(self).state(),
            ),
    {
        let ghost s = self.input();
        let ghost st0 = self.state();
        let input = match self.consume_token() {
            Ok(token) => token,
            Err(e) => {
                return Err(e);
            },
        };
        let found = match &input.token {
            ListToken::Start { name: actual } => equals_str(actual, name),
            _ => false,
        };
        if found {
            let value = match self.read_value::<T>() {
                Ok(value) => value,
                Err(e) => {
                    return Err(e);
                },
            };
            match self.consume_token() {
                Ok(token) => match token.expect_end() {
                    Ok(()) => Ok(Some(value)),
                    Err(e) => Err(e),
                },
                Err(e) => Err(e),
            }
        } else {
            proof {
                lemma_next_token_measure(s, st0);
            }
            self.return_token(input);
            Ok(None)
        }
    }

    /// Values of type `T` for as long as the next token is a leaf; the token after
    /// them is put back.
    pub fn read_array<T: ReadDsn>(&mut self) -> (r: Result<Vec<T>, ParseErrorContext>)
        requires
            old(self).wf(),
            T::consumes_leaf(),
        ensures
            final(self).wf(),
            final(self).input() == old(self).input(),
            reads_as(
                read_array_spec::<T>(
                    old(self).input(),
                    old(self).state(),
                    measure(old(self).input(), old(self).state()) as nat,
                ),
                r,
                final(self).state(),
            ),
            r is Ok ==> measure(final(self).input(), final(self).state()) <= measure(
                old(self).input(),
                old(self).state(),
            ),
            r is Ok && leaf_pending(old(self).input(), old(self).state()) ==> measure(
                final(self).input(),
                final(self).state(),
            ) < measure(old(self).input(), old(self).state()),
    {
        let ghost s = self.input();
        let ghost st0 = self.state();
        let ghost fuel0 = measure(s, st0) as nat;
        let ghost mut fuel = fuel0;
        let mut array: Vec<T> = Vec::new();
        proof {
            self.lemma_wf();
            assert(array.deep_view() =~= Seq::<T::V>::empty());
            assert(prepend(array.deep_view(), read_array_spec::<T>(s, st0, fuel0))
                =~= read_array_spec::<T>(s, st0, fuel0)) by {
                match read_array_spec::<T>(s, st0, fuel0) {
                    Ok((vs, st)) => {
                        assert(Seq::<T::V>::empty() + vs =~= vs);
                    },
                    Err(_) => {},
                }
            }
        }
        loop
            invariant
                self.wf(),
                self.input() == s,
                s == old(self).input(),
                st0 == old(self).state(),
                fuel0 == measure(s, st0) as nat,
                measure(s, self.state()) <= fuel,
                measure(s, self.state()) <= measure(s, st0),
                array@.len() == 0 ==> self.state() == st0,
                array@.len() > 0 ==> measure(s, self.state()) < measure(s, st0),
                read_array_spec::<T>(s, st0, fuel0) == prepend(
                    array.deep_view(),
                    read_array_spec::<T>(s, self.state(), fuel),
                ),
                T::consumes_leaf(),
            decreases fuel,
        {
            let ghost st_k = self.state();
            proof {
                self.lemma_wf();
                lemma_next_token_measure(s, st_k);
            }
            let input = match self.consume_token() {
                Ok(token) => token,
                Err(e) => {
                    return Err(e);
                },
            };
            let is_leaf = match &input.token {
                ListToken::Leaf { .. } => true,
                _ => false,
            };
            if is_leaf {
                self.return_token(input);
                let value = match T::read_dsn(self) {
                    Ok(value) => value,
                    Err(e) => {
                        return Err(e);
                    },
                };
                let ghost before = array.deep_view();
                let ghost rest = read_array_spec::<T>(s, self.state(), (fuel - 1) as nat);
                array.push(value);
                proof {
                    assert(array.deep_view() =~= before.push(value.deep_view()));
                    match rest {
                        Ok((vs, st)) => {
                            assert(before + (seq![value.deep_view()] + vs) =~= before.push(
                                value.deep_view(),
                            ) + vs);
                        },
                        Err(_) => {},
                    }
                    fuel = (fuel - 1) as nat;
                }
            } else {
                self.return_token(input);
                proof {
                    assert(array.deep_view() + Seq::<T::V>::empty() =~= array.deep_view());
                }
                return Ok(array);
            }
        }
    }

    /// Lists, each holding one value of type `T`, for as long as the next token
    /// starts a list whose name, with its ASCII capitals in lower case, is one of
    /// `valid_names`; the token after them is put back.
    pub fn read_array_with_alias<T: ReadDsn>(&mut self, valid_names: &[&'static str]) -> (r: Result<
        Vec<T>,
        ParseErrorContext,
    >)
        requires
            old(self).wf(),
        ensures
            final(self).wf(),
            final(self).input() == old(self).input(),
            reads_as(
                read_alias_array_spec::<T>(
                    old(self).input(),
                    old(self).state(),
                    name_views(valid_names@),
                    measure(old(self).input(), old(self).state()) as nat,
                ),
                r,
                final(self).state(),
            ),
            r is Ok ==> measure(final(self).input(), final(self).state()) <= measure(
                old(self).input(),
                old(self).state(),
            ),
    {
        let ghost s = self.input();
        let ghost st0 = self.state();
        let ghost names = name_views(valid_names@);
        let ghost fuel0 = measure(s, st0) as nat;
        let ghost mut fuel = fuel0;
        let mut array: Vec<T> = Vec::new();
        proof {
            self.lemma_wf();
            assert(array.deep_view() =~= Seq::<T::V>::empty());
            assert(prepend(array.deep_view(), read_alias_array_spec::<T>(s, st0, names, fuel0))
                =~= read_alias_array_spec::<T>(s, st0, names, fuel0)) by {
                match read_alias_array_spec::<T>(s, st0, names, fuel0) {
                    Ok((vs, st)) => {
                        assert(Seq::<T::V>::empty() + vs =~= vs);
                    },
                    Err(_) => {},
                }
            }
        }
        loop
            invariant
                self.wf(),
                self.input() == s,
                s == old(self).input(),
                st0 == old(self).state(),
                fuel0 == measure(s, st0) as nat,
                names == name_views(valid_names@),
                measure(s, self.state()) <= fuel,
                measure(s, self.state()) <= measure(s, st0),
                read_alias_array_spec::<T>(s, st0, names, fuel0) == prepend(
                    array.deep_view(),
                    read_alias_array_spec::<T>(s, self.state(), names, fuel),
                ),
            decreases fuel,
        {
            let ghost st_k = self.state();
            proof {
                self.lemma_wf();
                lemma_next_token_measure(s, st_k);
            }
            let input = match self.consume_token() {
                Ok(token) => token,
                Err(e) => {
                    return Err(e);
                },
            };
            let found = match &input.token {
                ListToken::Start { name: actual } => self.is_valid_name(actual, valid_names),
                _ => false,
            };
            if found {
                let value = match T::read_dsn(self) {
                    Ok(value) => value,
                    Err(e) => {
                        return Err(e);
                    },
                };
                match self.consume_token() {
                    Ok(token) => match token.expect_end() {
                        Ok(()) => {},
                        Err(e) => {
                            return Err(e);
                        },
                    },
                    Err(e) => {
                        return Err(e);
                    },
                }
                let ghost before = array.deep_view();
                let ghost rest = read_alias_array_spec::<T>(
                    s,
                    self.state(),
                    names,
                    (fuel - 1) as nat,
                );
                array.push(value);
                proof {
                    assert(array.deep_view() =~= before.push(value.deep_view()));
                    match rest {
                        Ok((vs, st)) => {
                            assert(before + (seq![value.deep_view()] + vs) =~= before.push(
                                value.deep_view(),
                            ) + vs);
                        },
                        Err(_) => {},
                    }
                    fuel = (fuel - 1) as nat;
                }
            } else {
                self.return_token(input);
                proof {
                    assert(array.deep_view() + Seq::<T::V>::empty() =~= array.deep_view());
                }
                return Ok(array);
            }
        }
    }

    /// Whether `actual`, with its ASCII capitals in lower case, is one of `valid_names`.
    fn is_valid_name(&self, actual: &String, valid_names: &[&'static str]) -> (r: bool)
        ensures
            r == name_views(valid_names@).contains(ascii_lower(actual@)),
    {
        let ghost names = name_views(valid_names@);
        let mut i: usize = 0;
        while i < valid_names.len()
            invariant
                i <= valid_names@.len(),
                names == name_views(valid_names@),
                forall|k: int| 0 <= k < i ==> names[k] != ascii_lower(actual@),
            decreases valid_names@.len() - i,
        {
            if equals_lowered(actual, valid_names[i]) {
                proof {
                    assert(names[i as int] == ascii_lower(actual@));
                }
                return true;
            }
            i = i + 1;
        }
        false
    }

    /// Lists named `name`, each holding one value of type `T`, for as long as they
    /// follow each other; the token after them is put back.
    pub fn read_named_array<T: ReadDsn>(&mut self, name: &'static str) -> (r: Result<
        Vec<T>,
        ParseErrorContext,
    >)
        requires
            old(self).wf(),
        ensures
            final(self).wf(),
            final(self).input() == old(self).input(),
            reads_as(
                read_alias_array_spec::<T>(
                    old(self).input(),
                    old(self).state(),
                    seq![name@],
                    measure(old(self).input(), old(self).state()) as nat,
                ),
                r,
                final(self).state(),
            ),
            r is Ok ==> measure(final(self).input(), final(self).state()) <= measure(
                old(self).input(),
                old(self).state(),
            ),
    {
        let names: [&'static str; 1] = [name];
        proof {
            assert(name_views(names@) =~= seq![name@]);
        }
        self.read_array_with_alias(&names)
    }
}


// ---------------------------------------------------------------------------
// Leaves: strings, characters, switches and numbers.
// ---------------------------------------------------------------------------

/// A decimal digit.
pub open spec fn is_digit(c: char) -> bool {
    '0' <= c && c <= '9'
}

/// The value of a decimal digit.
pub open spec fn digit_value(c: char) -> int {
    c as int - '0' as int
}

/// At least one character, and all of them decimal digits.
pub open spec fn all_digits(d: Seq<char>) -> bool {
    d.len() > 0 && forall|i: int| 0 <= i < d.len() ==> is_digit(#[trigger] d[i])
}

/// The value of a sequence of decimal digits.
pub open spec fn digits_value(d: Seq<char>) -> int
    decreases d.len(),
{
    if d.len() == 0 {
        0
    } else {
        digits_value(d.drop_last()) * 10 + digit_value(d.last())
    }
}

/// The integer that `v` writes: an optional `+` or `-`, then decimal digits.
pub open spec fn signed_decimal(v: Seq<char>) -> Option<int> {
    if v.len() > 0 && (v[0] == '-' || v[0] == '+') {
        if all_digits(v.drop_first()) {
            Some(
                if v[0] == '-' {
                    -digits_value(v.drop_first())
                } else {
                    digits_value(v.drop_first())
                },
            )
        } else {
            None
        }
    } else if all_digits(v) {
        Some(digits_value(v))
    } else {
        None
    }
}

/// The natural number that `v` writes: an optional `+`, then decimal digits.
pub open spec fn unsigned_decimal(v: Seq<char>) -> Option<int> {
    if v.len() > 0 && v[0] == '+' {
        if all_digits(v.drop_first()) {
            Some(digits_value(v.drop_first()))
        } else {
            None
        }
    } else if all_digits(v) {
        Some(digits_value(v))
    } else {
        None
    }
}

proof fn lemma_digits_nonnegative(d: Seq<char>)
    requires
        forall|i: int| 0 <= i < d.len() ==> is_digit(#[trigger] d[i]),
    ensures
        digits_value(d) >= 0,
    decreases d.len(),
{
    if d.len() > 0 {
        lemma_digits_nonnegative(d.drop_last());
    }
}

/// A prefix of digits is worth no more than the whole.
proof fn lemma_digits_prefix(d: Seq<char>, k: int)
    requires
        0 <= k <= d.len(),
        forall|i: int| 0 <= i < d.len() ==> is_digit(#[trigger] d[i]),
    ensures
        digits_value(d.take(k)) <= digits_value(d),
    decreases d.len(),
{
    if k == d.len() {
        assert(d.take(k) =~= d);
    } else {
        let rest = d.drop_last();
        assert(rest.take(k) =~= d.take(k));
        lemma_digits_prefix(rest, k);
        lemma_digits_nonnegative(rest);
    }
}

/// The value of the characters of `v` from `start` on, if they are at least one,
/// all decimal digits, and worth at most `limit`.
fn parse_digits(v: &str, start: usize, limit: u64) -> (r: Option<u64>)
    requires
        start <= v@.len(),
    ensures
        match r {
            Some(n) => all_digits(v@.subrange(start as int, v@.len() as int)) && n == digits_value(
                v@.subrange(start as int, v@.len() as int),
            ) && n <= limit,
            None => !(all_digits(v@.subrange(start as int, v@.len() as int)) && digits_value(
                v@.subrange(start as int, v@.len() as int),
            ) <= limit),
        },
{
    let len: usize = v.unicode_len();
    let ghost whole = v@.subrange(start as int, len as int);
    if start >= len {
        return None;
    }
    let mut acc: u64 = 0;
    let mut i: usize = start;
    proof {
        assert(v@.subrange(start as int, start as int) =~= Seq::<char>::empty());
    }
    while i < len
        invariant
            start < len,
            len == v@.len(),
            whole == v@.subrange(start as int, len as int),
            start <= i <= len,
            acc == digits_value(v@.subrange(start as int, i as int)),
            acc <= limit,
            forall|k: int| start <= k < i ==> is_digit(#[trigger] v@[k]),
        decreases len - i,
    {
        let c = v.get_char(i);
        if c < '0' || c > '9' {
            proof {
                assert(whole[i - start] == c);
            }
            return None;
        }
        let d: u32 = (c as u32) - 48;
        let next: u128 = (acc as u128) * 10 + (d as u128);
        proof {
            let pre = v@.subrange(start as int, i as int + 1);
            assert(pre.drop_last() =~= v@.subrange(start as int, i as int));
            assert(pre.last() == c);
            assert(next == digits_value(pre));
        }
        if next > limit as u128 {
            proof {
                let pre = v@.subrange(start as int, i as int + 1);
                if forall|k: int| 0 <= k < whole.len() ==> is_digit(#[trigger] whole[k]) {
                    assert(whole.take(i - start + 1) =~= pre);
                    lemma_digits_prefix(whole, i - start + 1);
                }
            }
            return None;
        }
        acc = next as u64;
        i = i + 1;
    }
    proof {
        assert(whole =~= v@.subrange(start as int, i as int));
        assert forall|k: int| 0 <= k < whole.len() implies is_digit(#[trigger] whole[k]) by {
            assert(whole[k] == v@[start + k]);
        }
    }
    Some(acc)
}

/// The `i32` that `v` writes, if it writes one.
fn parse_i32(v: &str) -> (r: Option<i32>)
    ensures
        match signed_decimal(v@) {
            Some(x) => if i32::MIN <= x <= i32::MAX {
                r == Some(x as i32)
            } else {
                r is None
            },
            None => r is None,
        },
{
    let len: usize = v.unicode_len();
    proof {
        assert(v@.subrange(0, v@.len() as int) =~= v@);
        if v@.len() > 0 {
            assert(v@.subrange(1, v@.len() as int) =~= v@.drop_first());
        }
    }
    if len > 0 && v.get_char(0) == '-' {
        match parse_digits(v, 1, 2147483648) {
            Some(n) => Some((0i64 - n as i64) as i32),
            None => None,
        }
    } else if len > 0 && v.get_char(0) == '+' {
        match parse_digits(v, 1, 2147483647) {
            Some(n) => Some(n as i32),
            None => None,
        }
    } else {
        match parse_digits(v, 0, 2147483647) {
            Some(n) => Some(n as i32),
            None => None,
        }
    }
}

/// The natural number at most `limit` that `v` writes, if it writes one.
fn parse_unsigned(v: &str, limit: u64) -> (r: Option<u64>)
    ensures
        unsigned_decimal(v@) matches Some(x) ==> x >= 0,
        match unsigned_decimal(v@) {
            Some(x) => if x <= limit {
                r == Some(x as u64)
            } else {
                r is None
            },
            None => r is None,
        },
{
    let len: usize = v.unicode_len();
    proof {
        assert(v@.subrange(0, v@.len() as int) =~= v@);
        if v@.len() > 0 {
            assert(v@.subrange(1, v@.len() as int) =~= v@.drop_first());
            if all_digits(v@.drop_first()) {
                lemma_digits_nonnegative(v@.drop_first());
            }
        }
        if all_digits(v@) {
            lemma_digits_nonnegative(v@);
        }
    }
    if len > 0 && v.get_char(0) == '+' {
        parse_digits(v, 1, limit)
    } else {
        parse_digits(v, 0, limit)
    }
}

impl ListTokenizer {
    /// The value of the next token, which must be a leaf.
    fn read_leaf(&mut self) -> (r: Result<String, ParseErrorContext>)
        requires
            old(self).wf(),
        ensures
            final(self).wf(),
            final(self).input() == old(self).input(),
            reads_as(leaf_after(old(self).input(), old(self).state()), r, final(self).state()),
            r is Ok ==> measure(final(self).input(), final(self).state()) < measure(
                old(self).input(),
                old(self).state(),
            ),
    {
        match self.consume_token() {
            Ok(token) => token.expect_leaf(),
            Err(e) => Err(e),
        }
    }
}

impl ReadDsn for String {
    open spec fn read_spec(s: Seq<char>, st: TokState) -> Outcome<Seq<char>> {
        leaf_after(s, st)
    }

    open spec fn consumes_leaf() -> bool {
        true
    }

    fn read_dsn(tokenizer: &mut ListTokenizer) -> (r: Result<Self, ParseErrorContext>) {
        tokenizer.read_leaf()
    }
}

impl ReadDsn for char {
    open spec fn read_spec(s: Seq<char>, st: TokState) -> Outcome<char> {
        match leaf_after(s, st) {
            Err(e) => Err(e),
            Ok((v, st1)) => if v.len() == 1 {
                Ok((v[0], st1))
            } else {
                Err((ParseErrorView::Expected("a single character"@), context_at(s, st1.pos)))
            },
        }
    }

    open spec fn consumes_leaf() -> bool {
        true
    }

    fn read_dsn(tokenizer: &mut ListTokenizer) -> (r: Result<Self, ParseErrorContext>) {
        let value = match tokenizer.read_leaf() {
            Ok(value) => value,
            Err(e) => {
                return Err(e);
            },
        };
        let chars = value.as_str();
        if chars.unicode_len() == 1 {
            Ok(chars.get_char(0))
        } else {
            Err(tokenizer.add_context(ParseError::Expected("a single character")))
        }
    }
}

impl ReadDsn for bool {
    open spec fn read_spec(s: Seq<char>, st: TokState) -> Outcome<bool> {
        match leaf_after(s, st) {
            Err(e) => Err(e),
            Ok((v, st1)) => if v == "on"@ {
                Ok((true, st1))
            } else if v == "off"@ {
                Ok((false, st1))
            } else {
                Err((ParseErrorView::Expected("boolean"@), context_at(s, st1.pos)))
            },
        }
    }

    open spec fn consumes_leaf() -> bool {
        true
    }

    fn read_dsn(tokenizer: &mut ListTokenizer) -> (r: Result<Self, ParseErrorContext>) {
        let value = match tokenizer.read_leaf() {
            Ok(value) => value,
            Err(e) => {
                return Err(e);
            },
        };
        if equals_str(&value, "on") {
            Ok(true)
        } else if equals_str(&value, "off") {
            Ok(false)
        } else {
            Err(tokenizer.add_context(ParseError::Expected("boolean")))
        }
    }
}

impl ReadDsn for i32 {
    open spec fn read_spec(s: Seq<char>, st: TokState) -> Outcome<i32> {
        match leaf_after(s, st) {
            Err(e) => Err(e),
            Ok((v, st1)) => match signed_decimal(v) {
                Some(x) => if i32::MIN <= x <= i32::MAX {
                    Ok((x as i32, st1))
                } else {
                    Err((ParseErrorView::Expected("i32"@), context_at(s, st1.pos)))
                },
                None => Err((ParseErrorView::Expected("i32"@), context_at(s, st1.pos))),
            },
        }
    }

    open spec fn consumes_leaf() -> bool {
        true
    }

    fn read_dsn(tokenizer: &mut ListTokenizer) -> (r: Result<Self, ParseErrorContext>) {
        let value = match tokenizer.read_leaf() {
            Ok(value) => value,
            Err(e) => {
                return Err(e);
            },
        };
        match parse_i32(value.as_str()) {
            Some(n) => Ok(n),
            None => Err(tokenizer.add_context(ParseError::Expected("i32"))),
        }
    }
}

impl ReadDsn for u32 {
    open spec fn read_spec(s: Seq<char>, st: TokState) -> Outcome<u32> {
        match leaf_after(s, st) {
            Err(e) => Err(e),
            Ok((v, st1)) => match unsigned_decimal(v) {
                Some(x) => if x <= u32::MAX {
                    Ok((x as u32, st1))
                } else {
                    Err((ParseErrorView::Expected("u32"@), context_at(s, st1.pos)))
                },
                None => Err((ParseErrorView::Expected("u32"@), context_at(s, st1.pos))),
            },
        }
    }

    open spec fn consumes_leaf() -> bool {
        true
    }

    fn read_dsn(tokenizer: &mut ListTokenizer) -> (r: Result<Self, ParseErrorContext>) {
        let value = match tokenizer.read_leaf() {
            Ok(value) => value,
            Err(e) => {
                return Err(e);
            },
        };
        match parse_unsigned(value.as_str(), 4294967295) {
            Some(n) => Ok(n as u32),
            None => Err(tokenizer.add_context(ParseError::Expected("u32"))),
        }
    }
}

impl ReadDsn for usize {
    open spec fn read_spec(s: Seq<char>, st: TokState) -> Outcome<usize> {
        match leaf_after(s, st) {
            Err(e) => Err(e),
            Ok((v, st1)) => match unsigned_decimal(v) {
                Some(x) => if x <= usize::MAX {
                    Ok((x as usize, st1))
                } else {
                    Err((ParseErrorView::Expected("usize"@), context_at(s, st1.pos)))
                },
                None => Err((ParseErrorView::Expected("usize"@), context_at(s, st1.pos))),
            },
        }
    }

    open spec fn consumes_leaf() -> bool {
        true
    }

    fn read_dsn(tokenizer: &mut ListTokenizer) -> (r: Result<Self, ParseErrorContext>) {
        let value = match tokenizer.read_leaf() {
            Ok(value) => value,
            Err(e) => {
                return Err(e);
            },
        };
        match parse_unsigned(value.as_str(), usize::MAX as u64) {
            Some(n) => Ok(n as usize),
            None => Err(tokenizer.add_context(ParseError::Expected("usize"))),
        }
    }
}


// ---------------------------------------------------------------------------
// The parser list, which sets how the rest of the file is split into tokens.
// ---------------------------------------------------------------------------

/// `st` with the quote character `quote`, where one was read.
pub open spec fn with_quote(st: TokState, quote: Option<char>) -> TokState {
    match quote {
        Some(c) => TokState { pos: st.pos, cached: st.cached, quote: Some(c), space: st.space },
        None => st,
    }
}

/// `st` allowing spaces in quoted strings or not, where that was read.
pub open spec fn with_space(st: TokState, space: Option<bool>) -> TokState {
    match space {
        Some(b) => TokState { pos: st.pos, cached: st.cached, quote: st.quote, space: b },
        None => st,
    }
}

impl ReadDsn for Parser {
    /// The quote character and the switch for spaces take effect for the tokens
    /// read after them.
    open spec fn read_spec(s: Seq<char>, st: TokState) -> Outcome<
        (Option<char>, Option<bool>, Option<Seq<char>>, Option<Seq<char>>),
    > {
        match read_optional_spec::<char>(s, st, "string_quote"@) {
            Err(e) => Err(e),
            Ok((quote, st1)) => match read_optional_spec::<bool>(
                s,
                with_quote(st1, quote),
                "space_in_quoted_tokens"@,
            ) {
                Err(e) => Err(e),
                Ok((space, st2)) => match read_optional_spec::<String>(
                    s,
                    with_space(st2, space),
                    "host_cad"@,
                ) {
                    Err(e) => Err(e),
                    Ok((cad, st3)) => match read_optional_spec::<String>(s, st3, "host_version"@) {
                        Err(e) => Err(e),
                        Ok((version, st4)) => Ok(((quote, space, cad, version), st4)),
                    },
                },
            },
        }
    }

    open spec fn consumes_leaf() -> bool {
        false
    }

    fn read_dsn(tokenizer: &mut ListTokenizer) -> (r: Result<Self, ParseErrorContext>) {
        let string_quote = match tokenizer.read_optional::<char>("string_quote") {
            Ok(v) => v,
            Err(e) => {
                return Err(e);
            },
        };
        if let Some(quote) = string_quote {
            tokenizer.quote_char = Some(quote);
        }
        let space_in_quoted_tokens = match tokenizer.read_optional::<bool>(
            "space_in_quoted_tokens",
        ) {
            Ok(v) => v,
            Err(e) => {
                return Err(e);
            },
        };
        if let Some(space) = space_in_quoted_tokens {
            tokenizer.space_in_quoted = space;
        }
        let host_cad = match tokenizer.read_optional::<String>("host_cad") {
            Ok(v) => v,
            Err(e) => {
                return Err(e);
            },
        };
        let host_version = match tokenizer.read_optional::<String>("host_version") {
            Ok(v) => v,
            Err(e) => {
                return Err(e);
            },
        };
        Ok(Parser { string_quote, space_in_quoted_tokens, host_cad, host_version })
    }
}

} // verus!
