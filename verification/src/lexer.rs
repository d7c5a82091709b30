//! The lexer: from source text to tokens, or to the list of what it could
//! not read.

use vstd::prelude::*;
use vstd::string::*;
use crate::token::{eof_token, token_views, Token, TokenKind, TokenView};

verus! {

/// A lexing error as a mathematical value.
pub struct ScanErrorView {
    pub description: Seq<char>,
    pub position: nat,
}

/// A lexing error.
#[derive(Debug)]
pub struct ScanError {
    /// A description of the error.
    pub description: String,
    /// The position (column) of the error.
    pub position: usize,
}

impl View for ScanError {
    type V = ScanErrorView;

    open spec fn view(&self) -> ScanErrorView {
        ScanErrorView { description: self.description@, position: self.position as nat }
    }
}

impl ScanError {
    /// Make a new lexing error.
    pub fn new(description: &str, position: usize) -> (error: Self)
        ensures
            error.description@ == description@,
            error.position == position,
    {
        ScanError { description: description.to_owned(), position }
    }
}

/// A decimal digit.
pub open spec fn is_digit(c: char) -> bool {
    '0' <= c <= '9'
}

/// A character that separates lexemes and gives no token: a space, a
/// carriage return or a tabulator.
pub open spec fn is_blank(c: char) -> bool {
    c == ' ' || c == '\r' || c == '\t'
}

/// The kind of token that a character makes by itself, if it makes one.
pub open spec fn symbol_kind(c: char) -> Option<TokenKind> {
    if c == '+' {
        Some(TokenKind::Plus)
    } else if c == '-' {
        Some(TokenKind::Minus)
    } else if c == '*' {
        Some(TokenKind::Star)
    } else if c == '/' {
        Some(TokenKind::Slash)
    } else if c == '^' {
        Some(TokenKind::Cap)
    } else if c == '(' {
        Some(TokenKind::LeftParen)
    } else if c == ')' {
        Some(TokenKind::RightParen)
    } else {
        None
    }
}

/// The first position at or after `from` that holds no digit; the length of
/// the source if digits go on to its end.
pub open spec fn digits_end(source: Seq<char>, from: int) -> int
    decreases source.len() - from,
{
    if 0 <= from < source.len() && is_digit(source[from]) {
        digits_end(source, from + 1)
    } else {
        from
    }
}

/// A run of digits ends at or after the place where it starts, within the
/// source, and holds digits only.
pub proof fn lemma_digits_end(source: Seq<char>, from: int)
    requires
        0 <= from <= source.len(),
    ensures
        from <= digits_end(source, from) <= source.len(),
        forall|i: int| from <= i < digits_end(source, from) ==> is_digit(#[trigger] source[i]),
        digits_end(source, from) < source.len() ==> !is_digit(
            source[digits_end(source, from)],
        ),
    decreases source.len() - from,
{
    if from < source.len() && is_digit(source[from]) {
        lemma_digits_end(source, from + 1);
    }
}

/// Whether the digits that start at `start` are followed by a point.
pub open spec fn has_point(source: Seq<char>, start: int) -> bool {
    let whole = digits_end(source, start);
    whole < source.len() && source[whole] == '.'
}

/// Whether the numeral that starts at `start` is malformed: its digits are
/// followed by a point, and the point by no digit.
pub open spec fn is_malformed_numeral(source: Seq<char>, start: int) -> bool {
    let point = digits_end(source, start);
    has_point(source, start) && !(point + 1 < source.len() && is_digit(source[point + 1]))
}

/// Where the lexeme that starts at `start` ends. A numeral takes its
/// digits, and a point with the digits behind it; a malformed one ends
/// behind its point. Every other lexeme is one character.
pub open spec fn lexeme_end(source: Seq<char>, start: int) -> int
    recommends
        0 <= start < source.len(),
{
    if is_digit(source[start]) {
        let point = digits_end(source, start);
        if !has_point(source, start) {
            point
        } else if is_malformed_numeral(source, start) {
            point + 1
        } else {
            digits_end(source, point + 1)
        }
    } else {
        start + 1
    }
}

/// The token that the lexeme at `start` gives, if it gives one.
pub open spec fn lexeme_token(source: Seq<char>, start: int) -> Option<TokenView>
    recommends
        0 <= start < source.len(),
{
    let lexeme = source.subrange(start, lexeme_end(source, start));
    if is_digit(source[start]) {
        if is_malformed_numeral(source, start) {
            None
        } else {
            Some(TokenView { kind: TokenKind::Number, lexeme })
        }
    } else {
        match symbol_kind(source[start]) {
            Some(kind) => Some(TokenView { kind, lexeme }),
            None => None,
        }
    }
}

/// The error that the lexeme at `start` gives, if it gives one. Its
/// position is the column of the lexeme's first character, counted from one.
pub open spec fn lexeme_error(source: Seq<char>, start: int) -> Option<ScanErrorView>
    recommends
        0 <= start < source.len(),
{
    if is_digit(source[start]) {
        if is_malformed_numeral(source, start) {
            Some(ScanErrorView { description: "misformed number"@, position: (start + 1) as nat })
        } else {
            None
        }
    } else if is_blank(source[start]) || symbol_kind(source[start]) is Some {
        None
    } else {
        Some(ScanErrorView { description: "unrecognized token"@, position: (start + 1) as nat })
    }
}

/// A lexeme is not empty and ends within the source.
pub proof fn lemma_lexeme_end(source: Seq<char>, start: int)
    requires
        0 <= start < source.len(),
    ensures
        start < lexeme_end(source, start) <= source.len(),
{
    lemma_digits_end(source, start);
    let point = digits_end(source, start);
    if point + 1 <= source.len() {
        lemma_digits_end(source, point + 1);
    }
}

/// The tokens of the lexemes from `from` to the end of the source, in
/// order.
pub open spec fn tokens_from(source: Seq<char>, from: int) -> Seq<TokenView>
    decreases source.len() - from,
{
    if 0 <= from < source.len() {
        proof {
            lemma_lexeme_end(source, from);
        }
        let rest = tokens_from(source, lexeme_end(source, from));
        match lexeme_token(source, from) {
            Some(token) => seq![token] + rest,
            None => rest,
        }
    } else {
        Seq::empty()
    }
}

/// The errors of the lexemes from `from` to the end of the source, in
/// order.
pub open spec fn errors_from(source: Seq<char>, from: int) -> Seq<ScanErrorView>
    decreases source.len() - from,
{
    if 0 <= from < source.len() {
        proof {
            lemma_lexeme_end(source, from);
        }
        let rest = errors_from(source, lexeme_end(source, from));
        match lexeme_error(source, from) {
            Some(error) => seq![error] + rest,
            None => rest,
        }
    } else {
        Seq::empty()
    }
}

/// What a scan of `source` gives: all its tokens and the end-of-input token
/// behind them if no lexeme gave an error, and all the errors if one did.
pub open spec fn scan(source: Seq<char>) -> Result<Seq<TokenView>, Seq<ScanErrorView>> {
    if errors_from(source, 0).len() == 0 {
        Ok(tokens_from(source, 0).push(eof_token()))
    } else {
        Err(errors_from(source, 0))
    }
}

/// The errors of `errors` as mathematical values.
pub open spec fn error_views(errors: Seq<ScanError>) -> Seq<ScanErrorView> {
    errors.map_values(|error: ScanError| error@)
}

/// What a scan has handed back, as a mathematical value.
pub open spec fn scan_result_view(result: Result<Vec<Token>, Vec<ScanError>>) -> Result<
    Seq<TokenView>,
    Seq<ScanErrorView>,
> {
    match result {
        Ok(tokens) => Ok(token_views(tokens@)),
        Err(errors) => Err(error_views(errors@)),
    }
}

/// A lexer as a mathematical value: the source, the number of characters
/// that were read, and the tokens that were made of them.
pub struct LexerView {
    pub source: Seq<char>,
    pub current: nat,
    pub tokens: Seq<TokenView>,
}

/// The lexer.
pub struct Lexer {
    /// Source code.
    source: String,
    /// Start of lexeme.
    start: usize,
    /// Current character.
    current: usize,
    /// Scanned tokens.
    tokens: Vec<Token>,
}

impl View for Lexer {
    type V = LexerView;

    closed spec fn view(&self) -> LexerView {
        LexerView {
            source: self.source@,
            current: self.current as nat,
            tokens: token_views(self.tokens@),
        }
    }
}

/// Whether `c` is a decimal digit.
fn is_decimal_digit(c: char) -> (yes: bool)
    ensures
        yes == is_digit(c),
{
    '0' <= c && c <= '9'
}

impl Lexer {
    /// The lexer has not read past the end of its source.
    pub open spec fn well_formed(&self) -> bool {
        self@.current <= self@.source.len()
    }

    /// Create a new lexer.
    pub fn new(source: String) -> (lexer: Self)
        ensures
            lexer@.source == source@,
            lexer@.current == 0,
            lexer@.tokens == Seq::<TokenView>::empty(),
            lexer.well_formed(),
    {
        Lexer { source, start: 0, current: 0, tokens: Vec::new() }
    }

    /// Return true if we're at the end of the scannable source code.
    fn is_at_end(&self) -> (yes: bool)
        ensures
            yes == (self.current >= self.source@.len()),
            self.source@.len() <= usize::MAX,
    {
        self.current >= self.source.as_str().unicode_len()
    }

    /// Advance the lexer one character.
    fn advance(&mut self) -> (c: char)
        requires
            old(self).current < old(self).source@.len() <= usize::MAX,
        ensures
            c == old(self).source@[old(self).current as int],
            final(self).current == old(self).current + 1,
            final(self).source == old(self).source,
            final(self).start == old(self).start,
            final(self).tokens == old(self).tokens,
    {
        let c = self.source.as_str().get_char(self.current);
        self.current += 1;
        c
    }

    /// Peek the next character (does not advance the lexer).
    fn peek(&self) -> (c: char)
        ensures
            c == if self.current < self.source@.len() {
                self.source@[self.current as int]
            } else {
                '\0'
            },
    {
        if self.is_at_end() {
            '\0'
        } else {
            self.source.as_str().get_char(self.current)
        }
    }

    /// Store a new token in the lexer.
    fn add_token(&mut self, kind: TokenKind)
        requires
            old(self).start <= old(self).current <= old(self).source@.len(),
        ensures
            final(self).source == old(self).source,
            final(self).start == old(self).start,
            final(self).current == old(self).current,
            token_views(final(self).tokens@) == token_views(old(self).tokens@).push(
                TokenView {
                    kind,
                    lexeme: old(self).source@.subrange(
                        old(self).start as int,
                        old(self).current as int,
                    ),
                },
            ),
    {
        // Get lexeme.
        let lexeme = self.source.as_str().substring_char(self.start, self.current).to_owned();

        self.tokens.push(Token::new(kind, lexeme));
    }

    /// Scan tokens.
    ///
    /// Reads the source from where the lexer stands to its end, and puts
    /// the tokens and the end-of-input token behind those that the lexer
    /// holds. Hands back all the tokens if no lexeme gave an error, and the
    /// errors if one did. On a new lexer that is the scan of the source.
    pub fn scan_tokens(&mut self) -> (result: Result<Vec<Token>, Vec<ScanError>>)
        requires
            old(self).well_formed(),
        ensures
            final(self).well_formed(),
            final(self)@.source == old(self)@.source,
            final(self)@.current == old(self)@.source.len(),
            final(self)@.tokens == old(self)@.tokens + tokens_from(
                old(self)@.source,
                old(self)@.current as int,
            ).push(eof_token()),
            match result {
                Ok(tokens) => token_views(tokens@) == final(self)@.tokens && errors_from(
                    old(self)@.source,
                    old(self)@.current as int,
                ).len() == 0 && tokens.len() > 0 && tokens@.last().kind == TokenKind::Eof,
                Err(errors) => error_views(errors@) == errors_from(
                    old(self)@.source,
                    old(self)@.current as int,
                ) && errors.len() > 0,
            },
            old(self)@.current == 0 && old(self)@.tokens.len() == 0 ==> scan_result_view(result)
                == scan(old(self)@.source),
    {
        let mut errors = Vec::new();

        while !self.is_at_end()
            invariant
                self.source == old(self).source,
                old(self).current <= self.current <= self.source@.len(),
                token_views(self.tokens@) + tokens_from(self.source@, self.current as int)
                    == token_views(old(self).tokens@) + tokens_from(
                    self.source@,
                    old(self).current as int,
                ),
                error_views(errors@) + errors_from(self.source@, self.current as int)
                    == errors_from(self.source@, old(self).current as int),
            decreases self.source@.len() - self.current,
        {
            // We are at the start of a new lexeme.
            self.start = self.current;
            proof {
                lemma_lexeme_end(self.source@, self.current as int);
            }
            let ghost tokens_before = token_views(self.tokens@);
            let ghost errors_before = error_views(errors@);
            let ghost start = self.current as int;
            if let Err(mut errs) = self.scan_token() {
                errors.append(&mut errs)
            }
            proof {
                let rest = tokens_from(self.source@, self.current as int);
                assert(token_views(self.tokens@) + rest == tokens_before + tokens_from(
                    self.source@,
                    start,
                ));
                let rest = errors_from(self.source@, self.current as int);
                assert(error_views(errors@) + rest == errors_before + errors_from(
                    self.source@,
                    start,
                ));
            }
        }

        // Push the Eof token.
        let ghost tokens_before = token_views(self.tokens@);
        self.tokens.push(Token::new(TokenKind::Eof, String::new()));
        proof {
            let scanned = tokens_from(old(self)@.source, old(self)@.current as int);
            assert(tokens_before + Seq::<TokenView>::empty() == tokens_before);
            assert(token_views(self.tokens@) == tokens_before.push(eof_token()));
            assert(token_views(self.tokens@) == token_views(old(self).tokens@) + scanned.push(
                eof_token(),
            ));
            assert(old(self)@.tokens.len() == 0 ==> old(self)@.tokens + scanned.push(eof_token())
                == scanned.push(eof_token()));
        }

        // Return errors, if any, or the tokens.
        if errors.is_empty() {
            let tokens = self.tokens.clone();
            assert(tokens@ == self.tokens@);
            Ok(tokens)
        } else {
            Err(errors)
        }
    }

    /// Scan a single token.
    ///
    /// Reads the lexeme that starts where the lexer stands. Stores its
    /// token, if it gives one, and hands back its error, if it gives one.
    fn scan_token(&mut self) -> (result: Result<(), Vec<ScanError>>)
        requires
            old(self).start == old(self).current,
            old(self).current < old(self).source@.len() <= usize::MAX,
        ensures
            final(self).source == old(self).source,
            final(self).start == old(self).start,
            final(self).current == lexeme_end(old(self).source@, old(self).start as int),
            token_views(final(self).tokens@) == match lexeme_token(
                old(self).source@,
                old(self).start as int,
            ) {
                Some(token) => token_views(old(self).tokens@).push(token),
                None => token_views(old(self).tokens@),
            },
            match result {
                Ok(_) => lexeme_error(old(self).source@, old(self).start as int) is None,
                Err(errors) => lexeme_error(old(self).source@, old(self).start as int) == Some(
                    errors[0]@,
                ) && errors.len() == 1,
            },
    {
        let mut errors = Vec::new();

        let c = self.advance();
        assert(self.source@.subrange(self.start as int, self.current as int) == seq![c]);
        match c {
            ' ' | '\r' | '\t' => (),
            '+' => self.add_token(TokenKind::Plus),
            '-' => self.add_token(TokenKind::Minus),
            '*' => self.add_token(TokenKind::Star),
            '/' => self.add_token(TokenKind::Slash),
            '^' => self.add_token(TokenKind::Cap),
            '(' => self.add_token(TokenKind::LeftParen),
            ')' => self.add_token(TokenKind::RightParen),
            _ => {
                if is_decimal_digit(c) {
                    if let Err(err) = self.number() {
                        errors.push(err);
                    }
                } else {
                    errors.push(ScanError::new("unrecognized token", self.start + 1))
                }
            },
        };

        // Return errors, if any, or the token.
        if errors.is_empty() {
            Ok(())
        } else {
            Err(errors)
        }
    }

    /// Scan a number token. We allow real numbers but not in forms such as .23
    /// or 23. (we want 0.23 and 23.0 or just 23).
    ///
    /// The first digit has been read. Reads the rest of the numeral and
    /// stores its token, or hands back the error if a point is followed by
    /// no digit; the lexer then stands behind the point.
    fn number(&mut self) -> (result: Result<(), ScanError>)
        requires
            old(self).start + 1 == old(self).current,
            old(self).current <= old(self).source@.len() <= usize::MAX,
            is_digit(old(self).source@[old(self).start as int]),
        ensures
            final(self).source == old(self).source,
            final(self).start == old(self).start,
            final(self).current == lexeme_end(old(self).source@, old(self).start as int),
            token_views(final(self).tokens@) == match lexeme_token(
                old(self).source@,
                old(self).start as int,
            ) {
                Some(token) => token_views(old(self).tokens@).push(token),
                None => token_views(old(self).tokens@),
            },
            match result {
                Ok(_) => lexeme_error(old(self).source@, old(self).start as int) is None,
                Err(error) => lexeme_error(old(self).source@, old(self).start as int) == Some(
                    error@,
                ),
            },
    {
        // Consume all digits befor an eventual dot.
        while is_decimal_digit(self.peek())
            invariant
                self.source == old(self).source,
                self.start == old(self).start,
                self.tokens == old(self).tokens,
                self.start < self.current <= self.source@.len() <= usize::MAX,
                digits_end(self.source@, self.current as int) == digits_end(
                    self.source@,
                    self.start as int,
                ),
            decreases self.source@.len() - self.current,
        {
            self.advance();
        }

        // Look for a decimal part.
        if self.peek() == '.' {
            self.advance();

            if is_decimal_digit(self.peek()) {
                while is_decimal_digit(self.peek())
                    invariant
                        self.source == old(self).source,
                        self.start == old(self).start,
                        self.tokens == old(self).tokens,
                        self.start < self.current <= self.source@.len() <= usize::MAX,
                        digits_end(self.source@, self.current as int) == lexeme_end(
                            self.source@,
                            self.start as int,
                        ),
                    decreases self.source@.len() - self.current,
                {
                    self.advance();
                }
            } else {
                return Err(ScanError::new("misformed number", self.start + 1));
            }
        }

        // Add the token.
        self.add_token(TokenKind::Number);

        Ok(())
    }
}

/// Whether all of `text` is digits.
pub open spec fn all_digits(text: Seq<char>) -> bool {
    forall|i: int| 0 <= i < text.len() ==> is_digit(#[trigger] text[i])
}

/// A numeral: one digit or more, and then perhaps a point and one digit or
/// more behind it.
pub open spec fn is_numeral(text: Seq<char>) -> bool {
    ||| text.len() > 0 && all_digits(text)
    ||| exists|point: int|
        0 < point < text.len() - 1 && #[trigger] text[point] == '.' && all_digits(
            text.subrange(0, point),
        ) && all_digits(text.subrange(point + 1, text.len() as int))
}

impl TokenView {
    /// Whether the lexeme is one that the kind is read from: a numeral for
    /// a number, the one character of an operator or a parenthesis, and
    /// nothing for the end of input.
    pub open spec fn fits_lexeme(self) -> bool {
        match self.kind {
            TokenKind::Number => is_numeral(self.lexeme),
            TokenKind::Eof => self.lexeme.len() == 0,
            _ => self.lexeme.len() == 1 && symbol_kind(self.lexeme[0]) == Some(self.kind),
        }
    }
}

/// A run of digits that starts at `from` ends at `end` if digits stand all
/// the way between the two and none stands at `end`.
pub proof fn lemma_digits_end_is(source: Seq<char>, from: int, end: int)
    requires
        0 <= from <= end <= source.len(),
        forall|i: int| from <= i < end ==> is_digit(#[trigger] source[i]),
        end < source.len() ==> !is_digit(source[end]),
    ensures
        digits_end(source, from) == end,
    decreases end - from,
{
    if from < end {
        lemma_digits_end_is(source, from + 1, end);
    }
}

/// The token of a lexeme fits its lexeme.
pub proof fn lemma_lexeme_token_fits(source: Seq<char>, start: int)
    requires
        0 <= start < source.len(),
    ensures
        lexeme_token(source, start) matches Some(token) ==> token.fits_lexeme() && token.kind
            != TokenKind::Eof,
{
    lemma_lexeme_end(source, start);
    lemma_digits_end(source, start);
    if let Some(token) = lexeme_token(source, start) {
        let end = lexeme_end(source, start);
        let lexeme = source.subrange(start, end);
        if is_digit(source[start]) {
            let point = digits_end(source, start);
            if has_point(source, start) {
                lemma_digits_end(source, point + 1);
                assert(lexeme[point - start] == '.');
                assert(all_digits(lexeme.subrange(0, point - start)));
                assert(all_digits(lexeme.subrange(point - start + 1, lexeme.len() as int)));
            } else {
                assert(all_digits(lexeme));
            }
        }
    }
}

/// Every token of a scan fits its lexeme, and none of them is the
/// end-of-input token.
pub proof fn lemma_scanned_tokens_fit(source: Seq<char>, from: int)
    ensures
        forall|i: int|
            0 <= i < tokens_from(source, from).len() ==> {
                let token = #[trigger] tokens_from(source, from)[i];
                token.fits_lexeme() && token.kind != TokenKind::Eof
            },
    decreases source.len() - from,
{
    if 0 <= from < source.len() {
        lemma_lexeme_end(source, from);
        lemma_lexeme_token_fits(source, from);
        lemma_scanned_tokens_fit(source, lexeme_end(source, from));
    }
}

/// The tokens that a scan gives end with the end-of-input token, hold it
/// nowhere else, and each fits its lexeme.
pub proof fn lemma_scan_gives_fitting_tokens(source: Seq<char>)
    ensures
        scan(source) matches Ok(tokens) ==> {
            &&& tokens.len() > 0
            &&& tokens.last() == eof_token()
            &&& forall|i: int| 0 <= i < tokens.len() ==> (#[trigger] tokens[i]).fits_lexeme()
            &&& forall|i: int|
                0 <= i < tokens.len() - 1 ==> (#[trigger] tokens[i]).kind != TokenKind::Eof
        },
{
    lemma_scanned_tokens_fit(source, 0);
    if let Ok(tokens) = scan(source) {
        let scanned = tokens_from(source, 0);
        assert forall|i: int| 0 <= i < tokens.len() implies (#[trigger] tokens[i]).fits_lexeme() by {
            if i < scanned.len() {
                assert(tokens[i] == scanned[i]);
            }
        }
        assert forall|i: int| 0 <= i < tokens.len() - 1 implies (#[trigger] tokens[i]).kind
            != TokenKind::Eof by {
            assert(tokens[i] == scanned[i]);
        }
    }
}

/// A source that is one numeral scans to one number token, whose lexeme is
/// the source, and the end-of-input token.
pub proof fn lemma_numeral_scans_to_itself(source: Seq<char>)
    requires
        is_numeral(source),
    ensures
        scan(source) == Ok::<Seq<TokenView>, Seq<ScanErrorView>>(
            seq![TokenView { kind: TokenKind::Number, lexeme: source }, eof_token()],
        ),
{
    let length = source.len() as int;
    if all_digits(source) {
        lemma_digits_end_is(source, 0, length);
    } else {
        let point = choose|point: int|
            0 < point < source.len() - 1 && #[trigger] source[point] == '.' && all_digits(
                source.subrange(0, point),
            ) && all_digits(source.subrange(point + 1, source.len() as int));
        assert forall|i: int| 0 <= i < point implies is_digit(#[trigger] source[i]) by {
            assert(source.subrange(0, point)[i] == source[i]);
        }
        assert forall|i: int| point + 1 <= i < length implies is_digit(#[trigger] source[i]) by {
            assert(source.subrange(point + 1, length)[i - point - 1] == source[i]);
        }
        lemma_digits_end_is(source, 0, point);
        lemma_digits_end_is(source, point + 1, length);
    }
    assert(lexeme_end(source, 0) == length);
    assert(source.subrange(0, length) == source);
    assert(tokens_from(source, length) == Seq::<TokenView>::empty());
    assert(errors_from(source, length) == Seq::<ScanErrorView>::empty());
    let number = TokenView { kind: TokenKind::Number, lexeme: source };
    assert(tokens_from(source, 0) == seq![number]);
    assert(errors_from(source, 0) == Seq::<ScanErrorView>::empty());
    assert(seq![number].push(eof_token()) == seq![number, eof_token()]);
}

/// Digits with a point before them and nothing else are no numeral: the
/// point is an unrecognized token, and the scan fails with that one error.
pub proof fn lemma_leading_point_is_rejected(digits: Seq<char>)
    requires
        digits.len() > 0,
        all_digits(digits),
    ensures
        scan(seq!['.'] + digits) == Err::<Seq<TokenView>, Seq<ScanErrorView>>(
            seq![ScanErrorView { description: "unrecognized token"@, position: 1 }],
        ),
{
    let source = seq!['.'] + digits;
    let length = source.len() as int;
    assert(source[0] == '.');
    assert forall|i: int| 1 <= i < length implies is_digit(#[trigger] source[i]) by {
        assert(source[i] == digits[i - 1]);
    }
    lemma_digits_end_is(source, 1, length);
    assert(lexeme_end(source, 1) == length);
    assert(errors_from(source, length) == Seq::<ScanErrorView>::empty());
    assert(errors_from(source, 1) == Seq::<ScanErrorView>::empty());
    let error = ScanErrorView { description: "unrecognized token"@, position: 1 };
    assert(lexeme_error(source, 0) == Some(error));
    assert(errors_from(source, 0) == seq![error]);
}

/// Digits with a point behind them and nothing else are no numeral: the
/// scan fails with the one error of a misformed number.
pub proof fn lemma_trailing_point_is_rejected(digits: Seq<char>)
    requires
        digits.len() > 0,
        all_digits(digits),
    ensures
        scan(digits.push('.')) == Err::<Seq<TokenView>, Seq<ScanErrorView>>(
            seq![ScanErrorView { description: "misformed number"@, position: 1 }],
        ),
{
    let source = digits.push('.');
    let length = source.len() as int;
    assert(source[length - 1] == '.');
    assert forall|i: int| 0 <= i < length - 1 implies is_digit(#[trigger] source[i]) by {
        assert(source[i] == digits[i]);
    }
    lemma_digits_end_is(source, 0, length - 1);
    assert(is_malformed_numeral(source, 0));
    assert(lexeme_end(source, 0) == length);
    assert(errors_from(source, length) == Seq::<ScanErrorView>::empty());
    let error = ScanErrorView { description: "misformed number"@, position: 1 };
    assert(lexeme_error(source, 0) == Some(error));
    assert(errors_from(source, 0) == seq![error]);
}

} // verus!
