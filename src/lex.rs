//! Lexing: source characters into tokens that carry their text and location.
use crate::text::{string_of, text_is};
use vstd::prelude::*;

verus! {

/// A position in the source: the character index, the line (from 0) and the
/// column within that line (from 0).
#[derive(Copy, Clone, Debug, PartialEq, Eq, Structural)]
pub struct Location {
    pub col: usize,
    pub line: usize,
    pub index: usize,
}

/// The location one character further on, starting a new line after a newline.
pub open spec fn next_location(loc: Location, newline: bool) -> Location {
    if newline {
        Location { index: (loc.index + 1) as usize, col: 0, line: (loc.line + 1) as usize }
    } else {
        Location { index: (loc.index + 1) as usize, col: (loc.col + 1) as usize, line: loc.line }
    }
}

/// The location of character `i` of `s`.
pub open spec fn location_of(s: Seq<char>, i: nat) -> Location
    decreases i,
{
    if i == 0 {
        Location { index: 0, col: 0, line: 0 }
    } else {
        next_location(location_of(s, (i - 1) as nat), s[i - 1] == '\n')
    }
}

/// The text of line `n` of `s`, without its newline.
pub open spec fn line_text(s: Seq<char>, n: nat) -> Seq<char>
    decreases s.len(),
{
    if s.len() == 0 {
        seq![]
    } else if s[0] == '\n' {
        if n == 0 {
            seq![]
        } else {
            line_text(s.drop_first(), (n - 1) as nat)
        }
    } else if n == 0 {
        seq![s[0]] + line_text(s.drop_first(), 0)
    } else {
        line_text(s.drop_first(), n)
    }
}

/// `n` spaces.
pub open spec fn spaces(n: nat) -> Seq<char>
    decreases n,
{
    if n == 0 {
        seq![]
    } else {
        spaces((n - 1) as nat).push(' ')
    }
}

/// A diagnostic: the message, the source line of `loc`, and a caret under
/// its column.
pub open spec fn diagnostic_text(raw: Seq<char>, loc: Location, msg: Seq<char>) -> Seq<char> {
    msg + "\n\n"@ + line_text(raw, loc.line as nat) + "\n"@ + spaces(loc.col as nat)
        + "^ Near here"@
}

/// What a token is.
#[derive(Copy, Clone, Debug, PartialEq, Eq, Structural)]
pub enum TokenKind {
    Identifier,
    Syntax,
    Keyword,
    Number,
}

/// A token: its text, its kind and where it starts.
#[derive(Clone, Debug)]
pub struct Token {
    pub value: String,
    pub kind: TokenKind,
    pub loc: Location,
}

impl Token {
    /// A copy of this token.
    pub fn copy(&self) -> (r: Token)
        ensures
            r == *self,
    {
        Token { value: self.value.clone(), kind: self.kind, loc: self.loc }
    }
}

impl Location {
    /// The location of the first character of a source.
    pub fn start() -> (r: Location)
        ensures
            r == location_of(Seq::empty(), 0),
    {
        Location { col: 0, line: 0, index: 0 }
    }

    pub fn increment(&self, newline: bool) -> (r: Location)
        requires
            self.index < usize::MAX,
            self.line < usize::MAX,
            self.col < usize::MAX,
        ensures
            r == next_location(*self, newline),
    {
        if newline {
            Location { index: self.index + 1, col: 0, line: self.line + 1 }
        } else {
            Location { index: self.index + 1, col: self.col + 1, line: self.line }
        }
    }

    /// `msg`, followed by the source line of this location and a caret under
    /// its column.
    pub fn debug(&self, raw: &Vec<char>, msg: &str) -> (r: String)
        ensures
            r@ == diagnostic_text(raw@, *self, msg@),
    {
        let mut line: usize = 0;
        let mut line_str = String::new();
        let mut i: usize = 0;
        assert(raw@.skip(0) =~= raw@);
        assert(line_str@ + line_text(raw@, self.line as nat) =~= line_text(raw@, self.line as nat));
        while i < raw.len()
            invariant
                i <= raw@.len(),
                line <= i,
                line <= self.line ==> line_str@ + line_text(raw@.skip(i as int), (self.line
                    - line) as nat) == line_text(raw@, self.line as nat),
                line > self.line ==> line_str@ == line_text(raw@, self.line as nat),
            decreases raw@.len() - i,
        {
            let c = raw[i];
            assert(raw@.skip(i as int).drop_first() =~= raw@.skip(i + 1));
            if c == '\n' {
                if line == self.line {
                    assert(line_str@ + seq![] =~= line_str@);
                }
                line += 1;
            } else if line == self.line {
                let ghost before = line_str@;
                line_str.push(c);
                assert(line_str@ + line_text(raw@.skip(i + 1), 0) =~= before + (seq![c]
                    + line_text(raw@.skip(i + 1), 0)));
            }
            i += 1;
        }
        assert(raw@.skip(i as int) =~= Seq::<char>::empty());
        assert(line_str@ + Seq::<char>::empty() =~= line_str@);
        let mut space = String::new();
        let mut k: usize = 0;
        while k < self.col
            invariant
                k <= self.col,
                space@ == spaces(k as nat),
            decreases self.col - k,
        {
            space.push(' ');
            k += 1;
        }
        let mut r = String::from_str(msg);
        r.append("\n\n");
        r.append(line_str.as_str());
        r.append("\n");
        r.append(space.as_str());
        r.append("^ Near here");
        r
    }
}

proof fn lemma_location_bounds(s: Seq<char>, i: nat)
    requires
        i <= usize::MAX,
    ensures
        location_of(s, i).index == i,
        location_of(s, i).line <= i,
        location_of(s, i).col <= i,
    decreases i,
{
    if i > 0 {
        lemma_location_bounds(s, (i - 1) as nat);
    }
}

/// What `char::is_alphanumeric` says of a character.
pub uninterp spec fn alphanumeric(c: char) -> bool;

/// Relies on `char::is_alphanumeric`: whether the character is alphabetic or
/// numeric in Unicode; ASCII letters and digits are, whitespace is not.
#[verifier::external_body]
fn is_alphanumeric(c: char) -> (r: bool)
    ensures
        r == alphanumeric(c),
        ('a' <= c <= 'z' || 'A' <= c <= 'Z' || '0' <= c <= '9') ==> r,
        (c == ' ' || c == '\n' || c == '\r' || c == '\t') ==> !r,
{
    c.is_alphanumeric()
}

/// Which characters of `s` are alphanumeric.
pub open spec fn classes(s: Seq<char>) -> Seq<bool> {
    Seq::new(s.len(), |i: int| alphanumeric(s[i]))
}

pub open spec fn is_space(c: char) -> bool {
    c == ' ' || c == '\n' || c == '\r' || c == '\t'
}

pub open spec fn is_digit(c: char) -> bool {
    '0' <= c <= '9'
}

/// The one-character tokens.
pub open spec fn is_syntax(c: char) -> bool {
    c == ';' || c == '=' || c == '+' || c == '-' || c == '<' || c == '(' || c == ')' || c == ','
}

pub open spec fn is_keyword(w: Seq<char>) -> bool {
    w == "function"@ || w == "end"@ || w == "if"@ || w == "then"@ || w == "local"@ || w == "return"@
}

/// Whether character `i` may stand in a word, given which characters are
/// alphanumeric.
pub open spec fn word_char(s: Seq<char>, alnum: Seq<bool>, i: int) -> bool {
    alnum[i] || s[i] == '_'
}

/// The end of the run of word characters that starts at `i`.
pub open spec fn word_end(s: Seq<char>, alnum: Seq<bool>, i: int) -> int
    decreases s.len() - i,
{
    if 0 <= i < s.len() && word_char(s, alnum, i) {
        word_end(s, alnum, i + 1)
    } else {
        i
    }
}

/// The end of the run of decimal digits that starts at `i`.
pub open spec fn digits_end(s: Seq<char>, i: int) -> int
    decreases s.len() - i,
{
    if 0 <= i < s.len() && is_digit(s[i]) {
        digits_end(s, i + 1)
    } else {
        i
    }
}

/// The end of a keyword at `i`: a whole word that is a keyword.
pub open spec fn keyword_at(s: Seq<char>, alnum: Seq<bool>, i: int) -> Option<int> {
    let w = word_end(s, alnum, i);
    if w > i && is_keyword(s.subrange(i, w)) {
        Some(w)
    } else {
        None
    }
}

/// The end of a number at `i`.
pub open spec fn number_at(s: Seq<char>, i: int) -> Option<int> {
    let d = digits_end(s, i);
    if d > i {
        Some(d)
    } else {
        None
    }
}

/// The end of an identifier at `i`: a word that does not start with a digit.
pub open spec fn identifier_at(s: Seq<char>, alnum: Seq<bool>, i: int) -> Option<int> {
    let w = word_end(s, alnum, i);
    if w > i && !is_digit(s[i]) {
        Some(w)
    } else {
        None
    }
}

/// The end of a one-character token at `i`.
pub open spec fn syntax_at(s: Seq<char>, i: int) -> Option<int> {
    if 0 <= i < s.len() && is_syntax(s[i]) {
        Some(i + 1)
    } else {
        None
    }
}

/// The token that starts at `i`, by kind and end: a keyword, else a number,
/// else an identifier, else a one-character token.
pub open spec fn token_at(s: Seq<char>, alnum: Seq<bool>, i: int) -> Option<(TokenKind, int)> {
    if let Some(e) = keyword_at(s, alnum, i) {
        Some((TokenKind::Keyword, e))
    } else if let Some(e) = number_at(s, i) {
        Some((TokenKind::Number, e))
    } else if let Some(e) = identifier_at(s, alnum, i) {
        Some((TokenKind::Identifier, e))
    } else if let Some(e) = syntax_at(s, i) {
        Some((TokenKind::Syntax, e))
    } else {
        None
    }
}

/// The tokens of `s[i..]` as kind, start and end, skipping whitespace; or
/// the index of the first character that starts no token.
pub open spec fn lex_spans(s: Seq<char>, alnum: Seq<bool>, i: int) -> Result<
    Seq<(TokenKind, int, int)>,
    int,
>
    decreases s.len() - i,
{
    if i < 0 || i >= s.len() {
        Ok(seq![])
    } else if is_space(s[i]) {
        lex_spans(s, alnum, i + 1)
    } else {
        match token_at(s, alnum, i) {
            None => Err(i),
            Some((kind, e)) => if i < e <= s.len() {
                match lex_spans(s, alnum, e) {
                    Ok(rest) => Ok(seq![(kind, i, e)] + rest),
                    Err(j) => Err(j),
                }
            } else {
                Err(i)
            },
        }
    }
}

/// `t` is the token of kind `kind` that spans `s[start..end]`.
pub open spec fn token_is(t: Token, s: Seq<char>, kind: TokenKind, start: int, end: int) -> bool {
    &&& t.kind == kind
    &&& t.value@ == s.subrange(start, end)
    &&& t.loc == location_of(s, start as nat)
}

/// The tokens are those of the spans.
pub open spec fn tokens_match(ts: Seq<Token>, s: Seq<char>, spans: Seq<(TokenKind, int, int)>) -> bool {
    &&& ts.len() == spans.len()
    &&& forall|k: int|
        0 <= k < ts.len() ==> token_is(#[trigger] ts[k], s, spans[k].0, spans[k].1, spans[k].2)
}

/// The location `n` characters on from `loc`.
fn advance(s: &Vec<char>, loc: Location, end: usize) -> (r: Location)
    requires
        loc == location_of(s@, loc.index as nat),
        loc.index <= end <= s@.len(),
    ensures
        r == location_of(s@, end as nat),
        r.index == end,
{
    let mut l = loc;
    while l.index < end
        invariant
            l == location_of(s@, l.index as nat),
            l.index <= end <= s@.len(),
        decreases end - l.index,
    {
        proof {
            lemma_location_bounds(s@, l.index as nat);
        }
        l = l.increment(s[l.index] == '\n');
    }
    l
}

/// The end of the run of word characters that starts at `i`.
fn scan_word(s: &Vec<char>, alnum: &Vec<bool>, i: usize) -> (r: usize)
    requires
        alnum@.len() == s@.len(),
        i <= s@.len(),
    ensures
        r == word_end(s@, alnum@, i as int),
        i <= r <= s@.len(),
{
    let mut j = i;
    while j < s.len() && (alnum[j] || s[j] == '_')
        invariant
            i <= j <= s@.len(),
            alnum@.len() == s@.len(),
            word_end(s@, alnum@, i as int) == word_end(s@, alnum@, j as int),
        decreases s@.len() - j,
    {
        j += 1;
    }
    j
}

/// The end of the run of decimal digits that starts at `i`.
fn scan_digits(s: &Vec<char>, i: usize) -> (r: usize)
    requires
        i <= s@.len(),
    ensures
        r == digits_end(s@, i as int),
        i <= r <= s@.len(),
{
    let mut j = i;
    while j < s.len() && '0' <= s[j] && s[j] <= '9'
        invariant
            i <= j <= s@.len(),
            digits_end(s@, i as int) == digits_end(s@, j as int),
        decreases s@.len() - j,
    {
        j += 1;
    }
    j
}

/// The token of `kind` over `s[loc.index..end]`, and the location after it.
fn make_token(s: &Vec<char>, kind: TokenKind, loc: Location, end: usize) -> (r: (Token, Location))
    requires
        loc == location_of(s@, loc.index as nat),
        loc.index <= end <= s@.len(),
    ensures
        token_is(r.0, s@, kind, loc.index as int, end as int),
        r.1 == location_of(s@, end as nat),
        r.1.index == end,
{
    let value = string_of(s, loc.index, end);
    (Token { value, kind, loc }, advance(s, loc, end))
}

fn lex_syntax(s: &Vec<char>, initial_loc: Location) -> (r: Option<(Token, Location)>)
    requires
        initial_loc == location_of(s@, initial_loc.index as nat),
        initial_loc.index < s@.len(),
    ensures
        match syntax_at(s@, initial_loc.index as int) {
            Some(e) => r matches Some((t, l)) && token_is(t, s@, TokenKind::Syntax, initial_loc.index as int, e)
                && l == location_of(s@, e as nat) && l.index == e && e <= s@.len(),
            None => r is None,
        },
{
    let c = s[initial_loc.index];
    let n = s.len();
    if c == ';' || c == '=' || c == '+' || c == '-' || c == '<' || c == '(' || c == ')' || c == ',' {
        Some(make_token(s, TokenKind::Syntax, initial_loc, initial_loc.index + 1))
    } else {
        None
    }
}

fn lex_keyword(s: &Vec<char>, alnum: &Vec<bool>, initial_loc: Location) -> (r: Option<(Token, Location)>)
    requires
        alnum@.len() == s@.len(),
        initial_loc == location_of(s@, initial_loc.index as nat),
        initial_loc.index < s@.len(),
    ensures
        match keyword_at(s@, alnum@, initial_loc.index as int) {
            Some(e) => r matches Some((t, l)) && token_is(t, s@, TokenKind::Keyword, initial_loc.index as int, e)
                && l == location_of(s@, e as nat) && l.index == e && e <= s@.len(),
            None => r is None,
        },
{
    let end = scan_word(s, alnum, initial_loc.index);
    if end == initial_loc.index {
        return None;
    }
    let word = string_of(s, initial_loc.index, end);
    if text_is(&word, "function") || text_is(&word, "end") || text_is(&word, "if") || text_is(&word, "then")
        || text_is(&word, "local") || text_is(&word, "return") {
        Some(make_token(s, TokenKind::Keyword, initial_loc, end))
    } else {
        None
    }
}

fn lex_identifier(s: &Vec<char>, alnum: &Vec<bool>, initial_loc: Location) -> (r: Option<(Token, Location)>)
    requires
        alnum@.len() == s@.len(),
        initial_loc == location_of(s@, initial_loc.index as nat),
        initial_loc.index < s@.len(),
    ensures
        match identifier_at(s@, alnum@, initial_loc.index as int) {
            Some(e) => r matches Some((t, l)) && token_is(t, s@, TokenKind::Identifier, initial_loc.index as int, e)
                && l == location_of(s@, e as nat) && l.index == e && e <= s@.len(),
            None => r is None,
        },
{
    let end = scan_word(s, alnum, initial_loc.index);
    let first = s[initial_loc.index];
    // The first character must not be a digit.
    if end > initial_loc.index && !('0' <= first && first <= '9') {
        Some(make_token(s, TokenKind::Identifier, initial_loc, end))
    } else {
        None
    }
}

fn lex_number(s: &Vec<char>, initial_loc: Location) -> (r: Option<(Token, Location)>)
    requires
        initial_loc == location_of(s@, initial_loc.index as nat),
        initial_loc.index < s@.len(),
    ensures
        match number_at(s@, initial_loc.index as int) {
            Some(e) => r matches Some((t, l)) && token_is(t, s@, TokenKind::Number, initial_loc.index as int, e)
                && l == location_of(s@, e as nat) && l.index == e && e <= s@.len(),
            None => r is None,
        },
{
    let end = scan_digits(s, initial_loc.index);
    if end > initial_loc.index {
        Some(make_token(s, TokenKind::Number, initial_loc, end))
    } else {
        None
    }
}

/// The location past the whitespace that starts at `initial_loc`.
fn eat_whitespace(s: &Vec<char>, alnum: Ghost<Seq<bool>>, initial_loc: Location) -> (r: Location)
    requires
        initial_loc == location_of(s@, initial_loc.index as nat),
        initial_loc.index <= s@.len(),
    ensures
        r == location_of(s@, r.index as nat),
        initial_loc.index <= r.index <= s@.len(),
        r.index == s@.len() || !is_space(s@[r.index as int]),
        lex_spans(s@, alnum@, initial_loc.index as int) == lex_spans(s@, alnum@, r.index as int),
{
    let mut next_loc = initial_loc;
    while next_loc.index < s.len() && (s[next_loc.index] == ' ' || s[next_loc.index] == '\n'
        || s[next_loc.index] == '\r' || s[next_loc.index] == '\t')
        invariant
            next_loc == location_of(s@, next_loc.index as nat),
            initial_loc.index <= next_loc.index <= s@.len(),
            lex_spans(s@, alnum@, initial_loc.index as int) == lex_spans(
                s@,
                alnum@,
                next_loc.index as int,
            ),
        decreases s@.len() - next_loc.index,
    {
        proof {
            lemma_location_bounds(s@, next_loc.index as nat);
        }
        next_loc = next_loc.increment(s[next_loc.index] == '\n');
    }
    next_loc
}

/// `Ok(done + rest)` where `r` is `Ok(rest)`.
pub open spec fn spans_after(done: Seq<(TokenKind, int, int)>, r: Result<Seq<(TokenKind, int, int)>, int>) -> Result<
    Seq<(TokenKind, int, int)>,
    int,
> {
    match r {
        Ok(rest) => Ok(done + rest),
        Err(j) => Err(j),
    }
}

/// The diagnostic for a character at `j` that starts no token.
pub open spec fn unrecognized(s: Seq<char>, j: int) -> Seq<char> {
    diagnostic_text(s, location_of(s, j as nat), "Unrecognized character while lexing:"@)
}

/// Lexes `s`, where `alnum` tells for each character of `s` whether it is
/// alphanumeric.
pub fn lex_classified(s: &Vec<char>, alnum: &Vec<bool>) -> (r: Result<Vec<Token>, String>)
    requires
        alnum@.len() == s@.len(),
    ensures
        match lex_spans(s@, alnum@, 0) {
            Ok(spans) => r matches Ok(ts) && tokens_match(ts@, s@, spans),
            Err(j) => r matches Err(m) && m@ == unrecognized(s@, j),
        },
{
    let ghost target = lex_spans(s@, alnum@, 0);
    let ghost mut done: Seq<(TokenKind, int, int)> = seq![];
    let mut loc = Location::start();
    let size = s.len();
    let mut tokens: Vec<Token> = Vec::new();
    assert(done + seq![] =~= done);
    while loc.index < size
        invariant
            size == s@.len(),
            alnum@.len() == s@.len(),
            loc == location_of(s@, loc.index as nat),
            loc.index <= size,
            target == lex_spans(s@, alnum@, 0),
            target == spans_after(done, lex_spans(s@, alnum@, loc.index as int)),
            tokens_match(tokens@, s@, done),
        ensures
            loc.index == size,
            target == spans_after(done, lex_spans(s@, alnum@, loc.index as int)),
            tokens_match(tokens@, s@, done),
        decreases size - loc.index,
    {
        loc = eat_whitespace(s, Ghost(alnum@), loc);
        if loc.index == size {
            break;
        }
        let i = loc.index;
        let found = if let Some(f) = lex_keyword(s, alnum, loc) {
            Some((f, Ghost(TokenKind::Keyword)))
        } else if let Some(f) = lex_number(s, loc) {
            Some((f, Ghost(TokenKind::Number)))
        } else if let Some(f) = lex_identifier(s, alnum, loc) {
            Some((f, Ghost(TokenKind::Identifier)))
        } else if let Some(f) = lex_syntax(s, loc) {
            Some((f, Ghost(TokenKind::Syntax)))
        } else {
            None
        };
        match found {
            Some(((t, next_loc), kind)) => {
                let ghost e = next_loc.index as int;
                assert(token_at(s@, alnum@, i as int) == Some((kind@, e)));
                proof {
                    lemma_location_bounds(s@, e as nat);
                    let rest = lex_spans(s@, alnum@, e);
                    if let Ok(r) = rest {
                        assert(done + (seq![(kind@, i as int, e)] + r) =~= done.push((kind@, i as int, e)) + r);
                    }
                    done = done.push((kind@, i as int, e));
                }
                tokens.push(t);
                loc = next_loc;
            },
            None => {
                return Err(loc.debug(s, "Unrecognized character while lexing:"));
            },
        }
    }
    assert(lex_spans(s@, alnum@, loc.index as int) == Ok::<Seq<(TokenKind, int, int)>, int>(seq![]));
    assert(done + seq![] =~= done);
    Ok(tokens)
}

/// Lexes source characters into tokens; a character that starts no token
/// fails with its diagnostic.
pub fn lex(s: &Vec<char>) -> (r: Result<Vec<Token>, String>)
    ensures
        match lex_spans(s@, classes(s@), 0) {
            Ok(spans) => r matches Ok(ts) && tokens_match(ts@, s@, spans),
            Err(j) => r matches Err(m) && m@ == unrecognized(s@, j),
        },
{
    let mut alnum: Vec<bool> = Vec::new();
    let mut i: usize = 0;
    while i < s.len()
        invariant
            i <= s@.len(),
            alnum@ == classes(s@).subrange(0, i as int),
        decreases s@.len() - i,
    {
        alnum.push(is_alphanumeric(s[i]));
        assert(alnum@ =~= classes(s@).subrange(0, i + 1));
        i += 1;
    }
    assert(alnum@ =~= classes(s@));
    lex_classified(s, &alnum)
}

} // verus!
