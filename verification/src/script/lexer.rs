//! Cuts source text into tokens.

use vstd::prelude::*;
use crate::script::{Report, ScriptError};
use crate::text::{chars_of, find_digits_end, join3, same_text, string_of};

verus! {

/// A value with the line and column, both from 1, at which it starts in the source.
#[derive(Debug, Clone)]
pub struct Spanned<T> {
    pub node: T,
    pub line: u32,
    pub col: u32,
}

#[derive(Debug, Clone, Copy, PartialEq, Eq, Structural)]
pub enum ConstKind {
    Pi,
    E,
}

#[derive(Debug, Clone, Copy, PartialEq, Eq, Structural)]
pub enum OpTok {
    Plus,
    Minus,
    Star,
    Slash,
    Percent,
    Caret,
    Assign,
    PlusEq,
    MinusEq,
    StarEq,
    SlashEq,
    EqEq,
    NotEq,
    Lt,
    Le,
    Gt,
    Ge,
    AndAnd,
    OrOr,
    Not,
}

/// A token. A number is kept as the numeral that was written.
#[derive(Debug, Clone, PartialEq, Eq)]
pub enum Token {
    Num(String),
    Ident(String),
    Const(ConstKind),
    Op(OpTok),
    LParen,
    RParen,
    Comma,
    Semicolon,
    SectionInit,
    SectionSample,
    SectionBlock,
}

/// The content of a [`Token`].
pub enum TokenView {
    Num(Seq<char>),
    Ident(Seq<char>),
    Const(ConstKind),
    Op(OpTok),
    LParen,
    RParen,
    Comma,
    Semicolon,
    SectionInit,
    SectionSample,
    SectionBlock,
}

impl View for Token {
    type V = TokenView;

    open spec fn view(&self) -> TokenView {
        match self {
            Token::Num(s) => TokenView::Num(s@),
            Token::Ident(s) => TokenView::Ident(s@),
            Token::Const(k) => TokenView::Const(*k),
            Token::Op(o) => TokenView::Op(*o),
            Token::LParen => TokenView::LParen,
            Token::RParen => TokenView::RParen,
            Token::Comma => TokenView::Comma,
            Token::Semicolon => TokenView::Semicolon,
            Token::SectionInit => TokenView::SectionInit,
            Token::SectionSample => TokenView::SectionSample,
            Token::SectionBlock => TokenView::SectionBlock,
        }
    }
}

impl View for Spanned<Token> {
    type V = Spanned<TokenView>;

    open spec fn view(&self) -> Spanned<TokenView> {
        Spanned { node: self.node@, line: self.line, col: self.col }
    }
}

/// The contents of a token list.
pub open spec fn token_views(tokens: Seq<Spanned<Token>>) -> Seq<Spanned<TokenView>> {
    tokens.map_values(|t: Spanned<Token>| t@)
}

/// A character that may continue a word: a letter, a digit or an underscore.
pub open spec fn word_char(c: char) -> bool {
    if c as u32 <= 127 {
        crate::text::ascii_letter(c) || crate::text::digit(c) || c == '_'
    } else {
        crate::text::alphanumeric(c)
    }
}

/// The end of the run of word characters that starts at `pos`.
pub open spec fn word_end(src: Seq<char>, pos: int) -> int
    decreases src.len() - pos,
{
    if 0 <= pos < src.len() && word_char(src[pos]) {
        word_end(src, pos + 1)
    } else {
        pos
    }
}

/// The end of the line that holds `pos`: the next newline, or the end of the source.
pub open spec fn line_end(src: Seq<char>, pos: int) -> int
    decreases src.len() - pos,
{
    if 0 <= pos < src.len() && src[pos] != '\n' {
        line_end(src, pos + 1)
    } else {
        pos
    }
}

/// Whether `src` holds `c` at `pos`.
pub open spec fn holds(src: Seq<char>, pos: int, c: char) -> bool {
    0 <= pos < src.len() && src[pos] == c
}

/// The end of the digits and the fraction of the numeral at `pos`.
pub open spec fn mantissa_end(src: Seq<char>, pos: int) -> int {
    let whole = crate::text::digits_end(src, pos);
    if holds(src, whole, '.') {
        crate::text::digits_end(src, whole + 1)
    } else {
        whole
    }
}

/// Whether an exponent mark stands at `pos`.
pub open spec fn exponent_mark(src: Seq<char>, pos: int) -> bool {
    holds(src, pos, 'e') || holds(src, pos, 'E')
}

/// Where the digits of the exponent start whose mark stands at `pos`.
pub open spec fn exponent_digits(src: Seq<char>, pos: int) -> int {
    if holds(src, pos + 1, '+') || holds(src, pos + 1, '-') {
        pos + 2
    } else {
        pos + 1
    }
}

/// The end of the numeral at `pos`: digits, a fraction, an exponent.
pub open spec fn number_end(src: Seq<char>, pos: int) -> int {
    let m = mantissa_end(src, pos);
    if exponent_mark(src, m) {
        crate::text::digits_end(src, exponent_digits(src, m))
    } else {
        m
    }
}

/// Whether the numeral at `pos` has a value: an exponent mark must be followed by a digit.
pub open spec fn number_has_value(src: Seq<char>, pos: int) -> bool {
    let m = mantissa_end(src, pos);
    exponent_mark(src, m) ==> number_end(src, pos) > exponent_digits(src, m)
}

/// Whether a numeral starts at `pos`.
pub open spec fn number_starts(src: Seq<char>, pos: int) -> bool {
    0 <= pos < src.len() && (crate::text::digit(src[pos]) || (src[pos] == '.' && pos + 1 < src.len()
        && crate::text::digit(src[pos + 1])))
}

/// The operator that two characters make together.
pub open spec fn double_op(a: char, b: char) -> Option<OpTok> {
    if a == '<' && b == '=' {
        Some(OpTok::Le)
    } else if a == '>' && b == '=' {
        Some(OpTok::Ge)
    } else if a == '=' && b == '=' {
        Some(OpTok::EqEq)
    } else if a == '!' && b == '=' {
        Some(OpTok::NotEq)
    } else if a == '&' && b == '&' {
        Some(OpTok::AndAnd)
    } else if a == '|' && b == '|' {
        Some(OpTok::OrOr)
    } else if a == '+' && b == '=' {
        Some(OpTok::PlusEq)
    } else if a == '-' && b == '=' {
        Some(OpTok::MinusEq)
    } else if a == '*' && b == '=' {
        Some(OpTok::StarEq)
    } else if a == '/' && b == '=' {
        Some(OpTok::SlashEq)
    } else {
        None
    }
}

/// The token that one character makes alone.
pub open spec fn single_token(c: char) -> Option<TokenView> {
    if c == '+' {
        Some(TokenView::Op(OpTok::Plus))
    } else if c == '-' {
        Some(TokenView::Op(OpTok::Minus))
    } else if c == '*' {
        Some(TokenView::Op(OpTok::Star))
    } else if c == '/' {
        Some(TokenView::Op(OpTok::Slash))
    } else if c == '%' {
        Some(TokenView::Op(OpTok::Percent))
    } else if c == '^' {
        Some(TokenView::Op(OpTok::Caret))
    } else if c == '=' {
        Some(TokenView::Op(OpTok::Assign))
    } else if c == '<' {
        Some(TokenView::Op(OpTok::Lt))
    } else if c == '>' {
        Some(TokenView::Op(OpTok::Gt))
    } else if c == '!' {
        Some(TokenView::Op(OpTok::Not))
    } else if c == '(' {
        Some(TokenView::LParen)
    } else if c == ')' {
        Some(TokenView::RParen)
    } else if c == ',' {
        Some(TokenView::Comma)
    } else if c == ';' {
        Some(TokenView::Semicolon)
    } else {
        None
    }
}

/// What stands at one place of the source.
pub enum Item {
    /// Blanks or a comment, up to the given place.
    Skip(int),
    /// A line break.
    LineBreak,
    /// A token, up to the given place.
    Token(TokenView, int),
    /// Something that starts no token, with the complaint.
    Bad(Seq<char>),
}

/// The section marker that the word of `src` from `pos` to `end` names.
pub open spec fn section_item(word: Seq<char>, end: int) -> Item {
    if word == "@init"@ {
        Item::Token(TokenView::SectionInit, end)
    } else if word == "@sample"@ {
        Item::Token(TokenView::SectionSample, end)
    } else if word == "@block"@ {
        Item::Token(TokenView::SectionBlock, end)
    } else {
        Item::Bad("unknown section marker '"@ + word + "'"@)
    }
}

/// The constant that a word starting with `$` names, in either case.
pub open spec fn constant_item(word: Seq<char>, end: int) -> Item {
    if crate::text::lowercase(word) == "$pi"@ {
        Item::Token(TokenView::Const(ConstKind::Pi), end)
    } else if crate::text::lowercase(word) == "$e"@ {
        Item::Token(TokenView::Const(ConstKind::E), end)
    } else {
        Item::Bad("unknown constant '"@ + word + "'"@)
    }
}

/// An operator or a punctuation mark: the longest that fits.
pub open spec fn symbol_item(src: Seq<char>, pos: int) -> Item {
    if pos + 1 < src.len() && double_op(src[pos], src[pos + 1]) is Some {
        Item::Token(TokenView::Op(double_op(src[pos], src[pos + 1])->0), pos + 2)
    } else {
        match single_token(src[pos]) {
            Some(t) => Item::Token(t, pos + 1),
            None => Item::Bad("unexpected character '"@ + seq![src[pos]] + "'"@),
        }
    }
}

/// What stands at `pos`, which lies inside the source.
pub open spec fn item_at(src: Seq<char>, pos: int) -> Item {
    let c = src[pos];
    if c == ' ' || c == '\t' || c == '\r' {
        Item::Skip(pos + 1)
    } else if c == '\n' {
        Item::LineBreak
    } else if c == '/' && holds(src, pos + 1, '/') {
        Item::Skip(line_end(src, pos))
    } else if c == '@' {
        let end = word_end(src, pos + 1);
        section_item(src.subrange(pos, end), end)
    } else if c == '$' {
        let end = word_end(src, pos + 1);
        constant_item(src.subrange(pos, end), end)
    } else if number_starts(src, pos) {
        let end = number_end(src, pos);
        let numeral = src.subrange(pos, end);
        if number_has_value(src, pos) {
            Item::Token(TokenView::Num(numeral), end)
        } else {
            Item::Bad("invalid number '"@ + numeral + "'"@)
        }
    } else if crate::text::alphabetic(c) || c == '_' {
        let end = word_end(src, pos + 1);
        Item::Token(TokenView::Ident(crate::text::lowercase(src.subrange(pos, end))), end)
    } else {
        symbol_item(src, pos)
    }
}

/// The tokens of `src` from `pos` on, which stands at the given line and column, or the first
/// error there.
pub open spec fn tokens_from(src: Seq<char>, pos: int, line: int, col: int) -> Result<
    Seq<Spanned<TokenView>>,
    crate::script::ScriptErrorView,
>
    decreases src.len() - pos,
{
    if pos < 0 || pos >= src.len() {
        Ok(Seq::empty())
    } else {
        proof {
            lemma_item_advances(src, pos);
        }
        match item_at(src, pos) {
            Item::Skip(end) => tokens_from(src, end, line, col + (end - pos)),
            Item::LineBreak => tokens_from(src, pos + 1, line + 1, 1),
            Item::Token(t, end) => match tokens_from(src, end, line, col + (end - pos)) {
                Ok(rest) => Ok(seq![Spanned { node: t, line: line as u32, col: col as u32 }] + rest),
                Err(e) => Err(e),
            },
            Item::Bad(text) => Err(
                crate::script::ScriptErrorView { line, col, message: crate::script::plain(text) },
            ),
        }
    }
}

/// The tokens of a whole source text.
pub open spec fn tokens_of(src: Seq<char>) -> Result<
    Seq<Spanned<TokenView>>,
    crate::script::ScriptErrorView,
> {
    tokens_from(src, 0, 1, 1)
}

/// Runs of characters end no earlier than they start, and within the source.
pub proof fn lemma_run_ends(src: Seq<char>, pos: int)
    requires
        0 <= pos <= src.len(),
    ensures
        pos <= word_end(src, pos) <= src.len(),
        pos <= crate::text::digits_end(src, pos) <= src.len(),
        pos <= line_end(src, pos) <= src.len(),
    decreases src.len() - pos,
{
    crate::text::lemma_digits_end(src, pos);
    if pos < src.len() {
        lemma_run_ends(src, pos + 1);
    }
}

/// A numeral is not empty and ends within the source.
pub proof fn lemma_number_end(src: Seq<char>, pos: int)
    requires
        number_starts(src, pos),
    ensures
        pos < mantissa_end(src, pos) <= number_end(src, pos) <= src.len(),
{
    lemma_run_ends(src, pos);
    lemma_run_ends(src, pos + 1);
    let whole = crate::text::digits_end(src, pos);
    if holds(src, whole, '.') {
        lemma_run_ends(src, whole + 1);
    }
    let m = mantissa_end(src, pos);
    if exponent_mark(src, m) {
        lemma_run_ends(src, exponent_digits(src, m));
    }
}

/// What stands at a place of the source is not empty and ends within the source, so the tokens
/// after it lie strictly nearer to the end.
pub proof fn lemma_item_advances(src: Seq<char>, pos: int)
    requires
        0 <= pos < src.len(),
    ensures
        match item_at(src, pos) {
            Item::Skip(end) => pos < end <= src.len(),
            Item::Token(_, end) => pos < end <= src.len(),
            _ => true,
        },
{
    lemma_run_ends(src, pos);
    lemma_run_ends(src, pos + 1);
    if number_starts(src, pos) {
        lemma_number_end(src, pos);
    }
    if src[pos] == '/' {
        assert(line_end(src, pos) == line_end(src, pos + 1));
    }
}

/// What was found at one place of the source.
enum Found {
    Skip(usize),
    LineBreak,
    Token(Token, usize),
    Bad(String),
}

impl Found {
    spec fn shows(self, item: Item) -> bool {
        match (self, item) {
            (Found::Skip(a), Item::Skip(b)) => a == b,
            (Found::LineBreak, Item::LineBreak) => true,
            (Found::Token(t, a), Item::Token(u, b)) => t@ == u && a == b,
            (Found::Bad(a), Item::Bad(b)) => a@ == b,
            _ => false,
        }
    }
}

fn find_word_end(src: &Vec<char>, pos: usize) -> (end: usize)
    requires
        pos <= src@.len(),
    ensures
        end == word_end(src@, pos as int),
        pos <= end <= src@.len(),
{
    let mut i: usize = pos;
    while i < src.len() && (src[i].is_alphanumeric() || src[i] == '_')
        invariant
            pos <= i <= src@.len(),
            word_end(src@, i as int) == word_end(src@, pos as int),
        decreases src@.len() - i,
    {
        i += 1;
    }
    i
}

fn find_line_end(src: &Vec<char>, pos: usize) -> (end: usize)
    requires
        pos <= src@.len(),
    ensures
        end == line_end(src@, pos as int),
        pos <= end <= src@.len(),
{
    let mut i: usize = pos;
    while i < src.len() && src[i] != '\n'
        invariant
            pos <= i <= src@.len(),
            line_end(src@, i as int) == line_end(src@, pos as int),
        decreases src@.len() - i,
    {
        i += 1;
    }
    i
}

fn char_is(src: &Vec<char>, pos: usize, c: char) -> (r: bool)
    ensures
        r == holds(src@, pos as int, c),
{
    pos < src.len() && src[pos] == c
}

fn find_section(src: &Vec<char>, pos: usize) -> (r: Found)
    requires
        src@.len() < u32::MAX,
        pos < src@.len(),
        src@[pos as int] == '@',
    ensures
        r.shows(item_at(src@, pos as int)),
{
    let end: usize = find_word_end(src, pos + 1);
    let word = string_of(src.as_slice(), pos, end);
    if same_text(word.as_str(), "@init") {
        Found::Token(Token::SectionInit, end)
    } else if same_text(word.as_str(), "@sample") {
        Found::Token(Token::SectionSample, end)
    } else if same_text(word.as_str(), "@block") {
        Found::Token(Token::SectionBlock, end)
    } else {
        Found::Bad(join3("unknown section marker '", word.as_str(), "'"))
    }
}

fn find_constant(src: &Vec<char>, pos: usize) -> (r: Found)
    requires
        src@.len() < u32::MAX,
        pos < src@.len(),
        src@[pos as int] == '$',
    ensures
        r.shows(item_at(src@, pos as int)),
{
    let end: usize = find_word_end(src, pos + 1);
    let word = string_of(src.as_slice(), pos, end);
    let lower = word.as_str().to_lowercase();
    if same_text(lower.as_str(), "$pi") {
        Found::Token(Token::Const(ConstKind::Pi), end)
    } else if same_text(lower.as_str(), "$e") {
        Found::Token(Token::Const(ConstKind::E), end)
    } else {
        Found::Bad(join3("unknown constant '", word.as_str(), "'"))
    }
}

fn find_number(src: &Vec<char>, pos: usize) -> (r: Found)
    requires
        src@.len() < u32::MAX,
        number_starts(src@, pos as int),
    ensures
        r.shows(item_at(src@, pos as int)),
{
    let mut end: usize = find_digits_end(src.as_slice(), pos);
    if char_is(src, end, '.') {
        end = find_digits_end(src.as_slice(), end + 1);
    }
    assert(end == mantissa_end(src@, pos as int));
    let mut has_value = true;
    if char_is(src, end, 'e') || char_is(src, end, 'E') {
        let mut digits: usize = end + 1;
        if char_is(src, digits, '+') || char_is(src, digits, '-') {
            digits += 1;
        }
        end = find_digits_end(src.as_slice(), digits);
        has_value = end > digits;
    }
    proof {
        lemma_number_end(src@, pos as int);
    }
    let numeral = string_of(src.as_slice(), pos, end);
    if has_value {
        Found::Token(Token::Num(numeral), end)
    } else {
        Found::Bad(join3("invalid number '", numeral.as_str(), "'"))
    }
}

fn find_double_op(a: char, b: char) -> (r: Option<OpTok>)
    ensures
        r == double_op(a, b),
{
    if b == '=' {
        match a {
            '<' => Some(OpTok::Le),
            '>' => Some(OpTok::Ge),
            '=' => Some(OpTok::EqEq),
            '!' => Some(OpTok::NotEq),
            '+' => Some(OpTok::PlusEq),
            '-' => Some(OpTok::MinusEq),
            '*' => Some(OpTok::StarEq),
            '/' => Some(OpTok::SlashEq),
            _ => None,
        }
    } else if a == '&' && b == '&' {
        Some(OpTok::AndAnd)
    } else if a == '|' && b == '|' {
        Some(OpTok::OrOr)
    } else {
        None
    }
}

fn find_single_token(c: char) -> (r: Option<Token>)
    ensures
        r is Some <==> single_token(c) is Some,
        r is Some ==> r->0@ == single_token(c)->0,
{
    match c {
        '+' => Some(Token::Op(OpTok::Plus)),
        '-' => Some(Token::Op(OpTok::Minus)),
        '*' => Some(Token::Op(OpTok::Star)),
        '/' => Some(Token::Op(OpTok::Slash)),
        '%' => Some(Token::Op(OpTok::Percent)),
        '^' => Some(Token::Op(OpTok::Caret)),
        '=' => Some(Token::Op(OpTok::Assign)),
        '<' => Some(Token::Op(OpTok::Lt)),
        '>' => Some(Token::Op(OpTok::Gt)),
        '!' => Some(Token::Op(OpTok::Not)),
        '(' => Some(Token::LParen),
        ')' => Some(Token::RParen),
        ',' => Some(Token::Comma),
        ';' => Some(Token::Semicolon),
        _ => None,
    }
}

fn find_symbol(src: &Vec<char>, pos: usize) -> (r: Found)
    requires
        src@.len() < u32::MAX,
        pos < src@.len(),
    ensures
        r.shows(symbol_item(src@, pos as int)),
{
    if pos + 1 < src.len() {
        if let Some(op) = find_double_op(src[pos], src[pos + 1]) {
            return Found::Token(Token::Op(op), pos + 2);
        }
    }
    match find_single_token(src[pos]) {
        Some(t) => Found::Token(t, pos + 1),
        None => {
            let c = string_of(src.as_slice(), pos, pos + 1);
            assert(c@ =~= seq![src@[pos as int]]);
            Found::Bad(join3("unexpected character '", c.as_str(), "'"))
        },
    }
}

fn find_item(src: &Vec<char>, pos: usize) -> (r: Found)
    requires
        src@.len() < u32::MAX,
        pos < src@.len(),
    ensures
        r.shows(item_at(src@, pos as int)),
{
    let c: char = src[pos];
    if c == ' ' || c == '\t' || c == '\r' {
        Found::Skip(pos + 1)
    } else if c == '\n' {
        Found::LineBreak
    } else if c == '/' && char_is(src, pos + 1, '/') {
        Found::Skip(find_line_end(src, pos))
    } else if c == '@' {
        find_section(src, pos)
    } else if c == '$' {
        find_constant(src, pos)
    } else if (c >= '0' && c <= '9') || (c == '.' && pos + 1 < src.len() && src[pos + 1] >= '0'
        && src[pos + 1] <= '9') {
        find_number(src, pos)
    } else if c.is_alphabetic() || c == '_' {
        let end: usize = find_word_end(src, pos + 1);
        let word = string_of(src.as_slice(), pos, end);
        Found::Token(Token::Ident(word.as_str().to_lowercase()), end)
    } else {
        find_symbol(src, pos)
    }
}

/// Cuts a source text into tokens, or reports the first place that starts none.
///
/// Lines and columns are counted in 32 bits.
pub fn lex(src: &str) -> (r: Result<Vec<Spanned<Token>>, ScriptError>)
    requires
        src@.len() < u32::MAX,
    ensures
        match r {
            Ok(tokens) => tokens_of(src@) == Ok::<_, crate::script::ScriptErrorView>(
                token_views(tokens@),
            ),
            Err(e) => tokens_of(src@) == Err::<Seq<Spanned<TokenView>>, _>(e@),
        },
{
    let chars = chars_of(src);
    let mut tokens: Vec<Spanned<Token>> = Vec::new();
    let mut pos: usize = 0;
    let mut line: u32 = 1;
    let mut col: u32 = 1;
    while pos < chars.len()
        invariant
            pos <= chars@.len() < u32::MAX,
            chars@ == src@,
            1 <= line <= pos + 1,
            1 <= col <= pos + 1,
            tokens_of(src@) == after(
                token_views(tokens@),
                tokens_from(src@, pos as int, line as int, col as int),
            ),
        decreases chars@.len() - pos,
    {
        proof {
            lemma_item_advances(src@, pos as int);
        }
        match find_item(&chars, pos) {
            Found::Skip(end) => {
                col += (end - pos) as u32;
                pos = end;
            },
            Found::LineBreak => {
                pos += 1;
                line += 1;
                col = 1;
            },
            Found::Token(node, end) => {
                let ghost before = tokens@;
                let ghost rest = tokens_from(src@, end as int, line as int, col + (end - pos));
                let spanned = Spanned { node, line, col };
                tokens.push(spanned);
                proof {
                    assert(token_views(tokens@) =~= token_views(before).push(spanned@));
                    if rest is Ok {
                        assert(token_views(before) + (seq![spanned@] + rest->Ok_0) =~= token_views(
                            tokens@,
                        ) + rest->Ok_0);
                    }
                }
                col += (end - pos) as u32;
                pos = end;
            },
            Found::Bad(text) => {
                return Err(ScriptError { line, col, message: Report::plain(text) });
            },
        }
    }
    proof {
        assert(token_views(tokens@) + Seq::<Spanned<TokenView>>::empty() =~= token_views(tokens@));
    }
    Ok(tokens)
}

/// Earlier tokens followed by the outcome of what comes after them.
pub open spec fn after(
    done: Seq<Spanned<TokenView>>,
    rest: Result<Seq<Spanned<TokenView>>, crate::script::ScriptErrorView>,
) -> Result<Seq<Spanned<TokenView>>, crate::script::ScriptErrorView> {
    match rest {
        Ok(r) => Ok(done + r),
        Err(e) => Err(e),
    }
}

/// One place of the source stands in front of another.
pub open spec fn in_front(line: int, col: int, other_line: int, other_col: int) -> bool {
    line < other_line || (line == other_line && col < other_col)
}

/// Tokens that start at the given place or behind it, each in front of the next ones.
pub open spec fn in_order(tokens: Seq<Spanned<TokenView>>, line: int, col: int) -> bool {
    &&& forall|i: int|
        0 <= i < tokens.len() ==> !in_front(
            (#[trigger] tokens[i]).line as int,
            tokens[i].col as int,
            line,
            col,
        )
    &&& forall|i: int, j: int|
        0 <= i < j < tokens.len() ==> in_front(
            (#[trigger] tokens[i]).line as int,
            tokens[i].col as int,
            (#[trigger] tokens[j]).line as int,
            tokens[j].col as int,
        )
}

proof fn lemma_in_order(src: Seq<char>, pos: int, line: int, col: int)
    requires
        0 <= pos,
        1 <= line <= pos + 1,
        1 <= col <= pos + 1,
        src.len() < u32::MAX,
    ensures
        match tokens_from(src, pos, line, col) {
            Ok(tokens) => in_order(tokens, line, col),
            Err(e) => !in_front(e.line, e.col, line, col),
        },
    decreases src.len() - pos,
{
    if pos < src.len() {
        lemma_item_advances(src, pos);
        match item_at(src, pos) {
            Item::Skip(end) => {
                lemma_in_order(src, end, line, col + (end - pos));
            },
            Item::LineBreak => {
                lemma_in_order(src, pos + 1, line + 1, 1);
            },
            Item::Token(t, end) => {
                lemma_in_order(src, end, line, col + (end - pos));
                if let Ok(rest) = tokens_from(src, end, line, col + (end - pos)) {
                    let first = Spanned { node: t, line: line as u32, col: col as u32 };
                    let all = seq![first] + rest;
                    assert forall|i: int| 0 <= i < all.len() implies !in_front(
                        (#[trigger] all[i]).line as int,
                        all[i].col as int,
                        line,
                        col,
                    ) by {
                        if i > 0 {
                            assert(all[i] == rest[i - 1]);
                        }
                    }
                    assert forall|i: int, j: int| 0 <= i < j < all.len() implies in_front(
                        (#[trigger] all[i]).line as int,
                        all[i].col as int,
                        (#[trigger] all[j]).line as int,
                        all[j].col as int,
                    ) by {
                        assert(all[j] == rest[j - 1]);
                        if i > 0 {
                            assert(all[i] == rest[i - 1]);
                        }
                    }
                }
            },
            Item::Bad(_) => {},
        }
    }
}

/// The places of the tokens, lines before columns, rise through the source and start no earlier
/// than at line 1, column 1; an error has such a place too.
pub proof fn law_places_rise(src: Seq<char>)
    requires
        src.len() < u32::MAX,
    ensures
        match tokens_of(src) {
            Ok(tokens) => in_order(tokens, 1, 1),
            Err(e) => !in_front(e.line, e.col, 1, 1),
        },
{
    lemma_in_order(src, 0, 1, 1);
}

} // verus!
