//! The words of TraceQL: a query as a list of tokens.
use super::ast::{AttrScope, Field, FieldOp, FieldView};
use crate::text::{
    alphanumeric, begins_with, chars_of, str_eq, strip_prefix, text_between, text_of,
    white_space,
};
use vstd::prelude::*;

verus! {

/// A token of a query.
#[derive(Debug)]
pub enum Token {
    /// `{`
    OpenBrace,
    /// `}`
    CloseBrace,
    /// `(`
    OpenParen,
    /// `)`
    CloseParen,
    /// `&&`
    And,
    /// `||`
    Or,
    /// `>>`
    Descendant,
    /// `<<`
    Ancestor,
    /// A comparison operator.
    Compare(FieldOp),
    /// An attribute, an intrinsic or a literal.
    Operand(Field),
}

/// A token, as a value.
pub enum TokenView {
    OpenBrace,
    CloseBrace,
    OpenParen,
    CloseParen,
    And,
    Or,
    Descendant,
    Ancestor,
    Compare(FieldOp),
    Operand(FieldView),
}

impl View for Token {
    type V = TokenView;

    open spec fn view(&self) -> TokenView {
        match self {
            Token::OpenBrace => TokenView::OpenBrace,
            Token::CloseBrace => TokenView::CloseBrace,
            Token::OpenParen => TokenView::OpenParen,
            Token::CloseParen => TokenView::CloseParen,
            Token::And => TokenView::And,
            Token::Or => TokenView::Or,
            Token::Descendant => TokenView::Descendant,
            Token::Ancestor => TokenView::Ancestor,
            Token::Compare(op) => TokenView::Compare(*op),
            Token::Operand(f) => TokenView::Operand(f@),
        }
    }
}

/// Tokens, as values.
pub open spec fn tokens_view(t: Seq<Token>) -> Seq<TokenView> {
    Seq::new(t.len(), |i: int| t[i]@)
}

/// Whether a character is a decimal digit.
pub open spec fn is_digit(c: char) -> bool {
    '0' <= c && c <= '9'
}

/// Whether a character can stand in a word: every one that is no white space, bracket,
/// quote or part of an operator.
pub open spec fn in_word(c: char) -> bool {
    !white_space(c) && c != '{' && c != '}' && c != '(' && c != ')' && c != '=' && c != '~' && c
        != '!' && c != '<' && c != '>' && c != '&' && c != '|' && c != '^' && c != ',' && c != '"'
        && c != '`'
}

fn stands_in_word(c: char) -> (r: bool)
    ensures
        r == in_word(c),
{
    !c.is_whitespace() && c != '{' && c != '}' && c != '(' && c != ')' && c != '=' && c != '~' && c
        != '!' && c != '<' && c != '>' && c != '&' && c != '|' && c != '^' && c != ',' && c != '"'
        && c != '`'
}

/// Where the word that runs through place `i` ends.
pub open spec fn word_end(s: Seq<char>, i: int) -> int
    decreases s.len() - i,
{
    if 0 <= i < s.len() && in_word(s[i]) {
        word_end(s, i + 1)
    } else {
        i
    }
}

/// Where the digits from place `i` on end.
pub open spec fn digits_end(s: Seq<char>, i: int) -> int
    decreases s.len() - i,
{
    if 0 <= i < s.len() && is_digit(s[i]) {
        digits_end(s, i + 1)
    } else {
        i
    }
}

/// Where the numeral from place `i` on ends: digits, and a point with digits behind it.
/// It is `i` where there is none.
pub open spec fn numeral_end(s: Seq<char>, i: int) -> int {
    let whole = digits_end(s, i);
    if whole > i && whole < s.len() && s[whole] == '.' && digits_end(s, whole + 1) > whole + 1 {
        digits_end(s, whole + 1)
    } else {
        whole
    }
}

/// Where the unit of time at place `i` ends: `ns`, `us`, `µs`, `ms`, `s`, `m` or `h`.
/// It is `i` where there is none.
pub open spec fn unit_end(s: Seq<char>, i: int) -> int {
    if 0 <= i < s.len() {
        if i + 1 < s.len() && s[i + 1] == 's' && (s[i] == 'n' || s[i] == 'u' || s[i] == 'µ' || s[i]
            == 'm') {
            i + 2
        } else if s[i] == 's' || s[i] == 'm' || s[i] == 'h' {
            i + 1
        } else {
            i
        }
    } else {
        i
    }
}

proof fn digits_advance(s: Seq<char>, i: int)
    ensures
        digits_end(s, i) >= i,
        0 <= i <= s.len() ==> digits_end(s, i) <= s.len(),
    decreases s.len() - i,
{
    if 0 <= i < s.len() && is_digit(s[i]) {
        digits_advance(s, i + 1);
    }
}

/// A numeral does not end before its beginning.
pub proof fn numeral_advances(s: Seq<char>, i: int)
    ensures
        numeral_end(s, i) >= i,
        0 <= i <= s.len() ==> numeral_end(s, i) <= s.len(),
{
    digits_advance(s, i);
    digits_advance(s, digits_end(s, i) + 1);
}

/// Whether a word is a duration from place `i` on: numerals, each with a unit.
pub open spec fn is_duration(s: Seq<char>, i: int) -> bool
    decreases s.len() - i,
{
    proof {
        numeral_advances(s, i);
    }
    let n = numeral_end(s, i);
    let u = unit_end(s, n);
    n > i && u > n && (u == s.len() || is_duration(s, u))
}

/// Where the digits of a numeral begin: behind its sign.
pub open spec fn sign_end(w: Seq<char>) -> int {
    if w.len() > 0 && w[0] == '-' {
        1
    } else {
        0
    }
}

/// Whether a word begins as a numeral does.
pub open spec fn is_numeric(w: Seq<char>) -> bool {
    sign_end(w) < w.len() && is_digit(w[sign_end(w)])
}

/// The literal that a numeric word stands for: a number or a duration.
pub open spec fn numeric_field(w: Seq<char>) -> Option<FieldView> {
    if numeral_end(w, sign_end(w)) == w.len() {
        Some(FieldView::Num(w))
    } else if is_duration(w, sign_end(w)) {
        Some(FieldView::Duration(w))
    } else {
        None
    }
}

/// The attribute of a scope, where the path is not empty.
pub open spec fn attribute(scope: AttrScope, path: Seq<char>) -> Option<FieldView> {
    if path.len() == 0 {
        None
    } else {
        Some(FieldView::Attr { scope, path })
    }
}

/// What a word behind a prefix stands for.
pub open spec fn behind(w: Seq<char>, prefix: Seq<char>, scope: AttrScope) -> Option<FieldView> {
    attribute(scope, w.skip(prefix.len() as int))
}

/// What a word stands for: a Boolean, a number, a duration, an attribute (with its
/// scope before it; without one where the word has a dot), or an intrinsic.
pub open spec fn word_field(w: Seq<char>) -> Option<FieldView> {
    if w == "true"@ {
        Some(FieldView::Bool(true))
    } else if w == "false"@ {
        Some(FieldView::Bool(false))
    } else if is_numeric(w) {
        numeric_field(w)
    } else if begins_with(w, "."@) {
        behind(w, "."@, AttrScope::Unscoped)
    } else if begins_with(w, "span."@) {
        behind(w, "span."@, AttrScope::Span)
    } else if begins_with(w, "resource."@) {
        behind(w, "resource."@, AttrScope::Resource)
    } else if begins_with(w, "event."@) {
        behind(w, "event."@, AttrScope::Event)
    } else if begins_with(w, "instrumentation."@) {
        behind(w, "instrumentation."@, AttrScope::Instrumentation)
    } else if begins_with(w, "link."@) {
        behind(w, "link."@, AttrScope::Link)
    } else if begins_with(w, "parent."@) {
        behind(w, "parent."@, AttrScope::Parent)
    } else if w.len() == 0 || !(alphanumeric(w[0]) || w[0] == '_') {
        None
    } else if w.contains('.') {
        Some(FieldView::Attr { scope: AttrScope::Unscoped, path: w })
    } else {
        Some(FieldView::Intrinsic(w))
    }
}

fn find_digits_end(w: &Vec<char>, from: usize) -> (r: usize)
    requires
        from <= w@.len(),
    ensures
        r == digits_end(w@, from as int),
        from <= r <= w@.len(),
{
    let mut i: usize = from;
    while i < w.len() && w[i] >= '0' && w[i] <= '9'
        invariant
            from <= i <= w@.len(),
            digits_end(w@, from as int) == digits_end(w@, i as int),
        decreases w.len() - i,
    {
        i = i + 1;
    }
    i
}

fn find_numeral_end(w: &Vec<char>, from: usize) -> (r: usize)
    requires
        from <= w@.len(),
    ensures
        r == numeral_end(w@, from as int),
        from <= r <= w@.len(),
{
    let whole: usize = find_digits_end(w, from);
    if whole > from && whole < w.len() && w[whole] == '.' {
        let end: usize = find_digits_end(w, whole + 1);
        if end > whole + 1 {
            return end;
        }
    }
    whole
}

fn find_unit_end(w: &Vec<char>, i: usize) -> (r: usize)
    requires
        i <= w@.len(),
    ensures
        r == unit_end(w@, i as int),
        i <= r <= w@.len(),
{
    if i < w.len() {
        if i + 1 < w.len() && w[i + 1] == 's' && (w[i] == 'n' || w[i] == 'u' || w[i] == 'µ' || w[i]
            == 'm') {
            i + 2
        } else if w[i] == 's' || w[i] == 'm' || w[i] == 'h' {
            i + 1
        } else {
            i
        }
    } else {
        i
    }
}

fn reads_as_duration(w: &Vec<char>, from: usize) -> (r: bool)
    requires
        from <= w@.len(),
    ensures
        r == is_duration(w@, from as int),
{
    let mut i: usize = from;
    loop
        invariant
            from <= i <= w@.len(),
            is_duration(w@, from as int) == is_duration(w@, i as int),
        decreases w.len() - i,
    {
        let n: usize = find_numeral_end(w, i);
        let u: usize = find_unit_end(w, n);
        if !(n > i && u > n) {
            return false;
        }
        if u == w.len() {
            return true;
        }
        i = u;
    }
}

fn attribute_of(scope: AttrScope, path: String) -> (r: Option<Field>)
    ensures
        field_of(r) == attribute(scope, path@),
{
    if path.as_str().unicode_len() == 0 {
        None
    } else {
        Some(Field::Attr { scope, path })
    }
}

/// The value of an optional field.
pub open spec fn field_of(f: Option<Field>) -> Option<FieldView> {
    match f {
        Some(x) => Some(x@),
        None => None,
    }
}

fn numeric_of(w: &Vec<char>) -> (r: Option<Field>)
    ensures
        field_of(r) == numeric_field(w@),
{
    let from: usize = if w.len() > 0 && w[0] == '-' {
        1
    } else {
        0
    };
    if find_numeral_end(w, from) == w.len() {
        Some(Field::Num(text_of(w)))
    } else if reads_as_duration(w, from) {
        Some(Field::Duration(text_of(w)))
    } else {
        None
    }
}

fn has_dot(w: &Vec<char>) -> (r: bool)
    ensures
        r == w@.contains('.'),
{
    let mut i: usize = 0;
    while i < w.len()
        invariant
            i <= w@.len(),
            forall|j: int| 0 <= j < i ==> w@[j] != '.',
        decreases w.len() - i,
    {
        if w[i] == '.' {
            return true;
        }
        i = i + 1;
    }
    false
}

/// The field that a word stands for, if it stands for one.
pub fn field_of_word(word: &str) -> (r: Option<Field>)
    ensures
        field_of(r) == word_field(word@),
{
    let w = chars_of(word);
    if str_eq(word, "true") {
        return Some(Field::Bool(true));
    }
    if str_eq(word, "false") {
        return Some(Field::Bool(false));
    }
    let from: usize = if w.len() > 0 && w[0] == '-' {
        1
    } else {
        0
    };
    if from < w.len() && w[from] >= '0' && w[from] <= '9' {
        return numeric_of(&w);
    }
    if let Some(path) = strip_prefix(word, ".") {
        return attribute_of(AttrScope::Unscoped, path);
    }
    if let Some(path) = strip_prefix(word, "span.") {
        return attribute_of(AttrScope::Span, path);
    }
    if let Some(path) = strip_prefix(word, "resource.") {
        return attribute_of(AttrScope::Resource, path);
    }
    if let Some(path) = strip_prefix(word, "event.") {
        return attribute_of(AttrScope::Event, path);
    }
    if let Some(path) = strip_prefix(word, "instrumentation.") {
        return attribute_of(AttrScope::Instrumentation, path);
    }
    if let Some(path) = strip_prefix(word, "link.") {
        return attribute_of(AttrScope::Link, path);
    }
    if let Some(path) = strip_prefix(word, "parent.") {
        return attribute_of(AttrScope::Parent, path);
    }
    if w.len() == 0 || !(w[0].is_alphanumeric() || w[0] == '_') {
        return None;
    }
    if has_dot(&w) {
        Some(Field::Attr { scope: AttrScope::Unscoped, path: text_of(&w) })
    } else {
        Some(Field::Intrinsic(text_of(&w)))
    }
}

/// What a character stands for behind a backslash.
pub open spec fn escaped(c: char) -> Option<char> {
    if c == '"' || c == '\\' {
        Some(c)
    } else if c == 'n' {
        Some('\n')
    } else if c == 't' {
        Some('\t')
    } else if c == 'r' {
        Some('\r')
    } else {
        None
    }
}

fn unescape(c: char) -> (r: Option<char>)
    ensures
        r == escaped(c),
{
    if c == '"' || c == '\\' {
        Some(c)
    } else if c == 'n' {
        Some('\n')
    } else if c == 't' {
        Some('\t')
    } else if c == 'r' {
        Some('\r')
    } else {
        None
    }
}

/// The rest of a quoted text from place `i` on, behind what was read of it, and where it
/// ends: behind the closing quote.
pub open spec fn quoted_text(s: Seq<char>, i: int, read: Seq<char>) -> Option<(Seq<char>, int)>
    decreases s.len() - i,
{
    if !(0 <= i < s.len()) {
        None
    } else if s[i] == '"' {
        Some((read, i + 1))
    } else if s[i] == '\\' {
        if i + 1 < s.len() && escaped(s[i + 1]) is Some {
            quoted_text(s, i + 2, read.push(escaped(s[i + 1])->0))
        } else {
            None
        }
    } else {
        quoted_text(s, i + 1, read.push(s[i]))
    }
}

/// The same for a text between backquotes, where every character stands for itself.
pub open spec fn raw_text(s: Seq<char>, i: int, read: Seq<char>) -> Option<(Seq<char>, int)>
    decreases s.len() - i,
{
    if !(0 <= i < s.len()) {
        None
    } else if s[i] == '`' {
        Some((read, i + 1))
    } else {
        raw_text(s, i + 1, read.push(s[i]))
    }
}

/// The string literal that a text is, with its end.
pub open spec fn literal_at(read: Option<(Seq<char>, int)>) -> Option<(TokenView, int)> {
    match read {
        Some((text, end)) => Some((TokenView::Operand(FieldView::Str(text)), end)),
        None => None,
    }
}

/// Whether a place holds a character.
pub open spec fn holds(s: Seq<char>, i: int, c: char) -> bool {
    0 <= i < s.len() && s[i] == c
}

/// The token at a place where no white space stands, and where it ends.
pub open spec fn token_at(s: Seq<char>, i: int) -> Option<(TokenView, int)> {
    let c = s[i];
    if c == '{' {
        Some((TokenView::OpenBrace, i + 1))
    } else if c == '}' {
        Some((TokenView::CloseBrace, i + 1))
    } else if c == '(' {
        Some((TokenView::OpenParen, i + 1))
    } else if c == ')' {
        Some((TokenView::CloseParen, i + 1))
    } else if c == '&' && holds(s, i + 1, '&') {
        Some((TokenView::And, i + 2))
    } else if c == '|' && holds(s, i + 1, '|') {
        Some((TokenView::Or, i + 2))
    } else if c == '>' && holds(s, i + 1, '>') {
        Some((TokenView::Descendant, i + 2))
    } else if c == '<' && holds(s, i + 1, '<') {
        Some((TokenView::Ancestor, i + 2))
    } else if c == '>' && holds(s, i + 1, '=') {
        Some((TokenView::Compare(FieldOp::Gte), i + 2))
    } else if c == '>' {
        Some((TokenView::Compare(FieldOp::Gt), i + 1))
    } else if c == '<' && holds(s, i + 1, '=') {
        Some((TokenView::Compare(FieldOp::Lte), i + 2))
    } else if c == '<' {
        Some((TokenView::Compare(FieldOp::Lt), i + 1))
    } else if c == '=' && holds(s, i + 1, '~') {
        Some((TokenView::Compare(FieldOp::Re), i + 2))
    } else if c == '=' {
        Some((TokenView::Compare(FieldOp::Eq), i + 1))
    } else if c == '!' && holds(s, i + 1, '=') {
        Some((TokenView::Compare(FieldOp::Neq), i + 2))
    } else if c == '!' && holds(s, i + 1, '~') {
        Some((TokenView::Compare(FieldOp::Nre), i + 2))
    } else if c == '"' {
        literal_at(quoted_text(s, i + 1, Seq::empty()))
    } else if c == '`' {
        literal_at(raw_text(s, i + 1, Seq::empty()))
    } else if in_word(c) {
        match word_field(s.subrange(i, word_end(s, i))) {
            Some(f) => Some((TokenView::Operand(f), word_end(s, i))),
            None => None,
        }
    } else {
        None
    }
}

proof fn word_advances(s: Seq<char>, i: int)
    ensures
        word_end(s, i) >= i,
        0 <= i <= s.len() ==> word_end(s, i) <= s.len(),
    decreases s.len() - i,
{
    if 0 <= i < s.len() && in_word(s[i]) {
        word_advances(s, i + 1);
    }
}

proof fn quoted_advances(s: Seq<char>, i: int, read: Seq<char>)
    ensures
        quoted_text(s, i, read) matches Some(r) ==> i < r.1 <= s.len(),
    decreases s.len() - i,
{
    if !(0 <= i < s.len()) {
    } else if s[i] == '"' {
    } else if s[i] == '\\' {
        if i + 1 < s.len() && escaped(s[i + 1]) is Some {
            quoted_advances(s, i + 2, read.push(escaped(s[i + 1])->0));
        }
    } else {
        quoted_advances(s, i + 1, read.push(s[i]));
    }
}

proof fn raw_advances(s: Seq<char>, i: int, read: Seq<char>)
    ensures
        raw_text(s, i, read) matches Some(r) ==> i < r.1 <= s.len(),
    decreases s.len() - i,
{
    if 0 <= i < s.len() && s[i] != '`' {
        raw_advances(s, i + 1, read.push(s[i]));
    }
}

/// A token holds at least one character.
pub proof fn tokens_advance(s: Seq<char>, i: int)
    requires
        0 <= i < s.len(),
    ensures
        token_at(s, i) matches Some(r) ==> i < r.1 <= s.len(),
{
    if in_word(s[i]) {
        word_advances(s, i + 1);
        assert(word_end(s, i) == word_end(s, i + 1));
    }
    quoted_advances(s, i + 1, Seq::empty());
    raw_advances(s, i + 1, Seq::empty());
}

/// The tokens from place `i` on, behind those that were read; none where some text is
/// no token.
pub open spec fn tokens_from(s: Seq<char>, i: int, read: Seq<TokenView>) -> Option<Seq<TokenView>>
    decreases s.len() - i,
{
    if !(0 <= i < s.len()) {
        Some(read)
    } else if white_space(s[i]) {
        tokens_from(s, i + 1, read)
    } else {
        proof {
            tokens_advance(s, i);
        }
        match token_at(s, i) {
            Some((t, end)) => tokens_from(s, end, read.push(t)),
            None => None,
        }
    }
}

/// The tokens of a query.
pub open spec fn tokens_of(s: Seq<char>) -> Option<Seq<TokenView>> {
    tokens_from(s, 0, Seq::empty())
}

/// The value of a token that was read, with its end.
pub open spec fn read_view(r: Option<(Token, usize)>) -> Option<(TokenView, int)> {
    match r {
        Some((t, end)) => Some((t@, end as int)),
        None => None,
    }
}

fn read_quoted(s: &Vec<char>, from: usize) -> (r: Option<(Token, usize)>)
    requires
        from <= s@.len(),
    ensures
        read_view(r) == literal_at(quoted_text(s@, from as int, Seq::empty())),
{
    let mut text = String::new();
    let mut i: usize = from;
    assert(text@ =~= Seq::<char>::empty());
    while i < s.len()
        invariant
            from <= i <= s@.len(),
            quoted_text(s@, from as int, Seq::empty()) == quoted_text(s@, i as int, text@),
        decreases s.len() - i,
    {
        let c = s[i];
        if c == '"' {
            return Some((Token::Operand(Field::Str(text)), i + 1));
        } else if c == '\\' {
            if i + 1 < s.len() {
                match unescape(s[i + 1]) {
                    Some(e) => {
                        text.push(e);
                        i = i + 2;
                    },
                    None => return None,
                }
            } else {
                return None;
            }
        } else {
            text.push(c);
            i = i + 1;
        }
    }
    None
}

fn read_raw(s: &Vec<char>, from: usize) -> (r: Option<(Token, usize)>)
    requires
        from <= s@.len(),
    ensures
        read_view(r) == literal_at(raw_text(s@, from as int, Seq::empty())),
{
    let mut text = String::new();
    let mut i: usize = from;
    assert(text@ =~= Seq::<char>::empty());
    while i < s.len()
        invariant
            from <= i <= s@.len(),
            raw_text(s@, from as int, Seq::empty()) == raw_text(s@, i as int, text@),
        decreases s.len() - i,
    {
        let c = s[i];
        if c == '`' {
            return Some((Token::Operand(Field::Str(text)), i + 1));
        }
        text.push(c);
        i = i + 1;
    }
    None
}

fn read_word(s: &Vec<char>, from: usize) -> (r: Option<(Token, usize)>)
    requires
        from < s@.len(),
        in_word(s@[from as int]),
    ensures
        read_view(r) == (match word_field(s@.subrange(from as int, word_end(s@, from as int))) {
            Some(f) => Some((TokenView::Operand(f), word_end(s@, from as int))),
            None => None,
        }),
{
    let mut i: usize = from;
    while i < s.len() && stands_in_word(s[i])
        invariant
            from <= i <= s@.len(),
            word_end(s@, from as int) == word_end(s@, i as int),
        decreases s.len() - i,
    {
        i = i + 1;
    }
    let word = text_between(s, from, i);
    match field_of_word(word.as_str()) {
        Some(f) => Some((Token::Operand(f), i)),
        None => None,
    }
}

fn read_token(s: &Vec<char>, i: usize) -> (r: Option<(Token, usize)>)
    requires
        i < s@.len(),
    ensures
        read_view(r) == token_at(s@, i as int),
{
    let c = s[i];
    let pair = s.len() - i > 1;
    if c == '{' {
        Some((Token::OpenBrace, i + 1))
    } else if c == '}' {
        Some((Token::CloseBrace, i + 1))
    } else if c == '(' {
        Some((Token::OpenParen, i + 1))
    } else if c == ')' {
        Some((Token::CloseParen, i + 1))
    } else if c == '&' && pair && s[i + 1] == '&' {
        Some((Token::And, i + 2))
    } else if c == '|' && pair && s[i + 1] == '|' {
        Some((Token::Or, i + 2))
    } else if c == '>' && pair && s[i + 1] == '>' {
        Some((Token::Descendant, i + 2))
    } else if c == '<' && pair && s[i + 1] == '<' {
        Some((Token::Ancestor, i + 2))
    } else if c == '>' && pair && s[i + 1] == '=' {
        Some((Token::Compare(FieldOp::Gte), i + 2))
    } else if c == '>' {
        Some((Token::Compare(FieldOp::Gt), i + 1))
    } else if c == '<' && pair && s[i + 1] == '=' {
        Some((Token::Compare(FieldOp::Lte), i + 2))
    } else if c == '<' {
        Some((Token::Compare(FieldOp::Lt), i + 1))
    } else if c == '=' && pair && s[i + 1] == '~' {
        Some((Token::Compare(FieldOp::Re), i + 2))
    } else if c == '=' {
        Some((Token::Compare(FieldOp::Eq), i + 1))
    } else if c == '!' && pair && s[i + 1] == '=' {
        Some((Token::Compare(FieldOp::Neq), i + 2))
    } else if c == '!' && pair && s[i + 1] == '~' {
        Some((Token::Compare(FieldOp::Nre), i + 2))
    } else if c == '"' {
        read_quoted(s, i + 1)
    } else if c == '`' {
        read_raw(s, i + 1)
    } else if stands_in_word(c) {
        read_word(s, i)
    } else {
        None
    }
}

/// The tokens of a query, where all of it can be read.
pub fn tokens(input: &str) -> (r: Option<Vec<Token>>)
    ensures
        r is Some <==> tokens_of(input@) is Some,
        r matches Some(t) ==> Some(tokens_view(t@)) == tokens_of(input@),
{
    let s = chars_of(input);
    let mut out: Vec<Token> = Vec::new();
    let mut i: usize = 0;
    assert(tokens_view(out@) =~= Seq::<TokenView>::empty());
    while i < s.len()
        invariant
            s@ == input@,
            i <= s@.len(),
            tokens_of(input@) == tokens_from(s@, i as int, tokens_view(out@)),
        decreases s.len() - i,
    {
        if s[i].is_whitespace() {
            i = i + 1;
        } else {
            proof {
                tokens_advance(s@, i as int);
            }
            match read_token(&s, i) {
                Some((t, end)) => {
                    let ghost before = out@;
                    out.push(t);
                    assert(tokens_view(out@) =~= tokens_view(before).push(t@));
                    i = end;
                },
                None => return None,
            }
        }
    }
    Some(out)
}

} // verus!
