//! A lexer for a small subset of JavaScript: words (keywords and
//! identifiers) and single-character delimiters.
use vstd::prelude::*;
use vstd::string::StringExecFns;
use crate::text::{chars_of, push_char};

verus! {

// ---------------------------------------------------------------------
// Character classes (Unicode)
// ---------------------------------------------------------------------

/// Whether `c` has the Unicode `White_Space` property (the characters
/// `char::is_whitespace` answers `true` for): U+0009 to U+000D, U+0020,
/// U+0085, U+00A0, U+1680, U+2000 to U+200A, U+2028, U+2029, U+202F, U+205F
/// and U+3000.
pub open spec fn white_space(c: char) -> bool {
    ||| '\u{9}' <= c <= '\u{d}'
    ||| c == ' '
    ||| c == '\u{85}'
    ||| c == '\u{a0}'
    ||| c == '\u{1680}'
    ||| '\u{2000}' <= c <= '\u{200a}'
    ||| c == '\u{2028}'
    ||| c == '\u{2029}'
    ||| c == '\u{202f}'
    ||| c == '\u{205f}'
    ||| c == '\u{3000}'
}

/// Whether `c` has the Unicode `White_Space` property.
pub fn is_whitespace(c: char) -> (b: bool)
    ensures
        b == white_space(c),
{
    ('\u{9}' <= c && c <= '\u{d}') || c == ' ' || c == '\u{85}' || c == '\u{a0}' || c
        == '\u{1680}' || ('\u{2000}' <= c && c <= '\u{200a}') || c == '\u{2028}' || c == '\u{2029}'
        || c == '\u{202f}' || c == '\u{205f}' || c == '\u{3000}'
}

/// Whether `c` is an ASCII letter.
pub open spec fn ascii_letter(c: char) -> bool {
    ('a' <= c && c <= 'z') || ('A' <= c && c <= 'Z')
}

/// Whether `c` is an ASCII digit.
pub open spec fn ascii_digit(c: char) -> bool {
    '0' <= c && c <= '9'
}

/// Whether a character beyond ASCII has the Unicode `Alphabetic` property,
/// as `char::is_alphabetic` answers.
pub uninterp spec fn unicode_alphabetic(c: char) -> bool;

/// Whether a character beyond ASCII is alphabetic or numeric in Unicode, as
/// `char::is_alphanumeric` answers.
pub uninterp spec fn unicode_alphanumeric(c: char) -> bool;

/// Whether `c` is alphabetic: within ASCII exactly the letters.
pub open spec fn alphabetic(c: char) -> bool {
    if c <= '\u{7f}' {
        ascii_letter(c)
    } else {
        unicode_alphabetic(c)
    }
}

/// Whether `c` is alphanumeric: within ASCII exactly the letters and the
/// digits.
pub open spec fn alphanumeric(c: char) -> bool {
    if c <= '\u{7f}' {
        ascii_letter(c) || ascii_digit(c)
    } else {
        unicode_alphanumeric(c)
    }
}

/// Trusted: calls `char::is_alphabetic`. Within ASCII the `Alphabetic`
/// property holds of the letters only; beyond ASCII the answer is only
/// named (the Unicode tables are not restated).
#[verifier::external_body]
pub(crate) fn is_alphabetic(c: char) -> (b: bool)
    ensures
        b == (if c <= '\u{7f}' {
            ascii_letter(c)
        } else {
            unicode_alphabetic(c)
        }),
{
    c.is_alphabetic()
}

/// Trusted: calls `char::is_alphanumeric`, which answers whether `c` is
/// alphabetic or numeric: within ASCII the letters and the digits; beyond
/// ASCII the answer is only named, and it holds of every alphabetic
/// character.
#[verifier::external_body]
pub(crate) fn is_alphanumeric(c: char) -> (b: bool)
    ensures
        b == (if c <= '\u{7f}' {
            ascii_letter(c) || ascii_digit(c)
        } else {
            unicode_alphanumeric(c)
        }),
        alphabetic(c) ==> b,
{
    c.is_alphanumeric()
}

// ---------------------------------------------------------------------
// Tokens
// ---------------------------------------------------------------------

/// What a token means: its kind and the text it was read from.
pub struct TokenModel {
    pub token_type: Seq<char>,
    pub value: Seq<char>,
}

/// One lexical token.
#[derive(Debug)]
pub struct Token {
    pub token_type: String,
    pub value: String,
}

impl View for Token {
    type V = TokenModel;

    open spec fn view(&self) -> TokenModel {
        TokenModel { token_type: self.token_type@, value: self.value@ }
    }
}

impl Token {
    /// Builds a token from its kind and its text.
    pub fn new(token_type: String, value: String) -> (t: Self)
        ensures
            t.token_type == token_type,
            t.value == value,
    {
        Token { token_type, value }
    }
}

impl Default for Token {
    /// A token with empty kind and text.
    fn default() -> (t: Self)
        ensures
            t@.token_type == Seq::<char>::empty(),
            t@.value == Seq::<char>::empty(),
    {
        Token { token_type: String::new(), value: String::new() }
    }
}

/// The tokens read so far, in order.
#[derive(Debug)]
pub struct TokensList(pub Vec<Token>);

impl View for TokensList {
    type V = Seq<TokenModel>;

    open spec fn view(&self) -> Seq<TokenModel> {
        self.0@.map_values(|t: Token| t@)
    }
}

impl Default for TokensList {
    /// An empty list.
    fn default() -> (l: Self)
        ensures
            l@ == Seq::<TokenModel>::empty(),
    {
        let l = TokensList(Vec::new());
        assert(l@ =~= Seq::<TokenModel>::empty());
        l
    }
}

/// Adds the token of kind `kind` for the single character `c`.
fn push_char_token(tokens: &mut TokensList, kind: &str, c: char)
    ensures
        final(tokens)@ == old(tokens)@.push(TokenModel { token_type: kind@, value: seq![c] }),
{
    let mut value = String::new();
    push_char(&mut value, c);
    assert(value@ =~= seq![c]);
    tokens.0.push(Token::new(String::from_str(kind), value));
    assert(tokens@ =~= old(tokens)@.push(TokenModel { token_type: kind@, value: seq![c] }));
}

// ---------------------------------------------------------------------
// Keywords
// ---------------------------------------------------------------------

/// The keywords and their token kinds.
pub open spec fn keyword_table() -> Seq<(Seq<char>, Seq<char>)> {
    seq![
        ("let"@, "KEYWORD_DECLARATION"@),
        ("function"@, "KEYWORD_FUNCTION"@),
        ("return"@, "KEYWORD_RETURN"@),
        ("if"@, "KEYWORD_IF"@),
        ("else"@, "KEYWORD_ELSE"@),
        ("else if"@, "KEYWORD_ELSEIF"@),
        ("for"@, "KEYWORD_FORLOOP"@),
        ("while"@, "KEYWORD_WHILELOOP"@),
        ("console"@, "KEYWORD_CONSOLE"@),
        ("log"@, "KEYWORD_LOG"@),
        ("warn"@, "KEYWORD_WARN"@),
        ("new"@, "KEYWORD_NEW"@),
        ("throw"@, "KEYWORD_THROW"@),
        ("error"@, "KEYWORD_ERROR"@),
    ]
}

/// The texts of a table of string pairs.
pub open spec fn pairs_view(v: Seq<(&str, &str)>) -> Seq<(Seq<char>, Seq<char>)> {
    v.map_values(|p: (&str, &str)| (p.0@, p.1@))
}

/// The kind paired with `word` in `table` (the first pair whose key is `word`).
pub open spec fn lookup(table: Seq<(Seq<char>, Seq<char>)>, word: Seq<char>) -> Option<Seq<char>>
    decreases table.len(),
{
    if table.len() == 0 {
        None
    } else if table[0].0 == word {
        Some(table[0].1)
    } else {
        lookup(table.drop_first(), word)
    }
}

/// The kind of token a word makes: its keyword kind, or `IDENTIFIER`.
pub open spec fn word_type(word: Seq<char>) -> Seq<char> {
    match lookup(keyword_table(), word) {
        Some(t) => t,
        None => "IDENTIFIER"@,
    }
}

/// The keywords and their token kinds, each keyword once.
pub fn get_identifiers() -> (keywords: Vec<(&'static str, &'static str)>)
    ensures
        pairs_view(keywords@) == keyword_table(),
{
    let mut keywords: Vec<(&'static str, &'static str)> = Vec::new();
    keywords.push(("let", "KEYWORD_DECLARATION"));
    keywords.push(("function", "KEYWORD_FUNCTION"));
    keywords.push(("return", "KEYWORD_RETURN"));
    keywords.push(("if", "KEYWORD_IF"));
    keywords.push(("else", "KEYWORD_ELSE"));
    keywords.push(("else if", "KEYWORD_ELSEIF"));
    keywords.push(("for", "KEYWORD_FORLOOP"));
    keywords.push(("while", "KEYWORD_WHILELOOP"));
    keywords.push(("console", "KEYWORD_CONSOLE"));
    keywords.push(("log", "KEYWORD_LOG"));
    keywords.push(("warn", "KEYWORD_WARN"));
    keywords.push(("new", "KEYWORD_NEW"));
    keywords.push(("throw", "KEYWORD_THROW"));
    keywords.push(("error", "KEYWORD_ERROR"));
    assert(pairs_view(keywords@) =~= keyword_table());
    keywords
}

/// The kind paired with `word` in `keywords`, if any.
fn find_keyword(keywords: &Vec<(&'static str, &'static str)>, word: &String) -> (r: Option<
    &'static str,
>)
    ensures
        match lookup(pairs_view(keywords@), word@) {
            Some(t) => r matches Some(s) && s@ == t,
            None => r is None,
        },
{
    let ghost t = pairs_view(keywords@);
    let mut k: usize = 0;
    assert(t.skip(0) =~= t);
    while k < keywords.len()
        invariant
            k <= keywords.len(),
            t == pairs_view(keywords@),
            lookup(t, word@) == lookup(t.skip(k as int), word@),
        decreases keywords.len() - k,
    {
        let (key, kind) = keywords[k];
        assert(t.skip(k as int)[0] == (key@, kind@));
        assert(t.skip(k as int).drop_first() =~= t.skip(k + 1));
        if String::from_str(key) == *word {
            return Some(kind);
        }
        k = k + 1;
    }
    None
}

// ---------------------------------------------------------------------
// Delimiters
// ---------------------------------------------------------------------

/// The token kind of a delimiter character, if `c` is one.
pub open spec fn delimiter_type(c: char) -> Option<Seq<char>> {
    if c == '\'' {
        Some("SINGLE_QUOTE"@)
    } else if c == '=' {
        Some("ASSIGNMENT"@)
    } else if c == '(' {
        Some("LPAREN"@)
    } else if c == ')' {
        Some("RPAREN"@)
    } else if c == '{' {
        Some("LBRACE"@)
    } else if c == '}' {
        Some("RBRACE"@)
    } else if c == '[' {
        Some("LSQUARE"@)
    } else if c == ']' {
        Some("RSQUARE"@)
    } else if c == '<' {
        Some("LANGLE"@)
    } else if c == '>' {
        Some("RANGLE"@)
    } else if c == '\\' {
        Some("BACKSLASH"@)
    } else if c == '/' {
        Some("FORWARDSLASH"@)
    } else if c == '.' {
        Some("DOT"@)
    } else if c == ':' {
        Some("COLON"@)
    } else if c == ';' {
        Some("SEMICOLON"@)
    } else if c == '!' {
        Some("EXCLAMATION"@)
    } else if c == '?' {
        Some("TERNARY"@)
    } else {
        None
    }
}

/// The tokens a single character makes outside a word: one delimiter token
/// holding the character, or none.
pub open spec fn delimiter_tokens(c: char) -> Seq<TokenModel> {
    match delimiter_type(c) {
        Some(t) => seq![TokenModel { token_type: t, value: seq![c] }],
        None => Seq::empty(),
    }
}

/// Adds the delimiter token for `c`, if `c` is a delimiter.
pub fn tokenize_delimiters(c: char, tokens: &mut TokensList)
    ensures
        final(tokens)@ == old(tokens)@ + delimiter_tokens(c),
{
    let kind: Option<&str> = match c {
        '\'' => Some("SINGLE_QUOTE"),
        '=' => Some("ASSIGNMENT"),
        '(' => Some("LPAREN"),
        ')' => Some("RPAREN"),
        '{' => Some("LBRACE"),
        '}' => Some("RBRACE"),
        '[' => Some("LSQUARE"),
        ']' => Some("RSQUARE"),
        '<' => Some("LANGLE"),
        '>' => Some("RANGLE"),
        '\\' => Some("BACKSLASH"),
        '/' => Some("FORWARDSLASH"),
        '.' => Some("DOT"),
        ':' => Some("COLON"),
        ';' => Some("SEMICOLON"),
        '!' => Some("EXCLAMATION"),
        '?' => Some("TERNARY"),
        _ => None,
    };
    match kind {
        Some(k) => {
            push_char_token(tokens, k, c);
        },
        None => {
            assert(tokens@ =~= old(tokens)@ + delimiter_tokens(c));
        },
    }
}


// ---------------------------------------------------------------------
// The lexer
// ---------------------------------------------------------------------

/// Whether `c` continues a word: a letter, a digit or `_`.
pub open spec fn word_char(c: char) -> bool {
    alphanumeric(c) || c == '_'
}

/// Where a word that continues at `j` ends: the first position from `j` on
/// whose character does not continue a word (or the end of the text).
pub open spec fn word_end(s: Seq<char>, j: int) -> int
    decreases s.len() - j,
{
    if j >= s.len() || !word_char(s[j]) {
        j
    } else {
        word_end(s, j + 1)
    }
}

/// The tokens read from position `i` on: whitespace is skipped; a letter or
/// `_` starts a word (a keyword or an identifier) that runs to `word_end`;
/// any other character makes a delimiter token or nothing.
pub open spec fn lex_from(s: Seq<char>, i: int) -> Seq<TokenModel>
    decreases s.len() - i,
{
    if i < 0 || i >= s.len() {
        Seq::empty()
    } else {
        let c = s[i];
        if white_space(c) {
            lex_from(s, i + 1)
        } else if alphabetic(c) || c == '_' {
            let j: int = word_end(s, i + 1);
            if j <= i || j > s.len() {
                Seq::empty()
            } else {
                seq![TokenModel { token_type: word_type(s.subrange(i, j)), value: s.subrange(i, j) }]
                    + lex_from(s, j)
            }
        } else {
            delimiter_tokens(c) + lex_from(s, i + 1)
        }
    }
}

/// The tokens of a piece of code.
pub open spec fn lex(s: Seq<char>) -> Seq<TokenModel> {
    lex_from(s, 0)
}

/// Reads the tokens of `code` and adds them to `tokens`.
pub fn tokenize_keywords(code: String, tokens: &mut TokensList)
    ensures
        final(tokens)@ == old(tokens)@ + lex(code@),
{
    let keywords = get_identifiers();
    let chars = chars_of(code.as_str());
    let ghost s = code@;
    let n: usize = chars.len();
    let mut i: usize = 0;
    while i < n
        invariant
            chars@ == s,
            n == s.len(),
            i <= n,
            pairs_view(keywords@) == keyword_table(),
            old(tokens)@ + lex(s) == tokens@ + lex_from(s, i as int),
        decreases n - i,
    {
        let c = chars[i];
        if is_whitespace(c) {
            i = i + 1;
            continue;
        }
        if is_alphabetic(c) || c == '_' {
            let mut word = String::new();
            push_char(&mut word, c);
            let mut j: usize = i + 1;
            assert(word@ =~= s.subrange(i as int, j as int));
            while j < n
                invariant
                    chars@ == s,
                    n == s.len(),
                    i < j <= n,
                    c == s[i as int],
                    word@ == s.subrange(i as int, j as int),
                    word_end(s, i + 1) == word_end(s, j as int),
                ensures
                    i < j <= n,
                    word@ == s.subrange(i as int, j as int),
                    word_end(s, i + 1) == j,
                decreases n - j,
            {
                let next_char = chars[j];
                if is_alphanumeric(next_char) || next_char == '_' {
                    push_char(&mut word, next_char);
                    assert(word@ =~= s.subrange(i as int, j + 1));
                    j = j + 1;
                } else {
                    break;
                }
            }
            let token_type = match find_keyword(&keywords, &word) {
                Some(kind) => String::from_str(kind),
                None => String::from_str("IDENTIFIER"),
            };
            assert(token_type@ == word_type(word@));
            let ghost t = TokenModel { token_type: token_type@, value: word@ };
            let ghost before = tokens@;
            assert(lex_from(s, i as int) == seq![t] + lex_from(s, j as int));
            tokens.0.push(Token::new(token_type, word));
            assert(tokens@ =~= before.push(t));
            assert(before + lex_from(s, i as int) =~= tokens@ + lex_from(s, j as int));
            i = j;
            continue;
        }
        tokenize_delimiters(c, tokens);
        i = i + 1;
    }
}

/// The tokens of a piece of code.
pub fn tokenize(code: String) -> (tokens: TokensList)
    ensures
        tokens@ == lex(code@),
{
    let mut tokens = TokensList::default();
    tokenize_keywords(code, &mut tokens);
    assert(tokens@ =~= lex(code@));
    tokens
}

/// Whether `v` is a non-empty piece of `s` lying at or after position `i`.
pub open spec fn piece_of(s: Seq<char>, i: int, v: Seq<char>) -> bool {
    exists|a: int, b: int| i <= a < b <= s.len() && v == s.subrange(a, b)
}

proof fn lemma_lex_from_pieces(s: Seq<char>, i: int)
    requires
        0 <= i,
    ensures
        forall|k: int|
            0 <= k < lex_from(s, i).len() ==> piece_of(s, i, #[trigger] lex_from(s, i)[k].value),
    decreases s.len() - i,
{
    if i < s.len() {
        let c = s[i];
        if white_space(c) {
            lemma_lex_from_pieces(s, i + 1);
            assert forall|k: int| 0 <= k < lex_from(s, i).len() implies piece_of(
                s,
                i,
                #[trigger] lex_from(s, i)[k].value,
            ) by {
                let v = lex_from(s, i + 1)[k].value;
                assert(piece_of(s, i + 1, v));
                let (a, b) = choose|a: int, b: int| i + 1 <= a < b <= s.len() && v == s.subrange(a, b);
                assert(i <= a < b <= s.len() && v == s.subrange(a, b));
            }
        } else if alphabetic(c) || c == '_' {
            let j = word_end(s, i + 1);
            if !(j <= i || j > s.len()) {
                lemma_lex_from_pieces(s, j);
                let head = seq![TokenModel { token_type: word_type(s.subrange(i, j)), value: s.subrange(i, j) }];
                assert forall|k: int| 0 <= k < lex_from(s, i).len() implies piece_of(
                    s,
                    i,
                    #[trigger] lex_from(s, i)[k].value,
                ) by {
                    if k == 0 {
                        assert(lex_from(s, i)[0].value == s.subrange(i, j));
                    } else {
                        assert(lex_from(s, i)[k] == lex_from(s, j)[k - 1]);
                        let v = lex_from(s, j)[k - 1].value;
                        assert(piece_of(s, j, v));
                        let (a, b) = choose|a: int, b: int| j <= a < b <= s.len() && v == s.subrange(a, b);
                        assert(i <= a < b <= s.len() && v == s.subrange(a, b));
                    }
                }
            }
        } else {
            lemma_lex_from_pieces(s, i + 1);
            let d = delimiter_tokens(c);
            assert forall|k: int| 0 <= k < lex_from(s, i).len() implies piece_of(
                s,
                i,
                #[trigger] lex_from(s, i)[k].value,
            ) by {
                if k < d.len() {
                    assert(d[k].value == seq![c]);
                    assert(seq![c] =~= s.subrange(i, i + 1));
                } else {
                    assert(lex_from(s, i)[k] == lex_from(s, i + 1)[k - d.len()]);
                    let v = lex_from(s, i + 1)[k - d.len()].value;
                    assert(piece_of(s, i + 1, v));
                    let (a, b) = choose|a: int, b: int| i + 1 <= a < b <= s.len() && v == s.subrange(a, b);
                    assert(i <= a < b <= s.len() && v == s.subrange(a, b));
                }
            }
        }
    }
}

/// Every token holds a non-empty piece of the code, exactly as it stands in
/// the code.
pub proof fn lemma_tokens_are_pieces_of_code(code: Seq<char>)
    ensures
        forall|k: int|
            0 <= k < lex(code).len() ==> piece_of(code, 0, #[trigger] lex(code)[k].value),
{
    lemma_lex_from_pieces(code, 0);
}

proof fn lemma_word_end_bounds(s: Seq<char>, j: int)
    requires
        0 <= j <= s.len(),
    ensures
        j <= word_end(s, j) <= s.len(),
    decreases s.len() - j,
{
    if !(j >= s.len() || !word_char(s[j])) {
        lemma_word_end_bounds(s, j + 1);
    }
}

proof fn lemma_word_end_suffix(p: Seq<char>, b: Seq<char>, j: int)
    requires
        0 <= j <= b.len(),
    ensures
        word_end(p + b, p.len() + j) == p.len() + word_end(b, j),
    decreases b.len() - j,
{
    let s = p + b;
    if j < b.len() {
        assert(s[p.len() + j] == b[j]);
        if word_char(b[j]) {
            lemma_word_end_suffix(p, b, j + 1);
        }
    }
}

proof fn lemma_lex_suffix(p: Seq<char>, b: Seq<char>, k: int)
    requires
        0 <= k <= b.len(),
    ensures
        lex_from(p + b, p.len() + k) == lex_from(b, k),
    decreases b.len() - k,
{
    let s = p + b;
    let m = p.len() as int;
    if k < b.len() {
        let c = b[k];
        assert(s[m + k] == c);
        if white_space(c) {
            lemma_lex_suffix(p, b, k + 1);
        } else if alphabetic(c) || c == '_' {
            lemma_word_end_suffix(p, b, k + 1);
            lemma_word_end_bounds(b, k + 1);
            let j = word_end(b, k + 1);
            assert(s.subrange(m + k, m + j) =~= b.subrange(k, j));
            lemma_lex_suffix(p, b, j);
        } else {
            lemma_lex_suffix(p, b, k + 1);
        }
    }
}

proof fn lemma_word_end_prefix(a: Seq<char>, b: Seq<char>, j: int)
    requires
        0 <= j <= a.len(),
    ensures
        word_end(a + seq![' '] + b, j) == word_end(a, j),
    decreases a.len() - j,
{
    let s = a + seq![' '] + b;
    if j < a.len() {
        assert(s[j] == a[j]);
        if word_char(a[j]) {
            lemma_word_end_prefix(a, b, j + 1);
        }
    } else {
        assert(s[j] == ' ');
        assert(!word_char(' '));
    }
}

proof fn lemma_lex_prefix(a: Seq<char>, b: Seq<char>, i: int)
    requires
        0 <= i <= a.len(),
    ensures
        lex_from(a + seq![' '] + b, i) == lex_from(a, i) + lex_from(
            a + seq![' '] + b,
            a.len() as int,
        ),
    decreases a.len() - i,
{
    let s = a + seq![' '] + b;
    let rest = lex_from(s, a.len() as int);
    if i == a.len() {
        assert(lex_from(a, i) =~= Seq::<TokenModel>::empty());
        assert(lex_from(a, i) + rest =~= rest);
    } else {
        let c = a[i];
        assert(s[i] == c);
        if white_space(c) {
            lemma_lex_prefix(a, b, i + 1);
        } else if alphabetic(c) || c == '_' {
            lemma_word_end_prefix(a, b, i + 1);
            lemma_word_end_bounds(a, i + 1);
            let j = word_end(a, i + 1);
            assert(s.subrange(i, j) =~= a.subrange(i, j));
            lemma_lex_prefix(a, b, j);
            let t = seq![TokenModel { token_type: word_type(a.subrange(i, j)), value: a.subrange(i, j) }];
            assert(t + (lex_from(a, j) + rest) =~= (t + lex_from(a, j)) + rest);
        } else {
            lemma_lex_prefix(a, b, i + 1);
            let d = delimiter_tokens(c);
            assert(d + (lex_from(a, i + 1) + rest) =~= (d + lex_from(a, i + 1)) + rest);
        }
    }
}

/// Two texts joined by a space lex to the tokens of the first followed by
/// the tokens of the second: the space ends any word and makes no token.
pub proof fn lemma_lex_space_concat(a: Seq<char>, b: Seq<char>)
    ensures
        lex(a + seq![' '] + b) == lex(a) + lex(b),
{
    let s = a + seq![' '] + b;
    lemma_lex_prefix(a, b, 0);
    assert(s[a.len() as int] == ' ');
    assert(white_space(' '));
    let p = a + seq![' '];
    assert(s =~= p + b);
    lemma_lex_suffix(p, b, 0);
    assert(lex_from(s, a.len() as int) == lex_from(s, a.len() as int + 1));
}

/// Whether every character of `w` is an ASCII letter.
pub open spec fn ascii_word(w: Seq<char>) -> bool {
    forall|i: int| 0 <= i < w.len() ==> ascii_letter(#[trigger] w[i])
}

proof fn lemma_word_end_letters(w: Seq<char>, j: int)
    requires
        ascii_word(w),
        0 <= j <= w.len(),
    ensures
        word_end(w, j) == w.len(),
    decreases w.len() - j,
{
    if j < w.len() {
        assert(ascii_letter(w[j]));
        lemma_word_end_letters(w, j + 1);
    }
}

/// A non-empty run of ASCII letters lexes as one word token.
pub proof fn lemma_letters_lex_as_one_word(w: Seq<char>)
    requires
        w.len() > 0,
        ascii_word(w),
    ensures
        lex(w) == seq![TokenModel { token_type: word_type(w), value: w }],
{
    assert(ascii_letter(w[0]));
    lemma_word_end_letters(w, 1);
    assert(w.subrange(0, w.len() as int) =~= w);
    assert(lex_from(w, w.len() as int) =~= Seq::<TokenModel>::empty());
    assert(seq![TokenModel { token_type: word_type(w), value: w }] + Seq::<TokenModel>::empty()
        =~= seq![TokenModel { token_type: word_type(w), value: w }]);
}

proof fn lemma_lookup_skip(t: Seq<(Seq<char>, Seq<char>)>, w: Seq<char>, j: int)
    requires
        0 <= j < t.len(),
        forall|i: int| 0 <= i < j ==> (#[trigger] t[i]).0 != w,
        t[j].0 == w,
    ensures
        lookup(t, w) == Some(t[j].1),
    decreases j,
{
    if j > 0 {
        assert(t[0].0 != w);
        let u = t.drop_first();
        assert forall|i: int| 0 <= i < j - 1 implies (#[trigger] u[i]).0 != w by {
            assert(u[i] == t[i + 1]);
        }
        lemma_lookup_skip(u, w, j - 1);
    }
}

proof fn lemma_word_type_let()
    ensures
        word_type("let"@) == "KEYWORD_DECLARATION"@,
{
    reveal_strlit("let");
    let t = keyword_table();
    lemma_lookup_skip(t, "let"@, 0);
}

proof fn lemma_word_type_function()
    ensures
        word_type("function"@) == "KEYWORD_FUNCTION"@,
{
    reveal_strlit("let");
    reveal_strlit("function");
    let t = keyword_table();
    assert(t[0].0 == "let"@);
    assert("let"@.len() != "function"@.len());
    assert(t[0].0 != "function"@);
    lemma_lookup_skip(t, "function"@, 1);
}

proof fn lemma_word_type_return()
    ensures
        word_type("return"@) == "KEYWORD_RETURN"@,
{
    reveal_strlit("let");
    reveal_strlit("function");
    reveal_strlit("return");
    let t = keyword_table();
    assert(t[0].0 == "let"@);
    assert("let"@.len() != "return"@.len());
    assert(t[0].0 != "return"@);
    assert(t[1].0 == "function"@);
    assert("function"@.len() != "return"@.len());
    assert(t[1].0 != "return"@);
    lemma_lookup_skip(t, "return"@, 2);
}

proof fn lemma_word_type_if()
    ensures
        word_type("if"@) == "KEYWORD_IF"@,
{
    reveal_strlit("let");
    reveal_strlit("function");
    reveal_strlit("return");
    reveal_strlit("if");
    let t = keyword_table();
    assert(t[0].0 == "let"@);
    assert("let"@.len() != "if"@.len());
    assert(t[0].0 != "if"@);
    assert(t[1].0 == "function"@);
    assert("function"@.len() != "if"@.len());
    assert(t[1].0 != "if"@);
    assert(t[2].0 == "return"@);
    assert("return"@.len() != "if"@.len());
    assert(t[2].0 != "if"@);
    lemma_lookup_skip(t, "if"@, 3);
}

proof fn lemma_word_type_else()
    ensures
        word_type("else"@) == "KEYWORD_ELSE"@,
{
    reveal_strlit("let");
    reveal_strlit("function");
    reveal_strlit("return");
    reveal_strlit("if");
    reveal_strlit("else");
    let t = keyword_table();
    assert(t[0].0 == "let"@);
    assert("let"@.len() != "else"@.len());
    assert(t[0].0 != "else"@);
    assert(t[1].0 == "function"@);
    assert("function"@.len() != "else"@.len());
    assert(t[1].0 != "else"@);
    assert(t[2].0 == "return"@);
    assert("return"@.len() != "else"@.len());
    assert(t[2].0 != "else"@);
    assert(t[3].0 == "if"@);
    assert("if"@.len() != "else"@.len());
    assert(t[3].0 != "else"@);
    lemma_lookup_skip(t, "else"@, 4);
}

proof fn lemma_word_type_else_if()
    ensures
        word_type("else if"@) == "KEYWORD_ELSEIF"@,
{
    reveal_strlit("let");
    reveal_strlit("function");
    reveal_strlit("return");
    reveal_strlit("if");
    reveal_strlit("else");
    reveal_strlit("else if");
    let t = keyword_table();
    assert(t[0].0 == "let"@);
    assert("let"@.len() != "else if"@.len());
    assert(t[0].0 != "else if"@);
    assert(t[1].0 == "function"@);
    assert("function"@.len() != "else if"@.len());
    assert(t[1].0 != "else if"@);
    assert(t[2].0 == "return"@);
    assert("return"@.len() != "else if"@.len());
    assert(t[2].0 != "else if"@);
    assert(t[3].0 == "if"@);
    assert("if"@.len() != "else if"@.len());
    assert(t[3].0 != "else if"@);
    assert(t[4].0 == "else"@);
    assert("else"@.len() != "else if"@.len());
    assert(t[4].0 != "else if"@);
    lemma_lookup_skip(t, "else if"@, 5);
}

proof fn lemma_word_type_for()
    ensures
        word_type("for"@) == "KEYWORD_FORLOOP"@,
{
    reveal_strlit("let");
    reveal_strlit("function");
    reveal_strlit("return");
    reveal_strlit("if");
    reveal_strlit("else");
    reveal_strlit("else if");
    reveal_strlit("for");
    let t = keyword_table();
    assert(t[0].0 == "let"@);
    assert("let"@[0] != "for"@[0]);
    assert(t[0].0 != "for"@);
    assert(t[1].0 == "function"@);
    assert("function"@.len() != "for"@.len());
    assert(t[1].0 != "for"@);
    assert(t[2].0 == "return"@);
    assert("return"@.len() != "for"@.len());
    assert(t[2].0 != "for"@);
    assert(t[3].0 == "if"@);
    assert("if"@.len() != "for"@.len());
    assert(t[3].0 != "for"@);
    assert(t[4].0 == "else"@);
    assert("else"@.len() != "for"@.len());
    assert(t[4].0 != "for"@);
    assert(t[5].0 == "else if"@);
    assert("else if"@.len() != "for"@.len());
    assert(t[5].0 != "for"@);
    lemma_lookup_skip(t, "for"@, 6);
}

proof fn lemma_word_type_while()
    ensures
        word_type("while"@) == "KEYWORD_WHILELOOP"@,
{
    reveal_strlit("let");
    reveal_strlit("function");
    reveal_strlit("return");
    reveal_strlit("if");
    reveal_strlit("else");
    reveal_strlit("else if");
    reveal_strlit("for");
    reveal_strlit("while");
    let t = keyword_table();
    assert(t[0].0 == "let"@);
    assert("let"@.len() != "while"@.len());
    assert(t[0].0 != "while"@);
    assert(t[1].0 == "function"@);
    assert("function"@.len() != "while"@.len());
    assert(t[1].0 != "while"@);
    assert(t[2].0 == "return"@);
    assert("return"@.len() != "while"@.len());
    assert(t[2].0 != "while"@);
    assert(t[3].0 == "if"@);
    assert("if"@.len() != "while"@.len());
    assert(t[3].0 != "while"@);
    assert(t[4].0 == "else"@);
    assert("else"@.len() != "while"@.len());
    assert(t[4].0 != "while"@);
    assert(t[5].0 == "else if"@);
    assert("else if"@.len() != "while"@.len());
    assert(t[5].0 != "while"@);
    assert(t[6].0 == "for"@);
    assert("for"@.len() != "while"@.len());
    assert(t[6].0 != "while"@);
    lemma_lookup_skip(t, "while"@, 7);
}

proof fn lemma_word_type_console()
    ensures
        word_type("console"@) == "KEYWORD_CONSOLE"@,
{
    reveal_strlit("let");
    reveal_strlit("function");
    reveal_strlit("return");
    reveal_strlit("if");
    reveal_strlit("else");
    reveal_strlit("else if");
    reveal_strlit("for");
    reveal_strlit("while");
    reveal_strlit("console");
    let t = keyword_table();
    assert(t[0].0 == "let"@);
    assert("let"@.len() != "console"@.len());
    assert(t[0].0 != "console"@);
    assert(t[1].0 == "function"@);
    assert("function"@.len() != "console"@.len());
    assert(t[1].0 != "console"@);
    assert(t[2].0 == "return"@);
    assert("return"@.len() != "console"@.len());
    assert(t[2].0 != "console"@);
    assert(t[3].0 == "if"@);
    assert("if"@.len() != "console"@.len());
    assert(t[3].0 != "console"@);
    assert(t[4].0 == "else"@);
    assert("else"@.len() != "console"@.len());
    assert(t[4].0 != "console"@);
    assert(t[5].0 == "else if"@);
    assert("else if"@[0] != "console"@[0]);
    assert(t[5].0 != "console"@);
    assert(t[6].0 == "for"@);
    assert("for"@.len() != "console"@.len());
    assert(t[6].0 != "console"@);
    assert(t[7].0 == "while"@);
    assert("while"@.len() != "console"@.len());
    assert(t[7].0 != "console"@);
    lemma_lookup_skip(t, "console"@, 8);
}

proof fn lemma_word_type_log()
    ensures
        word_type("log"@) == "KEYWORD_LOG"@,
{
    reveal_strlit("let");
    reveal_strlit("function");
    reveal_strlit("return");
    reveal_strlit("if");
    reveal_strlit("else");
    reveal_strlit("else if");
    reveal_strlit("for");
    reveal_strlit("while");
    reveal_strlit("console");
    reveal_strlit("log");
    let t = keyword_table();
    assert(t[0].0 == "let"@);
    assert("let"@[1] != "log"@[1]);
    assert(t[0].0 != "log"@);
    assert(t[1].0 == "function"@);
    assert("function"@.len() != "log"@.len());
    assert(t[1].0 != "log"@);
    assert(t[2].0 == "return"@);
    assert("return"@.len() != "log"@.len());
    assert(t[2].0 != "log"@);
    assert(t[3].0 == "if"@);
    assert("if"@.len() != "log"@.len());
    assert(t[3].0 != "log"@);
    assert(t[4].0 == "else"@);
    assert("else"@.len() != "log"@.len());
    assert(t[4].0 != "log"@);
    assert(t[5].0 == "else if"@);
    assert("else if"@.len() != "log"@.len());
    assert(t[5].0 != "log"@);
    assert(t[6].0 == "for"@);
    assert("for"@[0] != "log"@[0]);
    assert(t[6].0 != "log"@);
    assert(t[7].0 == "while"@);
    assert("while"@.len() != "log"@.len());
    assert(t[7].0 != "log"@);
    assert(t[8].0 == "console"@);
    assert("console"@.len() != "log"@.len());
    assert(t[8].0 != "log"@);
    lemma_lookup_skip(t, "log"@, 9);
}

proof fn lemma_word_type_warn()
    ensures
        word_type("warn"@) == "KEYWORD_WARN"@,
{
    reveal_strlit("let");
    reveal_strlit("function");
    reveal_strlit("return");
    reveal_strlit("if");
    reveal_strlit("else");
    reveal_strlit("else if");
    reveal_strlit("for");
    reveal_strlit("while");
    reveal_strlit("console");
    reveal_strlit("log");
    reveal_strlit("warn");
    let t = keyword_table();
    assert(t[0].0 == "let"@);
    assert("let"@.len() != "warn"@.len());
    assert(t[0].0 != "warn"@);
    assert(t[1].0 == "function"@);
    assert("function"@.len() != "warn"@.len());
    assert(t[1].0 != "warn"@);
    assert(t[2].0 == "return"@);
    assert("return"@.len() != "warn"@.len());
    assert(t[2].0 != "warn"@);
    assert(t[3].0 == "if"@);
    assert("if"@.len() != "warn"@.len());
    assert(t[3].0 != "warn"@);
    assert(t[4].0 == "else"@);
    assert("else"@[0] != "warn"@[0]);
    assert(t[4].0 != "warn"@);
    assert(t[5].0 == "else if"@);
    assert("else if"@.len() != "warn"@.len());
    assert(t[5].0 != "warn"@);
    assert(t[6].0 == "for"@);
    assert("for"@.len() != "warn"@.len());
    assert(t[6].0 != "warn"@);
    assert(t[7].0 == "while"@);
    assert("while"@.len() != "warn"@.len());
    assert(t[7].0 != "warn"@);
    assert(t[8].0 == "console"@);
    assert("console"@.len() != "warn"@.len());
    assert(t[8].0 != "warn"@);
    assert(t[9].0 == "log"@);
    assert("log"@.len() != "warn"@.len());
    assert(t[9].0 != "warn"@);
    lemma_lookup_skip(t, "warn"@, 10);
}

proof fn lemma_word_type_new()
    ensures
        word_type("new"@) == "KEYWORD_NEW"@,
{
    reveal_strlit("let");
    reveal_strlit("function");
    reveal_strlit("return");
    reveal_strlit("if");
    reveal_strlit("else");
    reveal_strlit("else if");
    reveal_strlit("for");
    reveal_strlit("while");
    reveal_strlit("console");
    reveal_strlit("log");
    reveal_strlit("warn");
    reveal_strlit("new");
    let t = keyword_table();
    assert(t[0].0 == "let"@);
    assert("let"@[0] != "new"@[0]);
    assert(t[0].0 != "new"@);
    assert(t[1].0 == "function"@);
    assert("function"@.len() != "new"@.len());
    assert(t[1].0 != "new"@);
    assert(t[2].0 == "return"@);
    assert("return"@.len() != "new"@.len());
    assert(t[2].0 != "new"@);
    assert(t[3].0 == "if"@);
    assert("if"@.len() != "new"@.len());
    assert(t[3].0 != "new"@);
    assert(t[4].0 == "else"@);
    assert("else"@.len() != "new"@.len());
    assert(t[4].0 != "new"@);
    assert(t[5].0 == "else if"@);
    assert("else if"@.len() != "new"@.len());
    assert(t[5].0 != "new"@);
    assert(t[6].0 == "for"@);
    assert("for"@[0] != "new"@[0]);
    assert(t[6].0 != "new"@);
    assert(t[7].0 == "while"@);
    assert("while"@.len() != "new"@.len());
    assert(t[7].0 != "new"@);
    assert(t[8].0 == "console"@);
    assert("console"@.len() != "new"@.len());
    assert(t[8].0 != "new"@);
    assert(t[9].0 == "log"@);
    assert("log"@[0] != "new"@[0]);
    assert(t[9].0 != "new"@);
    assert(t[10].0 == "warn"@);
    assert("warn"@.len() != "new"@.len());
    assert(t[10].0 != "new"@);
    lemma_lookup_skip(t, "new"@, 11);
}

proof fn lemma_word_type_throw()
    ensures
        word_type("throw"@) == "KEYWORD_THROW"@,
{
    reveal_strlit("let");
    reveal_strlit("function");
    reveal_strlit("return");
    reveal_strlit("if");
    reveal_strlit("else");
    reveal_strlit("else if");
    reveal_strlit("for");
    reveal_strlit("while");
    reveal_strlit("console");
    reveal_strlit("log");
    reveal_strlit("warn");
    reveal_strlit("new");
    reveal_strlit("throw");
    let t = keyword_table();
    assert(t[0].0 == "let"@);
    assert("let"@.len() != "throw"@.len());
    assert(t[0].0 != "throw"@);
    assert(t[1].0 == "function"@);
    assert("function"@.len() != "throw"@.len());
    assert(t[1].0 != "throw"@);
    assert(t[2].0 == "return"@);
    assert("return"@.len() != "throw"@.len());
    assert(t[2].0 != "throw"@);
    assert(t[3].0 == "if"@);
    assert("if"@.len() != "throw"@.len());
    assert(t[3].0 != "throw"@);
    assert(t[4].0 == "else"@);
    assert("else"@.len() != "throw"@.len());
    assert(t[4].0 != "throw"@);
    assert(t[5].0 == "else if"@);
    assert("else if"@.len() != "throw"@.len());
    assert(t[5].0 != "throw"@);
    assert(t[6].0 == "for"@);
    assert("for"@.len() != "throw"@.len());
    assert(t[6].0 != "throw"@);
    assert(t[7].0 == "while"@);
    assert("while"@[0] != "throw"@[0]);
    assert(t[7].0 != "throw"@);
    assert(t[8].0 == "console"@);
    assert("console"@.len() != "throw"@.len());
    assert(t[8].0 != "throw"@);
    assert(t[9].0 == "log"@);
    assert("log"@.len() != "throw"@.len());
    assert(t[9].0 != "throw"@);
    assert(t[10].0 == "warn"@);
    assert("warn"@.len() != "throw"@.len());
    assert(t[10].0 != "throw"@);
    assert(t[11].0 == "new"@);
    assert("new"@.len() != "throw"@.len());
    assert(t[11].0 != "throw"@);
    lemma_lookup_skip(t, "throw"@, 12);
}

proof fn lemma_word_type_error()
    ensures
        word_type("error"@) == "KEYWORD_ERROR"@,
{
    reveal_strlit("let");
    reveal_strlit("function");
    reveal_strlit("return");
    reveal_strlit("if");
    reveal_strlit("else");
    reveal_strlit("else if");
    reveal_strlit("for");
    reveal_strlit("while");
    reveal_strlit("console");
    reveal_strlit("log");
    reveal_strlit("warn");
    reveal_strlit("new");
    reveal_strlit("throw");
    reveal_strlit("error");
    let t = keyword_table();
    assert(t[0].0 == "let"@);
    assert("let"@.len() != "error"@.len());
    assert(t[0].0 != "error"@);
    assert(t[1].0 == "function"@);
    assert("function"@.len() != "error"@.len());
    assert(t[1].0 != "error"@);
    assert(t[2].0 == "return"@);
    assert("return"@.len() != "error"@.len());
    assert(t[2].0 != "error"@);
    assert(t[3].0 == "if"@);
    assert("if"@.len() != "error"@.len());
    assert(t[3].0 != "error"@);
    assert(t[4].0 == "else"@);
    assert("else"@.len() != "error"@.len());
    assert(t[4].0 != "error"@);
    assert(t[5].0 == "else if"@);
    assert("else if"@.len() != "error"@.len());
    assert(t[5].0 != "error"@);
    assert(t[6].0 == "for"@);
    assert("for"@.len() != "error"@.len());
    assert(t[6].0 != "error"@);
    assert(t[7].0 == "while"@);
    assert("while"@[0] != "error"@[0]);
    assert(t[7].0 != "error"@);
    assert(t[8].0 == "console"@);
    assert("console"@.len() != "error"@.len());
    assert(t[8].0 != "error"@);
    assert(t[9].0 == "log"@);
    assert("log"@.len() != "error"@.len());
    assert(t[9].0 != "error"@);
    assert(t[10].0 == "warn"@);
    assert("warn"@.len() != "error"@.len());
    assert(t[10].0 != "error"@);
    assert(t[11].0 == "new"@);
    assert("new"@.len() != "error"@.len());
    assert(t[11].0 != "error"@);
    assert(t[12].0 == "throw"@);
    assert("throw"@[0] != "error"@[0]);
    assert(t[12].0 != "error"@);
    lemma_lookup_skip(t, "error"@, 13);
}

/// The keyword table gives each keyword its own kind.
proof fn lemma_keyword_word_types()
    ensures
        word_type("let"@) == "KEYWORD_DECLARATION"@,
        word_type("function"@) == "KEYWORD_FUNCTION"@,
        word_type("return"@) == "KEYWORD_RETURN"@,
        word_type("if"@) == "KEYWORD_IF"@,
        word_type("else"@) == "KEYWORD_ELSE"@,
        word_type("else if"@) == "KEYWORD_ELSEIF"@,
        word_type("for"@) == "KEYWORD_FORLOOP"@,
        word_type("while"@) == "KEYWORD_WHILELOOP"@,
        word_type("console"@) == "KEYWORD_CONSOLE"@,
        word_type("log"@) == "KEYWORD_LOG"@,
        word_type("warn"@) == "KEYWORD_WARN"@,
        word_type("new"@) == "KEYWORD_NEW"@,
        word_type("throw"@) == "KEYWORD_THROW"@,
        word_type("error"@) == "KEYWORD_ERROR"@,
{
    lemma_word_type_let();
    lemma_word_type_function();
    lemma_word_type_return();
    lemma_word_type_if();
    lemma_word_type_else();
    lemma_word_type_else_if();
    lemma_word_type_for();
    lemma_word_type_while();
    lemma_word_type_console();
    lemma_word_type_log();
    lemma_word_type_warn();
    lemma_word_type_new();
    lemma_word_type_throw();
    lemma_word_type_error();
}

/// Each keyword lexes to one token of its own kind, and `else if` to the
/// two tokens `else` and `if` (a word never holds a space).
pub proof fn lemma_keywords_lex_to_their_kinds()
    ensures
        lex("let"@) == seq![TokenModel { token_type: "KEYWORD_DECLARATION"@, value: "let"@ }],
        lex("function"@) == seq![TokenModel { token_type: "KEYWORD_FUNCTION"@, value: "function"@ }],
        lex("return"@) == seq![TokenModel { token_type: "KEYWORD_RETURN"@, value: "return"@ }],
        lex("if"@) == seq![TokenModel { token_type: "KEYWORD_IF"@, value: "if"@ }],
        lex("else"@) == seq![TokenModel { token_type: "KEYWORD_ELSE"@, value: "else"@ }],
        lex("for"@) == seq![TokenModel { token_type: "KEYWORD_FORLOOP"@, value: "for"@ }],
        lex("while"@) == seq![TokenModel { token_type: "KEYWORD_WHILELOOP"@, value: "while"@ }],
        lex("console"@) == seq![TokenModel { token_type: "KEYWORD_CONSOLE"@, value: "console"@ }],
        lex("log"@) == seq![TokenModel { token_type: "KEYWORD_LOG"@, value: "log"@ }],
        lex("warn"@) == seq![TokenModel { token_type: "KEYWORD_WARN"@, value: "warn"@ }],
        lex("new"@) == seq![TokenModel { token_type: "KEYWORD_NEW"@, value: "new"@ }],
        lex("throw"@) == seq![TokenModel { token_type: "KEYWORD_THROW"@, value: "throw"@ }],
        lex("error"@) == seq![TokenModel { token_type: "KEYWORD_ERROR"@, value: "error"@ }],
        lex("else if"@) == seq![
            TokenModel { token_type: "KEYWORD_ELSE"@, value: "else"@ },
            TokenModel { token_type: "KEYWORD_IF"@, value: "if"@ },
        ],
{
    lemma_keyword_word_types();
    reveal_strlit("let");
    reveal_strlit("function");
    reveal_strlit("return");
    reveal_strlit("if");
    reveal_strlit("else");
    reveal_strlit("for");
    reveal_strlit("while");
    reveal_strlit("console");
    reveal_strlit("log");
    reveal_strlit("warn");
    reveal_strlit("new");
    reveal_strlit("throw");
    reveal_strlit("error");
    reveal_strlit("else if");
    lemma_letters_lex_as_one_word("let"@);
    lemma_letters_lex_as_one_word("function"@);
    lemma_letters_lex_as_one_word("return"@);
    lemma_letters_lex_as_one_word("if"@);
    lemma_letters_lex_as_one_word("else"@);
    lemma_letters_lex_as_one_word("for"@);
    lemma_letters_lex_as_one_word("while"@);
    lemma_letters_lex_as_one_word("console"@);
    lemma_letters_lex_as_one_word("log"@);
    lemma_letters_lex_as_one_word("warn"@);
    lemma_letters_lex_as_one_word("new"@);
    lemma_letters_lex_as_one_word("throw"@);
    lemma_letters_lex_as_one_word("error"@);
    assert("else if"@ =~= "else"@ + seq![' '] + "if"@);
    lemma_lex_space_concat("else"@, "if"@);
}

} // verus!
