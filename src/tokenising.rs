//! Scanner that turns source text into tokens, capturing the matched text only
//! for the kinds whose lexeme the kind alone does not determine.

use vstd::prelude::*;
use vstd::string::*;

verus! {

/// The kinds of token the scanner produces.
#[derive(Debug, Clone, Copy, PartialEq, Eq, Structural)]
pub enum Token {
    Using,
    Binder,
    Tighter,
    LParen,
    RParen,
    LBracket,
    RBracket,
    LBrace,
    RBrace,
    Exclaimation,
    PatternAt,
    HashTag,
    DollarSign,
    Modulo,
    UpperArrow,
    Ampersand,
    Asterisk,
    Plus,
    Minus,
    EqualSign,
    Underscore,
    /// A run of operator characters.
    Symbols,
    Identifier,
    Number,
    /// A quoted string; the captured text has its quotes stripped.
    String,
    Whitespace,
    WhitespaceTab,
    Newline,
    /// A run of two or more spaces.
    Whitespaces,
    /// A run of two or more tabs.
    WhitespaceTabs,
    /// A run of two or more newlines.
    Newlines,
    /// Input that no rule matches.
    Error,
}

/// A token kind together with the text captured for it, if any.
pub type TokenCluster = (Token, Option<String>);

/// A token as a mathematical value: its kind and the captured characters.
pub type TokenView = (Token, Option<Seq<char>>);

/// The kinds that carry their matched text.
pub open spec fn needs_capture(k: Token) -> bool {
    k == Token::Identifier || k == Token::Symbols || k == Token::String || k == Token::Whitespaces
}

/// A token carries text exactly when its kind is one that captures.
pub open spec fn well_shaped(t: TokenView) -> bool {
    needs_capture(t.0) <==> t.1.is_some()
}

pub open spec fn cluster_view(t: TokenCluster) -> TokenView {
    (
        t.0,
        match t.1 {
            Some(s) => Some(s@),
            None => None,
        },
    )
}

/// The operator alphabet of symbol runs.
pub open spec fn is_symbol_char(c: char) -> bool {
    c == '<' || c == '+' || c == '-' || c == '>' || c == '!' || c == '@' || c == '#' || c == '%'
        || c == '&' || c == '=' || c == '*'
}

pub open spec fn is_digit(c: char) -> bool {
    '0' <= c && c <= '9'
}

pub open spec fn is_letter(c: char) -> bool {
    ('a' <= c && c <= 'z') || ('A' <= c && c <= 'Z')
}

/// Character classes whose runs form a single token.
#[derive(Debug, Clone, Copy, PartialEq, Eq, Structural)]
pub enum CharClass {
    IdentTail,
    NumberTail,
    Symbol,
    Space,
    Tab,
    Newline,
}

pub open spec fn in_class(c: char, cls: CharClass) -> bool {
    match cls {
        CharClass::IdentTail => c == '_' || is_letter(c) || is_digit(c),
        CharClass::NumberTail => c == '_' || is_digit(c),
        CharClass::Symbol => is_symbol_char(c),
        CharClass::Space => c == ' ',
        CharClass::Tab => c == '\t',
        CharClass::Newline => c == '\n',
    }
}

/// Index just past the run of characters of class `cls` that starts at `i`.
pub open spec fn run_end(s: Seq<char>, i: int, cls: CharClass) -> int
    decreases s.len() - i,
{
    if 0 <= i < s.len() && in_class(s[i], cls) {
        run_end(s, i + 1, cls)
    } else {
        i
    }
}

/// Index just past the closing quote `q` of a quoted string whose body starts at
/// `i`, where a backslash escapes the character after it; -1 if the string is
/// not closed.
pub open spec fn quoted_end(s: Seq<char>, q: char, i: int) -> int
    decreases s.len() - i,
{
    if i < 0 || i >= s.len() {
        -1
    } else if s[i] == q {
        i + 1
    } else if s[i] == '\\' {
        if i + 1 < s.len() {
            quoted_end(s, q, i + 2)
        } else {
            -1
        }
    } else {
        quoted_end(s, q, i + 1)
    }
}

/// The kind of a word made of identifier characters.
pub open spec fn word_kind(w: Seq<char>) -> Token {
    if w == seq!['u', 's', 'e'] {
        Token::Using
    } else if w == seq!['b', 'i', 'n', 'd'] {
        Token::Binder
    } else if w == seq!['t', 'i', 'g', 'h', 't', 'e', 'r'] {
        Token::Tighter
    } else if w == seq!['_'] {
        Token::Underscore
    } else {
        Token::Identifier
    }
}

/// The kind of a one-character token.
pub open spec fn single_kind(c: char) -> Token {
    if c == '(' {
        Token::LParen
    } else if c == ')' {
        Token::RParen
    } else if c == '[' {
        Token::LBracket
    } else if c == ']' {
        Token::RBracket
    } else if c == '{' {
        Token::LBrace
    } else if c == '}' {
        Token::RBrace
    } else if c == '!' {
        Token::Exclaimation
    } else if c == '@' {
        Token::PatternAt
    } else if c == '#' {
        Token::HashTag
    } else if c == '$' {
        Token::DollarSign
    } else if c == '%' {
        Token::Modulo
    } else if c == '^' {
        Token::UpperArrow
    } else if c == '&' {
        Token::Ampersand
    } else if c == '*' {
        Token::Asterisk
    } else if c == '+' {
        Token::Plus
    } else if c == '-' {
        Token::Minus
    } else if c == '=' {
        Token::EqualSign
    } else if c == '<' || c == '>' {
        Token::Symbols
    } else {
        Token::Error
    }
}

/// The longest match at the start of a non-empty `s`: its kind and its length.
/// A one-character match that has a kind of its own takes that kind.
pub open spec fn scan(s: Seq<char>) -> (Token, int) {
    let c = s[0];
    if c == '_' || is_letter(c) {
        let e = run_end(s, 1, CharClass::IdentTail);
        (word_kind(s.subrange(0, e)), e)
    } else if is_digit(c) {
        (Token::Number, run_end(s, 1, CharClass::NumberTail))
    } else if c == '"' || c == '\'' {
        let e = quoted_end(s, c, 1);
        if e < 0 {
            (Token::Error, 1)
        } else {
            (Token::String, e)
        }
    } else if c == ' ' {
        let e = run_end(s, 1, CharClass::Space);
        if e == 1 {
            (Token::Whitespace, 1)
        } else {
            (Token::Whitespaces, e)
        }
    } else if c == '\t' {
        let e = run_end(s, 1, CharClass::Tab);
        if e == 1 {
            (Token::WhitespaceTab, 1)
        } else {
            (Token::WhitespaceTabs, e)
        }
    } else if c == '\n' {
        let e = run_end(s, 1, CharClass::Newline);
        if e == 1 {
            (Token::Newline, 1)
        } else {
            (Token::Newlines, e)
        }
    } else if is_symbol_char(c) {
        let e = run_end(s, 1, CharClass::Symbol);
        if e == 1 {
            (single_kind(c), 1)
        } else {
            (Token::Symbols, e)
        }
    } else {
        (single_kind(c), 1)
    }
}

/// The text a token of kind `k` matched as the first `n` characters of `s`
/// captures: the match with its quotes stripped for a string, the match itself
/// for the other capturing kinds, nothing otherwise.
pub open spec fn captured(s: Seq<char>, k: Token, n: int) -> Option<Seq<char>> {
    if k == Token::String {
        Some(s.subrange(1, n - 1))
    } else if needs_capture(k) {
        Some(s.subrange(0, n))
    } else {
        None
    }
}

/// The first token of a non-empty `s`.
pub open spec fn first_token(s: Seq<char>) -> TokenView {
    (scan(s).0, captured(s, scan(s).0, scan(s).1))
}

/// The tokens of `s`, in order.
pub open spec fn scan_all(s: Seq<char>) -> Seq<TokenView>
    decreases s.len(),
{
    if s.len() == 0 {
        seq![]
    } else {
        let n = scan(s).1;
        if 1 <= n <= s.len() {
            seq![first_token(s)] + scan_all(s.subrange(n, s.len() as int))
        } else {
            seq![]
        }
    }
}

/// The source text a token stands for, rebuilt from its kind where the kind
/// fixes it and from its captured text otherwise; a string is taken to have
/// been double-quoted. Empty for the kinds whose text is neither fixed nor
/// captured.
pub open spec fn lexeme_of(t: TokenView) -> Seq<char> {
    let text = match t.1 {
        Some(x) => x,
        None => seq![],
    };
    match t.0 {
        Token::Using => seq!['u', 's', 'e'],
        Token::Binder => seq!['b', 'i', 'n', 'd'],
        Token::Tighter => seq!['t', 'i', 'g', 'h', 't', 'e', 'r'],
        Token::LParen => seq!['('],
        Token::RParen => seq![')'],
        Token::LBracket => seq!['['],
        Token::RBracket => seq![']'],
        Token::LBrace => seq!['{'],
        Token::RBrace => seq!['}'],
        Token::Exclaimation => seq!['!'],
        Token::PatternAt => seq!['@'],
        Token::HashTag => seq!['#'],
        Token::DollarSign => seq!['$'],
        Token::Modulo => seq!['%'],
        Token::UpperArrow => seq!['^'],
        Token::Ampersand => seq!['&'],
        Token::Asterisk => seq!['*'],
        Token::Plus => seq!['+'],
        Token::Minus => seq!['-'],
        Token::EqualSign => seq!['='],
        Token::Underscore => seq!['_'],
        Token::Symbols => text,
        Token::Identifier => text,
        Token::String => seq!['"'] + text + seq!['"'],
        Token::Whitespace => seq![' '],
        Token::WhitespaceTab => seq!['\t'],
        Token::Newline => seq!['\n'],
        Token::Whitespaces => text,
        _ => seq![],
    }
}

/// The text rebuilt from a sequence of tokens.
pub open spec fn rebuilt(ts: Seq<TokenView>) -> Seq<char>
    decreases ts.len(),
{
    if ts.len() == 0 {
        seq![]
    } else {
        lexeme_of(ts[0]) + rebuilt(ts.drop_first())
    }
}

/// Whether `lexeme_of` gives back the source text of a token whose match
/// starts `s`: its kind fixes or captures its text, and a string is
/// double-quoted.
pub open spec fn rebuildable_at(s: Seq<char>) -> bool {
    let k = scan(s).0;
    &&& k != Token::Number
    &&& k != Token::WhitespaceTabs
    &&& k != Token::Newlines
    &&& k != Token::Error
    &&& k == Token::String ==> s[0] == '"'
}

/// Each rebuildable token gives back exactly the characters it matched.
pub proof fn lemma_first_lexeme(s: Seq<char>)
    requires
        s.len() > 0,
        rebuildable_at(s),
    ensures
        lexeme_of(first_token(s)) == s.subrange(0, scan(s).1),
{
    lemma_scan_bounds(s);
    lemma_quoted_end_bounds(s, s[0], 1);
    let n = scan(s).1;
    let k = scan(s).0;
    if k == Token::String {
        assert(s.subrange(0, n) =~= seq!['"'] + s.subrange(1, n - 1) + seq!['"']);
    } else if k == Token::Using || k == Token::Binder || k == Token::Tighter || k
        == Token::Underscore {
        assert(s.subrange(0, n) == s.subrange(0, run_end(s, 1, CharClass::IdentTail)));
    } else if !needs_capture(k) {
        assert(n == 1);
        assert(s.subrange(0, n) =~= seq![s[0]]);
    }
}

/// Whether every token of `s` is rebuildable.
pub open spec fn all_rebuildable(s: Seq<char>) -> bool
    decreases s.len(),
{
    if s.len() == 0 {
        true
    } else {
        let n = scan(s).1;
        if 1 <= n <= s.len() {
            rebuildable_at(s) && all_rebuildable(s.subrange(n, s.len() as int))
        } else {
            false
        }
    }
}

/// For an input on which every token is rebuildable, putting back together
/// the text of each token in order gives the input again.
pub proof fn lemma_lexer_coverage(s: Seq<char>)
    requires
        all_rebuildable(s),
    ensures
        rebuilt(scan_all(s)) == s,
    decreases s.len(),
{
    if s.len() > 0 {
        lemma_scan_bounds(s);
        let n = scan(s).1;
        let rest = s.subrange(n, s.len() as int);
        lemma_first_lexeme(s);
        lemma_lexer_coverage(rest);
        let ts = scan_all(s);
        assert(ts[0] == first_token(s));
        assert(ts.drop_first() =~= scan_all(rest));
        assert(s =~= s.subrange(0, n) + rest);
    }
}

proof fn lemma_run_end_bounds(s: Seq<char>, i: int, cls: CharClass)
    requires
        0 <= i <= s.len(),
    ensures
        i <= run_end(s, i, cls) <= s.len(),
        forall|k: int| i <= k < run_end(s, i, cls) ==> in_class(#[trigger] s[k], cls),
    decreases s.len() - i,
{
    if i < s.len() && in_class(s[i], cls) {
        lemma_run_end_bounds(s, i + 1, cls);
    }
}

proof fn lemma_quoted_end_bounds(s: Seq<char>, q: char, i: int)
    requires
        0 <= i,
    ensures
        quoted_end(s, q, i) == -1 || i + 1 <= quoted_end(s, q, i) <= s.len(),
        quoted_end(s, q, i) != -1 ==> s[quoted_end(s, q, i) - 1] == q,
    decreases s.len() - i,
{
    if i < s.len() && s[i] != q {
        if s[i] == '\\' {
            if i + 1 < s.len() {
                lemma_quoted_end_bounds(s, q, i + 2);
            }
        } else {
            lemma_quoted_end_bounds(s, q, i + 1);
        }
    }
}

/// Every scan step consumes at least one character and stays within the input.
pub proof fn lemma_scan_bounds(s: Seq<char>)
    requires
        s.len() > 0,
    ensures
        1 <= scan(s).1 <= s.len(),
        scan(s).0 == Token::String ==> scan(s).1 >= 2,
{
    lemma_run_end_bounds(s, 1, CharClass::IdentTail);
    lemma_run_end_bounds(s, 1, CharClass::NumberTail);
    lemma_run_end_bounds(s, 1, CharClass::Symbol);
    lemma_run_end_bounds(s, 1, CharClass::Space);
    lemma_run_end_bounds(s, 1, CharClass::Tab);
    lemma_run_end_bounds(s, 1, CharClass::Newline);
    lemma_quoted_end_bounds(s, s[0], 1);
}

/// Every token of every input carries text exactly when its kind captures.
pub proof fn lemma_scan_all_well_shaped(s: Seq<char>)
    ensures
        forall|i: int| 0 <= i < scan_all(s).len() ==> well_shaped(#[trigger] scan_all(s)[i]),
    decreases s.len(),
{
    if s.len() > 0 {
        lemma_scan_bounds(s);
        let n = scan(s).1;
        lemma_scan_all_well_shaped(s.subrange(n, s.len() as int));
        assert forall|i: int| 0 <= i < scan_all(s).len() implies well_shaped(
            #[trigger] scan_all(s)[i],
        ) by {
            if i > 0 {
                assert(scan_all(s)[i] == scan_all(s.subrange(n, s.len() as int))[i - 1]);
            }
        }
    }
}


fn class_has(c: char, cls: CharClass) -> (r: bool)
    ensures
        r == in_class(c, cls),
{
    match cls {
        CharClass::IdentTail => c == '_' || ('a' <= c && c <= 'z') || ('A' <= c && c <= 'Z') || (
        '0' <= c && c <= '9'),
        CharClass::NumberTail => c == '_' || ('0' <= c && c <= '9'),
        CharClass::Symbol => c == '<' || c == '+' || c == '-' || c == '>' || c == '!' || c == '@'
            || c == '#' || c == '%' || c == '&' || c == '=' || c == '*',
        CharClass::Space => c == ' ',
        CharClass::Tab => c == '\t',
        CharClass::Newline => c == '\n',
    }
}

fn kind_of_single(c: char) -> (r: Token)
    ensures
        r == single_kind(c),
{
    if c == '(' {
        Token::LParen
    } else if c == ')' {
        Token::RParen
    } else if c == '[' {
        Token::LBracket
    } else if c == ']' {
        Token::RBracket
    } else if c == '{' {
        Token::LBrace
    } else if c == '}' {
        Token::RBrace
    } else if c == '!' {
        Token::Exclaimation
    } else if c == '@' {
        Token::PatternAt
    } else if c == '#' {
        Token::HashTag
    } else if c == '$' {
        Token::DollarSign
    } else if c == '%' {
        Token::Modulo
    } else if c == '^' {
        Token::UpperArrow
    } else if c == '&' {
        Token::Ampersand
    } else if c == '*' {
        Token::Asterisk
    } else if c == '+' {
        Token::Plus
    } else if c == '-' {
        Token::Minus
    } else if c == '=' {
        Token::EqualSign
    } else if c == '<' || c == '>' {
        Token::Symbols
    } else {
        Token::Error
    }
}

/// Whether `chars[from..to]` spells `word`.
fn spells(chars: &Vec<char>, from: usize, to: usize, word: &str) -> (r: bool)
    requires
        from <= to <= chars.len(),
    ensures
        r == (chars@.subrange(from as int, to as int) == word@),
{
    let n = word.unicode_len();
    if to - from != n {
        return false;
    }
    let mut k: usize = 0;
    while k < n
        invariant
            n == word@.len(),
            to - from == n,
            from <= to <= chars.len(),
            k <= n,
            forall|j: int| 0 <= j < k ==> chars@[from + j] == word@[j],
        decreases n - k,
    {
        if chars[from + k] != word.get_char(k) {
            return false;
        }
        k = k + 1;
    }
    assert(chars@.subrange(from as int, to as int) =~= word@);
    true
}

/// Index just past the run of class `cls` in `chars` that starts at `from`.
fn run_end_at(chars: &Vec<char>, pos: usize, from: usize, cls: CharClass) -> (e: usize)
    requires
        pos < from <= chars.len(),
    ensures
        e - pos == run_end(chars@.subrange(pos as int, chars@.len() as int), from - pos, cls),
        from <= e <= chars.len(),
{
    let ghost s = chars@.subrange(pos as int, chars@.len() as int);
    let mut j = from;
    while j < chars.len() && class_has(chars[j], cls)
        invariant
            pos < from <= j <= chars.len(),
            s == chars@.subrange(pos as int, chars@.len() as int),
            run_end(s, j - pos, cls) == run_end(s, from - pos, cls),
        decreases chars.len() - j,
    {
        j = j + 1;
    }
    j
}

/// Index just past the closing quote `q` of the string whose body starts at
/// `from`, if the string is closed.
fn quoted_end_at(chars: &Vec<char>, pos: usize, q: char) -> (e: Option<usize>)
    requires
        pos < chars.len(),
    ensures
        match e {
            Some(e) => e - pos == quoted_end(chars@.subrange(pos as int, chars@.len() as int), q, 1)
                && pos < e <= chars.len(),
            None => quoted_end(chars@.subrange(pos as int, chars@.len() as int), q, 1) == -1,
        },
{
    let ghost s = chars@.subrange(pos as int, chars@.len() as int);
    let mut j = pos + 1;
    loop
        invariant
            pos < j <= chars.len() + 1,
            s == chars@.subrange(pos as int, chars@.len() as int),
            quoted_end(s, q, j - pos) == quoted_end(s, q, 1),
        decreases chars.len() + 1 - j,
    {
        if j >= chars.len() {
            return None;
        }
        let c = chars[j];
        if c == q {
            return Some(j + 1);
        } else if c == '\\' {
            if j + 1 < chars.len() {
                j = j + 2;
            } else {
                return None;
            }
        } else {
            j = j + 1;
        }
    }
}

/// The longest match at `pos`: its kind and the index just past it.
fn scan_at(chars: &Vec<char>, pos: usize) -> (r: (Token, usize))
    requires
        pos < chars.len(),
    ensures
        r.0 == scan(chars@.subrange(pos as int, chars@.len() as int)).0,
        r.1 - pos == scan(chars@.subrange(pos as int, chars@.len() as int)).1,
        pos < r.1 <= chars.len(),
{
    let ghost s = chars@.subrange(pos as int, chars@.len() as int);
    proof {
        lemma_scan_bounds(s);
    }
    let c = chars[pos];
    if c == '_' || ('a' <= c && c <= 'z') || ('A' <= c && c <= 'Z') {
        let e = run_end_at(chars, pos, pos + 1, CharClass::IdentTail);
        assert(s.subrange(0, e - pos) =~= chars@.subrange(pos as int, e as int));
        let k = if spells(chars, pos, e, "use") {
            Token::Using
        } else if spells(chars, pos, e, "bind") {
            Token::Binder
        } else if spells(chars, pos, e, "tighter") {
            Token::Tighter
        } else if spells(chars, pos, e, "_") {
            Token::Underscore
        } else {
            Token::Identifier
        };
        proof {
            reveal_strlit("use");
            reveal_strlit("bind");
            reveal_strlit("tighter");
            reveal_strlit("_");
            assert("use"@ =~= seq!['u', 's', 'e']);
            assert("bind"@ =~= seq!['b', 'i', 'n', 'd']);
            assert("tighter"@ =~= seq!['t', 'i', 'g', 'h', 't', 'e', 'r']);
            assert("_"@ =~= seq!['_']);
        }
        (k, e)
    } else if '0' <= c && c <= '9' {
        (Token::Number, run_end_at(chars, pos, pos + 1, CharClass::NumberTail))
    } else if c == '"' || c == '\'' {
        match quoted_end_at(chars, pos, c) {
            Some(e) => (Token::String, e),
            None => (Token::Error, pos + 1),
        }
    } else if c == ' ' {
        let e = run_end_at(chars, pos, pos + 1, CharClass::Space);
        if e == pos + 1 {
            (Token::Whitespace, e)
        } else {
            (Token::Whitespaces, e)
        }
    } else if c == '\t' {
        let e = run_end_at(chars, pos, pos + 1, CharClass::Tab);
        if e == pos + 1 {
            (Token::WhitespaceTab, e)
        } else {
            (Token::WhitespaceTabs, e)
        }
    } else if c == '\n' {
        let e = run_end_at(chars, pos, pos + 1, CharClass::Newline);
        if e == pos + 1 {
            (Token::Newline, e)
        } else {
            (Token::Newlines, e)
        }
    } else if class_has(c, CharClass::Symbol) {
        let e = run_end_at(chars, pos, pos + 1, CharClass::Symbol);
        if e == pos + 1 {
            (kind_of_single(c), e)
        } else {
            (Token::Symbols, e)
        }
    } else {
        (kind_of_single(c), pos + 1)
    }
}


/// Scanner over a source text that hands out one token per call of `next`.
pub struct Tokeniser<'source> {
    source: &'source str,
    chars: Vec<char>,
    pos: usize,
}

impl<'source> Tokeniser<'source> {
    /// The text being scanned.
    pub closed spec fn text(&self) -> Seq<char> {
        self.source@
    }

    /// What is left to scan.
    pub closed spec fn rest(&self) -> Seq<char> {
        self.source@.subrange(self.pos as int, self.source@.len() as int)
    }

    pub closed spec fn wf(&self) -> bool {
        &&& self.chars@ == self.source@
        &&& self.pos <= self.chars@.len()
    }

    /// A scanner at the start of `input`.
    pub fn new(input: &'source str) -> (r: Self)
        ensures
            r.wf(),
            r.text() == input@,
            r.rest() == input@,
    {
        let n = input.unicode_len();
        let mut chars: Vec<char> = Vec::new();
        let mut i: usize = 0;
        while i < n
            invariant
                n == input@.len(),
                i <= n,
                chars@ == input@.subrange(0, i as int),
            decreases n - i,
        {
            chars.push(input.get_char(i));
            i = i + 1;
        }
        assert(input@.subrange(0, n as int) =~= input@);
        assert(input@.subrange(0, input@.len() as int) =~= input@);
        Tokeniser { source: input, chars, pos: 0 }
    }

    /// Source from which this scanner reads tokens.
    pub fn source(&self) -> (r: &'source str)
        ensures
            r@ == self.text(),
    {
        self.source
    }

    fn need_capture(token: &Token) -> (r: bool)
        ensures
            r == needs_capture(*token),
    {
        match token {
            Token::Identifier => true,
            Token::Symbols => true,
            Token::String => true,
            Token::Whitespaces => true,
            _ => false,
        }
    }

    /// The next token, or `None` once the text is used up. Text is captured
    /// only for the kinds that need it, with a string's quotes stripped.
    pub fn next(&mut self) -> (r: Option<TokenCluster>)
        requires
            old(self).wf(),
        ensures
            final(self).wf(),
            final(self).text() == old(self).text(),
            old(self).rest().len() == 0 ==> r.is_none() && final(self).rest() == old(self).rest(),
            old(self).rest().len() > 0 ==> {
                &&& r.is_some()
                &&& cluster_view(r.unwrap()) == first_token(old(self).rest())
                &&& well_shaped(cluster_view(r.unwrap()))
                &&& final(self).rest() == old(self).rest().subrange(
                    scan(old(self).rest()).1,
                    old(self).rest().len() as int,
                )
            },
    {
        if self.pos >= self.chars.len() {
            return None;
        }
        let ghost s = self.rest();
        proof {
            lemma_scan_bounds(s);
        }
        let (tok, end) = scan_at(&self.chars, self.pos);
        let start = self.pos;
        self.pos = end;
        assert(self.rest() =~= s.subrange(end - start, s.len() as int));
        if Tokeniser::need_capture(&tok) {
            match tok {
                Token::String => {
                    let data = self.source.substring_char(start + 1, end - 1).to_owned();
                    assert(data@ =~= s.subrange(1, end - start - 1));
                    Some((tok, Some(data)))
                },
                _ => {
                    let data = self.source.substring_char(start, end).to_owned();
                    assert(data@ =~= s.subrange(0, end - start));
                    Some((tok, Some(data)))
                },
            }
        } else {
            Some((tok, None))
        }
    }
}

/// All tokens of `input`, in order.
pub fn tokenise(input: &str) -> (r: Vec<TokenCluster>)
    ensures
        r@.map_values(|t: TokenCluster| cluster_view(t)) == scan_all(input@),
        forall|i: int| 0 <= i < r@.len() ==> well_shaped(#[trigger] cluster_view(r@[i])),
{
    let mut lexer = Tokeniser::new(input);
    let mut out: Vec<TokenCluster> = Vec::new();
    loop
        invariant
            lexer.wf(),
            lexer.text() == input@,
            out@.map_values(|t: TokenCluster| cluster_view(t)) + scan_all(lexer.rest()) == scan_all(
                input@,
            ),
            forall|i: int| 0 <= i < out@.len() ==> well_shaped(#[trigger] cluster_view(out@[i])),
        decreases lexer.rest().len(),
    {
        let ghost before = lexer.rest();
        match lexer.next() {
            None => {
                assert(scan_all(before) =~= seq![]);
                assert(out@.map_values(|t: TokenCluster| cluster_view(t)) + scan_all(before)
                    =~= out@.map_values(|t: TokenCluster| cluster_view(t)));
                return out;
            },
            Some(t) => {
                proof {
                    lemma_scan_bounds(before);
                }
                let ghost prev = out@;
                out.push(t);
                assert(out@.map_values(|t: TokenCluster| cluster_view(t)) =~= prev.map_values(
                    |t: TokenCluster| cluster_view(t),
                ).push(cluster_view(t)));
                assert(scan_all(before) == seq![first_token(before)] + scan_all(lexer.rest()));
                assert(out@.map_values(|t: TokenCluster| cluster_view(t)) + scan_all(lexer.rest())
                    =~= prev.map_values(|t: TokenCluster| cluster_view(t)) + scan_all(before));
            },
        }
    }
}

} // verus!
