//! The lexer: turns source text into tokens.
//!
//! The lexical grammar is stated by `lex_step` (what one step of scanning
//! does at a position) and `lex` (steps repeated to the end of the input).

use vstd::prelude::*;
use crate::text::{same_chars, decimal, push_decimal, string_from_chars, string_of_char, string_of_two, string_from_str, append_str, push_char};
use crate::token::{Token, TokenType, TokenView, kind_name, tokens_view};

verus! {

// ---------------------------------------------------------------------
// Character classes
// ---------------------------------------------------------------------

/// Unicode `White_Space`, as `char::is_whitespace` defines it.
pub open spec fn is_ws(c: char) -> bool {
    let u = c as u32;
    ||| 0x09 <= u <= 0x0d
    ||| u == 0x20
    ||| u == 0x85
    ||| u == 0xa0
    ||| u == 0x1680
    ||| 0x2000 <= u <= 0x200a
    ||| u == 0x2028
    ||| u == 0x2029
    ||| u == 0x202f
    ||| u == 0x205f
    ||| u == 0x3000
}

pub open spec fn is_digit(c: char) -> bool {
    0x30 <= (c as u32) <= 0x39
}

pub open spec fn is_alpha(c: char) -> bool {
    (0x41 <= (c as u32) <= 0x5a) || (0x61 <= (c as u32) <= 0x7a)
}

pub open spec fn is_ident_start(c: char) -> bool {
    is_alpha(c) || c == '_'
}

pub open spec fn is_ident_char(c: char) -> bool {
    is_alpha(c) || is_digit(c) || c == '_'
}

fn is_whitespace(c: char) -> (r: bool)
    ensures
        r == is_ws(c),
{
    let u = c as u32;
    (0x09 <= u && u <= 0x0d) || u == 0x20 || u == 0x85 || u == 0xa0 || u == 0x1680 || (0x2000
        <= u && u <= 0x200a) || u == 0x2028 || u == 0x2029 || u == 0x202f || u == 0x205f || u
        == 0x3000
}

fn is_ascii_digit(c: char) -> (r: bool)
    ensures
        r == is_digit(c),
{
    let u = c as u32;
    0x30 <= u && u <= 0x39
}

fn is_ascii_alpha(c: char) -> (r: bool)
    ensures
        r == is_alpha(c),
{
    let u = c as u32;
    (0x41 <= u && u <= 0x5a) || (0x61 <= u && u <= 0x7a)
}

// ---------------------------------------------------------------------
// Keywords
// ---------------------------------------------------------------------

/// The keyword that `w` spells, if any.
pub open spec fn keyword(w: Seq<char>) -> Option<TokenType> {
    if w == seq!['l', 'e', 't'] {
        Some(TokenType::Let)
    } else if w == seq!['c', 'o', 'n', 's', 't'] {
        Some(TokenType::Const)
    } else if w == seq!['f', 'n'] {
        Some(TokenType::Fn)
    } else if w == seq!['r', 'e', 't', 'u', 'r', 'n'] {
        Some(TokenType::Return)
    } else if w == seq!['i', 'f'] {
        Some(TokenType::If)
    } else if w == seq!['e', 'l', 's', 'e'] {
        Some(TokenType::Else)
    } else if w == seq!['w', 'h', 'i', 'l', 'e'] {
        Some(TokenType::While)
    } else if w == seq!['f', 'o', 'r'] {
        Some(TokenType::For)
    } else if w == seq!['s', 't', 'r', 'u', 'c', 't'] {
        Some(TokenType::Struct)
    } else if w == seq!['e', 'n', 'u', 'm'] {
        Some(TokenType::Enum)
    } else if w == seq!['t', 'r', 'u', 'e'] {
        Some(TokenType::True)
    } else if w == seq!['f', 'a', 'l', 's', 'e'] {
        Some(TokenType::False)
    } else if w == seq!['n', 'u', 'l', 'l'] {
        Some(TokenType::Null)
    } else if w == seq!['m', 'u', 't'] {
        Some(TokenType::Mut)
    } else if w == seq!['p', 'u', 'b'] {
        Some(TokenType::Pub)
    } else if w == seq!['i', 'm', 'p', 'o', 'r', 't'] {
        Some(TokenType::Import)
    } else {
        None
    }
}

/// A keyword lexes to the kind that bears its name: the kind's name is
/// the keyword spelled with its first letter in upper case. So distinct
/// keywords give distinct kinds, and any other word is an identifier.
pub proof fn lemma_keyword_kinds(w: Seq<char>, v: Seq<char>)
    ensures
        keyword(w) matches Some(k) ==> {
            let n = kind_name(k);
            &&& n.len() == w.len()
            &&& w.len() >= 1
            &&& n[0] as u32 + 32 == w[0] as u32
            &&& n.drop_first() == w.drop_first()
        },
        keyword(w) is Some && keyword(w) == keyword(v) ==> w == v,
        keyword(w) is None ==> word_kind(w) == TokenType::Identifier,
{
    lemma_keyword_name(w);
    lemma_keyword_name(v);
    if keyword(w) is Some && keyword(w) == keyword(v) {
        let n = kind_name(keyword(w)->0);
        assert(w =~= seq![w[0]] + n.drop_first());
        assert(v =~= seq![v[0]] + n.drop_first());
    }
}

proof fn lemma_keyword_name(w: Seq<char>)
    ensures
        keyword(w) matches Some(k) ==> {
            let n = kind_name(k);
            &&& n.len() == w.len()
            &&& w.len() >= 1
            &&& n[0] as u32 + 32 == w[0] as u32
            &&& n.drop_first() == w.drop_first()
        },
{
    reveal_strlit("Let");
    reveal_strlit("Const");
    reveal_strlit("Fn");
    reveal_strlit("Return");
    reveal_strlit("If");
    reveal_strlit("Else");
    reveal_strlit("While");
    reveal_strlit("For");
    reveal_strlit("Struct");
    reveal_strlit("Enum");
    reveal_strlit("True");
    reveal_strlit("False");
    reveal_strlit("Null");
    reveal_strlit("Mut");
    reveal_strlit("Pub");
    reveal_strlit("Import");
    if keyword(w) is Some {
        let n = kind_name(keyword(w)->0);
        assert(n.drop_first() =~= w.drop_first());
    }
}

/// The kind of a word: its keyword, or `Identifier`.
pub open spec fn word_kind(w: Seq<char>) -> TokenType {
    match keyword(w) {
        Some(k) => k,
        None => TokenType::Identifier,
    }
}

fn word_kind_of(w: &Vec<char>) -> (k: TokenType)
    ensures
        k == word_kind(w@),
{
    let a_let = ['l', 'e', 't'];
    let a_const = ['c', 'o', 'n', 's', 't'];
    let a_fn = ['f', 'n'];
    let a_return = ['r', 'e', 't', 'u', 'r', 'n'];
    let a_if = ['i', 'f'];
    let a_else = ['e', 'l', 's', 'e'];
    let a_while = ['w', 'h', 'i', 'l', 'e'];
    let a_for = ['f', 'o', 'r'];
    let a_struct = ['s', 't', 'r', 'u', 'c', 't'];
    let a_enum = ['e', 'n', 'u', 'm'];
    let a_true = ['t', 'r', 'u', 'e'];
    let a_false = ['f', 'a', 'l', 's', 'e'];
    let a_null = ['n', 'u', 'l', 'l'];
    let a_mut = ['m', 'u', 't'];
    let a_pub = ['p', 'u', 'b'];
    let a_import = ['i', 'm', 'p', 'o', 'r', 't'];
    assert(a_let@ =~= seq!['l', 'e', 't']);
    assert(a_const@ =~= seq!['c', 'o', 'n', 's', 't']);
    assert(a_fn@ =~= seq!['f', 'n']);
    assert(a_return@ =~= seq!['r', 'e', 't', 'u', 'r', 'n']);
    assert(a_if@ =~= seq!['i', 'f']);
    assert(a_else@ =~= seq!['e', 'l', 's', 'e']);
    assert(a_while@ =~= seq!['w', 'h', 'i', 'l', 'e']);
    assert(a_for@ =~= seq!['f', 'o', 'r']);
    assert(a_struct@ =~= seq!['s', 't', 'r', 'u', 'c', 't']);
    assert(a_enum@ =~= seq!['e', 'n', 'u', 'm']);
    assert(a_true@ =~= seq!['t', 'r', 'u', 'e']);
    assert(a_false@ =~= seq!['f', 'a', 'l', 's', 'e']);
    assert(a_null@ =~= seq!['n', 'u', 'l', 'l']);
    assert(a_mut@ =~= seq!['m', 'u', 't']);
    assert(a_pub@ =~= seq!['p', 'u', 'b']);
    assert(a_import@ =~= seq!['i', 'm', 'p', 'o', 'r', 't']);
    if same_chars(w, &a_let) {
        TokenType::Let
    } else if same_chars(w, &a_const) {
        TokenType::Const
    } else if same_chars(w, &a_fn) {
        TokenType::Fn
    } else if same_chars(w, &a_return) {
        TokenType::Return
    } else if same_chars(w, &a_if) {
        TokenType::If
    } else if same_chars(w, &a_else) {
        TokenType::Else
    } else if same_chars(w, &a_while) {
        TokenType::While
    } else if same_chars(w, &a_for) {
        TokenType::For
    } else if same_chars(w, &a_struct) {
        TokenType::Struct
    } else if same_chars(w, &a_enum) {
        TokenType::Enum
    } else if same_chars(w, &a_true) {
        TokenType::True
    } else if same_chars(w, &a_false) {
        TokenType::False
    } else if same_chars(w, &a_null) {
        TokenType::Null
    } else if same_chars(w, &a_mut) {
        TokenType::Mut
    } else if same_chars(w, &a_pub) {
        TokenType::Pub
    } else if same_chars(w, &a_import) {
        TokenType::Import
    } else {
        TokenType::Identifier
    }
}


// ---------------------------------------------------------------------
// The lexical grammar
// ---------------------------------------------------------------------

/// The first index at or after `i` whose character fails `p` (or the end).
pub open spec fn scan_end(s: Seq<char>, i: int, p: spec_fn(char) -> bool) -> int
    decreases s.len() - i,
{
    if 0 <= i < s.len() && p(s[i]) {
        scan_end(s, i + 1, p)
    } else {
        i
    }
}

pub open spec fn digit_class() -> spec_fn(char) -> bool {
    |c: char| is_digit(c)
}

pub open spec fn ident_class() -> spec_fn(char) -> bool {
    |c: char| is_ident_char(c)
}

/// Characters that may stand inside a string literal.
pub open spec fn string_body_class() -> spec_fn(char) -> bool {
    |c: char| c != '"' && c != '\n'
}

/// Characters that a line comment runs over.
pub open spec fn comment_class() -> spec_fn(char) -> bool {
    |c: char| c != '\n'
}

pub proof fn lemma_scan_end(s: Seq<char>, i: int, p: spec_fn(char) -> bool)
    requires
        0 <= i <= s.len(),
    ensures
        i <= scan_end(s, i, p) <= s.len(),
        forall|k: int| i <= k < scan_end(s, i, p) ==> #[trigger] p(s[k]),
        scan_end(s, i, p) < s.len() ==> !p(s[scan_end(s, i, p)]),
    decreases s.len() - i,
{
    if i < s.len() && p(s[i]) {
        lemma_scan_end(s, i + 1, p);
    }
}

/// Kinds of the tokens made of one character that never starts a longer token.
pub open spec fn single_kind(c: char) -> Option<TokenType> {
    if c == '(' {
        Some(TokenType::OpenParen)
    } else if c == ')' {
        Some(TokenType::CloseParen)
    } else if c == '{' {
        Some(TokenType::OpenBrace)
    } else if c == '}' {
        Some(TokenType::CloseBrace)
    } else if c == '[' {
        Some(TokenType::OpenBracket)
    } else if c == ']' {
        Some(TokenType::CloseBracket)
    } else if c == ',' {
        Some(TokenType::Comma)
    } else if c == ':' {
        Some(TokenType::Colon)
    } else if c == '.' {
        Some(TokenType::Dot)
    } else if c == '+' {
        Some(TokenType::Plus)
    } else if c == '*' {
        Some(TokenType::Star)
    } else if c == '%' {
        Some(TokenType::Percent)
    } else {
        None
    }
}

/// For a character that may start a two-character operator: the second
/// character, the kind of the two-character token, and the kind of the
/// one-character token.
pub open spec fn pair_kind(c: char) -> Option<(char, TokenType, TokenType)> {
    if c == '-' {
        Some(('>', TokenType::Arrow, TokenType::Minus))
    } else if c == '!' {
        Some(('=', TokenType::BangEqual, TokenType::Bang))
    } else if c == '=' {
        Some(('=', TokenType::EqualEqual, TokenType::Equal))
    } else if c == '<' {
        Some(('=', TokenType::LessEqual, TokenType::Less))
    } else if c == '>' {
        Some(('=', TokenType::GreaterEqual, TokenType::Greater))
    } else if c == '|' {
        Some(('|', TokenType::Or, TokenType::Pipe))
    } else {
        None
    }
}

pub open spec fn tv(kind: TokenType, value: Seq<char>, line: int, col: int) -> TokenView {
    TokenView { kind, value, line, col }
}

pub open spec fn next_is(s: Seq<char>, i: int, c: char) -> bool {
    0 <= i < s.len() && s[i] == c
}

/// `"<prefix><line>:<col>"`, the shape of the lexer's error messages.
pub open spec fn at_message(prefix: Seq<char>, line: int, col: int) -> Seq<char> {
    prefix + decimal(line as nat) + seq![':'] + decimal(col as nat)
}

/// What one scanning step gives.
pub enum StepOut {
    /// Input consumed with no token (white space, a comment).
    Skip,
    /// A token.
    Emit(TokenView),
    /// A lexical error with its message.
    Fail(Seq<char>),
}

/// One scanning step and the position, line and column after it.
pub struct LexStep {
    pub out: StepOut,
    pub pos: int,
    pub line: int,
    pub col: int,
}

/// One step of the lexer at position `pos` (with `pos < s.len()`) of
/// `s`, on line `line` and column `col`.
pub open spec fn lex_step(s: Seq<char>, pos: int, line: int, col: int) -> LexStep {
    let c = s[pos];
    if is_ws(c) && c != '\n' {
        LexStep { out: StepOut::Skip, pos: pos + 1, line, col: col + 1 }
    } else if c == '\n' {
        LexStep {
            out: StepOut::Emit(tv(TokenType::Newline, seq!['\n'], line, 0)),
            pos: pos + 1,
            line: line + 1,
            col: 1,
        }
    } else if single_kind(c) is Some {
        LexStep {
            out: StepOut::Emit(tv(single_kind(c)->0, seq![c], line, col)),
            pos: pos + 1,
            line,
            col: col + 1,
        }
    } else if pair_kind(c) is Some {
        let (d, two, one) = pair_kind(c)->0;
        if next_is(s, pos + 1, d) {
            LexStep {
                out: StepOut::Emit(tv(two, seq![c, d], line, col)),
                pos: pos + 2,
                line,
                col: col + 2,
            }
        } else {
            LexStep { out: StepOut::Emit(tv(one, seq![c], line, col)), pos: pos + 1, line, col: col + 1 }
        }
    } else if c == '/' {
        if next_is(s, pos + 1, '/') {
            let e = scan_end(s, pos + 2, comment_class());
            LexStep { out: StepOut::Skip, pos: e, line, col: col + (e - pos) }
        } else {
            LexStep {
                out: StepOut::Emit(tv(TokenType::Slash, seq![c], line, col)),
                pos: pos + 1,
                line,
                col: col + 1,
            }
        }
    } else if c == '&' {
        if next_is(s, pos + 1, '&') {
            LexStep {
                out: StepOut::Emit(tv(TokenType::And, seq!['&', '&'], line, col)),
                pos: pos + 2,
                line,
                col: col + 2,
            }
        } else {
            LexStep {
                out: StepOut::Fail(at_message("Unexpected '&' at "@, line, col + 1)),
                pos: pos + 1,
                line,
                col: col + 1,
            }
        }
    } else if c == '"' {
        let e = scan_end(s, pos + 1, string_body_class());
        if e < s.len() && s[e] == '"' {
            LexStep {
                out: StepOut::Emit(tv(TokenType::String, s.subrange(pos + 1, e), line, col + 1)),
                pos: e + 1,
                line,
                col: col + (e - pos) + 1,
            }
        } else {
            LexStep {
                out: StepOut::Fail(at_message("Unterminated string at "@, line, col + 1)),
                pos: e,
                line,
                col: col + (e - pos),
            }
        }
    } else if is_digit(c) {
        let e = scan_end(s, pos, digit_class());
        LexStep {
            out: StepOut::Emit(tv(TokenType::Number, s.subrange(pos, e), line, col)),
            pos: e,
            line,
            col: col + (e - pos),
        }
    } else if is_ident_start(c) {
        let e = scan_end(s, pos, ident_class());
        let w = s.subrange(pos, e);
        LexStep {
            out: StepOut::Emit(tv(word_kind(w), w, line, col)),
            pos: e,
            line,
            col: col + (e - pos),
        }
    } else {
        LexStep {
            out: StepOut::Fail(
                at_message("Unexpected character '"@ + seq![c] + "' at "@, line, col),
            ),
            pos,
            line,
            col,
        }
    }
}

/// A step that does not fail consumes input.
pub proof fn lemma_step_advances(s: Seq<char>, pos: int, line: int, col: int)
    requires
        0 <= pos < s.len(),
    ensures
        lex_step(s, pos, line, col).out !is Fail ==> lex_step(s, pos, line, col).pos > pos,
        pos <= lex_step(s, pos, line, col).pos <= s.len(),
        lex_step(s, pos, line, col).col - col == lex_step(s, pos, line, col).pos - pos
            || (s[pos] == '\n' && lex_step(s, pos, line, col).col == 1
                && lex_step(s, pos, line, col).line == line + 1),
        s[pos] != '\n' ==> lex_step(s, pos, line, col).line == line,
{
    let c = s[pos];
    if c == '/' && next_is(s, pos + 1, '/') {
        lemma_scan_end(s, pos + 2, comment_class());
    }
    if c == '"' {
        lemma_scan_end(s, pos + 1, string_body_class());
    }
    if is_digit(c) {
        lemma_scan_end(s, pos, digit_class());
    }
    if is_ident_start(c) {
        lemma_scan_end(s, pos, ident_class());
    }
}

/// The outcome of lexing: the tokens or an error message, and the
/// position, line and column where the lexer stopped.
pub struct LexResult {
    pub tokens: Result<Seq<TokenView>, Seq<char>>,
    pub pos: int,
    pub line: int,
    pub col: int,
}

/// Lexing from `pos` on (line `line`, column `col`), after the tokens
/// `acc`: steps are taken until the input ends, where the `Eof` token is
/// added, or until a step fails.
pub open spec fn lex(s: Seq<char>, pos: int, line: int, col: int, acc: Seq<TokenView>) -> LexResult
    decreases s.len() - pos,
{
    if pos < 0 || pos >= s.len() {
        LexResult {
            tokens: Ok(acc.push(tv(TokenType::Eof, seq!['E', 'O', 'F'], line, col))),
            pos,
            line,
            col,
        }
    } else {
        let st = lex_step(s, pos, line, col);
        proof {
            lemma_step_advances(s, pos, line, col);
        }
        match st.out {
            StepOut::Fail(m) => LexResult { tokens: Err(m), pos: st.pos, line: st.line, col: st.col },
            StepOut::Skip => lex(s, st.pos, st.line, st.col, acc),
            StepOut::Emit(t) => lex(s, st.pos, st.line, st.col, acc.push(t)),
        }
    }
}

/// The tokens of source text `s` (or the lexical error).
pub open spec fn spec_tokenize(s: Seq<char>) -> Result<Seq<TokenView>, Seq<char>> {
    lex(s, 0, 1, 1, seq![]).tokens
}

/// A step never yields the end-of-input token.
proof fn lemma_step_not_eof(s: Seq<char>, pos: int, line: int, col: int)
    requires
        0 <= pos < s.len(),
    ensures
        lex_step(s, pos, line, col).out matches StepOut::Emit(t) ==> t.kind != TokenType::Eof,
{
}

/// Lexing after tokens none of which is `Eof` yields tokens that end in
/// `Eof` and hold no other.
proof fn lemma_lex_eof(s: Seq<char>, pos: int, line: int, col: int, acc: Seq<TokenView>)
    requires
        forall|i: int| 0 <= i < acc.len() ==> (#[trigger] acc[i]).kind != TokenType::Eof,
    ensures
        lex(s, pos, line, col, acc).tokens matches Ok(t) ==> {
            &&& t.len() >= 1
            &&& t.last().kind == TokenType::Eof
            &&& forall|i: int| 0 <= i < t.len() - 1 ==> (#[trigger] t[i]).kind != TokenType::Eof
        },
    decreases s.len() - pos,
{
    if 0 <= pos < s.len() {
        let st = lex_step(s, pos, line, col);
        lemma_step_advances(s, pos, line, col);
        lemma_step_not_eof(s, pos, line, col);
        match st.out {
            StepOut::Skip => lemma_lex_eof(s, st.pos, st.line, st.col, acc),
            StepOut::Emit(t) => {
                assert forall|i: int| 0 <= i < acc.push(t).len() implies (#[trigger] acc.push(t)[i]).kind
                    != TokenType::Eof by {
                    if i < acc.len() {
                        assert(acc.push(t)[i] == acc[i]);
                    }
                }
                lemma_lex_eof(s, st.pos, st.line, st.col, acc.push(t));
            },
            StepOut::Fail(_) => {},
        }
    } else {
        let t = acc.push(tv(TokenType::Eof, seq!['E', 'O', 'F'], line, col));
        assert forall|i: int| 0 <= i < t.len() - 1 implies (#[trigger] t[i]).kind != TokenType::Eof by {
            assert(t[i] == acc[i]);
        }
    }
}

/// Lexing that succeeds yields tokens that end with `Eof` and hold no
/// other `Eof`.
pub proof fn lemma_tokenize_ends_with_eof(s: Seq<char>)
    ensures
        spec_tokenize(s) matches Ok(t) ==> {
            &&& t.len() >= 1
            &&& t.last().kind == TokenType::Eof
            &&& forall|i: int| 0 <= i < t.len() - 1 ==> (#[trigger] t[i]).kind != TokenType::Eof
        },
{
    lemma_lex_eof(s, 0, 1, 1, seq![]);
}

// ---------------------------------------------------------------------
// Lexing two sources joined by a line break
// ---------------------------------------------------------------------

/// The tokens `ts` moved down by `n` lines.
pub open spec fn shift_lines(ts: Seq<TokenView>, n: int) -> Seq<TokenView> {
    ts.map_values(|t: TokenView| tv(t.kind, t.value, t.line + n, t.col))
}

/// `s1` is a prefix of `s` that a line break follows.
pub open spec fn line_prefix(s1: Seq<char>, s: Seq<char>) -> bool {
    &&& s1.len() < s.len()
    &&& s[s1.len() as int] == '\n'
    &&& forall|j: int| 0 <= j < s1.len() ==> s[j] == s1[j]
}

/// `s2` is what follows the first `k` characters of `s`.
pub open spec fn suffix_at(s: Seq<char>, s2: Seq<char>, k: int) -> bool {
    &&& 0 <= k
    &&& s.len() == k + s2.len()
    &&& forall|j: int| 0 <= j < s2.len() ==> s[k + j] == s2[j]
}

proof fn lemma_scan_prefix(s1: Seq<char>, s: Seq<char>, i: int, p: spec_fn(char) -> bool)
    requires
        line_prefix(s1, s),
        !p('\n'),
        0 <= i <= s1.len(),
    ensures
        scan_end(s, i, p) == scan_end(s1, i, p),
    decreases s1.len() - i,
{
    if i < s1.len() {
        lemma_scan_prefix(s1, s, i + 1, p);
    }
}

proof fn lemma_scan_suffix(s: Seq<char>, s2: Seq<char>, k: int, i: int, p: spec_fn(char) -> bool)
    requires
        suffix_at(s, s2, k),
        0 <= i <= s2.len(),
    ensures
        scan_end(s, k + i, p) == k + scan_end(s2, i, p),
    decreases s2.len() - i,
{
    if i < s2.len() {
        assert(s[k + i] == s2[i]);
        lemma_scan_suffix(s, s2, k, i + 1, p);
    }
}

/// Before the line break, a step reads the joined text as it reads `s1`.
proof fn lemma_step_prefix(s1: Seq<char>, s: Seq<char>, pos: int, line: int, col: int)
    requires
        line_prefix(s1, s),
        0 <= pos < s1.len(),
    ensures
        lex_step(s, pos, line, col) == lex_step(s1, pos, line, col),
{
    let c = s1[pos];
    assert(s[pos] == c);
    if pos + 1 < s1.len() {
        assert(s[pos + 1] == s1[pos + 1]);
    }
    if c == '/' && next_is(s1, pos + 1, '/') {
        lemma_scan_prefix(s1, s, pos + 2, comment_class());
    }
    if c == '"' {
        lemma_scan_prefix(s1, s, pos + 1, string_body_class());
        lemma_scan_end(s1, pos + 1, string_body_class());
        let e = scan_end(s1, pos + 1, string_body_class());
        if e < s1.len() {
            assert(s[e] == s1[e]);
        }
        assert(s.subrange(pos + 1, e) =~= s1.subrange(pos + 1, e));
    }
    if is_digit(c) {
        lemma_scan_prefix(s1, s, pos, digit_class());
        lemma_scan_end(s1, pos, digit_class());
        assert(s.subrange(pos, scan_end(s1, pos, digit_class())) =~= s1.subrange(
            pos,
            scan_end(s1, pos, digit_class()),
        ));
    }
    if is_ident_start(c) {
        lemma_scan_prefix(s1, s, pos, ident_class());
        lemma_scan_end(s1, pos, ident_class());
        assert(s.subrange(pos, scan_end(s1, pos, ident_class())) =~= s1.subrange(
            pos,
            scan_end(s1, pos, ident_class()),
        ));
    }
}

/// After the line break, a step reads the joined text as it reads `s2`,
/// `n` lines further down.
proof fn lemma_step_suffix(s: Seq<char>, s2: Seq<char>, k: int, n: int, q: int, line: int, col: int)
    requires
        suffix_at(s, s2, k),
        0 <= q < s2.len(),
    ensures
        ({
            let a = lex_step(s, k + q, line + n, col);
            let b = lex_step(s2, q, line, col);
            &&& a.pos == k + b.pos
            &&& a.line == b.line + n
            &&& a.col == b.col
            &&& (a.out is Skip <==> b.out is Skip)
            &&& (a.out is Fail <==> b.out is Fail)
            &&& (b.out matches StepOut::Emit(t) ==> a.out == StepOut::Emit(tv(t.kind, t.value, t.line + n, t.col)))
        }),
{
    let c = s2[q];
    assert(s[k + q] == c);
    if q + 1 < s2.len() {
        assert(s[k + q + 1] == s2[q + 1]);
    }
    if c == '/' && next_is(s2, q + 1, '/') {
        lemma_scan_suffix(s, s2, k, q + 2, comment_class());
    }
    if c == '"' {
        lemma_scan_suffix(s, s2, k, q + 1, string_body_class());
        lemma_scan_end(s2, q + 1, string_body_class());
        let e = scan_end(s2, q + 1, string_body_class());
        if e < s2.len() {
            assert(s[k + e] == s2[e]);
        }
        assert(s.subrange(k + q + 1, k + e) =~= s2.subrange(q + 1, e));
    }
    if is_digit(c) {
        lemma_scan_suffix(s, s2, k, q, digit_class());
        lemma_scan_end(s2, q, digit_class());
        let e = scan_end(s2, q, digit_class());
        assert(s.subrange(k + q, k + e) =~= s2.subrange(q, e));
    }
    if is_ident_start(c) {
        lemma_scan_suffix(s, s2, k, q, ident_class());
        lemma_scan_end(s2, q, ident_class());
        let e = scan_end(s2, q, ident_class());
        assert(s.subrange(k + q, k + e) =~= s2.subrange(q, e));
    }
}

/// Lexing the joined text up to the line break goes as lexing `s1`.
proof fn lemma_lex_prefix(s1: Seq<char>, s: Seq<char>, pos: int, line: int, col: int, acc: Seq<TokenView>)
    requires
        line_prefix(s1, s),
        0 <= pos <= s1.len(),
    ensures
        lex(s1, pos, line, col, acc).tokens matches Ok(t) ==> lex(s, pos, line, col, acc) == lex(
            s,
            s1.len() as int,
            lex(s1, pos, line, col, acc).line,
            lex(s1, pos, line, col, acc).col,
            t.drop_last(),
        ),
    decreases s1.len() - pos,
{
    if pos < s1.len() {
        lemma_step_prefix(s1, s, pos, line, col);
        lemma_step_advances(s1, pos, line, col);
        let st = lex_step(s1, pos, line, col);
        match st.out {
            StepOut::Skip => lemma_lex_prefix(s1, s, st.pos, st.line, st.col, acc),
            StepOut::Emit(t) => lemma_lex_prefix(s1, s, st.pos, st.line, st.col, acc.push(t)),
            StepOut::Fail(_) => {},
        }
    } else {
        let t = acc.push(tv(TokenType::Eof, seq!['E', 'O', 'F'], line, col));
        assert(t.drop_last() =~= acc);
    }
}

/// Lexing the joined text after the line break goes as lexing `s2`, `n`
/// lines further down.
proof fn lemma_lex_suffix(
    s: Seq<char>,
    s2: Seq<char>,
    k: int,
    n: int,
    q: int,
    line: int,
    col: int,
    acc: Seq<TokenView>,
    acc2: Seq<TokenView>,
)
    requires
        suffix_at(s, s2, k),
        0 <= q <= s2.len(),
    ensures
        lex(s2, q, line, col, acc2).tokens matches Ok(t2) ==> lex(
            s,
            k + q,
            line + n,
            col,
            acc + shift_lines(acc2, n),
        ).tokens == Ok::<Seq<TokenView>, Seq<char>>(acc + shift_lines(t2, n)),
    decreases s2.len() - q,
{
    if q < s2.len() {
        lemma_step_suffix(s, s2, k, n, q, line, col);
        lemma_step_advances(s2, q, line, col);
        let b = lex_step(s2, q, line, col);
        match b.out {
            StepOut::Skip => {
                lemma_lex_suffix(s, s2, k, n, b.pos, b.line, b.col, acc, acc2);
            },
            StepOut::Emit(t) => {
                lemma_lex_suffix(s, s2, k, n, b.pos, b.line, b.col, acc, acc2.push(t));
                assert(acc + shift_lines(acc2.push(t), n) =~= (acc + shift_lines(acc2, n)).push(
                    tv(t.kind, t.value, t.line + n, t.col),
                ));
            },
            StepOut::Fail(_) => {},
        }
    } else {
        let e = tv(TokenType::Eof, seq!['E', 'O', 'F'], line, col);
        assert(acc + shift_lines(acc2.push(e), n) =~= (acc + shift_lines(acc2, n)).push(
            tv(TokenType::Eof, seq!['E', 'O', 'F'], line + n, col),
        ));
    }
}

/// Lexing two sources joined by a line break gives the tokens of the
/// first without its `Eof`, a `Newline` token on the first's last line
/// (column 0), then the tokens of the second moved down by that many
/// lines, columns unchanged.
pub proof fn lemma_tokenize_join(s1: Seq<char>, s2: Seq<char>)
    requires
        spec_tokenize(s1) is Ok,
        spec_tokenize(s2) is Ok,
    ensures
        ({
            let t1 = spec_tokenize(s1)->Ok_0;
            let t2 = spec_tokenize(s2)->Ok_0;
            let n = t1.last().line;
            spec_tokenize(s1 + seq!['\n'] + s2) == Ok::<Seq<TokenView>, Seq<char>>(
                t1.drop_last().push(tv(TokenType::Newline, seq!['\n'], n, 0)) + shift_lines(t2, n),
            )
        }),
{
    let s = s1 + seq!['\n'] + s2;
    let t1 = spec_tokenize(s1)->Ok_0;
    let t2 = spec_tokenize(s2)->Ok_0;
    let r1 = lex(s1, 0, 1, 1, seq![]);
    assert(line_prefix(s1, s));
    lemma_lex_prefix(s1, s, 0, 1, 1, seq![]);
    lemma_lex_eof(s1, 0, 1, 1, seq![]);
    lemma_lex_end(s1, 0, 1, 1, seq![]);
    let n = r1.line;
    assert(t1.last().line == n);
    let k = (s1.len() + 1) as int;
    let acc = t1.drop_last().push(tv(TokenType::Newline, seq!['\n'], n, 0));
    assert(lex_step(s, s1.len() as int, n, r1.col).out == StepOut::Emit(tv(TokenType::Newline, seq!['\n'], n, 0)));
    assert(lex(s, s1.len() as int, n, r1.col, t1.drop_last()) == lex(s, k, n + 1, 1, acc));
    assert(suffix_at(s, s2, k));
    lemma_lex_suffix(s, s2, k, n, 0, 1, 1, acc, seq![]);
    assert(shift_lines(seq![], n) =~= Seq::<TokenView>::empty());
    assert(acc + shift_lines(seq![], n) =~= acc);
}

/// A successful lex ends with `Eof` on the line where lexing stopped.
proof fn lemma_lex_end(s: Seq<char>, pos: int, line: int, col: int, acc: Seq<TokenView>)
    ensures
        lex(s, pos, line, col, acc).tokens matches Ok(t) ==> t.len() >= 1 && t.last().line == lex(
            s,
            pos,
            line,
            col,
            acc,
        ).line,
    decreases s.len() - pos,
{
    if 0 <= pos < s.len() {
        let st = lex_step(s, pos, line, col);
        lemma_step_advances(s, pos, line, col);
        match st.out {
            StepOut::Skip => lemma_lex_end(s, st.pos, st.line, st.col, acc),
            StepOut::Emit(t) => lemma_lex_end(s, st.pos, st.line, st.col, acc.push(t)),
            StepOut::Fail(_) => {},
        }
    }
}

/// The model of a lexer's result.
pub open spec fn lex_result_view(r: Result<Vec<Token>, String>) -> Result<Seq<TokenView>, Seq<char>> {
    match r {
        Ok(v) => Ok(tokens_view(v@)),
        Err(e) => Err(e@),
    }
}

pub open spec fn step_agrees(r: Result<Option<Token>, String>, out: StepOut) -> bool {
    match out {
        StepOut::Skip => r matches Ok(None),
        StepOut::Emit(t) => r matches Ok(Some(tok)) && tok@ == t,
        StepOut::Fail(m) => r matches Err(e) && e@ == m,
    }
}

// ---------------------------------------------------------------------
// The lexer
// ---------------------------------------------------------------------

fn single_kind_of(c: char) -> (r: Option<TokenType>)
    ensures
        r == single_kind(c),
{
    if c == '(' {
        Some(TokenType::OpenParen)
    } else if c == ')' {
        Some(TokenType::CloseParen)
    } else if c == '{' {
        Some(TokenType::OpenBrace)
    } else if c == '}' {
        Some(TokenType::CloseBrace)
    } else if c == '[' {
        Some(TokenType::OpenBracket)
    } else if c == ']' {
        Some(TokenType::CloseBracket)
    } else if c == ',' {
        Some(TokenType::Comma)
    } else if c == ':' {
        Some(TokenType::Colon)
    } else if c == '.' {
        Some(TokenType::Dot)
    } else if c == '+' {
        Some(TokenType::Plus)
    } else if c == '*' {
        Some(TokenType::Star)
    } else if c == '%' {
        Some(TokenType::Percent)
    } else {
        None
    }
}

fn pair_kind_of(c: char) -> (r: Option<(char, TokenType, TokenType)>)
    ensures
        r == pair_kind(c),
{
    if c == '-' {
        Some(('>', TokenType::Arrow, TokenType::Minus))
    } else if c == '!' {
        Some(('=', TokenType::BangEqual, TokenType::Bang))
    } else if c == '=' {
        Some(('=', TokenType::EqualEqual, TokenType::Equal))
    } else if c == '<' {
        Some(('=', TokenType::LessEqual, TokenType::Less))
    } else if c == '>' {
        Some(('=', TokenType::GreaterEqual, TokenType::Greater))
    } else if c == '|' {
        Some(('|', TokenType::Or, TokenType::Pipe))
    } else {
        None
    }
}

/// `prefix` followed by `line:col`.
fn at_msg(prefix: String, line: usize, col: usize) -> (r: String)
    ensures
        r@ == at_message(prefix@, line as int, col as int),
{
    let mut r = prefix;
    push_decimal(&mut r, line as u64);
    push_char(&mut r, ':');
    push_decimal(&mut r, col as u64);
    assert(r@ =~= at_message(prefix@, line as int, col as int));
    r
}

fn word_char(c: char, digits: bool) -> (r: bool)
    ensures
        digits ==> r == is_digit(c),
        !digits ==> r == is_ident_char(c),
{
    if digits {
        is_ascii_digit(c)
    } else {
        is_ascii_alpha(c) || is_ascii_digit(c) || c == '_'
    }
}

fn chars1(a: char) -> (v: Vec<char>)
    ensures
        v@ == seq![a],
{
    let mut v: Vec<char> = Vec::new();
    v.push(a);
    assert(v@ =~= seq![a]);
    v
}

fn chars2(a: char, b: char) -> (v: Vec<char>)
    ensures
        v@ == seq![a, b],
{
    let mut v: Vec<char> = Vec::new();
    v.push(a);
    v.push(b);
    assert(v@ =~= seq![a, b]);
    v
}

fn chars3(a: char, b: char, c: char) -> (v: Vec<char>)
    ensures
        v@ == seq![a, b, c],
{
    let mut v: Vec<char> = Vec::new();
    v.push(a);
    v.push(b);
    v.push(c);
    assert(v@ =~= seq![a, b, c]);
    v
}

/// Turns source text into tokens.
pub struct Lexer {
    source: Vec<char>,
    pos: usize,
    line: usize,
    col: usize,
}

impl Lexer {
    /// The characters of the source.
    pub closed spec fn chars(&self) -> Seq<char> {
        self.source@
    }

    /// The index of the next character to scan.
    pub closed spec fn position(&self) -> int {
        self.pos as int
    }

    /// The current line (from 1).
    pub closed spec fn line_no(&self) -> int {
        self.line as int
    }

    /// The current column (from 1).
    pub closed spec fn col_no(&self) -> int {
        self.col as int
    }

    /// The position, line and column are consistent with the source.
    pub closed spec fn wf(&self) -> bool {
        &&& self.pos <= self.source.len()
        &&& 1 <= self.line <= self.pos + 1
        &&& 1 <= self.col <= self.pos + 1
        &&& self.source.len() < usize::MAX
    }

    pub fn new(source: &str) -> (l: Lexer)
        requires
            source@.len() < usize::MAX,
        ensures
            l.wf(),
            l.chars() == source@,
            l.position() == 0,
            l.line_no() == 1,
            l.col_no() == 1,
    {
        broadcast use vstd::string::axiom_spec_iter;

        let mut chars: Vec<char> = Vec::new();
        for c in it: source.chars()
            invariant
                it.seq() == source@,
                chars@ == it.seq().take(it.index()),
        {
            chars.push(c);
        }
        Lexer { source: chars, pos: 0, line: 1, col: 1 }
    }

    fn peek(&self) -> (c: char)
        requires
            self.pos < self.source.len(),
        ensures
            c == self.source@[self.pos as int],
    {
        self.source[self.pos]
    }

    fn advance(&mut self) -> (c: char)
        requires
            old(self).wf(),
            old(self).pos < old(self).source.len(),
        ensures
            final(self).wf(),
            c == old(self).source@[old(self).pos as int],
            final(self).source == old(self).source,
            final(self).pos == old(self).pos + 1,
            c == '\n' ==> final(self).line == old(self).line + 1 && final(self).col == 1,
            c != '\n' ==> final(self).line == old(self).line && final(self).col == old(self).col + 1,
    {
        let c = self.source[self.pos];
        self.pos = self.pos + 1;
        if c == '\n' {
            self.line = self.line + 1;
            self.col = 1;
        } else {
            self.col = self.col + 1;
        }
        c
    }

    fn matches(&mut self, expected: char) -> (b: bool)
        requires
            old(self).wf(),
        ensures
            final(self).wf(),
            final(self).source == old(self).source,
            b == next_is(old(self).source@, old(self).pos as int, expected),
            b ==> final(self).pos == old(self).pos + 1,
            b && expected != '\n' ==> final(self).line == old(self).line && final(self).col == old(self).col + 1,
            b && expected == '\n' ==> final(self).line == old(self).line + 1 && final(self).col == 1,
            !b ==> *final(self) == *old(self),
    {
        if self.pos < self.source.len() && self.source[self.pos] == expected {
            self.advance();
            true
        } else {
            false
        }
    }

    fn make_token(&self, kind: TokenType, value: Vec<char>) -> (t: Token)
        ensures
            t@ == tv(
                kind,
                value@,
                self.line as int,
                if self.col >= value.len() {
                    self.col - value.len()
                } else {
                    1
                },
            ),
    {
        let col: usize = if self.col >= value.len() {
            self.col - value.len()
        } else {
            1
        };
        Token::new(kind, string_from_chars(&value), self.line, col)
    }

    /// Scans one token (or skips white space or a comment) at the current
    /// position, as `lex_step` says.
    #[verifier::rlimit(40)]
    fn scan_token(&mut self) -> (r: Result<Option<Token>, String>)
        requires
            old(self).wf(),
            old(self).pos < old(self).source.len(),
        ensures
            final(self).wf(),
            final(self).source == old(self).source,
            ({
                let st = lex_step(
                    old(self).source@,
                    old(self).pos as int,
                    old(self).line as int,
                    old(self).col as int,
                );
                &&& final(self).pos == st.pos
                &&& final(self).line == st.line
                &&& final(self).col == st.col
                &&& step_agrees(r, st.out)
            }),
    {
        let ghost src = self.source@;
        let ghost pos0 = self.pos as int;
        let c = self.peek();
        if is_whitespace(c) && c != '\n' {
            self.advance();
            return Ok(None);
        }
        if c == '\n' {
            self.advance();
            let line: usize = self.line - 1;
            return Ok(Some(Token::new(TokenType::Newline, string_of_char('\n'), line, 0)));
        }
        if let Some(k) = single_kind_of(c) {
            self.advance();
            let t = self.make_token(k, chars1(c));
            return Ok(Some(t));
        }
        if let Some((d, two, one)) = pair_kind_of(c) {
            self.advance();
            if self.matches(d) {
                let t = self.make_token(two, chars2(c, d));
                return Ok(Some(t));
            }
            let t = self.make_token(one, chars1(c));
            return Ok(Some(t));
        }
        if c == '/' {
            self.advance();
            if self.matches('/') {
                let ghost start = self.pos as int;
                let ghost col0 = old(self).col as int;
                while self.pos < self.source.len() && self.peek() != '\n'
                    invariant
                        self.wf(),
                        self.source == old(self).source,
                        src == old(self).source@,
                        start == pos0 + 2,
                        start <= self.pos,
                        scan_end(src, start, comment_class()) == scan_end(
                            src,
                            self.pos as int,
                            comment_class(),
                        ),
                        self.line == old(self).line,
                        self.col == col0 + (self.pos - pos0),
                    decreases self.source.len() - self.pos,
                {
                    self.advance();
                }
                return Ok(None);
            }
            let t = self.make_token(TokenType::Slash, chars1(c));
            return Ok(Some(t));
        }
        if c == '&' {
            self.advance();
            if self.matches('&') {
                let t = self.make_token(TokenType::And, chars2('&', '&'));
                return Ok(Some(t));
            }
            return Err(at_msg(string_from_str("Unexpected '&' at "), self.line, self.col));
        }
        if c == '"' {
            self.advance();
            let start_col = self.col;
            let ghost start = self.pos as int;
            let mut text: Vec<char> = Vec::new();
            while self.pos < self.source.len() && self.peek() != '"'
                invariant
                    self.wf(),
                    self.source == old(self).source,
                    src == old(self).source@,
                    start == pos0 + 1,
                    0 <= pos0 < src.len(),
                    src[pos0] == '"',
                    pos0 == old(self).pos,
                    start <= self.pos,
                    start_col == old(self).col + 1,
                    scan_end(src, start, string_body_class()) == scan_end(
                        src,
                        self.pos as int,
                        string_body_class(),
                    ),
                    self.line == old(self).line,
                    self.col == old(self).col + (self.pos - pos0),
                    text@ == src.subrange(start, self.pos as int),
                decreases self.source.len() - self.pos,
            {
                if self.peek() == '\n' {
                    assert(scan_end(src, self.pos as int, string_body_class()) == self.pos as int);
                    return Err(
                        at_msg(string_from_str("Unterminated string at "), self.line, start_col),
                    );
                }
                let ch = self.advance();
                text.push(ch);
                assert(text@ =~= src.subrange(start, self.pos as int));
            }
            if self.pos >= self.source.len() {
                return Err(at_msg(string_from_str("Unterminated string at "), self.line, start_col));
            }
            self.advance();
            return Ok(Some(Token::new(TokenType::String, string_from_chars(&text), self.line, start_col)));
        }
        if is_ascii_digit(c) {
            let start_col = self.col;
            let w = self.scan_word(Ghost(digit_class()), true);
            return Ok(Some(Token::new(TokenType::Number, string_from_chars(&w), self.line, start_col)));
        }
        if is_ascii_alpha(c) || c == '_' {
            let start_col = self.col;
            let w = self.scan_word(Ghost(ident_class()), false);
            let kind = word_kind_of(&w);
            return Ok(Some(Token::new(kind, string_from_chars(&w), self.line, start_col)));
        }
        let mut m = string_from_str("Unexpected character '");
        push_char(&mut m, c);
        append_str(&mut m, "' at ");
        assert(m@ =~= "Unexpected character '"@ + seq![c] + "' at "@);
        Err(at_msg(m, self.line, self.col))
    }

    /// Scans the rest of the source: the tokens, ending with `Eof`, or the
    /// first lexical error.
    pub fn tokenize(&mut self) -> (r: Result<Vec<Token>, String>)
        requires
            old(self).wf(),
        ensures
            final(self).wf(),
            final(self).chars() == old(self).chars(),
            ({
                let lr = lex(
                    old(self).chars(),
                    old(self).position(),
                    old(self).line_no(),
                    old(self).col_no(),
                    seq![],
                );
                &&& lex_result_view(r) == lr.tokens
                &&& final(self).position() == lr.pos
                &&& final(self).line_no() == lr.line
                &&& final(self).col_no() == lr.col
            }),
    {
        let ghost src = self.source@;
        let mut tokens: Vec<Token> = Vec::new();
        assert(tokens_view(tokens@) =~= seq![]);
        while self.pos < self.source.len()
            invariant
                self.wf(),
                self.source@ == src,
                src == old(self).source@,
                lex(src, old(self).pos as int, old(self).line as int, old(self).col as int, seq![])
                    == lex(src, self.pos as int, self.line as int, self.col as int, tokens_view(tokens@)),
            decreases self.source.len() - self.pos,
        {
            let ghost before = tokens_view(tokens@);
            let ghost (p0, l0, c0) = (self.pos as int, self.line as int, self.col as int);
            proof {
                lemma_step_advances(src, p0, l0, c0);
            }
            let r = self.scan_token();
            match r {
                Ok(None) => {},
                Ok(Some(t)) => {
                    tokens.push(t);
                    assert(tokens_view(tokens@) =~= before.push(t@));
                },
                Err(e) => {
                    return Err(e);
                },
            }
        }
        let ghost before = tokens_view(tokens@);
        let eof = Token::new(TokenType::Eof, string_from_chars(&chars3('E', 'O', 'F')), self.line, self.col);
        tokens.push(eof);
        assert(tokens_view(tokens@) =~= before.push(tv(TokenType::Eof, seq!['E', 'O', 'F'], self.line as int, self.col as int)));
        Ok(tokens)
    }

    /// Scans on while the next character is in `class`; returns the
    /// characters scanned.
    fn scan_word(&mut self, Ghost(class): Ghost<spec_fn(char) -> bool>, digits: bool) -> (w: Vec<char>)
        requires
            old(self).wf(),
            digits ==> class == digit_class(),
            !digits ==> class == ident_class(),
        ensures
            final(self).wf(),
            final(self).source == old(self).source,
            final(self).pos == scan_end(old(self).source@, old(self).pos as int, class),
            final(self).line == old(self).line,
            final(self).col == old(self).col + (final(self).pos - old(self).pos),
            w@ == old(self).source@.subrange(old(self).pos as int, final(self).pos as int),
    {
        let ghost start = self.pos as int;
        let mut w: Vec<char> = Vec::new();
        while self.pos < self.source.len() && word_char(self.source[self.pos], digits)
            invariant
                self.wf(),
                self.source == old(self).source,
                start == old(self).pos,
                start <= self.pos,
                digits ==> class == digit_class(),
                !digits ==> class == ident_class(),
                scan_end(self.source@, start, class) == scan_end(self.source@, self.pos as int, class),
                self.line == old(self).line,
                self.col == old(self).col + (self.pos - start),
                w@ == self.source@.subrange(start, self.pos as int),
            decreases self.source.len() - self.pos,
        {
            let c = self.advance();
            w.push(c);
            assert(w@ =~= self.source@.subrange(start, self.pos as int));
        }
        w
    }
}

/// The tokens of `source`, ending with `Eof`, or the first lexical error.
pub fn tokenize(source: &str) -> (r: Result<Vec<Token>, String>)
    requires
        source@.len() < usize::MAX,
    ensures
        lex_result_view(r) == spec_tokenize(source@),
        r matches Ok(v) ==> v@.len() >= 1 && v@.last().kind == TokenType::Eof,
{
    proof {
        lemma_tokenize_ends_with_eof(source@);
    }
    let mut lexer = Lexer::new(source);
    let r = lexer.tokenize();
    proof {
        if r is Ok {
            let v = r->Ok_0;
            assert(tokens_view(v@).last() == v@.last()@);
        }
    }
    r
}

} // verus!
