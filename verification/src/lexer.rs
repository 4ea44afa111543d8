//! The lexer: from source text to a sequence of tokens.
//!
//! The input is split on runs of whitespace, and each resulting word is
//! classified on its own, left to right:
//!
//! - a one-character word that is an operator symbol, a decimal digit, a
//!   colon, a semicolon or a letter becomes the corresponding token;
//! - any other one-character word is skipped;
//! - a longer word must be a well-formed double-precision literal and
//!   becomes a number token; a malformed literal stops lexing with an
//!   error.
//!
//! A number token carries the literal exactly as written.

use crate::literal::is_digit;
use crate::literal::is_float_literal;
use crate::literal::check_float_literal;
use crate::literal::digit;
use vstd::prelude::*;

verus! {

/// A binary operator of the language.  Every member takes exactly two
/// operands.
#[derive(Debug, Clone, Copy, PartialEq, Eq)]
pub enum Operator {
    /// `+`
    Add,
    /// `-`
    Sub,
    /// `*`
    Mul,
    /// `/`
    Div,
    /// `^`
    Pow,
}

/// A unary operator of the language.  Every member takes exactly one
/// operand.
#[derive(Debug, Clone, Copy, PartialEq, Eq)]
pub enum UnaryOperator {
    /// `#`, the natural logarithm
    Log,
}

/// A token of the language.
#[derive(Debug, PartialEq)]
pub enum Token {
    /// A numeric literal, carried as the text it was written with.
    Number(Vec<char>),
    /// A binary operator symbol.
    Operator(Operator),
    /// A unary operator symbol.
    Unary(UnaryOperator),
    /// A single-letter variable name.
    Ident(char),
    /// `:`, separating a variable name from its bound expression.
    Colon,
    /// `;`, terminating a statement.
    SemiColon,
}

/// The mathematical model of a token: the same shape, with the literal text
/// as a sequence.
pub enum TokenView {
    Number(Seq<char>),
    Operator(Operator),
    Unary(UnaryOperator),
    Ident(char),
    Colon,
    SemiColon,
}

impl DeepView for Token {
    type V = TokenView;

    open spec fn deep_view(&self) -> TokenView {
        match self {
            Token::Number(text) => TokenView::Number(text@),
            Token::Operator(op) => TokenView::Operator(*op),
            Token::Unary(op) => TokenView::Unary(*op),
            Token::Ident(c) => TokenView::Ident(*c),
            Token::Colon => TokenView::Colon,
            Token::SemiColon => TokenView::SemiColon,
        }
    }
}

/// Why lexing failed.
#[derive(Debug, Clone, Copy, PartialEq, Eq)]
pub enum LexError {
    /// A multi-character word that is not a well-formed double-precision
    /// literal.
    MalformedLiteral,
}

/// A whitespace character: the characters the standard library's
/// `char::is_whitespace` accepts, which is the Unicode `White_Space`
/// property.
pub open spec fn is_space(c: char) -> bool {
    c == ' ' || c == '\u{0009}' || c == '\u{000A}' || c == '\u{000B}' || c == '\u{000C}' || c
        == '\u{000D}' || c == '\u{0085}' || c == '\u{00A0}' || c == '\u{1680}' || c == '\u{2000}'
        || c == '\u{2001}' || c == '\u{2002}' || c == '\u{2003}' || c == '\u{2004}' || c
        == '\u{2005}' || c == '\u{2006}' || c == '\u{2007}' || c == '\u{2008}' || c == '\u{2009}'
        || c == '\u{200A}' || c == '\u{2028}' || c == '\u{2029}' || c == '\u{202F}' || c
        == '\u{205F}' || c == '\u{3000}'
}

/// An ASCII letter, the characters a variable name may consist of.
pub open spec fn is_letter(c: char) -> bool {
    ('a' <= c && c <= 'z') || ('A' <= c && c <= 'Z')
}

/// How a one-character word is classified: its token, or nothing when the
/// character is unrecognized and the word is skipped.
pub open spec fn classify_single(c: char) -> Option<TokenView> {
    if c == '+' {
        Some(TokenView::Operator(Operator::Add))
    } else if c == '-' {
        Some(TokenView::Operator(Operator::Sub))
    } else if c == '*' {
        Some(TokenView::Operator(Operator::Mul))
    } else if c == '/' {
        Some(TokenView::Operator(Operator::Div))
    } else if c == '^' {
        Some(TokenView::Operator(Operator::Pow))
    } else if c == '#' {
        Some(TokenView::Unary(UnaryOperator::Log))
    } else if is_digit(c) {
        Some(TokenView::Number(seq![c]))
    } else if c == ':' {
        Some(TokenView::Colon)
    } else if c == ';' {
        Some(TokenView::SemiColon)
    } else if is_letter(c) {
        Some(TokenView::Ident(c))
    } else {
        None
    }
}

/// How a word is classified: `Ok(Some)` a token, `Ok(None)` skipped,
/// `Err` a malformed literal.
pub open spec fn classify_word(w: Seq<char>) -> Result<Option<TokenView>, LexError>
    recommends
        w.len() > 0,
{
    if w.len() == 1 {
        Ok(classify_single(w[0]))
    } else if is_float_literal(w) {
        Ok(Some(TokenView::Number(w)))
    } else {
        Err(LexError::MalformedLiteral)
    }
}

/// The tokens gathered so far, extended with the classification of the word
/// just ended (nothing is added for an empty word or a skipped one).
pub open spec fn flush(acc: Seq<TokenView>, cur: Seq<char>) -> Result<Seq<TokenView>, LexError> {
    if cur.len() == 0 {
        Ok(acc)
    } else {
        match classify_word(cur) {
            Ok(Some(t)) => Ok(acc.push(t)),
            Ok(None) => Ok(acc),
            Err(e) => Err(e),
        }
    }
}

/// One left-to-right pass over the source from position `i`, with `cur` the
/// word gathered since the last whitespace and `acc` the tokens made so
/// far.
pub open spec fn lex_from(s: Seq<char>, i: int, cur: Seq<char>, acc: Seq<TokenView>) -> Result<
    Seq<TokenView>,
    LexError,
>
    decreases s.len() - i
        when 0 <= i <= s.len()
{
    if i >= s.len() {
        flush(acc, cur)
    } else if is_space(s[i]) {
        match flush(acc, cur) {
            Ok(a) => lex_from(s, i + 1, Seq::empty(), a),
            Err(e) => Err(e),
        }
    } else {
        lex_from(s, i + 1, cur.push(s[i]), acc)
    }
}

/// What lexing a whole source text yields.
pub open spec fn lex_spec(s: Seq<char>) -> Result<Seq<TokenView>, LexError> {
    lex_from(s, 0, Seq::empty(), Seq::empty())
}

/// The model of an executable lexing result.
pub open spec fn lex_result_view(r: Result<Vec<Token>, LexError>) -> Result<
    Seq<TokenView>,
    LexError,
> {
    match r {
        Ok(tokens) => Ok(tokens.deep_view()),
        Err(e) => Err(e),
    }
}

/// Law: lexing a one-character source holding a decimal digit yields
/// exactly the number token carrying that digit.
pub proof fn lemma_lex_digit(c: char)
    requires
        is_digit(c),
    ensures
        lex_spec(seq![c]) == Ok::<_, LexError>(seq![TokenView::Number(seq![c])]),
{
    let s = seq![c];
    assert(!is_space(c));
    assert(Seq::<char>::empty().push(c) =~= seq![c]);
    assert(lex_from(s, 1, seq![c], Seq::empty()) == flush(Seq::empty(), seq![c]));
    assert(classify_single(c) == Some(TokenView::Number(seq![c])));
    assert(Seq::<TokenView>::empty().push(TokenView::Number(seq![c])) =~= seq![
        TokenView::Number(seq![c]),
    ]);
}

/// Law: lexing a one-character source holding a recognized operator symbol
/// yields exactly the token of that operator.
pub proof fn lemma_lex_operator_symbol(c: char)
    requires
        c == '+' || c == '-' || c == '*' || c == '/' || c == '^' || c == '#',
    ensures
        c == '+' ==> lex_spec(seq![c]) == Ok::<_, LexError>(
            seq![TokenView::Operator(Operator::Add)],
        ),
        c == '-' ==> lex_spec(seq![c]) == Ok::<_, LexError>(
            seq![TokenView::Operator(Operator::Sub)],
        ),
        c == '*' ==> lex_spec(seq![c]) == Ok::<_, LexError>(
            seq![TokenView::Operator(Operator::Mul)],
        ),
        c == '/' ==> lex_spec(seq![c]) == Ok::<_, LexError>(
            seq![TokenView::Operator(Operator::Div)],
        ),
        c == '^' ==> lex_spec(seq![c]) == Ok::<_, LexError>(
            seq![TokenView::Operator(Operator::Pow)],
        ),
        c == '#' ==> lex_spec(seq![c]) == Ok::<_, LexError>(
            seq![TokenView::Unary(UnaryOperator::Log)],
        ),
{
    let s = seq![c];
    assert(!is_space(c));
    assert(Seq::<char>::empty().push(c) =~= seq![c]);
    assert(lex_from(s, 1, seq![c], Seq::empty()) == flush(Seq::empty(), seq![c]));
    let t = classify_single(c).unwrap();
    assert(Seq::<TokenView>::empty().push(t) =~= seq![t]);
}

/// Positions past `i1` of `s1` read the same as positions past `i2` of
/// `s2`, so lexing proceeds identically from there.
proof fn lemma_lex_from_aligned(
    s1: Seq<char>,
    i1: int,
    s2: Seq<char>,
    i2: int,
    cur: Seq<char>,
    acc: Seq<TokenView>,
)
    requires
        0 <= i1 <= s1.len(),
        0 <= i2 <= s2.len(),
        s1.subrange(i1, s1.len() as int) == s2.subrange(i2, s2.len() as int),
    ensures
        lex_from(s1, i1, cur, acc) == lex_from(s2, i2, cur, acc),
    decreases s1.len() - i1,
{
    assert(s1.subrange(i1, s1.len() as int).len() == s1.len() - i1);
    assert(s2.subrange(i2, s2.len() as int).len() == s2.len() - i2);
    assert(s1.subrange(i1, s1.len() as int).len() == s2.subrange(i2, s2.len() as int).len());
    assert(s1.len() - i1 == s2.len() - i2);
    if i1 == s1.len() {
        assert(s2.subrange(i2, s2.len() as int).len() == 0);
    } else {
        assert(s1[i1] == s1.subrange(i1, s1.len() as int)[0]);
        assert(s2[i2] == s2.subrange(i2, s2.len() as int)[0]);
        assert forall|k: int| 0 <= k < s1.len() - i1 - 1 implies #[trigger] s1.subrange(
            i1 + 1,
            s1.len() as int,
        )[k] == s2.subrange(i2 + 1, s2.len() as int)[k] by {
            assert(s1.subrange(i1 + 1, s1.len() as int)[k] == s1[i1 + 1 + k]);
            assert(s1[i1 + 1 + k] == s1.subrange(i1, s1.len() as int)[k + 1]);
            assert(s2.subrange(i2 + 1, s2.len() as int)[k] == s2[i2 + 1 + k]);
            assert(s2[i2 + 1 + k] == s2.subrange(i2, s2.len() as int)[k + 1]);
        }
        assert(s1.subrange(i1 + 1, s1.len() as int) =~= s2.subrange(i2 + 1, s2.len() as int));
        lemma_lex_from_aligned(s1, i1 + 1, s2, i2 + 1, cur.push(s1[i1]), acc);
        if is_space(s1[i1]) {
            match flush(acc, cur) {
                Ok(a) => {
                    lemma_lex_from_aligned(s1, i1 + 1, s2, i2 + 1, Seq::empty(), a);
                },
                Err(_) => {},
            }
        }
    }
}

/// Law: an unrecognized one-character token is dropped without affecting
/// the tokens around it — lexing a source with such a stray word is lexing
/// the same source without it.
pub proof fn lemma_unrecognized_symbol_dropped(pre: Seq<char>, c: char, post: Seq<char>)
    requires
        !is_space(c),
        classify_single(c) is None,
    ensures
        lex_spec(pre + seq![' ', c, ' '] + post) == lex_spec(pre + seq![' '] + post),
{
    lemma_unrecognized_from(pre, c, post, 0, Seq::empty(), Seq::empty());
}

/// The generalization of `lemma_unrecognized_symbol_dropped` over lexing
/// states, for the induction over the prefix.
proof fn lemma_unrecognized_from(
    pre: Seq<char>,
    c: char,
    post: Seq<char>,
    i: int,
    cur: Seq<char>,
    acc: Seq<TokenView>,
)
    requires
        !is_space(c),
        classify_single(c) is None,
        0 <= i <= pre.len(),
    ensures
        lex_from(pre + seq![' ', c, ' '] + post, i, cur, acc) == lex_from(
            pre + seq![' '] + post,
            i,
            cur,
            acc,
        ),
    decreases pre.len() - i,
{
    let sa = pre + seq![' ', c, ' '] + post;
    let sb = pre + seq![' '] + post;
    assert(sa.len() == pre.len() + 3 + post.len());
    assert(sb.len() == pre.len() + 1 + post.len());
    if i < pre.len() {
        assert(sa[i] == pre[i]);
        assert(sb[i] == pre[i]);
        if is_space(pre[i]) {
            match flush(acc, cur) {
                Ok(a) => {
                    lemma_unrecognized_from(pre, c, post, i + 1, Seq::empty(), a);
                },
                Err(_) => {},
            }
        } else {
            lemma_unrecognized_from(pre, c, post, i + 1, cur.push(pre[i]), acc);
        }
    } else {
        let n = pre.len() as int;
        assert(sa[n] == ' ');
        assert(sb[n] == ' ');
        match flush(acc, cur) {
            Ok(a) => {
                assert(sa[n + 1] == c);
                assert(sa[n + 2] == ' ');
                assert(lex_from(sa, n + 1, Seq::empty(), a) == lex_from(
                    sa,
                    n + 2,
                    Seq::empty().push(c),
                    a,
                ));
                assert(Seq::<char>::empty().push(c) =~= seq![c]);
                assert(flush(a, seq![c]) == Ok::<_, LexError>(a));
                assert(lex_from(sa, n + 2, seq![c], a) == lex_from(sa, n + 3, Seq::empty(), a));
                assert(sa.subrange(n + 3, sa.len() as int) =~= sb.subrange(
                    n + 1,
                    sb.len() as int,
                ));
                lemma_lex_from_aligned(sa, n + 3, sb, n + 1, Seq::empty(), a);
            },
            Err(_) => {},
        }
    }
}

/// Decides whether `c` is a whitespace character.
fn space(c: char) -> (r: bool)
    ensures
        r == is_space(c),
{
    c == ' ' || c == '\u{0009}' || c == '\u{000A}' || c == '\u{000B}' || c == '\u{000C}' || c
        == '\u{000D}' || c == '\u{0085}' || c == '\u{00A0}' || c == '\u{1680}' || c == '\u{2000}'
        || c == '\u{2001}' || c == '\u{2002}' || c == '\u{2003}' || c == '\u{2004}' || c
        == '\u{2005}' || c == '\u{2006}' || c == '\u{2007}' || c == '\u{2008}' || c == '\u{2009}'
        || c == '\u{200A}' || c == '\u{2028}' || c == '\u{2029}' || c == '\u{202F}' || c
        == '\u{205F}' || c == '\u{3000}'
}

/// Classifies the finished word `w` (moved in, so a number token can keep
/// its text without copying).
fn classify(w: Vec<char>) -> (r: Result<Option<Token>, LexError>)
    requires
        w@.len() > 0,
    ensures
        (match r {
            Ok(Some(t)) => Ok(Some(t.deep_view())),
            Ok(None) => Ok(None),
            Err(e) => Err(e),
        }) == classify_word(w@),
{
    if w.len() == 1 {
        let c = w[0];
        if c == '+' {
            Ok(Some(Token::Operator(Operator::Add)))
        } else if c == '-' {
            Ok(Some(Token::Operator(Operator::Sub)))
        } else if c == '*' {
            Ok(Some(Token::Operator(Operator::Mul)))
        } else if c == '/' {
            Ok(Some(Token::Operator(Operator::Div)))
        } else if c == '^' {
            Ok(Some(Token::Operator(Operator::Pow)))
        } else if c == '#' {
            Ok(Some(Token::Unary(UnaryOperator::Log)))
        } else if digit(c) {
            proof {
                assert(w@ =~= seq![c]);
            }
            Ok(Some(Token::Number(w)))
        } else if c == ':' {
            Ok(Some(Token::Colon))
        } else if c == ';' {
            Ok(Some(Token::SemiColon))
        } else if ('a' <= c && c <= 'z') || ('A' <= c && c <= 'Z') {
            Ok(Some(Token::Ident(c)))
        } else {
            Ok(None)
        }
    } else if check_float_literal(&w) {
        Ok(Some(Token::Number(w)))
    } else {
        Err(LexError::MalformedLiteral)
    }
}

/// Lexes a source text into its token sequence, or reports the malformed
/// literal that stopped it.
pub fn lex(input: &str) -> (r: Result<Vec<Token>, LexError>)
    ensures
        lex_result_view(r) == lex_spec(input@),
{
    let n = input.unicode_len();
    let mut tokens: Vec<Token> = Vec::new();
    let mut cur: Vec<char> = Vec::new();
    let mut i: usize = 0;
    proof {
        assert(cur@ =~= Seq::<char>::empty());
        assert(tokens.deep_view() =~= Seq::<TokenView>::empty());
    }
    while i < n
        invariant
            i <= n,
            n == input@.len(),
            lex_spec(input@) == lex_from(input@, i as int, cur@, tokens.deep_view()),
        decreases n - i,
    {
        let ghost pre_cur = cur@;
        let ghost pre_acc = tokens.deep_view();
        let c = input.get_char(i);
        if space(c) {
            if cur.len() > 0 {
                let ghost prev = tokens.deep_view();
                match classify(cur) {
                    Ok(Some(t)) => {
                        tokens.push(t);
                        proof {
                            assert(tokens.deep_view() =~= prev.push(t.deep_view()));
                        }
                    },
                    Ok(None) => {},
                    Err(e) => {
                        proof {
                            assert(lex_from(input@, i as int, pre_cur, pre_acc) == Err::<
                                Seq<TokenView>,
                                _,
                            >(e));
                        }
                        return Err(e);
                    },
                }
                cur = Vec::new();
            }
            proof {
                assert(cur@ =~= Seq::<char>::empty());
                assert(flush(pre_acc, pre_cur) == Ok::<_, LexError>(tokens.deep_view()));
                assert(lex_from(input@, i as int, pre_cur, pre_acc) == lex_from(
                    input@,
                    i + 1,
                    Seq::empty(),
                    tokens.deep_view(),
                ));
            }
        } else {
            cur.push(c);
            proof {
                assert(cur@ == pre_cur.push(input@[i as int]));
                assert(lex_from(input@, i as int, pre_cur, pre_acc) == lex_from(
                    input@,
                    i + 1,
                    cur@,
                    pre_acc,
                ));
            }
        }
        i = i + 1;
    }
    if cur.len() > 0 {
        let ghost prev = tokens.deep_view();
        match classify(cur) {
            Ok(Some(t)) => {
                tokens.push(t);
                proof {
                    assert(tokens.deep_view() =~= prev.push(t.deep_view()));
                }
            },
            Ok(None) => {},
            Err(e) => {
                return Err(e);
            },
        }
    }
    Ok(tokens)
}

} // verus!
