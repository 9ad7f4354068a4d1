//! What tokens are spelled.

use crate::error::ErrV;
use crate::syntax::lexer::{
    continues_name, digits_end, digits_value, double, is_digit, name_end, single, starts_name,
    string_from, token_at,
};
use crate::syntax::token::{keyword_of, TokenKindV};
use vstd::prelude::*;

verus! {

/// How a keyword is spelled.
pub open spec fn keyword_word(kind: TokenKindV) -> Option<Seq<char>> {
    match kind {
        TokenKindV::Let => Some("let"@),
        TokenKindV::Final => Some("final"@),
        TokenKindV::Const => Some("const"@),
        TokenKindV::Fn => Some("fn"@),
        TokenKindV::Op => Some("op"@),
        TokenKindV::Class => Some("class"@),
        TokenKindV::Extends => Some("extends"@),
        TokenKindV::Extend => Some("extend"@),
        TokenKindV::Override => Some("override"@),
        TokenKindV::Explicit => Some("explicit"@),
        TokenKindV::Private => Some("private"@),
        TokenKindV::Protected => Some("protected"@),
        TokenKindV::Public => Some("public"@),
        TokenKindV::Sealed => Some("sealed"@),
        TokenKindV::Complete => Some("complete"@),
        TokenKindV::If => Some("if"@),
        TokenKindV::Else => Some("else"@),
        TokenKindV::While => Some("while"@),
        TokenKindV::For => Some("for"@),
        TokenKindV::In => Some("in"@),
        TokenKindV::Return => Some("return"@),
        TokenKindV::Try => Some("try"@),
        TokenKindV::Catch => Some("catch"@),
        TokenKindV::Throw => Some("throw"@),
        TokenKindV::Import => Some("import"@),
        TokenKindV::From => Some("from"@),
        TokenKindV::True => Some("true"@),
        TokenKindV::False => Some("false"@),
        TokenKindV::Nil => Some("nil"@),
        TokenKindV::Super => Some("super"@),
        TokenKindV::Is => Some("is"@),
        _ => None,
    }
}

/// How an operator or a mark is spelled.
pub open spec fn mark(kind: TokenKindV) -> Option<Seq<char>> {
    match kind {
        TokenKindV::LParen => Some(seq!['(']),
        TokenKindV::RParen => Some(seq![')']),
        TokenKindV::LBrace => Some(seq!['{']),
        TokenKindV::RBrace => Some(seq!['}']),
        TokenKindV::LBracket => Some(seq!['[']),
        TokenKindV::RBracket => Some(seq![']']),
        TokenKindV::Comma => Some(seq![',']),
        TokenKindV::Dot => Some(seq!['.']),
        TokenKindV::Colon => Some(seq![':']),
        TokenKindV::Semi => Some(seq![';']),
        TokenKindV::Question => Some(seq!['?']),
        TokenKindV::Plus => Some(seq!['+']),
        TokenKindV::Minus => Some(seq!['-']),
        TokenKindV::Star => Some(seq!['*']),
        TokenKindV::Slash => Some(seq!['/']),
        TokenKindV::Percent => Some(seq!['%']),
        TokenKindV::Assign => Some(seq!['=']),
        TokenKindV::Not => Some(seq!['!']),
        TokenKindV::Lt => Some(seq!['<']),
        TokenKindV::Gt => Some(seq!['>']),
        TokenKindV::SlashSlash => Some(seq!['/', '/']),
        TokenKindV::Eq => Some(seq!['=', '=']),
        TokenKindV::Ne => Some(seq!['!', '=']),
        TokenKindV::Le => Some(seq!['<', '=']),
        TokenKindV::Ge => Some(seq!['>', '=']),
        TokenKindV::AndAnd => Some(seq!['&', '&']),
        TokenKindV::OrOr => Some(seq!['|', '|']),
        TokenKindV::PlusAssign => Some(seq!['+', '=']),
        TokenKindV::MinusAssign => Some(seq!['-', '=']),
        TokenKindV::StarAssign => Some(seq!['*', '=']),
        TokenKindV::SlashAssign => Some(seq!['/', '=']),
        TokenKindV::PercentAssign => Some(seq!['%', '=']),
        _ => None,
    }
}

proof fn lemma_keyword(word: Seq<char>)
    ensures
        keyword_of(word) is Some ==> keyword_word(keyword_of(word)->0) == Some(word),
        keyword_of(word) is Some ==> mark(keyword_of(word)->0) is None,
        keyword_of(word) is Some ==> !(keyword_of(word)->0 is Ident),
        keyword_of(word) is Some ==> !(keyword_of(word)->0 is Int),
        keyword_of(word) is Some ==> !(keyword_of(word)->0 is Eof),
{
}

proof fn lemma_name_end(cs: Seq<char>, i: int)
    requires
        0 <= i <= cs.len(),
    ensures
        i <= name_end(cs, i) <= cs.len(),
        forall|k: int| i <= k < name_end(cs, i) ==> continues_name(#[trigger] cs[k]),
        name_end(cs, i) < cs.len() ==> !continues_name(cs[name_end(cs, i)]),
    decreases cs.len() - i,
{
    if i < cs.len() && continues_name(cs[i]) {
        lemma_name_end(cs, i + 1);
    }
}

proof fn lemma_string_kind(cs: Seq<char>, start: int, i: int, done: Seq<char>)
    requires
        0 <= i <= cs.len(),
    ensures
        string_from(cs, start, i, done) is Ok ==> (string_from(cs, start, i, done)->Ok_0).0 is Str,
        string_from(cs, start, i, done) is Ok ==> i < (string_from(cs, start, i, done)->Ok_0).1 <= cs.len(),
        string_from(cs, start, i, done) is Ok ==> cs[(string_from(cs, start, i, done)->Ok_0).1 - 1] == '"',
    decreases cs.len() - i,
{
    if i < cs.len() {
        if cs[i] == '\\' {
            if i + 1 < cs.len() {
                if let Some(c) = crate::syntax::lexer::escaped(cs[i + 1]) {
                    lemma_string_kind(cs, start, i + 2, done.push(c));
                }
            }
        } else if cs[i] != '"' {
            lemma_string_kind(cs, start, i + 1, done.push(cs[i]));
        }
    }
}

/// A token stands for what it is spelled: a mark, an operator and a keyword for its own
/// characters, and a name for the whole of the name, which goes on for as long as it can.
pub proof fn law_a_token_is_what_it_is_spelled(cs: Seq<char>, i: int, kind: TokenKindV, end: int)
    requires
        0 <= i < cs.len(),
        token_at(cs, i) == Ok::<(TokenKindV, int), ErrV>((kind, end)),
    ensures
        mark(kind) is Some ==> end <= cs.len() && cs.subrange(i, end) == mark(kind)->0,
        keyword_word(kind) is Some ==> cs.subrange(i, end) == keyword_word(kind)->0,
        kind is Ident ==> cs.subrange(i, end) == kind->Ident_0 && keyword_of(kind->Ident_0) is None,
        kind is Ident || keyword_word(kind) is Some ==> starts_name(cs[i]) && (end < cs.len() ==> !continues_name(
            cs[end],
        )),
        kind is Str ==> cs[i] == '"' && cs[end - 1] == '"',
        kind is Int || kind is Float ==> is_digit(cs[i]),
        i < end <= cs.len(),
{
    let c = cs[i];
    if i + 1 < cs.len() && double(c, cs[i + 1]) is Some {
        assert(cs.subrange(i, i + 2) =~= seq![c, cs[i + 1]]);
    } else if single(c) is Some {
        assert(cs.subrange(i, i + 1) =~= seq![c]);
    } else if c == '"' {
        lemma_string_kind(cs, i, i + 1, Seq::empty());
    } else if is_digit(c) {
        lemma_digits_end(cs, i);
        let whole = digits_end(cs, i);
        assert(whole > i) by {
            lemma_digits_end(cs, i + 1);
        }
        if whole + 1 < cs.len() {
            lemma_digits_end(cs, whole + 1);
        }
    } else if starts_name(c) {
        lemma_name_end(cs, i + 1);
        lemma_keyword(cs.subrange(i, name_end(cs, i + 1)));
    }
}

proof fn lemma_digits_end(cs: Seq<char>, i: int)
    requires
        0 <= i <= cs.len(),
    ensures
        i <= digits_end(cs, i) <= cs.len(),
        forall|k: int| i <= k < digits_end(cs, i) ==> is_digit(#[trigger] cs[k]),
        digits_end(cs, i) < cs.len() ==> !is_digit(cs[digits_end(cs, i)]),
    decreases cs.len() - i,
{
    if i < cs.len() && is_digit(cs[i]) {
        lemma_digits_end(cs, i + 1);
    }
}

/// Two characters that make an operator together are never read as the first alone.
pub proof fn law_the_longer_operator_is_read(cs: Seq<char>, i: int, longer: TokenKindV)
    requires
        0 <= i,
        i + 1 < cs.len(),
        mark(longer) == Some(cs.subrange(i, i + 2)),
    ensures
        token_at(cs, i) == Ok::<(TokenKindV, int), ErrV>((longer, i + 2)),
{
    let two = cs.subrange(i, i + 2);
    assert(two.len() == 2);
    assert(two[0] == cs[i] && two[1] == cs[i + 1]);
}

/// An int literal is worth what its digits write: a digit more is ten times as much and the
/// digit.
pub proof fn law_a_digit_more_is_ten_times_as_much(cs: Seq<char>, i: int, j: int)
    requires
        0 <= i <= j < cs.len(),
        is_digit(cs[j]),
    ensures
        digits_value(cs, i, i) == 0,
        digits_value(cs, i, j + 1) == digits_value(cs, i, j) * 10 + (cs[j] as u32 - '0' as u32),
{
}

} // verus!
