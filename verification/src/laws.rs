//! What holds of every input: the laws of the scanning machine, proved from
//! its transition table.

use vstd::prelude::*;
use crate::decimal::{all_digits, decimal_value, is_digit};
use crate::machine::{
    is_letter, is_skipped, is_word, is_word_char, keyword, lexeme_fits, number_token, run, scan,
    single, step, text_of, token_before, token_stream, token_then, word_token,
};
use crate::state::StateView;
use crate::tokens::TokenView;

verus! {

/// The eleven characters that are tokens by themselves, each with its
/// token, and no others.
pub proof fn lemma_single_table()
    ensures
        single('+') == Some(TokenView::PLUS),
        single('-') == Some(TokenView::MINUS),
        single('*') == Some(TokenView::MULTIPLY),
        single(';') == Some(TokenView::SEMICOLON),
        single(',') == Some(TokenView::COMMA),
        single('(') == Some(TokenView::L_PAREN),
        single(')') == Some(TokenView::R_PAREN),
        single('[') == Some(TokenView::L_BRACK),
        single(']') == Some(TokenView::R_BRACK),
        single('{') == Some(TokenView::L_BRACE),
        single('}') == Some(TokenView::R_BRACE),
        forall|c: char|
            #[trigger] single(c) is Some <==> (c == '+' || c == '-' || c == '*' || c == ';' || c
                == ',' || c == '(' || c == ')' || c == '[' || c == ']' || c == '{' || c == '}'),
{
}

/// The six keywords, each with its token. Keywords are spelled in lower
/// case, and no other text is a keyword.
pub proof fn lemma_keyword_table()
    ensures
        keyword("if"@) == Some(TokenView::IF),
        keyword("else"@) == Some(TokenView::ELSE),
        keyword("while"@) == Some(TokenView::WHILE),
        keyword("void"@) == Some(TokenView::VOID),
        keyword("int"@) == Some(TokenView::INT),
        keyword("return"@) == Some(TokenView::RETURN),
        forall|text: Seq<char>|
            #[trigger] keyword(text) is Some <==> (text == "if"@ || text == "else"@ || text
                == "while"@ || text == "void"@ || text == "int"@ || text == "return"@),
{
    reveal_strlit("if");
    reveal_strlit("else");
    reveal_strlit("while");
    reveal_strlit("void");
    reveal_strlit("int");
    reveal_strlit("return");
    assert("if"@.len() == 2);
    assert("else"@.len() == 4 && "else"@[0] == 'e');
    assert("while"@.len() == 5);
    assert("void"@.len() == 4 && "void"@[0] == 'v');
    assert("int"@.len() == 3);
    assert("return"@.len() == 6);
}

/// The characters that begin nothing are all but the letters, the digits
/// and the sixteen characters of operators and punctuation.
pub proof fn lemma_skipped_characters(c: char)
    ensures
        is_skipped(c) <==> !(is_letter(c) || is_digit(c) || c == '+' || c == '-' || c == '*' || c
            == '/' || c == '!' || c == '=' || c == '<' || c == '>' || c == ';' || c == ',' || c
            == '(' || c == ')' || c == '[' || c == ']' || c == '{' || c == '}'),
{
}

/// Between lexemes, a character that is a token by itself completes that
/// token at once: nothing is collected and nothing is handed back.
pub proof fn lemma_step_single(lexeme: Seq<char>, c: char)
    requires
        single(c) is Some,
    ensures
        step(StateView::Start, lexeme, c).state == StateView::Done(single(c)->0),
        step(StateView::Start, lexeme, c).lexeme == lexeme,
        !step(StateView::Start, lexeme, c).pushback,
{
}

/// Between lexemes, a character that begins nothing leaves the machine
/// where it is: no token, nothing collected, nothing handed back.
pub proof fn lemma_step_skipped(lexeme: Seq<char>, c: char)
    requires
        is_skipped(c),
    ensures
        step(StateView::Start, lexeme, c).state == StateView::Start,
        step(StateView::Start, lexeme, c).lexeme == lexeme,
        !step(StateView::Start, lexeme, c).pushback,
{
}

/// Inside a comment only `*` and, directly after it, `/` matter: `*` leads
/// to the state after a star, `/` leads from there out of the comment, and
/// every other character leads back into the comment. No character of a
/// comment completes a token, is collected or is handed back.
pub proof fn lemma_step_comment(state: StateView, lexeme: Seq<char>, c: char)
    requires
        state is InComment || state is InStar,
    ensures
        step(state, lexeme, c).state == if state is InComment {
            if c == '*' {
                StateView::InStar
            } else {
                StateView::InComment
            }
        } else {
            if c == '/' {
                StateView::Start
            } else {
                StateView::InComment
            }
        },
        !(step(state, lexeme, c).state is Done),
        step(state, lexeme, c).lexeme == lexeme,
        !step(state, lexeme, c).pushback,
{
}

/// After `/`, `=`, `<` or `>`, a character that does not lengthen the
/// operator completes the operator of one character and is handed back;
/// nothing is collected.
pub proof fn lemma_step_short_operator(state: StateView, lexeme: Seq<char>, c: char)
    requires
        state is InSlash || state is InEqual || state is InLess || state is InGreat,
        state is InSlash ==> c != '*',
        !(state is InSlash) ==> c != '=',
    ensures
        step(state, lexeme, c).state == StateView::Done(
            if state is InSlash {
                TokenView::DIVIDE
            } else if state is InEqual {
                TokenView::ASSIGN
            } else if state is InLess {
                TokenView::LESS_THAN
            } else {
                TokenView::GREATER_THAN
            },
        ),
        step(state, lexeme, c).lexeme == lexeme,
        step(state, lexeme, c).pushback,
{
}

/// Inside a name, a character that cannot stand in a name completes the
/// name: the token is the keyword that the collected text spells, or an
/// identifier with exactly that text. The collected text is dropped and
/// the character is handed back.
pub proof fn lemma_step_word_exit(lexeme: Seq<char>, c: char)
    requires
        !is_word_char(c),
    ensures
        step(StateView::InID, lexeme, c).state == StateView::Done(word_token(lexeme)),
        keyword(lexeme) is None ==> word_token(lexeme) == TokenView::IDENTIFIER(lexeme),
        keyword(lexeme) is Some ==> word_token(lexeme) == keyword(lexeme)->0,
        step(StateView::InID, lexeme, c).lexeme == Seq::<char>::empty(),
        step(StateView::InID, lexeme, c).pushback,
{
}

/// Inside a number, a character that is no digit completes the number. The
/// collected digits are dropped and the character is handed back.
pub proof fn lemma_step_number_exit(lexeme: Seq<char>, c: char)
    requires
        !is_digit(c),
    ensures
        step(StateView::InNum, lexeme, c).state == StateView::Done(number_token(lexeme)),
        step(StateView::InNum, lexeme, c).lexeme == Seq::<char>::empty(),
        step(StateView::InNum, lexeme, c).pushback,
{
}

/// Every transition keeps the collected text in step with the state: text
/// is collected only inside a name or a number, and is dropped as soon as
/// the lexeme is complete. A character is handed back only when a token is
/// complete, and never by the first transition of a token, so at most one
/// character is ever held back.
pub proof fn lemma_step_keeps_lexeme(state: StateView, lexeme: Seq<char>, c: char)
    requires
        lexeme_fits(state, lexeme),
    ensures
        lexeme_fits(step(state, lexeme, c).state, step(state, lexeme, c).lexeme),
        step(state, lexeme, c).pushback ==> step(state, lexeme, c).state is Done && !(state
            is Start),
{
}

/// A run that starts inside a lexeme leaves at most the input it was given;
/// one that starts between lexemes uses up at least one byte.
pub proof fn lemma_run_advances(state: StateView, lexeme: Seq<char>, input: Seq<u8>)
    ensures
        match run(state, lexeme, input) {
            Some(found) => found.rest.len() <= input.len() && (state is Start ==> found.rest.len()
                < input.len()),
            None => true,
        },
    decreases input.len(),
{
    if input.len() > 0 {
        let taken = step(state, lexeme, input[0] as char);
        if !(taken.state is Done) {
            lemma_run_advances(taken.state, taken.lexeme, input.drop_first());
        }
    }
}

/// What a run leaves unread is the end of its input. Where the last byte
/// read was handed back, it is the first of what is left.
pub proof fn lemma_run_rest_is_suffix(state: StateView, lexeme: Seq<char>, input: Seq<u8>)
    ensures
        match run(state, lexeme, input) {
            Some(found) => {
                &&& found.rest.len() <= input.len()
                &&& found.rest == input.subrange(
                    input.len() - found.rest.len(),
                    input.len() as int,
                )
                &&& found.pushback ==> found.rest.len() >= 1
                &&& !found.pushback ==> found.rest.len() < input.len()
            },
            None => true,
        },
    decreases input.len(),
{
    if input.len() > 0 {
        let taken = step(state, lexeme, input[0] as char);
        let shorter = input.drop_first();
        if taken.state is Done {
            assert(input =~= input.subrange(0, input.len() as int));
            assert(shorter =~= input.subrange(1, input.len() as int));
        } else {
            lemma_run_rest_is_suffix(taken.state, taken.lexeme, shorter);
            let found = run(taken.state, taken.lexeme, shorter);
            if found is Some {
                let rest = found->0.rest;
                assert(shorter.subrange(shorter.len() - rest.len(), shorter.len() as int)
                    =~= input.subrange(input.len() - rest.len(), input.len() as int));
            }
        }
    }
}

/// What a scan leaves unread is the end of its input, shorter than the
/// input by at least one byte.
pub proof fn lemma_scan_rest_is_suffix(input: Seq<u8>)
    ensures
        match scan(input) {
            Some(found) => {
                &&& found.rest.len() < input.len()
                &&& found.rest == input.subrange(
                    input.len() - found.rest.len(),
                    input.len() as int,
                )
                &&& found.pushback ==> found.rest.len() >= 1
            },
            None => true,
        },
{
    lemma_run_rest_is_suffix(StateView::Start, Seq::empty(), input);
    lemma_run_advances(StateView::Start, Seq::empty(), input);
}

/// Each token uses up at least one byte of input, so scanning ends.
pub proof fn lemma_scan_advances(input: Seq<u8>)
    ensures
        match scan(input) {
            Some(found) => found.rest.len() < input.len(),
            None => true,
        },
{
    lemma_run_advances(StateView::Start, Seq::empty(), input);
}

/// The tokens of an input are its first token followed by the tokens of
/// what that token leaves unread; an input without a first token has none.
pub proof fn lemma_stream_unfolds(input: Seq<u8>)
    ensures
        token_stream(input) == match scan(input) {
            Some(found) => seq![found.token] + token_stream(found.rest),
            None => Seq::empty(),
        },
{
    lemma_scan_advances(input);
}

/// A character that is a token by itself is scanned as that token, whatever
/// follows it, and alone it is the whole token stream.
pub proof fn lemma_single_character(c: u8, rest: Seq<u8>)
    requires
        single(c as char) is Some,
    ensures
        scan(seq![c] + rest) == token_then(single(c as char)->0, rest),
        scan(Seq::<u8>::empty()) is None,
        token_stream(seq![c]) == seq![single(c as char)->0],
{
    let input = seq![c] + rest;
    assert(input[0] == c);
    assert(input.drop_first() =~= rest);
    let alone = seq![c];
    assert(alone =~= seq![c] + Seq::<u8>::empty());
    assert(alone.drop_first() =~= Seq::<u8>::empty());
    lemma_stream_unfolds(alone);
    lemma_stream_unfolds(Seq::<u8>::empty());
    assert(seq![single(c as char)->0] + Seq::<TokenView>::empty() =~= seq![
        single(c as char)->0,
    ]);
}

/// Inside a name, characters that may stand in a name are collected and
/// nothing else happens.
pub proof fn lemma_run_through_word(lexeme: Seq<char>, word: Seq<u8>, tail: Seq<u8>)
    requires
        forall|i: int| 0 <= i < word.len() ==> is_word_char(#[trigger] word[i] as char),
    ensures
        run(StateView::InID, lexeme, word + tail) == run(
            StateView::InID,
            lexeme + text_of(word),
            tail,
        ),
    decreases word.len(),
{
    if word.len() == 0 {
        assert(word + tail =~= tail);
        assert(lexeme + text_of(word) =~= lexeme);
    } else {
        let input = word + tail;
        let c = word[0] as char;
        assert(input[0] == word[0]);
        assert(is_word_char(c));
        assert(input.drop_first() =~= word.drop_first() + tail);
        lemma_run_through_word(lexeme.push(c), word.drop_first(), tail);
        assert(lexeme.push(c) + text_of(word.drop_first()) =~= lexeme + text_of(word));
    }
}

/// Inside a number, digits are collected and nothing else happens.
pub proof fn lemma_run_through_digits(lexeme: Seq<char>, digits: Seq<u8>, tail: Seq<u8>)
    requires
        all_digits(text_of(digits)),
    ensures
        run(StateView::InNum, lexeme, digits + tail) == run(
            StateView::InNum,
            lexeme + text_of(digits),
            tail,
        ),
    decreases digits.len(),
{
    if digits.len() == 0 {
        assert(digits + tail =~= tail);
        assert(lexeme + text_of(digits) =~= lexeme);
    } else {
        let input = digits + tail;
        let c = digits[0] as char;
        assert(input[0] == digits[0]);
        assert(text_of(digits)[0] == c);
        assert(is_digit(c));
        assert(input.drop_first() =~= digits.drop_first() + tail);
        assert forall|i: int| 0 <= i < text_of(digits.drop_first()).len() implies is_digit(
            #[trigger] text_of(digits.drop_first())[i],
        ) by {
            assert(text_of(digits.drop_first())[i] == text_of(digits)[i + 1]);
        }
        lemma_run_through_digits(lexeme.push(c), digits.drop_first(), tail);
        assert(lexeme.push(c) + text_of(digits.drop_first()) =~= lexeme + text_of(digits));
    }
}

/// A name that is followed by a character which cannot stand in a name is
/// scanned as one token, its keyword or an identifier, and the character
/// that follows is left unread.
pub proof fn lemma_word(word: Seq<u8>, next: u8, rest: Seq<u8>)
    requires
        is_word(text_of(word)),
        !is_word_char(next as char),
    ensures
        scan(word + seq![next] + rest) == token_before(
            word_token(text_of(word)),
            seq![next] + rest,
        ),
{
    let text = text_of(word);
    let tail = seq![next] + rest;
    let input = word + seq![next] + rest;
    let first = word[0] as char;
    assert(text[0] == first);
    assert(is_letter(first));
    assert(input[0] == word[0]);
    assert(input.drop_first() =~= word.drop_first() + tail);
    assert forall|i: int| 0 <= i < word.drop_first().len() implies is_word_char(
        #[trigger] word.drop_first()[i] as char,
    ) by {
        assert(text[i + 1] == word.drop_first()[i] as char);
    }
    lemma_run_through_word(seq![first], word.drop_first(), tail);
    assert(seq![first] + text_of(word.drop_first()) =~= text);
    assert(tail[0] == next);
}

/// The six keywords have the shape of names.
pub proof fn lemma_keywords_are_words(text: Seq<char>)
    requires
        keyword(text) is Some,
    ensures
        is_word(text),
{
    reveal_strlit("if");
    reveal_strlit("else");
    reveal_strlit("while");
    reveal_strlit("void");
    reveal_strlit("int");
    reveal_strlit("return");
}

/// A keyword that is followed by a character which cannot stand in a name
/// is scanned as its keyword token, never as an identifier.
pub proof fn lemma_keyword(word: Seq<u8>, next: u8, rest: Seq<u8>)
    requires
        keyword(text_of(word)) is Some,
        !is_word_char(next as char),
    ensures
        scan(word + seq![next] + rest) == token_before(
            keyword(text_of(word))->0,
            seq![next] + rest,
        ),
        !(keyword(text_of(word))->0 is IDENTIFIER),
{
    lemma_keywords_are_words(text_of(word));
    lemma_word(word, next, rest);
}

/// A name that is no keyword, followed by a character which cannot stand
/// in a name, is scanned as an identifier with exactly that name.
pub proof fn lemma_identifier(word: Seq<u8>, next: u8, rest: Seq<u8>)
    requires
        is_word(text_of(word)),
        keyword(text_of(word)) is None,
        !is_word_char(next as char),
    ensures
        scan(word + seq![next] + rest) == token_before(
            TokenView::IDENTIFIER(text_of(word)),
            seq![next] + rest,
        ),
{
    lemma_word(word, next, rest);
}

/// A run of digits that is followed by a character which is no digit is
/// scanned as one token: the number it denotes in base ten where that fits
/// in 32 bits, an error token where it does not.
pub proof fn lemma_digits(digits: Seq<u8>, next: u8, rest: Seq<u8>)
    requires
        digits.len() >= 1,
        all_digits(text_of(digits)),
        !is_digit(next as char),
    ensures
        scan(digits + seq![next] + rest) == token_before(
            number_token(text_of(digits)),
            seq![next] + rest,
        ),
{
    let text = text_of(digits);
    let tail = seq![next] + rest;
    let input = digits + seq![next] + rest;
    let first = digits[0] as char;
    assert(text[0] == first);
    assert(is_digit(first));
    assert(input[0] == digits[0]);
    assert(input.drop_first() =~= digits.drop_first() + tail);
    assert forall|i: int| 0 <= i < text_of(digits.drop_first()).len() implies is_digit(
        #[trigger] text_of(digits.drop_first())[i],
    ) by {
        assert(text_of(digits.drop_first())[i] == text[i + 1]);
    }
    lemma_run_through_digits(seq![first], digits.drop_first(), tail);
    assert(seq![first] + text_of(digits.drop_first()) =~= text);
    assert(tail[0] == next);
}

/// A run of digits whose value fits in 32 bits, followed by a character
/// which is no digit, is scanned as the number with that value.
pub proof fn lemma_number(digits: Seq<u8>, next: u8, rest: Seq<u8>)
    requires
        digits.len() >= 1,
        all_digits(text_of(digits)),
        decimal_value(text_of(digits)) <= u32::MAX,
        !is_digit(next as char),
    ensures
        scan(digits + seq![next] + rest) == token_before(
            TokenView::NUMBER(decimal_value(text_of(digits)) as u32),
            seq![next] + rest,
        ),
{
    lemma_digits(digits, next, rest);
}

/// Zeros in front of a run of digits do not change the number it denotes.
pub proof fn lemma_leading_zero(digits: Seq<char>)
    ensures
        decimal_value(seq!['0'] + digits) == decimal_value(digits),
    decreases digits.len(),
{
    let longer = seq!['0'] + digits;
    if digits.len() == 0 {
        assert(longer.drop_last() =~= Seq::<char>::empty());
        assert(decimal_value(longer.drop_last()) == 0);
    } else {
        lemma_leading_zero(digits.drop_last());
        assert(longer.drop_last() =~= seq!['0'] + digits.drop_last());
        assert(longer.last() == digits.last());
    }
}

/// A name or a run of digits that the end of the input cuts short gives no
/// token.
pub proof fn lemma_cut_short(lexeme: Seq<u8>)
    requires
        is_word(text_of(lexeme)) || (lexeme.len() >= 1 && all_digits(text_of(lexeme))),
    ensures
        scan(lexeme) is None,
{
    let text = text_of(lexeme);
    let first = lexeme[0] as char;
    let nothing = Seq::<u8>::empty();
    assert(text[0] == first);
    assert(lexeme.drop_first() =~= lexeme.drop_first() + nothing);
    if is_word(text) {
        assert forall|i: int| 0 <= i < lexeme.drop_first().len() implies is_word_char(
            #[trigger] lexeme.drop_first()[i] as char,
        ) by {
            assert(text[i + 1] == lexeme.drop_first()[i] as char);
        }
        lemma_run_through_word(seq![first], lexeme.drop_first(), nothing);
    } else {
        assert forall|i: int| 0 <= i < text_of(lexeme.drop_first()).len() implies is_digit(
            #[trigger] text_of(lexeme.drop_first())[i],
        ) by {
            assert(text_of(lexeme.drop_first())[i] == text[i + 1]);
        }
        lemma_run_through_digits(seq![first], lexeme.drop_first(), nothing);
    }
}

/// Inside a comment, a body that holds no `*` directly before a `/` and
/// does not end in `*` is passed over and leaves the machine inside the
/// comment.
proof fn lemma_run_through_comment(state: StateView, body: Seq<u8>, tail: Seq<u8>)
    requires
        state is InComment || state is InStar,
        state is InStar ==> body.len() >= 1 && body[0] as char != '/',
        forall|i: int|
            0 <= i < body.len() - 1 ==> !(#[trigger] body[i] as char == '*' && body[i + 1] as char
                == '/'),
        body.len() >= 1 ==> body.last() as char != '*',
    ensures
        run(state, Seq::empty(), body + tail) == run(StateView::InComment, Seq::empty(), tail),
    decreases body.len(),
{
    if body.len() == 0 {
        assert(body + tail =~= tail);
    } else {
        let input = body + tail;
        let shorter = body.drop_first();
        assert(input[0] == body[0]);
        assert(input.drop_first() =~= shorter + tail);
        let next = step(state, Seq::empty(), body[0] as char).state;
        assert(next is InComment || next is InStar);
        if next is InStar {
            assert(body[0] as char == '*');
            assert(body.len() >= 2);
            assert(!(body[0] as char == '*' && body[1] as char == '/'));
            assert(shorter[0] == body[1]);
        }
        assert forall|i: int| 0 <= i < shorter.len() - 1 implies !(#[trigger] shorter[i] as char
            == '*' && shorter[i + 1] as char == '/') by {
            assert(shorter[i] == body[i + 1]);
            assert(shorter[i + 1] == body[i + 2]);
        }
        if shorter.len() >= 1 {
            assert(shorter.last() == body.last());
        }
        lemma_run_through_comment(next, shorter, tail);
    }
}

/// A block comment is passed over: the input scans as what follows the
/// comment does. This holds of every comment whose body holds no `*`
/// directly before a `/` and does not end in `*`.
pub proof fn lemma_comment_skipped(body: Seq<u8>, rest: Seq<u8>)
    requires
        forall|i: int|
            0 <= i < body.len() - 1 ==> !(#[trigger] body[i] as char == '*' && body[i + 1] as char
                == '/'),
        body.len() >= 1 ==> body.last() as char != '*',
    ensures
        scan(seq![0x2fu8, 0x2au8] + body + seq![0x2au8, 0x2fu8] + rest) == scan(rest),
{
    let close = seq![0x2au8, 0x2fu8] + rest;
    let inner = body + close;
    let after_slash = seq![0x2au8] + inner;
    let input = seq![0x2fu8, 0x2au8] + body + seq![0x2au8, 0x2fu8] + rest;
    assert(input[0] == 0x2fu8);
    assert(0x2fu8 as char == '/');
    assert(0x2au8 as char == '*');
    assert(input.drop_first() =~= after_slash);
    assert(after_slash[0] == 0x2au8);
    assert(after_slash.drop_first() =~= inner);
    lemma_run_through_comment(StateView::InComment, body, close);
    assert(close[0] == 0x2au8);
    let after_star = seq![0x2fu8] + rest;
    assert(close.drop_first() =~= after_star);
    assert(after_star[0] == 0x2fu8);
    assert(after_star.drop_first() =~= rest);
    assert(run(StateView::InStar, Seq::empty(), after_star) == scan(rest));
    assert(run(StateView::InComment, Seq::empty(), close) == scan(rest));
    assert(run(StateView::InComment, Seq::empty(), inner) == scan(rest));
    assert(run(StateView::InSlash, Seq::empty(), after_slash) == scan(rest));
}

/// An operator that `=` may lengthen: `=`, `<` or `>`. Followed by `=` it
/// is scanned as the token of two characters, and both are used up.
/// Followed by any other character it is scanned as the token of one
/// character, and the character that followed is left unread, to begin the
/// next lexeme.
///
/// The token for `<=` is `GT_EQ` and the token for `>=` is `LT_EQ`.
pub proof fn lemma_one_or_two(first: u8, second: u8, rest: Seq<u8>)
    requires
        first as char == '=' || first as char == '<' || first as char == '>',
    ensures
        scan(seq![first, second] + rest) == if second as char == '=' {
            token_then(
                if first as char == '=' {
                    TokenView::EQUAL
                } else if first as char == '<' {
                    TokenView::GT_EQ
                } else {
                    TokenView::LT_EQ
                },
                rest,
            )
        } else {
            token_before(
                if first as char == '=' {
                    TokenView::ASSIGN
                } else if first as char == '<' {
                    TokenView::LESS_THAN
                } else {
                    TokenView::GREATER_THAN
                },
                seq![second] + rest,
            )
        },
{
    let input = seq![first, second] + rest;
    let after = seq![second] + rest;
    assert(input[0] == first);
    assert(input.drop_first() =~= after);
    assert(after[0] == second);
    assert(after.drop_first() =~= rest);
    let opened = step(StateView::Start, Seq::empty(), first as char).state;
    assert(scan(input) == run(opened, Seq::empty(), after));
}

/// A `/` that no `*` follows is the division operator, and the character
/// that followed is left unread.
pub proof fn lemma_divide(second: u8, rest: Seq<u8>)
    requires
        second as char != '*',
    ensures
        scan(seq![0x2fu8, second] + rest) == token_before(TokenView::DIVIDE, seq![second] + rest),
{
    let input = seq![0x2fu8, second] + rest;
    let after = seq![second] + rest;
    assert(0x2fu8 as char == '/');
    assert(input[0] == 0x2fu8);
    assert(input.drop_first() =~= after);
    assert(after[0] == second);
    assert(scan(input) == run(StateView::InSlash, Seq::empty(), after));
}

/// `!=` is scanned as one token. A `!` that another character follows is
/// scanned as one error token, and that character is used up with it:
/// scanning goes on after it.
pub proof fn lemma_not(second: u8, rest: Seq<u8>)
    ensures
        scan(seq![0x21u8, second] + rest) == token_then(
            if second as char == '=' {
                TokenView::NOT_EQ
            } else {
                TokenView::ERROR("Unexpected token: !"@)
            },
            rest,
        ),
{
    let input = seq![0x21u8, second] + rest;
    let after = seq![second] + rest;
    assert(0x21u8 as char == '!');
    assert(input[0] == 0x21u8);
    assert(input.drop_first() =~= after);
    assert(after[0] == second);
    assert(after.drop_first() =~= rest);
    assert(scan(input) == run(StateView::InNot, Seq::empty(), after));
}

/// Characters that begin nothing are passed over: an input scans as what
/// follows them does.
pub proof fn lemma_skip(blank: Seq<u8>, rest: Seq<u8>)
    requires
        forall|i: int| 0 <= i < blank.len() ==> is_skipped(#[trigger] blank[i] as char),
    ensures
        scan(blank + rest) == scan(rest),
    decreases blank.len(),
{
    if blank.len() == 0 {
        assert(blank + rest =~= rest);
    } else {
        let input = blank + rest;
        assert(input[0] == blank[0]);
        assert(is_skipped(blank[0] as char));
        assert(input.drop_first() =~= blank.drop_first() + rest);
        lemma_skip(blank.drop_first(), rest);
    }
}

/// Spaces, tabs and line ends begin nothing.
pub proof fn lemma_whitespace_is_skipped(c: char)
    requires
        c == ' ' || c == '\t' || c == '\n' || c == '\r',
    ensures
        is_skipped(c),
{
}

/// An input that is empty, or holds only characters that begin nothing,
/// has no token at all.
pub proof fn lemma_blank_input(input: Seq<u8>)
    requires
        forall|i: int| 0 <= i < input.len() ==> is_skipped(#[trigger] input[i] as char),
    ensures
        scan(input) is None,
        token_stream(input) == Seq::<TokenView>::empty(),
{
    lemma_skip(input, Seq::empty());
    assert(input + Seq::<u8>::empty() =~= input);
}

} // verus!
