//! Reading rendered text gives the tokens back.
use vstd::prelude::*;
use crate::ast::{ExprView, ItemView, PathSegmentView};
use crate::parse::render::{digits_of, lemma_digits_of, token_text, tokens_text};
use crate::parse::token::TokenView;
use crate::parse::tokenize::{CharClass, Lexed, Lexeme, double_symbol, integer_of, is_digit,
                             is_quote, lemma_decimal_nonnegative, lemma_read_token_advances,
                             lemma_run_end, lemma_run_end_from_inside, lex, lex_from, read_token,
                             run_end, single_symbol};
use crate::parse::unparse::{arguments_tokens, expr_made_of, expr_tokens, item_made_of, item_tokens,
                            items_tokens, path_made_of, path_tokens, separator_tokens,
                            statements_tokens};
use crate::text::{alphabetic, numeric, whitespace};

verus! {

/// Whether a token is one that the tokenizer hands out.
pub open spec fn lexable(token: TokenView) -> bool {
    match token {
        TokenView::Word(word) => {
            &&& word.len() > 0
            &&& alphabetic(word[0])
            &&& !CharClass::Blank.holds(word[0])
            &&& forall|i: int| 0 <= i < word.len() ==> CharClass::WordPart.holds(#[trigger] word[i])
        },
        TokenView::Symbol(symbol) => {
            ||| symbol.len() == 1 && single_symbol(symbol[0])
            ||| symbol.len() == 2 && double_symbol(symbol[0], symbol[1])
        },
        TokenView::String(text) => forall|i: int|
            0 <= i < text.len() ==> !is_quote(#[trigger] text[i]),
        TokenView::Integer(number) => number >= 0,
        TokenView::EndOfLine => true,
        TokenView::EndOfFile => false,
    }
}

/// Whether every token of a sequence is one that the tokenizer hands out.
pub open spec fn all_lexable(tokens: Seq<TokenView>) -> bool {
    forall|i: int| 0 <= i < tokens.len() ==> lexable(#[trigger] tokens[i])
}

/// What the tokenizer reads at a place is lexable.
pub proof fn lemma_read_token_lexable(s: Seq<char>, from: int)
    requires
        0 <= from <= s.len(),
    ensures
        read_token(s, from) matches Lexeme::Token(token, next) ==> lexable(token),
{
    lemma_run_end(s, from, CharClass::Blank);
    let start = run_end(s, from, CharClass::Blank);
    if start < s.len() {
        let c = s[start];
        lemma_run_end(s, start, CharClass::WordPart);
        lemma_run_end(s, start, CharClass::Numeric);
        lemma_run_end(s, start + 1, CharClass::Quoted);
        if alphabetic(c) {
            let end = run_end(s, start, CharClass::WordPart);
            let word = s.subrange(start, end);
            assert(CharClass::WordPart.holds(s[start]));
            assert(word[0] == s[start]);
            assert forall|i: int| 0 <= i < word.len() implies CharClass::WordPart.holds(
                #[trigger] word[i],
            ) by {
                assert(word[i] == s[start + i]);
            }
        } else if numeric(c) {
            let end = run_end(s, start, CharClass::Numeric);
            let digits = s.subrange(start, end);
            if integer_of(digits) is Some {
                lemma_decimal_nonnegative(digits);
            }
        } else if c == '\n' {
        } else if is_quote(c) {
            let end = run_end(s, start + 1, CharClass::Quoted);
            let text = s.subrange(start + 1, end);
            assert forall|i: int| 0 <= i < text.len() implies !is_quote(#[trigger] text[i]) by {
                assert(text[i] == s[start + 1 + i]);
                assert(CharClass::Quoted.holds(s[start + 1 + i]));
            }
        }
    }
}

/// Every token of an input is lexable.
pub proof fn lemma_lexed_tokens_lexable(s: Seq<char>, from: int)
    requires
        0 <= from <= s.len(),
    ensures
        all_lexable(lex_from(s, from).tokens),
    decreases s.len() - from,
{
    lemma_read_token_lexable(s, from);
    lemma_read_token_advances(s, from);
    match read_token(s, from) {
        Lexeme::Token(token, next) => {
            lemma_lexed_tokens_lexable(s, next);
            let rest = lex_from(s, next).tokens;
            let tokens = lex_from(s, from).tokens;
            assert(tokens == seq![token] + rest);
            assert forall|i: int| 0 <= i < tokens.len() implies lexable(#[trigger] tokens[i]) by {
                if i > 0 {
                    assert(tokens[i] == rest[i - 1]);
                }
            }
        },
        _ => {},
    }
}

/// Where a run ends depends only on the text from its start on.
pub proof fn lemma_run_end_shifted(front: Seq<char>, s: Seq<char>, from: int, class: CharClass)
    requires
        0 <= from <= s.len(),
    ensures
        run_end(front + s, front.len() + from, class) == front.len() + run_end(s, from, class),
    decreases s.len() - from,
{
    let whole = front + s;
    if from < s.len() {
        assert(whole[front.len() + from] == s[from]);
        if class.holds(s[from]) {
            lemma_run_end_shifted(front, s, from + 1, class);
        }
    }
}

/// The same lexeme, found that much further on.
pub open spec fn shifted(lexeme: Lexeme, by: int) -> Lexeme {
    match lexeme {
        Lexeme::Token(token, next) => Lexeme::Token(token, next + by),
        other => other,
    }
}

/// What stands at a place depends only on the text from that place on.
pub proof fn lemma_read_token_shifted(front: Seq<char>, s: Seq<char>, from: int)
    requires
        0 <= from <= s.len(),
    ensures
        read_token(front + s, front.len() + from) == shifted(read_token(s, from), front.len() as int),
{
    let whole = front + s;
    let n = front.len() as int;
    lemma_run_end_shifted(front, s, from, CharClass::Blank);
    lemma_run_end(s, from, CharClass::Blank);
    let start = run_end(s, from, CharClass::Blank);
    if start < s.len() {
        assert(whole[n + start] == s[start]);
        lemma_run_end_shifted(front, s, start, CharClass::WordPart);
        lemma_run_end_shifted(front, s, start, CharClass::Numeric);
        lemma_run_end_shifted(front, s, start + 1, CharClass::Quoted);
        lemma_run_end(s, start, CharClass::WordPart);
        lemma_run_end(s, start, CharClass::Numeric);
        lemma_run_end(s, start + 1, CharClass::Quoted);
        let word_end = run_end(s, start, CharClass::WordPart);
        let number_end = run_end(s, start, CharClass::Numeric);
        let string_end = run_end(s, start + 1, CharClass::Quoted);
        assert(whole.subrange(n + start, n + word_end) =~= s.subrange(start, word_end));
        assert(whole.subrange(n + start, n + number_end) =~= s.subrange(start, number_end));
        assert(whole.subrange(n + start + 1, n + string_end) =~= s.subrange(start + 1, string_end));
        if start + 1 < s.len() {
            assert(whole[n + start + 1] == s[start + 1]);
        }
    }
}

/// The tokens from a place on depend only on the text from that place on.
pub proof fn lemma_lex_shifted(front: Seq<char>, s: Seq<char>, from: int)
    requires
        0 <= from <= s.len(),
    ensures
        lex_from(front + s, front.len() + from) == lex_from(s, from),
    decreases s.len() - from,
{
    lemma_read_token_shifted(front, s, from);
    lemma_read_token_advances(s, from);
    match read_token(s, from) {
        Lexeme::Token(token, next) => {
            lemma_lex_shifted(front, s, next);
        },
        _ => {},
    }
}

/// A blank in front of a place changes nothing of what is read there.
pub proof fn lemma_lex_behind_blank(s: Seq<char>, from: int)
    requires
        0 <= from < s.len(),
        CharClass::Blank.holds(s[from]),
    ensures
        read_token(s, from) == read_token(s, from + 1),
        lex_from(s, from) == lex_from(s, from + 1),
{
    lemma_read_token_advances(s, from);
    lemma_read_token_advances(s, from + 1);
}

/// How many characters of the text of a token are the token itself, the
/// space behind it not counted.
pub open spec fn body_len(token: TokenView) -> int {
    match token {
        TokenView::EndOfLine => 1,
        TokenView::EndOfFile => 0,
        _ => token_text(token).len() - 1,
    }
}

/// Reading the text of a word gives the word.
proof fn lemma_read_word(word: Seq<char>, rest: Seq<char>)
    requires
        lexable(TokenView::Word(word)),
    ensures
        read_token(token_text(TokenView::Word(word)) + rest, 0) == Lexeme::Token(
            TokenView::Word(word),
            word.len() as int,
        ),
{
    let text = token_text(TokenView::Word(word)) + rest;
    let n = word.len() as int;
    assert forall|i: int| 0 <= i < n implies CharClass::WordPart.holds(#[trigger] text[i]) by {
        assert(text[i] == word[i]);
    }
    assert(text[0] == word[0]);
    assert(text[n] == ' ');
    assert(!alphabetic(' ') && !numeric(' '));
    lemma_run_end_from_inside(text, 0, n, CharClass::WordPart);
    assert(run_end(text, n, CharClass::WordPart) == n);
    assert(run_end(text, 0, CharClass::Blank) == 0);
    assert(text.subrange(0, n) =~= word);
}

/// Reading the text of a symbol gives the symbol.
proof fn lemma_read_symbol(symbol: Seq<char>, rest: Seq<char>)
    requires
        lexable(TokenView::Symbol(symbol)),
    ensures
        read_token(token_text(TokenView::Symbol(symbol)) + rest, 0) == Lexeme::Token(
            TokenView::Symbol(symbol),
            symbol.len() as int,
        ),
{
    let text = token_text(TokenView::Symbol(symbol)) + rest;
    let c = symbol[0];
    assert(text[0] == c);
    assert(!alphabetic(c) && !numeric(c) && !whitespace(c));
    assert(run_end(text, 0, CharClass::Blank) == 0);
    if symbol.len() == 1 {
        assert(text[1] == ' ');
        assert(symbol =~= seq![c]);
    } else {
        assert(text[1] == symbol[1]);
        assert(symbol =~= seq![c, symbol[1]]);
    }
}

/// Reading the text of a string gives the string.
proof fn lemma_read_string(string: Seq<char>, rest: Seq<char>)
    requires
        lexable(TokenView::String(string)),
    ensures
        read_token(token_text(TokenView::String(string)) + rest, 0) == Lexeme::Token(
            TokenView::String(string),
            string.len() as int + 2,
        ),
{
    let text = token_text(TokenView::String(string)) + rest;
    let n = string.len() as int;
    assert(text[0] == '"');
    assert(!alphabetic('"') && !numeric('"') && !whitespace('"'));
    assert(run_end(text, 0, CharClass::Blank) == 0);
    assert forall|i: int| 1 <= i < n + 1 implies CharClass::Quoted.holds(#[trigger] text[i]) by {
        assert(text[i] == string[i - 1]);
    }
    assert(text[n + 1] == '"');
    lemma_run_end_from_inside(text, 1, n + 1, CharClass::Quoted);
    assert(run_end(text, n + 1, CharClass::Quoted) == n + 1);
    assert(text.subrange(1, n + 1) =~= string);
}

/// Reading the text of a number that is not negative gives the number.
proof fn lemma_read_integer(number: i64, rest: Seq<char>)
    requires
        lexable(TokenView::Integer(number)),
    ensures
        read_token(token_text(TokenView::Integer(number)) + rest, 0) == Lexeme::Token(
            TokenView::Integer(number),
            digits_of(number as int).len() as int,
        ),
{
    let text = token_text(TokenView::Integer(number)) + rest;
    let digits = digits_of(number as int);
    let n = digits.len() as int;
    lemma_digits_of(number as int);
    assert forall|i: int| 0 <= i < n implies CharClass::Numeric.holds(#[trigger] text[i]) by {
        assert(text[i] == digits[i]);
        assert(is_digit(digits[i]));
    }
    assert(text[0] == digits[0]);
    assert(is_digit(digits[0]));
    assert(!alphabetic(text[0]) && numeric(text[0]) && !whitespace(text[0]));
    assert(run_end(text, 0, CharClass::Blank) == 0);
    assert(text[n] == ' ');
    assert(!numeric(' '));
    lemma_run_end_from_inside(text, 0, n, CharClass::Numeric);
    assert(run_end(text, n, CharClass::Numeric) == n);
    assert(text.subrange(0, n) =~= digits);
}

/// Reading the text of a new line gives the new line.
proof fn lemma_read_line(rest: Seq<char>)
    ensures
        read_token(token_text(TokenView::EndOfLine) + rest, 0) == Lexeme::Token(
            TokenView::EndOfLine,
            1,
        ),
{
    let text = token_text(TokenView::EndOfLine) + rest;
    assert(text[0] == '\n');
    assert(!alphabetic('\n') && !numeric('\n'));
    assert(run_end(text, 0, CharClass::Blank) == 0);
}

/// Reading the text of a lexable token, whatever stands behind it, gives
/// the token; reading on from there is reading on behind the space.
pub proof fn lemma_read_rendered(token: TokenView, rest: Seq<char>)
    requires
        lexable(token),
    ensures
        read_token(token_text(token) + rest, 0) == Lexeme::Token(token, body_len(token)),
        0 < body_len(token) <= token_text(token).len(),
        lex_from(token_text(token) + rest, body_len(token)) == lex_from(
            token_text(token) + rest,
            token_text(token).len() as int,
        ),
{
    let text = token_text(token) + rest;
    match token {
        TokenView::Word(word) => {
            lemma_read_word(word, rest);
        },
        TokenView::Symbol(symbol) => {
            lemma_read_symbol(symbol, rest);
        },
        TokenView::String(string) => {
            lemma_read_string(string, rest);
        },
        TokenView::Integer(number) => {
            lemma_read_integer(number, rest);
            lemma_digits_of(number as int);
        },
        TokenView::EndOfLine => {
            lemma_read_line(rest);
        },
        TokenView::EndOfFile => {},
    }
    if !(token is EndOfLine) {
        let b = body_len(token);
        assert(text[b] == ' ');
        assert(whitespace(' '));
        lemma_lex_behind_blank(text, b);
    }
}

/// Reading the text of lexable tokens gives the tokens, and the new line
/// that closes every input.
pub proof fn lemma_relex(tokens: Seq<TokenView>)
    requires
        all_lexable(tokens),
    ensures
        lex(tokens_text(tokens)) == (Lexed { tokens: tokens.push(TokenView::EndOfLine), fault: None }),
    decreases tokens.len(),
{
    let text = tokens_text(tokens);
    if tokens.len() == 0 {
        assert(lex(text).tokens =~= tokens.push(TokenView::EndOfLine));
    } else {
        let first = tokens[0];
        let others = tokens.drop_first();
        let rest = tokens_text(others);
        assert(text == token_text(first) + rest);
        assert(lexable(first));
        assert forall|i: int| 0 <= i < others.len() implies lexable(#[trigger] others[i]) by {
            assert(others[i] == tokens[i + 1]);
        }
        lemma_read_rendered(first, rest);
        lemma_lex_shifted(token_text(first), rest, 0);
        lemma_relex(others);
        assert(seq![first] + others.push(TokenView::EndOfLine) =~= tokens.push(
            TokenView::EndOfLine,
        ));
    }
}

/// Two sequences of lexable tokens, joined, are a sequence of lexable
/// tokens.
pub proof fn lemma_joined_lexable(first: Seq<TokenView>, second: Seq<TokenView>)
    requires
        all_lexable(first),
        all_lexable(second),
    ensures
        all_lexable(first + second),
{
    let joined = first + second;
    assert forall|i: int| 0 <= i < joined.len() implies lexable(#[trigger] joined[i]) by {
        if i < first.len() {
            assert(joined[i] == first[i]);
        } else {
            assert(joined[i] == second[i - first.len()]);
        }
    }
}

/// The words and symbols of the grammar are lexable.
pub proof fn lemma_grammar_tokens_lexable()
    ensures
        lexable(TokenView::word("class")),
        lexable(TokenView::word("module")),
        lexable(TokenView::word("def")),
        lexable(TokenView::word("end")),
        lexable(TokenView::symbol("(")),
        lexable(TokenView::symbol(")")),
        lexable(TokenView::symbol(",")),
        lexable(TokenView::symbol("=")),
        lexable(TokenView::symbol(":")),
        lexable(TokenView::symbol("=>")),
        lexable(TokenView::symbol("<")),
        lexable(TokenView::symbol(".")),
        lexable(TokenView::symbol("::")),
        lexable(TokenView::symbol("-")),
{
    reveal_strlit("class");
    reveal_strlit("module");
    reveal_strlit("def");
    reveal_strlit("end");
    reveal_strlit("(");
    reveal_strlit(")");
    reveal_strlit(",");
    reveal_strlit("=");
    reveal_strlit(":");
    reveal_strlit("=>");
    reveal_strlit("<");
    reveal_strlit(".");
    reveal_strlit("::");
    reveal_strlit("-");
    assert(alphabetic('c') && alphabetic('l') && alphabetic('a') && alphabetic('s'));
    assert(alphabetic('m') && alphabetic('o') && alphabetic('d') && alphabetic('u') && alphabetic(
        'e',
    ));
    assert(alphabetic('f') && alphabetic('n'));
    assert(!whitespace('c') && !whitespace('m') && !whitespace('d') && !whitespace('e'));
    assert(lexable(TokenView::word("class"))) by {
        let word = "class"@;
        assert(word[0] == 'c' && word[1] == 'l' && word[2] == 'a' && word[3] == 's' && word[4]
            == 's');
    }
    assert(lexable(TokenView::word("module"))) by {
        let word = "module"@;
        assert(word[0] == 'm' && word[1] == 'o' && word[2] == 'd' && word[3] == 'u' && word[4]
            == 'l' && word[5] == 'e');
    }
    assert(lexable(TokenView::word("def"))) by {
        let word = "def"@;
        assert(word[0] == 'd' && word[1] == 'e' && word[2] == 'f');
    }
    assert(lexable(TokenView::word("end"))) by {
        let word = "end"@;
        assert(word[0] == 'e' && word[1] == 'n' && word[2] == 'd');
    }
}

/// The tokens of a path whose names are lexable words are lexable.
pub proof fn lemma_path_tokens_lexable(path: Seq<PathSegmentView>, good: spec_fn(TokenView) -> bool)
    requires
        path_made_of(path, good),
        forall|token: TokenView| #[trigger] good(token) ==> lexable(token),
    ensures
        all_lexable(path_tokens(path)),
    decreases path.len(),
{
    lemma_grammar_tokens_lexable();
    if path.len() > 0 {
        let rest = path.drop_first();
        assert forall|i: int| 0 <= i < rest.len() implies good(
            TokenView::Word((#[trigger] rest[i]).kind.name()),
        ) by {
            assert(rest[i] == path[i + 1]);
        }
        lemma_path_tokens_lexable(rest, good);
        let mark = separator_tokens(path[0].separator);
        let name = seq![TokenView::Word(path[0].kind.name())];
        assert(good(TokenView::Word(path[0].kind.name())));
        assert(all_lexable(mark));
        assert(all_lexable(name));
        lemma_joined_lexable(mark, name);
        lemma_joined_lexable(mark + name, path_tokens(rest));
    }
}

/// The tokens of an expression made of lexable tokens are lexable.
pub proof fn lemma_expr_tokens_lexable(expr: ExprView, good: spec_fn(TokenView) -> bool)
    requires
        expr_made_of(expr, good),
        forall|token: TokenView| #[trigger] good(token) ==> lexable(token),
    ensures
        all_lexable(expr_tokens(expr)),
    decreases expr, 0int,
{
    lemma_grammar_tokens_lexable();
    match expr {
        ExprView::Assignment { assignee, value } => {
            let sign = seq![TokenView::symbol("=")];
            lemma_path_tokens_lexable(assignee, good);
            lemma_expr_tokens_lexable(*value, good);
            assert(all_lexable(sign));
            lemma_joined_lexable(path_tokens(assignee), sign);
            lemma_joined_lexable(path_tokens(assignee) + sign, expr_tokens(*value));
        },
        ExprView::Paren { inner } => {
            let open = seq![TokenView::symbol("(")];
            let close = seq![TokenView::symbol(")")];
            lemma_expr_tokens_lexable(*inner, good);
            assert(all_lexable(open));
            assert(all_lexable(close));
            lemma_joined_lexable(open, expr_tokens(*inner));
            lemma_joined_lexable(open + expr_tokens(*inner), close);
        },
        ExprView::Call { callee, arguments } => {
            let open = seq![TokenView::symbol("(")];
            let close = seq![TokenView::symbol(")")];
            lemma_path_tokens_lexable(callee, good);
            lemma_arguments_tokens_lexable(arguments, good);
            assert(all_lexable(open));
            assert(all_lexable(close));
            lemma_joined_lexable(path_tokens(callee), open);
            lemma_joined_lexable(path_tokens(callee) + open, arguments_tokens(arguments));
            lemma_joined_lexable(path_tokens(callee) + open + arguments_tokens(arguments), close);
        },
        ExprView::StringLiteral { text } => {
            assert(good(TokenView::String(text)));
        },
        ExprView::IntegerLiteral { number } => {
            assert(good(TokenView::Integer(number)));
        },
        ExprView::Symbol { name } => {
            assert(good(TokenView::Word(name)));
        },
        ExprView::KeyValue { key, value } => {
            let head = seq![
                TokenView::symbol(":"),
                TokenView::Word(key),
                TokenView::symbol("=>"),
            ];
            assert(good(TokenView::Word(key)));
            lemma_expr_tokens_lexable(*value, good);
            assert(all_lexable(head));
            lemma_joined_lexable(head, expr_tokens(*value));
        },
        ExprView::Negate { inner } => {
            let sign = seq![TokenView::symbol("-")];
            lemma_expr_tokens_lexable(*inner, good);
            assert(all_lexable(sign));
            lemma_joined_lexable(sign, expr_tokens(*inner));
        },
    }
}

/// The tokens of arguments made of lexable tokens are lexable.
pub proof fn lemma_arguments_tokens_lexable(
    arguments: Seq<ExprView>,
    good: spec_fn(TokenView) -> bool,
)
    requires
        forall|i: int| 0 <= i < arguments.len() ==> expr_made_of(#[trigger] arguments[i], good),
        forall|token: TokenView| #[trigger] good(token) ==> lexable(token),
    ensures
        all_lexable(arguments_tokens(arguments)),
    decreases arguments, 1int,
{
    lemma_grammar_tokens_lexable();
    if arguments.len() > 0 {
        let rest = arguments.drop_first();
        assert forall|i: int| 0 <= i < rest.len() implies expr_made_of(#[trigger] rest[i], good) by {
            assert(rest[i] == arguments[i + 1]);
        }
        lemma_expr_tokens_lexable(arguments[0], good);
        lemma_arguments_tokens_lexable(rest, good);
        let comma = if arguments.len() > 1 {
            seq![TokenView::symbol(",")]
        } else {
            seq![]
        };
        assert(all_lexable(comma));
        lemma_joined_lexable(expr_tokens(arguments[0]), comma);
        lemma_joined_lexable(expr_tokens(arguments[0]) + comma, arguments_tokens(rest));
    }
}

/// The tokens of statements made of lexable tokens are lexable.
pub proof fn lemma_statements_tokens_lexable(
    statements: Seq<ExprView>,
    good: spec_fn(TokenView) -> bool,
)
    requires
        forall|i: int| 0 <= i < statements.len() ==> expr_made_of(#[trigger] statements[i], good),
        forall|token: TokenView| #[trigger] good(token) ==> lexable(token),
    ensures
        all_lexable(statements_tokens(statements)),
    decreases statements.len(),
{
    if statements.len() > 0 {
        let rest = statements.drop_first();
        assert forall|i: int| 0 <= i < rest.len() implies expr_made_of(#[trigger] rest[i], good) by {
            assert(rest[i] == statements[i + 1]);
        }
        lemma_expr_tokens_lexable(statements[0], good);
        lemma_statements_tokens_lexable(rest, good);
        let line = seq![TokenView::EndOfLine];
        assert(all_lexable(line));
        lemma_joined_lexable(expr_tokens(statements[0]), line);
        lemma_joined_lexable(expr_tokens(statements[0]) + line, statements_tokens(rest));
    }
}

/// The tokens of an item made of lexable tokens are lexable.
pub proof fn lemma_item_tokens_lexable(item: ItemView, good: spec_fn(TokenView) -> bool)
    requires
        item_made_of(item, good),
        forall|token: TokenView| #[trigger] good(token) ==> lexable(token),
    ensures
        all_lexable(item_tokens(item)),
    decreases item, 0int,
{
    lemma_grammar_tokens_lexable();
    let line = seq![TokenView::EndOfLine];
    let close = seq![TokenView::word("end"), TokenView::EndOfLine];
    assert(all_lexable(line));
    assert(all_lexable(close));
    match item {
        ItemView::Module { name, items } => {
            let head = seq![
                TokenView::word("module"),
                TokenView::Word(name),
                TokenView::EndOfLine,
            ];
            assert(good(TokenView::Word(name)));
            assert(all_lexable(head));
            lemma_items_tokens_lexable(items, good);
            lemma_joined_lexable(head, items_tokens(items));
            lemma_joined_lexable(head + items_tokens(items), close);
        },
        ItemView::Class { name, items, superclass } => {
            let head = seq![TokenView::word("class"), TokenView::Word(name)];
            let parent = match superclass {
                Some(path) => seq![TokenView::symbol("<")] + path_tokens(path),
                None => seq![],
            };
            assert(good(TokenView::Word(name)));
            assert(all_lexable(head));
            match superclass {
                Some(path) => {
                    let mark = seq![TokenView::symbol("<")];
                    assert(all_lexable(mark));
                    lemma_path_tokens_lexable(path, good);
                    lemma_joined_lexable(mark, path_tokens(path));
                },
                None => {},
            }
            lemma_items_tokens_lexable(items, good);
            lemma_joined_lexable(head, parent);
            lemma_joined_lexable(head + parent, line);
            lemma_joined_lexable(head + parent + line, items_tokens(items));
            lemma_joined_lexable(head + parent + line + items_tokens(items), close);
        },
        ItemView::Function { name, statements } => {
            let head = seq![
                TokenView::word("def"),
                TokenView::Word(name),
                TokenView::EndOfLine,
            ];
            assert(good(TokenView::Word(name)));
            assert(all_lexable(head));
            lemma_statements_tokens_lexable(statements, good);
            lemma_joined_lexable(head, statements_tokens(statements));
            lemma_joined_lexable(head + statements_tokens(statements), close);
        },
        ItemView::Stmt(expr) => {
            lemma_expr_tokens_lexable(expr, good);
            lemma_joined_lexable(expr_tokens(expr), line);
        },
    }
}

/// The tokens of items made of lexable tokens are lexable.
pub proof fn lemma_items_tokens_lexable(items: Seq<ItemView>, good: spec_fn(TokenView) -> bool)
    requires
        forall|i: int| 0 <= i < items.len() ==> item_made_of(#[trigger] items[i], good),
        forall|token: TokenView| #[trigger] good(token) ==> lexable(token),
    ensures
        all_lexable(items_tokens(items)),
    decreases items, 1int,
{
    if items.len() > 0 {
        let rest = items.drop_first();
        assert forall|i: int| 0 <= i < rest.len() implies item_made_of(#[trigger] rest[i], good) by {
            assert(rest[i] == items[i + 1]);
        }
        lemma_item_tokens_lexable(items[0], good);
        lemma_items_tokens_lexable(rest, good);
        lemma_joined_lexable(item_tokens(items[0]), items_tokens(rest));
    }
}

} // verus!
