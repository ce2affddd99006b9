use minilang::lexer::tokens::{get_single_token, LexerError, Tokens};
use minilang::lexer::{tokenize, tokenize_checked};

fn word(s: &str) -> Tokens {
    Tokens::Statement(s.to_string())
}

fn lex(s: &str) -> Vec<Tokens> {
    tokenize(&s.to_string()).unwrap()
}

#[test]
fn lexes_an_assignment() {
    assert_eq!(
        lex("x = 1;\n"),
        vec![word("x"), Tokens::Equals, word("1"), Tokens::SemmiColon]
    );
}

#[test]
fn a_word_at_the_very_end_is_dropped() {
    assert_eq!(lex("abc"), vec![]);
    assert_eq!(lex("x = 1"), vec![word("x"), Tokens::Equals]);
}

#[test]
fn divide_comes_before_the_word_it_follows() {
    assert_eq!(lex("a/b "), vec![Tokens::Divide, word("a"), word("b")]);
    assert_eq!(lex("a /= b "), vec![word("a"), Tokens::DivideTo, word("b")]);
}

#[test]
fn line_comments_are_skipped() {
    assert_eq!(lex("// hi\nx;"), vec![word("x"), Tokens::SemmiColon]);
}

#[test]
fn semicolon_inside_a_comment_still_counts() {
    assert_eq!(lex("// a;\n"), vec![Tokens::SemmiColon]);
}

#[test]
fn multiline_comments_are_skipped() {
    assert_eq!(lex("/* a */y;"), vec![word("y"), Tokens::SemmiColon]);
}

#[test]
fn string_literals_keep_spaces() {
    assert_eq!(
        lex("\"hi there\";"),
        vec![Tokens::String("hi there".to_string()), Tokens::SemmiColon]
    );
}

#[test]
fn escapes_inside_strings() {
    assert_eq!(lex("\"a\\nb\" "), vec![Tokens::String("a\nb".to_string())]);
    assert_eq!(lex("\"a\\tb\" "), vec![Tokens::String("a\tb".to_string())]);
    assert_eq!(lex("\"a\\\\b\" "), vec![Tokens::String("a\\b".to_string())]);
    assert_eq!(lex("\"a\\\"b\" "), vec![Tokens::String("a\"b".to_string())]);
}

#[test]
fn a_quote_after_a_word_only_ends_the_word() {
    assert_eq!(lex("ab\"c\" "), vec![word("ab"), word("c")]);
}

#[test]
fn arithmetic_operators() {
    assert_eq!(lex("a+=1 "), vec![word("a"), Tokens::AddTo, word("1")]);
    assert_eq!(lex("a-=1 "), vec![word("a"), Tokens::SubtractTo, word("1")]);
    assert_eq!(lex("a*=1 "), vec![word("a"), Tokens::MultiplyTo, word("1")]);
    assert_eq!(lex("a%=1 "), vec![word("a"), Tokens::ModTo, word("1")]);
    assert_eq!(lex("i++ "), vec![word("i"), Tokens::Increment]);
    assert_eq!(lex("i-- "), vec![word("i"), Tokens::Decrement]);
    assert_eq!(
        lex("a+b-c*d%e "),
        vec![
            word("a"),
            Tokens::Add,
            word("b"),
            Tokens::Subtract,
            word("c"),
            Tokens::Multiply,
            word("d"),
            Tokens::Mod,
            word("e")
        ]
    );
}

#[test]
fn comparison_and_boolean_operators() {
    assert_eq!(lex("a<=b "), vec![word("a"), Tokens::SmallerOrEqual, word("b")]);
    assert_eq!(lex("a>=b "), vec![word("a"), Tokens::BiggerThanOrEqual, word("b")]);
    assert_eq!(lex("a<b "), vec![word("a"), Tokens::SmallerThan, word("b")]);
    assert_eq!(lex("a>b "), vec![word("a"), Tokens::BiggerThan, word("b")]);
    assert_eq!(lex("a==b "), vec![word("a"), Tokens::EqualsTo, word("b")]);
    assert_eq!(lex("a!=b "), vec![word("a"), Tokens::IsDifferent, word("b")]);
    assert_eq!(lex("!a "), vec![Tokens::NotBool, word("a")]);
    assert_eq!(lex("a&&b "), vec![word("a"), Tokens::AndBool, word("b")]);
    assert_eq!(lex("a||b "), vec![word("a"), Tokens::OrBool, word("b")]);
}

#[test]
fn punctuation() {
    assert_eq!(
        lex("f(a, b) "),
        vec![
            word("f"),
            Tokens::OpenParenthesis,
            word("a"),
            Tokens::Comma,
            word("b"),
            Tokens::CloseParenthesis
        ]
    );
    assert_eq!(
        lex("{}"),
        vec![Tokens::OpenCurlyBrackets, Tokens::CloseCurlyBrackets]
    );
}

#[test]
fn square_brackets_are_part_of_a_word() {
    assert_eq!(lex("a[1] "), vec![word("a[1]")]);
}

#[test]
fn bytes_beyond_ascii_become_one_character_each() {
    assert_eq!(lex("\u{e9} "), vec![word("\u{c3}\u{a9}")]);
}

#[test]
fn a_single_ampersand_is_refused() {
    assert_eq!(
        tokenize(&"a&b".to_string()),
        Err(LexerError::UnexpectedOperator('b'))
    );
    assert_eq!(
        tokenize(&"a|c".to_string()),
        Err(LexerError::UnexpectedOperator('c'))
    );
}

#[test]
fn an_ampersand_at_the_end_is_out_of_bounds() {
    assert_eq!(tokenize(&"a&".to_string()), Err(LexerError::OutOfBounds));
    assert_eq!(tokenize(&"|".to_string()), Err(LexerError::OutOfBounds));
}

#[test]
fn ampersands_inside_strings_and_comments_are_fine() {
    assert_eq!(lex("\"a&b\" "), vec![Tokens::String("a&b".to_string())]);
    assert_eq!(lex("// a & b\n"), vec![]);
}

#[test]
fn an_operator_at_the_very_end_reads_past_it() {
    for p in ["a+", "a-", "a*", "a%", "a=", "a<", "a>", "a!", "/* x *"] {
        assert_eq!(tokenize_checked(&p.to_string()), None, "{}", p);
    }
}

#[test]
fn an_operator_at_the_end_inside_a_string_or_comment_is_fine() {
    assert_eq!(tokenize_checked(&"\"a+".to_string()), Some(Ok(vec![])));
    assert_eq!(tokenize_checked(&"// a+".to_string()), Some(Ok(vec![])));
    assert_eq!(tokenize_checked(&"/* a+".to_string()), Some(Ok(vec![])));
}

#[test]
fn checked_lexing_agrees_with_lexing() {
    let p = "print x + 1;\n".to_string();
    assert_eq!(tokenize_checked(&p), Some(tokenize(&p)));
}

#[test]
fn single_tokens() {
    assert_eq!(get_single_token('('), Tokens::OpenParenthesis);
    assert_eq!(get_single_token(')'), Tokens::CloseParenthesis);
    assert_eq!(get_single_token('{'), Tokens::OpenCurlyBrackets);
    assert_eq!(get_single_token('}'), Tokens::CloseCurlyBrackets);
    assert_eq!(get_single_token(','), Tokens::Comma);
    assert_eq!(get_single_token('['), Tokens::OpenSquaredBrackets);
    assert_eq!(get_single_token(']'), Tokens::CloseSquaredBrackets);
}

#[test]
fn law_words_are_nonempty_on_a_program() {
    let tokens = lex("define f(a) { return a * 2; }\nprint f(3);\n");
    for t in tokens {
        if let Tokens::Statement(w) = t {
            assert!(!w.is_empty());
        }
    }
}

#[test]
fn law_no_square_bracket_or_bitwise_tokens() {
    let tokens = lex("a[0] = b && c || d;\n");
    for t in tokens {
        assert!(!matches!(
            t,
            Tokens::OpenSquaredBrackets
                | Tokens::CloseSquaredBrackets
                | Tokens::AndBitwise
                | Tokens::OrBitwise
                | Tokens::Unkown
        ));
    }
}

#[test]
fn law_only_and_or_bytes_are_refused() {
    for p in ["x = 1 +", "if (a) { b; }\n", "\"unterminated", "/* open"] {
        let r = tokenize_checked(&p.to_string());
        assert!(!matches!(r, Some(Err(_))), "{}", p);
    }
}

#[test]
fn law_a_program_ending_in_a_newline_never_reads_past_the_end() {
    for p in ["a+\n", "x = y *\n", "a !\n", ""] {
        assert!(tokenize_checked(&p.to_string()).is_some(), "{}", p);
    }
}

#[test]
fn law_a_leading_line_comment_is_ignored() {
    let rests = ["x = 1;\n", "print \"a\" + b\n", "a && b\n", "a & b\n", "", "y\n"];
    let comments = ["", " hello", " \\n t & | * + = < ! % \"q\" ( ) { } , tab\there", " non-ascii é ✓"];
    for rest in rests {
        for comment in comments {
            let program = format!("//{}\n{}", comment, rest);
            let with = tokenize(&program);
            let without = tokenize(&rest.to_string());
            assert_eq!(format!("{:?}", with), format!("{:?}", without), "{:?}", program);
        }
    }
}
