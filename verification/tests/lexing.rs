use europa::error::LineInfo;
use europa::lexer::Lexer;
use europa::token::{Token, TokenType};

fn chars(s: &str) -> Vec<char> {
    s.chars().collect()
}

fn lex(src: &str) -> Vec<Token> {
    Lexer::new(chars(src)).init().expect("lexing should succeed")
}

fn lexeme_of(t: &TokenType) -> Option<String> {
    let s = match t {
        TokenType::Number(n) => n.to_string(),
        TokenType::Str(cs) => format!("\"{}\"", cs.iter().collect::<String>()),
        TokenType::Identifier(cs) => cs.iter().collect(),
        TokenType::True => "true".to_string(),
        TokenType::False => "false".to_string(),
        TokenType::Nil => "nil".to_string(),
        TokenType::Var => "var".to_string(),
        TokenType::If => "if".to_string(),
        TokenType::Else => "else".to_string(),
        TokenType::While => "while".to_string(),
        TokenType::Fn => "fn".to_string(),
        TokenType::Return => "return".to_string(),
        TokenType::LeftParen => "(".to_string(),
        TokenType::RightParen => ")".to_string(),
        TokenType::LeftBrace => "{".to_string(),
        TokenType::RightBrace => "}".to_string(),
        TokenType::Comma => ",".to_string(),
        TokenType::Semicolon => ";".to_string(),
        TokenType::Plus => "+".to_string(),
        TokenType::Minus => "-".to_string(),
        TokenType::Star => "*".to_string(),
        TokenType::Slash => "/".to_string(),
        TokenType::Bang => "!".to_string(),
        TokenType::BangEqual => "!=".to_string(),
        TokenType::Equal => "=".to_string(),
        TokenType::EqualEqual => "==".to_string(),
        TokenType::Greater => ">".to_string(),
        TokenType::GreaterEqual => ">=".to_string(),
        TokenType::Less => "<".to_string(),
        TokenType::LessEqual => "<=".to_string(),
        TokenType::AndAnd => "&&".to_string(),
        TokenType::OrOr => "||".to_string(),
        TokenType::Eof => return None,
    };
    Some(s)
}

#[test]
fn relexing_joined_lexemes_reproduces_the_kinds() {
    // Render each token back to its lexeme, join with spaces, and lex again:
    // the token kinds are reproduced (whitespace and comments are ignored).
    let src = "var x = 12 + 3; while x <= 99 { x = x * 2 } print(\"done\", x != 0, nil)";
    let first = lex(src);
    let rendered: Vec<String> = first.iter().filter_map(|t| lexeme_of(&t.ttype)).collect();
    let again = lex(&rendered.join(" "));
    let k1: Vec<&TokenType> = first.iter().map(|t| &t.ttype).collect();
    let k2: Vec<&TokenType> = again.iter().map(|t| &t.ttype).collect();
    assert_eq!(k1, k2);
}

#[test]
fn tokens_carry_one_based_positions() {
    let toks = lex("a\n  bc");
    assert_eq!(toks[0].info, LineInfo { line: 1, col: 1 });
    assert_eq!(toks[1].info, LineInfo { line: 2, col: 3 });
    assert!(matches!(toks[2].ttype, TokenType::Eof));
}

#[test]
fn longest_match_wins() {
    let toks = lex("== = <= < != !");
    let kinds: Vec<&TokenType> = toks.iter().map(|t| &t.ttype).collect();
    assert!(matches!(kinds[0], TokenType::EqualEqual));
    assert!(matches!(kinds[1], TokenType::Equal));
    assert!(matches!(kinds[2], TokenType::LessEqual));
    assert!(matches!(kinds[3], TokenType::Less));
    assert!(matches!(kinds[4], TokenType::BangEqual));
    assert!(matches!(kinds[5], TokenType::Bang));
}

#[test]
fn identifiers_are_split_from_keywords() {
    let toks = lex("variable var ifx if");
    assert!(matches!(&toks[0].ttype, TokenType::Identifier(n) if n.iter().collect::<String>() == "variable"));
    assert!(matches!(toks[1].ttype, TokenType::Var));
    assert!(matches!(&toks[2].ttype, TokenType::Identifier(n) if n.iter().collect::<String>() == "ifx"));
    assert!(matches!(toks[3].ttype, TokenType::If));
}
