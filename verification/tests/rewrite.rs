//! The signature rewriter on concrete declarations.

use quit::rewrite::rewrite;
use quit::tokens::Delim;
use quit::tokens::Token;

const CS: u32 = 0;

/// The tokens of `fn main() {}`, with distinct spans.
fn empty_main() -> Vec<Token> {
    vec![
        Token::ident("fn", 1),
        Token::ident("main", 2),
        Token::open(Delim::Parenthesis, 3),
        Token::close(Delim::Parenthesis, 3),
        Token::open(Delim::Brace, 4),
        Token::close(Delim::Brace, 4),
    ]
}

/// The expected successful rewrite of `item` whose body block starts at
/// `b`: everything before the body unchanged, then `{ ::quit::run(||` the
/// body `) }`, the invented tokens all at the call site span.
fn wrapped(item: &[Token], b: usize) -> Vec<Token> {
    let mut out: Vec<Token> = item[..b].to_vec();
    out.push(Token::open(Delim::Brace, CS));
    out.push(Token::punct(':', true, CS));
    out.push(Token::punct(':', false, CS));
    out.push(Token::ident("quit", CS));
    out.push(Token::punct(':', true, CS));
    out.push(Token::punct(':', false, CS));
    out.push(Token::ident("run", CS));
    out.push(Token::open(Delim::Parenthesis, CS));
    out.push(Token::punct('|', false, CS));
    out.push(Token::punct('|', false, CS));
    out.extend(item[b..].to_vec());
    out.push(Token::close(Delim::Parenthesis, CS));
    out.push(Token::close(Delim::Brace, CS));
    out
}

/// The expected expansion of a rejected input:
/// `::std::compile_error! { "message" }` with the given spans.
fn rejection(start: u32, end: u32, message: &str) -> Vec<Token> {
    vec![
        Token::punct(':', true, start),
        Token::punct(':', false, start),
        Token::ident("std", start),
        Token::punct(':', true, start),
        Token::punct(':', false, start),
        Token::ident("compile_error", start),
        Token::punct('!', false, start),
        Token::open(Delim::Brace, end),
        Token::literal(&format!("\"{}\"", message), end),
        Token::close(Delim::Brace, end),
    ]
}

#[test]
fn parse_test_empty() {
    let item = empty_main();
    let out = rewrite(&vec![], &item, CS);
    assert_eq!(wrapped(&item, 4), out);
}

#[test]
fn parse_test_success() {
    // fn main() { if !"hello world".contains('h') { panic!("hello world"); } }
    let item = vec![
        Token::ident("fn", 1),
        Token::ident("main", 2),
        Token::open(Delim::Parenthesis, 3),
        Token::close(Delim::Parenthesis, 3),
        Token::open(Delim::Brace, 4),
        Token::ident("if", 5),
        Token::punct('!', false, 6),
        Token::literal("\"hello world\"", 7),
        Token::punct('.', false, 8),
        Token::ident("contains", 9),
        Token::open(Delim::Parenthesis, 10),
        Token::literal("'h'", 11),
        Token::close(Delim::Parenthesis, 10),
        Token::open(Delim::Brace, 12),
        Token::ident("panic", 13),
        Token::punct('!', false, 13),
        Token::open(Delim::Parenthesis, 14),
        Token::literal("\"hello world\"", 15),
        Token::close(Delim::Parenthesis, 14),
        Token::punct(';', false, 16),
        Token::close(Delim::Brace, 12),
        Token::close(Delim::Brace, 4),
    ];
    let out = rewrite(&vec![], &item, CS);
    assert_eq!(wrapped(&item, 4), out);
}

#[test]
fn parse_test_return() {
    // fn main() -> Result<(), ()> { Ok(()) }
    let item = vec![
        Token::ident("fn", 1),
        Token::ident("main", 2),
        Token::open(Delim::Parenthesis, 3),
        Token::close(Delim::Parenthesis, 3),
        Token::punct('-', true, 4),
        Token::punct('>', false, 4),
        Token::ident("Result", 5),
        Token::punct('<', false, 6),
        Token::open(Delim::Parenthesis, 7),
        Token::close(Delim::Parenthesis, 7),
        Token::punct(',', false, 8),
        Token::open(Delim::Parenthesis, 9),
        Token::close(Delim::Parenthesis, 9),
        Token::punct('>', false, 6),
        Token::open(Delim::Brace, 10),
        Token::ident("Ok", 11),
        Token::open(Delim::Parenthesis, 12),
        Token::open(Delim::Parenthesis, 13),
        Token::close(Delim::Parenthesis, 13),
        Token::close(Delim::Parenthesis, 12),
        Token::close(Delim::Brace, 10),
    ];
    let out = rewrite(&vec![], &item, CS);
    // the return type passes through unchanged; only the body is wrapped
    assert_eq!(wrapped(&item, 14), out);
}

#[test]
fn parse_test_complex_signature() {
    // #[allow(improper_ctypes_definitions)] (as bare tokens), then
    // pub(super) async unsafe extern "C" fn main(_u1: u8, _u2: u16)
    //     -> Result<(), u32> { Ok(()) }
    let item = vec![
        Token::punct('#', false, 1),
        Token::open(Delim::Bracket, 2),
        Token::ident("allow", 3),
        Token::open(Delim::Parenthesis, 4),
        Token::ident("improper_ctypes_definitions", 5),
        Token::close(Delim::Parenthesis, 4),
        Token::close(Delim::Bracket, 2),
        Token::ident("pub", 6),
        Token::open(Delim::Parenthesis, 7),
        Token::ident("super", 8),
        Token::close(Delim::Parenthesis, 7),
        Token::ident("async", 9),
        Token::ident("unsafe", 10),
        Token::ident("extern", 11),
        Token::literal("\"C\"", 12),
        Token::ident("fn", 13),
        Token::ident("main", 14),
        Token::open(Delim::Parenthesis, 15),
        Token::ident("_u1", 16),
        Token::punct(':', false, 17),
        Token::ident("u8", 18),
        Token::punct(',', false, 19),
        Token::ident("_u2", 20),
        Token::punct(':', false, 21),
        Token::ident("u16", 22),
        Token::close(Delim::Parenthesis, 15),
        Token::punct('-', true, 23),
        Token::punct('>', false, 23),
        Token::ident("Result", 24),
        Token::punct('<', false, 25),
        Token::open(Delim::Parenthesis, 26),
        Token::close(Delim::Parenthesis, 26),
        Token::punct(',', false, 27),
        Token::ident("u32", 28),
        Token::punct('>', false, 25),
        Token::open(Delim::Brace, 29),
        Token::ident("Ok", 30),
        Token::open(Delim::Parenthesis, 31),
        Token::open(Delim::Parenthesis, 32),
        Token::close(Delim::Parenthesis, 32),
        Token::close(Delim::Parenthesis, 31),
        Token::close(Delim::Brace, 29),
    ];
    let once = rewrite(&vec![], &item, CS);
    assert_eq!(wrapped(&item, 35), once);
    // applying the directive to its own output still succeeds and wraps
    // the already-wrapped body once more
    let twice = rewrite(&vec![], &once, CS);
    assert_eq!(wrapped(&once, 35), twice);
}

#[test]
fn integration_test_complex_signature() {
    // pub(super) unsafe extern "C" fn main<T: Copy>() -> ManuallyDrop<()>
    //     where T: Clone { ManuallyDrop::new(()) }
    let item = vec![
        Token::ident("pub", 1),
        Token::open(Delim::Parenthesis, 2),
        Token::ident("super", 3),
        Token::close(Delim::Parenthesis, 2),
        Token::ident("unsafe", 4),
        Token::ident("extern", 5),
        Token::literal("\"C\"", 6),
        Token::ident("fn", 7),
        Token::ident("main", 8),
        Token::punct('<', false, 9),
        Token::ident("T", 10),
        Token::punct(':', false, 11),
        Token::ident("Copy", 12),
        Token::punct('>', false, 9),
        Token::open(Delim::Parenthesis, 13),
        Token::close(Delim::Parenthesis, 13),
        Token::punct('-', true, 14),
        Token::punct('>', false, 14),
        Token::ident("ManuallyDrop", 15),
        Token::punct('<', false, 16),
        Token::open(Delim::Parenthesis, 17),
        Token::close(Delim::Parenthesis, 17),
        Token::punct('>', false, 16),
        Token::ident("where", 18),
        Token::ident("T", 19),
        Token::punct(':', false, 20),
        Token::ident("Clone", 21),
        Token::open(Delim::Brace, 22),
        Token::ident("ManuallyDrop", 23),
        Token::punct(':', true, 24),
        Token::punct(':', false, 24),
        Token::ident("new", 25),
        Token::open(Delim::Parenthesis, 26),
        Token::open(Delim::Parenthesis, 27),
        Token::close(Delim::Parenthesis, 27),
        Token::close(Delim::Parenthesis, 26),
        Token::close(Delim::Brace, 22),
    ];
    let out = rewrite(&vec![], &item, CS);
    // generics and the constraint clause pass through unchanged
    assert_eq!(wrapped(&item, 27), out);
}

#[test]
fn test_rejects_arguments() {
    let args = vec![Token::ident("anything", 7)];
    let out = rewrite(&args, &empty_main(), CS);
    assert_eq!(rejection(7, 7, "arguments are not accepted"), out);
}

#[test]
fn test_rejects_argument_range() {
    let args = vec![
        Token::ident("two", 7),
        Token::punct(',', false, 8),
        Token::ident("tokens", 9),
    ];
    let out = rewrite(&args, &empty_main(), CS);
    assert_eq!(rejection(7, 9, "arguments are not accepted"), out);
}

#[test]
fn test_rejects_wrong_name() {
    // fn start() {}
    let item = vec![
        Token::ident("fn", 1),
        Token::ident("start", 2),
        Token::open(Delim::Parenthesis, 3),
        Token::close(Delim::Parenthesis, 3),
        Token::open(Delim::Brace, 4),
        Token::close(Delim::Brace, 4),
    ];
    let out = rewrite(&vec![], &item, CS);
    // the diagnostic is attached to the offending identifier
    assert_eq!(
        rejection(2, 2, "`#[quit::main]` can only be attached to `main`"),
        out
    );
}

#[test]
fn test_rejects_non_function() {
    // struct main {}
    let item = vec![
        Token::ident("struct", 1),
        Token::ident("main", 2),
        Token::open(Delim::Brace, 3),
        Token::close(Delim::Brace, 3),
    ];
    let out = rewrite(&vec![], &item, CS);
    assert_eq!(
        rejection(CS, CS, "`#[quit::main]` can only be attached to functions"),
        out
    );
}

#[test]
fn test_rejects_trailing_fn() {
    // a stream that ends right after `fn`
    let item = vec![Token::ident("fn", 1)];
    let out = rewrite(&vec![], &item, CS);
    assert_eq!(
        rejection(CS, CS, "`#[quit::main]` can only be attached to functions"),
        out
    );
}

#[test]
fn test_rejects_missing_body() {
    // fn main();
    let item = vec![
        Token::ident("fn", 1),
        Token::ident("main", 2),
        Token::open(Delim::Parenthesis, 3),
        Token::close(Delim::Parenthesis, 3),
        Token::punct(';', false, 4),
    ];
    let out = rewrite(&vec![], &item, CS);
    assert_eq!(
        rejection(1, 4, "`#[quit::main]` can only be attached to functions"),
        out
    );
}

#[test]
fn test_fn_inside_group_is_skipped() {
    // [fn] fn main() {} — the bracketed `fn` is not the head's `fn`
    let item = vec![
        Token::open(Delim::Bracket, 1),
        Token::ident("fn", 2),
        Token::close(Delim::Bracket, 1),
        Token::ident("fn", 3),
        Token::ident("main", 4),
        Token::open(Delim::Parenthesis, 5),
        Token::close(Delim::Parenthesis, 5),
        Token::open(Delim::Brace, 6),
        Token::close(Delim::Brace, 6),
    ];
    let out = rewrite(&vec![], &item, CS);
    assert_eq!(wrapped(&item, 7), out);
}

#[test]
fn test_is_balanced() {
    assert!(quit::tokens::is_balanced(&empty_main()));
    assert!(quit::tokens::is_balanced(&vec![]));
    let unclosed = vec![Token::open(Delim::Brace, 1)];
    assert!(!quit::tokens::is_balanced(&unclosed));
    let stray = vec![Token::close(Delim::Brace, 1)];
    assert!(!quit::tokens::is_balanced(&stray));
    let crossed = vec![
        Token::close(Delim::Parenthesis, 1),
        Token::open(Delim::Parenthesis, 2),
    ];
    assert!(!quit::tokens::is_balanced(&crossed));
}
