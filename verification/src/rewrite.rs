//! The signature rewriter.
//!
//! The rewriting directive receives an entry-point declaration as a token
//! stream and adapts it so that the original body runs under the unwind
//! dispatcher: the declaration's head, parameters, and return type pass
//! through untouched, and only the body block is replaced by a call that
//! hands the original block to the dispatcher as a deferred computation.
//!
//! Misuse is rejected here, at the earliest stage, never at run time:
//! the directive itself accepts no arguments, the target must be a function,
//! and the function must be named `main`.  Each rejection is emitted as a
//! `compile_error!` invocation whose tokens carry the spans of the offending
//! input, so the host attaches the diagnostic to the right place.

use vstd::prelude::*;
use vstd::string::StringExecFns;

use crate::tokens::balanced;
use crate::tokens::delta;
use crate::tokens::extend_copies;
use crate::tokens::push_tok;
use crate::tokens::depth;
use crate::tokens::is_ident;
use crate::tokens::lemma_depth_full;
use crate::tokens::lemma_depth_step;
use crate::tokens::span_of;
use crate::tokens::token_span;
use crate::tokens::Delim;
use crate::tokens::TokView;
use crate::tokens::Token;

verus! {

/// Diagnostic for a directive applied with arguments.
pub open spec fn msg_arguments() -> Seq<char> {
    "arguments are not accepted"@
}

/// Diagnostic for a directive applied to something that is not a function.
pub open spec fn msg_not_function() -> Seq<char> {
    "`#[quit::main]` can only be attached to functions"@
}

/// Diagnostic for a directive applied to a function not named `main`.
pub open spec fn msg_not_main() -> Seq<char> {
    "`#[quit::main]` can only be attached to `main`"@
}

/// A rejected input: a message and the source range it is attached to.
pub struct Error {
    /// Span of the first offending token.
    pub start: u32,
    /// Span of the last offending token.
    pub end: u32,
    /// The explanation, attached to that range.
    pub message: String,
}

/// `s` surrounded by double quotes: the source form of a string literal
/// whose content is `s`.
pub open spec fn quote(s: Seq<char>) -> Seq<char> {
    seq!['"'] + s + seq!['"']
}

/// The source form of a string literal with content `message`, which must
/// not itself need escaping.
pub fn quoted(message: &str) -> (out: String)
    ensures
        out@ == quote(message@),
{
    let mut out = String::from_str("\"");
    out.append(message);
    out.append("\"");
    proof {
        reveal_strlit("\"");
        assert(out@ =~= quote(message@));
    }
    out
}

/// The tokens of a macro invocation path `::module::name!`, all carrying
/// one span.
pub open spec fn path_bang(module: Seq<char>, name: Seq<char>, span: u32) -> Seq<TokView> {
    seq![
        TokView::Punct { ch: ':', joint: true, span },
        TokView::Punct { ch: ':', joint: false, span },
        TokView::Ident { text: module, span },
        TokView::Punct { ch: ':', joint: true, span },
        TokView::Punct { ch: ':', joint: false, span },
        TokView::Ident { text: name, span },
        TokView::Punct { ch: '!', joint: false, span },
    ]
}

/// Builds the tokens of `::module::name!`.
pub fn macro_path(module: &str, name: &str, span: u32) -> (out: Vec<Token>)
    ensures
        out.deep_view() == path_bang(module@, name@, span),
{
    let mut out: Vec<Token> = Vec::new();
    out.push(Token::punct(':', true, span));
    out.push(Token::punct(':', false, span));
    out.push(Token::ident(module, span));
    out.push(Token::punct(':', true, span));
    out.push(Token::punct(':', false, span));
    out.push(Token::ident(name, span));
    out.push(Token::punct('!', false, span));
    proof {
        assert(out.deep_view() =~= path_bang(module@, name@, span));
    }
    out
}

/// The expansion of a rejected input: `::std::compile_error! { "message" }`,
/// with the path at the start of the offending range and the braced message
/// at its end.
pub open spec fn compile_error_view(start: u32, end: u32, message: Seq<char>) -> Seq<TokView> {
    path_bang("std"@, "compile_error"@, start) + seq![
        TokView::Open { delim: Delim::Brace, span: end },
        TokView::Literal { text: quote(message), span: end },
        TokView::Close { delim: Delim::Brace, span: end },
    ]
}

impl Error {
    /// A diagnostic attached to a single location.
    pub fn new(span: u32, message: &str) -> (e: Error)
        ensures
            e.start == span,
            e.end == span,
            e.message@ == message@,
    {
        Error { start: span, end: span, message: String::from_str(message) }
    }

    /// A diagnostic attached to a range of tokens; an empty range falls
    /// back to `call_site`.
    pub fn new_spanned(tokens: &Vec<Token>, message: &str, call_site: u32) -> (e: Error)
        ensures
            e.message@ == message@,
            tokens@.len() == 0 ==> e.start == call_site && e.end == call_site,
            tokens@.len() > 0 ==> e.start == span_of(tokens.deep_view()[0]),
            tokens@.len() == 1 ==> e.end == e.start,
            tokens@.len() >= 2 ==> e.end == span_of(tokens.deep_view().last()),
    {
        let n = tokens.len();
        let start = if n == 0 {
            call_site
        } else {
            token_span(&tokens[0])
        };
        let end = if n >= 2 {
            token_span(&tokens[n - 1])
        } else {
            start
        };
        Error { start, end, message: String::from_str(message) }
    }

    /// Emits this diagnostic as a `compile_error!` invocation.
    pub fn to_compile_error(&self) -> (out: Vec<Token>)
        ensures
            out.deep_view() == compile_error_view(self.start, self.end, self.message@),
    {
        let mut out = macro_path("std", "compile_error", self.start);
        out.push(Token::open(Delim::Brace, self.end));
        let text = quoted(self.message.as_str());
        out.push(Token::Literal { text, span: self.end });
        out.push(Token::close(Delim::Brace, self.end));
        proof {
            assert(out.deep_view() =~= compile_error_view(self.start, self.end, self.message@));
        }
        out
    }
}

/// The index of the first identifier `fn` that stands outside every
/// delimited group, scanning from `i` with `d` groups currently open;
/// `s.len()` if there is none.
pub open spec fn scan_fn(s: Seq<TokView>, i: int, d: int) -> int
    decreases s.len() - i,
{
    if i < 0 || i >= s.len() {
        s.len() as int
    } else if d == 0 && is_ident(s[i], "fn"@) {
        i
    } else {
        scan_fn(s, i + 1, d + delta(s[i]))
    }
}

/// Where the head of the declaration ends: the first top-level `fn`.
pub open spec fn fn_pos(s: Seq<TokView>) -> int {
    scan_fn(s, 0, 0)
}

/// The declaration has a top-level `fn` immediately followed by the
/// identifier `main`: the two tokens the rewriter must recognize.
pub open spec fn sig_ok(s: Seq<TokView>) -> bool {
    &&& fn_pos(s) + 1 < s.len()
    &&& is_ident(s[fn_pos(s) + 1], "main"@)
}

/// The head runs through `fn main` inclusive.
pub open spec fn sig_end(s: Seq<TokView>) -> int {
    fn_pos(s) + 2
}

/// The scan's result lies between its starting point and the stream's end.
pub proof fn lemma_scan_bounds(s: Seq<TokView>, i: int, d: int)
    requires
        0 <= i <= s.len(),
    ensures
        i <= scan_fn(s, i, d) <= s.len(),
    decreases s.len() - i,
{
    if i < s.len() {
        if d == 0 && is_ident(s[i], "fn"@) {
        } else {
            lemma_scan_bounds(s, i + 1, d + delta(s[i]));
        }
    }
}

/// What the scan guarantees about its result: it never moves backwards,
/// and when it finds `fn`, that token stands at nesting depth zero.
pub proof fn lemma_scan_props(s: Seq<TokView>, i: int, d: int)
    requires
        0 <= i <= s.len(),
        d == depth(s.subrange(0, i)),
    ensures
        i <= scan_fn(s, i, d) <= s.len(),
        scan_fn(s, i, d) < s.len() ==> {
            &&& is_ident(s[scan_fn(s, i, d)], "fn"@)
            &&& depth(s.subrange(0, scan_fn(s, i, d))) == 0
        },
    decreases s.len() - i,
{
    if i < s.len() {
        if d == 0 && is_ident(s[i], "fn"@) {
        } else {
            lemma_depth_step(s, i);
            lemma_scan_props(s, i + 1, d + delta(s[i]));
        }
    }
}

/// The scan only looks at the tokens it walks across: two streams that
/// agree up to a bound beyond the first stream's result scan alike.
pub proof fn lemma_scan_agree(s1: Seq<TokView>, s2: Seq<TokView>, i: int, d: int, m: int)
    requires
        0 <= i <= m,
        m <= s1.len(),
        m <= s2.len(),
        forall|j: int| i <= j < m ==> s1[j] == s2[j],
        scan_fn(s1, i, d) < m,
    ensures
        scan_fn(s2, i, d) == scan_fn(s1, i, d),
    decreases m - i,
{
    lemma_scan_bounds(s1, i, d);
    if i < m {
        if d == 0 && is_ident(s1[i], "fn"@) {
        } else {
            lemma_scan_agree(s1, s2, i + 1, d + delta(s1[i]), m);
        }
    }
}

/// Whether token text equals `name`.
pub fn ident_is(t: &Token, name: &str) -> (r: bool)
    ensures
        r == is_ident(t@, name@),
{
    match t {
        Token::Ident { text, .. } => *text == String::from_str(name),
        _ => false,
    }
}

/// Walks the stream to the first top-level `fn`, returning the stream's
/// length if there is none.
pub fn scan_to_fn(item: &Vec<Token>) -> (p: usize)
    requires
        balanced(item.deep_view()),
    ensures
        p as int == fn_pos(item.deep_view()),
        p <= item@.len(),
{
    let ghost s = item.deep_view();
    let n = item.len();
    let mut i: usize = 0;
    let mut d: usize = 0;
    proof {
        assert(s.subrange(0, 0) =~= Seq::<TokView>::empty());
    }
    while i < n
        invariant
            i <= n == s.len(),
            s == item.deep_view(),
            balanced(s),
            d <= i,
            d == depth(s.subrange(0, i as int)),
            fn_pos(s) == scan_fn(s, i as int, d as int),
        decreases n - i,
    {
        proof {
            lemma_depth_step(s, i as int);
        }
        if d == 0 && ident_is(&item[i], "fn") {
            proof {
                assert(scan_fn(s, i as int, d as int) == i as int);
            }
            return i;
        }
        match &item[i] {
            Token::Open { .. } => {
                d = d + 1;
            },
            Token::Close { .. } => {
                proof {
                    assert(depth(s.subrange(0, i + 1)) >= 0);
                }
                d = d - 1;
            },
            _ => {},
        }
        i = i + 1;
    }
    proof {
        assert(scan_fn(s, n as int, d as int) == n as int);
    }
    n
}

/// Finds the end of the head: walks to the first top-level `fn` and checks
/// that the next token is the identifier `main`.  On success the head is
/// the prefix of that length; otherwise the offending input is described
/// exactly.
pub fn take_signature(item: &Vec<Token>, call_site: u32) -> (r: Result<usize, Error>)
    requires
        balanced(item.deep_view()),
    ensures
        ({
            let s = item.deep_view();
            let p = fn_pos(s);
            &&& (r is Ok <==> sig_ok(s))
            &&& (r matches Ok(n) ==> n == sig_end(s))
            &&& (p + 1 >= s.len() ==> (r matches Err(e) && e.start == call_site && e.end
                == call_site && e.message@ == msg_not_function()))
            &&& (p + 1 < s.len() && !is_ident(s[p + 1], "main"@) ==> (r matches Err(e) && e.start
                == span_of(s[p + 1]) && e.end == span_of(s[p + 1]) && e.message@ == msg_not_main()))
        }),
{
    let ghost s = item.deep_view();
    let n = item.len();
    let p = scan_to_fn(item);
    if p == n {
        return Err(Error::new(call_site, "`#[quit::main]` can only be attached to functions"));
    }
    if p + 1 == n {
        return Err(Error::new(call_site, "`#[quit::main]` can only be attached to functions"));
    }
    if !ident_is(&item[p + 1], "main") {
        let span = token_span(&item[p + 1]);
        return Err(Error::new(span, "`#[quit::main]` can only be attached to `main`"));
    }
    Ok(p + 2)
}

/// `k` starts the body block: a top-level braced group that runs to the
/// very end of the (balanced) stream.
pub open spec fn is_body_start(s: Seq<TokView>, k: int) -> bool {
    &&& 0 <= k < s.len()
    &&& s[k] matches TokView::Open { delim: Delim::Brace, .. }
    &&& depth(s.subrange(0, k)) == 0
    &&& forall|j: int| k < j < s.len() ==> depth(#[trigger] s.subrange(0, j)) > 0
}

/// The stream ends in a top-level braced group.
pub open spec fn has_body(s: Seq<TokView>) -> bool {
    exists|k: int| is_body_start(s, k)
}

/// Where the body block starts.
pub open spec fn body_pos(s: Seq<TokView>) -> int {
    choose|k: int| is_body_start(s, k)
}

/// At most one position starts the body.
pub proof fn lemma_body_unique(s: Seq<TokView>, k1: int, k2: int)
    requires
        is_body_start(s, k1),
        is_body_start(s, k2),
    ensures
        k1 == k2,
{
    if k1 < k2 {
        assert(depth(s.subrange(0, k2)) > 0);
    }
    if k2 < k1 {
        assert(depth(s.subrange(0, k1)) > 0);
    }
}

/// Finds the body block: the last top-level group of the stream, provided
/// it is braced.  Returns its position, or `None` if the stream does not
/// end in a top-level braced group.
pub fn find_body(item: &Vec<Token>) -> (r: Option<usize>)
    requires
        balanced(item.deep_view()),
    ensures
        ({
            let s = item.deep_view();
            &&& (r matches Some(k) ==> has_body(s) && k as int == body_pos(s))
            &&& (r is None ==> !has_body(s))
        }),
{
    let ghost s = item.deep_view();
    let n = item.len();
    if n == 0 {
        proof {
            assert forall|k: int| !is_body_start(s, k) by {}
        }
        return None;
    }
    let mut i: usize = 0;
    let mut d: usize = 0;
    let mut last_zero: usize = 0;
    proof {
        assert(s.subrange(0, 0) =~= Seq::<TokView>::empty());
    }
    while i < n
        invariant
            i <= n == s.len(),
            n > 0,
            s == item.deep_view(),
            balanced(s),
            d <= i,
            d == depth(s.subrange(0, i as int)),
            last_zero <= i,
            i > 0 ==> last_zero < i,
            depth(s.subrange(0, last_zero as int)) == 0,
            forall|j: int| last_zero < j < i ==> depth(#[trigger] s.subrange(0, j)) > 0,
        decreases n - i,
    {
        proof {
            lemma_depth_step(s, i as int);
        }
        if d == 0 {
            last_zero = i;
        }
        match &item[i] {
            Token::Open { .. } => {
                d = d + 1;
            },
            Token::Close { .. } => {
                proof {
                    assert(depth(s.subrange(0, i + 1)) >= 0);
                }
                d = d - 1;
            },
            _ => {},
        }
        i = i + 1;
    }
    match &item[last_zero] {
        Token::Open { delim: Delim::Brace, .. } => {
            proof {
                assert(is_body_start(s, last_zero as int));
                lemma_body_unique(s, body_pos(s), last_zero as int);
            }
            Some(last_zero)
        },
        _ => {
            proof {
                assert forall|k: int| !(#[trigger] is_body_start(s, k)) by {
                    if is_body_start(s, k) {
                        if k < last_zero as int {
                            assert(depth(s.subrange(0, last_zero as int)) > 0);
                        } else if k > last_zero as int {
                            assert(depth(s.subrange(0, k)) > 0);
                        }
                    }
                }
            }
            None
        },
    }
}

/// The tokens of the dispatcher's path `::quit::run`, all carrying one
/// span.
pub open spec fn run_path(span: u32) -> Seq<TokView> {
    seq![
        TokView::Punct { ch: ':', joint: true, span },
        TokView::Punct { ch: ':', joint: false, span },
        TokView::Ident { text: "quit"@, span },
        TokView::Punct { ch: ':', joint: true, span },
        TokView::Punct { ch: ':', joint: false, span },
        TokView::Ident { text: "run"@, span },
    ]
}

/// A successful rewrite of a declaration whose body starts at `b`: the head
/// and every qualifier, generic parameter, constraint, parameter, and
/// return type pass through unchanged, and the body block becomes
/// `{ ::quit::run(|| <body>) }`.
pub open spec fn success_view(item: Seq<TokView>, b: int, cs: u32) -> Seq<TokView> {
    item.subrange(0, b) + seq![TokView::Open { delim: Delim::Brace, span: cs }] + run_path(cs)
        + seq![
        TokView::Open { delim: Delim::Parenthesis, span: cs },
        TokView::Punct { ch: '|', joint: false, span: cs },
        TokView::Punct { ch: '|', joint: false, span: cs },
    ] + item.subrange(b, item.len() as int) + seq![
        TokView::Close { delim: Delim::Parenthesis, span: cs },
        TokView::Close { delim: Delim::Brace, span: cs },
    ]
}

/// The rewriter accepts exactly a directive without arguments, applied to a
/// declaration with a top-level `fn main` and a body block.
pub open spec fn rewrite_ok(args: Seq<TokView>, item: Seq<TokView>) -> bool {
    &&& args.len() == 0
    &&& sig_ok(item)
    &&& has_body(item)
}

/// What the rewriter produces, for every input: the adapted declaration on
/// an accepted input, and a located `compile_error!` invocation otherwise.
pub open spec fn rewrite_view(args: Seq<TokView>, item: Seq<TokView>, cs: u32) -> Seq<TokView> {
    if args.len() > 0 {
        compile_error_view(
            span_of(args[0]),
            if args.len() >= 2 {
                span_of(args.last())
            } else {
                span_of(args[0])
            },
            msg_arguments(),
        )
    } else if fn_pos(item) + 1 >= item.len() {
        compile_error_view(cs, cs, msg_not_function())
    } else if !is_ident(item[fn_pos(item) + 1], "main"@) {
        compile_error_view(
            span_of(item[fn_pos(item) + 1]),
            span_of(item[fn_pos(item) + 1]),
            msg_not_main(),
        )
    } else if !has_body(item) {
        compile_error_view(span_of(item[0]), span_of(item.last()), msg_not_function())
    } else {
        success_view(item, body_pos(item), cs)
    }
}

/// Rewrites one entry-point declaration.
///
/// `args` are the tokens the directive itself was applied with (it accepts
/// none), `item` is the declaration, and `call_site` is the span given to
/// every token the rewriter invents.  The result either adapts the
/// declaration to run under the dispatcher or expands to a located
/// diagnostic; the input decides which, as [`rewrite_view`] states.
pub fn rewrite(args: &Vec<Token>, item: &Vec<Token>, call_site: u32) -> (out: Vec<Token>)
    requires
        balanced(item.deep_view()),
    ensures
        out.deep_view() == rewrite_view(args.deep_view(), item.deep_view(), call_site),
{
    let ghost s = item.deep_view();
    if args.len() > 0 {
        let e = Error::new_spanned(args, "arguments are not accepted", call_site);
        return e.to_compile_error();
    }
    match take_signature(item, call_site) {
        Ok(_) => {},
        Err(e) => {
            return e.to_compile_error();
        },
    }
    let b = match find_body(item) {
        Some(b) => b,
        None => {
            let e = Error::new_spanned(
                item,
                "`#[quit::main]` can only be attached to functions",
                call_site,
            );
            proof {
                lemma_scan_bounds(s, 0, 0);
                assert(s.len() >= 2);
            }
            return e.to_compile_error();
        },
    };
    let n = item.len();
    let mut out: Vec<Token> = Vec::new();
    extend_copies(&mut out, item, 0, b);
    push_tok(&mut out, Token::open(Delim::Brace, call_site));
    push_tok(&mut out, Token::punct(':', true, call_site));
    push_tok(&mut out, Token::punct(':', false, call_site));
    push_tok(&mut out, Token::ident("quit", call_site));
    push_tok(&mut out, Token::punct(':', true, call_site));
    push_tok(&mut out, Token::punct(':', false, call_site));
    push_tok(&mut out, Token::ident("run", call_site));
    push_tok(&mut out, Token::open(Delim::Parenthesis, call_site));
    push_tok(&mut out, Token::punct('|', false, call_site));
    push_tok(&mut out, Token::punct('|', false, call_site));
    extend_copies(&mut out, item, b, n);
    push_tok(&mut out, Token::close(Delim::Parenthesis, call_site));
    push_tok(&mut out, Token::close(Delim::Brace, call_site));
    proof {
        assert(out.deep_view() =~= success_view(s, b as int, call_site));
    }
    out
}

/// Splitting a concatenation: the depth of a prefix of `a + b` is the
/// depth of the corresponding prefix of `a`, or all of `a` plus a prefix
/// of `b`.
pub proof fn lemma_depth_prefix_concat(a: Seq<TokView>, b: Seq<TokView>, j: int)
    requires
        0 <= j <= a.len() + b.len(),
    ensures
        j <= a.len() ==> depth((a + b).subrange(0, j)) == depth(a.subrange(0, j)),
        j > a.len() ==> depth((a + b).subrange(0, j)) == depth(a) + depth(
            b.subrange(0, j - a.len()),
        ),
{
    if j <= a.len() {
        assert((a + b).subrange(0, j) =~= a.subrange(0, j));
    } else {
        assert((a + b).subrange(0, j) =~= a + b.subrange(0, j - a.len()));
        crate::tokens::lemma_depth_concat(a, b.subrange(0, j - a.len()));
    }
}

/// The tokens a successful rewrite wraps around the original body block:
/// `{ ::quit::run(||` before it and `) }` after it.
pub open spec fn intro_view(cs: u32) -> Seq<TokView> {
    seq![TokView::Open { delim: Delim::Brace, span: cs }] + run_path(cs) + seq![
        TokView::Open { delim: Delim::Parenthesis, span: cs },
        TokView::Punct { ch: '|', joint: false, span: cs },
        TokView::Punct { ch: '|', joint: false, span: cs },
    ]
}

pub open spec fn outro_view(cs: u32) -> Seq<TokView> {
    seq![
        TokView::Close { delim: Delim::Parenthesis, span: cs },
        TokView::Close { delim: Delim::Brace, span: cs },
    ]
}

/// The depths reached inside the wrapper tokens, position by position.
pub proof fn lemma_intro_depths(cs: u32)
    ensures
        intro_view(cs).len() == 10,
        forall|t: int|
            1 <= t <= 10 ==> depth(#[trigger] intro_view(cs).subrange(0, t)) == (if t <= 7 {
                1int
            } else {
                2int
            }),
{
    let intro = intro_view(cs);
    assert(intro.len() == 10);
    assert(intro.subrange(0, 0) =~= Seq::<TokView>::empty());
    lemma_depth_step(intro, 0);
    lemma_depth_step(intro, 1);
    lemma_depth_step(intro, 2);
    lemma_depth_step(intro, 3);
    lemma_depth_step(intro, 4);
    lemma_depth_step(intro, 5);
    lemma_depth_step(intro, 6);
    lemma_depth_step(intro, 7);
    lemma_depth_step(intro, 8);
    lemma_depth_step(intro, 9);
    assert(depth(intro.subrange(0, 1)) == 1);
    assert(depth(intro.subrange(0, 2)) == 1);
    assert(depth(intro.subrange(0, 3)) == 1);
    assert(depth(intro.subrange(0, 4)) == 1);
    assert(depth(intro.subrange(0, 5)) == 1);
    assert(depth(intro.subrange(0, 6)) == 1);
    assert(depth(intro.subrange(0, 7)) == 1);
    assert(depth(intro.subrange(0, 8)) == 2);
    assert(depth(intro.subrange(0, 9)) == 2);
    assert(depth(intro.subrange(0, 10)) == 2);
}

/// A successful rewrite yields a balanced stream whose body block is the
/// wrapper block, at the same position as the original body block.
pub proof fn lemma_success_depths(item: Seq<TokView>, b: int, cs: u32)
    requires
        balanced(item),
        is_body_start(item, b),
    ensures
        balanced(success_view(item, b, cs)),
        is_body_start(success_view(item, b, cs), b),
        success_view(item, b, cs).len() == item.len() + 12,
{
    let pre = item.subrange(0, b);
    let body = item.subrange(b, item.len() as int);
    let intro = intro_view(cs);
    let outro = outro_view(cs);
    let front = pre + intro;
    let back = body + outro;
    let out = success_view(item, b, cs);
    let blen = body.len() as int;
    assert(out =~= front + back);
    assert(item =~= pre + body);
    lemma_intro_depths(cs);
    crate::tokens::lemma_depth_concat(pre, intro);
    crate::tokens::lemma_depth_concat(body, outro);
    crate::tokens::lemma_depth_concat(front, back);
    // depth of every prefix of `body`, from the prefixes of `item`
    assert forall|t: int| 0 <= t <= blen implies depth(#[trigger] body.subrange(0, t)) == depth(
        item.subrange(0, b + t),
    ) by {
        lemma_depth_prefix_concat(pre, body, b + t);
        assert(item.subrange(0, b + t) =~= (pre + body).subrange(0, b + t));
    }
    // depth of `body` itself
    lemma_depth_full(body);
    assert(depth(body) == depth(item.subrange(0, b + blen)));
    assert(item.subrange(0, b + blen) =~= item);
    // depth of `outro` step by step
    assert(outro.subrange(0, 0) =~= Seq::<TokView>::empty());
    lemma_depth_step(outro, 0);
    lemma_depth_step(outro, 1);
    lemma_depth_full(outro);
    // now every prefix of `out`
    assert forall|j: int| 0 <= j <= out.len() implies depth(#[trigger] out.subrange(0, j)) == (
    if j <= b {
        depth(item.subrange(0, j))
    } else if j <= b + 10 {
        if j <= b + 7 {
            1int
        } else {
            2int
        }
    } else if j <= b + 10 + blen {
        2 + depth(item.subrange(0, j - 10))
    } else if j == b + 11 + blen {
        1int
    } else {
        0int
    }) by {
        lemma_depth_prefix_concat(front, back, j);
        if j <= b {
            lemma_depth_prefix_concat(pre, intro, j);
            assert(pre.subrange(0, j) =~= item.subrange(0, j));
        } else if j <= b + 10 {
            lemma_depth_prefix_concat(pre, intro, j);
        } else {
            let t = j - b - 10;
            lemma_depth_prefix_concat(body, outro, t);
            if t <= blen {
                assert(depth(body.subrange(0, t)) == depth(item.subrange(0, b + t)));
            }
        }
    }
    // balanced(out)
    assert(depth(out.subrange(0, out.len() as int)) == 0);
    lemma_depth_full(out);
    assert forall|j: int| 0 <= j <= out.len() implies depth(#[trigger] out.subrange(0, j))
        >= 0 by {
        if b < j && j <= b + 10 + blen && j > b + 10 {
            assert(depth(item.subrange(0, j - 10)) >= 0);
        }
    }
    // is_body_start(out, b)
    assert(out[b] == intro[0]);
    assert(depth(out.subrange(0, b)) == depth(item.subrange(0, b)));
    assert forall|j: int| b < j < out.len() implies depth(#[trigger] out.subrange(0, j)) > 0 by {
        if b + 10 < j && j <= b + 10 + blen {
            let i2 = j - 10;
            if i2 < item.len() {
                assert(depth(item.subrange(0, i2)) > 0);
            } else {
                lemma_depth_full(item);
            }
        }
    }
}

/// Preservation: on an accepted declaration the rewriter changes nothing
/// but the body block.  Every token before the body — qualifiers,
/// attributes, generics, constraints, parameters, return type — reappears
/// unchanged at its position, and the body block itself reappears
/// unchanged inside the wrapper block.
pub proof fn lemma_preservation(item: Seq<TokView>, cs: u32)
    requires
        balanced(item),
        rewrite_ok(Seq::<TokView>::empty(), item),
    ensures
        ({
            let out = rewrite_view(Seq::<TokView>::empty(), item, cs);
            let b = body_pos(item);
            &&& out.len() == item.len() + 12
            &&& out.subrange(0, b) == item.subrange(0, b)
            &&& out.subrange(b + 10, item.len() as int + 10) == item.subrange(b, item.len() as int)
        }),
{
    let b = body_pos(item);
    assert(is_body_start(item, b));
    let out = success_view(item, b, cs);
    assert(rewrite_view(Seq::<TokView>::empty(), item, cs) == out);
    assert(out.subrange(0, b) =~= item.subrange(0, b));
    assert(out.subrange(b + 10, item.len() as int + 10) =~= item.subrange(b, item.len() as int));
}

/// Stability under composition: a declaration the rewriter accepts is
/// rewritten into a declaration the rewriter accepts again.  Applying the
/// directive to its own output therefore still compiles; at run time the
/// extra boundary wraps the inner one and the signal is still consumed
/// exactly once, by the innermost boundary it reaches.
pub proof fn lemma_rewrite_stable(item: Seq<TokView>, cs: u32)
    requires
        balanced(item),
        rewrite_ok(Seq::<TokView>::empty(), item),
    ensures
        balanced(rewrite_view(Seq::<TokView>::empty(), item, cs)),
        rewrite_ok(Seq::<TokView>::empty(), rewrite_view(Seq::<TokView>::empty(), item, cs)),
{
    let b = body_pos(item);
    assert(is_body_start(item, b));
    let out = success_view(item, b, cs);
    assert(rewrite_view(Seq::<TokView>::empty(), item, cs) == out);
    lemma_success_depths(item, b, cs);
    let p = fn_pos(item);
    assert(item.subrange(0, 0) =~= Seq::<TokView>::empty());
    lemma_scan_props(item, 0, 0);
    // the head ends strictly before the body block starts
    assert(p + 1 < b) by {
        if p == b || p + 1 == b {
            assert(false);
        } else if p > b {
            assert(depth(item.subrange(0, p)) > 0);
            assert(false);
        }
    }
    // the rewritten stream agrees with the original up to the body block
    let pre = item.subrange(0, b);
    assert forall|j: int| 0 <= j < b implies out[j] == item[j] by {
        assert(out[j] == pre[j]);
    }
    lemma_scan_agree(item, out, 0, 0, b);
    assert(fn_pos(out) == p);
    assert(out[p + 1] == item[p + 1]);
    assert(sig_ok(out));
    assert(has_body(out));
}

} // verus!
