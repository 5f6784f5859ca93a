//! A structural model of the host compiler's token streams.
//!
//! A declaration reaches the rewriter as a sequence of tokens.  Delimited
//! groups are flattened into explicit [`Token::Open`] and [`Token::Close`]
//! markers, so a stream is a plain sequence and the rewriter can split it
//! at the few places it actually needs to inspect.  A stream produced by the
//! host tokenizer always satisfies [`balanced`], since it encodes a tree.
//!
//! Every token carries a `span`: an opaque identifier for a source location,
//! assigned by whoever produced the stream.  Diagnostics carry these
//! identifiers back, so the host can attach an error to the exact tokens
//! that caused it.

use vstd::prelude::*;
use vstd::string::StringExecFns;

verus! {

/// The delimiter kind of a token group.
#[derive(Clone, Copy, PartialEq, Eq, Debug)]
pub enum Delim {
    Parenthesis,
    Brace,
    Bracket,
    NoDelim,
}

/// One token of a flattened stream.
#[derive(Clone, PartialEq, Eq, Debug)]
pub enum Token {
    Ident { text: String, span: u32 },
    Punct { ch: char, joint: bool, span: u32 },
    Literal { text: String, span: u32 },
    Open { delim: Delim, span: u32 },
    Close { delim: Delim, span: u32 },
}

/// The mathematical value of a token: its text as a sequence of characters.
pub enum TokView {
    Ident { text: Seq<char>, span: u32 },
    Punct { ch: char, joint: bool, span: u32 },
    Literal { text: Seq<char>, span: u32 },
    Open { delim: Delim, span: u32 },
    Close { delim: Delim, span: u32 },
}

impl View for Token {
    type V = TokView;

    open spec fn view(&self) -> TokView {
        match self {
            Token::Ident { text, span } => TokView::Ident { text: text@, span: *span },
            Token::Punct { ch, joint, span } => TokView::Punct {
                ch: *ch,
                joint: *joint,
                span: *span,
            },
            Token::Literal { text, span } => TokView::Literal { text: text@, span: *span },
            Token::Open { delim, span } => TokView::Open { delim: *delim, span: *span },
            Token::Close { delim, span } => TokView::Close { delim: *delim, span: *span },
        }
    }
}

impl DeepView for Token {
    type V = TokView;

    open spec fn deep_view(&self) -> TokView {
        self.view()
    }
}

/// The source location attached to a token.
pub open spec fn span_of(t: TokView) -> u32 {
    match t {
        TokView::Ident { span, .. } => span,
        TokView::Punct { span, .. } => span,
        TokView::Literal { span, .. } => span,
        TokView::Open { span, .. } => span,
        TokView::Close { span, .. } => span,
    }
}

/// Whether `t` is an identifier spelled `name`.
pub open spec fn is_ident(t: TokView, name: Seq<char>) -> bool {
    t matches TokView::Ident { text, .. } && text == name
}

/// The contribution of one token to the nesting depth of a stream.
pub open spec fn delta(t: TokView) -> int {
    match t {
        TokView::Open { .. } => 1,
        TokView::Close { .. } => -1,
        _ => 0,
    }
}

/// The nesting depth reached after the whole stream `s`.
pub open spec fn depth(s: Seq<TokView>) -> int
    decreases s.len(),
{
    if s.len() == 0 {
        0
    } else {
        depth(s.drop_last()) + delta(s.last())
    }
}

/// A stream that encodes a forest of token trees: no prefix closes a group
/// that was never opened, and every opened group is closed by the end.
pub open spec fn balanced(s: Seq<TokView>) -> bool {
    &&& depth(s) == 0
    &&& forall|i: int| 0 <= i <= s.len() ==> depth(#[trigger] s.subrange(0, i)) >= 0
}

/// Depth adds up over concatenation.
pub proof fn lemma_depth_concat(a: Seq<TokView>, b: Seq<TokView>)
    ensures
        depth(a + b) == depth(a) + depth(b),
    decreases b.len(),
{
    if b.len() == 0 {
        assert(a + b =~= a);
    } else {
        lemma_depth_concat(a, b.drop_last());
        assert((a + b).drop_last() =~= a + b.drop_last());
    }
}

/// Depth grows token by token.
pub proof fn lemma_depth_step(s: Seq<TokView>, i: int)
    requires
        0 <= i < s.len(),
    ensures
        depth(s.subrange(0, i + 1)) == depth(s.subrange(0, i)) + delta(s[i]),
{
    assert(s.subrange(0, i + 1).drop_last() =~= s.subrange(0, i));
    assert(s.subrange(0, i + 1).last() == s[i]);
}

/// A whole stream is the trivial prefix of itself.
pub proof fn lemma_depth_full(s: Seq<TokView>)
    ensures
        depth(s.subrange(0, s.len() as int)) == depth(s),
{
    assert(s.subrange(0, s.len() as int) =~= s);
}

impl Token {
    /// An identifier token.
    pub fn ident(text: &str, span: u32) -> (t: Token)
        ensures
            t@ == (TokView::Ident { text: text@, span }),
    {
        Token::Ident { text: String::from_str(text), span }
    }

    /// A punctuation token; `joint` marks it as glued to the next one.
    pub fn punct(ch: char, joint: bool, span: u32) -> (t: Token)
        ensures
            t@ == (TokView::Punct { ch, joint, span }),
    {
        Token::Punct { ch, joint, span }
    }

    /// A literal token; `text` is its source form.
    pub fn literal(text: &str, span: u32) -> (t: Token)
        ensures
            t@ == (TokView::Literal { text: text@, span }),
    {
        Token::Literal { text: String::from_str(text), span }
    }

    /// The opening marker of a delimited group.
    pub fn open(delim: Delim, span: u32) -> (t: Token)
        ensures
            t@ == (TokView::Open { delim, span }),
    {
        Token::Open { delim, span }
    }

    /// The closing marker of a delimited group.
    pub fn close(delim: Delim, span: u32) -> (t: Token)
        ensures
            t@ == (TokView::Close { delim, span }),
    {
        Token::Close { delim, span }
    }
}

/// The source location attached to a token, as executable code.
pub fn token_span(t: &Token) -> (s: u32)
    ensures
        s == span_of(t@),
{
    match t {
        Token::Ident { span, .. } => *span,
        Token::Punct { span, .. } => *span,
        Token::Literal { span, .. } => *span,
        Token::Open { span, .. } => *span,
        Token::Close { span, .. } => *span,
    }
}

/// Decides whether a stream encodes a forest of token trees.  A stream
/// handed over by the host tokenizer always does; this check lets an
/// unverified producer of streams establish the same guarantee.
pub fn is_balanced(tokens: &Vec<Token>) -> (r: bool)
    ensures
        r == balanced(tokens.deep_view()),
{
    let ghost s = tokens.deep_view();
    let n = tokens.len();
    let mut i: usize = 0;
    let mut d: usize = 0;
    proof {
        assert(s.subrange(0, 0) =~= Seq::<TokView>::empty());
    }
    while i < n
        invariant
            i <= n == s.len(),
            s == tokens.deep_view(),
            d <= i,
            d == depth(s.subrange(0, i as int)),
            forall|j: int| 0 <= j <= i ==> depth(#[trigger] s.subrange(0, j)) >= 0,
        decreases n - i,
    {
        proof {
            lemma_depth_step(s, i as int);
        }
        match &tokens[i] {
            Token::Open { .. } => {
                d = d + 1;
            },
            Token::Close { .. } => {
                if d == 0 {
                    proof {
                        assert(depth(s.subrange(0, i + 1)) < 0);
                    }
                    return false;
                }
                d = d - 1;
            },
            _ => {},
        }
        i = i + 1;
    }
    proof {
        lemma_depth_full(s);
    }
    d == 0
}

/// A token equal to the given one.
pub fn copy_token(t: &Token) -> (r: Token)
    ensures
        r == *t,
{
    match t {
        Token::Ident { text, span } => Token::Ident { text: text.clone(), span: *span },
        Token::Punct { ch, joint, span } => Token::Punct {
            ch: *ch,
            joint: *joint,
            span: *span,
        },
        Token::Literal { text, span } => Token::Literal { text: text.clone(), span: *span },
        Token::Open { delim, span } => Token::Open { delim: *delim, span: *span },
        Token::Close { delim, span } => Token::Close { delim: *delim, span: *span },
    }
}

/// Appends one token, tracked on the stream's mathematical value.
pub fn push_tok(out: &mut Vec<Token>, t: Token)
    ensures
        final(out).deep_view() == old(out).deep_view().push(t@),
{
    let ghost prev = out.deep_view();
    let ghost tv = t@;
    out.push(t);
    proof {
        assert(out.deep_view() =~= prev.push(tv));
    }
}

/// Appends copies of `src[from..to]` to `out`.
pub fn extend_copies(out: &mut Vec<Token>, src: &Vec<Token>, from: usize, to: usize)
    requires
        from <= to <= src@.len(),
    ensures
        final(out).deep_view() == old(out).deep_view() + src.deep_view().subrange(
            from as int,
            to as int,
        ),
{
    let ghost out0 = out.deep_view();
    let mut i = from;
    proof {
        assert(out.deep_view() =~= out0 + src.deep_view().subrange(from as int, from as int));
    }
    while i < to
        invariant
            from <= i <= to <= src@.len(),
            out.deep_view() == out0 + src.deep_view().subrange(from as int, i as int),
        decreases to - i,
    {
        let ghost prev = out.deep_view();
        let tok = copy_token(&src[i]);
        proof {
            assert(tok == src@[i as int]);
        }
        out.push(tok);
        proof {
            assert(out.deep_view() =~= prev.push(src.deep_view()[i as int]));
            assert(src.deep_view().subrange(from as int, i + 1) =~= src.deep_view().subrange(
                from as int,
                i as int,
            ).push(src.deep_view()[i as int]));
            assert(out.deep_view() =~= out0 + src.deep_view().subrange(from as int, i + 1));
        }
        i = i + 1;
    }
}

} // verus!
