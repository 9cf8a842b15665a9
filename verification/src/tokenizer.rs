//! The tokenizer: a raw command line split on runs of unquoted whitespace,
//! with single or double quotes opening literal spans.
use crate::ext::char_is_whitespace;
use vstd::prelude::*;

verus! {

/// Why tokenizing failed.
#[derive(Clone, Copy, Debug, PartialEq, Eq, Structural)]
pub enum TokenizeError {
    /// The input ended while a quote span was still open.
    UnclosedQuote,
}

/// Tokenizer state after the first `i` characters: `quote` is the open quote
/// character if inside a span, `cur` the token being built, `acc` the tokens
/// finished so far. `None` means the input ends inside a quote span.
pub open spec fn tokenize_from(
    s: Seq<char>,
    i: int,
    quote: Option<char>,
    cur: Seq<char>,
    acc: Seq<Seq<char>>,
) -> Option<Seq<Seq<char>>>
    decreases s.len() - i,
{
    if i < 0 || i >= s.len() {
        if quote is Some {
            None
        } else if cur.len() > 0 {
            Some(acc.push(cur))
        } else {
            Some(acc)
        }
    } else {
        let c = s[i];
        match quote {
            Some(q) => if c == q {
                tokenize_from(s, i + 1, None, cur, acc)
            } else {
                tokenize_from(s, i + 1, quote, cur.push(c), acc)
            },
            None => if c == '\'' || c == '"' {
                tokenize_from(s, i + 1, Some(c), cur, acc)
            } else if char_is_whitespace(c) {
                if cur.len() > 0 {
                    tokenize_from(s, i + 1, None, Seq::empty(), acc.push(cur))
                } else {
                    tokenize_from(s, i + 1, None, cur, acc)
                }
            } else {
                tokenize_from(s, i + 1, None, cur.push(c), acc)
            },
        }
    }
}

/// The token sequence of a command line; `None` when a quote span is left
/// open. Empty input yields no tokens.
pub open spec fn tokenize_spec(s: Seq<char>) -> Option<Seq<Seq<char>>> {
    tokenize_from(s, 0, None, Seq::empty(), Seq::empty())
}

/// Split a command line into tokens, honoring quoting.
pub fn tokenize(input: &str) -> (r: Result<Vec<String>, TokenizeError>)
    ensures
        match r {
            Ok(tokens) => tokenize_spec(input@) == Some(tokens.deep_view()),
            Err(e) => tokenize_spec(input@) is None && e == TokenizeError::UnclosedQuote,
        },
{
    let n = input.unicode_len();
    let mut tokens: Vec<String> = Vec::new();
    let mut cur = String::new();
    let mut quote: Option<char> = None;
    proof {
        assert(tokens.deep_view() =~= Seq::<Seq<char>>::empty());
    }
    let mut i: usize = 0;
    while i < n
        invariant
            i <= n,
            n == input@.len(),
            tokenize_spec(input@) == tokenize_from(
                input@,
                i as int,
                quote,
                cur@,
                tokens.deep_view(),
            ),
        decreases n - i,
    {
        let c = input.get_char(i);
        match quote {
            Some(q) => {
                if c == q {
                    quote = None;
                } else {
                    cur.push(c);
                }
            },
            None => {
                if c == '\'' || c == '"' {
                    quote = Some(c);
                } else if c.is_whitespace() {
                    if !cur.as_str().is_empty() {
                        let ghost toks0 = tokens.deep_view();
                        tokens.push(cur);
                        proof {
                            assert(tokens.deep_view() =~= toks0.push(cur@));
                        }
                        cur = String::new();
                    }
                } else {
                    cur.push(c);
                }
            },
        }
        i = i + 1;
    }
    if quote.is_some() {
        return Err(TokenizeError::UnclosedQuote);
    }
    if !cur.as_str().is_empty() {
        let ghost toks0 = tokens.deep_view();
        tokens.push(cur);
        proof {
            assert(tokens.deep_view() =~= toks0.push(cur@));
        }
    }
    Ok(tokens)
}

} // verus!
