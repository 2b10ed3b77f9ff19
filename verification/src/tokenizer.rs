//! The quote-aware tokenizer of interactive mode: one left-to-right scan
//! splitting a raw line into arguments on unquoted spaces, with `'` and `"`
//! both toggling an "inside quotes" state.

use vstd::prelude::*;

verus! {

/// One left-to-right scan over the remaining input `s`, carrying the
/// "inside quotes" state, the pending token buffer and the tokens already
/// emitted. A quote character toggles the state; closing a quote or meeting
/// an unquoted space flushes a non-empty buffer; every other character is
/// buffered verbatim. Trailing buffered text is flushed at end of input.
pub open spec fn scan_tokens(
    s: Seq<char>,
    in_quotes: bool,
    buf: Seq<char>,
    out: Seq<Seq<char>>,
) -> Seq<Seq<char>>
    decreases s.len(),
{
    if s.len() == 0 {
        if buf.len() > 0 {
            out.push(buf)
        } else {
            out
        }
    } else {
        let c = s[0];
        let rest = s.drop_first();
        if c == '\'' || c == '"' {
            if in_quotes {
                scan_tokens(
                    rest,
                    false,
                    Seq::empty(),
                    if buf.len() > 0 {
                        out.push(buf)
                    } else {
                        out
                    },
                )
            } else {
                scan_tokens(rest, true, buf, out)
            }
        } else if c == ' ' && !in_quotes {
            scan_tokens(
                rest,
                in_quotes,
                Seq::empty(),
                if buf.len() > 0 {
                    out.push(buf)
                } else {
                    out
                },
            )
        } else {
            scan_tokens(rest, in_quotes, buf.push(c), out)
        }
    }
}

/// The token sequence of a whole input line: the scan started outside quotes
/// with an empty buffer and no tokens emitted.
pub open spec fn tokens_of(s: Seq<char>) -> Seq<Seq<char>> {
    scan_tokens(s, false, Seq::empty(), Seq::empty())
}

/// The character sequences of a vector of owned tokens.
pub open spec fn token_views(ts: Seq<String>) -> Seq<Seq<char>> {
    ts.map_values(|t: String| t@)
}

/// Relies on std's `String::push`: it appends exactly the given character.
pub assume_specification[ String::push ](s: &mut String, c: char)
    ensures
        final(s)@ == old(s)@.push(c),
;

/// Split one raw input line into argument tokens, honouring quoted
/// substrings. Never fails: unbalanced quoting is accepted silently, and
/// purely-whitespace or purely-quote input yields no tokens.
pub fn parse_string(s: String) -> (r: Vec<String>)
    ensures
        token_views(r@) == tokens_of(s@),
{
    let n = s.as_str().unicode_len();
    let mut i: usize = 0;
    let mut in_quotes = false;
    let mut buf = String::new();
    let mut out: Vec<String> = Vec::new();
    proof {
        assert(s@.skip(0) =~= s@);
        assert(buf@ =~= Seq::<char>::empty());
        assert(token_views(out@) =~= Seq::<Seq<char>>::empty());
    }
    while i < n
        invariant
            n == s@.len(),
            i <= n,
            scan_tokens(s@.skip(i as int), in_quotes, buf@, token_views(out@)) == tokens_of(s@),
        decreases n - i,
    {
        let c = s.as_str().get_char(i);
        proof {
            assert(s@.skip(i as int)[0] == s@[i as int]);
            assert(s@.skip(i as int).drop_first() =~= s@.skip(i as int + 1));
        }
        if c == '\'' || c == '"' {
            if in_quotes {
                in_quotes = false;
                if !buf.as_str().is_empty() {
                    let ghost prev_out = out@;
                    let ghost prev_buf = buf@;
                    out.push(buf);
                    buf = String::new();
                    proof {
                        assert(token_views(out@) =~= token_views(prev_out).push(prev_buf));
                    }
                }
                proof {
                    assert(buf@ =~= Seq::<char>::empty());
                }
            } else {
                in_quotes = true;
            }
        } else if c == ' ' && !in_quotes {
            if !buf.as_str().is_empty() {
                let ghost prev_out = out@;
                let ghost prev_buf = buf@;
                out.push(buf);
                buf = String::new();
                proof {
                    assert(token_views(out@) =~= token_views(prev_out).push(prev_buf));
                }
            }
            proof {
                assert(buf@ =~= Seq::<char>::empty());
            }
        } else {
            buf.push(c);
        }
        i = i + 1;
    }
    proof {
        assert(s@.skip(n as int) =~= Seq::<char>::empty());
    }
    if !buf.as_str().is_empty() {
        let ghost prev_out = out@;
        let ghost prev_buf = buf@;
        out.push(buf);
        proof {
            assert(token_views(out@) =~= token_views(prev_out).push(prev_buf));
        }
    }
    out
}

} // verus!
