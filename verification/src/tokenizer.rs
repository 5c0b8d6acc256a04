//! Pass 1a: turning raw source text into token lines.
//!
//! Each source line is cut at the first `;` or `/` (the comment rule is
//! deliberately simple: a single `/` already starts a comment), the rest is
//! split on whitespace, and lines that yield no tokens are discarded.  The
//! surviving lines keep their 1-based source line numbers for diagnostics.

use vstd::prelude::*;

verus! {

/// One surviving source line: its 1-based line number and its tokens,
/// in order.
pub struct TokenLine {
    pub number: usize,
    pub tokens: Vec<String>,
}

/// Ghost mirror of [`TokenLine`].
pub struct TokenLineModel {
    pub number: nat,
    pub tokens: Seq<Seq<char>>,
}

impl DeepView for TokenLine {
    type V = TokenLineModel;

    open spec fn deep_view(&self) -> TokenLineModel {
        TokenLineModel { number: self.number as nat, tokens: self.tokens.deep_view() }
    }
}

/// The whitespace characters a token line is split on.
pub open spec fn spec_is_ws(c: char) -> bool {
    c == ' ' || c == '\t' || c == '\n' || c == '\r' || c == '\x0c'
}

/// Whitespace test matching [`spec_is_ws`].
fn is_ws(c: char) -> (r: bool)
    ensures
        r == spec_is_ws(c),
{
    c == ' ' || c == '\t' || c == '\n' || c == '\r' || c == '\x0c'
}

/// Splitting the source on `'\n'`, with `cur` the partial line read so far.
/// An empty source yields one empty line, and a trailing newline yields a
/// final empty line, exactly as iterating `split('\n')` would.
pub open spec fn split_lines_go(s: Seq<char>, cur: Seq<char>) -> Seq<Seq<char>>
    decreases s.len(),
{
    if s.len() == 0 {
        seq![cur]
    } else if s[0] == '\n' {
        seq![cur] + split_lines_go(s.skip(1), Seq::empty())
    } else {
        split_lines_go(s.skip(1), cur.push(s[0]))
    }
}

/// The source text as a sequence of lines.
pub open spec fn spec_split_lines(s: Seq<char>) -> Seq<Seq<char>> {
    split_lines_go(s, Seq::empty())
}

/// The prefix of `line` before its first `;` or `/`, the comment rule of
/// the tokenizer.
pub open spec fn spec_strip_comment(s: Seq<char>) -> Seq<char>
    decreases s.len(),
{
    if s.len() == 0 {
        s
    } else if s[0] == ';' || s[0] == '/' {
        Seq::empty()
    } else {
        seq![s[0]] + spec_strip_comment(s.skip(1))
    }
}

/// Whitespace splitting, with `cur` the partial token read so far: the
/// maximal non-whitespace runs of `s`, in order.
pub open spec fn split_ws_go(s: Seq<char>, cur: Seq<char>) -> Seq<Seq<char>>
    decreases s.len(),
{
    if s.len() == 0 {
        if cur.len() == 0 {
            seq![]
        } else {
            seq![cur]
        }
    } else if spec_is_ws(s[0]) {
        if cur.len() == 0 {
            split_ws_go(s.skip(1), cur)
        } else {
            seq![cur] + split_ws_go(s.skip(1), Seq::empty())
        }
    } else {
        split_ws_go(s.skip(1), cur.push(s[0]))
    }
}

/// The tokens of one whitespace-separated string.
pub open spec fn spec_split_ws(s: Seq<char>) -> Seq<Seq<char>> {
    split_ws_go(s, Seq::empty())
}

/// The tokens of one raw source line: comment stripped, then whitespace
/// split.
pub open spec fn spec_line_tokens(line: Seq<char>) -> Seq<Seq<char>> {
    spec_split_ws(spec_strip_comment(line))
}

/// The token lines of the line sequence `lines`, numbering them from `n`
/// and discarding lines without tokens.
pub open spec fn spec_token_lines_from(lines: Seq<Seq<char>>, n: nat) -> Seq<TokenLineModel>
    decreases lines.len(),
{
    if lines.len() == 0 {
        seq![]
    } else {
        let t = spec_line_tokens(lines[0]);
        let rest = spec_token_lines_from(lines.skip(1), n + 1);
        if t.len() == 0 {
            rest
        } else {
            seq![TokenLineModel { number: n, tokens: t }] + rest
        }
    }
}

/// What the tokenizer produces for the source text `src`: the non-blank
/// token lines, in program order, numbered from 1.
pub open spec fn spec_token_lines(src: Seq<char>) -> Seq<TokenLineModel> {
    spec_token_lines_from(spec_split_lines(src), 1)
}

/// Every surviving token line holds at least one token.
pub proof fn lemma_token_lines_nonempty(lines: Seq<Seq<char>>, n: nat)
    ensures
        forall|i: int|
            0 <= i < spec_token_lines_from(lines, n).len() ==> #[trigger] spec_token_lines_from(
                lines,
                n,
            )[i].tokens.len() >= 1,
    decreases lines.len(),
{
    if lines.len() != 0 {
        lemma_token_lines_nonempty(lines.skip(1), n + 1);
        let t = spec_line_tokens(lines[0]);
        let rest = spec_token_lines_from(lines.skip(1), n + 1);
        let whole = spec_token_lines_from(lines, n);
        if t.len() == 0 {
            assert(whole == rest);
        } else {
            assert forall|i: int| 0 <= i < whole.len() implies #[trigger] whole[i].tokens.len()
                >= 1 by {
                if i > 0 {
                    assert(whole[i] == rest[i - 1]);
                }
            }
        }
    }
}

/// The source split into raw lines on `'\n'`.
pub fn split_lines(src: &str) -> (r: Vec<String>)
    ensures
        r.deep_view() == spec_split_lines(src@),
{
    let n = src.unicode_len();
    let mut r: Vec<String> = Vec::new();
    let mut start: usize = 0;
    let mut i: usize = 0;
    proof {
        assert(src@.skip(0) =~= src@);
        assert(src@.subrange(0, 0) =~= Seq::<char>::empty());
        assert(r.deep_view() =~= Seq::<Seq<char>>::empty());
        assert(Seq::<Seq<char>>::empty() + split_lines_go(src@, Seq::empty()) =~= split_lines_go(
            src@,
            Seq::empty(),
        ));
    }
    while i < n
        invariant
            n == src@.len(),
            start <= i <= n,
            spec_split_lines(src@) == r.deep_view() + split_lines_go(
                src@.skip(i as int),
                src@.subrange(start as int, i as int),
            ),
        decreases n - i,
    {
        let ghost s = src@;
        let ghost cur = s.subrange(start as int, i as int);
        let ghost prev = r.deep_view();
        proof {
            assert(s.skip(i as int)[0] == s[i as int]);
            assert(s.skip(i as int).skip(1) =~= s.skip(i as int + 1));
        }
        let c = src.get_char(i);
        if c == '\n' {
            let tok = src.substring_char(start, i).to_owned();
            r.push(tok);
            proof {
                assert(r.deep_view() =~= prev + seq![cur]);
                assert(s.subrange(i as int + 1, i as int + 1) =~= Seq::<char>::empty());
                assert((prev + seq![cur]) + split_lines_go(s.skip(i as int + 1), Seq::empty())
                    =~= prev + (seq![cur] + split_lines_go(s.skip(i as int + 1), Seq::empty())));
            }
            start = i + 1;
        } else {
            proof {
                assert(cur.push(s[i as int]) =~= s.subrange(start as int, i as int + 1));
            }
        }
        i = i + 1;
    }
    let ghost s = src@;
    let ghost cur = s.subrange(start as int, n as int);
    let ghost prev = r.deep_view();
    let tok = src.substring_char(start, n).to_owned();
    r.push(tok);
    proof {
        assert(s.skip(n as int).len() == 0);
        assert(r.deep_view() =~= prev + seq![cur]);
    }
    r
}

/// The index at which the comment (if any) of `line` starts, so that the
/// retained text is exactly `line[..k]`.
fn comment_pos(line: &str) -> (k: usize)
    ensures
        k <= line@.len(),
        spec_strip_comment(line@) == line@.subrange(0, k as int),
{
    let n = line.unicode_len();
    let mut i: usize = 0;
    proof {
        assert(line@.skip(0) =~= line@);
        assert(line@.subrange(0, 0) =~= Seq::<char>::empty());
        assert(Seq::<char>::empty() + spec_strip_comment(line@) =~= spec_strip_comment(line@));
    }
    while i < n
        invariant
            n == line@.len(),
            i <= n,
            spec_strip_comment(line@) == line@.subrange(0, i as int) + spec_strip_comment(
                line@.skip(i as int),
            ),
        decreases n - i,
    {
        let ghost s = line@;
        proof {
            assert(s.skip(i as int)[0] == s[i as int]);
            assert(s.skip(i as int).skip(1) =~= s.skip(i as int + 1));
        }
        let c = line.get_char(i);
        if c == ';' || c == '/' {
            proof {
                assert(s.subrange(0, i as int) + Seq::<char>::empty() =~= s.subrange(0, i as int));
            }
            return i;
        }
        proof {
            assert(s.subrange(0, i as int) + (seq![s[i as int]] + spec_strip_comment(
                s.skip(i as int + 1),
            )) =~= s.subrange(0, i as int + 1) + spec_strip_comment(s.skip(i as int + 1)));
        }
        i = i + 1;
    }
    proof {
        let s = line@;
        assert(s.skip(n as int).len() == 0);
        assert(s.subrange(0, n as int) + spec_strip_comment(s.skip(n as int)) =~= s.subrange(
            0,
            n as int,
        ));
    }
    n
}

/// The whitespace-separated tokens of `s`, in order.
fn split_ws_exec(s: &str) -> (r: Vec<String>)
    ensures
        r.deep_view() == spec_split_ws(s@),
{
    let n = s.unicode_len();
    let mut r: Vec<String> = Vec::new();
    let mut start: usize = 0;
    let mut i: usize = 0;
    proof {
        assert(s@.skip(0) =~= s@);
        assert(s@.subrange(0, 0) =~= Seq::<char>::empty());
        assert(r.deep_view() =~= Seq::<Seq<char>>::empty());
        assert(Seq::<Seq<char>>::empty() + split_ws_go(s@, Seq::empty()) =~= split_ws_go(
            s@,
            Seq::empty(),
        ));
    }
    while i < n
        invariant
            n == s@.len(),
            start <= i <= n,
            spec_split_ws(s@) == r.deep_view() + split_ws_go(
                s@.skip(i as int),
                s@.subrange(start as int, i as int),
            ),
        decreases n - i,
    {
        let ghost sv = s@;
        let ghost cur = sv.subrange(start as int, i as int);
        let ghost prev = r.deep_view();
        proof {
            assert(sv.skip(i as int)[0] == sv[i as int]);
            assert(sv.skip(i as int).skip(1) =~= sv.skip(i as int + 1));
        }
        let c = s.get_char(i);
        if is_ws(c) {
            if start < i {
                let tok = s.substring_char(start, i).to_owned();
                r.push(tok);
                proof {
                    assert(r.deep_view() =~= prev + seq![cur]);
                    assert((prev + seq![cur]) + split_ws_go(sv.skip(i as int + 1), Seq::empty())
                        =~= prev + (seq![cur] + split_ws_go(sv.skip(i as int + 1), Seq::empty())));
                }
            } else {
                proof {
                    assert(cur.len() == 0);
                }
            }
            start = i + 1;
            proof {
                assert(sv.subrange(i as int + 1, i as int + 1) =~= Seq::<char>::empty());
                assert(cur.len() == 0 ==> cur =~= Seq::<char>::empty());
            }
        } else {
            proof {
                assert(cur.push(sv[i as int]) =~= sv.subrange(start as int, i as int + 1));
            }
        }
        i = i + 1;
    }
    let ghost sv = s@;
    let ghost cur = sv.subrange(start as int, n as int);
    proof {
        assert(sv.skip(n as int).len() == 0);
    }
    if start < n {
        let ghost prev = r.deep_view();
        let tok = s.substring_char(start, n).to_owned();
        r.push(tok);
        proof {
            assert(r.deep_view() =~= prev + seq![cur]);
        }
    } else {
        proof {
            assert(cur.len() == 0);
            assert(r.deep_view() + split_ws_go(sv.skip(n as int), cur) =~= r.deep_view());
        }
    }
    r
}

/// The tokens of one raw source line.
pub fn line_tokens(line: &str) -> (r: Vec<String>)
    ensures
        r.deep_view() == spec_line_tokens(line@),
{
    let k = comment_pos(line);
    let body = line.substring_char(0, k);
    split_ws_exec(body)
}

/// Tokenizes the whole source: comments stripped, whitespace split, blank
/// lines discarded, program order and 1-based line numbers preserved.
pub fn tokenize(src: &str) -> (r: Vec<TokenLine>)
    ensures
        r.deep_view() == spec_token_lines(src@),
{
    let lines = split_lines(src);
    let mut r: Vec<TokenLine> = Vec::new();
    let mut i: usize = 0;
    proof {
        assert(lines.deep_view().skip(0) =~= lines.deep_view());
        assert(r.deep_view() =~= Seq::<TokenLineModel>::empty());
        assert(Seq::<TokenLineModel>::empty() + spec_token_lines_from(lines.deep_view(), 1)
            =~= spec_token_lines_from(lines.deep_view(), 1));
    }
    while i < lines.len()
        invariant
            lines.deep_view() == spec_split_lines(src@),
            lines.deep_view().len() == lines@.len(),
            i <= lines@.len(),
            spec_token_lines(src@) == r.deep_view() + spec_token_lines_from(
                lines.deep_view().skip(i as int),
                i as nat + 1,
            ),
        decreases lines@.len() - i,
    {
        let ghost lv = lines.deep_view();
        let ghost prev = r.deep_view();
        proof {
            assert(lv.skip(i as int)[0] == lv[i as int]);
            assert(lv.skip(i as int).skip(1) =~= lv.skip(i as int + 1));
            assert(lv[i as int] == lines@[i as int].deep_view());
        }
        let toks = line_tokens(lines[i].as_str());
        if toks.len() > 0 {
            let ghost tv = toks.deep_view();
            let tl = TokenLine { number: i + 1, tokens: toks };
            r.push(tl);
            proof {
                assert(tv.len() > 0);
                assert(r.deep_view() =~= prev + seq![tl.deep_view()]);
                assert((prev + seq![tl.deep_view()]) + spec_token_lines_from(
                    lv.skip(i as int + 1),
                    i as nat + 2,
                ) =~= prev + (seq![tl.deep_view()] + spec_token_lines_from(
                    lv.skip(i as int + 1),
                    i as nat + 2,
                )));
            }
        } else {
            proof {
                assert(toks.deep_view().len() == 0);
            }
        }
        i = i + 1;
    }
    r
}

} // verus!
