use vstd::prelude::*;
use vstd::string::StringSliceAdditionalSpecFns;
use crate::token::{TypeToken, is_token_byte};
use crate::expr::{TurbofishExpression, render_of, render_args_of, chars_of};
use vstd::utf8::{encode_utf8, is_ascii_chars, is_ascii_chars_encode_utf8};

verus! {

broadcast use vstd::std_specs::vec::axiom_vec_index_decreases, vstd::std_specs::vec::axiom_vec_decreases_to_view, vstd::seq::axiom_seq_index_decreases;

/// Position just past the run of token bytes that starts at `i`.
pub open spec fn token_end(s: Seq<u8>, i: int) -> int
    decreases s.len() - i,
{
    if i < 0 || i >= s.len() {
        i
    } else if is_token_byte(s[i]) {
        token_end(s, i + 1)
    } else {
        i
    }
}

/// End position of the single expression that starts at `i`, if the bytes
/// there begin a grammatical expression: a nonempty token, optionally
/// followed by `::<`, one or more `, `-separated expressions, and `>`.
pub open spec fn expr_end(s: Seq<u8>, i: int) -> Option<int>
    decreases s.len() - i, 0int,
{
    if i < 0 || i > s.len() {
        None
    } else {
        let j = token_end(s, i);
        if j <= i || j > s.len() {
            None
        } else if j + 3 <= s.len() && s[j] == 58 && s[j + 1] == 58 && s[j + 2] == 60 {
            args_end(s, j + 3)
        } else {
            Some(j)
        }
    }
}

/// End position just past the closing `>` of an argument list whose first
/// argument starts at `k`, if the bytes there are grammatical.
pub open spec fn args_end(s: Seq<u8>, k: int) -> Option<int>
    decreases s.len() - k, 1int,
{
    if k < 0 || k > s.len() {
        None
    } else {
        match expr_end(s, k) {
            None => None,
            Some(m) => {
                if m <= k || m > s.len() {
                    None
                } else if m + 2 <= s.len() && s[m] == 44 && s[m + 1] == 32 {
                    args_end(s, m + 2)
                } else if m < s.len() && s[m] == 62 {
                    Some(m + 1)
                } else {
                    None
                }
            },
        }
    }
}

/// The strings of the turbofish grammar: exactly one expression spanning
/// the whole string.
pub open spec fn in_grammar(s: Seq<u8>) -> bool {
    expr_end(s, 0) == Some(s.len() as int)
}

/// Whether the byte may appear in a token name.
fn byte_is_token(b: u8) -> (r: bool)
    ensures
        r == is_token_byte(b),
{
    (97 <= b && b <= 122) || (65 <= b && b <= 90) || (48 <= b && b <= 57) || b == 95
}

/// Failure to parse a path segment as a turbofish expression.
#[derive(Debug, PartialEq, Eq, Structural)]
pub struct ParseError;

/// Parses one expression starting at byte `i`, returning it together with
/// the position just past it. Succeeds exactly when the grammar matches
/// one expression there, and the returned expression renders back to
/// exactly the bytes consumed.
pub fn parse_expr_at(s: &[u8], i: usize) -> (r: Result<(TurbofishExpression, usize), ParseError>)
    requires
        i <= s@.len(),
    ensures
        r matches Ok((e, j)) ==> {
            &&& i < j <= s@.len()
            &&& e.wf()
            &&& render_of(e) == s@.subrange(i as int, j as int)
            &&& expr_end(s@, i as int) == Some(j as int)
        },
        r is Err ==> expr_end(s@, i as int) is None,
    decreases s@.len() - i, 0int,
{
    let n = s.len();
    let mut j = i;
    while j < n && byte_is_token(s[j])
        invariant
            i <= j <= n,
            n == s@.len(),
            forall|t: int| i <= t < j ==> is_token_byte(#[trigger] s@[t]),
            token_end(s@, i as int) == token_end(s@, j as int),
        decreases n - j,
    {
        j += 1;
    }
    assert(token_end(s@, j as int) == j);
    if j == i {
        return Err(ParseError);
    }
    let mut name: Vec<u8> = Vec::new();
    let mut t = i;
    while t < j
        invariant
            i <= t <= j <= n,
            n == s@.len(),
            name@ == s@.subrange(i as int, t as int),
        decreases j - t,
    {
        name.push(s[t]);
        t += 1;
        assert(name@ =~= s@.subrange(i as int, t as int));
    }
    let root = TypeToken { name };
    assert(root.wf());
    if n - j >= 3 && s[j] == 58 && s[j + 1] == 58 && s[j + 2] == 60 {
        let mut args: Vec<TurbofishExpression> = Vec::new();
        let mut k = j + 3;
        loop
            invariant
                i < j,
                j + 3 <= k <= n,
                n == s@.len(),
                root.wf(),
                root.name@ == s@.subrange(i as int, j as int),
                token_end(s@, i as int) == j,
                s@[j as int] == 58 && s@[j as int + 1] == 58 && s@[j as int + 2] == 60,
                forall|q: int| 0 <= q < args.len() ==> (#[trigger] args[q]).wf(),
                args_end(s@, j as int + 3) == args_end(s@, k as int),
                args@.len() == 0 ==> k == j + 3,
                args@.len() >= 1 ==> s@.subrange(j as int + 3, k as int) == render_args_of(
                    args@,
                    0,
                ) + seq![44u8, 32u8],
            decreases n - k,
        {
            match parse_expr_at(s, k) {
                Err(_) => {
                    assert(args_end(s@, k as int) is None);
                    assert(expr_end(s@, i as int) is None);
                    return Err(ParseError);
                },
                Ok((arg, m)) => {
                    proof {
                        lemma_render_args_snoc(args@, arg);
                        assert(s@.subrange(j as int + 3, m as int) =~= s@.subrange(
                            j as int + 3,
                            k as int,
                        ) + s@.subrange(k as int, m as int));
                    }
                    args.push(arg);
                    assert(render_args_of(args@, 0) == s@.subrange(j as int + 3, m as int));
                    if n - m >= 2 && s[m] == 44 && s[m + 1] == 32 {
                        proof {
                            assert(s@.subrange(j as int + 3, m as int + 2) =~= s@.subrange(
                                j as int + 3,
                                m as int,
                            ) + seq![44u8, 32u8]);
                        }
                        k = m + 2;
                    } else if m < n && s[m] == 62 {
                        let e = TurbofishExpression { root, args };
                        proof {
                            assert(render_of(e) =~= s@.subrange(i as int, m as int + 1));
                            assert(expr_end(s@, i as int) == Some(m as int + 1));
                        }
                        return Ok((e, m + 1));
                    } else {
                        assert(args_end(s@, k as int) is None);
                        assert(expr_end(s@, i as int) is None);
                        return Err(ParseError);
                    }
                },
            }
        }
    } else {
        let e = TurbofishExpression { root, args: Vec::new() };
        assert(render_of(e) =~= s@.subrange(i as int, j as int));
        Ok((e, j))
    }
}

/// Appending one more argument to a rendered argument list appends a
/// separator (when the list was nonempty) and the argument's rendering.
proof fn lemma_render_args_snoc(args: Seq<TurbofishExpression>, x: TurbofishExpression)
    ensures
        args.len() == 0 ==> render_args_of(args.push(x), 0) == render_of(x),
        args.len() >= 1 ==> render_args_of(args.push(x), 0) == render_args_of(args, 0) + seq![
            44u8,
            32u8,
        ] + render_of(x),
{
    lemma_render_args_snoc_at(args, x, 0);
}

proof fn lemma_render_args_snoc_at(args: Seq<TurbofishExpression>, x: TurbofishExpression, from: int)
    requires
        0 <= from <= args.len(),
    ensures
        from == args.len() ==> render_args_of(args.push(x), from) == render_of(x),
        from < args.len() ==> render_args_of(args.push(x), from) == render_args_of(args, from)
            + seq![44u8, 32u8] + render_of(x),
    decreases args.len() - from,
{
    let p = args.push(x);
    if from == args.len() {
        assert(p[from] == x);
    } else {
        assert(p[from] == args[from]);
        lemma_render_args_snoc_at(args, x, from + 1);
        if from == args.len() - 1 {
            assert(render_args_of(p, from) == render_of(p[from]) + seq![44u8, 32u8]
                + render_args_of(p, from + 1));
        } else {
            assert(render_args_of(p, from) =~= render_args_of(args, from) + seq![44u8, 32u8]
                + render_of(x));
        }
    }
}

/// Parses a whole string as a turbofish expression. Succeeds exactly on
/// the strings of the grammar, and the returned expression renders back
/// to exactly the input text.
pub fn parse(text: &str) -> (r: Result<TurbofishExpression, ParseError>)
    ensures
        r is Ok <==> in_grammar(text.spec_bytes()),
        r matches Ok(e) ==> e.wf() && render_of(e) == text.spec_bytes(),
{
    let s = text.as_bytes();
    match parse_expr_at(s, 0) {
        Ok((e, j)) => {
            if j == s.len() {
                assert(s@.subrange(0, s@.len() as int) =~= s@);
                Ok(e)
            } else {
                Err(ParseError)
            }
        },
        Err(e) => Err(e),
    }
}

/// A well-formed expression renders to at least one byte.
pub proof fn lemma_render_nonempty(e: TurbofishExpression)
    requires
        e.wf(),
    ensures
        render_of(e).len() >= 1,
{
}

/// A run of token bytes ending at a non-token byte (or at the end of the
/// string) is scanned in full.
proof fn lemma_token_run(s: Seq<u8>, i: int, j: int)
    requires
        0 <= i <= j <= s.len(),
        forall|t: int| i <= t < j ==> is_token_byte(#[trigger] s[t]),
        j == s.len() || !is_token_byte(s[j]),
    ensures
        token_end(s, i) == j,
    decreases j - i,
{
    if i < j {
        lemma_token_run(s, i + 1, j);
    }
}

/// Bytes that are ASCII and free of percent signs, so that a rendered
/// expression survives percent-encoding and decoding unchanged.
pub open spec fn ascii_no_percent(v: Seq<u8>) -> bool {
    forall|t: int| 0 <= t < v.len() ==> (#[trigger] v[t]) < 128 && v[t] != 37
}

/// Every byte of a rendered well-formed expression is ASCII and is never
/// a percent sign.
pub proof fn lemma_render_ascii(e: TurbofishExpression)
    requires
        e.wf(),
    ensures
        ascii_no_percent(render_of(e)),
    decreases e, 1int, 0int,
{
    if e.args.len() > 0 {
        lemma_render_args_ascii(e, 0);
    }
}

proof fn lemma_render_args_ascii(e: TurbofishExpression, idx: int)
    requires
        e.wf(),
        1 <= e.args.len(),
        0 <= idx < e.args.len(),
    ensures
        ascii_no_percent(render_args_of(e.args@, idx)),
    decreases e, 0int, e.args.len() - idx,
{
    assert(e.args[idx].wf());
    lemma_render_ascii(e.args@[idx]);
    if idx < e.args.len() - 1 {
        lemma_render_args_ascii(e, idx + 1);
    }
}

/// The rendered form of a well-formed expression, placed at position `i`
/// and followed by a separator, a closing angle bracket, or the end of
/// the string, parses as one expression spanning exactly its own bytes.
proof fn lemma_expr_end_of_render(e: TurbofishExpression, s: Seq<u8>, i: int)
    requires
        e.wf(),
        0 <= i,
        i + render_of(e).len() <= s.len(),
        s.subrange(i, i + render_of(e).len() as int) == render_of(e),
        i + render_of(e).len() == s.len() || s[i + render_of(e).len()] == 44 || s[i
            + render_of(e).len()] == 62,
    ensures
        expr_end(s, i) == Some(i + render_of(e).len() as int),
    decreases e, 1int, 0int,
{
    let r = render_of(e);
    let ll = r.len() as int;
    assert forall|t: int| 0 <= t < ll implies s[i + t] == r[t] by {
        assert(s.subrange(i, i + ll)[t] == s[i + t]);
    }
    let name = e.root.name@;
    let nl = name.len() as int;
    if e.args.len() == 0 {
        assert forall|t: int| i <= t < i + nl implies is_token_byte(#[trigger] s[t]) by {
            assert(s[t] == r[t - i]);
            assert(is_token_byte(name[t - i]));
        }
        lemma_token_run(s, i, i + nl);
        assert(expr_end(s, i) == Some(i + ll));
    } else {
        let rao = render_args_of(e.args@, 0);
        let al = rao.len() as int;
        assert(r[nl] == 58 && r[nl + 1] == 58 && r[nl + 2] == 60);
        assert(r[nl + 3 + al] == 62);
        assert forall|t: int| 0 <= t < nl implies s[i + t] == name[t] by {
            assert(r[t] == name[t]);
        }
        assert forall|t: int| i <= t < i + nl implies is_token_byte(#[trigger] s[t]) by {
            assert(s[t] == name[t - i]);
            assert(is_token_byte(name[t - i]));
        }
        lemma_token_run(s, i, i + nl);
        let k = i + nl + 3;
        assert forall|t: int| 0 <= t < al implies s[k + t] == rao[t] by {
            assert(r[nl + 3 + t] == rao[t]);
        }
        assert(s.subrange(k, k + al) =~= rao);
        assert(s[k + al] == 62);
        lemma_args_end_of_render(e, 0, s, k);
        assert(expr_end(s, i) == Some(i + ll));
    }
}

/// The rendered argument list of `e` from `idx` on, placed at `k` and
/// followed by a closing angle bracket, parses as an argument list ending
/// just past that bracket.
proof fn lemma_args_end_of_render(e: TurbofishExpression, idx: int, s: Seq<u8>, k: int)
    requires
        e.wf(),
        1 <= e.args.len(),
        0 <= idx < e.args.len(),
        0 <= k,
        k + render_args_of(e.args@, idx).len() + 1 <= s.len(),
        s.subrange(k, k + render_args_of(e.args@, idx).len() as int) == render_args_of(
            e.args@,
            idx,
        ),
        s[k + render_args_of(e.args@, idx).len()] == 62,
    ensures
        args_end(s, k) == Some(k + render_args_of(e.args@, idx).len() + 1),
    decreases e, 0int, e.args.len() - idx,
{
    let a = e.args@[idx];
    assert(e.args[idx].wf());
    let ra = render_of(a);
    let rl = ra.len() as int;
    let rao = render_args_of(e.args@, idx);
    let al = rao.len() as int;
    lemma_render_nonempty(a);
    assert forall|t: int| 0 <= t < al implies s[k + t] == rao[t] by {
        assert(s.subrange(k, k + al)[t] == s[k + t]);
    }
    if idx == e.args.len() - 1 {
        lemma_expr_end_of_render(a, s, k);
        assert(args_end(s, k) == Some(k + al + 1));
    } else {
        let rest = render_args_of(e.args@, idx + 1);
        assert(rao[rl] == 44 && rao[rl + 1] == 32);
        assert forall|t: int| 0 <= t < rl implies s[k + t] == ra[t] by {
            assert(rao[t] == ra[t]);
        }
        assert(s.subrange(k, k + rl) =~= ra);
        lemma_expr_end_of_render(a, s, k);
        let k2 = k + rl + 2;
        assert forall|t: int| 0 <= t < rest.len() implies s[k2 + t] == rest[t] by {
            assert(rao[rl + 2 + t] == rest[t]);
        }
        assert(s.subrange(k2, k2 + rest.len() as int) =~= rest);
        assert(s[k2 + rest.len()] == 62);
        lemma_args_end_of_render(e, idx + 1, s, k2);
        assert(args_end(s, k) == Some(k + al + 1));
    }
}

/// Completeness of rejection: a string outside the grammar is not the
/// rendering of any well-formed expression, so `parse` fails only on
/// strings no expression could have produced.
pub proof fn lemma_reject_complete(s: Seq<u8>, e: TurbofishExpression)
    requires
        e.wf(),
        !in_grammar(s),
    ensures
        render_of(e) != s,
{
    if render_of(e) == s {
        lemma_round_trip(e);
        assert(false);
    }
}

/// Round-trip law: the rendered text of any well-formed expression is in
/// the grammar, so `parse` accepts it and, by `parse`'s contract, returns
/// an expression that renders back to exactly that text. The second
/// clause says the rendered text is plain ASCII, so the bytes a parser
/// sees under any UTF-8 view are the rendered bytes themselves.
pub proof fn lemma_round_trip(e: TurbofishExpression)
    requires
        e.wf(),
    ensures
        in_grammar(render_of(e)),
        encode_utf8(chars_of(render_of(e))) == render_of(e),
{
    let r = render_of(e);
    let ll = r.len() as int;
    assert(r.subrange(0, ll) =~= r);
    lemma_expr_end_of_render(e, r, 0);
    lemma_render_ascii(e);
    let cs = chars_of(r);
    assert forall|t: int| 0 <= t < cs.len() implies '\0' <= #[trigger] cs[t] <= '\u{7f}' by {
        assert(r[t] < 128);
    }
    assert(is_ascii_chars(cs));
    is_ascii_chars_encode_utf8(cs);
    assert(encode_utf8(cs) =~= r);
}

} // verus!
