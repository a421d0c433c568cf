use vstd::prelude::*;
use vstd::string::StringSliceAdditionalSpecFns;
use crate::expr::{TurbofishExpression, render_of, chars_of, render_bytes, render, push_char};
use crate::grammar::{parse_expr_at, in_grammar, ascii_no_percent, lemma_render_ascii, lemma_round_trip};

verus! {

/// A byte that the fragment percent-encode set escapes: every non-ASCII
/// byte, the C0 controls and delete, space, double quote, the angle
/// brackets, and backtick.
pub open spec fn in_fragment_set(b: u8) -> bool {
    b >= 128 || b <= 31 || b == 127 || b == 32 || b == 34 || b == 60 || b == 62 || b == 96
}

/// The uppercase hexadecimal digit for a value below sixteen.
pub open spec fn hex_upper(d: int) -> u8 {
    if d < 10 {
        (48 + d) as u8
    } else {
        (55 + d) as u8
    }
}

/// The three-byte percent escape of a byte.
pub open spec fn escape_of(b: u8) -> Seq<u8> {
    seq![37u8, hex_upper(b as int / 16), hex_upper(b as int % 16)]
}

/// How one byte is percent-encoded under the fragment set.
pub open spec fn encoded_byte(b: u8) -> Seq<u8> {
    if in_fragment_set(b) {
        escape_of(b)
    } else {
        seq![b]
    }
}

/// The fragment percent-encoding of a byte string.
pub open spec fn fragment_encoding_of(v: Seq<u8>) -> Seq<u8>
    decreases v.len(),
{
    if v.len() == 0 {
        Seq::empty()
    } else {
        encoded_byte(v[0]) + fragment_encoding_of(v.drop_first())
    }
}

/// A byte that is a hexadecimal digit, in either case.
pub open spec fn is_hex_digit(b: u8) -> bool {
    (48 <= b && b <= 57) || (65 <= b && b <= 70) || (97 <= b && b <= 102)
}

/// The value of a hexadecimal digit byte.
pub open spec fn hex_val(b: u8) -> int {
    if b <= 57 {
        b - 48
    } else if b <= 70 {
        b - 55
    } else {
        b - 87
    }
}

/// The percent-decoding of a byte string: each `%` followed by two
/// hexadecimal digits becomes the byte they spell, and every other byte
/// passes through unchanged.
pub open spec fn percent_decoding_of(v: Seq<u8>) -> Seq<u8>
    decreases v.len(),
{
    if v.len() == 0 {
        Seq::empty()
    } else if v[0] == 37 && v.len() >= 3 && is_hex_digit(v[1]) && is_hex_digit(v[2]) {
        seq![(hex_val(v[1]) * 16 + hex_val(v[2])) as u8] + percent_decoding_of(
            v.subrange(3, v.len() as int),
        )
    } else {
        seq![v[0]] + percent_decoding_of(v.drop_first())
    }
}

/// Whether the byte is escaped by the fragment set.
fn byte_in_fragment_set(b: u8) -> (r: bool)
    ensures
        r == in_fragment_set(b),
{
    b >= 128 || b <= 31 || b == 127 || b == 32 || b == 34 || b == 60 || b == 62 || b == 96
}

/// Relies on percent_encoding::percent_encode_byte: the unconditional
/// three-character escape of a byte, a percent sign followed by two
/// uppercase hexadecimal digits.
#[verifier::external_body]
fn escape_byte(b: u8) -> (r: &'static str)
    ensures
        r@ == chars_of(escape_of(b)),
{
    percent_encoding::percent_encode_byte(b)
}

/// Relies on String::push_str: appends the given string slice.
#[verifier::external_body]
fn push_str(s: &mut String, t: &str)
    ensures
        final(s)@ == old(s)@ + t@,
{
    s.push_str(t);
}

/// Encoding one more byte appends that byte's encoding.
proof fn lemma_encoding_snoc(v: Seq<u8>, b: u8)
    ensures
        fragment_encoding_of(v.push(b)) == fragment_encoding_of(v) + encoded_byte(b),
    decreases v.len(),
{
    if v.len() == 0 {
        assert(v.push(b)[0] == b);
        assert(v.push(b).drop_first() =~= Seq::<u8>::empty());
        assert(fragment_encoding_of(Seq::<u8>::empty()) == Seq::<u8>::empty());
        assert(fragment_encoding_of(v.push(b)) =~= fragment_encoding_of(v) + encoded_byte(b));
    } else {
        assert(v.push(b)[0] == v[0]);
        assert(v.push(b).drop_first() =~= v.drop_first().push(b));
        lemma_encoding_snoc(v.drop_first(), b);
        assert(fragment_encoding_of(v.push(b)) =~= fragment_encoding_of(v) + encoded_byte(b));
    }
}

/// Percent-encodes a byte string under the fragment set.
pub fn fragment_encode(v: &[u8]) -> (r: String)
    ensures
        r@ == chars_of(fragment_encoding_of(v@)),
{
    let n = v.len();
    let mut out = String::new();
    let mut i: usize = 0;
    while i < n
        invariant
            0 <= i <= n,
            n == v@.len(),
            out@ == chars_of(fragment_encoding_of(v@.subrange(0, i as int))),
        decreases n - i,
    {
        let b = v[i];
        proof {
            lemma_encoding_snoc(v@.subrange(0, i as int), b);
            assert(v@.subrange(0, i as int + 1) =~= v@.subrange(0, i as int).push(b));
        }
        if byte_in_fragment_set(b) {
            let esc = escape_byte(b);
            push_str(&mut out, esc);
        } else {
            push_char(&mut out, b as char);
        }
        i += 1;
        assert(out@ =~= chars_of(fragment_encoding_of(v@.subrange(0, i as int))));
    }
    assert(v@.subrange(0, n as int) =~= v@);
    out
}

/// Whether the byte is a hexadecimal digit, in either case.
fn byte_is_hex(b: u8) -> (r: bool)
    ensures
        r == is_hex_digit(b),
{
    (48 <= b && b <= 57) || (65 <= b && b <= 70) || (97 <= b && b <= 102)
}

/// The value of a hexadecimal digit byte.
fn hex_value(b: u8) -> (r: u8)
    requires
        is_hex_digit(b),
    ensures
        r as int == hex_val(b),
        r <= 15,
{
    if b <= 57 {
        b - 48
    } else if b <= 70 {
        b - 55
    } else {
        b - 87
    }
}

/// Percent-decodes a byte string: each `%` followed by two hexadecimal
/// digits becomes the byte they spell; everything else passes through.
pub fn percent_decode_bytes(v: &[u8]) -> (r: Vec<u8>)
    ensures
        r@ == percent_decoding_of(v@),
{
    let n = v.len();
    let mut out: Vec<u8> = Vec::new();
    let mut i: usize = 0;
    proof {
        assert(v@.subrange(0, n as int) =~= v@);
        assert(out@ + percent_decoding_of(v@) =~= percent_decoding_of(v@));
    }
    while i < n
        invariant
            0 <= i <= n,
            n == v@.len(),
            percent_decoding_of(v@) == out@ + percent_decoding_of(v@.subrange(i as int, n as int)),
        decreases n - i,
    {
        let ghost rest = v@.subrange(i as int, n as int);
        if v[i] == 37 && n - i >= 3 && byte_is_hex(v[i + 1]) && byte_is_hex(v[i + 2]) {
            let b = hex_value(v[i + 1]) * 16 + hex_value(v[i + 2]);
            proof {
                assert(rest[0] == 37 && rest.len() >= 3 && is_hex_digit(rest[1]) && is_hex_digit(
                    rest[2],
                ));
                assert(rest.subrange(3, rest.len() as int) =~= v@.subrange(
                    i as int + 3,
                    n as int,
                ));
                assert(percent_decoding_of(rest) == seq![b] + percent_decoding_of(
                    v@.subrange(i as int + 3, n as int),
                ));
            }
            out.push(b);
            i += 3;
        } else {
            proof {
                assert(rest[0] == v@[i as int]);
                assert(rest.drop_first() =~= v@.subrange(i as int + 1, n as int));
                assert(percent_decoding_of(rest) == seq![v@[i as int]] + percent_decoding_of(
                    v@.subrange(i as int + 1, n as int),
                ));
            }
            out.push(v[i]);
            i += 1;
        }
        assert(percent_decoding_of(v@) =~= out@ + percent_decoding_of(
            v@.subrange(i as int, n as int),
        ));
    }
    assert(v@.subrange(n as int, n as int) =~= Seq::<u8>::empty());
    assert(out@ =~= percent_decoding_of(v@));
    out
}

/// Decoding inverts encoding on byte strings that are ASCII and free of
/// percent signs, as every rendered expression is.
pub proof fn lemma_decode_of_encode(v: Seq<u8>)
    requires
        ascii_no_percent(v),
    ensures
        percent_decoding_of(fragment_encoding_of(v)) == v,
    decreases v.len(),
{
    if v.len() == 0 {
    } else {
        let b = v[0];
        let rest = v.drop_first();
        assert forall|t: int| 0 <= t < rest.len() implies (#[trigger] rest[t]) < 128 && rest[t]
            != 37 by {
            assert(rest[t] == v[t + 1]);
        }
        lemma_decode_of_encode(rest);
        let e = fragment_encoding_of(v);
        if in_fragment_set(b) {
            let h = hex_upper(b as int / 16);
            let l = hex_upper(b as int % 16);
            assert(is_hex_digit(h) && is_hex_digit(l));
            assert(e[0] == 37 && e[1] == h && e[2] == l);
            assert(hex_val(h) == b as int / 16 && hex_val(l) == b as int % 16);
            assert(e.subrange(3, e.len() as int) =~= fragment_encoding_of(rest));
            assert(percent_decoding_of(e) =~= v);
        } else {
            assert(e[0] == b && b != 37);
            assert(e.drop_first() =~= fragment_encoding_of(rest));
            assert(percent_decoding_of(e) =~= v);
        }
    }
}

/// The redirect target for an expression: a slash followed by the
/// percent-encoded rendered text.
pub fn redirect_target(e: &TurbofishExpression) -> (r: String)
    ensures
        r@ == seq!['/'] + chars_of(fragment_encoding_of(render_of(*e))),
{
    let bytes = render_bytes(e);
    let enc = fragment_encode(bytes.as_slice());
    let mut out = String::new();
    push_char(&mut out, '/');
    push_str(&mut out, enc.as_str());
    assert(out@ =~= seq!['/'] + chars_of(fragment_encoding_of(render_of(*e))));
    out
}

/// Resolves a request path segment: percent-decodes it, parses the result
/// as a turbofish expression, and returns the expression with its
/// rendered text. Answers `None` exactly when the decoded segment is not
/// in the grammar, which the surrounding layer turns into a not-found
/// response.
pub fn resolve_segment(seg: &str) -> (r: Option<(TurbofishExpression, String)>)
    ensures
        r is Some <==> in_grammar(percent_decoding_of(seg.spec_bytes())),
        r matches Some((e, text)) ==> {
            &&& e.wf()
            &&& render_of(e) == percent_decoding_of(seg.spec_bytes())
            &&& text@ == chars_of(percent_decoding_of(seg.spec_bytes()))
        },
{
    let bytes = seg.as_bytes();
    let decoded = percent_decode_bytes(bytes);
    match parse_expr_at(decoded.as_slice(), 0) {
        Ok((e, j)) => {
            if j == decoded.len() {
                proof {
                    assert(decoded@.subrange(0, decoded@.len() as int) =~= decoded@);
                }
                let text = render(&e);
                Some((e, text))
            } else {
                None
            }
        },
        Err(_) => None,
    }
}

/// The random-redirect round trip: the target path built from a rendered
/// expression decodes back to exactly that rendered text, which is in the
/// grammar, so requesting the target succeeds and shows the same text.
pub proof fn lemma_redirect_round_trip(e: TurbofishExpression)
    requires
        e.wf(),
    ensures
        percent_decoding_of(fragment_encoding_of(render_of(e))) == render_of(e),
        in_grammar(percent_decoding_of(fragment_encoding_of(render_of(e)))),
{
    lemma_render_ascii(e);
    lemma_decode_of_encode(render_of(e));
    lemma_round_trip(e);
}

} // verus!
