//! The canonical serialized form of a metadata assertion.
//!
//! A metadata assertion is stored as one JSON object with the four fields
//! `entry_address`, `attribute`, `value` and `source`, in that order, with
//! no whitespace. Quotes and backslashes inside a field are escaped with a
//! backslash, control characters with their customary short escapes or a
//! `\u00` hex escape, as ordinary JSON writers do; every other character
//! stands for itself. This module defines
//! the encoding and the parse at the specification level, proves that the
//! parse inverts the encoding, and gives executable escape and parse helpers.

use crate::strorder::push_char;
use vstd::prelude::*;
use vstd::string::StrSliceExecFns;

verus! {

/// The lowercase hex digit pair a bare control character is written with,
/// for the control characters that have no single-letter escape.
pub open spec fn low_digits(c: char) -> Option<(char, char)> {
    if c == '\u{0}' {
        Some(('0', '0'))
    } else if c == '\u{1}' {
        Some(('0', '1'))
    } else if c == '\u{2}' {
        Some(('0', '2'))
    } else if c == '\u{3}' {
        Some(('0', '3'))
    } else if c == '\u{4}' {
        Some(('0', '4'))
    } else if c == '\u{5}' {
        Some(('0', '5'))
    } else if c == '\u{6}' {
        Some(('0', '6'))
    } else if c == '\u{7}' {
        Some(('0', '7'))
    } else if c == '\u{b}' {
        Some(('0', 'b'))
    } else if c == '\u{e}' {
        Some(('0', 'e'))
    } else if c == '\u{f}' {
        Some(('0', 'f'))
    } else if c == '\u{10}' {
        Some(('1', '0'))
    } else if c == '\u{11}' {
        Some(('1', '1'))
    } else if c == '\u{12}' {
        Some(('1', '2'))
    } else if c == '\u{13}' {
        Some(('1', '3'))
    } else if c == '\u{14}' {
        Some(('1', '4'))
    } else if c == '\u{15}' {
        Some(('1', '5'))
    } else if c == '\u{16}' {
        Some(('1', '6'))
    } else if c == '\u{17}' {
        Some(('1', '7'))
    } else if c == '\u{18}' {
        Some(('1', '8'))
    } else if c == '\u{19}' {
        Some(('1', '9'))
    } else if c == '\u{1a}' {
        Some(('1', 'a'))
    } else if c == '\u{1b}' {
        Some(('1', 'b'))
    } else if c == '\u{1c}' {
        Some(('1', 'c'))
    } else if c == '\u{1d}' {
        Some(('1', 'd'))
    } else if c == '\u{1e}' {
        Some(('1', 'e'))
    } else if c == '\u{1f}' {
        Some(('1', 'f'))
    } else {
        None
    }
}

/// The control character a `\u00` escape's digit pair stands for.
pub open spec fn low_unescape(h1: char, h2: char) -> Option<char> {
    if h1 == '0' && h2 == '0' {
        Some('\u{0}')
    } else if h1 == '0' && h2 == '1' {
        Some('\u{1}')
    } else if h1 == '0' && h2 == '2' {
        Some('\u{2}')
    } else if h1 == '0' && h2 == '3' {
        Some('\u{3}')
    } else if h1 == '0' && h2 == '4' {
        Some('\u{4}')
    } else if h1 == '0' && h2 == '5' {
        Some('\u{5}')
    } else if h1 == '0' && h2 == '6' {
        Some('\u{6}')
    } else if h1 == '0' && h2 == '7' {
        Some('\u{7}')
    } else if h1 == '0' && h2 == 'b' {
        Some('\u{b}')
    } else if h1 == '0' && h2 == 'e' {
        Some('\u{e}')
    } else if h1 == '0' && h2 == 'f' {
        Some('\u{f}')
    } else if h1 == '1' && h2 == '0' {
        Some('\u{10}')
    } else if h1 == '1' && h2 == '1' {
        Some('\u{11}')
    } else if h1 == '1' && h2 == '2' {
        Some('\u{12}')
    } else if h1 == '1' && h2 == '3' {
        Some('\u{13}')
    } else if h1 == '1' && h2 == '4' {
        Some('\u{14}')
    } else if h1 == '1' && h2 == '5' {
        Some('\u{15}')
    } else if h1 == '1' && h2 == '6' {
        Some('\u{16}')
    } else if h1 == '1' && h2 == '7' {
        Some('\u{17}')
    } else if h1 == '1' && h2 == '8' {
        Some('\u{18}')
    } else if h1 == '1' && h2 == '9' {
        Some('\u{19}')
    } else if h1 == '1' && h2 == 'a' {
        Some('\u{1a}')
    } else if h1 == '1' && h2 == 'b' {
        Some('\u{1b}')
    } else if h1 == '1' && h2 == 'c' {
        Some('\u{1c}')
    } else if h1 == '1' && h2 == 'd' {
        Some('\u{1d}')
    } else if h1 == '1' && h2 == 'e' {
        Some('\u{1e}')
    } else if h1 == '1' && h2 == 'f' {
        Some('\u{1f}')
    } else {
        None
    }
}

/// The digit pair a control character is written with reads back as that
/// character.
pub proof fn lemma_low_digits_inverse(c: char)
    requires
        low_digits(c) is Some,
    ensures
        low_unescape(low_digits(c)->Some_0.0, low_digits(c)->Some_0.1) == Some(c),
{
}

/// The hex digit pair of a control character, as [`low_digits`] gives it.
fn low_escape_digits(c: char) -> (r: Option<(char, char)>)
    ensures
        r == low_digits(c),
{
    if c == '\u{0}' {
        Some(('0', '0'))
    } else if c == '\u{1}' {
        Some(('0', '1'))
    } else if c == '\u{2}' {
        Some(('0', '2'))
    } else if c == '\u{3}' {
        Some(('0', '3'))
    } else if c == '\u{4}' {
        Some(('0', '4'))
    } else if c == '\u{5}' {
        Some(('0', '5'))
    } else if c == '\u{6}' {
        Some(('0', '6'))
    } else if c == '\u{7}' {
        Some(('0', '7'))
    } else if c == '\u{b}' {
        Some(('0', 'b'))
    } else if c == '\u{e}' {
        Some(('0', 'e'))
    } else if c == '\u{f}' {
        Some(('0', 'f'))
    } else if c == '\u{10}' {
        Some(('1', '0'))
    } else if c == '\u{11}' {
        Some(('1', '1'))
    } else if c == '\u{12}' {
        Some(('1', '2'))
    } else if c == '\u{13}' {
        Some(('1', '3'))
    } else if c == '\u{14}' {
        Some(('1', '4'))
    } else if c == '\u{15}' {
        Some(('1', '5'))
    } else if c == '\u{16}' {
        Some(('1', '6'))
    } else if c == '\u{17}' {
        Some(('1', '7'))
    } else if c == '\u{18}' {
        Some(('1', '8'))
    } else if c == '\u{19}' {
        Some(('1', '9'))
    } else if c == '\u{1a}' {
        Some(('1', 'a'))
    } else if c == '\u{1b}' {
        Some(('1', 'b'))
    } else if c == '\u{1c}' {
        Some(('1', 'c'))
    } else if c == '\u{1d}' {
        Some(('1', 'd'))
    } else if c == '\u{1e}' {
        Some(('1', 'e'))
    } else if c == '\u{1f}' {
        Some(('1', 'f'))
    } else {
        None
    }
}

/// The control character of a digit pair, as [`low_unescape`] gives it.
fn low_unescape_exec(h1: char, h2: char) -> (r: Option<char>)
    ensures
        r == low_unescape(h1, h2),
{
    if h1 == '0' && h2 == '0' {
        Some('\u{0}')
    } else if h1 == '0' && h2 == '1' {
        Some('\u{1}')
    } else if h1 == '0' && h2 == '2' {
        Some('\u{2}')
    } else if h1 == '0' && h2 == '3' {
        Some('\u{3}')
    } else if h1 == '0' && h2 == '4' {
        Some('\u{4}')
    } else if h1 == '0' && h2 == '5' {
        Some('\u{5}')
    } else if h1 == '0' && h2 == '6' {
        Some('\u{6}')
    } else if h1 == '0' && h2 == '7' {
        Some('\u{7}')
    } else if h1 == '0' && h2 == 'b' {
        Some('\u{b}')
    } else if h1 == '0' && h2 == 'e' {
        Some('\u{e}')
    } else if h1 == '0' && h2 == 'f' {
        Some('\u{f}')
    } else if h1 == '1' && h2 == '0' {
        Some('\u{10}')
    } else if h1 == '1' && h2 == '1' {
        Some('\u{11}')
    } else if h1 == '1' && h2 == '2' {
        Some('\u{12}')
    } else if h1 == '1' && h2 == '3' {
        Some('\u{13}')
    } else if h1 == '1' && h2 == '4' {
        Some('\u{14}')
    } else if h1 == '1' && h2 == '5' {
        Some('\u{15}')
    } else if h1 == '1' && h2 == '6' {
        Some('\u{16}')
    } else if h1 == '1' && h2 == '7' {
        Some('\u{17}')
    } else if h1 == '1' && h2 == '8' {
        Some('\u{18}')
    } else if h1 == '1' && h2 == '9' {
        Some('\u{19}')
    } else if h1 == '1' && h2 == 'a' {
        Some('\u{1a}')
    } else if h1 == '1' && h2 == 'b' {
        Some('\u{1b}')
    } else if h1 == '1' && h2 == 'c' {
        Some('\u{1c}')
    } else if h1 == '1' && h2 == 'd' {
        Some('\u{1d}')
    } else if h1 == '1' && h2 == 'e' {
        Some('\u{1e}')
    } else if h1 == '1' && h2 == 'f' {
        Some('\u{1f}')
    } else {
        None
    }
}

/// The encoding of one character inside a quoted JSON string.
pub open spec fn esc_char(c: char) -> Seq<char> {
    if c == '"' || c == '\\' {
        seq!['\\', c]
    } else if c == '\u{8}' {
        seq!['\\', 'b']
    } else if c == '\t' {
        seq!['\\', 't']
    } else if c == '\n' {
        seq!['\\', 'n']
    } else if c == '\u{c}' {
        seq!['\\', 'f']
    } else if c == '\r' {
        seq!['\\', 'r']
    } else {
        match low_digits(c) {
            Some(d) => seq!['\\', 'u', '0', '0', d.0, d.1],
            None => seq![c],
        }
    }
}

/// The encoding of a whole field inside a quoted JSON string.
pub open spec fn esc(v: Seq<char>) -> Seq<char>
    decreases v.len(),
{
    if v.len() == 0 {
        Seq::empty()
    } else {
        esc_char(v[0]) + esc(v.drop_first())
    }
}

/// Escaping distributes over concatenation.
pub proof fn lemma_esc_app(a: Seq<char>, b: Seq<char>)
    ensures
        esc(a + b) == esc(a) + esc(b),
    decreases a.len(),
{
    if a.len() == 0 {
        assert(a + b =~= b);
        assert(esc(a) + esc(b) =~= esc(b));
    } else {
        assert((a + b).drop_first() =~= a.drop_first() + b);
        lemma_esc_app(a.drop_first(), b);
        assert((a + b)[0] == a[0]);
        assert(esc_char(a[0]) + (esc(a.drop_first()) + esc(b)) =~= (esc_char(a[0]) + esc(
            a.drop_first(),
        )) + esc(b));
    }
}

/// Reads a quoted string body beginning at `i`: characters accumulate onto
/// `acc` until an unescaped quote, which is consumed. `None` when the input
/// ends first or an unknown escape appears.
pub open spec fn parse_str(s: Seq<char>, i: int, acc: Seq<char>) -> Option<(Seq<char>, int)>
    decreases s.len() - i,
{
    if i < 0 || i >= s.len() {
        None
    } else if s[i] == '"' {
        Some((acc, i + 1))
    } else if s[i] == '\\' {
        if i + 1 >= s.len() {
            None
        } else if s[i + 1] == '"' || s[i + 1] == '\\' {
            parse_str(s, i + 2, acc.push(s[i + 1]))
        } else if s[i + 1] == 'b' {
            parse_str(s, i + 2, acc.push('\u{8}'))
        } else if s[i + 1] == 't' {
            parse_str(s, i + 2, acc.push('\t'))
        } else if s[i + 1] == 'n' {
            parse_str(s, i + 2, acc.push('\n'))
        } else if s[i + 1] == 'f' {
            parse_str(s, i + 2, acc.push('\u{c}'))
        } else if s[i + 1] == 'r' {
            parse_str(s, i + 2, acc.push('\r'))
        } else if s[i + 1] == 'u' {
            if i + 5 < s.len() && s[i + 2] == '0' && s[i + 3] == '0' {
                match low_unescape(s[i + 4], s[i + 5]) {
                    Some(c) => parse_str(s, i + 6, acc.push(c)),
                    None => None,
                }
            } else {
                None
            }
        } else {
            None
        }
    } else {
        parse_str(s, i + 1, acc.push(s[i]))
    }
}

/// The position just past `lit` when `lit` occurs at `i` in `s`.
pub open spec fn match_lit(s: Seq<char>, i: int, lit: Seq<char>) -> Option<int> {
    if 0 <= i && i + lit.len() <= s.len() && s.subrange(i, i + lit.len()) == lit {
        Some(i + lit.len())
    } else {
        None
    }
}

/// Reading an escaped field followed by its closing quote yields exactly
/// that field, appended to the accumulator.
pub proof fn lemma_parse_esc(s: Seq<char>, i: int, acc: Seq<char>, v: Seq<char>)
    requires
        0 <= i,
        i + esc(v).len() + 1 <= s.len(),
        s.subrange(i, i + esc(v).len() + 1) == esc(v) + seq!['"'],
    ensures
        parse_str(s, i, acc) == Some((acc + v, i + esc(v).len() + 1)),
    decreases v.len(),
{
    let w = s.subrange(i, i + esc(v).len() + 1);
    if v.len() == 0 {
        assert(w[0] == '"');
        assert(s[i] == '"');
        assert(acc + v =~= acc);
    } else {
        let c0 = v[0];
        let vd = v.drop_first();
        assert(esc(v) == esc_char(c0) + esc(vd));
        let step: int = esc_char(c0).len() as int;
        assert(s.subrange(i + step, i + esc(v).len() + 1) =~= esc(vd) + seq!['"']) by {
            assert forall|j: int| 0 <= j < esc(vd).len() + 1 implies s.subrange(
                i + step,
                i + esc(v).len() + 1,
            )[j] == (esc(vd) + seq!['"'])[j] by {
                assert(s.subrange(i + step, i + esc(v).len() + 1)[j] == w[j + step]);
                assert(w[j + step] == (esc(v) + seq!['"'])[j + step]);
            }
        }
        if c0 == '"' || c0 == '\\' {
            assert(w[0] == '\\' && w[1] == c0);
            assert(s[i] == '\\' && s[i + 1] == c0);
            lemma_parse_esc(s, i + 2, acc.push(c0), vd);
            assert(acc.push(c0) + vd =~= acc + v);
        } else if c0 == '\u{8}' || c0 == '\t' || c0 == '\n' || c0 == '\u{c}' || c0 == '\r' {
            assert(w[0] == '\\');
            assert(s[i] == '\\' && s[i + 1] == w[1]);
            lemma_parse_esc(s, i + 2, acc.push(c0), vd);
            assert(acc.push(c0) + vd =~= acc + v);
        } else if low_digits(c0) is Some {
            let d = low_digits(c0)->Some_0;
            assert(esc_char(c0) =~= seq!['\\', 'u', '0', '0', d.0, d.1]);
            assert(w[0] == '\\' && w[1] == 'u' && w[2] == '0' && w[3] == '0' && w[4] == d.0
                && w[5] == d.1);
            assert(s[i] == '\\' && s[i + 1] == 'u' && s[i + 2] == '0' && s[i + 3] == '0' && s[i
                + 4] == d.0 && s[i + 5] == d.1);
            lemma_low_digits_inverse(c0);
            assert(low_unescape(s[i + 4], s[i + 5]) == Some(c0));
            lemma_parse_esc(s, i + 6, acc.push(c0), vd);
            assert(acc.push(c0) + vd =~= acc + v);
        } else {
            assert(w[0] == c0);
            assert(s[i] == c0);
            lemma_parse_esc(s, i + 1, acc.push(c0), vd);
            assert(acc.push(c0) + vd =~= acc + v);
        }
    }
}

/// The opening of the serialized object, through the first field's quote.
pub open spec fn lit_open() -> Seq<char> {
    "{\"entry_address\":\""@
}

/// The separator between the first and second fields.
pub open spec fn lit_attr() -> Seq<char> {
    ",\"attribute\":\""@
}

/// The separator between the second and third fields.
pub open spec fn lit_value() -> Seq<char> {
    ",\"value\":\""@
}

/// The separator between the third and fourth fields.
pub open spec fn lit_source() -> Seq<char> {
    ",\"source\":\""@
}

/// The closing brace of the serialized object.
pub open spec fn lit_close() -> Seq<char> {
    "}"@
}

/// The canonical serialized form of a metadata assertion with the given
/// four fields.
pub open spec fn spec_encode_meta(e: Seq<char>, a: Seq<char>, v: Seq<char>, s: Seq<char>) -> Seq<
    char,
> {
    lit_open() + esc(e) + seq!['"'] + lit_attr() + esc(a) + seq!['"'] + lit_value() + esc(v)
        + seq!['"'] + lit_source() + esc(s) + seq!['"'] + lit_close()
}

/// The four fields of a serialized metadata assertion, when the whole input
/// is exactly one canonical object.
pub open spec fn spec_decode_meta(c: Seq<char>) -> Option<(Seq<char>, Seq<char>, Seq<char>, Seq<char>)> {
    match match_lit(c, 0, lit_open()) {
        None => None,
        Some(i1) => match parse_str(c, i1, Seq::empty()) {
            None => None,
            Some((e, i2)) => match match_lit(c, i2, lit_attr()) {
                None => None,
                Some(i3) => match parse_str(c, i3, Seq::empty()) {
                    None => None,
                    Some((a, i4)) => match match_lit(c, i4, lit_value()) {
                        None => None,
                        Some(i5) => match parse_str(c, i5, Seq::empty()) {
                            None => None,
                            Some((v, i6)) => match match_lit(c, i6, lit_source()) {
                                None => None,
                                Some(i7) => match parse_str(c, i7, Seq::empty()) {
                                    None => None,
                                    Some((s, i8)) => match match_lit(c, i8, lit_close()) {
                                        None => None,
                                        Some(i9) => if i9 == c.len() {
                                            Some((e, a, v, s))
                                        } else {
                                            None
                                        },
                                    },
                                },
                            },
                        },
                    },
                },
            },
        },
    }
}

/// The parse inverts the encoding: decoding the canonical form of four
/// fields yields exactly those fields.
#[verifier::rlimit(60)]
pub proof fn lemma_decode_encode(e: Seq<char>, a: Seq<char>, v: Seq<char>, s: Seq<char>)
    ensures
        spec_decode_meta(spec_encode_meta(e, a, v, s)) == Some((e, a, v, s)),
{
    let c = spec_encode_meta(e, a, v, s);
    let i1 = lit_open().len() as int;
    let i2 = i1 + esc(e).len() + 1;
    let i3 = i2 + lit_attr().len();
    let i4 = i3 + esc(a).len() + 1;
    let i5 = i4 + lit_value().len();
    let i6 = i5 + esc(v).len() + 1;
    let i7 = i6 + lit_source().len();
    let i8 = i7 + esc(s).len() + 1;
    let i9 = i8 + lit_close().len();
    assert(c.len() == i9);
    assert(c.subrange(0, i1) =~= lit_open());
    assert(match_lit(c, 0, lit_open()) == Some(i1));
    assert(c.subrange(i1, i2) =~= esc(e) + seq!['"']);
    lemma_parse_esc(c, i1, Seq::empty(), e);
    assert(Seq::empty() + e =~= e);
    assert(parse_str(c, i1, Seq::empty()) == Some((e, i2)));
    assert(c.subrange(i2, i3) =~= lit_attr());
    assert(match_lit(c, i2, lit_attr()) == Some(i3));
    assert(c.subrange(i3, i4) =~= esc(a) + seq!['"']);
    lemma_parse_esc(c, i3, Seq::empty(), a);
    assert(Seq::empty() + a =~= a);
    assert(parse_str(c, i3, Seq::empty()) == Some((a, i4)));
    assert(c.subrange(i4, i5) =~= lit_value());
    assert(match_lit(c, i4, lit_value()) == Some(i5));
    assert(c.subrange(i5, i6) =~= esc(v) + seq!['"']);
    lemma_parse_esc(c, i5, Seq::empty(), v);
    assert(Seq::empty() + v =~= v);
    assert(parse_str(c, i5, Seq::empty()) == Some((v, i6)));
    assert(c.subrange(i6, i7) =~= lit_source());
    assert(match_lit(c, i6, lit_source()) == Some(i7));
    assert(c.subrange(i7, i8) =~= esc(s) + seq!['"']);
    lemma_parse_esc(c, i7, Seq::empty(), s);
    assert(Seq::empty() + s =~= s);
    assert(parse_str(c, i7, Seq::empty()) == Some((s, i8)));
    assert(c.subrange(i8, i9) =~= lit_close());
    assert(match_lit(c, i8, lit_close()) == Some(i9));
}

/// Appends the escaped form of `s` onto `out`.
pub fn escape_into(out: &mut String, s: &str)
    ensures
        final(out)@ == old(out)@ + esc(s@),
{
    let len = s.unicode_len();
    let mut i: usize = 0;
    proof {
        assert(s@.subrange(0, 0) =~= Seq::<char>::empty());
        assert(old(out)@ + Seq::<char>::empty() =~= old(out)@);
    }
    while i < len
        invariant
            i <= len,
            len == s@.len(),
            out@ == old(out)@ + esc(s@.subrange(0, i as int)),
        decreases len - i,
    {
        let c = s.get_char(i);
        proof {
            lemma_esc_app(s@.subrange(0, i as int), seq![s@[i as int]]);
            assert(s@.subrange(0, i as int) + seq![s@[i as int]] =~= s@.subrange(0, i + 1 as int));
            assert(seq![s@[i as int]].drop_first() =~= Seq::<char>::empty());
            assert(esc(Seq::<char>::empty()) =~= Seq::<char>::empty());
            assert(esc(seq![s@[i as int]]) =~= esc_char(s@[i as int]) + esc(Seq::<char>::empty()));
            assert(esc(seq![s@[i as int]]) =~= esc_char(s@[i as int]));
        }
        if c == '"' || c == '\\' {
            push_char(out, '\\');
            push_char(out, c);
            proof {
                assert(esc_char(s@[i as int]) =~= seq!['\\', c]);
                assert(out@ =~= old(out)@ + esc(s@.subrange(0, i + 1 as int)));
            }
        } else if c == '\u{8}' || c == '\t' || c == '\n' || c == '\u{c}' || c == '\r' {
            push_char(out, '\\');
            let e = if c == '\u{8}' {
                'b'
            } else if c == '\t' {
                't'
            } else if c == '\n' {
                'n'
            } else if c == '\u{c}' {
                'f'
            } else {
                'r'
            };
            push_char(out, e);
            proof {
                assert(esc_char(s@[i as int]) =~= seq!['\\', e]);
                assert(out@ =~= old(out)@ + esc(s@.subrange(0, i + 1 as int)));
            }
        } else {
            match low_escape_digits(c) {
                Some(d) => {
                    push_char(out, '\\');
                    push_char(out, 'u');
                    push_char(out, '0');
                    push_char(out, '0');
                    push_char(out, d.0);
                    push_char(out, d.1);
                    proof {
                        assert(esc_char(s@[i as int]) =~= seq!['\\', 'u', '0', '0', d.0, d.1]);
                        assert(out@ =~= old(out)@ + esc(s@.subrange(0, i + 1 as int)));
                    }
                },
                None => {
                    push_char(out, c);
                    proof {
                        assert(esc_char(s@[i as int]) =~= seq![c]);
                        assert(out@ =~= old(out)@ + esc(s@.subrange(0, i + 1 as int)));
                    }
                },
            }
        }
        i = i + 1;
    }
    proof {
        assert(s@.subrange(0, len as int) =~= s@);
    }
}

/// Reads a quoted string body of `s` beginning at `start`, as
/// [`parse_str`] describes.
pub fn parse_str_from(s: &str, start: usize) -> (r: Option<(String, usize)>)
    ensures
        r matches Some((v, j)) ==> parse_str(s@, start as int, Seq::empty()) == Some(
            (v@, j as int),
        ),
        r is None ==> parse_str(s@, start as int, Seq::empty()) is None,
{
    let len = s.unicode_len();
    let mut i: usize = start;
    let mut acc = String::new();
    loop
        invariant
            start <= i,
            len == s@.len(),
            parse_str(s@, start as int, Seq::empty()) == parse_str(s@, i as int, acc@),
        decreases len - i,
    {
        if i >= len {
            return None;
        }
        let c = s.get_char(i);
        if c == '"' {
            return Some((acc, i + 1));
        }
        if c == '\\' {
            if i + 1 >= len {
                return None;
            }
            let c1 = s.get_char(i + 1);
            if c1 == '"' || c1 == '\\' {
                push_char(&mut acc, c1);
                i = i + 2;
            } else if c1 == 'b' {
                push_char(&mut acc, '\u{8}');
                i = i + 2;
            } else if c1 == 't' {
                push_char(&mut acc, '\t');
                i = i + 2;
            } else if c1 == 'n' {
                push_char(&mut acc, '\n');
                i = i + 2;
            } else if c1 == 'f' {
                push_char(&mut acc, '\u{c}');
                i = i + 2;
            } else if c1 == 'r' {
                push_char(&mut acc, '\r');
                i = i + 2;
            } else if c1 == 'u' {
                if len - i <= 5 {
                    return None;
                }
                let d2 = s.get_char(i + 2);
                let d3 = s.get_char(i + 3);
                if d2 != '0' || d3 != '0' {
                    return None;
                }
                match low_unescape_exec(s.get_char(i + 4), s.get_char(i + 5)) {
                    Some(cc) => {
                        push_char(&mut acc, cc);
                        i = i + 6;
                    },
                    None => {
                        return None;
                    },
                }
            } else {
                return None;
            }
        } else {
            push_char(&mut acc, c);
            i = i + 1;
        }
    }
}

/// Reports whether `lit` occurs at `i` in `s`, as [`match_lit`] describes.
pub fn expect_lit(s: &str, i: usize, lit: &str) -> (r: Option<usize>)
    ensures
        r matches Some(j) ==> match_lit(s@, i as int, lit@) == Some(j as int),
        r is None ==> match_lit(s@, i as int, lit@) is None,
{
    let slen = s.unicode_len();
    let llen = lit.unicode_len();
    if i > slen || slen - i < llen {
        return None;
    }
    let mut j: usize = 0;
    while j < llen
        invariant
            j <= llen,
            slen == s@.len(),
            llen == lit@.len(),
            i + llen <= slen,
            forall|k: int| 0 <= k < j ==> s@[i + k] == lit@[k],
        decreases llen - j,
    {
        let cs = s.get_char(i + j);
        let cl = lit.get_char(j);
        if cs != cl {
            proof {
                assert(s@.subrange(i as int, i + lit@.len()) != lit@) by {
                    assert(s@.subrange(i as int, i + lit@.len())[j as int] != lit@[j as int]);
                }
            }
            return None;
        }
        j = j + 1;
    }
    proof {
        assert(s@.subrange(i as int, i + lit@.len()) =~= lit@);
    }
    Some(i + llen)
}

} // verus!
