//! JSON string syntax: escaping, quoting, and parsing of string tokens and
//! fixed literals.  The envelope grammar in `codec` is built from these.

use vstd::prelude::*;

verus! {

use crate::chars::{char_from_u32, push_char};
use crate::encoding::{hex_digit, hex_digit_at, hex_val, hex_val_of, lemma_hex_digit_val};
use vstd::string::StrSliceExecFns;

/// Characters with equal codes are equal.
pub proof fn lemma_char_inj(a: char, b: char)
    requires
        a as u32 == b as u32,
    ensures
        a == b,
{
    vstd::utf8::char_u32_cast(a, a as u32);
    vstd::utf8::char_u32_cast(b, b as u32);
}

/// The character with the given code, for valid Unicode scalar values.
pub open spec fn char_of(n: nat) -> char {
    choose|c: char| (#[trigger] (c as u32)) == n
}

/// `char_of` applied to the code of a character gives that character back.
pub proof fn lemma_char_of_code(c: char, n: nat)
    requires
        c as u32 == n,
    ensures
        char_of(n) == c,
{
    assert(exists|w: char| (#[trigger] (w as u32)) == n) by {
        assert((c as u32) == n);
    }
    let w = char_of(n);
    assert(w as u32 == n);
    lemma_char_inj(w, c);
}

/// How one character is written inside a JSON string: quote and backslash get
/// a backslash escape, the five named control characters their short escapes,
/// other control characters a `\u00``xx` escape, and everything else stands
/// for itself.
pub open spec fn esc_char(c: char) -> Seq<char> {
    if c == '"' {
        seq!['\\', '"']
    } else if c == '\\' {
        seq!['\\', '\\']
    } else if c as u32 == 8 {
        seq!['\\', 'b']
    } else if c as u32 == 9 {
        seq!['\\', 't']
    } else if c as u32 == 10 {
        seq!['\\', 'n']
    } else if c as u32 == 12 {
        seq!['\\', 'f']
    } else if c as u32 == 13 {
        seq!['\\', 'r']
    } else if (c as u32) < 32 {
        seq!['\\', 'u', '0', '0', hex_digit((c as u32 / 16) as nat), hex_digit(
            (c as u32 % 16) as nat,
        )]
    } else {
        seq![c]
    }
}

/// The body of a JSON string: each character escaped as needed.
pub open spec fn esc(s: Seq<char>) -> Seq<char>
    decreases s.len(),
{
    if s.len() == 0 {
        Seq::empty()
    } else {
        esc_char(s[0]) + esc(s.drop_first())
    }
}

/// A complete JSON string token: quoted escaped body.
pub open spec fn jstr(s: Seq<char>) -> Seq<char> {
    seq!['"'] + esc(s) + seq!['"']
}

/// The character a simple backslash escape stands for.
pub open spec fn unesc_simple(e: char) -> Option<char> {
    if e == '"' {
        Option::Some('"')
    } else if e == '\\' {
        Option::Some('\\')
    } else if e == '/' {
        Option::Some('/')
    } else if e == 'b' {
        Option::Some('\u{8}')
    } else if e == 'f' {
        Option::Some('\u{c}')
    } else if e == 'n' {
        Option::Some('\n')
    } else if e == 'r' {
        Option::Some('\r')
    } else if e == 't' {
        Option::Some('\t')
    } else {
        Option::None
    }
}

/// Parse the body of a JSON string after the opening quote: the decoded
/// characters and the rest of the input after the closing quote.
pub open spec fn parse_jstr_body(s: Seq<char>) -> Option<(Seq<char>, Seq<char>)>
    decreases s.len(),
{
    if s.len() == 0 {
        Option::None
    } else if s[0] == '"' {
        Option::Some((Seq::empty(), s.skip(1)))
    } else if s[0] == '\\' {
        if s.len() < 2 {
            Option::None
        } else if s[1] == 'u' {
            if s.len() < 6 {
                Option::None
            } else {
                match (hex_val(s[2]), hex_val(s[3]), hex_val(s[4]), hex_val(s[5])) {
                    (
                        Option::Some(h0),
                        Option::Some(h1),
                        Option::Some(h2),
                        Option::Some(h3),
                    ) => {
                        let n = h0 as nat * 4096 + h1 as nat * 256 + h2 as nat * 16 + h3 as nat;
                        if n < 0xD800 || n >= 0xE000 {
                            match parse_jstr_body(s.skip(6)) {
                                Option::Some((body, rest)) => Option::Some(
                                    (seq![char_of(n)] + body, rest),
                                ),
                                Option::None => Option::None,
                            }
                        } else {
                            Option::None
                        }
                    },
                    _ => Option::None,
                }
            }
        } else {
            match unesc_simple(s[1]) {
                Option::Some(c) => match parse_jstr_body(s.skip(2)) {
                    Option::Some((body, rest)) => Option::Some((seq![c] + body, rest)),
                    Option::None => Option::None,
                },
                Option::None => Option::None,
            }
        }
    } else if (s[0] as u32) < 32 {
        Option::None
    } else {
        match parse_jstr_body(s.skip(1)) {
            Option::Some((body, rest)) => Option::Some((seq![s[0]] + body, rest)),
            Option::None => Option::None,
        }
    }
}

/// Parse a JSON string token at the head of the input.
pub open spec fn parse_jstr(s: Seq<char>) -> Option<(Seq<char>, Seq<char>)> {
    if s.len() > 0 && s[0] == '"' {
        parse_jstr_body(s.skip(1))
    } else {
        Option::None
    }
}

/// Consume an expected literal prefix.
pub open spec fn expect(s: Seq<char>, lit: Seq<char>) -> Option<Seq<char>> {
    if lit.len() <= s.len() && s.take(lit.len() as int) == lit {
        Option::Some(s.skip(lit.len() as int))
    } else {
        Option::None
    }
}

pub proof fn lemma_expect_rt(lit: Seq<char>, rest: Seq<char>)
    ensures
        expect(lit + rest, lit) == Option::Some(rest),
{
    assert((lit + rest).take(lit.len() as int) =~= lit);
    assert((lit + rest).skip(lit.len() as int) =~= rest);
}

/// Parsing inverts escaping: a string body written by `esc` parses back to
/// the original characters, leaving the input after the closing quote.
proof fn lemma_jstr_body_rt(x: Seq<char>, rest: Seq<char>)
    ensures
        parse_jstr_body(esc(x) + seq!['"'] + rest) == Option::Some((x, rest)),
    decreases x.len(),
{
    let s = esc(x) + seq!['"'] + rest;
    if x.len() == 0 {
        assert(esc(x) =~= Seq::<char>::empty());
        assert(s[0] == '"');
        assert(s.skip(1) =~= rest);
    } else {
        let c = x[0];
        let e = esc_char(c);
        let x1 = x.drop_first();
        let tail = esc(x1) + seq!['"'] + rest;
        assert(s =~= e + tail);
        lemma_jstr_body_rt(x1, rest);
        if c == '"' || c == '\\' || c as u32 == 8 || c as u32 == 9 || c as u32 == 10 || c as u32
            == 12 || c as u32 == 13 {
            assert(e.len() == 2);
            assert(s[0] == e[0] && s[1] == e[1]);
            assert(s[0] == '\\');
            assert(s.skip(2) =~= tail);
            if c == '"' {
                assert(unesc_simple(s[1]) == Option::Some(c));
            } else if c == '\\' {
                assert(s[1] != '"') by {
                    assert('"' as u32 == 34 && '\\' as u32 == 92);
                }
                assert(unesc_simple(s[1]) == Option::Some(c));
            } else if c as u32 == 8 {
                assert(s[1] == 'b');
                assert('"' as u32 == 34 && '\\' as u32 == 92 && '/' as u32 == 47 && 'b' as u32
                    == 98);
                assert(unesc_simple('b') == Option::Some('\u{8}'));
                assert('\u{8}' as u32 == 8);
                lemma_char_inj(c, '\u{8}');
                assert(unesc_simple(s[1]) == Option::Some(c));
            } else if c as u32 == 9 {
                assert(s[1] == 't');
                assert('"' as u32 == 34 && '\\' as u32 == 92 && '/' as u32 == 47 && 'b' as u32
                    == 98 && 'f' as u32 == 102 && 'n' as u32 == 110 && 'r' as u32 == 114
                    && 't' as u32 == 116);
                assert(unesc_simple('t') == Option::Some('\t'));
                assert('\t' as u32 == 9);
                lemma_char_inj(c, '\t');
                assert(unesc_simple(s[1]) == Option::Some(c));
            } else if c as u32 == 10 {
                assert(s[1] == 'n');
                assert('"' as u32 == 34 && '\\' as u32 == 92 && '/' as u32 == 47 && 'b' as u32
                    == 98 && 'f' as u32 == 102 && 'n' as u32 == 110);
                assert(unesc_simple('n') == Option::Some('\n'));
                assert('\n' as u32 == 10);
                lemma_char_inj(c, '\n');
                assert(unesc_simple(s[1]) == Option::Some(c));
            } else if c as u32 == 12 {
                assert(s[1] == 'f');
                assert('"' as u32 == 34 && '\\' as u32 == 92 && '/' as u32 == 47 && 'b' as u32
                    == 98 && 'f' as u32 == 102);
                assert(unesc_simple('f') == Option::Some('\u{c}'));
                assert('\u{c}' as u32 == 12);
                lemma_char_inj(c, '\u{c}');
                assert(unesc_simple(s[1]) == Option::Some(c));
            } else {
                assert(s[1] == 'r');
                assert('"' as u32 == 34 && '\\' as u32 == 92 && '/' as u32 == 47 && 'b' as u32
                    == 98 && 'f' as u32 == 102 && 'n' as u32 == 110 && 'r' as u32 == 114);
                assert(unesc_simple('r') == Option::Some('\r'));
                assert('\r' as u32 == 13);
                lemma_char_inj(c, '\r');
                assert(unesc_simple(s[1]) == Option::Some(c));
            }
            assert(seq![c] + x1 =~= x);
        } else if (c as u32) < 32 {
            assert(e.len() == 6);
            assert(s[0] == e[0] && s[1] == e[1] && s[2] == e[2] && s[3] == e[3] && s[4] == e[4]
                && s[5] == e[5]);
            assert(s[0] == '\\' && s[1] == 'u' && s[2] == '0' && s[3] == '0');
            assert(s.skip(6) =~= tail);
            let hi = (c as u32 / 16) as nat;
            let lo = (c as u32 % 16) as nat;
            lemma_hex_digit_val(hi);
            lemma_hex_digit_val(lo);
            assert(hex_val('0') == Option::Some(0u8)) by {
                assert('0' as u32 == 48);
            }
            let n = 0 as nat * 4096 + 0 as nat * 256 + hi * 16 + lo;
            assert(16 * ((c as u32) as int / 16) + ((c as u32) as int % 16) == (c as u32) as int)
                by {
                vstd::arithmetic::div_mod::lemma_fundamental_div_mod((c as u32) as int, 16);
            }
            assert(n == c as u32);
            lemma_char_of_code(c, n);
            assert(seq![c] + x1 =~= x);
        } else {
            assert(e.len() == 1);
            assert(s[0] == c);
            assert(s[0] != '"' && s[0] != '\\');
            assert(s.skip(1) =~= tail);
            assert(seq![c] + x1 =~= x);
        }
    }
}

/// A JSON string token followed by anything parses back to the original
/// string, leaving that rest.
pub proof fn lemma_jstr_rt(x: Seq<char>, rest: Seq<char>)
    ensures
        parse_jstr(jstr(x) + rest) == Option::Some((x, rest)),
        jstr(x).len() >= 2,
{
    let s = jstr(x) + rest;
    assert(s[0] == '"');
    assert(s.skip(1) =~= esc(x) + seq!['"'] + rest);
    lemma_jstr_body_rt(x, rest);
}

/// Write a JSON string token for `s` at the end of `out`.
pub fn write_jstr(out: &mut String, s: &str)
    ensures
        final(out)@ == old(out)@ + jstr(s@),
{
    let n = s.unicode_len();
    push_char(out, '"');
    let mut i: usize = 0;
    proof {
        assert(s@.skip(0) =~= s@);
        assert(out@ + esc(s@) =~= old(out)@ + seq!['"'] + esc(s@));
    }
    while i < n
        invariant
            i <= n,
            n == s@.len(),
            out@ + esc(s@.skip(i as int)) == old(out)@ + seq!['"'] + esc(s@),
        decreases n - i,
    {
        let c = s.get_char(i);
        let ghost pre = out@;
        proof {
            let sfx = s@.skip(i as int);
            assert(sfx[0] == s@[i as int]);
            assert(sfx.drop_first() =~= s@.skip(i as int + 1));
        }
        let code = c as u32;
        if c == '"' {
            push_char(out, '\\');
            push_char(out, '"');
            proof {
                assert(out@ =~= pre + esc_char(c));
            }
        } else if c == '\\' {
            push_char(out, '\\');
            push_char(out, '\\');
            proof {
                assert(out@ =~= pre + esc_char(c));
            }
        } else if code == 8 {
            push_char(out, '\\');
            push_char(out, 'b');
            proof {
                assert(out@ =~= pre + esc_char(c));
            }
        } else if code == 9 {
            push_char(out, '\\');
            push_char(out, 't');
            proof {
                assert(out@ =~= pre + esc_char(c));
            }
        } else if code == 10 {
            push_char(out, '\\');
            push_char(out, 'n');
            proof {
                assert(out@ =~= pre + esc_char(c));
            }
        } else if code == 12 {
            push_char(out, '\\');
            push_char(out, 'f');
            proof {
                assert(out@ =~= pre + esc_char(c));
            }
        } else if code == 13 {
            push_char(out, '\\');
            push_char(out, 'r');
            proof {
                assert(out@ =~= pre + esc_char(c));
            }
        } else if code < 32 {
            push_char(out, '\\');
            push_char(out, 'u');
            push_char(out, '0');
            push_char(out, '0');
            push_char(out, hex_digit_at((code / 16) as u8));
            push_char(out, hex_digit_at((code % 16) as u8));
            proof {
                assert(out@ =~= pre + esc_char(c));
            }
        } else {
            push_char(out, c);
            proof {
                assert(out@ =~= pre + esc_char(c));
            }
        }
        i = i + 1;
    }
    proof {
        assert(s@.skip(n as int) =~= Seq::<char>::empty());
        assert(esc(s@.skip(n as int)) =~= Seq::<char>::empty());
        assert(out@ =~= old(out)@ + seq!['"'] + esc(s@));
    }
    push_char(out, '"');
    proof {
        assert(out@ =~= old(out)@ + jstr(s@));
    }
}

/// The continuation of a string-body parse with `acc` already read.
pub open spec fn body_cont(acc: Seq<char>, s: Seq<char>) -> Option<(Seq<char>, Seq<char>)> {
    match parse_jstr_body(s) {
        Option::Some((body, rest)) => Option::Some((acc + body, rest)),
        Option::None => Option::None,
    }
}

/// Parse a JSON string token starting at `pos`; on success, the decoded
/// string and the position just after the closing quote.
pub fn scan_jstr(v: &Vec<char>, pos: usize) -> (r: Option<(String, usize)>)
    requires
        pos <= v@.len(),
    ensures
        match r {
            Option::Some(p) => {
                &&& pos <= p.1 <= v@.len()
                &&& parse_jstr(v@.skip(pos as int)) == Option::Some(
                    (p.0@, v@.skip(p.1 as int)),
                )
            },
            Option::None => parse_jstr(v@.skip(pos as int)) is None,
        },
{
    let n = v.len();
    if pos >= n {
        proof {
            assert(v@.skip(pos as int).len() == 0);
        }
        return None;
    }
    if v[pos] != '"' {
        proof {
            assert(v@.skip(pos as int)[0] == v@[pos as int]);
        }
        return None;
    }
    let mut i: usize = pos + 1;
    let mut out = String::new();
    proof {
        assert(v@.skip(pos as int)[0] == v@[pos as int]);
        assert(v@.skip(pos as int).skip(1) =~= v@.skip(pos as int + 1));
        match parse_jstr_body(v@.skip(i as int)) {
            Option::Some((b, r)) => {
                assert(out@ + b =~= b);
            },
            Option::None => {},
        }
    }
    loop
        invariant
            pos + 1 <= i <= v@.len(),
            n == v@.len(),
            parse_jstr(v@.skip(pos as int)) == parse_jstr_body(v@.skip(pos as int + 1)),
            parse_jstr_body(v@.skip(pos as int + 1)) == body_cont(out@, v@.skip(i as int)),
        decreases v@.len() - i,
    {
        if i >= n {
            proof {
                assert(v@.skip(i as int).len() == 0);
            }
            return None;
        }
        let c = v[i];
        let ghost sfx = v@.skip(i as int);
        proof {
            assert(sfx[0] == v@[i as int]);
        }
        if c == '"' {
            proof {
                assert(sfx.skip(1) =~= v@.skip(i as int + 1));
                assert(out@ + Seq::<char>::empty() =~= out@);
            }
            return Some((out, i + 1));
        } else if c == '\\' {
            if i + 1 >= n {
                proof {
                    assert(sfx.len() < 2);
                }
                return None;
            }
            let e = v[i + 1];
            proof {
                assert(sfx[1] == v@[i as int + 1]);
            }
            if e == 'u' {
                if n - i < 6 {
                    proof {
                        assert(sfx.len() < 6);
                    }
                    return None;
                }
                proof {
                    assert(sfx[2] == v@[i as int + 2] && sfx[3] == v@[i as int + 3] && sfx[4]
                        == v@[i as int + 4] && sfx[5] == v@[i as int + 5]);
                }
                let h0 = hex_val_of(v[i + 2]);
                let h1 = hex_val_of(v[i + 3]);
                let h2 = hex_val_of(v[i + 4]);
                let h3 = hex_val_of(v[i + 5]);
                match (h0, h1, h2, h3) {
                    (Some(a0), Some(a1), Some(a2), Some(a3)) => {
                        let code: u32 = a0 as u32 * 4096 + a1 as u32 * 256 + a2 as u32 * 16
                            + a3 as u32;
                        if code >= 0xD800 && code < 0xE000 {
                            return None;
                        }
                        match char_from_u32(code) {
                            Some(cc) => {
                                let ghost pre = out@;
                                push_char(&mut out, cc);
                                proof {
                                    let nn = (a0 as nat * 4096 + a1 as nat * 256 + a2 as nat * 16
                                        + a3 as nat);
                                    assert(cc as u32 == nn);
                                    lemma_char_of_code(cc, nn);
                                    assert(sfx.skip(6) =~= v@.skip(i as int + 6));
                                    assert(out@ =~= pre.push(cc));
                                    assert(forall|b: Seq<char>|
                                        pre.push(cc) + b =~= pre + (seq![cc] + b));
                                }
                                i = i + 6;
                            },
                            None => {
                                proof {
                                    assert(code < 0xD800 || code >= 0xE000);
                                    assert(code <= 0xFFFF < 0x10FFFF);
                                }
                                // unreachable: the code is a valid scalar value
                                return None;
                            },
                        }
                    },
                    _ => {
                        return None;
                    },
                }
            } else {
                let dec: Option<char> = if e == '"' {
                    Some('"')
                } else if e == '\\' {
                    Some('\\')
                } else if e == '/' {
                    Some('/')
                } else if e == 'b' {
                    Some('\u{8}')
                } else if e == 'f' {
                    Some('\u{c}')
                } else if e == 'n' {
                    Some('\n')
                } else if e == 'r' {
                    Some('\r')
                } else if e == 't' {
                    Some('\t')
                } else {
                    None
                };
                proof {
                    assert(dec == unesc_simple(e));
                }
                match dec {
                    Some(cc) => {
                        let ghost pre = out@;
                        push_char(&mut out, cc);
                        proof {
                            assert(sfx.skip(2) =~= v@.skip(i as int + 2));
                            assert(out@ =~= pre.push(cc));
                            assert(forall|b: Seq<char>| pre.push(cc) + b =~= pre + (seq![cc] + b));
                        }
                        i = i + 2;
                    },
                    None => {
                        return None;
                    },
                }
            }
        } else if (c as u32) < 32 {
            return None;
        } else {
            let ghost pre = out@;
            push_char(&mut out, c);
            proof {
                assert(sfx.skip(1) =~= v@.skip(i as int + 1));
                assert(out@ =~= pre.push(c));
                assert(forall|b: Seq<char>| pre.push(c) + b =~= pre + (seq![c] + b));
            }
            i = i + 1;
        }
    }
}

/// Consume the literal `lit` starting at `pos`; on success the position just
/// after it.
pub fn scan_lit(v: &Vec<char>, pos: usize, lit: &str) -> (r: Option<usize>)
    requires
        pos <= v@.len(),
    ensures
        match r {
            Option::Some(p) => {
                &&& pos <= p <= v@.len()
                &&& expect(v@.skip(pos as int), lit@) == Option::Some(v@.skip(p as int))
            },
            Option::None => expect(v@.skip(pos as int), lit@) is None,
        },
{
    let m = lit.unicode_len();
    let n = v.len();
    if pos > n || n - pos < m {
        proof {
            assert(v@.skip(pos as int).len() < lit@.len());
        }
        return None;
    }
    let mut k: usize = 0;
    while k < m
        invariant
            k <= m,
            pos + m <= n,
            n == v@.len(),
            m == lit@.len(),
            forall|j: int| 0 <= j < k ==> v@.skip(pos as int)[j] == lit@[j],
        decreases m - k,
    {
        if v[pos + k] != lit.get_char(k) {
            proof {
                assert(v@.skip(pos as int)[k as int] == v@[pos as int + k]);
                assert(v@.skip(pos as int).take(lit@.len() as int)[k as int] != lit@[k as int]);
            }
            return None;
        }
        proof {
            assert(v@.skip(pos as int)[k as int] == v@[pos as int + k]);
        }
        k = k + 1;
    }
    proof {
        assert(v@.skip(pos as int).take(lit@.len() as int) =~= lit@);
        assert(v@.skip(pos as int).skip(lit@.len() as int) =~= v@.skip(pos as int + m));
    }
    Some(pos + m)
}

} // verus!
