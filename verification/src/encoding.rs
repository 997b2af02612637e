//! Byte/text encodings used on the wire: lowercase hex for keys, standard
//! padded base64 for sealed payloads, and percent-encoding of topic paths.

use vstd::prelude::*;

verus! {

use crate::A2AError;
use crate::chars::push_char;
use vstd::string::StrSliceExecFns;

// ---------------------------------------------------------------------------
// Lowercase hex
// ---------------------------------------------------------------------------
/// The lowercase hex digit for a value below 16.
pub open spec fn hex_digit(v: nat) -> char {
    "0123456789abcdef"@[v as int]
}

/// Lowercase hex of a byte string: two digits per byte, high nibble first.
pub open spec fn hex_of(b: Seq<u8>) -> Seq<char>
    decreases b.len(),
{
    if b.len() == 0 {
        Seq::empty()
    } else {
        seq![hex_digit((b[0] / 16) as nat), hex_digit((b[0] % 16) as nat)] + hex_of(b.drop_first())
    }
}

/// The value of one hex digit, either case.
pub open spec fn hex_val(c: char) -> Option<u8> {
    if 48 <= c as u32 && c as u32 <= 57 {
        Option::Some((c as u32 - 48) as u8)
    } else if 97 <= c as u32 && c as u32 <= 102 {
        Option::Some((c as u32 - 97 + 10) as u8)
    } else if 65 <= c as u32 && c as u32 <= 70 {
        Option::Some((c as u32 - 65 + 10) as u8)
    } else {
        Option::None
    }
}

/// What decoding a hex string yields: `Some` exactly for an even number of
/// hex digits of either case.
pub open spec fn hex_open(s: Seq<char>) -> Option<Seq<u8>>
    decreases s.len(),
{
    if s.len() == 0 {
        Option::Some(Seq::empty())
    } else if s.len() == 1 {
        Option::None
    } else {
        match (hex_val(s[0]), hex_val(s[1])) {
            (Option::Some(h), Option::Some(l)) => match hex_open(s.skip(2)) {
                Option::Some(rest) => Option::Some(
                    seq![(h as int * 16 + l as int) as u8] + rest,
                ),
                Option::None => Option::None,
            },
            _ => Option::None,
        }
    }
}

pub proof fn lemma_hex_of_len(b: Seq<u8>)
    ensures
        hex_of(b).len() == 2 * b.len(),
    decreases b.len(),
{
    if b.len() > 0 {
        lemma_hex_of_len(b.drop_first());
    }
}

pub proof fn lemma_hex_digit_val(v: nat)
    requires
        v < 16,
    ensures
        hex_val(hex_digit(v)) == Option::Some(v as u8),
{
    reveal_strlit("0123456789abcdef");
    if v == 0 {
    } else if v == 1 {
    } else if v == 2 {
    } else if v == 3 {
    } else if v == 4 {
    } else if v == 5 {
    } else if v == 6 {
    } else if v == 7 {
    } else if v == 8 {
    } else if v == 9 {
    } else if v == 10 {
    } else if v == 11 {
    } else if v == 12 {
    } else if v == 13 {
    } else if v == 14 {
    } else {
    }
}

/// Decoding inverts encoding: hex strings round-trip through `hex_of`.
pub proof fn lemma_hex_round_trip(b: Seq<u8>)
    ensures
        hex_open(hex_of(b)) == Option::Some(b),
    decreases b.len(),
{
    if b.len() == 0 {
        assert(hex_of(b) =~= Seq::<char>::empty());
    } else {
        let h = (b[0] / 16) as nat;
        let l = (b[0] % 16) as nat;
        lemma_hex_digit_val(h);
        lemma_hex_digit_val(l);
        lemma_hex_round_trip(b.drop_first());
        let s = hex_of(b);
        lemma_hex_of_len(b.drop_first());
        assert(s.skip(2) =~= hex_of(b.drop_first()));
        assert(b[0] / 16 * 16 + b[0] % 16 == b[0]) by {
            vstd::arithmetic::div_mod::lemma_fundamental_div_mod(b[0] as int, 16);
        }
        assert(seq![b[0]] + b.drop_first() =~= b);
    }
}

// ---------------------------------------------------------------------------
// Standard base64 with padding
// ---------------------------------------------------------------------------
/// The standard base64 alphabet character for a value below 64.
pub open spec fn b64_char(v: nat) -> char {
    "ABCDEFGHIJKLMNOPQRSTUVWXYZabcdefghijklmnopqrstuvwxyz0123456789+/"@[v as int]
}

/// Canonical padded base64 of a byte string.
pub open spec fn b64_of(b: Seq<u8>) -> Seq<char>
    decreases b.len(),
{
    if b.len() == 0 {
        Seq::empty()
    } else if b.len() == 1 {
        seq![
            b64_char((b[0] >> 2) as nat),
            b64_char(((b[0] & 3) << 4) as nat),
            '=',
            '=',
        ]
    } else if b.len() == 2 {
        seq![
            b64_char((b[0] >> 2) as nat),
            b64_char((((b[0] & 3) << 4) | (b[1] >> 4)) as nat),
            b64_char(((b[1] & 15) << 2) as nat),
            '=',
        ]
    } else {
        seq![
            b64_char((b[0] >> 2) as nat),
            b64_char((((b[0] & 3) << 4) | (b[1] >> 4)) as nat),
            b64_char((((b[1] & 15) << 2) | (b[2] >> 6)) as nat),
            b64_char((b[2] & 63) as nat),
        ] + b64_of(b.skip(3))
    }
}

/// The value of one base64 alphabet character.
pub open spec fn b64_val(c: char) -> Option<u8> {
    if 65 <= c as u32 && c as u32 <= 90 {
        Option::Some((c as u32 - 65) as u8)
    } else if 97 <= c as u32 && c as u32 <= 122 {
        Option::Some((c as u32 - 97 + 26) as u8)
    } else if 48 <= c as u32 && c as u32 <= 57 {
        Option::Some((c as u32 - 48 + 52) as u8)
    } else if c == '+' {
        Option::Some(62u8)
    } else if c == '/' {
        Option::Some(63u8)
    } else {
        Option::None
    }
}

/// What strict canonical base64 decoding yields: `Some` exactly for strings
/// that `b64_of` produces (length a multiple of four, canonical padding, no
/// stray bits in the last chunk).
pub open spec fn b64_open(s: Seq<char>) -> Option<Seq<u8>>
    decreases s.len(),
{
    if s.len() == 0 {
        Option::Some(Seq::empty())
    } else if s.len() < 4 {
        Option::None
    } else if s.len() == 4 {
        match (b64_val(s[0]), b64_val(s[1])) {
            (Option::Some(v0), Option::Some(v1)) => {
                if s[2] == '=' && s[3] == '=' {
                    if v1 & 15 == 0 {
                        Option::Some(seq![(v0 << 2) | (v1 >> 4)])
                    } else {
                        Option::None
                    }
                } else if s[3] == '=' {
                    match b64_val(s[2]) {
                        Option::Some(v2) => {
                            if v2 & 3 == 0 {
                                Option::Some(
                                    seq![(v0 << 2) | (v1 >> 4), ((v1 & 15) << 4) | (v2 >> 2)],
                                )
                            } else {
                                Option::None
                            }
                        },
                        Option::None => Option::None,
                    }
                } else {
                    match (b64_val(s[2]), b64_val(s[3])) {
                        (Option::Some(v2), Option::Some(v3)) => Option::Some(
                            seq![
                                (v0 << 2) | (v1 >> 4),
                                ((v1 & 15) << 4) | (v2 >> 2),
                                ((v2 & 3) << 6) | v3,
                            ],
                        ),
                        _ => Option::None,
                    }
                }
            },
            _ => Option::None,
        }
    } else {
        match (b64_val(s[0]), b64_val(s[1]), b64_val(s[2]), b64_val(s[3])) {
            (Option::Some(v0), Option::Some(v1), Option::Some(v2), Option::Some(v3)) => {
                match b64_open(s.skip(4)) {
                    Option::Some(rest) => Option::Some(
                        seq![
                            (v0 << 2) | (v1 >> 4),
                            ((v1 & 15) << 4) | (v2 >> 2),
                            ((v2 & 3) << 6) | v3,
                        ] + rest,
                    ),
                    Option::None => Option::None,
                }
            },
            _ => Option::None,
        }
    }
}

proof fn lemma_b64_char_val(v: nat)
    requires
        v < 64,
    ensures
        b64_val(b64_char(v)) == Option::Some(v as u8),
        b64_char(v) != '=',
{
    reveal_strlit("ABCDEFGHIJKLMNOPQRSTUVWXYZabcdefghijklmnopqrstuvwxyz0123456789+/");
    reveal_strlit("=");
    if v < 26 {
        assert(b64_val(b64_char(v)) == Option::Some(v as u8)) by {
            lemma_b64_table(v);
        }
        assert(b64_char(v) as u32 != 61) by {
            lemma_b64_table(v);
        }
    } else if v < 52 {
        lemma_b64_table(v);
    } else if v < 62 {
        lemma_b64_table(v);
    } else {
        lemma_b64_table(v);
    }
    assert('=' as u32 == 61);
}

proof fn lemma_b64_table(v: nat)
    requires
        v < 64,
    ensures
        v < 26 ==> b64_char(v) as u32 == 65 + v,
        26 <= v < 52 ==> b64_char(v) as u32 == 97 + (v - 26),
        52 <= v < 62 ==> b64_char(v) as u32 == 48 + (v - 52),
        v == 62 ==> b64_char(v) == '+',
        v == 63 ==> b64_char(v) == '/',
{
    reveal_strlit("ABCDEFGHIJKLMNOPQRSTUVWXYZabcdefghijklmnopqrstuvwxyz0123456789+/");
}

pub proof fn lemma_b64_of_len(b: Seq<u8>)
    ensures
        b.len() == 0 ==> b64_of(b).len() == 0,
        0 < b.len() <= 3 ==> b64_of(b).len() == 4,
        b.len() > 3 ==> b64_of(b).len() >= 8,
    decreases b.len(),
{
    if b.len() >= 3 {
        lemma_b64_of_len(b.skip(3));
    }
}

/// Strict decoding inverts encoding: byte strings round-trip through `b64_of`.
pub proof fn lemma_b64_round_trip(b: Seq<u8>)
    ensures
        b64_open(b64_of(b)) == Option::Some(b),
    decreases b.len(),
{
    if b.len() == 0 {
        assert(b64_of(b) =~= Seq::<char>::empty());
    } else if b.len() == 1 {
        let b0 = b[0];
        let v0 = b0 >> 2;
        let v1 = (b0 & 3) << 4;
        assert(v0 < 64 && v1 < 64) by (bit_vector)
            requires
                v0 == b0 >> 2 && v1 == (b0 & 3) << 4,
        ;
        lemma_b64_char_val(v0 as nat);
        lemma_b64_char_val(v1 as nat);
        assert(v1 & 15 == 0 && ((v0 << 2) | (v1 >> 4)) == b0) by (bit_vector)
            requires
                v0 == b0 >> 2 && v1 == (b0 & 3) << 4,
        ;
        assert(b =~= seq![b0]);
    } else if b.len() == 2 {
        let b0 = b[0];
        let b1 = b[1];
        let v0 = b0 >> 2;
        let v1 = ((b0 & 3) << 4) | (b1 >> 4);
        let v2 = (b1 & 15) << 2;
        assert(v0 < 64 && v1 < 64 && v2 < 64) by (bit_vector)
            requires
                v0 == b0 >> 2 && v1 == ((b0 & 3) << 4) | (b1 >> 4) && v2 == (b1 & 15) << 2,
        ;
        lemma_b64_char_val(v0 as nat);
        lemma_b64_char_val(v1 as nat);
        lemma_b64_char_val(v2 as nat);
        assert(v2 & 3 == 0 && ((v0 << 2) | (v1 >> 4)) == b0 && (((v1 & 15) << 4) | (v2 >> 2))
            == b1) by (bit_vector)
            requires
                v0 == b0 >> 2 && v1 == ((b0 & 3) << 4) | (b1 >> 4) && v2 == (b1 & 15) << 2,
        ;
        assert(b =~= seq![b0, b1]);
    } else {
        let b0 = b[0];
        let b1 = b[1];
        let b2 = b[2];
        let v0 = b0 >> 2;
        let v1 = ((b0 & 3) << 4) | (b1 >> 4);
        let v2 = ((b1 & 15) << 2) | (b2 >> 6);
        let v3 = b2 & 63;
        assert(v0 < 64 && v1 < 64 && v2 < 64 && v3 < 64) by (bit_vector)
            requires
                v0 == b0 >> 2 && v1 == ((b0 & 3) << 4) | (b1 >> 4) && v2 == ((b1 & 15) << 2) | (
                b2 >> 6) && v3 == b2 & 63,
        ;
        lemma_b64_char_val(v0 as nat);
        lemma_b64_char_val(v1 as nat);
        lemma_b64_char_val(v2 as nat);
        lemma_b64_char_val(v3 as nat);
        assert(((v0 << 2) | (v1 >> 4)) == b0 && (((v1 & 15) << 4) | (v2 >> 2)) == b1 && (((v2 & 3)
            << 6) | v3) == b2) by (bit_vector)
            requires
                v0 == b0 >> 2 && v1 == ((b0 & 3) << 4) | (b1 >> 4) && v2 == ((b1 & 15) << 2) | (
                b2 >> 6) && v3 == b2 & 63,
        ;
        lemma_b64_round_trip(b.skip(3));
        let s = b64_of(b);
        let rest = b64_of(b.skip(3));
        lemma_b64_of_len(b.skip(3));
        assert(s.skip(4) =~= rest);
        if b.len() == 3 {
            assert(rest =~= Seq::<char>::empty());
            assert(s.len() == 4);
            assert(b =~= seq![b0, b1, b2]);
        } else {
            assert(s.len() > 4);
            assert(b =~= seq![b0, b1, b2] + b.skip(3));
        }
    }
}

// ---------------------------------------------------------------------------
// Lenient base64 decoding (alphabet filter, padding ignored)
// ---------------------------------------------------------------------------
/// The sextet values of the alphabet characters of a string, in order; all
/// other characters (padding included) are dropped.
pub open spec fn b64_sextets(s: Seq<char>) -> Seq<u8>
    decreases s.len(),
{
    if s.len() == 0 {
        Seq::empty()
    } else {
        (match b64_val(s[0]) {
            Option::Some(v) => seq![v],
            Option::None => Seq::empty(),
        }) + b64_sextets(s.drop_first())
    }
}

/// The bytes of a sextet string, read in chunks of four; a trailing chunk of
/// two or three sextets yields one or two bytes, a single trailing sextet is
/// dropped.
pub open spec fn b64_loose_bytes(v: Seq<u8>) -> Seq<u8>
    decreases v.len(),
{
    if v.len() < 2 {
        Seq::empty()
    } else if v.len() == 2 {
        let t = ((v[0] as u32) << 18) | ((v[1] as u32) << 12);
        seq![((t >> 16) & 255) as u8]
    } else if v.len() == 3 {
        let t = ((v[0] as u32) << 18) | ((v[1] as u32) << 12) | ((v[2] as u32) << 6);
        seq![((t >> 16) & 255) as u8, ((t >> 8) & 255) as u8]
    } else {
        let t = ((v[0] as u32) << 18) | ((v[1] as u32) << 12) | ((v[2] as u32) << 6) | (
        v[3] as u32);
        seq![((t >> 16) & 255) as u8, ((t >> 8) & 255) as u8, (t & 255) as u8] + b64_loose_bytes(
            v.skip(4),
        )
    }
}

/// What the lenient decoder yields on any input.
pub open spec fn b64_decode_loose(s: Seq<char>) -> Seq<u8> {
    b64_loose_bytes(b64_sextets(s))
}

proof fn lemma_sextets_cons(c: char, rest: Seq<char>)
    ensures
        b64_sextets(seq![c] + rest) == (match b64_val(c) {
            Option::Some(v) => seq![v],
            Option::None => Seq::<u8>::empty(),
        }) + b64_sextets(rest),
{
    assert((seq![c] + rest)[0] == c);
    assert((seq![c] + rest).drop_first() =~= rest);
}

proof fn lemma_sextets_add(a: Seq<char>, b: Seq<char>)
    ensures
        b64_sextets(a + b) == b64_sextets(a) + b64_sextets(b),
    decreases a.len(),
{
    if a.len() == 0 {
        assert(a + b =~= b);
        assert(b64_sextets(a) =~= Seq::<u8>::empty());
        assert(b64_sextets(a) + b64_sextets(b) =~= b64_sextets(b));
    } else {
        assert((a + b)[0] == a[0]);
        assert((a + b).drop_first() =~= a.drop_first() + b);
        lemma_sextets_add(a.drop_first(), b);
        assert(b64_sextets(a + b) =~= b64_sextets(a) + b64_sextets(b));
    }
}

/// The sextet values of one canonical chunk, with padding dropped.
proof fn lemma_chunk_sextets(cs: Seq<char>)
    requires
        cs.len() == 4,
    ensures
        b64_sextets(cs) == (match b64_val(cs[0]) {
            Option::Some(v) => seq![v],
            Option::None => Seq::<u8>::empty(),
        }) + (match b64_val(cs[1]) {
            Option::Some(v) => seq![v],
            Option::None => Seq::<u8>::empty(),
        }) + (match b64_val(cs[2]) {
            Option::Some(v) => seq![v],
            Option::None => Seq::<u8>::empty(),
        }) + (match b64_val(cs[3]) {
            Option::Some(v) => seq![v],
            Option::None => Seq::<u8>::empty(),
        }),
{
    assert(cs =~= seq![cs[0]] + (seq![cs[1]] + (seq![cs[2]] + (seq![cs[3]]
        + Seq::<char>::empty()))));
    lemma_sextets_cons(cs[0], seq![cs[1]] + (seq![cs[2]] + (seq![cs[3]] + Seq::<char>::empty())));
    lemma_sextets_cons(cs[1], seq![cs[2]] + (seq![cs[3]] + Seq::<char>::empty()));
    lemma_sextets_cons(cs[2], seq![cs[3]] + Seq::<char>::empty());
    lemma_sextets_cons(cs[3], Seq::<char>::empty());
    assert(b64_sextets(Seq::<char>::empty()) == Seq::<u8>::empty());
    assert(b64_sextets(cs) =~= (match b64_val(cs[0]) {
        Option::Some(v) => seq![v],
        Option::None => Seq::<u8>::empty(),
    }) + (match b64_val(cs[1]) {
        Option::Some(v) => seq![v],
        Option::None => Seq::<u8>::empty(),
    }) + (match b64_val(cs[2]) {
        Option::Some(v) => seq![v],
        Option::None => Seq::<u8>::empty(),
    }) + (match b64_val(cs[3]) {
        Option::Some(v) => seq![v],
        Option::None => Seq::<u8>::empty(),
    }));
}

/// The lenient decoder inverts the canonical encoder: this is the round
/// trip on the relay wire path, where padding is filtered out and sextets
/// are regrouped into bytes.
pub proof fn lemma_b64_loose_round_trip(b: Seq<u8>)
    ensures
        b64_decode_loose(b64_of(b)) == b,
    decreases b.len(),
{
    assert(b64_val('=') is None) by {
        assert('=' as u32 == 61 && '+' as u32 == 43 && '/' as u32 == 47);
    }
    if b.len() == 0 {
        assert(b64_of(b) =~= Seq::<char>::empty());
        assert(b64_sextets(b64_of(b)) =~= Seq::<u8>::empty());
        assert(b64_decode_loose(b64_of(b)) =~= b);
    } else if b.len() == 1 {
        let b0 = b[0];
        let v0 = b0 >> 2;
        let v1 = (b0 & 3) << 4;
        assert(v0 < 64 && v1 < 64) by (bit_vector)
            requires
                v0 == b0 >> 2 && v1 == (b0 & 3) << 4,
        ;
        lemma_b64_char_val(v0 as nat);
        lemma_b64_char_val(v1 as nat);
        lemma_chunk_sextets(b64_of(b));
        let sx = b64_sextets(b64_of(b));
        assert(sx =~= seq![v0, v1]);
        let t = ((v0 as u32) << 18) | ((v1 as u32) << 12);
        assert(((t >> 16) & 255) as u8 == b0) by (bit_vector)
            requires
                v0 == b0 >> 2 && v1 == (b0 & 3) << 4 && t == ((v0 as u32) << 18) | ((v1 as u32)
                    << 12),
        ;
        assert(b64_loose_bytes(sx) =~= b);
    } else if b.len() == 2 {
        let b0 = b[0];
        let b1 = b[1];
        let v0 = b0 >> 2;
        let v1 = ((b0 & 3) << 4) | (b1 >> 4);
        let v2 = (b1 & 15) << 2;
        assert(v0 < 64 && v1 < 64 && v2 < 64) by (bit_vector)
            requires
                v0 == b0 >> 2 && v1 == ((b0 & 3) << 4) | (b1 >> 4) && v2 == (b1 & 15) << 2,
        ;
        lemma_b64_char_val(v0 as nat);
        lemma_b64_char_val(v1 as nat);
        lemma_b64_char_val(v2 as nat);
        lemma_chunk_sextets(b64_of(b));
        let sx = b64_sextets(b64_of(b));
        assert(sx =~= seq![v0, v1, v2]);
        let t = ((v0 as u32) << 18) | ((v1 as u32) << 12) | ((v2 as u32) << 6);
        assert(((t >> 16) & 255) as u8 == b0 && ((t >> 8) & 255) as u8 == b1) by (bit_vector)
            requires
                v0 == b0 >> 2 && v1 == ((b0 & 3) << 4) | (b1 >> 4) && v2 == (b1 & 15) << 2 && t
                    == ((v0 as u32) << 18) | ((v1 as u32) << 12) | ((v2 as u32) << 6),
        ;
        assert(b64_loose_bytes(sx) =~= b);
    } else {
        let b0 = b[0];
        let b1 = b[1];
        let b2 = b[2];
        let v0 = b0 >> 2;
        let v1 = ((b0 & 3) << 4) | (b1 >> 4);
        let v2 = ((b1 & 15) << 2) | (b2 >> 6);
        let v3 = b2 & 63;
        assert(v0 < 64 && v1 < 64 && v2 < 64 && v3 < 64) by (bit_vector)
            requires
                v0 == b0 >> 2 && v1 == ((b0 & 3) << 4) | (b1 >> 4) && v2 == ((b1 & 15) << 2) | (
                b2 >> 6) && v3 == b2 & 63,
        ;
        lemma_b64_char_val(v0 as nat);
        lemma_b64_char_val(v1 as nat);
        lemma_b64_char_val(v2 as nat);
        lemma_b64_char_val(v3 as nat);
        let chunk = seq![
            b64_char(v0 as nat),
            b64_char(v1 as nat),
            b64_char(v2 as nat),
            b64_char(v3 as nat),
        ];
        assert(b64_of(b) == chunk + b64_of(b.skip(3)));
        lemma_sextets_add(chunk, b64_of(b.skip(3)));
        lemma_chunk_sextets(chunk);
        assert(b64_sextets(chunk) =~= seq![v0, v1, v2, v3]);
        lemma_b64_loose_round_trip(b.skip(3));
        let rest_sx = b64_sextets(b64_of(b.skip(3)));
        let sx = b64_sextets(b64_of(b));
        assert(sx =~= seq![v0, v1, v2, v3] + rest_sx);
        assert(sx[0] == v0 && sx[1] == v1 && sx[2] == v2 && sx[3] == v3);
        assert(sx.skip(4) =~= rest_sx);
        let t = ((v0 as u32) << 18) | ((v1 as u32) << 12) | ((v2 as u32) << 6) | (v3 as u32);
        assert(((t >> 16) & 255) as u8 == b0 && ((t >> 8) & 255) as u8 == b1 && (t & 255) as u8
            == b2) by (bit_vector)
            requires
                v0 == b0 >> 2 && v1 == ((b0 & 3) << 4) | (b1 >> 4) && v2 == ((b1 & 15) << 2) | (
                b2 >> 6) && v3 == b2 & 63 && t == ((v0 as u32) << 18) | ((v1 as u32) << 12) | ((
                v2 as u32) << 6) | (v3 as u32),
        ;
        assert(b64_loose_bytes(sx) =~= seq![b0, b1, b2] + b64_loose_bytes(rest_sx));
        assert(seq![b0, b1, b2] + b.skip(3) =~= b);
    }
}

/// The lowercase hex digit character for a value below 16.
pub fn hex_digit_at(v: u8) -> (c: char)
    requires
        v < 16,
    ensures
        c == hex_digit(v as nat),
{
    let table = "0123456789abcdef";
    proof {
        reveal_strlit("0123456789abcdef");
    }
    table.get_char(v as usize)
}

/// The value of a hex digit character, if it is one.
pub fn hex_val_of(c: char) -> (r: Option<u8>)
    ensures
        r == hex_val(c),
{
    let n = c as u32;
    if 48 <= n && n <= 57 {
        Some((n - 48) as u8)
    } else if 97 <= n && n <= 102 {
        Some((n - 97 + 10) as u8)
    } else if 65 <= n && n <= 70 {
        Some((n - 65 + 10) as u8)
    } else {
        None
    }
}

/// The base64 alphabet character for a sextet value.
fn b64_char_at(v: u8) -> (c: char)
    requires
        v < 64,
    ensures
        c == b64_char(v as nat),
{
    let table = "ABCDEFGHIJKLMNOPQRSTUVWXYZabcdefghijklmnopqrstuvwxyz0123456789+/";
    proof {
        reveal_strlit("ABCDEFGHIJKLMNOPQRSTUVWXYZabcdefghijklmnopqrstuvwxyz0123456789+/");
    }
    table.get_char(v as usize)
}

/// The sextet value of a character, if it is in the base64 alphabet.
fn b64_val_of(c: char) -> (r: Option<u8>)
    ensures
        r == b64_val(c),
{
    let n = c as u32;
    if 65 <= n && n <= 90 {
        Some((n - 65) as u8)
    } else if 97 <= n && n <= 122 {
        Some((n - 97 + 26) as u8)
    } else if 48 <= n && n <= 57 {
        Some((n - 48 + 52) as u8)
    } else if n == 43 {
        proof {
            assert('+' as u32 == 43);
        }
        Some(62)
    } else if n == 47 {
        proof {
            assert('/' as u32 == 47);
        }
        Some(63)
    } else {
        proof {
            assert('+' as u32 == 43 && '/' as u32 == 47);
        }
        None
    }
}

/// Canonical padded base64 of a byte slice.
pub fn base64_encode(data: &[u8]) -> (r: String)
    ensures
        r@ == b64_of(data@),
{
    let n = data.len();
    let mut r = String::new();
    let mut i: usize = 0;
    proof {
        assert(data@.skip(0) =~= data@);
        assert(r@ + b64_of(data@) =~= b64_of(data@));
    }
    while n - i >= 3
        invariant
            i <= n,
            n == data@.len(),
            r@ + b64_of(data@.skip(i as int)) == b64_of(data@),
        decreases n - i,
    {
        let b0 = data[i];
        let b1 = data[i + 1];
        let b2 = data[i + 2];
        let v0 = b0 >> 2;
        let v1 = ((b0 & 3) << 4) | (b1 >> 4);
        let v2 = ((b1 & 15) << 2) | (b2 >> 6);
        let v3 = b2 & 63;
        proof {
            assert(v0 < 64 && v1 < 64 && v2 < 64 && v3 < 64) by (bit_vector)
                requires
                    v0 == b0 >> 2 && v1 == ((b0 & 3) << 4) | (b1 >> 4) && v2 == ((b1 & 15) << 2)
                        | (b2 >> 6) && v3 == b2 & 63,
            ;
        }
        let ghost old_r = r@;
        push_char(&mut r, b64_char_at(v0));
        push_char(&mut r, b64_char_at(v1));
        push_char(&mut r, b64_char_at(v2));
        push_char(&mut r, b64_char_at(v3));
        proof {
            let s = data@.skip(i as int);
            assert(s[0] == data@[i as int] && s[1] == data@[i as int + 1] && s[2] == data@[i as int
                + 2]);
            assert(s.skip(3) =~= data@.skip(i as int + 3));
            assert(r@ =~= old_r + seq![b64_char(v0 as nat), b64_char(v1 as nat), b64_char(
                v2 as nat,
            ), b64_char(v3 as nat)]);
        }
        i = i + 3;
    }
    if n - i == 1 {
        let b0 = data[i];
        let v0 = b0 >> 2;
        let v1 = (b0 & 3) << 4;
        proof {
            assert(v0 < 64 && v1 < 64) by (bit_vector)
                requires
                    v0 == b0 >> 2 && v1 == (b0 & 3) << 4,
            ;
        }
        push_char(&mut r, b64_char_at(v0));
        push_char(&mut r, b64_char_at(v1));
        push_char(&mut r, '=');
        push_char(&mut r, '=');
        proof {
            let s = data@.skip(i as int);
            assert(s.len() == 1 && s[0] == data@[i as int]);
            assert(r@ =~= b64_of(data@));
        }
    } else if n - i == 2 {
        let b0 = data[i];
        let b1 = data[i + 1];
        let v0 = b0 >> 2;
        let v1 = ((b0 & 3) << 4) | (b1 >> 4);
        let v2 = (b1 & 15) << 2;
        proof {
            assert(v0 < 64 && v1 < 64 && v2 < 64) by (bit_vector)
                requires
                    v0 == b0 >> 2 && v1 == ((b0 & 3) << 4) | (b1 >> 4) && v2 == (b1 & 15) << 2,
            ;
        }
        push_char(&mut r, b64_char_at(v0));
        push_char(&mut r, b64_char_at(v1));
        push_char(&mut r, b64_char_at(v2));
        push_char(&mut r, '=');
        proof {
            let s = data@.skip(i as int);
            assert(s.len() == 2 && s[0] == data@[i as int] && s[1] == data@[i as int + 1]);
            assert(r@ =~= b64_of(data@));
        }
    } else {
        proof {
            assert(data@.skip(i as int) =~= Seq::<u8>::empty());
            assert(r@ =~= b64_of(data@));
        }
    }
    r
}

/// Lenient base64 decoding: characters outside the alphabet (padding
/// included) are skipped, then sextets are read in chunks of four; a single
/// trailing sextet is dropped.  Never fails.
pub fn base64_decode(input: &str) -> (r: Result<Vec<u8>, A2AError>)
    ensures
        r matches Ok(v) && v@ == b64_decode_loose(input@),
{
    let n = input.unicode_len();
    let mut sext: Vec<u8> = Vec::new();
    let mut i: usize = 0;
    proof {
        assert(input@.skip(0) =~= input@);
        assert(sext@ + b64_sextets(input@) =~= b64_sextets(input@));
    }
    while i < n
        invariant
            i <= n,
            n == input@.len(),
            sext@ + b64_sextets(input@.skip(i as int)) == b64_sextets(input@),
            forall|j: int| 0 <= j < sext@.len() ==> sext@[j] < 64,
        decreases n - i,
    {
        let c = input.get_char(i);
        proof {
            let s = input@.skip(i as int);
            assert(s[0] == input@[i as int]);
            assert(s.drop_first() =~= input@.skip(i as int + 1));
        }
        match b64_val_of(c) {
            Some(v) => {
                proof {
                    assert(b64_val(c)->Some_0 < 64);
                }
                sext.push(v);
            },
            None => {},
        }
        i = i + 1;
    }
    proof {
        assert(input@.skip(n as int) =~= Seq::<char>::empty());
        assert(sext@ =~= b64_sextets(input@));
    }
    let m = sext.len();
    let mut out: Vec<u8> = Vec::new();
    let mut j: usize = 0;
    proof {
        assert(sext@.skip(0) =~= sext@);
        assert(out@ + b64_loose_bytes(sext@) =~= b64_loose_bytes(sext@));
    }
    while m - j >= 4
        invariant
            j <= m,
            m == sext@.len(),
            forall|k: int| 0 <= k < sext@.len() ==> sext@[k] < 64,
            out@ + b64_loose_bytes(sext@.skip(j as int)) == b64_loose_bytes(sext@),
        decreases m - j,
    {
        let c0 = sext[j] as u32;
        let c1 = sext[j + 1] as u32;
        let c2 = sext[j + 2] as u32;
        let c3 = sext[j + 3] as u32;
        let t = (c0 << 18) | (c1 << 12) | (c2 << 6) | c3;
        out.push(((t >> 16) & 255) as u8);
        out.push(((t >> 8) & 255) as u8);
        out.push((t & 255) as u8);
        proof {
            let s = sext@.skip(j as int);
            assert(s[0] == sext@[j as int] && s[1] == sext@[j as int + 1] && s[2] == sext@[j as int
                + 2] && s[3] == sext@[j as int + 3]);
            assert(s.skip(4) =~= sext@.skip(j as int + 4));
        }
        j = j + 4;
    }
    if m - j == 2 {
        let c0 = sext[j] as u32;
        let c1 = sext[j + 1] as u32;
        let t = (c0 << 18) | (c1 << 12);
        out.push(((t >> 16) & 255) as u8);
        proof {
            let s = sext@.skip(j as int);
            assert(s.len() == 2 && s[0] == sext@[j as int] && s[1] == sext@[j as int + 1]);
            assert(out@ =~= b64_loose_bytes(sext@));
        }
    } else if m - j == 3 {
        let c0 = sext[j] as u32;
        let c1 = sext[j + 1] as u32;
        let c2 = sext[j + 2] as u32;
        let t = (c0 << 18) | (c1 << 12) | (c2 << 6);
        out.push(((t >> 16) & 255) as u8);
        out.push(((t >> 8) & 255) as u8);
        proof {
            let s = sext@.skip(j as int);
            assert(s.len() == 3 && s[0] == sext@[j as int] && s[1] == sext@[j as int + 1] && s[2]
                == sext@[j as int + 2]);
            assert(out@ =~= b64_loose_bytes(sext@));
        }
    } else {
        proof {
            let s = sext@.skip(j as int);
            assert(s.len() < 2);
            assert(out@ =~= b64_loose_bytes(sext@));
        }
    }
    Ok(out)
}

// ---------------------------------------------------------------------------
// Topic percent-encoding
// ---------------------------------------------------------------------------
/// A topic path with each `/` percent-encoded as `%2F`.
pub open spec fn encode_topic_view(s: Seq<char>) -> Seq<char>
    decreases s.len(),
{
    if s.len() == 0 {
        Seq::empty()
    } else {
        (if s[0] == '/' {
            "%2F"@
        } else {
            seq![s[0]]
        }) + encode_topic_view(s.drop_first())
    }
}

/// Percent-encode a topic for use as a URL path component.
pub fn encode_topic(topic: &str) -> (r: String)
    ensures
        r@ == encode_topic_view(topic@),
{
    let n = topic.unicode_len();
    let mut r = String::new();
    let mut i: usize = 0;
    proof {
        assert(topic@.skip(0) =~= topic@);
        assert(r@ + encode_topic_view(topic@) =~= encode_topic_view(topic@));
    }
    while i < n
        invariant
            i <= n,
            n == topic@.len(),
            r@ + encode_topic_view(topic@.skip(i as int)) == encode_topic_view(topic@),
        decreases n - i,
    {
        let c = topic.get_char(i);
        proof {
            let s = topic@.skip(i as int);
            assert(s[0] == topic@[i as int]);
            assert(s.drop_first() =~= topic@.skip(i as int + 1));
            reveal_strlit("%2F");
        }
        if c == '/' {
            push_char(&mut r, '%');
            push_char(&mut r, '2');
            push_char(&mut r, 'F');
        } else {
            push_char(&mut r, c);
        }
        i = i + 1;
    }
    proof {
        assert(topic@.skip(n as int) =~= Seq::<char>::empty());
    }
    r
}

// ---------------------------------------------------------------------------
// Trusted wrappers over the hex and base64 crates
// ---------------------------------------------------------------------------
/// Relies on `hex::encode`: lowercase hex, two digits per byte.
#[verifier::external_body]
pub fn hex_encode(data: &[u8]) -> (r: String)
    ensures
        r@ == hex_of(data@),
{
    hex::encode(data)
}

/// Relies on `hex::decode`: succeeds exactly on an even number of hex digits
/// of either case, yielding the denoted bytes.
#[verifier::external_body]
pub fn hex_decode(s: &str) -> (r: Result<Vec<u8>, A2AError>)
    ensures
        match hex_open(s@) {
            Option::Some(b) => r matches Ok(v) && v@ == b,
            Option::None => r is Err,
        },
{
    match hex::decode(s) {
        Ok(v) => Ok(v),
        Err(_) => Err(A2AError::Crypto),
    }
}

/// Relies on `base64::engine::general_purpose::STANDARD`'s `encode`:
/// canonical padded base64 of the input bytes.
#[verifier::external_body]
pub fn b64_encode(data: &[u8]) -> (r: String)
    ensures
        r@ == b64_of(data@),
{
    base64::Engine::encode(&base64::engine::general_purpose::STANDARD, data)
}

/// Relies on `base64::engine::general_purpose::STANDARD`'s `decode`: strict
/// canonical decoding (canonical padding required, no trailing bits), so it
/// succeeds exactly on strings `b64_of` produces.
#[verifier::external_body]
pub fn b64_decode(s: &str) -> (r: Result<Vec<u8>, A2AError>)
    ensures
        match b64_open(s@) {
            Option::Some(b) => r matches Ok(v) && v@ == b,
            Option::None => r is Err,
        },
{
    match base64::Engine::decode(&base64::engine::general_purpose::STANDARD, s) {
        Ok(v) => Ok(v),
        Err(_) => Err(A2AError::Crypto),
    }
}

} // verus!
