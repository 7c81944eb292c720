//! The JSON wire codec for objects.
//!
//! An object serialises to a JSON document whose keys are in lexicographic
//! order: binary values as base64 (standard alphabet) strings, strings as
//! UTF-8 with the quote, the backslash and control bytes escaped, fixed
//! numbers as decimal integers, and a dynamic number as its numeric string.
//! Reading a document back yields null, booleans, integers and strings; a
//! base64 string stays a string until a consumer requests its bytes view.
//!
//! The encoder and decoder are both proved against specification-level
//! functions, and the store round-trip law says that decoding an encoded
//! object restores it exactly.

use vstd::prelude::*;

use crate::ast::{
    entries_sorted, lemma_map_contains, lemma_sorted_implies_unique, seq_to_map, Binary, Number,
    NumberV, Object, Value, ValueV,
};
use crate::error::PipeError;
use crate::grammar::{B_SPACE, B_TAB};

verus! {

/// Byte values of JSON's terminal characters.
pub const B_DQUOTE: u8 = 34;

pub const B_BACKSLASH: u8 = 92;

pub const B_LBRACE: u8 = 123;

pub const B_RBRACE: u8 = 125;

pub const B_MINUS: u8 = 45;

pub const B_PLUS: u8 = 43;

pub const B_NL: u8 = 10;

pub const B_CR: u8 = 13;

pub const B_EQ_PAD: u8 = 61;

/// The lower-case hex digit of a value below 16.
pub open spec fn hex_digit(n: int) -> u8 {
    if n < 10 {
        (48 + n) as u8
    } else {
        (87 + n) as u8
    }
}

/// The escaping of one string byte: the quote and the backslash get a
/// backslash, control bytes become `\u00xy`, everything else passes
/// through.
pub open spec fn escape_byte(b: u8) -> Seq<u8> {
    if b == B_DQUOTE {
        seq![B_BACKSLASH, B_DQUOTE]
    } else if b == B_BACKSLASH {
        seq![B_BACKSLASH, B_BACKSLASH]
    } else if b < 32 {
        seq![B_BACKSLASH, crate::grammar::B_LU, crate::grammar::B_D0, crate::grammar::B_D0, hex_digit(b as int / 16), hex_digit(b as int % 16)]
    } else {
        seq![b]
    }
}

/// The escaped form of a string body.
pub open spec fn escape_bytes(s: Seq<u8>) -> Seq<u8>
    decreases s.len(),
{
    if s.len() == 0 {
        Seq::empty()
    } else {
        escape_byte(s[0]) + escape_bytes(s.drop_first())
    }
}

/// A quoted, escaped JSON string.
pub open spec fn encode_string(s: Seq<u8>) -> Seq<u8> {
    seq![B_DQUOTE] + escape_bytes(s) + seq![B_DQUOTE]
}

/// The decimal digits of a non-negative integer, most significant first.
pub open spec fn dec_digits(n: int) -> Seq<u8>
    decreases n,
{
    if n <= 0 {
        Seq::empty()
    } else {
        dec_digits(n / 10) + seq![(48 + n % 10) as u8]
    }
}

/// The decimal rendering of an integer.
pub open spec fn encode_int(n: int) -> Seq<u8> {
    if n == 0 {
        seq![crate::grammar::B_D0]
    } else if n < 0 {
        seq![B_MINUS] + dec_digits(-n)
    } else {
        dec_digits(n)
    }
}

/// The standard base64 alphabet, by index.
pub open spec fn b64_char(n: int) -> u8 {
    if n < 26 {
        (65 + n) as u8
    } else if n < 52 {
        (97 + (n - 26)) as u8
    } else if n < 62 {
        (48 + (n - 52)) as u8
    } else if n == 62 {
        B_PLUS
    } else {
        47u8
    }
}

/// Base64 (standard alphabet, padded) of a byte string, by groups of three
/// bytes from the front.
pub open spec fn base64_encode(s: Seq<u8>) -> Seq<u8>
    decreases s.len(),
{
    if s.len() == 0 {
        Seq::empty()
    } else if s.len() == 1 {
        let b0 = s[0] as int;
        seq![b64_char(b0 / 4), b64_char((b0 % 4) * 16), B_EQ_PAD, B_EQ_PAD]
    } else if s.len() == 2 {
        let b0 = s[0] as int;
        let b1 = s[1] as int;
        seq![b64_char(b0 / 4), b64_char((b0 % 4) * 16 + b1 / 16), b64_char((b1 % 16) * 4), B_EQ_PAD]
    } else {
        let b0 = s[0] as int;
        let b1 = s[1] as int;
        let b2 = s[2] as int;
        seq![
            b64_char(b0 / 4),
            b64_char((b0 % 4) * 16 + b1 / 16),
            b64_char((b1 % 16) * 4 + b2 / 64),
            b64_char(b2 % 64),
        ] + base64_encode(s.skip(3))
    }
}

/// One value on the wire.
pub open spec fn encode_value(v: ValueV) -> Seq<u8> {
    match v {
        ValueV::Null => seq![110u8, 117u8, 108u8, 108u8],
        ValueV::Bool(b) => if b {
            seq![116u8, 114u8, 117u8, 101u8]
        } else {
            seq![102u8, 97u8, 108u8, 115u8, 101u8]
        },
        ValueV::Number(NumberV::Fixed(n)) => encode_int(n),
        ValueV::Number(NumberV::Dynamic(s)) => encode_string(s),
        ValueV::Binary(b) => encode_string(base64_encode(b)),
        ValueV::Text(s) => encode_string(s),
    }
}

/// One member on the wire.
pub open spec fn encode_member(e: (Seq<u8>, ValueV)) -> Seq<u8> {
    encode_string(e.0) + seq![crate::grammar::B_COLON] + encode_value(e.1)
}

/// The members of an object, comma-separated, in entry order.
pub open spec fn encode_members(entries: Seq<(Seq<u8>, ValueV)>) -> Seq<u8>
    decreases entries.len(),
{
    if entries.len() == 0 {
        Seq::empty()
    } else if entries.len() == 1 {
        encode_member(entries[0])
    } else {
        encode_member(entries[0]) + seq![crate::grammar::B_COMMA] + encode_members(
            entries.drop_first(),
        )
    }
}

/// A whole object document, compact.
pub open spec fn encode_object(entries: Seq<(Seq<u8>, ValueV)>) -> Seq<u8> {
    seq![B_LBRACE] + encode_members(entries) + seq![B_RBRACE]
}

/// Appends the bytes of `src` to `out`.
fn push_all(out: &mut Vec<u8>, src: &Vec<u8>)
    ensures
        final(out)@ == old(out)@ + src@,
{
    let mut i: usize = 0;
    while i < src.len()
        invariant
            0 <= i <= src@.len(),
            out@ == old(out)@ + src@.take(i as int),
        decreases src@.len() - i,
    {
        out.push(src[i]);
        proof {
            assert(old(out)@ + src@.take(i + 1 as int) =~= (old(out)@ + src@.take(i as int)).push(
                src@[i as int],
            ));
        }
        i = i + 1;
    }
    proof {
        assert(src@.take(src@.len() as int) =~= src@);
    }
}

fn hex_digit_exec(n: u8) -> (r: u8)
    requires
        n < 16,
    ensures
        r == hex_digit(n as int),
{
    if n < 10 {
        48 + n
    } else {
        87 + n
    }
}

/// Appends the escaped form of a string body.
fn push_escaped(out: &mut Vec<u8>, s: &Vec<u8>)
    ensures
        final(out)@ == old(out)@ + escape_bytes(s@),
{
    let mut i: usize = 0;
    proof {
        assert(escape_prefix(s@, 0) =~= Seq::<u8>::empty());
    }
    while i < s.len()
        invariant
            0 <= i <= s@.len(),
            out@ == old(out)@ + escape_prefix(s@, i as int),
        decreases s@.len() - i,
    {
        let b = s[i];
        if b == B_DQUOTE {
            out.push(B_BACKSLASH);
            out.push(B_DQUOTE);
        } else if b == B_BACKSLASH {
            out.push(B_BACKSLASH);
            out.push(B_BACKSLASH);
        } else if b < 32 {
            out.push(B_BACKSLASH);
            out.push(crate::grammar::B_LU);
            out.push(crate::grammar::B_D0);
            out.push(crate::grammar::B_D0);
            out.push(hex_digit_exec(b / 16));
            out.push(hex_digit_exec(b % 16));
        } else {
            out.push(b);
        }
        proof {
            lemma_escape_prefix_step(s@, i as int);
            assert(out@ =~= old(out)@ + escape_prefix(s@, i + 1));
        }
        i = i + 1;
    }
    proof {
        lemma_escape_prefix_all(s@);
    }
}

/// The escaped form of the first `i` bytes.
pub open spec fn escape_prefix(s: Seq<u8>, i: int) -> Seq<u8> {
    escape_bytes(s.take(i))
}

proof fn lemma_escape_prefix_step(s: Seq<u8>, i: int)
    requires
        0 <= i < s.len(),
    ensures
        escape_prefix(s, i + 1) == escape_prefix(s, i) + escape_byte(s[i]),
    decreases i,
{
    lemma_escape_snoc(s.take(i + 1));
    assert(s.take(i + 1).drop_last() =~= s.take(i));
    assert(s.take(i + 1).last() == s[i]);
}

/// Escaping distributes over dropping the last byte.
proof fn lemma_escape_snoc(s: Seq<u8>)
    requires
        s.len() > 0,
    ensures
        escape_bytes(s) == escape_bytes(s.drop_last()) + escape_byte(s.last()),
    decreases s.len(),
{
    if s.len() == 1 {
        assert(s.drop_first() =~= Seq::<u8>::empty());
        assert(s.drop_last() =~= Seq::<u8>::empty());
        assert(escape_bytes(s.drop_last()) + escape_byte(s.last()) =~= escape_byte(s[0]));
        assert(escape_bytes(s) =~= escape_byte(s[0]) + escape_bytes(s.drop_first()));
        assert(escape_byte(s[0]) + escape_bytes(s.drop_first()) =~= escape_byte(s[0]));
    } else {
        lemma_escape_snoc(s.drop_first());
        assert(s.drop_first().drop_last() =~= s.drop_last().drop_first());
        assert(s.drop_first().last() == s.last());
        assert(s.drop_last().len() > 0);
        assert(s.drop_last()[0] == s[0]);
        assert(escape_bytes(s) == escape_byte(s[0]) + escape_bytes(s.drop_first()));
        assert(escape_bytes(s.drop_last()) == escape_byte(s[0]) + escape_bytes(
            s.drop_last().drop_first(),
        ));
        assert(escape_bytes(s) =~= escape_bytes(s.drop_last()) + escape_byte(s.last()));
    }
}

proof fn lemma_escape_prefix_all(s: Seq<u8>)
    ensures
        escape_prefix(s, s.len() as int) == escape_bytes(s),
{
    assert(s.take(s.len() as int) =~= s);
}

/// Appends a quoted, escaped JSON string.
fn push_string(out: &mut Vec<u8>, s: &Vec<u8>)
    ensures
        final(out)@ == old(out)@ + encode_string(s@),
{
    out.push(B_DQUOTE);
    push_escaped(out, s);
    out.push(B_DQUOTE);
    proof {
        assert(final(out)@ =~= old(out)@ + encode_string(s@));
    }
}

/// Appends the decimal rendering of an integer.
fn push_int(out: &mut Vec<u8>, n: i128)
    ensures
        final(out)@ == old(out)@ + encode_int(n as int),
{
    if n == 0 {
        out.push(crate::grammar::B_D0);
        proof {
            assert(final(out)@ =~= old(out)@ + encode_int(0));
        }
        return ;
    }
    let neg = n < 0;
    if neg {
        out.push(B_MINUS);
    }
    // The magnitude is taken in an unsigned word so that the smallest
    // representable number needs no negation of the whole value.
    let mut u: u128 = if n >= 0 {
        n as u128
    } else {
        ((-(n + 1)) as u128) + 1
    };
    let ghost mag: int = u as int;
    proof {
        assert(mag == if n as int >= 0 {
            n as int
        } else {
            -(n as int)
        });
    }
    let mut digits: Vec<u8> = Vec::new();
    while u != 0
        invariant
            dec_digits(mag) == dec_digits(u as int) + digits_reversed(digits@),
        decreases u,
    {
        let d: u8 = (u % 10) as u8;
        proof {
            assert(u as int > 0);
            assert(dec_digits(u as int) == dec_digits(u as int / 10) + seq![
                (48 + u as int % 10) as u8,
            ]);
            assert(digits@.push((48 + d) as u8).drop_last() =~= digits@);
            assert(digits@.push((48 + d) as u8).last() == (48 + d) as u8);
            assert(digits_reversed(digits@.push((48 + d) as u8)) == seq![(48 + d) as u8]
                + digits_reversed(digits@.push((48 + d) as u8).drop_last()));
            assert(digits_reversed(digits@.push((48 + d) as u8)) =~= seq![(48 + d) as u8]
                + digits_reversed(digits@));
            assert((48 + d) as u8 == (48 + u as int % 10) as u8);
            assert(dec_digits(mag) =~= dec_digits(u as int / 10) + digits_reversed(
                digits@.push((48 + d) as u8),
            ));
        }
        digits.push(48 + d);
        u = u / 10;
    }
    proof {
        assert(dec_digits(0) + digits_reversed(digits@) =~= digits_reversed(digits@));
        assert(digits_reversed(digits@.skip(digits@.len() as int)) =~= Seq::<u8>::empty());
    }
    let ghost base: Seq<u8> = if neg {
        old(out)@ + seq![B_MINUS]
    } else {
        old(out)@
    };
    let mut i = digits.len();
    while i > 0
        invariant
            0 <= i <= digits@.len(),
            base == if neg {
                old(out)@ + seq![B_MINUS]
            } else {
                old(out)@
            },
            out@ == base + digits_reversed(digits@.skip(i as int)),
        decreases i,
    {
        i = i - 1;
        out.push(digits[i]);
        proof {
            assert(digits@.skip(i as int) =~= seq![digits@[i as int]] + digits@.skip(i as int + 1));
            lemma_digits_reversed_cons(digits@[i as int], digits@.skip(i as int + 1));
            assert(out@ =~= base + digits_reversed(digits@.skip(i as int)));
        }
    }
    proof {
        assert(digits@.skip(0) =~= digits@);
        assert(digits_reversed(digits@) == dec_digits(mag));
        if neg {
            assert(out@ =~= old(out)@ + (seq![B_MINUS] + dec_digits(mag)));
        }
    }
}

/// Reversal moves a front byte to the back.
proof fn lemma_digits_reversed_cons(x: u8, rest: Seq<u8>)
    ensures
        digits_reversed(seq![x] + rest) == digits_reversed(rest).push(x),
    decreases rest.len(),
{
    let s = seq![x] + rest;
    if rest.len() == 0 {
        assert(s.len() == 1);
        assert(s.drop_last() =~= Seq::<u8>::empty());
        assert(s.last() == x);
        assert(digits_reversed(s) == seq![x] + digits_reversed(s.drop_last()));
        assert(digits_reversed(s.drop_last()) == Seq::<u8>::empty());
        assert(digits_reversed(rest) == Seq::<u8>::empty());
        assert(digits_reversed(s) =~= digits_reversed(rest).push(x));
    } else {
        assert(s.last() == rest.last());
        assert(s.drop_last() =~= seq![x] + rest.drop_last());
        lemma_digits_reversed_cons(x, rest.drop_last());
        assert(digits_reversed(s) == seq![s.last()] + digits_reversed(s.drop_last()));
        assert(digits_reversed(s.drop_last()) == digits_reversed(seq![x] + rest.drop_last()));
        assert(digits_reversed(rest) == seq![rest.last()] + digits_reversed(rest.drop_last()));
        assert(digits_reversed(s) =~= digits_reversed(rest).push(x));
    }
}

/// The digit bytes reversed: the wire order of a least-significant-first
/// digit list.
pub open spec fn digits_reversed(ds: Seq<u8>) -> Seq<u8>
    decreases ds.len(),
{
    if ds.len() == 0 {
        Seq::empty()
    } else {
        seq![ds.last()] + digits_reversed(ds.drop_last())
    }
}

fn b64_char_exec(n: u8) -> (r: u8)
    requires
        n < 64,
    ensures
        r == b64_char(n as int),
{
    if n < 26 {
        65 + n
    } else if n < 52 {
        97 + (n - 26)
    } else if n < 62 {
        48 + (n - 52)
    } else if n == 62 {
        B_PLUS
    } else {
        47
    }
}

/// Base64 (standard alphabet, padded) of a byte string.
pub fn base64_of(s: &Vec<u8>) -> (r: Vec<u8>)
    ensures
        r@ == base64_encode(s@),
{
    let mut out: Vec<u8> = Vec::new();
    let mut i: usize = 0;
    proof {
        assert(s@.skip(0) =~= s@);
        assert(out@ + base64_encode(s@.skip(0)) =~= base64_encode(s@));
    }
    while i <= s.len() && s.len() - i >= 3
        invariant
            0 <= i <= s@.len(),
            out@ + base64_encode(s@.skip(i as int)) == base64_encode(s@),
        decreases s@.len() - i,
    {
        let b0 = s[i];
        let b1 = s[i + 1];
        let b2 = s[i + 2];
        proof {
            assert(s@.skip(i as int)[0] == s@[i as int]);
            assert(s@.skip(i as int)[1] == s@[i + 1]);
            assert(s@.skip(i as int)[2] == s@[i + 2]);
            assert(s@.skip(i as int).skip(3) =~= s@.skip(i + 3));
        }
        out.push(b64_char_exec(b0 / 4));
        out.push(b64_char_exec((b0 % 4) * 16 + b1 / 16));
        out.push(b64_char_exec((b1 % 16) * 4 + b2 / 64));
        out.push(b64_char_exec(b2 % 64));
        proof {
            assert(out@ + base64_encode(s@.skip(i + 3)) =~= base64_encode(s@));
        }
        i = i + 3;
    }
    if s.len() - i == 1 {
        let b0 = s[i];
        proof {
            assert(s@.skip(i as int).len() == 1);
            assert(s@.skip(i as int)[0] == s@[i as int]);
        }
        out.push(b64_char_exec(b0 / 4));
        out.push(b64_char_exec((b0 % 4) * 16));
        out.push(B_EQ_PAD);
        out.push(B_EQ_PAD);
        proof {
            assert(out@ =~= base64_encode(s@));
        }
    } else if s.len() - i == 2 {
        let b0 = s[i];
        let b1 = s[i + 1];
        proof {
            assert(s@.skip(i as int).len() == 2);
            assert(s@.skip(i as int)[0] == s@[i as int]);
            assert(s@.skip(i as int)[1] == s@[i + 1]);
        }
        out.push(b64_char_exec(b0 / 4));
        out.push(b64_char_exec((b0 % 4) * 16 + b1 / 16));
        out.push(b64_char_exec((b1 % 16) * 4));
        out.push(B_EQ_PAD);
        proof {
            assert(out@ =~= base64_encode(s@));
        }
    } else {
        proof {
            assert(s@.skip(i as int).len() == 0);
            assert(out@ + base64_encode(s@.skip(i as int)) =~= out@);
        }
    }
    out
}

/// Appends one value on the wire.
fn push_value(out: &mut Vec<u8>, v: &Value)
    ensures
        final(out)@ == old(out)@ + encode_value(v@),
{
    match v {
        Value::Null => {
            out.push(110);
            out.push(117);
            out.push(108);
            out.push(108);
            proof {
                assert(out@ =~= old(out)@ + encode_value(ValueV::Null));
            }
        },
        Value::Bool(b) => {
            if *b {
                out.push(116);
                out.push(114);
                out.push(117);
                out.push(101);
            } else {
                out.push(102);
                out.push(97);
                out.push(108);
                out.push(115);
                out.push(101);
            }
            proof {
                assert(out@ =~= old(out)@ + encode_value(v@));
            }
        },
        Value::Number(Number::Fixed(n)) => {
            push_int(out, *n);
        },
        Value::Number(Number::Dynamic(s)) => {
            push_string(out, s);
        },
        Value::Binary(b) => {
            let text = base64_of(&b.0);
            push_string(out, &text);
        },
        Value::String(s) => {
            push_string(out, s);
        },
    }
}

/// Appending one more entry appends a comma (after a first entry) and the
/// member.
proof fn lemma_members_snoc(s: Seq<(Seq<u8>, ValueV)>, e: (Seq<u8>, ValueV))
    ensures
        s.len() == 0 ==> encode_members(s.push(e)) == encode_member(e),
        s.len() > 0 ==> encode_members(s.push(e)) == encode_members(s) + seq![
            crate::grammar::B_COMMA,
        ] + encode_member(e),
    decreases s.len(),
{
    let p = s.push(e);
    if s.len() == 0 {
        assert(p.len() == 1);
        assert(p[0] == e);
    } else {
        assert(p[0] == s[0]);
        assert(p.drop_first() =~= s.drop_first().push(e));
        lemma_members_snoc(s.drop_first(), e);
        if s.len() == 1 {
            assert(s.drop_first().len() == 0);
            assert(encode_members(p) == encode_member(p[0]) + seq![crate::grammar::B_COMMA]
                + encode_members(p.drop_first()));
            assert(encode_members(p) =~= encode_members(s) + seq![crate::grammar::B_COMMA]
                + encode_member(e));
        } else {
            assert(encode_members(p) == encode_member(p[0]) + seq![crate::grammar::B_COMMA]
                + encode_members(p.drop_first()));
            assert(encode_members(s) == encode_member(s[0]) + seq![crate::grammar::B_COMMA]
                + encode_members(s.drop_first()));
            assert(encode_members(p) =~= encode_members(s) + seq![crate::grammar::B_COMMA]
                + encode_member(e));
        }
    }
}

impl Object {
    /// The compact JSON document of this object.
    pub fn to_vec(&self) -> (r: Vec<u8>)
        ensures
            r@ == encode_object(self@),
    {
        let mut out: Vec<u8> = Vec::new();
        out.push(B_LBRACE);
        let mut i: usize = 0;
        proof {
            assert(self@.take(0) =~= Seq::<(Seq<u8>, ValueV)>::empty());
            assert(out@ =~= seq![B_LBRACE] + encode_members(self@.take(0)));
        }
        while i < self.len()
            invariant
                0 <= i <= self@.len(),
                out@ == seq![B_LBRACE] + encode_members(self@.take(i as int)),
            decreases self@.len() - i,
        {
            if i > 0 {
                out.push(crate::grammar::B_COMMA);
            }
            push_string(&mut out, self.key_at(i));
            out.push(crate::grammar::B_COLON);
            push_value(&mut out, self.value_at(i));
            proof {
                lemma_members_snoc(self@.take(i as int), self@[i as int]);
                assert(self@.take(i + 1) =~= self@.take(i as int).push(self@[i as int]));
                assert(out@ =~= seq![B_LBRACE] + encode_members(self@.take(i + 1)));
            }
            i = i + 1;
        }
        out.push(B_RBRACE);
        proof {
            assert(self@.take(self@.len() as int) =~= self@);
            assert(out@ =~= encode_object(self@));
        }
        out
    }

    /// The compact JSON document of this object.
    pub fn to_json(&self) -> (r: Vec<u8>)
        ensures
            r@ == encode_object(self@),
    {
        self.to_vec()
    }
}

/// One member of the pretty form: the key, a colon and a space, the value.
pub open spec fn pretty_member(e: (Seq<u8>, ValueV)) -> Seq<u8> {
    encode_string(e.0) + seq![crate::grammar::B_COLON, B_SPACE] + encode_value(e.1)
}

/// The members of the pretty form, each on an indented line.
pub open spec fn pretty_members(entries: Seq<(Seq<u8>, ValueV)>) -> Seq<u8>
    decreases entries.len(),
{
    if entries.len() == 0 {
        Seq::empty()
    } else if entries.len() == 1 {
        pretty_member(entries[0])
    } else {
        pretty_member(entries[0]) + seq![crate::grammar::B_COMMA, B_NL, B_SPACE, B_SPACE]
            + pretty_members(entries.drop_first())
    }
}

/// The pretty JSON document: members one per line, two-space indented.
pub open spec fn encode_pretty(entries: Seq<(Seq<u8>, ValueV)>) -> Seq<u8> {
    if entries.len() == 0 {
        seq![B_LBRACE, B_RBRACE]
    } else {
        seq![B_LBRACE, B_NL, B_SPACE, B_SPACE] + pretty_members(entries) + seq![B_NL, B_RBRACE]
    }
}

proof fn lemma_pretty_members_snoc(s: Seq<(Seq<u8>, ValueV)>, e: (Seq<u8>, ValueV))
    ensures
        s.len() == 0 ==> pretty_members(s.push(e)) == pretty_member(e),
        s.len() > 0 ==> pretty_members(s.push(e)) == pretty_members(s) + seq![
            crate::grammar::B_COMMA,
            B_NL,
            B_SPACE,
            B_SPACE,
        ] + pretty_member(e),
    decreases s.len(),
{
    let p = s.push(e);
    if s.len() == 0 {
        assert(p.len() == 1);
        assert(p[0] == e);
    } else {
        assert(p[0] == s[0]);
        assert(p.drop_first() =~= s.drop_first().push(e));
        lemma_pretty_members_snoc(s.drop_first(), e);
        if s.len() == 1 {
            assert(s.drop_first().len() == 0);
            assert(pretty_members(p) =~= pretty_members(s) + seq![
                crate::grammar::B_COMMA,
                B_NL,
                B_SPACE,
                B_SPACE,
            ] + pretty_member(e));
        } else {
            assert(pretty_members(p) =~= pretty_members(s) + seq![
                crate::grammar::B_COMMA,
                B_NL,
                B_SPACE,
                B_SPACE,
            ] + pretty_member(e));
        }
    }
}

impl Object {
    /// The pretty JSON document of this object: one member per line, two
    /// spaces of indent.
    pub fn to_string_pretty(&self) -> (r: Vec<u8>)
        ensures
            r@ == encode_pretty(self@),
    {
        if self.len() == 0 {
            let mut out: Vec<u8> = Vec::new();
            out.push(B_LBRACE);
            out.push(B_RBRACE);
            proof {
                assert(out@ =~= encode_pretty(self@));
            }
            return out;
        }
        let mut out: Vec<u8> = Vec::new();
        out.push(B_LBRACE);
        out.push(B_NL);
        out.push(B_SPACE);
        out.push(B_SPACE);
        let mut i: usize = 0;
        proof {
            assert(self@.take(0) =~= Seq::<(Seq<u8>, ValueV)>::empty());
            assert(out@ =~= seq![B_LBRACE, B_NL, B_SPACE, B_SPACE] + pretty_members(self@.take(0)));
        }
        while i < self.len()
            invariant
                0 <= i <= self@.len(),
                out@ == seq![B_LBRACE, B_NL, B_SPACE, B_SPACE] + pretty_members(
                    self@.take(i as int),
                ),
            decreases self@.len() - i,
        {
            if i > 0 {
                out.push(crate::grammar::B_COMMA);
                out.push(B_NL);
                out.push(B_SPACE);
                out.push(B_SPACE);
            }
            push_string(&mut out, self.key_at(i));
            out.push(crate::grammar::B_COLON);
            out.push(B_SPACE);
            push_value(&mut out, self.value_at(i));
            proof {
                lemma_pretty_members_snoc(self@.take(i as int), self@[i as int]);
                assert(self@.take(i + 1) =~= self@.take(i as int).push(self@[i as int]));
                assert(out@ =~= seq![B_LBRACE, B_NL, B_SPACE, B_SPACE] + pretty_members(
                    self@.take(i + 1),
                ));
            }
            i = i + 1;
        }
        out.push(B_NL);
        out.push(B_RBRACE);
        proof {
            assert(self@.take(self@.len() as int) =~= self@);
            assert(out@ =~= encode_pretty(self@));
        }
        out
    }
}

pub open spec fn is_json_ws(c: u8) -> bool {
    c == B_SPACE || c == B_TAB || c == B_NL || c == B_CR
}

/// First index at or after `i` holding a byte that is not JSON whitespace,
/// else the length.
pub open spec fn json_ws_end(s: Seq<u8>, i: int) -> int
    decreases s.len() - i,
{
    if i < 0 {
        0
    } else if i >= s.len() {
        s.len() as int
    } else if is_json_ws(s[i]) {
        json_ws_end(s, i + 1)
    } else {
        i
    }
}

pub open spec fn is_digit(c: u8) -> bool {
    48 <= c <= 57
}

/// First index at or after `i` holding a non-digit, else the length.
pub open spec fn digits_end(s: Seq<u8>, i: int) -> int
    decreases s.len() - i,
{
    if i < 0 {
        0
    } else if i >= s.len() {
        s.len() as int
    } else if is_digit(s[i]) {
        digits_end(s, i + 1)
    } else {
        i
    }
}

/// The value of the digit run `[i, j)`.
pub open spec fn dec_value(s: Seq<u8>, i: int, j: int) -> int
    decreases j - i,
{
    if i >= j {
        0
    } else {
        dec_value(s, i, j - 1) * 10 + (s[j - 1] - 48)
    }
}

pub open spec fn is_hex_byte(c: u8) -> bool {
    is_digit(c) || (97 <= c <= 102) || (65 <= c <= 70)
}

pub open spec fn hex_val(c: u8) -> int {
    if is_digit(c) {
        c - 48
    } else if 97 <= c <= 102 {
        c - 87
    } else {
        c - 55
    }
}

/// A string body from just after the opening quote to its closing quote:
/// the unescaped bytes and the index after the closing quote.
pub open spec fn spec_parse_str_body(s: Seq<u8>, i: int) -> Option<(Seq<u8>, int)>
    decreases s.len() - i,
{
    if i < 0 || i >= s.len() {
        None
    } else if s[i] == B_DQUOTE {
        Some((Seq::empty(), i + 1))
    } else if s[i] == B_BACKSLASH {
        if i + 2 > s.len() {
            None
        } else if s[i + 1] == B_DQUOTE || s[i + 1] == B_BACKSLASH {
            match spec_parse_str_body(s, i + 2) {
                Some((rest, e)) => Some((seq![s[i + 1]] + rest, e)),
                None => None,
            }
        } else if s[i + 1] == crate::grammar::B_LU {
            if i + 6 > s.len() {
                None
            } else if is_hex_byte(s[i + 2]) && is_hex_byte(s[i + 3]) && is_hex_byte(s[i + 4])
                && is_hex_byte(s[i + 5]) {
                let v = ((hex_val(s[i + 2]) * 16 + hex_val(s[i + 3])) * 16 + hex_val(s[i + 4]))
                    * 16 + hex_val(s[i + 5]);
                if v < 256 {
                    match spec_parse_str_body(s, i + 6) {
                        Some((rest, e)) => Some((seq![v as u8] + rest, e)),
                        None => None,
                    }
                } else {
                    None
                }
            } else {
                None
            }
        } else {
            None
        }
    } else {
        match spec_parse_str_body(s, i + 1) {
            Some((rest, e)) => Some((seq![s[i]] + rest, e)),
            None => None,
        }
    }
}

/// A quoted string starting at `i`.
pub open spec fn spec_parse_json_string(s: Seq<u8>, i: int) -> Option<(Seq<u8>, int)> {
    if 0 <= i < s.len() && s[i] == B_DQUOTE {
        spec_parse_str_body(s, i + 1)
    } else {
        None
    }
}

/// An integer starting at `i`: an optional minus sign and a digit run whose
/// value fits a 128-bit signed word.
pub open spec fn spec_parse_json_number(s: Seq<u8>, i: int) -> Option<(int, int)> {
    if 0 <= i < s.len() && s[i] == B_MINUS {
        let j = digits_end(s, i + 1);
        if j == i + 1 || j > s.len() {
            None
        } else {
            let v = dec_value(s, i + 1, j);
            if -v < i128::MIN {
                None
            } else {
                Some((-v, j))
            }
        }
    } else {
        let j = digits_end(s, i);
        if i < 0 || j == i || j > s.len() {
            None
        } else {
            let v = dec_value(s, i, j);
            if v > i128::MAX {
                None
            } else {
                Some((v, j))
            }
        }
    }
}

/// A value starting at `i`: a string, `null`, `true`, `false` or an
/// integer. Anything else — in particular a fraction or an exponent — is
/// not part of the codec.
pub open spec fn spec_parse_json_value(s: Seq<u8>, i: int) -> Option<(ValueV, int)> {
    if i < 0 || i >= s.len() {
        None
    } else if s[i] == B_DQUOTE {
        match spec_parse_json_string(s, i) {
            Some((t, e)) => Some((ValueV::Text(t), e)),
            None => None,
        }
    } else if s[i] == 110 {
        if i + 4 <= s.len() && s[i + 1] == 117 && s[i + 2] == 108 && s[i + 3] == 108 {
            Some((ValueV::Null, i + 4))
        } else {
            None
        }
    } else if s[i] == 116 {
        if i + 4 <= s.len() && s[i + 1] == 114 && s[i + 2] == 117 && s[i + 3] == 101 {
            Some((ValueV::Bool(true), i + 4))
        } else {
            None
        }
    } else if s[i] == 102 {
        if i + 5 <= s.len() && s[i + 1] == 97 && s[i + 2] == 108 && s[i + 3] == 115 && s[i + 4]
            == 101 {
            Some((ValueV::Bool(false), i + 5))
        } else {
            None
        }
    } else if s[i] == B_MINUS || is_digit(s[i]) {
        match spec_parse_json_number(s, i) {
            Some((n, e)) => Some((ValueV::Number(NumberV::Fixed(n)), e)),
            None => None,
        }
    } else {
        None
    }
}

/// The members of a document from the first key on, consuming the closing
/// brace.
pub open spec fn spec_parse_members(s: Seq<u8>, i: int) -> Option<(Seq<(Seq<u8>, ValueV)>, int)>
    decreases s.len() - i,
{
    match spec_parse_json_string(s, i) {
        None => None,
        Some((k, a)) => if a <= i || a > s.len() {
            None
        } else {
            let b = json_ws_end(s, a);
            if b >= s.len() || s[b] != crate::grammar::B_COLON {
                None
            } else {
                let c = json_ws_end(s, b + 1);
                match spec_parse_json_value(s, c) {
                    None => None,
                    Some((v, d)) => if d > s.len() {
                        None
                    } else {
                        let e = json_ws_end(s, d);
                        if e >= s.len() {
                            None
                        } else if s[e] == crate::grammar::B_COMMA {
                            let f = json_ws_end(s, e + 1);
                            if f <= i || f > s.len() {
                                None
                            } else {
                                match spec_parse_members(s, f) {
                                    Some((rest, g)) => Some((seq![(k, v)] + rest, g)),
                                    None => None,
                                }
                            }
                        } else if s[e] == B_RBRACE {
                            Some((seq![(k, v)], e + 1))
                        } else {
                            None
                        }
                    },
                }
            }
        },
    }
}

/// A whole document: one object, optionally surrounded by whitespace.
pub open spec fn spec_parse_object(s: Seq<u8>) -> Option<Seq<(Seq<u8>, ValueV)>> {
    let i = json_ws_end(s, 0);
    if i >= s.len() || s[i] != B_LBRACE {
        None
    } else {
        let j = json_ws_end(s, i + 1);
        if j < s.len() && s[j] == B_RBRACE {
            if json_ws_end(s, j + 1) == s.len() {
                Some(Seq::empty())
            } else {
                None
            }
        } else {
            match spec_parse_members(s, j) {
                Some((es, e)) => if json_ws_end(s, e) == s.len() {
                    Some(es)
                } else {
                    None
                },
                None => None,
            }
        }
    }
}

/// Folds decoded members into a key/value map in text order, a later
/// duplicate key overriding an earlier one — the reader's collision rule.
pub open spec fn json_fold(m: Map<Seq<u8>, ValueV>, es: Seq<(Seq<u8>, ValueV)>) -> Map<
    Seq<u8>,
    ValueV,
>
    decreases es.len(),
{
    if es.len() == 0 {
        m
    } else {
        json_fold(m.insert(es[0].0, es[0].1), es.drop_first())
    }
}

/// The values the codec round-trips exactly: null, booleans, fixed
/// integers and strings. A binary value comes back as its base64 string, a
/// dynamic number as its numeric string; both stay strings until a consumer
/// asks for more.
pub open spec fn codec_value_supported(v: ValueV) -> bool {
    match v {
        ValueV::Null => true,
        ValueV::Bool(_) => true,
        ValueV::Number(NumberV::Fixed(n)) => i128::MIN <= n <= i128::MAX,
        ValueV::Number(NumberV::Dynamic(_)) => false,
        ValueV::Binary(_) => false,
        ValueV::Text(_) => true,
    }
}

pub open spec fn codec_supported(entries: Seq<(Seq<u8>, ValueV)>) -> bool {
    forall|j: int| 0 <= j < entries.len() ==> codec_value_supported((#[trigger] entries[j]).1)
}

/// Scanning stops exactly at the first non-digit after a digit run.
proof fn lemma_digits_end_hit(s: Seq<u8>, i: int, p: int)
    requires
        0 <= i <= p <= s.len(),
        forall|k: int| i <= k < p ==> is_digit(#[trigger] s[k]),
        p == s.len() || !is_digit(s[p]),
    ensures
        digits_end(s, i) == p,
    decreases p - i,
{
    if i < p {
        lemma_digits_end_hit(s, i + 1, p);
    }
}

/// Every byte of a decimal rendering is a digit.
proof fn lemma_dec_digits_are_digits(n: int)
    requires
        n >= 0,
    ensures
        forall|k: int| 0 <= k < dec_digits(n).len() ==> is_digit(#[trigger] dec_digits(n)[k]),
        n > 0 ==> dec_digits(n).len() > 0,
    decreases n,
{
    if n > 0 {
        lemma_dec_digits_are_digits(n / 10);
        assert forall|k: int| 0 <= k < dec_digits(n).len() implies is_digit(
            #[trigger] dec_digits(n)[k],
        ) by {
            if k < dec_digits(n / 10).len() {
                assert(dec_digits(n)[k] == dec_digits(n / 10)[k]);
            } else {
                assert(dec_digits(n)[k] == (48 + n % 10) as u8);
            }
        }
    }
}

/// Reading back a decimal rendering restores its value.
proof fn lemma_dec_value_of_digits(s: Seq<u8>, i: int, n: int)
    requires
        n >= 0,
        0 <= i,
        i + dec_digits(n).len() <= s.len(),
        s.subrange(i, i + dec_digits(n).len() as int) == dec_digits(n),
    ensures
        dec_value(s, i, i + dec_digits(n).len() as int) == n,
    decreases n,
{
    let d = dec_digits(n);
    if n == 0 {
        assert(d.len() == 0);
    } else {
        let dd = dec_digits(n / 10);
        assert(d == dd + seq![(48 + n % 10) as u8]);
        assert(s.subrange(i, i + dd.len() as int) =~= dd) by {
            assert forall|k: int| 0 <= k < dd.len() implies s.subrange(i, i + dd.len() as int)[k]
                == dd[k] by {
                assert(s.subrange(i, i + d.len() as int)[k] == d[k]);
                assert(d[k] == dd[k]);
            }
        }
        lemma_dec_value_of_digits(s, i, n / 10);
        let j = i + d.len() as int;
        assert(s[j - 1] == d[d.len() - 1]) by {
            assert(s.subrange(i, i + d.len() as int)[d.len() - 1] == d[d.len() - 1]);
        }
        assert(d[d.len() - 1] == (48 + n % 10) as u8);
        assert(dec_value(s, i, j) == dec_value(s, i, j - 1) * 10 + (s[j - 1] - 48));
    }
}

/// Reading back the rendering of an integer restores it, provided the next
/// byte does not extend the digit run.
proof fn lemma_parse_number_round_trip(s: Seq<u8>, i: int, n: int)
    requires
        i128::MIN <= n <= i128::MAX,
        0 <= i,
        i + encode_int(n).len() <= s.len(),
        s.subrange(i, i + encode_int(n).len() as int) == encode_int(n),
        i + encode_int(n).len() == s.len() || !is_digit(s[i + encode_int(n).len()]),
    ensures
        spec_parse_json_number(s, i) == Some((n, i + encode_int(n).len() as int)),
{
    let e = encode_int(n);
    let end = i + e.len() as int;
    assert forall|k: int| i <= k < end implies s[k] == e[k - i] by {
        assert(s.subrange(i, end)[k - i] == e[k - i]);
    }
    if n == 0 {
        assert(s[i] == 48);
        lemma_digits_end_hit(s, i, i + 1);
        assert(dec_value(s, i, i + 1) == dec_value(s, i, i) * 10 + (s[i] - 48));
    } else if n > 0 {
        lemma_dec_digits_are_digits(n);
        assert(s[i] == e[0]);
        assert(is_digit(s[i]));
        assert(s[i] != B_MINUS);
        assert forall|k: int| i <= k < end implies is_digit(#[trigger] s[k]) by {
            assert(s[k] == e[k - i]);
        }
        lemma_digits_end_hit(s, i, end);
        assert(s.subrange(i, i + dec_digits(n).len() as int) =~= dec_digits(n));
        lemma_dec_value_of_digits(s, i, n);
    } else {
        let m = -n;
        assert(e == seq![B_MINUS] + dec_digits(m));
        assert(s[i] == B_MINUS);
        lemma_dec_digits_are_digits(m);
        assert forall|k: int| i + 1 <= k < end implies is_digit(#[trigger] s[k]) by {
            assert(s[k] == e[k - i]);
            assert(e[k - i] == dec_digits(m)[k - i - 1]);
        }
        lemma_digits_end_hit(s, i + 1, end);
        assert(s.subrange(i + 1, i + 1 + dec_digits(m).len() as int) =~= dec_digits(m)) by {
            assert forall|k: int| 0 <= k < dec_digits(m).len() implies s.subrange(
                i + 1,
                i + 1 + dec_digits(m).len() as int,
            )[k] == dec_digits(m)[k] by {
                assert(s[i + 1 + k] == e[1 + k]);
                assert(e[1 + k] == dec_digits(m)[k]);
            }
        }
        lemma_dec_value_of_digits(s, i + 1, m);
        assert(end > i + 1) by {
            assert(dec_digits(m).len() > 0);
        }
        assert(dec_value(s, i + 1, end) == m);
    }
}

/// A value below sixteen reads back from its hex digit.
proof fn lemma_hex_digit_inverse(m: int)
    requires
        0 <= m < 16,
    ensures
        is_hex_byte(hex_digit(m)),
        hex_val(hex_digit(m)) == m,
{
}

/// Reading back an escaped string body stops at the closing quote and
/// restores the original bytes.
proof fn lemma_parse_str_body_round_trip(s: Seq<u8>, i: int, x: Seq<u8>)
    requires
        0 <= i,
        i + escape_bytes(x).len() + 1 <= s.len(),
        s.subrange(i, i + escape_bytes(x).len() as int) == escape_bytes(x),
        s[i + escape_bytes(x).len()] == B_DQUOTE,
    ensures
        spec_parse_str_body(s, i) == Some((x, i + escape_bytes(x).len() + 1)),
    decreases x.len(),
{
    let e = escape_bytes(x);
    assert forall|k: int| i <= k < i + e.len() implies s[k] == e[k - i] by {
        assert(s.subrange(i, i + e.len() as int)[k - i] == e[k - i]);
    }
    if x.len() == 0 {
        assert(s[i] == B_DQUOTE);
    } else {
        let b = x[0];
        let eb = escape_byte(b);
        let rest = escape_bytes(x.drop_first());
        assert(e == eb + rest);
        let i2 = i + eb.len() as int;
        assert(s.subrange(i2, i2 + rest.len() as int) =~= rest) by {
            assert forall|k: int| 0 <= k < rest.len() implies s.subrange(
                i2,
                i2 + rest.len() as int,
            )[k] == rest[k] by {
                assert(s[i2 + k] == e[eb.len() + k]);
                assert(e[eb.len() + k] == rest[k]);
            }
        }
        assert(s[i2 + rest.len()] == B_DQUOTE);
        lemma_parse_str_body_round_trip(s, i2, x.drop_first());
        if b == B_DQUOTE {
            assert(s[i] == B_BACKSLASH);
            assert(s[i + 1] == B_DQUOTE);
            assert(seq![s[i + 1]] + x.drop_first() =~= x);
        } else if b == B_BACKSLASH {
            assert(s[i] == B_BACKSLASH);
            assert(s[i + 1] == B_BACKSLASH);
            assert(seq![s[i + 1]] + x.drop_first() =~= x);
        } else if b < 32 {
            assert(s[i] == B_BACKSLASH);
            assert(s[i + 1] == crate::grammar::B_LU);
            assert(s[i + 2] == crate::grammar::B_D0);
            assert(s[i + 3] == crate::grammar::B_D0);
            assert(s[i + 4] == hex_digit(b as int / 16));
            assert(s[i + 5] == hex_digit(b as int % 16));
            lemma_hex_digit_inverse(b as int / 16);
            lemma_hex_digit_inverse(b as int % 16);
            assert(hex_val(crate::grammar::B_D0) == 0);
            let v = ((hex_val(s[i + 2]) * 16 + hex_val(s[i + 3])) * 16 + hex_val(s[i + 4])) * 16
                + hex_val(s[i + 5]);
            assert(v == (b as int / 16) * 16 + b as int % 16);
            assert(v == b as int);
            assert(seq![v as u8] + x.drop_first() =~= x);
        } else {
            assert(s[i] == b);
            assert(b != B_DQUOTE && b != B_BACKSLASH);
            assert(seq![s[i]] + x.drop_first() =~= x);
        }
    }
}

/// Reading back an encoded string restores it.
proof fn lemma_parse_string_round_trip(s: Seq<u8>, i: int, x: Seq<u8>)
    requires
        0 <= i,
        i + encode_string(x).len() <= s.len(),
        s.subrange(i, i + encode_string(x).len() as int) == encode_string(x),
    ensures
        spec_parse_json_string(s, i) == Some((x, i + encode_string(x).len() as int)),
{
    let e = encode_string(x);
    assert forall|k: int| i <= k < i + e.len() implies s[k] == e[k - i] by {
        assert(s.subrange(i, i + e.len() as int)[k - i] == e[k - i]);
    }
    assert(s[i] == B_DQUOTE);
    assert(s.subrange(i + 1, i + 1 + escape_bytes(x).len() as int) =~= escape_bytes(x)) by {
        assert forall|k: int| 0 <= k < escape_bytes(x).len() implies s.subrange(
            i + 1,
            i + 1 + escape_bytes(x).len() as int,
        )[k] == escape_bytes(x)[k] by {
            assert(s[i + 1 + k] == e[1 + k]);
            assert(e[1 + k] == escape_bytes(x)[k]);
        }
    }
    assert(s[i + 1 + escape_bytes(x).len()] == B_DQUOTE) by {
        assert(e[e.len() - 1] == B_DQUOTE);
    }
    lemma_parse_str_body_round_trip(s, i + 1, x);
}

/// Reading back an encoded supported value restores it, provided the next
/// byte does not extend a digit run.
proof fn lemma_parse_value_round_trip(s: Seq<u8>, i: int, v: ValueV)
    requires
        codec_value_supported(v),
        0 <= i,
        i + encode_value(v).len() <= s.len(),
        s.subrange(i, i + encode_value(v).len() as int) == encode_value(v),
        i + encode_value(v).len() == s.len() || !is_digit(s[i + encode_value(v).len()]),
    ensures
        spec_parse_json_value(s, i) == Some((v, i + encode_value(v).len() as int)),
{
    let e = encode_value(v);
    assert forall|k: int| i <= k < i + e.len() implies s[k] == e[k - i] by {
        assert(s.subrange(i, i + e.len() as int)[k - i] == e[k - i]);
    }
    match v {
        ValueV::Null => {
            assert(s[i] == 110 && s[i + 1] == 117 && s[i + 2] == 108 && s[i + 3] == 108);
        },
        ValueV::Bool(b) => {
            if b {
                assert(s[i] == 116 && s[i + 1] == 114 && s[i + 2] == 117 && s[i + 3] == 101);
            } else {
                assert(s[i] == 102 && s[i + 1] == 97 && s[i + 2] == 108 && s[i + 3] == 115 && s[i
                    + 4] == 101);
            }
        },
        ValueV::Number(NumberV::Fixed(n)) => {
            lemma_parse_number_round_trip(s, i, n);
            if n == 0 {
                assert(s[i] == 48);
            } else if n > 0 {
                lemma_dec_digits_are_digits(n);
                assert(s[i] == e[0]);
                assert(is_digit(s[i]));
            } else {
                assert(s[i] == B_MINUS);
            }
        },
        ValueV::Number(NumberV::Dynamic(_)) => {},
        ValueV::Binary(_) => {},
        ValueV::Text(t) => {
            assert(s[i] == B_DQUOTE);
            lemma_parse_string_round_trip(s, i, t);
        },
    }
}

/// Reading back encoded members followed by the closing brace restores
/// them, consuming the brace.
#[verifier::rlimit(60)]
proof fn lemma_parse_members_round_trip(s: Seq<u8>, i: int, entries: Seq<(Seq<u8>, ValueV)>)
    requires
        entries.len() > 0,
        codec_supported(entries),
        0 <= i,
        i + encode_members(entries).len() + 1 <= s.len(),
        s.subrange(i, i + encode_members(entries).len() as int) == encode_members(entries),
        s[i + encode_members(entries).len()] == B_RBRACE,
    ensures
        spec_parse_members(s, i) == Some((entries, i + encode_members(entries).len() + 1)),
    decreases entries.len(),
{
    let e = encode_members(entries);
    assert forall|k: int| i <= k < i + e.len() implies s[k] == e[k - i] by {
        assert(s.subrange(i, i + e.len() as int)[k - i] == e[k - i]);
    }
    let key = entries[0].0;
    let val = entries[0].1;
    let ks = encode_string(key);
    let vs = encode_value(val);
    let member = encode_member(entries[0]);
    assert(member == ks + seq![crate::grammar::B_COLON] + vs);
    // The member is a prefix of the members text in both the one-entry and
    // the many-entry form.
    assert forall|k: int| 0 <= k < member.len() implies e[k] == member[k] by {
        if entries.len() == 1 {
        } else {
            assert(e == member + seq![crate::grammar::B_COMMA] + encode_members(
                entries.drop_first(),
            ));
        }
    }
    // Key.
    assert(s.subrange(i, i + ks.len() as int) =~= ks) by {
        assert forall|k: int| 0 <= k < ks.len() implies s.subrange(i, i + ks.len() as int)[k]
            == ks[k] by {
            assert(s[i + k] == e[k]);
            assert(member[k] == ks[k]);
        }
    }
    lemma_parse_string_round_trip(s, i, key);
    let a = i + ks.len() as int;
    // Colon, unpadded.
    assert(s[a] == crate::grammar::B_COLON) by {
        assert(member[ks.len() as int] == crate::grammar::B_COLON);
    }
    assert(json_ws_end(s, a) == a);
    let c = a + 1;
    assert(json_ws_end(s, c) == c) by {
        assert(s[c] == member[ks.len() as int + 1]);
        assert(member[ks.len() as int + 1] == vs[0]);
        assert(vs.len() > 0) by {
            lemma_encode_value_nonempty(val);
        }
        assert(!is_json_ws(s[c])) by {
            lemma_encode_value_head(val);
        }
    }
    // Value.
    assert(s.subrange(c, c + vs.len() as int) =~= vs) by {
        assert forall|k: int| 0 <= k < vs.len() implies s.subrange(c, c + vs.len() as int)[k]
            == vs[k] by {
            assert(s[c + k] == e[ks.len() + 1 + k]);
            assert(member[ks.len() + 1 + k] == vs[k]);
        }
    }
    let d = c + vs.len() as int;
    // The byte after the value is a comma or the closing brace.
    let after: u8 = if entries.len() == 1 {
        B_RBRACE
    } else {
        crate::grammar::B_COMMA
    };
    assert(s[d] == after) by {
        if entries.len() == 1 {
            assert(d == i + e.len() as int);
        } else {
            assert(e[member.len() as int] == crate::grammar::B_COMMA);
        }
    }
    lemma_parse_value_round_trip(s, c, val);
    assert(json_ws_end(s, d) == d);
    if entries.len() == 1 {
        assert(spec_parse_members(s, i) == Some((seq![(key, val)], d + 1)));
        assert(seq![(key, val)] =~= entries);
    } else {
        let f = d + 1;
        let rest = entries.drop_first();
        let re = encode_members(rest);
        assert(e == member + seq![crate::grammar::B_COMMA] + re);
        assert(s.subrange(f, f + re.len() as int) =~= re) by {
            assert forall|k: int| 0 <= k < re.len() implies s.subrange(f, f + re.len() as int)[k]
                == re[k] by {
                assert(s[f + k] == e[member.len() + 1 + k]);
                assert(e[member.len() + 1 + k] == re[k]);
            }
        }
        assert(s[f + re.len()] == B_RBRACE) by {
            assert(f + re.len() == i + e.len());
        }
        assert(rest.len() > 0);
        lemma_parse_members_round_trip(s, f, rest);
        assert(json_ws_end(s, f) == f) by {
            assert(s[f] == re[0]);
            assert(re[0] == encode_string(rest[0].0)[0]) by {
                lemma_encode_members_head(rest);
            }
            assert(encode_string(rest[0].0)[0] == B_DQUOTE);
        }
        assert(spec_parse_members(s, i) == Some((seq![(key, val)] + rest, i + e.len() + 1)));
        assert(seq![(key, val)] + rest =~= entries);
    }
}

/// An encoded value is never empty.
proof fn lemma_encode_value_nonempty(v: ValueV)
    ensures
        encode_value(v).len() > 0,
{
    match v {
        ValueV::Number(NumberV::Fixed(n)) => {
            if n > 0 {
                lemma_dec_digits_are_digits(n);
            } else if n < 0 {
                lemma_dec_digits_are_digits(-n);
            }
        },
        _ => {},
    }
}

/// An encoded value never begins with whitespace.
proof fn lemma_encode_value_head(v: ValueV)
    ensures
        encode_value(v).len() > 0 && !is_json_ws(encode_value(v)[0]),
{
    lemma_encode_value_nonempty(v);
    match v {
        ValueV::Number(NumberV::Fixed(n)) => {
            if n > 0 {
                lemma_dec_digits_are_digits(n);
                assert(is_digit(encode_value(v)[0]));
            } else if n < 0 {
            }
        },
        _ => {},
    }
}

/// Encoded members begin with the first key's opening quote.
proof fn lemma_encode_members_head(entries: Seq<(Seq<u8>, ValueV)>)
    requires
        entries.len() > 0,
    ensures
        encode_members(entries).len() > 0,
        encode_members(entries)[0] == encode_string(entries[0].0)[0],
{
    let member = encode_member(entries[0]);
    assert(member[0] == encode_string(entries[0].0)[0]);
    if entries.len() == 1 {
    } else {
        assert(encode_members(entries)[0] == member[0]);
    }
}

/// Store round-trip: reading back the encoded document of an object whose
/// values the codec supports restores exactly the object's entries — and,
/// with the entry keys unique, folding them back rebuilds the object's map.
/// Together with the contracts of `to_vec` and `from_slice`, decoding an
/// encoded object restores it.
pub proof fn lemma_store_round_trip(entries: Seq<(Seq<u8>, ValueV)>)
    requires
        entries_sorted(entries),
        codec_supported(entries),
    ensures
        spec_parse_object(encode_object(entries)) == Some(entries),
        json_fold(Map::empty(), entries) == seq_to_map(entries),
{
    let s = encode_object(entries);
    let e = encode_members(entries);
    assert(s[0] == B_LBRACE);
    assert(json_ws_end(s, 0) == 0);
    if entries.len() == 0 {
        assert(s.len() == 2);
        assert(s[1] == B_RBRACE);
        assert(json_ws_end(s, 1) == 1);
        assert(json_ws_end(s, 2) == 2);
        assert(Seq::<(Seq<u8>, ValueV)>::empty() =~= entries);
    } else {
        assert(s.subrange(1, 1 + e.len() as int) =~= e) by {
            assert forall|k: int| 0 <= k < e.len() implies s.subrange(1, 1 + e.len() as int)[k]
                == e[k] by {
                assert(s[1 + k] == e[k]);
            }
        }
        assert(s[1 + e.len() as int] == B_RBRACE);
        lemma_parse_members_round_trip(s, 1, entries);
        assert(json_ws_end(s, 1) == 1) by {
            lemma_encode_members_head(entries);
            assert(s[1] == e[0]);
            assert(e[0] == encode_string(entries[0].0)[0]);
        }
        assert(s[1] != B_RBRACE) by {
            assert(s[1] == B_DQUOTE) by {
                lemma_encode_members_head(entries);
            }
        }
        assert(json_ws_end(s, s.len() as int) == s.len());
    }
    lemma_sorted_implies_unique(entries);
    lemma_json_fold_agrees(Map::empty(), entries);
    assert(Map::<Seq<u8>, ValueV>::empty().union_prefer_right(seq_to_map(entries)) =~= seq_to_map(
        entries,
    ));
}

/// With unique keys, folding entries from the front over a base map is the
/// base map overridden by the entries' map.
proof fn lemma_json_fold_agrees(m: Map<Seq<u8>, ValueV>, entries: Seq<(Seq<u8>, ValueV)>)
    requires
        crate::ast::keys_unique(entries),
    ensures
        json_fold(m, entries) == m.union_prefer_right(seq_to_map(entries)),
    decreases entries.len(),
{
    if entries.len() == 0 {
        assert(m.union_prefer_right(seq_to_map(entries)) =~= m);
    } else {
        let k0 = entries[0].0;
        let v0 = entries[0].1;
        let rest = entries.drop_first();
        assert(crate::ast::keys_unique(rest)) by {
            assert forall|a: int, b: int| 0 <= a < b < rest.len() implies (#[trigger] rest[a]).0
                != (#[trigger] rest[b]).0 by {
                assert(rest[a] == entries[a + 1]);
                assert(rest[b] == entries[b + 1]);
            }
        }
        lemma_json_fold_agrees(m.insert(k0, v0), rest);
        lemma_seq_to_map_cons(entries);
        assert(m.insert(k0, v0).union_prefer_right(seq_to_map(rest)) =~= m.union_prefer_right(
            seq_to_map(entries),
        )) by {
            lemma_map_contains(rest, k0);
            assert(!seq_to_map(rest).contains_key(k0)) by {
                if seq_to_map(rest).contains_key(k0) {
                    let j = choose|j: int| 0 <= j < rest.len() && (#[trigger] rest[j].0) == k0;
                    assert(entries[j + 1].0 == k0);
                }
            }
        }
    }
}

/// With its first key absent from the rest, an entry sequence's map is the
/// rest's map with the first binding added.
proof fn lemma_seq_to_map_cons(entries: Seq<(Seq<u8>, ValueV)>)
    requires
        entries.len() > 0,
        forall|j: int| 1 <= j < entries.len() ==> (#[trigger] entries[j]).0 != entries[0].0,
    ensures
        seq_to_map(entries) == seq_to_map(entries.drop_first()).insert(
            entries[0].0,
            entries[0].1,
        ),
    decreases entries.len(),
{
    if entries.len() == 1 {
        assert(entries.drop_last() =~= Seq::<(Seq<u8>, ValueV)>::empty());
        assert(entries.drop_first() =~= Seq::<(Seq<u8>, ValueV)>::empty());
        assert(entries.last() == entries[0]);
        assert(seq_to_map(entries) =~= seq_to_map(entries.drop_first()).insert(
            entries[0].0,
            entries[0].1,
        ));
    } else {
        let dl = entries.drop_last();
        assert(dl[0] == entries[0]);
        assert(forall|j: int| 1 <= j < dl.len() ==> (#[trigger] dl[j]).0 != dl[0].0);
        lemma_seq_to_map_cons(dl);
        assert(dl.drop_first() =~= entries.drop_first().drop_last());
        assert(entries.last() == entries.drop_first().last());
        assert(entries.last().0 != entries[0].0);
        assert(seq_to_map(entries) == seq_to_map(dl).insert(entries.last().0, entries.last().1));
        assert(seq_to_map(entries.drop_first()) == seq_to_map(
            entries.drop_first().drop_last(),
        ).insert(entries.last().0, entries.last().1));
        assert(seq_to_map(entries) =~= seq_to_map(entries.drop_first()).insert(
            entries[0].0,
            entries[0].1,
        ));
    }
}

fn skip_jws(s: &Vec<u8>, i: usize) -> (r: usize)
    requires
        i <= s@.len(),
    ensures
        r == json_ws_end(s@, i as int),
        i <= r <= s@.len(),
{
    let mut j = i;
    while j < s.len() && (s[j] == B_SPACE || s[j] == B_TAB || s[j] == B_NL || s[j] == B_CR)
        invariant
            i <= j <= s@.len(),
            json_ws_end(s@, i as int) == json_ws_end(s@, j as int),
        decreases s@.len() - j,
    {
        j = j + 1;
    }
    j
}

fn scan_digits(s: &Vec<u8>, i: usize) -> (r: usize)
    requires
        i <= s@.len(),
    ensures
        r == digits_end(s@, i as int),
        i <= r <= s@.len(),
{
    let mut j = i;
    while j < s.len() && 48 <= s[j] && s[j] <= 57
        invariant
            i <= j <= s@.len(),
            digits_end(s@, i as int) == digits_end(s@, j as int),
        decreases s@.len() - j,
    {
        j = j + 1;
    }
    j
}

fn hex_val_exec(c: u8) -> (r: u8)
    requires
        is_hex_byte(c),
    ensures
        r == hex_val(c),
{
    if 48 <= c && c <= 57 {
        c - 48
    } else if 97 <= c && c <= 102 {
        c - 87
    } else {
        c - 55
    }
}

/// Parses a string body, unescaping as it goes.
fn parse_str_body(s: &Vec<u8>, i: usize) -> (r: Option<(Vec<u8>, usize)>)
    requires
        i <= s@.len(),
    ensures
        match r {
            Some(p) => spec_parse_str_body(s@, i as int) == Some((p.0@, p.1 as int)) && i < p.1
                <= s@.len(),
            None => spec_parse_str_body(s@, i as int) is None,
        },
    decreases s@.len() - i,
{
    if i >= s.len() {
        return None;
    }
    let b = s[i];
    if b == B_DQUOTE {
        proof {
            assert(Seq::<u8>::empty() =~= Seq::<u8>::empty());
        }
        Some((Vec::new(), i + 1))
    } else if b == B_BACKSLASH {
        if s.len() - i < 2 {
            return None;
        }
        let c = s[i + 1];
        if c == B_DQUOTE || c == B_BACKSLASH {
            match parse_str_body(s, i + 2) {
                Some((rest, e)) => {
                    let mut out: Vec<u8> = Vec::new();
                    out.push(c);
                    push_all(&mut out, &rest);
                    proof {
                        assert(out@ =~= seq![s@[i + 1]] + rest@);
                    }
                    Some((out, e))
                },
                None => None,
            }
        } else if c == crate::grammar::B_LU {
            if s.len() - i < 6 {
                return None;
            }
            let h2 = s[i + 2];
            let h3 = s[i + 3];
            let h4 = s[i + 4];
            let h5 = s[i + 5];
            let hex_ok = (48 <= h2 && h2 <= 57 || 97 <= h2 && h2 <= 102 || 65 <= h2 && h2 <= 70)
                && (48 <= h3 && h3 <= 57 || 97 <= h3 && h3 <= 102 || 65 <= h3 && h3 <= 70) && (48
                <= h4 && h4 <= 57 || 97 <= h4 && h4 <= 102 || 65 <= h4 && h4 <= 70) && (48 <= h5
                && h5 <= 57 || 97 <= h5 && h5 <= 102 || 65 <= h5 && h5 <= 70);
            if !hex_ok {
                return None;
            }
            let v: u32 = ((hex_val_exec(h2) as u32 * 16 + hex_val_exec(h3) as u32) * 16
                + hex_val_exec(h4) as u32) * 16 + hex_val_exec(h5) as u32;
            if v >= 256 {
                return None;
            }
            match parse_str_body(s, i + 6) {
                Some((rest, e)) => {
                    let mut out: Vec<u8> = Vec::new();
                    out.push(v as u8);
                    push_all(&mut out, &rest);
                    proof {
                        assert(out@ =~= seq![
                            (((hex_val(s@[i + 2]) * 16 + hex_val(s@[i + 3])) * 16 + hex_val(
                                s@[i + 4],
                            )) * 16 + hex_val(s@[i + 5])) as u8,
                        ] + rest@);
                    }
                    Some((out, e))
                },
                None => None,
            }
        } else {
            None
        }
    } else {
        match parse_str_body(s, i + 1) {
            Some((rest, e)) => {
                let mut out: Vec<u8> = Vec::new();
                out.push(b);
                push_all(&mut out, &rest);
                proof {
                    assert(out@ =~= seq![s@[i as int]] + rest@);
                }
                Some((out, e))
            },
            None => None,
        }
    }
}

fn parse_json_string(s: &Vec<u8>, i: usize) -> (r: Option<(Vec<u8>, usize)>)
    requires
        i <= s@.len(),
    ensures
        match r {
            Some(p) => spec_parse_json_string(s@, i as int) == Some((p.0@, p.1 as int)) && i < p.1
                <= s@.len(),
            None => spec_parse_json_string(s@, i as int) is None,
        },
{
    if i < s.len() && s[i] == B_DQUOTE {
        parse_str_body(s, i + 1)
    } else {
        None
    }
}

/// The value of a digit run never shrinks as the run extends.
proof fn lemma_dec_value_monotone(s: Seq<u8>, i: int, j1: int, j2: int)
    requires
        0 <= i <= j1 <= j2 <= s.len(),
        forall|k: int| i <= k < j2 ==> is_digit(#[trigger] s[k]),
    ensures
        0 <= dec_value(s, i, j1) <= dec_value(s, i, j2),
    decreases j2 - j1,
{
    if j1 == j2 {
        lemma_dec_value_nonneg(s, i, j1);
    } else {
        lemma_dec_value_monotone(s, i, j1, j2 - 1);
        assert(dec_value(s, i, j2) == dec_value(s, i, j2 - 1) * 10 + (s[j2 - 1] - 48));
    }
}

proof fn lemma_dec_value_nonneg(s: Seq<u8>, i: int, j: int)
    requires
        forall|k: int| i <= k < j ==> is_digit(#[trigger] s[k]),
    ensures
        dec_value(s, i, j) >= 0,
    decreases j - i,
{
    if i < j {
        lemma_dec_value_nonneg(s, i, j - 1);
    }
}

/// Parses an integer.
fn parse_json_number(s: &Vec<u8>, i: usize) -> (r: Option<(i128, usize)>)
    requires
        i <= s@.len(),
    ensures
        match r {
            Some(p) => spec_parse_json_number(s@, i as int) == Some((p.0 as int, p.1 as int)) && i
                < p.1 <= s@.len(),
            None => spec_parse_json_number(s@, i as int) is None,
        },
{
    let neg = i < s.len() && s[i] == B_MINUS;
    let start = if neg {
        i + 1
    } else {
        i
    };
    let j = scan_digits(s, start);
    if j == start {
        return None;
    }
    proof {
        lemma_digit_run(s@, start as int, j as int);
    }
    let bound: u128 = if neg {
        (i128::MAX as u128) + 1
    } else {
        i128::MAX as u128
    };
    let mut v: u128 = 0;
    let mut k = start;
    let mut over = false;
    proof {
        assert(dec_value(s@, start as int, start as int) == 0);
    }
    while k < j
        invariant
            start <= k <= j <= s@.len(),
            bound as int == if neg {
                i128::MAX as int + 1
            } else {
                i128::MAX as int
            },
            forall|t: int| start <= t < j ==> is_digit(#[trigger] s@[t]),
            !over ==> v as int == dec_value(s@, start as int, k as int) && v <= bound,
            over ==> dec_value(s@, start as int, k as int) > bound,
        decreases j - k,
    {
        let d = s[k] - 48;
        proof {
            assert(dec_value(s@, start as int, k as int + 1) == dec_value(
                s@,
                start as int,
                k as int,
            ) * 10 + (s@[k as int] - 48));
            lemma_dec_value_nonneg(s@, start as int, k as int);
        }
        if !over {
            if v > (bound - d as u128) / 10 {
                over = true;
                proof {
                    assert(v as int * 10 + d > bound);
                }
            } else {
                v = v * 10 + d as u128;
            }
        } else {
            proof {
                lemma_dec_value_monotone(s@, start as int, k as int, k as int + 1);
                assert(dec_value(s@, start as int, k as int + 1) >= dec_value(
                    s@,
                    start as int,
                    k as int,
                ));
            }
        }
        k = k + 1;
    }
    if over {
        proof {
            if neg {
                assert(-dec_value(s@, start as int, j as int) < i128::MIN as int);
            } else {
                assert(dec_value(s@, start as int, j as int) > i128::MAX as int);
            }
        }
        return None;
    }
    if neg {
        if v == (i128::MAX as u128) + 1 {
            Some((i128::MIN, j))
        } else {
            Some((-(v as i128), j))
        }
    } else {
        Some((v as i128, j))
    }
}

/// Every byte of a digit run is a digit.
proof fn lemma_digit_run(s: Seq<u8>, i: int, j: int)
    requires
        0 <= i <= s.len(),
        j == digits_end(s, i),
    ensures
        i <= j <= s.len(),
        forall|t: int| i <= t < j ==> is_digit(#[trigger] s[t]),
    decreases s.len() - i,
{
    if i < s.len() && is_digit(s[i]) {
        lemma_digit_run(s, i + 1, j);
    }
}

/// Parses one value.
fn parse_json_value(s: &Vec<u8>, i: usize) -> (r: Option<(Value, usize)>)
    requires
        i <= s@.len(),
    ensures
        match r {
            Some(p) => spec_parse_json_value(s@, i as int) == Some((p.0@, p.1 as int)) && i < p.1
                <= s@.len(),
            None => spec_parse_json_value(s@, i as int) is None,
        },
{
    if i >= s.len() {
        return None;
    }
    let b = s[i];
    if b == B_DQUOTE {
        match parse_json_string(s, i) {
            Some((t, e)) => Some((Value::String(t), e)),
            None => None,
        }
    } else if b == 110 {
        if s.len() - i >= 4 && s[i + 1] == 117 && s[i + 2] == 108 && s[i + 3] == 108 {
            Some((Value::Null, i + 4))
        } else {
            None
        }
    } else if b == 116 {
        if s.len() - i >= 4 && s[i + 1] == 114 && s[i + 2] == 117 && s[i + 3] == 101 {
            Some((Value::Bool(true), i + 4))
        } else {
            None
        }
    } else if b == 102 {
        if s.len() - i >= 5 && s[i + 1] == 97 && s[i + 2] == 108 && s[i + 3] == 115 && s[i + 4]
            == 101 {
            Some((Value::Bool(false), i + 5))
        } else {
            None
        }
    } else if b == B_MINUS || 48 <= b && b <= 57 {
        match parse_json_number(s, i) {
            Some((n, e)) => Some((Value::Number(Number::Fixed(n)), e)),
            None => None,
        }
    } else {
        None
    }
}

/// Parses members from the first key on, folding them into `obj` in text
/// order.
fn parse_members_into(s: &Vec<u8>, i: usize, obj: &mut Object) -> (r: Option<usize>)
    requires
        i <= s@.len(),
        old(obj).wf(),
    ensures
        match r {
            Some(e) => spec_parse_members(s@, i as int) matches Some(p) && p.1 == e as int && e
                <= s@.len() && final(obj).wf() && final(obj).as_map() == json_fold(
                old(obj).as_map(),
                p.0,
            ),
            None => spec_parse_members(s@, i as int) is None,
        },
    decreases s@.len() - i,
{
    let (key, a) = match parse_json_string(s, i) {
        Some(p) => p,
        None => {
            return None;
        },
    };
    let b = skip_jws(s, a);
    if b >= s.len() || s[b] != crate::grammar::B_COLON {
        return None;
    }
    let c = skip_jws(s, b + 1);
    let (value, d) = match parse_json_value(s, c) {
        Some(p) => p,
        None => {
            return None;
        },
    };
    let ghost kv = (key@, value@);
    obj.insert(key, value);
    let e = skip_jws(s, d);
    if e >= s.len() {
        return None;
    }
    if s[e] == crate::grammar::B_COMMA {
        let f = skip_jws(s, e + 1);
        match parse_members_into(s, f, obj) {
            Some(g) => {
                proof {
                    let (rest, gg) = spec_parse_members(s@, f as int).unwrap();
                    assert((seq![kv] + rest).drop_first() =~= rest);
                    assert((seq![kv] + rest)[0] == kv);
                }
                Some(g)
            },
            None => None,
        }
    } else if s[e] == B_RBRACE {
        proof {
            assert(seq![kv].drop_first() =~= Seq::<(Seq<u8>, ValueV)>::empty());
            assert(seq![kv][0] == kv);
            let m0 = old(obj).as_map();
            assert(json_fold(m0.insert(kv.0, kv.1), Seq::empty()) == m0.insert(kv.0, kv.1));
            assert(json_fold(m0, seq![kv]) == json_fold(
                m0.insert(seq![kv][0].0, seq![kv][0].1),
                seq![kv].drop_first(),
            ));
            assert(obj.as_map() == json_fold(old(obj).as_map(), seq![kv]));
        }
        Some(e + 1)
    } else {
        None
    }
}

impl Object {
    /// Builds an object from decoded members, folding them in order: a
    /// later duplicate key overrides an earlier one.
    pub fn from_json(members: Vec<(Vec<u8>, Value)>) -> (r: Object)
        ensures
            r.wf(),
            r.as_map() == json_fold(
                Map::empty(),
                members@.map_values(|kv: (Vec<u8>, Value)| (kv.0@, kv.1@)),
            ),
    {
        let ghost mv = members@.map_values(|kv: (Vec<u8>, Value)| (kv.0@, kv.1@));
        let mut members = members;
        let mut obj = Object::new();
        let ghost mut k: int = 0;
        proof {
            assert(obj.as_map() =~= Map::<Seq<u8>, ValueV>::empty());
            assert(mv.skip(0) =~= mv);
        }
        while members.len() > 0
            invariant
                obj.wf(),
                0 <= k <= mv.len(),
                k + members@.len() == mv.len(),
                members@.map_values(|kv: (Vec<u8>, Value)| (kv.0@, kv.1@)) == mv.skip(k),
                json_fold(Map::empty(), mv) == json_fold(obj.as_map(), mv.skip(k)),
            decreases members@.len(),
        {
            let ghost before = members@;
            let (key, value) = members.remove(0);
            proof {
                let bv = before.map_values(|kv: (Vec<u8>, Value)| (kv.0@, kv.1@));
                assert(bv[0] == mv.skip(k)[0]);
                assert(mv.skip(k)[0] == mv[k]);
                assert(key@ == mv[k].0 && value@ == mv[k].1);
                assert(members@.map_values(|kv: (Vec<u8>, Value)| (kv.0@, kv.1@)) =~= bv
                    .drop_first());
                assert(bv.drop_first() =~= mv.skip(k + 1));
                assert(mv.skip(k).drop_first() =~= mv.skip(k + 1));
            }
            obj.insert(key, value);
            proof {
                k = k + 1;
            }
        }
        proof {
            assert(mv.skip(mv.len() as int) =~= Seq::<(Seq<u8>, ValueV)>::empty());
        }
        obj
    }

    /// Reads an object back from a JSON document. On success the object's
    /// map is the decoded members folded in text order; on failure the
    /// document is not one the codec accepts.
    pub fn from_slice(bytes: &Vec<u8>) -> (r: Result<Object, PipeError>)
        ensures
            match r {
                Ok(o) => spec_parse_object(bytes@) matches Some(es) && o.wf() && o.as_map()
                    == json_fold(Map::empty(), es),
                Err(e) => spec_parse_object(bytes@) is None && e matches PipeError::ParseError {
                    ..
                },
            },
    {
        let i = skip_jws(bytes, 0);
        if i >= bytes.len() || bytes[i] != B_LBRACE {
            return Err(PipeError::ParseError { at: i });
        }
        let j = skip_jws(bytes, i + 1);
        if j < bytes.len() && bytes[j] == B_RBRACE {
            if skip_jws(bytes, j + 1) == bytes.len() {
                return Ok(Object::new());
            } else {
                return Err(PipeError::ParseError { at: j });
            }
        }
        let mut obj = Object::new();
        match parse_members_into(bytes, j, &mut obj) {
            Some(e) => {
                if skip_jws(bytes, e) == bytes.len() {
                    Ok(obj)
                } else {
                    Err(PipeError::ParseError { at: e })
                }
            },
            None => Err(PipeError::ParseError { at: j }),
        }
    }
}

} // verus!
