//! The verified core of the two in-process middlewares: the value of the
//! server-time header and the choice and rendering of a request id. The
//! HTTP layer measures the clock and supplies fresh random bytes; what
//! goes into the headers is computed here.
use vstd::prelude::*;

use crate::json::hex_digit;
use crate::strutil::{dec_chars, from_chars, u64_dec_chars};

verus! {

/// The text of the server-time header for an elapsed time in
/// microseconds: the decimal digits followed by `us`.
pub open spec fn server_time_chars(micros: nat) -> Seq<char> {
    dec_chars(micros) + seq!['u', 's']
}

/// Renders the server-time header value for `micros` microseconds.
pub fn server_time_value(micros: u64) -> (r: String)
    ensures
        r@ == server_time_chars(micros as nat),
{
    let mut v = u64_dec_chars(micros);
    v.push('u');
    v.push('s');
    proof {
        assert(v@ =~= server_time_chars(micros as nat));
    }
    from_chars(&v)
}

/// The lowercase hexadecimal text of a byte string, two digits per byte.
pub open spec fn bytes_hex(b: Seq<u8>) -> Seq<char>
    decreases b.len(),
{
    if b.len() == 0 {
        Seq::empty()
    } else {
        seq![hex_digit((b[0] / 16) as nat), hex_digit((b[0] % 16) as nat)] + bytes_hex(
            b.drop_first(),
        )
    }
}

pub proof fn lemma_bytes_hex_snoc(b: Seq<u8>, x: u8)
    ensures
        bytes_hex(b.push(x)) == bytes_hex(b) + seq![
            hex_digit((x / 16) as nat),
            hex_digit((x % 16) as nat),
        ],
    decreases b.len(),
{
    if b.len() == 0 {
        let p = b.push(x);
        assert(p[0] == x);
        assert(p.drop_first() =~= Seq::<u8>::empty());
        assert(bytes_hex(Seq::<u8>::empty()) == Seq::<char>::empty());
        assert(bytes_hex(p) =~= bytes_hex(b) + seq![
            hex_digit((x / 16) as nat),
            hex_digit((x % 16) as nat),
        ]);
    } else {
        assert(b.push(x)[0] == b[0]);
        assert(b.push(x).drop_first() =~= b.drop_first().push(x));
        lemma_bytes_hex_snoc(b.drop_first(), x);
        assert(bytes_hex(b.push(x)) =~= bytes_hex(b) + seq![
            hex_digit((x / 16) as nat),
            hex_digit((x % 16) as nat),
        ]);
    }
}

/// The hexadecimal digit character for `d`, executable form.
fn hex_digit_of(d: u8) -> (c: char)
    requires
        d < 16,
    ensures
        c == hex_digit(d as nat),
{
    if d == 0 {
        '0'
    } else if d == 1 {
        '1'
    } else if d == 2 {
        '2'
    } else if d == 3 {
        '3'
    } else if d == 4 {
        '4'
    } else if d == 5 {
        '5'
    } else if d == 6 {
        '6'
    } else if d == 7 {
        '7'
    } else if d == 8 {
        '8'
    } else if d == 9 {
        '9'
    } else if d == 10 {
        'a'
    } else if d == 11 {
        'b'
    } else if d == 12 {
        'c'
    } else if d == 13 {
        'd'
    } else if d == 14 {
        'e'
    } else {
        'f'
    }
}

/// Renders bytes as lowercase hexadecimal, two digits per byte.
pub fn bytes_to_hex(bytes: &Vec<u8>) -> (r: String)
    ensures
        r@ == bytes_hex(bytes@),
{
    let mut out: Vec<char> = Vec::new();
    let mut i: usize = 0;
    proof {
        assert(bytes@.take(0) =~= Seq::<u8>::empty());
        assert(out@ =~= bytes_hex(bytes@.take(0)));
    }
    while i < bytes.len()
        invariant
            i <= bytes@.len(),
            out@ == bytes_hex(bytes@.take(i as int)),
        decreases bytes@.len() - i,
    {
        let b = bytes[i];
        out.push(hex_digit_of(b / 16));
        out.push(hex_digit_of(b % 16));
        proof {
            assert(bytes@.take(i + 1) =~= bytes@.take(i as int).push(bytes@[i as int]));
            lemma_bytes_hex_snoc(bytes@.take(i as int), bytes@[i as int]);
            assert(out@ =~= bytes_hex(bytes@.take(i + 1)));
        }
        i += 1;
    }
    proof {
        assert(bytes@.take(bytes@.len() as int) =~= bytes@);
    }
    from_chars(&out)
}

/// The request id a response carries: an id the request already had is
/// propagated; otherwise the fresh bytes are rendered as hexadecimal.
pub fn request_id_value(existing: Option<String>, fresh: &Vec<u8>) -> (r: String)
    ensures
        match existing {
            Some(s) => r@ == s@,
            None => r@ == bytes_hex(fresh@),
        },
{
    match existing {
        Some(s) => s,
        None => bytes_to_hex(fresh),
    }
}

} // verus!
