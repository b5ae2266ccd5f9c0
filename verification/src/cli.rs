//! The `--tap LISTEN:TARGET` option.

use vstd::prelude::*;
use crate::text::{
    all_digits, append_chars, chars_of, dec_digits, digit_char, digit_val, digits_value, find_char,
    first_index, lemma_first_index, parse_uint, parse_uint_chars, slice_copy, string_from,
    unsigned_body,
};

verus! {

/// The ports of the HTTP tap: it listens on one and forwards to the other.
#[derive(Debug, Clone, Copy, PartialEq, Eq, Structural)]
pub struct TapConfig {
    pub listen_port: u16,
    pub target_port: u16,
}

/// What `--tap` accepts: `LISTEN:TARGET`, split at the first `:`, each a
/// port number; otherwise the message that explains what is wrong.
pub open spec fn tap_spec(s: Seq<char>) -> Result<(u16, u16), Seq<char>> {
    let k = first_index(s, ':');
    if k >= s.len() {
        Err("expected format LISTEN_PORT:TARGET_PORT, e.g. 3001:3000"@)
    } else {
        let a = s.take(k as int);
        let b = s.skip(k + 1 as int);
        match parse_uint(a, 10, 0xffff) {
            None => Err("invalid listen port: "@ + a),
            Some(l) => match parse_uint(b, 10, 0xffff) {
                None => Err("invalid target port: "@ + b),
                Some(t) => Ok((l as u16, t as u16)),
            },
        }
    }
}

pub fn parse_tap(s: &str) -> (res: Result<TapConfig, String>)
    ensures
        match res {
            Ok(c) => tap_spec(s@) == Ok::<(u16, u16), Seq<char>>((c.listen_port, c.target_port)),
            Err(e) => tap_spec(s@) == Err::<(u16, u16), Seq<char>>(e@),
        },
{
    let v = chars_of(s);
    let k = find_char(&v, ':');
    if k >= v.len() {
        return Err(string_from("expected format LISTEN_PORT:TARGET_PORT, e.g. 3001:3000"));
    }
    let a = slice_copy(&v, 0, k);
    let b = slice_copy(&v, k + 1, v.len());
    assert(a@ =~= s@.take(k as int));
    assert(b@ =~= s@.skip(k + 1 as int));
    let listen_port = match parse_uint_chars(&a, 10, 0xffff) {
        Some(x) => x as u16,
        None => {
            let mut e = string_from("invalid listen port: ");
            append_chars(&mut e, &a);
            return Err(e);
        },
    };
    let target_port = match parse_uint_chars(&b, 10, 0xffff) {
        Some(x) => x as u16,
        None => {
            let mut e = string_from("invalid target port: ");
            append_chars(&mut e, &b);
            return Err(e);
        },
    };
    Ok(TapConfig { listen_port, target_port })
}

/// The decimal digits of a number are digits, and read back as it.
pub proof fn lemma_dec_digits_value(n: nat)
    ensures
        dec_digits(n).len() >= 1,
        dec_digits(n)[0] != '+',
        all_digits(dec_digits(n), 10),
        digits_value(dec_digits(n), 10) == n,
        forall|i: int| 0 <= i < dec_digits(n).len() ==> #[trigger] dec_digits(n)[i] != ':',
    decreases n,
{
    if n >= 10 {
        lemma_dec_digits_value(n / 10);
        let d = dec_digits(n);
        let h = dec_digits(n / 10);
        assert(d == h.push(digit_char(n % 10)));
        assert(d.drop_last() =~= h);
        assert(digit_val(digit_char(n % 10), 10) == n % 10);
        assert(d.last() == digit_char(n % 10));
        assert(digits_value(d, 10) == digits_value(h, 10) * 10 + digit_val(d.last(), 10));
        assert((n / 10) * 10 + n % 10 == n);
        assert forall|i: int| 0 <= i < d.len() implies digit_val(#[trigger] d[i], 10) >= 0 by {
            if i < h.len() {
                assert(d[i] == h[i]);
            }
        }
        assert forall|i: int| 0 <= i < d.len() implies #[trigger] d[i] != ':' by {
            if i < h.len() {
                assert(d[i] == h[i]);
            }
        }
        assert(d[0] == h[0]);
    } else {
        let d = dec_digits(n);
        assert(d.drop_last() =~= Seq::<char>::empty());
        assert(digit_val(digit_char(n), 10) == n);
        assert(d.last() == digit_char(n));
        assert(digits_value(d.drop_last(), 10) == 0);
        assert(digits_value(d, 10) == digits_value(d.drop_last(), 10) * 10 + digit_val(
            d.last(),
            10,
        ));
    }
}

/// A port number written in decimal reads back as itself.
pub proof fn lemma_parse_dec(n: u16)
    ensures
        parse_uint(dec_digits(n as nat), 10, 0xffff) == Some(n as nat),
{
    lemma_dec_digits_value(n as nat);
    assert(unsigned_body(dec_digits(n as nat)) == dec_digits(n as nat));
}

/// Law: the option `LISTEN:TARGET` written with the decimal forms of two
/// ports is accepted, with those ports.
pub proof fn law_tap_roundtrip(listen: u16, target: u16)
    ensures
        tap_spec(dec_digits(listen as nat) + seq![':'] + dec_digits(target as nat)) == Ok::<
            (u16, u16),
            Seq<char>,
        >((listen, target)),
{
    let a = dec_digits(listen as nat);
    let b = dec_digits(target as nat);
    let s = a + seq![':'] + b;
    lemma_dec_digits_value(listen as nat);
    lemma_dec_digits_value(target as nat);
    assert forall|i: int| 0 <= i < a.len() implies #[trigger] s[i] != ':' by {
        assert(s[i] == a[i]);
    }
    assert(s[a.len() as int] == ':');
    lemma_first_index(s, ':', a.len() as int);
    assert(s.take(a.len() as int) =~= a);
    assert(s.skip(a.len() + 1 as int) =~= b);
    lemma_parse_dec(listen);
    lemma_parse_dec(target);
}

} // verus!
