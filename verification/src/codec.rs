//! Text codec for addresses and 256-bit values.
//!
//! Addresses travel as `0x`-prefixed, 40-hex-digit ASCII byte strings and are
//! held internally as 20 raw bytes.  256-bit values travel as decimal or
//! hexadecimal ASCII byte strings and are held internally as 32 big-endian
//! raw bytes.  Every parser states exactly which inputs it accepts, and the
//! formatters produce the canonical form, so that parsing and formatting
//! round-trip.

use vstd::prelude::*;

verus! {

/// Errors reported across the bridge surface.
///
/// Malformed text parameters are detected before any engine interaction;
/// engine-level rejections carry the engine's own diagnostic text.
#[derive(Debug)]
pub enum BridgeError {
    MalformedInput,
    EngineFailure(Vec<u8>),
}

// ---------------------------------------------------------------------------
// Digits
// ---------------------------------------------------------------------------

pub open spec fn is_dec_digit(c: u8) -> bool {
    48 <= c <= 57
}

pub open spec fn dec_val(c: u8) -> nat {
    (c - 48) as nat
}

pub open spec fn is_hex_digit(c: u8) -> bool {
    is_dec_digit(c) || (97 <= c <= 102) || (65 <= c <= 70)
}

pub open spec fn hex_val(c: u8) -> nat {
    if is_dec_digit(c) {
        dec_val(c)
    } else if 97 <= c <= 102 {
        (c - 87) as nat
    } else {
        (c - 55) as nat
    }
}

/// The lowercase hex digit with value `v`.
pub open spec fn hex_char(v: nat) -> u8
    recommends
        v < 16,
{
    if v < 10 {
        (48 + v) as u8
    } else {
        (87 + v) as u8
    }
}

/// Uppercase hex digits folded to lowercase; everything else unchanged.
pub open spec fn to_lower_hex(c: u8) -> u8 {
    if 65 <= c <= 70 {
        (c + 32) as u8
    } else {
        c
    }
}

proof fn lemma_hex_char_lower(c: u8)
    requires
        is_hex_digit(c),
    ensures
        hex_char(hex_val(c)) == to_lower_hex(c),
{
}

// ---------------------------------------------------------------------------
// Hex texts
// ---------------------------------------------------------------------------

/// Does the text start with the literal prefix `0x`?
pub open spec fn has_0x(s: Seq<u8>) -> bool {
    s.len() >= 2 && s[0] == 48 && s[1] == 120
}

pub open spec fn strip_0x(s: Seq<u8>) -> Seq<u8> {
    if has_0x(s) {
        s.skip(2)
    } else {
        s
    }
}

pub open spec fn all_hex(s: Seq<u8>) -> bool {
    forall|i: int| 0 <= i < s.len() ==> is_hex_digit(s[i])
}

pub open spec fn all_dec(s: Seq<u8>) -> bool {
    forall|i: int| 0 <= i < s.len() ==> is_dec_digit(s[i])
}

/// A well-formed address text: exactly 40 hex digits after an optional `0x`.
pub open spec fn is_addr_text(s: Seq<u8>) -> bool {
    strip_0x(s).len() == 40 && all_hex(strip_0x(s))
}

/// The byte encoded by the hex digit pair at positions `2j`, `2j + 1`.
pub open spec fn hex_byte_at(s: Seq<u8>, j: int) -> u8
    recommends
        0 <= j && 2 * j + 1 < s.len(),
{
    (hex_val(s[2 * j]) * 16 + hex_val(s[2 * j + 1])) as u8
}

/// The bytes encoded by an even-length string of hex digits.
pub open spec fn bytes_of_hex(s: Seq<u8>) -> Seq<u8> {
    Seq::new(s.len() / 2, |j: int| hex_byte_at(s, j))
}

/// The 20 address bytes denoted by a well-formed address text.
pub open spec fn addr_of_text(s: Seq<u8>) -> Seq<u8> {
    bytes_of_hex(strip_0x(s))
}

/// `0x` followed by two lowercase hex digits for each byte.
pub open spec fn hex_text_of(b: Seq<u8>) -> Seq<u8> {
    seq![48u8, 120u8] + Seq::new(
        b.len() * 2,
        |i: int| if i % 2 == 0 {
            hex_char(b[i / 2] as nat / 16)
        } else {
            hex_char(b[i / 2] as nat % 16)
        },
    )
}

pub open spec fn lower_hex(s: Seq<u8>) -> Seq<u8> {
    s.map(|i: int, c: u8| to_lower_hex(c))
}

/// The canonical form of an address text: `0x`, then its 40 digits lowercased.
pub open spec fn canonical_addr_text(s: Seq<u8>) -> Seq<u8> {
    seq![48u8, 120u8] + lower_hex(strip_0x(s))
}

/// The hex text of any 20-byte value is itself a well-formed address text.
pub proof fn lemma_hex_text_is_addr_text(b: Seq<u8>)
    requires
        b.len() == 20,
    ensures
        is_addr_text(hex_text_of(b)),
{
    let t = hex_text_of(b);
    assert(t.len() == 42);
    assert(t[0] == 48 && t[1] == 120);
    assert(strip_0x(t) == t.skip(2));
    assert(strip_0x(t).len() == 40);
    assert forall|i: int| 0 <= i < 40 implies is_hex_digit(strip_0x(t)[i]) by {
        assert(strip_0x(t)[i] == t[i + 2]);
        if i % 2 == 0 {
            let v = b[i / 2] as nat / 16;
            assert(v < 16);
            assert(t[i + 2] == hex_char(v));
        } else {
            let v = b[i / 2] as nat % 16;
            assert(v < 16);
            assert(t[i + 2] == hex_char(v));
        }
    };
}

/// Parsing then formatting an address yields the canonical form of its text.
pub proof fn lemma_address_round_trip(s: Seq<u8>)
    requires
        is_addr_text(s),
    ensures
        hex_text_of(addr_of_text(s)) == canonical_addr_text(s),
{
    let t = strip_0x(s);
    let b = bytes_of_hex(t);
    assert forall|i: int| 0 <= i < 42 implies hex_text_of(b)[i] == canonical_addr_text(s)[i] by {
        if i >= 2 {
            let k = i - 2;
            let hi = hex_val(t[2 * (k / 2)]);
            let lo = hex_val(t[2 * (k / 2) + 1]);
            assert(is_hex_digit(t[2 * (k / 2)]));
            assert(is_hex_digit(t[2 * (k / 2) + 1]));
            assert(hi < 16 && lo < 16);
            assert(b[k / 2] == (hi * 16 + lo) as u8);
            assert((hi * 16 + lo) / 16 == hi && (hi * 16 + lo) % 16 == lo) by (nonlinear_arith)
                requires
                    hi < 16 && lo < 16,
            ;
            if k % 2 == 0 {
                assert(2 * (k / 2) == k);
                lemma_hex_char_lower(t[k]);
            } else {
                assert(2 * (k / 2) + 1 == k);
                lemma_hex_char_lower(t[k]);
            }
        }
    };
    assert(hex_text_of(b) =~= canonical_addr_text(s));
}

// ---------------------------------------------------------------------------
// Executable hex codec
// ---------------------------------------------------------------------------

/// The value of one hex digit, or `None` when `c` is not a hex digit.
pub fn hex_digit_value(c: u8) -> (r: Option<u8>)
    ensures
        r.is_some() <==> is_hex_digit(c),
        r.is_some() ==> r.unwrap() == hex_val(c) && r.unwrap() < 16,
{
    if 48 <= c && c <= 57 {
        Some(c - 48)
    } else if 97 <= c && c <= 102 {
        Some(c - 87)
    } else if 65 <= c && c <= 70 {
        Some(c - 55)
    } else {
        None
    }
}

/// Parse an address text into its 20 bytes.
///
/// Accepts exactly 40 hex digits, case-insensitive, after an optional `0x`
/// prefix; anything else is malformed input.
pub fn parse_address(text: &[u8]) -> (r: Result<Vec<u8>, BridgeError>)
    ensures
        r.is_ok() <==> is_addr_text(text@),
        r.is_ok() ==> r.unwrap()@.len() == 20 && r.unwrap()@ == addr_of_text(text@),
        r.is_err() ==> r matches Err(BridgeError::MalformedInput),
{
    let off: usize = if text.len() >= 2 && text[0] == 48 && text[1] == 120 {
        2
    } else {
        0
    };
    assert(strip_0x(text@) =~= text@.skip(off as int));
    if text.len() - off != 40 {
        return Err(BridgeError::MalformedInput);
    }
    let mut out: Vec<u8> = Vec::new();
    let mut j: usize = 0;
    while j < 20
        invariant
            off + 40 == text.len(),
            strip_0x(text@) == text@.skip(off as int),
            0 <= j <= 20,
            out@.len() == j,
            forall|k: int| 0 <= k < j ==> out@[k] == hex_byte_at(strip_0x(text@), k),
            forall|i: int| 0 <= i < 2 * j ==> is_hex_digit(strip_0x(text@)[i]),
        decreases 20 - j,
    {
        assert(text@[off + 2 * j] == strip_0x(text@)[2 * j as int]);
        assert(text@[off + 2 * j + 1] == strip_0x(text@)[2 * j as int + 1]);
        let hi = match hex_digit_value(text[off + 2 * j]) {
            Some(v) => v,
            None => {
                assert(!is_hex_digit(strip_0x(text@)[2 * j as int]));
                return Err(BridgeError::MalformedInput);
            },
        };
        let lo = match hex_digit_value(text[off + 2 * j + 1]) {
            Some(v) => v,
            None => {
                assert(!is_hex_digit(strip_0x(text@)[2 * j as int + 1]));
                return Err(BridgeError::MalformedInput);
            },
        };
        out.push(hi * 16 + lo);
        j += 1;
    }
    assert(all_hex(strip_0x(text@))) by {
        assert forall|i: int| 0 <= i < 40 implies is_hex_digit(strip_0x(text@)[i]) by {
            let jj = i / 2;
            assert(0 <= jj < 20);
            assert(is_hex_digit(strip_0x(text@)[2 * jj]));
            assert(is_hex_digit(strip_0x(text@)[2 * jj + 1]));
            assert(i == 2 * jj || i == 2 * jj + 1);
        };
    };
    assert(out@ =~= addr_of_text(text@));
    Ok(out)
}

/// The lowercase hex digit for a value below 16.
pub fn hex_char_of(v: u8) -> (r: u8)
    requires
        v < 16,
    ensures
        r == hex_char(v as nat),
{
    if v < 10 {
        48 + v
    } else {
        87 + v
    }
}

/// Format raw bytes as `0x` followed by two lowercase hex digits per byte.
pub fn format_hex(b: &[u8]) -> (r: Vec<u8>)
    ensures
        r@ == hex_text_of(b@),
        r@.len() == 2 + 2 * b@.len(),
{
    let mut out: Vec<u8> = Vec::new();
    out.push(48);
    out.push(120);
    let mut i: usize = 0;
    while i < b.len()
        invariant
            0 <= i <= b@.len(),
            out@.len() == 2 + 2 * i,
            out@ == hex_text_of(b@).take(2 + 2 * i as int),
        decreases b@.len() - i,
    {
        let hi = b[i] / 16;
        let lo = b[i] % 16;
        out.push(hex_char_of(hi));
        out.push(hex_char_of(lo));
        i += 1;
        assert(out@ =~= hex_text_of(b@).take(2 + 2 * i as int));
    }
    assert(out@ =~= hex_text_of(b@));
    out
}

/// Format 20 address bytes as their canonical text.
pub fn format_address(addr: &[u8]) -> (r: Vec<u8>)
    requires
        addr@.len() == 20,
    ensures
        r@ == hex_text_of(addr@),
        r@.len() == 42,
{
    format_hex(addr)
}

// ---------------------------------------------------------------------------
// 256-bit words: 32 big-endian bytes
// ---------------------------------------------------------------------------

pub open spec fn pow(b: nat, e: nat) -> nat
    decreases e,
{
    if e == 0 {
        1
    } else {
        b * pow(b, (e - 1) as nat)
    }
}

/// The unsigned value of a big-endian byte string.
pub open spec fn be_val(s: Seq<u8>) -> nat
    decreases s.len(),
{
    if s.len() == 0 {
        0
    } else {
        be_val(s.drop_last()) * 256 + s.last() as nat
    }
}

pub proof fn lemma_pow_pos(b: nat, e: nat)
    requires
        b >= 1,
    ensures
        pow(b, e) >= 1,
    decreases e,
{
    if e > 0 {
        lemma_pow_pos(b, (e - 1) as nat);
        assert(b * pow(b, (e - 1) as nat) >= 1) by (nonlinear_arith)
            requires
                b >= 1 && pow(b, (e - 1) as nat) >= 1,
        ;
    }
}

proof fn lemma_be_val_take_unfold(s: Seq<u8>, i: int)
    requires
        0 <= i < s.len(),
    ensures
        be_val(s.take(i + 1)) == be_val(s.take(i)) * 256 + s[i],
{
    assert(s.take(i + 1).drop_last() =~= s.take(i));
    assert(s.take(i + 1).last() == s[i]);
}

proof fn lemma_be_val_cons(x: u8, u: Seq<u8>)
    ensures
        be_val(seq![x] + u) == x * pow(256, u.len()) + be_val(u),
    decreases u.len(),
{
    if u.len() == 0 {
        assert(seq![x] + u =~= seq![x]);
        assert((seq![x]).drop_last() =~= Seq::<u8>::empty());
        assert(be_val(Seq::<u8>::empty()) == 0);
        assert(be_val(seq![x]) == be_val(Seq::<u8>::empty()) * 256 + x);
        assert(pow(256, 0) == 1);
    } else {
        let t = seq![x] + u;
        assert(t.drop_last() =~= seq![x] + u.drop_last());
        assert(t.last() == u.last());
        lemma_be_val_cons(x, u.drop_last());
        let p = pow(256, (u.len() - 1) as nat);
        let xx = x as nat;
        let bdl = be_val(u.drop_last());
        let ul = u.last() as nat;
        assert(pow(256, u.len()) == 256 * p);
        assert(be_val(t) == be_val(t.drop_last()) * 256 + ul);
        assert(be_val(t.drop_last()) == xx * p + bdl);
        assert((xx * p + bdl) * 256 + ul == xx * (256 * p) + (bdl * 256 + ul)) by (nonlinear_arith);
        assert(be_val(u) == bdl * 256 + ul);
    }
}

proof fn lemma_be_val_skip_unfold(s: Seq<u8>, j: int)
    requires
        0 <= j < s.len(),
    ensures
        be_val(s.skip(j)) == s[j] * pow(256, (s.len() - j - 1) as nat) + be_val(s.skip(j + 1)),
{
    assert(s.skip(j) =~= seq![s[j]] + s.skip(j + 1));
    lemma_be_val_cons(s[j], s.skip(j + 1));
}

proof fn lemma_be_val_bound(s: Seq<u8>)
    ensures
        be_val(s) < pow(256, s.len()),
    decreases s.len(),
{
    if s.len() > 0 {
        lemma_be_val_bound(s.drop_last());
        let p = pow(256, (s.len() - 1) as nat);
        assert(be_val(s.drop_last()) * 256 + s.last() < 256 * p) by (nonlinear_arith)
            requires
                be_val(s.drop_last()) < p && s.last() < 256,
        ;
    }
}

proof fn lemma_be_val_zero(s: Seq<u8>)
    ensures
        (be_val(s) == 0) <==> (forall|i: int| 0 <= i < s.len() ==> s[i] == 0),
    decreases s.len(),
{
    if s.len() > 0 {
        lemma_be_val_zero(s.drop_last());
        if be_val(s) == 0 {
            assert(be_val(s.drop_last()) * 256 + s.last() == 0);
            assert(be_val(s.drop_last()) == 0 && s.last() == 0);
            assert forall|i: int| 0 <= i < s.len() implies s[i] == 0 by {
                if i < s.len() - 1 {
                    assert(s.drop_last()[i] == 0);
                } else {
                    assert(s[i] == s.last());
                }
            };
        }
        if forall|i: int| 0 <= i < s.len() ==> s[i] == 0 {
            assert forall|i: int| 0 <= i < s.len() - 1 implies #[trigger] s.drop_last()[i]
                == 0 by {
                assert(s.drop_last()[i] == s[i]);
            };
            assert(be_val(s.drop_last()) == 0);
            assert(s.last() == 0);
            assert(be_val(s) == 0);
        }
    }
}

proof fn lemma_be_val_append(x: Seq<u8>, y: Seq<u8>)
    ensures
        be_val(x + y) == be_val(x) * pow(256, y.len()) + be_val(y),
    decreases y.len(),
{
    if y.len() == 0 {
        assert(x + y =~= x);
        assert(pow(256, 0) == 1);
    } else {
        assert((x + y).drop_last() =~= x + y.drop_last());
        assert((x + y).last() == y.last());
        lemma_be_val_append(x, y.drop_last());
        let p = pow(256, (y.len() - 1) as nat);
        let bx = be_val(x);
        let bdl = be_val(y.drop_last());
        let yl = y.last() as nat;
        assert(pow(256, y.len()) == 256 * p);
        assert(be_val(x + y) == be_val((x + y).drop_last()) * 256 + yl);
        assert(be_val((x + y).drop_last()) == bx * p + bdl);
        assert((bx * p + bdl) * 256 + yl == bx * (256 * p) + (bdl * 256 + yl)) by (nonlinear_arith);
        assert(be_val(y) == bdl * 256 + yl);
    }
}

/// A fresh all-zero word.
pub fn zero_word() -> (r: Vec<u8>)
    ensures
        r@.len() == 32,
        be_val(r@) == 0,
{
    let mut w: Vec<u8> = Vec::new();
    let mut i: usize = 0;
    while i < 32
        invariant
            w@.len() == i,
            0 <= i <= 32,
            forall|k: int| 0 <= k < i ==> w@[k] == 0,
        decreases 32 - i,
    {
        w.push(0);
        i += 1;
    }
    proof {
        lemma_be_val_zero(w@);
    }
    w
}

/// Multiply a word in place by `m` and add `a`; reports overflow past 32 bytes.
fn word_mul_add(w: &mut Vec<u8>, m: u8, a: u8) -> (ov: bool)
    requires
        old(w)@.len() == 32,
        2 <= m <= 16,
        a < m,
    ensures
        final(w)@.len() == 32,
        !ov ==> be_val(final(w)@) == be_val(old(w)@) * m + a,
        ov ==> be_val(old(w)@) * m + a >= pow(256, 32),
{
    let mut carry: u16 = a as u16;
    let mut i: usize = 32;
    proof {
        let e = Seq::<u8>::empty();
        assert(w@.skip(32) =~= e);
        assert(old(w)@.skip(32) =~= e);
        assert(be_val(e) == 0);
        assert(pow(256, 0) == 1);
        assert(0nat * (m as nat) == 0) by (nonlinear_arith);
        assert(be_val(e) * (m as nat) == 0);
        assert((carry as nat) * pow(256, 0) == carry as nat);
    }
    while i > 0
        invariant
            w@.len() == 32,
            old(w)@.len() == 32,
            0 <= i <= 32,
            2 <= m <= 16,
            carry < m as u16,
            w@.take(i as int) == old(w)@.take(i as int),
            be_val(w@.skip(i as int)) + (carry as nat) * pow(256, (32 - i) as nat) == be_val(
                old(w)@.skip(i as int),
            ) * m + a,
        decreases i,
    {
        let idx = i - 1;
        assert(w@[idx as int] == old(w)@[idx as int]) by {
            assert(w@.take(i as int)[idx as int] == old(w)@.take(i as int)[idx as int]);
        };
        let b = w[idx];
        proof {
            assert((b as int) * (m as int) + (carry as int) < 65536) by (nonlinear_arith)
                requires
                    b <= 255 && m <= 16 && carry <= 16,
            ;
        }
        let cur: u16 = (b as u16) * (m as u16) + carry;
        let nb = (cur % 256) as u8;
        let ghost prev = w@;
        let ghost oldcarry = carry as nat;
        w[idx] = nb;
        carry = cur / 256;
        proof {
            let k = (32 - i) as nat;
            let po = pow(256, k);
            let ii = i as int;
            assert(w@.skip(ii) =~= prev.skip(ii));
            assert(w@.take(idx as int) =~= old(w)@.take(idx as int)) by {
                assert(forall|t: int|
                    0 <= t < idx ==> w@.take(idx as int)[t] == #[trigger] prev.take(ii)[t]);
                assert(forall|t: int|
                    0 <= t < idx ==> old(w)@.take(idx as int)[t] == #[trigger] old(w)@.take(
                        ii,
                    )[t]);
            };
            lemma_be_val_skip_unfold(w@, idx as int);
            lemma_be_val_skip_unfold(old(w)@, idx as int);
            assert(pow(256, (32 - idx) as nat) == 256 * po);
            let ob = old(w)@[idx as int] as nat;
            let osuf = be_val(old(w)@.skip(ii));
            let psuf = be_val(prev.skip(ii));
            // carry bound for the next round
            assert(carry < m as u16) by (nonlinear_arith)
                requires
                    (cur as nat) == (b as nat) * (m as nat) + oldcarry && b <= 255 && oldcarry < (
                    m as nat) && 2 <= (m as nat) <= 16 && (carry as nat) == (cur as nat) / 256,
            ;
            // the processed suffix grows by one byte on each side
            assert((nb as nat) * po + (carry as nat) * (256 * po) == (cur as nat) * po)
                by (nonlinear_arith)
                requires
                    (cur as nat) == 256 * (carry as nat) + nb,
            ;
            assert((cur as nat) * po == ob * (m as nat) * po + oldcarry * po) by (nonlinear_arith)
                requires
                    (cur as nat) == ob * (m as nat) + oldcarry,
            ;
            assert(ob * (m as nat) * po + osuf * (m as nat) == (ob * po + osuf) * (m as nat))
                by (nonlinear_arith);
            // chain the pieces into the invariant for idx
            assert(be_val(w@.skip(idx as int)) + (carry as nat) * pow(256, (32 - idx) as nat)
                == (nb as nat) * po + psuf + (carry as nat) * (256 * po));
            assert(psuf + oldcarry * po == osuf * (m as nat) + a);
            assert(be_val(old(w)@.skip(idx as int)) * (m as nat) + a == (ob * po + osuf) * (
            m as nat) + a);
        }
        i = idx;
    }
    assert(w@.skip(0) =~= w@);
    assert(old(w)@.skip(0) =~= old(w)@);
    if carry != 0 {
        proof {
            let p32 = pow(256, 32);
            assert((carry as nat) * p32 >= p32) by (nonlinear_arith)
                requires
                    carry >= 1 && p32 >= 0,
            ;
        }
        true
    } else {
        false
    }
}

/// Divide a word in place by `d`; returns the remainder.
fn word_divmod(w: &mut Vec<u8>, d: u8) -> (rem: u8)
    requires
        old(w)@.len() == 32,
        2 <= d <= 16,
    ensures
        final(w)@.len() == 32,
        rem < d,
        be_val(final(w)@) * d + rem == be_val(old(w)@),
{
    let mut rem: u16 = 0;
    let mut i: usize = 0;
    proof {
        let e = Seq::<u8>::empty();
        assert(w@.take(0) =~= e);
        assert(old(w)@.take(0) =~= e);
        assert(be_val(e) == 0);
        assert(0nat * (d as nat) == 0) by (nonlinear_arith);
        assert(be_val(e) * (d as nat) == 0);
    }
    while i < 32
        invariant
            w@.len() == 32,
            old(w)@.len() == 32,
            0 <= i <= 32,
            2 <= d <= 16,
            rem < d as u16,
            w@.skip(i as int) == old(w)@.skip(i as int),
            be_val(w@.take(i as int)) * d + rem == be_val(old(w)@.take(i as int)),
        decreases 32 - i,
    {
        assert(w@[i as int] == old(w)@[i as int]) by {
            assert(w@.skip(i as int)[0] == old(w)@.skip(i as int)[0]);
        };
        let b = w[i];
        let cur: u16 = rem * 256 + (b as u16);
        assert(cur < 256 * (d as u16)) by (nonlinear_arith)
            requires
                cur == rem * 256 + b && b <= 255 && rem < d as u16 && 2 <= d <= 16,
        ;
        let nb = cur / (d as u16);
        assert(nb <= 255) by (nonlinear_arith)
            requires
                nb == cur / (d as u16) && cur < 256 * (d as u16) && 2 <= d <= 16,
        ;
        let ghost prev = w@;
        let ghost oldrem = rem as nat;
        w[i] = nb as u8;
        rem = cur % (d as u16);
        proof {
            let ii = i as int;
            assert(w@.skip(ii + 1) =~= prev.skip(ii + 1)) by {
                assert(forall|t: int|
                    0 <= t < 32 - ii - 1 ==> w@.skip(ii + 1)[t] == #[trigger] prev.skip(ii + 1)[t]);
            };
            assert forall|t: int| 0 <= t < 32 - ii - 1 implies #[trigger] prev.skip(ii + 1)[t]
                == old(w)@.skip(ii + 1)[t] by {
                assert(prev.skip(ii + 1)[t] == prev[ii + 1 + t]);
                assert(old(w)@.skip(ii + 1)[t] == old(w)@[ii + 1 + t]);
                assert(prev.skip(ii)[t + 1] == prev[ii + 1 + t]);
                assert(old(w)@.skip(ii)[t + 1] == old(w)@[ii + 1 + t]);
            };
            assert(prev.skip(ii + 1) =~= old(w)@.skip(ii + 1));
            assert(w@.take(ii) =~= prev.take(ii));
            lemma_be_val_take_unfold(w@, ii);
            lemma_be_val_take_unfold(old(w)@, ii);
            assert((cur as nat) == (nb as nat) * (d as nat) + (rem as nat)) by (nonlinear_arith)
                requires
                    2 <= (d as nat) <= 16 && (nb as nat) == (cur as nat) / (d as nat) && (
                    rem as nat) == (cur as nat) % (d as nat),
            ;
            let q = be_val(w@.take(ii));
            let dd = d as nat;
            assert((q * 256 + nb) * dd + rem == q * dd * 256 + ((nb as nat) * dd + rem))
                by (nonlinear_arith);
            assert(q * dd * 256 + oldrem * 256 == (q * dd + oldrem) * 256) by (nonlinear_arith);
            // chain into the invariant for i + 1
            assert(be_val(w@.take(ii + 1)) * dd + rem == (q * 256 + nb) * dd + rem);
            assert(q * dd + oldrem == be_val(old(w)@.take(ii)));
            assert(be_val(old(w)@.take(ii + 1)) == be_val(old(w)@.take(ii)) * 256 + old(w)@[ii]);
        }
        i += 1;
    }
    assert(w@.take(32) =~= w@);
    assert(old(w)@.take(32) =~= old(w)@);
    rem as u8
}

/// Is the word zero?
pub fn word_is_zero(w: &Vec<u8>) -> (r: bool)
    requires
        w@.len() == 32,
    ensures
        r <==> be_val(w@) == 0,
{
    let mut i: usize = 0;
    let mut all0 = true;
    while i < 32
        invariant
            w@.len() == 32,
            0 <= i <= 32,
            all0 <==> (forall|k: int| 0 <= k < i ==> w@[k] == 0),
        decreases 32 - i,
    {
        if w[i] != 0 {
            all0 = false;
        }
        i += 1;
    }
    proof {
        lemma_be_val_zero(w@);
    }
    all0
}

/// Does the word value fit in 128 bits?
pub fn word_fits_u128(w: &Vec<u8>) -> (r: bool)
    requires
        w@.len() == 32,
    ensures
        r <==> be_val(w@) < pow(256, 16),
{
    let mut i: usize = 0;
    let mut all0 = true;
    while i < 16
        invariant
            w@.len() == 32,
            0 <= i <= 16,
            all0 <==> (forall|k: int| 0 <= k < i ==> w@[k] == 0),
        decreases 16 - i,
    {
        if w[i] != 0 {
            all0 = false;
        }
        i += 1;
    }
    proof {
        let hi = w@.take(16);
        let lo = w@.skip(16);
        assert(w@ =~= hi + lo);
        lemma_be_val_append(hi, lo);
        lemma_be_val_zero(hi);
        lemma_be_val_bound(lo);
        let p = pow(256, 16);
        if all0 {
            assert(forall|k: int| 0 <= k < 16 ==> hi[k] == #[trigger] w@[k]);
            assert(be_val(hi) == 0);
        } else {
            assert(be_val(hi) >= 1);
            assert(be_val(hi) * p >= p) by (nonlinear_arith)
                requires
                    be_val(hi) >= 1 && p >= 0,
            ;
        }
    }
    all0
}

// ---------------------------------------------------------------------------
// Numeric texts
// ---------------------------------------------------------------------------

pub open spec fn digit_ok(c: u8, radix: u32) -> bool {
    if radix == 16 {
        is_hex_digit(c)
    } else {
        is_dec_digit(c)
    }
}

pub open spec fn digit_value(c: u8, radix: u32) -> nat {
    if radix == 16 {
        hex_val(c)
    } else {
        dec_val(c)
    }
}

pub open spec fn all_digits(s: Seq<u8>, radix: u32) -> bool {
    forall|i: int| 0 <= i < s.len() ==> digit_ok(s[i], radix)
}

/// The numeric value of a digit string, most significant digit first.
pub open spec fn text_value(s: Seq<u8>, radix: u32) -> nat
    decreases s.len(),
{
    if s.len() == 0 {
        0
    } else {
        text_value(s.drop_last(), radix) * (radix as nat) + digit_value(s.last(), radix)
    }
}

pub open spec fn dec_value(s: Seq<u8>) -> nat {
    text_value(s, 10)
}

/// A value text: decimal digits, or hex digits after a `0x` prefix.
pub open spec fn is_value_text(s: Seq<u8>) -> bool {
    if has_0x(s) {
        s.skip(2).len() > 0 && all_digits(s.skip(2), 16) && text_value(s.skip(2), 16) < pow(256, 32)
    } else {
        s.len() > 0 && all_digits(s, 10) && text_value(s, 10) < pow(256, 32)
    }
}

pub open spec fn value_of_text(s: Seq<u8>) -> nat {
    if has_0x(s) {
        text_value(s.skip(2), 16)
    } else {
        text_value(s, 10)
    }
}

proof fn lemma_text_value_mono(s: Seq<u8>, radix: u32, i: int)
    requires
        0 <= i <= s.len(),
        radix >= 2,
    ensures
        text_value(s.take(i), radix) <= text_value(s, radix),
    decreases s.len() - i,
{
    if i < s.len() {
        assert(s.take(i + 1).drop_last() =~= s.take(i));
        assert(s.take(i + 1).last() == s[i]);
        let a = text_value(s.take(i), radix);
        assert(text_value(s.take(i + 1), radix) == a * radix + digit_value(s[i], radix));
        assert(a * radix >= a) by (nonlinear_arith)
            requires
                radix >= 2,
        ;
        lemma_text_value_mono(s, radix, i + 1);
    } else {
        assert(s.take(i) =~= s);
    }
}

/// The value of one decimal digit, or `None`.
pub fn dec_digit_value(c: u8) -> (r: Option<u8>)
    ensures
        r.is_some() <==> is_dec_digit(c),
        r.is_some() ==> r.unwrap() == dec_val(c) && r.unwrap() < 10,
{
    if 48 <= c && c <= 57 {
        Some(c - 48)
    } else {
        None
    }
}

/// Parse a digit string in the given radix into a 32-byte big-endian word.
///
/// Fails on an empty string, on any non-digit character, and on values that
/// do not fit in 256 bits.
pub fn parse_u256(text: &[u8], radix: u32) -> (r: Result<Vec<u8>, BridgeError>)
    requires
        radix == 10 || radix == 16,
    ensures
        r.is_ok() <==> (text@.len() > 0 && all_digits(text@, radix) && text_value(text@, radix)
            < pow(256, 32)),
        r.is_ok() ==> r.unwrap()@.len() == 32 && be_val(r.unwrap()@) == text_value(text@, radix),
        r.is_err() ==> r matches Err(BridgeError::MalformedInput),
{
    if text.len() == 0 {
        return Err(BridgeError::MalformedInput);
    }
    let mut w = zero_word();
    let mut i: usize = 0;
    proof {
        assert(text@.take(0) =~= Seq::<u8>::empty());
        lemma_pow_pos(256, 32);
    }
    while i < text.len()
        invariant
            radix == 10 || radix == 16,
            w@.len() == 32,
            0 <= i <= text@.len(),
            forall|k: int| 0 <= k < i ==> digit_ok(text@[k], radix),
            be_val(w@) == text_value(text@.take(i as int), radix),
            text_value(text@.take(i as int), radix) < pow(256, 32),
        decreases text@.len() - i,
    {
        let c = text[i];
        let dv = if radix == 16 {
            hex_digit_value(c)
        } else {
            dec_digit_value(c)
        };
        let d = match dv {
            Some(v) => v,
            None => {
                assert(!digit_ok(text@[i as int], radix));
                return Err(BridgeError::MalformedInput);
            },
        };
        assert(d == digit_value(text@[i as int], radix) && d < radix);
        let ov = word_mul_add(&mut w, radix as u8, d);
        proof {
            assert(text@.take(i as int + 1).drop_last() =~= text@.take(i as int));
            assert(text@.take(i as int + 1).last() == text@[i as int]);
            lemma_be_val_bound(w@);
        }
        if ov {
            proof {
                lemma_text_value_mono(text@, radix, i as int + 1);
            }
            return Err(BridgeError::MalformedInput);
        }
        i += 1;
    }
    assert(text@.take(text@.len() as int) =~= text@);
    Ok(w)
}

/// Parse a value text, choosing hexadecimal when it carries a `0x` prefix
/// and decimal otherwise.
pub fn parse_value(text: &[u8]) -> (r: Result<Vec<u8>, BridgeError>)
    ensures
        r.is_ok() <==> is_value_text(text@),
        r.is_ok() ==> r.unwrap()@.len() == 32 && be_val(r.unwrap()@) == value_of_text(text@),
        r.is_err() ==> r matches Err(BridgeError::MalformedInput),
{
    if text.len() >= 2 && text[0] == 48 && text[1] == 120 {
        let rest = &text[2..text.len()];
        assert(rest@ =~= text@.skip(2));
        parse_u256(rest, 16)
    } else {
        parse_u256(text, 10)
    }
}

// ---------------------------------------------------------------------------
// Decimal formatting
// ---------------------------------------------------------------------------

/// The canonical decimal text of a number: no leading zero except for `0`.
pub open spec fn dec_text(n: nat) -> Seq<u8>
    decreases n,
{
    if n < 10 {
        seq![(48 + n) as u8]
    } else {
        dec_text(n / 10).push((48 + n % 10) as u8)
    }
}

/// A canonical decimal text: nonempty digits without a superfluous leading zero.
pub open spec fn canonical_dec(s: Seq<u8>) -> bool {
    s.len() > 0 && all_dec(s) && (s.len() == 1 || s[0] != 48)
}

proof fn lemma_dec_text_props(n: nat)
    ensures
        canonical_dec(dec_text(n)),
        dec_value(dec_text(n)) == n,
        n > 0 ==> dec_text(n)[0] != 48,
    decreases n,
{
    if n < 10 {
        let s = dec_text(n);
        assert(s =~= seq![(48 + n) as u8]);
        assert(s.drop_last() =~= Seq::<u8>::empty());
        assert(dec_value(s) == dec_value(Seq::<u8>::empty()) * 10 + dec_val(s.last()));
    } else {
        lemma_dec_text_props(n / 10);
        let p = dec_text(n / 10);
        let s = dec_text(n);
        assert(s == p.push((48 + n % 10) as u8));
        assert(s.drop_last() =~= p);
        assert(s.last() == (48 + n % 10) as u8);
        assert(dec_value(s) == dec_value(p) * 10 + dec_val(s.last()));
        assert(dec_value(s) == (n / 10) * 10 + n % 10);
        assert(s[0] == p[0]);
        assert forall|i: int| 0 <= i < s.len() implies is_dec_digit(s[i]) by {
            if i < s.len() - 1 {
                assert(s[i] == p[i]);
            }
        };
    }
}

proof fn lemma_dec_lower(s: Seq<u8>)
    requires
        s.len() >= 1,
        all_dec(s),
    ensures
        dec_value(s) >= dec_val(s[0]) * pow(10, (s.len() - 1) as nat),
    decreases s.len(),
{
    if s.len() == 1 {
        assert(s.drop_last() =~= Seq::<u8>::empty());
        assert(dec_value(s) == dec_val(s[0]));
        assert(pow(10, 0) == 1);
    } else {
        assert(all_dec(s.drop_last())) by {
            assert(forall|i: int|
                0 <= i < s.len() - 1 ==> #[trigger] s.drop_last()[i] == s[i]);
        };
        lemma_dec_lower(s.drop_last());
        let d0 = dec_val(s[0]);
        let p = pow(10, (s.len() - 2) as nat);
        assert(s.drop_last()[0] == s[0]);
        assert(dec_value(s) == dec_value(s.drop_last()) * 10 + dec_val(s.last()));
        assert(pow(10, (s.len() - 1) as nat) == 10 * p);
        assert(dec_value(s.drop_last()) * 10 >= (d0 * p) * 10) by (nonlinear_arith)
            requires
                dec_value(s.drop_last()) >= d0 * p,
        ;
        assert((d0 * p) * 10 == d0 * (10 * p)) by (nonlinear_arith);
    }
}

/// A canonical decimal text is recovered exactly from its value.
proof fn lemma_dec_text_canonical(s: Seq<u8>)
    requires
        canonical_dec(s),
    ensures
        dec_text(dec_value(s)) == s,
    decreases s.len(),
{
    if s.len() == 1 {
        assert(s.drop_last() =~= Seq::<u8>::empty());
        assert(text_value(Seq::<u8>::empty(), 10) == 0);
        assert(dec_value(s) == text_value(s.drop_last(), 10) * 10 + dec_val(s.last()));
        assert(dec_value(s) == dec_val(s[0]));
        assert(dec_text(dec_value(s)) =~= s);
    } else {
        let t = s.drop_last();
        assert(t.len() == s.len() - 1);
        assert(all_dec(t)) by {
            assert(forall|i: int| 0 <= i < t.len() ==> #[trigger] t[i] == s[i]);
        };
        assert(t[0] == s[0]);
        assert(canonical_dec(t));
        lemma_dec_lower(t);
        lemma_pow_pos(10, (t.len() - 1) as nat);
        assert(dec_val(t[0]) >= 1);
        assert(dec_val(t[0]) * pow(10, (t.len() - 1) as nat) >= 1) by (nonlinear_arith)
            requires
                dec_val(t[0]) >= 1 && pow(10, (t.len() - 1) as nat) >= 1,
        ;
        let v = dec_value(s);
        assert(v == dec_value(t) * 10 + dec_val(s.last()));
        assert(v >= 10) by (nonlinear_arith)
            requires
                v == dec_value(t) * 10 + dec_val(s.last()) && dec_value(t) >= 1,
        ;
        assert(v / 10 == dec_value(t) && v % 10 == dec_val(s.last())) by (nonlinear_arith)
            requires
                v == dec_value(t) * 10 + dec_val(s.last()) && dec_val(s.last()) < 10,
        ;
        lemma_dec_text_canonical(t);
        assert(dec_text(v) == dec_text(v / 10).push((48 + v % 10) as u8));
        assert((48 + v % 10) as u8 == s.last());
        assert(dec_text(v) =~= s);
    }
}

/// Leading zeros removed, except that `0` itself keeps one digit.
pub open spec fn strip_zeros(s: Seq<u8>) -> Seq<u8>
    decreases s.len(),
{
    if s.len() > 1 && s[0] == 48 {
        strip_zeros(s.skip(1))
    } else {
        s
    }
}

proof fn lemma_dec_drop_zero(s: Seq<u8>)
    requires
        s.len() >= 1,
        s[0] == 48,
    ensures
        dec_value(s.skip(1)) == dec_value(s),
    decreases s.len(),
{
    if s.len() == 1 {
        assert(s.skip(1) =~= Seq::<u8>::empty());
        assert(s.drop_last() =~= Seq::<u8>::empty());
        assert(text_value(Seq::<u8>::empty(), 10) == 0);
        assert(dec_value(s) == text_value(s.drop_last(), 10) * 10 + dec_val(s.last()));
        assert(dec_val(s[0]) == 0);
    } else {
        let t = s.drop_last();
        assert(t[0] == s[0]);
        lemma_dec_drop_zero(t);
        assert(s.skip(1).drop_last() =~= t.skip(1));
        assert(s.skip(1).last() == s.last());
        assert(dec_value(s.skip(1)) == dec_value(t.skip(1)) * 10 + dec_val(s.last()));
        assert(dec_value(s) == dec_value(t) * 10 + dec_val(s.last()));
    }
}

proof fn lemma_strip_zeros(s: Seq<u8>)
    requires
        s.len() > 0,
        all_dec(s),
    ensures
        canonical_dec(strip_zeros(s)),
        dec_value(strip_zeros(s)) == dec_value(s),
    decreases s.len(),
{
    if s.len() > 1 && s[0] == 48 {
        assert(all_dec(s.skip(1))) by {
            assert(forall|i: int|
                0 <= i < s.len() - 1 ==> #[trigger] s.skip(1)[i] == s[i + 1]);
        };
        lemma_strip_zeros(s.skip(1));
        lemma_dec_drop_zero(s);
    }
}

/// Round trip for decimal value texts: parsing a valid decimal text and
/// formatting the result yields the text with its leading zeros stripped.
pub proof fn lemma_decimal_round_trip(s: Seq<u8>)
    requires
        s.len() > 0,
        all_dec(s),
        dec_value(s) < pow(256, 32),
    ensures
        dec_text(dec_value(s)) == strip_zeros(s),
{
    lemma_strip_zeros(s);
    lemma_dec_text_canonical(strip_zeros(s));
}

/// Format a 32-byte big-endian word as its canonical decimal text.
pub fn format_u256(word: &Vec<u8>) -> (r: Vec<u8>)
    requires
        word@.len() == 32,
    ensures
        r@ == dec_text(be_val(word@)),
        canonical_dec(r@),
        dec_value(r@) == be_val(word@),
{
    let ghost v0 = be_val(word@);
    let mut w = word.clone();
    assert(w@ =~= word@);
    let mut digits: Vec<u8> = Vec::new();
    let ghost mut tail: Seq<u8> = Seq::empty();
    let mut z = word_is_zero(&w);
    assert(dec_text(v0) + Seq::<u8>::empty() =~= dec_text(v0));
    while !z
        invariant
            w@.len() == 32,
            z <==> be_val(w@) == 0,
            digits@.len() == tail.len(),
            forall|k: int| 0 <= k < digits@.len() ==> digits@[k] == tail[tail.len() - 1 - k],
            v0 > 0 || (tail =~= Seq::<u8>::empty() && be_val(w@) == v0),
            be_val(w@) > 0 && v0 > 0 ==> dec_text(v0) == dec_text(be_val(w@)) + tail,
            be_val(w@) == 0 && v0 > 0 ==> dec_text(v0) == tail,
        decreases be_val(w@),
    {
        let ghost prev_val = be_val(w@);
        let rem = word_divmod(&mut w, 10);
        let c: u8 = 48 + rem;
        digits.push(c);
        proof {
            let nv = be_val(w@);
            assert(prev_val == nv * 10 + rem);
            assert(prev_val > 0);
            if v0 == 0 {
                assert(false);
            }
            let oldtail = tail;
            tail = seq![c] + tail;
            if nv > 0 {
                assert(prev_val >= 10) by (nonlinear_arith)
                    requires
                        prev_val == nv * 10 + rem && nv >= 1,
                ;
                assert(prev_val / 10 == nv && prev_val % 10 == rem) by (nonlinear_arith)
                    requires
                        prev_val == nv * 10 + rem && rem < 10,
                ;
                assert(dec_text(prev_val) == dec_text(nv).push(c));
                assert(dec_text(nv).push(c) + oldtail =~= dec_text(nv) + (seq![c] + oldtail));
                assert(dec_text(v0) == dec_text(nv) + tail);
            } else {
                assert(prev_val == rem);
                assert(prev_val < 10);
                assert(dec_text(prev_val) =~= seq![c]);
                assert(dec_text(prev_val) + oldtail =~= seq![c] + oldtail);
                assert(dec_text(v0) == tail);
            }
            assert(nv < prev_val) by (nonlinear_arith)
                requires
                    prev_val == nv * 10 + rem && prev_val > 0 && rem < 10,
            ;
        }
        z = word_is_zero(&w);
    }
    if digits.len() == 0 {
        assert(v0 == 0);
        let mut out: Vec<u8> = Vec::new();
        out.push(48);
        assert(out@ =~= dec_text(0));
        proof {
            lemma_dec_text_props(0);
        }
        return out;
    }
    assert(v0 > 0);
    assert(dec_text(v0) == tail);
    let mut out: Vec<u8> = Vec::new();
    let n = digits.len();
    let mut i: usize = 0;
    while i < n
        invariant
            digits@.len() == n,
            n == tail.len(),
            0 <= i <= n,
            out@.len() == i,
            forall|k: int| 0 <= k < n ==> digits@[k] == tail[n - 1 - k],
            forall|k: int| 0 <= k < i ==> out@[k] == tail[k],
        decreases n - i,
    {
        out.push(digits[n - 1 - i]);
        i += 1;
    }
    assert(out@ =~= tail);
    proof {
        lemma_dec_text_props(v0);
    }
    out
}

} // verus!
