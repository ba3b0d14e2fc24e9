//! Standard base64 encoding (RFC 4648 alphabet, `=` padding), used to hand
//! image bytes to the preview as a `data:` URL.
use vstd::prelude::*;

verus! {

/// The character of the standard alphabet for the 6-bit value `n`.
pub open spec fn alphabet(n: int) -> char {
    if n < 26 {
        (65 + n) as char
    } else if n < 52 {
        (97 + (n - 26)) as char
    } else if n < 62 {
        (48 + (n - 52)) as char
    } else if n == 62 {
        '+'
    } else {
        '/'
    }
}

/// The four characters of three bytes.
pub open spec fn group(b0: int, b1: int, b2: int) -> Seq<char> {
    seq![
        alphabet(b0 / 4),
        alphabet((b0 % 4) * 16 + b1 / 16),
        alphabet((b1 % 16) * 4 + b2 / 64),
        alphabet(b2 % 64),
    ]
}

/// The characters of the first `g` whole groups of three bytes.
pub open spec fn full_groups(b: Seq<u8>, g: nat) -> Seq<char>
    decreases g,
{
    if g == 0 {
        Seq::empty()
    } else {
        full_groups(b, (g - 1) as nat) + group(b[3 * g - 3] as int, b[3 * g - 2] as int, b[3 * g - 1] as int)
    }
}

/// The padded characters of the one or two bytes left from index `i` on.
pub open spec fn padded_tail(b: Seq<u8>, i: int) -> Seq<char> {
    let x = b[i] as int;
    let y = b[i + 1] as int;
    if b.len() - i == 1 {
        seq![alphabet(x / 4), alphabet((x % 4) * 16), '=', '=']
    } else if b.len() - i == 2 {
        seq![
            alphabet(x / 4),
            alphabet((x % 4) * 16 + y / 16),
            alphabet((y % 16) * 4),
            '=',
        ]
    } else {
        Seq::empty()
    }
}

/// The base64 text of `b`.
pub open spec fn base64(b: Seq<u8>) -> Seq<char> {
    full_groups(b, b.len() / 3) + padded_tail(b, 3 * (b.len() / 3) as int)
}

/// The character for the 6-bit value `n`.
fn alphabet_char(n: u8) -> (c: char)
    requires
        n < 64,
    ensures
        c == alphabet(n as int),
{
    if n < 26 {
        (65 + n) as char
    } else if n < 52 {
        (97 + (n - 26)) as char
    } else if n < 62 {
        (48 + (n - 52)) as char
    } else if n == 62 {
        '+'
    } else {
        '/'
    }
}

/// Base64 encoding with the standard alphabet.
pub fn encode_base64(bytes: &[u8]) -> (r: String)
    ensures
        r@ == base64(bytes@),
{
    let ghost b = bytes@;
    let mut out = String::new();
    let mut i: usize = 0;
    let ghost mut g: nat = 0;
    while bytes.len() - i >= 3
        invariant
            b == bytes@,
            i == 3 * g,
            i <= bytes.len(),
            out@ == full_groups(b, g),
        decreases bytes.len() - i,
    {
        let b0 = bytes[i];
        let b1 = bytes[i + 1];
        let b2 = bytes[i + 2];
        out.push(alphabet_char(b0 / 4));
        out.push(alphabet_char((b0 % 4) * 16 + b1 / 16));
        out.push(alphabet_char((b1 % 16) * 4 + b2 / 64));
        out.push(alphabet_char(b2 % 64));
        proof {
            g = g + 1;
            assert(full_groups(b, g) == full_groups(b, (g - 1) as nat) + group(b0 as int, b1 as int, b2 as int));
        }
        assert(out@ =~= full_groups(b, g));
        i = i + 3;
    }
    assert(g == bytes.len() / 3);
    let rem = bytes.len() - i;
    if rem == 1 {
        let b0 = bytes[i];
        out.push(alphabet_char(b0 / 4));
        out.push(alphabet_char((b0 % 4) * 16));
        out.push('=');
        out.push('=');
    } else if rem == 2 {
        let b0 = bytes[i];
        let b1 = bytes[i + 1];
        out.push(alphabet_char(b0 / 4));
        out.push(alphabet_char((b0 % 4) * 16 + b1 / 16));
        out.push(alphabet_char((b1 % 16) * 4));
        out.push('=');
    }
    assert(out@ =~= base64(b));
    out
}

proof fn lemma_full_groups_len(b: Seq<u8>, g: nat)
    ensures
        full_groups(b, g).len() == 4 * g,
    decreases g,
{
    if g > 0 {
        lemma_full_groups_len(b, (g - 1) as nat);
    }
}

/// The encoding has four characters for every started group of three bytes.
pub proof fn base64_length(b: Seq<u8>)
    ensures
        base64(b).len() == 4 * ((b.len() + 2) / 3),
{
    lemma_full_groups_len(b, b.len() / 3);
}

/// Whether `c` is a character of the standard alphabet.
pub open spec fn in_alphabet(c: char) -> bool {
    ('A' <= c <= 'Z') || ('a' <= c <= 'z') || ('0' <= c <= '9') || c == '+' || c == '/'
}

proof fn lemma_alphabet(n: int)
    requires
        0 <= n < 64,
    ensures
        in_alphabet(alphabet(n)),
{
}

proof fn lemma_full_groups_chars(b: Seq<u8>, g: nat)
    requires
        3 * g <= b.len(),
    ensures
        forall|k: int| 0 <= k < full_groups(b, g).len() ==> in_alphabet(#[trigger] full_groups(b, g)[k]),
    decreases g,
{
    lemma_full_groups_len(b, g);
    if g > 0 {
        let p = (g - 1) as nat;
        lemma_full_groups_chars(b, p);
        lemma_full_groups_len(b, p);
        let x = b[3 * g - 3] as int;
        let y = b[3 * g - 2] as int;
        let z = b[3 * g - 1] as int;
        lemma_alphabet(x / 4);
        lemma_alphabet((x % 4) * 16 + y / 16);
        lemma_alphabet((y % 16) * 4 + z / 64);
        lemma_alphabet(z % 64);
        assert forall|k: int| 0 <= k < full_groups(b, g).len() implies in_alphabet(
            #[trigger] full_groups(b, g)[k],
        ) by {
            if k < full_groups(b, p).len() {
                assert(full_groups(b, g)[k] == full_groups(b, p)[k]);
            } else {
                assert(full_groups(b, g)[k] == group(x, y, z)[k - 4 * p]);
            }
        }
    }
}

/// Every character of the encoding is of the alphabet, but the padding,
/// which comes only at the end (at most two `=`).
pub proof fn base64_characters(b: Seq<u8>)
    ensures
        forall|k: int|
            0 <= k < base64(b).len() ==> in_alphabet(#[trigger] base64(b)[k]) || (base64(b)[k] == '='
                && k >= base64(b).len() - 2),
{
    let g = b.len() / 3;
    lemma_full_groups_chars(b, g);
    lemma_full_groups_len(b, g);
    let i = (3 * g) as int;
    let x = b[i] as int;
    let y = b[i + 1] as int;
    if b.len() - i >= 1 {
        lemma_alphabet(x / 4);
        lemma_alphabet((x % 4) * 16);
    }
    if b.len() - i == 2 {
        lemma_alphabet((x % 4) * 16 + y / 16);
        lemma_alphabet((y % 16) * 4);
    }
    assert forall|k: int| 0 <= k < base64(b).len() implies in_alphabet(#[trigger] base64(b)[k]) || (
    base64(b)[k] == '=' && k >= base64(b).len() - 2) by {
        if k < 4 * g {
            assert(base64(b)[k] == full_groups(b, g)[k]);
        } else {
            assert(base64(b)[k] == padded_tail(b, i)[k - 4 * g]);
        }
    }
}

// ---------------------------------------------------------------------------
// Decoding
// ---------------------------------------------------------------------------
/// The 6-bit value of a character of the standard alphabet.
pub open spec fn sextet(c: char) -> int {
    if 'A' <= c <= 'Z' {
        c as int - 65
    } else if 'a' <= c <= 'z' {
        c as int - 97 + 26
    } else if '0' <= c <= '9' {
        c as int - 48 + 52
    } else if c == '+' {
        62
    } else {
        63
    }
}

/// The bytes of one group of four characters; `=` in the third or fourth
/// place marks a group of one or two bytes.
pub open spec fn decode_quad(q: Seq<char>) -> Seq<u8> {
    let a = sextet(q[0]);
    let b = sextet(q[1]);
    let c = sextet(q[2]);
    let d = sextet(q[3]);
    let x0 = (a * 4 + b / 16) as u8;
    let x1 = ((b % 16) * 16 + c / 4) as u8;
    let x2 = ((c % 4) * 64 + d) as u8;
    if q[2] == '=' {
        seq![x0]
    } else if q[3] == '=' {
        seq![x0, x1]
    } else {
        seq![x0, x1, x2]
    }
}

/// Standard (RFC 4648) base64 decoding of a padded text, group by group.
pub open spec fn base64_decode(s: Seq<char>) -> Seq<u8>
    decreases s.len(),
{
    if s.len() < 4 {
        seq![]
    } else {
        decode_quad(s.subrange(0, 4)) + base64_decode(s.subrange(4, s.len() as int))
    }
}

proof fn lemma_sextet(n: int)
    requires
        0 <= n < 64,
    ensures
        sextet(alphabet(n)) == n,
        alphabet(n) != '=',
{
}

proof fn lemma_decode_concat(x: Seq<char>, y: Seq<char>)
    requires
        x.len() % 4 == 0,
    ensures
        base64_decode(x + y) == base64_decode(x) + base64_decode(y),
    decreases x.len(),
{
    if x.len() == 0 {
        assert(x + y =~= y);
        assert(base64_decode(x) =~= Seq::<u8>::empty());
        assert(Seq::<u8>::empty() + base64_decode(y) =~= base64_decode(y));
    } else {
        let rest = x.subrange(4, x.len() as int);
        lemma_decode_concat(rest, y);
        assert((x + y).subrange(0, 4) =~= x.subrange(0, 4));
        assert((x + y).subrange(4, (x + y).len() as int) =~= rest + y);
        let q = decode_quad(x.subrange(0, 4));
        assert(q + (base64_decode(rest) + base64_decode(y)) =~= (q + base64_decode(rest))
            + base64_decode(y));
    }
}

proof fn lemma_decode_group(b0: int, b1: int, b2: int)
    requires
        0 <= b0 < 256,
        0 <= b1 < 256,
        0 <= b2 < 256,
    ensures
        base64_decode(group(b0, b1, b2)) == seq![b0 as u8, b1 as u8, b2 as u8],
{
    let g = group(b0, b1, b2);
    lemma_sextet(b0 / 4);
    lemma_sextet((b0 % 4) * 16 + b1 / 16);
    lemma_sextet((b1 % 16) * 4 + b2 / 64);
    lemma_sextet(b2 % 64);
    assert(g.subrange(0, 4) =~= g);
    assert(base64_decode(g.subrange(4, 4)) =~= Seq::<u8>::empty());
    assert(decode_quad(g) =~= seq![b0 as u8, b1 as u8, b2 as u8]);
    assert(decode_quad(g) + Seq::<u8>::empty() =~= decode_quad(g));
}

proof fn lemma_decode_full_groups(b: Seq<u8>, g: nat)
    requires
        3 * g <= b.len(),
    ensures
        base64_decode(full_groups(b, g)) == b.subrange(0, 3 * g as int),
    decreases g,
{
    if g == 0 {
        assert(base64_decode(Seq::<char>::empty()) =~= b.subrange(0, 0));
    } else {
        let p = (g - 1) as nat;
        lemma_decode_full_groups(b, p);
        lemma_full_groups_len(b, p);
        let x = b[3 * g - 3] as int;
        let y = b[3 * g - 2] as int;
        let z = b[3 * g - 1] as int;
        lemma_decode_concat(full_groups(b, p), group(x, y, z));
        lemma_decode_group(x, y, z);
        assert(b.subrange(0, 3 * p as int) + seq![x as u8, y as u8, z as u8] =~= b.subrange(0, 3 * g as int));
    }
}

/// Decoding the encoding gives the bytes back.
pub proof fn base64_round_trip(b: Seq<u8>)
    ensures
        base64_decode(base64(b)) == b,
{
    let g = b.len() / 3;
    let i = (3 * g) as int;
    lemma_full_groups_len(b, g);
    lemma_decode_full_groups(b, g);
    let t = padded_tail(b, i);
    lemma_decode_concat(full_groups(b, g), t);
    let x = b[i] as int;
    let y = b[i + 1] as int;
    if b.len() - i == 1 {
        lemma_sextet(x / 4);
        lemma_sextet((x % 4) * 16);
        assert(t.subrange(0, 4) =~= t);
        assert(base64_decode(t.subrange(4, 4)) =~= Seq::<u8>::empty());
        assert(base64_decode(t) =~= seq![x as u8]);
        assert(b.subrange(0, i) + seq![x as u8] =~= b);
    } else if b.len() - i == 2 {
        lemma_sextet(x / 4);
        lemma_sextet((x % 4) * 16 + y / 16);
        lemma_sextet((y % 16) * 4);
        assert(t.subrange(0, 4) =~= t);
        assert(base64_decode(t.subrange(4, 4)) =~= Seq::<u8>::empty());
        assert(base64_decode(t) =~= seq![x as u8, y as u8]);
        assert(b.subrange(0, i) + seq![x as u8, y as u8] =~= b);
    } else {
        assert(base64_decode(t) =~= Seq::<u8>::empty());
        assert(b.subrange(0, i) + Seq::<u8>::empty() =~= b);
    }
}

} // verus!
