//! The pairing QR envelope: a challenge's fields as `|`-separated text, ids
//! and bytes in lower-case hex, the expiry in decimal, closed by the
//! authorizer's signature over everything before it.
use vstd::prelude::*;
use crate::pairing::ed25519_valid;
use crate::text::{
    decimal_spec, is_digit, lemma_decimal_round_trip, parse_unsigned, parse_unsigned_spec, str_eq,
    u64_to_decimal,
};

verus! {

/// The field separator.
pub open spec fn is_bar(c: char) -> bool {
    c == '|'
}

pub open spec fn no_bar(s: Seq<char>) -> bool {
    forall|i: int| 0 <= i < s.len() ==> !is_bar(#[trigger] s[i])
}

/// `s` cut at every `|`, as `str::split` cuts it.
pub open spec fn split_spec(s: Seq<char>) -> Seq<Seq<char>>
    decreases s.len(),
{
    if s.len() == 0 {
        seq![Seq::<char>::empty()]
    } else {
        let p = split_spec(s.drop_last());
        if is_bar(s.last()) {
            p.push(Seq::empty())
        } else {
            p.update(p.len() - 1, p.last().push(s.last()))
        }
    }
}

/// The fields joined with `|` between them.
pub open spec fn join_spec(fs: Seq<Seq<char>>) -> Seq<char>
    decreases fs.len(),
{
    if fs.len() == 0 {
        Seq::empty()
    } else if fs.len() == 1 {
        fs[0]
    } else {
        join_spec(fs.drop_last()) + seq!['|'] + fs.last()
    }
}

proof fn lemma_split_len(s: Seq<char>)
    ensures
        split_spec(s).len() >= 1,
    decreases s.len(),
{
    if s.len() > 0 {
        lemma_split_len(s.drop_last());
    }
}

proof fn lemma_split_plain_suffix(a: Seq<char>, b: Seq<char>)
    requires
        no_bar(b),
    ensures
        split_spec(a + b) == split_spec(a).update(
            split_spec(a).len() - 1,
            split_spec(a).last() + b,
        ),
    decreases b.len(),
{
    lemma_split_len(a);
    if b.len() == 0 {
        assert(a + b =~= a);
        assert(split_spec(a).last() + b =~= split_spec(a).last());
        assert(split_spec(a).update(split_spec(a).len() - 1, split_spec(a).last())
            =~= split_spec(a));
    } else {
        let b0 = b.drop_last();
        assert((a + b).drop_last() =~= a + b0);
        assert((a + b).last() == b.last());
        assert(no_bar(b0)) by {
            assert forall|i: int| 0 <= i < b0.len() implies !is_bar(#[trigger] b0[i]) by {
                assert(b0[i] == b[i]);
            }
        }
        assert(!is_bar(b.last())) by {
            assert(b[b.len() - 1] == b.last());
        }
        lemma_split_plain_suffix(a, b0);
        lemma_split_len(a + b0);
        let p = split_spec(a);
        assert(p.last() + b0 + seq![b.last()] =~= p.last() + b);
        let p2 = split_spec(a + b0);
        assert(p2 == p.update(p.len() - 1, p.last() + b0));
        assert(p2.len() == p.len());
        assert(p2.last() == p.last() + b0);
        assert(split_spec(a + b) == p2.update(p2.len() - 1, p2.last().push(b.last())));
        assert(p2.last().push(b.last()) =~= p.last() + b);
        assert(split_spec(a + b) =~= p.update(p.len() - 1, p.last() + b));
    }
}

/// Splitting the joined fields gives them back when none holds a `|`.
pub proof fn lemma_split_join(fs: Seq<Seq<char>>)
    requires
        fs.len() >= 1,
        forall|i: int| 0 <= i < fs.len() ==> no_bar(#[trigger] fs[i]),
    ensures
        split_spec(join_spec(fs)) == fs,
    decreases fs.len(),
{
    if fs.len() == 1 {
        lemma_split_plain_suffix(Seq::empty(), fs[0]);
        assert(Seq::<char>::empty() + fs[0] =~= fs[0]);
        assert(Seq::<char>::empty() + fs[0] =~= fs[0]);
        assert(split_spec(fs[0]) =~= fs);
    } else {
        let pre = fs.drop_last();
        assert forall|i: int| 0 <= i < pre.len() implies no_bar(#[trigger] pre[i]) by {
            assert(pre[i] == fs[i]);
        }
        lemma_split_join(pre);
        let j = join_spec(pre);
        let jb = j + seq!['|'];
        assert(jb.drop_last() =~= j);
        assert(split_spec(jb) == split_spec(j).push(Seq::empty()));
        assert(no_bar(fs.last())) by {
            assert(fs[fs.len() - 1] == fs.last());
        }
        lemma_split_plain_suffix(jb, fs.last());
        assert(Seq::<char>::empty() + fs.last() =~= fs.last());
        assert(split_spec(join_spec(fs)) =~= fs);
    }
}

/// Cuts `s` at every `|`.
pub fn split_fields(s: &str) -> (r: Vec<String>)
    ensures
        r@.len() == split_spec(s@).len(),
        forall|i: int| 0 <= i < r@.len() ==> (#[trigger] r@[i])@ == split_spec(s@)[i],
{
    let n = s.unicode_len();
    let mut parts: Vec<String> = Vec::new();
    let mut start: usize = 0;
    let mut i: usize = 0;
    while i < n
        invariant
            n == s@.len(),
            0 <= start <= i <= n,
            parts@.len() + 1 == split_spec(s@.subrange(0, i as int)).len(),
            forall|k: int| 0 <= k < parts@.len() ==> (#[trigger] parts@[k])@ == split_spec(
                s@.subrange(0, i as int),
            )[k],
            split_spec(s@.subrange(0, i as int)).last() == s@.subrange(start as int, i as int),
        decreases n - i,
    {
        let ghost pre = s@.subrange(0, i as int);
        let ghost nxt = s@.subrange(0, i + 1);
        assert(nxt.drop_last() =~= pre);
        assert(nxt.last() == s@[i as int]);
        proof {
            lemma_split_len(pre);
        }
        if s.get_char(i) == '|' {
            parts.push(s.substring_char(start, i).to_string());
            start = i + 1;
            assert(s@.subrange(start as int, i + 1) =~= Seq::<char>::empty());
        } else {
            assert(s@.subrange(start as int, i + 1) =~= s@.subrange(start as int, i as int).push(
                s@[i as int],
            ));
        }
        i += 1;
    }
    parts.push(s.substring_char(start, n).to_string());
    assert(s@.subrange(0, n as int) =~= s@);
    proof {
        lemma_split_len(s@);
    }
    parts
}


pub open spec fn hex_digit(d: nat) -> char {
    if d < 10 {
        ((d + '0' as int) as u8) as char
    } else {
        ((d - 10 + 'a' as int) as u8) as char
    }
}

pub open spec fn is_hex(c: char) -> bool {
    ('0' <= c <= '9') || ('a' <= c <= 'f')
}

pub open spec fn hex_val(c: char) -> nat {
    if '0' <= c <= '9' {
        (c as int - '0' as int) as nat
    } else {
        (c as int - 'a' as int + 10) as nat
    }
}

pub open spec fn all_hex(s: Seq<char>) -> bool {
    forall|i: int| 0 <= i < s.len() ==> is_hex(#[trigger] s[i])
}

pub open spec fn pow16(n: nat) -> nat
    decreases n,
{
    if n == 0 {
        1
    } else {
        16 * pow16((n - 1) as nat)
    }
}

/// `x` modulo 16^n as exactly `n` lower-case hex digits, most significant
/// first.
pub open spec fn hex_fixed(x: nat, n: nat) -> Seq<char>
    decreases n,
{
    if n == 0 {
        Seq::empty()
    } else {
        hex_fixed(x / 16, (n - 1) as nat).push(hex_digit(x % 16))
    }
}

/// The number that a string of hex digits spells.
pub open spec fn hex_value(s: Seq<char>) -> nat
    decreases s.len(),
{
    if s.len() == 0 {
        0
    } else {
        hex_value(s.drop_last()) * 16 + hex_val(s.last())
    }
}

/// Each byte as two lower-case hex digits.
pub open spec fn hex_bytes(b: Seq<u8>) -> Seq<char>
    decreases b.len(),
{
    if b.len() == 0 {
        Seq::empty()
    } else {
        hex_bytes(b.drop_last()) + seq![hex_digit(b.last() as nat / 16), hex_digit(b.last() as nat % 16)]
    }
}

/// The bytes that pairs of hex digits spell.
pub open spec fn bytes_of_hex(s: Seq<char>) -> Seq<u8>
    decreases s.len(),
{
    if s.len() < 2 {
        Seq::empty()
    } else {
        bytes_of_hex(s.subrange(0, s.len() - 2)).push(
            (hex_val(s[s.len() - 2]) * 16 + hex_val(s[s.len() - 1])) as u8,
        )
    }
}

proof fn lemma_hex_digit(d: nat)
    requires
        d < 16,
    ensures
        is_hex(hex_digit(d)),
        hex_val(hex_digit(d)) == d,
{
}

proof fn lemma_hex_fixed(x: nat, n: nat)
    ensures
        hex_fixed(x, n).len() == n,
        all_hex(hex_fixed(x, n)),
        no_bar(hex_fixed(x, n)),
        hex_value(hex_fixed(x, n)) == x % pow16(n),
        pow16(n) > 0,
    decreases n,
{
    if n > 0 {
        lemma_hex_fixed(x / 16, (n - 1) as nat);
        let h = hex_fixed(x, n);
        let pre = hex_fixed(x / 16, (n - 1) as nat);
        lemma_hex_digit(x % 16);
        assert(h.drop_last() =~= pre);
        assert forall|i: int| 0 <= i < h.len() implies is_hex(#[trigger] h[i]) && !is_bar(h[i]) by {
            if i < pre.len() {
                assert(h[i] == pre[i]);
            }
        }
        vstd::arithmetic::div_mod::lemma_mod_breakdown(x as int, 16, pow16((n - 1) as nat) as int);
    }
}

proof fn lemma_pow16_32()
    ensures
        pow16(32) == 0x1_0000_0000_0000_0000_0000_0000_0000_0000,
{
    reveal_with_fuel(pow16, 33);
}

proof fn lemma_hex_bytes(b: Seq<u8>)
    ensures
        hex_bytes(b).len() == 2 * b.len(),
        all_hex(hex_bytes(b)),
        no_bar(hex_bytes(b)),
        bytes_of_hex(hex_bytes(b)) == b,
    decreases b.len(),
{
    if b.len() > 0 {
        let pre = b.drop_last();
        lemma_hex_bytes(pre);
        let h = hex_bytes(b);
        let hp = hex_bytes(pre);
        let x = b.last() as nat;
        lemma_hex_digit(x / 16);
        lemma_hex_digit(x % 16);
        assert(h.subrange(0, h.len() - 2) =~= hp);
        assert forall|i: int| 0 <= i < h.len() implies is_hex(#[trigger] h[i]) && !is_bar(h[i]) by {
            if i < hp.len() {
                assert(h[i] == hp[i]);
            }
        }
        assert((x / 16) * 16 + x % 16 == x);
        assert(bytes_of_hex(h) =~= b);
    }
}

fn hex_digit_str(d: u8) -> (r: &'static str)
    requires
        d < 16,
    ensures
        r@ == seq![hex_digit(d as nat)],
{
    proof {
        reveal_strlit("0");
        reveal_strlit("1");
        reveal_strlit("2");
        reveal_strlit("3");
        reveal_strlit("4");
        reveal_strlit("5");
        reveal_strlit("6");
        reveal_strlit("7");
        reveal_strlit("8");
        reveal_strlit("9");
        reveal_strlit("a");
        reveal_strlit("b");
        reveal_strlit("c");
        reveal_strlit("d");
        reveal_strlit("e");
        reveal_strlit("f");
    }
    if d == 0 {
        "0"
    } else if d == 1 {
        "1"
    } else if d == 2 {
        "2"
    } else if d == 3 {
        "3"
    } else if d == 4 {
        "4"
    } else if d == 5 {
        "5"
    } else if d == 6 {
        "6"
    } else if d == 7 {
        "7"
    } else if d == 8 {
        "8"
    } else if d == 9 {
        "9"
    } else if d == 10 {
        "a"
    } else if d == 11 {
        "b"
    } else if d == 12 {
        "c"
    } else if d == 13 {
        "d"
    } else if d == 14 {
        "e"
    } else {
        "f"
    }
}

fn hex_fixed_exec(x: u128, n: u32) -> (r: String)
    ensures
        r@ == hex_fixed(x as nat, n as nat),
    decreases n,
{
    if n == 0 {
        String::new()
    } else {
        let mut s = hex_fixed_exec(x / 16, n - 1);
        s.append(hex_digit_str((x % 16) as u8));
        s
    }
}

/// An id as 32 lower-case hex digits.
pub fn u128_to_hex(x: u128) -> (r: String)
    ensures
        r@ == hex_fixed(x as nat, 32),
{
    hex_fixed_exec(x, 32)
}

/// Bytes as lower-case hex, two digits each.
pub fn bytes_to_hex(b: &Vec<u8>) -> (r: String)
    ensures
        r@ == hex_bytes(b@),
{
    let mut s = String::new();
    let mut i: usize = 0;
    while i < b.len()
        invariant
            0 <= i <= b@.len(),
            s@ == hex_bytes(b@.subrange(0, i as int)),
        decreases b@.len() - i,
    {
        let ghost pre = b@.subrange(0, i as int);
        assert(b@.subrange(0, i + 1).drop_last() =~= pre);
        let x = b[i];
        s.append(hex_digit_str(x / 16));
        s.append(hex_digit_str(x % 16));
        assert(s@ =~= hex_bytes(b@.subrange(0, i + 1)));
        i += 1;
    }
    assert(b@.subrange(0, b@.len() as int) =~= b@);
    s
}

fn hex_char_value(c: char) -> (r: Option<u8>)
    ensures
        match r {
            Some(v) => is_hex(c) && v as nat == hex_val(c) && v < 16,
            None => !is_hex(c),
        },
{
    if '0' <= c && c <= '9' {
        Some((c as u32 - '0' as u32) as u8)
    } else if 'a' <= c && c <= 'f' {
        Some((c as u32 - 'a' as u32 + 10) as u8)
    } else {
        None
    }
}

/// The id that exactly 32 hex digits spell.
pub open spec fn hex_id_spec(s: Seq<char>) -> Option<u128> {
    if s.len() == 32 && all_hex(s) {
        Some(hex_value(s) as u128)
    } else {
        None
    }
}

proof fn lemma_hex_value_bound(s: Seq<char>)
    requires
        all_hex(s),
    ensures
        hex_value(s) < pow16(s.len()),
    decreases s.len(),
{
    if s.len() > 0 {
        assert(all_hex(s.drop_last())) by {
            assert forall|i: int| 0 <= i < s.len() - 1 implies is_hex(#[trigger] s.drop_last()[i]) by {
                assert(s.drop_last()[i] == s[i]);
            }
        }
        lemma_hex_value_bound(s.drop_last());
        assert(is_hex(s[s.len() - 1]));
    }
}

/// Reads an id written as 32 lower-case hex digits.
pub fn hex_to_u128(s: &str) -> (r: Option<u128>)
    ensures
        r == hex_id_spec(s@),
{
    let n = s.unicode_len();
    if n != 32 {
        return None;
    }
    let mut acc: u128 = 0;
    let mut i: usize = 0;
    while i < 32
        invariant
            n == s@.len() == 32,
            0 <= i <= 32,
            all_hex(s@.subrange(0, i as int)),
            acc as nat == hex_value(s@.subrange(0, i as int)),
        decreases 32 - i,
    {
        let ghost pre = s@.subrange(0, i as int);
        let ghost nxt = s@.subrange(0, i + 1);
        assert(nxt.drop_last() =~= pre);
        let c = s.get_char(i);
        let v = match hex_char_value(c) {
            Some(v) => v,
            None => {
                assert(!all_hex(s@)) by {
                    assert(s@[i as int] == c);
                }
                return None;
            },
        };
        proof {
            assert(all_hex(nxt)) by {
                assert forall|k: int| 0 <= k < nxt.len() implies is_hex(#[trigger] nxt[k]) by {
                    if k < i {
                        assert(nxt[k] == pre[k]);
                    }
                }
            }
            lemma_hex_value_bound(nxt);
            lemma_pow16_32();
            lemma_pow16_mono((i + 1) as nat, 32);
        }
        acc = acc * 16 + v as u128;
        i += 1;
    }
    assert(s@.subrange(0, 32) =~= s@);
    Some(acc)
}

proof fn lemma_pow16_mono(a: nat, b: nat)
    requires
        a <= b,
    ensures
        pow16(a) <= pow16(b),
    decreases b - a,
{
    if a < b {
        lemma_pow16_mono(a, (b - 1) as nat);
    }
}

/// The bytes spelled by an even number of lower-case hex digits.
pub open spec fn hex_bytes_spec(s: Seq<char>) -> Option<Seq<u8>> {
    if s.len() % 2 == 0 && all_hex(s) {
        Some(bytes_of_hex(s))
    } else {
        None
    }
}

/// Reads bytes written as lower-case hex, two digits each.
pub fn hex_to_bytes(s: &str) -> (r: Option<Vec<u8>>)
    ensures
        match hex_bytes_spec(s@) {
            Some(b) => r matches Some(v) && v@ == b,
            None => r is None,
        },
{
    let n = s.unicode_len();
    if n % 2 != 0 {
        return None;
    }
    let mut out: Vec<u8> = Vec::new();
    let mut i: usize = 0;
    while i < n
        invariant
            n == s@.len(),
            n % 2 == 0,
            0 <= i <= n,
            i % 2 == 0,
            all_hex(s@.subrange(0, i as int)),
            out@ == bytes_of_hex(s@.subrange(0, i as int)),
        decreases n - i,
    {
        let ghost pre = s@.subrange(0, i as int);
        let ghost nxt = s@.subrange(0, i + 2);
        assert(nxt.subrange(0, nxt.len() - 2) =~= pre);
        let hi = match hex_char_value(s.get_char(i)) {
            Some(v) => v,
            None => {
                assert(!all_hex(s@)) by {
                    assert(s@[i as int] == s@[i as int]);
                }
                return None;
            },
        };
        let lo = match hex_char_value(s.get_char(i + 1)) {
            Some(v) => v,
            None => {
                assert(!all_hex(s@)) by {
                    assert(s@[i + 1] == s@[i + 1]);
                }
                return None;
            },
        };
        out.push(hi * 16 + lo);
        assert(all_hex(nxt)) by {
            assert forall|k: int| 0 <= k < nxt.len() implies is_hex(#[trigger] nxt[k]) by {
                if k < i {
                    assert(nxt[k] == pre[k]);
                }
            }
        }
        assert(nxt[nxt.len() - 2] == s@[i as int]);
        assert(nxt[nxt.len() - 1] == s@[i + 1]);
        i += 2;
    }
    assert(s@.subrange(0, n as int) =~= s@);
    Some(out)
}


/// What a pairing QR code carries besides the signature.
pub struct AuthChallenge {
    pub challenge_id: u128,
    pub authorizer_peer_id: String,
    pub dial_address: String,
    pub nonce: Vec<u8>,
    pub expires_at: u64,
    pub user_id: u128,
    pub authorizer_public_key: Vec<u8>,
}

pub struct ChallengeView {
    pub challenge_id: u128,
    pub authorizer_peer_id: Seq<char>,
    pub dial_address: Seq<char>,
    pub nonce: Seq<u8>,
    pub expires_at: u64,
    pub user_id: u128,
    pub authorizer_public_key: Seq<u8>,
}

impl View for AuthChallenge {
    type V = ChallengeView;

    open spec fn view(&self) -> ChallengeView {
        ChallengeView {
            challenge_id: self.challenge_id,
            authorizer_peer_id: self.authorizer_peer_id@,
            dial_address: self.dial_address@,
            nonce: self.nonce@,
            expires_at: self.expires_at,
            user_id: self.user_id,
            authorizer_public_key: self.authorizer_public_key@,
        }
    }
}

/// The envelope's format tag.
pub open spec fn tag() -> Seq<char> {
    "nx1"@
}

/// The signed fields of a challenge, in order.
pub open spec fn envelope_fields(c: ChallengeView) -> Seq<Seq<char>> {
    seq![
        tag(),
        hex_fixed(c.challenge_id as nat, 32),
        c.authorizer_peer_id,
        c.dial_address,
        hex_bytes(c.nonce),
        decimal_spec(c.expires_at as nat),
        hex_fixed(c.user_id as nat, 32),
        hex_bytes(c.authorizer_public_key),
    ]
}

/// The text the authorizer signs.
pub open spec fn payload_spec(c: ChallengeView) -> Seq<char> {
    join_spec(envelope_fields(c))
}

/// The full QR text: the signed text, then the signature.
pub open spec fn envelope_spec(c: ChallengeView, signature: Seq<u8>) -> Seq<char> {
    join_spec(envelope_fields(c).push(hex_bytes(signature)))
}

/// What a QR text decodes to: nine fields, the tag first, each in its form.
pub open spec fn decode_spec(text: Seq<char>) -> Option<(ChallengeView, Seq<u8>)> {
    let f = split_spec(text);
    if f.len() == 9 && f[0] == tag() && hex_id_spec(f[1]) is Some && hex_bytes_spec(f[4]) is Some
        && parse_unsigned_spec(f[5], u64::MAX as nat) is Some && hex_id_spec(f[6]) is Some
        && hex_bytes_spec(f[7]) is Some && hex_bytes_spec(f[8]) is Some {
        Some(
            (
                ChallengeView {
                    challenge_id: hex_id_spec(f[1])->Some_0,
                    authorizer_peer_id: f[2],
                    dial_address: f[3],
                    nonce: hex_bytes_spec(f[4])->Some_0,
                    expires_at: parse_unsigned_spec(f[5], u64::MAX as nat)->Some_0 as u64,
                    user_id: hex_id_spec(f[6])->Some_0,
                    authorizer_public_key: hex_bytes_spec(f[7])->Some_0,
                },
                hex_bytes_spec(f[8])->Some_0,
            ),
        )
    } else {
        None
    }
}

proof fn lemma_join_push(fs: Seq<Seq<char>>, f: Seq<char>)
    requires
        fs.len() >= 1,
    ensures
        join_spec(fs.push(f)) == join_spec(fs) + seq!['|'] + f,
{
    assert(fs.push(f).drop_last() =~= fs);
}

/// Decoding an encoded challenge gives it back, with its signature, when
/// neither the peer id nor the dial address holds a `|`.
pub proof fn lemma_envelope_round_trip(c: ChallengeView, signature: Seq<u8>)
    requires
        no_bar(c.authorizer_peer_id),
        no_bar(c.dial_address),
    ensures
        decode_spec(envelope_spec(c, signature)) == Some((c, signature)),
{
    let fs = envelope_fields(c).push(hex_bytes(signature));
    reveal_strlit("nx1");
    lemma_hex_fixed(c.challenge_id as nat, 32);
    lemma_hex_fixed(c.user_id as nat, 32);
    lemma_hex_bytes(c.nonce);
    lemma_hex_bytes(c.authorizer_public_key);
    lemma_hex_bytes(signature);
    lemma_decimal_round_trip(c.expires_at as nat, u64::MAX as nat);
    lemma_pow16_32();
    assert(no_bar(decimal_spec(c.expires_at as nat))) by {
        assert forall|i: int| 0 <= i < decimal_spec(c.expires_at as nat).len() implies !is_bar(
            #[trigger] decimal_spec(c.expires_at as nat)[i],
        ) by {
            assert(is_digit(decimal_spec(c.expires_at as nat)[i]));
        }
    }
    assert(no_bar(tag()));
    assert forall|i: int| 0 <= i < fs.len() implies no_bar(#[trigger] fs[i]) by {}
    lemma_split_join(fs);
    assert(hex_bytes(c.nonce).len() % 2 == 0);
    assert(hex_bytes(c.authorizer_public_key).len() % 2 == 0);
    assert(hex_bytes(signature).len() % 2 == 0);
    let f = split_spec(envelope_spec(c, signature));
    assert(f == fs);
    assert(f[1] == hex_fixed(c.challenge_id as nat, 32));
    assert(hex_id_spec(f[1]) == Some(c.challenge_id));
    assert(hex_id_spec(f[6]) == Some(c.user_id));
}

fn append_field(s: &mut String, fs: Ghost<Seq<Seq<char>>>, f: &str)
    requires
        fs@.len() >= 1,
        old(s)@ == join_spec(fs@),
    ensures
        final(s)@ == join_spec(fs@.push(f@)),
{
    proof {
        reveal_strlit("|");
        lemma_join_push(fs@, f@);
    }
    s.append("|");
    s.append(f);
}

/// The text the authorizer signs for `c`.
pub fn challenge_payload(c: &AuthChallenge) -> (r: String)
    ensures
        r@ == payload_spec(c@),
{
    proof {
        reveal_strlit("nx1");
    }
    let ghost f = envelope_fields(c@);
    let mut s = "nx1".to_string();
    assert(s@ == join_spec(f.subrange(0, 1)));
    let x = u128_to_hex(c.challenge_id);
    append_field(&mut s, Ghost(f.subrange(0, 1)), x.as_str());
    assert(f.subrange(0, 1).push(x@) =~= f.subrange(0, 2));
    append_field(&mut s, Ghost(f.subrange(0, 2)), c.authorizer_peer_id.as_str());
    assert(f.subrange(0, 2).push(c.authorizer_peer_id@) =~= f.subrange(0, 3));
    append_field(&mut s, Ghost(f.subrange(0, 3)), c.dial_address.as_str());
    assert(f.subrange(0, 3).push(c.dial_address@) =~= f.subrange(0, 4));
    let x = bytes_to_hex(&c.nonce);
    append_field(&mut s, Ghost(f.subrange(0, 4)), x.as_str());
    assert(f.subrange(0, 4).push(x@) =~= f.subrange(0, 5));
    let x = u64_to_decimal(c.expires_at);
    append_field(&mut s, Ghost(f.subrange(0, 5)), x.as_str());
    assert(f.subrange(0, 5).push(x@) =~= f.subrange(0, 6));
    let x = u128_to_hex(c.user_id);
    append_field(&mut s, Ghost(f.subrange(0, 6)), x.as_str());
    assert(f.subrange(0, 6).push(x@) =~= f.subrange(0, 7));
    let x = bytes_to_hex(&c.authorizer_public_key);
    append_field(&mut s, Ghost(f.subrange(0, 7)), x.as_str());
    assert(f.subrange(0, 7).push(x@) =~= f);
    s
}

/// The QR text for `c` signed with `signature`.
pub fn encode_qr(c: &AuthChallenge, signature: &Vec<u8>) -> (r: String)
    ensures
        r@ == envelope_spec(c@, signature@),
{
    let mut s = challenge_payload(c);
    let x = bytes_to_hex(signature);
    append_field(&mut s, Ghost(envelope_fields(c@)), x.as_str());
    s
}

/// Reads a QR text back into its challenge and signature.
pub fn decode_qr(text: &str) -> (r: Option<(AuthChallenge, Vec<u8>)>)
    ensures
        match decode_spec(text@) {
            Some((c, sig)) => r matches Some((rc, rs)) && rc@ == c && rs@ == sig,
            None => r is None,
        },
{
    let f = split_fields(text);
    let ghost g = split_spec(text@);
    if f.len() != 9 || !str_eq(f[0].as_str(), "nx1") {
        return None;
    }
    proof {
        reveal_strlit("nx1");
    }
    let challenge_id = match hex_to_u128(f[1].as_str()) {
        Some(v) => v,
        None => return None,
    };
    let nonce = match hex_to_bytes(f[4].as_str()) {
        Some(v) => v,
        None => return None,
    };
    let expires_at = match parse_unsigned(f[5].as_str(), u64::MAX) {
        Some(v) => v,
        None => return None,
    };
    let user_id = match hex_to_u128(f[6].as_str()) {
        Some(v) => v,
        None => return None,
    };
    let key = match hex_to_bytes(f[7].as_str()) {
        Some(v) => v,
        None => return None,
    };
    let sig = match hex_to_bytes(f[8].as_str()) {
        Some(v) => v,
        None => return None,
    };
    Some(
        (
            AuthChallenge {
                challenge_id,
                authorizer_peer_id: f[2].clone(),
                dial_address: f[3].clone(),
                nonce,
                expires_at,
                user_id,
                authorizer_public_key: key,
            },
            sig,
        ),
    )
}

/// The textual peer id that an Ed25519 public key yields, if the bytes are
/// a key.
pub uninterp spec fn peer_id_text_of(public_key: Seq<u8>) -> Option<Seq<char>>;

/// Relies on libp2p::identity::ed25519::PublicKey::try_from_bytes, then
/// PublicKey::to_peer_id and PeerId::to_base58: a function of the key bytes
/// alone.
#[verifier::external_body]
fn peer_id_text(public_key: &Vec<u8>) -> (r: Option<String>)
    ensures
        match r {
            Some(s) => peer_id_text_of(public_key@) == Some(s@),
            None => peer_id_text_of(public_key@) is None,
        },
{
    match libp2p::identity::ed25519::PublicKey::try_from_bytes(public_key.as_slice()) {
        Ok(k) => Some(libp2p::identity::PublicKey::from(k).to_peer_id().to_base58()),
        Err(_) => None,
    }
}

/// Why a scanned code is refused.
pub enum ScanError {
    /// The text is not a pairing envelope.
    Malformed,
    /// The key does not yield the transmitted peer id.
    PeerMismatch,
    /// The signature does not verify.
    InvalidSignature,
}

/// What scanning decides, given what the key yields and whether the
/// signature over the signed text verifies.
pub open spec fn scan_spec(
    text: Seq<char>,
    key_peer: Option<Seq<char>>,
    signature_valid: bool,
) -> Result<ChallengeView, ScanError> {
    match decode_spec(text) {
        None => Err(ScanError::Malformed),
        Some((c, _)) => if key_peer != Some(c.authorizer_peer_id) {
            Err(ScanError::PeerMismatch)
        } else if !signature_valid {
            Err(ScanError::InvalidSignature)
        } else {
            Ok(c)
        },
    }
}

/// Scans a pairing code: decodes it, checks that the enclosed key yields the
/// transmitted peer id and that the signature over the signed text verifies
/// under that key.
pub fn scan_qr_code(text: &str) -> (r: Result<AuthChallenge, ScanError>)
    ensures
        ({
            let d = decode_spec(text@);
            let key_peer = match d {
                Some((c, _)) => peer_id_text_of(c.authorizer_public_key),
                None => None,
            };
            let valid = match d {
                Some((c, sig)) => ed25519_valid(
                    c.authorizer_public_key,
                    vstd::utf8::encode_utf8(payload_spec(c)),
                    sig,
                ),
                None => false,
            };
            match scan_spec(text@, key_peer, valid) {
                Ok(c) => r matches Ok(rc) && rc@ == c,
                Err(e) => r matches Err(re) && re == e,
            }
        }),
{
    let (c, sig) = match decode_qr(text) {
        Some(p) => p,
        None => return Err(ScanError::Malformed),
    };
    let peer_ok = match peer_id_text(&c.authorizer_public_key) {
        Some(p) => str_eq(p.as_str(), c.authorizer_peer_id.as_str()),
        None => false,
    };
    if !peer_ok {
        return Err(ScanError::PeerMismatch);
    }
    let payload = challenge_payload(&c);
    let message = payload.as_str().as_bytes_vec();
    if !crate::pairing::verify_ed25519(&c.authorizer_public_key, &message, &sig) {
        return Err(ScanError::InvalidSignature);
    }
    Ok(c)
}

} // verus!
