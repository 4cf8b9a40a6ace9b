//! Percent-encoding, base64url and the short stable keys, on the UTF-8 bytes of a
//! text.
use vstd::prelude::*;

verus! {

/// Letters, digits, `-`, `_`, `.` and `~` stand for themselves in a URL.
pub open spec fn unreserved(b: u8) -> bool {
    ||| 65 <= b <= 90
    ||| 97 <= b <= 122
    ||| 48 <= b <= 57
    ||| b == 45
    ||| b == 95
    ||| b == 46
    ||| b == 126
}

/// A capital hexadecimal digit.
pub open spec fn hex_upper(n: u8) -> char {
    if n < 10 {
        (48 + n) as char
    } else {
        (55 + n) as char
    }
}

pub open spec fn escaped_byte(b: u8) -> Seq<char> {
    if unreserved(b) {
        seq![b as char]
    } else {
        seq!['%', hex_upper(b / 16), hex_upper(b % 16)]
    }
}

pub open spec fn escaped(bytes: Seq<u8>) -> Seq<char>
    decreases bytes.len(),
{
    if bytes.len() == 0 {
        Seq::empty()
    } else {
        escaped(bytes.drop_last()) + escaped_byte(bytes.last())
    }
}

/// The percent-encoding of a text.
pub open spec fn urlencode_of(s: Seq<char>) -> Seq<char> {
    escaped(vstd::utf8::encode_utf8(s))
}

fn hex_char(n: u8) -> (c: char)
    requires
        n < 16,
    ensures
        c == hex_upper(n),
{
    if n < 10 {
        (48 + n) as char
    } else {
        (55 + n) as char
    }
}

/// Percent-encode everything outside the unreserved set.
pub fn urlencode(input: &str) -> (r: String)
    ensures
        r@ == urlencode_of(input@),
{
    let bytes = input.as_bytes();
    let mut out: String = String::new();
    let mut i: usize = 0;
    while i < bytes.len()
        invariant
            i <= bytes.len(),
            bytes@ == vstd::utf8::encode_utf8(input@),
            out@ == escaped(bytes@.take(i as int)),
        decreases bytes.len() - i,
    {
        let b: u8 = bytes[i];
        proof {
            assert(bytes@.take(i as int + 1).drop_last() =~= bytes@.take(i as int));
            assert(bytes@.take(i as int + 1).last() == b);
        }
        if (65 <= b && b <= 90) || (97 <= b && b <= 122) || (48 <= b && b <= 57) || b == 45 || b
            == 95 || b == 46 || b == 126 {
            out.push(b as char);
            assert(out@ =~= escaped(bytes@.take(i as int)) + escaped_byte(b));
        } else {
            out.push('%');
            out.push(hex_char(b / 16));
            out.push(hex_char(b % 16));
            assert(out@ =~= escaped(bytes@.take(i as int)) + escaped_byte(b));
        }
        i = i + 1;
    }
    assert(bytes@.take(bytes@.len() as int) =~= bytes@);
    out
}

/// A character that percent-encoding can write.
pub open spec fn url_safe(c: char) -> bool {
    ||| ('A' <= c && c <= 'Z')
    ||| ('a' <= c && c <= 'z')
    ||| ('0' <= c && c <= '9')
    ||| c == '-'
    ||| c == '_'
    ||| c == '.'
    ||| c == '~'
    ||| c == '%'
}

/// Percent-encoding writes unreserved characters and `%` only.
pub proof fn urlencode_writes_safe_characters(s: Seq<char>)
    ensures
        forall|i: int| 0 <= i < urlencode_of(s).len() ==> url_safe(#[trigger] urlencode_of(s)[i]),
{
    lemma_escaped_safe(vstd::utf8::encode_utf8(s));
}

proof fn lemma_escaped_safe(bytes: Seq<u8>)
    ensures
        forall|i: int| 0 <= i < escaped(bytes).len() ==> url_safe(#[trigger] escaped(bytes)[i]),
    decreases bytes.len(),
{
    if bytes.len() > 0 {
        let init = escaped(bytes.drop_last());
        let tail = escaped_byte(bytes.last());
        lemma_escaped_safe(bytes.drop_last());
        assert forall|i: int| 0 <= i < escaped(bytes).len() implies url_safe(
            #[trigger] escaped(bytes)[i],
        ) by {
            if i < init.len() {
                assert(escaped(bytes)[i] == init[i]);
            } else {
                assert(escaped(bytes)[i] == tail[i - init.len()]);
            }
        }
    }
}

/// Two different byte strings have different encodings.
pub proof fn percent_encoding_is_injective(a: Seq<u8>, b: Seq<u8>)
    requires
        escaped(a) == escaped(b),
    ensures
        a == b,
    decreases a.len(),
{
    if a.len() == 0 && b.len() == 0 {
        assert(a =~= b);
    } else if a.len() == 0 {
        assert(escaped(b).len() > 0);
    } else if b.len() == 0 {
        assert(escaped(a).len() > 0);
    } else {
        lemma_escaped_head(a);
        lemma_escaped_head(b);
        let x = a.drop_first();
        let y = b.drop_first();
        let ea = escaped_byte(a[0]) + escaped(x);
        let eb = escaped_byte(b[0]) + escaped(y);
        assert(ea == eb);
        assert(ea[0] == escaped_byte(a[0])[0] && eb[0] == escaped_byte(b[0])[0]);
        if !unreserved(a[0]) && !unreserved(b[0]) {
            assert(ea[1] == hex_upper(a[0] / 16) && eb[1] == hex_upper(b[0] / 16));
            assert(ea[2] == hex_upper(a[0] % 16) && eb[2] == hex_upper(b[0] % 16));
        }
        assert(a[0] == b[0]);
        let n = escaped_byte(a[0]).len() as int;
        assert(escaped(x) =~= ea.skip(n));
        assert(escaped(y) =~= eb.skip(n));
        percent_encoding_is_injective(x, y);
        assert(a =~= seq![a[0]] + x);
        assert(b =~= seq![b[0]] + y);
    }
}

proof fn lemma_escaped_head(bytes: Seq<u8>)
    requires
        bytes.len() > 0,
    ensures
        escaped(bytes) == escaped_byte(bytes[0]) + escaped(bytes.drop_first()),
    decreases bytes.len(),
{
    if bytes.len() == 1 {
        assert(bytes.drop_last() =~= Seq::<u8>::empty());
        assert(bytes.drop_first() =~= Seq::<u8>::empty());
        assert(escaped(bytes) =~= escaped_byte(bytes[0]) + escaped(bytes.drop_first()));
    } else {
        lemma_escaped_head(bytes.drop_last());
        let mid = bytes.drop_first();
        assert(bytes.drop_last().drop_first() =~= mid.drop_last());
        assert(escaped(bytes) =~= escaped_byte(bytes[0]) + (escaped(mid.drop_last())
            + escaped_byte(bytes.last())));
    }
}

/// The value of a base64url digit; `None` for any other byte.
pub open spec fn sextet(b: u8) -> Option<int> {
    if 65 <= b <= 90 {
        Some(b - 65)
    } else if 97 <= b <= 122 {
        Some(b - 97 + 26)
    } else if 48 <= b <= 57 {
        Some(b - 48 + 52)
    } else if b == 45 {
        Some(62)
    } else if b == 95 {
        Some(63)
    } else {
        None
    }
}

/// The digits' values, padding left out; `None` where another byte stands.
pub open spec fn sextets(bytes: Seq<u8>) -> Option<Seq<int>>
    decreases bytes.len(),
{
    if bytes.len() == 0 {
        Some(Seq::empty())
    } else {
        match sextets(bytes.drop_last()) {
            Some(v) => if bytes.last() == 61 {
                Some(v)
            } else {
                match sextet(bytes.last()) {
                    Some(d) => Some(v.push(d)),
                    None => None,
                }
            },
            None => None,
        }
    }
}

/// The k-th byte that a row of six-bit values spells.
pub open spec fn packed_byte(v: Seq<int>, k: int) -> int {
    let i = 4 * (k / 3);
    if k % 3 == 0 {
        v[i] * 4 + v[i + 1] / 16
    } else if k % 3 == 1 {
        (v[i + 1] % 16) * 16 + v[i + 2] / 4
    } else {
        (v[i + 2] % 4) * 64 + v[i + 3]
    }
}

/// The whole bytes that a row of six-bit values spells; bits left over at the end
/// are dropped.
pub open spec fn packed(v: Seq<int>) -> Seq<u8> {
    Seq::new((v.len() * 6 / 8) as nat, |k: int| packed_byte(v, k) as u8)
}

pub open spec fn b64url_of(s: Seq<char>) -> Option<Seq<u8>> {
    match sextets(vstd::utf8::encode_utf8(s)) {
        Some(v) => Some(packed(v)),
        None => None,
    }
}

proof fn lemma_sextets_range(bytes: Seq<u8>)
    ensures
        match sextets(bytes) {
            Some(v) => forall|i: int| 0 <= i < v.len() ==> 0 <= #[trigger] v[i] < 64,
            None => true,
        },
    decreases bytes.len(),
{
    if bytes.len() > 0 {
        lemma_sextets_range(bytes.drop_last());
    }
}

proof fn lemma_sextets_fail(bytes: Seq<u8>, k: int)
    requires
        0 <= k <= bytes.len(),
        sextets(bytes.take(k)) is None,
    ensures
        sextets(bytes) is None,
    decreases bytes.len(),
{
    if k == bytes.len() {
        assert(bytes.take(k) =~= bytes);
    } else {
        assert(bytes.drop_last().take(k) =~= bytes.take(k));
        lemma_sextets_fail(bytes.drop_last(), k);
    }
}

fn sextet_value(b: u8) -> (r: Option<u32>)
    ensures
        match r {
            Some(d) => sextet(b) == Some(d as int) && d < 64,
            None => sextet(b) is None,
        },
{
    if 65 <= b && b <= 90 {
        Some((b - 65) as u32)
    } else if 97 <= b && b <= 122 {
        Some((b - 97) as u32 + 26)
    } else if 48 <= b && b <= 57 {
        Some((b - 48) as u32 + 52)
    } else if b == 45 {
        Some(62)
    } else if b == 95 {
        Some(63)
    } else {
        None
    }
}

/// Decode base64url; padding is optional. `None` where a byte is no digit.
pub fn b64url_decode(input: &str) -> (r: Option<Vec<u8>>)
    ensures
        match r {
            Some(v) => b64url_of(input@) == Some(v@),
            None => b64url_of(input@) is None,
        },
{
    let bytes = input.as_bytes();
    let mut out: Vec<u8> = Vec::new();
    // The last digit read, and how many of its low bits are not written yet.
    let mut last: u32 = 0;
    let mut bits: u32 = 0;
    let ghost mut v: Seq<int> = Seq::empty();
    let mut i: usize = 0;
    assert(out@ =~= packed(v));
    assert(bytes@.take(0) =~= Seq::<u8>::empty());
    while i < bytes.len()
        invariant
            i <= bytes.len(),
            bytes@ == vstd::utf8::encode_utf8(input@),
            sextets(bytes@.take(i as int)) == Some(v),
            forall|j: int| 0 <= j < v.len() ==> 0 <= #[trigger] v[j] < 64,
            out@ == packed(v),
            v.len() > 0 ==> last == v.last(),
            last < 64,
            bits == (if v.len() % 4 == 0 { 0int } else { 8 - 2 * (v.len() % 4) }),
        decreases bytes.len() - i,
    {
        let b: u8 = bytes[i];
        proof {
            assert(bytes@.take(i as int + 1).drop_last() =~= bytes@.take(i as int));
            assert(bytes@.take(i as int + 1).last() == b);
        }
        if b != 61 {
            match sextet_value(b) {
                Some(d) => {
                    let ghost w = v.push(d as int);
                    let two: u32 = last * 64 + d;
                    if bits == 0 {
                        bits = 6;
                        proof {
                            assert(w.len() * 6 / 8 == v.len() * 6 / 8);
                            lemma_packed_prefix(v, d as int);
                        }
                    } else {
                        let n: u32 = if bits == 6 {
                            (two / 16) % 256
                        } else if bits == 4 {
                            (two / 4) % 256
                        } else {
                            two % 256
                        };
                        bits = bits - 2;
                        out.push(n as u8);
                        proof {
                            lemma_packed_push(v, d as int, n as int);
                        }
                    }
                    last = d;
                    proof {
                        v = w;
                    }
                },
                None => {
                    proof {
                        lemma_sextets_fail(bytes@, i as int + 1);
                    }
                    return None;
                },
            }
        }
        i = i + 1;
    }
    assert(bytes@.take(bytes@.len() as int) =~= bytes@);
    Some(out)
}

/// Twelve bits taken apart after the first eight, after bits 3 to 10, and at the
/// last eight.
proof fn lemma_twelve_bits(x: int, d: int)
    requires
        0 <= x < 64,
        0 <= d < 64,
    ensures
        ((x * 64 + d) / 16) % 256 == x * 4 + d / 16,
        ((x * 64 + d) / 4) % 256 == (x % 16) * 16 + d / 4,
        (x * 64 + d) % 256 == (x % 4) * 64 + d,
{
    let y = x as u32;
    let e = d as u32;
    assert(((y * 64 + e) / 16) % 256 == y * 4 + e / 16) by (bit_vector)
        requires
            y < 64,
            e < 64,
    ;
    assert(((y * 64 + e) / 4) % 256 == (y % 16) * 16 + e / 4) by (bit_vector)
        requires
            y < 64,
            e < 64,
    ;
    assert((y * 64 + e) % 256 == (y % 4) * 64 + e) by (bit_vector)
        requires
            y < 64,
            e < 64,
    ;
}

/// The number of whole bytes in a row of digits.
proof fn lemma_packed_len(n: int)
    requires
        0 <= n,
    ensures
        n % 4 == 0 ==> n * 6 / 8 == 3 * (n / 4),
        n % 4 != 0 ==> n * 6 / 8 == 3 * (n / 4) + n % 4 - 1,
{
}

/// A byte is spelt by digits that have been read.
proof fn lemma_packed_reach(n: int, j: int)
    requires
        0 <= j < n * 6 / 8,
    ensures
        j % 3 == 0 ==> 4 * (j / 3) + 1 < n,
        j % 3 == 1 ==> 4 * (j / 3) + 2 < n,
        j % 3 == 2 ==> 4 * (j / 3) + 3 < n,
{
}

/// A further digit leaves the bytes that are spelt already.
proof fn lemma_packed_same(v: Seq<int>, d: int, j: int)
    requires
        0 <= j < v.len() * 6 / 8,
    ensures
        packed_byte(v.push(d), j) == packed_byte(v, j),
{
    lemma_packed_reach(v.len() as int, j);
}

/// A first digit of a group of four completes no byte.
proof fn lemma_packed_prefix(v: Seq<int>, d: int)
    requires
        v.len() % 4 == 0,
    ensures
        packed(v.push(d)) == packed(v),
{
    let w = v.push(d);
    lemma_packed_len(v.len() as int);
    lemma_packed_len(w.len() as int);
    assert(packed(w).len() == packed(v).len());
    assert forall|k: int| 0 <= k < packed(v).len() implies packed(w)[k] == packed(v)[k] by {
        lemma_packed_same(v, d, k);
    }
    assert(packed(w) =~= packed(v));
}

proof fn lemma_completed_byte(v: Seq<int>, d: int, m: int, r: int)
    requires
        v.len() == 4 * m + r,
        0 <= m,
        1 <= r <= 3,
    ensures
        packed_byte(v.push(d), 3 * m + r - 1) == (if r == 1 {
            v.last() * 4 + d / 16
        } else if r == 2 {
            (v.last() % 16) * 16 + d / 4
        } else {
            (v.last() % 4) * 64 + d
        }),
{
    let k = 3 * m + r - 1;
    assert(k / 3 == m && k % 3 == r - 1);
}

/// A later digit of a group of four completes one byte.
proof fn lemma_packed_push(v: Seq<int>, d: int, n: int)
    requires
        v.len() % 4 != 0,
        0 <= d < 64,
        0 <= v.last() < 64,
        n == (if v.len() % 4 == 1 {
            ((v.last() * 64 + d) / 16) % 256
        } else if v.len() % 4 == 2 {
            ((v.last() * 64 + d) / 4) % 256
        } else {
            (v.last() * 64 + d) % 256
        }),
    ensures
        packed(v.push(d)) == packed(v).push(n as u8),
{
    let w = v.push(d);
    let m = (v.len() / 4) as int;
    let r = (v.len() % 4) as int;
    lemma_packed_len(v.len() as int);
    lemma_packed_len(w.len() as int);
    let k = packed(v).len() as int;
    assert(k == 3 * m + r - 1);
    assert(packed(w).len() == k + 1);
    lemma_twelve_bits(v.last(), d);
    lemma_completed_byte(v, d, m, r);
    assert forall|j: int| 0 <= j < k implies packed(w)[j] == packed(v)[j] by {
        lemma_packed_same(v, d, j);
    }
    assert(packed(w)[k] == n as u8);
    assert(packed(w) =~= packed(v).push(n as u8));
}

/// FNV-1a, 64 bits wide.
pub open spec fn fnv1a(bytes: Seq<u8>) -> u64
    decreases bytes.len(),
{
    if bytes.len() == 0 {
        0xcbf2_9ce4_8422_2325
    } else {
        vstd::wrapping::u64_specs::wrapping_mul(
            fnv1a(bytes.drop_last()) ^ (bytes.last() as u64),
            0x100_0000_01b3,
        )
    }
}

pub open spec fn base36_digit(n: nat) -> char {
    if n < 10 {
        ((48 + n) as u8) as char
    } else {
        ((87 + n) as u8) as char
    }
}

/// A natural number in base 36, most significant digit first.
pub open spec fn base36_of(n: nat) -> Seq<char>
    decreases n,
{
    if n < 36 {
        seq![base36_digit(n)]
    } else {
        base36_of(n / 36).push(base36_digit(n % 36))
    }
}

pub open spec fn stable_key_of(s: Seq<char>) -> Seq<char> {
    "ryu"@ + base36_of(fnv1a(vstd::utf8::encode_utf8(s)) as nat)
}

fn base36(n: u64) -> (r: String)
    ensures
        r@ == base36_of(n as nat),
    decreases n,
{
    let m: u8 = (n % 36) as u8;
    let d: char = if m < 10 {
        (48 + m) as char
    } else {
        (87 + m) as char
    };
    if n < 36 {
        let mut r: String = String::new();
        r.push(d);
        assert(r@ =~= base36_of(n as nat));
        r
    } else {
        let mut r: String = base36(n / 36);
        r.push(d);
        r
    }
}

/// A short key derived from a text: the same text gives the same key in every
/// process.
pub fn stable_key(input: &str) -> (r: String)
    ensures
        r@ == stable_key_of(input@),
{
    let bytes = input.as_bytes();
    let mut hash: u64 = 0xcbf2_9ce4_8422_2325;
    let mut i: usize = 0;
    assert(bytes@.take(0) =~= Seq::<u8>::empty());
    while i < bytes.len()
        invariant
            i <= bytes.len(),
            bytes@ == vstd::utf8::encode_utf8(input@),
            hash == fnv1a(bytes@.take(i as int)),
        decreases bytes.len() - i,
    {
        proof {
            assert(bytes@.take(i as int + 1).drop_last() =~= bytes@.take(i as int));
            assert(bytes@.take(i as int + 1).last() == bytes@[i as int]);
        }
        hash = hash ^ (bytes[i] as u64);
        hash = hash.wrapping_mul(0x100_0000_01b3);
        i = i + 1;
    }
    assert(bytes@.take(bytes@.len() as int) =~= bytes@);
    let mut r: String = "ryu".to_owned();
    r.append(base36(hash).as_str());
    r
}

proof fn lemma_base36_len(n: nat, k: nat)
    requires
        k >= 1,
        n < vstd::arithmetic::power::pow(36, k),
    ensures
        1 <= base36_of(n).len() <= k,
        forall|i: int|
            0 <= i < base36_of(n).len() ==> ({
                let c = #[trigger] base36_of(n)[i];
                ('0' <= c && c <= '9') || ('a' <= c && c <= 'z')
            }),
    decreases n,
{
    vstd::arithmetic::power::lemma_pow1(36);
    if n >= 36 {
        assert(k > 1);
        assert(n / 36 < vstd::arithmetic::power::pow(36, (k - 1) as nat)) by {
            reveal(vstd::arithmetic::power::pow);
            let p = vstd::arithmetic::power::pow(36, (k - 1) as nat);
            assert(vstd::arithmetic::power::pow(36, k) == 36 * p);
        }
        lemma_base36_len(n / 36, (k - 1) as nat);
    }
}

/// A key starts with `ryu`, holds small letters and digits only, and has between
/// 4 and 16 characters.
pub proof fn stable_keys_are_short_and_plain(s: Seq<char>)
    ensures
        "ryu"@.is_prefix_of(stable_key_of(s)),
        4 <= stable_key_of(s).len() <= 16,
        forall|i: int|
            0 <= i < stable_key_of(s).len() ==> ({
                let c = #[trigger] stable_key_of(s)[i];
                ('0' <= c && c <= '9') || ('a' <= c && c <= 'z')
            }),
{
    reveal_strlit("ryu");
    let n = fnv1a(vstd::utf8::encode_utf8(s)) as nat;
    assert(n < vstd::arithmetic::power::pow(36, 13)) by {
        reveal_with_fuel(vstd::arithmetic::power::pow, 14);
        assert(vstd::arithmetic::power::pow(36, 13) == 170581728179578208256);
    }
    lemma_base36_len(n, 13);
    let key = stable_key_of(s);
    assert(key.subrange(0, 3) =~= "ryu"@);
    assert forall|i: int| 0 <= i < key.len() implies ({
        let c = #[trigger] key[i];
        ('0' <= c && c <= '9') || ('a' <= c && c <= 'z')
    }) by {
        if i >= 3 {
            assert(key[i] == base36_of(n)[i - 3]);
        } else {
            assert(key[i] == "ryu"@[i]);
        }
    }
}

// ── What the encodings promise ─────────────────────────────────────────────────

/// Letters, digits, `-`, `_`, `.` and `~` are written as they are; every other byte as
/// a percent sign and its two hexadecimal digits, in capitals.
pub proof fn a_byte_is_itself_or_its_hexadecimal_digits(b: u8)
    ensures
        ('A' as u8 <= b <= 'Z' as u8) || ('a' as u8 <= b <= 'z' as u8) || ('0' as u8 <= b <= '9' as u8)
            || b == '-' as u8 || b == '_' as u8 || b == '.' as u8 || b == '~' as u8 ==> escaped(
            seq![b],
        ) == seq![b as char],
        !(('A' as u8 <= b <= 'Z' as u8) || ('a' as u8 <= b <= 'z' as u8) || ('0' as u8 <= b
            <= '9' as u8) || b == '-' as u8 || b == '_' as u8 || b == '.' as u8 || b == '~' as u8)
            ==> escaped(seq![b]) == seq![
            '%',
            "0123456789ABCDEF"@[(b / 16) as int],
            "0123456789ABCDEF"@[(b % 16) as int],
        ],
{
    reveal_strlit("0123456789ABCDEF");
    assert(seq![b].drop_last() =~= Seq::<u8>::empty());
    assert(seq![b].last() == b);
    assert(escaped(seq![b].drop_last()) =~= Seq::<char>::empty());
    assert(escaped(seq![b]) =~= escaped_byte(b));
    assert(escaped_byte(b) =~= if unreserved(b) {
        seq![b as char]
    } else {
        seq!['%', "0123456789ABCDEF"@[(b / 16) as int], "0123456789ABCDEF"@[(b % 16) as int]]
    });
}

/// Bytes are encoded one after the other.
pub proof fn bytes_are_escaped_in_order(a: Seq<u8>, b: Seq<u8>)
    ensures
        escaped(a + b) == escaped(a) + escaped(b),
    decreases b.len(),
{
    if b.len() == 0 {
        assert(a + b =~= a);
        assert(escaped(a) + escaped(b) =~= escaped(a));
    } else {
        assert((a + b).drop_last() =~= a + b.drop_last());
        assert((a + b).last() == b.last());
        bytes_are_escaped_in_order(a, b.drop_last());
        assert(escaped(a) + (escaped(b.drop_last()) + escaped_byte(b.last())) =~= (escaped(a)
            + escaped(b.drop_last())) + escaped_byte(b.last()));
    }
}

/// The digits of base64url are, in the order of their values, the capitals, the small
/// letters, the decimal digits, `-` and `_`.
pub proof fn a_digit_has_its_place_in_the_alphabet(b: u8, d: int)
    ensures
        sextet(b) == Some(d) <==> 0 <= d < 64
            && "ABCDEFGHIJKLMNOPQRSTUVWXYZabcdefghijklmnopqrstuvwxyz0123456789-_"@[d] == b as char,
{
    reveal_strlit("ABCDEFGHIJKLMNOPQRSTUVWXYZabcdefghijklmnopqrstuvwxyz0123456789-_");
}

/// Four digits spell three bytes: the same twenty-four bits.
pub proof fn four_digits_are_three_bytes(v: Seq<int>, g: int)
    requires
        0 <= g,
        4 * g + 3 < v.len(),
        forall|i: int| 0 <= i < v.len() ==> 0 <= #[trigger] v[i] < 64,
    ensures
        3 * g + 2 < packed(v).len(),
        packed(v)[3 * g] * 65_536 + packed(v)[3 * g + 1] * 256 + packed(v)[3 * g + 2] == v[4 * g]
            * 262_144 + v[4 * g + 1] * 4_096 + v[4 * g + 2] * 64 + v[4 * g + 3],
{
    let a = v[4 * g];
    let b = v[4 * g + 1];
    let c = v[4 * g + 2];
    let d = v[4 * g + 3];
    let k = 3 * g;
    assert(k / 3 == g && k % 3 == 0);
    assert((k + 1) / 3 == g && (k + 1) % 3 == 1);
    assert((k + 2) / 3 == g && (k + 2) % 3 == 2);
    lemma_packed_len(v.len() as int);
    assert(packed_byte(v, k) == a * 4 + b / 16);
    assert(packed_byte(v, k + 1) == (b % 16) * 16 + c / 4);
    assert(packed_byte(v, k + 2) == (c % 4) * 64 + d);
}

/// A group that is cut short spells as many whole bytes as its digits suffice for, and
/// padding spells nothing.
pub proof fn a_short_group_spells_whole_bytes(v: Seq<int>, bytes: Seq<u8>)
    ensures
        packed(v).len() == v.len() * 3 / 4,
        sextets(bytes.push('=' as u8)) == sextets(bytes),
{
    assert(bytes.push('=' as u8).drop_last() =~= bytes);
}

/// Adding a digit to a number in base 36 adds its character behind the others.
pub proof fn a_number_is_its_digits_in_base_36(n: nat, d: nat)
    requires
        d < 36,
    ensures
        base36_of(d) == seq!["0123456789abcdefghijklmnopqrstuvwxyz"@[d as int]],
        n > 0 ==> base36_of(n * 36 + d) == base36_of(n).push(
            "0123456789abcdefghijklmnopqrstuvwxyz"@[d as int],
        ),
{
    reveal_strlit("0123456789abcdefghijklmnopqrstuvwxyz");
    assert(base36_digit(d) == "0123456789abcdefghijklmnopqrstuvwxyz"@[d as int]);
    assert((n * 36 + d) / 36 == n && (n * 36 + d) % 36 == d);
}

} // verus!
