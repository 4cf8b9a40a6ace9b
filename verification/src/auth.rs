//! The shared secret that every request carries.
use vstd::prelude::*;
use crate::text;
use crate::text::{solid_text, starts_with};

verus! {

/// The token to expect, from the environment: none where it is missing or blank.
pub fn expected_token(raw: Option<&str>) -> (r: Option<String>)
    ensures
        text::opt_text(r) == text::solid(
            match raw {
                Some(t) => Some(t@),
                None => None,
            },
        ),
{
    match raw {
        Some(t) => solid_text(t),
        None => None,
    }
}

/// The token in an `Authorization` header.
pub open spec fn token_in(header: Seq<char>) -> Option<Seq<char>> {
    if "Bearer "@.is_prefix_of(header) {
        Some(header.skip(7))
    } else {
        None
    }
}

pub fn bearer_token(header: &str) -> (r: Option<&str>)
    ensures
        match r {
            Some(t) => token_in(header@) == Some(t@),
            None => token_in(header@) is None,
        },
{
    proof {
        reveal_strlit("Bearer ");
    }
    if starts_with(header, "Bearer ") {
        let n = text::char_count(header);
        let t = header.substring_char(7, n);
        assert(t@ =~= header@.skip(7));
        Some(t)
    } else {
        None
    }
}

proof fn lemma_difference(d: u8, x: u8, y: u8)
    ensures
        (d | (x ^ y)) == 0 <==> d == 0 && x == y,
{
    assert((d | (x ^ y)) == 0 <==> d == 0 && x == y) by (bit_vector);
}

/// Whether two byte strings are equal; how long it takes does not depend on where they
/// differ.
pub fn ct_eq(a: &[u8], b: &[u8]) -> (r: bool)
    ensures
        r == (a@ == b@),
{
    if a.len() != b.len() {
        return false;
    }
    let mut diff: u8 = 0;
    let mut i: usize = 0;
    assert(a@.take(0) =~= b@.take(0));
    while i < a.len()
        invariant
            i <= a.len(),
            a.len() == b.len(),
            diff == 0 <==> a@.take(i as int) == b@.take(i as int),
        decreases a.len() - i,
    {
        let ghost s = a@.take(i as int);
        let ghost t = b@.take(i as int);
        proof {
            lemma_difference(diff, a@[i as int], b@[i as int]);
            assert(a@.take(i as int + 1) =~= s.push(a@[i as int]));
            assert(b@.take(i as int + 1) =~= t.push(b@[i as int]));
            if a@.take(i as int + 1) == b@.take(i as int + 1) {
                assert(s =~= a@.take(i as int + 1).drop_last());
                assert(t =~= b@.take(i as int + 1).drop_last());
                assert(a@[i as int] == a@.take(i as int + 1).last());
                assert(b@[i as int] == b@.take(i as int + 1).last());
            }
        }
        diff = diff | (a[i] ^ b[i]);
        i = i + 1;
    }
    assert(a@.take(a@.len() as int) =~= a@);
    assert(b@.take(b@.len() as int) =~= b@);
    diff == 0
}

/// A request passes only with exactly the expected token; without an expected token,
/// none does.
pub open spec fn admitted(provided: Option<Seq<char>>, expected: Option<Seq<char>>) -> bool {
    expected is Some && expected->0.len() > 0 && provided == expected
}

pub open spec fn shown(t: Option<&str>) -> Option<Seq<char>> {
    match t {
        Some(s) => Some(s@),
        None => None,
    }
}

pub fn bearer_ok(provided: Option<&str>, expected: Option<&str>) -> (r: bool)
    ensures
        r == admitted(shown(provided), shown(expected)),
{
    let expected = match expected {
        Some(t) => t,
        None => {
            return false;
        },
    };
    if text::char_count(expected) == 0 {
        return false;
    }
    let provided = match provided {
        Some(t) => t,
        None => "",
    };
    proof {
        reveal_strlit("");
        vstd::utf8::encode_utf8_decode_utf8(provided@);
        vstd::utf8::encode_utf8_decode_utf8(expected@);
    }
    ct_eq(provided.as_bytes(), expected.as_bytes())
}

/// Without a configured token every request is turned away.
pub proof fn no_token_no_entry(provided: Option<Seq<char>>)
    ensures
        !admitted(provided, None),
        !admitted(provided, Some(Seq::empty())),
{
}

/// A header carries a token behind the word `Bearer` and one blank, and any other header
/// carries none.
pub proof fn a_header_carries_its_token(header: Seq<char>, token: Seq<char>)
    ensures
        token_in("Bearer "@ + token) == Some(token),
        token_in(header) is Some ==> header == "Bearer "@ + token_in(header)->0,
{
    reveal_strlit("Bearer ");
    let h = "Bearer "@ + token;
    assert("Bearer "@.len() == 7);
    assert(h.subrange(0, 7) =~= "Bearer "@);
    assert(h.skip(7) =~= token);
    if token_in(header) is Some {
        assert(header.subrange(0, 7) == "Bearer "@);
        assert(header =~= "Bearer "@ + header.skip(7));
    }
}

/// The expected token opens the door, and nothing else does.
pub proof fn only_the_expected_token_opens(provided: Option<Seq<char>>, expected: Seq<char>)
    requires
        expected.len() > 0,
    ensures
        admitted(Some(expected), Some(expected)),
        provided != Some(expected) ==> !admitted(provided, Some(expected)),
{
}

} // verus!
