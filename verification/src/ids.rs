//! Identifiers: a typed prefix and a random version-4 UUID.
use vstd::prelude::*;

verus! {

pub const ID_WORKSPACE: &'static str = "ws_";
pub const ID_ACCOUNT: &'static str = "acc_";
pub const ID_DRAFT: &'static str = "dft_";
pub const ID_POST: &'static str = "sp_";
pub const ID_TARGET: &'static str = "tgt_";
pub const ID_HISTORY: &'static str = "hist_";
pub const ID_TEMPLATE: &'static str = "tpl_";
pub const ID_MEDIA: &'static str = "med_";
pub const ID_INBOX: &'static str = "inb_";
pub const ID_ACTIVITY: &'static str = "act_";

/// The workspace every install starts with.
pub const DEFAULT_WORKSPACE_ID: &'static str = "default";
pub const DEFAULT_WORKSPACE_NAME: &'static str = "Default";

pub open spec fn hex_digit(c: char) -> bool {
    ('0' <= c && c <= '9') || ('a' <= c && c <= 'f')
}

/// A version-4 UUID written as 32 small hexadecimal digits.
pub open spec fn simple_uuid_v4(s: Seq<char>) -> bool {
    &&& s.len() == 32
    &&& forall|i: int| 0 <= i < 32 ==> hex_digit(#[trigger] s[i])
    &&& s[12] == '4'
    &&& (s[16] == '8' || s[16] == '9' || s[16] == 'a' || s[16] == 'b')
}

/// Calls `uuid::Uuid::new_v4` and prints the UUID with `Uuid::simple`. The bits
/// are random; every outcome is 32 small hexadecimal digits of which the 13th
/// holds the version and the 17th starts with the variant.
#[verifier::external_body]
pub(crate) fn random_uuid() -> (r: String)
    ensures
        simple_uuid_v4(r@),
{
    uuid::Uuid::new_v4().simple().to_string()
}

/// A UUID in five groups of small hexadecimal digits with hyphens between them.
pub open spec fn hyphenated_uuid(s: Seq<char>) -> bool {
    &&& s.len() == 36
    &&& forall|i: int|
        0 <= i < 36 ==> if i == 8 || i == 13 || i == 18 || i == 23 {
            #[trigger] s[i] == '-'
        } else {
            hex_digit(s[i])
        }
}

/// Calls `uuid::Uuid::new_v4` and prints the UUID with `Uuid`'s `Display`. The bits
/// are random; every outcome is in the hyphenated form.
#[verifier::external_body]
pub(crate) fn random_uuid_hyphenated() -> (r: String)
    ensures
        hyphenated_uuid(r@),
{
    uuid::Uuid::new_v4().to_string()
}

/// An identifier with the given prefix.
pub open spec fn made_id(id: Seq<char>, prefix: Seq<char>) -> bool {
    prefix.is_prefix_of(id) && simple_uuid_v4(id.skip(prefix.len() as int))
}

/// A fresh identifier with the given prefix.
pub fn new_id(prefix: &str) -> (r: String)
    ensures
        made_id(r@, prefix@),
{
    let mut r: String = prefix.to_owned();
    let uuid = random_uuid();
    r.append(uuid.as_str());
    assert(r@.subrange(0, prefix@.len() as int) =~= prefix@);
    assert(r@.skip(prefix@.len() as int) =~= uuid@);
    r
}

/// An identifier tells its prefix: with two of different prefixes nothing is mixed up.
pub proof fn an_id_tells_its_prefix(id: Seq<char>, p: Seq<char>, q: Seq<char>)
    requires
        made_id(id, p),
        made_id(id, q),
    ensures
        p == q,
{
    assert(id.skip(p.len() as int).len() == id.len() - p.len());
    assert(id.skip(q.len() as int).len() == id.len() - q.len());
    assert(p =~= id.subrange(0, p.len() as int));
    assert(q =~= id.subrange(0, q.len() as int));
}

/// An identifier holds no colon, where its prefix holds none.
pub proof fn ids_hold_no_colon(id: Seq<char>, prefix: Seq<char>)
    requires
        made_id(id, prefix),
        !prefix.contains(':'),
    ensures
        !id.contains(':'),
{
    if id.contains(':') {
        let i = choose|i: int| 0 <= i < id.len() && id[i] == ':';
        if i < prefix.len() {
            assert(id.subrange(0, prefix.len() as int)[i] == ':');
            assert(prefix[i] == ':');
        } else {
            let u = id.skip(prefix.len() as int);
            assert(u[i - prefix.len()] == ':');
        }
    }
}

} // verus!
