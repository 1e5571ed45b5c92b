//! Logging in to a server that authenticates: the hash of the session that
//! Mojang's session server expects, and what the answers of the
//! authentication services mean.

use crate::bytes::{be_value, lemma_be_value_bound, pow256};
use crate::std_ext::string_from_utf8;
use sha1::{Digest, Sha1};
use vstd::prelude::*;
use vstd::utf8::{encode_utf8, is_ascii_chars};
use vstd::string::StringExecFns;

verus! {

// ----- the session hash -----

/// Bytes, read as a big-endian number, with a byte put in front.
pub proof fn lemma_be_value_prepend(b: u8, t: Seq<u8>)
    ensures
        be_value(seq![b] + t) == (b as nat) * pow256(t.len()) + be_value(t),
    decreases t.len(),
{
    let s = seq![b] + t;
    if t.len() == 0 {
        assert(s.drop_last() =~= Seq::<u8>::empty());
        assert(be_value(Seq::<u8>::empty()) == 0);
        assert(pow256(0) == 1);
    } else {
        assert(s.drop_last() =~= seq![b] + t.drop_last());
        lemma_be_value_prepend(b, t.drop_last());
        let p = pow256(t.drop_last().len());
        assert(pow256(t.len()) == 256 * p);
        assert(((b as nat) * p + be_value(t.drop_last())) * 256 + t.last() == (b as nat) * (256 * p)
            + (be_value(t.drop_last()) * 256 + t.last())) by (nonlinear_arith);
    }
}

/// The two's complement of a big-endian number of `n` bytes: `256^n` minus
/// it, modulo `256^n`.
pub open spec fn negated(v: nat, n: nat) -> nat {
    ((pow256(n) - v) % (pow256(n) as int)) as nat
}

/// Turns the big-endian number in `data` into its two's complement, in
/// place: every bit is flipped, then one is added.
pub fn twos_compliment(data: &mut [u8])
    ensures
        final(data)@.len() == old(data)@.len(),
        be_value(final(data)@) == negated(be_value(old(data)@), old(data)@.len()),
{
    let ghost orig = data@;
    let n = data.len();
    let mut carry = true;
    let mut i = n;
    proof {
        assert(data@.subrange(n as int, n as int) =~= Seq::<u8>::empty());
        assert(orig.subrange(n as int, n as int) =~= Seq::<u8>::empty());
        assert(pow256(0) == 1);
    }
    while i > 0
        invariant
            i <= n,
            n == data@.len(),
            n == orig.len(),
            data@.subrange(0, i as int) == orig.subrange(0, i as int),
            carry == (be_value(orig.subrange(i as int, n as int)) == 0),
            be_value(data@.subrange(i as int, n as int)) == negated(
                be_value(orig.subrange(i as int, n as int)),
                (n - i) as nat,
            ),
        decreases i,
    {
        i = i - 1;
        let ghost k = (n - i - 1) as nat;
        let ghost so = be_value(orig.subrange(i as int + 1, n as int));
        let ghost sn = be_value(data@.subrange(i as int + 1, n as int));
        let b = data[i];
        assert(b == orig[i as int]) by {
            assert(data@.subrange(0, i as int + 1)[i as int] == orig.subrange(0, i as int + 1)[i as int]);
        }
        let flipped = !b;
        assert(flipped == 255 - b) by (bit_vector)
            requires
                flipped == !b,
        ;
        let nb: u8 = if carry {
            flipped.wrapping_add(1)
        } else {
            flipped
        };
        let new_carry = carry && flipped == 0xFF;
        let ghost before = data@;
        data[i] = nb;
        carry = new_carry;
        proof {
            let p = pow256(k);
            crate::bytes::lemma_pow256_pos(k);
            lemma_be_value_bound(orig.subrange(i as int + 1, n as int));
            assert(orig.subrange(i as int, n as int) =~= seq![b] + orig.subrange(
                i as int + 1,
                n as int,
            ));
            assert(data@.subrange(i as int, n as int) =~= seq![nb] + data@.subrange(
                i as int + 1,
                n as int,
            ));
            assert(data@.subrange(i as int + 1, n as int) =~= before.subrange(
                i as int + 1,
                n as int,
            ));
            lemma_be_value_prepend(b, orig.subrange(i as int + 1, n as int));
            lemma_be_value_prepend(nb, data@.subrange(i as int + 1, n as int));
            assert(pow256(k + 1) == 256 * p);
            assert(data@.subrange(0, i as int) =~= orig.subrange(0, i as int));
            lemma_negation_step(b, nb, so, sn, p, carry, k);
        }
    }
    proof {
        assert(data@.subrange(0, n as int) =~= data@);
        assert(orig.subrange(0, n as int) =~= orig);
    }
}

proof fn lemma_negation_step(b: u8, nb: u8, so: nat, sn: nat, p: nat, carry_after: bool, k: nat)
    requires
        p > 0,
        p == pow256(k),
        so < p,
        sn == negated(so, k),
        (so == 0) ==> nb as int == (256 - b) % 256,
        (so != 0) ==> nb as int == 255 - b,
        carry_after == ((so == 0) && b == 0),
    ensures
        (nb as nat) * p + sn == negated((b as nat) * p + so, k + 1),
        carry_after == ((b as nat) * p + so == 0),
{
    assert(pow256(k + 1) == 256 * pow256(k));
    let big = 256 * p;
    if so == 0 {
        assert(sn == 0) by {
            assert((p - 0) % (p as int) == 0) by (nonlinear_arith)
                requires
                    p > 0,
            ;
        }
        if b == 0 {
            assert(nb == 0);
            assert((big - 0) % (big as int) == 0) by (nonlinear_arith)
                requires
                    big > 0,
            ;
        } else {
            assert(nb as int == 256 - b);
            assert((big - (b as nat) * p) % (big as int) == (256 - b) * p) by (nonlinear_arith)
                requires
                    big == 256 * p,
                    p > 0,
                    0 < b < 256,
            ;
        }
        assert((b as nat) * p + so == 0 <==> b == 0) by (nonlinear_arith)
            requires
                p > 0,
                so == 0,
        ;
    } else {
        assert(sn == p - so) by {
            assert((p - so) % (p as int) == p - so) by (nonlinear_arith)
                requires
                    0 < so < p,
            ;
        }
        assert((big - ((b as nat) * p + so)) % (big as int) == (255 - b) * p + (p - so))
            by (nonlinear_arith)
            requires
                big == 256 * p,
                0 < so < p,
                b < 256,
        ;
        assert((b as nat) * p + so != 0);
    }
}

/// The lowercase hexadecimal digit, as a byte, of a value below sixteen.
pub open spec fn hex_digit_byte(v: nat) -> u8 {
    if v < 10 {
        (v + 48) as u8
    } else {
        (v + 87) as u8
    }
}

/// Two lowercase hexadecimal digits per byte, high digit first, as bytes.
pub open spec fn hex_digits(b: Seq<u8>) -> Seq<u8>
    decreases b.len(),
{
    if b.len() == 0 {
        Seq::empty()
    } else {
        hex_digits(b.drop_last()) + seq![
            hex_digit_byte((b.last() / 16) as nat),
            hex_digit_byte((b.last() % 16) as nat),
        ]
    }
}

/// The bytes after the leading `'0'`s.
pub open spec fn trim_zeros(s: Seq<u8>) -> Seq<u8>
    decreases s.len(),
{
    if s.len() > 0 && s[0] == 48 {
        trim_zeros(s.drop_first())
    } else {
        s
    }
}

/// The characters of ASCII bytes.
pub open spec fn ascii_chars(b: Seq<u8>) -> Seq<char> {
    Seq::new(b.len(), |i: int| b[i] as char)
}

/// The way Mojang writes a digest: read as a signed big-endian number, in
/// lowercase hexadecimal without leading zeros, with a minus sign if it is
/// negative.
pub open spec fn signed_hex_digest(d: Seq<u8>) -> Seq<char> {
    let negative = d.len() > 0 && d[0] >= 128;
    let magnitude = if negative {
        negated_bytes(d)
    } else {
        d
    };
    let digits = ascii_chars(trim_zeros(hex_digits(magnitude)));
    if negative {
        seq!['-'] + digits
    } else {
        digits
    }
}

/// The bytes of the two's complement of a big-endian number, of the same
/// length.
pub open spec fn negated_bytes(d: Seq<u8>) -> Seq<u8> {
    crate::bytes::be_bytes(negated(be_value(d), d.len()), d.len())
}

/// The characters of ASCII bytes, as a string.
pub(crate) fn ascii_string(bytes: Vec<u8>) -> (r: String)
    requires
        forall|i: int| 0 <= i < bytes@.len() ==> #[trigger] bytes@[i] < 128,
    ensures
        r@ == ascii_chars(bytes@),
{
    let ghost chars = ascii_chars(bytes@);
    proof {
        assert(is_ascii_chars(chars));
        vstd::utf8::is_ascii_chars_encode_utf8(chars);
        assert(encode_utf8(chars) =~= bytes@) by {
            assert forall|i: int| 0 <= i < bytes@.len() implies encode_utf8(chars)[i] == bytes@[i] by {
                assert(chars[i] as u8 == bytes@[i]) by {
                    let b = bytes@[i];
                    assert((b as char) as u8 == b);
                }
            }
        }
        vstd::utf8::encode_utf8_valid_utf8(chars);
        vstd::utf8::encode_utf8_decode_utf8(chars);
    }
    match string_from_utf8(bytes) {
        Ok(s) => s,
        Err(_) => {
            assert(false);
            String::new()
        },
    }
}

fn hex_digit(v: u8) -> (r: u8)
    requires
        v < 16,
    ensures
        r == hex_digit_byte(v as nat),
        r < 128,
{
    if v < 10 {
        v + 48
    } else {
        v + 87
    }
}

/// Mojang's form of a digest, as `signed_hex_digest` describes it.
pub fn minecraft_hex_digest(digest: &[u8]) -> (r: String)
    ensures
        r@ == signed_hex_digest(digest@),
{
    let mut hash = vstd::slice::slice_to_vec(digest);
    let negative = hash.len() > 0 && hash[0] >= 0x80;
    if negative {
        twos_compliment(hash.as_mut_slice());
        proof {
            crate::bytes::lemma_be_roundtrip(negated(be_value(digest@), digest@.len()), digest@.len());
            lemma_be_bytes_of_value(hash@);
        }
    }
    let ghost magnitude = hash@;
    let mut digits: Vec<u8> = Vec::new();
    let mut i: usize = 0;
    while i < hash.len()
        invariant
            hash@ == magnitude,
            i <= magnitude.len(),
            digits@ == hex_digits(magnitude.take(i as int)),
            forall|j: int| 0 <= j < digits@.len() ==> #[trigger] digits@[j] < 128,
        decreases magnitude.len() - i,
    {
        let b = hash[i];
        let hi = hex_digit(b / 16);
        let lo = hex_digit(b % 16);
        digits.push(hi);
        digits.push(lo);
        proof {
            assert(magnitude.take(i as int + 1).drop_last() =~= magnitude.take(i as int));
            assert(digits@ =~= hex_digits(magnitude.take(i as int)) + seq![hi, lo]);
        }
        i = i + 1;
    }
    proof {
        assert(magnitude.take(magnitude.len() as int) =~= magnitude);
    }
    let ghost all = digits@;
    let mut start: usize = 0;
    proof {
        assert(all.subrange(0, all.len() as int) =~= all);
    }
    while start < digits.len() && digits[start] == 48
        invariant
            digits@ == all,
            start <= all.len(),
            trim_zeros(all) == trim_zeros(all.subrange(start as int, all.len() as int)),
        decreases all.len() - start,
    {
        proof {
            let s = all.subrange(start as int, all.len() as int);
            assert(s.drop_first() =~= all.subrange(start as int + 1, all.len() as int));
        }
        start = start + 1;
    }
    let ghost rest = all.subrange(start as int, all.len() as int);
    proof {
        assert(trim_zeros(rest) == rest);
    }
    let mut out: Vec<u8> = Vec::new();
    if negative {
        out.push(45);
    }
    let tail = crate::bytes::tail(digits.as_slice(), start);
    crate::bytes::append_bytes(&mut out, tail);
    proof {
        assert forall|j: int| 0 <= j < out@.len() implies #[trigger] out@[j] < 128 by {
            if negative && j == 0 {
            } else if negative {
                assert(out@[j] == all[start + j - 1]);
            } else {
                assert(out@[j] == all[start + j]);
            }
        }
    }
    let s = ascii_string(out);
    proof {
        if negative {
            assert(ascii_chars(out@) =~= seq!['-'] + ascii_chars(rest));
        } else {
            assert(ascii_chars(out@) =~= ascii_chars(rest));
        }
    }
    s
}

/// Bytes are the bytes of their own value.
proof fn lemma_be_bytes_of_value(s: Seq<u8>)
    ensures
        crate::bytes::be_bytes(be_value(s), s.len()) == s,
    decreases s.len(),
{
    if s.len() > 0 {
        lemma_be_bytes_of_value(s.drop_last());
        let v = be_value(s);
        assert(v / 256 == be_value(s.drop_last()));
        assert(v % 256 == s.last() as nat);
        assert(crate::bytes::be_bytes(v, s.len()) =~= s.drop_last().push(s.last()));
        assert(s.drop_last().push(s.last()) =~= s);
    }
}

/// The SHA-1 digest of `data`, as the `sha1` crate computes it.
pub uninterp spec fn sha1_spec(data: Seq<u8>) -> Seq<u8>;

/// Calls `Sha1::new`, `update` three times and `finalize`: the digest of the
/// three inputs one after the other, twenty bytes.
#[verifier::external_body]
fn sha1_digest(a: &[u8], b: &[u8], c: &[u8]) -> (r: Vec<u8>)
    ensures
        r@ == sha1_spec(a@ + b@ + c@),
        r@.len() == 20,
{
    let mut hasher = Sha1::new();
    hasher.update(a);
    hasher.update(b);
    hasher.update(c);
    hasher.finalize().to_vec()
}

/// The hash that tells Mojang's session server which session a client
/// joins: the SHA-1 digest of the server id, the shared secret and the
/// server's public key, in Mojang's form.
pub fn server_hash(server_id: &str, shared_secret: &[u8], public_key: &[u8]) -> (r: String)
    ensures
        r@ == signed_hex_digest(sha1_spec(encode_utf8(server_id@) + shared_secret@ + public_key@)),
{
    let digest = sha1_digest(server_id.as_bytes(), shared_secret, public_key);
    minecraft_hex_digest(digest.as_slice())
}

// ----- the answers of the authentication services -----

/// What can go wrong when logging in.
#[derive(Debug)]
pub enum AuthError {
    FailedResponse,
    UnverifiedUsername,
    Banned(String),
    DisallowedAction,
    InsufficientPrivileges,
    FailedParse,
    Forbidden,
    XSTSFailure(String),
    InvalidJwtSignature,
    InvalidMCAccessToken,
    UserhashDoesntMatch,
}

/// The fields of a skin: id, state, url, variant and alias.
pub type SkinParts = (Seq<char>, Seq<char>, Seq<char>, Seq<char>, Seq<char>);

/// The fields of a cape: id, state, url and alias.
pub type CapeParts = (Seq<char>, Seq<char>, Seq<char>, Seq<char>);

/// A skin of a Minecraft profile.
#[derive(Debug)]
pub struct Skin {
    id: String,
    state: String,
    url: String,
    variant: String,
    alias: String,
}

/// A cape of a Minecraft profile.
#[derive(Debug)]
pub struct Cape {
    id: String,
    state: String,
    url: String,
    alias: String,
}

/// The Minecraft profile of an account.
#[derive(Debug)]
pub struct ProfileResponse {
    /// The account's UUID, without dashes.
    uuid: String,
    /// The account's user name.
    username: String,
    skins: Vec<Skin>,
    capes: Vec<Cape>,
}

/// A logged-in account: its access token and its profile.
#[derive(Debug)]
pub struct Profile {
    mc_access_token: String,
    mc_profile: ProfileResponse,
}

impl Skin {
    pub fn new(id: String, state: String, url: String, variant: String, alias: String) -> (r: Skin)
        ensures
            r.id() == id@,
            r.state() == state@,
            r.url() == url@,
            r.variant() == variant@,
            r.alias() == alias@,
    {
        Skin { id, state, url, variant, alias }
    }

    pub closed spec fn id(&self) -> Seq<char> {
        self.id@
    }

    pub closed spec fn state(&self) -> Seq<char> {
        self.state@
    }

    pub closed spec fn url(&self) -> Seq<char> {
        self.url@
    }

    pub closed spec fn variant(&self) -> Seq<char> {
        self.variant@
    }

    pub closed spec fn alias(&self) -> Seq<char> {
        self.alias@
    }

    /// All the fields, in the order of `new`.
    pub open spec fn parts(&self) -> SkinParts {
        (self.id(), self.state(), self.url(), self.variant(), self.alias())
    }

    /// The fields, in the order of `new`.
    pub fn into_parts(self) -> (r: (String, String, String, String, String))
        ensures
            r.0@ == self.id() && r.1@ == self.state() && r.2@ == self.url() && r.3@
                == self.variant() && r.4@ == self.alias(),
    {
        (self.id, self.state, self.url, self.variant, self.alias)
    }
}

impl Cape {
    pub fn new(id: String, state: String, url: String, alias: String) -> (r: Cape)
        ensures
            r.id() == id@,
            r.state() == state@,
            r.url() == url@,
            r.alias() == alias@,
    {
        Cape { id, state, url, alias }
    }

    pub closed spec fn id(&self) -> Seq<char> {
        self.id@
    }

    pub closed spec fn state(&self) -> Seq<char> {
        self.state@
    }

    pub closed spec fn url(&self) -> Seq<char> {
        self.url@
    }

    pub closed spec fn alias(&self) -> Seq<char> {
        self.alias@
    }

    /// All the fields, in the order of `new`.
    pub open spec fn parts(&self) -> CapeParts {
        (self.id(), self.state(), self.url(), self.alias())
    }

    /// The fields, in the order of `new`.
    pub fn into_parts(self) -> (r: (String, String, String, String))
        ensures
            r.0@ == self.id() && r.1@ == self.state() && r.2@ == self.url() && r.3@
                == self.alias(),
    {
        (self.id, self.state, self.url, self.alias)
    }
}

impl ProfileResponse {
    pub fn new(uuid: String, username: String, skins: Vec<Skin>, capes: Vec<Cape>) -> (r:
        ProfileResponse)
        ensures
            r.uuid() == uuid@,
            r.username() == username@,
            r.skins() == skins@.map_values(|k: Skin| k.parts()),
            r.capes() == capes@.map_values(|c: Cape| c.parts()),
    {
        ProfileResponse { uuid, username, skins, capes }
    }

    pub closed spec fn uuid(&self) -> Seq<char> {
        self.uuid@
    }

    pub closed spec fn username(&self) -> Seq<char> {
        self.username@
    }

    /// The skins, each by its fields, in order.
    pub closed spec fn skins(&self) -> Seq<SkinParts> {
        self.skins@.map_values(|k: Skin| k.parts())
    }

    /// The capes, each by its fields, in order.
    pub closed spec fn capes(&self) -> Seq<CapeParts> {
        self.capes@.map_values(|c: Cape| c.parts())
    }

    /// The account's UUID, without dashes.
    pub fn uuid_text(&self) -> (r: &String)
        ensures
            r@ == self.uuid(),
    {
        &self.uuid
    }

    /// The fields, in the order of `new`.
    pub fn into_parts(self) -> (r: (String, String, Vec<Skin>, Vec<Cape>))
        ensures
            r.0@ == self.uuid() && r.1@ == self.username() && r.2@.map_values(|k: Skin| k.parts())
                == self.skins() && r.3@.map_values(|c: Cape| c.parts()) == self.capes(),
    {
        (self.uuid, self.username, self.skins, self.capes)
    }
}

impl Profile {
    /// The profile of an account that holds this access token.
    pub fn from_parts(mc_access_token: String, mc_profile: ProfileResponse) -> (r: Profile)
        ensures
            r.access_token() == mc_access_token@,
            r.profile() == mc_profile,
    {
        Profile { mc_access_token, mc_profile }
    }

    pub closed spec fn access_token(&self) -> Seq<char> {
        self.mc_access_token@
    }

    /// The account's profile.
    pub closed spec fn profile(&self) -> ProfileResponse {
        self.mc_profile
    }

    pub fn mc_access_token(&self) -> (r: &String)
        ensures
            r@ == self.access_token(),
    {
        &self.mc_access_token
    }

    pub fn mc_profile(&self) -> (r: &ProfileResponse)
        ensures
            *r == self.profile(),
    {
        &self.mc_profile
    }

    /// The user hashes that Xbox Live and XSTS gave must agree.
    pub fn check_userhashes(userhash1: &str, userhash2: &str) -> (r: Result<(), AuthError>)
        ensures
            r is Ok <==> userhash1@ == userhash2@,
            r is Err ==> r->Err_0 is UserhashDoesntMatch,
    {
        if !crate::text::same_text(userhash1, userhash2) {
            return Err(AuthError::UserhashDoesntMatch);
        }
        Ok(())
    }

    /// What the session server's answer to a join means: no content is
    /// success; a refusal names its reason, and a ban comes with a message.
    pub fn join_response(status: u16, error: Option<&str>, message: Option<String>) -> (r: Result<
        (),
        AuthError,
    >)
        requires
            status == 204 || (status == 403 && error is Some && (error->0@ == "Forbidden"@
                || error->0@ == "UserBannedException"@ || error->0@
                == "InsufficientPrivilegesException"@) && (error->0@ == "UserBannedException"@
                ==> message is Some)),
        ensures
            status == 204 ==> r is Ok,
            status != 204 && error->0@ == "Forbidden"@ ==> r is Err && r->Err_0 is Forbidden,
            status != 204 && error->0@ == "UserBannedException"@ ==> r is Err && r->Err_0
                == AuthError::Banned(message->0),
            status != 204 && error->0@ == "InsufficientPrivilegesException"@ ==> r is Err
                && r->Err_0 is InsufficientPrivileges,
    {
        if status == 204 {
            return Ok(());
        }
        proof {
            reveal_strlit("Forbidden");
            reveal_strlit("UserBannedException");
            reveal_strlit("InsufficientPrivilegesException");
            assert("Forbidden"@.len() == 9);
            assert("UserBannedException"@.len() == 19);
            assert("InsufficientPrivilegesException"@.len() == 31);
        }
        let e = match error {
            Some(e) => e,
            None => {
                assert(false);
                return Ok(());
            },
        };
        if crate::text::same_text(e, "Forbidden") {
            Err(AuthError::Forbidden)
        } else if crate::text::same_text(e, "UserBannedException") {
            match message {
                Some(m) => Err(AuthError::Banned(m)),
                None => {
                    assert(false);
                    Ok(())
                },
            }
        } else {
            proof {
                if e@ == "Forbidden"@ || e@ == "UserBannedException"@ {
                    assert(false);
                }
            }
            Err(AuthError::InsufficientPrivileges)
        }
    }

    /// What the XSTS service's answer means: success gives its token and user
    /// hash; a refusal gives the XErr code.
    pub fn xsts_response(
        status: u16,
        token: Option<String>,
        userhash: Option<String>,
        xerr: Option<i64>,
    ) -> (r: Result<(String, String), AuthError>)
        requires
            (status == 200 && token is Some && userhash is Some) || (status == 403 && xerr is Some),
        ensures
            status == 200 ==> r is Ok && r->Ok_0.0 == token->0 && r->Ok_0.1 == userhash->0,
            status != 200 ==> (r matches Err(AuthError::XSTSFailure(m)) && m@
                == "Xerr error code: "@ + signed_decimal(xerr->0 as int)),
    {
        if status == 200 {
            match (token, userhash) {
                (Some(t), Some(u)) => Ok((t, u)),
                _ => {
                    assert(false);
                    Err(AuthError::FailedParse)
                },
            }
        } else {
            match xerr {
                Some(x) => Err(AuthError::XSTSFailure(message_with_signed("Xerr error code: ", x))),
                None => {
                    assert(false);
                    Err(AuthError::FailedParse)
                },
            }
        }
    }

    /// What the status of the profile service's answer means: found, or no
    /// account for the token.
    pub fn profile_status(status: u16) -> (r: Result<(), AuthError>)
        requires
            status == 200 || status == 404,
        ensures
            status == 200 ==> r is Ok,
            status == 404 ==> r is Err && r->Err_0 is InvalidMCAccessToken,
    {
        if status == 200 {
            Ok(())
        } else {
            Err(AuthError::InvalidMCAccessToken)
        }
    }
}

/// `prefix` followed by the decimal digits of `x`, with a minus sign if it
/// is negative, as `format!` writes them.
fn message_with_signed(prefix: &str, x: i64) -> (r: String)
    ensures
        r@ == prefix@ + signed_decimal(x as int),
{
    let mut s = String::from_str(prefix);
    if x < 0 {
        let magnitude: u64 = (-(x + 1)) as u64 + 1;
        s.append("-");
        let digits = crate::bytes::decimal_string(magnitude);
        s.append(digits.as_str());
        proof {
            reveal_strlit("-");
            assert(s@ =~= prefix@ + signed_decimal(x as int));
        }
    } else {
        let digits = crate::bytes::decimal_string(x as u64);
        s.append(digits.as_str());
    }
    s
}

/// The decimal digits of `n`, with a minus sign if it is negative.
pub open spec fn signed_decimal(n: int) -> Seq<char> {
    if n < 0 {
        seq!['-'] + crate::bytes::decimal((-n) as nat)
    } else {
        crate::bytes::decimal(n as nat)
    }
}

} // verus!
