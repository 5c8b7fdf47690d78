//! Encryption of designated files at rest, through age's x25519 recipients.
//!
//! A codec is built from recipient key strings; matching files are streamed
//! through a multi-recipient envelope. Reading and writing the files
//! themselves is the caller's work: the codec turns plaintext bytes into
//! envelope bytes and back.

use vstd::prelude::*;

use age::secrecy::ExposeSecret;

use crate::category::str_eq;
use crate::diff::{spec_lines, split_lines};
use crate::error::ConfectError;

verus! {

/// Whether `s` parses as an x25519 recipient key; names the success of
/// age's `Recipient::from_str` on `s`.
pub uninterp spec fn is_recipient_str(s: Seq<char>) -> bool;

/// The recipient key strings, lower or upper case, that parse but encode a
/// small-order curve point: the five small-order u-coordinates and the two
/// values that reduce to one of them modulo the field prime, each in its two
/// byte encodings (the top bit, which the field decoding ignores, clear and
/// set). Key agreement with such a key yields an all-zero shared secret and
/// aborts inside age's file-key wrap, so the codec rejects these keys up
/// front.
pub open spec fn spec_blocked_recipient(s: Seq<char>) -> bool {
    ||| s == "age1qqqqqqqqqqqqqqqqqqqqqqqqqqqqqqqqqqqqqqqqqqqqqqqqqqqq5cu47z"@
    ||| s == "age1qqqqqqqqqqqqqqqqqqqqqqqqqqqqqqqqqqqqqqqqqqqqqqqqqzqqsuwj9m"@
    ||| s == "age1qyqqqqqqqqqqqqqqqqqqqqqqqqqqqqqqqqqqqqqqqqqqqqqqqqqqj7vrya"@
    ||| s == "age1qyqqqqqqqqqqqqqqqqqqqqqqqqqqqqqqqqqqqqqqqqqqqqqqqzqqk67yly"@
    ||| s == "age1ur4h5lpmgxu2u9jku0a0r87ydtdqnr0tnsetrlvxvgz3vh6fhqqqzyt4v9"@
    ||| s == "age1ur4h5lpmgxu2u9jku0a0r87ydtdqnr0tnsetrlvxvgz3vh6fhzqqxqejhu"@
    ||| s == "age1t7wft09r2zxzfvwsk92eeql0tvzyghxytqwgapkcyf8dm5ylz9ts6wm9s8"@
    ||| s == "age1t7wft09r2zxzfvwsk92eeql0tvzyghxytqwgapkcyf8dm5ylz8ts72fzt7"@
    ||| s == "age1anlllllllllllllllllllllllllllllllllllllllllllllllals4n2t7m"@
    ||| s == "age1anllllllllllllllllllllllllllllllllllllllllllllllllls3hcv9z"@
    ||| s == "age1ahlllllllllllllllllllllllllllllllllllllllllllllllalsn46ayy"@
    ||| s == "age1ahlllllllllllllllllllllllllllllllllllllllllllllllllsh3g6la"@
    ||| s == "age1amlllllllllllllllllllllllllllllllllllllllllllllllalselrwrv"@
    ||| s == "age1amlllllllllllllllllllllllllllllllllllllllllllllllllsam3fc4"@
    ||| s == "AGE1QQQQQQQQQQQQQQQQQQQQQQQQQQQQQQQQQQQQQQQQQQQQQQQQQQQQ5CU47Z"@
    ||| s == "AGE1QQQQQQQQQQQQQQQQQQQQQQQQQQQQQQQQQQQQQQQQQQQQQQQQQZQQSUWJ9M"@
    ||| s == "AGE1QYQQQQQQQQQQQQQQQQQQQQQQQQQQQQQQQQQQQQQQQQQQQQQQQQQQJ7VRYA"@
    ||| s == "AGE1QYQQQQQQQQQQQQQQQQQQQQQQQQQQQQQQQQQQQQQQQQQQQQQQQZQQK67YLY"@
    ||| s == "AGE1UR4H5LPMGXU2U9JKU0A0R87YDTDQNR0TNSETRLVXVGZ3VH6FHQQQZYT4V9"@
    ||| s == "AGE1UR4H5LPMGXU2U9JKU0A0R87YDTDQNR0TNSETRLVXVGZ3VH6FHZQQXQEJHU"@
    ||| s == "AGE1T7WFT09R2ZXZFVWSK92EEQL0TVZYGHXYTQWGAPKCYF8DM5YLZ9TS6WM9S8"@
    ||| s == "AGE1T7WFT09R2ZXZFVWSK92EEQL0TVZYGHXYTQWGAPKCYF8DM5YLZ8TS72FZT7"@
    ||| s == "AGE1ANLLLLLLLLLLLLLLLLLLLLLLLLLLLLLLLLLLLLLLLLLLLLLLLALS4N2T7M"@
    ||| s == "AGE1ANLLLLLLLLLLLLLLLLLLLLLLLLLLLLLLLLLLLLLLLLLLLLLLLLLS3HCV9Z"@
    ||| s == "AGE1AHLLLLLLLLLLLLLLLLLLLLLLLLLLLLLLLLLLLLLLLLLLLLLLLALSN46AYY"@
    ||| s == "AGE1AHLLLLLLLLLLLLLLLLLLLLLLLLLLLLLLLLLLLLLLLLLLLLLLLLLSH3G6LA"@
    ||| s == "AGE1AMLLLLLLLLLLLLLLLLLLLLLLLLLLLLLLLLLLLLLLLLLLLLLLLALSELRWRV"@
    ||| s == "AGE1AMLLLLLLLLLLLLLLLLLLLLLLLLLLLLLLLLLLLLLLLLLLLLLLLLLSAM3FC4"@
}

/// A recipient key string the codec accepts: it parses as a recipient key
/// and is not a blocklisted small-order encoding.
pub open spec fn usable_recipient(s: Seq<char>) -> bool {
    is_recipient_str(s) && !spec_blocked_recipient(s)
}

/// Returns whether `s` is a blocklisted small-order recipient encoding.
pub fn is_blocked_recipient(s: &str) -> (r: bool)
    ensures
        r == spec_blocked_recipient(s@),
{
    if str_eq(s, "age1qqqqqqqqqqqqqqqqqqqqqqqqqqqqqqqqqqqqqqqqqqqqqqqqqqqq5cu47z") {
        return true;
    }
    if str_eq(s, "age1qqqqqqqqqqqqqqqqqqqqqqqqqqqqqqqqqqqqqqqqqqqqqqqqqzqqsuwj9m") {
        return true;
    }
    if str_eq(s, "age1qyqqqqqqqqqqqqqqqqqqqqqqqqqqqqqqqqqqqqqqqqqqqqqqqqqqj7vrya") {
        return true;
    }
    if str_eq(s, "age1qyqqqqqqqqqqqqqqqqqqqqqqqqqqqqqqqqqqqqqqqqqqqqqqqzqqk67yly") {
        return true;
    }
    if str_eq(s, "age1ur4h5lpmgxu2u9jku0a0r87ydtdqnr0tnsetrlvxvgz3vh6fhqqqzyt4v9") {
        return true;
    }
    if str_eq(s, "age1ur4h5lpmgxu2u9jku0a0r87ydtdqnr0tnsetrlvxvgz3vh6fhzqqxqejhu") {
        return true;
    }
    if str_eq(s, "age1t7wft09r2zxzfvwsk92eeql0tvzyghxytqwgapkcyf8dm5ylz9ts6wm9s8") {
        return true;
    }
    if str_eq(s, "age1t7wft09r2zxzfvwsk92eeql0tvzyghxytqwgapkcyf8dm5ylz8ts72fzt7") {
        return true;
    }
    if str_eq(s, "age1anlllllllllllllllllllllllllllllllllllllllllllllllals4n2t7m") {
        return true;
    }
    if str_eq(s, "age1anllllllllllllllllllllllllllllllllllllllllllllllllls3hcv9z") {
        return true;
    }
    if str_eq(s, "age1ahlllllllllllllllllllllllllllllllllllllllllllllllalsn46ayy") {
        return true;
    }
    if str_eq(s, "age1ahlllllllllllllllllllllllllllllllllllllllllllllllllsh3g6la") {
        return true;
    }
    if str_eq(s, "age1amlllllllllllllllllllllllllllllllllllllllllllllllalselrwrv") {
        return true;
    }
    if str_eq(s, "age1amlllllllllllllllllllllllllllllllllllllllllllllllllsam3fc4") {
        return true;
    }
    if str_eq(s, "AGE1QQQQQQQQQQQQQQQQQQQQQQQQQQQQQQQQQQQQQQQQQQQQQQQQQQQQ5CU47Z") {
        return true;
    }
    if str_eq(s, "AGE1QQQQQQQQQQQQQQQQQQQQQQQQQQQQQQQQQQQQQQQQQQQQQQQQQZQQSUWJ9M") {
        return true;
    }
    if str_eq(s, "AGE1QYQQQQQQQQQQQQQQQQQQQQQQQQQQQQQQQQQQQQQQQQQQQQQQQQQQJ7VRYA") {
        return true;
    }
    if str_eq(s, "AGE1QYQQQQQQQQQQQQQQQQQQQQQQQQQQQQQQQQQQQQQQQQQQQQQQQZQQK67YLY") {
        return true;
    }
    if str_eq(s, "AGE1UR4H5LPMGXU2U9JKU0A0R87YDTDQNR0TNSETRLVXVGZ3VH6FHQQQZYT4V9") {
        return true;
    }
    if str_eq(s, "AGE1UR4H5LPMGXU2U9JKU0A0R87YDTDQNR0TNSETRLVXVGZ3VH6FHZQQXQEJHU") {
        return true;
    }
    if str_eq(s, "AGE1T7WFT09R2ZXZFVWSK92EEQL0TVZYGHXYTQWGAPKCYF8DM5YLZ9TS6WM9S8") {
        return true;
    }
    if str_eq(s, "AGE1T7WFT09R2ZXZFVWSK92EEQL0TVZYGHXYTQWGAPKCYF8DM5YLZ8TS72FZT7") {
        return true;
    }
    if str_eq(s, "AGE1ANLLLLLLLLLLLLLLLLLLLLLLLLLLLLLLLLLLLLLLLLLLLLLLLALS4N2T7M") {
        return true;
    }
    if str_eq(s, "AGE1ANLLLLLLLLLLLLLLLLLLLLLLLLLLLLLLLLLLLLLLLLLLLLLLLLLS3HCV9Z") {
        return true;
    }
    if str_eq(s, "AGE1AHLLLLLLLLLLLLLLLLLLLLLLLLLLLLLLLLLLLLLLLLLLLLLLLALSN46AYY") {
        return true;
    }
    if str_eq(s, "AGE1AHLLLLLLLLLLLLLLLLLLLLLLLLLLLLLLLLLLLLLLLLLLLLLLLLLSH3G6LA") {
        return true;
    }
    if str_eq(s, "AGE1AMLLLLLLLLLLLLLLLLLLLLLLLLLLLLLLLLLLLLLLLLLLLLLLLALSELRWRV") {
        return true;
    }
    if str_eq(s, "AGE1AMLLLLLLLLLLLLLLLLLLLLLLLLLLLLLLLLLLLLLLLLLLLLLLLLLSAM3FC4") {
        return true;
    }
    false
}

/// The recipient key string belonging to the identity string `identity`;
/// names what age's `Identity::to_public` renders for a parsed identity,
/// which depends on the identity string alone.
pub uninterp spec fn recipient_str_of(identity: Seq<char>) -> Seq<char>;

/// What decrypting `ciphertext` with the identity string `identity` yields:
/// the plaintext where the envelope opens, nothing where it does not; names
/// the result of age's decryption, which depends on its two arguments alone.
pub uninterp spec fn opens(ciphertext: Seq<u8>, identity: Seq<char>) -> Option<Seq<u8>>;

/// The first line of the age envelope format, as bytes:
/// `age-encryption.org/v1` and a line feed.
pub open spec fn age_format_header() -> Seq<u8> {
    seq![
        97u8, 103, 101, 45, 101, 110, 99, 114, 121, 112, 116, 105, 111, 110, 46, 111, 114, 103,
        47, 118, 49, 10,
    ]
}

///`cipher` is an envelope that every identity whose recipient key is among
/// `recips` opens to exactly `plain`, and that begins with the age format
/// header.
pub open spec fn encrypts_to(recips: Seq<Seq<char>>, plain: Seq<u8>, cipher: Seq<u8>) -> bool {
    &&& forall|id: Seq<char>|
        recips.contains(recipient_str_of(id)) ==> #[trigger] opens(cipher, id) == Some(plain)
    &&& cipher.len() >= 22
    &&& cipher.subrange(0, 22) == age_format_header()
}

/// Relies on age's `Recipient::from_str`: whether a recipient key string
/// parses depends on the string alone.
#[verifier::external_body]
fn recipient_is_valid(s: &str) -> (r: bool)
    ensures
        r == is_recipient_str(s@),
{
    s.parse::<age::x25519::Recipient>().is_ok()
}

/// Relies on age's `Encryptor::with_recipients` and the age format: a
/// produced envelope begins with the `age-encryption.org/v1` header line,
/// and decrypting it with any identity whose recipient key was among the
/// recipients yields the plaintext. For a nonempty list of usable x25519
/// recipient keys every step is infallible — wrapping a file key yields one
/// stanza with an empty label set, the no-scrypt header is structurally
/// valid, and the sink is a byte vector — so the call returns an envelope.
/// The blocklisted small-order keys, for which age's file-key wrap would
/// abort on an all-zero shared secret, are excluded by the `requires`.
#[verifier::external_body]
fn age_encrypt(recipients: &Vec<String>, plaintext: &Vec<u8>) -> (r: Option<Vec<u8>>)
    requires
        recipients@.len() > 0,
        forall|i: int|
            0 <= i < recipients.deep_view().len() ==> usable_recipient(
                #[trigger] recipients.deep_view()[i],
            ),
    ensures
        r is Some,
        r matches Some(c) ==> encrypts_to(recipients.deep_view(), plaintext@, c@),
{
    let parsed: Option<Vec<age::x25519::Recipient>> =
        recipients.iter().map(|s| s.parse().ok()).collect();
    let parsed = parsed?;
    let encryptor =
        age::Encryptor::with_recipients(parsed.iter().map(|x| x as &dyn age::Recipient)).ok()?;
    let mut out: Vec<u8> = Vec::new();
    let mut writer = encryptor.wrap_output(&mut out).ok()?;
    std::io::Write::write_all(&mut writer, plaintext.as_slice()).ok()?;
    writer.finish().ok()?;
    Some(out)
}

/// Relies on age's `Decryptor`: decrypting given bytes with a given identity
/// string yields a plaintext or fails on those two values alone; a
/// passphrase envelope, an unparsable identity and a non-matching identity
/// all fail.
#[verifier::external_body]
fn age_decrypt(ciphertext: &Vec<u8>, identity: &str) -> (r: Option<Vec<u8>>)
    ensures
        r is Some <==> opens(ciphertext@, identity@) is Some,
        r matches Some(p) ==> opens(ciphertext@, identity@) == Some(p@),
{
    let id: age::x25519::Identity = identity.parse().ok()?;
    let decryptor = age::Decryptor::new_buffered(ciphertext.as_slice()).ok()?;
    let mut reader = decryptor.decrypt(std::iter::once(&id as &dyn age::Identity)).ok()?;
    let mut plain: Vec<u8> = Vec::new();
    std::io::Read::read_to_end(&mut reader, &mut plain).ok()?;
    Some(plain)
}

/// Relies on age's `Identity::generate` and `Identity::to_public`: the
/// generated pair is a matching identity and recipient, and the recipient
/// string parses as a recipient key.
#[verifier::external_body]
pub fn generate_keypair() -> (r: (String, String))
    ensures
        is_recipient_str(r.1@),
        recipient_str_of(r.0@) == r.1@,
{
    let identity = age::x25519::Identity::generate();
    let recipient = identity.to_public();
    (identity.to_string().expose_secret().to_string(), recipient.to_string())
}

/// A recipients-list entry is kept when it is neither blank nor a comment.
pub open spec fn spec_kept(s: Seq<char>) -> bool {
    s.len() > 0 && s[0] != '#'
}

/// The entries of a recipient list that are neither blank nor comments, in
/// order.
pub open spec fn spec_kept_entries(v: Seq<Seq<char>>) -> Seq<Seq<char>> {
    v.filter(|s: Seq<char>| spec_kept(s))
}

/// The codec for files at rest: encrypts for a fixed set of recipient keys.
pub struct AgeEncryption {
    recipients: Vec<String>,
}

impl View for AgeEncryption {
    type V = Seq<Seq<char>>;

    closed spec fn view(&self) -> Seq<Seq<char>> {
        self.recipients.deep_view()
    }
}

impl AgeEncryption {
    /// Every configured recipient string parses as a recipient key and is
    /// not a blocklisted small-order encoding.
    pub open spec fn wf(self) -> bool {
        forall|i: int| 0 <= i < self@.len() ==> usable_recipient(#[trigger] self@[i])
    }

    /// Builds a codec from recipient key strings: blank entries and comment
    /// entries are dropped; every kept entry must parse as a recipient key
    /// and must not be a blocklisted small-order encoding, else the codec
    /// fails with an encryption error naming no recipients.
    pub fn new(recipient_strings: Vec<String>) -> (r: Result<Self, ConfectError>)
        ensures
            match r {
                Ok(c) => {
                    &&& c@ == spec_kept_entries(recipient_strings.deep_view())
                    &&& c.wf()
                },
                Err(e) => {
                    &&& exists|i: int|
                        0 <= i < spec_kept_entries(recipient_strings.deep_view()).len()
                            && !usable_recipient(
                            #[trigger] spec_kept_entries(recipient_strings.deep_view())[i],
                        )
                    &&& e matches ConfectError::Encryption(_)
                },
            },
    {
        let n: usize = recipient_strings.len();
        let mut kept: Vec<String> = Vec::new();
        let mut i: usize = 0;
        proof {
            reveal(Seq::filter);
            assert(recipient_strings.deep_view().subrange(0, 0) =~= Seq::<Seq<char>>::empty());
            assert(kept.deep_view() =~= spec_kept_entries(
                recipient_strings.deep_view().subrange(0, 0),
            ));
        }
        while i < n
            invariant
                0 <= i <= n,
                n == recipient_strings@.len(),
                recipient_strings.deep_view().len() == n,
                forall|j: int| 0 <= j < n
                    ==> recipient_strings.deep_view()[j] == recipient_strings@[j]@,
                kept.deep_view() =~= spec_kept_entries(
                    recipient_strings.deep_view().subrange(0, i as int),
                ),
            decreases n - i,
        {
            let s = &recipient_strings[i];
            let keep = if s.as_str().unicode_len() == 0 {
                false
            } else {
                s.as_str().get_char(0) != '#'
            };
            if keep {
                kept.push(s.clone());
            }
            proof {
                reveal(Seq::filter);
                let pre = recipient_strings.deep_view().subrange(0, i as int);
                let cur = recipient_strings.deep_view().subrange(0, i + 1 as int);
                assert(cur.drop_last() =~= pre);
                assert(cur.last() == recipient_strings.deep_view()[i as int]);
                assert(keep == spec_kept(cur.last()));
                assert(kept.deep_view() =~= spec_kept_entries(cur));
            }
            i = i + 1;
        }
        proof {
            assert(recipient_strings.deep_view().subrange(0, n as int) =~= recipient_strings
                .deep_view());
        }
        let m: usize = kept.len();
        let mut k: usize = 0;
        while k < m
            invariant
                0 <= k <= m,
                m == kept@.len(),
                kept.deep_view().len() == m,
                forall|j: int| 0 <= j < m ==> kept.deep_view()[j] == kept@[j]@,
                kept.deep_view() == spec_kept_entries(recipient_strings.deep_view()),
                forall|j: int| 0 <= j < k ==> usable_recipient(#[trigger] kept.deep_view()[j]),
            decreases m - k,
        {
            if !recipient_is_valid(kept[k].as_str()) || is_blocked_recipient(kept[k].as_str()) {
                assert(!usable_recipient(
                    spec_kept_entries(recipient_strings.deep_view())[k as int],
                ));
                return Err(
                    ConfectError::Encryption(String::from_str("invalid recipient key")),
                );
            }
            k = k + 1;
        }
        let r = AgeEncryption { recipients: kept };
        Ok(r)
    }

    /// Builds a codec from the text of a recipients file: one entry per
    /// line, blank lines and comment lines dropped. The codec fails exactly
    /// where some kept line is no usable recipient key.
    pub fn from_recipients_text(content: &str) -> (r: Result<Self, ConfectError>)
        ensures
            match r {
                Ok(c) => {
                    &&& c@ == spec_kept_entries(spec_lines(content@))
                    &&& c.wf()
                },
                Err(e) => {
                    &&& exists|i: int|
                        0 <= i < spec_kept_entries(spec_lines(content@)).len()
                            && !usable_recipient(
                            #[trigger] spec_kept_entries(spec_lines(content@))[i],
                        )
                    &&& e matches ConfectError::Encryption(_)
                },
            },
    {
        let lines = split_lines(content);
        Self::new(lines)
    }

    /// The configured recipient key strings, in order.
    pub fn recipients(&self) -> (r: &Vec<String>)
        ensures
            r.deep_view() == self@,
    {
        &self.recipients
    }

    /// Encrypts `plaintext` for every configured recipient. Fails with an
    /// encryption error exactly where no recipients are configured; the
    /// produced envelope opens to `plaintext` for every matching identity
    /// and begins with the age format header.
    pub fn encrypt(&self, plaintext: &Vec<u8>) -> (r: Result<Vec<u8>, ConfectError>)
        requires
            self.wf(),
        ensures
            r is Err <==> self@.len() == 0,
            r matches Ok(c) ==> encrypts_to(self@, plaintext@, c@),
            r matches Err(e) ==> e matches ConfectError::Encryption(_),
    {
        if self.recipients.len() == 0 {
            return Err(ConfectError::Encryption(String::from_str("no recipients configured")));
        }
        proof {
            assert forall|i: int|
                0 <= i < self.recipients.deep_view().len() implies usable_recipient(
                #[trigger] self.recipients.deep_view()[i],
            ) by {
                assert(usable_recipient(self@[i]));
            }
        }
        match age_encrypt(&self.recipients, plaintext) {
            Some(c) => Ok(c),
            None => Err(ConfectError::Encryption(String::from_str("envelope failure"))),
        }
    }

    /// Decrypts an envelope with the given identity string. Fails with a
    /// decryption error exactly where the envelope does not open for that
    /// identity: a non-matching identity, an unparsable identity, or an
    /// unsupported scheme such as a passphrase envelope.
    pub fn decrypt(&self, ciphertext: &Vec<u8>, identity: &str) -> (r: Result<
        Vec<u8>,
        ConfectError,
    >)
        ensures
            r matches Ok(p) ==> opens(ciphertext@, identity@) == Some(p@),
            r is Err <==> opens(ciphertext@, identity@) is None,
            r matches Err(e) ==> e matches ConfectError::Decryption(_),
    {
        match age_decrypt(ciphertext, identity) {
            Some(p) => Ok(p),
            None => Err(ConfectError::Decryption(String::from_str("envelope does not open"))),
        }
    }
}

/// Whether `prefix` begins like an age envelope: it holds at least the
/// 16 bytes the detector reads, and its first 15 bytes are
/// `age-encryption.`.
pub open spec fn spec_is_encrypted(b: Seq<u8>) -> bool {
    b.len() >= 16 && b.subrange(0, 15) == age_format_header().subrange(0, 15)
}

/// Returns the 15-byte tag that age envelopes begin with.
fn age_magic_prefix() -> (r: Vec<u8>)
    ensures
        r@ == age_format_header().subrange(0, 15),
{
    let mut v: Vec<u8> = Vec::new();
    v.push(97);
    v.push(103);
    v.push(101);
    v.push(45);
    v.push(101);
    v.push(110);
    v.push(99);
    v.push(114);
    v.push(121);
    v.push(112);
    v.push(116);
    v.push(105);
    v.push(111);
    v.push(110);
    v.push(46);
    proof {
        assert(v@ =~= age_format_header().subrange(0, 15));
    }
    v
}

/// Returns whether a file beginning with `prefix` is an age envelope: true
/// exactly where the prefix holds at least 16 bytes and begins with the age
/// tag. A shorter prefix — a file shorter than the detector's read — is not
/// an envelope, never an error.
pub fn is_encrypted(prefix: &Vec<u8>) -> (r: bool)
    ensures
        r == spec_is_encrypted(prefix@),
{
    if prefix.len() < 16 {
        return false;
    }
    let magic = age_magic_prefix();
    let mut i: usize = 0;
    while i < 15
        invariant
            0 <= i <= 15,
            prefix@.len() >= 16,
            magic@ == age_format_header().subrange(0, 15),
            magic@.len() == 15,
            forall|j: int| 0 <= j < i ==> prefix@[j] == magic@[j],
        decreases 15 - i,
    {
        if prefix[i] != magic[i] {
            assert(prefix@.subrange(0, 15) != age_format_header().subrange(0, 15)) by {
                assert(prefix@.subrange(0, 15)[i as int] != age_format_header().subrange(
                    0,
                    15,
                )[i as int]);
            }
            return false;
        }
        i = i + 1;
    }
    proof {
        assert(prefix@.subrange(0, 15) =~= magic@);
    }
    true
}

/// Law (encryption round trip): an envelope produced for a set of recipients
/// opens, under any identity whose recipient key is among them, to exactly
/// the original bytes.
pub proof fn lemma_encrypt_round_trip(
    recips: Seq<Seq<char>>,
    plain: Seq<u8>,
    cipher: Seq<u8>,
    identity: Seq<char>,
)
    requires
        encrypts_to(recips, plain, cipher),
        recips.contains(recipient_str_of(identity)),
    ensures
        opens(cipher, identity) == Some(plain),
{
}

/// Law (envelopes are detected): an envelope the codec produces is
/// recognised by the encryption detector.
pub proof fn lemma_encrypted_is_detected(recips: Seq<Seq<char>>, plain: Seq<u8>, cipher: Seq<u8>)
    requires
        encrypts_to(recips, plain, cipher),
    ensures
        spec_is_encrypted(cipher),
{
    assert(cipher.subrange(0, 15) =~= cipher.subrange(0, 22).subrange(0, 15));
}

} // verus!
