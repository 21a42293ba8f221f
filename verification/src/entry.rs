//! A single generator entry: a name, an optional username label, and the
//! shared secret both as the Base32 text the user entered and as the decoded
//! bytes the code derivation needs.
//!
//! The decoded bytes are derived once, at creation time, and the
//! well-formedness predicate [`app_wf`] ties them to the text form for the
//! entry's whole life.

use vstd::prelude::*;

use crate::otp;

verus! {

/// The decoding of a character sequence as unpadded RFC 4648 Base32
/// (upper-case letters `A`–`Z` and digits `2`–`7`), `None` on any other
/// input. Named, not defined: the table-driven decoding is run by the
/// outside implementation.
pub uninterp spec fn base32_decoding(s: Seq<char>) -> Option<Seq<u8>>;

/// The mathematical content of one entry.
pub struct AppView {
    pub name: Seq<char>,
    pub secret: Seq<char>,
    pub username: Seq<char>,
    pub secret_bytes: Seq<u8>,
}

/// An entry is well formed when its stored bytes are exactly the decoding of
/// its stored Base32 secret.
pub open spec fn app_wf(a: AppView) -> bool {
    base32_decoding(a.secret) == Some(a.secret_bytes)
}

/// An element-wise copy of a byte vector.
fn clone_bytes(v: &Vec<u8>) -> (r: Vec<u8>)
    ensures
        r@ == v@,
{
    let mut r: Vec<u8> = Vec::new();
    let mut i: usize = 0;
    while i < v.len()
        invariant
            i <= v@.len(),
            r@ == v@.take(i as int),
        decreases v@.len() - i,
    {
        r.push(v[i]);
        proof {
            assert(r@ =~= v@.take(i + 1 as int));
        }
        i = i + 1;
    }
    proof {
        assert(v@.take(v@.len() as int) =~= v@);
    }
    r
}

/// One generator entry of the vault.
#[derive(Clone, Debug)]
pub struct GenApp {
    name: String,
    secret: String,
    username: String,
    secret_bytes: Vec<u8>,
}

impl View for GenApp {
    type V = AppView;

    closed spec fn view(&self) -> AppView {
        AppView {
            name: self.name@,
            secret: self.secret@,
            username: self.username@,
            secret_bytes: self.secret_bytes@,
        }
    }
}

impl DeepView for GenApp {
    type V = AppView;

    open spec fn deep_view(&self) -> AppView {
        self.view()
    }
}

impl GenApp {
    /// Relies on base32::decode with the unpadded RFC 4648 alphabet: the
    /// result is a function of the input characters alone, and is `None`
    /// exactly on the inputs that are not valid unpadded Base32.
    #[verifier::external_body]
    pub(crate) fn base32_to_bytes(secret: &str) -> (r: Option<Vec<u8>>)
        ensures
            match r {
                Some(v) => base32_decoding(secret@) == Some(v@),
                None => base32_decoding(secret@) is None,
            },
    {
        base32::decode(base32::Alphabet::Rfc4648 { padding: false }, secret)
    }

    /// Assemble an entry from its parts.
    pub(crate) fn new(name: &str, username: &str, secret: &str, secret_bytes: Vec<u8>) -> (r: Self)
        ensures
            r@.name == name@,
            r@.secret == secret@,
            r@.username == username@,
            r@.secret_bytes == secret_bytes@,
    {
        GenApp {
            name: String::from_str(name),
            secret: String::from_str(secret),
            username: String::from_str(username),
            secret_bytes,
        }
    }

    /// The entry's name, its unique key in the registry.
    pub fn get_name(&self) -> (r: &str)
        ensures
            r@ == self@.name,
    {
        self.name.as_str()
    }

    /// The secret exactly as it was entered, for display and export.
    pub fn get_secret(&self) -> (r: &str)
        ensures
            r@ == self@.secret,
    {
        self.secret.as_str()
    }

    /// The optional username label (possibly empty).
    pub fn get_username(&self) -> (r: &str)
        ensures
            r@ == self@.username,
    {
        self.username.as_str()
    }

    /// The decoded secret bytes the code derivation runs on.
    pub fn get_secret_bytes(&self) -> (r: &Vec<u8>)
        ensures
            r@ == self@.secret_bytes,
    {
        &self.secret_bytes
    }

    /// A copy of this entry under a new name; secret, username and decoded
    /// bytes are kept.
    pub(crate) fn renamed(&self, newname: &str) -> (r: GenApp)
        ensures
            r@ == (AppView {
                name: newname@,
                secret: self@.secret,
                username: self@.username,
                secret_bytes: self@.secret_bytes,
            }),
    {
        GenApp {
            name: String::from_str(newname),
            secret: self.secret.clone(),
            username: self.username.clone(),
            secret_bytes: clone_bytes(&self.secret_bytes),
        }
    }

    /// The entry's six-digit code for the current wall-clock instant: the
    /// code of the 30-second window the clock falls in at the moment of the
    /// call.
    pub fn get_code(&self) -> (r: String)
        ensures
            exists|t: u64| r@ == otp::spec_code_at(self@.secret_bytes, t),
            r@.len() == 6,
            forall|i: int| 0 <= i < r@.len() ==> otp::is_code_digit(r@[i]),
    {
        let s = self.secret_bytes.as_slice();
        let r = otp::code_now(s);
        proof {
            let t = choose|t: u64| r@ == otp::spec_code_at(s@, t);
            assert(r@ == otp::spec_code_at(self@.secret_bytes, t));
        }
        r
    }
}

} // verus!
