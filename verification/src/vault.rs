//! The encrypted JSON store: versioned schemas, sealed blobs, and the load
//! and save paths between them.
//!
//! File input and output stay with the caller. Loading takes the raw bytes
//! of the stored vault (or `None` when no file exists, which yields the
//! empty vault), decrypts them and parses the canonical text; saving
//! serializes and encrypts, returning the blob to write. The central
//! contract is the round trip: a blob that [`JsonDatabase::save_database_file`]
//! sealed under a passphrase is loaded back by
//! [`JsonDatabase::read_database_file`] under the same passphrase to exactly
//! the entries it was built from.

use vstd::prelude::*;

use crate::cipher;
use crate::entry::{AppView, GenApp};
use crate::errors::VaultError;
use crate::parsing;
use crate::schema;

verus! {

/// The schema version this crate writes. The load path branches on the
/// stored version and accepts only this one; anything else is reported as
/// corruption rather than misread.
pub const DATABASE_VERSION: u8 = 1;

/// The decoded contents of a vault file: the stored version and the
/// entries.
pub struct JsonDatabaseSchema {
    pub version: u8,
    pub content: DatabaseContentSchema,
}

/// The applications a vault holds.
pub struct DatabaseContentSchema {
    pub applications: Vec<GenApp>,
}

/// `blob` is a sealing of exactly this vault: the canonical text of
/// (`version`, `apps`), encrypted under the key derived from `passphrase`.
pub open spec fn seals(
    blob: Seq<u8>,
    version: u8,
    apps: Seq<AppView>,
    passphrase: Seq<char>,
) -> bool {
    cipher::encrypts_to(blob, schema::ser_vault(version, apps), passphrase)
}

/// The entries a decrypted text stands for, when it is the canonical form
/// of a vault at the current schema version: `None` when the text is not
/// canonical or carries another version.
pub open spec fn current_vault_of(t: Seq<char>) -> Option<Seq<AppView>> {
    match parsing::spec_parse_vault(t) {
        Some(va) => if va.0 == DATABASE_VERSION {
            Some(va.1)
        } else {
            None
        },
        None => None,
    }
}

/// The encrypted JSON database, keyed by the passphrase it was opened with.
pub struct JsonDatabase {
    secret: String,
}

impl View for JsonDatabase {
    type V = Seq<char>;

    closed spec fn view(&self) -> Seq<char> {
        self.secret@
    }
}

impl JsonDatabase {
    /// A store for the given passphrase.
    pub fn new(secret: String) -> (r: Self)
        ensures
            r@ == secret@,
    {
        JsonDatabase { secret }
    }

    /// The passphrase this store derives its key from.
    pub fn get_secret(&self) -> (r: String)
        ensures
            r@ == self@,
    {
        self.secret.clone()
    }

    /// Encrypt one serialized payload under the passphrase `key`: the
    /// 16-byte IV, then one ciphertext block per started plaintext block
    /// plus one (PKCS#7 always pads).
    pub fn encrypt_data(data: &str, key: &str) -> (r: Vec<u8>)
        ensures
            cipher::encrypts_to(r@, data@, key@),
            r@.len() == cipher::IV_SIZE + (vstd::utf8::encode_utf8(data@).len() / 16 + 1) * 16,
    {
        cipher::encrypt_data(data, key)
    }

    /// Decrypt a stored blob with the passphrase `key`; blobs sealed under
    /// the same passphrase come back exactly, and anything that decrypts to
    /// nothing — a blob shorter than the 16-byte IV included — fails as
    /// `Decryption`, a value, never a panic.
    pub fn decrypt_data(data: &[u8], key: &str) -> (r: Result<String, VaultError>)
        ensures
            match r {
                Ok(s) => cipher::unsealed_text(data@, key@) == Some(s@),
                Err(e) => cipher::unsealed_text(data@, key@) is None && e
                    == VaultError::Decryption,
            },
            forall|p: Seq<char>| cipher::encrypts_to(data@, p, key@) ==> (r matches Ok(s) && s@ == p),
            data@.len() < cipher::IV_SIZE ==> r is Err,
    {
        cipher::decrypt_data(data, key)
    }

    /// The schema of a vault that does not exist yet: the current version
    /// and no entries.
    pub fn get_empty_schema() -> (r: JsonDatabaseSchema)
        ensures
            r.version == DATABASE_VERSION,
            r.content.applications.deep_view() == Seq::<AppView>::empty(),
    {
        let r = JsonDatabaseSchema {
            version: DATABASE_VERSION,
            content: DatabaseContentSchema { applications: Vec::new() },
        };
        proof {
            assert(r.content.applications.deep_view() =~= Seq::<AppView>::empty());
        }
        r
    }

    /// Decode a stored vault blob; a missing file (`None`) is a fresh,
    /// empty vault, not an error.
    ///
    /// The second clause is the load half of the round trip: any blob that
    /// seals entries under this store's passphrase at the current version
    /// loads back to exactly those entries. A blob that will not decrypt
    /// fails as `Decryption`; one that decrypts but does not hold a
    /// canonical vault of the current version fails as `Corruption`.
    pub fn read_database_file(&self, data: Option<&Vec<u8>>) -> (r: Result<
        JsonDatabaseSchema,
        VaultError,
    >)
        ensures
            data is None ==> (r matches Ok(sch) && sch.version == DATABASE_VERSION
                && sch.content.applications.deep_view() == Seq::<AppView>::empty()),
            data matches Some(d) ==> forall|apps: Seq<AppView>|
                (#[trigger] seals(d@, DATABASE_VERSION, apps, self@) && parsing::apps_wf(apps)
                    && schema::unique_names(apps)) ==> (r matches Ok(sch)
                    && sch.content.applications.deep_view() == apps),
            r matches Ok(sch) ==> (sch.version == DATABASE_VERSION && parsing::apps_wf(
                sch.content.applications.deep_view(),
            ) && schema::unique_names(sch.content.applications.deep_view())),
            data matches Some(d) ==> (cipher::unsealed_text(d@, self@) is None ==> r == Err::<
                JsonDatabaseSchema,
                VaultError,
            >(VaultError::Decryption)),
            data matches Some(d) ==> cipher::unsealed_text(d@, self@) matches Some(t) ==> (
            current_vault_of(t) is None ==> r == Err::<JsonDatabaseSchema, VaultError>(
                VaultError::Corruption,
            )),
            data matches Some(d) ==> cipher::unsealed_text(d@, self@) matches Some(t)
                ==> current_vault_of(t) matches Some(apps) ==> (r matches Ok(sch)
                && sch.content.applications.deep_view() == apps),
            r matches Err(e) ==> (data is Some && (e == VaultError::Decryption || e
                == VaultError::Corruption)),
    {
        let d = match data {
            Some(d) => d,
            None => {
                return Ok(Self::get_empty_schema());
            },
        };
        let text = match cipher::decrypt_data(d.as_slice(), self.secret.as_str()) {
            Ok(t) => t,
            Err(e) => {
                return Err(e);
            },
        };
        match parsing::parse_vault_text(text.as_str()) {
            Ok((ver, apps_vec)) => {
                if ver == DATABASE_VERSION {
                    proof {
                        let sp = parsing::spec_parse_vault(text@);
                        assert(sp == Some((ver, apps_vec.deep_view())));
                        let s1 = parsing::after_lit(text@, schema::l_version());
                        assert(s1 is Some);
                        let vr = parsing::spec_parse_u8(s1.unwrap());
                        assert(vr is Some);
                        let s2 = parsing::after_lit(vr.unwrap().1, schema::l_content());
                        assert(s2 is Some);
                        parsing::lemma_parse_entries_wf(s2.unwrap());
                        let er = parsing::spec_parse_entries(s2.unwrap());
                        assert(er is Some);
                        assert(parsing::apps_wf(er.unwrap().0));
                        assert(schema::unique_names(er.unwrap().0));
                        assert(er.unwrap().0 == apps_vec.deep_view());
                        assert forall|apps: Seq<AppView>|
                            (seals(d@, DATABASE_VERSION, apps, self@) && parsing::apps_wf(apps)
                                && schema::unique_names(apps)) implies apps_vec.deep_view()
                            == apps by {
                            assert(cipher::encrypts_to(
                                d@,
                                schema::ser_vault(DATABASE_VERSION, apps),
                                self@,
                            ));
                            assert(text@ == schema::ser_vault(DATABASE_VERSION, apps));
                            parsing::lemma_parse_vault_roundtrip(DATABASE_VERSION, apps);
                        }
                    }
                    Ok(
                        JsonDatabaseSchema {
                            version: ver,
                            content: DatabaseContentSchema { applications: apps_vec },
                        },
                    )
                } else {
                    proof {
                        assert forall|apps: Seq<AppView>|
                            !(seals(d@, DATABASE_VERSION, apps, self@) && parsing::apps_wf(apps)
                                && schema::unique_names(apps)) by {
                            if seals(d@, DATABASE_VERSION, apps, self@) && parsing::apps_wf(apps)
                                && schema::unique_names(apps) {
                                assert(cipher::encrypts_to(
                                    d@,
                                    schema::ser_vault(DATABASE_VERSION, apps),
                                    self@,
                                ));
                                assert(text@ == schema::ser_vault(DATABASE_VERSION, apps));
                                parsing::lemma_parse_vault_roundtrip(DATABASE_VERSION, apps);
                            }
                        }
                    }
                    Err(VaultError::Corruption)
                }
            },
            Err(e) => {
                proof {
                    assert forall|apps: Seq<AppView>|
                        !(seals(d@, DATABASE_VERSION, apps, self@) && parsing::apps_wf(apps)
                            && schema::unique_names(apps)) by {
                        if seals(d@, DATABASE_VERSION, apps, self@) && parsing::apps_wf(apps)
                            && schema::unique_names(apps) {
                            assert(cipher::encrypts_to(
                                d@,
                                schema::ser_vault(DATABASE_VERSION, apps),
                                self@,
                            ));
                            assert(text@ == schema::ser_vault(DATABASE_VERSION, apps));
                            parsing::lemma_parse_vault_roundtrip(DATABASE_VERSION, apps);
                        }
                    }
                }
                Err(e)
            },
        }
    }

    /// Serialize a schema to its canonical text and encrypt it under this
    /// store's passphrase: the save half of the round trip.
    pub fn save_database_file(&self, content: &JsonDatabaseSchema) -> (r: Vec<u8>)
        ensures
            seals(r@, content.version, content.content.applications.deep_view(), self@),
    {
        let text = schema::vault_json(content.version, &content.content.applications);
        cipher::encrypt_data(text.as_str(), self.secret.as_str())
    }

    /// The entries stored in a vault blob (`None` for a vault that has no
    /// file yet, which holds no entries).
    pub fn get_applications(&self, data: Option<&Vec<u8>>) -> (r: Result<Vec<GenApp>, VaultError>)
        ensures
            data is None ==> (r matches Ok(v) && v.deep_view() == Seq::<AppView>::empty()),
            data matches Some(d) ==> forall|apps: Seq<AppView>|
                (#[trigger] seals(d@, DATABASE_VERSION, apps, self@) && parsing::apps_wf(apps)
                    && schema::unique_names(apps)) ==> (r matches Ok(v)
                    && v.deep_view() == apps),
            r matches Ok(v) ==> (parsing::apps_wf(v.deep_view()) && schema::unique_names(
                v.deep_view(),
            )),
            data matches Some(d) ==> (cipher::unsealed_text(d@, self@) is None ==> r == Err::<
                Vec<GenApp>,
                VaultError,
            >(VaultError::Decryption)),
            data matches Some(d) ==> cipher::unsealed_text(d@, self@) matches Some(t) ==> (
            current_vault_of(t) is None ==> r == Err::<Vec<GenApp>, VaultError>(
                VaultError::Corruption,
            )),
            data matches Some(d) ==> cipher::unsealed_text(d@, self@) matches Some(t)
                ==> current_vault_of(t) matches Some(apps) ==> (r matches Ok(v) && v.deep_view()
                == apps),
            r matches Err(e) ==> (data is Some && (e == VaultError::Decryption || e
                == VaultError::Corruption)),
    {
        match self.read_database_file(data) {
            Ok(sch) => Ok(sch.content.applications),
            Err(e) => Err(e),
        }
    }

    /// Serialize entries under the current version and encrypt them: the
    /// blob to write back to the vault file.
    pub fn save_applications(&self, applications: &Vec<GenApp>) -> (r: Vec<u8>)
        ensures
            seals(r@, DATABASE_VERSION, applications.deep_view(), self@),
    {
        let text = schema::vault_json(DATABASE_VERSION, applications);
        cipher::encrypt_data(text.as_str(), self.secret.as_str())
    }
}

} // verus!
