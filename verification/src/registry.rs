//! The in-memory registry of generator entries: the authoritative working
//! set for one run, created from a stored vault (or empty) and written back
//! only by an explicit flush.
//!
//! The registry's invariant — every entry well formed, no name repeated —
//! is a type invariant: every operation preserves it, and no caller can
//! construct a registry without it. The contracts below describe each
//! operation over the sequence of entry views, including exactly which
//! error comes back on which input.

use vstd::prelude::*;

use crate::entry::{base32_decoding, AppView, GenApp};
use crate::errors::VaultError;
use crate::cipher;
use crate::parsing;
use crate::schema;
use crate::vault::{current_vault_of, seals, JsonDatabase, DATABASE_VERSION};

verus! {

/// Some entry of `apps` carries this name.
pub open spec fn contains_name(apps: Seq<AppView>, name: Seq<char>) -> bool {
    exists|i: int| 0 <= i < apps.len() && apps[i].name == name
}

/// The position of the entry carrying this name. With unique names there
/// is exactly one such position.
pub open spec fn index_of_name(apps: Seq<AppView>, name: Seq<char>) -> int {
    choose|i: int| 0 <= i < apps.len() && apps[i].name == name
}

/// The registry: the entries of one opened vault and the store they came
/// from.
pub struct RusTOTPony {
    database: JsonDatabase,
    applications: Vec<GenApp>,
}

impl View for RusTOTPony {
    type V = Seq<AppView>;

    closed spec fn view(&self) -> Seq<AppView> {
        self.applications.deep_view()
    }
}

impl RusTOTPony {
    /// Every entry is well formed and no two entries share a name.
    #[verifier::type_invariant]
    closed spec fn wf(self) -> bool {
        parsing::apps_wf(self.applications.deep_view()) && schema::unique_names(
            self.applications.deep_view(),
        )
    }

    /// The passphrase of the store this registry was opened with.
    pub closed spec fn passphrase(self) -> Seq<char> {
        self.database@
    }

    /// Open a registry from a stored blob (`None` for a vault that has no
    /// file yet, which opens empty). Any blob sealed from entries under the
    /// same passphrase opens to exactly those entries. The error names the
    /// failure exactly: a blob that decrypts to nothing under this
    /// passphrase — in practice a wrong passphrase or a damaged file — is
    /// `Decryption`; one that decrypts but does not hold a canonical vault
    /// of the current version is `Corruption`.
    pub fn new(db: JsonDatabase, file_bytes: Option<&Vec<u8>>) -> (r: Result<
        RusTOTPony,
        VaultError,
    >)
        ensures
            r matches Ok(t) ==> t.passphrase() == db@,
            file_bytes is None ==> (r matches Ok(t) && t@ == Seq::<AppView>::empty()),
            file_bytes matches Some(d) ==> forall|apps: Seq<AppView>|
                (#[trigger] seals(d@, DATABASE_VERSION, apps, db@) && parsing::apps_wf(apps)
                    && schema::unique_names(apps)) ==> (r matches Ok(t) && t@ == apps),
            file_bytes matches Some(d) ==> (cipher::unsealed_text(d@, db@) is None ==> r == Err::<
                RusTOTPony,
                VaultError,
            >(VaultError::Decryption)),
            file_bytes matches Some(d) ==> cipher::unsealed_text(d@, db@) matches Some(t) ==> (
            current_vault_of(t) is None ==> r == Err::<RusTOTPony, VaultError>(
                VaultError::Corruption,
            )),
            file_bytes matches Some(d) ==> cipher::unsealed_text(d@, db@) matches Some(t)
                ==> current_vault_of(t) matches Some(apps) ==> (r matches Ok(reg) && reg@ == apps),
            r matches Err(e) ==> (file_bytes is Some && (e == VaultError::Decryption || e
                == VaultError::Corruption)),
    {
        match db.get_applications(file_bytes) {
            Ok(apps) => Ok(RusTOTPony { database: db, applications: apps }),
            Err(e) => Err(e),
        }
    }

    /// The position of the entry named `name`, if any.
    fn find_index(&self, name: &str) -> (r: Option<usize>)
        ensures
            match r {
                Some(i) => i < self@.len() && self@[i as int].name == name@,
                None => !contains_name(self@, name@),
            },
    {
        let mut i: usize = 0;
        while i < self.applications.len()
            invariant
                i <= self@.len(),
                self@.len() == self.applications@.len(),
                forall|k: int| 0 <= k < self@.len() ==> #[trigger] self@[k] == self.applications@[k]@,
                forall|k: int| 0 <= k < i ==> #[trigger] self@[k].name != name@,
            decreases self@.len() - i,
        {
            if string_eq(self.applications[i].get_name(), name) {
                return Some(i);
            }
            i = i + 1;
        }
        None
    }

    /// Create a new entry. Fails with `InvalidSecret` when the secret is
    /// not valid Base32 (checked first, as nothing may be mutated on a bad
    /// secret), and with `DuplicateName` when an entry of this name already
    /// exists; otherwise the entry, with the decoded secret bytes, is
    /// appended.
    pub fn create_application(&mut self, name: &str, username: &str, secret: &str) -> (r: Result<
        (),
        VaultError,
    >)
        ensures
            final(self).passphrase() == old(self).passphrase(),
            base32_decoding(secret@) is None ==> (r == Err::<(), VaultError>(
                VaultError::InvalidSecret,
            ) && final(self)@ == old(self)@),
            (base32_decoding(secret@) is Some && contains_name(old(self)@, name@)) ==> (r == Err::<
                (),
                VaultError,
            >(VaultError::DuplicateName) && final(self)@ == old(self)@),
            (base32_decoding(secret@) is Some && !contains_name(old(self)@, name@)) ==> (r == Ok::<
                (),
                VaultError,
            >(()) && final(self)@ == old(self)@.push(
                AppView {
                    name: name@,
                    secret: secret@,
                    username: username@,
                    secret_bytes: base32_decoding(secret@).unwrap(),
                },
            )),
    {
        proof {
            use_type_invariant(&*self);
        }
        let secret_bytes = match GenApp::base32_to_bytes(secret) {
            Some(b) => b,
            None => {
                return Err(VaultError::InvalidSecret);
            },
        };
        match self.find_index(name) {
            Some(_) => Err(VaultError::DuplicateName),
            None => {
                let ghost bytesv = secret_bytes@;
                let new_app = GenApp::new(name, username, secret, secret_bytes);
                let ghost oldview = self.applications.deep_view();
                let mut apps: Vec<GenApp> = Vec::new();
                std::mem::swap(&mut apps, &mut self.applications);
                apps.push(new_app);
                proof {
                    assert(apps.deep_view() =~= oldview.push(
                        AppView {
                            name: name@,
                            secret: secret@,
                            username: username@,
                            secret_bytes: bytesv,
                        },
                    ));
                    assert(parsing::apps_wf(apps.deep_view()));
                    assert forall|p: int, q: int|
                        0 <= p < q < apps.deep_view().len() implies apps.deep_view()[p].name
                        != apps.deep_view()[q].name by {
                        if q == apps.deep_view().len() - 1 {
                            assert(oldview[p].name != name@);
                        }
                    }
                }
                self.applications = apps;
                Ok(())
            },
        }
    }

    /// Delete the entry named `name`; fails with `NotFound` when no entry
    /// carries that name.
    pub fn delete_application(&mut self, name: &str) -> (r: Result<(), VaultError>)
        ensures
            final(self).passphrase() == old(self).passphrase(),
            !contains_name(old(self)@, name@) ==> (r == Err::<(), VaultError>(VaultError::NotFound)
                && final(self)@ == old(self)@),
            contains_name(old(self)@, name@) ==> (r == Ok::<(), VaultError>(()) && final(self)@
                == old(self)@.remove(index_of_name(old(self)@, name@))),
    {
        proof {
            use_type_invariant(&*self);
        }
        match self.find_index(name) {
            Some(i) => {
                let ghost oldview = self.applications.deep_view();
                proof {
                    assert(index_of_name(oldview, name@) == i) by {
                        let j = index_of_name(oldview, name@);
                        assert(0 <= j < oldview.len() && oldview[j].name == name@);
                    }
                }
                let mut apps: Vec<GenApp> = Vec::new();
                std::mem::swap(&mut apps, &mut self.applications);
                apps.remove(i);
                proof {
                    assert(apps.deep_view() =~= oldview.remove(i as int));
                    assert(parsing::apps_wf(apps.deep_view()));
                    assert(schema::unique_names(apps.deep_view()));
                }
                self.applications = apps;
                Ok(())
            },
            None => Err(VaultError::NotFound),
        }
    }

    /// Rename the entry named `name` to `newname`; fails with `NotFound`
    /// when no entry carries `name`, and with `DuplicateName` when another
    /// entry already carries `newname` (renaming an entry to its own name
    /// is allowed and leaves it in place).
    pub fn rename_application(&mut self, name: &str, newname: &str) -> (r: Result<(), VaultError>)
        ensures
            final(self).passphrase() == old(self).passphrase(),
            !contains_name(old(self)@, name@) ==> (r == Err::<(), VaultError>(VaultError::NotFound)
                && final(self)@ == old(self)@),
            (contains_name(old(self)@, name@) && name@ != newname@ && contains_name(
                old(self)@,
                newname@,
            )) ==> (r == Err::<(), VaultError>(VaultError::DuplicateName) && final(self)@ == old(
                self,
            )@),
            (contains_name(old(self)@, name@) && (name@ == newname@ || !contains_name(
                old(self)@,
                newname@,
            ))) ==> (r == Ok::<(), VaultError>(()) && final(self)@ == old(self)@.update(
                index_of_name(old(self)@, name@),
                AppView {
                    name: newname@,
                    secret: old(self)@[index_of_name(old(self)@, name@)].secret,
                    username: old(self)@[index_of_name(old(self)@, name@)].username,
                    secret_bytes: old(self)@[index_of_name(old(self)@, name@)].secret_bytes,
                },
            )),
    {
        proof {
            use_type_invariant(&*self);
        }
        let i = match self.find_index(name) {
            Some(i) => i,
            None => {
                return Err(VaultError::NotFound);
            },
        };
        let same = string_eq(name, newname);
        if !same {
            match self.find_index(newname) {
                Some(_) => {
                    return Err(VaultError::DuplicateName);
                },
                None => {},
            }
        }
        let ghost oldview = self.applications.deep_view();
        proof {
            assert(index_of_name(oldview, name@) == i) by {
                let j = index_of_name(oldview, name@);
                assert(0 <= j < oldview.len() && oldview[j].name == name@);
            }
        }
        let renamed_app = self.applications[i].renamed(newname);
        let mut apps: Vec<GenApp> = Vec::new();
        std::mem::swap(&mut apps, &mut self.applications);
        apps.set(i, renamed_app);
        proof {
            assert(apps.deep_view() =~= oldview.update(
                i as int,
                AppView {
                    name: newname@,
                    secret: oldview[i as int].secret,
                    username: oldview[i as int].username,
                    secret_bytes: oldview[i as int].secret_bytes,
                },
            ));
            assert(parsing::apps_wf(apps.deep_view()));
            assert forall|p: int, q: int|
                0 <= p < q < apps.deep_view().len() implies apps.deep_view()[p].name
                != apps.deep_view()[q].name by {
                if p != i && q != i {
                    assert(oldview[p].name != oldview[q].name);
                }
            }
        }
        self.applications = apps;
        Ok(())
    }

    /// All entries, for listing; an empty registry is reported as
    /// `EmptyVault`, the display layer's signal that there is nothing to
    /// show.
    pub fn get_applications(&self) -> (r: Result<&Vec<GenApp>, VaultError>)
        ensures
            self@.len() == 0 ==> r == Err::<&Vec<GenApp>, VaultError>(VaultError::EmptyVault),
            self@.len() > 0 ==> (r matches Ok(v) && v.deep_view() == self@),
    {
        if self.applications.len() == 0 {
            Err(VaultError::EmptyVault)
        } else {
            Ok(&self.applications)
        }
    }

    /// The entry named `name`; fails with `NotFound` when no entry carries
    /// that name.
    pub fn get_application(&self, name: &str) -> (r: Result<&GenApp, VaultError>)
        ensures
            !contains_name(self@, name@) ==> r == Err::<&GenApp, VaultError>(VaultError::NotFound),
            contains_name(self@, name@) ==> (r matches Ok(g) && g@ == self@[index_of_name(
                self@,
                name@,
            )]),
    {
        proof {
            use_type_invariant(&*self);
        }
        match self.find_index(name) {
            Some(i) => {
                proof {
                    assert(index_of_name(self@, name@) == i) by {
                        let j = index_of_name(self@, name@);
                        assert(0 <= j < self@.len() && self@[j].name == name@);
                    }
                }
                Ok(&self.applications[i])
            },
            None => Err(VaultError::NotFound),
        }
    }

    /// Empty the registry unconditionally.
    pub fn delete_all_applications(&mut self)
        ensures
            final(self).passphrase() == old(self).passphrase(),
            final(self)@ == Seq::<AppView>::empty(),
    {
        let apps: Vec<GenApp> = Vec::new();
        proof {
            assert(apps.deep_view() =~= Seq::<AppView>::empty());
        }
        self.applications = apps;
    }

    /// Seal the registry's current entries under its passphrase: the blob
    /// for the caller to write to the vault file. Together with
    /// [`RusTOTPony::new`], the round trip: opening this blob with the same
    /// passphrase yields exactly these entries.
    pub fn flush(&self) -> (r: Vec<u8>)
        ensures
            seals(r@, DATABASE_VERSION, self@, self.passphrase()),
    {
        self.database.save_applications(&self.applications)
    }

    /// The canonical JSON text of the entries, for export and inspection;
    /// no decryption is involved, it reads the already-open registry.
    pub fn export_json(&self) -> (r: String)
        ensures
            r@ == seq!['{'] + schema::ser_entries(self@),
    {
        schema::applications_json(&self.applications)
    }
}

/// Character-wise string equality.
fn string_eq(a: &str, b: &str) -> (r: bool)
    ensures
        r == (a@ == b@),
{
    let n = a.unicode_len();
    if n != b.unicode_len() {
        return false;
    }
    let mut i: usize = 0;
    while i < n
        invariant
            n == a@.len(),
            n == b@.len(),
            i <= n,
            forall|k: int| 0 <= k < i ==> a@[k] == b@[k],
        decreases n - i,
    {
        if a.get_char(i) != b.get_char(i) {
            return false;
        }
        i = i + 1;
    }
    proof {
        assert(a@ =~= b@);
    }
    true
}

} // verus!
