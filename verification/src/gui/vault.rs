//! The vault open in the window: its entries, where it is saved, the name
//! shown for it, and whether it has changed since it was last saved.

use vstd::prelude::*;

use crate::db_base::error::DatabaseError;
use crate::db_base::views;
use crate::db_encrypted::{
    csv_import_done, export_done, get_done, insert_done, load_outcome, names_matching, remove_done,
    rename_done, replace_done, serialize_done, DatabaseEncrypted, DatabaseInterface, LoadOutcome,
    MIN_SEALED_LEN,
};
use crate::encryption::EncryptionResult;
use crate::gui::{file_name_of, get_file_name};
use crate::csv_format::spec_csv_records;
use crate::order::{compare_bytes, Order};

verus! {

/// An open vault.
pub struct Vault {
    db: DatabaseEncrypted,
    pub changed: bool,
    pub path: String,
    pub name_buffer: String,
}

impl Vault {
    /// The entries and master password hash.
    pub closed spec fn db(&self) -> DatabaseEncrypted {
        self.db
    }

    /// Whether the vault has changed since it was last saved.
    pub closed spec fn is_changed(&self) -> bool {
        self.changed
    }

    /// Where the vault is saved.
    pub closed spec fn saved_path(&self) -> Seq<char> {
        self.path@
    }

    /// The name shown for the vault.
    pub closed spec fn shown_name(&self) -> Seq<char> {
        self.name_buffer@
    }

    /// The vault's own consistency.
    pub open spec fn wf(&self) -> bool {
        self.db().wf()
    }

    /// A new, empty vault named `name` and guarded by `password`, placed
    /// beside the program whose path is `exe_path`. It counts as changed.
    pub fn new(name: &str, password: &[u8], exe_path: &str) -> (r: Result<Self, DatabaseError>)
        ensures
            r matches Ok(v) && {
                &&& v.wf()
                &&& v.db()@ == Map::<Seq<char>, Seq<u8>>::empty()
                &&& v.db().accepts(password@)
                &&& v.is_changed()
                &&& v.saved_path() == exe_path@ + "/"@ + name@
                &&& v.shown_name() == name@
            },
    {
        let db = DatabaseEncrypted::new(password)?;
        let path = exe_path.to_owned().concat("/").concat(name);
        Ok(Self { db, changed: true, path, name_buffer: name.to_owned() })
    }

    /// Loads the sealed vault `contents`, read from the file `file`, with
    /// `password`. It counts as unchanged, and is shown by its file name.
    pub fn new_from_file(file: &str, contents: Vec<u8>, password: &[u8]) -> (r: Result<Self, DatabaseError>)
        requires
            contents@.len() >= MIN_SEALED_LEN,
        ensures
            match load_outcome(contents@, password@) {
                LoadOutcome::Loaded(m, salt, hash) => r matches Ok(v) && {
                    &&& v.wf()
                    &&& v.db()@ == m
                    &&& v.db().check_salt() == salt
                    &&& v.db().check_hash() == hash
                    &&& !v.is_changed()
                    &&& v.saved_path() == file@
                    &&& v.shown_name() == file_name_of(file@)
                },
                LoadOutcome::InvalidPassword => r == Err::<Self, DatabaseError>(DatabaseError::InvalidPassword),
                LoadOutcome::FailedDeserialize => r == Err::<Self, DatabaseError>(DatabaseError::FailedDeserialize),
                LoadOutcome::FailedHash => r matches Err(DatabaseError::FailedHash(_)),
                LoadOutcome::FailedAes => r matches Err(DatabaseError::FailedAes(msg)) && msg@ == "Failed AES, invalid key"@,
            },
    {
        let contents = match EncryptionResult::new(contents) {
            Ok(contents) => contents,
            Err(error) => return Err(DatabaseError::InputError(error.to_string())),
        };
        let db = DatabaseEncrypted::new_deserialize_encrypted(&contents, password)?;
        let name = get_file_name(file);
        Ok(Self { db, changed: false, path: file.to_owned(), name_buffer: name })
    }

    /// Seals `data` under `name`; the vault counts as changed whatever the
    /// outcome.
    pub fn insert(&mut self, name: &str, data: &[u8], password: &[u8]) -> (r: Result<(), DatabaseError>)
        requires
            old(self).wf(),
        ensures
            final(self).is_changed(),
            final(self).saved_path() == old(self).saved_path(),
            final(self).shown_name() == old(self).shown_name(),
            insert_done(old(self).db(), final(self).db(), name@, data@, password@, r),
    {
        self.changed = true;
        self.db.insert(name, data, password)
    }

    /// Imports the key–value pairs of the CSV text `csv`; the vault counts as
    /// changed whatever the outcome.
    pub fn insert_from_csv(&mut self, csv: &[u8], password: &[u8]) -> (r: Result<(), DatabaseError>)
        requires
            old(self).wf(),
        ensures
            final(self).is_changed(),
            final(self).saved_path() == old(self).saved_path(),
            final(self).shown_name() == old(self).shown_name(),
            csv_import_done(old(self).db(), final(self).db(), spec_csv_records(csv@), password@, r),
    {
        self.changed = true;
        self.db.insert_from_csv(csv, password)
    }

    /// The CSV text of the whole vault.
    pub fn export_to_csv(&mut self, password: &[u8]) -> (r: Result<Vec<u8>, DatabaseError>)
        requires
            old(self).wf(),
        ensures
            *final(self) == *old(self),
            export_done(old(self).db(), final(self).db(), password@, r),
    {
        self.db.export_to_csv(password)
    }

    /// Removes the entry `name`; the vault counts as changed whatever the
    /// outcome.
    pub fn remove(&mut self, name: &str, password: &[u8]) -> (r: Result<(), DatabaseError>)
        requires
            old(self).wf(),
        ensures
            final(self).is_changed(),
            final(self).saved_path() == old(self).saved_path(),
            final(self).shown_name() == old(self).shown_name(),
            remove_done(old(self).db(), final(self).db(), name@, password@, r),
    {
        self.changed = true;
        self.db.remove(name, password)
    }

    /// Seals `new_data` in place of the entry `name`'s value; the vault counts
    /// as changed whatever the outcome.
    pub fn replace(&mut self, name: &str, new_data: &[u8], password: &[u8]) -> (r: Result<(), DatabaseError>)
        requires
            old(self).wf(),
        ensures
            final(self).is_changed(),
            final(self).saved_path() == old(self).saved_path(),
            final(self).shown_name() == old(self).shown_name(),
            replace_done(old(self).db(), final(self).db(), name@, new_data@, password@, r),
    {
        self.changed = true;
        self.db.replace(name, new_data, password)
    }

    /// Renames the entry `name` to `new_name`. Renaming an entry to its own
    /// name does nothing and succeeds, without checking the password;
    /// otherwise the vault counts as changed whatever the outcome.
    pub fn rename(&mut self, name: &str, new_name: &str, password: &[u8]) -> (r: Result<(), DatabaseError>)
        requires
            old(self).wf(),
        ensures
            final(self).wf(),
            name@ == new_name@ ==> r is Ok && *final(self) == *old(self),
            name@ != new_name@ ==> {
                &&& final(self).is_changed()
                &&& final(self).saved_path() == old(self).saved_path()
                &&& final(self).shown_name() == old(self).shown_name()
                &&& rename_done(old(self).db(), final(self).db(), name@, new_name@, password@, r)
            },
    {
        let same = match compare_bytes(name.as_bytes(), new_name.as_bytes()) {
            Order::Equal => true,
            _ => false,
        };
        proof {
            crate::db_base::lemma_name_key_injective(name@, new_name@);
        }
        if same {
            return Ok(());
        }
        self.changed = true;
        self.db.rename(name, new_name, password)
    }

    /// Opens the entry `name` with `password`.
    pub fn get(&self, name: &str, password: &[u8]) -> (r: Result<EncryptionResult, DatabaseError>)
        requires
            self.wf(),
        ensures
            get_done(self.db(), name@, password@, r),
    {
        self.db.get(name, password)
    }

    /// The entry names, in order.
    pub fn list(&self) -> (r: Result<Vec<String>, DatabaseError>)
        requires
            self.wf(),
        ensures
            r matches Ok(l) && views(l@) == self.db().keys(),
    {
        self.db.list()
    }

    /// The entry names, in order, that hold `pattern`.
    pub fn list_fuzzy_match(&mut self, pattern: &str) -> (r: Result<Vec<String>, DatabaseError>)
        requires
            old(self).wf(),
        ensures
            *final(self) == *old(self),
            r matches Ok(l) && views(l@) == names_matching(old(self).db().keys(), pattern@),
    {
        self.db.list_fuzzy_match(pattern)
    }

    /// Seals the whole vault with `password`, ready to be written to a file.
    pub fn serialize_encrypted(&self, password: &[u8]) -> (r: Result<EncryptionResult, DatabaseError>)
        requires
            self.wf(),
        ensures
            serialize_done(self.db(), password@, r),
    {
        self.db.serialize_encrypted(password)
    }

    /// Records that the vault was written to `file`: it no longer counts as
    /// changed, is saved at `file`, and is shown by its file name.
    pub fn mark_saved(&mut self, file: &str)
        ensures
            final(self).db() == old(self).db(),
            !final(self).is_changed(),
            final(self).saved_path() == file@,
            final(self).shown_name() == file_name_of(file@),
    {
        self.changed = false;
        self.path = file.to_owned();
        self.name_buffer = get_file_name(file);
    }
}

} // verus!
