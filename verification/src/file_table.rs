//! The file-backed storage table.
//!
//! A table lives under one root directory with one sub-directory per logical
//! table ("entries", "metas"), created lazily, and one file per stored item,
//! named by the item's address with a `.json` suffix and holding the item's
//! canonical content. Path derivation, decoding, filtering and ordering are
//! verified; the filesystem itself is reached through thin trusted wrappers,
//! so what a read returns depends on the disk and is stated as such.

use crate::content::{digest58, Address, AddressableContent};
use crate::entry::Entry;
use crate::entry_meta::EntryMeta;
use crate::sort::{lemma_matching_metas_match, matching_metas, meta_le_f, select_metas, views_of};
use crate::strorder::push_char;
use crate::StoreError;
use vstd::prelude::*;
use vstd::relations::sorted_by;
use vstd::string::StringExecFns;

verus! {

/// A logical partition of storage: records or metadata assertions.
#[derive(Debug, Clone, Copy)]
pub enum Table {
    Entries,
    Metas,
}

impl Table {
    /// The name of the sub-directory that holds this table.
    pub open spec fn spec_name(self) -> Seq<char> {
        match self {
            Table::Entries => "entries"@,
            Table::Metas => "metas"@,
        }
    }

    /// The name of the sub-directory that holds this table.
    pub fn name(&self) -> (s: String)
        ensures
            s@ == self.spec_name(),
    {
        match self {
            Table::Entries => "entries".to_owned(),
            Table::Metas => "metas".to_owned(),
        }
    }
}

/// Relies on `fs_err::canonicalize`: resolves a path to canonical absolute
/// form when it names an existing filesystem object; what comes back depends
/// on the disk. `Ok(None)` stands for a canonical path that is not valid
/// UTF-8.
#[verifier::external_body]
fn fs_canonicalize(path: &str) -> (r: Result<Option<String>, String>) {
    match fs_err::canonicalize(path) {
        Ok(p) => Ok(p.to_str().map(|s| s.to_string())),
        Err(e) => Err(e.to_string()),
    }
}

/// Relies on `fs_err::metadata` and std's `Metadata::is_dir`: whether the
/// path names an existing, accessible directory; depends on the disk.
#[verifier::external_body]
fn fs_is_dir(path: &str) -> (r: bool) {
    match fs_err::metadata(path) {
        Ok(m) => m.is_dir(),
        Err(_) => false,
    }
}

/// Relies on `fs_err::metadata` and std's `Metadata::is_file`: whether the
/// path names an existing regular file; depends on the disk.
#[verifier::external_body]
fn fs_is_file(path: &str) -> (r: bool) {
    match fs_err::metadata(path) {
        Ok(m) => m.is_file(),
        Err(_) => false,
    }
}

/// Relies on `fs_err::create_dir_all`: creates the directory and any missing
/// parent; succeeding when it already exists.
#[verifier::external_body]
fn fs_create_dir_all(path: &str) -> (r: Result<(), String>) {
    fs_err::create_dir_all(path).map_err(|e| e.to_string())
}

/// Relies on `fs_err::write`: replaces the whole file at the path with the
/// given bytes.
#[verifier::external_body]
fn fs_write(path: &str, content: &str) -> (r: Result<(), String>) {
    fs_err::write(path, content).map_err(|e| e.to_string())
}

/// Relies on `fs_err::read_to_string`: the full contents of the file at the
/// path; what comes back depends on the disk.
#[verifier::external_body]
fn fs_read_to_string(path: &str) -> (r: Result<String, String>) {
    fs_err::read_to_string(path).map_err(|e| e.to_string())
}

/// Relies on `walkdir::WalkDir`: walks everything under the directory; the
/// wrapper keeps the file stem of each regular file whose name is valid
/// UTF-8. What comes back depends on the disk.
#[verifier::external_body]
fn fs_file_stems(dir: &str) -> (r: Result<Vec<String>, String>) {
    let mut stems = Vec::new();
    for entry in walkdir::WalkDir::new(dir) {
        let entry = entry.map_err(|e| e.to_string())?;
        if entry.file_type().is_file() {
            if let Some(stem) = entry.path().file_stem().and_then(|s| s.to_str()) {
                stems.push(stem.to_string());
            }
        }
    }
    Ok(stems)
}

/// The path of a table's sub-directory under the given root.
pub open spec fn spec_dir_path(root: Seq<char>, table: Table) -> Seq<char> {
    root + seq!['/'] + table.spec_name()
}

/// The path of the file that holds the item at `address` in `table`.
pub open spec fn spec_row_path(root: Seq<char>, table: Table, address: Seq<char>) -> Seq<char> {
    spec_dir_path(root, table) + seq!['/'] + address + ".json"@
}

/// A hash table backed by one directory per logical table and one file per
/// address. Its view is the canonical root path it was constructed with.
#[derive(Debug)]
pub struct FileTable {
    path: String,
}

impl View for FileTable {
    type V = Seq<char>;

    closed spec fn view(&self) -> Seq<char> {
        self.path@
    }
}

impl Clone for FileTable {
    /// A clone is rooted at the same canonical path.
    fn clone(&self) -> (r: FileTable)
        ensures
            r@ == self@,
    {
        FileTable { path: self.path.clone() }
    }
}

impl PartialEq for FileTable {
    fn eq(&self, other: &FileTable) -> (r: bool) {
        self.path.eq(&other.path)
    }
}

impl vstd::std_specs::cmp::PartialEqSpecImpl for FileTable {
    open spec fn obeys_eq_spec() -> bool {
        true
    }

    open spec fn eq_spec(&self, other: &FileTable) -> bool {
        self@ == other@
    }
}

impl FileTable {
    /// Builds a table rooted at the given path: the path must resolve to an
    /// existing, accessible directory, whose canonical form then names the
    /// table for its whole lifetime. Anything else is a construction error.
    pub fn new(path: &str) -> (r: Result<FileTable, StoreError>)
        ensures
            r matches Err(e) ==> e is Io,
    {
        match fs_canonicalize(path) {
            Err(e) => Err(StoreError::Io(e)),
            Ok(None) => Err(StoreError::Io("could not convert path to string".to_owned())),
            Ok(Some(canonical)) => {
                if fs_is_dir(canonical.as_str()) {
                    Ok(FileTable { path: canonical })
                } else {
                    Err(
                        StoreError::Io(
                            "path is not a directory or permissions don't allow access".to_owned(),
                        ),
                    )
                }
            },
        }
    }

    /// Makes sure the sub-directory for `table` exists and returns its path,
    /// which on success is exactly the root, a separator and the table name.
    pub fn dir(&self, table: Table) -> (r: Result<String, StoreError>)
        ensures
            r matches Ok(d) ==> d@ == spec_dir_path(self@, table),
            r matches Err(e) ==> e is Io,
    {
        let mut d = self.path.clone();
        push_char(&mut d, '/');
        let d = d.concat(table.name().as_str());
        proof {
            assert(d@ =~= spec_dir_path(self@, table));
        }
        match fs_create_dir_all(d.as_str()) {
            Ok(()) => Ok(d),
            Err(e) => Err(StoreError::Io(e)),
        }
    }

    /// The path of the file that holds the item at `address` in `table`:
    /// the table directory, a separator, the address and a `.json` suffix.
    pub fn addressable_content_path(&self, table: Table, address: &Address) -> (r: Result<
        String,
        StoreError,
    >)
        ensures
            r matches Ok(p) ==> p@ == spec_row_path(self@, table, address@),
            r matches Err(e) ==> e is Io,
    {
        let mut p = match self.dir(table) {
            Ok(d) => d,
            Err(e) => {
                return Err(e);
            },
        };
        push_char(&mut p, '/');
        let p = p.concat(address.as_str()).concat(".json");
        proof {
            assert(p@ =~= spec_row_path(self@, table, address@));
        }
        Ok(p)
    }

    /// Writes an item's canonical content whole to the item's slot,
    /// replacing any earlier content stored at the same address.
    pub fn upsert<AC: AddressableContent>(&self, table: Table, content: &AC) -> (r: Result<
        (),
        StoreError,
    >)
        ensures
            r matches Err(e) ==> e is Io,
    {
        let address = content.address();
        let path = match self.addressable_content_path(table, &address) {
            Ok(p) => p,
            Err(e) => {
                return Err(e);
            },
        };
        match fs_write(path.as_str(), content.content().as_str()) {
            Ok(()) => Ok(()),
            Err(e) => Err(StoreError::Io(e)),
        }
    }

    /// The raw content stored at `address` in `table`; an absent file is the
    /// defined non-error "absent" outcome, never an error.
    pub fn lookup(&self, table: Table, address: &Address) -> (r: Result<Option<String>, StoreError>)
        ensures
            r matches Err(e) ==> e is Io,
    {
        let path = match self.addressable_content_path(table, address) {
            Ok(p) => p,
            Err(e) => {
                return Err(e);
            },
        };
        if fs_is_file(path.as_str()) {
            match fs_read_to_string(path.as_str()) {
                Ok(content) => Ok(Some(content)),
                Err(e) => Err(StoreError::Io(e)),
            }
        } else {
            Ok(None)
        }
    }

    /// Stores a record under its own content-derived address.
    pub fn put_entry(&mut self, entry: &Entry) -> (r: Result<(), StoreError>)
        ensures
            final(self)@ == old(self)@,
            r matches Err(e) ==> e is Io,
    {
        self.upsert(Table::Entries, entry)
    }

    /// The record stored at `address`, if any: the decode of exactly the
    /// bytes the record's file holds.
    pub fn entry(&self, address: &Address) -> (r: Result<Option<Entry>, StoreError>)
        ensures
            r matches Err(e) ==> e is Io,
    {
        match self.lookup(Table::Entries, address) {
            Ok(Some(content)) => match Entry::from_content(content.as_str()) {
                Ok(e) => Ok(Some(e)),
                Err(e) => Err(e),
            },
            Ok(None) => Ok(None),
            Err(e) => Err(e),
        }
    }

    /// Stores a metadata assertion at its entity+attribute address,
    /// overwriting any earlier assertion with the same entity and attribute.
    pub fn assert_meta(&mut self, meta: &EntryMeta) -> (r: Result<(), StoreError>)
        ensures
            final(self)@ == old(self)@,
            r matches Err(e) ==> e is Io,
    {
        self.upsert(Table::Metas, meta)
    }

    /// The metadata assertion stored at `address`, if any: the decode of
    /// exactly the bytes the assertion's file holds. Stored bytes that do
    /// not parse are a decode error, never a silently built assertion.
    pub fn get_meta(&mut self, address: &Address) -> (r: Result<Option<EntryMeta>, StoreError>)
        ensures
            final(self)@ == old(self)@,
    {
        match self.lookup(Table::Metas, address) {
            Ok(Some(content)) => match EntryMeta::from_json(content.as_str()) {
                Ok(m) => Ok(Some(m)),
                Err(e) => Err(e),
            },
            Ok(None) => Ok(None),
            Err(e) => Err(e),
        }
    }

    /// Every stored assertion whose entity is the given record's address,
    /// sorted in the canonical metadata order. The whole metadata table is
    /// scanned; a stored file that does not decode fails the whole query
    /// with its error, so corruption is never silently dropped. The
    /// selection and ordering of the scanned assertions is exactly
    /// [`select_metas`]; what the scan itself yields depends on the disk.
    pub fn metas_from_entry(&mut self, entry: &Entry) -> (r: Result<Vec<EntryMeta>, StoreError>)
        ensures
            final(self)@ == old(self)@,
            r matches Ok(v) ==> sorted_by(views_of(v@), meta_le_f()),
            r matches Ok(v) ==> forall|i: int|
                0 <= i < v@.len() ==> (#[trigger] views_of(v@)[i]).entry_address == digest58(
                    entry@,
                ),
    {
        let dir = match self.dir(Table::Metas) {
            Ok(d) => d,
            Err(e) => {
                return Err(e);
            },
        };
        let stems = match fs_file_stems(dir.as_str()) {
            Ok(s) => s,
            Err(e) => {
                return Err(StoreError::Io(e));
            },
        };
        let target = entry.address();
        let mut scanned: Vec<EntryMeta> = Vec::new();
        let mut i: usize = 0;
        while i < stems.len()
            invariant
                self@ == old(self)@,
            decreases stems@.len() - i,
        {
            let stem_address = Address::from_string(stems[i].clone());
            match self.get_meta(&stem_address) {
                Ok(Some(meta)) => {
                    scanned.push(meta);
                },
                Ok(None) => {},
                Err(e) => {
                    return Err(e);
                },
            }
            i = i + 1;
        }
        let selected = select_metas(&scanned, &target);
        proof {
            let sv = views_of(selected@);
            let mv = matching_metas(views_of(scanned@), target@);
            lemma_matching_metas_match(views_of(scanned@), target@);
            assert forall|k: int| 0 <= k < sv.len() implies (#[trigger] sv[k]).entry_address
                == digest58(entry@) by {
                assert(sv.contains(sv[k]));
                vstd::seq_lib::to_multiset_contains(sv, sv[k]);
                vstd::seq_lib::to_multiset_contains(mv, sv[k]);
                let j = choose|j: int| 0 <= j < mv.len() && mv[j] == sv[k];
                assert(mv[j].entry_address == target@);
            }
        }
        Ok(selected)
    }
}

} // verus!
