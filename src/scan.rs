//! The indexing walker: decides, entry by entry, which directory and asset
//! rows a traversal of an asset tree produces.
use vstd::prelude::*;
use crate::asset::{AssetType, DbAsset, DbDirectory, classify};
use crate::path::{file_name, parent_name, extension, file_name_of, extension_of, parent_name_of};

verus! {

/// What to do with an entry that cannot be indexed.
#[derive(Clone, Copy, Debug, PartialEq, Eq, Structural)]
pub enum ScanPolicy {
    /// The first such entry ends the scan with its error.
    Strict,
    /// Such entries are skipped, and reported.
    Lenient,
}

/// One entry of a traversal: its full path and whether it is a directory.
#[derive(Clone, Debug)]
pub struct ScanEntry {
    pub path: String,
    pub is_dir: bool,
}

/// Why an entry could not be indexed.
#[derive(Clone, Debug)]
pub enum ScanError {
    /// The path has no final component.
    FilenameMissing(String),
    /// A file has no extension; such assets are not supported.
    AssetWithoutExtension(String),
    /// A file's directory has not been indexed.
    AssetWithoutParentDirectory(String),
    /// No identifier of 32 bits is left to give.
    IdSpaceExhausted,
}

/// The next thing a scan asks of the store.
#[derive(Clone, Debug)]
pub enum Action {
    /// Insert this directory row.
    InsertDirectory(DbDirectory),
    /// Insert this asset row.
    InsertAsset(DbAsset),
    /// Nothing is stored for the entry, for this reason.
    Skip(ScanError),
}

/// The identifier given to the last directory indexed under base name `k`.
pub open spec fn lookup(m: Seq<(Seq<char>, u32)>, k: Seq<char>) -> Option<u32>
    decreases m.len(),
{
    if m.len() == 0 {
        None
    } else if m.last().0 == k {
        Some(m.last().1)
    } else {
        lookup(m.drop_last(), k)
    }
}

/// The identifier of the directory that holds path `p`, looked up by its base name.
pub open spec fn parent_id_of(p: Seq<char>, m: Seq<(Seq<char>, u32)>) -> Option<u32> {
    match parent_name_of(p) {
        Some(n) => lookup(m, n),
        None => None,
    }
}

/// A regular file that has a name but no extension.
pub open spec fn missing_extension(e: ScanEntry) -> bool {
    !e.is_dir && file_name_of(e.path@) is Some && extension_of(e.path@) is None
}

/// Why entry `e` cannot be indexed, given the directories indexed so far.
/// A directory whose parent is unknown is indexed with no parent; a file needs one.
pub open spec fn entry_fault(e: ScanEntry, m: Seq<(Seq<char>, u32)>) -> Option<ScanError> {
    if file_name_of(e.path@) is None {
        Some(ScanError::FilenameMissing(e.path))
    } else if e.is_dir {
        None
    } else if extension_of(e.path@) is None {
        Some(ScanError::AssetWithoutExtension(e.path))
    } else if parent_id_of(e.path@, m) is None {
        Some(ScanError::AssetWithoutParentDirectory(e.path))
    } else {
        None
    }
}

/// A known directory: base name and identifier.
#[derive(Clone, Debug)]
struct KnownDirectory {
    name: String,
    id: u32,
}

/// The state of a scan in progress.
#[derive(Clone, Debug)]
pub struct Indexer {
    policy: ScanPolicy,
    known: Vec<KnownDirectory>,
    next_dir_id: u32,
    next_asset_id: u32,
}

/// A name that `lookup` finds was recorded with the identifier it returns.
proof fn lemma_lookup_found(m: Seq<(Seq<char>, u32)>, k: Seq<char>)
    requires
        lookup(m, k) is Some,
    ensures
        exists|j: int| 0 <= j < m.len() && #[trigger] m[j] == (k, lookup(m, k)->0),
    decreases m.len(),
{
    if m.last().0 == k {
        assert(m[m.len() - 1] == (k, lookup(m, k)->0));
    } else {
        lemma_lookup_found(m.drop_last(), k);
        let j = choose|j: int| 0 <= j < m.drop_last().len() && #[trigger] m.drop_last()[j] == (
        k, lookup(m.drop_last(), k)->0);
        assert(m[j] == m.drop_last()[j]);
    }
}

impl Indexer {
    /// The directories indexed so far, in order: base name and identifier.
    pub closed spec fn known_map(&self) -> Seq<(Seq<char>, u32)> {
        self.known@.map_values(|d: KnownDirectory| (d.name@, d.id))
    }

    /// The policy the scan was started with.
    pub closed spec fn spec_policy(&self) -> ScanPolicy {
        self.policy
    }

    /// The identifier the next directory row will take.
    pub closed spec fn spec_next_directory_id(&self) -> u32 {
        self.next_dir_id
    }

    /// The identifier the next asset row will take.
    pub closed spec fn spec_next_asset_id(&self) -> u32 {
        self.next_asset_id
    }

    /// A scan that has indexed nothing; identifiers start at 1.
    pub fn new(policy: ScanPolicy) -> (r: Self)
        ensures
            r.known_map() == Seq::<(Seq<char>, u32)>::empty(),
            r.spec_policy() == policy,
            r.spec_next_directory_id() == 1,
            r.spec_next_asset_id() == 1,
    {
        let r = Indexer { policy, known: Vec::new(), next_dir_id: 1, next_asset_id: 1 };
        assert(r.known_map() =~= Seq::<(Seq<char>, u32)>::empty());
        r
    }

    /// The policy of this scan.
    pub fn policy(&self) -> (r: ScanPolicy)
        ensures
            r == self.spec_policy(),
    {
        self.policy
    }

    /// The identifier the next directory will get.
    pub fn next_directory_id(&self) -> (r: u32)
        ensures
            r == self.spec_next_directory_id(),
    {
        self.next_dir_id
    }

    /// The identifier the next asset will get.
    pub fn next_asset_id(&self) -> (r: u32)
        ensures
            r == self.spec_next_asset_id(),
    {
        self.next_asset_id
    }

    /// The identifier of the last directory indexed under base name `name`.
    pub fn directory_id(&self, name: &String) -> (r: Option<u32>)
        ensures
            r == lookup(self.known_map(), name@),
    {
        let mut i = self.known.len();
        assert(self.known_map().subrange(0, i as int) =~= self.known_map());
        while i > 0
            invariant
                i <= self.known@.len(),
                lookup(self.known_map(), name@) == lookup(
                    self.known_map().subrange(0, i as int),
                    name@,
                ),
            decreases i,
        {
            i -= 1;
            let ghost s = self.known_map().subrange(0, i + 1);
            assert(s.drop_last() =~= self.known_map().subrange(0, i as int));
            if self.known[i].name == *name {
                return Some(self.known[i].id);
            }
        }
        None
    }

    fn fault(&self, e: ScanError) -> (r: Result<Action, ScanError>)
        ensures
            self.policy == ScanPolicy::Strict ==> r == Err::<Action, ScanError>(e),
            self.policy == ScanPolicy::Lenient ==> r == Ok::<Action, ScanError>(Action::Skip(e)),
    {
        match self.policy {
            ScanPolicy::Strict => Err(e),
            ScanPolicy::Lenient => Ok(Action::Skip(e)),
        }
    }

    fn parent_id(&self, path: &String) -> (r: Option<u32>)
        ensures
            r == parent_id_of(path@, self.known_map()),
    {
        match parent_name(path.as_str()) {
            Some(n) => self.directory_id(&n),
            None => None,
        }
    }

    /// Decides what to store for `entry`. A directory row takes the next
    /// directory identifier, which is only used up by `directory_inserted`;
    /// an asset row takes the next asset identifier at once.
    pub fn next_action(&mut self, entry: &ScanEntry) -> (r: Result<Action, ScanError>)
        ensures
            final(self).known_map() == old(self).known_map(),
            final(self).spec_policy() == old(self).spec_policy(),
            final(self).spec_next_directory_id() == old(self).spec_next_directory_id(),
            match entry_fault(*entry, old(self).known_map()) {
                Some(e) => {
                    &&& final(self).spec_next_asset_id() == old(self).spec_next_asset_id()
                    &&& old(self).spec_policy() == ScanPolicy::Strict ==> r == Err::<
                        Action,
                        ScanError,
                    >(e)
                    &&& old(self).spec_policy() == ScanPolicy::Lenient ==> r == Ok::<
                        Action,
                        ScanError,
                    >(Action::Skip(e))
                },
                None => if entry.is_dir {
                    &&& final(self).spec_next_asset_id() == old(self).spec_next_asset_id()
                    &&& r matches Ok(Action::InsertDirectory(d))
                    &&& d.id == old(self).spec_next_directory_id()
                    &&& file_name_of(entry.path@) == Some(d.name@)
                    &&& d.parent == parent_id_of(entry.path@, old(self).known_map())
                } else if old(self).spec_next_asset_id() == u32::MAX {
                    &&& final(self).spec_next_asset_id() == old(self).spec_next_asset_id()
                    &&& r matches Err(ScanError::IdSpaceExhausted)
                } else {
                    &&& final(self).spec_next_asset_id() == old(self).spec_next_asset_id() + 1
                    &&& r matches Ok(Action::InsertAsset(a))
                    &&& a.id == old(self).spec_next_asset_id()
                    &&& file_name_of(entry.path@) == Some(a.name@)
                    &&& a.path == Some(entry.path)
                    &&& a.asset_type == classify(extension_of(entry.path@)->0)
                    &&& parent_id_of(entry.path@, old(self).known_map()) == Some(
                        a.parent_directory,
                    )
                },
            },
    {
        let name = match file_name(entry.path.as_str()) {
            Some(n) => n,
            None => return self.fault(ScanError::FilenameMissing(entry.path.clone())),
        };
        if entry.is_dir {
            let parent = self.parent_id(&entry.path);
            return Ok(Action::InsertDirectory(DbDirectory { id: self.next_dir_id, name, parent }));
        }
        let ext = match extension(entry.path.as_str()) {
            Some(x) => x,
            None => return self.fault(ScanError::AssetWithoutExtension(entry.path.clone())),
        };
        let parent_directory = match self.parent_id(&entry.path) {
            Some(id) => id,
            None => return self.fault(ScanError::AssetWithoutParentDirectory(entry.path.clone())),
        };
        if self.next_asset_id == u32::MAX {
            return Err(ScanError::IdSpaceExhausted);
        }
        let id = self.next_asset_id;
        self.next_asset_id = id + 1;
        Ok(
            Action::InsertAsset(
                DbAsset {
                    id,
                    name,
                    path: Some(entry.path.clone()),
                    asset_type: AssetType::from_extension(ext),
                    parent_directory,
                },
            ),
        )
    }

    /// Records that the directory row planned under base name `name` was
    /// written, `inserted_rows` rows in all: the name now stands for the
    /// identifier that row took, and the next directory identifier moves on
    /// by the number of rows.
    pub fn directory_inserted(&mut self, name: String, inserted_rows: usize) -> (r: Result<
        (),
        ScanError,
    >)
        ensures
            final(self).spec_policy() == old(self).spec_policy(),
            final(self).spec_next_asset_id() == old(self).spec_next_asset_id(),
            old(self).spec_next_directory_id() + inserted_rows > u32::MAX ==> {
                &&& r matches Err(ScanError::IdSpaceExhausted)
                &&& final(self).known_map() == old(self).known_map()
                &&& final(self).spec_next_directory_id() == old(self).spec_next_directory_id()
            },
            old(self).spec_next_directory_id() + inserted_rows <= u32::MAX ==> {
                &&& r is Ok
                &&& final(self).known_map() == old(self).known_map().push(
                    (name@, old(self).spec_next_directory_id()),
                )
                &&& final(self).spec_next_directory_id() == old(self).spec_next_directory_id()
                    + inserted_rows
            },
    {
        if inserted_rows > (u32::MAX - self.next_dir_id) as usize {
            return Err(ScanError::IdSpaceExhausted);
        }
        let id = self.next_dir_id;
        self.known.push(KnownDirectory { name, id });
        self.next_dir_id = id + inserted_rows as u32;
        assert(self.known_map() =~= old(self).known_map().push((self.known@.last().name@, id)));
        Ok(())
    }
}

/// What a scan stored: its rows, and the entries it skipped with the reason.
#[derive(Clone, Debug)]
pub struct ScanReport {
    pub directories: Vec<DbDirectory>,
    pub assets: Vec<DbAsset>,
    pub skipped: Vec<ScanError>,
}

/// A scan that stopped: the error, the index of the entry that raised it,
/// and the rows stored before it.
#[derive(Clone, Debug)]
pub struct ScanFailure {
    pub error: ScanError,
    pub at: usize,
    pub partial: ScanReport,
}

/// A directory row as a value: identifier, base name, parent.
pub type DirectoryValue = (u32, Seq<char>, Option<u32>);

/// An asset row as a value: identifier, base name, path, type, parent directory.
pub type AssetValue = (u32, Seq<char>, Option<Seq<char>>, AssetType, u32);

/// A directory row as a value.
pub open spec fn directory_value(d: DbDirectory) -> DirectoryValue {
    (d.id, d.name@, d.parent)
}

/// An asset row as a value.
pub open spec fn asset_value(a: DbAsset) -> AssetValue {
    (
        a.id,
        a.name@,
        match a.path {
            Some(p) => Some(p@),
            None => None,
        },
        a.asset_type,
        a.parent_directory,
    )
}

/// The outcome of indexing a sequence of entries, as values: the rows, the
/// skipped entries, and the error and entry index that ended the scan, if any.
pub ghost struct ScanModel {
    pub directories: Seq<DirectoryValue>,
    pub assets: Seq<AssetValue>,
    pub skipped: Seq<ScanError>,
    pub failure: Option<(ScanError, int)>,
}

/// The name-to-identifier map that a list of directory rows builds.
pub open spec fn known_of(ds: Seq<DirectoryValue>) -> Seq<(Seq<char>, u32)> {
    ds.map_values(|d: DirectoryValue| (d.1, d.0))
}

/// Indexing entry `e`, number `at` of the traversal, when every insert
/// writes one row.
pub open spec fn scan_step(s: ScanModel, e: ScanEntry, policy: ScanPolicy, at: int) -> ScanModel {
    let m = known_of(s.directories);
    match entry_fault(e, m) {
        Some(err) => if policy == ScanPolicy::Strict {
            ScanModel { failure: Some((err, at)), ..s }
        } else {
            ScanModel { skipped: s.skipped.push(err), ..s }
        },
        None => if e.is_dir {
            if s.directories.len() + 2 > u32::MAX {
                ScanModel { failure: Some((ScanError::IdSpaceExhausted, at)), ..s }
            } else {
                ScanModel {
                    directories: s.directories.push(
                        (
                            (s.directories.len() + 1) as u32,
                            file_name_of(e.path@)->0,
                            parent_id_of(e.path@, m),
                        ),
                    ),
                    ..s
                }
            }
        } else if s.assets.len() + 1 >= u32::MAX {
            ScanModel { failure: Some((ScanError::IdSpaceExhausted, at)), ..s }
        } else {
            ScanModel {
                assets: s.assets.push(
                    (
                        (s.assets.len() + 1) as u32,
                        file_name_of(e.path@)->0,
                        Some(e.path@),
                        classify(extension_of(e.path@)->0),
                        parent_id_of(e.path@, m)->0,
                    ),
                ),
                ..s
            }
        },
    }
}

/// Indexing `entries` in order; after a failure the rest is not looked at.
pub open spec fn scan_model(entries: Seq<ScanEntry>, policy: ScanPolicy) -> ScanModel
    decreases entries.len(),
{
    if entries.len() == 0 {
        ScanModel {
            directories: Seq::empty(),
            assets: Seq::empty(),
            skipped: Seq::empty(),
            failure: None,
        }
    } else {
        let prev = scan_model(entries.drop_last(), policy);
        if prev.failure is Some {
            prev
        } else {
            scan_step(prev, entries.last(), policy, entries.len() - 1)
        }
    }
}

/// Report `rep` holds exactly the rows and skips of model `s`.
pub open spec fn report_matches(rep: ScanReport, s: ScanModel) -> bool {
    &&& rep.directories@.map_values(|d: DbDirectory| directory_value(d)) == s.directories
    &&& rep.assets@.map_values(|a: DbAsset| asset_value(a)) == s.assets
    &&& rep.skipped@ == s.skipped
}

proof fn lemma_failure_stays(entries: Seq<ScanEntry>, policy: ScanPolicy, k: int)
    requires
        0 <= k <= entries.len(),
        scan_model(entries.subrange(0, k), policy).failure is Some,
    ensures
        scan_model(entries, policy) == scan_model(entries.subrange(0, k), policy),
    decreases entries.len() - k,
{
    if k < entries.len() {
        let next = entries.subrange(0, k + 1);
        assert(next.drop_last() =~= entries.subrange(0, k));
        assert(next.subrange(0, k) =~= entries.subrange(0, k));
        lemma_failure_stays(entries, policy, k + 1);
    } else {
        assert(entries.subrange(0, k) =~= entries);
    }
}

/// Indexes the entries of one traversal, in the order given, as if the store
/// wrote one row for each insert: the result is exactly `scan_model`.
pub fn index_entries(entries: &Vec<ScanEntry>, policy: ScanPolicy) -> (r: Result<
    ScanReport,
    ScanFailure,
>)
    ensures
        match r {
            Ok(rep) => {
                &&& scan_model(entries@, policy).failure is None
                &&& report_matches(rep, scan_model(entries@, policy))
            },
            Err(f) => {
                &&& scan_model(entries@, policy).failure == Some((f.error, f.at as int))
                &&& report_matches(f.partial, scan_model(entries@, policy))
            },
        },
{
    let mut ix = Indexer::new(policy);
    let mut rep = ScanReport { directories: Vec::new(), assets: Vec::new(), skipped: Vec::new() };
    let mut i: usize = 0;
    assert(entries@.subrange(0, 0) =~= Seq::<ScanEntry>::empty());
    assert(rep.directories@.map_values(|d: DbDirectory| directory_value(d)) =~= Seq::<
        DirectoryValue,
    >::empty());
    assert(rep.assets@.map_values(|a: DbAsset| asset_value(a)) =~= Seq::<AssetValue>::empty());
    assert(rep.skipped@ =~= Seq::<ScanError>::empty());
    assert(ix.known_map() =~= known_of(Seq::<DirectoryValue>::empty()));
    while i < entries.len()
        invariant
            i <= entries@.len(),
            ix.spec_policy() == policy,
            ix.spec_next_directory_id() == rep.directories@.len() + 1,
            ix.spec_next_asset_id() == rep.assets@.len() + 1,
            ix.known_map() == known_of(scan_model(entries@.subrange(0, i as int), policy).directories),
            scan_model(entries@.subrange(0, i as int), policy).failure is None,
            report_matches(rep, scan_model(entries@.subrange(0, i as int), policy)),
        decreases entries@.len() - i,
    {
        let ghost prev = scan_model(entries@.subrange(0, i as int), policy);
        let ghost before = rep;
        let ghost next = entries@.subrange(0, i + 1);
        proof {
            assert(next.drop_last() =~= entries@.subrange(0, i as int));
            assert(next.last() == entries@[i as int]);
            assert(prev.directories.len() == rep.directories@.len());
            assert(prev.assets.len() == rep.assets@.len());
        }
        let step = ix.next_action(&entries[i]);
        match step {
            Err(error) => {
                proof {
                    lemma_failure_stays(entries@, policy, i + 1);
                }
                return Err(ScanFailure { error, at: i, partial: rep });
            },
            Ok(Action::Skip(e)) => {
                rep.skipped.push(e);
            },
            Ok(Action::InsertDirectory(d)) => {
                let name = d.name.clone();
                match ix.directory_inserted(name, 1) {
                    Err(error) => {
                        proof {
                            lemma_failure_stays(entries@, policy, i + 1);
                        }
                        return Err(ScanFailure { error, at: i, partial: rep });
                    },
                    Ok(()) => {},
                }
                rep.directories.push(d);
                proof {
                    let s = scan_model(next, policy);
                    assert(rep.directories@.map_values(|d: DbDirectory| directory_value(d))
                        =~= s.directories);
                    assert(ix.known_map() =~= known_of(s.directories));
                }
            },
            Ok(Action::InsertAsset(a)) => {
                rep.assets.push(a);
                proof {
                    let s = scan_model(next, policy);
                    assert(rep.assets@.map_values(|a: DbAsset| asset_value(a)) =~= s.assets);
                }
            },
        }
        i += 1;
    }
    assert(entries@.subrange(0, i as int) =~= entries@);
    Ok(rep)
}

/// Some directory row has the identifier that asset `a` names as its parent,
/// and the base name of the folder that holds `a`.
pub open spec fn has_parent_row(ds: Seq<DirectoryValue>, a: AssetValue) -> bool {
    exists|k: int|
        0 <= k < ds.len() && #[trigger] ds[k].0 == a.4 && a.2 is Some && parent_name_of(a.2->0)
            == Some(ds[k].1)
}

/// Asset `a` was made from one of the first `bound` entries.
pub open spec fn comes_from(a: AssetValue, entries: Seq<ScanEntry>, bound: int) -> bool {
    exists|k: int| 0 <= k < bound && a.2 == Some((#[trigger] entries[k]).path@)
}

/// Where a scan of `entries` stopped: at its failure, or at the end.
pub open spec fn scan_end(entries: Seq<ScanEntry>, s: ScanModel) -> int {
    match s.failure {
        Some(f) => f.1,
        None => entries.len() as int,
    }
}

/// What holds of every model: identifiers in order, parents linked,
/// assets made from entries before the end, and the strict policy's stops.
spec fn model_facts(entries: Seq<ScanEntry>, policy: ScanPolicy, s: ScanModel) -> bool {
    let end = scan_end(entries, s);
    &&& 0 <= end <= entries.len()
    &&& s.failure is Some ==> end < entries.len()
    &&& forall|j: int| 0 <= j < s.directories.len() ==> (#[trigger] s.directories[j]).0 == j + 1
    &&& forall|j: int| 0 <= j < s.assets.len() ==> (#[trigger] s.assets[j]).0 == j + 1
    &&& forall|j: int| 0 <= j < s.assets.len() ==> has_parent_row(s.directories, #[trigger] s.assets[j])
    &&& forall|j: int| 0 <= j < s.assets.len() ==> comes_from(#[trigger] s.assets[j], entries, end)
    &&& policy == ScanPolicy::Strict ==> s.skipped.len() == 0
    &&& policy == ScanPolicy::Strict ==> forall|k: int| 0 <= k < end ==> !missing_extension(#[trigger] entries[k])
    &&& s.failure matches Some((e, at)) ==> (e is IdSpaceExhausted || policy == ScanPolicy::Strict)
    &&& s.failure matches Some((e, at)) ==> (missing_extension(entries[at])
        ==> e == ScanError::AssetWithoutExtension(entries[at].path))
}

proof fn lemma_model_facts(entries: Seq<ScanEntry>, policy: ScanPolicy)
    ensures
        model_facts(entries, policy, scan_model(entries, policy)),
    decreases entries.len(),
{
    if entries.len() > 0 {
        let es = entries.drop_last();
        lemma_model_facts(es, policy);
        let prev = scan_model(es, policy);
        let s = scan_model(entries, policy);
        let end = scan_end(es, prev);
        assert forall|k: int| 0 <= k < es.len() implies #[trigger] es[k] == entries[k] by {}
        assert forall|j: int| 0 <= j < prev.assets.len() implies comes_from(
            #[trigger] prev.assets[j],
            entries,
            end,
        ) by {
            let k = choose|k: int| 0 <= k < end && prev.assets[j].2 == Some((#[trigger] es[k]).path@);
            assert(es[k] == entries[k]);
        }
        if policy == ScanPolicy::Strict {
            assert forall|k: int| 0 <= k < end implies !missing_extension(#[trigger] entries[k]) by {
                assert(es[k] == entries[k]);
            }
        }
        if prev.failure is None {
            let e = entries.last();
            let m = known_of(prev.directories);
            let n = entries.len() - 1;
            assert(entries[n] == e);
            match entry_fault(e, m) {
                Some(err) => {},
                None => {
                    if e.is_dir {
                        if prev.directories.len() + 2 <= u32::MAX {
                            assert forall|j: int| 0 <= j < s.assets.len() implies has_parent_row(
                                s.directories,
                                #[trigger] s.assets[j],
                            ) by {
                                let a = s.assets[j];
                                let k = choose|k: int|
                                    0 <= k < prev.directories.len() && #[trigger] prev.directories[k].0
                                        == a.4 && a.2 is Some && parent_name_of(a.2->0) == Some(
                                        prev.directories[k].1,
                                    );
                                assert(s.directories[k] == prev.directories[k]);
                            }
                            assert forall|j: int| 0 <= j < s.assets.len() implies comes_from(
                                #[trigger] s.assets[j],
                                entries,
                                entries.len() as int,
                            ) by {
                                assert(comes_from(prev.assets[j], entries, end));
                            }
                        }
                    } else if prev.assets.len() + 1 < u32::MAX {
                        let pname = parent_name_of(e.path@)->0;
                        lemma_lookup_found(m, pname);
                        let k = choose|k: int| 0 <= k < m.len() && #[trigger] m[k] == (pname, lookup(m, pname)->0);
                        assert(prev.directories[k].0 == s.assets.last().4);
                        assert(has_parent_row(s.directories, s.assets.last()));
                        assert(entries[n].path@ == e.path@);
                        assert(comes_from(s.assets.last(), entries, entries.len() as int));
                        assert forall|j: int| 0 <= j < s.assets.len() implies has_parent_row(
                            s.directories,
                            #[trigger] s.assets[j],
                        ) && comes_from(s.assets[j], entries, entries.len() as int) by {
                            if j < prev.assets.len() {
                                assert(s.assets[j] == prev.assets[j]);
                                assert(comes_from(prev.assets[j], entries, end));
                            }
                        }
                    }
                },
            }
        }
    }
}

/// Directory identifiers are distinct: the `j`-th directory a scan indexes
/// gets identifier `j + 1`, so the first gets 1.
pub proof fn lemma_directory_ids(entries: Seq<ScanEntry>, policy: ScanPolicy)
    ensures
        forall|j: int|
            0 <= j < scan_model(entries, policy).directories.len() ==> (#[trigger] scan_model(
                entries,
                policy,
            ).directories[j]).0 == j + 1,
        forall|j: int, k: int|
            0 <= j < k < scan_model(entries, policy).directories.len() ==> (#[trigger] scan_model(
                entries,
                policy,
            ).directories[j]).0 != (#[trigger] scan_model(entries, policy).directories[k]).0,
{
    lemma_model_facts(entries, policy);
}

/// Every asset row names, as its parent, a directory row whose base name is
/// that of the folder that holds the asset.
pub proof fn lemma_parent_linkage(entries: Seq<ScanEntry>, policy: ScanPolicy)
    ensures
        forall|j: int|
            0 <= j < scan_model(entries, policy).assets.len() ==> has_parent_row(
                scan_model(entries, policy).directories,
                #[trigger] scan_model(entries, policy).assets[j],
            ),
{
    lemma_model_facts(entries, policy);
}

/// Under the strict policy, a file with a name but no extension at index `k`
/// makes the scan fail at `k` or before, with `AssetWithoutExtension` if no
/// earlier entry failed; no asset row comes from the failing entry or a later one.
pub proof fn lemma_strict_failure(entries: Seq<ScanEntry>, k: int)
    requires
        0 <= k < entries.len(),
        missing_extension(entries[k]),
    ensures
        ({
            let s = scan_model(entries, ScanPolicy::Strict);
            &&& s.skipped.len() == 0
            &&& s.failure matches Some((e, at)) && at <= k && (at == k
                ==> e == ScanError::AssetWithoutExtension(entries[k].path)) && forall|j: int|
                0 <= j < s.assets.len() ==> comes_from(#[trigger] s.assets[j], entries, at)
        }),
{
    lemma_model_facts(entries, ScanPolicy::Strict);
}

} // verus!
