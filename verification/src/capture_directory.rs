//! What a capture directory held: the managed processes, the snapshots and the
//! live sentinels.

use vstd::prelude::*;
use vstd::string::*;

use crate::c11_window::{sentinel_views, Sentinel};
use crate::capture::{
    classify_entry, entry_of, frames_from, lemma_file_names, managed_process_name, manifest,
    process_name, read_sentinel_manifest, read_snapshot_frames, CaptureEntry, EntryView, MAX_CAPTURE_ENTRIES,
};
use crate::error::{ErrorView, HarnessError};
use crate::ordered::{
    is_listing, least, lemma_ascending_unique, lemma_entry, lemma_first_is_least,
    lemma_listing_exists, lemma_listing_is_unique, lemma_walk_holds, lemma_walk_is_listing,
    listing, OrderedMap,
};
use crate::scan_failure::SentinelKind;
use crate::stable::{is_sorted_list, pairs, sort_by_label, Labelled};

verus! {

/// The output files of one managed process.
pub struct ProcessFiles {
    pub stdout: Option<Vec<u8>>,
    pub stderr: Option<Vec<u8>>,
}

/// The model of the output files of one managed process.
pub type FilesView = (Option<Seq<u8>>, Option<Seq<u8>>);

/// The content of a file, if it was captured.
pub open spec fn content(file: Option<Vec<u8>>) -> Option<Seq<u8>> {
    match file {
        Some(bytes) => Some(bytes@),
        None => None,
    }
}

impl View for ProcessFiles {
    type V = FilesView;

    open spec fn view(&self) -> FilesView {
        (content(self.stdout), content(self.stderr))
    }
}

/// A managed process whose two outputs were captured.
pub struct InnerProcessCapture {
    pub name: String,
    pub stdout: Vec<u8>,
    pub stderr: Vec<u8>,
}

impl View for InnerProcessCapture {
    type V = (Seq<char>, Seq<u8>, Seq<u8>);

    open spec fn view(&self) -> (Seq<char>, Seq<u8>, Seq<u8>) {
        (self.name@, self.stdout@, self.stderr@)
    }
}

/// A captured snapshot.
pub struct SnapshotCapture {
    pub role: String,
    pub bytes: Vec<u8>,
}

impl View for SnapshotCapture {
    type V = (Seq<char>, Seq<u8>);

    open spec fn view(&self) -> (Seq<char>, Seq<u8>) {
        (self.role@, self.bytes@)
    }
}

impl Labelled for SnapshotCapture {
    type Rest = Seq<u8>;

    open spec fn pair(&self) -> (Seq<char>, Seq<u8>) {
        (self.role@, self.bytes@)
    }

    fn label(&self) -> (label: &str) {
        self.role.as_str()
    }
}

/// Whether an entry of a capture directory is a file.
pub fn check_entry_type(is_file: bool) -> (result: Result<(), HarnessError>)
    ensures
        match result {
            Ok(()) => is_file,
            Err(error) => !is_file && error@ == ErrorView::Process(
                "C11 capture directory contained a non-file entry"@,
            ),
        },
{
    if !is_file {
        return Err(HarnessError::process("C11 capture directory contained a non-file entry"));
    }
    Ok(())
}

/// The models of a list of managed processes.
pub open spec fn inner_views(inner: Seq<InnerProcessCapture>) -> Seq<
    (Seq<char>, Seq<u8>, Seq<u8>),
> {
    inner.map_values(|process: InnerProcessCapture| process@)
}

/// The models of a list of snapshots.
pub open spec fn snapshot_views(snapshots: Seq<SnapshotCapture>) -> Seq<(Seq<char>, Seq<u8>)> {
    snapshots.map_values(|snapshot: SnapshotCapture| snapshot@)
}

/// The model of a capture directory under reading.
pub struct DirectoryView {
    pub entries: nat,
    pub processes: Map<Seq<char>, FilesView>,
    /// The snapshots in the order in which they were read.
    pub snapshots: Seq<(Seq<char>, Seq<u8>)>,
    pub sentinels: Seq<(SentinelKind, Seq<u8>)>,
}

/// The files of the managed process with this prefix.
pub open spec fn files_of(directory: DirectoryView, prefix: Seq<char>) -> FilesView {
    if directory.processes.dom().contains(prefix) {
        directory.processes[prefix]
    } else {
        (None, None)
    }
}

/// The directory after the file `name` with this content, or why it is
/// refused.
pub open spec fn with_file(directory: DirectoryView, name: Seq<char>, bytes: Seq<u8>) -> Result<
    DirectoryView,
    Seq<char>,
> {
    match entry_of(name) {
        None => Err("C11 capture directory contained an unknown file"@),
        Some(EntryView::Sentinels) => match manifest(bytes) {
            Ok(sentinels) => Ok(DirectoryView { sentinels, ..directory }),
            Err(reason) => Err(reason),
        },
        Some(EntryView::Stdout(prefix)) => Ok(
            DirectoryView {
                processes: directory.processes.insert(
                    prefix,
                    (Some(bytes), files_of(directory, prefix).1),
                ),
                ..directory
            },
        ),
        Some(EntryView::Stderr(prefix)) => Ok(
            DirectoryView {
                processes: directory.processes.insert(
                    prefix,
                    (files_of(directory, prefix).0, Some(bytes)),
                ),
                ..directory
            },
        ),
        Some(EntryView::Snapshot(role)) => match frames_from(bytes, 0, Seq::empty()) {
            Ok(payload) => Ok(
                DirectoryView { snapshots: directory.snapshots.push((role, payload)), ..directory },
            ),
            Err(reason) => Err(reason),
        },
    }
}

/// Why the files of a managed process are refused.
pub open spec fn process_failure(prefix: Seq<char>, files: FilesView) -> Option<Seq<char>> {
    if files.0 is None {
        Some("C11 managed-process stdout capture was incomplete"@)
    } else if files.1 is None {
        Some("C11 managed-process stderr capture was incomplete"@)
    } else {
        match process_name(prefix) {
            Ok(_) => None,
            Err(reason) => Some(reason),
        }
    }
}

/// The prefixes whose files are refused.
pub open spec fn refused(directory: DirectoryView) -> Set<Seq<char>> {
    Set::new(
        |prefix: Seq<char>|
            directory.processes.dom().contains(prefix) && process_failure(
                prefix,
                directory.processes[prefix],
            ) is Some,
    )
}

/// The managed processes of the prefixes, in order.
pub open spec fn processes_of(directory: DirectoryView, prefixes: Seq<Seq<char>>) -> Seq<
    (Seq<char>, Seq<u8>, Seq<u8>),
> {
    prefixes.map_values(
        |prefix: Seq<char>|
            (
                process_name(prefix)->Ok_0,
                directory.processes[prefix].0->Some_0,
                directory.processes[prefix].1->Some_0,
            ),
    )
}

/// What a capture directory held.
pub struct CaptureContents {
    pub inner: Vec<InnerProcessCapture>,
    pub snapshots: Vec<SnapshotCapture>,
    pub sentinels: Vec<Sentinel>,
}

/// The managed processes stand in the order of their prefixes and the
/// snapshots in the order of their roles, snapshots that share a role in the
/// order in which they were read.
pub open spec fn is_contents(contents: CaptureContents, directory: DirectoryView) -> bool {
    &&& inner_views(contents.inner@) == processes_of(
        directory,
        listing::<String>(directory.processes.dom()),
    )
    &&& is_sorted_list(snapshot_views(contents.snapshots@), directory.snapshots)
    &&& sentinel_views(contents.sentinels@) == directory.sentinels
}

/// A capture directory under reading.
pub struct CaptureDirectory {
    entries: usize,
    processes: OrderedMap<String, ProcessFiles>,
    snapshots: Vec<SnapshotCapture>,
    sentinels: Vec<Sentinel>,
}

impl View for CaptureDirectory {
    type V = DirectoryView;

    closed spec fn view(&self) -> DirectoryView {
        DirectoryView {
            entries: self.entries as nat,
            processes: self.processes@.map_values(|files: ProcessFiles| files@),
            snapshots: snapshot_views(self.snapshots@),
            sentinels: sentinel_views(self.sentinels@),
        }
    }
}

impl CaptureDirectory {
    /// The managed processes are ordered.
    pub closed spec fn wf(&self) -> bool {
        self.processes.wf()
    }

    /// The prefixes of a directory are listed in ascending order, each once.
    pub proof fn lemma_listed(&self)
        requires
            self.wf(),
        ensures
            is_listing::<String>(
                listing::<String>(self@.processes.dom()),
                self@.processes.dom(),
            ),
    {
        lemma_walk_is_listing(self.processes);
        assert(self@.processes.dom() =~= self.processes@.dom());
    }

    /// Nothing read yet.
    pub fn new() -> (directory: Self)
        ensures
            directory.wf(),
            directory@ == (DirectoryView {
                entries: 0,
                processes: Map::empty(),
                snapshots: Seq::empty(),
                sentinels: Seq::empty(),
            }),
    {
        let directory = CaptureDirectory {
            entries: 0,
            processes: OrderedMap::new(),
            snapshots: Vec::new(),
            sentinels: Vec::new(),
        };
        assert(directory@.processes =~= Map::<Seq<char>, FilesView>::empty());
        assert(directory@.snapshots =~= Seq::<(Seq<char>, Seq<u8>)>::empty());
        assert(directory@.sentinels =~= Seq::<(SentinelKind, Seq<u8>)>::empty());
        directory
    }

    /// Counts one more entry, before anything is read of it.
    pub fn count_entry(&mut self) -> (result: Result<(), HarnessError>)
        requires
            old(self).wf(),
        ensures
            final(self).wf(),
            final(self)@ == (DirectoryView {
                entries: if old(self)@.entries < usize::MAX {
                    old(self)@.entries + 1
                } else {
                    old(self)@.entries
                },
                ..old(self)@
            }),
            match result {
                Ok(()) => old(self)@.entries < MAX_CAPTURE_ENTRIES,
                Err(error) => old(self)@.entries >= MAX_CAPTURE_ENTRIES && error@
                    == ErrorView::Process("C11 capture directory contained too many files"@),
            },
    {
        self.entries = self.entries.saturating_add(1);
        if self.entries > MAX_CAPTURE_ENTRIES {
            return Err(HarnessError::process("C11 capture directory contained too many files"));
        }
        Ok(())
    }

    fn put_output(&mut self, prefix: String, bytes: Vec<u8>, to_stdout: bool)
        requires
            old(self).wf(),
        ensures
            final(self).wf(),
            final(self)@ == (DirectoryView {
                processes: old(self)@.processes.insert(
                    prefix@,
                    if to_stdout {
                        (Some(bytes@), files_of(old(self)@, prefix@).1)
                    } else {
                        (files_of(old(self)@, prefix@).0, Some(bytes@))
                    },
                ),
                ..old(self)@
            }),
    {
        let ghost before = self@;
        let ghost first = self.processes@;
        let ghost key = prefix@;
        let ghost content = bytes@;
        let files = match self.processes.remove(&prefix) {
            Some(files) => files,
            None => ProcessFiles { stdout: None, stderr: None },
        };
        assert(files@ == files_of(before, key));
        let files = if to_stdout {
            ProcessFiles { stdout: Some(bytes), stderr: files.stderr }
        } else {
            ProcessFiles { stdout: files.stdout, stderr: Some(bytes) }
        };
        self.processes.insert(prefix, files);
        assert(self@.processes =~= before.processes.insert(key, files@));
    }

    /// Takes in the file `name` with this content.
    pub fn take_file(&mut self, name: &str, bytes: Vec<u8>) -> (result: Result<(), HarnessError>)
        requires
            old(self).wf(),
        ensures
            final(self).wf(),
            match result {
                Ok(()) => with_file(old(self)@, name@, bytes@) == Ok::<DirectoryView, Seq<char>>(
                    final(self)@,
                ),
                Err(error) => error@ is Process && with_file(old(self)@, name@, bytes@) == Err::<
                    DirectoryView,
                    Seq<char>,
                >(error@->Process_0) && *final(self) == *old(self),
            },
    {
        let ghost before = self@;
        match classify_entry(name) {
            Err(error) => Err(error),
            Ok(CaptureEntry::Sentinels) => match read_sentinel_manifest(bytes.as_slice()) {
                Ok(sentinels) => {
                    self.sentinels = sentinels;
                    Ok(())
                },
                Err(error) => Err(error),
            },
            Ok(CaptureEntry::Stdout(prefix)) => {
                self.put_output(prefix, bytes, true);
                Ok(())
            },
            Ok(CaptureEntry::Stderr(prefix)) => {
                self.put_output(prefix, bytes, false);
                Ok(())
            },
            Ok(CaptureEntry::Snapshot(role)) => match read_snapshot_frames(bytes.as_slice()) {
                Ok(payload) => {
                    let ghost pair = (role@, payload@);
                    self.snapshots.push(SnapshotCapture { role, bytes: payload });
                    assert(self@.snapshots =~= before.snapshots.push(pair));
                    Ok(())
                },
                Err(error) => Err(error),
            },
        }
    }

    /// Ends the reading: every managed process must have both outputs and a
    /// valid name.
    pub fn finish(self) -> (result: Result<CaptureContents, HarnessError>)
        requires
            self.wf(),
        ensures
            match result {
                Ok(contents) => (forall|prefix: Seq<char>| !refused(self@).contains(prefix))
                    && is_contents(contents, self@),
                Err(error) => (exists|prefix: Seq<char>| refused(self@).contains(prefix)) && error@
                    == ErrorView::Process(
                    process_failure(
                        least::<String>(refused(self@)),
                        self@.processes[least::<String>(refused(self@))],
                    )->Some_0,
                ),
            },
    {
        let ghost view = self@;
        let ghost prefixes = self.processes.keys();
        let mut inner: Vec<InnerProcessCapture> = Vec::new();
        let mut i: usize = 0;
        while i < self.processes.len()
            invariant
                self.wf(),
                view == self@,
                prefixes == self.processes.keys(),
                i <= prefixes.len(),
                forall|k: int| 0 <= k < i ==> !refused(view).contains(#[trigger] prefixes[k]),
                inner_views(inner@) == processes_of(view, prefixes).take(i as int),
            decreases prefixes.len() - i,
        {
            let prefix = self.processes.key_at(i);
            let files = self.processes.value_at(i);
            let ghost so_far = inner@;
            proof {
                lemma_entry(self.processes, i as int);
                assert(view.processes[prefixes[i as int]] == files@);
                if process_failure(prefixes[i as int], files@) is Some {
                    assert(refused(view).contains(prefixes[i as int]));
                    assert forall|key: Seq<char>| #[trigger]
                        refused(view).contains(key) implies prefixes.contains(key) by {
                        lemma_walk_holds(self.processes, key);
                    }
                    lemma_first_is_least::<String>(prefixes, refused(view), i as int);
                }
            }
            let stdout = match &files.stdout {
                Some(bytes) => bytes,
                None => {
                    return Err(
                        HarnessError::process("C11 managed-process stdout capture was incomplete"),
                    );
                },
            };
            let stderr = match &files.stderr {
                Some(bytes) => bytes,
                None => {
                    return Err(
                        HarnessError::process("C11 managed-process stderr capture was incomplete"),
                    );
                },
            };
            let name = match managed_process_name(prefix.as_str()) {
                Ok(name) => name,
                Err(error) => {
                    return Err(error);
                },
            };
            let process = InnerProcessCapture {
                name,
                stdout: copy_bytes(stdout),
                stderr: copy_bytes(stderr),
            };
            inner.push(process);
            proof {
                assert(inner_views(inner@) =~= inner_views(so_far).push(process@));
                let all = processes_of(view, prefixes);
                assert(all.take(i + 1) =~= all.take(i as int).push(all[i as int]));
                assert(process@ == all[i as int]);
            }
            i += 1;
        }
        proof {
            assert(processes_of(view, prefixes).take(i as int) =~= processes_of(view, prefixes));
            assert forall|prefix: Seq<char>| !refused(view).contains(prefix) by {
                if refused(view).contains(prefix) {
                    lemma_walk_holds(self.processes, prefix);
                }
            }
            assert(prefixes.to_set() =~= view.processes.dom());
            lemma_listing_is_unique::<String>(prefixes, view.processes.dom());
        }
        let ghost read = self.snapshots@;
        let snapshots = sort_by_label(self.snapshots);
        assert(pairs(read) =~= snapshot_views(read));
        assert(pairs(snapshots@) =~= snapshot_views(snapshots@));
        Ok(CaptureContents { inner, snapshots, sentinels: self.sentinels })
    }
}

fn copy_bytes(bytes: &Vec<u8>) -> (copy: Vec<u8>)
    ensures
        copy@ == bytes@,
{
    let mut copy: Vec<u8> = Vec::new();
    copy.extend_from_slice(bytes.as_slice());
    assert(copy@ =~= bytes@);
    copy
}

/// A file of a managed process is kept under its prefix and as its own output:
/// the other output of the process, the other processes, the snapshots and the
/// sentinels stay as they were.
pub proof fn lemma_output_is_kept(
    directory: DirectoryView,
    prefix: Seq<char>,
    bytes: Seq<u8>,
    other: Seq<char>,
)
    ensures
        with_file(directory, prefix + ".stdout"@, bytes) matches Ok(after) && {
            &&& after.processes.dom() == directory.processes.dom().insert(prefix)
            &&& after.processes[prefix].0 == Some(bytes)
            &&& after.processes[prefix].1 == files_of(directory, prefix).1
            &&& other != prefix ==> files_of(after, other) == files_of(directory, other)
            &&& after.snapshots == directory.snapshots
            &&& after.sentinels == directory.sentinels
            &&& after.entries == directory.entries
        },
        with_file(directory, prefix + ".stderr"@, bytes) matches Ok(after) && {
            &&& after.processes.dom() == directory.processes.dom().insert(prefix)
            &&& after.processes[prefix].1 == Some(bytes)
            &&& after.processes[prefix].0 == files_of(directory, prefix).0
            &&& other != prefix ==> files_of(after, other) == files_of(directory, other)
            &&& after.snapshots == directory.snapshots
            &&& after.sentinels == directory.sentinels
            &&& after.entries == directory.entries
        },
{
    lemma_file_names(prefix);
    let first = with_file(directory, prefix + ".stdout"@, bytes)->Ok_0;
    let second = with_file(directory, prefix + ".stderr"@, bytes)->Ok_0;
    assert(first.processes.dom() =~= directory.processes.dom().insert(prefix));
    assert(second.processes.dom() =~= directory.processes.dom().insert(prefix));
}

/// The two outputs of a process are kept alike whichever is read first.
pub proof fn lemma_outputs_in_any_order(
    directory: DirectoryView,
    prefix: Seq<char>,
    stdout: Seq<u8>,
    stderr: Seq<u8>,
)
    ensures
        ({
            let first = with_file(directory, prefix + ".stdout"@, stdout)->Ok_0;
            let second = with_file(directory, prefix + ".stderr"@, stderr)->Ok_0;
            &&& with_file(first, prefix + ".stderr"@, stderr) == with_file(
                second,
                prefix + ".stdout"@,
                stdout,
            )
            &&& with_file(first, prefix + ".stderr"@, stderr)->Ok_0.processes[prefix] == (
                Some(stdout),
                Some(stderr),
            )
        }),
{
    lemma_file_names(prefix);
    let first = with_file(directory, prefix + ".stdout"@, stdout)->Ok_0;
    let second = with_file(directory, prefix + ".stderr"@, stderr)->Ok_0;
    assert(with_file(first, prefix + ".stderr"@, stderr)->Ok_0.processes =~= with_file(
        second,
        prefix + ".stdout"@,
        stdout,
    )->Ok_0.processes);
}

/// A snapshot file adds the payload of its frames under its role, after all
/// snapshots before it; a manifest leaves exactly its live values; and each
/// leaves the rest as it was.
pub proof fn lemma_snapshot_is_added(directory: DirectoryView, role: Seq<char>, bytes: Seq<u8>)
    ensures
        frames_from(bytes, 0, Seq::empty()) matches Ok(payload) ==> (with_file(
            directory,
            "snapshot-"@ + role + ".bin"@,
            bytes,
        ) matches Ok(after) && {
            &&& after.snapshots.len() == directory.snapshots.len() + 1
            &&& after.snapshots.last() == ("snapshot-"@ + role, payload)
            &&& directory.snapshots.is_prefix_of(after.snapshots)
            &&& after.processes == directory.processes
            &&& after.sentinels == directory.sentinels
        }),
        frames_from(bytes, 0, Seq::empty()) is Err ==> with_file(
            directory,
            "snapshot-"@ + role + ".bin"@,
            bytes,
        ) is Err,
        manifest(bytes) matches Ok(values) ==> (with_file(
            directory,
            "sentinels.bin"@,
            bytes,
        ) matches Ok(after) && after.sentinels == values && after.processes == directory.processes
            && after.snapshots == directory.snapshots),
        manifest(bytes) is Err ==> with_file(directory, "sentinels.bin"@, bytes) is Err,
{
    lemma_file_names(role);
    if frames_from(bytes, 0, Seq::empty()) is Ok {
        let after = with_file(directory, "snapshot-"@ + role + ".bin"@, bytes)->Ok_0;
        assert(after.snapshots.subrange(0, directory.snapshots.len() as int)
            =~= directory.snapshots);
    }
}

/// The files of a managed process are in order exactly when both outputs were
/// captured and the prefix names a process.
pub proof fn lemma_process_files(prefix: Seq<char>, files: FilesView)
    ensures
        process_failure(prefix, files) is None <==> files.0 is Some && files.1 is Some
            && process_name(prefix) is Ok,
        files.0 is None ==> process_failure(prefix, files) == Some(
            "C11 managed-process stdout capture was incomplete"@,
        ),
        files.0 is Some && files.1 is None ==> process_failure(prefix, files) == Some(
            "C11 managed-process stderr capture was incomplete"@,
        ),
{
}

/// The contents of a directory hold each of its managed processes once, with
/// its own name and its own outputs.
pub proof fn lemma_contents_hold_every_process(
    contents: CaptureContents,
    directory: DirectoryView,
    prefix: Seq<char>,
)
    requires
        is_contents(contents, directory),
        directory.processes.dom().finite(),
        directory.processes.dom().contains(prefix),
        forall|other: Seq<char>| !refused(directory).contains(other),
    ensures
        contents.inner@.len() == directory.processes.dom().len(),
        exists|i: int|
            0 <= i < contents.inner@.len() && (#[trigger] inner_views(contents.inner@)[i]).0
                == process_name(prefix)->Ok_0 && Some(inner_views(contents.inner@)[i].1)
                == directory.processes[prefix].0 && Some(inner_views(contents.inner@)[i].2)
                == directory.processes[prefix].1,
{
    let prefixes = listing::<String>(directory.processes.dom());
    lemma_listing_exists::<String>(directory.processes.dom());
    assert(prefixes.to_set().contains(prefix));
    let i = choose|i: int| 0 <= i < prefixes.len() && prefixes[i] == prefix;
    assert(!refused(directory).contains(prefix));
    lemma_process_files(prefix, directory.processes[prefix]);
    assert(inner_views(contents.inner@).len() == contents.inner@.len());
    assert(inner_views(contents.inner@)[i] == processes_of(directory, prefixes)[i]);
    assert(prefixes.no_duplicates()) by {
        assert forall|a: int, b: int|
            0 <= a < prefixes.len() && 0 <= b < prefixes.len() && a != b implies prefixes[a]
            != prefixes[b] by {
            if prefixes[a] == prefixes[b] {
                lemma_ascending_unique::<String>(prefixes, a, b);
            }
        }
    }
    prefixes.unique_seq_to_set();
}

} // verus!
