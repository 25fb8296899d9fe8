//! Which entries of a directory listing lead to recovery files, and what the
//! framing of such a file holds.
//!
//! A listing is what the caller read from one directory, entry by entry. An
//! entry that could not be read stands in it as the text of the I/O error.

use vstd::prelude::*;
use crate::error::{Error, ErrorView};
use crate::text::{contains, has_infix, has_prefix, starts_with};

verus! {

/// What kind of file system object a directory entry is.
#[derive(Debug, Clone, Copy, PartialEq, Eq, Structural)]
pub enum EntryKind {
    Directory,
    File,
    Other,
}

/// One readable entry of a directory. `P` is the caller's path type; the
/// library only hands it on.
#[derive(Debug)]
pub struct DirEntry<P> {
    /// The entry's name, where it is valid Unicode.
    pub name: Option<String>,
    pub kind: EntryKind,
    /// Where the entry lies.
    pub path: P,
}

/// What a scan of a listing looks for.
#[derive(Debug, Clone, Copy, PartialEq, Eq, Structural)]
pub enum Wanted {
    /// Directories whose name contains `default`.
    ProfileDirs,
    /// Regular files whose name starts with `recovery.js`.
    RecoveryFiles,
}

impl<P> DirEntry<P> {
    /// The entry is a directory whose name contains `default`.
    pub open spec fn is_profile_dir_spec(self) -> bool {
        &&& self.kind == EntryKind::Directory
        &&& self.name matches Some(name)
        &&& has_infix(name@, "default"@)
    }

    /// The entry is a regular file whose name starts with `recovery.js`.
    pub open spec fn is_recovery_file_spec(self) -> bool {
        &&& self.kind == EntryKind::File
        &&& self.name matches Some(name)
        &&& has_prefix(name@, "recovery.js"@)
    }

    /// The entry is what a scan for `wanted` selects.
    pub open spec fn is_wanted_spec(self, wanted: Wanted) -> bool {
        match wanted {
            Wanted::ProfileDirs => self.is_profile_dir_spec(),
            Wanted::RecoveryFiles => self.is_recovery_file_spec(),
        }
    }

    /// Whether the entry is a profile directory.
    pub fn is_profile_dir(&self) -> (yes: bool)
        ensures
            yes == self.is_profile_dir_spec(),
    {
        match (&self.kind, &self.name) {
            (EntryKind::Directory, Some(name)) => contains(name.as_str(), "default"),
            _ => false,
        }
    }

    /// Whether the entry is a recovery file.
    pub fn is_recovery_file(&self) -> (yes: bool)
        ensures
            yes == self.is_recovery_file_spec(),
    {
        match (&self.kind, &self.name) {
            (EntryKind::File, Some(name)) => starts_with(name.as_str(), "recovery.js"),
            _ => false,
        }
    }

    /// Whether a scan for `wanted` selects the entry.
    pub fn is_wanted(&self, wanted: Wanted) -> (yes: bool)
        ensures
            yes == self.is_wanted_spec(wanted),
    {
        match wanted {
            Wanted::ProfileDirs => self.is_profile_dir(),
            Wanted::RecoveryFiles => self.is_recovery_file(),
        }
    }
}

/// The outcome of scanning a listing for `wanted`: the paths of the wanted
/// entries in listing order, up to the first entry that could not be read.
/// That entry's error is then the last item, and nothing behind it is looked
/// at.
pub open spec fn scanned<P>(listing: Seq<Result<DirEntry<P>, String>>, wanted: Wanted) -> Seq<
    Result<P, String>,
>
    decreases listing.len(),
{
    if listing.len() == 0 {
        Seq::empty()
    } else {
        match listing[0] {
            Err(e) => seq![Err(e)],
            Ok(entry) => if entry.is_wanted_spec(wanted) {
                seq![Ok(entry.path)] + scanned(listing.drop_first(), wanted)
            } else {
                scanned(listing.drop_first(), wanted)
            },
        }
    }
}

/// Scans a listing for `wanted`.
pub fn scan<P>(listing: Vec<Result<DirEntry<P>, String>>, wanted: Wanted) -> (found: Vec<
    Result<P, String>,
>)
    ensures
        found@ == scanned(listing@, wanted),
{
    let ghost all = listing@;
    let mut found: Vec<Result<P, String>> = Vec::new();
    assert(all.skip(0) =~= all);
    assert(found@ + scanned(all, wanted) =~= scanned(all, wanted));
    for item in it: listing.into_iter()
        invariant
            it.seq() == all,
            scanned(all, wanted) == found@ + scanned(all.skip(it.index() as int), wanted),
    {
        let ghost rest = all.skip(it.index() as int);
        assert(rest[0] == item);
        assert(rest.drop_first() =~= all.skip(it.index() + 1));
        match item {
            Err(e) => {
                found.push(Err(e));
                return found;
            },
            Ok(entry) => {
                if entry.is_wanted(wanted) {
                    let ghost before = found@;
                    found.push(Ok(entry.path));
                    assert(found@ + scanned(rest.drop_first(), wanted) =~= before + (seq![
                        Ok(entry.path),
                    ] + scanned(rest.drop_first(), wanted)));
                }
            },
        }
    }
    found
}

/// The profile directories of the configuration root, from its listing: the
/// directories one level below the root whose name contains `default`. Where
/// an entry could not be read, its error ends the sequence.
pub fn profile_dirs<P>(root: Vec<Result<DirEntry<P>, String>>) -> (found: Vec<Result<P, String>>)
    ensures
        found@ == scanned(root@, Wanted::ProfileDirs),
{
    scan(root, Wanted::ProfileDirs)
}

/// The profile directories of a configuration root, from what came of
/// listing it. A root that could not be listed is a `ConfigRootNotFound`
/// with the cause of the failure; discovery ends there.
pub fn profile_dirs_of<P>(root: Result<Vec<Result<DirEntry<P>, String>>, String>) -> (found: Result<
    Vec<Result<P, String>>,
    Error,
>)
    ensures
        match root {
            Ok(listing) => found matches Ok(dirs) && dirs@ == scanned(
                listing@,
                Wanted::ProfileDirs,
            ),
            Err(cause) => found matches Err(e) && e@ == ErrorView::ConfigRootNotFound(cause@),
        },
{
    match root {
        Ok(listing) => Ok(profile_dirs(listing)),
        Err(cause) => Err(Error::ConfigRootNotFound(cause)),
    }
}

/// What the caller saw when it followed one item of [`profile_dirs`].
#[derive(Debug)]
pub enum Profile<P> {
    /// The item was the error that ended the scan of the root.
    Lost(String),
    /// The profile directory has no `sessionstore-backups`, or it cannot be
    /// opened.
    NoBackups,
    /// The listing of the profile's `sessionstore-backups`.
    Backups(Vec<Result<DirEntry<P>, String>>),
}

/// One item of the sequence of candidates. The two errors are kept apart
/// because they weigh differently: the scan of the root is lost for good,
/// an unreadable entry of one backups directory costs that directory's
/// remaining files only.
#[derive(Debug)]
pub enum Located<P> {
    /// A recovery file.
    File(P),
    /// An entry of a `sessionstore-backups` listing could not be read; the
    /// payload is the text of the I/O error.
    Unlisted(String),
    /// The scan of the root ended in an error; the payload is its text.
    Lost(String),
}

/// An item of the scan of one backups listing, as an item of the sequence
/// of candidates.
pub open spec fn located_in_backups<P>(item: Result<P, String>) -> Located<P> {
    match item {
        Ok(path) => Located::File(path),
        Err(cause) => Located::Unlisted(cause),
    }
}

impl<P> Profile<P> {
    /// What is to be made of one item of [`profile_dirs`] and, where the
    /// item is a profile directory, of the attempt to list its
    /// `sessionstore-backups`. The error that ended the scan of the root
    /// is kept. A backups directory that could not be listed is no error: a
    /// profile may well have none, and such a profile has no backups.
    pub fn followed(item: Result<Result<Vec<Result<DirEntry<P>, String>>, String>, String>) -> (profile:
        Profile<P>)
        ensures
            profile == match item {
                Err(cause) => Profile::Lost(cause),
                Ok(Err(_)) => Profile::NoBackups,
                Ok(Ok(listing)) => Profile::Backups(listing),
            },
    {
        match item {
            Err(cause) => Profile::Lost(cause),
            Ok(Err(_)) => Profile::NoBackups,
            Ok(Ok(listing)) => Profile::Backups(listing),
        }
    }

    /// The candidates that one profile contributes: none without a backups
    /// directory, else the recovery files of its listing, ended by the
    /// error of the first entry that could not be read. The error that
    /// ended the scan of the root stays in its place.
    pub open spec fn candidates(self) -> Seq<Located<P>> {
        match self {
            Profile::Lost(cause) => seq![Located::Lost(cause)],
            Profile::NoBackups => Seq::empty(),
            Profile::Backups(listing) => scanned(listing@, Wanted::RecoveryFiles).map_values(
                |item: Result<P, String>| located_in_backups(item),
            ),
        }
    }

    /// The candidates that this profile contributes.
    pub fn recovery_files(self) -> (found: Vec<Located<P>>)
        ensures
            found@ == self.candidates(),
    {
        let mut found: Vec<Located<P>> = Vec::new();
        match self {
            Profile::Lost(cause) => {
                found.push(Located::Lost(cause));
                assert(found@ =~= seq![Located::Lost(cause)]);
            },
            Profile::NoBackups => {},
            Profile::Backups(listing) => {
                let items = scan(listing, Wanted::RecoveryFiles);
                let ghost all = items@;
                for item in it: items.into_iter()
                    invariant
                        it.seq() == all,
                        found@ == all.take(it.index() as int).map_values(
                            |item: Result<P, String>| located_in_backups(item),
                        ),
                {
                    let ghost before = all.take(it.index() as int);
                    let ghost after = all.take(it.index() + 1);
                    assert(after =~= before.push(item));
                    match item {
                        Ok(path) => {
                            found.push(Located::File(path));
                        },
                        Err(cause) => {
                            found.push(Located::Unlisted(cause));
                        },
                    }
                    assert(found@ =~= after.map_values(
                        |item: Result<P, String>| located_in_backups(item),
                    ));
                }
                assert(all.take(all.len() as int) =~= all);
            },
        }
        found
    }
}

/// The candidates of all profiles, in the order of the profiles.
pub open spec fn located<P>(profiles: Seq<Profile<P>>) -> Seq<Located<P>>
    decreases profiles.len(),
{
    if profiles.len() == 0 {
        Seq::empty()
    } else {
        profiles[0].candidates() + located(profiles.drop_first())
    }
}

/// The candidate recovery files of all profiles as one sequence, in the
/// order of the profiles and, within a profile, of its listing.
pub fn list_recovery_files<P>(profiles: Vec<Profile<P>>) -> (found: Vec<Located<P>>)
    ensures
        found@ == located(profiles@),
{
    let ghost all = profiles@;
    let mut found: Vec<Located<P>> = Vec::new();
    assert(all.skip(0) =~= all);
    assert(found@ + located(all) =~= located(all));
    for profile in it: profiles.into_iter()
        invariant
            it.seq() == all,
            located(all) == found@ + located(all.skip(it.index() as int)),
    {
        let ghost rest = all.skip(it.index() as int);
        let ghost before = found@;
        assert(rest[0] == profile);
        assert(rest.drop_first() =~= all.skip(it.index() + 1));
        let mut part = profile.recovery_files();
        found.append(&mut part);
        assert(found@ + located(rest.drop_first()) =~= before + (profile.candidates() + located(
            rest.drop_first(),
        )));
    }
    found
}

/// One error, then nothing: an error stands in a scan only as its last
/// item, so the items before it are the paths found until then.
pub proof fn lemma_scan_error_is_last<P>(
    listing: Seq<Result<DirEntry<P>, String>>,
    wanted: Wanted,
    at: int,
)
    requires
        0 <= at < scanned(listing, wanted).len(),
        scanned(listing, wanted)[at] is Err,
    ensures
        at == scanned(listing, wanted).len() - 1,
    decreases listing.len(),
{
    if listing.len() > 0 {
        match listing[0] {
            Err(_) => {},
            Ok(entry) => {
                let rest = listing.drop_first();
                if entry.is_wanted_spec(wanted) {
                    lemma_scan_error_is_last(rest, wanted, at - 1);
                } else {
                    lemma_scan_error_is_last(rest, wanted, at);
                }
            },
        }
    }
}

/// Where the entry at `at` is the first that could not be read, the scan
/// is what the entries before it yield, followed by that entry's error:
/// nothing behind it is looked at.
pub proof fn lemma_scan_stops_at_first_error<P>(
    listing: Seq<Result<DirEntry<P>, String>>,
    wanted: Wanted,
    at: int,
)
    requires
        0 <= at < listing.len(),
        listing[at] is Err,
        forall|i: int| 0 <= i < at ==> (#[trigger] listing[i]) is Ok,
    ensures
        scanned(listing, wanted) == scanned(listing.take(at), wanted).push(
            Err(listing[at]->Err_0),
        ),
    decreases at,
{
    let before = listing.take(at);
    if at == 0 {
        assert(scanned(before, wanted) =~= Seq::empty());
        assert(scanned(listing, wanted) =~= Seq::empty().push(Err(listing[0]->Err_0)));
    } else {
        let rest = listing.drop_first();
        assert(listing[0] is Ok);
        assert(before[0] == listing[0]);
        assert(before.drop_first() =~= rest.take(at - 1));
        assert(rest[at - 1] == listing[at]);
        assert forall|i: int| 0 <= i < at - 1 implies (#[trigger] rest[i]) is Ok by {
            assert(rest[i] == listing[i + 1]);
        }
        lemma_scan_stops_at_first_error(rest, wanted, at - 1);
        assert(scanned(listing, wanted) =~= scanned(before, wanted).push(
            Err(listing[at]->Err_0),
        ));
    }
}

/// Where every entry could be read, the scan holds no error.
pub proof fn lemma_scan_of_readable_listing<P>(
    listing: Seq<Result<DirEntry<P>, String>>,
    wanted: Wanted,
    at: int,
)
    requires
        forall|i: int| 0 <= i < listing.len() ==> (#[trigger] listing[i]) is Ok,
        0 <= at < scanned(listing, wanted).len(),
    ensures
        scanned(listing, wanted)[at] is Ok,
    decreases listing.len(),
{
    if listing.len() > 0 {
        let rest = listing.drop_first();
        assert(listing[0] is Ok);
        assert forall|i: int| 0 <= i < rest.len() implies (#[trigger] rest[i]) is Ok by {
            assert(rest[i] == listing[i + 1]);
        }
        if listing[0]->Ok_0.is_wanted_spec(wanted) {
            if at > 0 {
                lemma_scan_of_readable_listing(rest, wanted, at - 1);
            }
        } else {
            lemma_scan_of_readable_listing(rest, wanted, at);
        }
    }
}

/// The entry could be read and is not what a scan for `wanted` selects.
pub open spec fn readable_and_unwanted<P>(item: Result<DirEntry<P>, String>, wanted: Wanted) -> bool {
    match item {
        Ok(entry) => !entry.is_wanted_spec(wanted),
        Err(_) => false,
    }
}

/// A listing in which every entry can be read and none is wanted yields
/// nothing: no path and no error.
pub proof fn lemma_nothing_wanted_nothing_found<P>(
    listing: Seq<Result<DirEntry<P>, String>>,
    wanted: Wanted,
)
    requires
        forall|i: int|
            0 <= i < listing.len() ==> readable_and_unwanted(#[trigger] listing[i], wanted),
    ensures
        scanned(listing, wanted) == Seq::<Result<P, String>>::empty(),
    decreases listing.len(),
{
    if listing.len() > 0 {
        let rest = listing.drop_first();
        assert forall|i: int| 0 <= i < rest.len() implies readable_and_unwanted(
            #[trigger] rest[i],
            wanted,
        ) by {
            assert(rest[i] == listing[i + 1]);
        }
        lemma_nothing_wanted_nothing_found(rest, wanted);
        assert(readable_and_unwanted(listing[0], wanted));
    }
}

/// A profile directory without a `sessionstore-backups` directory
/// contributes no candidate and no error: the candidates are those of the
/// other profiles, as if it had not been there.
pub proof fn lemma_profile_without_backups_contributes_nothing<P>(
    profiles: Seq<Profile<P>>,
    at: int,
)
    requires
        0 <= at < profiles.len(),
        profiles[at] is NoBackups,
    ensures
        profiles[at].candidates() == Seq::<Located<P>>::empty(),
        located(profiles) == located(profiles.remove(at)),
    decreases at,
{
    if at == 0 {
        assert(profiles.remove(0) =~= profiles.drop_first());
        assert(profiles[0].candidates() + located(profiles.drop_first()) =~= located(
            profiles.drop_first(),
        ));
    } else {
        let rest = profiles.drop_first();
        lemma_profile_without_backups_contributes_nothing(rest, at - 1);
        let removed = profiles.remove(at);
        assert(removed[0] == profiles[0]);
        assert(removed.drop_first() =~= rest.remove(at - 1));
    }
}

/// Length of the signature that a recovery file starts with.
pub const HEADER_LEN: usize = 8;

/// Length of the size field that follows the signature.
pub const SIZE_FIELD_LEN: usize = 4;

/// What `lz4_flex::decompress_size_prepended` makes of a size-prepended
/// block: the inflated bytes, or the text of its error.
pub uninterp spec fn lz4_size_prepended(block: Seq<u8>) -> Result<Seq<u8>, Seq<char>>;

/// The number of bytes `0xFF` in a row that end just before `end`.
pub open spec fn ff_run(block: Seq<u8>, end: int) -> nat
    decreases end,
{
    if 0 < end <= block.len() && block[end - 1] == 0xFF {
        1 + ff_run(block, end - 1)
    } else {
        0
    }
}

/// A run of bytes `0xFF` of this length or more is not handed to the
/// decoder. It reads a length as 19 at most, plus 255 for each byte `0xFF`
/// that follows, plus a last byte, and adds the length to a position in its
/// output. A position is at most `isize::MAX`, so with a shorter run the
/// sum fits the machine's word, whether that has 32 bits or 64.
pub const FF_RUN_LIMIT: usize = 8_421_504;

/// Every run of bytes `0xFF` in `block` is shorter than [`FF_RUN_LIMIT`].
pub open spec fn ff_runs_bounded(block: Seq<u8>) -> bool {
    forall|end: int| 0 <= end <= block.len() ==> #[trigger] ff_run(block, end) < FF_RUN_LIMIT
}

/// Whether every run of bytes `0xFF` in `block` is shorter than
/// [`FF_RUN_LIMIT`].
pub fn check_ff_runs(block: &[u8]) -> (bounded: bool)
    ensures
        bounded == ff_runs_bounded(block@),
{
    let mut run: usize = 0;
    let mut i: usize = 0;
    while i < block.len()
        invariant
            i <= block.len(),
            run == ff_run(block@, i as int),
            forall|end: int| 0 <= end <= i ==> #[trigger] ff_run(block@, end) < FF_RUN_LIMIT,
        decreases block.len() - i,
    {
        if block[i] == 0xFF {
            run = run + 1;
        } else {
            run = 0;
        }
        i = i + 1;
        assert(run == ff_run(block@, i as int));
        if run >= FF_RUN_LIMIT {
            return false;
        }
    }
    true
}

/// Calls `lz4_flex::decompress_size_prepended` on `block`. The caller keeps
/// two things away from it: long runs of bytes `0xFF`, on which the sum of
/// a length and a position would leave the machine's word, and a declared
/// size that no buffer can have. Nothing is claimed of what comes back but
/// that it is what that function returns on these bytes, its error taken as
/// the text that it displays.
#[verifier::external_body]
fn inflate_size_prepended(block: &[u8]) -> (inflated: Result<Vec<u8>, String>)
    requires
        block@.len() >= SIZE_FIELD_LEN,
        size_field(block@) <= isize::MAX,
        ff_runs_bounded(block@),
    ensures
        match inflated {
            Ok(bytes) => lz4_size_prepended(block@) == Ok::<Seq<u8>, Seq<char>>(bytes@),
            Err(text) => lz4_size_prepended(block@) == Err::<Seq<u8>, Seq<char>>(text@),
        },
{
    match lz4_flex::decompress_size_prepended(block) {
        Ok(bytes) => Ok(bytes),
        Err(e) => Err(e.to_string()),
    }
}

/// The size that the file's size field declares for its payload: the four
/// bytes behind the signature, least significant byte first.
pub open spec fn declared_size(file: Seq<u8>) -> int
    recommends
        file.len() >= HEADER_LEN + SIZE_FIELD_LEN,
{
    file[8] + file[9] * 0x100 + file[10] * 0x1_0000 + file[11] * 0x100_0000
}

/// Text of the failure on a file that ends before its block begins.
pub open spec fn truncated_text() -> Seq<char> {
    "file ends within the header or the size field"@
}

/// Text of the failure on a block with a run of bytes `0xFF` that is too
/// long to be part of a length.
pub open spec fn long_run_text() -> Seq<char> {
    "block holds an overlong run of 0xFF bytes"@
}

/// Text of the failure on a size field that declares more bytes than a
/// buffer can hold on this machine.
pub open spec fn oversize_text() -> Seq<char> {
    "declared size is larger than a buffer can be"@
}

/// Text of the failure on a block that inflates to another size than the
/// size field declares.
pub open spec fn size_mismatch_text() -> Seq<char> {
    "inflated size differs from the declared size"@
}

/// The payload of a recovery file: the first eight bytes are skipped
/// whatever they are, the rest is a size-prepended LZ4 block, and the block
/// must inflate to exactly the size that its size field declares. Otherwise
/// the text of the failure. A block with a run of [`FF_RUN_LIMIT`] bytes
/// `0xFF`, or with a declared size above `isize::MAX`, fails without being
/// inflated.
pub open spec fn frame_payload(file: Seq<u8>) -> Result<Seq<u8>, Seq<char>> {
    if file.len() < HEADER_LEN + SIZE_FIELD_LEN {
        Err(truncated_text())
    } else if declared_size(file) > isize::MAX {
        Err(oversize_text())
    } else if !ff_runs_bounded(file.skip(HEADER_LEN as int)) {
        Err(long_run_text())
    } else {
        match lz4_size_prepended(file.skip(HEADER_LEN as int)) {
            Err(text) => Err(text),
            Ok(bytes) => if bytes.len() == declared_size(file) {
                Ok(bytes)
            } else {
                Err(size_mismatch_text())
            },
        }
    }
}

/// Strips the framing of a recovery file and inflates its payload. A file
/// that is too short, a declared size that no buffer can have, an overlong
/// run of bytes `0xFF`, a broken block and a payload of another size than
/// declared are all a `DecompressionFailure`.
pub fn decompress_lz4(file: &[u8]) -> (payload: Result<Vec<u8>, Error>)
    ensures
        match payload {
            Ok(bytes) => frame_payload(file@) == Ok::<Seq<u8>, Seq<char>>(bytes@),
            Err(e) => frame_payload(file@) matches Err(text) && e@
                == ErrorView::DecompressionFailure(text),
        },
{
    if file.len() < HEADER_LEN + SIZE_FIELD_LEN {
        return Err(
            Error::DecompressionFailure(
                String::from_str("file ends within the header or the size field"),
            ),
        );
    }
    let declared: u64 = file[8] as u64 + file[9] as u64 * 0x100 + file[10] as u64 * 0x1_0000
        + file[11] as u64 * 0x100_0000;
    if declared > isize::MAX as u64 {
        return Err(
            Error::DecompressionFailure(
                String::from_str("declared size is larger than a buffer can be"),
            ),
        );
    }
    let block = &file[HEADER_LEN..file.len()];
    assert(block@ == file@.skip(HEADER_LEN as int));
    assert(size_field(block@) == declared_size(file@));
    if !check_ff_runs(block) {
        return Err(
            Error::DecompressionFailure(
                String::from_str("block holds an overlong run of 0xFF bytes"),
            ),
        );
    }
    match inflate_size_prepended(block) {
        Err(text) => Err(Error::DecompressionFailure(text)),
        Ok(bytes) => {
            if bytes.len() as u64 == declared {
                Ok(bytes)
            } else {
                Err(
                    Error::DecompressionFailure(
                        String::from_str("inflated size differs from the declared size"),
                    ),
                )
            }
        },
    }
}

/// Longest payload that is framed. It is also the longest text that is
/// read as a session document.
pub const MAX_PAYLOAD_LEN: usize = 0x7FFF_FFFF;

/// The number that the first four bytes of a size-prepended block hold,
/// least significant byte first.
pub open spec fn size_field(block: Seq<u8>) -> int
    recommends
        block.len() >= SIZE_FIELD_LEN,
{
    block[0] + block[1] * 0x100 + block[2] * 0x1_0000 + block[3] * 0x100_0000
}

/// The payload can be handed to the compressor: it is not too long, and 110
/// times its length fits the machine's word.
pub open spec fn compressible(payload: Seq<u8>) -> bool {
    &&& payload.len() <= MAX_PAYLOAD_LEN
    &&& payload.len() * 110 <= usize::MAX
}

/// The longest block that the compressor makes of a payload of `len`
/// bytes: the four bytes of the size, and what
/// `lz4_flex::get_maximum_output_size` allows for the rest, twenty bytes
/// and 110 percent of the payload.
pub open spec fn max_block_len(len: int) -> int {
    4 + 16 + 4 + len * 110 / 100
}

/// Calls `lz4_flex::compress_prepend_size` on a payload that is
/// [`compressible`]; the crate sizes its buffer from 110 times the length.
/// Which bytes come back may differ from machine to machine. Claimed of them
/// is what the crate's source and documentation show. The block begins
/// with the payload's length in four bytes, least significant first. It is
/// no longer than the buffer that the crate allocates for it. And
/// `lz4_flex::decompress_size_prepended` returns the payload on it: the
/// round trip that the crate's documentation shows and its test suite
/// asserts.
#[verifier::external_body]
fn deflate_prepend_size(payload: &[u8]) -> (block: Vec<u8>)
    requires
        compressible(payload@),
    ensures
        SIZE_FIELD_LEN <= block@.len() <= max_block_len(payload@.len() as int),
        size_field(block@) == payload@.len(),
        lz4_size_prepended(block@) is Ok,
        lz4_size_prepended(block@)->Ok_0 == payload@,
{
    lz4_flex::compress_prepend_size(payload)
}

/// Puts the eight bytes of `header` before a size-prepended block. `None`
/// where the block holds an overlong run of bytes `0xFF`, on which
/// [`decompress_lz4`] would refuse the file.
pub fn frame(header: &[u8; 8], block: Vec<u8>) -> (file: Option<Vec<u8>>)
    ensures
        match file {
            Some(bytes) => ff_runs_bounded(block@) && bytes@ == header@ + block@,
            None => !ff_runs_bounded(block@),
        },
{
    if !check_ff_runs(block.as_slice()) {
        return None;
    }
    let mut block = block;
    let ghost inner = block@;
    let mut file: Vec<u8> = Vec::new();
    let mut i: usize = 0;
    while i < 8
        invariant
            i <= 8,
            file@ == header@.take(i as int),
        decreases 8 - i,
    {
        file.push(header[i]);
        assert(file@ =~= header@.take(i + 1));
        i = i + 1;
    }
    assert(header@.take(8) =~= header@);
    file.append(&mut block);
    assert(file@ =~= header@ + inner);
    Some(file)
}

/// A run of bytes `0xFF` is no longer than the block that holds it.
pub proof fn lemma_ff_run_within_block(block: Seq<u8>, end: int)
    ensures
        ff_run(block, end) <= block.len(),
        0 <= end ==> ff_run(block, end) <= end,
    decreases end,
{
    if 0 < end <= block.len() && block[end - 1] == 0xFF {
        lemma_ff_run_within_block(block, end - 1);
    }
}

/// Writes a payload as a recovery file: the eight bytes of `header`, then
/// the payload's length and its LZ4 block. [`decompress_lz4`] gives the
/// payload back from the result, whatever the header is.
///
/// A payload that is not [`compressible`] gives `None`. One whose longest
/// block is shorter than [`FF_RUN_LIMIT`] always gives a file. Between the
/// two it depends on the block that the compressor makes: see [`frame`].
pub fn compress_lz4(header: &[u8; 8], payload: &[u8]) -> (file: Option<Vec<u8>>)
    ensures
        !compressible(payload@) ==> file is None,
        compressible(payload@) && max_block_len(payload@.len() as int) < FF_RUN_LIMIT
            ==> file is Some,
        file matches Some(bytes) ==> {
            &&& bytes@.len() >= HEADER_LEN + SIZE_FIELD_LEN
            &&& bytes@.take(HEADER_LEN as int) == header@
            &&& frame_payload(bytes@) == Ok::<Seq<u8>, Seq<char>>(payload@)
        },
{
    if payload.len() > MAX_PAYLOAD_LEN || payload.len() > usize::MAX / 110 {
        return None;
    }
    let block = deflate_prepend_size(payload);
    let ghost inner = block@;
    proof {
        if max_block_len(payload@.len() as int) < FF_RUN_LIMIT {
            assert forall|end: int| 0 <= end <= inner.len() implies #[trigger] ff_run(inner, end)
                < FF_RUN_LIMIT by {
                lemma_ff_run_within_block(inner, end);
            }
        }
    }
    let file = frame(header, block);
    proof {
        if file is Some {
            let bytes = file->Some_0;
            assert(bytes@.take(HEADER_LEN as int) =~= header@);
            assert(bytes@.skip(HEADER_LEN as int) =~= inner);
            assert(forall|k: int| 0 <= k < 4 ==> bytes@[8 + k] == inner[k]);
            assert(declared_size(bytes@) == size_field(inner));
        }
    }
    file
}

/// Round trip of the framing: where `block` is a size-prepended block that
/// inflates to `payload`, the size field declares the payload's length,
/// which a buffer can have, and no run of bytes `0xFF` is overlong, the
/// file made of any eight bytes followed by `block` has the payload
/// `payload`.
pub proof fn lemma_frame_round_trip(header: Seq<u8>, block: Seq<u8>, payload: Seq<u8>)
    requires
        header.len() == HEADER_LEN,
        block.len() >= SIZE_FIELD_LEN,
        payload.len() <= isize::MAX,
        ff_runs_bounded(block),
        lz4_size_prepended(block) == Ok::<Seq<u8>, Seq<char>>(payload),
        payload.len() == declared_size(header + block),
    ensures
        frame_payload(header + block) == Ok::<Seq<u8>, Seq<char>>(payload),
{
    assert((header + block).skip(HEADER_LEN as int) =~= block);
}

/// The framing does not look at the signature: two files that differ only
/// in their first eight bytes have the same payload, or fail alike.
pub proof fn lemma_header_is_ignored(first: Seq<u8>, second: Seq<u8>, rest: Seq<u8>)
    requires
        first.len() == HEADER_LEN,
        second.len() == HEADER_LEN,
    ensures
        frame_payload(first + rest) == frame_payload(second + rest),
{
    assert((first + rest).skip(HEADER_LEN as int) =~= rest);
    assert((second + rest).skip(HEADER_LEN as int) =~= rest);
    if rest.len() >= SIZE_FIELD_LEN {
        assert(forall|i: int| 8 <= i < 12 ==> (first + rest)[i] == rest[i - 8]);
        assert(forall|i: int| 8 <= i < 12 ==> (second + rest)[i] == rest[i - 8]);
    }
}

} // verus!
