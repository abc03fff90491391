//! The artifact store: where each stage keeps what it produced, and the
//! frame in which a population is written so that a later run can tell a
//! whole artifact from a damaged one.

use vstd::prelude::*;
use vstd::bytes::{
    lemma_auto_spec_u64_to_from_le_bytes, spec_u64_from_le_bytes, spec_u64_to_le_bytes,
    u64_from_le_bytes, u64_to_le_bytes,
};
use vstd::slice::{slice_subrange, slice_to_vec};
use vstd::string::StringExecFns;
use crate::failure::Failure;
use crate::region::{lemma_name_tells_region, Region};

verus! {

/// What a stage keeps on disk.
#[derive(Clone, Copy, Debug, PartialEq, Eq, Structural)]
pub enum StageKind {
    /// The synthesized population, written once and read by every later stage.
    Population,
    /// The directory of cache files for the Python model.
    PythonCache,
    /// The snapshot file.
    Snapshot,
}

/// The key of an artifact: the region it was made for and what it holds.
#[derive(Clone, Copy, Debug, PartialEq, Eq, Structural)]
pub struct ArtifactKey {
    pub region: Region,
    pub kind: StageKind,
}

impl ArtifactKey {
    /// The path of the artifact below the working directory. Writers and
    /// readers derive it from the key alone.
    pub open spec fn spec_path(self) -> Seq<char> {
        match self.kind {
            StageKind::Population => "processed_data/"@ + self.region.spec_name() + ".bin"@,
            StageKind::PythonCache => "processed_data/python_cache_"@ + self.region.spec_name()
                + "/"@,
            StageKind::Snapshot => "processed_data/snapshot_"@ + self.region.spec_name() + ".npz"@,
        }
    }

    /// The key of the population of a region.
    pub fn population(region: Region) -> (key: ArtifactKey)
        ensures
            key == (ArtifactKey { region, kind: StageKind::Population }),
    {
        ArtifactKey { region, kind: StageKind::Population }
    }

    /// The path of the artifact below the working directory.
    pub fn path(&self) -> (path: String)
        ensures
            path@ == self.spec_path(),
    {
        let name = self.region.name();
        match self.kind {
            StageKind::Population => String::from_str("processed_data/").concat(name).concat(
                ".bin",
            ),
            StageKind::PythonCache => String::from_str("processed_data/python_cache_").concat(
                name,
            ).concat("/"),
            StageKind::Snapshot => String::from_str("processed_data/snapshot_").concat(
                name,
            ).concat(".npz"),
        }
    }
}

/// The version of the frame. An artifact of another version is not read.
pub const FORMAT_VERSION: u8 = 1;

/// The number of bytes in front of the payload.
pub const HEADER_LEN: usize = 13;

/// The four bytes that every artifact starts with.
pub open spec fn magic() -> Seq<u8> {
    seq![0x50u8, 0x4fu8, 0x50u8, 0x31u8]
}

/// An artifact as it is written: the magic bytes, the version, the length of
/// the payload as eight bytes with the lowest first, and the payload.
pub open spec fn frame(payload: Seq<u8>) -> Seq<u8> {
    magic() + seq![FORMAT_VERSION] + spec_u64_to_le_bytes(payload.len() as u64) + payload
}

/// The payload of an artifact, or nothing where the bytes are no whole
/// artifact: where they are too short for the header, start with other bytes,
/// have another version, or hold more or fewer bytes than the header says.
pub open spec fn unframe(bytes: Seq<u8>) -> Option<Seq<u8>> {
    if bytes.len() >= HEADER_LEN && bytes.subrange(0, 4) == magic() && bytes[4] == FORMAT_VERSION
        && spec_u64_from_le_bytes(bytes.subrange(5, 13)) == bytes.len() - HEADER_LEN {
        Some(bytes.skip(HEADER_LEN as int))
    } else {
        None
    }
}

/// What is to be written, and where.
#[derive(Debug)]
pub struct WriteRequest {
    pub path: String,
    pub bytes: Vec<u8>,
}

/// What the files below the working directory hold, by path.
pub type Directory = Map<Seq<char>, Seq<u8>>;

/// The directory after a payload was stored under a key.
pub open spec fn stored(directory: Directory, key: ArtifactKey, payload: Seq<u8>) -> Directory {
    directory.insert(key.spec_path(), frame(payload))
}

/// What was found at the path of a key: the bytes of the file, or nothing.
pub open spec fn found_at(directory: Directory, key: ArtifactKey) -> Option<Seq<u8>> {
    if directory.contains_key(key.spec_path()) {
        Some(directory[key.spec_path()])
    } else {
        None
    }
}

/// What loading gives for what was found at the path: the payload of a whole
/// artifact; the failure of a missing one where there is no file; the failure
/// of a corrupt one for any other bytes.
pub open spec fn loaded(found: Option<Seq<u8>>) -> Result<Seq<u8>, Failure> {
    match found {
        None => Err(Failure::ArtifactMissing),
        Some(bytes) => match unframe(bytes) {
            Some(payload) => Ok(payload),
            None => Err(Failure::ArtifactCorrupt),
        },
    }
}

/// The result of loading as plain values.
pub open spec fn loaded_view(outcome: Result<Vec<u8>, Failure>) -> Result<Seq<u8>, Failure> {
    match outcome {
        Ok(payload) => Ok(payload@),
        Err(failure) => Err(failure),
    }
}

/// Puts a payload into its frame. A payload too long for the frame to fit
/// the machine's word cannot be written.
pub fn seal(payload: &[u8]) -> (sealed: Result<Vec<u8>, Failure>)
    ensures
        match sealed {
            Ok(bytes) => bytes@ == frame(payload@) && payload@.len() + HEADER_LEN <= usize::MAX,
            Err(failure) => failure == Failure::WriteFailure && payload@.len() + HEADER_LEN
                > usize::MAX,
        },
{
    if payload.len() > usize::MAX - HEADER_LEN {
        return Err(Failure::WriteFailure);
    }
    let mut bytes: Vec<u8> = Vec::new();
    bytes.push(0x50);
    bytes.push(0x4f);
    bytes.push(0x50);
    bytes.push(0x31);
    bytes.push(FORMAT_VERSION);
    let mut length = u64_to_le_bytes(payload.len() as u64);
    bytes.append(&mut length);
    let mut rest = slice_to_vec(payload);
    bytes.append(&mut rest);
    assert(bytes@ =~= frame(payload@));
    Ok(bytes)
}

/// Takes the payload out of its frame.
pub fn open(bytes: &[u8]) -> (opened: Result<Vec<u8>, Failure>)
    ensures
        match opened {
            Ok(payload) => unframe(bytes@) == Some(payload@),
            Err(failure) => failure == Failure::ArtifactCorrupt && unframe(bytes@) is None,
        },
{
    if bytes.len() < HEADER_LEN {
        return Err(Failure::ArtifactCorrupt);
    }
    if bytes[0] != 0x50 || bytes[1] != 0x4f || bytes[2] != 0x50 || bytes[3] != 0x31 {
        assert(bytes@.subrange(0, 4)[0] == bytes@[0]);
        assert(bytes@.subrange(0, 4)[1] == bytes@[1]);
        assert(bytes@.subrange(0, 4)[2] == bytes@[2]);
        assert(bytes@.subrange(0, 4)[3] == bytes@[3]);
        return Err(Failure::ArtifactCorrupt);
    }
    assert(bytes@.subrange(0, 4) =~= magic());
    if bytes[4] != FORMAT_VERSION {
        return Err(Failure::ArtifactCorrupt);
    }
    let declared = u64_from_le_bytes(slice_subrange(bytes, 5, 13));
    if declared != (bytes.len() - HEADER_LEN) as u64 {
        return Err(Failure::ArtifactCorrupt);
    }
    Ok(slice_to_vec(slice_subrange(bytes, HEADER_LEN, bytes.len())))
}

/// What is to be written to store a payload under a key: the frame of the
/// payload, at the path of the key.
pub fn store(key: &ArtifactKey, payload: &[u8]) -> (request: Result<WriteRequest, Failure>)
    ensures
        match request {
            Ok(write) => write.path@ == key.spec_path() && write.bytes@ == frame(payload@)
                && payload@.len() + HEADER_LEN <= usize::MAX,
            Err(failure) => failure == Failure::WriteFailure && payload@.len() + HEADER_LEN
                > usize::MAX,
        },
{
    match seal(payload) {
        Ok(bytes) => Ok(WriteRequest { path: key.path(), bytes }),
        Err(failure) => Err(failure),
    }
}

/// The payload of an artifact, from what was found at its path: `None` where
/// there is no file.
pub fn load(found: Option<&[u8]>) -> (outcome: Result<Vec<u8>, Failure>)
    ensures
        loaded_view(outcome) == loaded(
            match found {
                Some(bytes) => Some(bytes@),
                None => None,
            },
        ),
{
    match found {
        None => Err(Failure::ArtifactMissing),
        Some(bytes) => open(bytes),
    }
}

/// A frame opens to the payload that it was sealed from.
pub proof fn lemma_unframe_frame(payload: Seq<u8>)
    requires
        payload.len() <= u64::MAX,
    ensures
        unframe(frame(payload)) == Some(payload),
{
    lemma_auto_spec_u64_to_from_le_bytes();
    let bytes = frame(payload);
    let length = spec_u64_to_le_bytes(payload.len() as u64);
    assert(bytes.subrange(0, 4) =~= magic());
    assert(bytes.subrange(5, 13) =~= length);
    assert(bytes.skip(HEADER_LEN as int) =~= payload);
}

/// No proper beginning of a frame opens: a truncated artifact is never taken
/// for a whole one.
pub proof fn lemma_truncated_frame_is_rejected(payload: Seq<u8>, kept: int)
    requires
        payload.len() <= u64::MAX,
        0 <= kept < frame(payload).len(),
    ensures
        unframe(frame(payload).take(kept)) is None,
{
    lemma_auto_spec_u64_to_from_le_bytes();
    let bytes = frame(payload);
    let length = spec_u64_to_le_bytes(payload.len() as u64);
    if kept >= HEADER_LEN {
        assert(bytes.take(kept).subrange(5, 13) =~= length);
    }
}

/// Loading after storing under the same key gives back what was stored.
pub proof fn lemma_load_after_store(directory: Directory, key: ArtifactKey, payload: Seq<u8>)
    requires
        payload.len() <= u64::MAX,
    ensures
        loaded(found_at(stored(directory, key, payload), key)) == Ok::<Seq<u8>, Failure>(payload),
{
    lemma_unframe_frame(payload);
}

/// Loading under a key at whose path there is no file fails with a missing
/// artifact.
pub proof fn lemma_load_without_file(directory: Directory, key: ArtifactKey)
    requires
        !directory.contains_key(key.spec_path()),
    ensures
        loaded(found_at(directory, key)) == Err::<Seq<u8>, Failure>(Failure::ArtifactMissing),
{
}

/// Loading an artifact of which only a proper beginning is on disk fails with
/// a corrupt artifact.
pub proof fn lemma_load_truncated(
    directory: Directory,
    key: ArtifactKey,
    payload: Seq<u8>,
    kept: int,
)
    requires
        payload.len() <= u64::MAX,
        0 <= kept < frame(payload).len(),
    ensures
        loaded(found_at(directory.insert(key.spec_path(), frame(payload).take(kept)), key)) == Err::<
            Seq<u8>,
            Failure,
        >(Failure::ArtifactCorrupt),
{
    lemma_truncated_frame_is_rejected(payload, kept);
}

/// No two keys have the same path.
pub proof fn lemma_path_tells_key(a: ArtifactKey, b: ArtifactKey)
    requires
        a.spec_path() == b.spec_path(),
    ensures
        a == b,
{
    reveal_strlit("processed_data/");
    reveal_strlit("processed_data/python_cache_");
    reveal_strlit("processed_data/snapshot_");
    reveal_strlit(".bin");
    reveal_strlit("/");
    reveal_strlit(".npz");
    let left = a.region.spec_name();
    let right = b.region.spec_name();
    let path = a.spec_path();
    assert(path.last() == b.spec_path().last());
    assert(a.kind == b.kind);
    assert(left.len() == right.len());
    let lead = match a.kind {
        StageKind::Population => "processed_data/"@,
        StageKind::PythonCache => "processed_data/python_cache_"@,
        StageKind::Snapshot => "processed_data/snapshot_"@,
    };
    assert forall|i: int| 0 <= i < left.len() implies left[i] == right[i] by {
        assert(a.spec_path()[lead.len() + i] == left[i]);
        assert(b.spec_path()[lead.len() + i] == right[i]);
    }
    assert(left =~= right);
    lemma_name_tells_region(a.region, b.region);
}

/// The directory after the stores of a history, the earliest first, made in
/// a directory without files.
pub open spec fn after_stores(history: Seq<(ArtifactKey, Seq<u8>)>) -> Directory
    decreases history.len(),
{
    if history.len() == 0 {
        Map::empty()
    } else {
        stored(after_stores(history.drop_last()), history.last().0, history.last().1)
    }
}

/// Loading under a key that was never stored fails with a missing artifact,
/// whatever was stored under other keys.
pub proof fn lemma_load_never_stored(history: Seq<(ArtifactKey, Seq<u8>)>, key: ArtifactKey)
    requires
        forall|i: int| 0 <= i < history.len() ==> (#[trigger] history[i]).0 != key,
    ensures
        loaded(found_at(after_stores(history), key)) == Err::<Seq<u8>, Failure>(
            Failure::ArtifactMissing,
        ),
    decreases history.len(),
{
    if history.len() > 0 {
        let earlier = history.drop_last();
        assert forall|i: int| 0 <= i < earlier.len() implies (#[trigger] earlier[i]).0 != key by {
            assert(history[i].0 != key);
        }
        lemma_load_never_stored(earlier, key);
        assert(history[history.len() - 1].0 != key);
        if history.last().0.spec_path() == key.spec_path() {
            lemma_path_tells_key(history.last().0, key);
        }
    }
}

/// Storing under one key leaves what is loaded under every other key as it
/// was.
pub proof fn lemma_store_leaves_other_keys(
    directory: Directory,
    key: ArtifactKey,
    payload: Seq<u8>,
    other: ArtifactKey,
)
    requires
        other != key,
    ensures
        found_at(stored(directory, key, payload), other) == found_at(directory, other),
{
    if key.spec_path() == other.spec_path() {
        lemma_path_tells_key(key, other);
    }
}

} // verus!
