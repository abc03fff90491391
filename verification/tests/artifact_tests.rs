use ramp_pipeline::artifact::{load, open, seal, store, ArtifactKey, StageKind, FORMAT_VERSION, HEADER_LEN};
use ramp_pipeline::failure::Failure;
use ramp_pipeline::region::Region;

const REGIONS: [Region; 5] = [
    Region::WestYorkshireSmall,
    Region::WestYorkshireLarge,
    Region::Devon,
    Region::TwoCounties,
    Region::National,
];

const KINDS: [StageKind; 3] = [StageKind::Population, StageKind::PythonCache, StageKind::Snapshot];

#[test]
fn population_path() {
    let key = ArtifactKey { region: Region::Devon, kind: StageKind::Population };
    assert_eq!(key.path(), "processed_data/Devon.bin");
    assert_eq!(ArtifactKey::population(Region::Devon), key);
    assert_eq!(
        ArtifactKey::population(Region::WestYorkshireSmall).path(),
        "processed_data/WestYorkshireSmall.bin"
    );
}

#[test]
fn python_cache_path_is_a_directory() {
    let key = ArtifactKey { region: Region::TwoCounties, kind: StageKind::PythonCache };
    assert_eq!(key.path(), "processed_data/python_cache_TwoCounties/");
}

#[test]
fn snapshot_path() {
    let key = ArtifactKey { region: Region::National, kind: StageKind::Snapshot };
    assert_eq!(key.path(), "processed_data/snapshot_National.npz");
}

#[test]
fn paths_of_every_key() {
    for region in REGIONS {
        let name = format!("{:?}", region);
        assert_eq!(
            ArtifactKey { region, kind: StageKind::Population }.path(),
            format!("processed_data/{}.bin", name)
        );
        assert_eq!(
            ArtifactKey { region, kind: StageKind::PythonCache }.path(),
            format!("processed_data/python_cache_{}/", name)
        );
        assert_eq!(
            ArtifactKey { region, kind: StageKind::Snapshot }.path(),
            format!("processed_data/snapshot_{}.npz", name)
        );
    }
}

#[test]
fn same_key_same_path_and_different_keys_different_paths() {
    let mut keys = Vec::new();
    for region in REGIONS {
        for kind in KINDS {
            keys.push(ArtifactKey { region, kind });
        }
    }
    for a in &keys {
        for b in &keys {
            assert_eq!(a.path() == b.path(), a == b);
        }
    }
}

#[test]
fn frame_of_a_small_payload() {
    let sealed = seal(b"abc").expect("a small payload fits");
    assert_eq!(sealed, [0x50, 0x4f, 0x50, 0x31, 1, 3, 0, 0, 0, 0, 0, 0, 0, b'a', b'b', b'c']);
    assert_eq!(sealed.len(), HEADER_LEN + 3);
    assert_eq!(sealed[4], FORMAT_VERSION);
}

#[test]
fn frame_of_the_empty_payload() {
    let sealed = seal(b"").expect("the empty payload fits");
    assert_eq!(sealed, [0x50, 0x4f, 0x50, 0x31, 1, 0, 0, 0, 0, 0, 0, 0, 0]);
    assert_eq!(open(&sealed), Ok(Vec::new()));
}

#[test]
fn frame_holds_the_length_lowest_byte_first() {
    let payload = vec![7u8; 0x0102];
    let sealed = seal(&payload).expect("fits");
    assert_eq!(&sealed[5..13], &[0x02, 0x01, 0, 0, 0, 0, 0, 0]);
    assert_eq!(&sealed[13..], payload.as_slice());
}

#[test]
fn open_after_seal_gives_the_payload() {
    let payloads: [&[u8]; 4] = [b"", b"x", b"population", &[0u8; 1000]];
    for payload in payloads {
        let sealed = seal(payload).expect("fits");
        assert_eq!(open(&sealed), Ok(payload.to_vec()));
    }
}

#[test]
fn load_after_store_gives_what_was_stored() {
    let payload: Vec<u8> = (0..=255u8).cycle().take(700).collect();
    for region in REGIONS {
        let key = ArtifactKey::population(region);
        let request = store(&key, &payload).expect("fits");
        assert_eq!(request.path, key.path());
        // what the file then holds is what a later run finds
        assert_eq!(load(Some(request.bytes.as_slice())), Ok(payload.clone()));
    }
}

#[test]
fn load_of_a_key_that_was_never_stored_is_missing() {
    assert_eq!(load(None), Err(Failure::ArtifactMissing));
}

#[test]
fn load_of_truncated_bytes_is_corrupt() {
    let sealed = seal(b"a population of some length").expect("fits");
    for kept in 0..sealed.len() {
        assert_eq!(load(Some(&sealed[..kept])), Err(Failure::ArtifactCorrupt));
        assert_eq!(open(&sealed[..kept]), Err(Failure::ArtifactCorrupt));
    }
    assert!(load(Some(&sealed)).is_ok());
}

#[test]
fn load_of_an_empty_file_is_corrupt() {
    assert_eq!(load(Some(b"")), Err(Failure::ArtifactCorrupt));
}

#[test]
fn open_rejects_bytes_after_the_payload() {
    let mut sealed = seal(b"abc").expect("fits");
    sealed.push(0);
    assert_eq!(open(&sealed), Err(Failure::ArtifactCorrupt));
}

#[test]
fn open_rejects_another_version() {
    let mut sealed = seal(b"abc").expect("fits");
    sealed[4] = FORMAT_VERSION + 1;
    assert_eq!(open(&sealed), Err(Failure::ArtifactCorrupt));
    sealed[4] = 0;
    assert_eq!(open(&sealed), Err(Failure::ArtifactCorrupt));
}

#[test]
fn open_rejects_other_leading_bytes() {
    for at in 0..4 {
        let mut sealed = seal(b"abc").expect("fits");
        sealed[at] ^= 0x20;
        assert_eq!(open(&sealed), Err(Failure::ArtifactCorrupt));
    }
    assert_eq!(open(b"not an artifact at all"), Err(Failure::ArtifactCorrupt));
}

#[test]
fn open_rejects_a_wrong_length() {
    let mut sealed = seal(b"abc").expect("fits");
    sealed[5] = 4;
    assert_eq!(open(&sealed), Err(Failure::ArtifactCorrupt));
    sealed[5] = 3;
    sealed[12] = 1;
    assert_eq!(open(&sealed), Err(Failure::ArtifactCorrupt));
}

#[test]
fn store_names_the_path_of_the_key_and_the_frame() {
    let key = ArtifactKey::population(Region::WestYorkshireLarge);
    let request = store(&key, b"people").expect("fits");
    assert_eq!(request.path, "processed_data/WestYorkshireLarge.bin");
    assert_eq!(request.bytes, seal(b"people").unwrap());
}
