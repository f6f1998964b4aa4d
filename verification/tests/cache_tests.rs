use blobcache::{
    data_file_name, decode_payload, encode_meta, is_valid_extension, meta_file_name, parse_meta,
    plan_persist, Cache, CacheError, EntryId, Metadata, MetaFile, StoreDir,
};
use blobcache::store::{is_meta_file_name, DataFile};

fn meta(username: &str, file_ext: &str) -> Metadata {
    Metadata { username: String::from(username), file_ext: String::from(file_ext) }
}

#[test]
fn extension_validation_boundary() {
    assert!(is_valid_extension("png"));
    assert!(!is_valid_extension("p n g"));
    assert!(is_valid_extension(""));
    assert!(is_valid_extension("tar1"));
    assert!(is_valid_extension("TXT"));
    assert!(!is_valid_extension("tar.gz"));
    assert!(!is_valid_extension("png/"));
    assert!(!is_valid_extension("päng"));
}

#[test]
fn id_renders_hyphenated() {
    let zero = EntryId { value: 0 };
    assert_eq!(zero.to_hyphenated(), "00000000-0000-0000-0000-000000000000");
    let id = EntryId { value: 0x0123456789abcdef0123456789abcdef };
    assert_eq!(id.to_hyphenated(), "01234567-89ab-cdef-0123-456789abcdef");
    let top = EntryId { value: u128::MAX };
    assert_eq!(top.to_hyphenated(), "ffffffff-ffff-ffff-ffff-ffffffffffff");
}

#[test]
fn id_parses_back() {
    let id = EntryId { value: 0x0123456789abcdef0123456789abcdef };
    assert_eq!(EntryId::parse(&id.to_hyphenated()), Some(id));
    assert_eq!(
        EntryId::parse("00000000-0000-0000-0000-000000000000"),
        Some(EntryId { value: 0 })
    );
    assert_eq!(EntryId::parse(""), None);
    assert_eq!(EntryId::parse("0123456789abcdef0123456789abcdef"), None);
    assert_eq!(EntryId::parse("01234567-89ab-cdef-0123-456789abcdeg"), None);
    assert_eq!(EntryId::parse("01234567x89ab-cdef-0123-456789abcdef"), None);
    assert_eq!(EntryId::parse("01234567-89ab-cdef-0123-456789abcde"), None);
}

#[test]
fn generated_id_parses_back() {
    let id = EntryId::generate();
    let rendered = id.to_hyphenated();
    assert_eq!(rendered.chars().count(), 36);
    assert_eq!(EntryId::parse(&rendered), Some(id));
    assert_ne!(EntryId::generate(), EntryId::generate());
}

#[test]
fn meta_file_names() {
    let id = EntryId { value: 0 };
    assert_eq!(
        data_file_name(&id),
        "00000000-0000-0000-0000-000000000000.data"
    );
    assert_eq!(
        meta_file_name(&id),
        "00000000-0000-0000-0000-000000000000.meta"
    );
    assert!(is_meta_file_name("00000000-0000-0000-0000-000000000000.meta"));
    assert!(!is_meta_file_name("00000000-0000-0000-0000-000000000000.data"));
    assert!(!is_meta_file_name("anything.meta"));
}

#[test]
fn descriptor_round_trip() {
    let text = encode_meta(&meta("alice", "txt"), 15);
    assert_eq!(text, "username 5 alice\nextension 3 txt\nsize 15\n");
    let (m, size) = parse_meta(&text).expect("descriptor parses back");
    assert_eq!(m.username, "alice");
    assert_eq!(m.file_ext, "txt");
    assert_eq!(size, 15);
}

#[test]
fn descriptor_round_trip_awkward_fields() {
    let original = meta("a b\nc\"d\\e username 3", "");
    let text = encode_meta(&original, u64::MAX);
    let (m, size) = parse_meta(&text).expect("descriptor parses back");
    assert_eq!(m.username, original.username);
    assert_eq!(m.file_ext, "");
    assert_eq!(size, u64::MAX);
}

#[test]
fn descriptor_rejects_malformed_text() {
    assert!(parse_meta("").is_none());
    assert!(parse_meta("username 5 alice").is_none());
    assert!(parse_meta("user 5 alice\nextension 3 txt\nsize 15\n").is_none());
    assert!(parse_meta("username 9 alice\nextension 3 txt\nsize 15\n").is_none());
    assert!(parse_meta("username 5 alice\nextension 3 txt\nsize x\n").is_none());
    assert!(parse_meta("username 5 alice\nextension 3 txt\nsize 15").is_none());
    assert!(parse_meta("username 5 alice\nextension 3 txt\nsize 15\n trailing").is_none());
    // A size that overflows 64 bits is malformed.
    assert!(parse_meta("username 5 alice\nextension 3 txt\nsize 99999999999999999999\n")
        .is_none());
}

#[test]
fn startup_reproduces_ready_entries() {
    let id_a = EntryId { value: 7 };
    let id_b = EntryId { value: 0xfeedface };
    let files = vec![
        MetaFile { name: meta_file_name(&id_a), text: encode_meta(&meta("alice", "txt"), 3) },
        MetaFile { name: meta_file_name(&id_b), text: encode_meta(&meta("bob", "png"), 9) },
    ];
    let cache = Cache::new(&files);
    assert_eq!(cache.data.len(), 2);
    assert_eq!(cache.data[0].id, id_a);
    assert_eq!(cache.data[0].metadata.username, "alice");
    assert_eq!(cache.data[0].metadata.file_ext, "txt");
    assert_eq!(cache.data[0].data_size(), 3);
    assert!(cache.data[0].is_ready());
    assert_eq!(cache.data[1].id, id_b);
    assert_eq!(cache.data[1].metadata.username, "bob");
    assert!(cache.data[1].is_ready());

    // Rebuilding from the files the first cache would persist again gives
    // the same index.
    let again = Cache::new(&files);
    assert_eq!(again.data.len(), 2);
    assert_eq!(again.data[0].id, id_a);
    assert_eq!(again.data[1].id, id_b);
}

#[test]
fn recovery_skips_corrupt_entries() {
    let good = EntryId { value: 42 };
    let files = vec![
        MetaFile { name: meta_file_name(&good), text: encode_meta(&meta("alice", "txt"), 3) },
        // Well-formed name, malformed descriptor.
        MetaFile {
            name: meta_file_name(&EntryId { value: 43 }),
            text: String::from("username garbage"),
        },
        // Malformed name, well-formed descriptor.
        MetaFile { name: String::from("junk.meta"), text: encode_meta(&meta("eve", "gif"), 1) },
        // A payload file name never yields an entry.
        MetaFile {
            name: data_file_name(&EntryId { value: 44 }),
            text: encode_meta(&meta("eve", "gif"), 1),
        },
    ];
    let cache = Cache::new(&files);
    assert_eq!(cache.data.len(), 1);
    assert_eq!(cache.data[0].id, good);
    assert_eq!(cache.data[0].metadata.username, "alice");
    assert!(cache.data[0].is_ready());
}

#[test]
fn store_registers_entry_before_persistence() {
    let mut cache = Cache { data: Vec::new() };
    let job = cache.store(meta("alice", "txt"), b"payload".to_vec());
    // The entry is visible at once, but not yet ready and without a size.
    let entry = cache.lookup(&job.id).expect("registered entry is visible");
    assert!(!entry.is_ready());
    assert_eq!(entry.data_size(), 0);
    assert_eq!(entry.metadata.username, "alice");

    // Completing the background work makes it ready exactly once.
    let plan = plan_persist(&job);
    let mut dir = StoreDir::new();
    let size = plan.size;
    dir.apply_persist(plan);
    assert!(cache.finish_store(&job.id, size));
    let entry = cache.lookup(&job.id).expect("entry still visible");
    assert!(entry.is_ready());
    assert_eq!(entry.data_size(), size);
}

#[test]
fn finish_store_reports_unknown_id() {
    let mut cache = Cache { data: Vec::new() };
    assert!(!cache.finish_store(&EntryId { value: 1 }, 10));
    assert_eq!(cache.data.len(), 0);
}

#[test]
fn concrete_store_then_load() {
    let mut cache = Cache { data: Vec::new() };
    let mut dir = StoreDir::new();
    let id = EntryId::generate();
    let payload = b"hello world".to_vec();
    assert_eq!(payload.len(), 11);

    let size = cache.store_sync(&mut dir, id, meta("alice", "txt"), payload.clone());

    // The payload file holds the compressed bytes, whose length is the
    // recorded size (not the raw length).
    assert_eq!(dir.datas.len(), 1);
    assert_eq!(dir.datas[0].name, data_file_name(&id));
    assert_eq!(dir.datas[0].bytes.len() as u64, size);

    // The descriptor file records the compressed size.
    assert_eq!(dir.metas.len(), 1);
    assert_eq!(dir.metas[0].name, meta_file_name(&id));
    let (m, recorded) = parse_meta(&dir.metas[0].text).expect("descriptor parses");
    assert_eq!(m.username, "alice");
    assert_eq!(m.file_ext, "txt");
    assert_eq!(recorded, size);

    // Loading the identifier gives the original bytes back.
    let (loaded_meta, loaded) = cache.load(&dir, &id).expect("load succeeds");
    assert_eq!(loaded_meta.username, "alice");
    assert_eq!(loaded_meta.file_ext, "txt");
    assert_eq!(loaded, payload);
}

#[test]
fn unknown_id_is_not_found() {
    let mut cache = Cache { data: Vec::new() };
    let mut dir = StoreDir::new();
    cache.store_sync(&mut dir, EntryId { value: 5 }, meta("alice", "txt"), b"data".to_vec());
    let unknown = EntryId::parse("00000000-0000-0000-0000-000000000000").unwrap();
    assert_eq!(cache.load(&dir, &unknown), Err(CacheError::NotFound));
}

#[test]
fn load_without_data_file_fails_to_open() {
    let mut cache = Cache { data: Vec::new() };
    let id = EntryId { value: 9 };
    // Registered but nothing persisted yet: the entry is visible, the read
    // fails.
    let _job = cache.store(meta("alice", "txt"), b"data".to_vec());
    cache.register(id, meta("bob", "png"));
    let dir = StoreDir::new();
    assert_eq!(
        cache.load(&dir, &id),
        Err(CacheError::FileOpen(data_file_name(&id)))
    );
}

#[test]
fn load_of_corrupt_data_file_fails_to_decode() {
    let mut cache = Cache { data: Vec::new() };
    let id = EntryId { value: 10 };
    cache.register(id, meta("alice", "txt"));
    let dir = StoreDir {
        metas: Vec::new(),
        datas: vec![DataFile { name: data_file_name(&id), bytes: vec![0xff, 0xfe, 0xfd, 0xfc] }],
    };
    assert_eq!(cache.load(&dir, &id), Err(CacheError::Decompression));
}

#[test]
fn compression_actually_transforms() {
    let payload = vec![b'a'; 4096];
    let mut cache = Cache { data: Vec::new() };
    let mut dir = StoreDir::new();
    let id = EntryId { value: 11 };
    let size = cache.store_sync(&mut dir, id, meta("alice", "bin"), payload.clone());
    // Repetitive data compresses: the persisted bytes are not the payload.
    assert!((size as usize) < payload.len());
    assert_ne!(dir.datas[0].bytes, payload);
    // And decompression inverts it exactly.
    assert_eq!(decode_payload(&dir.datas[0].bytes), Ok(payload.clone()));
    let (_, loaded) = cache.load(&dir, &id).expect("load succeeds");
    assert_eq!(loaded, payload);
}

#[test]
fn round_trip_empty_payload() {
    let mut cache = Cache { data: Vec::new() };
    let mut dir = StoreDir::new();
    let id = EntryId { value: 12 };
    cache.store_sync(&mut dir, id, meta("", ""), Vec::new());
    let (m, loaded) = cache.load(&dir, &id).expect("load succeeds");
    assert_eq!(m.username, "");
    assert_eq!(m.file_ext, "");
    assert_eq!(loaded, Vec::<u8>::new());
}

#[test]
fn entry_unready_while_store_in_flight() {
    // Between registration and the end of the background work, the entry
    // is visible but not ready.
    let mut cache = Cache { data: Vec::new() };
    let job = cache.store(meta("alice", "txt"), b"abc".to_vec());
    let entry = cache.lookup(&job.id).unwrap();
    assert!(!entry.is_ready());
}
