use oxen_core::checkout::plan_checkout;
use oxen_core::checkout::set_working_repo_to_commit_id;
use oxen_core::commits::CommitDb;
use oxen_core::commits::CommitWriter;
use oxen_core::entries::EntryIndex;
use oxen_core::hasher::hash_buffer;
use oxen_core::model::StagedData;
use oxen_core::model::StagedEntry;
use oxen_core::refs::RefWriter;
use oxen_core::refs::Referencer;
use oxen_core::staging::status;
use oxen_core::strmap::StrMap;

fn staged_entry(content: &[u8]) -> StagedEntry {
    StagedEntry {
        hash: hash_buffer(content),
        extension: "txt".to_string(),
        num_bytes: content.len() as u64,
        last_modified_seconds: 0,
        last_modified_nanoseconds: 0,
    }
}

fn fresh_writer() -> CommitWriter {
    CommitWriter::new(
        CommitDb::new(StrMap::new()),
        RefWriter::new(StrMap::new(), None),
        "tester".to_string(),
    )
}

fn stage(sd: &mut StagedData, path: &str, content: &[u8]) {
    sd.added_files
        .push((path.to_string(), staged_entry(content)));
}

#[test]
fn test_commit_no_files() {
    let mut writer = fresh_writer();
    let empty = EntryIndex::new();
    let sd = StagedData::new();
    let (commit, index, copies) = writer.commit(&sd, "Init", &empty).unwrap();
    assert_eq!(commit.message, "Init");
    assert!(commit.parent_id.is_none());
    assert_eq!(copies.len(), 0);
    assert_eq!(index.list_files().len(), 0);
}

#[test]
fn test_commit_staged() {
    let mut writer = fresh_writer();
    let empty = EntryIndex::new();
    // The engine's histories begin with an initial commit.
    let init = StagedData::new();
    let (first, first_index, _) = writer.commit(&init, "Init", &empty).unwrap();

    let mut sd = StagedData::new();
    stage(&mut sd, "training_data/f1.txt", b"Train Ex 1");
    stage(&mut sd, "training_data/f2.txt", b"Train Ex 2");
    stage(&mut sd, "training_data/f3.txt", b"Train Ex 3");
    stage(&mut sd, "annotations.txt", b"some annotations...");
    sd.added_dirs.push(("training_data".to_string(), 3));
    let message = "Adding training data";
    let (commit, index, copies) = writer.commit(&sd, message, &first_index).unwrap();

    let history = writer.commits_db.ancestors(&commit.id).unwrap();
    assert_eq!(history.len(), 2);
    assert_eq!(history[0].id, commit.id);
    assert_eq!(history[0].message, message);
    assert_eq!(history[1].id, first.id);

    // Four new blobs move into the object store, and none of the four
    // entries has been synced yet.
    assert_eq!(copies.len(), 4);
    let unsynced = index.list_unsynced_entries().unwrap();
    assert_eq!(unsynced.len(), 4);
    assert!(index.has_file("annotations.txt"));

    // A second commit carries the previous entries over.
    let mut sd2 = StagedData::new();
    stage(&mut sd2, "test_data/t1.txt", b"Test Ex 1");
    stage(&mut sd2, "test_data/t2.txt", b"Test Ex 2");
    let message_2 = "Adding test data";
    let (commit2, index2, _) = writer.commit(&sd2, message_2, &index).unwrap();

    let history = writer.commits_db.ancestors(&commit2.id).unwrap();
    assert_eq!(history.len(), 3);
    assert_eq!(history[0].id, commit2.id);
    assert_eq!(history[0].message, message_2);
    assert!(index2.has_file("annotations.txt"));
}

#[test]
fn test_commit_modified() {
    let mut writer = fresh_writer();
    let empty = EntryIndex::new();
    let mut sd = StagedData::new();
    stage(&mut sd, "hello.txt", b"Hello");
    let (commit_1, index_1, copies_1) = writer.commit(&sd, "added hello", &empty).unwrap();
    assert_eq!(copies_1.len(), 1);

    // The modified file shows up in the working-set diff.
    let tree = vec![("hello.txt".to_string(), hash_buffer(b"Hello World"))];
    let st = status(&index_1, &Vec::new(), &tree).unwrap();
    assert_eq!(st.modified_files.len(), 1);

    let mut sd2 = StagedData::new();
    stage(&mut sd2, "hello.txt", b"Hello World");
    let (commit_2, index_2, copies_2) = writer
        .commit(&sd2, "modified hello to be world", &index_1)
        .unwrap();
    assert_eq!(copies_2.len(), 1);

    // The entry keeps its id across the edit, and each version's blob has
    // its own path under that id.
    let e1 = index_1.get_entry("hello.txt").unwrap().unwrap();
    let e2 = index_2.get_entry("hello.txt").unwrap().unwrap();
    assert_eq!(e1.id, e2.id);
    assert_eq!(commit_2.parent_id.as_deref(), Some(commit_1.id.as_str()));
    assert!(copies_1[0].dst.contains(&e1.id));
    assert!(copies_2[0].dst.contains(&e2.id));
    assert_ne!(copies_1[0].dst, copies_2[0].dst);
}

#[test]
fn test_commit_unchanged_content_skips_copy() {
    let mut writer = fresh_writer();
    let empty = EntryIndex::new();
    let mut sd = StagedData::new();
    stage(&mut sd, "a.txt", b"hello");
    let (_c1, index_1, _) = writer.commit(&sd, "first", &empty).unwrap();

    // Re-adding identical content costs no blob copy and keeps the record.
    let mut sd2 = StagedData::new();
    stage(&mut sd2, "a.txt", b"hello");
    let (_c2, index_2, copies_2) = writer.commit(&sd2, "again", &index_1).unwrap();
    assert_eq!(copies_2.len(), 0);
    let e1 = index_1.get_entry("a.txt").unwrap().unwrap();
    let e2 = index_2.get_entry("a.txt").unwrap().unwrap();
    assert_eq!(e1.hash, e2.hash);
    assert_eq!(e1.commit_id, e2.commit_id);
}

#[test]
fn test_empty_commit_keeps_parent_index() {
    let mut writer = fresh_writer();
    let empty = EntryIndex::new();
    let mut sd = StagedData::new();
    stage(&mut sd, "a.txt", b"hello");
    let (_c1, index_1, _) = writer.commit(&sd, "first", &empty).unwrap();

    let (_c2, index_2, copies) = writer.commit(&StagedData::new(), "empty", &index_1).unwrap();
    assert_eq!(copies.len(), 0);
    assert_eq!(index_2.list_files(), index_1.list_files());
}

#[test]
fn test_init_add_commit_inspect() {
    // Init: HEAD points at the default branch, no branches yet.
    let refs = RefWriter::new(StrMap::new(), None);
    assert_eq!(refs.read_head_ref().unwrap(), "main");
    assert_eq!(refs.list_branches().unwrap().len(), 0);
    let mut writer = CommitWriter::new(CommitDb::new(StrMap::new()), refs, "tester".to_string());

    // Write and add a file, then look at the working-set diff.
    let content = b"hello";
    let mut sd = StagedData::new();
    stage(&mut sd, "a.txt", content);
    let tree = vec![("a.txt".to_string(), hash_buffer(content))];
    let st = status(&EntryIndex::new(), &sd.added_files, &tree).unwrap();
    assert_eq!(st.added_files.len(), 1);
    assert_eq!(st.added_files[0].0, "a.txt");
    assert_eq!(st.modified_files.len(), 0);
    assert_eq!(st.untracked_files.len(), 0);

    // Commit: the first commit has no parent and moves the default branch.
    let (c1, index, copies) = writer.commit(&sd, "init", &EntryIndex::new()).unwrap();
    assert!(c1.parent_id.is_none());
    let branches = writer.refs.list_branches().unwrap();
    assert_eq!(branches.len(), 1);
    assert_eq!(branches[0].name, "main");
    assert_eq!(branches[0].commit_id, c1.id);
    assert!(branches[0].is_head);

    // The blob lands under the entry's id, named by the commit, and the
    // staged content hashes to the 128-bit digest of "hello".
    let entry = index.get_entry("a.txt").unwrap().unwrap();
    assert_eq!(copies.len(), 1);
    assert_eq!(
        copies[0].dst,
        format!(".oxen/versions/{}/{}.txt", entry.id, c1.id)
    );
    let expected = format!("{:x}", xxhash_rust::xxh3::xxh3_128(b"hello"));
    assert_eq!(entry.hash, expected);

    // After the commit, nothing is pending for any committed path.
    let st = status(&index, &Vec::new(), &tree).unwrap();
    assert_eq!(st.added_files.len(), 0);
    assert_eq!(st.modified_files.len(), 0);
    assert_eq!(st.removed_files.len(), 0);
}

#[test]
fn test_branch_and_checkout_restores_old_content() {
    let mut writer = fresh_writer();
    let mut sd = StagedData::new();
    stage(&mut sd, "a.txt", b"hello");
    let (c1, index_1, _) = writer.commit(&sd, "first", &EntryIndex::new()).unwrap();
    let mut sd2 = StagedData::new();
    stage(&mut sd2, "a.txt", b"world");
    let (c2, index_2, _) = writer.commit(&sd2, "second", &index_1).unwrap();

    writer.refs.create_branch("old", &c1.id).unwrap();
    assert_eq!(writer.refs.head_commit_id().unwrap(), c2.id);

    // Moving the tree back to the first commit rewrites the stale file
    // from the first version's blob.
    let head_files = index_2.list_files();
    let tree = vec![("a.txt".to_string(), hash_buffer(b"world"))];
    let plan = set_working_repo_to_commit_id(
        &writer.commits_db,
        &c2.id,
        &c1.id,
        &head_files,
        &index_1,
        &tree,
    )
    .unwrap();
    assert_eq!(plan.remove_files.len(), 0);
    assert_eq!(plan.restores.len(), 1);
    let e1 = index_1.get_entry("a.txt").unwrap().unwrap();
    assert_eq!(plan.restores[0].dst, "a.txt");
    assert_eq!(
        plan.restores[0].src,
        format!(".oxen/versions/{}/{}.txt", e1.id, c1.id)
    );

    // And coming back to the tip restores the second version.
    let tree_old = vec![("a.txt".to_string(), hash_buffer(b"hello"))];
    let plan_back = set_working_repo_to_commit_id(
        &writer.commits_db,
        &c1.id,
        &c2.id,
        &index_1.list_files(),
        &index_2,
        &tree_old,
    )
    .unwrap();
    assert_eq!(plan_back.restores.len(), 1);
    let e2 = index_2.get_entry("a.txt").unwrap().unwrap();
    assert_eq!(
        plan_back.restores[0].src,
        format!(".oxen/versions/{}/{}.txt", e2.id, c2.id)
    );
    assert_eq!(e1.hash, hash_buffer(b"hello"));
    assert_eq!(e2.hash, hash_buffer(b"world"));
}

#[test]
fn test_checkout_removes_files_and_prunes_dirs() {
    let mut writer = fresh_writer();
    let mut sd = StagedData::new();
    stage(&mut sd, "train/x.txt", b"x");
    let (c1, index_1, _) = writer.commit(&sd, "train", &EntryIndex::new()).unwrap();
    let mut sd2 = StagedData::new();
    sd2.removed_files.push("train/x.txt".to_string());
    stage(&mut sd2, "test/y.txt", b"y");
    let (c2, index_2, _) = writer.commit(&sd2, "test", &index_1).unwrap();
    assert_eq!(c2.parent_id.as_deref(), Some(c1.id.as_str()));

    let head_files = index_1.list_files();
    let tree = vec![("train/x.txt".to_string(), hash_buffer(b"x"))];
    let plan = plan_checkout(&head_files, &index_2, &tree).unwrap();
    assert_eq!(plan.remove_files, vec!["train/x.txt".to_string()]);
    assert_eq!(plan.restores.len(), 1);
    assert_eq!(plan.restores[0].dst, "test/y.txt");
    assert_eq!(plan.remove_dirs, vec!["train".to_string()]);
}

#[test]
fn test_checkout_to_head_is_noop() {
    let mut writer = fresh_writer();
    let mut sd = StagedData::new();
    stage(&mut sd, "a.txt", b"hello");
    let (c1, index_1, _) = writer.commit(&sd, "first", &EntryIndex::new()).unwrap();
    let tree = vec![("a.txt".to_string(), hash_buffer(b"hello")), ("junk.txt".to_string(), hash_buffer(b"junk"))];
    let plan = set_working_repo_to_commit_id(
        &writer.commits_db,
        &c1.id,
        &c1.id,
        &index_1.list_files(),
        &index_1,
        &tree,
    )
    .unwrap();
    assert_eq!(plan.remove_files.len(), 0);
    assert_eq!(plan.restores.len(), 0);
    assert_eq!(plan.remove_dirs.len(), 0);
}

#[test]
fn test_checkout_unknown_commit_fails() {
    let writer = fresh_writer();
    let r = set_working_repo_to_commit_id(
        &writer.commits_db,
        "a",
        "missing",
        &Vec::new(),
        &EntryIndex::new(),
        &Vec::new(),
    );
    match r {
        Err(oxen_core::error::OxenError::NotFound(_)) => {}
        _ => panic!("expected a not-found error"),
    }
}

#[test]
fn test_ancestors_order_and_root() {
    let mut writer = fresh_writer();
    let empty = EntryIndex::new();
    let (c1, i1, _) = writer.commit(&StagedData::new(), "one", &empty).unwrap();
    let (c2, i2, _) = writer.commit(&StagedData::new(), "two", &i1).unwrap();
    let (c3, _i3, _) = writer.commit(&StagedData::new(), "three", &i2).unwrap();

    // Most recent first, down to the single parentless root.
    let history = writer.commits_db.ancestors(&c3.id).unwrap();
    assert_eq!(history.len(), 3);
    assert_eq!(history[0].id, c3.id);
    assert_eq!(history[1].id, c2.id);
    assert_eq!(history[2].id, c1.id);
    assert!(history[2].parent_id.is_none());

    // The root's history is exactly the root.
    let root = writer.commits_db.ancestors(&c1.id).unwrap();
    assert_eq!(root.len(), 1);
    assert_eq!(root[0].id, c1.id);
}

#[test]
fn test_ancestors_detects_cycles() {
    let mut db = CommitDb::new(StrMap::new());
    let a = oxen_core::model::Commit {
        id: "a".to_string(),
        parent_id: Some("b".to_string()),
        message: "a".to_string(),
        author: "t".to_string(),
        date: "2024-01-01T00:00:00+00:00".to_string(),
    };
    let b = oxen_core::model::Commit {
        id: "b".to_string(),
        parent_id: Some("a".to_string()),
        message: "b".to_string(),
        author: "t".to_string(),
        date: "2024-01-01T00:00:00+00:00".to_string(),
    };
    db.add_commit(&a).unwrap();
    db.add_commit(&b).unwrap();
    match db.ancestors("a") {
        Err(oxen_core::error::OxenError::Corruption(_)) => {}
        _ => panic!("expected a corruption error on a cyclic history"),
    }
}

#[test]
fn test_hashing_deterministic_and_distinct() {
    let b1 = b"hello".to_vec();
    let b2 = b"hello".to_vec();
    let b3 = b"world".to_vec();
    assert_eq!(hash_buffer(&b1), hash_buffer(&b2));
    assert_ne!(hash_buffer(&b1), hash_buffer(&b3));
    assert_eq!(
        hash_buffer(b"hello"),
        format!("{:x}", xxhash_rust::xxh3::xxh3_128(b"hello"))
    );
    assert_eq!(
        oxen_core::hasher::hash_str("hello"),
        hash_buffer(b"hello")
    );
    assert_eq!(
        oxen_core::hasher::hash_buffer_128bit(b"hello"),
        xxhash_rust::xxh3::xxh3_128(b"hello")
    );
}

#[test]
fn test_compute_commit_hash_depends_on_entries() {
    let meta = oxen_core::model::NewCommit {
        parent_id: None,
        message: "m".to_string(),
        author: "a".to_string(),
        date: "2024-01-01T00:00:00+00:00".to_string(),
    };
    let e1 = oxen_core::model::CommitEntry {
        id: "i".to_string(),
        path: "a.txt".to_string(),
        hash: "abc".to_string(),
        commit_id: "c".to_string(),
        extension: "txt".to_string(),
        num_bytes: 1,
        last_modified_seconds: 0,
        last_modified_nanoseconds: 0,
    };
    let mut e2 = e1.clone_entry();
    e2.hash = "abd".to_string();
    let h1 = oxen_core::hasher::compute_commit_hash(&meta, &vec![e1]);
    let h2 = oxen_core::hasher::compute_commit_hash(&meta, &vec![e2]);
    assert_ne!(h1, h2);
}

#[test]
fn test_commit_record_round_trip() {
    let c = oxen_core::model::Commit {
        id: "0123abc".to_string(),
        parent_id: Some("ffff".to_string()),
        message: "hello \"world\"\nwith\ttricky \\chars\u{1}".to_string(),
        author: "Ox \u{1F402}".to_string(),
        date: "2024-01-01T00:00:00.123+00:00".to_string(),
    };
    let text = oxen_core::codec::commit_to_json(&c);
    let back = oxen_core::codec::commit_from_json(&text).unwrap();
    assert_eq!(back.id, c.id);
    assert_eq!(back.parent_id, c.parent_id);
    assert_eq!(back.message, c.message);
    assert_eq!(back.author, c.author);
    assert_eq!(back.date, c.date);
    assert!(oxen_core::codec::commit_from_json("{\"id\":oops").is_none());

    let root = oxen_core::model::Commit {
        id: "1".to_string(),
        parent_id: None,
        message: "".to_string(),
        author: "".to_string(),
        date: "".to_string(),
    };
    let rt = oxen_core::codec::commit_from_json(&oxen_core::codec::commit_to_json(&root)).unwrap();
    assert!(rt.parent_id.is_none());
}

#[test]
fn test_entry_record_round_trip() {
    let e = oxen_core::model::CommitEntry {
        id: "id1".to_string(),
        path: "dir/file name.txt".to_string(),
        hash: "abcdef".to_string(),
        commit_id: "c1".to_string(),
        extension: "txt".to_string(),
        num_bytes: 18446744073709551615,
        last_modified_seconds: -62135596800,
        last_modified_nanoseconds: 999999999,
    };
    let text = oxen_core::codec::entry_to_json(&e);
    let back = oxen_core::codec::entry_from_json(&text).unwrap();
    assert_eq!(back.id, e.id);
    assert_eq!(back.path, e.path);
    assert_eq!(back.hash, e.hash);
    assert_eq!(back.num_bytes, e.num_bytes);
    assert_eq!(back.last_modified_seconds, e.last_modified_seconds);
    assert_eq!(back.last_modified_nanoseconds, e.last_modified_nanoseconds);
}

#[test]
fn test_url_builders() {
    assert_eq!(
        oxen_core::urls::url_from_host("localhost:3000", "/x"),
        "http://localhost:3000/api/repos/x"
    );
    assert_eq!(
        oxen_core::urls::remote_url_from_host("localhost:3000", "ox", "data"),
        "http://localhost:3000/ox/data"
    );
    let remote = oxen_core::model::Remote {
        name: "origin".to_string(),
        url: "http://localhost:3000/ox/data".to_string(),
    };
    let u = oxen_core::urls::url_from_remote(&remote, "/commits").unwrap();
    assert_eq!(u, "http://localhost:3000/api/repos/ox/data/commits");
    let repo = oxen_core::model::RemoteRepository {
        namespace: "ox".to_string(),
        name: "data".to_string(),
        remote,
    };
    let u2 = oxen_core::urls::url_from_repo(&repo, "/commits").unwrap();
    assert_eq!(u2, "http://localhost:3000/api/repos/ox/data/commits");
    assert_eq!(
        oxen_core::urls::url_from_remote_url("http://localhost:3000/ox/data").unwrap(),
        "http://localhost:3000/api/repos/ox/data"
    );
    assert!(oxen_core::urls::url_from_remote_url("not a url").is_err());
}

#[test]
fn test_schemas_list() {
    let mut writer = fresh_writer();
    let mut index = EntryIndex::new();
    index
        .put_schema(&oxen_core::model::Schema {
            name: Some("tabular".to_string()),
            hash: "s1".to_string(),
        })
        .unwrap();
    let (c1, _i, _) = writer.commit(&StagedData::new(), "init", &EntryIndex::new()).unwrap();
    let repo = oxen_core::model::LocalRepository {
        path: "/tmp/repo".to_string(),
    };
    let indexes = vec![(c1.id.clone(), index)];
    let schemas = oxen_core::schemas::list(
        &repo,
        Some(c1.id.as_str()),
        &writer.commits_db,
        &writer.refs,
        &indexes,
    )
    .unwrap();
    assert_eq!(schemas.len(), 1);
    assert_eq!(schemas[0].hash, "s1");
    let missing = oxen_core::schemas::list(
        &repo,
        Some("nope"),
        &writer.commits_db,
        &writer.refs,
        &indexes,
    );
    assert!(missing.is_err());
}

#[test]
fn test_status_untracked_and_removed() {
    let mut writer = fresh_writer();
    let mut sd = StagedData::new();
    stage(&mut sd, "a.txt", b"hello");
    let (_c1, index, _) = writer.commit(&sd, "first", &EntryIndex::new()).unwrap();
    let tree = vec![("new.txt".to_string(), hash_buffer(b"new"))];
    let st = status(&index, &Vec::new(), &tree).unwrap();
    assert_eq!(st.untracked_files, vec!["new.txt".to_string()]);
    assert_eq!(st.removed_files, vec!["a.txt".to_string()]);
    assert_eq!(st.modified_files.len(), 0);
}

#[test]
fn test_dir_stats_and_paths() {
    let mut index = EntryIndex::new();
    index
        .put_dir_stat(
            "train",
            &oxen_core::model::DirStat {
                file_count: 3,
                data_size: 30,
            },
        )
        .unwrap();
    let d = index.get_dir_stat("train").unwrap().unwrap();
    assert_eq!(d.file_count, 3);
    assert_eq!(d.data_size, 30);
    assert!(index.get_dir_stat("test").unwrap().is_none());

    assert_eq!(
        oxen_core::paths::oxen_hidden_dir("/tmp/repo"),
        "/tmp/repo/.oxen"
    );
    assert_eq!(
        oxen_core::paths::parent_path("train/a/x.txt").as_deref(),
        Some("train/a")
    );
    assert_eq!(oxen_core::paths::parent_path("x.txt"), None);
    assert_eq!(oxen_core::paths::extension_of("a/b.tar.gz"), "gz");
    assert_eq!(oxen_core::paths::extension_of("a/noext"), "");
    assert_eq!(
        oxen_core::paths::version_path("id1", "c1", "txt"),
        ".oxen/versions/id1/c1.txt"
    );
    assert_eq!(
        oxen_core::paths::version_path("id1", "c1", ""),
        ".oxen/versions/id1/c1"
    );
}

#[test]
fn test_head_detaches_when_not_a_branch() {
    let mut refs = RefWriter::new(StrMap::new(), None);
    refs.set_head("0123");
    refs.set_head_commit_id("4567").unwrap();
    assert_eq!(refs.read_head_ref().unwrap(), "4567");
    assert_eq!(refs.head_commit_id().unwrap(), "4567");
}

#[test]
fn test_list_directory_pagination() {
    let mut writer = fresh_writer();
    let mut sd = StagedData::new();
    stage(&mut sd, "train/a.txt", b"a");
    stage(&mut sd, "train/b.txt", b"b");
    stage(&mut sd, "train/c.txt", b"c");
    stage(&mut sd, "readme.txt", b"r");
    let (_c, index, _) = writer.commit(&sd, "data", &EntryIndex::new()).unwrap();

    let (page1, total) = index.list_directory("train", 1, 2).unwrap();
    assert_eq!(total, 3);
    assert_eq!(page1.len(), 2);
    let (page2, total2) = index.list_directory("train", 2, 2).unwrap();
    assert_eq!(total2, 3);
    assert_eq!(page2.len(), 1);
    assert_ne!(page1[0].path, page2[0].path);
    let (all, all_total) = index.list_directory("", 1, 10).unwrap();
    assert_eq!(all_total, 4);
    assert_eq!(all.len(), 4);
    let (far, _) = index.list_directory("train", 99, 10).unwrap();
    assert_eq!(far.len(), 0);
}

#[test]
fn test_commit_records_dir_stats() {
    let mut writer = fresh_writer();
    let mut sd = StagedData::new();
    stage(&mut sd, "train/a.txt", b"aa");
    stage(&mut sd, "train/b.txt", b"bbb");
    stage(&mut sd, "readme.txt", b"r");
    let (_c, index, _) = writer.commit(&sd, "data", &EntryIndex::new()).unwrap();

    let train = index.get_dir_stat("train").unwrap().unwrap();
    assert_eq!(train.file_count, 2);
    assert_eq!(train.data_size, 5);
    assert!(index.get_dir_stat("test").unwrap().is_none());
    assert!(index.get_dir_stat("").unwrap().is_none());
}

#[test]
fn test_referencer_set_head_without_branch() {
    // HEAD may name a branch that does not exist yet, as at init.
    let mut referencer = Referencer::new(StrMap::new(), None);
    referencer.set_head("not-yet-created").unwrap();
    assert_eq!(referencer.read_head_ref().unwrap(), "not-yet-created");
    assert!(referencer.head_commit_id().is_err());
}
