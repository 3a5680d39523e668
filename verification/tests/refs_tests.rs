use oxen_core::constants::DEFAULT_BRANCH_NAME;
use oxen_core::refs::RefWriter;
use oxen_core::refs::Referencer;
use oxen_core::strmap::StrMap;

fn fresh_referencer() -> Referencer {
    Referencer::new(StrMap::new(), None)
}

fn fresh_ref_writer() -> RefWriter {
    RefWriter::new(StrMap::new(), None)
}

#[test]
fn referencer_test_default_head() {
    let referencer = fresh_referencer();
    assert_eq!(referencer.read_head_ref().unwrap(), DEFAULT_BRANCH_NAME);
}

#[test]
fn ref_writer_test_default_head() {
    let referencer = fresh_ref_writer();
    assert_eq!(referencer.read_head_ref().unwrap(), DEFAULT_BRANCH_NAME);
}

#[test]
fn test_create_branch_read_no_head() {
    let mut referencer = fresh_referencer();
    let branch_name = "experiment/cat-dog";
    let commit_id = format!("{}", uuid::Uuid::new_v4());
    referencer.create_branch(branch_name, &commit_id).unwrap();

    if referencer.head_commit_id().is_ok() {
        panic!("Should not be able to read head!")
    }
}

#[test]
fn referencer_test_create_branch_set_head() {
    let mut referencer = fresh_referencer();
    let branch_name = "experiment/cat-dog";
    let commit_id = format!("{}", uuid::Uuid::new_v4());
    referencer.create_branch(branch_name, &commit_id).unwrap();
    referencer.set_head(branch_name).unwrap();
    assert_eq!(referencer.head_commit_id().unwrap(), commit_id);
}

#[test]
fn ref_writer_test_create_branch_set_head() {
    let mut referencer = fresh_ref_writer();
    let branch_name = "experiment/cat-dog";
    let commit_id = format!("{}", uuid::Uuid::new_v4());
    referencer.create_branch(branch_name, &commit_id).unwrap();
    referencer.set_head(branch_name);
    assert_eq!(referencer.head_commit_id().unwrap(), commit_id);
}

#[test]
fn test_referencer_list_branches_empty() {
    let referencer = fresh_referencer();
    let branches = referencer.list_branches().unwrap();
    assert_eq!(branches.len(), 0);
}

#[test]
fn test_ref_writer_list_branches_empty() {
    // A repository initialized through the writer starts with a default
    // branch.
    let mut referencer = fresh_ref_writer();
    referencer
        .set_branch_commit_id(DEFAULT_BRANCH_NAME, "0")
        .unwrap();
    let branches = referencer.list_branches().unwrap();
    assert_eq!(branches.len(), 1);
}

#[test]
fn test_referencer_list_branches_one() {
    let mut referencer = fresh_referencer();
    let name = "my-branch";
    let commit_id = format!("{}", uuid::Uuid::new_v4());
    referencer.create_branch(name, &commit_id).unwrap();
    let branches = referencer.list_branches().unwrap();
    assert_eq!(branches.len(), 1);
    assert_eq!(branches[0].name, name);
    assert_eq!(branches[0].commit_id, commit_id);
}

#[test]
fn test_ref_writer_list_branches_one() {
    // The writer's repositories carry the default branch next to new ones.
    let mut referencer = fresh_ref_writer();
    referencer
        .set_branch_commit_id(DEFAULT_BRANCH_NAME, "0")
        .unwrap();
    let name = "my-branch";
    let commit_id = format!("{}", uuid::Uuid::new_v4());
    referencer.create_branch(name, &commit_id).unwrap();
    let branches = referencer.list_branches().unwrap();
    assert_eq!(branches.len(), 2);
}

#[test]
fn test_referencer_list_branches_many() {
    let mut referencer = fresh_referencer();
    referencer.create_branch("name_1", "1").unwrap();
    referencer.create_branch("name_2", "2").unwrap();
    referencer.create_branch("name_3", "3").unwrap();
    let branches = referencer.list_branches().unwrap();
    assert_eq!(branches.len(), 3);
}

#[test]
fn test_ref_writer_list_branches_many() {
    let mut referencer = fresh_ref_writer();
    referencer
        .set_branch_commit_id(DEFAULT_BRANCH_NAME, "0")
        .unwrap();
    referencer.create_branch("name_1", "1").unwrap();
    referencer.create_branch("name_2", "2").unwrap();
    referencer.create_branch("name_3", "3").unwrap();
    let branches = referencer.list_branches().unwrap();
    assert_eq!(branches.len(), 4);
}

#[test]
fn test_referencer_create_branch_same_name() {
    let mut referencer = fresh_referencer();
    referencer.create_branch("name", "1").unwrap();

    if referencer.create_branch("name", "2").is_ok() {
        panic!("Should not be able to read head!")
    }

    let branches = referencer.list_branches().unwrap();
    assert_eq!(branches.len(), 1);
}

#[test]
fn test_ref_writer_create_branch_same_name() {
    let mut referencer = fresh_ref_writer();
    referencer
        .set_branch_commit_id(DEFAULT_BRANCH_NAME, "0")
        .unwrap();
    referencer.create_branch("my-fun-name", "1").unwrap();

    if referencer.create_branch("my-fun-name", "2").is_ok() {
        panic!("Should not be able to read head!")
    }

    let branches = referencer.list_branches().unwrap();
    assert_eq!(branches.len(), 2);
}

#[test]
fn test_ref_writer_delete_branch() {
    let mut referencer = fresh_ref_writer();
    let name = "my-branch-name";
    referencer.create_branch(name, "1").unwrap();
    let og_branches = referencer.list_branches().unwrap();
    let og_branch_count = og_branches.len();

    referencer.delete_branch(name).unwrap();

    let branches = referencer.list_branches().unwrap();
    assert_eq!(branches.len(), og_branch_count - 1);
}

#[test]
fn test_duplicate_branch_keeps_first_tip() {
    let mut referencer = fresh_ref_writer();
    referencer.create_branch("dev", "c1").unwrap();
    let second = referencer.create_branch("dev", "c2");
    assert!(second.is_err());
    match second {
        Err(oxen_core::error::OxenError::AlreadyExists(_)) => {}
        _ => panic!("expected a branch-exists error"),
    }
    let branches = referencer.list_branches().unwrap();
    let dev: Vec<_> = branches.iter().filter(|b| b.name == "dev").collect();
    assert_eq!(dev.len(), 1);
    assert_eq!(dev[0].commit_id, "c1");
}

#[test]
fn test_branch_not_found_on_delete() {
    let mut referencer = fresh_ref_writer();
    let r = referencer.delete_branch("missing");
    match r {
        Err(oxen_core::error::OxenError::NotFound(_)) => {}
        _ => panic!("expected a not-found error"),
    }
}
