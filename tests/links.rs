use check_broken_packages::discovery::FileKind;
use check_broken_packages::links::{ChaseStep, LinkChase, MAX_LINK_HOPS};

#[test]
fn chain_of_links_to_file_is_valid() {
    let mut chase = LinkChase::new();
    assert_eq!(chase.observe(Some(FileKind::Symlink)), ChaseStep::Follow);
    assert_eq!(chase.observe(Some(FileKind::Symlink)), ChaseStep::Follow);
    assert_eq!(chase.observe(Some(FileKind::Regular)), ChaseStep::Valid);
}

#[test]
fn link_to_nothing_is_broken() {
    let mut chase = LinkChase::new();
    assert_eq!(chase.observe(None), ChaseStep::Broken);
}

#[test]
fn link_to_directory_is_unexpected() {
    let mut chase = LinkChase::new();
    assert_eq!(chase.observe(Some(FileKind::Symlink)), ChaseStep::Follow);
    assert_eq!(chase.observe(Some(FileKind::Directory)), ChaseStep::UnexpectedType);
    let mut chase = LinkChase::new();
    assert_eq!(chase.observe(Some(FileKind::Other)), ChaseStep::UnexpectedType);
}

#[test]
fn endless_chain_ends_as_broken() {
    let mut chase = LinkChase::new();
    for _ in 0..MAX_LINK_HOPS {
        assert_eq!(chase.observe(Some(FileKind::Symlink)), ChaseStep::Follow);
    }
    assert_eq!(chase.observe(Some(FileKind::Symlink)), ChaseStep::Broken);
}
