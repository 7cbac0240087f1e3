use package_check::api::{GitRepo, HookPayload, Installation, InstallationPayload, Repository};

#[test]
fn repository_splits_owner_and_name_at_the_first_slash() {
    let repo = Repository::new("typst/packages").unwrap();
    assert_eq!(repo.owner().0, "typst");
    assert_eq!(repo.name().0, "packages");
    let nested = Repository::new("a/b/c").unwrap();
    assert_eq!(nested.owner().0, "a");
    assert_eq!(nested.name().0, "b/c");
    assert!(Repository::new("no-slash-here").is_none());
}

#[test]
fn hook_payloads_carry_their_installation() {
    let payload = HookPayload::Installation(InstallationPayload {
        installation: Installation { id: 41 },
    });
    assert_eq!(payload.installation().id, 41);
}

#[test]
fn git_repos_remember_their_directory() {
    let repo = GitRepo::new("checkout-abc".to_string());
    assert_eq!(repo.dir(), "checkout-abc");
}
