use chronos_collector::vcs::{
    branch_of, clip, find_git_dir, head_reference, packed_ref, resolve, revision, Checkout,
    GitEntry, Revision,
};

fn checkout<'a>(head: Option<&'a str>, loose: Option<&'a str>, packed: Option<&'a str>) -> Checkout<'a> {
    Checkout { head, loose, packed }
}

#[test]
fn each_field_is_read_off_the_checkout_only_when_it_is_not_configured() {
    let on_disk = checkout(Some("ref: refs/heads/main\n"), Some("feed\n"), None);
    let r = resolve(Some("cafe"), Some("release"), &on_disk);
    assert_eq!((r.commit.as_str(), r.branch.as_str()), ("cafe", "release"));
    let r = resolve(Some(""), Some("release"), &on_disk);
    assert_eq!((r.commit.as_str(), r.branch.as_str()), ("feed", "release"));
    let r = resolve(None, Some("release"), &on_disk);
    assert_eq!((r.commit.as_str(), r.branch.as_str()), ("feed", "release"));
    let r = resolve(Some("cafe"), None, &on_disk);
    assert_eq!((r.commit.as_str(), r.branch.as_str()), ("cafe", "main"));
    let r = resolve(Some(""), Some(""), &on_disk);
    assert_eq!((r.commit.as_str(), r.branch.as_str()), ("feed", "main"));
}

#[test]
fn a_detached_head_is_the_commit_itself() {
    let r = resolve(None, None, &checkout(Some(" 0123abc \n"), None, None));
    assert_eq!((r.commit.as_str(), r.branch.as_str()), ("0123abc", ""));
    let r = resolve(None, None, &checkout(None, None, None));
    assert_eq!((r.commit.as_str(), r.branch.as_str()), ("", ""));
}

#[test]
fn packed_references_answer_where_there_is_no_file() {
    let packed = "# pack-refs\n^peeled refs/heads/x\naaa refs/heads/other\nbbb refs/heads/feature/x\r\n";
    let head = Some("ref: refs/heads/feature/x");
    let r = resolve(None, None, &checkout(head, None, Some(packed)));
    assert_eq!((r.commit.as_str(), r.branch.as_str()), ("bbb", "x"));
    assert_eq!(packed_ref(packed, "refs/heads/none"), "");
    assert_eq!(head_reference("ref: a/b\n").as_deref(), Some("a/b"));
    assert_eq!(branch_of("a/b/"), "");
}

#[test]
fn a_commit_is_clipped_by_characters() {
    assert_eq!(clip(&"\u{e9}".repeat(70)).chars().count(), 64);
    assert_eq!(clip("abc"), "abc");
}

#[test]
fn the_first_answer_stays() {
    let mut told = None;
    let first = revision(&mut told, Revision { commit: "a".into(), branch: "b".into() });
    let second = revision(&mut told, Revision { commit: "c".into(), branch: "d".into() });
    assert_eq!(first.commit, "a");
    assert_eq!(second.commit, "a");
    assert_eq!(second.branch, "b");
}

#[test]
fn the_nearest_checkout_is_found_a_few_levels_up() {
    let levels = vec![
        GitEntry::Missing,
        GitEntry::File(Some("not a pointer".to_owned())),
        GitEntry::File(None),
        GitEntry::File(Some("gitdir: ../main/.git/worktrees/x\n".to_owned())),
        GitEntry::Directory,
    ];
    let found = find_git_dir(&levels).unwrap();
    assert_eq!(found.level, 3);
    assert_eq!(found.pointer.as_deref(), Some("../main/.git/worktrees/x"));
    let found = find_git_dir(&vec![GitEntry::Directory]).unwrap();
    assert_eq!((found.level, found.pointer), (0, None));
    let mut deep: Vec<GitEntry> = (0..8).map(|_| GitEntry::Missing).collect();
    deep.push(GitEntry::Directory);
    assert!(find_git_dir(&deep).is_none());
}
