use hyde_ext::extract::extract_customization;
use hyde_ext::marker::banner_line;
use hyde_ext::marker::decor_line;
use hyde_ext::marker::install_file_step;
use hyde_ext::marker::install_payload;
use hyde_ext::marker::marker_line;
use hyde_ext::marker::should_install;
use hyde_ext::merge::count_restored;
use hyde_ext::merge::is_excluded_extension;
use hyde_ext::merge::needs_confirmation;
use hyde_ext::merge::resolve_live_path;
use hyde_ext::merge::restore_file_step;
use hyde_ext::merge::restore_payload;
use hyde_ext::merge::RestoreOutcome;

fn backup_with_block(block_lines: &[&[u8]]) -> Vec<u8> {
    let mut v = Vec::new();
    v.extend_from_slice(b"A\nB\n");
    v.extend_from_slice(marker_line());
    v.push(b'\n');
    v.extend_from_slice(b"DECOR\n");
    for l in block_lines {
        v.extend_from_slice(l);
        v.push(b'\n');
    }
    v
}

fn expected_restore_tail(block: &[u8]) -> Vec<u8> {
    let mut v = Vec::new();
    v.extend_from_slice(b"\n\n");
    v.extend_from_slice(decor_line());
    v.push(b'\n');
    v.extend_from_slice(marker_line());
    v.push(b'\n');
    v.extend_from_slice(decor_line());
    v.push(b'\n');
    v.extend_from_slice(banner_line());
    v.push(b'\n');
    v.extend_from_slice(decor_line());
    v.push(b'\n');
    v.extend_from_slice(block);
    v.push(b'\n');
    v
}

#[test]
fn install_is_refused_after_restore_merge() {
    // A restore-merge stamps the marker into the target; afterwards the
    // guard refuses every unforced install into that file.
    let target = b"base config\n".to_vec();
    let backup = backup_with_block(&[b"X", b"Y"]);
    let (outcome, payload) = restore_file_step(&backup, true, &target, false);
    assert_eq!(outcome, RestoreOutcome::Restored);
    let payload = payload.expect("a restore must hand back the bytes to append");
    let mut merged = target.clone();
    merged.extend_from_slice(&payload);
    assert!(!should_install(&merged, false));
    assert!(should_install(&merged, true));
    assert_eq!(install_file_step(b"generated\n", &merged, false), None);
}

#[test]
fn appends_preserve_prefix_and_length() {
    let target = b"keep me intact\n".to_vec();
    let payload = install_payload(b"generated\n");
    let mut merged = target.clone();
    merged.extend_from_slice(&payload);
    assert!(merged.len() >= target.len());
    assert_eq!(&merged[..target.len()], &target[..]);

    let restore = restore_payload(b"X\n");
    let mut merged2 = target.clone();
    merged2.extend_from_slice(&restore);
    assert!(merged2.len() >= target.len());
    assert_eq!(&merged2[..target.len()], &target[..]);
}

#[test]
fn extraction_skips_line_after_marker() {
    let backup = backup_with_block(&[b"X", b"Y"]);
    let (found, block) = extract_customization(&backup);
    assert!(found);
    assert_eq!(block, b"X\nY\n".to_vec());
}

#[test]
fn extraction_skips_banner_and_next_line() {
    let mut backup = Vec::new();
    backup.extend_from_slice(marker_line());
    backup.push(b'\n');
    backup.extend_from_slice(b"DECOR\n");
    backup.extend_from_slice(banner_line());
    backup.push(b'\n');
    backup.extend_from_slice(b"DECOR2\nZ\n");
    let (found, block) = extract_customization(&backup);
    assert!(found);
    assert_eq!(block, b"Z\n".to_vec());
}

#[test]
fn extraction_without_marker_finds_nothing() {
    let (found, block) = extract_customization(b"plain\nlines\nonly\n");
    assert!(!found);
    assert!(block.is_empty());
}

#[test]
fn extraction_with_marker_but_no_content_is_empty() {
    let mut backup = Vec::new();
    backup.extend_from_slice(marker_line());
    backup.push(b'\n');
    backup.extend_from_slice(b"DECOR\n");
    let (found, block) = extract_customization(&backup);
    assert!(found);
    assert!(block.is_empty());
}

#[test]
fn config_paths_map_into_config_root() {
    let r = resolve_live_path(b"/home/user", b".config/foo/bar.conf");
    assert_eq!(r, b"/home/user/.config/foo/bar.conf".to_vec());
}

#[test]
fn other_paths_map_beside_config_root() {
    let r = resolve_live_path(b"/home/user", b"scripts/init.sh");
    assert_eq!(r, b"/home/user/scripts/init.sh".to_vec());
}

#[test]
fn missing_target_is_skipped() {
    let backup = backup_with_block(&[b"X"]);
    let (outcome, payload) = restore_file_step(&backup, false, b"", true);
    assert_eq!(outcome, RestoreOutcome::SkippedNoTarget);
    assert_eq!(payload, None);
}

#[test]
fn declined_conflict_leaves_target_untouched() {
    let backup = backup_with_block(&[b"X"]);
    let mut target = b"already mine\n".to_vec();
    target.extend_from_slice(&restore_payload(b"old block\n"));
    let before = target.clone();
    let (outcome, payload) = restore_file_step(&backup, true, &target, false);
    assert_eq!(outcome, RestoreOutcome::SkippedUserDeclined);
    assert_eq!(payload, None);
    assert_eq!(target, before);
}

#[test]
fn confirmed_conflict_restores_again() {
    let backup = backup_with_block(&[b"X"]);
    let mut target = b"already mine\n".to_vec();
    target.extend_from_slice(&restore_payload(b"old block\n"));
    let (outcome, payload) = restore_file_step(&backup, true, &target, true);
    assert_eq!(outcome, RestoreOutcome::Restored);
    assert_eq!(payload.unwrap(), expected_restore_tail(b"X\n"));
}

#[test]
fn two_file_walk_restores_exactly_one() {
    // One image is skipped outright; one text config carries a block.
    let mut outcomes = Vec::new();

    assert!(is_excluded_extension(b"wall.png"));

    let backup = backup_with_block(&[b"alias ll='ls -l'"]);
    assert!(!is_excluded_extension(b"shellrc.conf"));
    let target = b"fresh config\n".to_vec();
    let (outcome, payload) = restore_file_step(&backup, true, &target, false);
    outcomes.push(outcome);
    let mut merged = target.clone();
    merged.extend_from_slice(&payload.unwrap());

    assert_eq!(count_restored(&outcomes), 1);
    let tail = expected_restore_tail(b"alias ll='ls -l'\n");
    assert_eq!(&merged[target.len()..], &tail[..]);
    assert_eq!(&merged[..target.len()], &target[..]);
}

#[test]
fn count_ignores_everything_but_restored() {
    let outcomes = vec![
        RestoreOutcome::Restored,
        RestoreOutcome::SkippedNoTarget,
        RestoreOutcome::SkippedNoCustomization,
        RestoreOutcome::SkippedUserDeclined,
        RestoreOutcome::Failed,
        RestoreOutcome::Restored,
    ];
    assert_eq!(count_restored(&outcomes), 2);
}

#[test]
fn guard_allows_empty_and_unmarked_targets() {
    assert!(should_install(b"", false));
    assert!(should_install(b"some ordinary text\n", false));
    let mut marked = b"text\n".to_vec();
    marked.extend_from_slice(marker_line());
    marked.push(b'\n');
    assert!(!should_install(&marked, false));
    assert!(should_install(&marked, true));
}

#[test]
fn install_step_builds_separator_and_content() {
    let payload = install_file_step(b"generated body", b"fresh target\n", false).unwrap();
    assert_eq!(payload, b"\ngenerated body\n".to_vec());
}

#[test]
fn confirmation_is_needed_only_for_marked_targets_with_content() {
    let backup = backup_with_block(&[b"X"]);
    let mut marked = b"base\n".to_vec();
    marked.extend_from_slice(&restore_payload(b"old\n"));
    assert!(needs_confirmation(&backup, &marked));
    assert!(!needs_confirmation(&backup, b"fresh target\n"));
    assert!(!needs_confirmation(b"no customization\n", &marked));
}

#[test]
fn a_config_file_named_like_the_segment_maps_to_the_root() {
    let r = resolve_live_path(b"/home/user", b".config");
    assert_eq!(r, b"/home/user/.config".to_vec());
}

#[test]
fn marker_embedded_mid_text_still_blocks_installs() {
    let mut text = b"prefix ".to_vec();
    text.extend_from_slice(marker_line());
    text.extend_from_slice(b" suffix");
    assert!(!should_install(&text, false));
}

#[test]
fn excluded_extensions_are_exact_and_case_sensitive() {
    assert!(is_excluded_extension(b"a/b/wall.png"));
    assert!(is_excluded_extension(b"photo.jpg"));
    assert!(is_excluded_extension(b"icon.svg"));
    assert!(!is_excluded_extension(b"wall.PNG"));
    assert!(!is_excluded_extension(b"archive.jpeg"));
    assert!(!is_excluded_extension(b"noext"));
    assert!(!is_excluded_extension(b".gitignore"));
    assert!(!is_excluded_extension(b"dir.png/file"));
}
