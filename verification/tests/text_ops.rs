use hyde_ext::bytes::contains_bytes;
use hyde_ext::bytes::starts_with_bytes;
use hyde_ext::bytes::to_vec_bytes;
use hyde_ext::bytes::trim_blank_slice;
use hyde_ext::bytes::trim_byte_slice;
use hyde_ext::catalog::catalog_file_path;
use hyde_ext::catalog::expand_home;
use hyde_ext::catalog::group_by_handler;
use hyde_ext::catalog::missing_catalog_entry;
use hyde_ext::catalog::pad_title;
use hyde_ext::catalog::find_entry_for_display;
use hyde_ext::catalog::parse_handler;
use hyde_ext::catalog::FileEntry;
use hyde_ext::catalog::HandlerKind;
use hyde_ext::folders::lex_le_bytes;
use hyde_ext::folders::sort_names_descending;
use hyde_ext::lines::split_lines;
use hyde_ext::packages::parse_package_groups;
use hyde_ext::zshrc::modify_zshrc_text;

#[test]
fn lines_split_at_line_feeds() {
    let lines = split_lines(b"alpha\nbeta\ngamma\n");
    assert_eq!(lines, vec![b"alpha".to_vec(), b"beta".to_vec(), b"gamma".to_vec()]);
}

#[test]
fn lines_keep_a_final_unterminated_line() {
    let lines = split_lines(b"alpha\nbeta");
    assert_eq!(lines, vec![b"alpha".to_vec(), b"beta".to_vec()]);
}

#[test]
fn lines_strip_carriage_returns() {
    let lines = split_lines(b"alpha\r\nbeta\r");
    assert_eq!(lines, vec![b"alpha".to_vec(), b"beta".to_vec()]);
}

#[test]
fn empty_text_has_no_lines() {
    assert!(split_lines(b"").is_empty());
    assert_eq!(split_lines(b"\n"), vec![Vec::<u8>::new()]);
}

#[test]
fn substring_search_finds_and_rejects() {
    assert!(contains_bytes(b"hello world", b"lo wo"));
    assert!(contains_bytes(b"abc", b""));
    assert!(!contains_bytes(b"abc", b"abcd"));
    assert!(!contains_bytes(b"aaab", b"ab a"));
    assert!(starts_with_bytes(b"pokemon-colorscripts x", b"pokemon-colorscripts"));
    assert!(!starts_with_bytes(b" pokemon", b"pokemon"));
}

#[test]
fn trims_whitespace_and_hashes() {
    assert_eq!(trim_blank_slice(b"  pkg \t"), &b"pkg"[..]);
    assert_eq!(trim_blank_slice(b"   "), &b""[..]);
    assert_eq!(trim_byte_slice(b"## title ##", b'#'), &b" title "[..]);
    assert_eq!(to_vec_bytes(b"copy"), b"copy".to_vec());
}

#[test]
fn zshrc_startup_call_gets_commented_out() {
    let out = modify_zshrc_text(
        b"pokemon-colorscripts --no-title\necho hi\n#pokemon-colorscripts old\n",
    );
    assert_eq!(
        out,
        b"#pokemon-colorscripts --no-title\necho hi\n#pokemon-colorscripts old".to_vec()
    );
}

#[test]
fn zshrc_lines_with_leading_blanks_pass_through() {
    let out = modify_zshrc_text(b"  pokemon-colorscripts indented\nplain\n");
    assert_eq!(out, b"  pokemon-colorscripts indented\nplain".to_vec());
}

#[test]
fn package_list_parses_into_titled_groups() {
    let text = b"# ===== Essentials #\npkg1\n pkg2 \n\n# just a comment\n# ===== Extras #\npkg3\n";
    let groups = parse_package_groups(text);
    assert_eq!(groups.len(), 2);
    assert_eq!(groups[0].title, b"===== Essentials".to_vec());
    assert_eq!(groups[0].packages, vec![b"pkg1".to_vec(), b"pkg2".to_vec()]);
    assert_eq!(groups[1].title, b"===== Extras".to_vec());
    assert_eq!(groups[1].packages, vec![b"pkg3".to_vec()]);
}

#[test]
fn packages_before_any_separator_form_an_untitled_group() {
    let groups = parse_package_groups(b"early\n# ===== Late #\nlater\n");
    assert_eq!(groups.len(), 2);
    assert_eq!(groups[0].title, b"".to_vec());
    assert_eq!(groups[0].packages, vec![b"early".to_vec()]);
    assert_eq!(groups[1].packages, vec![b"later".to_vec()]);
}

#[test]
fn home_shorthand_expands_everywhere() {
    assert_eq!(expand_home(b"~/foo/bar", b"/home/u"), b"/home/u/foo/bar".to_vec());
    assert_eq!(expand_home(b"no-shorthand", b"/home/u"), b"no-shorthand".to_vec());
    assert_eq!(expand_home(b"~~", b"/h"), b"/h/h".to_vec());
}

#[test]
fn titles_pad_to_the_selection_width() {
    let padded = pad_title(b"Short");
    assert_eq!(padded.len(), 50);
    assert!(padded.starts_with(b"Short"));
    assert!(padded[5..].iter().all(|&b| b == b' '));
    let long = vec![b'x'; 60];
    assert_eq!(pad_title(&long), long);
}

#[test]
fn catalog_files_live_under_their_folders() {
    assert_eq!(
        catalog_file_path(b"assets", b"Configs"),
        b"assets/Configs/Configs.toml".to_vec()
    );
}

#[test]
fn a_missing_catalog_becomes_a_bare_entry() {
    let e = missing_catalog_entry(b"Packages");
    assert_eq!(e.title, b"Packages".to_vec());
    assert_eq!(e.description, b"Packages".to_vec());
    assert!(e.handler.is_empty());
    assert!(!e.default);
    assert!(e.source_path.is_none());
    assert!(e.target_path.is_none());
}

#[test]
fn handler_names_select_their_installers() {
    assert_eq!(parse_handler(b"configs"), HandlerKind::Configs);
    assert_eq!(parse_handler(b"assets"), HandlerKind::Assets);
    assert_eq!(parse_handler(b"packages"), HandlerKind::Packages);
    assert_eq!(parse_handler(b"scripts"), HandlerKind::Scripts);
    assert_eq!(parse_handler(b"ufw"), HandlerKind::Ufw);
    assert_eq!(parse_handler(b"anything-else"), HandlerKind::Other);
    assert_eq!(parse_handler(b""), HandlerKind::Other);
}

fn entry(title: &[u8]) -> FileEntry {
    FileEntry {
        title: title.to_vec(),
        description: title.to_vec(),
        handler: b"configs".to_vec(),
        default: false,
        source_path: None,
        target_path: Some(b"~/.config/x".to_vec()),
    }
}

fn entry_with_handler(title: &[u8], handler: &[u8]) -> FileEntry {
    FileEntry {
        title: title.to_vec(),
        description: title.to_vec(),
        handler: handler.to_vec(),
        default: false,
        source_path: None,
        target_path: None,
    }
}

#[test]
fn grouping_keeps_first_seen_handler_order() {
    let entries = vec![
        entry_with_handler(b"c1", b"configs"),
        entry_with_handler(b"p1", b"packages"),
        entry_with_handler(b"c2", b"configs"),
        entry_with_handler(b"s1", b"scripts"),
        entry_with_handler(b"p2", b"packages"),
    ];
    let grouped = group_by_handler(&entries);
    let titles: Vec<Vec<u8>> = grouped.iter().map(|e| e.title.clone()).collect();
    assert_eq!(
        titles,
        vec![b"c1".to_vec(), b"c2".to_vec(), b"p1".to_vec(), b"p2".to_vec(), b"s1".to_vec()]
    );
}

#[test]
fn picked_display_text_maps_to_first_matching_entry() {
    let entries = vec![entry(b"Alpha"), entry(b"Beta"), entry(b"Bet")];
    assert_eq!(find_entry_for_display(&entries, b"Beta \xe2\x97\x8f styled"), Some(1));
    assert_eq!(find_entry_for_display(&entries, b"nothing here"), None);
}

#[test]
fn folder_names_sort_newest_first() {
    let names = vec![b"2024-05-01".to_vec(), b"2025-01-02".to_vec(), b"2023-12-31".to_vec()];
    let sorted = sort_names_descending(names);
    assert_eq!(
        sorted,
        vec![b"2025-01-02".to_vec(), b"2024-05-01".to_vec(), b"2023-12-31".to_vec()]
    );
    assert!(lex_le_bytes(b"2024", b"2025"));
    assert!(lex_le_bytes(b"abc", b"abcd"));
    assert!(!lex_le_bytes(b"abcd", b"abc"));
}
