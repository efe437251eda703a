use fstab::{parse_fstab, parse_fstab_line, FSTabEntry, FSTabFile};

fn entry(
    spec: &str,
    file: &str,
    fs_type: &str,
    options: &str,
    dump: i8,
    fsck_pass: i8,
) -> FSTabEntry {
    FSTabEntry {
        spec: spec.to_string(),
        file: file.to_string(),
        fs_type: fs_type.to_string(),
        options: options.to_string(),
        dump,
        fsck_pass,
    }
}

#[test]
fn full_record() {
    assert_eq!(
        parse_fstab_line("/dev/sda1 / ext4 defaults 0 1"),
        Some(entry("/dev/sda1", "/", "ext4", "defaults", 0, 1))
    );
}

#[test]
fn comment_and_blank_contribute_nothing() {
    let lines: Vec<String> = vec![
        "tmpfs /dev/shm tmpfs defaults 0 0".to_string(),
        "# comment".to_string(),
        "".to_string(),
    ];
    assert_eq!(
        parse_fstab(&lines),
        FSTabFile {
            entries: vec![entry("tmpfs", "/dev/shm", "tmpfs", "defaults", 0, 0)],
        }
    );
}

#[test]
fn trailing_comment_rejects_whole_line() {
    assert_eq!(
        parse_fstab_line("/dev/sda1 / ext4 defaults 0 1 # trailing comment"),
        None
    );
}

#[test]
fn three_tokens_take_defaults() {
    assert_eq!(
        parse_fstab_line("none swap swap"),
        Some(entry("none", "swap", "swap", "", 0, 0))
    );
}

#[test]
fn seven_well_formed_tokens_rejected() {
    assert_eq!(parse_fstab_line("a b c d 0 0 0"), None);
}

#[test]
fn fewer_than_three_tokens_rejected() {
    assert_eq!(parse_fstab_line(""), None);
    assert_eq!(parse_fstab_line("   \t "), None);
    assert_eq!(parse_fstab_line("a"), None);
    assert_eq!(parse_fstab_line("a b"), None);
}

#[test]
fn comment_markers() {
    assert_eq!(parse_fstab_line("#"), None);
    assert_eq!(parse_fstab_line("   \t#"), None);
    assert_eq!(parse_fstab_line("\t# a b c d 0 0"), None);
}

#[test]
fn leading_whitespace_is_not_a_comment() {
    assert_eq!(
        parse_fstab_line("  a b c"),
        Some(entry("a", "b", "c", "", 0, 0))
    );
}

#[test]
fn tabs_separate_fields() {
    assert_eq!(
        parse_fstab_line("a\t\tb\tc\td\t2\t3"),
        Some(entry("a", "b", "c", "d", 2, 3))
    );
}

#[test]
fn four_and_five_tokens_default_the_rest() {
    assert_eq!(
        parse_fstab_line("a b c opts"),
        Some(entry("a", "b", "c", "opts", 0, 0))
    );
    assert_eq!(
        parse_fstab_line("a b c opts 3"),
        Some(entry("a", "b", "c", "opts", 3, 0))
    );
}

#[test]
fn out_of_range_dump_reads_as_zero() {
    assert_eq!(
        parse_fstab_line("a b c d 999999 1"),
        Some(entry("a", "b", "c", "d", 0, 1))
    );
}

#[test]
fn non_numeric_dump_reads_as_zero() {
    assert_eq!(
        parse_fstab_line("a b c d x 1"),
        Some(entry("a", "b", "c", "d", 0, 1))
    );
}

#[test]
fn numeric_fields_cover_the_byte_range() {
    assert_eq!(
        parse_fstab_line("a b c d -128 127"),
        Some(entry("a", "b", "c", "d", -128, 127))
    );
    assert_eq!(
        parse_fstab_line("a b c d 128 -129"),
        Some(entry("a", "b", "c", "d", 0, 0))
    );
}

#[test]
fn signs_and_zero() {
    assert_eq!(
        parse_fstab_line("a b c d +5 -0"),
        Some(entry("a", "b", "c", "d", 5, 0))
    );
    assert_eq!(
        parse_fstab_line("a b c d + -"),
        Some(entry("a", "b", "c", "d", 0, 0))
    );
}

#[test]
fn empty_input_gives_empty_table() {
    let lines: Vec<String> = vec![];
    assert_eq!(parse_fstab(&lines), FSTabFile { entries: vec![] });
}

#[test]
fn order_mirrors_input() {
    let lines: Vec<String> = vec![
        "a1 b1 c1".to_string(),
        "# dropped".to_string(),
        "a2 b2 c2".to_string(),
        "too few".to_string(),
        "a3 b3 c3".to_string(),
    ];
    let table = parse_fstab(&lines);
    assert_eq!(table.entries.len(), 3);
    assert_eq!(table.entries[0].spec, "a1");
    assert_eq!(table.entries[1].spec, "a2");
    assert_eq!(table.entries[2].spec, "a3");
}
