use flash_test::cli::{block_count, parse_args, test_file_path, Mode};

fn args(list: &[&str]) -> Vec<String> {
    list.iter().map(|s| s.to_string()).collect()
}

#[test]
fn no_flags_asks_for_usage() {
    let c = parse_args(&args(&["flash"]));
    assert_eq!(c.mode, Mode::Usage);
    assert_eq!(c.drive, "");
    assert_eq!(c.file_name, "res-test-stuff.bin");
}

#[test]
fn drive_and_read_test() {
    let c = parse_args(&args(&["flash", "--drive", "G:", "--read-test"]));
    assert_eq!(c.mode, Mode::Read);
    assert_eq!(c.drive, "G:");
    assert_eq!(c.file_name, "res-test-stuff.bin");
}

#[test]
fn last_test_flag_wins() {
    let c = parse_args(&args(&["flash", "--write-test", "--flrn", "--full-test"]));
    assert_eq!(c.mode, Mode::Full);
    let c = parse_args(&args(&["flash", "--full-test", "--write-test"]));
    assert_eq!(c.mode, Mode::Write);
    let c = parse_args(&args(&["flash", "--flrn"]));
    assert_eq!(c.mode, Mode::LongestRun);
}

#[test]
fn value_after_path_is_taken_whatever_it_is() {
    let c = parse_args(&args(&["flash", "--path", "--read-test", "--drive", "/mnt/usb"]));
    assert_eq!(c.mode, Mode::Usage);
    assert_eq!(c.file_name, "--read-test");
    assert_eq!(c.drive, "/mnt/usb");
}

#[test]
fn flag_at_the_end_without_value_changes_nothing() {
    let c = parse_args(&args(&["flash", "--read-test", "--drive"]));
    assert_eq!(c.mode, Mode::Read);
    assert_eq!(c.drive, "");
}

#[test]
fn unknown_arguments_are_passed_over() {
    let c = parse_args(&args(&["flash", "--verbose", "x", "--write-test", "y"]));
    assert_eq!(c.mode, Mode::Write);
    assert_eq!(c.file_name, "res-test-stuff.bin");
}

#[test]
fn file_path_joins_drive_and_name() {
    assert_eq!(test_file_path("G:", "res-test-stuff.bin"), "G:/res-test-stuff.bin");
    assert_eq!(test_file_path("", "a"), "/a");
}

#[test]
fn blocks_are_whole_4096_byte_units() {
    assert_eq!(block_count(0), 0);
    assert_eq!(block_count(4095), 0);
    assert_eq!(block_count(4096), 1);
    assert_eq!(block_count(10 * 4096 + 17), 10);
    assert_eq!(block_count(u64::MAX), u64::MAX / 4096);
}
