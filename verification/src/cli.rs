//! The command line: which test to run, on which drive and with which file.
use vstd::prelude::*;
use crate::pattern::BLOCK_SIZE;

verus! {

/// What the command line asks for.
#[derive(Clone, Copy, Debug, PartialEq, Eq, Structural)]
pub enum Mode {
    /// Nothing: the usage is shown.
    Usage,
    /// Read the test file back and check it.
    Read,
    /// Fill the free space of the drive with the test file.
    Write,
    /// Write, then read back.
    Full,
    /// Find the odd number below 10000 with the longest run of powers.
    LongestRun,
}

/// The settings read from the command line.
#[derive(Clone, Debug)]
pub struct Config {
    pub mode: Mode,
    /// The mount point of the drive.
    pub drive: String,
    /// The name of the test file on the drive.
    pub file_name: String,
}

/// The settings, as values, while the arguments are read one by one.
pub struct ArgState {
    pub mode: Mode,
    pub drive: Seq<char>,
    pub file_name: Seq<char>,
    /// The next argument is the drive.
    pub take_drive: bool,
    /// The next argument is the file name.
    pub take_path: bool,
}

/// The settings before any argument: no test, no drive, the file
/// `res-test-stuff.bin`.
pub open spec fn initial_args() -> ArgState {
    ArgState {
        mode: Mode::Usage,
        drive: Seq::empty(),
        file_name: "res-test-stuff.bin"@,
        take_drive: false,
        take_path: false,
    }
}

/// The settings after one more argument. An argument that follows
/// `--drive` or `--path` is taken as the drive or the file name, whatever
/// it is; a test flag replaces the test chosen before; anything else is
/// passed over.
pub open spec fn next_arg(st: ArgState, arg: Seq<char>) -> ArgState {
    if st.take_drive {
        ArgState { drive: arg, take_drive: false, ..st }
    } else if st.take_path {
        ArgState { file_name: arg, take_path: false, ..st }
    } else if arg == "--path"@ {
        ArgState { take_path: true, ..st }
    } else if arg == "--drive"@ {
        ArgState { take_drive: true, ..st }
    } else if arg == "--read-test"@ {
        ArgState { mode: Mode::Read, ..st }
    } else if arg == "--write-test"@ {
        ArgState { mode: Mode::Write, ..st }
    } else if arg == "--full-test"@ {
        ArgState { mode: Mode::Full, ..st }
    } else if arg == "--flrn"@ {
        ArgState { mode: Mode::LongestRun, ..st }
    } else {
        st
    }
}

/// The settings after all of `args`, in order.
pub open spec fn read_args(args: Seq<Seq<char>>) -> ArgState
    decreases args.len(),
{
    if args.len() == 0 {
        initial_args()
    } else {
        next_arg(read_args(args.drop_last()), args.last())
    }
}

/// One of the four flags that choose a test.
pub open spec fn is_test_flag(arg: Seq<char>) -> bool {
    arg == "--read-test"@ || arg == "--write-test"@ || arg == "--full-test"@ || arg == "--flrn"@
}

proof fn lemma_flags_distinct()
    ensures
        "--drive"@ != "--path"@,
        !is_test_flag("--drive"@),
        !is_test_flag("--path"@),
{
    reveal_strlit("--drive");
    reveal_strlit("--path");
    reveal_strlit("--read-test");
    reveal_strlit("--write-test");
    reveal_strlit("--full-test");
    reveal_strlit("--flrn");
    assert("--drive"@.len() != "--path"@.len());
    assert("--drive"@.len() != "--read-test"@.len());
    assert("--drive"@.len() != "--write-test"@.len());
    assert("--drive"@.len() != "--full-test"@.len());
    assert("--drive"@.len() != "--flrn"@.len());
    assert("--path"@.len() != "--read-test"@.len());
    assert("--path"@.len() != "--write-test"@.len());
    assert("--path"@.len() != "--full-test"@.len());
    assert("--path"@[2] != "--flrn"@[2]);
}

proof fn lemma_read_args_push(args: Seq<Seq<char>>, arg: Seq<char>)
    ensures
        read_args(args.push(arg)) == next_arg(read_args(args), arg),
{
    assert(args.push(arg).drop_last() =~= args);
}

/// `--drive` followed by a value, when the `--drive` is not itself taken
/// as the value of an earlier flag, makes that value the drive, whatever
/// test was chosen before, and leaves the test and the file name as they
/// were; no value is pending afterwards.
pub proof fn lemma_drive_pair(args: Seq<Seq<char>>, v: Seq<char>)
    requires
        !read_args(args).take_drive,
        !read_args(args).take_path,
    ensures
        ({
            let before = read_args(args);
            let after = read_args(args.push("--drive"@).push(v));
            &&& after.drive == v
            &&& after.mode == before.mode
            &&& after.file_name == before.file_name
            &&& !after.take_drive && !after.take_path
        }),
{
    lemma_flags_distinct();
    lemma_read_args_push(args, "--drive"@);
    lemma_read_args_push(args.push("--drive"@), v);
}

/// `--path` followed by a value, when the `--path` is not itself taken as
/// the value of an earlier flag, makes that value the file name, whatever
/// test was chosen before, and leaves the test and the drive as they were.
pub proof fn lemma_path_pair(args: Seq<Seq<char>>, v: Seq<char>)
    requires
        !read_args(args).take_drive,
        !read_args(args).take_path,
    ensures
        ({
            let before = read_args(args);
            let after = read_args(args.push("--path"@).push(v));
            &&& after.file_name == v
            &&& after.mode == before.mode
            &&& after.drive == before.drive
            &&& !after.take_drive && !after.take_path
        }),
{
    lemma_flags_distinct();
    lemma_read_args_push(args, "--path"@);
    lemma_read_args_push(args.push("--path"@), v);
}

/// A test flag that is not taken as the value of an earlier flag changes
/// neither the drive nor the file name, and leaves no value pending.
pub proof fn lemma_test_flag_keeps_settings(args: Seq<Seq<char>>, flag: Seq<char>)
    requires
        !read_args(args).take_drive,
        !read_args(args).take_path,
        is_test_flag(flag),
    ensures
        read_args(args.push(flag)).drive == read_args(args).drive,
        read_args(args.push(flag)).file_name == read_args(args).file_name,
        !read_args(args.push(flag)).take_drive,
        !read_args(args.push(flag)).take_path,
{
    lemma_flags_distinct();
    lemma_read_args_push(args, flag);
}

/// A test flag that is not taken as the value of an earlier flag chooses
/// its test, whatever was chosen before.
pub proof fn lemma_test_flag_sets_mode(args: Seq<Seq<char>>)
    requires
        !read_args(args).take_drive,
        !read_args(args).take_path,
    ensures
        read_args(args.push("--read-test"@)).mode == Mode::Read,
        read_args(args.push("--write-test"@)).mode == Mode::Write,
        read_args(args.push("--full-test"@)).mode == Mode::Full,
        read_args(args.push("--flrn"@)).mode == Mode::LongestRun,
{
    lemma_flags_distinct();
    lemma_read_args_push(args, "--read-test"@);
    lemma_read_args_push(args, "--write-test"@);
    lemma_read_args_push(args, "--full-test"@);
    lemma_read_args_push(args, "--flrn"@);
    reveal_strlit("--read-test");
    reveal_strlit("--write-test");
    reveal_strlit("--full-test");
    reveal_strlit("--flrn");
    assert("--read-test"@[2] != "--full-test"@[2]);
    assert("--write-test"@.len() != "--read-test"@.len());
    assert("--write-test"@.len() != "--full-test"@.len());
    assert("--write-test"@.len() != "--flrn"@.len());
    assert("--flrn"@.len() != "--read-test"@.len());
    assert("--flrn"@.len() != "--full-test"@.len());
}

/// A test flag and a `--drive` pair give the same settings in either order.
pub proof fn lemma_flag_and_drive_commute(args: Seq<Seq<char>>, flag: Seq<char>, v: Seq<char>)
    requires
        !read_args(args).take_drive,
        !read_args(args).take_path,
        is_test_flag(flag),
    ensures
        ({
            let one = read_args(args.push(flag).push("--drive"@).push(v));
            let two = read_args(args.push("--drive"@).push(v).push(flag));
            &&& one.mode == two.mode
            &&& one.drive == two.drive
            &&& one.drive == v
            &&& one.file_name == two.file_name
        }),
{
    lemma_flags_distinct();
    lemma_read_args_push(args, flag);
    lemma_drive_pair(args.push(flag), v);
    lemma_drive_pair(args, v);
    lemma_read_args_push(args.push("--drive"@).push(v), flag);
    lemma_read_args_push(args, "--drive"@);
    lemma_read_args_push(args.push("--drive"@), v);
}

/// Reads the command line, its first element (the program) included, as
/// each argument comes.
pub fn parse_args(args: &Vec<String>) -> (c: Config)
    ensures
        ({
            let st = read_args(args@.map_values(|a: String| a@));
            &&& c.mode == st.mode
            &&& c.drive@ == st.drive
            &&& c.file_name@ == st.file_name
        }),
{
    let ghost views = args@.map_values(|a: String| a@);
    let flag_path = String::from_str("--path");
    let flag_drive = String::from_str("--drive");
    let flag_read = String::from_str("--read-test");
    let flag_write = String::from_str("--write-test");
    let flag_full = String::from_str("--full-test");
    let flag_flrn = String::from_str("--flrn");
    let mut mode = Mode::Usage;
    let mut drive = String::new();
    let mut file_name = String::from_str("res-test-stuff.bin");
    let mut take_drive = false;
    let mut take_path = false;
    for k in 0..args.len()
        invariant
            views == args@.map_values(|a: String| a@),
            flag_path@ == "--path"@,
            flag_drive@ == "--drive"@,
            flag_read@ == "--read-test"@,
            flag_write@ == "--write-test"@,
            flag_full@ == "--full-test"@,
            flag_flrn@ == "--flrn"@,
            ({
                let st = read_args(views.subrange(0, k as int));
                &&& mode == st.mode
                &&& drive@ == st.drive
                &&& file_name@ == st.file_name
                &&& take_drive == st.take_drive
                &&& take_path == st.take_path
            }),
    {
        let arg = &args[k];
        proof {
            assert(views.subrange(0, k + 1).drop_last() =~= views.subrange(0, k as int));
            assert(views.subrange(0, k + 1).last() == arg@);
        }
        if take_drive {
            drive = arg.clone();
            take_drive = false;
        } else if take_path {
            file_name = arg.clone();
            take_path = false;
        } else if *arg == flag_path {
            take_path = true;
        } else if *arg == flag_drive {
            take_drive = true;
        } else if *arg == flag_read {
            mode = Mode::Read;
        } else if *arg == flag_write {
            mode = Mode::Write;
        } else if *arg == flag_full {
            mode = Mode::Full;
        } else if *arg == flag_flrn {
            mode = Mode::LongestRun;
        }
    }
    proof {
        assert(views.subrange(0, args@.len() as int) =~= views);
    }
    Config { mode, drive, file_name }
}

/// The path of the test file: the drive, `/` and the file name.
pub fn test_file_path(drive: &str, file_name: &str) -> (p: String)
    ensures
        p@ == drive@ + seq!['/'] + file_name@,
{
    let mut p = drive.to_owned();
    proof {
        reveal_strlit("/");
    }
    p.append("/");
    p.append(file_name);
    p
}

/// Number of whole blocks in `size` bytes: the blocks that a test writes or reads.
pub fn block_count(size: u64) -> (n: u64)
    ensures
        n == size / (BLOCK_SIZE as u64),
{
    size / (BLOCK_SIZE as u64)
}

} // verus!
