use carapace::boot::modules::{is_compressed, load_all, Entry, KoWalk, Pass};
use carapace::boot::steps::{Boot, BootAction};
use carapace::boot::sys::{clock_us, finit_flags, finit_module, switch_root_mark, Timespec, EEXIST};
use carapace::boot::{
    attach_with_retry, boot, fatal_message, has_flag, invoked_as_init, is_partition_not_found, may_wait, value,
    Attempt, BootPlan, PARTITION_WAIT_SECS, RETRY_PAUSE_MS,
};
use carapace::error::CarapaceError;

#[test]
fn init_dispatch() {
    assert!(invoked_as_init("/init"));
    assert!(invoked_as_init("init"));
    assert!(!invoked_as_init("/usr/bin/carapace"));
    assert!(!invoked_as_init("carapace"));
}

#[test]
fn init_is_told_by_the_file_name() {
    let paths = [
        "", "/", ".", "..", "init", "./init", "/sbin/init", "init/", "init//", "init/.", "init/./", "init/..",
        "/init/./.", "a/../init", "../init", "initx", "xinit", "/init/x", "init..", "init.", "...", "/./", "é/init",
        "/usr/lib/systemd/init", "init/.../", "..init", "init /",
    ];
    for path in paths {
        let name = std::path::Path::new(path).file_name().and_then(|s| s.to_str());
        assert_eq!(invoked_as_init(path), path == "/init" || name == Some("init"), "{}", path);
    }
}

#[test]
fn cmdline_value_last_wins_and_exact_key() {
    let c = "console=hvc0 root=/dev/mapper/root rootfstype=ext4 carapacehash=dead carapacehash=beef";
    assert_eq!(value(c, "carapacehash"), Some("beef"));
    assert_eq!(value(c, "rootfstype"), Some("ext4"));
    assert_eq!(value(c, "root"), Some("/dev/mapper/root"));
    assert_eq!(value(c, "init"), None);
    assert_eq!(value("carapacehash=", "carapacehash"), None);
}

#[test]
fn an_empty_value_does_not_undo_an_earlier_one() {
    assert_eq!(value("a=1 a=", "a"), Some("1"));
    assert_eq!(value("a=1\ta=2\n b=3 ", "a"), Some("2"));
    assert_eq!(value("a==", "a"), Some("="));
    assert_eq!(value("", "a"), None);
    assert_eq!(value("ключ=да", "ключ"), Some("да"));
}

#[test]
fn cmdline_flag_bare_and_valued_and_exact() {
    assert!(has_flag("quiet carapace.timing ro", "carapace.timing"));
    assert!(has_flag("carapace.timing=1", "carapace.timing"));
    assert!(!has_flag("quiet ro", "carapace.timing"));
    assert!(!has_flag("carapace.timingx", "carapace.timing"));
}

#[test]
fn an_appended_flag_is_set() {
    assert!(has_flag("quiet ro carapace.timing", "carapace.timing"));
    assert!(has_flag("carapace.timing=", "carapace.timing"));
    assert!(!has_flag("xcarapace.timing carapace.timin", "carapace.timing"));
}

fn hash() -> String {
    "0123456789abcdef".repeat(4)
}

#[test]
fn boot_reads_the_whole_plan() {
    let line = format!("carapacehash={} rootfstype=erofs init=/usr/bin/init carapace.timing", hash());
    assert_eq!(
        boot(&line),
        Ok(BootPlan {
            hash: hash(),
            rootfstype: "erofs".to_string(),
            init: "/usr/bin/init".to_string(),
            timing: true,
        })
    );
}

#[test]
fn boot_has_defaults_and_a_second_key() {
    let line = format!("root.carapace={}", hash());
    assert_eq!(
        boot(&line),
        Ok(BootPlan {
            hash: hash(),
            rootfstype: "ext4".to_string(),
            init: "/sbin/init".to_string(),
            timing: false,
        })
    );
    let both = format!("carapacehash={}0 root.carapace={}", hash(), hash());
    assert_eq!(boot(&both).unwrap().hash, format!("{}0", hash()));
}

#[test]
fn boot_rejects_what_is_no_hash() {
    assert_eq!(boot("quiet").unwrap_err(), "no carapacehash= on the kernel command line");
    assert_eq!(
        boot("carapacehash=dead").unwrap_err(),
        "carapacehash must be lowercase hex of at least 64 chars, got \"dead\""
    );
    let upper = format!("carapacehash={}", hash().to_uppercase());
    assert!(boot(&upper).is_err());
    let odd = format!("carapacehash={}\"", hash());
    assert_eq!(
        boot(&odd).unwrap_err(),
        format!("carapacehash must be lowercase hex of at least 64 chars, got {:?}", format!("{}\"", hash()))
    );
    let short = format!("carapacehash={}", &hash()[..63]);
    assert!(boot(&short).is_err());
}

#[test]
fn only_a_missing_partition_is_waited_for() {
    let missing = CarapaceError::PartitionNotFound { detail: "p".to_string() };
    let other = CarapaceError::Rejected("r".to_string());
    assert!(is_partition_not_found(&missing));
    assert!(!is_partition_not_found(&other));
    assert_eq!(attach_with_retry(None, "", 9000), Attempt::Attached);
    assert_eq!(attach_with_retry(Some(&missing), "no p", 0), Attempt::Wait { pause_ms: 5 });
    assert_eq!(attach_with_retry(Some(&missing), "no p", 4999), Attempt::Wait { pause_ms: 5 });
    assert_eq!(
        attach_with_retry(Some(&missing), "no p", 5000),
        Attempt::GiveUp("carapace attach: no p".to_string())
    );
    assert_eq!(
        attach_with_retry(Some(&other), "bad", 0),
        Attempt::GiveUp("carapace attach: bad".to_string())
    );
    assert!(may_wait(4999));
    assert!(!may_wait(5000));
    assert!(!may_wait(1000 * RETRY_PAUSE_MS));
    assert!(!may_wait(u64::MAX));
    assert_eq!(PARTITION_WAIT_SECS, 5);
    assert_eq!(RETRY_PAUSE_MS, 5);
}

#[test]
fn the_fatal_message_is_exact() {
    assert_eq!(fatal_message("x"), "\ncarapace init: FATAL: x\npowering off.\n");
}

#[test]
fn a_loaded_module_is_no_failure() {
    assert_eq!(finit_module("/m/a.ko", 0, None, ""), Ok(()));
    assert_eq!(finit_module("/m/a.ko", -1, Some(EEXIST), "File exists"), Ok(()));
    assert_eq!(
        finit_module("/m/a.ko", -1, Some(2), "No such file"),
        Err("finit_module /m/a.ko: No such file".to_string())
    );
    assert!(finit_module("/m/a.ko", -1, None, "?").is_err());
    assert_eq!(EEXIST, libc::EEXIST);
    assert_eq!(finit_flags(true), 4);
    assert_eq!(finit_flags(false), 0);
}

#[test]
fn clocks_are_read_in_microseconds() {
    assert_eq!(clock_us(Some(Timespec { sec: 3, nsec: 4_005_999 })), 3_004_005);
    assert_eq!(clock_us(None), 0);
    assert_eq!(switch_root_mark(12, 345), "carapace: switch_root boot_us=12 epoch_us=345\n");
}

fn entry(path: &str, is_dir: bool) -> Entry<String> {
    Entry { path: path.to_string(), is_dir, name: path.rsplit('/').next().map(str::to_string) }
}

#[test]
fn the_walk_finds_modules_in_all_directories() {
    let mut walk = KoWalk::collect_kos("/m".to_string());
    assert_eq!(walk.next_dir(), Some("/m".to_string()));
    walk.listed(vec![
        entry("/m/a.ko", false),
        entry("/m/x", true),
        entry("/m/modules.dep", false),
        entry("/m/y.ko", true),
        entry("/m/b.ko.xz", false),
        Entry { path: "/m/odd".to_string(), is_dir: false, name: None },
    ]);
    assert_eq!(walk.next_dir(), Some("/m/y.ko".to_string()));
    walk.listed(vec![]);
    assert_eq!(walk.next_dir(), Some("/m/x".to_string()));
    walk.listed(vec![entry("/m/x/c.ko", false)]);
    assert_eq!(walk.next_dir(), None);
    assert_eq!(walk.found, vec!["/m/a.ko", "/m/b.ko.xz", "/m/x/c.ko"]);
}

#[test]
fn compression_is_told_by_the_extension() {
    let names = ["a.ko", "a.ko.xz", "a.ko.gz", "a.ko.zst", ".xz", "xz", "a.xz.ko", "a.", "a..gz", "", "é.zst", "a.XZ"];
    for name in names {
        let ext = std::path::Path::new(name).extension().and_then(|e| e.to_str());
        assert_eq!(is_compressed(name), matches!(ext, Some("xz") | Some("gz") | Some("zst")), "{}", name);
    }
}

fn failed(text: &str) -> Result<(), String> {
    Err(text.to_string())
}

#[test]
fn a_pass_retries_what_failed() {
    match load_all(vec![1, 2, 3], vec![failed("a"), Ok(()), failed("c")]) {
        Pass::Again(next) => assert_eq!(next, vec![1, 3]),
        _ => panic!("not again"),
    }
    assert!(matches!(load_all(vec![1], vec![Ok(())]), Pass::Done));
    assert!(matches!(load_all(Vec::<u8>::new(), vec![]), Pass::Done));
}

#[test]
fn a_pass_without_progress_is_the_last() {
    match load_all(vec![1, 2], vec![failed("a"), failed("b")]) {
        Pass::Stuck(text) => {
            assert_eq!(text, "2 module(s) failed to load (unresolved deps?); last: b");
        }
        _ => panic!("not stuck"),
    }
}

#[test]
fn passes_converge_in_dependency_order() {
    let mut loaded: Vec<u32> = Vec::new();
    let mut pending: Vec<u32> = vec![4, 3, 2, 1];
    let mut passes = 0;
    let mut tries = 0;
    loop {
        let mut outcomes = Vec::new();
        for m in &pending {
            if *m == 1 || loaded.contains(&(m - 1)) {
                loaded.push(*m);
                outcomes.push(Ok(()));
            } else {
                outcomes.push(failed("unresolved"));
            }
        }
        passes += 1;
        tries += pending.len();
        match load_all(pending, outcomes) {
            Pass::Done => break,
            Pass::Again(next) => pending = next,
            Pass::Stuck(text) => panic!("{}", text),
        }
    }
    assert_eq!(passes, 4);
    assert_eq!(tries, 4 * 5 / 2);
    assert_eq!(loaded, vec![1, 2, 3, 4]);
}

#[test]
fn other_words_are_ignored() {
    let line = format!("carapacehash={}", hash());
    let longer = format!("{line} quiet root=/dev/mapper/root carapacehashes=1 carapacehash= initrd=x");
    assert_eq!(boot(&line), boot(&longer));
}

fn at_cmdline() -> Boot {
    Boot::start().done(Ok(())).done(Ok(())).done(Ok(()))
}

fn fatal(boot: &Boot) -> String {
    match boot.next() {
        BootAction::PowerOff { message } => message,
        other => panic!("{:?}", other),
    }
}

#[test]
fn the_steps_of_the_boot_are_in_order() {
    let boot = Boot::start();
    assert_eq!(boot.next(), BootAction::MountApi);
    let boot = boot.done(Ok(()));
    assert_eq!(boot.next(), BootAction::ReopenConsole);
    let boot = boot.done(Ok(()));
    assert_eq!(boot.next(), BootAction::LoadModules { root: "/usr/lib/modules" });
    let boot = boot.done(Ok(()));
    assert_eq!(boot.next(), BootAction::ReadCmdline { path: "/proc/cmdline" });
    let boot = boot.read(Ok(format!("carapacehash={} rootfstype=erofs init=/i carapace.timing", hash())));
    let root = hash();
    assert_eq!(boot.next(), BootAction::Attach { name: "root", hash: &root });
    let boot = boot.done(Ok(()));
    assert_eq!(
        boot.next(),
        BootAction::MountRoot { device: "/dev/mapper/root", target: "/sysroot", fstype: "erofs" }
    );
    let boot = boot.done(Ok(()));
    assert_eq!(boot.next(), BootAction::Mark);
    let boot = boot.done(Ok(()));
    assert_eq!(boot.next(), BootAction::SwitchRoot { root: "/sysroot", init: "/i" });
    let boot = boot.done(Ok(()));
    assert_eq!(fatal(&boot), fatal_message("switch_root returned unexpectedly"));
}

#[test]
fn the_timing_marker_is_printed_only_on_request() {
    let boot = at_cmdline().read(Ok(format!("carapacehash={}", hash())));
    let boot = boot.done(Ok(())).done(Ok(()));
    assert_eq!(boot.next(), BootAction::SwitchRoot { root: "/sysroot", init: "/sbin/init" });
}

#[test]
fn the_boot_stops_at_the_first_failure() {
    assert_eq!(fatal(&Boot::start().done(failed("mount"))), fatal_message("mount"));
    let modules = Boot::start().done(Ok(())).done(Ok(())).done(failed("stuck"));
    assert_eq!(fatal(&modules), fatal_message("stuck"));
    let unread = at_cmdline().read(Err("gone".to_string()));
    assert_eq!(fatal(&unread), fatal_message("read /proc/cmdline: gone"));
    let unplanned = at_cmdline().read(Ok("quiet".to_string()));
    assert_eq!(fatal(&unplanned), fatal_message("no carapacehash= on the kernel command line"));
    let plan = || at_cmdline().read(Ok(format!("carapacehash={}", hash())));
    assert_eq!(fatal(&plan().done(failed("attach"))), fatal_message("attach"));
    assert_eq!(fatal(&plan().done(Ok(())).done(failed("mount"))), fatal_message("mount"));
    assert_eq!(fatal(&plan().done(Ok(())).done(Ok(())).done(failed("execv"))), fatal_message("execv"));
}
